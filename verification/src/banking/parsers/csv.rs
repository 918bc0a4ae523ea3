//! Account statements exported as CSV, with `;` between the fields and the
//! German column names of the export in the first line.
use vstd::prelude::*;

use crate::banking::utils::{non_blank, none_if_empty, normalize_date, normalized_date};
use crate::decimal::{german_minor, german_to_plain, german_to_plain_exec, int_to_decimal, nat_to_chars, parse_german_minor};
use crate::model::{new_transactions_view, NewTransaction, NewTransactionView};
use crate::text::{all_ws, append_chars, chars_eq, from_chars, to_chars};

verus! {

// ---------------------------------------------------------------------------
// Reading the records
// ---------------------------------------------------------------------------

/// The records that the `csv` crate reads from `data` with `;` as the
/// delimiter and no header handling, each as its fields and the position
/// where it starts (record index, line, byte offset), or as the text of the
/// error that reading it gave.
pub uninterp spec fn semicolon_csv_records(data: Seq<u8>) -> Seq<Result<(Seq<Seq<char>>, Option<(u64, u64, u64)>), Seq<char>>>;

/// A record as the reader hands it out: its fields, and the record index,
/// line and byte offset where it starts, if the reader knows them.
pub type CsvRecord = (Vec<String>, Option<(u64, u64, u64)>);

/// The records with their fields as character sequences.
pub open spec fn records_view(v: Seq<Result<CsvRecord, String>>) -> Seq<
    Result<(Seq<Seq<char>>, Option<(u64, u64, u64)>), Seq<char>>,
> {
    Seq::new(
        v.len(),
        |i: int|
            match v[i] {
                Ok(r) => Ok((r.0.deep_view(), r.1)),
                Err(e) => Err(e@),
            },
    )
}

/// Reads `data` as CSV with the `csv` crate (`ReaderBuilder` with `;` as the
/// delimiter and `has_headers(false)`, then `into_records`): every record the
/// reader yields, in order, as its fields with its `position()` (record,
/// line, byte), or as the text of the `csv::Error` that reading it gave. The
/// contract only claims that the result is `semicolon_csv_records` of the
/// bytes; the CSV grammar (quoting, line endings, equal field counts) and
/// the counting of positions are the crate's.
#[verifier::external_body]
fn read_semicolon_records(data: &[u8]) -> (res: Vec<Result<CsvRecord, String>>)
    ensures
        records_view(res@) == semicolon_csv_records(data@),
{
    ::csv::ReaderBuilder::new().delimiter(b';').has_headers(false).from_reader(data).into_records().map(
        |r|
            r.map(
                |rec|
                    (
                        rec.iter().map(String::from).collect(),
                        rec.position().map(|p| (p.record(), p.line(), p.byte())),
                    ),
            ).map_err(|e| e.to_string()),
    ).collect()
}

// ---------------------------------------------------------------------------
// The columns
// ---------------------------------------------------------------------------

/// A record of the export, by the struct's fields; the columns that are
/// not optional must be present.
#[derive(Debug, Clone, PartialEq, Eq)]
pub struct CsvTransactionRow {
    pub booking_text: String,
    pub debtor_iban: Option<String>,
    pub debtor_bic: Option<String>,
    pub debtor_name: Option<String>,
    pub booking_date: String,
    pub value_date: Option<String>,
    pub creditor_name: Option<String>,
    pub creditor_iban: Option<String>,
    pub creditor_bic: Option<String>,
    pub remittance_information: Option<String>,
    pub amount: String,
    pub currency: String,
    pub balance_after_string: Option<String>,
    pub mandate_reference: Option<String>,
}

pub struct CsvTransactionRowView {
    pub booking_text: Seq<char>,
    pub debtor_iban: Option<Seq<char>>,
    pub debtor_bic: Option<Seq<char>>,
    pub debtor_name: Option<Seq<char>>,
    pub booking_date: Seq<char>,
    pub value_date: Option<Seq<char>>,
    pub creditor_name: Option<Seq<char>>,
    pub creditor_iban: Option<Seq<char>>,
    pub creditor_bic: Option<Seq<char>>,
    pub remittance_information: Option<Seq<char>>,
    pub amount: Seq<char>,
    pub currency: Seq<char>,
    pub balance_after_string: Option<Seq<char>>,
    pub mandate_reference: Option<Seq<char>>,
}

impl View for CsvTransactionRow {
    type V = CsvTransactionRowView;

    open spec fn view(&self) -> CsvTransactionRowView {
        CsvTransactionRowView {
            booking_text: self.booking_text@,
            debtor_iban: self.debtor_iban.deep_view(),
            debtor_bic: self.debtor_bic.deep_view(),
            debtor_name: self.debtor_name.deep_view(),
            booking_date: self.booking_date@,
            value_date: self.value_date.deep_view(),
            creditor_name: self.creditor_name.deep_view(),
            creditor_iban: self.creditor_iban.deep_view(),
            creditor_bic: self.creditor_bic.deep_view(),
            remittance_information: self.remittance_information.deep_view(),
            amount: self.amount@,
            currency: self.currency@,
            balance_after_string: self.balance_after_string.deep_view(),
            mandate_reference: self.mandate_reference.deep_view(),
        }
    }
}

/// The column names, in the order of the fields of `CsvTransactionRow`.
pub open spec fn csv_columns() -> Seq<Seq<char>> {
    seq![
        "Buchungstext"@,
        "IBAN Auftragskonto"@,
        "BIC Auftragskonto"@,
        "Bezeichnung Auftragskonto"@,
        "Buchungstag"@,
        "Valutadatum"@,
        "Name Zahlungsbeteiligter"@,
        "IBAN Zahlungsbeteiligter"@,
        "BIC (SWIFT-Code) Zahlungsbeteiligter"@,
        "Verwendungszweck"@,
        "Betrag"@,
        "Waehrung"@,
        "Saldo nach Buchung"@,
        "Mandatsreferenz"@,
    ]
}

/// The columns that a record must have: booking text, booking date, amount
/// and currency.
pub open spec fn is_required_column(k: int) -> bool {
    k == 0 || k == 4 || k == 10 || k == 11
}

/// The first field of `CsvTransactionRow` whose column is named `key`.
pub open spec fn column_index(key: Seq<char>) -> Option<int> {
    if exists|k: int| 0 <= k < 14 && csv_columns()[k] == key && forall|j: int|
        0 <= j < k ==> csv_columns()[j] != key {
        Some(
            choose|k: int|
                0 <= k < 14 && csv_columns()[k] == key && forall|j: int|
                    0 <= j < k ==> csv_columns()[j] != key,
        )
    } else {
        None
    }
}

/// The fields seen so far in a record, and their values.
pub struct RowScan {
    pub seen: Seq<bool>,
    pub vals: Seq<Option<Seq<char>>>,
}

pub open spec fn end_of_row_message() -> Seq<char> {
    "expected field, but got end of row"@
}

pub open spec fn duplicate_message(k: int) -> Seq<char> {
    "duplicate field `"@ + csv_columns()[k] + "`"@
}

pub open spec fn missing_message(k: int) -> Seq<char> {
    "missing field `"@ + csv_columns()[k] + "`"@
}

/// Reading the field under the column `key` (`None` past the end of the
/// record): a column of the struct takes the field, empty meaning absent
/// for an optional one; a column seen twice, or a missing field where one is
/// needed, is an error; any other column is skipped.
pub open spec fn row_step(st: RowScan, key: Seq<char>, field: Option<Seq<char>>) -> Result<
    RowScan,
    Seq<char>,
> {
    match column_index(key) {
        Some(k) => if st.seen[k] {
            Err(duplicate_message(k))
        } else if !is_required_column(k) {
            Ok(
                RowScan {
                    seen: st.seen.update(k, true),
                    vals: st.vals.update(
                        k,
                        match field {
                            Some(f) => if f.len() == 0 {
                                None
                            } else {
                                Some(f)
                            },
                            None => None,
                        },
                    ),
                },
            )
        } else {
            match field {
                Some(f) => Ok(RowScan { seen: st.seen.update(k, true), vals: st.vals.update(k, Some(f)) }),
                None => Err(end_of_row_message()),
            }
        },
        None => match field {
            Some(_) => Ok(st),
            None => Err(end_of_row_message()),
        },
    }
}

pub open spec fn empty_row_scan() -> RowScan {
    RowScan { seen: Seq::new(14, |k: int| false), vals: Seq::new(14, |k: int| None) }
}

/// Reading the first `n` columns of the header against the record.
pub open spec fn row_scan(header: Seq<Seq<char>>, row: Seq<Seq<char>>, n: nat) -> Result<
    RowScan,
    Seq<char>,
>
    decreases n,
{
    if n == 0 {
        Ok(empty_row_scan())
    } else {
        match row_scan(header, row, (n - 1) as nat) {
            Ok(st) => row_step(
                st,
                header[n - 1],
                if n - 1 < row.len() {
                    Some(row[n - 1])
                } else {
                    None
                },
            ),
            Err(e) => Err(e),
        }
    }
}

pub open spec fn value_or_empty(v: Option<Seq<char>>) -> Seq<char> {
    match v {
        Some(s) => s,
        None => Seq::empty(),
    }
}

/// A record read by the header's column names, as serde's derived
/// `Deserialize` reads it through the `csv` crate.
pub open spec fn decode_row(header: Seq<Seq<char>>, row: Seq<Seq<char>>) -> Result<
    CsvTransactionRowView,
    Seq<char>,
> {
    match row_scan(header, row, header.len()) {
        Err(e) => Err(e),
        Ok(st) => if !st.seen[0] {
            Err(missing_message(0))
        } else if !st.seen[4] {
            Err(missing_message(4))
        } else if !st.seen[10] {
            Err(missing_message(10))
        } else if !st.seen[11] {
            Err(missing_message(11))
        } else {
            Ok(
                CsvTransactionRowView {
                    booking_text: value_or_empty(st.vals[0]),
                    debtor_iban: st.vals[1],
                    debtor_bic: st.vals[2],
                    debtor_name: st.vals[3],
                    booking_date: value_or_empty(st.vals[4]),
                    value_date: st.vals[5],
                    creditor_name: st.vals[6],
                    creditor_iban: st.vals[7],
                    creditor_bic: st.vals[8],
                    remittance_information: st.vals[9],
                    amount: value_or_empty(st.vals[10]),
                    currency: value_or_empty(st.vals[11]),
                    balance_after_string: st.vals[12],
                    mandate_reference: st.vals[13],
                },
            )
        },
    }
}

/// An optional field as the `csv` crate hands it to serde: empty is absent.
pub open spec fn optional_field(f: Seq<char>) -> Option<Seq<char>> {
    if f.len() == 0 {
        None
    } else {
        Some(f)
    }
}

/// A record read by position, as serde's derived `Deserialize` reads it
/// through the `csv` crate where the header row could not be read: the
/// fields in the order of the struct's fields, later ones ignored; too few
/// fields is an error.
pub open spec fn decode_positional(row: Seq<Seq<char>>) -> Result<CsvTransactionRowView, Seq<char>> {
    if row.len() < 14 {
        Err(
            "invalid length "@ + int_to_decimal(row.len() as int)
                + ", expected struct CsvTransactionRow with 14 elements"@,
        )
    } else {
        Ok(
            CsvTransactionRowView {
                booking_text: row[0],
                debtor_iban: optional_field(row[1]),
                debtor_bic: optional_field(row[2]),
                debtor_name: optional_field(row[3]),
                booking_date: row[4],
                value_date: optional_field(row[5]),
                creditor_name: optional_field(row[6]),
                creditor_iban: optional_field(row[7]),
                creditor_bic: optional_field(row[8]),
                remittance_information: optional_field(row[9]),
                amount: row[10],
                currency: row[11],
                balance_after_string: optional_field(row[12]),
                mandate_reference: optional_field(row[13]),
            },
        )
    }
}

/// A record read by the header's column names where the header could be
/// read, by position where it could not.
pub open spec fn decode_record(header: Option<Seq<Seq<char>>>, row: Seq<Seq<char>>) -> Result<
    CsvTransactionRowView,
    Seq<char>,
> {
    match header {
        Some(h) => decode_row(h, row),
        None => decode_positional(row),
    }
}

// ---------------------------------------------------------------------------
// From a record to a transaction
// ---------------------------------------------------------------------------

/// The text without whitespace, or `None`.
pub open spec fn non_blank_view(o: Option<Seq<char>>) -> Option<Seq<char>> {
    match o {
        Some(v) => if all_ws(v) {
            None
        } else {
            Some(v)
        },
        None => None,
    }
}

/// What `str::parse::<f64>` says of a text that is no number.
pub open spec fn float_error_message(plain: Seq<char>) -> Seq<char> {
    if plain.len() == 0 {
        "cannot parse float from empty string"@
    } else {
        "invalid float literal"@
    }
}

/// The transaction of a record: amount and balance from German decimals
/// to minor units, dates to `YYYY-MM-DD`, blank optional texts dropped; an
/// amount that is no number is an error.
pub open spec fn row_transaction(r: CsvTransactionRowView, bank_account_id: i32) -> Result<
    NewTransactionView,
    Seq<char>,
> {
    match german_minor(r.amount) {
        None => Err(
            "Invalid amount format '"@ + r.amount + "': "@ + float_error_message(
                german_to_plain(r.amount),
            ),
        ),
        Some(amount_minor) => Ok(
            NewTransactionView {
                booking_text: r.booking_text,
                debtor_name: non_blank_view(r.debtor_name),
                debtor_iban: non_blank_view(r.debtor_iban),
                debtor_bic: non_blank_view(r.debtor_bic),
                creditor_name: non_blank_view(r.creditor_name),
                creditor_iban: non_blank_view(r.creditor_iban),
                creditor_bic: non_blank_view(r.creditor_bic),
                amount_minor,
                currency_code: r.currency,
                booking_date: normalized_date(r.booking_date),
                value_date: match r.value_date {
                    Some(d) => Some(normalized_date(d)),
                    None => None,
                },
                balance_after_minor: match r.balance_after_string {
                    Some(s) => german_minor(s),
                    None => None,
                },
                mandate_reference: non_blank_view(r.mandate_reference),
                remittance_information: non_blank_view(r.remittance_information),
                bank_account_id,
            },
        ),
    }
}

pub open spec fn csv_error_prefix() -> Seq<char> {
    "CSV Parse Error: "@
}

/// Where a record that cannot be decoded starts, as the `csv` crate's
/// deserialization error names it: nothing where the position is unknown.
pub open spec fn position_text(pos: Option<(u64, u64, u64)>) -> Seq<char> {
    match pos {
        Some((record, line, byte)) => "record "@ + int_to_decimal(record as int) + " (line: "@
            + int_to_decimal(line as int) + ", byte: "@ + int_to_decimal(byte as int) + "): "@,
        None => Seq::empty(),
    }
}

/// The transactions of the records after the header up to record `n`; the
/// first record that cannot be read, decoded or converted ends it with an
/// error.
pub open spec fn csv_rows_result(
    header: Option<Seq<Seq<char>>>,
    records: Seq<Result<(Seq<Seq<char>>, Option<(u64, u64, u64)>), Seq<char>>>,
    n: nat,
    bank_account_id: i32,
) -> Result<Seq<NewTransactionView>, Seq<char>>
    decreases n,
{
    if n <= 1 {
        Ok(Seq::empty())
    } else {
        match csv_rows_result(header, records, (n - 1) as nat, bank_account_id) {
            Err(e) => Err(e),
            Ok(txs) => match records[n - 1] {
                Err(e) => Err(csv_error_prefix() + e),
                Ok((row, pos)) => match decode_record(header, row) {
                    Err(m) => Err(
                        csv_error_prefix() + "CSV deserialize error: "@ + position_text(pos) + m,
                    ),
                    Ok(r) => match row_transaction(r, bank_account_id) {
                        Err(m) => Err(m),
                        Ok(t) => Ok(txs.push(t)),
                    },
                },
            },
        }
    }
}

/// The transactions of the records of a CSV export, the first of which
/// names the columns; where that first record cannot be read, the others
/// are read by position.
pub open spec fn csv_result(records: Seq<Result<(Seq<Seq<char>>, Option<(u64, u64, u64)>), Seq<char>>>, bank_account_id: i32) -> Result<
    Seq<NewTransactionView>,
    Seq<char>,
> {
    if records.len() == 0 {
        Ok(Seq::empty())
    } else {
        let header = match records[0] {
            Ok((h, _)) => Some(h),
            Err(_) => None,
        };
        csv_rows_result(header, records, records.len(), bank_account_id)
    }
}

// ---------------------------------------------------------------------------
// Reading a record
// ---------------------------------------------------------------------------

fn csv_column_names() -> (res: Vec<Vec<char>>)
    ensures
        res.deep_view() == csv_columns(),
{
    let mut v: Vec<Vec<char>> = Vec::new();
    v.push(to_chars("Buchungstext"));
    v.push(to_chars("IBAN Auftragskonto"));
    v.push(to_chars("BIC Auftragskonto"));
    v.push(to_chars("Bezeichnung Auftragskonto"));
    v.push(to_chars("Buchungstag"));
    v.push(to_chars("Valutadatum"));
    v.push(to_chars("Name Zahlungsbeteiligter"));
    v.push(to_chars("IBAN Zahlungsbeteiligter"));
    v.push(to_chars("BIC (SWIFT-Code) Zahlungsbeteiligter"));
    v.push(to_chars("Verwendungszweck"));
    v.push(to_chars("Betrag"));
    v.push(to_chars("Waehrung"));
    v.push(to_chars("Saldo nach Buchung"));
    v.push(to_chars("Mandatsreferenz"));
    proof {
        assert forall|k: int| 0 <= k < 14 implies v[k].deep_view() == v[k]@ by {
            assert(v[k].deep_view() =~= v[k]@);
        }
    }
    assert(v.deep_view() =~= csv_columns());
    v
}

fn column_index_exec(key: &[char], names: &Vec<Vec<char>>) -> (res: Option<usize>)
    requires
        names.deep_view() == csv_columns(),
    ensures
        match column_index(key@) {
            Some(k) => res == Some(k as usize),
            None => res is None,
        },
{
    let mut k: usize = 0;
    assert(names.deep_view().len() == 14);
    while k < 14
        invariant
            k <= 14,
            names@.len() == 14,
            names.deep_view() == csv_columns(),
            forall|j: int| 0 <= j < k ==> csv_columns()[j] != key@,
        decreases 14 - k,
    {
        assert(names.deep_view()[k as int] == names[k as int]@);
        if chars_eq(&names[k], key) {
            proof {
                let c = choose|c: int|
                    0 <= c < 14 && csv_columns()[c] == key@ && forall|j: int|
                        0 <= j < c ==> csv_columns()[j] != key@;
                assert(0 <= c < 14 && csv_columns()[c] == key@);
                if c < k {
                } else if c > k {
                    assert(csv_columns()[k as int] == key@);
                }
            }
            return Some(k);
        }
        k = k + 1;
    }
    None
}

/// Where the value of each field comes from: the record's field at an
/// index, or nowhere.
pub open spec fn source_view(row: Seq<Seq<char>>, src: Seq<Option<usize>>) -> Seq<Option<Seq<char>>> {
    Seq::new(
        src.len(),
        |k: int|
            match src[k] {
                Some(i) => Some(row[i as int]),
                None => None,
            },
    )
}

fn take_field(row: &Vec<String>, src: Option<usize>) -> (res: Option<String>)
    requires
        src matches Some(i) ==> i < row.len(),
    ensures
        res.deep_view() == match src {
            Some(i) => Some(row.deep_view()[i as int]),
            None => None,
        },
{
    match src {
        Some(i) => Some(row[i].clone()),
        None => None,
    }
}

fn take_required(row: &Vec<String>, src: Option<usize>) -> (res: String)
    requires
        src matches Some(i) ==> i < row.len(),
    ensures
        res@ == value_or_empty(
            match src {
                Some(i) => Some(row.deep_view()[i as int]),
                None => None,
            },
        ),
{
    match src {
        Some(i) => row[i].clone(),
        None => String::new(),
    }
}

fn lit_chars(s: &str) -> (res: Vec<char>)
    ensures
        res@ == s@,
{
    to_chars(s)
}

fn named_message(prefix: &str, name: &[char]) -> (res: Vec<char>)
    ensures
        res@ == prefix@ + name@ + "`"@,
{
    let mut m = lit_chars(prefix);
    append_chars(&mut m, name);
    let tick = lit_chars("`");
    append_chars(&mut m, &tick);
    m
}

proof fn lemma_row_scan_err_sticky(header: Seq<Seq<char>>, row: Seq<Seq<char>>, n: nat, m: nat)
    requires
        n <= m,
        row_scan(header, row, n) is Err,
    ensures
        row_scan(header, row, m) == row_scan(header, row, n),
    decreases m - n,
{
    if n < m {
        lemma_row_scan_err_sticky(header, row, n, (m - 1) as nat);
    }
}

fn decode_row_exec(header: &Vec<String>, row: &Vec<String>, names: &Vec<Vec<char>>) -> (res: Result<
    CsvTransactionRow,
    Vec<char>,
>)
    requires
        names.deep_view() == csv_columns(),
    ensures
        match decode_row(header.deep_view(), row.deep_view()) {
            Ok(v) => res matches Ok(r) && r@ == v,
            Err(e) => res matches Err(m) && m@ == e,
        },
{
    let ghost hv = header.deep_view();
    let ghost rv = row.deep_view();
    assert(names.deep_view().len() == 14);
    let mut seen: Vec<bool> = Vec::new();
    let mut src: Vec<Option<usize>> = Vec::new();
    let mut k: usize = 0;
    while k < 14
        invariant
            k <= 14,
            seen@.len() == k,
            src@.len() == k,
            forall|j: int| 0 <= j < k ==> #[trigger] src@[j] is None,
            forall|j: int| 0 <= j < k ==> !#[trigger] seen@[j],
        decreases 14 - k,
    {
        seen.push(false);
        src.push(None);
        k = k + 1;
    }
    assert(seen@ =~= empty_row_scan().seen);
    assert(source_view(rv, src@) =~= empty_row_scan().vals);
    let mut i: usize = 0;
    while i < header.len()
        invariant
            i <= header.len(),
            hv == header.deep_view(),
            rv == row.deep_view(),
            names.deep_view() == csv_columns(),
            names@.len() == 14,
            seen@.len() == 14,
            src@.len() == 14,
            forall|j: int| 0 <= j < 14 ==> (#[trigger] src@[j] matches Some(x) ==> x < row.len()),
            row_scan(hv, rv, i as nat) == Ok::<RowScan, Seq<char>>(
                RowScan { seen: seen@, vals: source_view(rv, src@) },
            ),
        decreases header.len() - i,
    {
        let key = to_chars(header[i].as_str());
        assert(hv[i as int] == key@);
        let ghost st = RowScan { seen: seen@, vals: source_view(rv, src@) };
        let field_present = i < row.len();
        proof {
            if field_present {
                assert(rv[i as int] == row[i as int]@);
            }
        }
        match column_index_exec(&key, names) {
            Some(k) => {
                if seen[k] {
                    assert(names.deep_view()[k as int] == names[k as int]@);
                    let m = named_message("duplicate field `", &names[k]);
                    proof {
                        lemma_row_scan_err_sticky(hv, rv, i as nat + 1, hv.len());
                    }
                    return Err(m);
                }
                let required = k == 0 || k == 4 || k == 10 || k == 11;
                if !required {
                    let ghost before = src@;
                    if field_present && !row[i].as_str().is_empty() {
                        src.set(k, Some(i));
                    } else {
                        src.set(k, None);
                    }
                    seen.set(k, true);
                    proof {
                        assert(source_view(rv, src@) =~= st.vals.update(
                            k as int,
                            if field_present && rv[i as int].len() > 0 {
                                Some(rv[i as int])
                            } else {
                                None
                            },
                        ));
                    }
                } else {
                    if !field_present {
                        proof {
                            lemma_row_scan_err_sticky(hv, rv, i as nat + 1, hv.len());
                        }
                        return Err(lit_chars("expected field, but got end of row"));
                    }
                    src.set(k, Some(i));
                    seen.set(k, true);
                    assert(source_view(rv, src@) =~= st.vals.update(k as int, Some(rv[i as int])));
                }
            },
            None => {
                if !field_present {
                    proof {
                        lemma_row_scan_err_sticky(hv, rv, i as nat + 1, hv.len());
                    }
                    return Err(lit_chars("expected field, but got end of row"));
                }
            },
        }
        i = i + 1;
    }
    let ghost st = RowScan { seen: seen@, vals: source_view(rv, src@) };
    assert(names.deep_view()[0] == names[0]@);
    assert(names.deep_view()[4] == names[4]@);
    assert(names.deep_view()[10] == names[10]@);
    assert(names.deep_view()[11] == names[11]@);
    if !seen[0] {
        return Err(named_message("missing field `", &names[0]));
    }
    if !seen[4] {
        return Err(named_message("missing field `", &names[4]));
    }
    if !seen[10] {
        return Err(named_message("missing field `", &names[10]));
    }
    if !seen[11] {
        return Err(named_message("missing field `", &names[11]));
    }
    let r = CsvTransactionRow {
        booking_text: take_required(row, src[0]),
        debtor_iban: take_field(row, src[1]),
        debtor_bic: take_field(row, src[2]),
        debtor_name: take_field(row, src[3]),
        booking_date: take_required(row, src[4]),
        value_date: take_field(row, src[5]),
        creditor_name: take_field(row, src[6]),
        creditor_iban: take_field(row, src[7]),
        creditor_bic: take_field(row, src[8]),
        remittance_information: take_field(row, src[9]),
        amount: take_required(row, src[10]),
        currency: take_required(row, src[11]),
        balance_after_string: take_field(row, src[12]),
        mandate_reference: take_field(row, src[13]),
    };
    Ok(r)
}

// ---------------------------------------------------------------------------
// From a record to a transaction
// ---------------------------------------------------------------------------

fn german_option_minor(s: &Option<String>) -> (res: Option<i32>)
    ensures
        res == match s.deep_view() {
            Some(v) => german_minor(v),
            None => None,
        },
{
    match s {
        Some(v) => {
            let cs = to_chars(v.as_str());
            parse_german_minor(&cs)
        },
        None => None,
    }
}

/// The transaction of a record for the account `bank_account_id`: the
/// amount and the balance read as German decimals in minor units, the dates
/// rewritten as `YYYY-MM-DD`, optional texts that are blank dropped. An amount
/// that is no number is an error that quotes it.
pub fn row_to_transaction(record: CsvTransactionRow, bank_account_id: i32) -> (res: Result<
    NewTransaction,
    String,
>)
    ensures
        match row_transaction(record@, bank_account_id) {
            Ok(t) => res matches Ok(r) && r@ == t,
            Err(e) => res matches Err(m) && m@ == e,
        },
{
    let amount_chars = to_chars(record.amount.as_str());
    let amount_minor = match parse_german_minor(&amount_chars) {
        Some(x) => x,
        None => {
            let mut m = lit_chars("Invalid amount format '");
            append_chars(&mut m, &amount_chars);
            let mid = lit_chars("': ");
            append_chars(&mut m, &mid);
            let plain = german_to_plain_exec(&amount_chars);
            let reason = if plain.len() == 0 {
                lit_chars("cannot parse float from empty string")
            } else {
                lit_chars("invalid float literal")
            };
            append_chars(&mut m, &reason);
            return Err(from_chars(&m));
        },
    };
    let balance_after_minor = german_option_minor(&record.balance_after_string);
    let booking_date = normalize_date(record.booking_date.as_str());
    let value_date = match &record.value_date {
        Some(d) => Some(normalize_date(d.as_str())),
        None => None,
    };
    let CsvTransactionRow {
        booking_text,
        debtor_iban,
        debtor_bic,
        debtor_name,
        booking_date: _,
        value_date: _,
        creditor_name,
        creditor_iban,
        creditor_bic,
        remittance_information,
        amount: _,
        currency,
        balance_after_string: _,
        mandate_reference,
    } = record;
    let tx = NewTransaction {
        booking_text,
        debtor_name: none_if_empty(debtor_name),
        debtor_iban: none_if_empty(debtor_iban),
        debtor_bic: none_if_empty(debtor_bic),
        creditor_name: none_if_empty(creditor_name),
        creditor_iban: none_if_empty(creditor_iban),
        creditor_bic: none_if_empty(creditor_bic),
        amount_minor,
        currency_code: currency,
        booking_date,
        value_date,
        balance_after_minor,
        mandate_reference: none_if_empty(mandate_reference),
        remittance_information: none_if_empty(remittance_information),
        bank_account_id,
    };
    Ok(tx)
}

// ---------------------------------------------------------------------------
// The whole export
// ---------------------------------------------------------------------------

proof fn lemma_rows_err_sticky(
    header: Option<Seq<Seq<char>>>,
    records: Seq<Result<(Seq<Seq<char>>, Option<(u64, u64, u64)>), Seq<char>>>,
    n: nat,
    m: nat,
    bank_account_id: i32,
)
    requires
        n <= m,
        csv_rows_result(header, records, n, bank_account_id) is Err,
    ensures
        csv_rows_result(header, records, m, bank_account_id) == csv_rows_result(
            header,
            records,
            n,
            bank_account_id,
        ),
    decreases m - n,
{
    if n < m {
        lemma_rows_err_sticky(header, records, n, (m - 1) as nat, bank_account_id);
    }
}

fn optional_field_exec(f: &String) -> (res: Option<String>)
    ensures
        res.deep_view() == optional_field(f@),
{
    if f.as_str().unicode_len() == 0 {
        None
    } else {
        Some(f.clone())
    }
}

fn decode_positional_exec(row: &Vec<String>) -> (res: Result<CsvTransactionRow, Vec<char>>)
    ensures
        match decode_positional(row.deep_view()) {
            Ok(v) => res matches Ok(r) && r@ == v,
            Err(e) => res matches Err(m) && m@ == e,
        },
{
    let ghost rv = row.deep_view();
    if row.len() < 14 {
        let mut m = lit_chars("invalid length ");
        append_chars(&mut m, &nat_to_chars(row.len() as u64));
        append_chars(&mut m, &lit_chars(", expected struct CsvTransactionRow with 14 elements"));
        return Err(m);
    }
    proof {
        assert forall|k: int| 0 <= k < 14 implies #[trigger] rv[k] == row@[k]@ by {}
    }
    Ok(
        CsvTransactionRow {
            booking_text: row[0].clone(),
            debtor_iban: optional_field_exec(&row[1]),
            debtor_bic: optional_field_exec(&row[2]),
            debtor_name: optional_field_exec(&row[3]),
            booking_date: row[4].clone(),
            value_date: optional_field_exec(&row[5]),
            creditor_name: optional_field_exec(&row[6]),
            creditor_iban: optional_field_exec(&row[7]),
            creditor_bic: optional_field_exec(&row[8]),
            remittance_information: optional_field_exec(&row[9]),
            amount: row[10].clone(),
            currency: row[11].clone(),
            balance_after_string: optional_field_exec(&row[12]),
            mandate_reference: optional_field_exec(&row[13]),
        },
    )
}

/// `position_text(pos)`.
fn position_chars(pos: Option<(u64, u64, u64)>) -> (res: Vec<char>)
    ensures
        res@ == position_text(pos),
{
    match pos {
        Some((record, line, byte)) => {
            let mut m = lit_chars("record ");
            append_chars(&mut m, &nat_to_chars(record));
            append_chars(&mut m, &lit_chars(" (line: "));
            append_chars(&mut m, &nat_to_chars(line));
            append_chars(&mut m, &lit_chars(", byte: "));
            append_chars(&mut m, &nat_to_chars(byte));
            append_chars(&mut m, &lit_chars("): "));
            m
        },
        None => Vec::new(),
    }
}

/// The transactions of CSV records as the reader gives them, the first
/// naming the columns: a record that could not be read, that lacks a needed
/// column or names one twice, or whose amount is no number ends the import
/// with an error, as `csv_result` states.
pub fn parse_csv_records(records: &Vec<Result<CsvRecord, String>>, bank_account_id: i32) -> (res:
    Result<Vec<NewTransaction>, String>)
    ensures
        match csv_result(records_view(records@), bank_account_id) {
            Ok(v) => res matches Ok(r) && new_transactions_view(r@) == v,
            Err(e) => res matches Err(m) && m@ == e,
        },
{
    let ghost rv = records_view(records@);
    if records.len() == 0 {
        let out: Vec<NewTransaction> = Vec::new();
        assert(new_transactions_view(out@) =~= Seq::<NewTransactionView>::empty());
        return Ok(out);
    }
    let header: Option<&Vec<String>> = match &records[0] {
        Ok((h, _)) => Some(h),
        Err(_) => None,
    };
    let ghost hv: Option<Seq<Seq<char>>> = match header {
        Some(h) => Some(h.deep_view()),
        None => None,
    };
    assert(hv == match rv[0] {
        Ok((h, _)) => Some(h),
        Err(_) => None::<Seq<Seq<char>>>,
    });
    let names = csv_column_names();
    let mut out: Vec<NewTransaction> = Vec::new();
    let mut n: usize = 1;
    assert(new_transactions_view(out@) =~= Seq::<NewTransactionView>::empty());
    while n < records.len()
        invariant
            1 <= n <= records.len(),
            rv == records_view(records@),
            hv == match header {
                Some(h) => Some(h.deep_view()),
                None => None::<Seq<Seq<char>>>,
            },
            hv == match rv[0] {
                Ok((h, _)) => Some(h),
                Err(_) => None::<Seq<Seq<char>>>,
            },
            names.deep_view() == csv_columns(),
            csv_rows_result(hv, rv, n as nat, bank_account_id) == Ok::<
                Seq<NewTransactionView>,
                Seq<char>,
            >(new_transactions_view(out@)),
        decreases records.len() - n,
    {
        match &records[n] {
            Err(e) => {
                let mut m = lit_chars("CSV Parse Error: ");
                let ec = to_chars(e.as_str());
                append_chars(&mut m, &ec);
                proof {
                    assert(rv[n as int] == Err::<(Seq<Seq<char>>, Option<(u64, u64, u64)>), Seq<char>>(e@));
                    lemma_rows_err_sticky(hv, rv, n as nat + 1, records.len() as nat, bank_account_id);
                }
                return Err(from_chars(&m));
            },
            Ok((row, pos)) => {
                assert(rv[n as int] == Ok::<(Seq<Seq<char>>, Option<(u64, u64, u64)>), Seq<char>>((row.deep_view(), *pos)));
                let decoded = match header {
                    Some(h) => decode_row_exec(h, row, &names),
                    None => decode_positional_exec(row),
                };
                match decoded {
                    Err(msg) => {
                        let mut m = lit_chars("CSV Parse Error: ");
                        let what = lit_chars("CSV deserialize error: ");
                        append_chars(&mut m, &what);
                        let at = position_chars(*pos);
                        append_chars(&mut m, &at);
                        append_chars(&mut m, &msg);
                        proof {
                            lemma_rows_err_sticky(
                                hv,
                                rv,
                                n as nat + 1,
                                records.len() as nat,
                                bank_account_id,
                            );
                        }
                        return Err(from_chars(&m));
                    },
                    Ok(record) => {
                        match row_to_transaction(record, bank_account_id) {
                            Err(m) => {
                                proof {
                                    lemma_rows_err_sticky(
                                        hv,
                                        rv,
                                        n as nat + 1,
                                        records.len() as nat,
                                        bank_account_id,
                                    );
                                }
                                return Err(m);
                            },
                            Ok(tx) => {
                                let ghost prev = out@;
                                out.push(tx);
                                assert(new_transactions_view(out@) =~= new_transactions_view(
                                    prev,
                                ).push(tx@));
                            },
                        }
                    },
                }
            },
        }
        n = n + 1;
    }
    Ok(out)
}

/// Parses a CSV export (fields separated by `;`, column names in the first
/// line) into transactions for the account `bank_account_id`.
pub fn parse_csv(data: &[u8], bank_account_id: i32) -> (res: Result<Vec<NewTransaction>, String>)
    ensures
        match csv_result(semicolon_csv_records(data@), bank_account_id) {
            Ok(v) => res matches Ok(r) && new_transactions_view(r@) == v,
            Err(e) => res matches Err(m) && m@ == e,
        },
{
    let records = read_semicolon_records(data);
    parse_csv_records(&records, bank_account_id)
}

// ---------------------------------------------------------------------------
// Laws
// ---------------------------------------------------------------------------

/// The record is read, decodes under `header`, and converts into `t`.
pub open spec fn record_gives(
    header: Option<Seq<Seq<char>>>,
    record: Result<(Seq<Seq<char>>, Option<(u64, u64, u64)>), Seq<char>>,
    bank_account_id: i32,
    t: NewTransactionView,
) -> bool {
    &&& record matches Ok((row, _))
    &&& decode_record(header, row) matches Ok(r)
    &&& row_transaction(r, bank_account_id) == Ok::<NewTransactionView, Seq<char>>(t)
}

/// The record is read, decodes under `header`, and converts.
pub open spec fn record_converts(
    header: Option<Seq<Seq<char>>>,
    record: Result<(Seq<Seq<char>>, Option<(u64, u64, u64)>), Seq<char>>,
    bank_account_id: i32,
) -> bool {
    &&& record matches Ok((row, _))
    &&& decode_record(header, row) matches Ok(r)
    &&& row_transaction(r, bank_account_id) is Ok
}

proof fn lemma_rows_shape(
    header: Option<Seq<Seq<char>>>,
    records: Seq<Result<(Seq<Seq<char>>, Option<(u64, u64, u64)>), Seq<char>>>,
    n: nat,
    bank_account_id: i32,
)
    requires
        1 <= n <= records.len(),
    ensures
        csv_rows_result(header, records, n, bank_account_id) matches Ok(v) ==> v.len() == n - 1
            && forall|i: int|
            0 <= i < v.len() ==> record_gives(header, records[i + 1], bank_account_id, #[trigger] v[i]),
        (forall|i: int| 1 <= i < n ==> record_converts(header, #[trigger] records[i], bank_account_id))
            ==> csv_rows_result(header, records, n, bank_account_id) is Ok,
    decreases n,
{
    if n > 1 {
        lemma_rows_shape(header, records, (n - 1) as nat, bank_account_id);
        match csv_rows_result(header, records, (n - 1) as nat, bank_account_id) {
            Ok(prev) => {
                match csv_rows_result(header, records, n, bank_account_id) {
                    Ok(v) => {
                        assert forall|i: int| 0 <= i < v.len() implies record_gives(
                            header,
                            records[i + 1],
                            bank_account_id,
                            #[trigger] v[i],
                        ) by {
                            if i < prev.len() {
                                assert(v[i] == prev[i]);
                            }
                        }
                    },
                    Err(_) => {},
                }
            },
            Err(_) => {},
        }
        if forall|i: int| 1 <= i < n ==> record_converts(header, #[trigger] records[i], bank_account_id) {
            assert(record_converts(header, records[n - 1], bank_account_id));
        }
    }
}

/// A CSV export gives one transaction per record after the header, in
/// record order: where it succeeds, the `i`-th transaction is the
/// conversion of record `i + 1` (read by the header's column names, or by
/// position where the header could not be read), and it succeeds wherever
/// every record after the header is read, decodes and converts.
pub proof fn lemma_csv_one_transaction_per_record(
    records: Seq<Result<(Seq<Seq<char>>, Option<(u64, u64, u64)>), Seq<char>>>,
    bank_account_id: i32,
)
    ensures
        csv_result(records, bank_account_id) matches Ok(v) ==> v.len() == if records.len() == 0 {
            0
        } else {
            records.len() - 1
        },
        records.len() > 0 ==> ({
            let header = match records[0] {
                Ok((h, _)) => Some(h),
                Err(_) => None,
            };
            &&& csv_result(records, bank_account_id) matches Ok(v) ==> forall|i: int|
                0 <= i < v.len() ==> record_gives(header, records[i + 1], bank_account_id, #[trigger] v[i])
            &&& (forall|i: int|
                1 <= i < records.len() ==> record_converts(header, #[trigger] records[i], bank_account_id))
                ==> csv_result(records, bank_account_id) is Ok
        }),
{
    if records.len() > 0 {
        let header = match records[0] {
            Ok((h, _)) => Some(h),
            Err(_) => None,
        };
        lemma_rows_shape(header, records, records.len(), bank_account_id);
    }
}

/// Optional texts of an imported record are absent or hold more than
/// whitespace: empty fields are stored as missing values.
pub proof fn lemma_csv_blank_texts_absent(r: CsvTransactionRowView, bank_account_id: i32)
    ensures
        row_transaction(r, bank_account_id) matches Ok(t) ==> {
            &&& t.debtor_name matches Some(v) ==> !all_ws(v)
            &&& t.debtor_iban matches Some(v) ==> !all_ws(v)
            &&& t.debtor_bic matches Some(v) ==> !all_ws(v)
            &&& t.creditor_name matches Some(v) ==> !all_ws(v)
            &&& t.creditor_iban matches Some(v) ==> !all_ws(v)
            &&& t.creditor_bic matches Some(v) ==> !all_ws(v)
            &&& t.mandate_reference matches Some(v) ==> !all_ws(v)
            &&& t.remittance_information matches Some(v) ==> !all_ws(v)
        },
{
}

/// An imported transaction keeps the amount of its record in minor units
/// and belongs to the account it was imported for.
pub proof fn lemma_csv_amount_and_account(r: CsvTransactionRowView, bank_account_id: i32)
    ensures
        row_transaction(r, bank_account_id) matches Ok(t) ==> german_minor(r.amount) == Some(
            t.amount_minor,
        ) && t.bank_account_id == bank_account_id,
        row_transaction(r, bank_account_id) is Err <==> german_minor(r.amount) is None,
{
}

} // verus!
