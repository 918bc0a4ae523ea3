use youfinance::banking::parsers::csv::parse_csv;
use youfinance::banking::parsers::mta::{parse_mta, try_parse_mta};

const CSV_HEADER: &str = "Bezeichnung Auftragskonto;IBAN Auftragskonto;BIC Auftragskonto;Bankname Auftragskonto;Buchungstag;Valutadatum;Name Zahlungsbeteiligter;IBAN Zahlungsbeteiligter;BIC (SWIFT-Code) Zahlungsbeteiligter;Buchungstext;Verwendungszweck;Betrag;Waehrung;Saldo nach Buchung;Bemerkung;Gekennzeichneter Umsatz;Glaeubiger ID;Mandatsreferenz";

#[allow(clippy::too_many_arguments)]
fn check_csv_case(
    csv_data: &str,
    expected_account: i32,
    expected_booking_text: &str,
    expected_amount_minor: i32,
    expected_booking_date: &str,
    expected_creditor_name: Option<&str>,
    expected_creditor_bic: Option<&str>,
    expected_creditor_iban: Option<&str>,
    expected_debtor_iban: Option<&str>,
    expected_debtor_bic: Option<&str>,
    expected_debtor_name: Option<&str>,
    expected_mandate_reference: Option<&str>,
) {
    let result = parse_csv(csv_data.as_bytes(), expected_account).unwrap();
    assert_eq!(result.len(), 1);
    let tx = &result[0];

    assert_eq!(tx.booking_text, expected_booking_text);
    assert_eq!(tx.amount_minor, expected_amount_minor);
    assert_eq!(tx.booking_date, expected_booking_date);
    assert_eq!(tx.creditor_name.as_deref(), expected_creditor_name);
    assert_eq!(tx.creditor_bic.as_deref(), expected_creditor_bic);
    assert_eq!(tx.creditor_iban.as_deref(), expected_creditor_iban);
    assert_eq!(tx.debtor_iban.as_deref(), expected_debtor_iban);
    assert_eq!(tx.debtor_bic.as_deref(), expected_debtor_bic);
    assert_eq!(tx.debtor_name.as_deref(), expected_debtor_name);
    assert_eq!(tx.mandate_reference.as_deref(), expected_mandate_reference);
    assert_eq!(tx.bank_account_id, expected_account);
}

#[test]
fn test_parse_csv_parameterized_standard_valid() {
    let data = format!("{}\nBusinessAccount;DE00XXXX00000000000000;BANKDEFFXXX;Sample Bank;30.12.2024;30.12.2024;Telecom Provider GmbH;DE00XXXX00000000000001;HYVEDEMMXXX;LASTSCHRIFT;Customer No.: XXXXXXXX, Invoice No.: XXXXXXXXXX, Monthly service charge EREF: XXXXXXXXXXXXXXXXXXXXXXXXXXXX MREF: XXXXXXXXXXXXXXXXXXXXXXXXXXXX CRED: DE97XXXXXXXXXXXXXXX IBAN: DE00XXXX00000000000001 BIC: HYVEDEMMXXX;-17,49;EUR;1853,02;;;DE97XXXXXXXXXXXXXXX;XXXXXXXXXXXXXXXXXXXXXXXXXXXX", CSV_HEADER);
    check_csv_case(
        &data,
        42,
        "LASTSCHRIFT",
        -1749,
        "2024-12-30",
        Some("Telecom Provider GmbH"),
        Some("HYVEDEMMXXX"),
        Some("DE00XXXX00000000000001"),
        Some("DE00XXXX00000000000000"),
        Some("BANKDEFFXXX"),
        Some("BusinessAccount"),
        Some("XXXXXXXXXXXXXXXXXXXXXXXXXXXX"),
    );
}

#[test]
fn test_parse_csv_parameterized_empty_fields_and_thousand_separators() {
    let data = format!("{}\nBusinessAccount;;;;30.12.2024;30.12.2024;;;;;some info;1.000,50;USD;;;;;", CSV_HEADER);
    check_csv_case(
        &data,
        1,
        "",
        100050,
        "2024-12-30",
        None,
        None,
        None,
        None,
        None,
        Some("BusinessAccount"),
        None,
    );
}

#[test]
fn csv_balance_currency_value_date_and_remittance() {
    let data = format!("{}\nBusinessAccount;DE00;BIC;Bank;30.12.2024;31.12.2024;Payee;DE01;BIC2;LASTSCHRIFT;Monthly fee;-17,49;EUR;1.853,02;;;;", CSV_HEADER);
    let result = parse_csv(data.as_bytes(), 7).unwrap();
    let tx = &result[0];
    assert_eq!(tx.balance_after_minor, Some(185302));
    assert_eq!(tx.currency_code, "EUR");
    assert_eq!(tx.value_date.as_deref(), Some("2024-12-31"));
    assert_eq!(tx.remittance_information.as_deref(), Some("Monthly fee"));
    assert_eq!(tx.mandate_reference, None);
}

#[test]
fn csv_invalid_amount_is_an_error() {
    let data = format!("{}\nA;;;;30.12.2024;;;;;X;;abc;EUR;;;;;", CSV_HEADER);
    let err = parse_csv(data.as_bytes(), 1).unwrap_err();
    assert_eq!(err, "Invalid amount format 'abc': invalid float literal");
    let data = format!("{}\nA;;;;30.12.2024;;;;;X;;;EUR;;;;;", CSV_HEADER);
    let err = parse_csv(data.as_bytes(), 1).unwrap_err();
    assert_eq!(err, "Invalid amount format '': cannot parse float from empty string");
}

#[test]
fn csv_unparsable_balance_is_none() {
    let data = format!("{}\nA;;;;30.12.2024;;;;;X;;1,00;EUR;n/a;;;;", CSV_HEADER);
    let result = parse_csv(data.as_bytes(), 1).unwrap();
    assert_eq!(result[0].balance_after_minor, None);
    assert_eq!(result[0].amount_minor, 100);
}

#[test]
fn csv_missing_column_is_an_error() {
    let data = "Buchungstext;Buchungstag;Waehrung\nX;30.12.2024;EUR";
    let err = parse_csv(data.as_bytes(), 1).unwrap_err();
    assert_eq!(
        err,
        "CSV Parse Error: CSV deserialize error: record 1 (line: 2, byte: 34): missing field `Betrag`"
    );
}

#[test]
fn csv_duplicate_column_is_an_error() {
    let data = "Buchungstext;Buchungstag;Betrag;Waehrung;Betrag\nX;30.12.2024;1,00;EUR;2,00";
    let err = parse_csv(data.as_bytes(), 1).unwrap_err();
    assert_eq!(
        err,
        "CSV Parse Error: CSV deserialize error: record 1 (line: 2, byte: 48): duplicate field `Betrag`"
    );
}

#[test]
fn csv_deserialize_error_names_the_record_position_as_the_reader_counts() {
    // The position is the one the csv reader reports; after a CRLF line end
    // it names line 1.
    let data = "Buchungstext;Buchungstag;Waehrung\r\nX;30.12.2024;EUR\r\n";
    let err = parse_csv(data.as_bytes(), 1).unwrap_err();
    assert_eq!(
        err,
        "CSV Parse Error: CSV deserialize error: record 1 (line: 1, byte: 34): missing field `Betrag`"
    );
}

#[test]
fn csv_unequal_record_is_a_reader_error() {
    let data = "Buchungstext;Buchungstag;Betrag;Waehrung\nX;30.12.2024;1,00";
    let err = parse_csv(data.as_bytes(), 1).unwrap_err();
    assert!(err.starts_with("CSV Parse Error: "));
}

#[test]
fn csv_header_only_gives_no_transactions() {
    let result = parse_csv(CSV_HEADER.as_bytes(), 1).unwrap();
    assert!(result.is_empty());
    let result = parse_csv(b"", 1).unwrap();
    assert!(result.is_empty());
}

#[test]
fn csv_blank_optional_text_is_none() {
    let data = format!("{}\n   ;;;;30.12.2024;;;;;X;;1,00;EUR;;;;;", CSV_HEADER);
    let result = parse_csv(data.as_bytes(), 1).unwrap();
    assert_eq!(result[0].debtor_name, None);
}

// The MT940 cases expect booking dates as `YYYY-MM-DD` and amounts in minor
// units (`-4655` for `DR46,55`), the forms the MT940 import document asks
// for and the transaction record stores.
#[allow(clippy::too_many_arguments)]
fn check_mta_case(
    mta_data: &str,
    expected_account: i32,
    expected_title: &str,
    expected_amount_minor: i32,
    expected_date: &str,
    expected_name: Option<&str>,
    expected_bic: Option<&str>,
    expected_iban: Option<&str>,
) {
    let result = parse_mta(mta_data, expected_account).unwrap();
    let tx = &result[0];
    assert_eq!(tx.booking_text, expected_title);
    assert_eq!(tx.amount_minor, expected_amount_minor);
    assert_eq!(tx.booking_date, expected_date);
    assert_eq!(tx.creditor_name.as_deref(), expected_name);
    assert_eq!(tx.creditor_bic.as_deref(), expected_bic);
    assert_eq!(tx.creditor_iban.as_deref(), expected_iban);
    assert_eq!(tx.bank_account_id, expected_account);
}

#[test]
fn test_parse_mta_parameterized_standard_valid() {
    check_mta_case(
        "-
:20:STARTUMS
:25:12345678/1111111111
:28C:0
:60F:C240110EUR1367,23
:61:2401100110DR46,55NDDTKREF+
:86:105?00EINZUGSERMAECHTIGUNG?20EREF+XXXXXXXXXXXX
?21KREF+XXXXXXXXXXXXXXXXXXXX?22MREF+XXXXXXXXXXXX
?30BANKDEFFXXX?31DE00XXXXXXXXXXXXXXX?32Example Payee GmbH
?24SVWZ+Monthly subscription
:62F:C240110EUR1320,68
-",
        1,
        "EINZUGSERMAECHTIGUNG",
        -4655,
        "2024-01-10",
        Some("Example Payee GmbH"),
        Some("BANKDEFFXXX"),
        Some("DE00XXXXXXXXXXXXXXX"),
    );
}

#[test]
fn test_parse_mta_parameterized_credit_missing_tags() {
    check_mta_case(
        "-
:61:2412311231CR1234,56NTRFNONREF
:86:?00LOHN/GEHALT?32My Employer
-",
        2,
        "LOHN/GEHALT",
        123456,
        "2024-12-31",
        Some("My Employer"),
        None,
        None,
    );
}

#[test]
fn test_parse_mta_parameterized_multi_line_remittance_anonymized() {
    check_mta_case(
        "-
:20:STARTUMS
:61:2401100110DR46,55NDDTKREF+
:86:105?00EINZUGSERMAECHTIGUNG?20EREF+Beleg-Nr.123
?23SVWZ+Konsumausgaben + Datea
?24bend + Geschenke (EXT-KONSU?25M) /.DA-2. IBAN: DE00000000
?26000000000000 BIC: EXAMXXX?27XX?30EXAMXXX
?31DE00000000000000000000?32Max Mustermann
-",
        1,
        "EINZUGSERMAECHTIGUNG",
        -4655,
        "2024-01-10",
        Some("Max Mustermann"),
        Some("EXAMXXX"),
        Some("DE00000000000000000000"),
    );
}

#[test]
fn test_parse_mta_multiple_transactions_per_block() {
    let mta_data = "-
:20:STARTUMS
:25:12345678/1111111111
:28C:0
:60F:C240110EUR1367,23
:61:2401100110DR46,55NDDTKREF+
:86:105?00EINZUGSERMAECHTIGUNG?30BANKDEFFXXX?31DE00XXXXXXXXXXXXXXX?32Example Payee GmbH
:61:2401100110CR10,00NTRFKREF+
:86:166?00GUTSCHRIFT?32A Friend
:62F:C240110EUR1330,68
-";
    let result = parse_mta(mta_data, 1).unwrap();
    assert_eq!(result.len(), 2);
    assert_eq!(result[0].amount_minor, -4655);
    assert_eq!(result[0].creditor_name.as_deref(), Some("Example Payee GmbH"));
    assert_eq!(result[1].amount_minor, 1000);
    assert_eq!(result[1].creditor_name.as_deref(), Some("A Friend"));
}

#[test]
fn mta_remittance_concatenated_across_subfields() {
    let mta_data = "-
:61:2401100110DR46,55NDDTKREF+
:86:105?00EINZUGSERMAECHTIGUNG?20EREF+Beleg-Nr.123
?23SVWZ+Konsumausgaben + Datea
?24bend + Geschenke (EXT-KONSU?25M) /.DA-2. IBAN: DE00000000
?26000000000000 BIC: EXAMXXX?27XX?30EXAMXXX
?31DE00000000000000000000?32Max Mustermann
-";
    let result = parse_mta(mta_data, 1).unwrap();
    assert_eq!(
        result[0].remittance_information.as_deref(),
        Some("Konsumausgaben + Dateabend + Geschenke (EXT-KONSUM) /.DA-2. IBAN: DE00000000000000000000 BIC: EXAMXXXXX")
    );
}

#[test]
fn mta_account_currency_and_value_date() {
    let mta_data = "-
:25:12345678/1111111111
:60F:C240110USD1367,23
:61:2401100112DR46,55NDDTKREF+
:86:105?00EINZUG
-";
    let result = parse_mta(mta_data, 3).unwrap();
    let tx = &result[0];
    assert_eq!(tx.currency_code, "USD");
    assert_eq!(tx.debtor_iban.as_deref(), Some("12345678/1111111111"));
    assert_eq!(tx.value_date.as_deref(), Some("2024-01-12"));
    assert_eq!(tx.remittance_information, None);
    assert_eq!(tx.debtor_name, None);
    assert_eq!(tx.balance_after_minor, None);
}

#[test]
fn mta_default_currency_and_missing_details() {
    let mta_data = "-
:61:2401100110CR5,NTRF
:86:?00X
:61:2401100110DR1,00NTRF
-";
    let result = parse_mta(mta_data, 3).unwrap();
    assert_eq!(result.len(), 1);
    assert_eq!(result[0].currency_code, "EUR");
    assert_eq!(result[0].amount_minor, 500);
}

#[test]
fn mta_crlf_line_endings_read_like_lf() {
    let lf = "-\n:25:ACC\n:61:2401100110DR46,55NDDT\n:86:?00TYPE?32Name\n-";
    let crlf = lf.replace('\n', "\r\n");
    let a = parse_mta(lf, 1).unwrap();
    let b = parse_mta(&crlf, 1).unwrap();
    assert_eq!(a, b);
    assert_eq!(a.len(), 1);
}

#[test]
fn mta_slicing_inside_a_character_is_refused() {
    let mta_data = "-\n:61:24011\u{e9}0110DR1,00\n:86:?00X\n-";
    assert!(try_parse_mta(mta_data, 1).is_none());
}

#[test]
fn mta_several_blocks() {
    let mta_data = "-\n:61:2401100110DR1,00\n:86:?00A\n-\n:60F:C240110CHF1,00\n:61:2402100210CR2,50\n:86:?00B\n-";
    let result = parse_mta(mta_data, 1).unwrap();
    assert_eq!(result.len(), 2);
    assert_eq!(result[0].currency_code, "EUR");
    assert_eq!(result[1].currency_code, "CHF");
    assert_eq!(result[1].booking_date, "2024-02-10");
    assert_eq!(result[1].amount_minor, 250);
}

const UNIFIED_CSV: &str = "Bezeichnung Auftragskonto;IBAN Auftragskonto;BIC Auftragskonto;Bankname Auftragskonto;Buchungstag;Valutadatum;Name Zahlungsbeteiligter;IBAN Zahlungsbeteiligter;BIC (SWIFT-Code) Zahlungsbeteiligter;Buchungstext;Verwendungszweck;Betrag;Waehrung;Saldo nach Buchung;Bemerkung;Gekennzeichneter Umsatz;Glaeubiger ID;Mandatsreferenz\nEINZUGSERMAECHTIGUNG;00000000;BANKDEFFXXX;Sample Bank;10.01.2024;10.01.2024;Example Payee GmbH;DE00XXXXXXXXXXXXXXX;BANKDEFFXXX;LASTSCHRIFT;Monthly subscription;-46,55;EUR;;;;;";

const UNIFIED_MTA: &str = "-
:20:STARTUMS
:25:00000000
:60F:C240110EUR1367,23
:61:2401100110DR46,55NDDTKREF+
:86:105?00EINZUGSERMAECHTIGUNG?20EREF+XXXXXXXXXXXX
?30BANKDEFFXXX?31DE00XXXXXXXXXXXXXXX?32Example Payee GmbH
?24SVWZ+Monthly subscription
:62F:C240110EUR1320,68
-";

fn check_unified(result: Vec<youfinance::model::NewTransaction>) {
    assert_eq!(result.len(), 1);
    let tx = &result[0];
    assert_eq!(tx.creditor_name.as_deref(), Some("Example Payee GmbH"));
    assert_eq!(tx.creditor_iban.as_deref(), Some("DE00XXXXXXXXXXXXXXX"));
    assert_eq!(tx.creditor_bic.as_deref(), Some("BANKDEFFXXX"));
    assert_eq!(tx.amount_minor, -4655);
    assert_eq!(tx.currency_code, "EUR");
    assert_eq!(tx.booking_date, "2024-01-10");
    assert_eq!(tx.remittance_information.as_deref(), Some("Monthly subscription"));
    assert_eq!(tx.bank_account_id, 99);
    assert_eq!(tx.debtor_iban.as_deref(), Some("00000000"));
}

// The CSV export maps `Buchungstext` to the booking text and `Bezeichnung
// Auftragskonto` to the debtor name, as the CSV import document's field
// mapping gives them; the MT940 record takes the booking text from `?00`.
#[test]
fn test_unified_parsers_unified_csv_parser() {
    let result = parse_csv(UNIFIED_CSV.as_bytes(), 99).expect("CSV Parsing failed");
    assert_eq!(result[0].booking_text, "LASTSCHRIFT");
    assert_eq!(result[0].debtor_name.as_deref(), Some("EINZUGSERMAECHTIGUNG"));
    check_unified(result);
}

#[test]
fn test_unified_parsers_unified_mta_parser() {
    let result = parse_mta(UNIFIED_MTA, 99).expect("MTA Parsing failed");
    assert_eq!(result[0].booking_text, "EINZUGSERMAECHTIGUNG");
    check_unified(result);
}

#[test]
fn csv_unreadable_header_reads_records_by_position() {
    let mut data: Vec<u8> = b"c0;c1;c2;c3;c4;c5;c6;c7;c8;c9;c10;c11;c12;c\xff\n".to_vec();
    data.extend_from_slice(
        "TEXT;DE01;BIC1;Name;30.12.2024;31.12.2024;Cred;DE02;BIC2;Zweck;-17,49;EUR;1853,02;MREF".as_bytes(),
    );
    let result = parse_csv(&data, 3).unwrap();
    assert_eq!(result.len(), 1);
    let t = &result[0];
    assert_eq!(t.booking_text, "TEXT");
    assert_eq!(t.debtor_iban.as_deref(), Some("DE01"));
    assert_eq!(t.debtor_bic.as_deref(), Some("BIC1"));
    assert_eq!(t.debtor_name.as_deref(), Some("Name"));
    assert_eq!(t.booking_date, "2024-12-30");
    assert_eq!(t.value_date.as_deref(), Some("2024-12-31"));
    assert_eq!(t.creditor_name.as_deref(), Some("Cred"));
    assert_eq!(t.creditor_iban.as_deref(), Some("DE02"));
    assert_eq!(t.creditor_bic.as_deref(), Some("BIC2"));
    assert_eq!(t.remittance_information.as_deref(), Some("Zweck"));
    assert_eq!(t.amount_minor, -1749);
    assert_eq!(t.currency_code, "EUR");
    assert_eq!(t.balance_after_minor, Some(185302));
    assert_eq!(t.mandate_reference.as_deref(), Some("MREF"));
    assert_eq!(t.bank_account_id, 3);
}

#[test]
fn csv_unreadable_header_with_short_records_is_an_error() {
    let data: Vec<u8> = b"a;b;\xff\nX;30.12.2024;1,00".to_vec();
    let err = parse_csv(&data, 1).unwrap_err();
    assert_eq!(
        err,
        "CSV Parse Error: CSV deserialize error: record 1 (line: 2, byte: 6): \
         invalid length 3, expected struct CsvTransactionRow with 14 elements"
    );
}

fn mta_amount_of(line61: &str) -> i32 {
    let mta_data = format!("-\n:61:{}\n:86:?00X\n-", line61);
    let result = parse_mta(&mta_data, 1).unwrap();
    assert_eq!(result.len(), 1);
    result[0].amount_minor
}

#[test]
fn mta_debit_credit_marks() {
    // `DR` or `CR` right after the date field decides, whatever the
    // reference text holds.
    assert_eq!(mta_amount_of("2401100110DR46,55NDDTKREF+"), -4655);
    assert_eq!(mta_amount_of("2401100110CR28,00NTRF"), 2800);
    assert_eq!(mta_amount_of("2401100110CR5,00NTRFDRX"), 500);
    assert_eq!(mta_amount_of("2401100110DR5,00NTRFCRX"), -500);
    // Otherwise the value is searched for `DR`, `CR`, `RC`, `RD`, and
    // without any of them the amount is read as a debit from byte 6.
    assert_eq!(mta_amount_of("2401100110RC7,00NTRF"), 700);
    assert_eq!(mta_amount_of("2401100110RD7,00NTRF"), -700);
    assert_eq!(mta_amount_of("2401100110RDR7,00NTRF"), -700);
    assert_eq!(mta_amount_of("2401100110C12,34NTRF"), -11000);
    assert_eq!(mta_amount_of("2401100110D12,34NTRF"), -11000);
    assert_eq!(mta_amount_of("2401100110X7,00NTRF"), -11000);
    assert_eq!(mta_amount_of("2401100110"), -11000);
}
