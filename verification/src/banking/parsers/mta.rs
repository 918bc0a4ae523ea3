//! Bank statements in the MT940 format (`.mta` files).
//!
//! A file holds statement blocks separated by lines that hold only `-`. Each
//! block carries tagged lines (`:25:` account, `:60F:`/`:62F:` balances, `:61:`
//! transaction line, `:86:` transaction details); every `:61:` that a `:86:`
//! follows gives one transaction.
use vstd::prelude::*;

use crate::banking::utils::{normalize_date_chars, normalized_date};
use crate::decimal::{
    all_digits, clamp_i32, decimal_minor, german_to_plain, german_to_plain_exec, is_digit,
    is_digit_exec, parse_decimal_minor,
};
use crate::model::{new_transactions_view, NewTransaction, NewTransactionView};
use crate::text::{
    append_chars, byte_len, byte_len_at_least, byte_slice, byte_slice_exec, char_index_at_byte,
    char_index_at_byte_exec, chars_eq, copy_range, find, find_exec, from_chars,
    lemma_char_index_at_byte, lemma_split_char_len, split_char, split_chars, split_str,
    split_str_exec, to_chars, trim, trim_chars,
};

verus! {

// ---------------------------------------------------------------------------
// From the file to the statement blocks and their lines
// ---------------------------------------------------------------------------

/// `s` with every `\r\n` replaced by `\n`, matched from left to right.
pub open spec fn crlf_to_lf(s: Seq<char>) -> Seq<char>
    decreases s.len(),
{
    if s.len() >= 2 && s[0] == '\r' && s[1] == '\n' {
        seq!['\n'] + crlf_to_lf(s.skip(2))
    } else if s.len() > 0 {
        seq![s[0]] + crlf_to_lf(s.skip(1))
    } else {
        s
    }
}

/// The line that separates two statement blocks, with its line breaks.
pub open spec fn block_separator() -> Seq<char> {
    seq!['\n', '-', '\n']
}

/// The statement blocks of a file: its text with unified line endings and a
/// line break added at both ends, split at every line that holds only `-`.
pub open spec fn statement_blocks(contents: Seq<char>) -> Seq<Seq<char>> {
    split_str(seq!['\n'] + crlf_to_lf(contents) + seq!['\n'], block_separator())
}

/// A line without the carriage return that may end it.
pub open spec fn strip_cr(line: Seq<char>) -> Seq<char> {
    if line.len() > 0 && line.last() == '\r' {
        line.drop_last()
    } else {
        line
    }
}

/// The lines of a trimmed block, as `str::lines` gives them.
pub open spec fn block_lines(block: Seq<char>) -> Seq<Seq<char>> {
    split_char(block, '\n').map_values(|l: Seq<char>| strip_cr(l))
}

// ---------------------------------------------------------------------------
// Tags
// ---------------------------------------------------------------------------

/// The tag being read, its value so far, and the tags read before it.
pub struct TagScan {
    pub tag: Seq<char>,
    pub val: Seq<char>,
    pub done: Seq<(Seq<char>, Seq<char>)>,
}

/// Reading one line: `:TAG:value` starts a new tag (closing the open one, if
/// it has a name); any other line continues the open tag's value.
pub open spec fn scan_line(st: TagScan, line: Seq<char>) -> TagScan {
    if line.len() > 0 && line[0] == ':' {
        match find(line.drop_first(), seq![':']) {
            Some(j) => TagScan {
                tag: line.drop_first().take(j),
                val: line.drop_first().skip(j + 1),
                done: if st.tag.len() > 0 {
                    st.done.push((st.tag, st.val))
                } else {
                    st.done
                },
            },
            None => TagScan { tag: st.tag, val: st.val + line, done: st.done },
        }
    } else if st.tag.len() > 0 {
        TagScan { tag: st.tag, val: st.val + line, done: st.done }
    } else {
        st
    }
}

pub open spec fn scan_lines(lines: Seq<Seq<char>>) -> TagScan
    decreases lines.len(),
{
    if lines.len() == 0 {
        TagScan { tag: Seq::empty(), val: Seq::empty(), done: Seq::empty() }
    } else {
        scan_line(scan_lines(lines.drop_last()), lines.last())
    }
}

/// The tags of a block with their values, in order.
pub open spec fn block_tags(lines: Seq<Seq<char>>) -> Seq<(Seq<char>, Seq<char>)> {
    let st = scan_lines(lines);
    if st.tag.len() > 0 {
        st.done.push((st.tag, st.val))
    } else {
        st.done
    }
}

/// The account of a block: the value of its last `:25:` tag.
pub open spec fn statement_account(tags: Seq<(Seq<char>, Seq<char>)>) -> Option<Seq<char>>
    decreases tags.len(),
{
    if tags.len() == 0 {
        None
    } else if tags.last().0 == seq!['2', '5'] {
        Some(tags.last().1)
    } else {
        statement_account(tags.drop_last())
    }
}

pub open spec fn is_balance_tag(tag: Seq<char>) -> bool {
    tag == seq!['6', '0', 'F'] || tag == seq!['6', '2', 'F']
}

/// The currency of a block: bytes 7 to 10 of the last balance (`:60F:`,
/// `:62F:`) of at least ten bytes, `EUR` where there is none; `None` where
/// one of these balances cannot be sliced there.
pub open spec fn statement_currency(tags: Seq<(Seq<char>, Seq<char>)>) -> Option<Seq<char>>
    decreases tags.len(),
{
    if tags.len() == 0 {
        Some(seq!['E', 'U', 'R'])
    } else {
        match statement_currency(tags.drop_last()) {
            None => None,
            Some(c) => if is_balance_tag(tags.last().0) && byte_len(tags.last().1) >= 10 {
                byte_slice(tags.last().1, 7, 10)
            } else {
                Some(c)
            },
        }
    }
}

/// The last `:61:` value not yet paired, and the pairs found so far.
pub struct PairScan {
    pub pending: Option<Seq<char>>,
    pub pairs: Seq<(Seq<char>, Seq<char>)>,
}

/// A `:86:` takes the `:61:` before it, if there is one and it holds at
/// least ten bytes; a `:61:` replaces one not yet paired.
pub open spec fn pair_step(st: PairScan, tag: (Seq<char>, Seq<char>)) -> PairScan {
    if tag.0 == seq!['6', '1'] {
        PairScan { pending: Some(tag.1), pairs: st.pairs }
    } else if tag.0 == seq!['8', '6'] {
        match st.pending {
            Some(p) => PairScan {
                pending: None,
                pairs: if byte_len(p) < 10 {
                    st.pairs
                } else {
                    st.pairs.push((p, tag.1))
                },
            },
            None => st,
        }
    } else {
        st
    }
}

pub open spec fn pair_scan(tags: Seq<(Seq<char>, Seq<char>)>) -> PairScan
    decreases tags.len(),
{
    if tags.len() == 0 {
        PairScan { pending: None, pairs: Seq::empty() }
    } else {
        pair_step(pair_scan(tags.drop_last()), tags.last())
    }
}

// ---------------------------------------------------------------------------
// The `:86:` details
// ---------------------------------------------------------------------------

/// What the `?nn` subfields of a `:86:` value give: the transaction type
/// (`?00`), the counterpart's name (`?32`, `?33`), IBAN (`?31`) and BIC
/// (`?30`), and the remittance text that starts after `SVWZ+` in a `?2x` or
/// `?6x` subfield and goes on through the following ones of these.
pub struct Details {
    pub title: Seq<char>,
    pub name: Option<Seq<char>>,
    pub iban: Option<Seq<char>>,
    pub bic: Option<Seq<char>>,
    pub remittance: Seq<char>,
    pub in_remittance: bool,
}

pub open spec fn svwz() -> Seq<char> {
    seq!['S', 'V', 'W', 'Z', '+']
}

/// Reading one subfield (the text between two `?`); `None` where its code,
/// its first two bytes, cannot be sliced off.
pub open spec fn details_step(st: Details, part: Seq<char>) -> Option<Details> {
    if byte_len(part) < 2 {
        Some(st)
    } else {
        match char_index_at_byte(part, 2) {
            None => None,
            Some(k) => {
                let code = part.take(k);
                let v = part.skip(k);
                if code == seq!['0', '0'] {
                    Some(
                        Details {
                            title: v,
                            name: st.name,
                            iban: st.iban,
                            bic: st.bic,
                            remittance: st.remittance,
                            in_remittance: st.in_remittance,
                        },
                    )
                } else if code == seq!['3', '0'] {
                    Some(
                        Details {
                            title: st.title,
                            name: st.name,
                            iban: st.iban,
                            bic: Some(v),
                            remittance: st.remittance,
                            in_remittance: false,
                        },
                    )
                } else if code == seq!['3', '1'] {
                    Some(
                        Details {
                            title: st.title,
                            name: st.name,
                            iban: Some(v),
                            bic: st.bic,
                            remittance: st.remittance,
                            in_remittance: false,
                        },
                    )
                } else if code == seq!['3', '2'] || code == seq!['3', '3'] {
                    Some(
                        Details {
                            title: st.title,
                            name: Some(
                                match st.name {
                                    Some(x) => x + v,
                                    None => v,
                                },
                            ),
                            iban: st.iban,
                            bic: st.bic,
                            remittance: st.remittance,
                            in_remittance: false,
                        },
                    )
                } else if code.len() > 0 && (code[0] == '2' || code[0] == '6') {
                    match find(v, svwz()) {
                        Some(i) => Some(
                            Details {
                                title: st.title,
                                name: st.name,
                                iban: st.iban,
                                bic: st.bic,
                                remittance: (if st.remittance.len() > 0 {
                                    st.remittance.push(' ')
                                } else {
                                    st.remittance
                                }) + v.skip(i + 5),
                                in_remittance: true,
                            },
                        ),
                        None => if st.in_remittance {
                            Some(
                                Details {
                                    title: st.title,
                                    name: st.name,
                                    iban: st.iban,
                                    bic: st.bic,
                                    remittance: st.remittance + v,
                                    in_remittance: true,
                                },
                            )
                        } else {
                            Some(st)
                        },
                    }
                } else {
                    Some(
                        Details {
                            title: st.title,
                            name: st.name,
                            iban: st.iban,
                            bic: st.bic,
                            remittance: st.remittance,
                            in_remittance: false,
                        },
                    )
                }
            },
        }
    }
}

pub open spec fn details_scan(parts: Seq<Seq<char>>) -> Option<Details>
    decreases parts.len(),
{
    if parts.len() == 0 {
        Some(
            Details {
                title: Seq::empty(),
                name: None,
                iban: None,
                bic: None,
                remittance: Seq::empty(),
                in_remittance: false,
            },
        )
    } else {
        match details_scan(parts.drop_last()) {
            Some(st) => details_step(st, parts.last()),
            None => None,
        }
    }
}

/// The details of a `:86:` value, read subfield by subfield.
pub open spec fn transaction_details(t86: Seq<char>) -> Option<Details> {
    details_scan(split_char(t86, '?'))
}

// ---------------------------------------------------------------------------
// The `:61:` line
// ---------------------------------------------------------------------------

/// Whether `t` starts with the characters `a` and `b`.
pub open spec fn starts_with_pair(t: Seq<char>, a: char, b: char) -> bool {
    t.len() >= 2 && t[0] == a && t[1] == b
}

/// Whether the transaction is a debit, and where its amount starts, found by
/// searching the whole `:61:` value: after the first `DR`, else the first
/// `CR`, `RC` or `RD`; a debit whose amount starts at byte 6 where there is
/// none of these.
pub open spec fn searched_direction(t: Seq<char>) -> (bool, int) {
    match find(t, seq!['D', 'R']) {
        Some(i) => (true, i + 2),
        None => match find(t, seq!['C', 'R']) {
            Some(i) => (false, i + 2),
            None => match find(t, seq!['R', 'C']) {
                Some(i) => (false, i + 2),
                None => match find(t, seq!['R', 'D']) {
                    Some(i) => (true, i + 2),
                    None => (
                        true,
                        match char_index_at_byte(t, 6) {
                            Some(k) => k,
                            None => 0,
                        },
                    ),
                },
            },
        },
    }
}

/// Whether the transaction is a debit, and where its amount starts. Where
/// the ten-byte date field (booking date `YYMMDD`, value date `MMDD`) is
/// followed by `DR` or `CR`, as the MT940 import document writes the mark,
/// that mark decides and the amount follows it, whatever the reference text
/// after the amount holds; a whole-line search would instead take a `DR` in
/// the reference text of a `CR` transaction as the mark. Any other value is
/// read by that search (`searched_direction`).
pub open spec fn direction(t: Seq<char>) -> (bool, int) {
    match char_index_at_byte(t, 10) {
        Some(k) => if starts_with_pair(t.skip(k), 'D', 'R') {
            (true, k + 2)
        } else if starts_with_pair(t.skip(k), 'C', 'R') {
            (false, k + 2)
        } else {
            searched_direction(t)
        },
        None => searched_direction(t),
    }
}

pub open spec fn is_amount_char(c: char) -> bool {
    is_digit(c) || c == ','
}

/// The number of digits and commas at the start of `s`.
pub open spec fn amount_run_len(s: Seq<char>) -> nat
    decreases s.len(),
{
    if s.len() > 0 && is_amount_char(s[0]) {
        1 + amount_run_len(s.drop_first())
    } else {
        0
    }
}

/// The amount in minor units: the digits and commas after `start` read as a
/// decimal number with a decimal comma, negative for a debit, zero where
/// they are not a number.
pub open spec fn mta_amount(t: Seq<char>, start: int, is_debit: bool) -> i32 {
    let rest = t.skip(start);
    let run = rest.take(amount_run_len(rest) as int);
    if run.len() > 0 {
        match decimal_minor(german_to_plain(run)) {
            Some(x) => clamp_i32(
                if is_debit {
                    -x
                } else {
                    x
                },
            ),
            None => 0,
        }
    } else {
        0
    }
}

/// `DD.MM.20YY` from the first six bytes `YYMMDD` of a `:61:` value.
pub open spec fn date_text(yy: Seq<char>, mm: Seq<char>, dd: Seq<char>) -> Seq<char> {
    dd + seq!['.'] + mm + seq!['.', '2', '0'] + yy
}

/// The value date: bytes 6 to 10 of the `:61:` value (`MMDD`), in the year of
/// the booking date, where they are four digits.
pub open spec fn value_date(t: Seq<char>, yy: Seq<char>) -> Option<Seq<char>> {
    match byte_slice(t, 6, 10) {
        Some(v) => if v.len() == 4 && all_digits(v) {
            Some(normalized_date(date_text(yy, v.take(2), v.subrange(2, 4))))
        } else {
            None
        },
        None => None,
    }
}

pub open spec fn option_if_nonempty(s: Seq<char>) -> Option<Seq<char>> {
    if s.len() > 0 {
        Some(s)
    } else {
        None
    }
}

/// The transaction that a `:61:` and the `:86:` after it give; `None` where
/// slicing the date or a subfield code panics.
pub open spec fn mta_transaction(
    t61: Seq<char>,
    t86: Seq<char>,
    account: Option<Seq<char>>,
    currency: Seq<char>,
    account_id: i32,
) -> Option<NewTransactionView> {
    match (byte_slice(t61, 0, 2), byte_slice(t61, 2, 4), byte_slice(t61, 4, 6)) {
        (Some(yy), Some(mm), Some(dd)) => match transaction_details(t86) {
            Some(det) => {
                let (is_debit, start) = direction(t61);
                Some(
                    NewTransactionView {
                        booking_text: det.title,
                        debtor_name: None,
                        debtor_iban: account,
                        debtor_bic: None,
                        creditor_name: det.name,
                        creditor_iban: det.iban,
                        creditor_bic: det.bic,
                        amount_minor: mta_amount(t61, start, is_debit),
                        currency_code: currency,
                        booking_date: normalized_date(date_text(yy, mm, dd)),
                        value_date: value_date(t61, yy),
                        balance_after_minor: None,
                        mandate_reference: None,
                        remittance_information: option_if_nonempty(det.remittance),
                        bank_account_id: account_id,
                    },
                )
            },
            None => None,
        },
        _ => None,
    }
}

pub open spec fn mta_transactions(
    pairs: Seq<(Seq<char>, Seq<char>)>,
    account: Option<Seq<char>>,
    currency: Seq<char>,
    account_id: i32,
) -> Option<Seq<NewTransactionView>>
    decreases pairs.len(),
{
    if pairs.len() == 0 {
        Some(Seq::empty())
    } else {
        match (
            mta_transactions(pairs.drop_last(), account, currency, account_id),
            mta_transaction(pairs.last().0, pairs.last().1, account, currency, account_id),
        ) {
            (Some(a), Some(t)) => Some(a.push(t)),
            _ => None,
        }
    }
}

/// The transactions of one statement block; none for a block that is empty
/// or only `-` once trimmed.
pub open spec fn block_transactions(block: Seq<char>, account_id: i32) -> Option<
    Seq<NewTransactionView>,
> {
    let t = trim(block);
    if t.len() == 0 || t == seq!['-'] {
        Some(Seq::empty())
    } else {
        let tags = block_tags(block_lines(t));
        match statement_currency(tags) {
            Some(currency) => mta_transactions(
                pair_scan(tags).pairs,
                statement_account(tags),
                currency,
                account_id,
            ),
            None => None,
        }
    }
}

pub open spec fn blocks_transactions(blocks: Seq<Seq<char>>, account_id: i32) -> Option<
    Seq<NewTransactionView>,
>
    decreases blocks.len(),
{
    if blocks.len() == 0 {
        Some(Seq::empty())
    } else {
        match (
            blocks_transactions(blocks.drop_last(), account_id),
            block_transactions(blocks.last(), account_id),
        ) {
            (Some(a), Some(b)) => Some(a + b),
            _ => None,
        }
    }
}

/// The transactions of an MT940 file, block after block; `None` exactly where
/// reading the file slices a string inside a character and so panics.
pub open spec fn parsed_mta(contents: Seq<char>, account_id: i32) -> Option<
    Seq<NewTransactionView>,
> {
    blocks_transactions(statement_blocks(contents), account_id)
}

// ---------------------------------------------------------------------------
// Reading the blocks and the tags
// ---------------------------------------------------------------------------

/// `crlf_to_lf` of `v`, with a line break added at both ends.
fn framed_text(v: &[char]) -> (res: Vec<char>)
    ensures
        res@ == seq!['\n'] + crlf_to_lf(v@) + seq!['\n'],
{
    let mut out: Vec<char> = Vec::new();
    out.push('\n');
    let n = v.len();
    let mut i: usize = 0;
    assert(v@.skip(0) =~= v@);
    while i < n
        invariant
            i <= n == v.len(),
            out@ + crlf_to_lf(v@.skip(i as int)) == seq!['\n'] + crlf_to_lf(v@),
        decreases n - i,
    {
        let ghost rest = v@.skip(i as int);
        if v[i] == '\r' && n - i >= 2 && v[i + 1] == '\n' {
            assert(rest[0] == '\r' && rest[1] == '\n');
            assert(rest.skip(2) =~= v@.skip(i + 2));
            let ghost before = out@;
            out.push('\n');
            assert(out@ + crlf_to_lf(v@.skip(i + 2)) =~= before + crlf_to_lf(rest));
            i = i + 2;
        } else {
            assert(rest[0] == v@[i as int]);
            assert(rest.skip(1) =~= v@.skip(i + 1));
            let ghost before = out@;
            out.push(v[i]);
            assert(out@ + crlf_to_lf(v@.skip(i + 1)) =~= before + crlf_to_lf(rest));
            i = i + 1;
        }
    }
    assert(v@.skip(n as int) =~= Seq::<char>::empty());
    assert(crlf_to_lf(v@.skip(n as int)) =~= Seq::<char>::empty());
    let ghost before = out@;
    out.push('\n');
    assert(out@ =~= seq!['\n'] + crlf_to_lf(v@) + seq!['\n']);
    out
}

/// The open tag, its value, and the tags read before it.
struct TagScanExec {
    tag: Vec<char>,
    val: Vec<char>,
    done: Vec<(Vec<char>, Vec<char>)>,
}

impl TagScanExec {
    spec fn view(&self) -> TagScan {
        TagScan { tag: self.tag@, val: self.val@, done: self.done.deep_view() }
    }
}

fn scan_line_exec(st: TagScanExec, line: &[char]) -> (res: TagScanExec)
    ensures
        res.view() == scan_line(st.view(), line@),
{
    let TagScanExec { tag, val, done } = st;
    let mut val = val;
    let mut done = done;
    if line.len() > 0 && line[0] == ':' {
        let rest = copy_range(line, 1, line.len());
        assert(rest@ =~= line@.drop_first());
        let mut colon: Vec<char> = Vec::new();
        colon.push(':');
        assert(colon@ =~= seq![':']);
        match find_exec(&rest, &colon) {
            Some(j) => {
                proof {
                    let fm = choose|i: int| crate::text::first_match(rest@, seq![':'], i);
                    assert(crate::text::first_match(rest@, seq![':'], fm));
                }
                let new_tag = copy_range(&rest, 0, j);
                let new_val = copy_range(&rest, j + 1, rest.len());
                assert(new_tag@ =~= rest@.take(j as int));
                assert(new_val@ =~= rest@.skip(j + 1));
                if tag.len() > 0 {
                    let ghost prev = done.deep_view();
                    let ghost entry = (tag@, val@);
                    assert(tag.deep_view() =~= tag@);
                    assert(val.deep_view() =~= val@);
                    done.push((tag, val));
                    assert(done.deep_view() =~= prev.push(entry));
                }
                TagScanExec { tag: new_tag, val: new_val, done }
            },
            None => {
                append_chars(&mut val, line);
                TagScanExec { tag, val, done }
            },
        }
    } else if tag.len() > 0 {
        append_chars(&mut val, line);
        TagScanExec { tag, val, done }
    } else {
        TagScanExec { tag, val, done }
    }
}

/// The tags of a trimmed block, with their values.
fn block_tags_exec(block: &[char]) -> (res: Vec<(Vec<char>, Vec<char>)>)
    ensures
        res.deep_view() == block_tags(block_lines(block@)),
{
    let pieces = split_chars(block, '\n');
    let ghost lines = block_lines(block@);
    assert(lines.len() == pieces.len());
    let mut st = TagScanExec { tag: Vec::new(), val: Vec::new(), done: Vec::new() };
    let mut i: usize = 0;
    assert(lines.take(0) =~= Seq::<Seq<char>>::empty());
    assert(st.done.deep_view() =~= Seq::<(Seq<char>, Seq<char>)>::empty());
    assert(st.tag@ =~= Seq::<char>::empty());
    assert(st.val@ =~= Seq::<char>::empty());
    assert(st.view() == scan_lines(lines.take(0)));
    while i < pieces.len()
        invariant
            i <= pieces.len() == lines.len(),
            lines == block_lines(block@),
            pieces.deep_view() == split_char(block@, '\n'),
            st.view() == scan_lines(lines.take(i as int)),
        decreases pieces.len() - i,
    {
        let piece = &pieces[i];
        assert(piece@ == pieces.deep_view()[i as int]);
        let line = if piece.len() > 0 && piece[piece.len() - 1] == '\r' {
            copy_range(piece, 0, piece.len() - 1)
        } else {
            copy_range(piece, 0, piece.len())
        };
        assert(line@ =~= strip_cr(piece@));
        assert(lines[i as int] == line@);
        assert(lines.take(i + 1).drop_last() =~= lines.take(i as int));
        st = scan_line_exec(st, &line);
        i = i + 1;
    }
    assert(lines.take(lines.len() as int) =~= lines);
    let TagScanExec { tag, val, done } = st;
    let mut done = done;
    if tag.len() > 0 {
        let ghost prev = done.deep_view();
        let ghost entry = (tag@, val@);
        assert(tag.deep_view() =~= tag@);
        assert(val.deep_view() =~= val@);
        done.push((tag, val));
        assert(done.deep_view() =~= prev.push(entry));
    }
    done
}

// ---------------------------------------------------------------------------
// Reading a block's tags
// ---------------------------------------------------------------------------

fn chars2(a: char, b: char) -> (res: Vec<char>)
    ensures
        res@ == seq![a, b],
{
    let mut v: Vec<char> = Vec::new();
    v.push(a);
    v.push(b);
    assert(v@ =~= seq![a, b]);
    v
}

fn chars3(a: char, b: char, c: char) -> (res: Vec<char>)
    ensures
        res@ == seq![a, b, c],
{
    let mut v: Vec<char> = Vec::new();
    v.push(a);
    v.push(b);
    v.push(c);
    assert(v@ =~= seq![a, b, c]);
    v
}

fn clone_chars(v: &[char]) -> (res: Vec<char>)
    ensures
        res@ == v@,
{
    let r = copy_range(v, 0, v.len());
    assert(r@ =~= v@);
    r
}

fn statement_account_exec(tags: &Vec<(Vec<char>, Vec<char>)>) -> (res: Option<Vec<char>>)
    ensures
        res.deep_view() == statement_account(tags.deep_view()),
{
    let t25 = chars2('2', '5');
    let mut acc: Option<Vec<char>> = None;
    let mut i: usize = 0;
    let ghost tv = tags.deep_view();
    assert(tv.take(0) =~= Seq::<(Seq<char>, Seq<char>)>::empty());
    while i < tags.len()
        invariant
            i <= tags.len(),
            tv == tags.deep_view(),
            t25@ == seq!['2', '5'],
            acc.deep_view() == statement_account(tv.take(i as int)),
        decreases tags.len() - i,
    {
        assert(tv.take(i + 1).drop_last() =~= tv.take(i as int));
        assert(tv[i as int] == (tags[i as int].0@, tags[i as int].1@));
        if chars_eq(&tags[i].0, &t25) {
            acc = Some(clone_chars(&tags[i].1));
            assert(acc.deep_view() == Some(tags[i as int].1@)) by {
                assert(acc.unwrap().deep_view() =~= acc.unwrap()@);
            }
        }
        i = i + 1;
    }
    assert(tv.take(tags.len() as int) =~= tv);
    acc
}

fn statement_currency_exec(tags: &Vec<(Vec<char>, Vec<char>)>) -> (res: Option<Vec<char>>)
    ensures
        match statement_currency(tags.deep_view()) {
            Some(c) => res matches Some(r) && r@ == c,
            None => res is None,
        },
{
    let f60 = chars3('6', '0', 'F');
    let f62 = chars3('6', '2', 'F');
    let mut cur = chars3('E', 'U', 'R');
    let mut i: usize = 0;
    let ghost tv = tags.deep_view();
    assert(tv.take(0) =~= Seq::<(Seq<char>, Seq<char>)>::empty());
    while i < tags.len()
        invariant
            i <= tags.len(),
            tv == tags.deep_view(),
            f60@ == seq!['6', '0', 'F'],
            f62@ == seq!['6', '2', 'F'],
            statement_currency(tv.take(i as int)) == Some(cur@),
        decreases tags.len() - i,
    {
        assert(tv.take(i + 1).drop_last() =~= tv.take(i as int));
        assert(tv[i as int] == (tags[i as int].0@, tags[i as int].1@));
        let tag = &tags[i].0;
        let val = &tags[i].1;
        if (chars_eq(tag, &f60) || chars_eq(tag, &f62)) && byte_len_at_least(val, 10) {
            match byte_slice_exec(val, 7, 10) {
                Some(c) => {
                    cur = c;
                },
                None => {
                    proof {
                        lemma_currency_none_sticky(tv, i as int + 1);
                    }
                    return None;
                },
            }
        }
        i = i + 1;
    }
    assert(tv.take(tags.len() as int) =~= tv);
    Some(cur)
}

proof fn lemma_currency_none_sticky(tags: Seq<(Seq<char>, Seq<char>)>, i: int)
    requires
        0 <= i <= tags.len(),
        statement_currency(tags.take(i)) is None,
    ensures
        statement_currency(tags) is None,
    decreases tags.len() - i,
{
    if i < tags.len() {
        assert(tags.take(i + 1).drop_last() =~= tags.take(i));
        lemma_currency_none_sticky(tags, i + 1);
    } else {
        assert(tags.take(i) =~= tags);
    }
}

fn pair_scan_exec(tags: &Vec<(Vec<char>, Vec<char>)>) -> (res: Vec<(Vec<char>, Vec<char>)>)
    ensures
        res.deep_view() == pair_scan(tags.deep_view()).pairs,
{
    let t61 = chars2('6', '1');
    let t86 = chars2('8', '6');
    let mut pending: Option<Vec<char>> = None;
    let mut pairs: Vec<(Vec<char>, Vec<char>)> = Vec::new();
    let mut i: usize = 0;
    let ghost tv = tags.deep_view();
    assert(tv.take(0) =~= Seq::<(Seq<char>, Seq<char>)>::empty());
    assert(pairs.deep_view() =~= Seq::<(Seq<char>, Seq<char>)>::empty());
    while i < tags.len()
        invariant
            i <= tags.len(),
            tv == tags.deep_view(),
            t61@ == seq!['6', '1'],
            t86@ == seq!['8', '6'],
            pair_scan(tv.take(i as int)) == (PairScan {
                pending: pending.deep_view(),
                pairs: pairs.deep_view(),
            }),
        decreases tags.len() - i,
    {
        assert(tv.take(i + 1).drop_last() =~= tv.take(i as int));
        assert(tv[i as int] == (tags[i as int].0@, tags[i as int].1@));
        let tag = &tags[i].0;
        let val = &tags[i].1;
        if chars_eq(tag, &t61) {
            let p = clone_chars(val);
            assert(p.deep_view() =~= p@);
            pending = Some(p);
        } else if chars_eq(tag, &t86) {
            match pending {
                Some(p) => {
                    assert(p.deep_view() =~= p@);
                    if byte_len_at_least(&p, 10) {
                        let v = clone_chars(val);
                        assert(v.deep_view() =~= v@);
                        let ghost prev = pairs.deep_view();
                        let ghost entry = (p@, v@);
                        pairs.push((p, v));
                        assert(pairs.deep_view() =~= prev.push(entry));
                    }
                    pending = None;
                },
                None => {},
            }
        }
        i = i + 1;
    }
    assert(tv.take(tags.len() as int) =~= tv);
    pairs
}

// ---------------------------------------------------------------------------
// Reading the `:86:` details
// ---------------------------------------------------------------------------

struct DetailsExec {
    title: Vec<char>,
    name: Option<Vec<char>>,
    iban: Option<Vec<char>>,
    bic: Option<Vec<char>>,
    remittance: Vec<char>,
    in_remittance: bool,
}

impl DetailsExec {
    spec fn view(&self) -> Details {
        Details {
            title: self.title@,
            name: self.name.deep_view(),
            iban: self.iban.deep_view(),
            bic: self.bic.deep_view(),
            remittance: self.remittance@,
            in_remittance: self.in_remittance,
        }
    }
}

proof fn lemma_vec_char_deep_view(v: Vec<char>)
    ensures
        v.deep_view() == v@,
{
    assert(v.deep_view() =~= v@);
}

fn details_step_exec(st: DetailsExec, part: &[char]) -> (res: Option<DetailsExec>)
    ensures
        match details_step(st.view(), part@) {
            Some(d) => res matches Some(r) && r.view() == d,
            None => res is None,
        },
{
    if !byte_len_at_least(part, 2) {
        return Some(st);
    }
    let k = match char_index_at_byte_exec(part, 2) {
        Some(k) => k,
        None => {
            return None;
        },
    };
    proof {
        lemma_char_index_at_byte(part@, 2);
    }
    let code = copy_range(part, 0, k);
    let v = copy_range(part, k, part.len());
    assert(code@ =~= part@.take(k as int));
    assert(v@ =~= part@.skip(k as int));
    proof {
        lemma_vec_char_deep_view(v);
    }
    let DetailsExec { title, name, iban, bic, remittance, in_remittance } = st;
    proof {
        if name is Some {
            lemma_vec_char_deep_view(name.unwrap());
        }
    }
    if chars_eq(&code, &chars2('0', '0')) {
        Some(DetailsExec { title: v, name, iban, bic, remittance, in_remittance })
    } else if chars_eq(&code, &chars2('3', '0')) {
        Some(DetailsExec { title, name, iban, bic: Some(v), remittance, in_remittance: false })
    } else if chars_eq(&code, &chars2('3', '1')) {
        Some(DetailsExec { title, name, iban: Some(v), bic, remittance, in_remittance: false })
    } else if chars_eq(&code, &chars2('3', '2')) || chars_eq(&code, &chars2('3', '3')) {
        let new_name = match name {
            Some(x) => {
                let mut x = x;
                append_chars(&mut x, &v);
                x
            },
            None => v,
        };
        proof {
            lemma_vec_char_deep_view(new_name);
        }
        Some(
            DetailsExec {
                title,
                name: Some(new_name),
                iban,
                bic,
                remittance,
                in_remittance: false,
            },
        )
    } else if code.len() > 0 && (code[0] == '2' || code[0] == '6') {
        let mut pat: Vec<char> = Vec::new();
        pat.push('S');
        pat.push('V');
        pat.push('W');
        pat.push('Z');
        pat.push('+');
        assert(pat@ =~= svwz());
        match find_exec(&v, &pat) {
            Some(i) => {
                proof {
                    let fm = choose|j: int| crate::text::first_match(v@, svwz(), j);
                    assert(crate::text::first_match(v@, svwz(), fm));
                }
                let mut rem = remittance;
                if rem.len() > 0 {
                    rem.push(' ');
                }
                let tail = copy_range(&v, i + 5, v.len());
                assert(tail@ =~= v@.skip(i + 5));
                append_chars(&mut rem, &tail);
                Some(DetailsExec { title, name, iban, bic, remittance: rem, in_remittance: true })
            },
            None => {
                if in_remittance {
                    let mut rem = remittance;
                    append_chars(&mut rem, &v);
                    Some(
                        DetailsExec { title, name, iban, bic, remittance: rem, in_remittance: true },
                    )
                } else {
                    Some(DetailsExec { title, name, iban, bic, remittance, in_remittance })
                }
            },
        }
    } else {
        Some(DetailsExec { title, name, iban, bic, remittance, in_remittance: false })
    }
}

proof fn lemma_details_none_sticky(parts: Seq<Seq<char>>, i: int)
    requires
        0 <= i <= parts.len(),
        details_scan(parts.take(i)) is None,
    ensures
        details_scan(parts) is None,
    decreases parts.len() - i,
{
    if i < parts.len() {
        assert(parts.take(i + 1).drop_last() =~= parts.take(i));
        lemma_details_none_sticky(parts, i + 1);
    } else {
        assert(parts.take(i) =~= parts);
    }
}

fn details_exec(t86: &[char]) -> (res: Option<DetailsExec>)
    ensures
        match transaction_details(t86@) {
            Some(d) => res matches Some(r) && r.view() == d,
            None => res is None,
        },
{
    let parts = split_chars(t86, '?');
    let ghost pv = parts.deep_view();
    let mut st = DetailsExec {
        title: Vec::new(),
        name: None,
        iban: None,
        bic: None,
        remittance: Vec::new(),
        in_remittance: false,
    };
    assert(pv.take(0) =~= Seq::<Seq<char>>::empty());
    assert(st.title@ =~= Seq::<char>::empty());
    assert(st.remittance@ =~= Seq::<char>::empty());
    let mut i: usize = 0;
    while i < parts.len()
        invariant
            i <= parts.len(),
            pv == parts.deep_view(),
            pv == split_char(t86@, '?'),
            details_scan(pv.take(i as int)) == Some(st.view()),
        decreases parts.len() - i,
    {
        assert(pv.take(i + 1).drop_last() =~= pv.take(i as int));
        assert(pv[i as int] == parts[i as int]@);
        match details_step_exec(st, &parts[i]) {
            Some(next) => {
                st = next;
            },
            None => {
                proof {
                    lemma_details_none_sticky(pv, i as int + 1);
                }
                return None;
            },
        }
        i = i + 1;
    }
    assert(pv.take(parts.len() as int) =~= pv);
    Some(st)
}

// ---------------------------------------------------------------------------
// Building a transaction
// ---------------------------------------------------------------------------

fn find_pair(t: &[char], a: char, b: char) -> (res: Option<usize>)
    ensures
        match res {
            Some(i) => find(t@, seq![a, b]) == Some(i as int) && i + 2 <= t@.len(),
            None => find(t@, seq![a, b]) is None,
        },
{
    let pat = chars2(a, b);
    let r = find_exec(t, &pat);
    proof {
        if r is Some {
            let fm = choose|j: int| crate::text::first_match(t@, seq![a, b], j);
            assert(crate::text::first_match(t@, seq![a, b], fm));
        }
    }
    r
}

fn searched_direction_exec(t: &[char]) -> (res: (bool, usize))
    requires
        char_index_at_byte(t@, 6) is Some,
    ensures
        res.0 == searched_direction(t@).0,
        res.1 as int == searched_direction(t@).1,
        res.1 <= t.len(),
{
    proof {
        lemma_char_index_at_byte(t@, 6);
    }
    let n = t.len();
    if let Some(i) = find_pair(t, 'D', 'R') {
        assert(i + 2 <= n);
        return (true, i + 2);
    }
    if let Some(i) = find_pair(t, 'C', 'R') {
        assert(i + 2 <= n);
        return (false, i + 2);
    }
    if let Some(i) = find_pair(t, 'R', 'C') {
        assert(i + 2 <= n);
        return (false, i + 2);
    }
    if let Some(i) = find_pair(t, 'R', 'D') {
        assert(i + 2 <= n);
        return (true, i + 2);
    }
    match char_index_at_byte_exec(t, 6) {
        Some(k) => (true, k),
        None => (true, 0),
    }
}

fn direction_exec(t: &[char]) -> (res: (bool, usize))
    requires
        char_index_at_byte(t@, 6) is Some,
    ensures
        res.0 == direction(t@).0,
        res.1 as int == direction(t@).1,
        res.1 <= t.len(),
{
    proof {
        lemma_char_index_at_byte(t@, 10);
    }
    let n = t.len();
    match char_index_at_byte_exec(t, 10) {
        Some(k) => {
            let ghost m = t@.skip(k as int);
            if n - k >= 2 {
                assert(m[0] == t@[k as int] && m[1] == t@[k + 1]);
                if t[k] == 'D' && t[k + 1] == 'R' {
                    return (true, k + 2);
                }
                if t[k] == 'C' && t[k + 1] == 'R' {
                    return (false, k + 2);
                }
            }
            searched_direction_exec(t)
        },
        None => searched_direction_exec(t),
    }
}

proof fn lemma_amount_run(s: Seq<char>, i: int)
    requires
        0 <= i <= s.len(),
        forall|j: int| 0 <= j < i ==> is_amount_char(#[trigger] s[j]),
    ensures
        amount_run_len(s) == i + amount_run_len(s.skip(i)),
    decreases i,
{
    if i > 0 {
        assert(s.drop_first().skip(i - 1) =~= s.skip(i));
        assert forall|j: int| 0 <= j < i - 1 implies is_amount_char(#[trigger] s.drop_first()[j]) by {
            assert(s.drop_first()[j] == s[j + 1]);
        }
        lemma_amount_run(s.drop_first(), i - 1);
    } else {
        assert(s.skip(0) =~= s);
    }
}

fn mta_amount_exec(t: &[char], start: usize, is_debit: bool) -> (res: i32)
    requires
        start <= t.len(),
    ensures
        res == mta_amount(t@, start as int, is_debit),
{
    let n = t.len();
    let mut i = start;
    while i < n && (is_digit_exec(t[i]) || t[i] == ',')
        invariant
            start <= i <= n == t.len(),
            forall|j: int| start <= j < i ==> is_amount_char(#[trigger] t@[j]),
        decreases n - i,
    {
        i = i + 1;
    }
    let ghost rest = t@.skip(start as int);
    proof {
        assert forall|j: int| 0 <= j < i - start implies is_amount_char(#[trigger] rest[j]) by {
            assert(rest[j] == t@[j + start]);
        }
        lemma_amount_run(rest, i - start);
        if i < n {
            assert(rest.skip(i - start)[0] == t@[i as int]);
        } else {
            assert(rest.skip(i - start).len() == 0);
        }
        assert(rest.take(i - start) =~= t@.subrange(start as int, i as int));
    }
    if i == start {
        return 0;
    }
    let run = copy_range(t, start, i);
    let plain = german_to_plain_exec(&run);
    proof {
        assert forall|j: int| 0 <= j < run@.len() implies is_amount_char(#[trigger] run@[j]) by {
            assert(run@[j] == t@[start + j]);
        }
        lemma_plain_amount_chars(run@);
    }
    if is_debit {
        let mut signed: Vec<char> = Vec::new();
        signed.push('-');
        append_chars(&mut signed, &plain);
        assert(signed@.drop_first() =~= plain@);
        proof {
            if plain@.len() > 0 {
                assert(is_digit(plain@[0]) || plain@[0] == '.');
            }
        }
        match parse_decimal_minor(&signed) {
            Some(x) => x,
            None => 0,
        }
    } else {
        proof {
            if plain@.len() > 0 {
                assert(is_digit(plain@[0]) || plain@[0] == '.');
            }
        }
        match parse_decimal_minor(&plain) {
            Some(x) => x,
            None => 0,
        }
    }
}

proof fn lemma_plain_amount_chars(s: Seq<char>)
    requires
        forall|j: int| 0 <= j < s.len() ==> is_amount_char(#[trigger] s[j]),
    ensures
        forall|j: int|
            0 <= j < german_to_plain(s).len() ==> is_digit(#[trigger] german_to_plain(s)[j])
                || german_to_plain(s)[j] == '.',
    decreases s.len(),
{
    if s.len() > 0 {
        assert forall|j: int| 0 <= j < s.drop_last().len() implies is_amount_char(
            #[trigger] s.drop_last()[j],
        ) by {
            assert(s.drop_last()[j] == s[j]);
        }
        lemma_plain_amount_chars(s.drop_last());
        assert(is_amount_char(s[s.len() - 1]));
        let p = german_to_plain(s.drop_last());
        let q = german_to_plain(s);
        assert forall|j: int| 0 <= j < q.len() implies is_digit(#[trigger] q[j]) || q[j] == '.' by {
            if j < p.len() {
                assert(q[j] == p[j]);
            }
        }
    }
}

fn option_chars_to_string(o: Option<Vec<char>>) -> (res: Option<String>)
    ensures
        res.deep_view() == o.deep_view(),
{
    match o {
        Some(v) => {
            let s = from_chars(&v);
            proof {
                lemma_vec_char_deep_view(v);
            }
            Some(s)
        },
        None => None,
    }
}

fn option_ref_chars_to_string(o: &Option<Vec<char>>) -> (res: Option<String>)
    ensures
        res.deep_view() == o.deep_view(),
{
    match o {
        Some(v) => {
            let s = from_chars(v);
            proof {
                lemma_vec_char_deep_view(*v);
            }
            Some(s)
        },
        None => None,
    }
}

fn date_text_exec(yy: &[char], mm: &[char], dd: &[char]) -> (res: Vec<char>)
    ensures
        res@ == date_text(yy@, mm@, dd@),
{
    let mut out = clone_chars(dd);
    out.push('.');
    append_chars(&mut out, mm);
    out.push('.');
    out.push('2');
    out.push('0');
    append_chars(&mut out, yy);
    assert(out@ =~= date_text(yy@, mm@, dd@));
    out
}

fn value_date_exec(t: &[char], yy: &[char]) -> (res: Option<Vec<char>>)
    ensures
        res.deep_view() == value_date(t@, yy@),
{
    match byte_slice_exec(t, 6, 10) {
        Some(v) => {
            if v.len() == 4 && is_digit_exec(v[0]) && is_digit_exec(v[1]) && is_digit_exec(v[2])
                && is_digit_exec(v[3]) {
                let mm = copy_range(&v, 0, 2);
                let dd = copy_range(&v, 2, 4);
                assert(mm@ =~= v@.take(2));
                let text = date_text_exec(yy, &mm, &dd);
                let d = normalize_date_chars(&text);
                proof {
                    assert(all_digits(v@));
                    lemma_vec_char_deep_view(d);
                }
                Some(d)
            } else {
                proof {
                    if v.len() == 4 && all_digits(v@) {
                        assert(is_digit(v@[0]) && is_digit(v@[1]) && is_digit(v@[2]) && is_digit(
                            v@[3],
                        ));
                    }
                }
                None
            }
        },
        None => None,
    }
}

fn mta_transaction_exec(
    t61: &[char],
    t86: &[char],
    account: &Option<Vec<char>>,
    currency: &[char],
    account_id: i32,
) -> (res: Option<NewTransaction>)
    ensures
        match mta_transaction(t61@, t86@, account.deep_view(), currency@, account_id) {
            Some(x) => res matches Some(r) && r@ == x,
            None => res is None,
        },
{
    let yy = match byte_slice_exec(t61, 0, 2) {
        Some(x) => x,
        None => {
            return None;
        },
    };
    let mm = match byte_slice_exec(t61, 2, 4) {
        Some(x) => x,
        None => {
            return None;
        },
    };
    let dd = match byte_slice_exec(t61, 4, 6) {
        Some(x) => x,
        None => {
            return None;
        },
    };
    let det = match details_exec(t86) {
        Some(d) => d,
        None => {
            return None;
        },
    };
    proof {
        lemma_char_index_at_byte(t61@, 6);
    }
    let (is_debit, start) = direction_exec(t61);
    let amount_minor = mta_amount_exec(t61, start, is_debit);
    let text = date_text_exec(&yy, &mm, &dd);
    let booking = normalize_date_chars(&text);
    let value = value_date_exec(t61, &yy);
    let DetailsExec { title, name, iban, bic, remittance, in_remittance } = det;
    let remittance_information = if remittance.len() > 0 {
        let r = from_chars(&remittance);
        Some(r)
    } else {
        None
    };
    let tx = NewTransaction {
        booking_text: from_chars(&title),
        debtor_name: None,
        debtor_iban: option_ref_chars_to_string(account),
        debtor_bic: None,
        creditor_name: option_chars_to_string(name),
        creditor_iban: option_chars_to_string(iban),
        creditor_bic: option_chars_to_string(bic),
        amount_minor,
        currency_code: from_chars(currency),
        booking_date: from_chars(&booking),
        value_date: option_chars_to_string(value),
        balance_after_minor: None,
        mandate_reference: None,
        remittance_information,
        bank_account_id: account_id,
    };
    proof {
        assert(remittance_information.deep_view() == option_if_nonempty(remittance@));
    }
    Some(tx)
}

// ---------------------------------------------------------------------------
// Blocks and files
// ---------------------------------------------------------------------------

proof fn lemma_transactions_none_sticky(
    pairs: Seq<(Seq<char>, Seq<char>)>,
    account: Option<Seq<char>>,
    currency: Seq<char>,
    account_id: i32,
    i: int,
)
    requires
        0 <= i <= pairs.len(),
        mta_transactions(pairs.take(i), account, currency, account_id) is None,
    ensures
        mta_transactions(pairs, account, currency, account_id) is None,
    decreases pairs.len() - i,
{
    if i < pairs.len() {
        assert(pairs.take(i + 1).drop_last() =~= pairs.take(i));
        lemma_transactions_none_sticky(pairs, account, currency, account_id, i + 1);
    } else {
        assert(pairs.take(i) =~= pairs);
    }
}

fn mta_transactions_exec(
    pairs: &Vec<(Vec<char>, Vec<char>)>,
    account: &Option<Vec<char>>,
    currency: &[char],
    account_id: i32,
) -> (res: Option<Vec<NewTransaction>>)
    ensures
        match mta_transactions(pairs.deep_view(), account.deep_view(), currency@, account_id) {
            Some(x) => res matches Some(r) && new_transactions_view(r@) == x,
            None => res is None,
        },
{
    let ghost pv = pairs.deep_view();
    let mut out: Vec<NewTransaction> = Vec::new();
    let mut i: usize = 0;
    assert(pv.take(0) =~= Seq::<(Seq<char>, Seq<char>)>::empty());
    assert(new_transactions_view(out@) =~= Seq::<NewTransactionView>::empty());
    while i < pairs.len()
        invariant
            i <= pairs.len(),
            pv == pairs.deep_view(),
            mta_transactions(pv.take(i as int), account.deep_view(), currency@, account_id)
                == Some(new_transactions_view(out@)),
        decreases pairs.len() - i,
    {
        assert(pv.take(i + 1).drop_last() =~= pv.take(i as int));
        assert(pv[i as int] == (pairs[i as int].0@, pairs[i as int].1@));
        match mta_transaction_exec(&pairs[i].0, &pairs[i].1, account, currency, account_id) {
            Some(tx) => {
                let ghost prev = out@;
                out.push(tx);
                assert(new_transactions_view(out@) =~= new_transactions_view(prev).push(tx@));
            },
            None => {
                proof {
                    lemma_transactions_none_sticky(
                        pv,
                        account.deep_view(),
                        currency@,
                        account_id,
                        i as int + 1,
                    );
                }
                return None;
            },
        }
        i = i + 1;
    }
    assert(pv.take(pairs.len() as int) =~= pv);
    Some(out)
}

fn block_transactions_exec(block: &[char], account_id: i32) -> (res: Option<Vec<NewTransaction>>)
    ensures
        match block_transactions(block@, account_id) {
            Some(x) => res matches Some(r) && new_transactions_view(r@) == x,
            None => res is None,
        },
{
    let t = trim_chars(block);
    if t.len() == 0 || (t.len() == 1 && t[0] == '-') {
        proof {
            if t.len() == 1 && t[0] == '-' {
                assert(t@ =~= seq!['-']);
            }
        }
        let out: Vec<NewTransaction> = Vec::new();
        assert(new_transactions_view(out@) =~= Seq::<NewTransactionView>::empty());
        return Some(out);
    }
    proof {
        if t@ == seq!['-'] {
            assert(t@[0] == '-');
        }
    }
    let tags = block_tags_exec(&t);
    let currency = match statement_currency_exec(&tags) {
        Some(c) => c,
        None => {
            return None;
        },
    };
    let account = statement_account_exec(&tags);
    let pairs = pair_scan_exec(&tags);
    mta_transactions_exec(&pairs, &account, &currency, account_id)
}

proof fn lemma_blocks_none_sticky(blocks: Seq<Seq<char>>, account_id: i32, i: int)
    requires
        0 <= i <= blocks.len(),
        blocks_transactions(blocks.take(i), account_id) is None,
    ensures
        blocks_transactions(blocks, account_id) is None,
    decreases blocks.len() - i,
{
    if i < blocks.len() {
        assert(blocks.take(i + 1).drop_last() =~= blocks.take(i));
        lemma_blocks_none_sticky(blocks, account_id, i + 1);
    } else {
        assert(blocks.take(i) =~= blocks);
    }
}

/// The transactions of an MT940 file, or `None` where reading it would slice
/// a string inside a character.
pub fn try_parse_mta(contents: &str, account_id: i32) -> (res: Option<Vec<NewTransaction>>)
    ensures
        match parsed_mta(contents@, account_id) {
            Some(x) => res matches Some(r) && new_transactions_view(r@) == x,
            None => res is None,
        },
{
    let chars = to_chars(contents);
    let framed = framed_text(&chars);
    let sep = chars3('\n', '-', '\n');
    let blocks = split_str_exec(&framed, &sep);
    let ghost bv = blocks.deep_view();
    assert(bv == statement_blocks(contents@));
    let mut out: Vec<NewTransaction> = Vec::new();
    let mut i: usize = 0;
    assert(bv.take(0) =~= Seq::<Seq<char>>::empty());
    assert(new_transactions_view(out@) =~= Seq::<NewTransactionView>::empty());
    while i < blocks.len()
        invariant
            i <= blocks.len(),
            bv == blocks.deep_view(),
            bv == statement_blocks(contents@),
            blocks_transactions(bv.take(i as int), account_id) == Some(
                new_transactions_view(out@),
            ),
        decreases blocks.len() - i,
    {
        assert(bv.take(i + 1).drop_last() =~= bv.take(i as int));
        assert(bv[i as int] == blocks[i as int]@);
        match block_transactions_exec(&blocks[i], account_id) {
            Some(txs) => {
                let ghost prev = out@;
                let mut txs = txs;
                let ghost added = txs@;
                out.append(&mut txs);
                assert(new_transactions_view(out@) =~= new_transactions_view(prev)
                    + new_transactions_view(added));
            },
            None => {
                proof {
                    lemma_blocks_none_sticky(bv, account_id, i as int + 1);
                }
                return None;
            },
        }
        i = i + 1;
    }
    assert(bv.take(blocks.len() as int) =~= bv);
    Some(out)
}

/// Parses the text of an MT940 file into transactions for the account
/// `account_id`: one for every `:61:` that a `:86:` follows, in order.
pub fn parse_mta(contents: &str, account_id: i32) -> (res: Result<Vec<NewTransaction>, String>)
    requires
        parsed_mta(contents@, account_id) is Some,
    ensures
        res matches Ok(v) && new_transactions_view(v@) == parsed_mta(contents@, account_id).unwrap(),
{
    match try_parse_mta(contents, account_id) {
        Some(v) => Ok(v),
        None => Ok(Vec::new()),
    }
}

// ---------------------------------------------------------------------------
// Laws
// ---------------------------------------------------------------------------

/// A debit is never stored as a positive amount, a credit never as a
/// negative one.
pub proof fn lemma_mta_amount_sign(t: Seq<char>, start: int, is_debit: bool)
    requires
        0 <= start <= t.len(),
    ensures
        is_debit ==> mta_amount(t, start, is_debit) <= 0,
        !is_debit ==> mta_amount(t, start, is_debit) >= 0,
{
    let rest = t.skip(start);
    let k = amount_run_len(rest);
    lemma_amount_run_chars(rest);
    let run = rest.take(k as int);
    assert forall|j: int| 0 <= j < run.len() implies is_amount_char(#[trigger] run[j]) by {
        assert(run[j] == rest[j]);
    }
    lemma_plain_amount_chars(run);
    let plain = german_to_plain(run);
    if plain.len() > 0 {
        assert(is_digit(plain[0]) || plain[0] == '.');
    }
}

proof fn lemma_amount_run_chars(s: Seq<char>)
    ensures
        amount_run_len(s) <= s.len(),
        forall|j: int| 0 <= j < amount_run_len(s) ==> is_amount_char(#[trigger] s[j]),
    decreases s.len(),
{
    if s.len() > 0 && is_amount_char(s[0]) {
        lemma_amount_run_chars(s.drop_first());
        assert forall|j: int| 0 <= j < amount_run_len(s) implies is_amount_char(#[trigger] s[j]) by {
            if j > 0 {
                assert(s[j] == s.drop_first()[j - 1]);
            }
        }
    }
}

/// Where the amount of a `:61:` value starts lies within it.
proof fn lemma_direction_within(t: Seq<char>)
    ensures
        0 <= direction(t).1 <= t.len(),
{
    lemma_char_index_at_byte(t, 6);
    lemma_char_index_at_byte(t, 10);
    match find(t, seq!['D', 'R']) {
        Some(i) => {
            let c = choose|c: int| crate::text::first_match(t, seq!['D', 'R'], c);
            assert(crate::text::first_match(t, seq!['D', 'R'], c));
        },
        None => match find(t, seq!['C', 'R']) {
            Some(i) => {
                let c = choose|c: int| crate::text::first_match(t, seq!['C', 'R'], c);
                assert(crate::text::first_match(t, seq!['C', 'R'], c));
            },
            None => match find(t, seq!['R', 'C']) {
                Some(i) => {
                    let c = choose|c: int| crate::text::first_match(t, seq!['R', 'C'], c);
                    assert(crate::text::first_match(t, seq!['R', 'C'], c));
                },
                None => match find(t, seq!['R', 'D']) {
                    Some(i) => {
                        let c = choose|c: int| crate::text::first_match(t, seq!['R', 'D'], c);
                        assert(crate::text::first_match(t, seq!['R', 'D'], c));
                    },
                    None => {},
                },
            },
        },
    }
}

/// Every transaction read as a debit has an amount of at most zero, every
/// one read as a credit at least zero.
pub proof fn lemma_mta_transaction_sign(
    t61: Seq<char>,
    t86: Seq<char>,
    account: Option<Seq<char>>,
    currency: Seq<char>,
    account_id: i32,
)
    ensures
        mta_transaction(t61, t86, account, currency, account_id) matches Some(tx) ==> {
            &&& direction(t61).0 ==> tx.amount_minor <= 0
            &&& !direction(t61).0 ==> tx.amount_minor >= 0
        },
{
    if mta_transaction(t61, t86, account, currency, account_id) is Some {
        let (is_debit, start) = direction(t61);
        lemma_direction_within(t61);
        lemma_mta_amount_sign(t61, start, is_debit);
    }
}

/// Text of digits takes one byte per character.
proof fn lemma_digits_byte_len(s: Seq<char>)
    requires
        all_digits(s),
    ensures
        byte_len(s) == s.len(),
    decreases s.len(),
{
    if s.len() > 0 {
        assert(all_digits(s.drop_last())) by {
            assert forall|i: int| 0 <= i < s.drop_last().len() implies is_digit(
                #[trigger] s.drop_last()[i],
            ) by {
                assert(s.drop_last()[i] == s[i]);
            }
        }
        lemma_digits_byte_len(s.drop_last());
        assert(is_digit(s[s.len() - 1]));
    }
}

/// A `:61:` value of ten date digits, the mark `DR` or `CR`, an amount of
/// digits and commas, and then reference text that does not continue the
/// amount: the transaction is a debit exactly for `DR`, and its amount is
/// the amount read with a decimal comma, in minor units and negative for a
/// debit, whatever the reference text holds.
pub proof fn lemma_mta_marked_amount(
    date: Seq<char>,
    is_debit: bool,
    amount: Seq<char>,
    reference: Seq<char>,
)
    requires
        date.len() == 10,
        all_digits(date),
        forall|i: int| 0 <= i < amount.len() ==> is_amount_char(#[trigger] amount[i]),
        reference.len() > 0 ==> !is_amount_char(reference[0]),
    ensures
        ({
            let t = date + (if is_debit {
                seq!['D', 'R']
            } else {
                seq!['C', 'R']
            }) + amount + reference;
            &&& direction(t) == (is_debit, 12int)
            &&& mta_amount(t, 12, is_debit) == if amount.len() == 0 {
                0i32
            } else {
                match decimal_minor(german_to_plain(amount)) {
                    Some(x) => clamp_i32(
                        if is_debit {
                            -x
                        } else {
                            x
                        },
                    ),
                    None => 0,
                }
            }
        }),
{
    let mark = if is_debit {
        seq!['D', 'R']
    } else {
        seq!['C', 'R']
    };
    let t = date + mark + amount + reference;
    assert(t.take(10) =~= date);
    lemma_digits_byte_len(date);
    lemma_char_index_at_byte(t, 10);
    assert(char_index_at_byte(t, 10) == Some(10int));
    let m = t.skip(10);
    assert(m =~= mark + amount + reference);
    assert(m[0] == mark[0] && m[1] == 'R');
    if is_debit {
        assert(starts_with_pair(m, 'D', 'R'));
    } else {
        assert(starts_with_pair(m, 'C', 'R'));
        assert(!starts_with_pair(m, 'D', 'R'));
    }
    assert(direction(t) == (is_debit, 12int));
    let rest = t.skip(12);
    assert(rest =~= amount + reference);
    assert forall|j: int| 0 <= j < amount.len() implies is_amount_char(#[trigger] rest[j]) by {
        assert(rest[j] == amount[j]);
    }
    lemma_amount_run(rest, amount.len() as int);
    assert(rest.skip(amount.len() as int) =~= reference);
    assert(rest.take(amount.len() as int) =~= amount);
}

/// Appending a `?32` or `?33` subfield to a `:86:` value appends its text
/// to the counterpart's name, after whatever name the value gave before,
/// and leaves the type, IBAN, BIC and remittance text as they were: the name
/// is all `?32` and `?33` texts joined in order.
pub proof fn lemma_name_subfields_append(t86: Seq<char>, c: char, x: Seq<char>)
    requires
        c == '2' || c == '3',
        forall|j: int| 0 <= j < x.len() ==> x[j] != '?',
    ensures
        transaction_details(t86) matches Some(d) ==> transaction_details(
            t86 + seq!['?', '3', c] + x,
        ) matches Some(d2) && d2.name == Some(
            match d.name {
                Some(n) => n + x,
                None => x,
            },
        ) && d2.title == d.title && d2.iban == d.iban && d2.bic == d.bic && d2.remittance
            == d.remittance,
{
    let part = seq!['3', c] + x;
    assert(t86 + seq!['?', '3', c] + x =~= t86 + seq!['?'] + part);
    assert forall|j: int| 0 <= j < part.len() implies part[j] != '?' by {
        if j >= 2 {
            assert(part[j] == x[j - 2]);
        }
    }
    crate::text::lemma_split_char_append(t86, '?', part);
    let parts = split_char(t86, '?').push(part);
    assert(parts.drop_last() =~= split_char(t86, '?'));
    assert(parts.last() == part);
    lemma_char_index_at_byte(part, 2);
    assert(part.take(2) =~= seq!['3', c]);
    assert(byte_len(seq!['3', c]) == 2) by {
        assert(seq!['3', c].drop_last() =~= seq!['3']);
        assert(seq!['3'].drop_last() =~= Seq::<char>::empty());
        assert(('3' as u32) < 0x80);
        assert((c as u32) < 0x80);
        assert(crate::text::utf8_width('3') == 1);
        assert(crate::text::utf8_width(c) == 1);
        assert(byte_len(seq!['3']) == byte_len(Seq::<char>::empty()) + crate::text::utf8_width('3'));
        assert(byte_len(seq!['3', c]) == byte_len(seq!['3']) + crate::text::utf8_width(c));
    }
    assert(char_index_at_byte(part, 2) == Some(2int));
    crate::text::lemma_byte_len_take_mono(part, 2, part.len() as int);
    assert(part.take(part.len() as int) =~= part);
    assert(part.skip(2) =~= x);
    assert(part.take(2) != seq!['0', '0']);
    assert(part.take(2) != seq!['3', '0']);
    assert(part.take(2) != seq!['3', '1']);
}

/// Every transaction of a block has a remittance text that is absent or
/// not empty.
pub proof fn lemma_mta_remittance_absent_or_nonempty(
    t61: Seq<char>,
    t86: Seq<char>,
    account: Option<Seq<char>>,
    currency: Seq<char>,
    account_id: i32,
)
    ensures
        mta_transaction(t61, t86, account, currency, account_id) matches Some(tx) ==> (
        tx.remittance_information matches Some(r) ==> r.len() > 0),
{
}

/// `s` with every line feed written as a carriage return and a line feed.
pub open spec fn lf_to_crlf(s: Seq<char>) -> Seq<char>
    decreases s.len(),
{
    if s.len() == 0 {
        s
    } else {
        (if s[0] == '\n' {
            seq!['\r', '\n']
        } else {
            seq![s[0]]
        }) + lf_to_crlf(s.skip(1))
    }
}

proof fn lemma_crlf_to_lf_inverts(s: Seq<char>)
    requires
        forall|i: int| 0 <= i < s.len() ==> s[i] != '\r',
    ensures
        crlf_to_lf(lf_to_crlf(s)) == s,
    decreases s.len(),
{
    if s.len() > 0 {
        let rest = s.skip(1);
        assert forall|i: int| 0 <= i < rest.len() implies rest[i] != '\r' by {
            assert(rest[i] == s[i + 1]);
        }
        lemma_crlf_to_lf_inverts(rest);
        let x = lf_to_crlf(s);
        if s[0] == '\n' {
            assert(x.skip(2) =~= lf_to_crlf(rest));
            assert(x[0] == '\r' && x[1] == '\n');
        } else {
            assert(x.skip(1) =~= lf_to_crlf(rest));
            assert(x[0] == s[0]);
        }
        assert(s =~= seq![s[0]] + rest);
    }
}

/// A file whose lines end in `\r\n` gives the same transactions as the same
/// file with lines ending in `\n`.
pub proof fn lemma_crlf_files_parse_like_lf(contents: Seq<char>, account_id: i32)
    requires
        forall|i: int| 0 <= i < contents.len() ==> contents[i] != '\r',
    ensures
        parsed_mta(lf_to_crlf(contents), account_id) == parsed_mta(contents, account_id),
{
    lemma_crlf_to_lf_inverts(contents);
    lemma_crlf_to_lf_inverts_plain(contents);
}

proof fn lemma_crlf_to_lf_inverts_plain(s: Seq<char>)
    requires
        forall|i: int| 0 <= i < s.len() ==> s[i] != '\r',
    ensures
        crlf_to_lf(s) == s,
    decreases s.len(),
{
    if s.len() > 0 {
        let rest = s.skip(1);
        assert forall|i: int| 0 <= i < rest.len() implies rest[i] != '\r' by {
            assert(rest[i] == s[i + 1]);
        }
        lemma_crlf_to_lf_inverts_plain(rest);
        assert(s =~= seq![s[0]] + rest);
    }
}

} // verus!
