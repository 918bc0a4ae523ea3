//! Small conversions shared by the parsers and the synchronisation.
use vstd::prelude::*;

use crate::text::{
    all_ws, byte_len, byte_len_at_least, from_chars, is_blank, lemma_split_char_absent,
    lemma_split_char_len, lemma_split_char_pieces, split_char, split_chars, to_chars,
};

verus! {

/// `s` padded on the left with `0` to two characters, as `{:0>2}` formats it.
pub open spec fn pad2(s: Seq<char>) -> Seq<char> {
    if s.len() == 0 {
        seq!['0', '0']
    } else if s.len() == 1 {
        seq!['0'] + s
    } else {
        s
    }
}

/// A date `DD.MM.YYYY` rewritten as `YYYY-MM-DD`: the text splits at `.` into
/// exactly three parts, day and month of at most two bytes (padded with `0`),
/// the year of exactly four bytes. Any other text is returned unchanged.
pub open spec fn normalized_date(d: Seq<char>) -> Seq<char> {
    let parts = split_char(d, '.');
    if parts.len() == 3 && byte_len(parts[0]) <= 2 && byte_len(parts[1]) <= 2 && byte_len(
        parts[2],
    ) == 4 {
        parts[2] + seq!['-'] + pad2(parts[1]) + seq!['-'] + pad2(parts[0])
    } else {
        d
    }
}

fn pad2_exec(v: &[char]) -> (res: Vec<char>)
    ensures
        res@ == pad2(v@),
{
    let mut res: Vec<char> = Vec::new();
    if v.len() == 0 {
        res.push('0');
        res.push('0');
    } else if v.len() == 1 {
        res.push('0');
        res.push(v[0]);
    } else {
        let mut i: usize = 0;
        while i < v.len()
            invariant
                i <= v.len(),
                res@ == v@.take(i as int),
            decreases v.len() - i,
        {
            res.push(v[i]);
            i = i + 1;
            assert(res@ =~= v@.take(i as int));
        }
        assert(v@.take(v.len() as int) =~= v@);
    }
    assert(res@ =~= pad2(v@));
    res
}

/// The characters of `normalized_date(d)`.
pub fn normalize_date_chars(d: &[char]) -> (res: Vec<char>)
    ensures
        res@ == normalized_date(d@),
{
    let parts = split_chars(d, '.');
    proof {
        lemma_split_char_len(d@, '.');
    }
    if parts.len() == 3 {
        assert(parts[0]@ == parts.deep_view()[0]);
        assert(parts[1]@ == parts.deep_view()[1]);
        assert(parts[2]@ == parts.deep_view()[2]);
        if !byte_len_at_least(&parts[0], 3) && !byte_len_at_least(&parts[1], 3)
            && byte_len_at_least(&parts[2], 4) && !byte_len_at_least(&parts[2], 5) {
            let mut out: Vec<char> = Vec::new();
            let y = &parts[2];
            let mut i: usize = 0;
            while i < y.len()
                invariant
                    i <= y.len(),
                    out@ == y@.take(i as int),
                decreases y.len() - i,
            {
                out.push(y[i]);
                i = i + 1;
                assert(out@ =~= y@.take(i as int));
            }
            assert(y@.take(y.len() as int) =~= y@);
            out.push('-');
            let m = pad2_exec(&parts[1]);
            let ghost before_m = out@;
            crate::text::append_chars(&mut out, &m);
            out.push('-');
            let dd = pad2_exec(&parts[0]);
            crate::text::append_chars(&mut out, &dd);
            assert(out@ =~= normalized_date(d@));
            return out;
        }
    }
    let mut out: Vec<char> = Vec::new();
    crate::text::append_chars(&mut out, d);
    assert(out@ =~= d@);
    out
}

/// Rewrites a date `DD.MM.YYYY` as `YYYY-MM-DD`; other text comes back
/// unchanged.
pub fn normalize_date(date_str: &str) -> (res: String)
    ensures
        res@ == normalized_date(date_str@),
{
    let d = to_chars(date_str);
    let n = normalize_date_chars(&d);
    from_chars(&n)
}

/// Normalising a date twice gives what normalising it once gives.
pub proof fn lemma_normalize_date_idempotent(d: Seq<char>)
    ensures
        normalized_date(normalized_date(d)) == normalized_date(d),
{
    let parts = split_char(d, '.');
    lemma_split_char_len(d, '.');
    if parts.len() == 3 && byte_len(parts[0]) <= 2 && byte_len(parts[1]) <= 2 && byte_len(parts[2])
        == 4 {
        lemma_split_char_pieces(d, '.');
        let o = normalized_date(d);
        assert forall|j: int| 0 <= j < o.len() implies o[j] != '.' by {
            let y = parts[2];
            let m = pad2(parts[1]);
            let dd = pad2(parts[0]);
            assert(o == y + seq!['-'] + m + seq!['-'] + dd);
            if j < y.len() {
                assert(o[j] == y[j]);
            } else if j == y.len() {
            } else if j < y.len() + 1 + m.len() {
                let k = j - y.len() - 1;
                assert(o[j] == m[k]);
                if parts[1].len() == 1 && k == 1 {
                    assert(m[k] == parts[1][0]);
                } else if parts[1].len() >= 2 {
                    assert(m[k] == parts[1][k]);
                }
            } else if j == y.len() + 1 + m.len() {
            } else {
                let k = j - y.len() - 2 - m.len();
                assert(o[j] == dd[k]);
                if parts[0].len() == 1 && k == 1 {
                    assert(dd[k] == parts[0][0]);
                } else if parts[0].len() >= 2 {
                    assert(dd[k] == parts[0][k]);
                }
            }
        }
        lemma_split_char_absent(o, '.');
    }
}

/// `None` where the value is missing or only whitespace, the value otherwise.
pub open spec fn non_blank(s: Option<String>) -> Option<String> {
    match s {
        Some(v) => if all_ws(v@) {
            None
        } else {
            Some(v)
        },
        None => None,
    }
}

/// Keeps a value only where it holds something besides whitespace.
pub fn none_if_empty(s: Option<String>) -> (res: Option<String>)
    ensures
        res == non_blank(s),
{
    match s {
        Some(v) => {
            let cs = to_chars(v.as_str());
            if is_blank(&cs) {
                None
            } else {
                Some(v)
            }
        },
        None => None,
    }
}

} // verus!
