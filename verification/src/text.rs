use vstd::prelude::*;

verus! {

/// `String::push` appends one character at the end of the string.
pub assume_specification[ String::push ](s: &mut String, ch: char)
    ensures
        final(s)@ == old(s)@.push(ch),
;

// ---------------------------------------------------------------------------
// Conversions between strings and vectors of characters
// ---------------------------------------------------------------------------

/// The characters of `s`, in order, in a vector.
pub fn to_chars(s: &str) -> (res: Vec<char>)
    ensures
        res@ == s@,
{
    let mut res: Vec<char> = Vec::new();
    for c in it: s.chars()
        invariant
            res@ == it.seq().take(it.index() as int),
    {
        res.push(c);
    }
    res
}

/// A string holding exactly the characters of `v`.
pub fn from_chars(v: &[char]) -> (res: String)
    ensures
        res@ == v@,
{
    let mut res = String::new();
    let mut i: usize = 0;
    while i < v.len()
        invariant
            i <= v.len(),
            res@ == v@.take(i as int),
        decreases v.len() - i,
    {
        res.push(v[i]);
        i = i + 1;
        assert(res@ =~= v@.take(i as int));
    }
    assert(v@.take(v.len() as int) =~= v@);
    res
}

/// A copy of the characters of `v` from index `from` up to (not including) `to`.
pub fn copy_range(v: &[char], from: usize, to: usize) -> (res: Vec<char>)
    requires
        from <= to <= v.len(),
    ensures
        res@ == v@.subrange(from as int, to as int),
{
    let mut res: Vec<char> = Vec::new();
    let mut i = from;
    while i < to
        invariant
            from <= i <= to <= v.len(),
            res@ == v@.subrange(from as int, i as int),
        decreases to - i,
    {
        res.push(v[i]);
        i = i + 1;
        assert(res@ =~= v@.subrange(from as int, i as int));
    }
    res
}

/// Appends the characters of `src` at the end of `dst`.
pub fn append_chars(dst: &mut Vec<char>, src: &[char])
    ensures
        final(dst)@ == old(dst)@ + src@,
{
    let mut i: usize = 0;
    while i < src.len()
        invariant
            i <= src.len(),
            dst@ == old(dst)@ + src@.take(i as int),
        decreases src.len() - i,
    {
        dst.push(src[i]);
        i = i + 1;
        assert(dst@ =~= old(dst)@ + src@.take(i as int));
    }
    assert(src@.take(src.len() as int) =~= src@);
}

/// Whether the two character sequences are equal.
pub fn chars_eq(a: &[char], b: &[char]) -> (res: bool)
    ensures
        res == (a@ == b@),
{
    if a.len() != b.len() {
        return false;
    }
    let mut i: usize = 0;
    while i < a.len()
        invariant
            a.len() == b.len(),
            i <= a.len(),
            forall|j: int| 0 <= j < i ==> a@[j] == b@[j],
        decreases a.len() - i,
    {
        if a[i] != b[i] {
            return false;
        }
        i = i + 1;
    }
    assert(a@ =~= b@);
    true
}

// ---------------------------------------------------------------------------
// Whitespace and trimming
// ---------------------------------------------------------------------------

/// The characters with the Unicode `White_Space` property, which is what
/// `char::is_whitespace` tests.
pub open spec fn is_ws(c: char) -> bool {
    ||| ('\u{9}' <= c && c <= '\u{d}')
    ||| c == ' '
    ||| c == '\u{85}'
    ||| c == '\u{a0}'
    ||| c == '\u{1680}'
    ||| ('\u{2000}' <= c && c <= '\u{200a}')
    ||| c == '\u{2028}'
    ||| c == '\u{2029}'
    ||| c == '\u{202f}'
    ||| c == '\u{205f}'
    ||| c == '\u{3000}'
}

pub fn is_whitespace(c: char) -> (res: bool)
    ensures
        res == is_ws(c),
{
    ('\u{9}' <= c && c <= '\u{d}') || c == ' ' || c == '\u{85}' || c == '\u{a0}' || c
        == '\u{1680}' || ('\u{2000}' <= c && c <= '\u{200a}') || c == '\u{2028}' || c
        == '\u{2029}' || c == '\u{202f}' || c == '\u{205f}' || c == '\u{3000}'
}

/// Every character of `s` is whitespace (so `s.trim()` is empty).
pub open spec fn all_ws(s: Seq<char>) -> bool {
    forall|i: int| 0 <= i < s.len() ==> is_ws(#[trigger] s[i])
}

/// `s` without its leading whitespace.
pub open spec fn trim_start(s: Seq<char>) -> Seq<char>
    decreases s.len(),
{
    if s.len() > 0 && is_ws(s[0]) {
        trim_start(s.drop_first())
    } else {
        s
    }
}

/// `s` without its trailing whitespace.
pub open spec fn trim_end(s: Seq<char>) -> Seq<char>
    decreases s.len(),
{
    if s.len() > 0 && is_ws(s.last()) {
        trim_end(s.drop_last())
    } else {
        s
    }
}

/// `s` without leading and trailing whitespace, as `str::trim` gives it.
pub open spec fn trim(s: Seq<char>) -> Seq<char> {
    trim_end(trim_start(s))
}

proof fn lemma_trim_start_skip(s: Seq<char>, i: int)
    requires
        0 <= i <= s.len(),
        forall|j: int| 0 <= j < i ==> is_ws(#[trigger] s[j]),
    ensures
        trim_start(s) == trim_start(s.skip(i)),
    decreases i,
{
    if i > 0 {
        assert(s.drop_first().skip(i - 1) =~= s.skip(i));
        assert forall|j: int| 0 <= j < i - 1 implies is_ws(#[trigger] s.drop_first()[j]) by {
            assert(s.drop_first()[j] == s[j + 1]);
        }
        lemma_trim_start_skip(s.drop_first(), i - 1);
    } else {
        assert(s.skip(0) =~= s);
    }
}

proof fn lemma_trim_end_take(s: Seq<char>, i: int)
    requires
        0 <= i <= s.len(),
        forall|j: int| i <= j < s.len() ==> is_ws(#[trigger] s[j]),
    ensures
        trim_end(s) == trim_end(s.take(i)),
    decreases s.len() - i,
{
    if i < s.len() {
        assert(s.drop_last().take(i) =~= s.take(i));
        lemma_trim_end_take(s.drop_last(), i);
    } else {
        assert(s.take(i) =~= s);
    }
}

/// `v` without leading and trailing whitespace.
pub fn trim_chars(v: &[char]) -> (res: Vec<char>)
    ensures
        res@ == trim(v@),
{
    let n = v.len();
    let mut a: usize = 0;
    while a < n && is_whitespace(v[a])
        invariant
            a <= n == v.len(),
            forall|j: int| 0 <= j < a ==> is_ws(#[trigger] v@[j]),
        decreases n - a,
    {
        a = a + 1;
    }
    proof {
        lemma_trim_start_skip(v@, a as int);
    }
    let ghost t = v@.skip(a as int);
    assert(trim_start(t) == t);
    let mut b: usize = n;
    while b > a && is_whitespace(v[b - 1])
        invariant
            a <= b <= n == v.len(),
            forall|j: int| b <= j < n ==> is_ws(#[trigger] v@[j]),
        decreases b,
    {
        b = b - 1;
    }
    proof {
        assert forall|j: int| b - a <= j < t.len() implies is_ws(#[trigger] t[j]) by {
            assert(t[j] == v@[j + a]);
        }
        lemma_trim_end_take(t, b - a);
        assert(t.take(b - a) =~= v@.subrange(a as int, b as int));
    }
    copy_range(v, a, b)
}

// ---------------------------------------------------------------------------
// Splitting at a separator character
// ---------------------------------------------------------------------------

/// The pieces of `s` between occurrences of `sep`, as `str::split` with a
/// character gives them: one more piece than there are separators.
pub open spec fn split_char(s: Seq<char>, sep: char) -> Seq<Seq<char>>
    decreases s.len(),
{
    if s.len() == 0 {
        seq![Seq::empty()]
    } else {
        let p = split_char(s.drop_last(), sep);
        if s.last() == sep {
            p.push(Seq::empty())
        } else {
            p.update(p.len() - 1, p.last().push(s.last()))
        }
    }
}

pub proof fn lemma_split_char_len(s: Seq<char>, sep: char)
    ensures
        split_char(s, sep).len() >= 1,
    decreases s.len(),
{
    if s.len() > 0 {
        lemma_split_char_len(s.drop_last(), sep);
    }
}

/// The pieces of `v` between occurrences of `sep`.
pub fn split_chars(v: &[char], sep: char) -> (res: Vec<Vec<char>>)
    ensures
        res.deep_view() == split_char(v@, sep),
{
    let mut done: Vec<Vec<char>> = Vec::new();
    let mut cur: Vec<char> = Vec::new();
    let mut i: usize = 0;
    assert(v@.take(0) =~= Seq::<char>::empty());
    assert(done.deep_view().push(cur@) =~= split_char(v@.take(0), sep));
    while i < v.len()
        invariant
            i <= v.len(),
            done.deep_view().push(cur@) == split_char(v@.take(i as int), sep),
        decreases v.len() - i,
    {
        let c = v[i];
        let ghost prev = done.deep_view();
        assert(v@.take(i + 1).drop_last() =~= v@.take(i as int));
        assert(v@.take(i + 1).last() == c);
        if c == sep {
            assert(cur.deep_view() =~= cur@);
            done.push(cur);
            cur = Vec::new();
            assert(done.deep_view() =~= prev.push(split_char(v@.take(i as int), sep).last()));
            assert(done.deep_view().push(cur@) =~= split_char(v@.take(i + 1), sep));
        } else {
            let ghost old_cur = cur@;
            cur.push(c);
            assert(done.deep_view().push(cur@) =~= split_char(v@.take(i + 1), sep));
        }
        i = i + 1;
    }
    assert(v@.take(v.len() as int) =~= v@);
    let ghost prev = done.deep_view();
    let ghost last = cur@;
    assert(cur.deep_view() =~= cur@);
    done.push(cur);
    assert(done.deep_view() =~= prev.push(last));
    done
}

// ---------------------------------------------------------------------------
// Searching for a pattern
// ---------------------------------------------------------------------------

/// `pat` occurs in `s` at index `i`.
pub open spec fn matches_at(s: Seq<char>, pat: Seq<char>, i: int) -> bool {
    0 <= i && i + pat.len() <= s.len() && s.subrange(i, i + pat.len()) == pat
}

/// `i` is the first index at which `pat` occurs in `s`.
pub open spec fn first_match(s: Seq<char>, pat: Seq<char>, i: int) -> bool {
    &&& matches_at(s, pat, i)
    &&& forall|j: int| 0 <= j < i ==> !matches_at(s, pat, j)
}

/// The index of the first occurrence of `pat` in `s`, as `str::find` gives it
/// (counted in characters).
pub open spec fn find(s: Seq<char>, pat: Seq<char>) -> Option<int> {
    if exists|i: int| first_match(s, pat, i) {
        Some(choose|i: int| first_match(s, pat, i))
    } else {
        None
    }
}

pub proof fn lemma_find_some(s: Seq<char>, pat: Seq<char>, i: int)
    requires
        first_match(s, pat, i),
    ensures
        find(s, pat) == Some(i),
{
    let k = choose|k: int| first_match(s, pat, k);
    assert(first_match(s, pat, k));
    if k < i {
        assert(!matches_at(s, pat, k));
    } else if k > i {
        assert(!matches_at(s, pat, i));
    }
}

pub proof fn lemma_find_none(s: Seq<char>, pat: Seq<char>)
    requires
        forall|j: int| 0 <= j ==> !matches_at(s, pat, j),
    ensures
        find(s, pat) is None,
{
}

/// Whether `pat` occurs in `v` at index `i`.
pub fn matches_at_exec(v: &[char], pat: &[char], i: usize) -> (res: bool)
    ensures
        res == matches_at(v@, pat@, i as int),
{
    if i > v.len() || pat.len() > v.len() - i {
        return false;
    }
    let mut k: usize = 0;
    while k < pat.len()
        invariant
            i + pat.len() <= v.len(),
            k <= pat.len(),
            forall|j: int| 0 <= j < k ==> v@[i + j] == pat@[j],
        decreases pat.len() - k,
    {
        if v[i + k] != pat[k] {
            assert(v@.subrange(i as int, i + pat.len())[k as int] != pat@[k as int]);
            return false;
        }
        k = k + 1;
    }
    assert(v@.subrange(i as int, i + pat.len()) =~= pat@);
    true
}

/// The index of the first occurrence of `pat` in `v` at or after `from`.
pub fn find_from(v: &[char], pat: &[char], from: usize) -> (res: Option<usize>)
    requires
        from <= v.len(),
    ensures
        match res {
            Some(i) => from <= i && matches_at(v@, pat@, i as int) && forall|j: int|
                from <= j < i ==> !matches_at(v@, pat@, j),
            None => forall|j: int| from <= j ==> !matches_at(v@, pat@, j),
        },
{
    let mut i = from;
    while i < v.len()
        invariant
            from <= i <= v.len(),
            forall|j: int| from <= j < i ==> !matches_at(v@, pat@, j),
        decreases v.len() - i,
    {
        if matches_at_exec(v, pat, i) {
            return Some(i);
        }
        i = i + 1;
    }
    if matches_at_exec(v, pat, i) {
        return Some(i);
    }
    None
}

/// The index of the first occurrence of `pat` in `v`.
pub fn find_exec(v: &[char], pat: &[char]) -> (res: Option<usize>)
    ensures
        match res {
            Some(i) => find(v@, pat@) == Some(i as int),
            None => find(v@, pat@) is None,
        },
{
    let r = find_from(v, pat, 0);
    proof {
        match r {
            Some(i) => lemma_find_some(v@, pat@, i as int),
            None => lemma_find_none(v@, pat@),
        }
    }
    r
}

// ---------------------------------------------------------------------------
// Lengths in UTF-8 bytes
// ---------------------------------------------------------------------------

/// The number of bytes that UTF-8 takes for `c`.
pub open spec fn utf8_width(c: char) -> nat {
    if (c as u32) < 0x80 {
        1
    } else if (c as u32) < 0x800 {
        2
    } else if (c as u32) < 0x10000 {
        3
    } else {
        4
    }
}

/// The length of `s` in UTF-8 bytes, which is what `str::len` gives.
pub open spec fn byte_len(s: Seq<char>) -> nat
    decreases s.len(),
{
    if s.len() == 0 {
        0
    } else {
        byte_len(s.drop_last()) + utf8_width(s.last())
    }
}

pub fn utf8_width_exec(c: char) -> (res: u64)
    ensures
        res == utf8_width(c),
        1 <= res <= 4,
{
    let x = c as u32;
    if x < 0x80 {
        1
    } else if x < 0x800 {
        2
    } else if x < 0x10000 {
        3
    } else {
        4
    }
}

pub proof fn lemma_byte_len_take_step(s: Seq<char>, i: int)
    requires
        0 <= i < s.len(),
    ensures
        byte_len(s.take(i + 1)) == byte_len(s.take(i)) + utf8_width(s[i]),
{
    assert(s.take(i + 1).drop_last() =~= s.take(i));
}

pub proof fn lemma_byte_len_take_mono(s: Seq<char>, i: int, j: int)
    requires
        0 <= i <= j <= s.len(),
    ensures
        byte_len(s.take(i)) <= byte_len(s.take(j)),
        byte_len(s.take(i)) + (j - i) <= byte_len(s.take(j)),
    decreases j - i,
{
    if i < j {
        lemma_byte_len_take_step(s, j - 1);
        lemma_byte_len_take_mono(s, i, j - 1);
    }
}

/// Whether `v` takes at least `n` bytes in UTF-8.
pub fn byte_len_at_least(v: &[char], n: u64) -> (res: bool)
    ensures
        res == (byte_len(v@) >= n),
{
    let mut acc: u128 = 0;
    let mut i: usize = 0;
    assert(v@.take(0) =~= Seq::<char>::empty());
    while i < v.len() && acc < n as u128
        invariant
            i <= v.len(),
            acc == byte_len(v@.take(i as int)),
            acc < n + 4,
        decreases v.len() - i,
    {
        proof {
            lemma_byte_len_take_step(v@, i as int);
        }
        acc = acc + utf8_width_exec(v[i]) as u128;
        i = i + 1;
    }
    proof {
        lemma_byte_len_take_mono(v@, i as int, v.len() as int);
        assert(v@.take(v.len() as int) =~= v@);
    }
    acc >= n as u128
}

/// Whether every character of `v` is whitespace.
pub fn is_blank(v: &[char]) -> (res: bool)
    ensures
        res == all_ws(v@),
{
    let mut i: usize = 0;
    while i < v.len()
        invariant
            i <= v.len(),
            forall|j: int| 0 <= j < i ==> is_ws(#[trigger] v@[j]),
        decreases v.len() - i,
    {
        if !is_whitespace(v[i]) {
            return false;
        }
        i = i + 1;
    }
    true
}

/// No piece of `split_char(s, sep)` holds `sep`.
pub proof fn lemma_split_char_pieces(s: Seq<char>, sep: char)
    ensures
        forall|k: int, j: int|
            0 <= k < split_char(s, sep).len() && 0 <= j < split_char(s, sep)[k].len()
                ==> split_char(s, sep)[k][j] != sep,
    decreases s.len(),
{
    if s.len() > 0 {
        lemma_split_char_pieces(s.drop_last(), sep);
        lemma_split_char_len(s.drop_last(), sep);
        let p = split_char(s.drop_last(), sep);
        let q = split_char(s, sep);
        assert forall|k: int, j: int| 0 <= k < q.len() && 0 <= j < q[k].len() implies q[k][j]
            != sep by {
            if s.last() != sep && k == p.len() - 1 {
                if j < p.last().len() {
                    assert(q[k][j] == p[k][j]);
                }
            } else if k < p.len() {
                assert(q[k] == p[k]);
            }
        }
    }
}

/// Splitting a text with one more separator and a piece without separators
/// at its end gives the pieces of the text and then that piece.
pub proof fn lemma_split_char_append(s: Seq<char>, sep: char, p: Seq<char>)
    requires
        forall|j: int| 0 <= j < p.len() ==> p[j] != sep,
    ensures
        split_char(s + seq![sep] + p, sep) == split_char(s, sep).push(p),
    decreases p.len(),
{
    let t = s + seq![sep] + p;
    if p.len() == 0 {
        assert(t.drop_last() =~= s);
        assert(t =~= s.push(sep));
        assert(p =~= Seq::<char>::empty());
    } else {
        let q = p.drop_last();
        lemma_split_char_append(s, sep, q);
        assert(t.drop_last() =~= s + seq![sep] + q);
        assert(t.last() == p.last());
        lemma_split_char_len(s, sep);
        let prev = split_char(s, sep).push(q);
        assert(split_char(t, sep) == prev.update(prev.len() - 1, prev.last().push(p.last())));
        assert(q.push(p.last()) =~= p);
        assert(split_char(t, sep) =~= split_char(s, sep).push(p));
    }
}

/// A string without `sep` is a single piece.
pub proof fn lemma_split_char_absent(s: Seq<char>, sep: char)
    requires
        forall|j: int| 0 <= j < s.len() ==> s[j] != sep,
    ensures
        split_char(s, sep) == seq![s],
    decreases s.len(),
{
    if s.len() > 0 {
        lemma_split_char_absent(s.drop_last(), sep);
        assert(s.drop_last().push(s.last()) =~= s);
        assert(split_char(s, sep) =~= seq![s]);
    } else {
        assert(s =~= Seq::<char>::empty());
        assert(split_char(s, sep) =~= seq![s]);
    }
}

// ---------------------------------------------------------------------------
// Byte offsets
// ---------------------------------------------------------------------------

/// The index of the character that starts at byte `b` of `s` (`s.len()` for
/// the end), or `None` where `b` is not a character boundary.
pub open spec fn char_index_at_byte(s: Seq<char>, b: int) -> Option<int>
    decreases s.len(),
{
    if b == 0 {
        Some(0)
    } else if b < 0 || s.len() == 0 {
        None
    } else if b < utf8_width(s[0]) {
        None
    } else {
        match char_index_at_byte(s.drop_first(), b - utf8_width(s[0])) {
            Some(k) => Some(k + 1),
            None => None,
        }
    }
}

/// The characters between bytes `from` and `to` of `s`, or `None` where
/// slicing the string there panics.
pub open spec fn byte_slice(s: Seq<char>, from: int, to: int) -> Option<Seq<char>> {
    match (char_index_at_byte(s, from), char_index_at_byte(s, to)) {
        (Some(i), Some(j)) => if i <= j {
            Some(s.subrange(i, j))
        } else {
            None
        },
        _ => None,
    }
}

proof fn lemma_byte_len_cons(c: char, t: Seq<char>)
    ensures
        byte_len(seq![c] + t) == utf8_width(c) + byte_len(t),
    decreases t.len(),
{
    let u = seq![c] + t;
    if t.len() > 0 {
        assert(u.drop_last() =~= seq![c] + t.drop_last());
        assert(u.last() == t.last());
        lemma_byte_len_cons(c, t.drop_last());
        assert(byte_len(u) == byte_len(u.drop_last()) + utf8_width(u.last()));
        assert(byte_len(t) == byte_len(t.drop_last()) + utf8_width(t.last()));
    } else {
        assert(u.drop_last() =~= Seq::<char>::empty());
        assert(byte_len(u.drop_last()) == 0);
        assert(t =~= Seq::<char>::empty());
        assert(byte_len(t) == 0);
    }
}

/// `char_index_at_byte(s, b)` is the `k` at which the first `k` characters
/// take `b` bytes.
pub proof fn lemma_char_index_at_byte(s: Seq<char>, b: int)
    ensures
        forall|k: int|
            0 <= k <= s.len() ==> (char_index_at_byte(s, b) == Some(k) <==> byte_len(s.take(k))
                == b),
        char_index_at_byte(s, b) is Some ==> 0 <= char_index_at_byte(s, b).unwrap() <= s.len(),
    decreases s.len(),
{
    assert(s.take(0) =~= Seq::<char>::empty());
    if s.len() > 0 {
        let w = utf8_width(s[0]);
        lemma_char_index_at_byte(s.drop_first(), b - w);
        assert forall|k: int| 1 <= k <= s.len() implies byte_len(s.take(k)) == w + byte_len(
            s.drop_first().take(k - 1),
        ) by {
            assert(s.take(k) =~= seq![s[0]] + s.drop_first().take(k - 1));
            lemma_byte_len_cons(s[0], s.drop_first().take(k - 1));
        }
        assert forall|k: int|
            0 <= k <= s.len() implies (char_index_at_byte(s, b) == Some(k) <==> byte_len(
                s.take(k),
            ) == b) by {
            if k >= 1 {
                assert(byte_len(s.take(k)) == w + byte_len(s.drop_first().take(k - 1)));
            }
        }
    }
}

/// The index of the character that starts at byte `b` of `v`.
pub fn char_index_at_byte_exec(v: &[char], b: u64) -> (res: Option<usize>)
    ensures
        match char_index_at_byte(v@, b as int) {
            Some(k) => res == Some(k as usize),
            None => res is None,
        },
{
    let mut acc: u128 = 0;
    let mut i: usize = 0;
    assert(v@.take(0) =~= Seq::<char>::empty());
    while i < v.len() && acc < b as u128
        invariant
            i <= v.len(),
            acc == byte_len(v@.take(i as int)),
            acc < b + 4,
            i > 0 ==> byte_len(v@.take(i - 1)) < b,
        decreases v.len() - i,
    {
        proof {
            lemma_byte_len_take_step(v@, i as int);
        }
        acc = acc + utf8_width_exec(v[i]) as u128;
        i = i + 1;
    }
    proof {
        lemma_char_index_at_byte(v@, b as int);
    }
    if acc == b as u128 {
        Some(i)
    } else {
        proof {
            assert forall|k: int| 0 <= k <= v.len() implies byte_len(v@.take(k)) != b by {
                if k < i {
                    lemma_byte_len_take_mono(v@, k, i - 1);
                } else {
                    lemma_byte_len_take_mono(v@, i as int, k);
                }
            }
            match char_index_at_byte(v@, b as int) {
                Some(k) => {
                    assert(byte_len(v@.take(k)) == b);
                },
                None => {},
            }
        }
        None
    }
}

/// The characters between bytes `from` and `to` of `v`.
pub fn byte_slice_exec(v: &[char], from: u64, to: u64) -> (res: Option<Vec<char>>)
    ensures
        match byte_slice(v@, from as int, to as int) {
            Some(x) => res matches Some(r) && r@ == x,
            None => res is None,
        },
{
    let i = char_index_at_byte_exec(v, from);
    let j = char_index_at_byte_exec(v, to);
    proof {
        lemma_char_index_at_byte(v@, from as int);
        lemma_char_index_at_byte(v@, to as int);
    }
    match (i, j) {
        (Some(i), Some(j)) => {
            if i <= j {
                Some(copy_range(v, i, j))
            } else {
                None
            }
        },
        _ => None,
    }
}

// ---------------------------------------------------------------------------
// Splitting at a separator string
// ---------------------------------------------------------------------------

/// The pieces of `s` between the occurrences of `pat`, found from left to
/// right without overlap, as `str::split` with a string gives them.
pub open spec fn split_str(s: Seq<char>, pat: Seq<char>) -> Seq<Seq<char>>
    decreases s.len(),
{
    if pat.len() == 0 {
        seq![s]
    } else {
        match find(s, pat) {
            Some(i) => if 0 <= i && i + pat.len() <= s.len() {
                seq![s.take(i)] + split_str(s.skip(i + pat.len()), pat)
            } else {
                seq![s]
            },
            None => seq![s],
        }
    }
}

/// The pieces of `v` between the occurrences of `pat`.
pub fn split_str_exec(v: &[char], pat: &[char]) -> (res: Vec<Vec<char>>)
    requires
        pat.len() > 0,
    ensures
        res.deep_view() == split_str(v@, pat@),
{
    let mut done: Vec<Vec<char>> = Vec::new();
    let mut start: usize = 0;
    let n = v.len();
    assert(v@.skip(0) =~= v@);
    while start <= n
        invariant
            start <= n == v.len(),
            pat.len() > 0,
            done.deep_view() + split_str(v@.skip(start as int), pat@) == split_str(v@, pat@),
        decreases n + 1 - start,
    {
        let r = find_from(v, pat, start);
        let ghost rest = v@.skip(start as int);
        match r {
            Some(i) => {
                proof {
                    assert forall|j: int| 0 <= j < i - start implies !matches_at(
                        rest,
                        pat@,
                        j,
                    ) by {
                        if matches_at(rest, pat@, j) {
                            assert(!matches_at(v@, pat@, j + start));
                            assert(rest.subrange(j, j + pat.len()) =~= v@.subrange(
                                j + start,
                                j + start + pat.len(),
                            ));
                        }
                    }
                    assert(rest.subrange(i - start, i - start + pat.len()) =~= v@.subrange(
                        i as int,
                        i + pat.len(),
                    ));
                    lemma_find_some(rest, pat@, i - start);
                    assert(rest.take(i - start) =~= v@.subrange(start as int, i as int));
                    assert(rest.skip(i - start + pat.len()) =~= v@.skip(i + pat.len()));
                }
                let piece = copy_range(v, start, i);
                let ghost prev = done.deep_view();
                assert(piece.deep_view() =~= piece@);
                done.push(piece);
                assert(done.deep_view() =~= prev.push(v@.subrange(start as int, i as int)));
                start = i + pat.len();
            },
            None => {
                proof {
                    assert forall|j: int| 0 <= j implies !matches_at(rest, pat@, j) by {
                        if matches_at(rest, pat@, j) {
                            assert(!matches_at(v@, pat@, j + start));
                            assert(rest.subrange(j, j + pat.len()) =~= v@.subrange(
                                j + start,
                                j + start + pat.len(),
                            ));
                        }
                    }
                    lemma_find_none(rest, pat@);
                    assert(rest =~= v@.subrange(start as int, n as int));
                }
                let piece = copy_range(v, start, n);
                let ghost prev = done.deep_view();
                assert(piece.deep_view() =~= piece@);
                done.push(piece);
                assert(done.deep_view() =~= prev + split_str(rest, pat@));
                return done;
            },
        }
    }
    done
}

// ---------------------------------------------------------------------------
// Optional strings
// ---------------------------------------------------------------------------

/// The text, or the empty text where there is none (`unwrap_or_default`).
pub open spec fn or_empty(v: Option<Seq<char>>) -> Seq<char> {
    match v {
        Some(s) => s,
        None => Seq::empty(),
    }
}

pub fn clone_opt_string(o: &Option<String>) -> (res: Option<String>)
    ensures
        res.deep_view() == o.deep_view(),
{
    match o {
        Some(s) => Some(s.clone()),
        None => None,
    }
}

pub fn string_or_empty(o: &Option<String>) -> (res: String)
    ensures
        res@ == or_empty(o.deep_view()),
{
    match o {
        Some(s) => s.clone(),
        None => String::new(),
    }
}

} // verus!
