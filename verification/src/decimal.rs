//! Decimal numbers as the bank exports write them, and amounts in minor
//! currency units (cents).
use vstd::prelude::*;

use crate::float_notation::{float_minor, parse_float_minor};

verus! {

pub open spec fn is_digit(c: char) -> bool {
    '0' <= c && c <= '9'
}

pub open spec fn digit_val(c: char) -> nat {
    (c as u32 - '0' as u32) as nat
}

pub open spec fn all_digits(s: Seq<char>) -> bool {
    forall|i: int| 0 <= i < s.len() ==> is_digit(#[trigger] s[i])
}

/// The number that the decimal digits `s` spell.
pub open spec fn digits_value(s: Seq<char>) -> nat
    decreases s.len(),
{
    if s.len() == 0 {
        0
    } else {
        digits_value(s.drop_last()) * 10 + digit_val(s.last())
    }
}

/// The `k`-th digit after the decimal point, zero where there is none.
pub open spec fn frac_digit(frac: Seq<char>, k: int) -> nat {
    if 0 <= k < frac.len() {
        digit_val(frac[k])
    } else {
        0
    }
}

/// `int_part.frac` times one hundred, rounded half away from zero.
pub open spec fn scaled_by_hundred(int_part: Seq<char>, frac: Seq<char>) -> nat {
    digits_value(int_part) * 100 + frac_digit(frac, 0) * 10 + frac_digit(frac, 1) + (if frac_digit(
        frac,
        2,
    ) >= 5 {
        1nat
    } else {
        0nat
    })
}

/// The body has its decimal point at `d`, with digits on both sides.
pub open spec fn dot_at(b: Seq<char>, d: int) -> bool {
    &&& 0 <= d < b.len()
    &&& b[d] == '.'
    &&& all_digits(b.take(d))
    &&& all_digits(b.skip(d + 1))
}

/// An unsigned decimal number `Digit+ ('.' Digit*)? | '.' Digit+`, times one
/// hundred and rounded half away from zero; `None` where `b` is not one.
pub open spec fn unsigned_minor(b: Seq<char>) -> Option<nat> {
    if all_digits(b) {
        if b.len() > 0 {
            Some(digits_value(b) * 100)
        } else {
            None
        }
    } else if exists|d: int| dot_at(b, d) {
        let d = choose|d: int| dot_at(b, d);
        if b.len() > 1 {
            Some(scaled_by_hundred(b.take(d), b.skip(d + 1)))
        } else {
            None
        }
    } else {
        None
    }
}

/// A decimal number with an optional sign in front (`-1234.5`, `+7`, `.25`),
/// times one hundred and rounded half away from zero: an amount in minor
/// units. `None` where `s` is not such a number.
pub open spec fn decimal_minor(s: Seq<char>) -> Option<int> {
    if s.len() > 0 && s[0] == '-' {
        match unsigned_minor(s.drop_first()) {
            Some(m) => Some(-m),
            None => None,
        }
    } else if s.len() > 0 && s[0] == '+' {
        match unsigned_minor(s.drop_first()) {
            Some(m) => Some(m as int),
            None => None,
        }
    } else {
        match unsigned_minor(s) {
            Some(m) => Some(m as int),
            None => None,
        }
    }
}

/// `x` brought into the range of `i32`, as a saturating cast does it.
pub open spec fn clamp_i32(x: int) -> i32 {
    if x > i32::MAX {
        i32::MAX
    } else if x < i32::MIN {
        i32::MIN
    } else {
        x as i32
    }
}

/// German notation: `.` separates thousands and is dropped, `,` is the
/// decimal separator and becomes `.`.
pub open spec fn german_to_plain(s: Seq<char>) -> Seq<char>
    decreases s.len(),
{
    if s.len() == 0 {
        s
    } else {
        let p = german_to_plain(s.drop_last());
        if s.last() == '.' {
            p
        } else if s.last() == ',' {
            p.push('.')
        } else {
            p.push(s.last())
        }
    }
}

/// The amount in minor units that a German decimal string gives once
/// rewritten: its exact value times one hundred, rounded half away from zero
/// and saturated to `i32`; `None` where the rewritten text is not in the
/// notation that Rust's `f64` parser accepts.
pub open spec fn german_minor(s: Seq<char>) -> Option<i32> {
    float_minor(german_to_plain(s))
}

// ---------------------------------------------------------------------------

pub fn is_digit_exec(c: char) -> (res: bool)
    ensures
        res == is_digit(c),
{
    '0' <= c && c <= '9'
}

/// The value of a digit character.
pub fn digit_of(c: char) -> (res: u64)
    requires
        is_digit(c),
    ensures
        res == digit_val(c),
        res <= 9,
{
    (c as u32 - '0' as u32) as u64
}

/// The character of a digit value.
pub fn char_of_digit(d: u64) -> (res: char)
    requires
        d <= 9,
    ensures
        is_digit(res),
        digit_val(res) == d,
{
    if d == 0 {
        '0'
    } else if d == 1 {
        '1'
    } else if d == 2 {
        '2'
    } else if d == 3 {
        '3'
    } else if d == 4 {
        '4'
    } else if d == 5 {
        '5'
    } else if d == 6 {
        '6'
    } else if d == 7 {
        '7'
    } else if d == 8 {
        '8'
    } else {
        '9'
    }
}

/// A bound above every amount that fits into an `i32` once scaled.
pub open spec fn saturation_cap() -> nat {
    10_000_000_000
}

/// The characters from `from` up to `to` are all digits.
pub(crate) fn all_digits_range(v: &[char], from: usize, to: usize) -> (res: bool)
    requires
        from <= to <= v.len(),
    ensures
        res == all_digits(v@.subrange(from as int, to as int)),
{
    let mut i = from;
    while i < to
        invariant
            from <= i <= to <= v.len(),
            forall|j: int| from <= j < i ==> is_digit(#[trigger] v@[j]),
        decreases to - i,
    {
        if !is_digit_exec(v[i]) {
            assert(!is_digit(v@.subrange(from as int, to as int)[i - from]));
            return false;
        }
        i = i + 1;
    }
    assert forall|j: int| 0 <= j < to - from implies is_digit(
        #[trigger] v@.subrange(from as int, to as int)[j],
    ) by {
        assert(v@.subrange(from as int, to as int)[j] == v@[j + from]);
    }
    true
}

/// `min(digits_value(v[from..to]), cap)`, computed without overflow.
pub(crate) fn saturating_digits_value(v: &[char], from: usize, to: usize) -> (res: u64)
    requires
        from <= to <= v.len(),
        all_digits(v@.subrange(from as int, to as int)),
    ensures
        res as int == if digits_value(v@.subrange(from as int, to as int))
            < saturation_cap() {
            digits_value(v@.subrange(from as int, to as int)) as int
        } else {
            saturation_cap() as int
        },
{
    let cap: u64 = 10_000_000_000;
    let mut acc: u64 = 0;
    let mut i = from;
    assert(v@.subrange(from as int, from as int) =~= Seq::<char>::empty());
    while i < to
        invariant
            from <= i <= to <= v.len(),
            cap == saturation_cap(),
            all_digits(v@.subrange(from as int, to as int)),
            acc as int == if digits_value(v@.subrange(from as int, i as int)) < cap {
                digits_value(v@.subrange(from as int, i as int)) as int
            } else {
                cap as int
            },
        decreases to - i,
    {
        assert(v@.subrange(from as int, to as int)[i - from] == v@[i as int]);
        let d = digit_of(v[i]);
        assert(v@.subrange(from as int, i + 1).drop_last() =~= v@.subrange(from as int, i as int));
        let next = acc * 10 + d;
        acc = if next < cap {
            next
        } else {
            cap
        };
        i = i + 1;
    }
    acc
}

pub(crate) proof fn lemma_dot_unique(b: Seq<char>, d1: int, d2: int)
    requires
        dot_at(b, d1),
        dot_at(b, d2),
    ensures
        d1 == d2,
{
    if d1 < d2 {
        assert(b.skip(d1 + 1)[d2 - d1 - 1] == b[d2]);
    } else if d2 < d1 {
        assert(b.skip(d2 + 1)[d1 - d2 - 1] == b[d1]);
    }
}

/// `unsigned_minor(v[from..])`, saturated at a bound that no `i32` reaches.
pub(crate) fn unsigned_minor_exec(v: &[char], from: usize) -> (res: Option<u64>)
    requires
        from <= v.len(),
    ensures
        match unsigned_minor(v@.skip(from as int)) {
            Some(m) => res matches Some(r) && (if m < saturation_cap() * 100 {
                r == m
            } else {
                r >= saturation_cap() * 100
            }),
            None => res is None,
        },
{
    let ghost b = v@.skip(from as int);
    let n = v.len();
    let mut i = from;
    while i < n && is_digit_exec(v[i])
        invariant
            from <= i <= n == v.len(),
            forall|j: int| from <= j < i ==> is_digit(#[trigger] v@[j]),
        decreases n - i,
    {
        i = i + 1;
    }
    assert(all_digits(v@.subrange(from as int, i as int))) by {
        assert forall|j: int| 0 <= j < i - from implies is_digit(
            #[trigger] v@.subrange(from as int, i as int)[j],
        ) by {
            assert(v@.subrange(from as int, i as int)[j] == v@[j + from]);
        }
    }
    let int_value = saturating_digits_value(v, from, i);
    if i == n {
        assert(v@.subrange(from as int, n as int) =~= b);
        if i == from {
            return None;
        }
        return Some(int_value * 100);
    }
    proof {
        assert(b[i - from] == v@[i as int]);
        assert(!all_digits(b));
    }
    if v[i] != '.' {
        proof {
            assert forall|d: int| !dot_at(b, d) by {
                if dot_at(b, d) {
                    if d < i - from {
                        assert(b[d] == v@[d + from]);
                    } else if d > i - from {
                        assert(b.take(d)[i - from] == b[i - from]);
                    }
                }
            }
        }
        return None;
    }
    if !all_digits_range(v, i + 1, n) {
        proof {
            assert forall|d: int| !dot_at(b, d) by {
                if dot_at(b, d) {
                    if d < i - from {
                        assert(b[d] == v@[d + from]);
                    } else if d > i - from {
                        assert(b.take(d)[i - from] == b[i - from]);
                    } else {
                        assert(b.skip(d + 1) =~= v@.subrange(i + 1, n as int));
                    }
                }
            }
        }
        return None;
    }
    let ghost d = i - from;
    proof {
        assert(b.take(d) =~= v@.subrange(from as int, i as int));
        assert(b.skip(d + 1) =~= v@.subrange(i + 1, n as int));
        assert(dot_at(b, d));
        let c = choose|c: int| dot_at(b, c);
        lemma_dot_unique(b, c, d);
    }
    if n - from == 1 {
        return None;
    }
    let f0: u64 = if i + 1 < n {
        digit_of(v[i + 1])
    } else {
        0
    };
    let f1: u64 = if n - i > 2 {
        digit_of(v[i + 2])
    } else {
        0
    };
    let f2: u64 = if n - i > 3 {
        digit_of(v[i + 3])
    } else {
        0
    };
    proof {
        let fr = b.skip(d + 1);
        if i + 1 < n {
            assert(fr[0] == v@[i + 1]);
        }
        if i + 2 < n {
            assert(fr[1] == v@[i + 2]);
        }
        if i + 3 < n {
            assert(fr[2] == v@[i + 3]);
        }
    }
    let round: u64 = if f2 >= 5 {
        1
    } else {
        0
    };
    Some(int_value * 100 + f0 * 10 + f1 + round)
}

/// The amount in minor units that the plain decimal number `v` gives,
/// saturated to the range of `i32`; `None` where `v` is not a number.
pub fn parse_decimal_minor(v: &[char]) -> (res: Option<i32>)
    ensures
        match decimal_minor(v@) {
            Some(x) => res == Some(clamp_i32(x)),
            None => res is None,
        },
{
    let mut neg = false;
    let mut from: usize = 0;
    if v.len() > 0 && v[0] == '-' {
        neg = true;
        from = 1;
    } else if v.len() > 0 && v[0] == '+' {
        from = 1;
    }
    assert(v@.skip(1) =~= v@.drop_first());
    assert(v@.skip(0) =~= v@);
    match unsigned_minor_exec(v, from) {
        None => None,
        Some(m) => {
            let big: u64 = 2147483648;
            if neg {
                if m >= big {
                    Some(i32::MIN)
                } else {
                    Some(-(m as i32))
                }
            } else {
                if m >= big {
                    Some(i32::MAX)
                } else {
                    Some(m as i32)
                }
            }
        },
    }
}

/// `german_to_plain` of `v`.
pub fn german_to_plain_exec(v: &[char]) -> (res: Vec<char>)
    ensures
        res@ == german_to_plain(v@),
{
    let mut res: Vec<char> = Vec::new();
    let mut i: usize = 0;
    assert(v@.take(0) =~= Seq::<char>::empty());
    while i < v.len()
        invariant
            i <= v.len(),
            res@ == german_to_plain(v@.take(i as int)),
        decreases v.len() - i,
    {
        assert(v@.take(i + 1).drop_last() =~= v@.take(i as int));
        let c = v[i];
        if c == ',' {
            res.push('.');
        } else if c != '.' {
            res.push(c);
        }
        i = i + 1;
    }
    assert(v@.take(v.len() as int) =~= v@);
    res
}

/// The amount in minor units that a German decimal string gives
/// (`-1.234,56` gives -123456), or `None`.
pub fn parse_german_minor(v: &[char]) -> (res: Option<i32>)
    ensures
        res == german_minor(v@),
{
    let plain = german_to_plain_exec(v);
    parse_float_minor(&plain)
}

// ---------------------------------------------------------------------------
// Writing numbers
// ---------------------------------------------------------------------------

pub open spec fn digit_char(d: nat) -> char {
    if d == 0 {
        '0'
    } else if d == 1 {
        '1'
    } else if d == 2 {
        '2'
    } else if d == 3 {
        '3'
    } else if d == 4 {
        '4'
    } else if d == 5 {
        '5'
    } else if d == 6 {
        '6'
    } else if d == 7 {
        '7'
    } else if d == 8 {
        '8'
    } else {
        '9'
    }
}

/// The decimal digits of `n`, without leading zeros.
pub open spec fn nat_to_decimal(n: nat) -> Seq<char>
    decreases n,
{
    if n < 10 {
        seq![digit_char(n)]
    } else {
        nat_to_decimal(n / 10).push(digit_char(n % 10))
    }
}

/// `n` written in decimal, with a `-` in front where it is negative.
pub open spec fn int_to_decimal(n: int) -> Seq<char> {
    if n < 0 {
        seq!['-'] + nat_to_decimal((-n) as nat)
    } else {
        nat_to_decimal(n as nat)
    }
}

/// The fractional part of an amount of `f` hundredths, in the shortest form:
/// nothing for zero, one digit where the second is zero.
pub open spec fn hundredths_suffix(f: nat) -> Seq<char> {
    if f == 0 {
        Seq::empty()
    } else if f % 10 == 0 {
        seq!['.', digit_char(f / 10)]
    } else {
        seq!['.', digit_char(f / 10), digit_char(f % 10)]
    }
}

/// An amount of `n` minor units written as a decimal number of major units in
/// its shortest form: -4655 gives `-46.55`, 1000 gives `10`, 10 gives `0.1`.
pub open spec fn minor_to_decimal(n: int) -> Seq<char> {
    let m: nat = if n < 0 {
        (-n) as nat
    } else {
        n as nat
    };
    let body = nat_to_decimal(m / 100) + hundredths_suffix(m % 100);
    if n < 0 {
        seq!['-'] + body
    } else {
        body
    }
}

proof fn lemma_digit_char(d: nat)
    requires
        d <= 9,
    ensures
        is_digit(digit_char(d)),
        digit_val(digit_char(d)) == d,
{
}

proof fn lemma_nat_to_decimal(n: nat)
    ensures
        all_digits(nat_to_decimal(n)),
        digits_value(nat_to_decimal(n)) == n,
        nat_to_decimal(n).len() > 0,
    decreases n,
{
    if n < 10 {
        lemma_digit_char(n);
        let s = nat_to_decimal(n);
        assert(s.drop_last() =~= Seq::<char>::empty());
        assert(digits_value(s.drop_last()) == 0);
        assert(digits_value(s) == digits_value(s.drop_last()) * 10 + digit_val(s.last()));
    } else {
        lemma_nat_to_decimal(n / 10);
        lemma_digit_char(n % 10);
        let s = nat_to_decimal(n);
        assert(s.drop_last() =~= nat_to_decimal(n / 10));
        assert(s.last() == digit_char(n % 10));
        assert(n == (n / 10) * 10 + n % 10);
        assert(digits_value(s) == digits_value(s.drop_last()) * 10 + digit_val(s.last()));
        assert forall|i: int| 0 <= i < s.len() implies is_digit(#[trigger] s[i]) by {
            if i < s.len() - 1 {
                assert(s[i] == nat_to_decimal(n / 10)[i]);
            }
        }
    }
}

/// Writing an amount in minor units as a decimal number and reading it back
/// gives the amount again.
pub proof fn lemma_minor_round_trip(n: i32)
    ensures
        decimal_minor(minor_to_decimal(n as int)) == Some(n as int),
{
    let m: nat = if n < 0 {
        (-n) as nat
    } else {
        n as nat
    };
    let ip = nat_to_decimal(m / 100);
    let f = m % 100;
    let suffix = hundredths_suffix(f);
    let body = ip + suffix;
    lemma_nat_to_decimal(m / 100);
    assert(m == (m / 100) * 100 + f);
    if f == 0 {
        assert(body =~= ip);
        assert(all_digits(body));
    } else {
        let d = ip.len() as int;
        let fr = if f % 10 == 0 {
            seq![digit_char(f / 10)]
        } else {
            seq![digit_char(f / 10), digit_char(f % 10)]
        };
        lemma_digit_char(f / 10);
        lemma_digit_char(f % 10);
        assert(body.take(d) =~= ip);
        assert(body.skip(d + 1) =~= fr);
        assert(body[d] == '.');
        assert(dot_at(body, d));
        assert(!all_digits(body)) by {
            assert(!is_digit(body[d]));
        }
        let c = choose|c: int| dot_at(body, c);
        lemma_dot_unique(body, c, d);
        assert(f == (f / 10) * 10 + f % 10);
    }
    if n < 0 {
        assert((seq!['-'] + body).drop_first() =~= body);
    } else {
        assert(body[0] == ip[0]);
        assert(is_digit(ip[0]));
    }
}

/// An amount written as a decimal number holds digits and points only,
/// after a minus sign in front where it is negative.
pub proof fn lemma_minor_to_decimal_chars(n: int)
    ensures
        forall|i: int|
            0 <= i < minor_to_decimal(n).len() ==> is_digit(#[trigger] minor_to_decimal(n)[i])
                || minor_to_decimal(n)[i] == '.' || (i == 0 && minor_to_decimal(n)[i] == '-'),
{
    let m: nat = if n < 0 {
        (-n) as nat
    } else {
        n as nat
    };
    let ip = nat_to_decimal(m / 100);
    let f = m % 100;
    let body = ip + hundredths_suffix(f);
    lemma_nat_to_decimal(m / 100);
    lemma_digit_char(f / 10);
    lemma_digit_char(f % 10);
    assert forall|i: int| 0 <= i < body.len() implies is_digit(#[trigger] body[i]) || body[i] == '.' by {
        if i < ip.len() {
            assert(body[i] == ip[i]);
        }
    }
    let s = minor_to_decimal(n);
    assert forall|i: int| 0 <= i < s.len() implies is_digit(#[trigger] s[i]) || s[i] == '.' || (i == 0
        && s[i] == '-') by {
        if n < 0 && i > 0 {
            assert(s[i] == body[i - 1]);
        } else if n >= 0 {
            assert(s[i] == body[i]);
        }
    }
}

/// A zero written after the decimal digits of a number with a point does
/// not change it.
pub proof fn lemma_unsigned_trailing_zero(b: Seq<char>, d: int)
    requires
        dot_at(b, d),
        b.len() > 1,
    ensures
        unsigned_minor(b.push('0')) == unsigned_minor(b),
{
    let b2 = b.push('0');
    assert(b2.take(d) =~= b.take(d));
    assert(b2.skip(d + 1) =~= b.skip(d + 1).push('0'));
    assert(dot_at(b2, d));
    assert(!all_digits(b)) by {
        assert(!is_digit(b[d]));
    }
    assert(!all_digits(b2)) by {
        assert(!is_digit(b2[d]));
    }
    let c1 = choose|c: int| dot_at(b, c);
    lemma_dot_unique(b, c1, d);
    let c2 = choose|c: int| dot_at(b2, c);
    lemma_dot_unique(b2, c2, d);
    let f = b.skip(d + 1);
    let f2 = b2.skip(d + 1);
    assert forall|k: int| 0 <= k <= 2 implies frac_digit(f2, k) == frac_digit(f, k) by {
        if k < f.len() {
            assert(f2[k] == f[k]);
        } else if k == f.len() {
            assert(f2[k] == '0');
        }
    }
    assert(frac_digit(f2, 0) == frac_digit(f, 0));
    assert(frac_digit(f2, 1) == frac_digit(f, 1));
    assert(frac_digit(f2, 2) == frac_digit(f, 2));
    assert(scaled_by_hundred(b2.take(d), f2) == scaled_by_hundred(b.take(d), f));
    assert(unsigned_minor(b) == Some(scaled_by_hundred(b.take(d), f)));
    assert(unsigned_minor(b2) == Some(scaled_by_hundred(b2.take(d), f2)));
}

/// Appends the decimal digits of `n` to `out`.
fn push_nat_digits(out: &mut Vec<char>, n: u64)
    ensures
        final(out)@ == old(out)@ + nat_to_decimal(n as nat),
    decreases n,
{
    if n >= 10 {
        push_nat_digits(out, n / 10);
    }
    let c = char_of_digit(n % 10);
    proof {
        lemma_digit_char((n % 10) as nat);
        assert(c == digit_char((n % 10) as nat)) by {
            if c != digit_char((n % 10) as nat) {
                assert(digit_val(c) == digit_val(digit_char((n % 10) as nat)));
            }
        }
    }
    out.push(c);
    proof {
        if n >= 10 {
            assert(final(out)@ =~= old(out)@ + nat_to_decimal(n as nat));
        } else {
            assert(final(out)@ =~= old(out)@ + nat_to_decimal(n as nat));
        }
    }
}

/// `n` written in decimal.
pub fn nat_to_chars(n: u64) -> (res: Vec<char>)
    ensures
        res@ == int_to_decimal(n as int),
{
    let mut out: Vec<char> = Vec::new();
    push_nat_digits(&mut out, n);
    assert(out@ =~= nat_to_decimal(n as nat));
    out
}

/// `n` written in decimal.
pub fn int_to_chars(n: i64) -> (res: Vec<char>)
    ensures
        res@ == int_to_decimal(n as int),
{
    let mut out: Vec<char> = Vec::new();
    if n < 0 {
        out.push('-');
        let m: u64 = if n == i64::MIN {
            9223372036854775808u64
        } else {
            (-n) as u64
        };
        push_nat_digits(&mut out, m);
    } else {
        push_nat_digits(&mut out, n as u64);
    }
    out
}

/// An amount of `n` minor units written as a decimal number of major units,
/// in its shortest form (`-46.55`, `10`, `0.1`).
pub fn minor_to_chars(n: i32) -> (res: Vec<char>)
    ensures
        res@ == minor_to_decimal(n as int),
{
    let mut out: Vec<char> = Vec::new();
    let m: u64 = if n < 0 {
        out.push('-');
        (-(n as i64)) as u64
    } else {
        n as u64
    };
    push_nat_digits(&mut out, m / 100);
    let f = m % 100;
    if f != 0 {
        out.push('.');
        out.push(char_of_digit(f / 10));
        if f % 10 != 0 {
            out.push(char_of_digit(f % 10));
        }
    }
    proof {
        lemma_digit_char((f / 10) as nat);
        lemma_digit_char((f % 10) as nat);
        let ghost mm: nat = m as nat;
        assert(out@ =~= minor_to_decimal(n as int));
    }
    out
}

} // verus!
