//! Numbers in the notation that Rust's `f64` parser accepts: an optional
//! sign, then `inf`, `infinity` or `nan` in any case, or a decimal mantissa
//! with an optional exponent (`1.5e3`, `.25E-1`). Amounts written so are
//! turned into minor units from their exact decimal value: times one
//! hundred, rounded half away from zero, and brought into the range of `i32`
//! as a saturating cast does it. No binary floating point is involved, so
//! where a number has more than two decimals the result can differ from
//! rounding the nearest `f64` (`0.285` gives 29 here).
use vstd::prelude::*;

use crate::decimal::{
    all_digits, all_digits_range, clamp_i32, decimal_minor, digit_of, digit_val, digits_value,
    dot_at, is_digit, is_digit_exec, lemma_dot_unique, lemma_minor_round_trip,
    lemma_minor_to_decimal_chars, lemma_unsigned_trailing_zero, minor_to_decimal, saturating_digits_value, saturation_cap,
    unsigned_minor, unsigned_minor_exec,
};
use crate::text::{append_chars, copy_range, to_chars};

verus! {

pub open spec fn pow10(n: nat) -> nat
    decreases n,
{
    if n == 0 {
        1
    } else {
        10 * pow10((n - 1) as nat)
    }
}

pub open spec fn is_exp_marker(c: char) -> bool {
    c == 'e' || c == 'E'
}

/// The integer that an exponent `Sign? Digit+` spells; `None` where `x` is
/// not one.
pub open spec fn exponent_value(x: Seq<char>) -> Option<int> {
    if x.len() > 0 && (x[0] == '-' || x[0] == '+') {
        if x.len() > 1 && all_digits(x.drop_first()) {
            if x[0] == '-' {
                Some(-digits_value(x.drop_first()))
            } else {
                Some(digits_value(x.drop_first()) as int)
            }
        } else {
            None
        }
    } else if x.len() > 0 && all_digits(x) {
        Some(digits_value(x) as int)
    } else {
        None
    }
}

/// The digits of a mantissa `Digit+ ('.' Digit*)? | '.' Digit+` with its
/// point taken out, and how many of them stand before the point; `None`
/// where `b` is not a mantissa.
pub open spec fn mantissa_digits(b: Seq<char>) -> Option<(Seq<char>, int)> {
    if all_digits(b) {
        if b.len() > 0 {
            Some((b, b.len() as int))
        } else {
            None
        }
    } else if exists|d: int| dot_at(b, d) {
        let d = choose|d: int| dot_at(b, d);
        if b.len() > 1 {
            Some((b.take(d) + b.skip(d + 1), d))
        } else {
            None
        }
    } else {
        None
    }
}

/// The digits `ds` read with the decimal point after the first `q` of
/// them, rounded half up: nothing is left where the point stands before
/// the digits, zeros are appended where it stands beyond them.
pub open spec fn shifted_round(ds: Seq<char>, q: int) -> nat {
    if q < 0 {
        0
    } else if q < ds.len() {
        digits_value(ds.take(q)) + if digit_val(ds[q]) >= 5 {
            1nat
        } else {
            0nat
        }
    } else {
        digits_value(ds) * pow10((q - ds.len()) as nat)
    }
}

/// An unsigned number, a mantissa `m` optionally followed by `e` or `E` and
/// an exponent `x` (standing for m times ten to the x), times one hundred and
/// rounded half up; `None` where `b` is not such a number.
pub open spec fn unsigned_float_minor(b: Seq<char>) -> Option<nat> {
    if exists|x: int| 0 <= x < b.len() && is_exp_marker(b[x]) {
        let x = choose|x: int| 0 <= x < b.len() && is_exp_marker(b[x]);
        match (mantissa_digits(b.take(x)), exponent_value(b.skip(x + 1))) {
            (Some((ds, p)), Some(e)) => Some(shifted_round(ds, p + 2 + e)),
            _ => None,
        }
    } else {
        unsigned_minor(b)
    }
}

/// `s` spells the word `lower` with each letter in lower case or, as
/// `upper` gives it, in upper case.
pub open spec fn spells(s: Seq<char>, lower: Seq<char>, upper: Seq<char>) -> bool {
    &&& s.len() == lower.len()
    &&& s.len() == upper.len()
    &&& forall|i: int| 0 <= i < s.len() ==> s[i] == lower[i] || s[i] == upper[i]
}

/// `s` without the sign in front, if it has one.
pub open spec fn float_body(s: Seq<char>) -> Seq<char> {
    if s.len() > 0 && (s[0] == '-' || s[0] == '+') {
        s.drop_first()
    } else {
        s
    }
}

/// The amount in minor units of a number in the notation that Rust's `f64`
/// parser accepts: infinities saturate, `nan` gives zero, a finite number's
/// exact decimal value is taken times one hundred, rounded half away from
/// zero and saturated to the range of `i32`; `None` where the notation is
/// not one the parser accepts.
pub open spec fn float_minor(s: Seq<char>) -> Option<i32> {
    let neg = s.len() > 0 && s[0] == '-';
    let body = float_body(s);
    if spells(body, "inf"@, "INF"@) || spells(body, "infinity"@, "INFINITY"@) {
        Some(
            if neg {
                i32::MIN
            } else {
                i32::MAX
            },
        )
    } else if spells(body, "nan"@, "NAN"@) {
        Some(0)
    } else {
        match unsigned_float_minor(body) {
            Some(m) => Some(
                clamp_i32(
                    if neg {
                        -m
                    } else {
                        m as int
                    },
                ),
            ),
            None => None,
        }
    }
}

// ---------------------------------------------------------------------------
// Facts
// ---------------------------------------------------------------------------

proof fn lemma_pow10_grows(a: nat, b: nat)
    requires
        a <= b,
    ensures
        1 <= pow10(a) <= pow10(b),
    decreases b,
{
    if b > a {
        lemma_pow10_grows(a, (b - 1) as nat);
    } else if b > 0 {
        lemma_pow10_grows(0, (b - 1) as nat);
    }
}

proof fn lemma_pow10_eleven()
    ensures
        pow10(11) > saturation_cap(),
{
    reveal_with_fuel(pow10, 12);
}

/// Far enough past the digits, the number is zero or beyond the cap.
proof fn lemma_far_shift(ds: Seq<char>, q: int)
    requires
        q >= ds.len() + 11,
    ensures
        shifted_round(ds, q) == 0 <==> digits_value(ds) == 0,
        digits_value(ds) != 0 ==> shifted_round(ds, q) > saturation_cap(),
{
    let k = (q - ds.len()) as nat;
    lemma_pow10_grows(11, k);
    lemma_pow10_eleven();
    let dv = digits_value(ds);
    if dv != 0 {
        assert(dv * pow10(k) >= pow10(k)) by (nonlinear_arith)
            requires
                dv >= 1,
        ;
    }
}

/// A character that is neither a digit nor a point cannot stand in a
/// mantissa.
proof fn lemma_mantissa_without(b: Seq<char>, i: int)
    requires
        0 <= i < b.len(),
        !is_digit(b[i]),
        b[i] != '.',
    ensures
        mantissa_digits(b) is None,
{
    assert(!all_digits(b));
    assert forall|d: int| !dot_at(b, d) by {
        if dot_at(b, d) {
            if i < d {
                assert(b.take(d)[i] == b[i]);
            } else if i > d {
                assert(b.skip(d + 1)[i - d - 1] == b[i]);
            }
        }
    }
}

/// A character that is neither a digit nor a sign cannot stand in an
/// exponent.
proof fn lemma_exponent_without(x: Seq<char>, i: int)
    requires
        0 <= i < x.len(),
        !is_digit(x[i]),
        x[i] != '-',
        x[i] != '+',
    ensures
        exponent_value(x) is None,
{
    if x.len() > 0 && (x[0] == '-' || x[0] == '+') {
        assert(i > 0);
        assert(x.drop_first()[i - 1] == x[i]);
    }
}

/// Where the first exponent marker of `b` stands at `x0`, the number is read
/// with the mantissa before it and the exponent after it.
proof fn lemma_first_marker(b: Seq<char>, x0: int)
    requires
        0 <= x0 < b.len(),
        is_exp_marker(b[x0]),
        forall|j: int| 0 <= j < x0 ==> !is_exp_marker(#[trigger] b[j]),
    ensures
        unsigned_float_minor(b) == match (mantissa_digits(b.take(x0)), exponent_value(b.skip(x0 + 1))) {
            (Some((ds, p)), Some(e)) => Some(shifted_round(ds, p + 2 + e)),
            _ => None::<nat>,
        },
{
    let x = choose|x: int| 0 <= x < b.len() && is_exp_marker(b[x]);
    if x != x0 {
        assert(x > x0);
        lemma_mantissa_without(b.take(x), x0);
        lemma_exponent_without(b.skip(x0 + 1), x - x0 - 1);
    }
}

// ---------------------------------------------------------------------------
// Reading
// ---------------------------------------------------------------------------

/// Whether `v[from..]` spells the word `lower` (or its letters as `upper`
/// gives them).
fn spells_exec(v: &[char], from: usize, lower: &[char], upper: &[char]) -> (res: bool)
    requires
        from <= v.len(),
    ensures
        res == spells(v@.skip(from as int), lower@, upper@),
{
    let ghost s = v@.skip(from as int);
    if v.len() - from != lower.len() || lower.len() != upper.len() {
        return false;
    }
    let mut i: usize = 0;
    while i < lower.len()
        invariant
            from <= v.len(),
            v.len() - from == lower.len() == upper.len(),
            s == v@.skip(from as int),
            i <= lower.len(),
            forall|j: int| 0 <= j < i ==> s[j] == lower@[j] || s[j] == upper@[j],
        decreases lower.len() - i,
    {
        let c = v[from + i];
        assert(s[i as int] == c);
        if c != lower[i] && c != upper[i] {
            return false;
        }
        i = i + 1;
    }
    true
}

/// The first exponent marker at or after `from`, if there is one.
fn find_exp_marker(v: &[char], from: usize) -> (res: Option<usize>)
    requires
        from <= v.len(),
    ensures
        match res {
            Some(x) => from <= x < v.len() && is_exp_marker(v@[x as int]) && forall|j: int|
                from <= j < x ==> !is_exp_marker(#[trigger] v@[j]),
            None => forall|j: int| from <= j < v.len() ==> !is_exp_marker(#[trigger] v@[j]),
        },
{
    let mut i = from;
    while i < v.len()
        invariant
            from <= i <= v.len(),
            forall|j: int| from <= j < i ==> !is_exp_marker(#[trigger] v@[j]),
        decreases v.len() - i,
    {
        if v[i] == 'e' || v[i] == 'E' {
            return Some(i);
        }
        i = i + 1;
    }
    None
}

/// A bound on exponents above every length of a sequence in memory:
/// beyond it, a number is zero or saturates whatever the exact exponent.
pub open spec fn exponent_cap() -> int {
    100_000_000_000_000_000_000
}

/// An exponent brought into `[-exponent_cap(), exponent_cap()]`.
pub open spec fn capped_exponent(e: int) -> int {
    if e >= exponent_cap() {
        exponent_cap()
    } else if e <= -exponent_cap() {
        -exponent_cap()
    } else {
        e
    }
}

/// `min(digits_value(v[from..to]), exponent_cap())`, without overflow.
fn capped_digits_value(v: &[char], from: usize, to: usize) -> (res: i128)
    requires
        from <= to <= v.len(),
        all_digits(v@.subrange(from as int, to as int)),
    ensures
        res as int == if digits_value(v@.subrange(from as int, to as int)) < exponent_cap() {
            digits_value(v@.subrange(from as int, to as int)) as int
        } else {
            exponent_cap()
        },
{
    let cap: i128 = 100_000_000_000_000_000_000;
    let mut acc: i128 = 0;
    let mut i = from;
    assert(v@.subrange(from as int, from as int) =~= Seq::<char>::empty());
    while i < to
        invariant
            from <= i <= to <= v.len(),
            cap == exponent_cap(),
            all_digits(v@.subrange(from as int, to as int)),
            acc as int == if digits_value(v@.subrange(from as int, i as int)) < cap {
                digits_value(v@.subrange(from as int, i as int)) as int
            } else {
                cap as int
            },
        decreases to - i,
    {
        assert(v@.subrange(from as int, to as int)[i - from] == v@[i as int]);
        let d = digit_of(v[i]);
        assert(v@.subrange(from as int, i + 1).drop_last() =~= v@.subrange(from as int, i as int));
        let next = acc * 10 + d as i128;
        acc = if next < cap {
            next
        } else {
            cap
        };
        i = i + 1;
    }
    acc
}

/// The exponent `v[from..to]`, brought into the capped range; `None` where
/// it is no exponent.
fn exponent_exec(v: &[char], from: usize, to: usize) -> (res: Option<i128>)
    requires
        from <= to <= v.len(),
    ensures
        match exponent_value(v@.subrange(from as int, to as int)) {
            Some(e) => res matches Some(r) && r as int == capped_exponent(e),
            None => res is None,
        },
{
    let ghost x = v@.subrange(from as int, to as int);
    if from < to && (v[from] == '-' || v[from] == '+') {
        assert(x[0] == v@[from as int]);
        let neg = v[from] == '-';
        if to - from > 1 && all_digits_range(v, from + 1, to) {
            assert(x.drop_first() =~= v@.subrange(from + 1, to as int));
            let d = capped_digits_value(v, from + 1, to);
            return Some(
                if neg {
                    -d
                } else {
                    d
                },
            );
        }
        proof {
            if to - from > 1 {
                assert(x.drop_first() =~= v@.subrange(from + 1, to as int));
            }
        }
        return None;
    }
    if from < to {
        assert(x[0] == v@[from as int]);
    }
    if from < to && all_digits_range(v, from, to) {
        return Some(capped_digits_value(v, from, to));
    }
    None
}

/// The digits of the mantissa `v[from..to]` without its point, and how many
/// stand before the point; `None` where it is no mantissa.
fn mantissa_exec(v: &[char], from: usize, to: usize) -> (res: Option<(Vec<char>, usize)>)
    requires
        from <= to <= v.len(),
    ensures
        match mantissa_digits(v@.subrange(from as int, to as int)) {
            Some((ds, p)) => res matches Some((d, q)) && d@ == ds && q == p,
            None => res is None,
        },
        res matches Some((d, q)) ==> all_digits(d@) && q <= d@.len(),
{
    let ghost b = v@.subrange(from as int, to as int);
    let mut i = from;
    while i < to && is_digit_exec(v[i])
        invariant
            from <= i <= to <= v.len(),
            forall|j: int| from <= j < i ==> is_digit(#[trigger] v@[j]),
        decreases to - i,
    {
        i = i + 1;
    }
    assert(all_digits(v@.subrange(from as int, i as int))) by {
        assert forall|j: int| 0 <= j < i - from implies is_digit(
            #[trigger] v@.subrange(from as int, i as int)[j],
        ) by {
            assert(v@.subrange(from as int, i as int)[j] == v@[j + from]);
        }
    }
    if i == to {
        assert(v@.subrange(from as int, i as int) =~= b);
        if i == from {
            return None;
        }
        let d = copy_range(v, from, to);
        return Some((d, to - from));
    }
    proof {
        assert(b[i - from] == v@[i as int]);
        assert(!all_digits(b));
    }
    if v[i] != '.' {
        proof {
            lemma_mantissa_without(b, i - from);
        }
        return None;
    }
    if !all_digits_range(v, i + 1, to) {
        proof {
            assert forall|d: int| !dot_at(b, d) by {
                if dot_at(b, d) {
                    if d < i - from {
                        assert(b[d] == v@[d + from]);
                    } else if d > i - from {
                        assert(b.take(d)[i - from] == b[i - from]);
                    } else {
                        assert(b.skip(d + 1) =~= v@.subrange(i + 1, to as int));
                    }
                }
            }
        }
        return None;
    }
    let ghost d = i - from;
    proof {
        assert(b.take(d) =~= v@.subrange(from as int, i as int));
        assert(b.skip(d + 1) =~= v@.subrange(i + 1, to as int));
        assert(dot_at(b, d));
        let c = choose|c: int| dot_at(b, c);
        lemma_dot_unique(b, c, d);
    }
    if to - from == 1 {
        return None;
    }
    let mut ds = copy_range(v, from, i);
    let rest = copy_range(v, i + 1, to);
    append_chars(&mut ds, &rest);
    proof {
        assert forall|j: int| 0 <= j < ds@.len() implies is_digit(#[trigger] ds@[j]) by {
            if j < d {
                assert(ds@[j] == b.take(d)[j]);
            } else {
                assert(ds@[j] == b.skip(d + 1)[j - d]);
            }
        }
    }
    Some((ds, i - from))
}

/// `min(shifted_round(ds, q), saturation_cap())`, without overflow.
fn saturating_shifted_round(ds: &[char], q: i128) -> (res: u64)
    requires
        all_digits(ds@),
    ensures
        res as int == if shifted_round(ds@, q as int) < saturation_cap() {
            shifted_round(ds@, q as int) as int
        } else {
            saturation_cap() as int
        },
{
    let cap: u64 = 10_000_000_000;
    let len = ds.len();
    if q < 0 {
        return 0;
    }
    if q < len as i128 {
        let qq = q as usize;
        assert(ds@.subrange(0, qq as int) =~= ds@.take(qq as int));
        let value = saturating_digits_value(ds, 0, qq);
        let round: u64 = if digit_of(ds[qq]) >= 5 {
            1
        } else {
            0
        };
        let sum = value + round;
        return if sum < cap {
            sum
        } else {
            cap
        };
    }
    assert(ds@.subrange(0, len as int) =~= ds@);
    let ghost dv = digits_value(ds@);
    let ghost k0 = (q - len) as nat;
    let mut acc = saturating_digits_value(ds, 0, len);
    let mut k: i128 = q - len as i128;
    proof {
        assert(pow10(0) == 1);
        assert(dv * pow10(0) == dv);
    }
    while k > 0 && acc > 0 && acc < cap
        invariant
            cap == saturation_cap(),
            0 <= k <= k0,
            acc as int == if dv * pow10((k0 - k) as nat) < cap {
                (dv * pow10((k0 - k) as nat)) as int
            } else {
                cap as int
            },
        decreases k,
    {
        let ghost j = (k0 - k) as nat;
        let ghost p = pow10(j);
        assert(pow10((j + 1) as nat) == 10 * p);
        assert(dv * (10 * p) == (dv * p) * 10) by (nonlinear_arith);
        let next = acc * 10;
        acc = if next < cap {
            next
        } else {
            cap
        };
        k = k - 1;
    }
    proof {
        let j = (k0 - k) as nat;
        lemma_pow10_grows(j, k0);
        if acc == 0 {
            assert(dv * pow10(j) == 0);
            assert(dv == 0) by (nonlinear_arith)
                requires
                    dv * pow10(j) == 0,
                    pow10(j) >= 1,
            ;
            assert(dv * pow10(k0) == 0);
        } else if acc == cap {
            assert(dv * pow10(k0) >= dv * pow10(j)) by (nonlinear_arith)
                requires
                    pow10(k0) >= pow10(j),
            ;
        }
    }
    acc
}

/// `r` stands for `m` as far as a saturating cast to `i32` can tell: equal
/// below 2^31, and at least 2^31 together.
pub open spec fn same_below_i32(r: u64, m: nat) -> bool {
    &&& r < 2147483648 ==> r == m
    &&& r >= 2147483648 ==> m >= 2147483648
}

/// `unsigned_float_minor(v[from..])`, as far as `i32` can tell it.
fn unsigned_float_exec(v: &[char], from: usize) -> (res: Option<u64>)
    requires
        from <= v.len(),
    ensures
        match unsigned_float_minor(v@.skip(from as int)) {
            Some(m) => res matches Some(r) && same_below_i32(r, m),
            None => res is None,
        },
{
    let n = v.len();
    let ghost b = v@.skip(from as int);
    match find_exp_marker(v, from) {
        None => {
            proof {
                assert forall|x: int| 0 <= x < b.len() implies !is_exp_marker(b[x]) by {
                    assert(b[x] == v@[x + from]);
                }
            }
            unsigned_minor_exec(v, from)
        },
        Some(x) => {
            proof {
                assert(b[x - from] == v@[x as int]);
                assert forall|j: int| 0 <= j < x - from implies !is_exp_marker(#[trigger] b[j]) by {
                    assert(b[j] == v@[j + from]);
                }
                lemma_first_marker(b, x - from);
                assert(b.take(x - from) =~= v@.subrange(from as int, x as int));
                assert(b.skip(x - from + 1) =~= v@.subrange(x + 1, n as int));
            }
            let (ds, p) = match mantissa_exec(v, from, x) {
                None => {
                    return None;
                },
                Some(r) => r,
            };
            let e = match exponent_exec(v, x + 1, n) {
                None => {
                    return None;
                },
                Some(r) => r,
            };
            let q: i128 = p as i128 + 2 + e;
            let r = saturating_shifted_round(&ds, q);
            proof {
                let e_true = exponent_value(v@.subrange(x + 1, n as int)).unwrap();
                let q_true = p + 2 + e_true;
                if e_true >= exponent_cap() {
                    lemma_far_shift(ds@, q as int);
                    lemma_far_shift(ds@, q_true);
                } else if e_true <= -exponent_cap() {
                    assert(q < 0 && q_true < 0);
                }
            }
            Some(r)
        },
    }
}

/// The amount in minor units, exactly rounded, of a number in the notation
/// of Rust's `f64` parser (`-12.34`, `1.5e3`, `inf`); `None` where that
/// parser refuses the notation.
pub fn parse_float_minor(v: &[char]) -> (res: Option<i32>)
    ensures
        res == float_minor(v@),
{
    let n = v.len();
    let mut neg = false;
    let mut from: usize = 0;
    if n > 0 && v[0] == '-' {
        neg = true;
        from = 1;
    } else if n > 0 && v[0] == '+' {
        from = 1;
    }
    assert(v@.skip(1) =~= v@.drop_first());
    assert(v@.skip(0) =~= v@);
    assert(v@.skip(from as int) == float_body(v@));
    if spells_exec(v, from, &to_chars("inf"), &to_chars("INF")) || spells_exec(
        v,
        from,
        &to_chars("infinity"),
        &to_chars("INFINITY"),
    ) {
        return Some(
            if neg {
                i32::MIN
            } else {
                i32::MAX
            },
        );
    }
    if spells_exec(v, from, &to_chars("nan"), &to_chars("NAN")) {
        return Some(0);
    }
    let m = match unsigned_float_exec(v, from) {
        None => {
            return None;
        },
        Some(m) => m,
    };
    let big: u64 = 2147483648;
    if neg {
        if m >= big {
            Some(i32::MIN)
        } else {
            Some(-(m as i32))
        }
    } else {
        if m >= big {
            Some(i32::MAX)
        } else {
            Some(m as i32)
        }
    }
}

// ---------------------------------------------------------------------------
// Plain decimal numbers
// ---------------------------------------------------------------------------

/// Text of digits and points, with at most a minus sign in front, is read
/// as the plain decimal number it writes.
pub proof fn lemma_plain_decimal(s: Seq<char>)
    requires
        forall|i: int|
            0 <= i < s.len() ==> is_digit(#[trigger] s[i]) || s[i] == '.' || (i == 0 && s[i]
                == '-'),
    ensures
        float_minor(s) == match decimal_minor(s) {
            Some(x) => Some(clamp_i32(x)),
            None => None,
        },
{
    reveal_strlit("inf");
    reveal_strlit("infinity");
    reveal_strlit("nan");
    reveal_strlit("INF");
    reveal_strlit("INFINITY");
    reveal_strlit("NAN");
    let body = float_body(s);
    assert forall|i: int| 0 <= i < body.len() implies is_digit(#[trigger] body[i]) || body[i]
        == '.' by {
        if s.len() > 0 && s[0] == '-' {
            assert(body[i] == s[i + 1]);
        } else {
            assert(body[i] == s[i]);
        }
    }
    if body.len() > 0 {
        assert(is_digit(body[0]) || body[0] == '.');
        assert(!spells(body, "inf"@, "INF"@)) by {
            if spells(body, "inf"@, "INF"@) {
                assert(body[0] == "inf"@[0] || body[0] == "INF"@[0]);
            }
        }
        assert(!spells(body, "infinity"@, "INFINITY"@)) by {
            if spells(body, "infinity"@, "INFINITY"@) {
                assert(body[0] == "infinity"@[0] || body[0] == "INFINITY"@[0]);
            }
        }
        assert(!spells(body, "nan"@, "NAN"@)) by {
            if spells(body, "nan"@, "NAN"@) {
                assert(body[0] == "nan"@[0] || body[0] == "NAN"@[0]);
            }
        }
    }
    assert(!(exists|x: int| 0 <= x < body.len() && is_exp_marker(body[x])));
}

/// A plain decimal amount with a point reads the same with a further zero
/// written after its last digit.
pub proof fn lemma_float_trailing_zero(s: Seq<char>)
    requires
        forall|i: int|
            0 <= i < s.len() ==> is_digit(#[trigger] s[i]) || s[i] == '.' || (i == 0 && s[i]
                == '-'),
        exists|i: int| 0 <= i < s.len() && s[i] == '.',
        float_minor(s) is Some,
    ensures
        float_minor(s.push('0')) == float_minor(s),
{
    let s2 = s.push('0');
    assert forall|i: int|
        0 <= i < s2.len() implies is_digit(#[trigger] s2[i]) || s2[i] == '.' || (i == 0 && s2[i]
        == '-') by {
        if i < s.len() {
            assert(s2[i] == s[i]);
        }
    }
    lemma_plain_decimal(s);
    lemma_plain_decimal(s2);
    let p = choose|i: int| 0 <= i < s.len() && s[i] == '.';
    let neg = s.len() > 0 && s[0] == '-';
    let b = if neg {
        s.drop_first()
    } else {
        s
    };
    let b2 = if neg {
        s2.drop_first()
    } else {
        s2
    };
    assert(b2 =~= b.push('0'));
    assert(s2[0] == s[0]);
    let q = if neg {
        p - 1
    } else {
        p
    };
    assert(b[q] == '.');
    assert(!all_digits(b)) by {
        assert(!is_digit(b[q]));
    }
    let m = unsigned_minor(b);
    assert(m is Some);
    assert(exists|d: int| dot_at(b, d));
    let d = choose|d: int| dot_at(b, d);
    assert(b.len() > 1);
    lemma_unsigned_trailing_zero(b, d);
}

/// Writing an amount in minor units as a decimal number and reading it back
/// in floating-point notation gives the amount again.
pub proof fn lemma_minor_float_round_trip(n: i32)
    ensures
        float_minor(minor_to_decimal(n as int)) == Some(n),
{
    lemma_minor_round_trip(n);
    lemma_minor_to_decimal_chars(n as int);
    lemma_plain_decimal(minor_to_decimal(n as int));
}

} // verus!
