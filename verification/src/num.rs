//! Exact arithmetic on `Number` values: sum, difference, product,
//! quotient, and value equality. Each operation either returns the
//! exact rational result or reports that it cannot be represented
//! within the bounded numerator and denominator.

use crate::text::{dec_digits, digit_char, push_char, u64_to_string};
use crate::types::{num_wf, rat_eq, Number, DEN_MAX};
use vstd::prelude::*;
use vstd::string::*;

verus! {

/// Builds `n / d` when it fits the representation: the numerator in
/// `i64`, the denominator positive and at most `DEN_MAX`.
pub open spec fn mk_num(n: int, d: int) -> Option<Number> {
    if i64::MIN <= n <= i64::MAX && 1 <= d <= DEN_MAX {
        Some(Number { num: n as i64, den: d as u64 })
    } else {
        None
    }
}

/// The exact sum `a + b`. Equal denominators are kept, which lets
/// same-scale decimals combine without growing the denominator.
pub open spec fn add_spec(a: Number, b: Number) -> Option<Number> {
    if a.den == b.den {
        mk_num(a.num + b.num, a.den as int)
    } else {
        mk_num(a.num * b.den + b.num * a.den, a.den * b.den)
    }
}

/// The exact difference `a - b`.
pub open spec fn sub_spec(a: Number, b: Number) -> Option<Number> {
    if a.den == b.den {
        mk_num(a.num - b.num, a.den as int)
    } else {
        mk_num(a.num * b.den - b.num * a.den, a.den * b.den)
    }
}

/// The exact product `a * b`.
pub open spec fn mul_spec(a: Number, b: Number) -> Option<Number> {
    mk_num(a.num * b.num, a.den * b.den)
}

/// The exact quotient `a / b`; `None` when `b` is zero or the result
/// does not fit. The denominator keeps its sign positive.
pub open spec fn div_spec(a: Number, b: Number) -> Option<Number> {
    if b.num > 0 {
        mk_num(a.num * b.den, a.den * b.num)
    } else {
        mk_num(-(a.num * b.den), a.den * -b.num)
    }
}

/// Bound on a numerator-denominator cross product: it fits in `i128`.
proof fn lemma_cross(nm: int, dn: int)
    requires
        -0x8000000000000000 <= nm <= 0x8000000000000000,
        0 <= dn <= 1000000000000000,
    ensures
        -0x8000000000000000 * 1000000000000000 <= nm * dn
            <= 0x8000000000000000 * 1000000000000000,
{
    assert(-0x8000000000000000 * 1000000000000000 <= nm * dn
        <= 0x8000000000000000 * 1000000000000000) by (nonlinear_arith)
        requires
            -0x8000000000000000 <= nm <= 0x8000000000000000,
            0 <= dn <= 1000000000000000,
    ;
}

/// Bound on a product of two numerators: it fits in `i128`.
proof fn lemma_nums(x: int, y: int)
    requires
        -0x8000000000000000 <= x <= 0x8000000000000000,
        -0x8000000000000000 <= y <= 0x8000000000000000,
    ensures
        -0x8000000000000000 * 0x8000000000000000 <= x * y
            <= 0x8000000000000000 * 0x8000000000000000,
{
    assert(-0x8000000000000000 * 0x8000000000000000 <= x * y
        <= 0x8000000000000000 * 0x8000000000000000) by (nonlinear_arith)
        requires
            -0x8000000000000000 <= x <= 0x8000000000000000,
            -0x8000000000000000 <= y <= 0x8000000000000000,
    ;
}

/// Bound on a product of two denominators: it fits in `i128`.
proof fn lemma_dens(x: int, y: int)
    requires
        0 <= x <= 1000000000000000,
        0 <= y <= 1000000000000000,
    ensures
        0 <= x * y <= 1000000000000000 * 1000000000000000,
{
    assert(0 <= x * y <= 1000000000000000 * 1000000000000000) by (nonlinear_arith)
        requires
            0 <= x <= 1000000000000000,
            0 <= y <= 1000000000000000,
    ;
}

/// Sum, or `None` when the exact result cannot be represented.
pub fn num_add(a: Number, b: Number) -> (r: Option<Number>)
    requires
        num_wf(a),
        num_wf(b),
    ensures
        r == add_spec(a, b),
        r matches Some(n) ==> num_wf(n),
{
    if a.den == b.den {
        let n: i128 = a.num as i128 + b.num as i128;
        fit(n, a.den as i128)
    } else {
        proof {
            lemma_cross(a.num as int, b.den as int);
            lemma_cross(b.num as int, a.den as int);
            lemma_dens(a.den as int, b.den as int);
        }
        let n: i128 = a.num as i128 * b.den as i128 + b.num as i128 * a.den as i128;
        let d: i128 = a.den as i128 * b.den as i128;
        fit(n, d)
    }
}

/// Difference, or `None` when the exact result cannot be represented.
pub fn num_sub(a: Number, b: Number) -> (r: Option<Number>)
    requires
        num_wf(a),
        num_wf(b),
    ensures
        r == sub_spec(a, b),
        r matches Some(n) ==> num_wf(n),
{
    if a.den == b.den {
        let n: i128 = a.num as i128 - b.num as i128;
        fit(n, a.den as i128)
    } else {
        proof {
            lemma_cross(a.num as int, b.den as int);
            lemma_cross(b.num as int, a.den as int);
            lemma_dens(a.den as int, b.den as int);
        }
        let n: i128 = a.num as i128 * b.den as i128 - b.num as i128 * a.den as i128;
        let d: i128 = a.den as i128 * b.den as i128;
        fit(n, d)
    }
}

/// Product, or `None` when the exact result cannot be represented.
pub fn num_mul(a: Number, b: Number) -> (r: Option<Number>)
    requires
        num_wf(a),
        num_wf(b),
    ensures
        r == mul_spec(a, b),
        r matches Some(n) ==> num_wf(n),
{
    proof {
        lemma_nums(a.num as int, b.num as int);
        lemma_dens(a.den as int, b.den as int);
    }
    let n: i128 = a.num as i128 * b.num as i128;
    let d: i128 = a.den as i128 * b.den as i128;
    fit(n, d)
}

/// Quotient, or `None` when `b` is zero or the exact result cannot be
/// represented.
pub fn num_div(a: Number, b: Number) -> (r: Option<Number>)
    requires
        num_wf(a),
        num_wf(b),
    ensures
        r == div_spec(a, b),
        r matches Some(n) ==> num_wf(n),
{
    proof {
        lemma_cross(a.num as int, b.den as int);
        lemma_cross(if b.num > 0 { b.num as int } else { -(b.num as int) }, a.den as int);
    }
    if b.num > 0 {
        let n: i128 = a.num as i128 * b.den as i128;
        let d: i128 = a.den as i128 * b.num as i128;
        fit(n, d)
    } else {
        let n: i128 = -(a.num as i128 * b.den as i128);
        let d: i128 = -(b.num as i128) * a.den as i128;
        fit(n, d)
    }
}

/// Value equality of two rationals, by cross multiplication.
pub fn num_eq(a: Number, b: Number) -> (r: bool)
    requires
        num_wf(a),
        num_wf(b),
    ensures
        r == rat_eq(a, b),
{
    proof {
        lemma_cross(a.num as int, b.den as int);
        lemma_cross(b.num as int, a.den as int);
    }
    a.num as i128 * b.den as i128 == b.num as i128 * a.den as i128
}

/// Whether `c` is a decimal digit.
pub open spec fn is_digit(c: char) -> bool {
    '0' <= c && c <= '9'
}

/// The value of the digit `c`.
pub open spec fn digit_val(c: char) -> int {
    c as int - 48
}

/// `10 ^ e`.
pub open spec fn pow10(e: nat) -> int
    decreases e,
{
    if e == 0 {
        1
    } else {
        10 * pow10((e - 1) as nat)
    }
}

/// The first position at or after `i` that does not hold a digit.
pub open spec fn digits_end(s: Seq<char>, i: int) -> int
    decreases s.len() - i when 0 <= i <= s.len()
{
    if i >= s.len() || !is_digit(s[i]) {
        i
    } else {
        digits_end(s, i + 1)
    }
}

/// Left fold of the digits in `s[i..j)` onto the accumulator `acc`.
pub open spec fn digits_val(s: Seq<char>, i: int, j: int, acc: int) -> int
    decreases j - i,
{
    if i >= j {
        acc
    } else {
        digits_val(s, i + 1, j, acc * 10 + digit_val(s[i]))
    }
}

/// Packs an exact `n / d` into a `Number` when it fits the bounds.
fn fit(n: i128, d: i128) -> (r: Option<Number>)
    ensures
        r == mk_num(n as int, d as int),
        r matches Some(m) ==> num_wf(m),
{
    if i64::MIN as i128 <= n && n <= i64::MAX as i128 && 1 <= d && d <= DEN_MAX as i128 {
        Some(Number { num: n as i64, den: d as u64 })
    } else {
        None
    }
}


/// What a token literal denotes as a number, if anything: an optional
/// sign, integer digits, an optional fraction, and an optional decimal
/// exponent, exactly filling the text. `None` also covers values whose
/// exact rational form does not fit the bounded representation.
pub open spec fn spec_parse_number(s: Seq<char>) -> Option<Number> {
    let neg = s.len() > 0 && s[0] == '-';
    let i0: int = if s.len() > 0 && (s[0] == '-' || s[0] == '+') {
        1
    } else {
        0
    };
    let i1 = digits_end(s, i0);
    let has_dot = i1 < s.len() && s[i1] == '.';
    let fs: int = if has_dot {
        i1 + 1
    } else {
        i1
    };
    let i2 = digits_end(s, fs);
    if (i1 - i0) + (i2 - fs) == 0 {
        None
    } else {
        let has_exp = i2 < s.len() && (s[i2] == 'e' || s[i2] == 'E');
        if !has_exp && i2 != s.len() {
            None
        } else {
            let eneg = has_exp && i2 + 1 < s.len() && s[i2 + 1] == '-';
            let e0: int = if has_exp && i2 + 1 < s.len() && (s[i2 + 1] == '-' || s[i2 + 1]
                == '+') {
                i2 + 2
            } else {
                i2 + 1
            };
            if has_exp && (e0 == s.len() || !is_digit(s[e0]) || digits_end(s, e0) != s.len()) {
                None
            } else {
                let e = if has_exp {
                    digits_val(s, e0, s.len() as int, 0)
                } else {
                    0
                };
                let mag = digits_val(s, fs, i2, digits_val(s, i0, i1, 0));
                assemble(neg, mag, (i2 - fs) as nat, eneg, e)
            }
        }
    }
}

/// Cap on a literal's decimal exponent.
pub const EXP_MAX: u64 = 100000;

/// Combines the parts of a literal into a bounded rational, or `None`
/// when a part is out of range.
pub open spec fn assemble(neg: bool, mag: int, fd: nat, eneg: bool, e: int) -> Option<Number> {
    if mag > i64::MAX || pow10(fd) > DEN_MAX || e > EXP_MAX {
        None
    } else if eneg {
        if pow10(fd) * pow10(e as nat) > DEN_MAX {
            None
        } else {
            Some(
                Number {
                    num: (if neg {
                        -mag
                    } else {
                        mag
                    }) as i64,
                    den: (pow10(fd) * pow10(e as nat)) as u64,
                },
            )
        }
    } else {
        if mag * pow10(e as nat) > i64::MAX {
            None
        } else {
            Some(
                Number {
                    num: (if neg {
                        -(mag * pow10(e as nat))
                    } else {
                        mag * pow10(e as nat)
                    }) as i64,
                    den: pow10(fd) as u64,
                },
            )
        }
    }
}

/// `digits_end` stays in bounds, covers digits only, and stops at the
/// first non-digit.
proof fn lemma_digits_end(s: Seq<char>, i: int)
    requires
        0 <= i <= s.len(),
    ensures
        i <= digits_end(s, i) <= s.len(),
        forall|k: int| i <= k < digits_end(s, i) ==> is_digit(s[k]),
        digits_end(s, i) < s.len() ==> !is_digit(s[digits_end(s, i)]),
    decreases s.len() - i,
{
    if i < s.len() && is_digit(s[i]) {
        lemma_digits_end(s, i + 1);
    }
}

/// Folding further digits never shrinks a non-negative accumulator.
proof fn lemma_digits_val_lb(s: Seq<char>, i: int, j: int, acc: int)
    requires
        acc >= 0,
        forall|k: int| i <= k < j ==> is_digit(s[k]),
    ensures
        digits_val(s, i, j, acc) >= acc,
    decreases j - i,
{
    if i < j {
        assert(digit_val(s[i]) >= 0);
        lemma_digits_val_lb(s, i + 1, j, acc * 10 + digit_val(s[i]));
    }
}

/// Powers of ten are positive.
proof fn lemma_pow10_pos(e: nat)
    ensures
        pow10(e) >= 1,
    decreases e,
{
    if e > 0 {
        lemma_pow10_pos((e - 1) as nat);
    }
}

/// Powers of ten multiply by adding exponents.
proof fn lemma_pow10_add(a: nat, b: nat)
    ensures
        pow10(a + b) == pow10(a) * pow10(b),
    decreases a,
{
    if a == 0 {
        assert(pow10(0 + b) == 1 * pow10(b));
    } else {
        lemma_pow10_add((a - 1) as nat, b);
        assert(pow10(a + b) == 10 * pow10((a + b - 1) as nat));
        assert(10 * (pow10((a - 1) as nat) * pow10(b)) == (10 * pow10((a - 1) as nat)) * pow10(
            b,
        )) by (nonlinear_arith);
    }
}

/// First position at or after `from` without a digit.
fn scan_digits(s: &Vec<char>, from: usize) -> (r: usize)
    requires
        from <= s@.len(),
    ensures
        r == digits_end(s@, from as int),
        from <= r <= s@.len(),
{
    let mut i = from;
    while i < s.len() && s[i] >= '0' && s[i] <= '9'
        invariant
            from <= i <= s@.len(),
            digits_end(s@, from as int) == digits_end(s@, i as int),
        decreases s@.len() - i,
    {
        i += 1;
    }
    i
}

/// Folds the digits of `s[from..to)` onto `acc`; `None` exactly when
/// the folded value passes `cap`.
fn digits_value(s: &Vec<char>, from: usize, to: usize, acc: u64, cap: u64) -> (r: Option<u64>)
    requires
        from <= to <= s@.len(),
        acc <= cap,
        cap <= i64::MAX,
        forall|k: int| from <= k < to ==> is_digit(s@[k]),
    ensures
        digits_val(s@, from as int, to as int, acc as int) > cap ==> r is None,
        digits_val(s@, from as int, to as int, acc as int) <= cap ==> r == Some(
            digits_val(s@, from as int, to as int, acc as int) as u64,
        ),
        r matches Some(v) ==> v <= cap,
{
    let mut i = from;
    let mut cur = acc;
    while i < to
        invariant
            from <= i <= to <= s@.len(),
            cur <= cap,
            cap <= i64::MAX,
            forall|k: int| from <= k < to ==> is_digit(s@[k]),
            digits_val(s@, from as int, to as int, acc as int) == digits_val(
                s@,
                i as int,
                to as int,
                cur as int,
            ),
        decreases to - i,
    {
        assert(is_digit(s@[i as int]));
        let d: u64 = (s[i] as u32 - 48) as u64;
        let t: u128 = cur as u128 * 10 + d as u128;
        if t > cap as u128 {
            proof {
                lemma_digits_val_lb(s@, i + 1, to as int, cur as int * 10 + digit_val(s@[i as int]));
            }
            return None;
        }
        cur = t as u64;
        i += 1;
    }
    Some(cur)
}

/// `10 ^ e` as a denominator; `None` exactly when it passes `DEN_MAX`.
fn pow10_den(e: usize) -> (r: Option<u64>)
    ensures
        pow10(e as nat) > DEN_MAX ==> r is None,
        pow10(e as nat) <= DEN_MAX ==> r == Some(pow10(e as nat) as u64),
{
    let mut k: usize = 0;
    let mut cur: u64 = 1;
    proof {
        lemma_pow10_pos(e as nat);
    }
    while k < e
        invariant
            0 <= k <= e,
            cur == pow10(k as nat),
            1 <= cur <= DEN_MAX,
        decreases e - k,
    {
        if cur > DEN_MAX / 10 {
            proof {
                lemma_pow10_add(k as nat, (e - k) as nat);
                lemma_pow10_pos((e - k - 1) as nat);
                assert(pow10((e - k) as nat) == 10 * pow10((e - k - 1) as nat));
                assert(pow10((e - k) as nat) >= 10);
                assert(cur * pow10((e - k) as nat) >= cur * 10) by (nonlinear_arith)
                    requires
                        cur >= 1,
                        pow10((e - k) as nat) >= 10,
                ;
            }
            return None;
        }
        cur = cur * 10;
        k += 1;
    }
    Some(cur)
}

/// `v * 10 ^ e` capped at `i64::MAX`; `None` exactly when it passes.
fn scale_mag(v: u64, e: u64) -> (r: Option<u64>)
    requires
        v <= i64::MAX,
    ensures
        v * pow10(e as nat) > i64::MAX ==> r is None,
        v * pow10(e as nat) <= i64::MAX ==> r == Some((v * pow10(e as nat)) as u64),
        r matches Some(m) ==> m <= i64::MAX,
{
    let mut k: u64 = 0;
    let mut cur: u64 = v;
    proof {
        lemma_pow10_pos(e as nat);
    }
    while k < e
        invariant
            0 <= k <= e,
            cur == v * pow10(k as nat),
            cur <= i64::MAX,
        decreases e - k,
    {
        let t: u128 = cur as u128 * 10;
        if t > i64::MAX as u128 {
            proof {
                lemma_pow10_add(k as nat, (e - k) as nat);
                lemma_pow10_pos((e - k - 1) as nat);
                assert(pow10((e - k) as nat) == 10 * pow10((e - k - 1) as nat));
                assert(cur * pow10((e - k) as nat) >= cur * 10) by (nonlinear_arith)
                    requires
                        cur >= 0,
                        pow10((e - k) as nat) >= 10,
                ;
                assert(v * pow10(e as nat) == cur * pow10((e - k) as nat)) by (nonlinear_arith)
                    requires
                        cur == v * pow10(k as nat),
                        pow10(e as nat) == pow10(k as nat) * pow10((e - k) as nat),
                ;
            }
            return None;
        }
        proof {
            lemma_pow10_add(k as nat, 1);
            lemma_pow10_pos(k as nat);
            assert(v * (pow10(k as nat) * 10) == (v * pow10(k as nat)) * 10) by (nonlinear_arith);
        }
        cur = t as u64;
        k += 1;
    }
    Some(cur)
}

/// `d * 10 ^ e` capped at `DEN_MAX`; `None` exactly when it passes.
fn scale_den(d: u64, e: u64) -> (r: Option<u64>)
    requires
        1 <= d <= DEN_MAX,
    ensures
        d * pow10(e as nat) > DEN_MAX ==> r is None,
        d * pow10(e as nat) <= DEN_MAX ==> r == Some((d * pow10(e as nat)) as u64),
        r matches Some(m) ==> 1 <= m <= DEN_MAX,
{
    let mut k: u64 = 0;
    let mut cur: u64 = d;
    proof {
        lemma_pow10_pos(e as nat);
    }
    while k < e
        invariant
            0 <= k <= e,
            cur == d * pow10(k as nat),
            1 <= cur <= DEN_MAX,
        decreases e - k,
    {
        if cur > DEN_MAX / 10 {
            proof {
                lemma_pow10_add(k as nat, (e - k) as nat);
                lemma_pow10_pos((e - k - 1) as nat);
                assert(pow10((e - k) as nat) == 10 * pow10((e - k - 1) as nat));
                assert(cur * pow10((e - k) as nat) >= cur * 10) by (nonlinear_arith)
                    requires
                        cur >= 1,
                        pow10((e - k) as nat) >= 10,
                ;
                assert(d * pow10(e as nat) == cur * pow10((e - k) as nat)) by (nonlinear_arith)
                    requires
                        cur == d * pow10(k as nat),
                        pow10(e as nat) == pow10(k as nat) * pow10((e - k) as nat),
                ;
            }
            return None;
        }
        proof {
            lemma_pow10_add(k as nat, 1);
            lemma_pow10_pos(k as nat);
            assert(d * (pow10(k as nat) * 10) == (d * pow10(k as nat)) * 10) by (nonlinear_arith);
        }
        cur = cur * 10;
        k += 1;
    }
    Some(cur)
}

/// Reads a literal as a number, or `None` when the text is not a
/// numeric literal or its exact value does not fit the representation.
#[verifier::rlimit(60)]
pub fn parse_number(s: &Vec<char>) -> (r: Option<Number>)
    ensures
        r == spec_parse_number(s@),
        r matches Some(n) ==> num_wf(n),
{
    let len = s.len();
    let mut i: usize = 0;
    let mut neg = false;
    if len > 0 && s[0] == '-' {
        neg = true;
        i = 1;
    } else if len > 0 && s[0] == '+' {
        i = 1;
    }
    let i0 = i;
    let i1 = scan_digits(s, i0);
    proof {
        lemma_digits_end(s@, i0 as int);
    }
    let has_dot = i1 < len && s[i1] == '.';
    let fs = if has_dot {
        i1 + 1
    } else {
        i1
    };
    let i2 = scan_digits(s, fs);
    proof {
        lemma_digits_end(s@, fs as int);
    }
    if (i1 - i0) + (i2 - fs) == 0 {
        return None;
    }
    let has_exp = i2 < len && (s[i2] == 'e' || s[i2] == 'E');
    if !has_exp && i2 != len {
        return None;
    }
    let mut eneg = false;
    let mut e0 = if has_exp {
        i2 + 1
    } else {
        i2
    };
    if has_exp && i2 + 1 < len && s[i2 + 1] == '-' {
        eneg = true;
        e0 = i2 + 2;
    } else if has_exp && i2 + 1 < len && s[i2 + 1] == '+' {
        e0 = i2 + 2;
    }
    if has_exp {
        if e0 == len || !(s[e0] >= '0' && s[e0] <= '9') {
            return None;
        }
        if scan_digits(s, e0) != len {
            return None;
        }
    }
    let e: u64 = if has_exp {
        proof {
            lemma_digits_end(s@, e0 as int);
            lemma_digits_val_lb(s@, e0 as int, len as int, 0);
        }
        match digits_value(s, e0, len, 0, EXP_MAX) {
            Some(v) => v,
            None => {
                return None;
            },
        }
    } else {
        0
    };
    proof {
        lemma_digits_val_lb(s@, i0 as int, i1 as int, 0);
    }
    let mag0 = match digits_value(s, i0, i1, 0, i64::MAX as u64) {
        Some(v) => v,
        None => {
            proof {
                lemma_digits_val_lb(
                    s@,
                    fs as int,
                    i2 as int,
                    digits_val(s@, i0 as int, i1 as int, 0),
                );
            }
            return None;
        },
    };
    proof {
        lemma_digits_val_lb(s@, fs as int, i2 as int, mag0 as int);
    }
    let mag = match digits_value(s, fs, i2, mag0, i64::MAX as u64) {
        Some(v) => v,
        None => {
            return None;
        },
    };
    proof {
        lemma_pow10_pos((i2 - fs) as nat);
    }
    let den0 = match pow10_den(i2 - fs) {
        Some(v) => v,
        None => {
            return None;
        },
    };
    proof {
        lemma_pow10_pos(e as nat);
        assert(mag as int * pow10(e as nat) >= 0) by (nonlinear_arith)
            requires
                mag as int >= 0,
                pow10(e as nat) >= 1,
        ;
        assert(den0 as int * pow10(e as nat) >= den0 as int) by (nonlinear_arith)
            requires
                den0 as int >= 1,
                pow10(e as nat) >= 1,
        ;
    }
    if eneg {
        match scale_den(den0, e) {
            Some(d) => Some(
                Number {
                    num: if neg {
                        -(mag as i64)
                    } else {
                        mag as i64
                    },
                    den: d,
                },
            ),
            None => None,
        }
    } else {
        match scale_mag(mag, e) {
            Some(m) => Some(
                Number {
                    num: if neg {
                        -(m as i64)
                    } else {
                        m as i64
                    },
                    den: den0,
                },
            ),
            None => None,
        }
    }
}


/// Most fraction digits the renderer writes.
pub const FRAC_MAX: u64 = 40;

/// The decimal expansion of `rem / den`: at most `budget` digits,
/// stopping early once the remainder vanishes.
pub open spec fn frac_digits(rem: nat, den: nat, budget: nat) -> Seq<char>
    decreases budget,
{
    if rem == 0 || budget == 0 {
        Seq::<char>::empty()
    } else {
        seq![digit_char((rem * 10) as int / den as int)] + frac_digits(
            ((rem * 10) as int % den as int) as nat,
            den,
            (budget - 1) as nat,
        )
    }
}

/// The rendered decimal form of `n`: an optional minus sign, the
/// integer part, and a fractional part when the remainder is not zero.
pub open spec fn spec_render_number(n: Number) -> Seq<char> {
    let mag: int = if n.num < 0 {
        -(n.num as int)
    } else {
        n.num as int
    };
    let body = dec_digits((mag / n.den as int) as nat) + (if mag % (n.den as int) == 0 {
        Seq::<char>::empty()
    } else {
        seq!['.'] + frac_digits((mag % (n.den as int)) as nat, n.den as nat, FRAC_MAX as nat)
    });
    if n.num < 0 {
        seq!['-'] + body
    } else {
        body
    }
}

/// Renders `n` as decimal text.
pub fn number_to_string(n: Number) -> (r: String)
    requires
        num_wf(n),
    ensures
        r@ == spec_render_number(n),
{
    let mut out = String::new();
    let mag: u64 = if n.num < 0 {
        (-(n.num as i128)) as u64
    } else {
        n.num as u64
    };
    if n.num < 0 {
        push_char(&mut out, '-');
    }
    let q: u64 = mag / n.den;
    let mut rem: u64 = mag % n.den;
    let qs = u64_to_string(q);
    out.append(qs.as_str());
    if rem != 0 {
        push_char(&mut out, '.');
        let ghost target = out@ + frac_digits(rem as nat, n.den as nat, FRAC_MAX as nat);
        let mut budget: u64 = FRAC_MAX;
        while rem != 0 && budget > 0
            invariant
                num_wf(n),
                rem < n.den,
                out@ + frac_digits(rem as nat, n.den as nat, budget as nat) == target,
            decreases budget,
        {
            let t: u64 = rem * 10;
            proof {
                assert(t / n.den < 10) by (nonlinear_arith)
                    requires
                        n.den >= 1,
                        t < 10 * n.den,
                ;
            }
            let d8: u8 = (t / n.den) as u8;
            push_char(&mut out, (48 + d8) as char);
            rem = t % n.den;
            budget = budget - 1;
            proof {
                assert(out@ + frac_digits(rem as nat, n.den as nat, budget as nat) =~= target);
            }
        }
        proof {
            assert(frac_digits(rem as nat, n.den as nat, budget as nat) =~= Seq::<char>::empty());
            assert(out@ =~= target);
            assert(out@ =~= spec_render_number(n));
        }
    } else {
        proof {
            assert(out@ =~= spec_render_number(n));
        }
    }
    out
}

} // verus!
