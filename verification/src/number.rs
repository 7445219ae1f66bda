//! Exact rational numbers.
//!
//! A `Number` is a signed numerator over a positive denominator. Values are
//! not necessarily reduced, but they compare correctly (by cross
//! multiplication). Decimal literals are converted to a `Number` by pure
//! integer arithmetic, never through floating point, so for example the
//! literal `0.1` is exactly one tenth. The four arithmetic operations are
//! carried out by `num_rational`, which returns results in lowest terms.
use vstd::prelude::*;

verus! {

/// Greatest common divisor, by Euclid's algorithm.
pub open spec fn gcd_nat(a: nat, b: nat) -> nat
    decreases b,
{
    if b == 0 {
        a
    } else {
        gcd_nat(b, a % b)
    }
}

/// Absolute value of a mathematical integer.
pub open spec fn abs_int(n: int) -> nat {
    if n < 0 {
        (-n) as nat
    } else {
        n as nat
    }
}

/// `n / d` is in lowest terms with a positive denominator.
pub open spec fn is_reduced(n: int, d: int) -> bool {
    d > 0 && gcd_nat(abs_int(n), d as nat) == 1
}

/// An exact rational value: `numer / denom` with `denom > 0`.
#[derive(Debug, Clone, Copy, PartialEq, Eq, Structural, Hash)]
pub struct Number {
    pub numer: i64,
    pub denom: i64,
}

impl Number {
    /// Every `Number` the library hands out has a positive denominator.
    pub open spec fn wf(self) -> bool {
        self.denom > 0
    }

    /// The two values denote the same rational: cross multiplication.
    pub open spec fn same_value(self, other: Number) -> bool {
        self.numer * other.denom == other.numer * self.denom
    }

    /// A rational from a numerator and a positive denominator; `None` when
    /// the denominator is not positive.
    pub fn new(numer: i64, denom: i64) -> (r: Option<Number>)
        ensures
            denom > 0 ==> r == Some(Number { numer, denom }),
            denom <= 0 ==> r is None,
            r matches Some(n) ==> n.wf(),
    {
        if denom > 0 {
            Some(Number { numer, denom })
        } else {
            None
        }
    }

    /// The whole number `n` as a rational.
    pub fn from_integer(numer: i64) -> (r: Number)
        ensures
            r == (Number { numer, denom: 1int as i64 }),
            r.wf(),
    {
        Number { numer, denom: 1 }
    }

    pub fn numer(&self) -> (r: i64)
        ensures
            r == self.numer,
    {
        self.numer
    }

    pub fn denom(&self) -> (r: i64)
        ensures
            r == self.denom,
    {
        self.denom
    }

    /// Exact comparison by cross multiplication; correct whether or not the
    /// two values are reduced.
    pub fn eq_value(&self, other: &Number) -> (r: bool)
        ensures
            r == self.same_value(*other),
    {
        let an = self.numer as i128;
        let ad = self.denom as i128;
        let bn = other.numer as i128;
        let bd = other.denom as i128;
        proof {
            lemma_i64_product_in_i128_range(an as int, bd as int);
            lemma_i64_product_in_i128_range(bn as int, ad as int);
        }
        an * bd == bn * ad
    }
}

/// The product of two values in `i64`'s range fits in `i128`.
proof fn lemma_i64_product_in_i128_range(x: int, y: int)
    requires
        i64::MIN <= x <= i64::MAX,
        i64::MIN <= y <= i64::MAX,
    ensures
        i128::MIN <= x * y <= i128::MAX,
{
    assert(i128::MIN <= x * y <= i128::MAX) by (nonlinear_arith)
        requires
            i64::MIN <= x <= i64::MAX,
            i64::MIN <= y <= i64::MAX,
    ;
}

/// The character is an ASCII decimal digit.
pub open spec fn is_digit(c: char) -> bool {
    48 <= c as u32 && c as u32 <= 57
}

/// The numeric value of an ASCII decimal digit.
pub open spec fn digit_of(c: char) -> nat
    recommends
        is_digit(c),
{
    (c as u32 - 48) as nat
}

/// The value of a digit string read in base ten.
pub open spec fn digits_val(s: Seq<char>) -> nat
    decreases s.len(),
{
    if s.len() == 0 {
        0
    } else {
        digits_val(s.drop_last()) * 10 + digit_of(s.last())
    }
}

/// Ten to the `k`.
pub open spec fn pow10(k: nat) -> nat
    decreases k,
{
    if k == 0 {
        1
    } else {
        10 * pow10((k - 1) as nat)
    }
}

/// The exact rational denoted by a decimal literal with integer digits
/// `intd` and fractional digits `fracd`: the integer part plus
/// `fracd / 10^|fracd|`, over the common denominator `10^|fracd|`.
/// `None` when numerator or denominator exceeds the `i64` range: such a
/// literal is rejected rather than silently truncated.
pub open spec fn literal_number(intd: Seq<char>, fracd: Seq<char>) -> Option<Number> {
    let d = pow10(fracd.len());
    let n = digits_val(intd) * d + digits_val(fracd);
    if n <= i64::MAX && d <= i64::MAX {
        Some(Number { numer: n as i64, denom: d as i64 })
    } else {
        None
    }
}

pub proof fn lemma_pow10_pos(k: nat)
    ensures
        pow10(k) >= 1,
    decreases k,
{
    if k > 0 {
        lemma_pow10_pos((k - 1) as nat)
    }
}

pub proof fn lemma_pow10_mono(j: nat, k: nat)
    requires
        j <= k,
    ensures
        pow10(j) <= pow10(k),
    decreases k,
{
    if j < k {
        lemma_pow10_mono(j, (k - 1) as nat);
    }
}

/// Reading more digits never shrinks the value.
pub proof fn lemma_digits_val_prefix(s: Seq<char>, j: int)
    requires
        0 <= j <= s.len(),
    ensures
        digits_val(s.subrange(0, j)) <= digits_val(s),
    decreases s.len() - j,
{
    if j == s.len() {
        assert(s.subrange(0, j) =~= s);
    } else {
        assert(s.subrange(0, j + 1).drop_last() =~= s.subrange(0, j));
        assert(s.subrange(0, j + 1).last() == s[j]);
        lemma_digits_val_prefix(s, j + 1);
    }
}

/// Appending one digit multiplies the value by ten and adds the digit.
pub proof fn lemma_digits_val_step(s: Seq<char>, a: int, k: int)
    requires
        0 <= a <= k < s.len(),
    ensures
        digits_val(s.subrange(a, k + 1)) == digits_val(s.subrange(a, k)) * 10 + digit_of(s[k]),
{
    assert(s.subrange(a, k + 1).drop_last() =~= s.subrange(a, k));
    assert(s.subrange(a, k + 1).last() == s[k]);
}

/// Reads the digits `src[start..end]` as an `i64`; `None` exactly when the
/// value exceeds `i64::MAX`.
pub fn digits_to_i64(src: &Vec<char>, start: usize, end: usize) -> (r: Option<i64>)
    requires
        start <= end <= src@.len(),
        forall|k: int| start <= k < end ==> is_digit(src@[k]),
    ensures
        match r {
            Some(v) => 0 <= v && v == digits_val(src@.subrange(start as int, end as int)),
            None => digits_val(src@.subrange(start as int, end as int)) > i64::MAX,
        },
{
    let ghost s = src@;
    let mut acc: i64 = 0;
    let mut k: usize = start;
    proof {
        assert(s.subrange(start as int, start as int) =~= Seq::<char>::empty());
    }
    while k < end
        invariant
            start <= k <= end <= s.len(),
            s == src@,
            forall|j: int| start <= j < end ==> is_digit(s[j]),
            0 <= acc,
            acc == digits_val(s.subrange(start as int, k as int)),
        decreases end - k,
    {
        let d = (src[k] as u32 - 48) as i64;
        proof {
            lemma_digits_val_step(s, start as int, k as int);
        }
        let step = match acc.checked_mul(10) {
            Some(m) => m.checked_add(d),
            None => None,
        };
        match step {
            Some(v) => {
                acc = v;
            },
            None => {
                proof {
                    let whole = s.subrange(start as int, end as int);
                    let pre = s.subrange(start as int, k + 1int);
                    assert(pre =~= whole.subrange(0, k + 1 - start));
                    lemma_digits_val_prefix(whole, k + 1 - start);
                }
                return None;
            },
        }
        k = k + 1;
    }
    Some(acc)
}

/// Ten to the `k` as an `i64`; `None` exactly when it exceeds `i64::MAX`.
pub fn pow10_i64(k: usize) -> (r: Option<i64>)
    ensures
        match r {
            Some(v) => 1 <= v && v == pow10(k as nat),
            None => pow10(k as nat) > i64::MAX,
        },
{
    let mut acc: i64 = 1;
    let mut i: usize = 0;
    while i < k
        invariant
            0 <= i <= k,
            1 <= acc,
            acc == pow10(i as nat),
        decreases k - i,
    {
        match acc.checked_mul(10) {
            Some(v) => {
                acc = v;
            },
            None => {
                proof {
                    lemma_pow10_mono((i + 1) as nat, k as nat);
                }
                return None;
            },
        }
        i = i + 1;
    }
    Some(acc)
}

/// Converts a scanned decimal literal — integer digits `src[int_start..int_end]`
/// and fractional digits `src[frac_start..frac_end]` — to its exact rational
/// value; `None` exactly when the literal is too precise for the `i64` range.
pub fn literal_to_number(
    src: &Vec<char>,
    int_start: usize,
    int_end: usize,
    frac_start: usize,
    frac_end: usize,
) -> (r: Option<Number>)
    requires
        int_start <= int_end <= src@.len(),
        frac_start <= frac_end <= src@.len(),
        forall|k: int| int_start <= k < int_end ==> is_digit(src@[k]),
        forall|k: int| frac_start <= k < frac_end ==> is_digit(src@[k]),
    ensures
        r == literal_number(
            src@.subrange(int_start as int, int_end as int),
            src@.subrange(frac_start as int, frac_end as int),
        ),
        r matches Some(n) ==> n.wf(),
{
    let ghost intd = src@.subrange(int_start as int, int_end as int);
    let ghost fracd = src@.subrange(frac_start as int, frac_end as int);
    let ghost dd = pow10(fracd.len());
    let ghost nn = digits_val(intd) * dd + digits_val(fracd);
    proof {
        lemma_pow10_pos(fracd.len());
    }
    let flen = frac_end - frac_start;
    let d = match pow10_i64(flen) {
        Some(d) => d,
        None => {
            return None;
        },
    };
    let fv = match digits_to_i64(src, frac_start, frac_end) {
        Some(v) => v,
        None => {
            proof {
                assert(digits_val(intd) * dd >= 0);
            }
            return None;
        },
    };
    let iv = match digits_to_i64(src, int_start, int_end) {
        Some(v) => v,
        None => {
            proof {
                assert(digits_val(intd) * dd >= digits_val(intd) * 1) by (nonlinear_arith)
                    requires
                        dd >= 1,
                ;
            }
            return None;
        },
    };
    let whole = match iv.checked_mul(d) {
        Some(p) => p,
        None => {
            return None;
        },
    };
    let numer = match whole.checked_add(fv) {
        Some(v) => v,
        None => {
            return None;
        },
    };
    Some(Number { numer, denom: d })
}

/// What `Ratio::<i64>::checked_add` returns: a function of the two operand
/// pairs alone.
pub uninterp spec fn rat_add_result(an: i64, ad: i64, bn: i64, bd: i64) -> Option<(i64, i64)>;

/// What `Ratio::<i64>::checked_sub` returns.
pub uninterp spec fn rat_sub_result(an: i64, ad: i64, bn: i64, bd: i64) -> Option<(i64, i64)>;

/// What `Ratio::<i64>::checked_mul` returns.
pub uninterp spec fn rat_mul_result(an: i64, ad: i64, bn: i64, bd: i64) -> Option<(i64, i64)>;

/// What `Ratio::<i64>::checked_div` returns.
pub uninterp spec fn rat_div_result(an: i64, ad: i64, bn: i64, bd: i64) -> Option<(i64, i64)>;

/// Relies on num_rational's `Ratio::<i64>::checked_add` (and `new_raw`,
/// `numer`, `denom` to convert): the result is `None` exactly when an
/// intermediate step overflows `i64`, and otherwise the exact sum
/// `an/ad + bn/bd` in lowest terms with a positive denominator.
#[verifier::external_body]
pub(crate) fn rat_checked_add(an: i64, ad: i64, bn: i64, bd: i64) -> (r: Option<(i64, i64)>)
    requires
        ad > 0,
        bd > 0,
    ensures
        r == rat_add_result(an, ad, bn, bd),
        r matches Some(p) ==> is_reduced(p.0 as int, p.1 as int) && (p.0 as int) * (ad as int)
            * (bd as int) == (p.1 as int) * ((an as int) * (bd as int) + (bn as int) * (ad as int)),
{
    let a = num_rational::Rational64::new_raw(an, ad);
    let b = num_rational::Rational64::new_raw(bn, bd);
    num_traits::CheckedAdd::checked_add(&a, &b).map(|v| (*v.numer(), *v.denom()))
}

/// Relies on num_rational's `Ratio::<i64>::checked_sub` (and `new_raw`,
/// `numer`, `denom` to convert): `None` exactly on intermediate overflow,
/// otherwise the exact difference `an/ad - bn/bd` in lowest terms with a
/// positive denominator.
#[verifier::external_body]
pub(crate) fn rat_checked_sub(an: i64, ad: i64, bn: i64, bd: i64) -> (r: Option<(i64, i64)>)
    requires
        ad > 0,
        bd > 0,
    ensures
        r == rat_sub_result(an, ad, bn, bd),
        r matches Some(p) ==> is_reduced(p.0 as int, p.1 as int) && (p.0 as int) * (ad as int)
            * (bd as int) == (p.1 as int) * ((an as int) * (bd as int) - (bn as int) * (ad as int)),
{
    let a = num_rational::Rational64::new_raw(an, ad);
    let b = num_rational::Rational64::new_raw(bn, bd);
    num_traits::CheckedSub::checked_sub(&a, &b).map(|v| (*v.numer(), *v.denom()))
}

/// Relies on num_rational's `Ratio::<i64>::checked_mul` (and `new_raw`,
/// `numer`, `denom` to convert): `None` exactly on intermediate overflow,
/// otherwise the exact product `(an*bn)/(ad*bd)` in lowest terms with a
/// positive denominator.
#[verifier::external_body]
pub(crate) fn rat_checked_mul(an: i64, ad: i64, bn: i64, bd: i64) -> (r: Option<(i64, i64)>)
    requires
        ad > 0,
        bd > 0,
    ensures
        r == rat_mul_result(an, ad, bn, bd),
        r matches Some(p) ==> is_reduced(p.0 as int, p.1 as int) && (p.0 as int) * (ad as int)
            * (bd as int) == (p.1 as int) * ((an as int) * (bn as int)),
{
    let a = num_rational::Rational64::new_raw(an, ad);
    let b = num_rational::Rational64::new_raw(bn, bd);
    num_traits::CheckedMul::checked_mul(&a, &b).map(|v| (*v.numer(), *v.denom()))
}

/// Relies on num_rational's `Ratio::<i64>::checked_div` (and `new_raw`,
/// `numer`, `denom` to convert): `None` when the divisor is zero or an
/// intermediate step overflows, otherwise the exact quotient
/// `(an*bd)/(ad*bn)` in lowest terms with a positive denominator.
/// A zero dividend over a divisor with numerator `i64::MIN` is excluded:
/// there the call would take a greatest common divisor of `0` and
/// `i64::MIN`, whose magnitude `num_integer` cannot represent. The caller
/// answers a zero dividend without dividing.
#[verifier::external_body]
pub(crate) fn rat_checked_div(an: i64, ad: i64, bn: i64, bd: i64) -> (r: Option<(i64, i64)>)
    requires
        ad > 0,
        bd > 0,
        !(an == 0 && bn == i64::MIN),
    ensures
        r == rat_div_result(an, ad, bn, bd),
        bn == 0 ==> r is None,
        r matches Some(p) ==> is_reduced(p.0 as int, p.1 as int) && (p.0 as int) * (ad as int)
            * (bn as int) == (p.1 as int) * ((an as int) * (bd as int)),
{
    let a = num_rational::Rational64::new_raw(an, ad);
    let b = num_rational::Rational64::new_raw(bn, bd);
    num_traits::CheckedDiv::checked_div(&a, &b).map(|v| (*v.numer(), *v.denom()))
}

} // verus!
