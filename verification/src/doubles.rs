//! Doubles, held as their bits.

use vstd::arithmetic::power2::{lemma2_to64, lemma2_to64_rest, lemma_pow2_pos, lemma_pow2_unfold, pow2};
use vstd::prelude::*;

verus! {

/// Whether the bits of a double stand for no number: all exponent bits set
/// and a fraction that is not zero.
pub open spec fn is_nan_bits(bits: u64) -> bool {
    bits % 0x8000_0000_0000_0000 > 0x7ff0_0000_0000_0000
}

/// Whether the bits of a double stand for a number that is neither infinite
/// nor NaN.
pub open spec fn is_finite_bits(bits: u64) -> bool {
    bits % 0x8000_0000_0000_0000 < 0x7ff0_0000_0000_0000
}

pub fn bits_are_nan(bits: u64) -> (r: bool)
    ensures
        r == is_nan_bits(bits),
{
    bits % 0x8000_0000_0000_0000 > 0x7ff0_0000_0000_0000
}

pub fn bits_are_finite(bits: u64) -> (r: bool)
    ensures
        r == is_finite_bits(bits),
{
    bits % 0x8000_0000_0000_0000 < 0x7ff0_0000_0000_0000
}

/// A number that orders doubles as their values do: what follows the sign
/// counts up for a positive double, and down for a negative one. Both zeros
/// have the same.
pub open spec fn order_of(bits: u64) -> int {
    if bits < 0x8000_0000_0000_0000 {
        bits as int
    } else {
        0x8000_0000_0000_0000 - bits
    }
}

pub fn order_key(bits: u64) -> (r: i64)
    ensures
        r == order_of(bits),
{
    if bits < 0x8000_0000_0000_0000 {
        bits as i64
    } else {
        -((bits - 0x8000_0000_0000_0000) as i64)
    }
}

/// Whether one double is at least another. A NaN is neither more nor less than
/// anything.
pub open spec fn is_at_least(a: u64, b: u64) -> bool {
    !is_nan_bits(a) && !is_nan_bits(b) && order_of(a) >= order_of(b)
}

pub fn at_least(a: u64, b: u64) -> (r: bool)
    ensures
        r == is_at_least(a, b),
{
    !bits_are_nan(a) && !bits_are_nan(b) && order_key(a) >= order_key(b)
}

/// The greater of two doubles; a NaN gives way to the other.
pub open spec fn greater_of(a: u64, b: u64) -> u64 {
    if is_nan_bits(a) {
        b
    } else if is_nan_bits(b) || order_of(a) >= order_of(b) {
        a
    } else {
        b
    }
}

pub fn greater(a: u64, b: u64) -> (r: u64)
    ensures
        r == greater_of(a, b),
{
    if bits_are_nan(a) {
        b
    } else if bits_are_nan(b) || order_key(a) >= order_key(b) {
        a
    } else {
        b
    }
}

/// The lesser of two doubles; a NaN gives way to the other.
pub open spec fn lesser_of(a: u64, b: u64) -> u64 {
    if is_nan_bits(a) {
        b
    } else if is_nan_bits(b) || order_of(a) <= order_of(b) {
        a
    } else {
        b
    }
}

pub fn lesser(a: u64, b: u64) -> (r: u64)
    ensures
        r == lesser_of(a, b),
{
    if bits_are_nan(a) {
        b
    } else if bits_are_nan(b) || order_key(a) <= order_key(b) {
        a
    } else {
        b
    }
}

// ── Integers as doubles ─────────────────────────────────────────────

/// The position of the highest bit of a positive number.
pub open spec fn top_bit(m: nat) -> nat
    decreases m,
{
    if m < 2 {
        0
    } else {
        top_bit(m / 2) + 1
    }
}

/// A number divided by a power of two and rounded to the nearest whole, a tie
/// to the even one.
pub open spec fn rounded_shift(m: nat, by: nat) -> nat {
    let q = m / pow2(by);
    let rest = m % pow2(by);
    if 2 * rest > pow2(by) || (2 * rest == pow2(by) && q % 2 == 1) {
        q + 1
    } else {
        q
    }
}

/// The bits of the double nearest to a positive number: the exponent, then
/// what follows the leading bit.
pub open spec fn magnitude_bits(m: nat) -> nat {
    let e = top_bit(m);
    let significand = if e <= 52 {
        m * pow2((52 - e) as nat)
    } else {
        rounded_shift(m, (e - 52) as nat)
    };
    (1022 + e) * 0x10_0000_0000_0000 + significand
}

/// The bits of the double nearest to an integer.
pub open spec fn double_of(n: i64) -> nat {
    if n == 0 {
        0
    } else if n > 0 {
        magnitude_bits(n as nat)
    } else {
        0x8000_0000_0000_0000 + magnitude_bits((-(n as int)) as nat)
    }
}

proof fn top_bit_is(m: nat, e: nat)
    requires
        pow2(e) <= m < 2 * pow2(e),
    ensures
        top_bit(m) == e,
    decreases e,
{
    lemma2_to64();
    if e > 0 {
        lemma_pow2_unfold(e);
        lemma_pow2_pos((e - 1) as nat);
        top_bit_is(m / 2, (e - 1) as nat);
    } else {
        assert(m == 1);
    }
}

/// The bits of the double nearest to a positive number, a tie going to the one
/// whose last bit is zero.
pub fn nearest_double(m: u64) -> (r: u64)
    requires
        m > 0,
    ensures
        r == magnitude_bits(m as nat),
        r <= 0x43f0_0000_0000_0000,
{
    let mut e: u64 = 0;
    let mut p: u64 = 1;
    proof {
        lemma2_to64();
        lemma2_to64_rest();
    }
    while p <= m / 2
        invariant
            0 < m,
            p == pow2(e as nat),
            0 < p <= m,
            e <= 63,
        decreases m - p,
    {
        proof {
            lemma_pow2_unfold(e as nat + 1);
            if e == 63 {
                lemma2_to64();
                lemma2_to64_rest();
            }
        }
        p = p * 2;
        e = e + 1;
    }
    proof {
        top_bit_is(m as nat, e as nat);
        lemma2_to64();
        lemma2_to64_rest();
    }
    let significand: u64 = if e <= 52 {
        let mut k: u64 = e;
        let mut s: u64 = m;
        assert(m * pow2(0) == m) by (nonlinear_arith)
            requires
                pow2(0) == 1,
        ;
        while k < 52
            invariant
                e <= k <= 52,
                s == m * pow2((k - e) as nat),
                s < pow2(k as nat + 1),
            decreases 52 - k,
        {
            proof {
                lemma_pow2_unfold((k + 1 - e) as nat);
                lemma_pow2_unfold(k as nat + 2);
                lemma2_to64();
                lemma2_to64_rest();
                vstd::arithmetic::power2::lemma_pow2_strictly_increases(k as nat + 1, 53);
                assert(m * pow2((k + 1 - e) as nat) == 2 * (m * pow2((k - e) as nat)))
                    by (nonlinear_arith)
                    requires
                        pow2((k + 1 - e) as nat) == 2 * pow2((k - e) as nat),
                ;
            }
            s = s * 2;
            k = k + 1;
        }
        s
    } else {
        let mut by: u64 = 0;
        let mut d: u64 = 1;
        while by < e - 52
            invariant
                52 < e <= 63,
                by <= e - 52,
                d == pow2(by as nat),
                d <= 0x800,
            decreases e - 52 - by,
        {
            proof {
                lemma_pow2_unfold(by as nat + 1);
                lemma2_to64();
                if by < 10 {
                    vstd::arithmetic::power2::lemma_pow2_strictly_increases(by as nat, 10);
                }
            }
            d = d * 2;
            by = by + 1;
        }
        let q: u64 = m / d;
        let rest: u64 = m % d;
        proof {
            lemma_pow2_unfold(e as nat + 1);
            vstd::arithmetic::power2::lemma_pow2_adds(53, (e - 52) as nat);
            assert(m < d * 0x20_0000_0000_0000);
            assert(q < 0x20_0000_0000_0000) by (nonlinear_arith)
                requires
                    m < d * 0x20_0000_0000_0000,
                    q == m / d,
                    d > 0,
            ;
        }
        if 2 * rest > d || (2 * rest == d && q % 2 == 1) {
            q + 1
        } else {
            q
        }
    };
    (1022 + e) * 0x10_0000_0000_0000 + significand
}

/// The bits of the double nearest to an integer.
pub fn double_bits(n: i64) -> (r: u64)
    ensures
        r == double_of(n),
{
    if n == 0 {
        0
    } else if n > 0 {
        nearest_double(n as u64)
    } else if n == i64::MIN {
        0x8000_0000_0000_0000 + nearest_double(0x8000_0000_0000_0000)
    } else {
        0x8000_0000_0000_0000 + nearest_double((-n) as u64)
    }
}

// ── Laws ────────────────────────────────────────────────────────────

proof fn top_bit_bounds(m: nat)
    requires
        m > 0,
    ensures
        pow2(top_bit(m)) <= m < 2 * pow2(top_bit(m)),
    decreases m,
{
    lemma2_to64();
    if m >= 2 {
        top_bit_bounds(m / 2);
        lemma_pow2_unfold(top_bit(m));
    }
}

/// A whole number that a double can hold is held exactly: read as a double, the
/// bits are an exponent and, behind the leading one, the digits of the number.
pub proof fn whole_numbers_are_held_exactly(m: nat)
    requires
        0 < m < 0x20_0000_0000_0000,
    ensures
        ({
            let bits = magnitude_bits(m);
            let exponent = bits / 0x10_0000_0000_0000 - 1023;
            let digits = 0x10_0000_0000_0000 + bits % 0x10_0000_0000_0000;
            &&& 0 <= exponent <= 52
            &&& digits == m * pow2((52 - exponent) as nat)
        }),
{
    let e = top_bit(m);
    top_bit_bounds(m);
    lemma2_to64();
    lemma2_to64_rest();
    if e > 52 {
        vstd::arithmetic::power2::lemma_pow2_strictly_increases(52, e);
        lemma_pow2_unfold(53);
        if e > 53 {
            vstd::arithmetic::power2::lemma_pow2_strictly_increases(53, e);
        }
    }
    let k = (52 - e) as nat;
    vstd::arithmetic::power2::lemma_pow2_adds(e, k);
    lemma_pow2_pos(k);
    let s = m * pow2(k);
    assert(pow2(e) * pow2(k) <= s < 2 * (pow2(e) * pow2(k))) by (nonlinear_arith)
        requires
            pow2(e) <= m < 2 * pow2(e),
            pow2(k) > 0,
            s == m * pow2(k),
    ;
    let c: int = 0x10_0000_0000_0000;
    vstd::arithmetic::div_mod::lemma_fundamental_div_mod_converse(
        magnitude_bits(m) as int,
        c,
        (1023 + e) as int,
        s - c,
    );
}

/// A greater whole number is a greater double, whatever its sign.
pub proof fn doubles_are_ordered_as_integers(a: i64, b: i64)
    requires
        -0x20_0000_0000_0000 < a < 0x20_0000_0000_0000,
        -0x20_0000_0000_0000 < b < 0x20_0000_0000_0000,
    ensures
        is_at_least(double_of(a) as u64, double_of(b) as u64) <==> a >= b,
        is_finite_bits(double_of(a) as u64),
        a >= 0 <==> double_of(a) < 0x8000_0000_0000_0000,
{
    magnitudes_ascend((if a < 0 { -(a as int) } else { a as int }) as nat, (if b < 0 {
        -(b as int)
    } else {
        b as int
    }) as nat);
}

proof fn magnitudes_ascend(m: nat, n: nat)
    requires
        m < 0x20_0000_0000_0000,
        n < 0x20_0000_0000_0000,
    ensures
        0 < m ==> 0 < magnitude_bits(m) < 0x7ff0_0000_0000_0000,
        0 < n ==> 0 < magnitude_bits(n) < 0x7ff0_0000_0000_0000,
        0 < m < n ==> magnitude_bits(m) < magnitude_bits(n),
        0 < n < m ==> magnitude_bits(n) < magnitude_bits(m),
{
    if m > 0 {
        whole_numbers_are_held_exactly(m);
    }
    if n > 0 {
        whole_numbers_are_held_exactly(n);
    }
    if 0 < m && 0 < n {
        magnitudes_ascend_once(m, n);
        magnitudes_ascend_once(n, m);
    }
}

proof fn magnitudes_ascend_once(m: nat, n: nat)
    requires
        0 < m < 0x20_0000_0000_0000,
        0 < n < 0x20_0000_0000_0000,
    ensures
        m < n ==> magnitude_bits(m) < magnitude_bits(n),
{
    whole_numbers_are_held_exactly(m);
    whole_numbers_are_held_exactly(n);
    let c: nat = 0x10_0000_0000_0000;
    let em = magnitude_bits(m) / c;
    let en = magnitude_bits(n) / c;
    let dm = c + magnitude_bits(m) % c;
    let dn = c + magnitude_bits(n) % c;
    if m < n {
        let km = (52 - (em - 1023)) as nat;
        let kn = (52 - (en - 1023)) as nat;
        lemma_pow2_pos(km);
        if em == en {
            assert(dm < dn) by (nonlinear_arith)
                requires
                    dm == m * pow2(km),
                    dn == n * pow2(km),
                    m < n,
                    pow2(km) > 0,
            ;
        } else if em > en {
            lemma_pow2_unfold(kn);
            if km < kn - 1 {
                vstd::arithmetic::power2::lemma_pow2_strictly_increases(km, (kn - 1) as nat);
            }
            assert(dn >= 2 * dm) by (nonlinear_arith)
                requires
                    dm == m * pow2(km),
                    dn == n * pow2(kn),
                    m < n,
                    pow2(kn) >= 2 * pow2(km),
                    pow2(km) > 0,
            ;
        }
    }
}

/// What is rounded off is at most half, and a tie goes to the even number.
pub proof fn shifts_round_to_the_nearest(m: nat, by: nat)
    ensures
        2 * (rounded_shift(m, by) * pow2(by)) <= 2 * m + pow2(by),
        2 * m <= 2 * (rounded_shift(m, by) * pow2(by)) + pow2(by),
        2 * (rounded_shift(m, by) * pow2(by)) == 2 * m + pow2(by) || 2 * m == 2 * (rounded_shift(
            m,
            by,
        ) * pow2(by)) + pow2(by) ==> rounded_shift(m, by) % 2 == 0,
{
    lemma_pow2_pos(by);
    let d = pow2(by) as int;
    let q = (m / pow2(by)) as int;
    let rest = (m % pow2(by)) as int;
    vstd::arithmetic::div_mod::lemma_fundamental_div_mod(m as int, d);
    assert(q * d == d * q) by (nonlinear_arith);
    assert((q + 1) * d == d * q + d) by (nonlinear_arith);
}

/// Every double is a number, an infinity or no number, and only one of them.
/// No number is above positive infinity or below the negative one, both zeros
/// are the same, and turning the signs of two numbers turns their order.
pub proof fn doubles_are_a_line(a: u64, b: u64)
    requires
        !is_nan_bits(a),
        !is_nan_bits(b),
    ensures
        is_finite_bits(a) || a == 0x7ff0_0000_0000_0000 || a == 0xfff0_0000_0000_0000,
        is_at_least(a, b) || is_at_least(b, a),
        is_at_least(0x7ff0_0000_0000_0000, a),
        is_at_least(a, 0xfff0_0000_0000_0000),
        is_at_least(0, 0x8000_0000_0000_0000) && is_at_least(0x8000_0000_0000_0000, 0),
        a < 0x8000_0000_0000_0000 && b < 0x8000_0000_0000_0000 ==> is_at_least(
            (0x8000_0000_0000_0000 + b) as u64,
            (0x8000_0000_0000_0000 + a) as u64,
        ) == is_at_least(a, b),
        a < 0x8000_0000_0000_0000 && b >= 0x8000_0000_0000_0000 ==> is_at_least(a, b),
        a < 0x8000_0000_0000_0000 && b < a ==> is_at_least(a, b) && !is_at_least(b, a),
{
}

/// No double compares with one that is no number, which a greater or lesser of
/// the two passes over.
pub proof fn what_is_no_number_is_passed_over(nan: u64, a: u64)
    requires
        is_nan_bits(nan),
    ensures
        !is_finite_bits(nan),
        !is_at_least(nan, a) && !is_at_least(a, nan),
        greater_of(nan, a) == a && greater_of(a, nan) == a || is_nan_bits(a),
        lesser_of(nan, a) == a && lesser_of(a, nan) == a || is_nan_bits(a),
{
}

/// The greater of two numbers is one of them and at least both; the lesser one
/// is one of them, and both are at least it.
pub proof fn extremes_are_extreme(a: u64, b: u64)
    requires
        !is_nan_bits(a),
        !is_nan_bits(b),
    ensures
        greater_of(a, b) == a || greater_of(a, b) == b,
        is_at_least(greater_of(a, b), a) && is_at_least(greater_of(a, b), b),
        lesser_of(a, b) == a || lesser_of(a, b) == b,
        is_at_least(a, lesser_of(a, b)) && is_at_least(b, lesser_of(a, b)),
{
}

} // verus!
