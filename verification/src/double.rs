//! Integers as 64-bit floating-point numbers: the bit pattern of the number
//! nearest to an integer, computed on integers alone.

use vstd::arithmetic::div_mod::{
    lemma_div_multiples_vanish, lemma_fundamental_div_mod, lemma_fundamental_div_mod_converse,
    lemma_mod_multiples_basic,
};
use crate::value::Number;
use vstd::arithmetic::power2::{
    lemma2_to64, lemma2_to64_rest, lemma_pow2_adds, lemma_pow2_pos, lemma_pow2_strictly_increases,
    lemma_pow2_unfold, pow2,
};
use vstd::prelude::*;

verus! {

/// The position of the highest bit of a positive number: the greatest `e`
/// with `2^e <= n`.
pub open spec fn top_bit(n: nat) -> nat
    decreases n,
{
    if n <= 1 {
        0
    } else {
        1 + top_bit(n / 2)
    }
}

/// The significand of the floating-point number nearest to a positive
/// integer: the integer scaled to 53 bits, rounded to the nearest where it
/// has more, and to the even neighbour where two are equally near.
pub open spec fn significand(n: nat) -> nat {
    let e = top_bit(n);
    if e <= 52 {
        n * pow2((52 - e) as nat)
    } else {
        let unit = pow2((e - 52) as nat);
        let q = n / unit;
        let r = n % unit;
        if 2 * r > unit || (2 * r == unit && q % 2 == 1) {
            q + 1
        } else {
            q
        }
    }
}

/// The bit pattern of the 64-bit floating-point number nearest to a natural
/// number: the biased exponent above the 52 bits of the fraction. A
/// significand that rounding brings to `2^53` carries into the exponent.
pub open spec fn double_of(n: nat) -> nat {
    if n == 0 {
        0
    } else {
        (top_bit(n) + 1022) * pow2(52) + significand(n)
    }
}

/// The integer that a bit pattern of a non-negative floating-point number
/// stands for, where it stands for one.
pub open spec fn integer_of(bits: nat) -> Option<nat> {
    let exponent = bits / pow2(52);
    let mantissa = pow2(52) + bits % pow2(52);
    if bits == 0 {
        Some(0)
    } else if exponent >= 2047 || exponent < 1023 {
        None
    } else if exponent >= 1075 {
        Some(mantissa * pow2((exponent - 1075) as nat))
    } else if mantissa % pow2((1075 - exponent) as nat) == 0 {
        Some(mantissa / pow2((1075 - exponent) as nat))
    } else {
        None
    }
}

/// True for the natural numbers that a 64-bit floating-point number
/// represents exactly: those of at most 53 bits, and the multiples of the
/// power of two that brings a longer one down to 53 bits.
pub open spec fn exactly_representable(n: nat) -> bool {
    n == 0 || top_bit(n) <= 52 || n % pow2((top_bit(n) - 52) as nat) == 0
}

/// A positive number lies between the power of two of its highest bit and
/// the next one.
pub proof fn lemma_top_bit(n: nat)
    requires
        n >= 1,
    ensures
        pow2(top_bit(n)) <= n < pow2(top_bit(n) + 1),
    decreases n,
{
    lemma2_to64();
    if n > 1 {
        lemma_top_bit(n / 2);
        lemma_pow2_unfold(top_bit(n));
        lemma_pow2_unfold(top_bit(n) + 1);
    }
}

/// The significand has 53 bits, or is `2^53` after rounding.
pub proof fn lemma_significand_range(n: nat)
    requires
        n >= 1,
    ensures
        pow2(52) <= significand(n) <= pow2(53),
        exactly_representable(n) ==> significand(n) < pow2(53),
{
    let e = top_bit(n);
    lemma_top_bit(n);
    lemma2_to64_rest();
    if e <= 52 {
        let k = (52 - e) as nat;
        lemma_pow2_adds(e, k);
        lemma_pow2_adds(e + 1, k);
        lemma_pow2_pos(k);
        assert(pow2(e) * pow2(k) <= n * pow2(k)) by (nonlinear_arith)
            requires
                pow2(e) <= n,
                pow2(k) > 0,
        ;
        assert(n * pow2(k) < pow2(e + 1) * pow2(k)) by (nonlinear_arith)
            requires
                n < pow2(e + 1),
                pow2(k) > 0,
        ;
    } else {
        let k = (e - 52) as nat;
        let unit = pow2(k);
        let q = n / unit;
        lemma_pow2_pos(k);
        lemma_pow2_adds(52, k);
        lemma_pow2_adds(53, k);
        lemma_fundamental_div_mod(n as int, unit as int);
        assert(q >= pow2(52)) by (nonlinear_arith)
            requires
                n == unit * q + n % unit,
                n % unit < unit,
                unit > 0,
                n >= pow2(52) * unit,
        ;
        assert(q < pow2(53)) by (nonlinear_arith)
            requires
                n == unit * q + n % unit,
                n % unit >= 0,
                unit > 0,
                n < pow2(53) * unit,
        ;
    }
}

/// Nearest, ties to even: of an integer of more than 53 bits, the
/// significand times the power of two that was scaled away differs from
/// the integer by at most half that power, and where it differs by just
/// half, the significand is even.
pub proof fn lemma_significand_nearest(n: nat)
    requires
        n >= 1,
        top_bit(n) > 52,
    ensures
        ({
            let unit = pow2((top_bit(n) - 52) as nat);
            let rounded = significand(n) * unit;
            &&& 2 * (rounded - n) <= unit
            &&& 2 * (n - rounded) <= unit
            &&& (2 * (rounded - n) == unit || 2 * (n - rounded) == unit) ==> significand(n) % 2 == 0
        }),
{
    let unit = pow2((top_bit(n) - 52) as nat);
    let q = n / unit;
    let r = n % unit;
    let m = significand(n);
    lemma_pow2_pos((top_bit(n) - 52) as nat);
    lemma_fundamental_div_mod(n as int, unit as int);
    assert(m * unit - n == (m - q) * unit - r) by (nonlinear_arith)
        requires
            n == unit * q + r,
    ;
    if m == q + 1 {
        assert((m - q) * unit == unit) by (nonlinear_arith)
            requires
                m - q == 1,
        ;
    } else {
        assert((m - q) * unit == 0) by (nonlinear_arith)
            requires
                m - q == 0,
        ;
    }
}

/// Exact where it can be: the floating-point number nearest to an exactly
/// representable natural number stands for that number.
pub proof fn lemma_exact_double(n: nat)
    requires
        exactly_representable(n),
        n < pow2(64),
    ensures
        integer_of(double_of(n)) == Some(n),
{
    if n > 0 {
        let e = top_bit(n);
        let m = significand(n);
        let p = pow2(52);
        let bits = double_of(n);
        lemma_top_bit(n);
        lemma_significand_range(n);
        lemma2_to64_rest();
        lemma2_to64();
        assert(e <= 63) by {
            if e >= 64 {
                if e > 64 {
                    lemma_pow2_strictly_increases(64, e);
                }
            }
        }
        assert(bits == (e + 1023) * p + (m - p)) by (nonlinear_arith)
            requires
                bits == (e + 1022) * p + m,
        ;
        lemma_fundamental_div_mod_converse(bits as int, p as int, (e + 1023) as int, (m - p) as int);
        assert(bits / p == e + 1023);
        assert(bits % p == m - p);
        if e <= 52 {
            let k = (52 - e) as nat;
            lemma_pow2_pos(k);
            if e < 52 {
                lemma_mod_multiples_basic(n as int, pow2(k) as int);
                lemma_div_multiples_vanish(n as int, pow2(k) as int);
                assert(m == pow2(k) * n) by (nonlinear_arith)
                    requires
                        m == n * pow2(k),
                ;
            } else {
                assert(m == n * 1);
            }
        } else {
            let k = (e - 52) as nat;
            lemma_pow2_pos(k);
            lemma_fundamental_div_mod(n as int, pow2(k) as int);
            assert(m * pow2(k) == n) by (nonlinear_arith)
                requires
                    n == pow2(k) * m + 0,
            ;
        }
    } else {
        lemma2_to64_rest();
    }
}

/// The bit pattern of the 64-bit floating-point number nearest to an
/// unsigned integer.
pub fn nearest_double(n: u64) -> (bits: u64)
    ensures
        bits == double_of(n as nat),
        bits < pow2(63),
{
    proof {
        lemma2_to64();
        lemma2_to64_rest();
    }
    if n == 0 {
        return 0;
    }
    let mut e: u64 = 0;
    let mut rest: u64 = n;
    while rest > 1
        invariant
            rest >= 1,
            e <= 63,
            rest < pow2((64 - e) as nat),
            top_bit(n as nat) == e + top_bit(rest as nat),
        decreases rest,
    {
        proof {
            lemma2_to64();
            if e >= 63 {
                assert(pow2(1) == 2);
            } else {
                lemma_pow2_unfold((64 - e) as nat);
            }
        }
        rest = rest / 2;
        e = e + 1;
    }
    proof {
        lemma_top_bit(n as nat);
        lemma_significand_range(n as nat);
    }
    let significand: u64 = if e <= 52 {
        let mut scaled: u64 = n;
        let mut k: u64 = 0;
        while k < 52 - e
            invariant
                e <= 52,
                k <= 52 - e,
                scaled == n * pow2(k as nat),
                n * pow2((52 - e) as nat) <= pow2(53),
            decreases 52 - e - k,
        {
            proof {
                lemma_pow2_unfold((k + 1) as nat);
                lemma_pow2_pos(k as nat);
                if k + 1 < 52 - e {
                    lemma_pow2_strictly_increases((k + 1) as nat, (52 - e) as nat);
                }
                assert(n * pow2((k + 1) as nat) <= n * pow2((52 - e) as nat)) by (nonlinear_arith)
                    requires
                        pow2((k + 1) as nat) <= pow2((52 - e) as nat),
                ;
                assert(n * pow2((k + 1) as nat) == 2 * (n * pow2(k as nat))) by (nonlinear_arith)
                    requires
                        pow2((k + 1) as nat) == 2 * pow2(k as nat),
                ;
                lemma2_to64_rest();
            }
            scaled = scaled * 2;
            k = k + 1;
        }
        scaled
    } else {
        let mut unit: u64 = 1;
        let mut k: u64 = 0;
        while k < e - 52
            invariant
                52 < e <= 63,
                k <= e - 52,
                unit == pow2(k as nat),
                unit <= 0x800,
            decreases e - 52 - k,
        {
            proof {
                lemma_pow2_unfold((k + 1) as nat);
                lemma2_to64();
                if k + 1 < 11 {
                    lemma_pow2_strictly_increases((k + 1) as nat, 11);
                }
            }
            unit = unit * 2;
            k = k + 1;
        }
        let q = n / unit;
        let r = n % unit;
        if 2 * r > unit || (2 * r == unit && q % 2 == 1) {
            q + 1
        } else {
            q
        }
    };
    (e + 1022) * 0x10_0000_0000_0000 + significand
}

/// The bit pattern of the 64-bit floating-point number nearest to a number:
/// for an integer its magnitude's pattern, under the sign bit where it is
/// negative; for a floating-point number its own pattern.
pub open spec fn double_bits(n: Number) -> u64 {
    match n {
        Number::PosInt(u) => double_of(u as nat) as u64,
        Number::NegInt(i) => if i < 0 {
            (pow2(63) + double_of((-i) as nat)) as u64
        } else {
            double_of(i as nat) as u64
        },
        Number::Float(bits) => bits,
    }
}

/// The integer that a bit pattern of a floating-point number stands for,
/// where it stands for one.
pub open spec fn signed_integer_of(bits: u64) -> Option<int> {
    if bits >= pow2(63) {
        match integer_of((bits - pow2(63)) as nat) {
            Some(m) => Some(-(m as int)),
            None => None,
        }
    } else {
        match integer_of(bits as nat) {
            Some(m) => Some(m as int),
            None => None,
        }
    }
}

/// The integer that an integer number is; zero for a floating-point number.
pub open spec fn integer_value(n: Number) -> int {
    match n {
        Number::PosInt(u) => u as int,
        Number::NegInt(i) => i as int,
        Number::Float(_) => 0,
    }
}

/// The magnitude of an integer.
pub open spec fn magnitude(i: int) -> nat {
    if i < 0 {
        (-i) as nat
    } else {
        i as nat
    }
}

/// The pattern of an integer number has an exponent below the one that marks
/// the infinite, and stands for the integer where that is exactly
/// representable.
pub proof fn lemma_integer_bits(n: Number)
    requires
        n !is Float,
    ensures
        (double_bits(n) / 0x10_0000_0000_0000) % 0x800 != 0x7ff,
        exactly_representable(magnitude(integer_value(n))) ==> signed_integer_of(double_bits(n))
            == Some(integer_value(n)),
{
    let size = magnitude(integer_value(n));
    let d = double_of(size);
    let p = pow2(52);
    lemma2_to64();
    lemma2_to64_rest();
    assert(size < pow2(64));
    if size > 0 {
        lemma_top_bit(size);
        lemma_significand_range(size);
        assert(top_bit(size) <= 63) by {
            if top_bit(size) > 64 {
                lemma_pow2_strictly_increases(64, top_bit(size));
            }
        }
        assert(d <= 1087 * p) by (nonlinear_arith)
            requires
                d == (top_bit(size) + 1022) * p + significand(size),
                significand(size) <= 2 * p,
                top_bit(size) <= 63,
                p > 0,
        ;
    }
    assert(d <= 1087 * 0x10_0000_0000_0000);
    if exactly_representable(size) {
        lemma_exact_double(size);
    }
}

/// The bit pattern of the 64-bit floating-point number nearest to a number.
pub fn nearest_bits(n: Number) -> (bits: u64)
    ensures
        bits == double_bits(n),
{
    proof {
        lemma2_to64_rest();
    }
    match n {
        Number::PosInt(u) => nearest_double(u),
        Number::NegInt(i) => {
            if i >= 0 {
                nearest_double(i as u64)
            } else {
                let size: u64 = ((-(i + 1)) as u64) + 1;
                0x8000_0000_0000_0000 + nearest_double(size)
            }
        },
        Number::Float(bits) => bits,
    }
}

} // verus!
