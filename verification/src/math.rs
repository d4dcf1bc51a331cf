//! Fixed-point helpers on `i128`: a multiply-then-divide whose intermediate
//! product is carried in 256 bits, so that only the final quotient has to fit.
use vstd::arithmetic::div_mod::*;
use vstd::arithmetic::power2::*;
use vstd::bits::*;
use vstd::prelude::*;

verus! {

/// Direction in which a division result is rounded.
#[derive(Clone, Copy, Debug, PartialEq, Eq)]
pub enum Rounding {
    /// Towards negative infinity.
    Floor,
    /// Towards positive infinity.
    Ceil,
}

/// Why a fixed-point operation produced no value.
#[derive(Clone, Copy, Debug, PartialEq, Eq)]
pub enum MathError {
    /// The exact result does not fit in an `i128`.
    Overflow,
    /// The denominator was zero.
    DivisionByZero,
}

/// `floor(n / d)` for any non-zero `d`.
pub open spec fn div_floor(n: int, d: int) -> int {
    if d > 0 {
        n / d
    } else {
        (-n) / (-d)
    }
}

/// `ceil(n / d)` for any non-zero `d`.
pub open spec fn div_ceil(n: int, d: int) -> int {
    -div_floor(-n, d)
}

/// The exact value of `x * y / d`, rounded as asked.
pub open spec fn mul_div_value(x: int, y: int, d: int, rounding: Rounding) -> int {
    match rounding {
        Rounding::Floor => div_floor(x * y, d),
        Rounding::Ceil => div_ceil(x * y, d),
    }
}

pub open spec fn fits_i128(v: int) -> bool {
    i128::MIN <= v <= i128::MAX
}

pub open spec fn abs(v: int) -> int {
    if v < 0 {
        -v
    } else {
        v
    }
}

spec fn two64() -> int {
    0x1_0000_0000_0000_0000
}

spec fn two128() -> int {
    two64() * two64()
}

proof fn lemma_pow2_128()
    ensures
        pow2(128) == two128(),
        pow2(64) == two64(),
{
    lemma2_to64();
    lemma_pow2_adds(64, 64);
}

/// The magnitude of an `i128`, which always fits in a `u128`.
fn magnitude(v: i128) -> (m: u128)
    ensures
        m == abs(v as int),
        m <= 0x8000_0000_0000_0000_0000_0000_0000_0000,
{
    if v >= 0 {
        v as u128
    } else {
        let w: i128 = -(v + 1);
        (w as u128) + 1
    }
}

/// The full 256-bit product of two magnitudes, as a high and a low word.
fn mul_wide(x: u128, y: u128) -> (res: (u128, u128))
    requires
        x <= 0x8000_0000_0000_0000_0000_0000_0000_0000,
        y <= 0x8000_0000_0000_0000_0000_0000_0000_0000,
    ensures
        res.0 as int * two128() + res.1 as int == x as int * y as int,
{
    let base: u128 = 0x1_0000_0000_0000_0000;
    let x1: u128 = x / base;
    let x0: u128 = x % base;
    let y1: u128 = y / base;
    let y0: u128 = y % base;
    assert(x1 <= 0x8000_0000_0000_0000 && y1 <= 0x8000_0000_0000_0000);
    assert(x0 * y0 <= 0xffff_ffff_ffff_ffff * 0xffff_ffff_ffff_ffff) by (nonlinear_arith)
        requires
            x0 < 0x1_0000_0000_0000_0000,
            y0 < 0x1_0000_0000_0000_0000,
    ;
    assert(x0 * y1 <= 0xffff_ffff_ffff_ffff * 0x8000_0000_0000_0000) by (nonlinear_arith)
        requires
            x0 < 0x1_0000_0000_0000_0000,
            y1 <= 0x8000_0000_0000_0000,
    ;
    assert(x1 * y0 <= 0x8000_0000_0000_0000 * 0xffff_ffff_ffff_ffff) by (nonlinear_arith)
        requires
            y0 < 0x1_0000_0000_0000_0000,
            x1 <= 0x8000_0000_0000_0000,
    ;
    assert(x1 * y1 <= 0x8000_0000_0000_0000 * 0x8000_0000_0000_0000) by (nonlinear_arith)
        requires
            y1 <= 0x8000_0000_0000_0000,
            x1 <= 0x8000_0000_0000_0000,
    ;
    let p00: u128 = x0 * y0;
    let p01: u128 = x0 * y1;
    let p10: u128 = x1 * y0;
    let p11: u128 = x1 * y1;
    let mid: u128 = p01 + p10;
    let mid_hi: u128 = mid / base;
    let mid_lo: u128 = mid % base;
    let shifted: u128 = mid_lo * base;
    let lo: u128;
    let carry: u128;
    if p00 <= u128::MAX - shifted {
        lo = p00 + shifted;
        carry = 0;
    } else {
        lo = p00 - (u128::MAX - shifted) - 1;
        carry = 1;
    }
    assert(x as int * y as int == p11 as int * two128() + mid as int * two64() + p00 as int)
        by (nonlinear_arith)
        requires
            x == x1 * two64() + x0,
            y == y1 * two64() + y0,
            two128() == two64() * two64(),
            p00 == x0 * y0,
            p01 == x0 * y1,
            p10 == x1 * y0,
            p11 == x1 * y1,
            mid == p01 + p10,
    ;
    assert(mid as int * two64() == mid_hi as int * two128() + mid_lo as int * two64())
        by (nonlinear_arith)
        requires
            mid == mid_hi * two64() + mid_lo,
            two128() == two64() * two64(),
    ;
    assert(p11 as int * two128() + mid_hi as int * two128() + carry as int * two128() <= u128::MAX
        * two128()) by (nonlinear_arith)
        requires
            p11 + mid_hi + carry <= u128::MAX,
            two128() > 0,
    ;
    let hi: u128 = p11 + mid_hi + carry;
    assert(hi as int * two128() == p11 as int * two128() + mid_hi as int * two128() + carry as int
        * two128()) by (nonlinear_arith)
        requires
            hi == p11 + mid_hi + carry,
    ;
    (hi, lo)
}

/// `t(i)`: the top `i` bits of the low word, read as a number.
spec fn top_bits(lo: u128, i: nat) -> int {
    lo as int / pow2((128 - i) as nat) as int
}

proof fn lemma_top_bits_step(lo: u128, i: nat)
    requires
        i < 128,
    ensures
        top_bits(lo, i + 1) == 2 * top_bits(lo, i) + (lo as int / pow2((127 - i) as nat) as int)
            % 2,
        top_bits(lo, i) < pow2(i),
{
    let s = (127 - i) as nat;
    let a = lo as int / pow2(s) as int;
    lemma_pow2_pos(s);
    lemma_pow2_adds(s, 1);
    lemma2_to64();
    assert(pow2(1) == 2);
    lemma_div_denominator(lo as int, pow2(s) as int, 2);
    assert(a / 2 == top_bits(lo, i));
    lemma_fundamental_div_mod(a, 2);
    assert(top_bits(lo, i + 1) == a);
    // bound on the top bits
    lemma_pow2_adds(i, (128 - i) as nat);
    lemma_pow2_128();
    lemma_pow2_pos((128 - i) as nat);
    lemma_pow2_pos(i);
    let p = pow2((128 - i) as nat) as int;
    assert(lo < pow2(i) * p);
    lemma_div_strictly_bounded_local(lo as int, p, pow2(i) as int);
}

proof fn lemma_div_strictly_bounded_local(x: int, a: int, b: int)
    requires
        a > 0,
        0 <= x < b * a,
    ensures
        x / a < b,
{
    lemma_fundamental_div_mod(x, a);
    lemma_mod_pos_bound(x, a);
    assert(x / a < b) by (nonlinear_arith)
        requires
            x == a * (x / a) + x % a,
            0 <= x % a,
            x < b * a,
            a > 0,
    ;
}

/// Divides the 256-bit number `hi * 2^128 + lo` by `d`, by restoring long
/// division over the bits of `lo`; `hi < d` keeps the quotient in a `u128`.
fn div_wide(hi: u128, lo: u128, d: u128) -> (res: (u128, u128))
    requires
        0 < d <= 0x8000_0000_0000_0000_0000_0000_0000_0000,
        hi < d,
    ensures
        res.0 as int * d as int + res.1 as int == hi as int * two128() + lo as int,
        res.1 < d,
{
    let mut q: u128 = 0;
    let mut rem: u128 = hi;
    let mut i: u32 = 0;
    proof {
        lemma_pow2_128();
        assert(top_bits(lo, 0) == 0) by {
            lemma_div_strictly_bounded_local(lo as int, two128(), 1);
            lemma_div_pos_is_pos(lo as int, two128());
        }
        lemma2_to64();
    }
    while i < 128
        invariant
            i <= 128,
            0 < d <= 0x8000_0000_0000_0000_0000_0000_0000_0000,
            rem < d,
            q < pow2(i as nat),
            pow2(i as nat) <= two128(),
            q as int * d as int + rem as int == hi as int * pow2(i as nat) as int + top_bits(
                lo,
                i as nat,
            ),
        decreases 128 - i,
    {
        let shift: u128 = (127 - i) as u128;
        let bit: u128 = (lo >> shift) & 1;
        proof {
            lemma_u128_shr_is_div(lo, shift);
            let sh = lo >> shift;
            assert(sh & 1 == sh % 2) by (bit_vector);
            lemma_top_bits_step(lo, i as nat);
            lemma_pow2_adds(i as nat, 1);
            lemma2_to64();
            assert(pow2(1) == 2);
            if i + 1 < 128 {
                lemma_pow2_strictly_increases((i + 1) as nat, 128);
            }
            lemma_pow2_128();
        }
        let rem2: u128 = 2 * rem + bit;
        let ghost old_q = q;
        let ghost old_rem = rem;
        if rem2 >= d {
            rem = rem2 - d;
            q = 2 * q + 1;
        } else {
            rem = rem2;
            q = 2 * q;
        }
        proof {
            let p = pow2(i as nat) as int;
            assert(q as int * d as int + rem as int == 2 * (old_q as int * d as int + old_rem as int)
                + bit as int) by (nonlinear_arith)
                requires
                    (q == 2 * old_q + 1 && rem + d == 2 * old_rem + bit) || (q == 2 * old_q && rem
                        == 2 * old_rem + bit),
            ;
            assert(hi as int * pow2((i + 1) as nat) as int == 2 * (hi as int * p))
                by (nonlinear_arith)
                requires
                    pow2((i + 1) as nat) == 2 * p,
            ;
        }
        i = i + 1;
    }
    proof {
        assert(top_bits(lo, 128) == lo) by {
            lemma2_to64();
            assert(pow2(0) == 1);
            assert(lo as int / 1 == lo as int);
        }
    }
    (q, rem)
}

proof fn lemma_neg_div(n: int, dd: int)
    requires
        n >= 0,
        dd > 0,
    ensures
        (-n) / dd == -(n / dd) - (if n % dd == 0 {
            0int
        } else {
            1int
        }),
{
    lemma_fundamental_div_mod(n, dd);
    lemma_mod_pos_bound(n, dd);
    let q = n / dd;
    let r = n % dd;
    if r == 0 {
        assert(-n == (-q) * dd) by (nonlinear_arith)
            requires
                n == dd * q + r,
                r == 0,
        ;
        lemma_fundamental_div_mod_converse_div(-n, dd, -q, 0);
    } else {
        assert(-n == (-q - 1) * dd + (dd - r)) by (nonlinear_arith)
            requires
                n == dd * q + r,
        ;
        lemma_fundamental_div_mod_converse_div(-n, dd, -q - 1, dd - r);
    }
}

/// Rounding up gives the rounded-down quotient or one more, and the same
/// value exactly when `d` divides `n`.
pub proof fn lemma_rounding_gap(n: int, d: int)
    requires
        d > 0,
    ensures
        div_floor(n, d) <= div_ceil(n, d) <= div_floor(n, d) + 1,
        div_ceil(n, d) == div_floor(n, d) <==> n % d == 0,
{
    lemma_fundamental_div_mod(n, d);
    lemma_mod_bound(n, d);
    let q = n / d;
    let r = n % d;
    if r == 0 {
        assert(-n == (-q) * d) by (nonlinear_arith)
            requires
                n == d * q + r,
                r == 0,
        ;
        lemma_fundamental_div_mod_converse_div(-n, d, -q, 0);
    } else {
        assert(-n == (-q - 1) * d + (d - r)) by (nonlinear_arith)
            requires
                n == d * q + r,
        ;
        lemma_fundamental_div_mod_converse_div(-n, d, -q - 1, d - r);
    }
}

/// Both roundings of a quotient by a positive `d` grow with the numerator.
pub proof fn lemma_rounding_monotone(n: int, m: int, d: int)
    requires
        d > 0,
        n <= m,
    ensures
        div_floor(n, d) <= div_floor(m, d),
        div_ceil(n, d) <= div_ceil(m, d),
{
    lemma_div_is_ordered(n, m, d);
    lemma_div_is_ordered(-m, -n, d);
}

/// Computes `x * y / denominator` with the requested rounding, using a
/// 256-bit intermediate product so that only the result has to fit.
pub fn mul_div_with_rounding(x: i128, y: i128, denominator: i128, rounding: Rounding) -> (res:
    Result<i128, MathError>)
    ensures
        denominator == 0 ==> res == Err::<i128, MathError>(MathError::DivisionByZero),
        denominator != 0 ==> {
            let v = mul_div_value(x as int, y as int, denominator as int, rounding);
            &&& fits_i128(v) ==> res == Ok::<i128, MathError>(v as i128)
            &&& !fits_i128(v) ==> res == Err::<i128, MathError>(MathError::Overflow)
        },
{
    if denominator == 0 {
        return Err(MathError::DivisionByZero);
    }
    let ux = magnitude(x);
    let uy = magnitude(y);
    let ud = magnitude(denominator);
    let negative = ((x < 0) != (y < 0)) != (denominator < 0);
    let (hi, lo) = mul_wide(ux, uy);
    let ghost nn: int = ux as int * uy as int;
    let ghost n: int = x as int * y as int;
    let ghost dv: int = denominator as int;
    proof {
        assert(nn == abs(n)) by (nonlinear_arith)
            requires
                ux == abs(x as int),
                uy == abs(y as int),
                nn == ux * uy,
                n == x * y,
        ;
        assert(nn >= 0) by (nonlinear_arith)
            requires
                nn == ux * uy,
        ;
    }
    proof {
        lemma_sign_cases(x, y, denominator, n, nn, ud as int, negative);
    }
    if hi >= ud {
        proof {
            assert(nn >= ud as int * two128()) by (nonlinear_arith)
                requires
                    nn == hi * two128() + lo,
                    hi >= ud,
                    lo >= 0,
                    two128() > 0,
            ;
            assert(ud as int * two128() == two128() * ud as int) by (nonlinear_arith);
            lemma_div_is_ordered(two128() * ud as int, nn, ud as int);
            lemma_div_by_multiple(two128(), ud as int);
            lemma_mod_pos_bound(nn, ud as int);
        }
        return Err(MathError::Overflow);
    }
    let (q, r) = div_wide(hi, lo, ud);
    proof {
        lemma_fundamental_div_mod_converse(nn, ud as int, q as int, r as int);
    }
    if q > 0x8000_0000_0000_0000_0000_0000_0000_0000u128 {
        return Err(MathError::Overflow);
    }
    let round_away = match rounding {
        Rounding::Floor => negative,
        Rounding::Ceil => !negative,
    };
    let mag: u128 = if round_away && r > 0 {
        q + 1
    } else {
        q
    };
    if !negative {
        if mag > 0x7fff_ffff_ffff_ffff_ffff_ffff_ffff_ffffu128 {
            return Err(MathError::Overflow);
        }
        Ok(mag as i128)
    } else {
        if mag > 0x8000_0000_0000_0000_0000_0000_0000_0000u128 {
            return Err(MathError::Overflow);
        }
        if mag == 0x8000_0000_0000_0000_0000_0000_0000_0000u128 {
            Ok(i128::MIN)
        } else {
            let m: i128 = mag as i128;
            Ok(-m)
        }
    }
}

/// Relates the signed quotient to the quotient of the magnitudes.
proof fn lemma_sign_cases(x: i128, y: i128, d: i128, n: int, nn: int, dd: int, negative: bool)
    requires
        n == x as int * y as int,
        nn == abs(n),
        dd == abs(d as int),
        d != 0,
        negative == (((x < 0) != (y < 0)) != (d < 0)),
    ensures
        nn == 0 || !negative ==> div_floor(n, d as int) == nn / dd,
        nn == 0 || !negative ==> div_ceil(n, d as int) == nn / dd + (if nn % dd == 0 {
            0int
        } else {
            1int
        }),
        nn != 0 && negative ==> div_floor(n, d as int) == -(nn / dd) - (if nn % dd == 0 {
            0int
        } else {
            1int
        }),
        nn != 0 && negative ==> div_ceil(n, d as int) == -(nn / dd),
{
    assert(dd > 0);
    assert(nn >= 0);
    if nn != 0 {
        assert(x != 0 && y != 0) by (nonlinear_arith)
            requires
                n == x * y,
                nn == abs(n),
                nn != 0,
        ;
        assert((n < 0) == ((x < 0) != (y < 0))) by (nonlinear_arith)
            requires
                n == x * y,
                x != 0,
                y != 0,
        ;
    }
    lemma_neg_div(nn, dd);
    if nn == 0 {
        assert(n == 0);
        lemma_div_of0_local(dd);
    }
}

proof fn lemma_div_of0_local(dd: int)
    requires
        dd > 0,
    ensures
        0int / dd == 0,
        0int % dd == 0,
        (-0int) / dd == 0,
{
    lemma_small_div_converse_local(dd);
}

proof fn lemma_small_div_converse_local(dd: int)
    requires
        dd > 0,
    ensures
        0int / dd == 0,
        0int % dd == 0,
{
    lemma_fundamental_div_mod_converse(0, dd, 0, 0);
}

} // verus!
