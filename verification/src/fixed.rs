//! Fixed-point arithmetic: the number model of the simulation.
//!
//! Positions, velocities, radii and distances are signed 64-bit integers in
//! units of `1 / 2^16` of a world pixel.  Arithmetic clamps operands and
//! saturates results at the symmetric magnitude bound [`SAT`], so no
//! operation here can overflow or panic, and every result is pinned exactly
//! by its contract.

use vstd::prelude::*;

verus! {

/// The number of fractional bits of a fixed-point value.
pub const FP_SHIFT: u32 = 16;

/// The fixed-point image of one world pixel.
pub const FP_ONE: i64 = 0x1_0000;

/// The saturation bound of all fixed-point arithmetic.  It is kept below
/// `2^62` so that a squared distance between any two clamped points fits
/// 128 bits exactly.
pub const SAT: i64 = 0x3FFF_FFFF_FFFF_FFFF;

/// Truncating (round toward zero) division, the way machine division
/// behaves; `b` must be positive.
pub open spec fn tdiv(a: int, b: int) -> int {
    if a >= 0 {
        a / b
    } else {
        -((-a) / b)
    }
}

/// Clamp to the symmetric saturation range.
pub open spec fn sat64(x: int) -> int {
    if x > SAT as int {
        SAT as int
    } else if x < -(SAT as int) {
        -(SAT as int)
    } else {
        x
    }
}

/// The magnitude of a value.
pub open spec fn mag_of(a: int) -> int {
    if a >= 0 {
        a
    } else {
        -a
    }
}

/// Clamp a raw value into the saturation range.
pub fn fp_clamp(a: i64) -> (r: i64)
    ensures
        r as int == sat64(a as int),
{
    if a > SAT {
        SAT
    } else if a < -SAT {
        -SAT
    } else {
        a
    }
}

/// The magnitude of the clamped value.
pub fn fp_abs(a: i64) -> (r: u64)
    ensures
        r == mag_of(sat64(a as int)),
{
    let c = fp_clamp(a);
    if c < 0 {
        (-c) as u64
    } else {
        c as u64
    }
}

/// Rebuild a signed value from a sign and a magnitude, saturating.
fn from_sign_mag(neg: bool, mag: u128) -> (r: i64)
    ensures
        neg ==> r as int == sat64(-(mag as int)),
        !neg ==> r as int == sat64(mag as int),
{
    if mag > SAT as u128 {
        if neg {
            -SAT
        } else {
            SAT
        }
    } else {
        if neg {
            -(mag as i64)
        } else {
            mag as i64
        }
    }
}

/// Saturating addition.
pub fn fp_add(a: i64, b: i64) -> (r: i64)
    ensures
        r as int == sat64(a + b),
{
    let big: i128 = a as i128 + b as i128;
    if big > SAT as i128 {
        SAT
    } else if big < -(SAT as i128) {
        -SAT
    } else {
        big as i64
    }
}

/// Saturating subtraction.
pub fn fp_sub(a: i64, b: i64) -> (r: i64)
    ensures
        r as int == sat64(a - b),
{
    let big: i128 = a as i128 - b as i128;
    if big > SAT as i128 {
        SAT
    } else if big < -(SAT as i128) {
        -SAT
    } else {
        big as i64
    }
}

/// Saturating negation.
pub fn fp_neg(a: i64) -> (r: i64)
    ensures
        r as int == sat64(-(a as int)),
{
    if a > SAT {
        -SAT
    } else if a < -SAT {
        SAT
    } else {
        -a
    }
}

/// Magnitudes multiply and signs combine as usual.
proof fn lemma_mul_sign(x: int, y: int)
    ensures
        mag_of(x * y) == mag_of(x) * mag_of(y),
        x >= 0 && y >= 0 ==> x * y >= 0,
        x <= 0 && y <= 0 ==> x * y >= 0,
        x >= 0 && y <= 0 ==> x * y <= 0,
        x <= 0 && y >= 0 ==> x * y <= 0,
{
    assert(mag_of(x * y) == mag_of(x) * mag_of(y) && (x >= 0 && y >= 0 ==> x * y >= 0) && (x <= 0
        && y <= 0 ==> x * y >= 0) && (x >= 0 && y <= 0 ==> x * y <= 0) && (x <= 0 && y >= 0 ==> x
        * y <= 0)) by (nonlinear_arith);
}

/// Truncating toward zero agrees with dividing the magnitude.
proof fn lemma_tdiv_mag(v: int, d: int, neg: bool, m: int)
    requires
        d > 0,
        m == mag_of(v),
        neg ==> v <= 0,
        !neg ==> v >= 0,
    ensures
        neg ==> tdiv(v, d) == -(m / d),
        !neg ==> tdiv(v, d) == m / d,
{
    if v == 0 {
        assert(0int / d == 0) by (nonlinear_arith)
            requires
                d > 0,
        ;
    }
}

/// The fixed-point product `a * b / 2^16`, truncated toward zero and
/// saturated.
pub fn fp_mul(a: i64, b: i64) -> (r: i64)
    ensures
        r as int == sat64(tdiv(sat64(a as int) * sat64(b as int), FP_ONE as int)),
{
    let neg: bool = (a < 0) != (b < 0);
    let ma: u128 = fp_abs(a) as u128;
    let mb: u128 = fp_abs(b) as u128;
    proof {
        assert(ma * mb <= u128::MAX) by (nonlinear_arith)
            requires
                ma <= 0x4000_0000_0000_0000u128,
                mb <= 0x4000_0000_0000_0000u128,
        ;
    }
    let prod: u128 = (ma * mb) / 0x1_0000;
    proof {
        let sa = sat64(a as int);
        let sb = sat64(b as int);
        lemma_mul_sign(sa, sb);
        lemma_tdiv_mag(sa * sb, FP_ONE as int, neg, (ma * mb) as int);
    }
    from_sign_mag(neg, prod)
}

/// The value `a * num / den`, truncated toward zero and saturated; for
/// damping factors and tick scaling.
pub fn fp_muldiv(a: i64, num: u32, den: u32) -> (r: i64)
    requires
        den > 0,
    ensures
        r as int == sat64(tdiv(sat64(a as int) * num, den as int)),
{
    let neg: bool = a < 0;
    let ma: u128 = fp_abs(a) as u128;
    proof {
        assert(ma * (num as u128) <= u128::MAX) by (nonlinear_arith)
            requires
                ma <= 0x4000_0000_0000_0000u128,
                num <= 0xFFFF_FFFFu32,
        ;
    }
    let prod: u128 = (ma * num as u128) / den as u128;
    proof {
        let sa = sat64(a as int);
        lemma_mul_sign(sa, num as int);
        lemma_tdiv_mag(sa * (num as int), den as int, neg, (ma * (num as u128)) as int);
    }
    from_sign_mag(neg, prod)
}

/// The squared Euclidean distance between two clamped fixed-point points.
pub open spec fn spec_dist2(ax: int, ay: int, bx: int, by: int) -> int {
    (bx - ax) * (bx - ax) + (by - ay) * (by - ay)
}

/// The magnitude of `a - b` for `b <= a`, exactly.
fn fp_sub_mag(a: i64, b: i64) -> (r: u64)
    requires
        b <= a,
    ensures
        r == sat64(a as int) - sat64(b as int),
{
    let sa = fp_clamp(a);
    let sb = fp_clamp(b);
    ((sa as i128) - (sb as i128)) as u64
}

/// Compute the squared distance exactly; for clamped points it always fits
/// 128 bits.
pub fn dist2(ax: i64, ay: i64, bx: i64, by: i64) -> (r: u128)
    ensures
        r == spec_dist2(sat64(ax as int), sat64(ay as int), sat64(bx as int), sat64(by as int)),
{
    let dx: u128 = (if ax <= bx {
        fp_sub_mag(bx, ax)
    } else {
        fp_sub_mag(ax, bx)
    }) as u128;
    let dy: u128 = (if ay <= by {
        fp_sub_mag(by, ay)
    } else {
        fp_sub_mag(ay, by)
    }) as u128;
    proof {
        let sax = sat64(ax as int);
        let say = sat64(ay as int);
        let sbx = sat64(bx as int);
        let sby = sat64(by as int);
        assert(dx == mag_of(sbx - sax));
        assert(dy == mag_of(sby - say));
        lemma_mul_sign(sbx - sax, sbx - sax);
        lemma_mul_sign(sby - say, sby - say);
        assert(dx * dx + dy * dy <= u128::MAX) by (nonlinear_arith)
            requires
                0 <= dx < 0x8000_0000_0000_0000,
                0 <= dy < 0x8000_0000_0000_0000,
        ;
    }
    dx * dx + dy * dy
}

/// `r` is the integer square root of `n`.
pub open spec fn is_isqrt(n: int, r: int) -> bool {
    r >= 0 && r * r <= n < (r + 1) * (r + 1)
}

/// The integer square root, as a function.
pub open spec fn spec_isqrt(n: int) -> int {
    choose|r: int| is_isqrt(n, r)
}

/// At most one integer is the square root of `n`.
pub proof fn lemma_isqrt_unique(n: int, r1: int, r2: int)
    requires
        is_isqrt(n, r1),
        is_isqrt(n, r2),
    ensures
        r1 == r2,
{
    assert(r1 == r2) by (nonlinear_arith)
        requires
            r1 >= 0,
            r2 >= 0,
            r1 * r1 <= n < (r1 + 1) * (r1 + 1),
            r2 * r2 <= n < (r2 + 1) * (r2 + 1),
    ;
}

/// Compute the integer square root by bisection.
pub fn isqrt(n: u128) -> (r: u64)
    ensures
        is_isqrt(n as int, r as int),
        r as int == spec_isqrt(n as int),
{
    if n == 0 {
        proof {
            assert(is_isqrt(0, 0));
            lemma_isqrt_unique(0, 0, spec_isqrt(0));
        }
        return 0;
    }
    let mut lo: u128 = 0;
    let mut hi: u128 = 0x1_0000_0000_0000_0000;
    proof {
        assert((n as int) < 0x1_0000_0000_0000_0000 * 0x1_0000_0000_0000_0000) by (nonlinear_arith)
            requires
                n <= u128::MAX,
        ;
    }
    while lo + 1 < hi
        invariant
            0 <= lo < hi,
            hi <= 0x1_0000_0000_0000_0000,
            (lo as int) * (lo as int) <= n as int,
            (n as int) < (hi as int) * (hi as int),
        decreases hi - lo,
    {
        let mid: u128 = lo + (hi - lo) / 2;
        proof {
            assert(mid * mid < 0x1_0000_0000_0000_0000 * 0x1_0000_0000_0000_0000)
                by (nonlinear_arith)
                requires
                    0 <= mid < 0x1_0000_0000_0000_0000,
            ;
        }
        let sq: u128 = mid * mid;
        if sq <= n {
            lo = mid;
        } else {
            hi = mid;
        }
    }
    proof {
        lemma_isqrt_unique(n as int, lo as int, spec_isqrt(n as int));
    }
    lo as u64
}


/// The bit length of a non-negative integer (at least one).
pub open spec fn nbits(n: int) -> int
    decreases n, when n >= 0
{
    if n <= 1 {
        1
    } else {
        1 + nbits(n / 2)
    }
}

/// Every non-negative integer has at least one bit.
pub proof fn lemma_nbits_pos(n: int)
    requires
        n >= 0,
    ensures
        nbits(n) >= 1,
    decreases n,
{
    if n > 1 {
        lemma_nbits_pos(n / 2);
    }
}

/// A value below `2^b` has at most `b` bits.
pub proof fn lemma_nbits_bound(n: int, b: int)
    requires
        0 <= n,
        1 <= b,
        n < vstd::arithmetic::power2::pow2(b as nat),
    ensures
        nbits(n) <= b,
    decreases n,
{
    vstd::arithmetic::power2::lemma2_to64();
    if n > 1 {
        vstd::arithmetic::power2::lemma_pow2_unfold(b as nat);
        if b == 1 {
            assert(false);
        } else {
            lemma_nbits_bound(n / 2, b - 1);
        }
    }
}

/// Bit length does not shrink as the value grows.
pub proof fn lemma_nbits_monotone(m: int, n: int)
    requires
        0 <= m <= n,
    ensures
        nbits(m) <= nbits(n),
    decreases n,
{
    if m > 1 {
        vstd::arithmetic::div_mod::lemma_div_is_ordered(m, n, 2);
        lemma_nbits_monotone(m / 2, n / 2);
    } else if n > 1 {
        lemma_nbits_pos(n / 2);
    }
}

/// Normalize a magnitude of 23 bits or more down into `[2^23, 2^24)`,
/// rounding to nearest, ties to even: `round` is the bit dropped last,
/// `sticky` the disjunction of all dropped earlier.
pub open spec fn spec_shrink(mag: int, exp: int, round: bool, sticky: bool) -> (int, int)
    decreases mag, when mag >= 0
{
    if mag < 0x100_0000 {
        let m2 = if round && (sticky || mag % 2 == 1) {
            mag + 1
        } else {
            mag
        };
        if m2 == 0x100_0000 {
            (0x80_0000, exp + 1)
        } else {
            (m2, exp)
        }
    } else {
        spec_shrink(mag / 2, exp + 1, mag % 2 == 1, sticky || round)
    }
}

/// Normalize a positive magnitude of fewer than 24 bits up into
/// `[2^23, 2^24)`; doubling is exact, so no rounding happens here.
pub open spec fn spec_grow(mag: int, exp: int) -> (int, int)
    decreases 0x100_0000 - mag, when 0 < mag < 0x100_0000
{
    if mag >= 0x80_0000 {
        (mag, exp)
    } else {
        spec_grow(mag * 2, exp - 1)
    }
}

/// The IEEE 754 single-precision bit pattern of the fixed-point value
/// `m / 2^16`, rounded to nearest, ties to even.  The magnitude bound of
/// 64 bits keeps the exponent far from overflow, so the result is always
/// finite and normal.
pub open spec fn single_bits_of(m: int) -> u32 {
    if m == 0 {
        0u32
    } else {
        let sign: u32 = if m < 0 {
            0x8000_0000u32
        } else {
            0u32
        };
        let mag = mag_of(m);
        let fe = if mag >= 0x80_0000 {
            spec_shrink(mag, -16, false, false)
        } else {
            spec_grow(mag, -16)
        };
        sign | (((fe.1 + 150) as u32) << 23u32) | ((fe.0 - 0x80_0000) as u32)
    }
}

/// Execute [`spec_shrink`].
fn shrink_exec(mag: u64, exp: i32, round: bool, sticky: bool) -> (r: (u64, i32))
    requires
        0x80_0000 <= mag,
        -16 <= exp,
        exp + nbits(mag as int) <= 80,
    ensures
        (r.0 as int, r.1 as int) == spec_shrink(mag as int, exp as int, round, sticky),
        0x80_0000 <= r.0 < 0x100_0000,
        exp <= r.1 <= 81,
    decreases mag,
{
    proof {
        lemma_nbits_pos(mag as int);
    }
    if mag < 0x100_0000 {
        let m2: u64 = if round && (sticky || mag % 2 == 1) {
            mag + 1
        } else {
            mag
        };
        if m2 == 0x100_0000 {
            (0x80_0000, exp + 1)
        } else {
            (m2, exp)
        }
    } else {
        proof {
            lemma_nbits_pos(mag as int / 2);
        }
        shrink_exec(mag / 2, exp + 1, mag % 2 == 1, sticky || round)
    }
}

/// Execute [`spec_grow`].
fn grow_exec(mag: u64, exp: i32) -> (r: (u64, i32))
    requires
        0 < mag < 0x100_0000,
        exp <= 0,
        exp + nbits(mag as int) >= -15,
    ensures
        (r.0 as int, r.1 as int) == spec_grow(mag as int, exp as int),
        0x80_0000 <= r.0 < 0x100_0000,
        -40 <= r.1 <= exp,
    decreases 0x100_0000 - mag,
{
    proof {
        vstd::arithmetic::power2::lemma2_to64();
        lemma_nbits_pos(mag as int);
        lemma_nbits_bound(mag as int, 24);
    }
    if mag >= 0x80_0000 {
        (mag, exp)
    } else {
        proof {
            assert(nbits(mag as int * 2) == 1 + nbits(mag as int));
        }
        grow_exec(mag * 2, exp - 1)
    }
}

/// The wire image of a fixed-point value as an IEEE 754 single: compute
/// [`single_bits_of`].
pub fn to_single_bits(m: i64) -> (r: u32)
    ensures
        r == single_bits_of(m as int),
{
    if m == 0 {
        return 0;
    }
    let neg: bool = m < 0;
    let mag: u64 = if m == i64::MIN {
        0x8000_0000_0000_0000u64
    } else if m < 0 {
        (-m) as u64
    } else {
        m as u64
    };
    proof {
        vstd::arithmetic::power2::lemma2_to64();
        vstd::arithmetic::power2::lemma2_to64_rest();
        lemma_nbits_pos(mag as int);
        lemma_nbits_bound(mag as int, 64);
    }
    let fe: (u64, i32) = if mag >= 0x80_0000 {
        shrink_exec(mag, -16, false, false)
    } else {
        grow_exec(mag, -16)
    };
    let sign: u32 = if neg {
        0x8000_0000u32
    } else {
        0u32
    };
    let field: u32 = (fe.1 + 150) as u32;
    sign | (field << 23u32) | ((fe.0 - 0x80_0000) as u32)
}


/// Whole world pixels of a fixed-point value, truncated toward zero and
/// clamped into 32 bits.
pub open spec fn px_of(v: int) -> i32 {
    let w = tdiv(v, FP_ONE as int);
    if w > i32::MAX {
        i32::MAX
    } else if w < i32::MIN {
        i32::MIN
    } else {
        w as i32
    }
}

/// Compute [`px_of`].
pub fn to_pixels(v: i64) -> (r: i32)
    ensures
        r == px_of(v as int),
{
    let neg: bool = v < 0;
    let mag: u64 = if v == i64::MIN {
        0x8000_0000_0000_0000u64
    } else if v < 0 {
        (-v) as u64
    } else {
        v as u64
    };
    let w: u64 = mag / 0x1_0000;
    proof {
        lemma_tdiv_mag(v as int, FP_ONE as int, neg, mag as int);
    }
    if neg {
        if w > 0x8000_0000u64 {
            i32::MIN
        } else if w == 0x8000_0000u64 {
            i32::MIN
        } else {
            -(w as i32)
        }
    } else {
        if w > 0x7FFF_FFFFu64 {
            i32::MAX
        } else {
            w as i32
        }
    }
}

} // verus!
