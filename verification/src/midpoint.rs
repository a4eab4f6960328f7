//! Midpoint placement policies: a pure function from two edge endpoints to
//! the position placed on the split edge. The subdivision engine is agnostic
//! to the policy; this seam lets the same algorithm serve flat refinement and
//! projected (geodesic) refinement.

use vstd::prelude::*;
use crate::half_edge::Position;

verus! {

/// A pure, deterministic midpoint placement policy.
///
/// `midpoint_spec` is the policy's mathematical meaning; the executable
/// `midpoint` must return exactly that value, which is what makes a whole
/// subdivision step a function of the input mesh and the policy alone.
pub trait MidpointPolicy: Sized {
    /// The value placed on the edge from `a` to `b`.
    spec fn midpoint_spec(&self, a: Position, b: Position) -> Position;

    /// Computes the midpoint of the segment from `a` to `b`.
    fn midpoint(&self, a: &Position, b: &Position) -> (r: Position)
        ensures
            r == self.midpoint_spec(*a, *b),
    ;
}

/// The floor of the average of two coordinates, exact on even sums.
pub open spec fn mid_coordinate(a: int, b: int) -> int {
    (a + b) / 2
}

/// Floor of `(a + b) / 2`, computed without overflow via a widening sum.
pub fn mid_coordinate_exec(a: i64, b: i64) -> (r: i64)
    ensures
        r as int == mid_coordinate(a as int, b as int),
{
    let s: i128 = a as i128 + b as i128;
    if s >= 0 {
        (s / 2) as i64
    } else {
        let t: i128 = -s;
        let q: i128 = -((t + 1) / 2);
        proof {
            vstd::arithmetic::div_mod::lemma_fundamental_div_mod(t + 1, 2);
            vstd::arithmetic::div_mod::lemma_fundamental_div_mod_converse(
                s as int,
                2,
                q as int,
                s - 2 * q,
            );
        }
        q as i64
    }
}

/// The floor of the square root of `n`.
pub open spec fn isqrt_spec(n: nat) -> nat
    decreases n,
{
    if n == 0 {
        0
    } else {
        let r = isqrt_spec((n - 1) as nat);
        if (r + 1) * (r + 1) <= n {
            r + 1
        } else {
            r
        }
    }
}

/// `isqrt_spec(n)` is the unique value whose square brackets `n`.
pub proof fn lemma_isqrt_spec_bracket(n: nat)
    ensures
        isqrt_spec(n) * isqrt_spec(n) <= n,
        n < (isqrt_spec(n) + 1) * (isqrt_spec(n) + 1),
    decreases n,
{
    if n > 0 {
        lemma_isqrt_spec_bracket((n - 1) as nat);
        let r = isqrt_spec((n - 1) as nat);
        if (r + 1) * (r + 1) <= n {
            assert(isqrt_spec(n) == r + 1);
            assert(n == (r + 1) * (r + 1));
            let s = isqrt_spec(n);
            assert(n < (s + 1) * (s + 1)) by (nonlinear_arith)
                requires
                    n == (r + 1) * (r + 1),
                    s == r + 1,
            ;
        } else {
            assert(isqrt_spec(n) == r);
            let s = isqrt_spec(n);
            assert(n < (s + 1) * (s + 1)) by (nonlinear_arith)
                requires
                    n < (r + 1) * (r + 1),
                    s == r,
            ;
        }
    } else {
        assert(isqrt_spec(n) == 0);
        let s = isqrt_spec(n);
        assert(n < (s + 1) * (s + 1)) by (nonlinear_arith)
            requires
                n == 0,
                s == 0,
        ;
    }
}

/// Any value whose square brackets `n` is `isqrt_spec(n)`.
pub proof fn lemma_isqrt_unique(n: nat, r: nat)
    requires
        r * r <= n,
        n < (r + 1) * (r + 1),
    ensures
        r == isqrt_spec(n),
{
    lemma_isqrt_spec_bracket(n);
    let s = isqrt_spec(n);
    assert(r < s ==> (r + 1) * (r + 1) <= s * s) by (nonlinear_arith);
    assert(s < r ==> (s + 1) * (s + 1) <= r * r) by (nonlinear_arith);
}

/// Floor of the square root of a 128-bit value, by bisection.
pub fn integer_sqrt(n: u128) -> (r: u64)
    ensures
        r as nat == isqrt_spec(n as nat),
        (r as int) * (r as int) <= n as int,
        (n as int) < (r as int + 1) * (r as int + 1),
{
    let mut lo: u128 = 0;
    let mut hi: u128 = 0x1_0000_0000_0000_0000;
    proof {
        assert((0x1_0000_0000_0000_0000int) * (0x1_0000_0000_0000_0000int) > u128::MAX as int)
            by (nonlinear_arith);
    }
    while lo + 1 < hi
        invariant
            lo < hi <= 0x1_0000_0000_0000_0000,
            (lo as int) * (lo as int) <= n as int,
            (n as int) < (hi as int) * (hi as int),
        decreases hi - lo,
    {
        let mid = lo + (hi - lo) / 2;
        proof {
            assert(lo < mid < hi);
            assert((mid as int) * (mid as int) <= u128::MAX as int) by (nonlinear_arith)
                requires
                    0 <= mid < 0x1_0000_0000_0000_0000,
            ;
        }
        if mid * mid <= n {
            lo = mid;
        } else {
            hi = mid;
        }
    }
    proof {
        lemma_isqrt_unique(n as nat, lo as nat);
    }
    lo as u64
}

/// The linear (planar) midpoint policy: the componentwise floor average of
/// the two endpoints. Exact whenever each coordinate sum is even.
#[derive(Clone, Copy, Debug, PartialEq, Eq)]
pub struct LinearMidpoint;

impl MidpointPolicy for LinearMidpoint {
    open spec fn midpoint_spec(&self, a: Position, b: Position) -> Position {
        Position {
            x: mid_coordinate(a.x as int, b.x as int) as i64,
            y: mid_coordinate(a.y as int, b.y as int) as i64,
            z: mid_coordinate(a.z as int, b.z as int) as i64,
        }
    }

    fn midpoint(&self, a: &Position, b: &Position) -> (r: Position)
        ensures
            r == self.midpoint_spec(*a, *b),
    {
        Position {
            x: mid_coordinate_exec(a.x, b.x),
            y: mid_coordinate_exec(a.y, b.y),
            z: mid_coordinate_exec(a.z, b.z),
        }
    }
}

/// The magnitude of a coordinate, widened so that `i64::MIN` is exact.
fn coordinate_magnitude(v: i64) -> (r: u128)
    ensures
        r as int == if v >= 0 {
            v as int
        } else {
            -(v as int)
        },
{
    if v >= 0 {
        v as u128
    } else {
        (-(v as i128)) as u128
    }
}

/// `v * radius / len`, rounded toward zero; the scaling that renormalizes one
/// coordinate of a vector of length `len` onto a sphere of radius `radius`.
pub open spec fn scaled_toward_zero(v: int, radius: int, len: int) -> int {
    if v >= 0 {
        (v * radius) / len
    } else {
        -(((-v) * radius) / len)
    }
}

/// The projected (geodesic) midpoint policy: the linear midpoint of the two
/// endpoints, renormalized onto the sphere of radius `radius` about the
/// origin (componentwise, rounded toward zero). A zero linear midpoint has no
/// direction and is returned unprojected.
#[derive(Clone, Copy, Debug, PartialEq, Eq)]
pub struct ProjectedMidpoint {
    pub radius: u32,
}

impl MidpointPolicy for ProjectedMidpoint {
    open spec fn midpoint_spec(&self, a: Position, b: Position) -> Position {
        let mx = mid_coordinate(a.x as int, b.x as int);
        let my = mid_coordinate(a.y as int, b.y as int);
        let mz = mid_coordinate(a.z as int, b.z as int);
        let norm2 = mx * mx + my * my + mz * mz;
        if norm2 == 0 {
            Position { x: 0, y: 0, z: 0 }
        } else {
            let len = isqrt_spec(norm2 as nat) as int;
            Position {
                x: scaled_toward_zero(mx, self.radius as int, len) as i64,
                y: scaled_toward_zero(my, self.radius as int, len) as i64,
                z: scaled_toward_zero(mz, self.radius as int, len) as i64,
            }
        }
    }

    fn midpoint(&self, a: &Position, b: &Position) -> (r: Position)
        ensures
            r == self.midpoint_spec(*a, *b),
    {
        let mx = mid_coordinate_exec(a.x, b.x);
        let my = mid_coordinate_exec(a.y, b.y);
        let mz = mid_coordinate_exec(a.z, b.z);
        let ax = coordinate_magnitude(mx);
        let ay = coordinate_magnitude(my);
        let az = coordinate_magnitude(mz);
        proof {
            assert((ax as int) * (ax as int) == (mx as int) * (mx as int) && ax
                <= 0x8000_0000_0000_0000 && (ax as int) * (ax as int) <= (
            0x8000_0000_0000_0000u128 as int) * (0x8000_0000_0000_0000u128 as int))
                by (nonlinear_arith)
                requires
                    ax as int == if mx >= 0 {
                        mx as int
                    } else {
                        -(mx as int)
                    },
                    -0x8000_0000_0000_0000 <= mx as int && (mx as int) < 0x8000_0000_0000_0000,
            ;
            assert((ay as int) * (ay as int) == (my as int) * (my as int) && ay
                <= 0x8000_0000_0000_0000 && (ay as int) * (ay as int) <= (
            0x8000_0000_0000_0000u128 as int) * (0x8000_0000_0000_0000u128 as int))
                by (nonlinear_arith)
                requires
                    ay as int == if my >= 0 {
                        my as int
                    } else {
                        -(my as int)
                    },
                    -0x8000_0000_0000_0000 <= my as int && (my as int) < 0x8000_0000_0000_0000,
            ;
            assert((az as int) * (az as int) == (mz as int) * (mz as int) && az
                <= 0x8000_0000_0000_0000 && (az as int) * (az as int) <= (
            0x8000_0000_0000_0000u128 as int) * (0x8000_0000_0000_0000u128 as int))
                by (nonlinear_arith)
                requires
                    az as int == if mz >= 0 {
                        mz as int
                    } else {
                        -(mz as int)
                    },
                    -0x8000_0000_0000_0000 <= mz as int && (mz as int) < 0x8000_0000_0000_0000,
            ;
            assert((0x8000_0000_0000_0000u128 as int) * (0x8000_0000_0000_0000u128 as int) * 3
                < u128::MAX as int) by (nonlinear_arith);
        }
        let norm2: u128 = ax * ax + ay * ay + az * az;
        if norm2 == 0 {
            Position { x: 0, y: 0, z: 0 }
        } else {
            let len = integer_sqrt(norm2);
            proof {
                if len == 0 {
                    assert((len as int + 1) * (len as int + 1) == 1) by (nonlinear_arith)
                        requires
                            len == 0u64,
                    ;
                }
            }
            let wide_len = len as u128;
            let wide_radius = self.radius as u128;
            proof {
                lemma_scaled_bounds(ax, wide_radius, wide_len, norm2);
                lemma_scaled_bounds(ay, wide_radius, wide_len, norm2);
                lemma_scaled_bounds(az, wide_radius, wide_len, norm2);
            }
            let sx = ax * wide_radius / wide_len;
            let sy = ay * wide_radius / wide_len;
            let sz = az * wide_radius / wide_len;
            let x: i64 = if mx >= 0 {
                sx as i64
            } else {
                -(sx as i64)
            };
            let y: i64 = if my >= 0 {
                sy as i64
            } else {
                -(sy as i64)
            };
            let z: i64 = if mz >= 0 {
                sz as i64
            } else {
                -(sz as i64)
            };
            Position { x, y, z }
        }
    }
}

/// One coordinate's magnitude scales to at most the sphere radius: the
/// product fits in 128 bits and the quotient is bounded by `radius`.
proof fn lemma_scaled_bounds(av: u128, radius: u128, len: u128, norm2: u128)
    requires
        radius <= u32::MAX,
        av <= 0x8000_0000_0000_0000,
        1 <= len,
        (av as int) * (av as int) <= norm2 as int,
        (norm2 as int) < (len as int + 1) * (len as int + 1),
    ensures
        (av as int) * (radius as int) <= u128::MAX as int,
        0 <= (av as int) * (radius as int) / (len as int) <= radius as int,
{
    assert(av <= len) by (nonlinear_arith)
        requires
            (av as int) * (av as int) <= norm2 as int,
            (norm2 as int) < (len as int + 1) * (len as int + 1),
            0 <= av,
            0 <= len,
    ;
    assert((av as int) * (radius as int) <= (len as int) * (radius as int) && (av as int) * (
    radius as int) <= (0x8000_0000_0000_0000u128 as int) * (u32::MAX as int)) by (nonlinear_arith)
        requires
            av <= len,
            radius <= u32::MAX,
            av <= 0x8000_0000_0000_0000,
            0 <= radius,
    ;
    vstd::arithmetic::div_mod::lemma_div_is_ordered(
        (av as int) * (radius as int),
        (len as int) * (radius as int),
        len as int,
    );
    vstd::arithmetic::div_mod::lemma_div_multiples_vanish(radius as int, len as int);
    vstd::arithmetic::div_mod::lemma_div_pos_is_pos((av as int) * (radius as int), len as int);
    assert(0 <= (av as int) * (radius as int)) by (nonlinear_arith)
        requires
            0 <= av,
            0 <= radius,
    ;
}

} // verus!
