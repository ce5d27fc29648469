//! A fixed-point scalar: a number held as a 64-bit integer that counts
//! steps of `2^-32`.
//!
//! It is the scalar whose arithmetic is verified here from end to end. Every
//! operation is total: a result outside the range is held at the nearest end
//! of the range, a quotient by zero at the end that has the sign of the
//! dividend, and the root of a negative number is zero. Quotients are
//! rounded toward zero and roots down.

use vstd::prelude::*;
use crate::scalar::Scalar;

verus! {

/// The raw value of the number one: `2^32`.
pub const ONE: i64 = 0x1_0000_0000;

/// The number `raw / 2^32`.
#[derive(Debug, Copy, Clone, PartialEq, Eq, Structural)]
pub struct Fixed {
    pub raw: i64,
}

/// `x`, held within the range of a 64-bit signed integer.
pub open spec fn saturate(x: int) -> i64 {
    if x < i64::MIN {
        i64::MIN
    } else if x > i64::MAX {
        i64::MAX
    } else {
        x as i64
    }
}

/// The magnitude of `x`.
pub open spec fn absolute(x: int) -> int {
    if x < 0 {
        -x
    } else {
        x
    }
}

/// The quotient of `x` by `y`, rounded toward zero: the quotient of the
/// magnitudes, with the sign of the fraction. It is meant for a `y` other
/// than zero.
pub open spec fn toward_zero(x: int, y: int) -> int {
    if y > 0 {
        if x >= 0 {
            x / y
        } else {
            -((-x) / y)
        }
    } else {
        if x >= 0 {
            -(x / (-y))
        } else {
            (-x) / (-y)
        }
    }
}

/// A quotient rounded toward zero, times the divisor, misses the dividend
/// by less than the divisor, and lies between zero and the dividend.
pub proof fn lemma_toward_zero(x: int, y: int)
    requires
        y > 0,
    ensures
        -y < x - toward_zero(x, y) * y < y,
        absolute(toward_zero(x, y)) * y <= absolute(x),
{
    if x >= 0 {
        vstd::arithmetic::div_mod::lemma_fundamental_div_mod(x, y);
        vstd::arithmetic::div_mod::lemma_mod_bound(x, y);
        vstd::arithmetic::div_mod::lemma_div_pos_is_pos(x, y);
        let q = toward_zero(x, y);
        assert(q * y == y * (x / y) && absolute(q) * y == q * y) by (nonlinear_arith)
            requires
                q == x / y,
                q >= 0,
                absolute(q) == q,
        ;
    } else {
        vstd::arithmetic::div_mod::lemma_fundamental_div_mod(-x, y);
        vstd::arithmetic::div_mod::lemma_mod_bound(-x, y);
        vstd::arithmetic::div_mod::lemma_div_pos_is_pos(-x, y);
        let q = toward_zero(x, y);
        assert(q * y == -(y * ((-x) / y)) && absolute(q) * y == -(q * y)) by (nonlinear_arith)
            requires
                q == -((-x) / y),
                q <= 0,
                absolute(q) == -q,
        ;
    }
}

/// Whether `r` is the square root of `n`, rounded down.
pub open spec fn is_floor_sqrt(n: nat, r: nat) -> bool {
    r * r <= n < (r + 1) * (r + 1)
}

/// The square root of `n`, rounded down.
pub open spec fn floor_sqrt(n: nat) -> nat {
    choose|r: nat| is_floor_sqrt(n, r)
}

/// Only one number has its square at or below `n` and the square of its
/// successor above: the root of `n`, rounded down.
pub proof fn lemma_floor_sqrt_unique(n: nat, r: nat)
    requires
        is_floor_sqrt(n, r),
    ensures
        floor_sqrt(n) == r,
{
    let s = floor_sqrt(n);
    assert(is_floor_sqrt(n, s));
    if s < r {
        assert((s + 1) * (s + 1) <= r * r) by (nonlinear_arith)
            requires
                s + 1 <= r,
        ;
    }
    if r < s {
        assert((r + 1) * (r + 1) <= s * s) by (nonlinear_arith)
            requires
                r + 1 <= s,
        ;
    }
}

/// Every number has a square root, rounded down.
pub proof fn lemma_floor_sqrt_exists(n: nat)
    ensures
        is_floor_sqrt(n, floor_sqrt(n)),
    decreases n,
{
    if n == 0 {
        assert(is_floor_sqrt(0, 0)) by (nonlinear_arith);
    } else {
        lemma_floor_sqrt_exists((n - 1) as nat);
        let r = floor_sqrt((n - 1) as nat);
        if (r + 1) * (r + 1) <= n {
            assert((r + 1) * (r + 1) < (r + 2) * (r + 2)) by (nonlinear_arith);
            assert(is_floor_sqrt(n, r + 1));
        } else {
            assert(is_floor_sqrt(n, r));
        }
    }
}

fn saturated(x: i128) -> (r: i64)
    ensures
        r == saturate(x as int),
{
    if x < i64::MIN as i128 {
        i64::MIN
    } else if x > i64::MAX as i128 {
        i64::MAX
    } else {
        x as i64
    }
}

/// The square root of `n`, rounded down, found by bisection.
fn root(n: u128) -> (r: u128)
    requires
        n < 0x1_0000_0000_0000_0000_0000_0000,
    ensures
        r == floor_sqrt(n as nat),
        r < 0x1_0000_0000_0000,
{
    let mut low: u128 = 0;
    let mut high: u128 = 0x1_0000_0000_0000;
    while high - low > 1
        invariant
            low < high <= 0x1_0000_0000_0000,
            low * low <= n < high * high,
        decreases high - low,
    {
        let middle = low + (high - low) / 2;
        assert(middle * middle <= 0x1_0000_0000_0000 * 0x1_0000_0000_0000) by (nonlinear_arith)
            requires
                middle <= 0x1_0000_0000_0000,
        ;
        if middle * middle <= n {
            low = middle;
        } else {
            high = middle;
        }
    }
    proof {
        lemma_floor_sqrt_unique(n as nat, low as nat);
    }
    low
}

impl Fixed {
    /// The whole number `n`.
    pub fn from_int(n: i32) -> (r: Fixed)
        ensures
            r.raw == n * ONE,
    {
        Fixed { raw: (n as i64) * ONE }
    }
}

impl Scalar for Fixed {
    open spec fn zero_spec() -> Fixed {
        Fixed { raw: 0 }
    }

    open spec fn one_spec() -> Fixed {
        Fixed { raw: ONE }
    }

    /// The smallest step: `2^-32`.
    open spec fn epsilon_spec() -> Fixed {
        Fixed { raw: 1 }
    }

    open spec fn add_spec(self, rhs: Fixed) -> Fixed {
        Fixed { raw: saturate(self.raw + rhs.raw) }
    }

    open spec fn sub_spec(self, rhs: Fixed) -> Fixed {
        Fixed { raw: saturate(self.raw - rhs.raw) }
    }

    open spec fn mul_spec(self, rhs: Fixed) -> Fixed {
        Fixed { raw: saturate(toward_zero(self.raw * rhs.raw, ONE as int)) }
    }

    open spec fn div_spec(self, rhs: Fixed) -> Fixed {
        if rhs.raw == 0 {
            Fixed {
                raw: if self.raw < 0 {
                    i64::MIN
                } else {
                    i64::MAX
                },
            }
        } else {
            Fixed { raw: saturate(toward_zero(self.raw * ONE, rhs.raw as int)) }
        }
    }

    open spec fn neg_spec(self) -> Fixed {
        Fixed { raw: saturate(-self.raw) }
    }

    open spec fn abs_spec(self) -> Fixed {
        Fixed {
            raw: if self.raw < 0 {
                saturate(-self.raw)
            } else {
                self.raw
            },
        }
    }

    open spec fn sqrt_spec(self) -> Fixed {
        if self.raw <= 0 {
            Fixed { raw: 0 }
        } else {
            Fixed { raw: floor_sqrt((self.raw * ONE) as nat) as i64 }
        }
    }

    open spec fn lt_spec(self, rhs: Fixed) -> bool {
        self.raw < rhs.raw
    }

    open spec fn eq_spec(self, rhs: Fixed) -> bool {
        self.raw == rhs.raw
    }

    fn zero() -> Fixed {
        Fixed { raw: 0 }
    }

    fn one() -> Fixed {
        Fixed { raw: ONE }
    }

    fn epsilon() -> Fixed {
        Fixed { raw: 1 }
    }

    fn add(self, rhs: Fixed) -> Fixed {
        Fixed { raw: saturated(self.raw as i128 + rhs.raw as i128) }
    }

    fn sub(self, rhs: Fixed) -> Fixed {
        Fixed { raw: saturated(self.raw as i128 - rhs.raw as i128) }
    }

    fn mul(self, rhs: Fixed) -> Fixed {
        let a = self.raw as i128;
        let b = rhs.raw as i128;
        assert(-0x4000_0000_0000_0000_0000_0000_0000_0000 <= a * b
            <= 0x4000_0000_0000_0000_0000_0000_0000_0000) by (nonlinear_arith)
            requires
                -0x8000_0000_0000_0000 <= a < 0x8000_0000_0000_0000,
                -0x8000_0000_0000_0000 <= b < 0x8000_0000_0000_0000,
        ;
        Fixed { raw: saturated((a * b) / (ONE as i128)) }
    }

    fn div(self, rhs: Fixed) -> Fixed {
        if rhs.raw == 0 {
            if self.raw < 0 {
                Fixed { raw: i64::MIN }
            } else {
                Fixed { raw: i64::MAX }
            }
        } else {
            let a = self.raw as i128;
            assert(-0x8000_0000_0000_0000_0000_0000 <= a * ONE < 0x8000_0000_0000_0000_0000_0000)
                by (nonlinear_arith)
                requires
                    -0x8000_0000_0000_0000 <= a < 0x8000_0000_0000_0000,
                    ONE == 0x1_0000_0000,
            ;
            let scaled = a * ONE as i128;
            let d = rhs.raw as i128;
            let q = if d < 0 {
                (-scaled) / (-d)
            } else {
                scaled / d
            };
            Fixed { raw: saturated(q) }
        }
    }

    fn neg(self) -> Fixed {
        Fixed { raw: saturated(-(self.raw as i128)) }
    }

    fn abs(self) -> Fixed {
        if self.raw < 0 {
            Fixed { raw: saturated(-(self.raw as i128)) }
        } else {
            self
        }
    }

    fn sqrt(self) -> Fixed {
        if self.raw <= 0 {
            Fixed { raw: 0 }
        } else {
            Fixed { raw: root(self.raw as u128 * ONE as u128) as i64 }
        }
    }

    fn lt(self, rhs: Fixed) -> bool {
        self.raw < rhs.raw
    }

    fn eq(self, rhs: Fixed) -> bool {
        self.raw == rhs.raw
    }
}

} // verus!
