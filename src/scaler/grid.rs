//! Three-dimensional integer vectors on a grid.
use vstd::prelude::*;

verus! {

/// A vector of three `i64` coordinates.
#[derive(Clone, Copy, Debug, PartialEq, PartialOrd)]
pub struct IntVector3(pub [i64; 3]);

/// Whether every coordinate of the sum fits in an `i64`.
pub open spec fn sum_fits(a: [i64; 3], b: [i64; 3]) -> bool {
    &&& i64::MIN <= a@[0] + b@[0] <= i64::MAX
    &&& i64::MIN <= a@[1] + b@[1] <= i64::MAX
    &&& i64::MIN <= a@[2] + b@[2] <= i64::MAX
}

impl core::ops::Add<IntVector3> for IntVector3 {
    type Output = IntVector3;

    fn add(self, rhs: IntVector3) -> (r: IntVector3) {
        IntVector3([rhs.0[0] + self.0[0], rhs.0[1] + self.0[1], rhs.0[2] + self.0[2]])
    }
}

impl vstd::std_specs::ops::AddSpecImpl<IntVector3> for IntVector3 {
    open spec fn obeys_add_spec() -> bool {
        true
    }

    open spec fn add_req(self, rhs: IntVector3) -> bool {
        sum_fits(self.0, rhs.0)
    }

    open spec fn add_spec(self, rhs: IntVector3) -> IntVector3 {
        IntVector3(
            [
                (self.0@[0] + rhs.0@[0]) as i64,
                (self.0@[1] + rhs.0@[1]) as i64,
                (self.0@[2] + rhs.0@[2]) as i64,
            ],
        )
    }
}

/// Whether every coordinate of `rhs - lhs` fits in an `i64`.
pub open spec fn diff_fits(lhs: [i64; 3], rhs: [i64; 3]) -> bool {
    &&& i64::MIN <= rhs@[0] - lhs@[0] <= i64::MAX
    &&& i64::MIN <= rhs@[1] - lhs@[1] <= i64::MAX
    &&& i64::MIN <= rhs@[2] - lhs@[2] <= i64::MAX
}

/// `a / b` for `i64`, rounded toward zero as Rust divides.
pub open spec fn trunc_div(a: i64, b: i64) -> i64 {
    if a >= 0 {
        (a / b) as i64
    } else {
        (-((-a) / (b as int))) as i64
    }
}

/// The difference taken the other way round: coordinate `i` of
/// `a - b` is `b[i] - a[i]`.
impl core::ops::Sub<IntVector3> for IntVector3 {
    type Output = IntVector3;

    fn sub(self, rhs: IntVector3) -> (r: IntVector3) {
        IntVector3([rhs.0[0] - self.0[0], rhs.0[1] - self.0[1], rhs.0[2] - self.0[2]])
    }
}

impl vstd::std_specs::ops::SubSpecImpl<IntVector3> for IntVector3 {
    open spec fn obeys_sub_spec() -> bool {
        true
    }

    open spec fn sub_req(self, rhs: IntVector3) -> bool {
        diff_fits(self.0, rhs.0)
    }

    open spec fn sub_spec(self, rhs: IntVector3) -> IntVector3 {
        IntVector3(
            [
                (rhs.0@[0] - self.0@[0]) as i64,
                (rhs.0@[1] - self.0@[1]) as i64,
                (rhs.0@[2] - self.0@[2]) as i64,
            ],
        )
    }
}

/// Scaling by an integer.
impl core::ops::Mul<i64> for IntVector3 {
    type Output = IntVector3;

    fn mul(self, rhs: i64) -> (r: IntVector3) {
        IntVector3([self.0[0] * rhs, self.0[1] * rhs, self.0[2] * rhs])
    }
}

impl vstd::std_specs::ops::MulSpecImpl<i64> for IntVector3 {
    open spec fn obeys_mul_spec() -> bool {
        true
    }

    open spec fn mul_req(self, rhs: i64) -> bool {
        &&& i64::MIN <= self.0@[0] * rhs <= i64::MAX
        &&& i64::MIN <= self.0@[1] * rhs <= i64::MAX
        &&& i64::MIN <= self.0@[2] * rhs <= i64::MAX
    }

    open spec fn mul_spec(self, rhs: i64) -> IntVector3 {
        IntVector3(
            [(self.0@[0] * rhs) as i64, (self.0@[1] * rhs) as i64, (self.0@[2] * rhs) as i64],
        )
    }
}

/// Division of every coordinate by an integer, rounded toward zero.
impl core::ops::Div<i64> for IntVector3 {
    type Output = IntVector3;

    fn div(self, rhs: i64) -> (r: IntVector3) {
        IntVector3([self.0[0] / rhs, self.0[1] / rhs, self.0[2] / rhs])
    }
}

impl vstd::std_specs::ops::DivSpecImpl<i64> for IntVector3 {
    open spec fn obeys_div_spec() -> bool {
        true
    }

    open spec fn div_req(self, rhs: i64) -> bool {
        &&& rhs != 0
        &&& !(rhs == -1 && (self.0@[0] == i64::MIN || self.0@[1] == i64::MIN || self.0@[2]
            == i64::MIN))
    }

    open spec fn div_spec(self, rhs: i64) -> IntVector3 {
        IntVector3(
            [
                trunc_div(self.0@[0], rhs),
                trunc_div(self.0@[1], rhs),
                trunc_div(self.0@[2], rhs),
            ],
        )
    }
}

/// The squared Euclidean length of the coordinates.
pub open spec fn norm_sq(c: Seq<i64>) -> int {
    c[0] * c[0] + c[1] * c[1] + c[2] * c[2]
}

/// `|x|` as an unsigned number.
fn magnitude(x: i64) -> (r: u64)
    ensures
        r as int == if x < 0 { -x } else { x as int },
{
    if x < 0 {
        if x == i64::MIN {
            9223372036854775808u64
        } else {
            (-x) as u64
        }
    } else {
        x as u64
    }
}

/// The largest `r` with `r * r <= n`.
fn isqrt(n: u128) -> (r: u64)
    ensures
        (r as int) * (r as int) <= n,
        n < (r as int + 1) * (r as int + 1),
{
    let mut lo: u128 = 0;
    let mut hi: u128 = 18446744073709551616u128;
    proof {
        assert(n < hi * hi) by (nonlinear_arith)
            requires
                hi == 18446744073709551616u128,
                n <= u128::MAX,
        ;
    }
    while hi - lo > 1
        invariant
            lo < hi <= 18446744073709551616u128,
            lo * lo <= n,
            n < hi * hi,
        decreases hi - lo,
    {
        let mid = lo + (hi - lo) / 2;
        assert(mid < 18446744073709551616u128);
        assert(mid * mid < 340282366920938463463374607431768211456int) by (nonlinear_arith)
            requires
                mid < 18446744073709551616u128,
        ;
        if mid * mid <= n {
            lo = mid;
        } else {
            hi = mid;
        }
    }
    assert(hi == lo + 1);
    lo as u64
}

impl IntVector3 {
    pub fn x(&self) -> (r: i64)
        ensures
            r == self.0@[0],
    {
        self.0[0]
    }

    pub fn y(&self) -> (r: i64)
        ensures
            r == self.0@[1],
    {
        self.0[1]
    }

    pub fn z(&self) -> (r: i64)
        ensures
            r == self.0@[2],
    {
        self.0[2]
    }

    /// The zero vector.
    pub fn zero() -> (r: IntVector3)
        ensures
            r.0@ == seq![0i64, 0i64, 0i64],
    {
        let r = IntVector3([0i64; 3]);
        assert(r.0@ =~= seq![0i64, 0i64, 0i64]);
        r
    }

    /// The squared length, which fits in a `u128`.
    fn length_sq(&self) -> (r: u128)
        ensures
            r == norm_sq(self.0@),
    {
        let a = magnitude(self.0[0]) as u128;
        let b = magnitude(self.0[1]) as u128;
        let c = magnitude(self.0[2]) as u128;
        assert(a * a + b * b + c * c <= 3 * 9223372036854775808u128 * 9223372036854775808u128) by (nonlinear_arith)
            requires
                a <= 9223372036854775808u128,
                b <= 9223372036854775808u128,
                c <= 9223372036854775808u128,
        ;
        proof {
            let (x, y, z) = (self.0@[0] as int, self.0@[1] as int, self.0@[2] as int);
            assert(a * a == x * x) by (nonlinear_arith)
                requires
                    a == if x < 0 { -x } else { x },
            ;
            assert(b * b == y * y) by (nonlinear_arith)
                requires
                    b == if y < 0 { -y } else { y },
            ;
            assert(c * c == z * z) by (nonlinear_arith)
                requires
                    c == if z < 0 { -z } else { z },
            ;
        }
        a * a + b * b + c * c
    }

    /// The Euclidean length rounded down, saturated at `i64::MAX`.
    pub fn get_length_floor(&self) -> (r: i64)
        ensures
            r >= 0,
            (r as int) * (r as int) <= norm_sq(self.0@),
            r < i64::MAX ==> norm_sq(self.0@) < (r as int + 1) * (r as int + 1),
    {
        let s = isqrt(self.length_sq());
        if s > i64::MAX as u64 {
            assert((i64::MAX as int) * (i64::MAX as int) <= (s as int) * (s as int)) by (nonlinear_arith)
                requires
                    s > i64::MAX,
            ;
            i64::MAX
        } else {
            s as i64
        }
    }

    /// The Euclidean length rounded up, saturated at `i64::MAX`.
    pub fn get_length_ceil(&self) -> (r: i64)
        ensures
            r >= 0,
            norm_sq(self.0@) <= (r as int) * (r as int) || r == i64::MAX,
            r > 0 ==> (r as int - 1) * (r as int - 1) < norm_sq(self.0@),
    {
        let n = self.length_sq();
        let s = isqrt(n);
        let c: u128 = if (s as u128) * (s as u128) == n {
            s as u128
        } else {
            s as u128 + 1
        };
        if c > i64::MAX as u128 {
            if (s as u128) * (s as u128) == n {
                assert((i64::MAX as int - 1) * (i64::MAX as int - 1) < n) by (nonlinear_arith)
                    requires
                        s >= i64::MAX,
                        (s as int) * (s as int) == n,
                ;
            } else {
                assert((i64::MAX as int - 1) * (i64::MAX as int - 1) < n) by (nonlinear_arith)
                    requires
                        s + 1 > i64::MAX,
                        (s as int) * (s as int) <= n,
                ;
            }
            i64::MAX
        } else {
            if (s as u128) * (s as u128) == n && s > 0 {
                assert((s as int - 1) * (s as int - 1) < (s as int) * (s as int)) by (nonlinear_arith)
                    requires
                        s > 0,
                ;
            }
            c as i64
        }
    }
}

} // verus!
