//! Three-dimensional vectors over integer number types.
use vstd::prelude::*;

verus! {

/// An integer number type usable as a vector coordinate.
pub trait Number: Copy {
    /// The number zero.
    spec fn spec_zero() -> Self;

    /// Whether `a + b` is representable.
    spec fn sum_fits(a: Self, b: Self) -> bool;

    /// The value of `a + b`.
    spec fn spec_sum(a: Self, b: Self) -> Self;

    /// Whether `a - b` is representable.
    spec fn diff_fits(a: Self, b: Self) -> bool;

    /// The value of `a - b`.
    spec fn spec_diff(a: Self, b: Self) -> Self;

    /// Whether `a * b` is representable.
    spec fn product_fits(a: Self, b: Self) -> bool;

    /// The value of `a * b`.
    spec fn spec_product(a: Self, b: Self) -> Self;

    /// Whether `a / b` is defined and representable.
    spec fn quotient_ok(a: Self, b: Self) -> bool;

    /// The value of `a / b`, rounded toward zero.
    spec fn spec_quotient(a: Self, b: Self) -> Self;

    fn zero() -> (r: Self)
        ensures
            r == Self::spec_zero(),
    ;

    fn diff(a: Self, b: Self) -> (r: Self)
        requires
            Self::diff_fits(a, b),
        ensures
            r == Self::spec_diff(a, b),
    ;

    fn product(a: Self, b: Self) -> (r: Self)
        requires
            Self::product_fits(a, b),
        ensures
            r == Self::spec_product(a, b),
    ;

    fn quotient(a: Self, b: Self) -> (r: Self)
        requires
            Self::quotient_ok(a, b),
        ensures
            r == Self::spec_quotient(a, b),
    ;

    fn sum(a: Self, b: Self) -> (r: Self)
        requires
            Self::sum_fits(a, b),
        ensures
            r == Self::spec_sum(a, b),
    ;
}

impl Number for i64 {
    open spec fn diff_fits(a: Self, b: Self) -> bool {
        i64::MIN <= a - b <= i64::MAX
    }

    open spec fn spec_diff(a: Self, b: Self) -> Self {
        (a - b) as i64
    }

    open spec fn product_fits(a: Self, b: Self) -> bool {
        i64::MIN <= a * b <= i64::MAX
    }

    open spec fn spec_product(a: Self, b: Self) -> Self {
        (a * b) as i64
    }

    open spec fn quotient_ok(a: Self, b: Self) -> bool {
        b != 0 && !(a == i64::MIN && b == -1)
    }

    open spec fn spec_quotient(a: Self, b: Self) -> Self {
        if a >= 0 { (a / b) as i64 } else { (-((-a) / (b as int))) as i64 }
    }

    fn diff(a: Self, b: Self) -> (r: Self) {
        a - b
    }

    fn product(a: Self, b: Self) -> (r: Self) {
        a * b
    }

    fn quotient(a: Self, b: Self) -> (r: Self) {
        a / b
    }

    open spec fn spec_zero() -> Self {
        0
    }

    open spec fn sum_fits(a: Self, b: Self) -> bool {
        i64::MIN <= a + b <= i64::MAX
    }

    open spec fn spec_sum(a: Self, b: Self) -> Self {
        (a + b) as i64
    }

    fn zero() -> (r: Self) {
        0
    }

    fn sum(a: Self, b: Self) -> (r: Self) {
        a + b
    }
}

impl Number for i32 {
    open spec fn diff_fits(a: Self, b: Self) -> bool {
        i32::MIN <= a - b <= i32::MAX
    }

    open spec fn spec_diff(a: Self, b: Self) -> Self {
        (a - b) as i32
    }

    open spec fn product_fits(a: Self, b: Self) -> bool {
        i32::MIN <= a * b <= i32::MAX
    }

    open spec fn spec_product(a: Self, b: Self) -> Self {
        (a * b) as i32
    }

    open spec fn quotient_ok(a: Self, b: Self) -> bool {
        b != 0 && !(a == i32::MIN && b == -1)
    }

    open spec fn spec_quotient(a: Self, b: Self) -> Self {
        if a >= 0 { (a / b) as i32 } else { (-((-a) / (b as int))) as i32 }
    }

    fn diff(a: Self, b: Self) -> (r: Self) {
        a - b
    }

    fn product(a: Self, b: Self) -> (r: Self) {
        a * b
    }

    fn quotient(a: Self, b: Self) -> (r: Self) {
        a / b
    }

    open spec fn spec_zero() -> Self {
        0
    }

    open spec fn sum_fits(a: Self, b: Self) -> bool {
        i32::MIN <= a + b <= i32::MAX
    }

    open spec fn spec_sum(a: Self, b: Self) -> Self {
        (a + b) as i32
    }

    fn zero() -> (r: Self) {
        0
    }

    fn sum(a: Self, b: Self) -> (r: Self) {
        a + b
    }
}

impl Number for usize {
    open spec fn diff_fits(a: Self, b: Self) -> bool {
        0 <= a - b <= usize::MAX
    }

    open spec fn spec_diff(a: Self, b: Self) -> Self {
        (a - b) as usize
    }

    open spec fn product_fits(a: Self, b: Self) -> bool {
        0 <= a * b <= usize::MAX
    }

    open spec fn spec_product(a: Self, b: Self) -> Self {
        (a * b) as usize
    }

    open spec fn quotient_ok(a: Self, b: Self) -> bool {
        b != 0
    }

    open spec fn spec_quotient(a: Self, b: Self) -> Self {
        (a / b) as usize
    }

    fn diff(a: Self, b: Self) -> (r: Self) {
        a - b
    }

    fn product(a: Self, b: Self) -> (r: Self) {
        a * b
    }

    fn quotient(a: Self, b: Self) -> (r: Self) {
        a / b
    }

    open spec fn spec_zero() -> Self {
        0
    }

    open spec fn sum_fits(a: Self, b: Self) -> bool {
        a + b <= usize::MAX
    }

    open spec fn spec_sum(a: Self, b: Self) -> Self {
        (a + b) as usize
    }

    fn zero() -> (r: Self) {
        0
    }

    fn sum(a: Self, b: Self) -> (r: Self) {
        a + b
    }
}

/// A vector of three coordinates.
#[derive(Clone, Copy, Debug, PartialEq, PartialOrd)]
pub struct Vec3<T: Number>(pub [T; 3]);

impl<T: Number> Vec3<T> {
    pub fn x(&self) -> (r: T)
        ensures
            r == self.0@[0],
    {
        self.0[0]
    }

    pub fn y(&self) -> (r: T)
        ensures
            r == self.0@[1],
    {
        self.0[1]
    }

    pub fn z(&self) -> (r: T)
        ensures
            r == self.0@[2],
    {
        self.0[2]
    }

    /// The zero vector.
    pub fn zero() -> (r: Vec3<T>)
        ensures
            r.0@ == seq![T::spec_zero(), T::spec_zero(), T::spec_zero()],
    {
        let z = T::zero();
        let r = Vec3([z, z, z]);
        assert(r.0@ =~= seq![T::spec_zero(), T::spec_zero(), T::spec_zero()]);
        r
    }
}

impl<T: Number> core::ops::Add<Vec3<T>> for Vec3<T> {
    type Output = Vec3<T>;

    fn add(self, rhs: Vec3<T>) -> (r: Vec3<T>) {
        let a = T::sum(rhs.0[0], self.0[0]);
        let b = T::sum(rhs.0[1], self.0[1]);
        let c = T::sum(rhs.0[2], self.0[2]);
        Vec3([a, b, c])
    }
}

impl<T: Number> vstd::std_specs::ops::AddSpecImpl<Vec3<T>> for Vec3<T> {
    open spec fn obeys_add_spec() -> bool {
        true
    }

    open spec fn add_req(self, rhs: Vec3<T>) -> bool {
        &&& T::sum_fits(rhs.0@[0], self.0@[0])
        &&& T::sum_fits(rhs.0@[1], self.0@[1])
        &&& T::sum_fits(rhs.0@[2], self.0@[2])
    }

    open spec fn add_spec(self, rhs: Vec3<T>) -> Vec3<T> {
        Vec3(
            [
                T::spec_sum(rhs.0@[0], self.0@[0]),
                T::spec_sum(rhs.0@[1], self.0@[1]),
                T::spec_sum(rhs.0@[2], self.0@[2]),
            ],
        )
    }
}

/// The difference taken the other way round: coordinate `i` of `a - b`
/// is `b[i] - a[i]`.
impl<T: Number> core::ops::Sub<Vec3<T>> for Vec3<T> {
    type Output = Vec3<T>;

    fn sub(self, rhs: Vec3<T>) -> (r: Vec3<T>) {
        let a = T::diff(rhs.0[0], self.0[0]);
        let b = T::diff(rhs.0[1], self.0[1]);
        let c = T::diff(rhs.0[2], self.0[2]);
        Vec3([a, b, c])
    }
}

impl<T: Number> vstd::std_specs::ops::SubSpecImpl<Vec3<T>> for Vec3<T> {
    open spec fn obeys_sub_spec() -> bool {
        true
    }

    open spec fn sub_req(self, rhs: Vec3<T>) -> bool {
        &&& T::diff_fits(rhs.0@[0], self.0@[0])
        &&& T::diff_fits(rhs.0@[1], self.0@[1])
        &&& T::diff_fits(rhs.0@[2], self.0@[2])
    }

    open spec fn sub_spec(self, rhs: Vec3<T>) -> Vec3<T> {
        Vec3(
            [
                T::spec_diff(rhs.0@[0], self.0@[0]),
                T::spec_diff(rhs.0@[1], self.0@[1]),
                T::spec_diff(rhs.0@[2], self.0@[2]),
            ],
        )
    }
}

/// Scaling by a number of the coordinate type.
impl<T: Number> core::ops::Mul<T> for Vec3<T> {
    type Output = Vec3<T>;

    fn mul(self, rhs: T) -> (r: Vec3<T>) {
        let a = T::product(self.0[0], rhs);
        let b = T::product(self.0[1], rhs);
        let c = T::product(self.0[2], rhs);
        Vec3([a, b, c])
    }
}

impl<T: Number> vstd::std_specs::ops::MulSpecImpl<T> for Vec3<T> {
    open spec fn obeys_mul_spec() -> bool {
        true
    }

    open spec fn mul_req(self, rhs: T) -> bool {
        &&& T::product_fits(self.0@[0], rhs)
        &&& T::product_fits(self.0@[1], rhs)
        &&& T::product_fits(self.0@[2], rhs)
    }

    open spec fn mul_spec(self, rhs: T) -> Vec3<T> {
        Vec3(
            [
                T::spec_product(self.0@[0], rhs),
                T::spec_product(self.0@[1], rhs),
                T::spec_product(self.0@[2], rhs),
            ],
        )
    }
}

/// Division of every coordinate, rounded toward zero.
impl<T: Number> core::ops::Div<T> for Vec3<T> {
    type Output = Vec3<T>;

    fn div(self, rhs: T) -> (r: Vec3<T>) {
        let a = T::quotient(self.0[0], rhs);
        let b = T::quotient(self.0[1], rhs);
        let c = T::quotient(self.0[2], rhs);
        Vec3([a, b, c])
    }
}

impl<T: Number> vstd::std_specs::ops::DivSpecImpl<T> for Vec3<T> {
    open spec fn obeys_div_spec() -> bool {
        true
    }

    open spec fn div_req(self, rhs: T) -> bool {
        &&& T::quotient_ok(self.0@[0], rhs)
        &&& T::quotient_ok(self.0@[1], rhs)
        &&& T::quotient_ok(self.0@[2], rhs)
    }

    open spec fn div_spec(self, rhs: T) -> Vec3<T> {
        Vec3(
            [
                T::spec_quotient(self.0@[0], rhs),
                T::spec_quotient(self.0@[1], rhs),
                T::spec_quotient(self.0@[2], rhs),
            ],
        )
    }
}

} // verus!
