//! Merge rules: how a delta is folded into a stored value.
//!
//! A rule returns, beside the merged value, a flag that asks the column to
//! drop the entry (`true`) or to keep the merged value (`false`).
use vstd::prelude::*;

verus! {

/// A merge rule for values `V` and deltas `D`.
pub trait MergeAssign<V, D> {
    /// The merged value and the drop flag, as a function of the value and
    /// the delta.
    spec fn spec_merge(&self, value: V, delta: D) -> (V, bool);

    /// Folds `delta` into `value` in place; returns the drop flag.
    fn merge(&self, value: &mut V, delta: D) -> (drop: bool)
        ensures
            (*final(value), drop) == self.spec_merge(*old(value), delta),
    ;
}

/// The rule for columns without deltas: the value stays as it is.
#[derive(Clone, Copy, Debug)]
pub struct Identity;

impl<V> MergeAssign<V, ()> for Identity {
    open spec fn spec_merge(&self, value: V, delta: ()) -> (V, bool) {
        (value, false)
    }

    fn merge(&self, value: &mut V, delta: ()) -> (drop: bool) {
        false
    }
}

/// Integer addition, wrapping at the bounds of the type; never drops.
#[derive(Clone, Copy, Debug)]
pub struct Accumulate;

impl MergeAssign<u64, u64> for Accumulate {
    open spec fn spec_merge(&self, value: u64, delta: u64) -> (u64, bool) {
        (value.wrapping_add(delta), false)
    }

    fn merge(&self, value: &mut u64, delta: u64) -> (drop: bool) {
        *value = value.wrapping_add(delta);
        false
    }
}

impl MergeAssign<i64, i64> for Accumulate {
    open spec fn spec_merge(&self, value: i64, delta: i64) -> (i64, bool) {
        (value.wrapping_add(delta), false)
    }

    fn merge(&self, value: &mut i64, delta: i64) -> (drop: bool) {
        *value = value.wrapping_add(delta);
        false
    }
}

impl MergeAssign<u32, u32> for Accumulate {
    open spec fn spec_merge(&self, value: u32, delta: u32) -> (u32, bool) {
        (value.wrapping_add(delta), false)
    }

    fn merge(&self, value: &mut u32, delta: u32) -> (drop: bool) {
        *value = value.wrapping_add(delta);
        false
    }
}

impl MergeAssign<i32, i32> for Accumulate {
    open spec fn spec_merge(&self, value: i32, delta: i32) -> (i32, bool) {
        (value.wrapping_add(delta), false)
    }

    fn merge(&self, value: &mut i32, delta: i32) -> (drop: bool) {
        *value = value.wrapping_add(delta);
        false
    }
}

impl MergeAssign<i64, i32> for Accumulate {
    open spec fn spec_merge(&self, value: i64, delta: i32) -> (i64, bool) {
        (value.wrapping_add(delta as i64), false)
    }

    fn merge(&self, value: &mut i64, delta: i32) -> (drop: bool) {
        *value = value.wrapping_add(delta as i64);
        false
    }
}

/// Wrapping addition that drops the entry once the sum reaches `limit`.
#[derive(Clone, Copy, Debug)]
pub struct AddUntil {
    pub limit: u64,
}

impl MergeAssign<u64, u64> for AddUntil {
    open spec fn spec_merge(&self, value: u64, delta: u64) -> (u64, bool) {
        let sum = value.wrapping_add(delta);
        (sum, sum >= self.limit)
    }

    fn merge(&self, value: &mut u64, delta: u64) -> (drop: bool) {
        let sum = value.wrapping_add(delta);
        *value = sum;
        sum >= self.limit
    }
}

} // verus!
