//! Casts between integer types that never lose information.

use vstd::prelude::*;

verus! {

/// A cast between integers that is always exact.
///
/// `as` can cast a `u64` to a `u32` and lose the high bits; an impl of this
/// trait exists only where the target type holds every value of the source.
pub trait CastFrom<T>: Sized {
    /// The value that the cast produces.
    spec fn cast_spec(from: T) -> Self;

    fn cast_from(from: T) -> (r: Self)
        ensures
            r == Self::cast_spec(from),
    ;
}

impl CastFrom<u16> for u32 {
    open spec fn cast_spec(from: u16) -> u32 {
        from as u32
    }

    fn cast_from(from: u16) -> (r: u32) {
        from as u32
    }
}

impl CastFrom<u16> for usize {
    open spec fn cast_spec(from: u16) -> usize {
        from as usize
    }

    fn cast_from(from: u16) -> (r: usize) {
        from as usize
    }
}

impl CastFrom<u32> for u64 {
    open spec fn cast_spec(from: u32) -> u64 {
        from as u64
    }

    fn cast_from(from: u32) -> (r: u64) {
        from as u64
    }
}

impl CastFrom<u32> for usize {
    open spec fn cast_spec(from: u32) -> usize {
        from as usize
    }

    fn cast_from(from: u32) -> (r: usize) {
        from as usize
    }
}

impl CastFrom<i32> for i64 {
    open spec fn cast_spec(from: i32) -> i64 {
        from as i64
    }

    fn cast_from(from: i32) -> (r: i64) {
        from as i64
    }
}

impl CastFrom<u64> for u64 {
    open spec fn cast_spec(from: u64) -> u64 {
        from
    }

    fn cast_from(from: u64) -> (r: u64) {
        from
    }
}

} // verus!
