//! Memory-management primitives for workloads that repeatedly allocate, fill,
//! and discard variable-sized batches of homogeneous records.
//!
//! The crate offers four layered reuse strategies:
//! - [`ObjectPool`]: a stack of previously used growable containers,
//! - [`FlatObjectPool`]: a flat arena with first-fit reuse of freed ranges,
//! - [`DoubleBuffer`]: a front/back swap buffer backed by an [`ObjectPool`],
//! - [`DataPointSequence`]: an append-only staged-commit history backed by a
//!   [`FlatObjectPool`].

use vstd::prelude::*;

mod data_point;
mod double_buffer;
mod flat_pool;
mod object_pool;
mod sequence;

pub use data_point::DataPoint;
pub use double_buffer::DoubleBuffer;
pub use flat_pool::FlatObjectPool;
pub use object_pool::ObjectPool;
pub use sequence::DataPointSequence;

verus! {

/// Holds exactly on the values that the type's `Default::default` is
/// specified to return. For a type whose `default` has a contract this pins
/// the value down (for integers it is zero); for an opaque element type it
/// still identifies all cleared slots with one another.
pub open spec fn is_default_value<T: Default>(v: T) -> bool {
    call_ensures(T::default, (), v)
}

/// Add two numbers together.
pub fn add(left: u64, right: u64) -> (r: u64)
    requires
        left + right <= u64::MAX,
    ensures
        r == left + right,
{
    left + right
}

} // verus!
