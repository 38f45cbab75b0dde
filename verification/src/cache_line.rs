//! A wrapper marking state that lives in a cache line of its own.
//!
//! The concurrent layout gives every hot variable its own cache line to
//! prevent false sharing between CPUs. The wrapper carries that intent in the
//! types; placement itself is the embedding's affair.

use vstd::prelude::*;

verus! {

/// Marks a variable as deserving a cache line of its own.
///
/// False sharing is when two threads access different variables that live in
/// the same cache line and at least one access is a write; the line then
/// bounces between cores. Variables wrapped in this type are meant to be kept
/// apart.
pub struct CacheLineAligned<T>(pub T);

impl<T> From<T> for CacheLineAligned<T> {
    fn from(v: T) -> (r: Self)
        ensures
            r == CacheLineAligned(v),
    {
        CacheLineAligned(v)
    }
}

impl<T> vstd::std_specs::convert::FromSpecImpl<T> for CacheLineAligned<T> {
    open spec fn obeys_from_spec() -> bool {
        true
    }

    open spec fn from_spec(v: T) -> Self {
        CacheLineAligned(v)
    }
}

} // verus!
