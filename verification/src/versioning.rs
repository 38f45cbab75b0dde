//! Version tracking for published values.
//!
//! The container stamps every published value with a version so that a cached
//! reader can tell whether anything changed since its last read. Versioning is
//! a compile-time choice: [`VersioningU64`] keeps a real monotonic counter,
//! while [`VersioningNone`] elides versions entirely for users that never
//! layer a cache on top.

use vstd::prelude::*;

verus! {

/// A strategy for stamping published values with versions.
///
/// `Version` is the stamp carried by each published value; `AtomicVersion`
/// stands for the shared cell holding the currently published version.
pub trait Versioning: Sized {
    type Version: Copy;

    type AtomicVersion;

    /// Mathematical reading of a version stamp.
    spec fn version_nat(v: Self::Version) -> nat;

    /// The stamp a fresh container starts from.
    spec fn zero_spec() -> Self::Version;

    /// The stamp after one more write.
    spec fn inc_spec(v: Self::Version) -> Self::Version;

    /// Whether one more write can be recorded (counter headroom).
    spec fn inc_ok(v: Self::Version) -> bool;

    /// The stamp a shared version cell currently holds.
    spec fn read_spec(a: Self::AtomicVersion) -> Self::Version;

    /// Recording a write never lowers the mathematical version.
    proof fn lemma_inc_monotonic(v: Self::Version)
        requires
            Self::inc_ok(v),
        ensures
            Self::version_nat(Self::inc_spec(v)) >= Self::version_nat(v);

    fn new() -> (r: Self::Version)
        ensures
            r == Self::zero_spec(),
            Self::version_nat(r) == 0;

    fn new_atomic() -> (r: Self::AtomicVersion)
        ensures
            Self::read_spec(r) == Self::zero_spec();

    fn inc(version: Self::Version) -> (r: Self::Version)
        requires
            Self::inc_ok(version),
        ensures
            r == Self::inc_spec(version);

    fn get(version: &Self::AtomicVersion) -> (r: Self::Version)
        ensures
            r == Self::read_spec(*version);

    fn set(atomic: &mut Self::AtomicVersion, version: Self::Version)
        ensures
            Self::read_spec(*final(atomic)) == version;
}

/// Version stamp used where versioning is elided: a single valueless mark.
#[derive(Clone, Copy)]
pub struct NoVersion;

/// Versioning that elides the counter entirely.
///
/// Used where no cache sits on top of the container, so nobody ever asks
/// whether the published version moved.
pub struct VersioningNone;

impl Versioning for VersioningNone {
    type Version = NoVersion;

    type AtomicVersion = NoVersion;

    open spec fn version_nat(v: NoVersion) -> nat {
        0
    }

    open spec fn zero_spec() -> NoVersion {
        NoVersion
    }

    open spec fn inc_spec(v: NoVersion) -> NoVersion {
        NoVersion
    }

    open spec fn inc_ok(v: NoVersion) -> bool {
        true
    }

    open spec fn read_spec(a: NoVersion) -> NoVersion {
        NoVersion
    }

    proof fn lemma_inc_monotonic(v: NoVersion) {
    }

    fn new() -> NoVersion {
        NoVersion
    }

    fn new_atomic() -> NoVersion {
        NoVersion
    }

    #[inline(always)]
    fn inc(version: NoVersion) -> NoVersion {
        NoVersion
    }

    #[inline(always)]
    fn get(version: &NoVersion) -> NoVersion {
        NoVersion
    }

    #[inline(always)]
    fn set(atomic: &mut NoVersion, version: NoVersion) {
    }
}

/// Versioning with an unsigned 64-bit monotonic counter, incremented once per
/// write.
pub struct VersioningU64;

impl Versioning for VersioningU64 {
    type Version = u64;

    type AtomicVersion = u64;

    open spec fn version_nat(v: u64) -> nat {
        v as nat
    }

    open spec fn zero_spec() -> u64 {
        0
    }

    open spec fn inc_spec(v: u64) -> u64 {
        (v + 1) as u64
    }

    open spec fn inc_ok(v: u64) -> bool {
        v < u64::MAX
    }

    proof fn lemma_inc_monotonic(v: u64) {
    }

    open spec fn read_spec(a: u64) -> u64 {
        a
    }

    fn new() -> u64 {
        0
    }

    fn new_atomic() -> u64 {
        0
    }

    #[inline(always)]
    fn inc(version: u64) -> u64 {
        version + 1
    }

    #[inline(always)]
    fn get(version: &u64) -> u64 {
        *version
    }

    #[inline(always)]
    fn set(atomic: &mut u64, version: u64) {
        *atomic = version;
    }
}

/// A value paired with the version stamp it was published under.
pub struct Versioned<V: Versioning, T> {
    pub version: V::Version,
    pub value: T,
}

impl<V: Versioning, T: Clone> Clone for Versioned<V, T> {
    /// The stamp is copied exactly; the value is whatever `T::clone` yields.
    fn clone(&self) -> (r: Self)
        ensures
            r.version == self.version,
            cloned::<T>(self.value, r.value),
    {
        Versioned { version: self.version, value: self.value.clone() }
    }
}

} // verus!
