//! Restartable-sequence runtime state.
//!
//! The kernel keeps one record per thread whose `cpu_id` field always names
//! the CPU the thread is running on, and whose `rseq_cs` field points at the
//! active critical-section descriptor. If the thread is preempted, migrated
//! or takes a signal while a descriptor is active, execution resumes at the
//! descriptor's abort address instead of the interrupted instruction.
//!
//! Registering the record and probing its address are platform work done by
//! the embedding; this module holds the record layout, the per-thread caching
//! of the probed record, and the well-formedness rule the kernel imposes on
//! critical-section descriptors.

use vstd::prelude::*;

verus! {

/// A critical-section descriptor.
///
/// The kernel demands that the abort address lie outside the critical region:
/// `abort_ip < start_ip || abort_ip >= start_ip + post_commit_offset`. The
/// abort instruction stream must also be preceded by a distinguished four-byte
/// signature, which only the emitted machine code can exhibit.
#[allow(non_camel_case_types)]
#[derive(Clone, Copy, Debug, PartialEq, Eq, Structural)]
pub struct rseq_cs {
    pub version: u32,
    pub flags: u32,
    pub start_ip: u64,
    pub post_commit_offset: u64,
    pub abort_ip: u64,
}

/// The kernel-registered per-thread record.
///
/// For our purposes `cpu_id_start` and `cpu_id` hold the same value: the id
/// of the CPU the thread currently runs on. `rseq_cs` is the address of the
/// active critical-section descriptor, or zero.
#[allow(non_camel_case_types)]
#[derive(Clone, Copy, Debug, PartialEq, Eq, Structural)]
pub struct rseq {
    pub cpu_id_start: u32,
    pub cpu_id: u32,
    pub rseq_cs: u64,
    pub flags: u32,
}

/// A descriptor the kernel would accept: reserved fields zero and the abort
/// target outside the critical region.
pub open spec fn descriptor_valid_spec(cs: rseq_cs) -> bool {
    &&& cs.version == 0
    &&& cs.flags == 0
    &&& (cs.abort_ip < cs.start_ip || cs.abort_ip >= cs.start_ip + cs.post_commit_offset)
}

/// Builds a critical-section descriptor for the region
/// `[start_ip, start_ip + post_commit_offset)` aborting to `abort_ip`.
pub fn new_descriptor(start_ip: u64, post_commit_offset: u64, abort_ip: u64) -> (r: rseq_cs)
    ensures
        r == (rseq_cs { version: 0, flags: 0, start_ip, post_commit_offset, abort_ip }),
{
    rseq_cs { version: 0, flags: 0, start_ip, post_commit_offset, abort_ip }
}

/// Checks the rule the kernel imposes on a descriptor: reserved fields are
/// zero and the abort target lies outside the critical region.
pub fn descriptor_valid(cs: &rseq_cs) -> (r: bool)
    ensures
        r == descriptor_valid_spec(*cs),
{
    cs.version == 0 && cs.flags == 0 && (cs.abort_ip < cs.start_ip || (cs.abort_ip >= cs.start_ip
        && cs.abort_ip - cs.start_ip >= cs.post_commit_offset))
}

/// Returns the thread's record, probing it on first use.
///
/// `cache` is the thread's private slot; `probed` is the record address the
/// platform probe found, read once. Every later call returns the cached
/// record without probing again.
pub fn get_rseq(cache: &mut Option<rseq>, probed: rseq) -> (r: rseq)
    ensures
        match *old(cache) {
            Some(c) => r == c && *final(cache) == *old(cache),
            None => r == probed && *final(cache) == Some(probed),
        },
{
    match cache {
        Some(c) => *c,
        None => {
            *cache = Some(probed);
            probed
        },
    }
}

/// The id of the CPU the thread is running on, per its record.
pub fn get_cpu(r: &rseq) -> (c: usize)
    ensures
        c == r.cpu_id as usize,
{
    r.cpu_id as usize
}

/// Whether the kernel registered the per-thread record: the published record
/// size is zero exactly when registration failed. A caller must treat `false`
/// as fatal; the per-CPU scheme is unusable without the record.
pub fn ensure_enabled(rseq_size: usize) -> (r: bool)
    ensures
        r == (rseq_size > 0),
{
    rseq_size > 0
}

} // verus!
