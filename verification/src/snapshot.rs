//! Snapshots of the operating system's process table.
//!
//! The table is read by the `sysinfo` crate. What it loaded is handed over
//! entry by entry and ranked here.

use crate::cpu_usage::CpuUsage;
use crate::process::{entry_views, lemma_views_of_same_entries, ProcessInfo, ProcessInfoView};
use crate::ranking::{rank_by_cpu_usage, ranked};
use sysinfo::System;
use vstd::multiset::Multiset;
use vstd::prelude::*;

verus! {

/// `sysinfo::System`, which holds the process table as it was last loaded.
#[verifier::external_type_specification]
#[verifier::external_body]
pub struct ExSystem(sysinfo::System);

/// The processes that `system` holds: one entry for each process of
/// `System::processes`, in no order.
pub uninterp spec fn loaded_processes(system: System) -> Multiset<ProcessInfoView>;

/// `System::new` makes a system with nothing loaded. Nothing is claimed of it.
pub assume_specification[ sysinfo::System::new ]() -> (system: System)
;

/// `System::refresh_processes` loads the process table anew from the
/// operating system. What it finds there is not known beforehand, so nothing
/// is claimed of the system afterwards.
pub assume_specification[ sysinfo::System::refresh_processes ](system: &mut System)
;

/// Hands out the processes that `System::processes` holds, each with the
/// identifier from `Pid::as_u32`, the name from `Process::name`, the sample
/// from `Process::cpu_usage` as its bit pattern and the resident memory from
/// `Process::memory`. The claim is that these entries, in whatever order the
/// table was walked, are the processes that the system holds.
#[verifier::external_body]
fn loaded_entries(system: &System) -> (entries: Vec<ProcessInfo>)
    ensures
        entry_views(entries@).to_multiset() == loaded_processes(*system),
{
    system.processes().iter().map(
        |(pid, process)| ProcessInfo {
            pid: pid.as_u32(),
            name: process.name().to_string(),
            cpu_usage: CpuUsage::from_bits(process.cpu_usage().to_bits()),
            memory_usage: process.memory(),
        },
    ).collect()
}

/// Lists the processes that `system` has loaded, ranked by CPU usage with the
/// largest first.
///
/// The listing has one entry for each loaded process and no other, so it is
/// empty when nothing is loaded.
pub fn ranked_processes(system: &System) -> (listing: Vec<ProcessInfo>)
    ensures
        ranked(listing@),
        entry_views(listing@).to_multiset() == loaded_processes(*system),
        listing@.len() == loaded_processes(*system).len(),
        forall|k: int|
            0 <= k < listing@.len() ==> loaded_processes(*system).contains(
                (#[trigger] listing@[k])@,
            ),
{
    let mut listing = loaded_entries(system);
    let ghost handed = listing@;
    rank_by_cpu_usage(&mut listing);
    proof {
        lemma_views_of_same_entries(handed, listing@);
        entry_views(listing@).to_multiset_ensures();
        assert forall|k: int| 0 <= k < listing@.len() implies loaded_processes(
            *system,
        ).contains((#[trigger] listing@[k])@) by {
            assert(entry_views(listing@)[k] == listing@[k]@);
            assert(entry_views(listing@).contains(listing@[k]@));
        }
    }
    listing
}

/// Takes a fresh snapshot of the running processes and lists them ranked by
/// CPU usage, largest first.
///
/// Each call reads the process table anew, so two calls may list different
/// processes. The call always succeeds: a process that the operating system
/// does not show is left out, and no process at all gives an empty listing.
/// What is listed is the whole table of the system that was loaded for the
/// call: each of its processes once, and nothing else.
pub fn get_processes() -> (outcome: Result<Vec<ProcessInfo>, String>)
    ensures
        outcome matches Ok(listing) && ranked(listing@) && lists_a_loaded_table(listing@),
{
    let mut system = System::new();
    system.refresh_processes();
    let listing = ranked_processes(&system);
    assert(entry_views(listing@).to_multiset() == loaded_processes(system));
    Ok(listing)
}

/// The listing holds the processes that some system has loaded: each of them
/// once, and nothing else.
pub open spec fn lists_a_loaded_table(listing: Seq<ProcessInfo>) -> bool {
    exists|system: System|
        entry_views(listing).to_multiset() == #[trigger] loaded_processes(system)
}

} // verus!
