//! Process snapshot entries.

use crate::cpu_usage::CpuUsage;
use vstd::prelude::*;
use vstd::seq_lib::to_multiset_insert;

verus! {

/// One process as the operating system reported it at the time of a snapshot.
#[derive(Clone, Debug, PartialEq, Eq)]
pub struct ProcessInfo {
    /// The platform's identifier of the process. The platform may hand it to
    /// another process once this one has exited.
    pub pid: u32,
    /// The name of the executable.
    pub name: String,
    /// The CPU utilisation sample.
    pub cpu_usage: CpuUsage,
    /// Resident memory, in bytes.
    pub memory_usage: u64,
}

/// What a [`ProcessInfo`] holds, with the name as a sequence of characters.
pub struct ProcessInfoView {
    pub pid: u32,
    pub name: Seq<char>,
    pub cpu_usage: CpuUsage,
    pub memory_usage: u64,
}

impl View for ProcessInfo {
    type V = ProcessInfoView;

    open spec fn view(&self) -> ProcessInfoView {
        ProcessInfoView {
            pid: self.pid,
            name: self.name@,
            cpu_usage: self.cpu_usage,
            memory_usage: self.memory_usage,
        }
    }
}

/// The entries of a listing as plain values, in the listing's order.
pub open spec fn entry_views(listing: Seq<ProcessInfo>) -> Seq<ProcessInfoView> {
    listing.map_values(|entry: ProcessInfo| entry@)
}

/// Two listings of the same entries hold the same plain values.
pub proof fn lemma_views_of_same_entries(first: Seq<ProcessInfo>, second: Seq<ProcessInfo>)
    requires
        first.to_multiset() == second.to_multiset(),
    ensures
        entry_views(first).to_multiset() == entry_views(second).to_multiset(),
    decreases first.len(),
{
    first.to_multiset_ensures();
    second.to_multiset_ensures();
    if first.len() == 0 {
        assert(entry_views(first) =~= entry_views(second));
    } else {
        let entry = first.last();
        assert(first.contains(entry));
        assert(second.to_multiset().count(entry) > 0);
        assert(second.contains(entry));
        let at = choose|at: int| 0 <= at < second.len() && second[at] == entry;
        let first_rest = first.drop_last();
        let second_rest = second.remove(at);
        assert(first_rest.to_multiset() =~= second_rest.to_multiset()) by {
            assert(first =~= first_rest.push(entry));
            first_rest.to_multiset_ensures();
            assert(first_rest.to_multiset() =~= first.to_multiset().remove(entry));
        }
        lemma_views_of_same_entries(first_rest, second_rest);
        assert(entry_views(first) =~= entry_views(first_rest).push(entry@));
        assert(entry_views(second) =~= entry_views(second_rest).insert(at, entry@));
        entry_views(first_rest).to_multiset_ensures();
        to_multiset_insert(entry_views(second_rest), at, entry@);
    }
}

} // verus!
