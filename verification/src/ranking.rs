//! The ranking of process listings by CPU usage.
//!
//! A ranking puts the largest sample first. Two samples of which one is NaN
//! cannot be compared and count as equal, and entries that count as equal
//! keep the order in which they came.

use crate::cpu_usage::CpuUsage;
use crate::process::ProcessInfo;
use vstd::prelude::*;
use vstd::seq_lib::{to_multiset_contains, to_multiset_insert, to_multiset_remove};
use vstd::set_lib::{lemma_int_range, lemma_len_subset, lemma_subset_equality, set_int_range};

verus! {

/// A sample `first` may stand directly before `second` in a ranking: it is at
/// least as large, or the two cannot be compared.
pub open spec fn in_rank_order(first: CpuUsage, second: CpuUsage) -> bool {
    first.spec_ge(second) || !first.comparable(second)
}

/// Every entry but the last is in rank order with the entry after it.
pub open spec fn ranked(listing: Seq<ProcessInfo>) -> bool {
    forall|i: int|
        #![trigger listing[i]]
        0 <= i < listing.len() - 1 ==> in_rank_order(
            listing[i].cpu_usage,
            listing[i + 1].cpu_usage,
        )
}

/// `after` holds the entries of `before` in another order, and `origin[k]` is
/// the place in `before` of the entry at place `k` of `after`.
pub open spec fn reorders(
    origin: Seq<int>,
    before: Seq<ProcessInfo>,
    after: Seq<ProcessInfo>,
) -> bool {
    &&& origin.len() == before.len()
    &&& after.len() == before.len()
    &&& forall|k: int|
        0 <= k < origin.len() ==> 0 <= #[trigger] origin[k] < before.len() && after[k]
            == before[origin[k]]
    &&& forall|a: int, b: int|
        0 <= a < b < origin.len() ==> #[trigger] origin[a] != #[trigger] origin[b]
}

/// Two entries have changed their relative order only where the one now in
/// front has the strictly larger sample.
pub open spec fn overtakes_are_strict(origin: Seq<int>, after: Seq<ProcessInfo>) -> bool {
    forall|a: int, b: int|
        0 <= a < b < origin.len() && #[trigger] origin[a] > #[trigger] origin[b]
            ==> after[b].cpu_usage.spec_lt(after[a].cpu_usage)
}

/// `after` is `before` ranked by CPU usage, largest first: the same entries,
/// each but the last in rank order with the next, and no two of them
/// exchanged unless the one now in front has the strictly larger sample. So
/// entries with equal samples keep their order, and an entry whose sample is
/// NaN keeps its place.
pub open spec fn is_ranking_of(after: Seq<ProcessInfo>, before: Seq<ProcessInfo>) -> bool {
    &&& ranked(after)
    &&& exists|origin: Seq<int>|
        reorders(origin, before, after) && overtakes_are_strict(origin, after)
}

/// Ranks the entries by CPU usage, largest first.
///
/// Two samples that cannot be compared count as equal, and entries that
/// count as equal keep the order in which they came.
pub fn rank_by_cpu_usage(entries: &mut Vec<ProcessInfo>)
    ensures
        is_ranking_of(final(entries)@, old(entries)@),
        final(entries)@.to_multiset() == old(entries)@.to_multiset(),
{
    let ghost before = entries@;
    let ghost mut origin: Seq<int> = Seq::new(entries@.len(), |k: int| k);
    let n = entries.len();
    let mut i: usize = 0;
    while i < n
        invariant
            i <= n,
            n == entries@.len(),
            entries@.to_multiset() == before.to_multiset(),
            reorders(origin, before, entries@),
            overtakes_are_strict(origin, entries@),
            forall|k: int| i <= k < n ==> origin[k] == k,
            forall|k: int| 0 <= k < i ==> origin[k] < i,
            forall|k: int|
                #![trigger entries@[k]]
                0 < k < i ==> in_rank_order(entries@[k - 1].cpu_usage, entries@[k].cpu_usage),
        decreases n - i,
    {
        let usage = entries[i].cpu_usage;
        let mut j: usize = i;
        while j > 0 && entries[j - 1].cpu_usage.lt(usage)
            invariant
                j <= i < entries@.len(),
                forall|k: int| j <= k < i ==> (#[trigger] entries@[k]).cpu_usage.spec_lt(usage),
            decreases j,
        {
            j -= 1;
        }
        if j < i {
            let ghost held = entries@;
            let ghost held_origin = origin;
            let moved = entries.remove(i);
            entries.insert(j, moved);
            proof {
                origin = held_origin.remove(i as int).insert(j as int, held_origin[i as int]);
                assert(entries@.to_multiset() =~= held.to_multiset()) by {
                    to_multiset_remove(held, i as int);
                    to_multiset_insert(held.remove(i as int), j as int, held[i as int]);
                    to_multiset_contains(held, held[i as int]);
                }
                lemma_move_forward(held, entries@, i as int, j as int);
                lemma_move_forward(held_origin, origin, i as int, j as int);
            }
        }
        i += 1;
    }
    assert forall|k: int| 0 <= k < entries@.len() - 1 implies in_rank_order(
        (#[trigger] entries@[k]).cpu_usage,
        entries@[k + 1].cpu_usage,
    ) by {
        let next = k + 1;
        assert(in_rank_order(entries@[next - 1].cpu_usage, entries@[next].cpu_usage));
    }
}

/// In a ranked listing, over a stretch that holds no NaN, an entry's sample is
/// at least as large as that of every later entry.
pub proof fn lemma_ranked_numbers_descend(listing: Seq<ProcessInfo>, first: int, second: int)
    requires
        ranked(listing),
        0 <= first <= second < listing.len(),
        numbers_between(listing, first, second),
    ensures
        listing[first].cpu_usage.spec_ge(listing[second].cpu_usage),
    decreases second - first,
{
    assert(!listing[first].cpu_usage.spec_is_nan());
    if first < second {
        lemma_ranked_numbers_descend(listing, first, second - 1);
        assert(!listing[second - 1].cpu_usage.spec_is_nan());
        assert(!listing[second].cpu_usage.spec_is_nan());
    }
}

/// A listing has exactly one ranking: the contract of [`rank_by_cpu_usage`]
/// leaves no choice.
pub proof fn lemma_ranking_is_unique(
    before: Seq<ProcessInfo>,
    first: Seq<ProcessInfo>,
    second: Seq<ProcessInfo>,
)
    requires
        is_ranking_of(first, before),
        is_ranking_of(second, before),
    ensures
        first == second,
{
    let first_origin = choose|origin: Seq<int>|
        reorders(origin, before, first) && overtakes_are_strict(origin, first);
    let second_origin = choose|origin: Seq<int>|
        reorders(origin, before, second) && overtakes_are_strict(origin, second);
    lemma_same_origins(
        before,
        first,
        first_origin,
        second,
        second_origin,
        before.len() as int,
    );
    assert forall|k: int| 0 <= k < first.len() implies first[k] == second[k] by {
        assert(first[k] == before[first_origin[k]]);
        assert(second[k] == before[second_origin[k]]);
    }
    assert(first =~= second);
}

/// A ranked listing is its own ranking, so ranking it again changes nothing.
pub proof fn lemma_ranked_listing_is_its_own_ranking(listing: Seq<ProcessInfo>)
    requires
        ranked(listing),
    ensures
        is_ranking_of(listing, listing),
{
    let origin = Seq::new(listing.len(), |k: int| k);
    assert(reorders(origin, listing, listing));
    assert(overtakes_are_strict(origin, listing));
}

/// The entries of `listing` at the places from `low` to `high`, both
/// included, all have samples that are numbers.
pub open spec fn numbers_between(listing: Seq<ProcessInfo>, low: int, high: int) -> bool {
    forall|k: int| low <= k <= high ==> !(#[trigger] listing[k]).cpu_usage.spec_is_nan()
}

/// Whether, of two entries of `listing` at different places, the one at
/// `place` stands before the one at `other` once the listing is ranked. An
/// entry stays behind an earlier one unless its sample is strictly larger and
/// no NaN stands between the two.
spec fn stands_before(listing: Seq<ProcessInfo>, place: int, other: int) -> bool {
    if place < other {
        !(numbers_between(listing, place, other) && listing[place].cpu_usage.spec_lt(
            listing[other].cpu_usage,
        ))
    } else {
        numbers_between(listing, other, place) && listing[other].cpu_usage.spec_lt(
            listing[place].cpu_usage,
        )
    }
}

/// Every place of `before` is the origin of some place of `after`.
proof fn lemma_every_place_is_taken(
    origin: Seq<int>,
    before: Seq<ProcessInfo>,
    after: Seq<ProcessInfo>,
    place: int,
) -> (now: int)
    requires
        reorders(origin, before, after),
        0 <= place < before.len(),
    ensures
        0 <= now < after.len(),
        origin[now] == place,
{
    let places = set_int_range(0, before.len() as int);
    lemma_int_range(0, before.len() as int);
    assert(origin.no_duplicates()) by {
        assert forall|a: int, b: int|
            0 <= a < origin.len() && 0 <= b < origin.len() && a != b implies origin[a]
            != origin[b] by {
            if a < b {
                assert(origin[a] != origin[b]);
            } else {
                assert(origin[b] != origin[a]);
            }
        }
    }
    origin.unique_seq_to_set();
    assert(origin.to_set().subset_of(places)) by {
        assert forall|value: int| origin.to_set().contains(value) implies places.contains(
            value,
        ) by {
            let k = choose|k: int| 0 <= k < origin.len() && origin[k] == value;
            assert(0 <= origin[k] < before.len());
        }
    }
    lemma_len_subset(origin.to_set(), places);
    lemma_subset_equality(origin.to_set(), places);
    assert(places.contains(place));
    assert(origin.contains(place));
    choose|now: int| 0 <= now < origin.len() && origin[now] == place
}

/// An entry whose sample is NaN has kept every other entry on the side on
/// which it was.
proof fn lemma_nan_keeps_place(
    origin: Seq<int>,
    before: Seq<ProcessInfo>,
    after: Seq<ProcessInfo>,
    at: int,
    other: int,
)
    requires
        reorders(origin, before, after),
        overtakes_are_strict(origin, after),
        0 <= at < after.len(),
        0 <= other < after.len(),
        after[at].cpu_usage.spec_is_nan(),
    ensures
        other < at ==> origin[other] < origin[at],
        other > at ==> origin[other] > origin[at],
{
    if other < at {
        assert(origin[other] != origin[at]);
    } else if other > at {
        assert(origin[at] != origin[other]);
    }
}

/// In a ranking, which of two entries stands first is decided by the listing
/// that was ranked.
proof fn lemma_ranking_order(
    origin: Seq<int>,
    before: Seq<ProcessInfo>,
    after: Seq<ProcessInfo>,
    front: int,
    back: int,
)
    requires
        ranked(after),
        reorders(origin, before, after),
        overtakes_are_strict(origin, after),
        0 <= front < back < after.len(),
    ensures
        stands_before(before, origin[front], origin[back]),
{
    let place = origin[front];
    let other = origin[back];
    assert(place != other);
    assert(after[front] == before[place]);
    assert(after[back] == before[other]);
    if place < other {
        if numbers_between(before, place, other) && before[place].cpu_usage.spec_lt(
            before[other].cpu_usage,
        ) {
            assert(numbers_between(after, front, back)) by {
                assert forall|k: int| front <= k <= back implies !(#[trigger] after[k])
                    .cpu_usage.spec_is_nan() by {
                    if after[k].cpu_usage.spec_is_nan() {
                        assert(!before[place].cpu_usage.spec_is_nan());
                        assert(!before[other].cpu_usage.spec_is_nan());
                        lemma_nan_keeps_place(origin, before, after, k, front);
                        lemma_nan_keeps_place(origin, before, after, k, back);
                        assert(after[k] == before[origin[k]]);
                    }
                }
            }
            lemma_ranked_numbers_descend(after, front, back);
        }
    } else {
        assert(after[back].cpu_usage.spec_lt(after[front].cpu_usage));
        assert forall|k: int| other <= k <= place implies !(#[trigger] before[k])
            .cpu_usage.spec_is_nan() by {
            if before[k].cpu_usage.spec_is_nan() {
                let now = lemma_every_place_is_taken(origin, before, after, k);
                assert(after[now] == before[origin[now]]);
                lemma_nan_keeps_place(origin, before, after, now, front);
                lemma_nan_keeps_place(origin, before, after, now, back);
            }
        }
    }
}

/// Two rankings of one listing took each of their first `upto` entries from
/// the same place.
proof fn lemma_same_origins(
    before: Seq<ProcessInfo>,
    first: Seq<ProcessInfo>,
    first_origin: Seq<int>,
    second: Seq<ProcessInfo>,
    second_origin: Seq<int>,
    upto: int,
)
    requires
        ranked(first),
        reorders(first_origin, before, first),
        overtakes_are_strict(first_origin, first),
        ranked(second),
        reorders(second_origin, before, second),
        overtakes_are_strict(second_origin, second),
        0 <= upto <= before.len(),
    ensures
        forall|k: int| 0 <= k < upto ==> first_origin[k] == second_origin[k],
    decreases upto,
{
    if upto > 0 {
        lemma_same_origins(before, first, first_origin, second, second_origin, upto - 1);
        let k = upto - 1;
        let place = first_origin[k];
        let other = second_origin[k];
        if place != other {
            let later = lemma_every_place_is_taken(first_origin, before, first, other);
            assert(later > k) by {
                if later < k {
                    assert(second_origin[later] != second_origin[k]);
                }
            }
            let later_too = lemma_every_place_is_taken(second_origin, before, second, place);
            assert(later_too > k) by {
                if later_too < k {
                    assert(first_origin[later_too] != first_origin[k]);
                }
            }
            lemma_ranking_order(first_origin, before, first, k, later);
            lemma_ranking_order(second_origin, before, second, k, later_too);
            assert(stands_before(before, place, other));
            assert(stands_before(before, other, place));
        }
    }
}

/// The place that the item now at place `k` had before the item at place
/// `from` was moved forward to place `to`.
spec fn place_before_move(k: int, from: int, to: int) -> int {
    if k < to {
        k
    } else if k == to {
        from
    } else if k <= from {
        k - 1
    } else {
        k
    }
}

/// Taking the item at place `from` out and putting it in again at an earlier
/// place `to` moves the items between the two places back by one and leaves
/// the others where they were.
proof fn lemma_move_forward<T>(held: Seq<T>, moved: Seq<T>, from: int, to: int)
    requires
        0 <= to < from < held.len(),
        moved == held.remove(from).insert(to, held[from]),
    ensures
        moved.len() == held.len(),
        forall|k: int|
            0 <= k < moved.len() ==> #[trigger] moved[k] == held[place_before_move(k, from, to)],
{
}

} // verus!
