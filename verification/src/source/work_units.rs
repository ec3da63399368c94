//! Range reads that cover the records an index lists.

use std::ops::Range;

use vstd::prelude::*;

use crate::error::{Error, Result};
use crate::error_struct::at;

verus! {

/// Where one record lies in an archive.
#[derive(Clone, Copy, Debug, PartialEq, Eq, Structural)]
pub struct WarcIndexEntry {
    pub offset: u64,
    pub length: u64,
}

/// The first byte behind a record.
pub open spec fn entry_end(entry: WarcIndexEntry) -> int {
    entry.offset + entry.length
}

/// The order of entries: by offset, then by length.
pub open spec fn entry_le(left: WarcIndexEntry, right: WarcIndexEntry) -> bool {
    left.offset < right.offset || (left.offset == right.offset && left.length <= right.length)
}

/// Whether entries never go down.
pub open spec fn entries_sorted(entries: Seq<WarcIndexEntry>) -> bool {
    forall|i: int, j: int|
        0 <= i <= j < entries.len() ==> entry_le(#[trigger] entries[i], #[trigger] entries[j])
}

/// The entries in archive order.
pub open spec fn in_archive_order(entries: Seq<WarcIndexEntry>) -> Seq<WarcIndexEntry> {
    entries.sort_by(|left: WarcIndexEntry, right: WarcIndexEntry| entry_le(left, right))
}

/// The number of bytes that the entries list.
pub open spec fn total_length(entries: Seq<WarcIndexEntry>) -> nat
    decreases entries.len(),
{
    if entries.len() == 0 {
        0
    } else {
        total_length(entries.drop_last()) + entries.last().length as nat
    }
}

/// The number of bytes in the ranges.
pub open spec fn total_range(units: Seq<Range<u64>>) -> int
    decreases units.len(),
{
    if units.len() == 0 {
        0
    } else {
        total_range(units.drop_last()) + (units.last().end - units.last().start)
    }
}

/// The length that a work unit is filled up to: an equal share of `total`,
/// rounded up.
pub open spec fn target_length(total: nat, parallelism: nat) -> nat {
    (total / parallelism + if total % parallelism == 0 {
        0int
    } else {
        1
    }) as nat
}

/// Whether the next entry joins the last unit: it starts where the unit ends,
/// and the unit is still short of the target.
pub open spec fn joins(units: Seq<Range<u64>>, entry: WarcIndexEntry, target: nat) -> bool {
    units.len() > 0 && entry.offset == units.last().end && units.last().end - units.last().start
        < target
}

/// The units that the entries, taken in this order, are coalesced into, or why
/// they cannot be.
pub open spec fn coalesced(
    entries: Seq<WarcIndexEntry>,
    target: nat,
) -> std::result::Result<Seq<Range<u64>>, Seq<char>>
    decreases entries.len(),
{
    if entries.len() == 0 {
        Ok(Seq::empty())
    } else {
        let entry = entries.last();
        match coalesced(entries.drop_last(), target) {
            Err(message) => Err(message),
            Ok(units) => if entry_end(entry) > u64::MAX {
                Err("WARC index offset plus length overflows u64"@)
            } else if units.len() > 0 && entry.offset < units.last().end {
                Err("WARC index entries overlap"@)
            } else if joins(units, entry, target) {
                Ok(
                    units.drop_last().push(
                        Range { start: units.last().start, end: entry_end(entry) as u64 },
                    ),
                )
            } else {
                Ok(units.push(Range { start: entry.offset, end: entry_end(entry) as u64 }))
            },
        }
    }
}

/// What the index comes to: the units of its entries in archive order, each
/// filled up to an equal share of the whole, or why there are none.
pub open spec fn planned_units(
    entries: Seq<WarcIndexEntry>,
    max_read_parallelism: nat,
) -> std::result::Result<Seq<Range<u64>>, Seq<char>> {
    if max_read_parallelism == 0 {
        Err("max_read_parallelism must be positive"@)
    } else if total_length(entries) > u64::MAX {
        Err("WARC index total length overflows u64"@)
    } else {
        coalesced(
            in_archive_order(entries),
            target_length(total_length(entries), max_read_parallelism),
        )
    }
}

proof fn lemma_entry_order()
    ensures
        vstd::relations::total_ordering(
            |left: WarcIndexEntry, right: WarcIndexEntry| entry_le(left, right),
        ),
{
}

/// Sorting keeps the entries and puts them in order.
pub proof fn lemma_archive_order(entries: Seq<WarcIndexEntry>)
    ensures
        entries_sorted(in_archive_order(entries)),
        in_archive_order(entries).to_multiset() == entries.to_multiset(),
{
    let leq = |left: WarcIndexEntry, right: WarcIndexEntry| entry_le(left, right);
    lemma_entry_order();
    entries.lemma_sort_by_ensures(leq);
    let sorted = in_archive_order(entries);
    assert forall|i: int, j: int| 0 <= i <= j < sorted.len() implies entry_le(
        #[trigger] sorted[i],
        #[trigger] sorted[j],
    ) by {
        if i < j {
            assert(leq(sorted[i], sorted[j]));
        }
    }
}

/// A sorted arrangement of the entries is the archive order.
proof fn lemma_sorted_is_archive_order(
    entries: Seq<WarcIndexEntry>,
    sorted: Seq<WarcIndexEntry>,
)
    requires
        entries_sorted(sorted),
        sorted.to_multiset() == entries.to_multiset(),
    ensures
        sorted == in_archive_order(entries),
{
    let leq = |left: WarcIndexEntry, right: WarcIndexEntry| entry_le(left, right);
    lemma_entry_order();
    entries.lemma_sort_by_ensures(leq);
    assert(vstd::relations::sorted_by(sorted, leq));
    vstd::seq_lib::lemma_sorted_unique(sorted, in_archive_order(entries), leq);
}

/// Whether `left` does not come after `right` in archive order.
fn entry_not_after(left: WarcIndexEntry, right: WarcIndexEntry) -> (ordered: bool)
    ensures
        ordered == entry_le(left, right),
{
    left.offset < right.offset || (left.offset == right.offset && left.length <= right.length)
}

/// Merges two sorted runs into one.
fn merge(left: &Vec<WarcIndexEntry>, right: &Vec<WarcIndexEntry>) -> (merged: Vec<WarcIndexEntry>)
    requires
        entries_sorted(left@),
        entries_sorted(right@),
    ensures
        entries_sorted(merged@),
        merged@.to_multiset() == left@.to_multiset().add(right@.to_multiset()),
{
    let mut merged: Vec<WarcIndexEntry> = Vec::new();
    let mut i: usize = 0;
    let mut j: usize = 0;
    proof {
        broadcast use vstd::seq_lib::group_to_multiset_ensures;
        broadcast use vstd::multiset::group_multiset_axioms;

        assert(left@.take(0) =~= Seq::empty());
        assert(right@.take(0) =~= Seq::empty());
        assert(merged@.to_multiset() =~= left@.take(0).to_multiset().add(
            right@.take(0).to_multiset(),
        ));
    }
    while i < left.len() || j < right.len()
        invariant
            i <= left@.len(),
            j <= right@.len(),
            entries_sorted(left@),
            entries_sorted(right@),
            entries_sorted(merged@),
            merged@.to_multiset() == left@.take(i as int).to_multiset().add(
                right@.take(j as int).to_multiset(),
            ),
            forall|k: int, l: int|
                0 <= k < merged@.len() && i <= l < left@.len() ==> entry_le(
                    #[trigger] merged@[k],
                    #[trigger] left@[l],
                ),
            forall|k: int, l: int|
                0 <= k < merged@.len() && j <= l < right@.len() ==> entry_le(
                    #[trigger] merged@[k],
                    #[trigger] right@[l],
                ),
        decreases left@.len() - i + right@.len() - j,
    {
        let take_left = j == right.len() || (i < left.len() && entry_not_after(left[i], right[j]));
        let ghost before = merged@;
        if take_left {
            merged.push(left[i]);
            proof {
                broadcast use vstd::seq_lib::group_to_multiset_ensures;
                broadcast use vstd::multiset::group_multiset_axioms;

                assert(left@.take(i + 1) == left@.take(i as int).push(left@[i as int]));
                assert(merged@.to_multiset() =~= left@.take(i + 1).to_multiset().add(
                    right@.take(j as int).to_multiset(),
                ));
            }
            i += 1;
        } else {
            merged.push(right[j]);
            proof {
                broadcast use vstd::seq_lib::group_to_multiset_ensures;
                broadcast use vstd::multiset::group_multiset_axioms;

                assert(right@.take(j + 1) == right@.take(j as int).push(right@[j as int]));
                assert(merged@.to_multiset() =~= left@.take(i as int).to_multiset().add(
                    right@.take(j + 1).to_multiset(),
                ));
            }
            j += 1;
        }
    }
    assert(left@.take(i as int) == left@);
    assert(right@.take(j as int) == right@);
    merged
}

/// The entries from `from` up to `to`, sorted.
fn sort_part(entries: &Vec<WarcIndexEntry>, from: usize, to: usize) -> (sorted: Vec<WarcIndexEntry>)
    requires
        from <= to <= entries@.len(),
    ensures
        entries_sorted(sorted@),
        sorted@.to_multiset() == entries@.subrange(from as int, to as int).to_multiset(),
    decreases to - from,
{
    let ghost part = entries@.subrange(from as int, to as int);
    if to - from <= 1 {
        let mut sorted: Vec<WarcIndexEntry> = Vec::new();
        if to - from == 1 {
            sorted.push(entries[from]);
        }
        assert(sorted@ == part);
        return sorted;
    }
    let middle: usize = from + (to - from) / 2;
    let left = sort_part(entries, from, middle);
    let right = sort_part(entries, middle, to);
    proof {
        assert(part == entries@.subrange(from as int, middle as int) + entries@.subrange(
            middle as int,
            to as int,
        ));
        vstd::seq_lib::lemma_multiset_commutative(
            entries@.subrange(from as int, middle as int),
            entries@.subrange(middle as int, to as int),
        );
    }
    merge(&left, &right)
}

/// The length of the entries together, where it fits.
fn checked_total(entries: &Vec<WarcIndexEntry>) -> (total: Option<u64>)
    ensures
        match total {
            Some(total) => total == total_length(entries@),
            None => total_length(entries@) > u64::MAX,
        },
{
    let mut total: u64 = 0;
    let mut i: usize = 0;
    assert(total_length(entries@.take(0)) == 0);
    while i < entries.len()
        invariant
            i <= entries@.len(),
            total == total_length(entries@.take(i as int)),
        decreases entries@.len() - i,
    {
        proof {
            assert(entries@.take(i + 1).drop_last() == entries@.take(i as int));
            lemma_total_length_of_part(entries@, i + 1);
        }
        match total.checked_add(entries[i].length) {
            Some(next) => {
                total = next;
            },
            None => {
                return None;
            },
        }
        i += 1;
    }
    assert(entries@.take(i as int) == entries@);
    Some(total)
}

proof fn lemma_total_length_of_part(entries: Seq<WarcIndexEntry>, end: int)
    requires
        0 <= end <= entries.len(),
    ensures
        total_length(entries.take(end)) <= total_length(entries),
    decreases entries.len() - end,
{
    if end < entries.len() {
        assert(entries.take(end + 1).drop_last() == entries.take(end));
        lemma_total_length_of_part(entries, end + 1);
    } else {
        assert(entries.take(end) == entries);
    }
}

proof fn lemma_failure_stays(entries: Seq<WarcIndexEntry>, end: int, target: nat)
    requires
        0 <= end <= entries.len(),
        coalesced(entries.take(end), target) is Err,
    ensures
        coalesced(entries, target) == coalesced(entries.take(end), target),
    decreases entries.len() - end,
{
    if end < entries.len() {
        assert(entries.take(end + 1).drop_last() == entries.take(end));
        lemma_failure_stays(entries, end + 1, target);
    } else {
        assert(entries.take(end) == entries);
    }
}

/// Sorts index entries by archive offset and converts them into range reads.
///
/// The target size is the total indexed length divided by
/// `max_read_parallelism`, rounded up. Exactly adjacent entries are coalesced
/// until a work unit reaches that target. Gaps always start a new unit.
/// Overlapping entries are rejected, because they would decode the same bytes
/// more than once. The ranges are in archive order.
///
/// For example, the entries `(20, 5)`, `(0, 8)`, `(8, 4)` with parallelism 2
/// have a target of 9 bytes and become `0..12` and `20..25`.
pub fn build_index_work_units(
    entries: Vec<WarcIndexEntry>,
    max_read_parallelism: usize,
) -> (units: Result<Vec<Range<u64>>>)
    ensures
        match units {
            Ok(units) => planned_units(entries@, max_read_parallelism as nat) == Ok::<
                Seq<Range<u64>>,
                Seq<char>,
            >(units@),
            Err(error) => planned_units(entries@, max_read_parallelism as nat) matches Err(message)
                && error@ == crate::error::internal_error(message),
        },
{
    if max_read_parallelism == 0 {
        return Err(Error::message(
            "max_read_parallelism must be positive".to_owned(),
            at("src/source/work_units.rs", 384, 20),
        ));
    }
    let total: u64 = match checked_total(&entries) {
        Some(total) => total,
        None => {
            return Err(Error::message(
                "WARC index total length overflows u64".to_owned(),
                at("src/source/work_units.rs", 392, 24),
            ));
        },
    };
    let parallelism: u64 = max_read_parallelism as u64;
    let share: u64 = total / parallelism;
    let target: u64 = if total % parallelism == 0 {
        share
    } else {
        assert(share < total) by (nonlinear_arith)
            requires
                share == total / parallelism,
                parallelism > 0,
                total % parallelism != 0,
        ;
        share + 1
    };
    assert(target == target_length(total as nat, max_read_parallelism as nat));

    let sorted = sort_part(&entries, 0, entries.len());
    proof {
        assert(entries@.subrange(0, entries@.len() as int) == entries@);
        lemma_sorted_is_archive_order(entries@, sorted@);
    }
    let mut units: Vec<Range<u64>> = Vec::new();
    let mut i: usize = 0;
    while i < sorted.len()
        invariant
            i <= sorted@.len(),
            sorted@ == in_archive_order(entries@),
            planned_units(entries@, max_read_parallelism as nat) == coalesced(
                sorted@,
                target as nat,
            ),
            coalesced(sorted@.take(i as int), target as nat) == Ok::<Seq<Range<u64>>, Seq<char>>(
                units@,
            ),
        decreases sorted@.len() - i,
    {
        let entry = sorted[i];
        let ghost part = sorted@.take(i + 1);
        assert(part.drop_last() == sorted@.take(i as int));
        assert(part.last() == entry);
        let end: u64 = match entry.offset.checked_add(entry.length) {
            Some(end) => end,
            None => {
                proof {
                    lemma_failure_stays(sorted@, i + 1, target as nat);
                }
                return Err(
                    Error::message(
                        "WARC index offset plus length overflows u64".to_owned(),
                        at("src/source/work_units.rs", 444, 21),
                    ),
                );
            },
        };
        let count: usize = units.len();
        if count > 0 && entry.offset < units[count - 1].end {
            proof {
                lemma_failure_stays(sorted@, i + 1, target as nat);
            }
            return Err(Error::message(
                "WARC index entries overlap".to_owned(),
                at("src/source/work_units.rs", 456, 24),
            ));
        }
        proof {
            lemma_units_ascend(sorted@.take(i as int), target as nat);
        }
        if count > 0 && entry.offset == units[count - 1].end && units[count - 1].end
            - units[count - 1].start < target {
            let start: u64 = units[count - 1].start;
            let _ = units.pop();
            units.push(Range { start, end });
        } else {
            units.push(Range { start: entry.offset, end });
        }
        i += 1;
    }
    assert(sorted@.take(i as int) == sorted@);
    Ok(units)
}

/// Work units come in archive order and do not overlap.
pub open spec fn units_ascend(units: Seq<Range<u64>>) -> bool {
    &&& forall|i: int| 0 <= i < units.len() ==> (#[trigger] units[i]).start <= units[i].end
    &&& forall|i: int, j: int|
        0 <= i < j < units.len() ==> (#[trigger] units[i]).end <= (#[trigger] units[j]).start
}

proof fn lemma_units_ascend(entries: Seq<WarcIndexEntry>, target: nat)
    ensures
        coalesced(entries, target) matches Ok(units) ==> units_ascend(units),
    decreases entries.len(),
{
    if entries.len() > 0 {
        lemma_units_ascend(entries.drop_last(), target);
        if let Ok(units) = coalesced(entries.drop_last(), target) {
            if let Ok(more) = coalesced(entries, target) {
                assert forall|i: int, j: int| 0 <= i < j < more.len() implies (
                #[trigger] more[i]).end <= (#[trigger] more[j]).start by {
                    if more.len() == units.len() {
                        assert(units[i].end <= units[j].start);
                    } else if j == units.len() {
                        assert(units[i].end <= units.last().end) by {
                            if i < units.len() - 1 {
                                assert(units[i].end <= units[units.len() - 1].start);
                            }
                        }
                    }
                }
            }
        }
    }
}

/// Whether byte `at` belongs to one of the ranges.
pub open spec fn in_units(units: Seq<Range<u64>>, at: int) -> bool {
    exists|i: int| 0 <= i < units.len() && (#[trigger] units[i]).start <= at < units[i].end
}

/// Whether byte `at` belongs to one of the entries.
pub open spec fn in_entries(entries: Seq<WarcIndexEntry>, at: int) -> bool {
    exists|i: int|
        0 <= i < entries.len() && (#[trigger] entries[i]).offset <= at < entry_end(entries[i])
}

/// Whether one of the ranges holds the whole entry.
pub open spec fn holds_entry(units: Seq<Range<u64>>, entry: WarcIndexEntry) -> bool {
    exists|i: int|
        0 <= i < units.len() && (#[trigger] units[i]).start <= entry.offset && entry_end(entry)
            <= units[i].end
}

pub(crate) proof fn lemma_archive_order_members(entries: Seq<WarcIndexEntry>)
    ensures
        forall|entry: WarcIndexEntry|
            #![auto]
            entries.contains(entry) <==> in_archive_order(entries).contains(entry),
        in_archive_order(entries).len() == entries.len(),
{
    let sorted = in_archive_order(entries);
    lemma_archive_order(entries);
    entries.to_multiset_ensures();
    sorted.to_multiset_ensures();
    assert forall|entry: WarcIndexEntry|
        #![auto]
        entries.contains(entry) <==> sorted.contains(entry) by {
        assert(entries.contains(entry) <==> entries.to_multiset().count(entry) > 0);
        assert(sorted.contains(entry) <==> sorted.to_multiset().count(entry) > 0);
    }
}

proof fn lemma_total_without(entries: Seq<WarcIndexEntry>, at: int)
    requires
        0 <= at < entries.len(),
    ensures
        total_length(entries) == total_length(entries.remove(at)) + entries[at].length,
    decreases entries.len(),
{
    let shorter = entries.remove(at);
    if at < entries.len() - 1 {
        lemma_total_without(entries.drop_last(), at);
        assert(shorter.drop_last() == entries.drop_last().remove(at));
        assert(shorter.last() == entries.last());
    } else {
        assert(shorter == entries.drop_last());
    }
}

proof fn lemma_total_by_members(left: Seq<WarcIndexEntry>, right: Seq<WarcIndexEntry>)
    requires
        left.to_multiset() == right.to_multiset(),
    ensures
        total_length(left) == total_length(right),
    decreases left.len(),
{
    left.to_multiset_ensures();
    right.to_multiset_ensures();
    if left.len() > 0 {
        let entry = left.last();
        assert(left.contains(entry));
        assert(left.to_multiset().count(entry) > 0);
        assert(right.contains(entry));
        let at = choose|i: int| 0 <= i < right.len() && right[i] == entry;
        assert(left.remove(left.len() - 1) == left.drop_last());
        lemma_total_without(right, at);
        lemma_total_by_members(left.drop_last(), right.remove(at));
    }
}

proof fn lemma_covering(entries: Seq<WarcIndexEntry>, target: nat)
    ensures
        coalesced(entries, target) matches Ok(units) ==> {
            &&& total_range(units) == total_length(entries)
            &&& forall|at: int| in_units(units, at) <==> in_entries(entries, at)
            &&& forall|i: int| 0 <= i < entries.len() ==> holds_entry(units, #[trigger] entries[i])
        },
    decreases entries.len(),
{
    if entries.len() > 0 {
        let shorter = entries.drop_last();
        let entry = entries.last();
        lemma_covering(shorter, target);
        if let Ok(units) = coalesced(shorter, target) {
            if let Ok(more) = coalesced(entries, target) {
                let grown = more.len() == units.len();
                let last = more.len() - 1;
                if grown {
                    assert(more.drop_last() == units.drop_last());
                } else {
                    assert(more.drop_last() == units);
                }
                assert forall|at: int| in_units(more, at) <==> in_entries(entries, at) by {
                    lemma_units_ascend(shorter, target);
                    if in_units(more, at) {
                        let i = choose|i: int|
                            0 <= i < more.len() && (#[trigger] more[i]).start <= at < more[i].end;
                        if entry.offset <= at < entry_end(entry) {
                            assert(entries[entries.len() - 1] == entry);
                        } else {
                            assert(units[i].start <= at < units[i].end);
                            assert(in_units(units, at));
                            let j = choose|j: int|
                                0 <= j < shorter.len() && (#[trigger] shorter[j]).offset <= at
                                    < entry_end(shorter[j]);
                            assert(entries[j] == shorter[j]);
                        }
                    }
                    if in_entries(entries, at) {
                        let j = choose|j: int|
                            0 <= j < entries.len() && (#[trigger] entries[j]).offset <= at
                                < entry_end(entries[j]);
                        if j == entries.len() - 1 {
                            assert(more[last].start <= at < more[last].end);
                        } else {
                            assert(shorter[j] == entries[j]);
                            assert(in_entries(shorter, at));
                            let i = choose|i: int|
                                0 <= i < units.len() && (#[trigger] units[i]).start <= at
                                    < units[i].end;
                            assert(more[i].start <= at < more[i].end);
                        }
                    }
                }
                assert forall|j: int| 0 <= j < entries.len() implies holds_entry(
                    more,
                    #[trigger] entries[j],
                ) by {
                    if j == entries.len() - 1 {
                        lemma_units_ascend(shorter, target);
                        assert(more[last].start <= entry.offset && entry_end(entry)
                            <= more[last].end);
                    } else {
                        assert(shorter[j] == entries[j]);
                        assert(holds_entry(units, shorter[j]));
                        let i = choose|i: int|
                            0 <= i < units.len() && (#[trigger] units[i]).start <= shorter[j].offset
                                && entry_end(shorter[j]) <= units[i].end;
                        assert(more[i].start <= entries[j].offset && entry_end(entries[j])
                            <= more[i].end);
                    }
                }
            }
        }
    }
}

/// The work units of an index are in archive order and do not overlap.
pub proof fn law_units_in_archive_order(
    entries: Seq<WarcIndexEntry>,
    max_read_parallelism: nat,
    units: Seq<Range<u64>>,
)
    requires
        planned_units(entries, max_read_parallelism) == Ok::<Seq<Range<u64>>, Seq<char>>(units),
    ensures
        units_ascend(units),
{
    lemma_units_ascend(
        in_archive_order(entries),
        target_length(total_length(entries), max_read_parallelism),
    );
}

/// The work units read exactly the bytes that the index lists, so they never
/// reach over a gap, and they split no entry.
pub proof fn law_units_cover_the_index(
    entries: Seq<WarcIndexEntry>,
    max_read_parallelism: nat,
    units: Seq<Range<u64>>,
)
    requires
        planned_units(entries, max_read_parallelism) == Ok::<Seq<Range<u64>>, Seq<char>>(units),
    ensures
        forall|at: int| in_units(units, at) <==> in_entries(entries, at),
        forall|i: int| 0 <= i < entries.len() ==> holds_entry(units, #[trigger] entries[i]),
        total_range(units) == total_length(entries),
{
    let sorted = in_archive_order(entries);
    lemma_covering(sorted, target_length(total_length(entries), max_read_parallelism));
    lemma_archive_order(entries);
    lemma_archive_order_members(entries);
    lemma_total_by_members(entries, sorted);
    assert forall|at: int| in_entries(sorted, at) <==> in_entries(entries, at) by {
        if in_entries(sorted, at) {
            let i = choose|i: int|
                0 <= i < sorted.len() && (#[trigger] sorted[i]).offset <= at < entry_end(sorted[i]);
            assert(sorted.contains(sorted[i]));
            assert(entries.contains(sorted[i]));
            let j = choose|j: int| 0 <= j < entries.len() && entries[j] == sorted[i];
            assert(entries[j].offset <= at < entry_end(entries[j]));
        }
        if in_entries(entries, at) {
            let i = choose|i: int|
                0 <= i < entries.len() && (#[trigger] entries[i]).offset <= at < entry_end(
                    entries[i],
                );
            assert(entries.contains(entries[i]));
            assert(sorted.contains(entries[i]));
            let j = choose|j: int| 0 <= j < sorted.len() && sorted[j] == entries[i];
            assert(sorted[j].offset <= at < entry_end(sorted[j]));
        }
    }
    assert forall|i: int| 0 <= i < entries.len() implies holds_entry(
        units,
        #[trigger] entries[i],
    ) by {
        assert(entries.contains(entries[i]));
        assert(sorted.contains(entries[i]));
        let j = choose|j: int| 0 <= j < sorted.len() && sorted[j] == entries[i];
        assert(holds_entry(units, sorted[j]));
    }
}

/// The order in which an index lists its entries makes no difference.
pub proof fn law_listing_order_is_irrelevant(
    left: Seq<WarcIndexEntry>,
    right: Seq<WarcIndexEntry>,
    max_read_parallelism: nat,
)
    requires
        left.to_multiset() == right.to_multiset(),
    ensures
        planned_units(left, max_read_parallelism) == planned_units(right, max_read_parallelism),
{
    lemma_total_by_members(left, right);
    lemma_archive_order(right);
    lemma_sorted_is_archive_order(left, in_archive_order(right));
}

/// Where a unit is followed by the next without a gap, it has reached the
/// target.
pub open spec fn units_filled(units: Seq<Range<u64>>, target: nat) -> bool {
    forall|i: int|
        0 <= i < units.len() - 1 && (#[trigger] units[i]).end == units[i + 1].start
            ==> units[i].end - units[i].start >= target
}

proof fn lemma_filled(entries: Seq<WarcIndexEntry>, target: nat)
    ensures
        coalesced(entries, target) matches Ok(units) ==> units_filled(units, target),
    decreases entries.len(),
{
    if entries.len() > 0 {
        lemma_filled(entries.drop_last(), target);
        if let Ok(units) = coalesced(entries.drop_last(), target) {
            if let Ok(more) = coalesced(entries, target) {
                assert forall|i: int|
                    0 <= i < more.len() - 1 && (#[trigger] more[i]).end == more[i
                        + 1].start implies more[i].end - more[i].start >= target by {
                    assert(more[i] == units[i]);
                    if more.len() == units.len() {
                        assert(more[i + 1].start == units[i + 1].start);
                    } else if i < units.len() - 1 {
                        assert(more[i + 1] == units[i + 1]);
                    }
                }
            }
        }
    }
}

/// Where one work unit ends and the next begins without a gap, the first has
/// reached an equal share of the indexed bytes.
pub proof fn law_units_are_filled(
    entries: Seq<WarcIndexEntry>,
    max_read_parallelism: nat,
    units: Seq<Range<u64>>,
    at: int,
)
    requires
        planned_units(entries, max_read_parallelism) == Ok::<Seq<Range<u64>>, Seq<char>>(units),
        0 <= at < units.len() - 1,
        units[at].end == units[at + 1].start,
    ensures
        (units[at].end - units[at].start) * max_read_parallelism >= total_length(entries),
{
    let total = total_length(entries);
    let target = target_length(total, max_read_parallelism);
    lemma_filled(in_archive_order(entries), target);
    lemma_target_covers(total, max_read_parallelism);
    let length = units[at].end - units[at].start;
    assert(units_filled(units, target));
    assert(units[at].end == units[at + 1].start);
    assert(length * max_read_parallelism >= total) by (nonlinear_arith)
        requires
            length >= target,
            target * max_read_parallelism >= total,
    ;
}

proof fn lemma_target_covers(total: nat, parallelism: nat)
    requires
        parallelism > 0,
    ensures
        target_length(total, parallelism) * parallelism >= total,
{
    let share = total / parallelism;
    vstd::arithmetic::div_mod::lemma_fundamental_div_mod(total as int, parallelism as int);
    assert((share + 1) * parallelism == share * parallelism + parallelism) by (nonlinear_arith);
    assert(parallelism * share == share * parallelism) by (nonlinear_arith);
}

/// Whether the entries in archive order leave no gap.
pub open spec fn contiguous(entries: Seq<WarcIndexEntry>) -> bool {
    forall|i: int|
        0 <= i < in_archive_order(entries).len() - 1 ==> entry_end(
            #[trigger] in_archive_order(entries)[i],
        ) == in_archive_order(entries)[i + 1].offset
}

proof fn lemma_contiguous_units(entries: Seq<WarcIndexEntry>, target: nat)
    requires
        forall|i: int|
            0 <= i < entries.len() - 1 ==> entry_end(#[trigger] entries[i]) == entries[i
                + 1].offset,
        forall|i: int| 0 <= i < entries.len() ==> (#[trigger] entries[i]).length > 0,
    ensures
        coalesced(entries, target) matches Ok(units) ==> {
            &&& entries.len() > 0 ==> units.len() > 0 && units.last().end == entry_end(
                entries.last(),
            )
            &&& units.len() > 0 ==> units.last().start < units.last().end && total_range(
                units.drop_last(),
            ) >= (units.len() - 1) * target
        },
    decreases entries.len(),
{
    if entries.len() > 0 {
        let shorter = entries.drop_last();
        assert forall|i: int| 0 <= i < shorter.len() - 1 implies entry_end(
            #[trigger] shorter[i],
        ) == shorter[i + 1].offset by {
            assert(entry_end(entries[i]) == entries[i + 1].offset);
        }
        lemma_contiguous_units(shorter, target);
        lemma_units_ascend(shorter, target);
        if let Ok(units) = coalesced(shorter, target) {
            if let Ok(more) = coalesced(entries, target) {
                assert(entries[entries.len() - 1].length > 0);
                if shorter.len() > 0 {
                    assert(entry_end(entries[entries.len() - 2]) == entries[entries.len()
                        - 1].offset);
                    if more.len() == units.len() {
                        assert(more.drop_last() == units.drop_last());
                    } else {
                        assert(more.drop_last() == units);
                        assert(units.last().end - units.last().start >= target);
                        assert(units.len() * target == (units.len() - 1) * target + target)
                            by (nonlinear_arith);
                    }
                } else {
                    assert(more.drop_last() =~= Seq::empty());
                }
            }
        }
    }
}

/// An index of non-empty records without gaps needs no more work units than
/// `max_read_parallelism`.
pub proof fn law_contiguous_units_are_few(
    entries: Seq<WarcIndexEntry>,
    max_read_parallelism: nat,
    units: Seq<Range<u64>>,
)
    requires
        planned_units(entries, max_read_parallelism) == Ok::<Seq<Range<u64>>, Seq<char>>(units),
        contiguous(entries),
        forall|i: int| 0 <= i < entries.len() ==> (#[trigger] entries[i]).length > 0,
    ensures
        units.len() <= max_read_parallelism,
{
    let sorted = in_archive_order(entries);
    let total = total_length(entries);
    let target = target_length(total, max_read_parallelism);
    lemma_archive_order_members(entries);
    lemma_archive_order(entries);
    lemma_total_by_members(entries, sorted);
    assert forall|i: int| 0 <= i < sorted.len() implies (#[trigger] sorted[i]).length > 0 by {
        assert(sorted.contains(sorted[i]));
        assert(entries.contains(sorted[i]));
    }
    lemma_contiguous_units(sorted, target);
    lemma_covering(sorted, target);
    lemma_target_covers(total, max_read_parallelism);
    let count = units.len();
    if count > max_read_parallelism {
        assert((count - 1) * target >= max_read_parallelism * target) by (nonlinear_arith)
            requires
                count - 1 >= max_read_parallelism,
        ;
        assert(max_read_parallelism * target == target * max_read_parallelism)
            by (nonlinear_arith);
        assert(false);
    }
}

/// Whether each entry ends before the next begins.
pub open spec fn entries_ascend(entries: Seq<WarcIndexEntry>) -> bool {
    forall|i: int, j: int|
        0 <= i < j < entries.len() ==> entry_end(#[trigger] entries[i]) <= (
        #[trigger] entries[j]).offset
}

proof fn lemma_accepted_entries_ascend(entries: Seq<WarcIndexEntry>, target: nat)
    ensures
        coalesced(entries, target) matches Ok(units) ==> {
            &&& entries_ascend(entries)
            &&& entries.len() > 0 ==> units.len() > 0 && units.last().end == entry_end(
                entries.last(),
            )
        },
    decreases entries.len(),
{
    if entries.len() > 0 {
        let shorter = entries.drop_last();
        lemma_accepted_entries_ascend(shorter, target);
        if let Ok(units) = coalesced(shorter, target) {
            if let Ok(_) = coalesced(entries, target) {
                assert forall|i: int, j: int| 0 <= i < j < entries.len() implies entry_end(
                    #[trigger] entries[i],
                ) <= (#[trigger] entries[j]).offset by {
                    assert(shorter[i] == entries[i]);
                    if j < shorter.len() {
                        assert(shorter[j] == entries[j]);
                    } else if i < shorter.len() - 1 {
                        assert(entry_end(shorter[i]) <= shorter[shorter.len() - 1].offset);
                    }
                }
            }
        }
    }
}

/// Where two entries of an index share a byte, the index is refused.
pub proof fn law_overlap_is_refused(
    entries: Seq<WarcIndexEntry>,
    max_read_parallelism: nat,
    left: int,
    right: int,
    at: int,
)
    requires
        0 <= left < entries.len(),
        0 <= right < entries.len(),
        left != right,
        entries[left].offset <= at < entry_end(entries[left]),
        entries[right].offset <= at < entry_end(entries[right]),
    ensures
        planned_units(entries, max_read_parallelism) is Err,
{
    let sorted = in_archive_order(entries);
    let target = target_length(total_length(entries), max_read_parallelism);
    lemma_archive_order(entries);
    lemma_accepted_entries_ascend(sorted, target);
    let first = if left < right {
        left
    } else {
        right
    };
    let second = if left < right {
        right
    } else {
        left
    };
    let one = entries[first];
    let other = entries[second];
    entries.to_multiset_ensures();
    sorted.to_multiset_ensures();
    assert(entries.contains(one));
    assert(entries.to_multiset().count(one) > 0);
    assert(sorted.contains(one));
    let i = choose|i: int| 0 <= i < sorted.len() && sorted[i] == one;
    let fewer = entries.remove(first);
    let rest = sorted.remove(i);
    fewer.to_multiset_ensures();
    rest.to_multiset_ensures();
    assert(fewer[second - 1] == other);
    assert(fewer.contains(other));
    assert(fewer.to_multiset().count(other) > 0);
    assert(fewer.to_multiset() == rest.to_multiset());
    assert(rest.contains(other));
    let k = choose|k: int| 0 <= k < rest.len() && rest[k] == other;
    let j = if k < i {
        k
    } else {
        k + 1
    };
    assert(sorted[j] == other);
    if entries_ascend(sorted) {
        if i < j {
            assert(entry_end(sorted[i]) <= sorted[j].offset);
        } else {
            assert(entry_end(sorted[j]) <= sorted[i].offset);
        }
    }
}

proof fn lemma_target_is_irrelevant(
    entries: Seq<WarcIndexEntry>,
    left_target: nat,
    right_target: nat,
)
    ensures
        match (coalesced(entries, left_target), coalesced(entries, right_target)) {
            (Ok(_), Ok(_)) => true,
            (Err(left), Err(right)) => left == right,
            _ => false,
        },
    decreases entries.len(),
{
    if entries.len() > 0 {
        let shorter = entries.drop_last();
        lemma_target_is_irrelevant(shorter, left_target, right_target);
        lemma_accepted_entries_ascend(shorter, left_target);
        lemma_accepted_entries_ascend(shorter, right_target);
        if shorter.len() == 0 {
            assert(coalesced(shorter, left_target) == coalesced(shorter, right_target));
        }
    }
}

/// Whatever the order of its entries and the number of readers, an index is
/// refused for the same reason, or its ranges come in ascending order and read
/// the same bytes, each once.
pub proof fn law_readers_cover_the_same(
    left: Seq<WarcIndexEntry>,
    left_parallelism: nat,
    right: Seq<WarcIndexEntry>,
    right_parallelism: nat,
)
    requires
        left_parallelism > 0,
        right_parallelism > 0,
        left.to_multiset() == right.to_multiset(),
    ensures
        match (planned_units(left, left_parallelism), planned_units(right, right_parallelism)) {
            (Ok(left_units), Ok(right_units)) => {
                &&& units_ascend(left_units)
                &&& units_ascend(right_units)
                &&& forall|at: int| in_units(left_units, at) <==> in_units(right_units, at)
                &&& total_range(left_units) == total_range(right_units)
            },
            (Err(left_message), Err(right_message)) => left_message == right_message,
            _ => false,
        },
{
    law_listing_order_is_irrelevant(left, right, right_parallelism);
    lemma_total_by_members(left, right);
    let total = total_length(left);
    lemma_target_is_irrelevant(
        in_archive_order(left),
        target_length(total, left_parallelism),
        target_length(total, right_parallelism),
    );
    if let Ok(left_units) = planned_units(left, left_parallelism) {
        let right_units = planned_units(left, right_parallelism)->Ok_0;
        law_units_in_archive_order(left, left_parallelism, left_units);
        law_units_in_archive_order(left, right_parallelism, right_units);
        law_units_cover_the_index(left, left_parallelism, left_units);
        law_units_cover_the_index(left, right_parallelism, right_units);
    }
}


proof fn lemma_ascending_entries_are_accepted(entries: Seq<WarcIndexEntry>, target: nat)
    requires
        entries_ascend(entries),
        forall|i: int| 0 <= i < entries.len() ==> entry_end(#[trigger] entries[i]) <= u64::MAX,
    ensures
        coalesced(entries, target) is Ok,
    decreases entries.len(),
{
    if entries.len() > 0 {
        let shorter = entries.drop_last();
        assert forall|i: int| 0 <= i < shorter.len() implies entry_end(#[trigger] shorter[i])
            <= u64::MAX by {
            assert(shorter[i] == entries[i]);
        }
        assert forall|i: int, j: int| 0 <= i < j < shorter.len() implies entry_end(
            #[trigger] shorter[i],
        ) <= (#[trigger] shorter[j]).offset by {
            assert(shorter[i] == entries[i] && shorter[j] == entries[j]);
        }
        lemma_ascending_entries_are_accepted(shorter, target);
        lemma_accepted_entries_ascend(shorter, target);
        assert(entry_end(entries[entries.len() - 1]) <= u64::MAX);
        if shorter.len() > 0 {
            assert(entry_end(entries[entries.len() - 2]) <= entries[entries.len() - 1].offset);
        } else {
            assert(shorter =~= Seq::empty());
        }
    }
}

/// An index is accepted where in archive order each entry ends before the next
/// begins or just there, and all of them can be counted.
pub proof fn law_separate_entries_are_accepted(
    entries: Seq<WarcIndexEntry>,
    max_read_parallelism: nat,
)
    requires
        max_read_parallelism > 0,
        entries_ascend(in_archive_order(entries)),
        forall|i: int| 0 <= i < entries.len() ==> entry_end(#[trigger] entries[i]) <= u64::MAX,
        total_length(entries) <= u64::MAX,
    ensures
        planned_units(entries, max_read_parallelism) is Ok,
{
    let sorted = in_archive_order(entries);
    lemma_archive_order_members(entries);
    lemma_archive_order(entries);
    assert forall|i: int| 0 <= i < sorted.len() implies entry_end(#[trigger] sorted[i])
        <= u64::MAX by {
        assert(sorted.contains(sorted[i]));
        assert(entries.contains(sorted[i]));
        let k = choose|k: int| 0 <= k < entries.len() && entries[k] == sorted[i];
        assert(entry_end(entries[k]) <= u64::MAX);
    }
    lemma_ascending_entries_are_accepted(
        sorted,
        target_length(total_length(entries), max_read_parallelism),
    );
}

/// An index cannot be read by no reader, nor where its bytes cannot be counted.
pub proof fn law_uncounted_indexes_are_refused(
    entries: Seq<WarcIndexEntry>,
    max_read_parallelism: nat,
)
    requires
        max_read_parallelism == 0 || total_length(entries) > 0xffff_ffff_ffff_ffff,
    ensures
        planned_units(entries, max_read_parallelism) is Err,
{
}

/// The bytes of an index are those of its entries.
pub proof fn law_lengths_add_up(entries: Seq<WarcIndexEntry>, entry: WarcIndexEntry)
    ensures
        total_length(entries.push(entry)) == total_length(entries) + entry.length,
        total_length(Seq::empty()) == 0,
{
    assert(entries.push(entry).drop_last() =~= entries);
}

/// Whether a unit holds an entry that it starts with, or that found less than
/// `target` bytes in it.
pub open spec fn takes_entry(unit: Range<u64>, entry: WarcIndexEntry, target: nat) -> bool {
    &&& unit.start <= entry.offset
    &&& entry_end(entry) <= unit.end
    &&& entry.offset == unit.start || entry.offset - unit.start < target
}

/// Whether one of the units takes an entry.
pub open spec fn is_taken(units: Seq<Range<u64>>, entry: WarcIndexEntry, target: nat) -> bool {
    exists|i: int| 0 <= i < units.len() && takes_entry(#[trigger] units[i], entry, target)
}

proof fn lemma_not_overfilled(entries: Seq<WarcIndexEntry>, target: nat)
    ensures
        coalesced(entries, target) matches Ok(units) ==> forall|i: int|
            0 <= i < entries.len() ==> is_taken(units, #[trigger] entries[i], target),
    decreases entries.len(),
{
    if entries.len() > 0 {
        let shorter = entries.drop_last();
        lemma_not_overfilled(shorter, target);
        lemma_units_ascend(shorter, target);
        if let Ok(more) = coalesced(entries, target) {
            let units = coalesced(shorter, target)->Ok_0;
            assert forall|i: int| 0 <= i < entries.len() implies is_taken(
                more,
                #[trigger] entries[i],
                target,
            ) by {
                if i < shorter.len() {
                    assert(shorter[i] == entries[i]);
                    assert(is_taken(units, shorter[i], target));
                    let k = choose|k: int|
                        0 <= k < units.len() && takes_entry(
                            #[trigger] units[k],
                            entries[i],
                            target,
                        );
                    assert(takes_entry(more[k], entries[i], target));
                } else {
                    assert(takes_entry(more[more.len() - 1], entries[i], target));
                }
            }
        }
    }
}

/// Work units are not overfilled: an entry joins a unit only while the unit is
/// short of an equal share of the indexed bytes.
pub proof fn law_units_are_not_overfilled(
    entries: Seq<WarcIndexEntry>,
    max_read_parallelism: nat,
    units: Seq<Range<u64>>,
    entry: WarcIndexEntry,
)
    requires
        planned_units(entries, max_read_parallelism) == Ok::<Seq<Range<u64>>, Seq<char>>(units),
        entries.contains(entry),
    ensures
        exists|i: int|
            0 <= i < units.len() && (#[trigger] units[i]).start <= entry.offset && entry_end(entry)
                <= units[i].end && (entry.offset == units[i].start || (entry.offset
                - units[i].start) * max_read_parallelism < total_length(entries)),
{
    let sorted = in_archive_order(entries);
    let total = total_length(entries);
    let target = target_length(total, max_read_parallelism);
    lemma_archive_order_members(entries);
    lemma_archive_order(entries);
    lemma_not_overfilled(sorted, target);
    assert(sorted.contains(entry));
    let at = choose|at: int| 0 <= at < sorted.len() && sorted[at] == entry;
    assert(is_taken(units, sorted[at], target));
    let i = choose|i: int|
        0 <= i < units.len() && takes_entry(#[trigger] units[i], entry, target);
    if entry.offset != units[i].start {
        lemma_short_of_share(total, max_read_parallelism, entry.offset - units[i].start);
    }
}

proof fn lemma_short_of_share(total: nat, parallelism: nat, length: int)
    requires
        parallelism > 0,
        0 <= length < target_length(total, parallelism),
    ensures
        length * parallelism < total,
{
    let share = total / parallelism;
    vstd::arithmetic::div_mod::lemma_fundamental_div_mod(total as int, parallelism as int);
    assert(parallelism * share == share * parallelism) by (nonlinear_arith);
    if total % parallelism == 0 {
        assert(length * parallelism < share * parallelism) by (nonlinear_arith)
            requires
                length < share,
                parallelism > 0,
        ;
    } else {
        assert(length * parallelism <= share * parallelism) by (nonlinear_arith)
            requires
                length <= share,
                parallelism > 0,
        ;
    }
}

}
