//! The mathematical model of the summary table: which groups it has, in
//! which order, and which durations belong to each.
//!
//! A table is described over rows, one per run, that hold what the
//! statistics depend on: the UTC day of the run, its conclusion and its
//! duration.

use vstd::prelude::*;
use crate::duration_unit::DurationUnit;
use crate::granularity::Granularity;
use crate::sample::{mean_of, median_of, p95_of};

verus! {

/// What the statistics read of one run.
pub struct Row {
    /// The UTC calendar day on which the run was created.
    pub day: int,
    /// The conclusion of the run; empty where the run has none.
    pub status: Seq<char>,
    /// The duration of the run in milliseconds.
    pub millis: u64,
}

/// What the runs of one group have in common.
pub struct GroupKey {
    /// The day of the group; `None` where runs are grouped by conclusion alone.
    pub day: Option<int>,
    /// The conclusion of the group.
    pub status: Seq<char>,
}

/// One line of the summary table, durations in hundredths of the reporting unit.
pub struct GroupSummaryView {
    pub key: GroupKey,
    pub count: nat,
    pub mean_duration: nat,
    pub median_duration: nat,
    pub p95_duration: nat,
}

/// The group to which a row belongs.
pub open spec fn key_of(row: Row, granularity: Granularity) -> GroupKey {
    GroupKey {
        day: match granularity {
            Granularity::Daily => Some(row.day),
            Granularity::Total => None,
        },
        status: row.status,
    }
}

/// Whether some row belongs to the group `key`.
pub open spec fn occurs(rows: Seq<Row>, granularity: Granularity, key: GroupKey) -> bool {
    exists|i: int| 0 <= i < rows.len() && key_of(#[trigger] rows[i], granularity) == key
}

/// Whether group `a` is dated later than group `b`. Groups without a day
/// are never later than one another.
pub open spec fn dated_later(a: GroupKey, b: GroupKey) -> bool {
    match (a.day, b.day) {
        (Some(x), Some(y)) => x > y,
        _ => false,
    }
}

/// The position in `keys` just behind the last group that is not dated later than `key`.
pub open spec fn slot_for(keys: Seq<GroupKey>, key: GroupKey) -> int
    decreases keys.len(),
{
    if keys.len() == 0 {
        0
    } else if !dated_later(keys.last(), key) {
        keys.len() as int
    } else {
        slot_for(keys.drop_last(), key)
    }
}

/// The groups of the table in the order of its lines: by ascending day,
/// and among groups of one day (or without days) by first appearance in `rows`.
pub open spec fn group_keys(rows: Seq<Row>, granularity: Granularity) -> Seq<GroupKey>
    decreases rows.len(),
{
    if rows.len() == 0 {
        Seq::empty()
    } else {
        let earlier = group_keys(rows.drop_last(), granularity);
        let key = key_of(rows.last(), granularity);
        if earlier.contains(key) {
            earlier
        } else {
            earlier.insert(slot_for(earlier, key), key)
        }
    }
}

/// The durations of the rows that belong to the group `key`, in the order of the rows.
pub open spec fn group_millis(rows: Seq<Row>, granularity: Granularity, key: GroupKey) -> Seq<u64>
    decreases rows.len(),
{
    if rows.len() == 0 {
        Seq::empty()
    } else {
        let earlier = group_millis(rows.drop_last(), granularity, key);
        if key_of(rows.last(), granularity) == key {
            earlier.push(rows.last().millis)
        } else {
            earlier
        }
    }
}

/// The line of the table for a group with the given durations.
pub open spec fn summary_of(key: GroupKey, millis: Seq<u64>, unit: DurationUnit)
    -> GroupSummaryView {
    GroupSummaryView {
        key,
        count: millis.len(),
        mean_duration: mean_of(millis, unit),
        median_duration: median_of(millis, unit),
        p95_duration: p95_of(millis, unit),
    }
}

/// The lines of the table for the groups `keys`.
pub open spec fn summaries_for(
    rows: Seq<Row>,
    unit: DurationUnit,
    granularity: Granularity,
    keys: Seq<GroupKey>,
) -> Seq<GroupSummaryView> {
    Seq::new(
        keys.len(),
        |j: int| summary_of(keys[j], group_millis(rows, granularity, keys[j]), unit),
    )
}

/// The summary table of `rows`.
pub open spec fn summaries(rows: Seq<Row>, unit: DurationUnit, granularity: Granularity) -> Seq<
    GroupSummaryView,
> {
    summaries_for(rows, unit, granularity, group_keys(rows, granularity))
}

/// The sum of the counts of the lines.
pub open spec fn total_count(lines: Seq<GroupSummaryView>) -> nat
    decreases lines.len(),
{
    if lines.len() == 0 {
        0
    } else {
        total_count(lines.drop_last()) + lines.last().count
    }
}

/// The groups to which the rows belong, one entry per row.
pub open spec fn row_keys(rows: Seq<Row>, granularity: Granularity) -> Seq<GroupKey> {
    Seq::new(rows.len(), |i: int| key_of(rows[i], granularity))
}

/// The position of a new group lies within the groups or at their end.
pub proof fn lemma_slot_in_bounds(keys: Seq<GroupKey>, key: GroupKey)
    ensures
        0 <= slot_for(keys, key) <= keys.len(),
    decreases keys.len(),
{
    if keys.len() > 0 && dated_later(keys.last(), key) {
        lemma_slot_in_bounds(keys.drop_last(), key);
    }
}

/// Putting a value that a duplicate-free sequence lacks into it leaves it
/// duplicate-free, and adds that value to what it contains and nothing else.
pub proof fn lemma_insert_fresh<T>(items: Seq<T>, at: int, item: T)
    requires
        0 <= at <= items.len(),
        items.no_duplicates(),
        !items.contains(item),
    ensures
        items.insert(at, item).no_duplicates(),
        forall|other: T| #[trigger]
            items.insert(at, item).contains(other) <==> (other == item || items.contains(other)),
{
    let grown = items.insert(at, item);
    assert forall|i: int, j: int| 0 <= i < grown.len() && 0 <= j < grown.len() && i != j implies grown[i]
        != grown[j] by {
        let a = if i < at { i } else { i - 1 };
        let b = if j < at { j } else { j - 1 };
        if i == at {
            assert(items.contains(items[b]));
        } else if j == at {
            assert(items.contains(items[a]));
        } else {
            assert(items[a] != items[b]);
        }
    }
    assert forall|other: T| #[trigger]
        grown.contains(other) <==> (other == item || items.contains(other)) by {
        if grown.contains(other) {
            let i = choose|i: int| 0 <= i < grown.len() && grown[i] == other;
            if i < at {
                assert(items[i] == other);
            } else if i > at {
                assert(items[i - 1] == other);
            }
        }
        if other == item {
            assert(grown[at] == other);
        }
        if items.contains(other) {
            let i = choose|i: int| 0 <= i < items.len() && items[i] == other;
            if i < at {
                assert(grown[i] == other);
            } else {
                assert(grown[i + 1] == other);
            }
        }
    }
}

/// No group has two lines.
pub proof fn lemma_group_keys_distinct(rows: Seq<Row>, granularity: Granularity)
    ensures
        group_keys(rows, granularity).no_duplicates(),
    decreases rows.len(),
{
    if rows.len() > 0 {
        let earlier = group_keys(rows.drop_last(), granularity);
        let key = key_of(rows.last(), granularity);
        lemma_group_keys_distinct(rows.drop_last(), granularity);
        if !earlier.contains(key) {
            lemma_slot_in_bounds(earlier, key);
            lemma_insert_fresh(earlier, slot_for(earlier, key), key);
        }
    }
}

/// The table has a line for a group exactly if some row belongs to it.
pub proof fn lemma_group_keys_contains(rows: Seq<Row>, granularity: Granularity, key: GroupKey)
    ensures
        group_keys(rows, granularity).contains(key) <==> occurs(rows, granularity, key),
    decreases rows.len(),
{
    if rows.len() > 0 {
        let shorter = rows.drop_last();
        let earlier = group_keys(shorter, granularity);
        let last_key = key_of(rows.last(), granularity);
        lemma_group_keys_contains(shorter, granularity, key);
        lemma_group_keys_contains(shorter, granularity, last_key);
        lemma_group_keys_distinct(shorter, granularity);
        if !earlier.contains(last_key) {
            lemma_slot_in_bounds(earlier, last_key);
            lemma_insert_fresh(earlier, slot_for(earlier, last_key), last_key);
        }
        if occurs(rows, granularity, key) {
            let i = choose|i: int| 0 <= i < rows.len() && key_of(#[trigger] rows[i], granularity) == key;
            if i < rows.len() - 1 {
                assert(shorter[i] == rows[i]);
            }
        }
        if occurs(shorter, granularity, key) {
            let i = choose|i: int|
                0 <= i < shorter.len() && key_of(#[trigger] shorter[i], granularity) == key;
            assert(rows[i] == shorter[i]);
        }
        if key == last_key {
            assert(rows[rows.len() - 1] == rows.last());
        }
    }
}

/// A group to which no row belongs has no durations.
pub proof fn lemma_absent_group_is_empty(rows: Seq<Row>, granularity: Granularity, key: GroupKey)
    requires
        !occurs(rows, granularity, key),
    ensures
        group_millis(rows, granularity, key) == Seq::<u64>::empty(),
    decreases rows.len(),
{
    if rows.len() > 0 {
        let shorter = rows.drop_last();
        assert(rows[rows.len() - 1] == rows.last());
        assert(!occurs(shorter, granularity, key)) by {
            if occurs(shorter, granularity, key) {
                let i = choose|i: int|
                    0 <= i < shorter.len() && key_of(#[trigger] shorter[i], granularity) == key;
                assert(rows[i] == shorter[i]);
            }
        }
        lemma_absent_group_is_empty(shorter, granularity, key);
    }
}

/// Whether no group stands before a group that is dated earlier.
pub open spec fn is_day_ordered(keys: Seq<GroupKey>) -> bool {
    forall|i: int, j: int| 0 <= i < j < keys.len() ==> !dated_later(keys[i], keys[j])
}

/// Whether the groups all have a day (`dated`) or all have none.
pub open spec fn is_uniform(keys: Seq<GroupKey>, dated: bool) -> bool {
    forall|i: int| 0 <= i < keys.len() ==> (#[trigger] keys[i]).day is Some == dated
}

/// Among day-ordered groups, the position of a new group stands behind
/// every group that is not dated later and before every group that is.
pub proof fn lemma_slot_separates(keys: Seq<GroupKey>, key: GroupKey, dated: bool)
    requires
        is_day_ordered(keys),
        is_uniform(keys, dated),
        key.day is Some == dated,
    ensures
        forall|i: int| 0 <= i < slot_for(keys, key) ==> !dated_later(#[trigger] keys[i], key),
        forall|i: int|
            slot_for(keys, key) <= i < keys.len() ==> dated_later(#[trigger] keys[i], key),
    decreases keys.len(),
{
    lemma_slot_in_bounds(keys, key);
    if keys.len() > 0 {
        let last = keys.len() - 1;
        if !dated_later(keys.last(), key) {
            assert forall|i: int| 0 <= i < keys.len() implies !dated_later(
                #[trigger] keys[i],
                key,
            ) by {
                if i < last {
                    assert(!dated_later(keys[i], keys[last]));
                }
            }
        } else {
            let shorter = keys.drop_last();
            assert(is_day_ordered(shorter)) by {
                assert forall|i: int, j: int| 0 <= i < j < shorter.len() implies !dated_later(
                    shorter[i],
                    shorter[j],
                ) by {
                    assert(!dated_later(keys[i], keys[j]));
                }
            }
            assert(is_uniform(shorter, dated)) by {
                assert forall|i: int| 0 <= i < shorter.len() implies (#[trigger] shorter[i]).day
                    is Some == dated by {
                    assert(keys[i].day is Some == dated);
                }
            }
            lemma_slot_separates(shorter, key, dated);
            lemma_slot_in_bounds(shorter, key);
            assert forall|i: int| 0 <= i < slot_for(keys, key) implies !dated_later(
                #[trigger] keys[i],
                key,
            ) by {
                assert(!dated_later(shorter[i], key));
            }
            assert forall|i: int| slot_for(keys, key) <= i < keys.len() implies dated_later(
                #[trigger] keys[i],
                key,
            ) by {
                if i < last {
                    assert(dated_later(shorter[i], key));
                }
            }
        }
    }
}

/// The lines of the table stand in ascending order of their days. With
/// daily granularity every group has a day; with total granularity none has.
pub proof fn lemma_group_keys_day_ordered(rows: Seq<Row>, granularity: Granularity)
    ensures
        is_day_ordered(group_keys(rows, granularity)),
        is_uniform(group_keys(rows, granularity), granularity == Granularity::Daily),
    decreases rows.len(),
{
    if rows.len() > 0 {
        let dated = granularity == Granularity::Daily;
        let earlier = group_keys(rows.drop_last(), granularity);
        let key = key_of(rows.last(), granularity);
        lemma_group_keys_day_ordered(rows.drop_last(), granularity);
        if !earlier.contains(key) {
            let slot = slot_for(earlier, key);
            lemma_slot_in_bounds(earlier, key);
            lemma_slot_separates(earlier, key, dated);
            let grown = earlier.insert(slot, key);
            assert forall|i: int| 0 <= i < grown.len() implies (#[trigger] grown[i]).day
                is Some == dated by {
                if i < slot {
                    assert(earlier[i].day is Some == dated);
                } else if i > slot {
                    assert(earlier[i - 1].day is Some == dated);
                }
            }
            assert forall|i: int, j: int| 0 <= i < j < grown.len() implies !dated_later(
                grown[i],
                grown[j],
            ) by {
                if j < slot {
                    assert(!dated_later(earlier[i], earlier[j]));
                } else if j == slot {
                    assert(!dated_later(earlier[i], key));
                } else if i < slot {
                    assert(!dated_later(earlier[i], earlier[j - 1]));
                } else if i == slot {
                    assert(dated_later(earlier[j - 1], key));
                    assert(earlier[j - 1].day is Some == dated);
                } else {
                    assert(!dated_later(earlier[i - 1], earlier[j - 1]));
                }
            }
        }
    }
}

/// Putting a line into a table raises the sum of the counts by the count of that line.
pub proof fn lemma_total_count_insert(lines: Seq<GroupSummaryView>, at: int, line: GroupSummaryView)
    requires
        0 <= at <= lines.len(),
    ensures
        total_count(lines.insert(at, line)) == total_count(lines) + line.count,
    decreases lines.len(),
{
    let grown = lines.insert(at, line);
    if at == lines.len() {
        assert(grown.drop_last() =~= lines);
    } else {
        assert(grown.drop_last() =~= lines.drop_last().insert(at, line));
        assert(grown.last() == lines.last());
        lemma_total_count_insert(lines.drop_last(), at, line);
    }
}

/// One more row raises the sum of the counts of distinct groups by one if
/// the row belongs to one of them, and leaves it unchanged if not.
pub proof fn lemma_total_count_grows(
    rows: Seq<Row>,
    row: Row,
    unit: DurationUnit,
    granularity: Granularity,
    keys: Seq<GroupKey>,
)
    requires
        keys.no_duplicates(),
    ensures
        total_count(summaries_for(rows.push(row), unit, granularity, keys)) == total_count(
            summaries_for(rows, unit, granularity, keys),
        ) + if keys.contains(key_of(row, granularity)) {
            1nat
        } else {
            0nat
        },
    decreases keys.len(),
{
    let more = rows.push(row);
    let key = key_of(row, granularity);
    assert(more.drop_last() =~= rows);
    if keys.len() > 0 {
        let shorter = keys.drop_last();
        assert(summaries_for(more, unit, granularity, keys).drop_last() =~= summaries_for(
            more,
            unit,
            granularity,
            shorter,
        ));
        assert(summaries_for(rows, unit, granularity, keys).drop_last() =~= summaries_for(
            rows,
            unit,
            granularity,
            shorter,
        ));
        lemma_total_count_grows(rows, row, unit, granularity, shorter);
        if shorter.contains(key) {
            let i = choose|i: int| 0 <= i < shorter.len() && shorter[i] == key;
            assert(keys[i] == key);
            assert(keys[keys.len() - 1] != keys[i]);
            assert(keys.contains(key));
        } else if keys.last() == key {
            assert(keys[keys.len() - 1] == key);
        } else if keys.contains(key) {
            let i = choose|i: int| 0 <= i < keys.len() && keys[i] == key;
            assert(shorter[i] == key);
        }
    }
}

/// Every run is counted in exactly one line: the counts of the table add
/// up to the number of rows.
pub proof fn lemma_counts_cover_rows(rows: Seq<Row>, unit: DurationUnit, granularity: Granularity)
    ensures
        total_count(summaries(rows, unit, granularity)) == rows.len(),
    decreases rows.len(),
{
    if rows.len() > 0 {
        let shorter = rows.drop_last();
        let earlier = group_keys(shorter, granularity);
        let key = key_of(rows.last(), granularity);
        assert(shorter.push(rows.last()) =~= rows);
        lemma_counts_cover_rows(shorter, unit, granularity);
        lemma_group_keys_distinct(shorter, granularity);
        lemma_total_count_grows(shorter, rows.last(), unit, granularity, earlier);
        if !earlier.contains(key) {
            let slot = slot_for(earlier, key);
            let line = summary_of(key, group_millis(rows, granularity, key), unit);
            lemma_slot_in_bounds(earlier, key);
            lemma_group_keys_contains(shorter, granularity, key);
            lemma_absent_group_is_empty(shorter, granularity, key);
            assert(summaries_for(rows, unit, granularity, earlier.insert(slot, key))
                =~= summaries_for(rows, unit, granularity, earlier).insert(slot, line));
            lemma_total_count_insert(summaries_for(rows, unit, granularity, earlier), slot, line);
        }
    }
}

/// The table has one line for each distinct group among the rows, so it
/// never has more lines than the rows have distinct groups.
pub proof fn lemma_one_line_per_group(rows: Seq<Row>, unit: DurationUnit, granularity: Granularity)
    ensures
        summaries(rows, unit, granularity).len() == row_keys(rows, granularity).to_set().len(),
        summaries(rows, unit, granularity).len() <= rows.len(),
{
    let keys = group_keys(rows, granularity);
    let all = row_keys(rows, granularity);
    lemma_group_keys_distinct(rows, granularity);
    keys.unique_seq_to_set();
    assert(keys.to_set() =~= all.to_set()) by {
        assert forall|key: GroupKey| keys.to_set().contains(key) <==> all.to_set().contains(
            key,
        ) by {
            lemma_group_keys_contains(rows, granularity, key);
            if occurs(rows, granularity, key) {
                let i = choose|i: int|
                    0 <= i < rows.len() && key_of(#[trigger] rows[i], granularity) == key;
                assert(all[i] == key);
            }
            if all.contains(key) {
                let i = choose|i: int| 0 <= i < all.len() && all[i] == key;
                assert(key_of(rows[i], granularity) == key);
            }
        }
    }
    all.lemma_cardinality_of_set();
}

/// A group to which some row belongs has at least one duration, so every
/// line of the table counts at least one run.
pub proof fn lemma_present_group_is_nonempty(
    rows: Seq<Row>,
    granularity: Granularity,
    key: GroupKey,
)
    requires
        occurs(rows, granularity, key),
    ensures
        group_millis(rows, granularity, key).len() > 0,
    decreases rows.len(),
{
    let i = choose|i: int| 0 <= i < rows.len() && key_of(#[trigger] rows[i], granularity) == key;
    if i < rows.len() - 1 {
        let shorter = rows.drop_last();
        assert(shorter[i] == rows[i]);
        lemma_present_group_is_nonempty(shorter, granularity, key);
    }
}

/// The position in `rows` of the first row that belongs to the group `key`.
pub open spec fn first_row(rows: Seq<Row>, granularity: Granularity, key: GroupKey) -> int
    decreases rows.len(),
{
    if rows.len() == 0 {
        0
    } else if occurs(rows.drop_last(), granularity, key) {
        first_row(rows.drop_last(), granularity, key)
    } else {
        rows.len() - 1
    }
}

/// The first row of a group to which some row belongs is a row of that group.
pub proof fn lemma_first_row_belongs(rows: Seq<Row>, granularity: Granularity, key: GroupKey)
    requires
        occurs(rows, granularity, key),
    ensures
        0 <= first_row(rows, granularity, key) < rows.len(),
        key_of(rows[first_row(rows, granularity, key)], granularity) == key,
    decreases rows.len(),
{
    let shorter = rows.drop_last();
    if occurs(shorter, granularity, key) {
        lemma_first_row_belongs(shorter, granularity, key);
        assert(shorter[first_row(shorter, granularity, key)] == rows[first_row(
            shorter,
            granularity,
            key,
        )]);
    } else {
        let i = choose|i: int|
            0 <= i < rows.len() && key_of(#[trigger] rows[i], granularity) == key;
        if i < rows.len() - 1 {
            assert(shorter[i] == rows[i]);
        }
    }
}

/// Lines of one day, and all lines where there are no days, stand in the
/// order in which their groups first appear among the rows.
pub proof fn lemma_groups_keep_first_appearance(
    rows: Seq<Row>,
    granularity: Granularity,
    i: int,
    j: int,
)
    requires
        0 <= i < j < group_keys(rows, granularity).len(),
        group_keys(rows, granularity)[i].day == group_keys(rows, granularity)[j].day,
    ensures
        first_row(rows, granularity, group_keys(rows, granularity)[i]) < first_row(
            rows,
            granularity,
            group_keys(rows, granularity)[j],
        ),
    decreases rows.len(),
{
    let keys = group_keys(rows, granularity);
    let shorter = rows.drop_last();
    let earlier = group_keys(shorter, granularity);
    let key = key_of(rows.last(), granularity);
    assert forall|k: int| 0 <= k < earlier.len() implies occurs(
        shorter,
        granularity,
        #[trigger] earlier[k],
    ) by {
        assert(earlier.contains(earlier[k]));
        lemma_group_keys_contains(shorter, granularity, earlier[k]);
    }
    if earlier.contains(key) {
        lemma_groups_keep_first_appearance(shorter, granularity, i, j);
    } else {
        let slot = slot_for(earlier, key);
        lemma_slot_in_bounds(earlier, key);
        lemma_group_keys_day_ordered(shorter, granularity);
        lemma_slot_separates(earlier, key, granularity == Granularity::Daily);
        lemma_group_keys_contains(shorter, granularity, key);
        if j < slot {
            lemma_groups_keep_first_appearance(shorter, granularity, i, j);
        } else if j == slot {
            lemma_first_row_belongs(shorter, granularity, earlier[i]);
        } else if i < slot {
            lemma_groups_keep_first_appearance(shorter, granularity, i, j - 1);
        } else if i == slot {
            assert(dated_later(earlier[j - 1], key));
        } else {
            lemma_groups_keep_first_appearance(shorter, granularity, i - 1, j - 1);
        }
    }
}

} // verus!
