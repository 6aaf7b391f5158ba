//! Workflow runs, their timings, and the summary table computed from them.

use vstd::prelude::*;
use crate::calendar::{
    date_label, has_four_digit_year, iso_date_text, utc_day, utc_day_of, FIRST_DAY, LAST_DAY,
};
use crate::duration_unit::DurationUnit;
use crate::granularity::Granularity;
use crate::grouping::{
    dated_later, group_keys, group_millis, key_of, lemma_absent_group_is_empty,
    lemma_counts_cover_rows, lemma_group_keys_contains, lemma_group_keys_distinct,
    lemma_one_line_per_group, lemma_present_group_is_nonempty, row_keys, slot_for,
    summaries, summary_of, total_count, GroupKey, GroupSummaryView, Row,
};
use crate::sample::DurationSample;

verus! {

/// One execution of the workflow.
#[derive(Debug, PartialEq, Eq)]
pub struct WorkflowRun {
    /// The identifier under which the hosting service knows the run.
    pub id: u64,
    /// The moment at which the run was created, in seconds since 1970-01-01T00:00:00Z.
    pub created_at: i64,
    /// How the run ended (`success`, `failure`, ...), where the service reports it.
    pub conclusion: Option<String>,
}

/// The timing record of one run.
#[derive(Debug, Clone, Copy, PartialEq, Eq, Structural)]
pub struct WorkflowRunTiming {
    /// The wall-clock duration of the run in milliseconds.
    pub run_duration_ms: u64,
}

/// Why no summary table could be computed.
#[derive(Debug, Clone, Copy, PartialEq, Eq, Structural)]
pub enum ComputationError {
    /// There are not as many timings as runs.
    LengthMismatch,
    /// A run was created on a day outside the years 0000 to 9999.
    DateOutOfRange,
}

impl Clone for WorkflowRun {
    fn clone(&self) -> (copy: Self)
        ensures
            copy == *self,
    {
        WorkflowRun {
            id: self.id,
            created_at: self.created_at,
            conclusion: match &self.conclusion {
                Some(text) => Some(text.clone()),
                None => None,
            },
        }
    }
}

impl WorkflowRun {
    /// The conclusion of the run, empty where it has none.
    pub open spec fn status(&self) -> Seq<char> {
        match self.conclusion {
            Some(text) => text@,
            None => Seq::empty(),
        }
    }

    /// The UTC calendar day on which the run was created.
    pub open spec fn day(&self) -> int {
        utc_day(self.created_at as int)
    }

    /// Returns the conclusion of the run, empty where it has none.
    pub fn status_label(&self) -> (label: String)
        ensures
            label@ == self.status(),
    {
        match &self.conclusion {
            Some(text) => text.clone(),
            None => String::new(),
        }
    }

    /// Returns the UTC calendar day on which the run was created.
    pub fn utc_day(&self) -> (day: i64)
        ensures
            day == self.day(),
    {
        utc_day_of(self.created_at)
    }
}

/// What the statistics read of a run and its timing.
pub open spec fn row_of(run: WorkflowRun, timing: WorkflowRunTiming) -> Row {
    Row { day: run.day(), status: run.status(), millis: timing.run_duration_ms }
}

/// The rows of runs and their timings, paired by position.
pub open spec fn rows_of(runs: Seq<WorkflowRun>, timings: Seq<WorkflowRunTiming>) -> Seq<Row>
    recommends
        runs.len() == timings.len(),
{
    Seq::new(runs.len(), |i: int| row_of(runs[i], timings[i]))
}

/// One line of the summary table, its day as a day number.
///
/// Durations are in hundredths of the reporting unit.
#[derive(Debug, PartialEq, Eq)]
pub struct GroupSummary {
    /// The day of the group; `None` where runs are grouped by conclusion alone.
    pub day: Option<i64>,
    /// The conclusion of the group.
    pub status: String,
    /// The number of runs in the group.
    pub count: u64,
    pub mean_duration: u64,
    pub median_duration: u64,
    pub p95_duration: u64,
}

/// A day number, or its absence, as a mathematical integer.
pub open spec fn day_view(day: Option<i64>) -> Option<int> {
    match day {
        Some(d) => Some(d as int),
        None => None,
    }
}

impl View for GroupSummary {
    type V = GroupSummaryView;

    open spec fn view(&self) -> GroupSummaryView {
        GroupSummaryView {
            key: GroupKey { day: day_view(self.day), status: self.status@ },
            count: self.count as nat,
            mean_duration: self.mean_duration as nat,
            median_duration: self.median_duration as nat,
            p95_duration: self.p95_duration as nat,
        }
    }
}

impl Clone for GroupSummary {
    fn clone(&self) -> (copy: Self)
        ensures
            copy == *self,
    {
        GroupSummary {
            day: self.day,
            status: self.status.clone(),
            count: self.count,
            mean_duration: self.mean_duration,
            median_duration: self.median_duration,
            p95_duration: self.p95_duration,
        }
    }
}

/// The lines of a table as mathematical values.
pub open spec fn summary_views(lines: Seq<GroupSummary>) -> Seq<GroupSummaryView> {
    Seq::new(lines.len(), |i: int| lines[i]@)
}

/// The runs of one group while the table is built.
struct Bucket {
    day: Option<i64>,
    status: String,
    sample: DurationSample,
}

impl Bucket {
    spec fn key(&self) -> GroupKey {
        GroupKey { day: day_view(self.day), status: self.status@ }
    }
}

/// Whether the buckets are the groups of `rows`, in the order of the table,
/// each with the durations of its rows.
spec fn buckets_hold(buckets: Seq<Bucket>, rows: Seq<Row>, granularity: Granularity) -> bool {
    &&& buckets.len() == group_keys(rows, granularity).len()
    &&& forall|j: int|
        0 <= j < buckets.len() ==> {
            &&& (#[trigger] buckets[j]).key() == group_keys(rows, granularity)[j]
            &&& buckets[j].sample.wf()
            &&& buckets[j].sample@ == group_millis(rows, granularity, buckets[j].key())
        }
}

/// Whether day `a` is later than day `b`; an absent day is never later or earlier.
fn is_later(a: Option<i64>, b: Option<i64>) -> (later: bool)
    ensures
        later == dated_later(
            GroupKey { day: day_view(a), status: Seq::empty() },
            GroupKey { day: day_view(b), status: Seq::empty() },
        ),
{
    match (a, b) {
        (Some(x), Some(y)) => x > y,
        _ => false,
    }
}

/// Whether two days are the same day, or both absent.
fn is_same_day(a: Option<i64>, b: Option<i64>) -> (same: bool)
    ensures
        same == (day_view(a) == day_view(b)),
{
    match (a, b) {
        (Some(x), Some(y)) => x == y,
        (None, None) => true,
        _ => false,
    }
}

/// Finds the bucket of the group with the given day and conclusion.
fn find_bucket(buckets: &Vec<Bucket>, day: Option<i64>, status: &String) -> (found: Option<usize>)
    ensures
        match found {
            Some(j) => j < buckets.len() && buckets[j as int].key() == (GroupKey {
                day: day_view(day),
                status: status@,
            }),
            None => forall|j: int|
                0 <= j < buckets.len() ==> (#[trigger] buckets[j]).key() != (GroupKey {
                    day: day_view(day),
                    status: status@,
                }),
        },
{
    let mut j: usize = 0;
    while j < buckets.len()
        invariant
            j <= buckets.len(),
            forall|k: int|
                0 <= k < j ==> (#[trigger] buckets[k]).key() != (GroupKey {
                    day: day_view(day),
                    status: status@,
                }),
        decreases buckets.len() - j,
    {
        if is_same_day(buckets[j].day, day) && buckets[j].status == *status {
            return Some(j);
        }
        j += 1;
    }
    None
}

/// Finds the position at which the bucket of a new group dated `day` belongs.
fn find_slot(buckets: &Vec<Bucket>, day: Option<i64>, Ghost(key): Ghost<GroupKey>) -> (slot: usize)
    requires
        key.day == day_view(day),
    ensures
        slot == slot_for(Seq::new(buckets.len() as nat, |j: int| buckets[j].key()), key),
        slot <= buckets.len(),
{
    let ghost keys = Seq::new(buckets.len() as nat, |j: int| buckets[j].key());
    let mut slot: usize = buckets.len();
    assert(keys.take(slot as int) =~= keys);
    while slot > 0 && is_later(buckets[slot - 1].day, day)
        invariant
            slot <= buckets.len(),
            keys == Seq::new(buckets.len() as nat, |j: int| buckets[j].key()),
            key.day == day_view(day),
            slot_for(keys, key) == slot_for(keys.take(slot as int), key),
        decreases slot,
    {
        assert(keys.take(slot as int).drop_last() =~= keys.take(slot - 1));
        assert(keys.take(slot as int).last() == buckets[slot - 1].key());
        slot -= 1;
    }
    proof {
        if slot > 0 {
            assert(keys.take(slot as int).last() == buckets[slot - 1].key());
        }
    }
    slot
}

/// Computes the summary table of the runs, with days as day numbers.
///
/// Runs and timings are paired by position. The table has one line for each
/// group of runs; its counts add up to the number of runs.
pub fn summarize_runs(
    runs: &[WorkflowRun],
    timings: &[WorkflowRunTiming],
    duration_unit: DurationUnit,
    granularity: Granularity,
) -> (result: Result<Vec<GroupSummary>, ComputationError>)
    ensures
        runs@.len() != timings@.len() ==> result matches Err(ComputationError::LengthMismatch),
        runs@.len() == timings@.len() ==> (result matches Ok(lines) && summary_views(lines@)
            == summaries(rows_of(runs@, timings@), duration_unit, granularity)),
        result matches Ok(lines) ==> total_count(summary_views(lines@)) == runs@.len()
            && lines@.len() <= runs@.len() && lines@.len() == row_keys(
            rows_of(runs@, timings@),
            granularity,
        ).to_set().len(),
{
    let n: usize = runs.len();
    if timings.len() != n {
        return Err(ComputationError::LengthMismatch);
    }
    let ghost rows = rows_of(runs@, timings@);
    let mut buckets: Vec<Bucket> = Vec::new();
    let mut i: usize = 0;
    while i < n
        invariant
            i <= n,
            n == runs@.len(),
            n == timings@.len(),
            rows == rows_of(runs@, timings@),
            buckets_hold(buckets@, rows.take(i as int), granularity),
        decreases n - i,
    {
        let run = &runs[i];
        let day: Option<i64> = match granularity {
            Granularity::Daily => Some(run.utc_day()),
            Granularity::Total => None,
        };
        let status: String = run.status_label();
        let ms: u64 = timings[i].run_duration_ms;
        let ghost before = rows.take(i as int);
        let ghost after = rows.take(i + 1);
        let ghost key = key_of(rows[i as int], granularity);
        let ghost keys = group_keys(before, granularity);
        let ghost old_buckets = buckets@;
        proof {
            assert(after.drop_last() =~= before);
            assert(after.last() == rows[i as int]);
            assert(key == GroupKey { day: day_view(day), status: status@ });
            lemma_group_keys_distinct(before, granularity);
        }
        match find_bucket(&buckets, day, &status) {
            Some(j) => {
                let mut bucket = buckets.remove(j);
                bucket.sample.add(ms);
                buckets.insert(j, bucket);
                proof {
                    assert(keys[j as int] == key);
                    assert(keys.contains(key));
                    assert(group_keys(after, granularity) == keys);
                    assert forall|k: int| 0 <= k < buckets@.len() implies {
                        &&& (#[trigger] buckets@[k]).key() == keys[k]
                        &&& buckets@[k].sample.wf()
                        &&& buckets@[k].sample@ == group_millis(
                            after,
                            granularity,
                            buckets@[k].key(),
                        )
                    } by {
                        if k != j {
                            assert(buckets@[k] == old_buckets[k]);
                            assert(keys[k] != keys[j as int]);
                        }
                    }
                }
            },
            None => {
                let slot = find_slot(&buckets, day, Ghost(key));
                let mut sample = DurationSample::new();
                sample.add(ms);
                proof {
                    assert(Seq::new(old_buckets.len(), |j: int| old_buckets[j].key()) =~= keys);
                    assert(!keys.contains(key)) by {
                        if keys.contains(key) {
                            let k = choose|k: int| 0 <= k < keys.len() && keys[k] == key;
                            assert(old_buckets[k].key() == key);
                        }
                    }
                    lemma_group_keys_contains(before, granularity, key);
                    lemma_absent_group_is_empty(before, granularity, key);
                    assert(Seq::<u64>::empty().push(ms) =~= group_millis(after, granularity, key));
                }
                buckets.insert(slot, Bucket { day, status, sample });
                proof {
                    let grown = keys.insert(slot as int, key);
                    assert(group_keys(after, granularity) == grown);
                    assert forall|k: int| 0 <= k < buckets@.len() implies {
                        &&& (#[trigger] buckets@[k]).key() == grown[k]
                        &&& buckets@[k].sample.wf()
                        &&& buckets@[k].sample@ == group_millis(
                            after,
                            granularity,
                            buckets@[k].key(),
                        )
                    } by {
                        if k < slot {
                            assert(buckets@[k] == old_buckets[k]);
                            assert(keys[k] != key);
                        } else if k > slot {
                            assert(buckets@[k] == old_buckets[k - 1]);
                            assert(keys[k - 1] != key);
                        }
                    }
                }
            },
        }
        i += 1;
    }
    proof {
        assert(rows.take(n as int) =~= rows);
    }
    let ghost keys = group_keys(rows, granularity);
    let mut lines: Vec<GroupSummary> = Vec::new();
    let mut j: usize = 0;
    while j < buckets.len()
        invariant
            j <= buckets.len(),
            keys == group_keys(rows, granularity),
            buckets_hold(buckets@, rows, granularity),
            lines@.len() == j,
            rows.len() <= usize::MAX,
            forall|k: int|
                0 <= k < j ==> (#[trigger] lines@[k])@ == summary_of(
                    keys[k],
                    group_millis(rows, granularity, keys[k]),
                    duration_unit,
                ),
        decreases buckets.len() - j,
    {
        let bucket = &buckets[j];
        proof {
            assert(keys.contains(keys[j as int]));
            lemma_group_keys_contains(rows, granularity, keys[j as int]);
            lemma_present_group_is_nonempty(rows, granularity, keys[j as int]);
        }
        let count: usize = bucket.sample.count();
        let mean: u64 = bucket.sample.mean(duration_unit).unwrap();
        let median: u64 = bucket.sample.median(duration_unit).unwrap();
        let p95: u64 = bucket.sample.p95(duration_unit).unwrap();
        lines.push(
            GroupSummary {
                day: bucket.day,
                status: bucket.status.clone(),
                count: count as u64,
                mean_duration: mean,
                median_duration: median,
                p95_duration: p95,
            },
        );
        j += 1;
    }
    proof {
        assert(summary_views(lines@) =~= summaries(rows, duration_unit, granularity));
        lemma_counts_cover_rows(rows, duration_unit, granularity);
        lemma_one_line_per_group(rows, duration_unit, granularity);
    }
    Ok(lines)
}

/// One line of the summary table as it is reported, its day as text.
///
/// Durations are in hundredths of the reporting unit.
#[derive(Debug, PartialEq, Eq)]
pub struct StatGroup {
    /// The day of the group as `YYYY-MM-DD`; `None` where runs are grouped by conclusion alone.
    pub date: Option<String>,
    /// The conclusion of the group.
    pub status: String,
    /// The number of runs in the group.
    pub count: u64,
    pub mean_duration: u64,
    pub median_duration: u64,
    pub p95_duration: u64,
}

/// A reported line as a mathematical value.
pub struct StatGroupView {
    pub date: Option<Seq<char>>,
    pub status: Seq<char>,
    pub count: nat,
    pub mean_duration: nat,
    pub median_duration: nat,
    pub p95_duration: nat,
}

impl View for StatGroup {
    type V = StatGroupView;

    open spec fn view(&self) -> StatGroupView {
        StatGroupView {
            date: match self.date {
                Some(text) => Some(text@),
                None => None,
            },
            status: self.status@,
            count: self.count as nat,
            mean_duration: self.mean_duration as nat,
            median_duration: self.median_duration as nat,
            p95_duration: self.p95_duration as nat,
        }
    }
}

impl Clone for StatGroup {
    fn clone(&self) -> (copy: Self)
        ensures
            copy == *self,
    {
        StatGroup {
            date: match &self.date {
                Some(text) => Some(text.clone()),
                None => None,
            },
            status: self.status.clone(),
            count: self.count,
            mean_duration: self.mean_duration,
            median_duration: self.median_duration,
            p95_duration: self.p95_duration,
        }
    }
}

/// The reported form of a line: the same numbers, the day written as text.
pub open spec fn labelled(line: GroupSummaryView) -> StatGroupView {
    StatGroupView {
        date: match line.key.day {
            Some(day) => Some(iso_date_text(day)),
            None => None,
        },
        status: line.key.status,
        count: line.count,
        mean_duration: line.mean_duration,
        median_duration: line.median_duration,
        p95_duration: line.p95_duration,
    }
}

/// The reported form of a table, line by line.
pub open spec fn labelled_all(lines: Seq<GroupSummaryView>) -> Seq<StatGroupView> {
    Seq::new(lines.len(), |j: int| labelled(lines[j]))
}

/// The reported summary table of `rows`.
pub open spec fn statistics(rows: Seq<Row>, unit: DurationUnit, granularity: Granularity) -> Seq<
    StatGroupView,
> {
    labelled_all(summaries(rows, unit, granularity))
}

/// The lines of a reported table as mathematical values.
pub open spec fn table_views(table: Seq<StatGroup>) -> Seq<StatGroupView> {
    Seq::new(table.len(), |i: int| table[i]@)
}

/// The sum of the counts of a reported table.
pub open spec fn table_total(table: Seq<StatGroupView>) -> nat
    decreases table.len(),
{
    if table.len() == 0 {
        0
    } else {
        table_total(table.drop_last()) + table.last().count
    }
}

/// Whether every run was created on a day within the years 0000 to 9999.
pub open spec fn all_dated(runs: Seq<WorkflowRun>) -> bool {
    forall|i: int| 0 <= i < runs.len() ==> has_four_digit_year((#[trigger] runs[i]).day())
}

/// What the statistics of the given runs and timings are: the reported
/// table, or the reason why there is none.
pub open spec fn expected_statistics(
    runs: Seq<WorkflowRun>,
    timings: Seq<WorkflowRunTiming>,
    unit: DurationUnit,
    granularity: Granularity,
) -> Result<Seq<StatGroupView>, ComputationError> {
    if runs.len() != timings.len() {
        Err(ComputationError::LengthMismatch)
    } else if !all_dated(runs) {
        Err(ComputationError::DateOutOfRange)
    } else {
        Ok(statistics(rows_of(runs, timings), unit, granularity))
    }
}

/// The outcome of a computation as a mathematical value.
pub open spec fn outcome_view(outcome: Result<Vec<StatGroup>, ComputationError>) -> Result<
    Seq<StatGroupView>,
    ComputationError,
> {
    match outcome {
        Ok(table) => Ok(table_views(table@)),
        Err(error) => Err(error),
    }
}

/// Writing the days as text changes no count.
pub proof fn lemma_labelled_total(lines: Seq<GroupSummaryView>)
    ensures
        table_total(labelled_all(lines)) == total_count(lines),
    decreases lines.len(),
{
    if lines.len() > 0 {
        assert(labelled_all(lines).drop_last() =~= labelled_all(lines.drop_last()));
        lemma_labelled_total(lines.drop_last());
    }
}

/// Every run is counted in exactly one line of the reported table: its
/// counts add up to the number of runs, whatever the granularity.
pub proof fn lemma_statistics_count_every_run(
    rows: Seq<Row>,
    unit: DurationUnit,
    granularity: Granularity,
)
    ensures
        table_total(statistics(rows, unit, granularity)) == rows.len(),
{
    lemma_labelled_total(summaries(rows, unit, granularity));
    lemma_counts_cover_rows(rows, unit, granularity);
}

/// The reported table has exactly one line for each distinct group among
/// the rows (day and conclusion, or conclusion alone), so it never has more
/// lines than there are distinct groups, nor more than there are runs.
pub proof fn lemma_statistics_line_count(
    rows: Seq<Row>,
    unit: DurationUnit,
    granularity: Granularity,
)
    ensures
        statistics(rows, unit, granularity).len() == row_keys(rows, granularity).to_set().len(),
        statistics(rows, unit, granularity).len() <= rows.len(),
{
    lemma_one_line_per_group(rows, unit, granularity);
}

/// Computing the statistics of the same runs and timings twice gives the
/// same outcome: the same table, line for line and character for
/// character, or the same error.
pub proof fn lemma_statistics_are_repeatable(
    first: Result<Vec<StatGroup>, ComputationError>,
    second: Result<Vec<StatGroup>, ComputationError>,
    runs: Seq<WorkflowRun>,
    timings: Seq<WorkflowRunTiming>,
    unit: DurationUnit,
    granularity: Granularity,
)
    requires
        outcome_view(first) == expected_statistics(runs, timings, unit, granularity),
        outcome_view(second) == expected_statistics(runs, timings, unit, granularity),
    ensures
        outcome_view(first) == outcome_view(second),
        first is Ok ==> table_views(first->Ok_0@) =~= table_views(second->Ok_0@),
{
}

impl GroupSummary {
    /// Returns the reported form of the line with `date` as the text of its day.
    pub fn with_date(&self, date: Option<String>) -> (group: StatGroup)
        ensures
            group.date == date,
            group.status@ == self.status@,
            group.count == self.count,
            group.mean_duration == self.mean_duration,
            group.median_duration == self.median_duration,
            group.p95_duration == self.p95_duration,
    {
        StatGroup {
            date,
            status: self.status.clone(),
            count: self.count,
            mean_duration: self.mean_duration,
            median_duration: self.median_duration,
            p95_duration: self.p95_duration,
        }
    }
}

/// Computes the summary table of the runs.
///
/// Runs and timings are paired by position. Each duration is converted into
/// `duration_unit`; runs are grouped by day and conclusion (daily) or by
/// conclusion alone (total); each line reports the number of runs of its
/// group and the mean, median and 95th percentile of their durations in
/// hundredths of the unit. Daily lines stand in ascending order of their days.
pub fn compute_workflow_statistics(
    runs: &[WorkflowRun],
    timings: &[WorkflowRunTiming],
    duration_unit: DurationUnit,
    granularity: Granularity,
) -> (result: Result<Vec<StatGroup>, ComputationError>)
    ensures
        outcome_view(result) == expected_statistics(runs@, timings@, duration_unit, granularity),
        result matches Ok(table) ==> table_total(table_views(table@)) == runs@.len()
            && table@.len() <= runs@.len(),
{
    let n: usize = runs.len();
    if timings.len() != n {
        return Err(ComputationError::LengthMismatch);
    }
    let mut i: usize = 0;
    while i < n
        invariant
            i <= n,
            n == runs@.len(),
            n == timings@.len(),
            forall|k: int| 0 <= k < i ==> has_four_digit_year((#[trigger] runs@[k]).day()),
        decreases n - i,
    {
        let day: i64 = runs[i].utc_day();
        if day < FIRST_DAY || day > LAST_DAY {
            proof {
                assert(!has_four_digit_year(runs@[i as int].day()));
            }
            return Err(ComputationError::DateOutOfRange);
        }
        i += 1;
    }
    let lines: Vec<GroupSummary> = match summarize_runs(
        runs,
        timings,
        duration_unit,
        granularity,
    ) {
        Ok(lines) => lines,
        Err(error) => {
            return Err(error);
        },
    };
    let ghost rows = rows_of(runs@, timings@);
    let mut table: Vec<StatGroup> = Vec::new();
    let mut j: usize = 0;
    while j < lines.len()
        invariant
            j <= lines.len(),
            table@.len() == j,
            rows == rows_of(runs@, timings@),
            runs@.len() == timings@.len(),
            all_dated(runs@),
            summary_views(lines@) == summaries(rows, duration_unit, granularity),
            forall|k: int| 0 <= k < j ==> (#[trigger] table@[k])@ == labelled(lines@[k]@),
        decreases lines.len() - j,
    {
        let line = &lines[j];
        let date: Option<String> = match line.day {
            Some(day) => {
                proof {
                    let keys = group_keys(rows, granularity);
                    assert(summary_views(lines@).len() == lines@.len());
                    assert(summaries(rows, duration_unit, granularity).len() == keys.len());
                    let key = keys[j as int];
                    assert(summary_views(lines@)[j as int].key == key);
                    assert(keys.contains(key));
                    lemma_group_keys_contains(rows, granularity, key);
                    let r = choose|r: int|
                        0 <= r < rows.len() && key_of(#[trigger] rows[r], granularity) == key;
                    assert(rows[r].day == runs@[r].day());
                }
                date_label(day)
            },
            None => None,
        };
        table.push(line.with_date(date));
        j += 1;
    }
    proof {
        assert(table_views(table@) =~= statistics(rows, duration_unit, granularity));
        lemma_statistics_count_every_run(rows, duration_unit, granularity);
        lemma_statistics_line_count(rows, duration_unit, granularity);
    }
    Ok(table)
}

} // verus!
