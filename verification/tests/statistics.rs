use chrono::NaiveDate;
use workflow_stats::duration_unit::DurationUnit;
use workflow_stats::granularity::Granularity;
use workflow_stats::workflows::{
    compute_workflow_statistics, summarize_runs, ComputationError, StatGroup, WorkflowRun,
    WorkflowRunTiming,
};

fn timestamp(year: i32, month: u32, day: u32, hour: u32) -> i64 {
    NaiveDate::from_ymd_opt(year, month, day)
        .unwrap()
        .and_hms_opt(hour, 30, 15)
        .unwrap()
        .and_utc()
        .timestamp()
}

fn run(id: u64, year: i32, month: u32, day: u32, status: &str) -> WorkflowRun {
    WorkflowRun {
        id,
        created_at: timestamp(year, month, day, 12),
        conclusion: Some(status.to_string()),
    }
}

fn timing(ms: u64) -> WorkflowRunTiming {
    WorkflowRunTiming { run_duration_ms: ms }
}

fn line(group: &StatGroup) -> (Option<&str>, &str, u64, u64, u64, u64) {
    (
        group.date.as_deref(),
        group.status.as_str(),
        group.count,
        group.mean_duration,
        group.median_duration,
        group.p95_duration,
    )
}

#[test]
fn daily_example_has_two_groups() {
    let runs = vec![
        run(1, 2023, 1, 1, "success"),
        run(2, 2023, 1, 1, "success"),
        run(3, 2023, 1, 1, "failure"),
    ];
    let timings = vec![timing(1000), timing(3000), timing(2000)];
    let table =
        compute_workflow_statistics(&runs, &timings, DurationUnit::Seconds, Granularity::Daily)
            .unwrap();
    assert_eq!(table.len(), 2);
    assert_eq!(line(&table[0]), (Some("2023-01-01"), "success", 2, 200, 200, 300));
    assert_eq!(line(&table[1]), (Some("2023-01-01"), "failure", 1, 200, 200, 200));
}

#[test]
fn total_granularity_groups_by_status_alone() {
    let runs = vec![
        run(1, 2023, 1, 1, "success"),
        run(2, 2023, 1, 2, "failure"),
        run(3, 2023, 1, 3, "success"),
        run(4, 2023, 1, 4, "cancelled"),
    ];
    let timings = vec![timing(60_000), timing(30_000), timing(120_000), timing(1_500)];
    let table =
        compute_workflow_statistics(&runs, &timings, DurationUnit::Minutes, Granularity::Total)
            .unwrap();
    assert_eq!(table.len(), 3);
    assert_eq!(line(&table[0]), (None, "success", 2, 150, 150, 200));
    assert_eq!(line(&table[1]), (None, "failure", 1, 50, 50, 50));
    assert_eq!(line(&table[2]), (None, "cancelled", 1, 3, 3, 3));
}

#[test]
fn daily_lines_are_sorted_by_date() {
    let runs = vec![
        run(1, 2023, 3, 5, "success"),
        run(2, 2023, 1, 9, "failure"),
        run(3, 2023, 3, 5, "failure"),
        run(4, 2022, 12, 31, "success"),
        run(5, 2023, 1, 9, "success"),
        run(6, 2023, 3, 5, "success"),
    ];
    let timings = vec![
        timing(1_000),
        timing(2_000),
        timing(3_000),
        timing(4_000),
        timing(5_000),
        timing(6_000),
    ];
    let table =
        compute_workflow_statistics(&runs, &timings, DurationUnit::Seconds, Granularity::Daily)
            .unwrap();
    let keys: Vec<(Option<&str>, &str, u64)> = table
        .iter()
        .map(|group| (group.date.as_deref(), group.status.as_str(), group.count))
        .collect();
    assert_eq!(
        keys,
        vec![
            (Some("2022-12-31"), "success", 1),
            (Some("2023-01-09"), "failure", 1),
            (Some("2023-01-09"), "success", 1),
            (Some("2023-03-05"), "success", 2),
            (Some("2023-03-05"), "failure", 1),
        ]
    );
    assert_eq!(line(&table[3]), (Some("2023-03-05"), "success", 2, 350, 350, 600));
}

#[test]
fn runs_of_one_day_share_a_group_whatever_the_hour() {
    let runs = vec![
        WorkflowRun { id: 1, created_at: timestamp(2024, 2, 29, 0), conclusion: Some("success".to_string()) },
        WorkflowRun { id: 2, created_at: timestamp(2024, 2, 29, 23), conclusion: Some("success".to_string()) },
        WorkflowRun { id: 3, created_at: timestamp(2024, 3, 1, 0), conclusion: Some("success".to_string()) },
    ];
    let timings = vec![timing(10_000), timing(20_000), timing(30_000)];
    let table =
        compute_workflow_statistics(&runs, &timings, DurationUnit::Seconds, Granularity::Daily)
            .unwrap();
    assert_eq!(table.len(), 2);
    assert_eq!(line(&table[0]), (Some("2024-02-29"), "success", 2, 1500, 1500, 2000));
    assert_eq!(line(&table[1]), (Some("2024-03-01"), "success", 1, 3000, 3000, 3000));
}

#[test]
fn dates_before_the_epoch_are_labelled() {
    let runs = vec![
        WorkflowRun { id: 1, created_at: -1, conclusion: None },
        WorkflowRun { id: 2, created_at: 0, conclusion: None },
    ];
    let timings = vec![timing(1), timing(2)];
    let table =
        compute_workflow_statistics(&runs, &timings, DurationUnit::Seconds, Granularity::Daily)
            .unwrap();
    assert_eq!(table.len(), 2);
    assert_eq!(table[0].date.as_deref(), Some("1969-12-31"));
    assert_eq!(table[1].date.as_deref(), Some("1970-01-01"));
}

#[test]
fn missing_conclusion_is_the_empty_status() {
    let runs = vec![
        WorkflowRun { id: 1, created_at: timestamp(2023, 5, 1, 1), conclusion: None },
        WorkflowRun { id: 2, created_at: timestamp(2023, 5, 1, 2), conclusion: Some(String::new()) },
        run(3, 2023, 5, 1, "success"),
    ];
    let timings = vec![timing(2_000), timing(4_000), timing(6_000)];
    let table =
        compute_workflow_statistics(&runs, &timings, DurationUnit::Seconds, Granularity::Total)
            .unwrap();
    assert_eq!(table.len(), 2);
    assert_eq!(line(&table[0]), (None, "", 2, 300, 300, 400));
    assert_eq!(line(&table[1]), (None, "success", 1, 600, 600, 600));
}

#[test]
fn no_runs_give_an_empty_table() {
    let runs: Vec<WorkflowRun> = Vec::new();
    let timings: Vec<WorkflowRunTiming> = Vec::new();
    let daily =
        compute_workflow_statistics(&runs, &timings, DurationUnit::Seconds, Granularity::Daily)
            .unwrap();
    assert!(daily.is_empty());
    let total =
        compute_workflow_statistics(&runs, &timings, DurationUnit::Hours, Granularity::Total)
            .unwrap();
    assert!(total.is_empty());
}

#[test]
fn single_member_group_reports_its_value() {
    let runs = vec![run(1, 2023, 7, 4, "success")];
    let timings = vec![timing(7_250)];
    let table =
        compute_workflow_statistics(&runs, &timings, DurationUnit::Seconds, Granularity::Daily)
            .unwrap();
    assert_eq!(table.len(), 1);
    assert_eq!(line(&table[0]), (Some("2023-07-04"), "success", 1, 725, 725, 725));
}

#[test]
fn length_mismatch_is_an_error() {
    let runs = vec![run(1, 2023, 1, 1, "success"), run(2, 2023, 1, 1, "success")];
    let timings = vec![timing(1000)];
    let result =
        compute_workflow_statistics(&runs, &timings, DurationUnit::Seconds, Granularity::Daily);
    assert_eq!(result.unwrap_err(), ComputationError::LengthMismatch);
    let result = summarize_runs(&runs, &timings, DurationUnit::Seconds, Granularity::Total);
    assert_eq!(result.unwrap_err(), ComputationError::LengthMismatch);
    let none: Vec<WorkflowRun> = Vec::new();
    let result =
        compute_workflow_statistics(&none, &timings, DurationUnit::Seconds, Granularity::Total);
    assert_eq!(result.unwrap_err(), ComputationError::LengthMismatch);
}

#[test]
fn date_out_of_range_is_an_error() {
    let far = timestamp(10_000, 1, 1, 0);
    let runs = vec![
        run(1, 2023, 1, 1, "success"),
        WorkflowRun { id: 2, created_at: far, conclusion: Some("success".to_string()) },
    ];
    let timings = vec![timing(1000), timing(2000)];
    let result =
        compute_workflow_statistics(&runs, &timings, DurationUnit::Seconds, Granularity::Daily);
    assert_eq!(result.unwrap_err(), ComputationError::DateOutOfRange);
    let result =
        compute_workflow_statistics(&runs, &timings, DurationUnit::Seconds, Granularity::Total);
    assert_eq!(result.unwrap_err(), ComputationError::DateOutOfRange);
    let early = vec![WorkflowRun { id: 3, created_at: i64::MIN, conclusion: None }];
    let result = compute_workflow_statistics(
        &early,
        &[timing(5)],
        DurationUnit::Seconds,
        Granularity::Daily,
    );
    assert_eq!(result.unwrap_err(), ComputationError::DateOutOfRange);
    let lines =
        summarize_runs(&runs, &timings, DurationUnit::Seconds, Granularity::Daily).unwrap();
    assert_eq!(lines.len(), 2);
    assert_eq!(lines[1].day, Some(far.div_euclid(86_400)));
}

#[test]
fn first_and_last_supported_days_are_accepted() {
    let runs = vec![
        WorkflowRun { id: 1, created_at: timestamp(9999, 12, 31, 23), conclusion: None },
        WorkflowRun { id: 2, created_at: timestamp(0, 1, 1, 0), conclusion: None },
    ];
    let timings = vec![timing(1000), timing(2000)];
    let table =
        compute_workflow_statistics(&runs, &timings, DurationUnit::Seconds, Granularity::Daily)
            .unwrap();
    assert_eq!(table.len(), 2);
    assert_eq!(table[0].date.as_deref(), Some("0000-01-01"));
    assert_eq!(table[1].date.as_deref(), Some("9999-12-31"));
}

#[test]
fn counts_add_up_to_the_number_of_runs() {
    let statuses = ["success", "failure", "cancelled", "success", "timed_out"];
    let mut runs = Vec::new();
    let mut timings = Vec::new();
    for i in 0..37u64 {
        let day = 1 + (i % 4) as u32;
        runs.push(run(i, 2023, 6, day, statuses[(i % 5) as usize]));
        timings.push(timing(1_000 * (i + 1)));
    }
    for granularity in [Granularity::Daily, Granularity::Total] {
        let table =
            compute_workflow_statistics(&runs, &timings, DurationUnit::Seconds, granularity)
                .unwrap();
        let total: u64 = table.iter().map(|group| group.count).sum();
        assert_eq!(total, 37);
        assert!(table.iter().all(|group| group.count > 0));
    }
}

#[test]
fn line_count_is_the_number_of_distinct_groups() {
    let statuses = ["success", "failure", "cancelled"];
    let mut runs = Vec::new();
    let mut timings = Vec::new();
    for i in 0..30u64 {
        let day = 1 + (i % 5) as u32;
        runs.push(run(i, 2023, 6, day, statuses[(i % 3) as usize]));
        timings.push(timing(500 * i));
    }
    let daily =
        compute_workflow_statistics(&runs, &timings, DurationUnit::Seconds, Granularity::Daily)
            .unwrap();
    assert_eq!(daily.len(), 15);
    let total =
        compute_workflow_statistics(&runs, &timings, DurationUnit::Seconds, Granularity::Total)
            .unwrap();
    assert_eq!(total.len(), 3);
    let mut seen: Vec<(Option<String>, String)> = Vec::new();
    for group in &daily {
        let key = (group.date.clone(), group.status.clone());
        assert!(!seen.contains(&key));
        seen.push(key);
    }
    for pair in daily.windows(2) {
        assert!(pair[0].date <= pair[1].date);
    }
}

#[test]
fn computing_twice_gives_the_same_table() {
    let runs = vec![
        run(1, 2023, 2, 2, "success"),
        run(2, 2023, 2, 1, "failure"),
        run(3, 2023, 2, 2, "failure"),
        run(4, 2023, 2, 1, "success"),
        run(5, 2023, 2, 2, "success"),
    ];
    let timings = vec![timing(900), timing(61_000), timing(12_345), timing(7), timing(3_600_000)];
    for granularity in [Granularity::Daily, Granularity::Total] {
        for unit in [DurationUnit::Seconds, DurationUnit::Minutes, DurationUnit::Hours] {
            let first = compute_workflow_statistics(&runs, &timings, unit, granularity).unwrap();
            let second = compute_workflow_statistics(&runs, &timings, unit, granularity).unwrap();
            assert_eq!(first.len(), second.len());
            for (a, b) in first.iter().zip(second.iter()) {
                assert_eq!(line(a), line(b));
            }
        }
    }
}

#[test]
fn summary_lines_carry_day_numbers() {
    let runs = vec![run(1, 1970, 1, 2, "success"), run(2, 1970, 1, 1, "success")];
    let timings = vec![timing(3_600_000), timing(1_800_000)];
    let lines = summarize_runs(&runs, &timings, DurationUnit::Hours, Granularity::Daily).unwrap();
    assert_eq!(lines.len(), 2);
    assert_eq!(lines[0].day, Some(0));
    assert_eq!(lines[0].mean_duration, 50);
    assert_eq!(lines[1].day, Some(1));
    assert_eq!(lines[1].mean_duration, 100);
    let lines = summarize_runs(&runs, &timings, DurationUnit::Hours, Granularity::Total).unwrap();
    assert_eq!(lines.len(), 1);
    assert_eq!(lines[0].day, None);
    assert_eq!(lines[0].status, "success");
    assert_eq!(lines[0].count, 2);
    assert_eq!(lines[0].mean_duration, 75);
    assert_eq!(lines[0].median_duration, 75);
    assert_eq!(lines[0].p95_duration, 100);
}

#[test]
fn with_date_keeps_the_numbers() {
    let runs = vec![run(1, 2023, 1, 1, "success")];
    let timings = vec![timing(2_500)];
    let lines = summarize_runs(&runs, &timings, DurationUnit::Seconds, Granularity::Daily).unwrap();
    let group = lines[0].with_date(Some("some day".to_string()));
    assert_eq!(line(&group), (Some("some day"), "success", 1, 250, 250, 250));
    let group = lines[0].with_date(None);
    assert_eq!(line(&group), (None, "success", 1, 250, 250, 250));
}

#[test]
fn status_label_and_day_of_a_run() {
    let with = run(1, 2023, 1, 5, "failure");
    assert_eq!(with.status_label(), "failure");
    let days = NaiveDate::from_ymd_opt(2023, 1, 5).unwrap().to_epoch_days() as i64;
    assert_eq!(with.utc_day(), days);
    let without = WorkflowRun { id: 2, created_at: 0, conclusion: None };
    assert_eq!(without.status_label(), "");
    assert_eq!(without.utc_day(), 0);
}

#[test]
fn runs_and_lines_clone_to_equal_values() {
    let first = run(7, 2023, 8, 9, "success");
    let copy = first.clone();
    assert_eq!(first, copy);
    let bare = WorkflowRun { id: 8, created_at: 1, conclusion: None };
    assert_eq!(bare.clone(), bare);
    assert_ne!(bare, first);
    let runs = vec![first, bare];
    let timings = vec![timing(1_000), timing(2_000)];
    let lines = summarize_runs(&runs, &timings, DurationUnit::Seconds, Granularity::Daily).unwrap();
    assert_eq!(lines[0].clone(), lines[0]);
    let table =
        compute_workflow_statistics(&runs, &timings, DurationUnit::Seconds, Granularity::Daily)
            .unwrap();
    let copies: Vec<StatGroup> = table.iter().map(|group| group.clone()).collect();
    assert_eq!(copies, table);
    assert_eq!(table[0].date.as_deref(), Some("1970-01-01"));
    assert_eq!(table[1].date.as_deref(), Some("2023-08-09"));
}

#[test]
fn groups_of_one_day_stand_in_order_of_first_appearance() {
    let runs = vec![
        run(1, 2023, 4, 2, "failure"),
        run(2, 2023, 4, 1, "skipped"),
        run(3, 2023, 4, 2, "success"),
        run(4, 2023, 4, 1, "cancelled"),
        run(5, 2023, 4, 2, "failure"),
        run(6, 2023, 4, 1, "skipped"),
    ];
    let timings = vec![timing(1), timing(2), timing(3), timing(4), timing(5), timing(6)];
    let daily =
        compute_workflow_statistics(&runs, &timings, DurationUnit::Seconds, Granularity::Daily)
            .unwrap();
    let keys: Vec<(Option<&str>, &str, u64)> = daily
        .iter()
        .map(|group| (group.date.as_deref(), group.status.as_str(), group.count))
        .collect();
    assert_eq!(
        keys,
        vec![
            (Some("2023-04-01"), "skipped", 2),
            (Some("2023-04-01"), "cancelled", 1),
            (Some("2023-04-02"), "failure", 2),
            (Some("2023-04-02"), "success", 1),
        ]
    );
    let total =
        compute_workflow_statistics(&runs, &timings, DurationUnit::Seconds, Granularity::Total)
            .unwrap();
    let keys: Vec<(&str, u64)> =
        total.iter().map(|group| (group.status.as_str(), group.count)).collect();
    assert_eq!(keys, vec![("failure", 2), ("skipped", 2), ("success", 1), ("cancelled", 1)]);
}
