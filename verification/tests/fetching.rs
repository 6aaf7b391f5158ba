use chrono::NaiveDate;
use workflow_stats::fetch::{
    retain_since, scan_stops, FetchAction, FetchEvent, FetchPhase, RemoteApiError, RunFetcher,
};
use workflow_stats::workflows::{WorkflowRun, WorkflowRunTiming};

fn day_number(year: i32, month: u32, day: u32) -> i64 {
    NaiveDate::from_ymd_opt(year, month, day).unwrap().to_epoch_days() as i64
}

fn run_on(id: u64, year: i32, month: u32, day: u32) -> WorkflowRun {
    let created_at = NaiveDate::from_ymd_opt(year, month, day)
        .unwrap()
        .and_hms_opt(8, 0, 0)
        .unwrap()
        .and_utc()
        .timestamp();
    WorkflowRun { id, created_at, conclusion: Some("success".to_string()) }
}

fn ids(runs: &[WorkflowRun]) -> Vec<u64> {
    runs.iter().map(|run| run.id).collect()
}

fn timing(ms: u64) -> WorkflowRunTiming {
    WorkflowRunTiming { run_duration_ms: ms }
}

#[test]
fn scan_stops_at_the_boundary_page() {
    let since = Some(day_number(2023, 1, 3));
    let mut fetcher = RunFetcher::new(since);
    assert_eq!(fetcher.phase(), FetchPhase::Listing);
    let first = vec![run_on(5, 2023, 1, 5), run_on(4, 2023, 1, 4), run_on(3, 2023, 1, 3)];
    assert_eq!(fetcher.step(FetchEvent::Page(first)), FetchAction::RequestPage);
    assert_eq!(fetcher.phase(), FetchPhase::Listing);
    let second = vec![run_on(2, 2023, 1, 2), run_on(1, 2023, 1, 1)];
    assert_eq!(fetcher.step(FetchEvent::Page(second)), FetchAction::RequestTiming(5));
    assert_eq!(fetcher.phase(), FetchPhase::Timing);
    assert_eq!(fetcher.step(FetchEvent::Timing(timing(50))), FetchAction::RequestTiming(4));
    assert_eq!(fetcher.step(FetchEvent::Timing(timing(40))), FetchAction::RequestTiming(3));
    assert_eq!(fetcher.step(FetchEvent::Timing(timing(30))), FetchAction::Finish);
    assert_eq!(fetcher.phase(), FetchPhase::Done);
    let (runs, timings) = fetcher.into_result().unwrap();
    assert_eq!(ids(&runs), vec![5, 4, 3]);
    assert_eq!(timings, vec![timing(50), timing(40), timing(30)]);
}

#[test]
fn all_pages_are_read_when_since_is_earlier_than_every_run() {
    let since = Some(day_number(2022, 12, 1));
    let mut fetcher = RunFetcher::new(since);
    let first = vec![run_on(5, 2023, 1, 5), run_on(4, 2023, 1, 4), run_on(3, 2023, 1, 3)];
    assert_eq!(fetcher.step(FetchEvent::Page(first)), FetchAction::RequestPage);
    let second = vec![run_on(2, 2023, 1, 2), run_on(1, 2023, 1, 1)];
    assert_eq!(fetcher.step(FetchEvent::Page(second)), FetchAction::RequestPage);
    assert_eq!(fetcher.step(FetchEvent::Page(Vec::new())), FetchAction::RequestPage);
    assert_eq!(fetcher.step(FetchEvent::EndOfPages), FetchAction::RequestTiming(5));
    for expected in [4u64, 3, 2, 1] {
        assert_eq!(
            fetcher.step(FetchEvent::Timing(timing(expected))),
            FetchAction::RequestTiming(expected)
        );
    }
    assert_eq!(fetcher.step(FetchEvent::Timing(timing(9))), FetchAction::Finish);
    let (runs, timings) = fetcher.into_result().unwrap();
    assert_eq!(ids(&runs), vec![5, 4, 3, 2, 1]);
    assert_eq!(timings.len(), 5);
}

#[test]
fn all_pages_are_read_without_since() {
    let mut fetcher = RunFetcher::new(None);
    let first = vec![run_on(2, 2023, 1, 2), run_on(1, 1999, 1, 1)];
    assert_eq!(fetcher.step(FetchEvent::Page(first)), FetchAction::RequestPage);
    let second = vec![run_on(0, 1980, 1, 1)];
    assert_eq!(fetcher.step(FetchEvent::Page(second)), FetchAction::RequestPage);
    assert_eq!(fetcher.step(FetchEvent::EndOfPages), FetchAction::RequestTiming(2));
    assert_eq!(fetcher.step(FetchEvent::Timing(timing(1))), FetchAction::RequestTiming(1));
    assert_eq!(fetcher.step(FetchEvent::Timing(timing(2))), FetchAction::RequestTiming(0));
    assert_eq!(fetcher.step(FetchEvent::Timing(timing(3))), FetchAction::Finish);
    let (runs, timings) = fetcher.into_result().unwrap();
    assert_eq!(ids(&runs), vec![2, 1, 0]);
    assert_eq!(timings, vec![timing(1), timing(2), timing(3)]);
}

#[test]
fn runs_before_since_are_dropped_from_a_fetched_page() {
    let since = Some(day_number(2023, 1, 5));
    let mut fetcher = RunFetcher::new(since);
    let page = vec![run_on(6, 2023, 1, 6), run_on(5, 2023, 1, 5), run_on(4, 2023, 1, 4)];
    assert_eq!(fetcher.step(FetchEvent::Page(page)), FetchAction::RequestTiming(6));
    assert_eq!(fetcher.step(FetchEvent::Timing(timing(1))), FetchAction::RequestTiming(5));
    assert_eq!(fetcher.step(FetchEvent::Timing(timing(2))), FetchAction::Finish);
    let (runs, _) = fetcher.into_result().unwrap();
    assert_eq!(ids(&runs), vec![6, 5]);
}

#[test]
fn filter_looks_at_every_run_not_only_the_last() {
    let since = Some(day_number(2023, 1, 5));
    let mut fetcher = RunFetcher::new(since);
    let page = vec![run_on(4, 2023, 1, 4), run_on(9, 2023, 1, 9), run_on(7, 2023, 1, 7)];
    assert_eq!(fetcher.step(FetchEvent::Page(page)), FetchAction::RequestPage);
    assert_eq!(fetcher.step(FetchEvent::EndOfPages), FetchAction::RequestTiming(9));
    assert_eq!(fetcher.step(FetchEvent::Timing(timing(1))), FetchAction::RequestTiming(7));
    assert_eq!(fetcher.step(FetchEvent::Timing(timing(2))), FetchAction::Finish);
    let (runs, _) = fetcher.into_result().unwrap();
    assert_eq!(ids(&runs), vec![9, 7]);
}

#[test]
fn empty_page_keeps_the_scan_going() {
    let since = Some(day_number(2023, 1, 3));
    let mut fetcher = RunFetcher::new(since);
    assert_eq!(fetcher.step(FetchEvent::Page(Vec::new())), FetchAction::RequestPage);
    assert_eq!(fetcher.step(FetchEvent::Page(vec![run_on(5, 2023, 1, 5)])), FetchAction::RequestPage);
    assert_eq!(fetcher.step(FetchEvent::Page(Vec::new())), FetchAction::RequestPage);
    assert_eq!(fetcher.step(FetchEvent::Page(vec![run_on(1, 2023, 1, 1)])), FetchAction::RequestTiming(5));
}

#[test]
fn no_runs_finish_at_once() {
    let mut fetcher = RunFetcher::new(None);
    assert_eq!(fetcher.step(FetchEvent::Page(Vec::new())), FetchAction::RequestPage);
    assert_eq!(fetcher.step(FetchEvent::EndOfPages), FetchAction::Finish);
    assert_eq!(fetcher.phase(), FetchPhase::Done);
    let (runs, timings) = fetcher.into_result().unwrap();
    assert!(runs.is_empty());
    assert!(timings.is_empty());
}

#[test]
fn only_old_runs_finish_without_timings() {
    let mut fetcher = RunFetcher::new(Some(day_number(2023, 1, 3)));
    let page = vec![run_on(2, 2023, 1, 2), run_on(1, 2023, 1, 1)];
    assert_eq!(fetcher.step(FetchEvent::Page(page)), FetchAction::Finish);
    let (runs, timings) = fetcher.into_result().unwrap();
    assert!(runs.is_empty());
    assert!(timings.is_empty());
}

#[test]
fn failure_leaves_no_results() {
    let mut fetcher = RunFetcher::new(None);
    assert_eq!(fetcher.step(FetchEvent::Page(vec![run_on(1, 2023, 1, 1)])), FetchAction::RequestPage);
    assert_eq!(fetcher.step(FetchEvent::Failure), FetchAction::Abort);
    assert_eq!(fetcher.phase(), FetchPhase::Failed);
    assert_eq!(fetcher.step(FetchEvent::EndOfPages), FetchAction::Abort);
    assert_eq!(fetcher.into_result().unwrap_err(), RemoteApiError::Failed);

    let mut fetcher = RunFetcher::new(None);
    fetcher.step(FetchEvent::Page(vec![run_on(2, 2023, 1, 2), run_on(1, 2023, 1, 1)]));
    assert_eq!(fetcher.step(FetchEvent::EndOfPages), FetchAction::RequestTiming(2));
    assert_eq!(fetcher.step(FetchEvent::Timing(timing(1))), FetchAction::RequestTiming(1));
    assert_eq!(fetcher.step(FetchEvent::Failure), FetchAction::Abort);
    assert_eq!(fetcher.into_result().unwrap_err(), RemoteApiError::Failed);
}

#[test]
fn answers_out_of_turn_fail_the_collection() {
    let mut fetcher = RunFetcher::new(None);
    assert_eq!(fetcher.step(FetchEvent::Timing(timing(1))), FetchAction::Abort);
    assert_eq!(fetcher.into_result().unwrap_err(), RemoteApiError::Failed);

    let mut fetcher = RunFetcher::new(None);
    fetcher.step(FetchEvent::Page(vec![run_on(1, 2023, 1, 1)]));
    assert_eq!(fetcher.step(FetchEvent::EndOfPages), FetchAction::RequestTiming(1));
    assert_eq!(fetcher.step(FetchEvent::Page(Vec::new())), FetchAction::Abort);
    assert_eq!(fetcher.into_result().unwrap_err(), RemoteApiError::Failed);

    let mut fetcher = RunFetcher::new(None);
    assert_eq!(fetcher.step(FetchEvent::EndOfPages), FetchAction::Finish);
    assert_eq!(fetcher.step(FetchEvent::Timing(timing(1))), FetchAction::Abort);
    assert_eq!(fetcher.phase(), FetchPhase::Failed);
}

#[test]
fn unfinished_collection_has_no_results() {
    let fetcher = RunFetcher::new(None);
    assert_eq!(fetcher.into_result().unwrap_err(), RemoteApiError::Unfinished);
    let mut fetcher = RunFetcher::new(None);
    fetcher.step(FetchEvent::Page(vec![run_on(2, 2023, 1, 2), run_on(1, 2023, 1, 1)]));
    fetcher.step(FetchEvent::EndOfPages);
    fetcher.step(FetchEvent::Timing(timing(1)));
    assert_eq!(fetcher.phase(), FetchPhase::Timing);
    assert_eq!(fetcher.into_result().unwrap_err(), RemoteApiError::Unfinished);
}

#[test]
fn retain_since_keeps_order_and_boundary_day() {
    let runs = vec![
        run_on(1, 2023, 1, 4),
        run_on(2, 2023, 1, 5),
        run_on(3, 2023, 1, 6),
        run_on(4, 2023, 1, 4),
        run_on(5, 2023, 1, 5),
    ];
    let kept = retain_since(runs, Some(day_number(2023, 1, 5)));
    assert_eq!(ids(&kept), vec![2, 3, 5]);
    let runs = vec![run_on(1, 2023, 1, 4), run_on(2, 1960, 1, 5)];
    let kept = retain_since(runs, None);
    assert_eq!(ids(&kept), vec![1, 2]);
    let kept = retain_since(Vec::new(), Some(0));
    assert!(kept.is_empty());
}

#[test]
fn retain_since_compares_days_not_moments() {
    let late = WorkflowRun { id: 1, created_at: 5 * 86_400 - 1, conclusion: None };
    let early = WorkflowRun { id: 2, created_at: 5 * 86_400, conclusion: None };
    let kept = retain_since(vec![late, early], Some(5));
    assert_eq!(ids(&kept), vec![2]);
    let before_epoch = WorkflowRun { id: 3, created_at: -1, conclusion: None };
    let kept = retain_since(vec![before_epoch], Some(0));
    assert!(kept.is_empty());
    let before_epoch = WorkflowRun { id: 3, created_at: -1, conclusion: None };
    let kept = retain_since(vec![before_epoch], Some(-1));
    assert_eq!(ids(&kept), vec![3]);
}

#[test]
fn scan_stops_only_on_an_older_last_run() {
    let since = Some(day_number(2023, 1, 3));
    assert!(!scan_stops(&Vec::new(), since));
    assert!(!scan_stops(&vec![run_on(1, 2023, 1, 3)], since));
    assert!(scan_stops(&vec![run_on(1, 2023, 1, 2)], since));
    assert!(!scan_stops(&vec![run_on(1, 2023, 1, 2), run_on(2, 2023, 1, 4)], since));
    assert!(!scan_stops(&vec![run_on(1, 1970, 1, 1)], None));
}
