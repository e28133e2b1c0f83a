use ytdl::scheduler::{DownloadRun, Next, ScheduledItem, AFTER_FAILURE_WAIT_DURATION_SECS, RATE_LIMITED_WAIT_DURATION_SECS};

fn plain() -> ScheduledItem {
    ScheduledItem { rate_limited_request: false, rate_limited_source: None }
}

fn limited(source: &str) -> ScheduledItem {
    ScheduledItem { rate_limited_request: false, rate_limited_source: Some(source.to_string()) }
}

#[test]
fn scenario_two_failures_do_not_abort_the_run() {
    let mut run = DownloadRun::new(vec![plain(), plain(), plain()]);
    assert_eq!(run.wait_before_attempt(0), 0);
    assert_eq!(run.report(false, 10), Next::Retry { wait_secs: AFTER_FAILURE_WAIT_DURATION_SECS });
    assert_eq!(run.current(), 0);
    assert_eq!(run.report(false, 20), Next::Proceed);
    assert_eq!(run.current(), 1);
    assert!(!run.is_done());
    assert_eq!(run.report(true, 30), Next::Proceed);
    assert_eq!(run.report(false, 40), Next::Retry { wait_secs: 5 });
    assert_eq!(run.report(true, 50), Next::Proceed);
    assert!(run.is_done());
    // The run reports the failure, so the cache is kept.
    assert_eq!(run.outcome(), Err(1));
}

#[test]
fn a_clean_run_succeeds() {
    let mut run = DownloadRun::new(vec![plain()]);
    assert_eq!(run.report(true, 1), Next::Proceed);
    assert!(run.is_done());
    assert_eq!(run.outcome(), Ok(()));
    assert_eq!(DownloadRun::new(vec![]).outcome(), Ok(()));
    assert!(DownloadRun::new(vec![]).is_done());
}

#[test]
fn rate_limited_source_waits_out_its_cooldown() {
    let mut run = DownloadRun::new(vec![limited("ex"), limited("ex"), limited("other"), limited("ex")]);
    assert_eq!(run.wait_before_attempt(0), 0);
    assert_eq!(run.report(true, 1_000), Next::Proceed);
    // 30 s after the first finished: 90 s left.
    assert_eq!(run.wait_before_attempt(31_000), 90);
    // 30.5 s after: 89.5 s left, rounded up.
    assert_eq!(run.wait_before_attempt(31_500), 90);
    assert_eq!(run.wait_before_attempt(31_001), 90);
    assert_eq!(run.wait_before_attempt(30_999), 91);
    assert_eq!(run.wait_before_attempt(200_000), 0);
    assert_eq!(run.report(true, 40_000), Next::Proceed);
    // Another source has its own cooldown.
    assert_eq!(run.wait_before_attempt(41_000), 0);
    assert_eq!(run.report(true, 42_000), Next::Proceed);
    assert_eq!(run.wait_before_attempt(100_000), 60);
}

#[test]
fn retry_of_a_rate_limited_source_waits_the_whole_cooldown() {
    let mut run = DownloadRun::new(vec![limited("ex")]);
    assert_eq!(run.report(false, 0), Next::Retry { wait_secs: RATE_LIMITED_WAIT_DURATION_SECS });
}

#[test]
fn requested_wait_is_fixed() {
    let run = DownloadRun::new(vec![ScheduledItem { rate_limited_request: true, rate_limited_source: None }]);
    assert_eq!(run.wait_before_attempt(0), 120);
}

#[test]
fn failed_item_still_starts_the_cooldown() {
    let mut run = DownloadRun::new(vec![limited("ex"), limited("ex")]);
    run.report(false, 0);
    run.report(false, 5_000);
    assert_eq!(run.wait_before_attempt(5_000), 120);
}
