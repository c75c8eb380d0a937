use hitman::flurry::{flurry_plan, flurry_summary, FlurryError};
use hitman::logging::{enabled, line_color, log_level, Level, LineColor};
use hitman::monitor::{monitor_delay, MonitorError};
use hitman::util::{split_work, truncate, IterExt};

#[test]
fn test_truncate_short() {
    assert_eq!(truncate("foo"), "foo");
}

#[test]
fn test_truncate_long() {
    let long = "x".repeat(200);
    let expected = "x".repeat(89) + "...";
    assert_eq!(truncate(&long), expected);
}

#[test]
fn test_truncate_unicode() {
    let long = "√".repeat(200);
    let expected = "√".repeat(89) + "...";
    assert_eq!(truncate(&long), expected);
}

#[test]
fn counted_numbers() {
    let values: Vec<i32> = vec![100, 200, 200, 300, 200];

    let result = values.counted();
    assert_eq!(1, result[&100]);
    assert_eq!(3, result[&200]);
    assert_eq!(1, result[&300]);
}

#[test]
fn counted_strings() {
    let values: Vec<_> = vec!["100", "200", "200", "300", "200"];

    let result = values.counted();
    assert_eq!(1, result["100"]);
    assert_eq!(3, result["200"]);
    assert_eq!(1, result["300"]);
}

#[test]
fn splits_work_into_equal_chunks() {
    let chunks: Vec<_> = split_work(100, 4).collect();

    assert_eq!(chunks, vec![25, 25, 25, 25]);
}

#[test]
fn splits_work_into_almost_equal_chunks() {
    let chunks: Vec<_> = split_work(15, 10).collect();

    assert_eq!(chunks, vec![2, 2, 2, 2, 2, 1, 1, 1, 1, 1]);
}

#[test]
fn splits_work_and_eliminates_zeros() {
    let chunks: Vec<_> = split_work(4, 10).collect();

    assert_eq!(chunks, vec![1, 1, 1, 1]);
}

#[test]
fn truncate_keeps_a_line_of_exactly_89_characters() {
    let line = "y".repeat(89);
    assert_eq!(truncate(&line), line);
    let longer = "y".repeat(90);
    assert_eq!(truncate(&longer), "y".repeat(89) + "...");
}

#[test]
fn split_work_sums_to_total_and_is_balanced() {
    let chunks = split_work(17, 5).collect();
    assert_eq!(chunks.iter().sum::<i32>(), 17);
    assert_eq!(chunks, vec![4, 4, 3, 3, 3]);
}

#[test]
fn split_work_of_nothing_is_empty() {
    assert!(split_work(0, 3).collect().is_empty());
    assert!(split_work(-5, 3).collect().is_empty());
}

#[test]
fn counted_empty_is_empty() {
    let values: Vec<u16> = Vec::new();
    assert!(values.counted().is_empty());
}

#[test]
fn flurry_plan_shares_requests_out() {
    assert_eq!(flurry_plan(15, 10), Ok(vec![2, 2, 2, 2, 2, 1, 1, 1, 1, 1]));
    assert_eq!(flurry_plan(3, 10), Ok(vec![1, 1, 1]));
}

#[test]
fn flurry_plan_refuses_an_empty_flurry() {
    assert_eq!(flurry_plan(0, 10), Err(FlurryError::SizeTooSmall));
    assert_eq!(flurry_plan(0, 0), Err(FlurryError::SizeTooSmall));
    assert_eq!(FlurryError::SizeTooSmall.message(), "Flurry size must be at least 1");
}

#[test]
fn flurry_plan_refuses_no_connections() {
    assert_eq!(flurry_plan(5, 0), Err(FlurryError::TooFewConnections));
    assert_eq!(
        FlurryError::TooFewConnections.message(),
        "Connections must be at least 1"
    );
}

#[test]
fn flurry_summary_counts_and_orders_results() {
    let results = vec![(200u16, 30u64), (500, 10), (200, 50), (404, 70)];
    let s = flurry_summary(&results);
    assert_eq!(s.completed, 4);
    assert_eq!(s.statuses[&200], 2);
    assert_eq!(s.statuses[&500], 1);
    assert_eq!(s.statuses[&404], 1);
    assert_eq!(s.slowest, (500, 10));
    assert_eq!(s.fastest, (200, 30));
    assert_eq!(s.total_nanos, 160);
}

#[test]
fn monitor_delay_must_not_be_negative() {
    assert_eq!(monitor_delay(5), Ok(5));
    assert_eq!(monitor_delay(0), Ok(0));
    assert_eq!(monitor_delay(-1), Err(MonitorError::InvalidDelay));
    assert_eq!(MonitorError::InvalidDelay.message(), "Invalid delay");
}

#[test]
fn log_level_follows_flags() {
    assert_eq!(log_level(false, false, false), Level::Info);
    assert_eq!(log_level(true, false, false), Level::Debug);
    assert_eq!(log_level(true, false, true), Level::Warn);
    assert_eq!(log_level(true, true, true), Level::Error);
}

#[test]
fn enabled_compares_severity() {
    assert!(enabled(Level::Error, Level::Info));
    assert!(enabled(Level::Info, Level::Info));
    assert!(!enabled(Level::Debug, Level::Info));
    assert!(!enabled(Level::Warn, Level::Error));
}

#[test]
fn line_color_by_first_character() {
    assert_eq!(line_color("< HTTP/1.1 200 OK"), Some(LineColor::Cyan));
    assert_eq!(line_color("> GET /"), Some(LineColor::Blue));
    assert_eq!(line_color("# Done"), Some(LineColor::Yellow));
    assert_eq!(line_color("plain"), None);
    assert_eq!(line_color(""), None);
}
