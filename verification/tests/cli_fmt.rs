//! Times and bars as they are printed.

use agentworld::cli_fmt::{
    fmt_duration, fmt_unix_ns, fmt_unix_ns_at, now_unix_ns, section, section_as, title_bar, title_bar_at,
};

#[test]
fn fmt_duration_omits_trailing_zero_units() {
    assert_eq!(fmt_duration(0), "0s");
    assert_eq!(fmt_duration(45), "45s");
    assert_eq!(fmt_duration(59), "59s");
    assert_eq!(fmt_duration(60), "1m");
    assert_eq!(fmt_duration(61), "1m1s");
    assert_eq!(fmt_duration(125), "2m5s");
    assert_eq!(fmt_duration(3600), "1h");
    assert_eq!(fmt_duration(3601), "1h");
    assert_eq!(fmt_duration(3660), "1h1m");
    assert_eq!(fmt_duration(3725), "1h2m");
    assert_eq!(fmt_duration(86_400), "1d");
    assert_eq!(fmt_duration(90_000), "1d1h");
}

#[test]
fn fmt_unix_ns_reports_age_for_past_timestamps() {
    let now = now_unix_ns();
    let one_hour_ago = now - 3_600 * 1_000_000_000;
    let rendered = fmt_unix_ns(one_hour_ago);
    assert!(rendered.contains("ago)"), "expected an age suffix: {rendered}");
    assert!(rendered.contains("1h") || rendered.contains("59m"), "rendered: {rendered}");
}

#[test]
fn fmt_unix_ns_handles_future_timestamps_without_age() {
    let far_future = now_unix_ns() + 3_600 * 1_000_000_000;
    let rendered = fmt_unix_ns(far_future);
    assert!(!rendered.contains("ago"), "rendered: {rendered}");
    assert!(rendered.starts_with("unix "));
}

#[test]
fn title_bar_contains_label_and_timestamp() {
    let bar = title_bar("topology");
    // Color codes may or may not be present depending on the test
    // runner's stdout, so only assert on content, not exact bytes.
    assert!(bar.contains("topology"), "bar: {bar}");
    assert!(bar.contains("unix "), "bar: {bar}");
}

#[test]
fn section_contains_label() {
    let s = section("anomaly check");
    assert!(s.contains("anomaly check"), "section: {s}");
}

#[test]
fn ages_are_exact_for_a_given_time() {
    let now = 1_000_000_000_000;
    assert_eq!(fmt_unix_ns_at(1_000_000_000, now), "unix 1 (16m39s ago)");
    assert_eq!(fmt_unix_ns_at(now + 5_000_000_000, now), "unix 1005");
    assert_eq!(fmt_unix_ns_at(now, now), "unix 1000 (0s ago)");
    assert_eq!(fmt_unix_ns_at(now + 1, now), "unix 1000");
}

#[test]
fn bars_are_coloured_when_asked() {
    assert_eq!(section_as("flags", false), "── flags ──");
    assert_eq!(section_as("flags", true), "\x1b[33m\x1b[1m── flags ──\x1b[0m\x1b[39m");
    assert_eq!(
        title_bar_at("events", 0, 60_000_000_000, false),
        "── events · unix 0 (1m ago) ──"
    );
    assert_eq!(
        title_bar_at("events", 0, 60_000_000_000, true),
        "\x1b[36m\x1b[1m── events · unix 0 (1m ago) ──\x1b[0m\x1b[39m"
    );
}
