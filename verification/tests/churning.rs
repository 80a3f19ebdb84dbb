use dotest::ui::churn::{
    banner, churn_duration_stats_line, churn_output_prefix_lines, format_elapsed,
    iteration_banner, parse_churn_iteration_failed_line, parse_churn_iteration_line,
    parse_churn_iteration_passed_line, parse_churn_iteration_start_line,
    trim_churn_output_lines, CHURN_OUTPUT_OMITTED_MARKER, CHURN_OUTPUT_TAIL_LINES,
};

const SECOND: u128 = 1_000_000_000;

fn lines(n: usize) -> Vec<String> {
    (0..n).map(|i| format!("line {i}")).collect()
}

#[test]
fn elapsed_is_shown_in_tenths_of_a_second() {
    assert_eq!(format_elapsed(0), "0.0s");
    assert_eq!(format_elapsed(1_249_999_999), "1.2s");
    assert_eq!(format_elapsed(1_250_000_000), "1.3s");
    assert_eq!(format_elapsed(12 * SECOND), "12.0s");
}

#[test]
fn duration_stats_need_a_duration() {
    assert_eq!(churn_duration_stats_line(&vec![]), None);
}

#[test]
fn duration_stats_give_mean_least_and_greatest() {
    let durations = vec![2 * SECOND, SECOND, 6 * SECOND];
    assert_eq!(
        churn_duration_stats_line(&durations).as_deref(),
        Some("  Duration stats: avg 3.0s  |  min 1.0s  |  max 6.0s")
    );
}

#[test]
fn banners_name_their_iteration() {
    assert_eq!(parse_churn_iteration_start_line("Iteration 3   ↻ Starting"), Some(3));
    assert_eq!(parse_churn_iteration_passed_line("Iteration 12   ✓ Passed (1.2s)"), Some(12));
    assert_eq!(parse_churn_iteration_failed_line("Iteration 7   ✗ Failed (0.4s)"), Some(7));
    assert_eq!(parse_churn_iteration_failed_line("Iteration 7   ✓ Passed (0.4s)"), None);
    assert_eq!(parse_churn_iteration_line("Iteration 7", "Passed"), None);
    assert_eq!(parse_churn_iteration_line("Iteration x Passed", "Passed"), None);
    assert_eq!(parse_churn_iteration_line("iteration 7 Passed", "Passed"), None);
    assert_eq!(
        parse_churn_iteration_line("Iteration 99999999999999999999999 Passed", "Passed"),
        None
    );
}

#[test]
fn banners_are_read_back() {
    let text = iteration_banner(41, "✓ Passed (0.1s)");
    assert_eq!(text, "Iteration 41   ✓ Passed (0.1s)");
    assert_eq!(parse_churn_iteration_passed_line(&text), Some(41));
    assert!(banner(&text));
    assert!(!banner("Passed Namespace.Class.Method [12 ms]"));
}

#[test]
fn headings_are_one_or_two_lines() {
    assert_eq!(churn_output_prefix_lines(&vec![]), 0);
    assert_eq!(churn_output_prefix_lines(&lines(1)), 1);
    assert_eq!(churn_output_prefix_lines(&lines(5)), 1);
    let limited = vec!["head".to_string(), "  Iteration limit: 100 (quick churn mode)".to_string()];
    assert_eq!(churn_output_prefix_lines(&limited), 2);
}

#[test]
fn short_churn_output_stays_whole() {
    let mut out = lines(CHURN_OUTPUT_TAIL_LINES + 1);
    trim_churn_output_lines(&mut out);
    assert_eq!(out, lines(CHURN_OUTPUT_TAIL_LINES + 1));
}

#[test]
fn long_churn_output_keeps_heading_and_tail() {
    let mut out = lines(CHURN_OUTPUT_TAIL_LINES + 10);
    trim_churn_output_lines(&mut out);
    assert_eq!(out.len(), CHURN_OUTPUT_TAIL_LINES + 2);
    assert_eq!(out[0], "line 0");
    assert_eq!(out[1], CHURN_OUTPUT_OMITTED_MARKER);
    assert_eq!(out[2], "line 10");
    assert_eq!(out[CHURN_OUTPUT_TAIL_LINES + 1], "line 409");
    let once = out.clone();
    trim_churn_output_lines(&mut out);
    assert_eq!(out, once);
}
