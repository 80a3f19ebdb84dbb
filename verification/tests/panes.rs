use dotest::ui::failed_tests::FailedTestInfo;
use dotest::ui::failure_summary::{
    clamp_failed_summary_list_pane_cols, clicked_detail_index, compute_failure_detail_link_hover,
    compute_failure_summary_list_pane_cols, failed_summary_detail_rect, failed_summary_list_rect,
    parse_stack_trace_target, target_opened_message,
};
use dotest::ui::layout::{
    area_holds, centered_rect, clamp_tests_pane_rows, default_tests_pane_rows, inner,
    output_wrapped_scroll_max, panes, split_output_constraints, wrapped_rows, Area, PaneHeight,
};

fn area(x: u16, y: u16, width: u16, height: u16) -> Area {
    Area { x, y, width, height }
}

#[test]
fn tests_pane_rows_are_clamped() {
    assert_eq!(clamp_tests_pane_rows(0, 40), 3);
    assert_eq!(clamp_tests_pane_rows(10, 40), 10);
    assert_eq!(clamp_tests_pane_rows(100, 40), 36);
    assert_eq!(clamp_tests_pane_rows(10, 6), 2);
    assert_eq!(clamp_tests_pane_rows(10, 4), 0);
    assert_eq!(clamp_tests_pane_rows(10, 0), 0);
    let once = clamp_tests_pane_rows(77, 30);
    assert_eq!(clamp_tests_pane_rows(once, 30), once);
}

#[test]
fn default_tests_pane_is_a_share_of_the_screen() {
    assert_eq!(default_tests_pane_rows(103), 22);
    assert_eq!(default_tests_pane_rows(10), 3);
    // The product is cut at what sixteen bits hold.
    assert_eq!(default_tests_pane_rows(u16::MAX), 655);
}

#[test]
fn split_remembers_the_rows() {
    let mut rows = None;
    let heights = split_output_constraints(&mut rows, 103);
    assert_eq!(rows, Some(22));
    assert_eq!(
        heights,
        vec![PaneHeight::Length(22), PaneHeight::Min(1), PaneHeight::Length(3)]
    );
    rows = Some(500);
    split_output_constraints(&mut rows, 20);
    assert_eq!(rows, Some(16));
}

#[test]
fn panes_fill_the_screen() {
    let screen = area(0, 0, 80, 40);
    let split = panes(screen, false, Some(10));
    assert_eq!(
        split,
        vec![area(0, 0, 80, 10), area(0, 10, 80, 27), area(0, 37, 80, 3)]
    );
    let full = panes(screen, true, None);
    assert_eq!(full, vec![area(0, 0, 80, 37), area(0, 37, 80, 3)]);
    let tree = panes(screen, false, None);
    assert_eq!(
        tree,
        vec![area(0, 0, 80, 37), area(0, 37, 80, 0), area(0, 37, 80, 3)]
    );
}

#[test]
fn areas_and_cells() {
    let a = inner(area(5, 6, 10, 4));
    assert_eq!(a, area(6, 7, 8, 2));
    assert!(area_holds(a, 6, 7));
    assert!(area_holds(a, 13, 8));
    assert!(!area_holds(a, 14, 8));
    assert!(!area_holds(a, 13, 9));
    assert!(!area_holds(inner(area(0, 0, 2, 9)), 1, 1));
}

#[test]
fn popups_are_centered_and_fit() {
    assert_eq!(centered_rect(20, 10, area(0, 0, 80, 40)), area(30, 15, 20, 10));
    assert_eq!(centered_rect(200, 100, area(2, 3, 80, 40)), area(2, 3, 80, 40));
}

#[test]
fn wrapped_lines_decide_how_far_to_scroll() {
    assert_eq!(wrapped_rows("", 10), 1);
    assert_eq!(wrapped_rows("0123456789", 10), 1);
    assert_eq!(wrapped_rows("0123456789a", 10), 2);
    assert_eq!(wrapped_rows("abc", 0), 1);
    let lines = vec!["0123456789a".to_string(), String::new(), "x".to_string()];
    assert_eq!(output_wrapped_scroll_max(&lines, 10, 3), 1);
    assert_eq!(output_wrapped_scroll_max(&lines, 10, 4), 0);
    assert_eq!(output_wrapped_scroll_max(&lines, 10, 9), 0);
    let many = vec!["x".to_string(); 70_000];
    assert_eq!(output_wrapped_scroll_max(&many, 10, 3), u16::MAX - 3);
}

#[test]
fn failure_list_width_is_clamped() {
    assert_eq!(clamp_failed_summary_list_pane_cols(5, 100), 20);
    assert_eq!(clamp_failed_summary_list_pane_cols(95, 100), 80);
    assert_eq!(clamp_failed_summary_list_pane_cols(40, 100), 40);
    assert_eq!(clamp_failed_summary_list_pane_cols(40, 10), 0);
    assert_eq!(compute_failure_summary_list_pane_cols(None, 100), 35);
    assert_eq!(compute_failure_summary_list_pane_cols(Some(50), 100), 50);
}

#[test]
fn failure_panes_stand_side_by_side() {
    let screen = area(0, 0, 100, 30);
    let cols = compute_failure_summary_list_pane_cols(None, 100);
    assert_eq!(failed_summary_list_rect(screen, cols), area(0, 0, 35, 28));
    assert_eq!(failed_summary_detail_rect(screen, cols), area(35, 0, 65, 28));
}

#[test]
fn stack_traces_name_files() {
    let t = parse_stack_trace_target("   at A.B() in /src/Tests/Foo.cs:line 42").unwrap();
    assert_eq!(t.path, "/src/Tests/Foo.cs");
    assert_eq!(t.line_number, Some(42));
    assert_eq!(target_opened_message(&t), "✓ Opened /src/Tests/Foo.cs (line 42).");
    let t = parse_stack_trace_target("   at A.B() in /src/Foo.cs").unwrap();
    assert_eq!(t.line_number, None);
    assert_eq!(target_opened_message(&t), "✓ Opened /src/Foo.cs.");
    assert!(parse_stack_trace_target("Expected 3 in the list").is_none());
    assert!(parse_stack_trace_target("   at A.B()").is_none());
}

#[test]
fn clicks_find_wrapped_details() {
    let details = vec!["0123456789a".to_string(), "b".to_string()];
    assert_eq!(clicked_detail_index(&details, 10, 0, 0), Some(0));
    assert_eq!(clicked_detail_index(&details, 10, 0, 1), Some(0));
    assert_eq!(clicked_detail_index(&details, 10, 1, 1), Some(1));
    assert_eq!(clicked_detail_index(&details, 10, 1, 2), None);
}

#[test]
fn hover_marks_only_links() {
    let failed = vec![FailedTestInfo {
        name: "A".to_string(),
        details: vec!["message".to_string(), "at B in /x/C.cs:line 1".to_string()],
    }];
    assert_eq!(compute_failure_detail_link_hover(&failed, 0, 60, 1, 0, true, 2), Some(1));
    assert_eq!(compute_failure_detail_link_hover(&failed, 9, 60, 1, 0, true, 2), Some(1));
    assert_eq!(compute_failure_detail_link_hover(&failed, 0, 60, 1, 0, true, 1), None);
    assert_eq!(compute_failure_detail_link_hover(&failed, 0, 60, 1, 0, false, 2), None);
    assert_eq!(compute_failure_detail_link_hover(&vec![], 0, 60, 1, 0, true, 2), None);
}

#[test]
fn panes_are_placed_wherever_they_fit() {
    for y in [0u16, 5] {
        for height in (4u16..=60).chain([255, 1000, 65_000]) {
            let area = Area { x: 2, y, width: 80, height };
            let bottom = Area { y: y + height - 3, height: 3, ..area };
            let above = Area { height: height - 3, ..area };
            assert_eq!(panes(area, true, Some(1)), vec![above, bottom]);
            assert_eq!(
                panes(area, false, None),
                vec![above, Area { height: 0, ..bottom }, bottom]
            );
            for rows in (0..=height - 4).step_by(1 + usize::from(height / 60)) {
                let output = Area { y: y + rows, height: height - rows - 3, ..area };
                assert_eq!(
                    panes(area, false, Some(rows)),
                    vec![Area { height: rows, ..area }, output, bottom]
                );
            }
        }
    }
}
