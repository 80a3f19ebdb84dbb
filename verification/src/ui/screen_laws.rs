//! What is on the screen: rows, panes, and what the mouse meets there.

use vstd::prelude::*;

use crate::numerals::decimal;
use crate::text::{has_text, repeated};
use crate::text_laws::law_parts_are_found;
use crate::ui::actions::ActionView;
use crate::ui::config::{ConfigView, PresetView, ViewMode};
use crate::ui::failure_keys::picked;
use crate::ui::failure_panes::{detail_inside, list_inside};
use crate::ui::failure_summary::{line_at_row, list_cols, stack_target, TargetView};
use crate::ui::frame::{leaf_panel, panel_content, shows_panel};
use crate::ui::layout::{
    all_rows, centered, default_rows, holds_cell, inside_border, panes_fit, placed_panes, rows_of,
    Area,
};
use crate::ui::leaf_results::{LeafResultView, LeafStatus};
use crate::ui::mouse::{mouse_moved, opening_said, tree_is_open, MouseEvent, MouseKind};
use crate::ui::rows::{
    counts_suffix, layout_label, preset_line, row_style, row_text, settings_lines, status_text,
    verbosity_label, view_hint, view_label, watch_hint, RowStyle,
};
use crate::ui::run_results::ParentCounts;
use crate::ui::session::SessionView;

verus! {

// ---------------------------------------------------------------------------
// Rows of the tree
// ---------------------------------------------------------------------------
proof fn lemma_indent(n: nat)
    ensures
        repeated("  "@, n).len() == 2 * n,
        forall|i: int| 0 <= i < 2 * n ==> #[trigger] repeated("  "@, n)[i] == ' ',
    decreases n,
{
    reveal_strlit("  ");
    if n > 0 {
        lemma_indent((n - 1) as nat);
    }
}

/// A row is indented by its depth. An arrow says whether a folder is unfolded, a
/// box whether the row is checked, and the label follows.
pub proof fn law_rows_show_their_state(s: SessionView, i: int)
    ensures
        ({
            let n = s.tree[i];
            let d = 2 * n.depth as int;
            let row = row_text(s, i);
            &&& row.len() >= d + 6 + n.label.len()
            &&& forall|j: int| 0 <= j < d ==> #[trigger] row[j] == ' '
            &&& row[d] == if n.is_leaf {
                ' '
            } else if n.is_expanded {
                '▼'
            } else {
                '▶'
            }
            &&& row[d + 2] == '['
            &&& row[d + 3] == 'x' <==> n.is_selected
            &&& row[d + 3] == '~' <==> n.is_partial && !n.is_selected
            &&& row[d + 4] == ']'
            &&& row.subrange(d + 6, d + 6 + n.label.len()) == n.label
        }),
{
    let n = s.tree[i];
    let d = 2 * n.depth as int;
    lemma_indent(n.depth);
    reveal_strlit("  ");
    reveal_strlit("▼ ");
    reveal_strlit("▶ ");
    reveal_strlit("[x] ");
    reveal_strlit("[~] ");
    reveal_strlit("[ ] ");
    let row = row_text(s, i);
    assert(row.subrange(d + 6, d + 6 + n.label.len()) =~= n.label);
}

/// While results are shown, the row of a leaf that has one ends with its mark and
/// has its color, unless it is focused.
pub proof fn law_outcomes_are_marked(s: SessionView, i: int, place: usize)
    requires
        s.config.view_mode == ViewMode::Results,
        s.tree[i].is_leaf,
        s.tree[i].fqn is Some,
        s.recorded.results.dom().contains(s.tree[i].fqn->0),
    ensures
        ({
            let status = s.recorded.results[s.tree[i].fqn->0].status;
            let style = row_style(s, i, place);
            &&& row_text(s, i).last() == match status {
                LeafStatus::Passed => '✓',
                LeafStatus::Failed => '✗',
                LeafStatus::Skipped => '⚠',
            }
            &&& s.cursor == Some(place) ==> style == RowStyle::Focused
            &&& s.cursor != Some(place) ==> (style == RowStyle::Passed <==> status
                == LeafStatus::Passed)
            &&& s.cursor != Some(place) ==> (style == RowStyle::Failed <==> status
                == LeafStatus::Failed)
            &&& s.cursor != Some(place) ==> (style == RowStyle::Skipped <==> status
                == LeafStatus::Skipped)
        }),
{
    reveal_strlit("  ✓");
    reveal_strlit("  ✗");
    reveal_strlit("  ⚠");
    let key = s.tree[i].fqn->0;
    let none = Map::<Seq<char>, LeafResultView>::empty();
    assert(!none.dom().contains(key));
}

/// While the output is shown, no row has a mark behind its label: rows that differ
/// in their results alone read alike.
pub proof fn law_outcomes_are_hidden_with_the_output(s: SessionView, t: SessionView, i: int)
    requires
        s.config.view_mode != ViewMode::Results,
        t.config.view_mode != ViewMode::Results,
        s.tree[i] == t.tree[i],
    ensures
        row_text(s, i) == row_text(t, i),
        row_text(s, i).len() == 2 * s.tree[i].depth + 6 + s.tree[i].label.len(),
{
    lemma_indent(s.tree[i].depth);
    reveal_strlit("  ");
    reveal_strlit("▼ ");
    reveal_strlit("▶ ");
    reveal_strlit("[x] ");
    reveal_strlit("[~] ");
    reveal_strlit("[ ] ");
}

/// A folder shows as failed as soon as one test below it failed, as passed if
/// none failed and one passed, and as skipped if there is nothing else.
pub proof fn law_failures_color_their_folders(s: SessionView, i: int, place: usize, c: ParentCounts)
    requires
        0 <= i <= usize::MAX,
        s.config.view_mode == ViewMode::Results,
        s.recorded.results.dom().len() > 0,
        !s.tree[i].is_leaf,
        s.cursor != Some(place),
        s.counts.dom().contains(i as usize),
        s.counts[i as usize] == c,
    ensures
        row_style(s, i, place) == RowStyle::FolderFailed <==> c.failed > 0,
        row_style(s, i, place) == RowStyle::FolderPassed <==> c.failed == 0 && c.passed > 0,
        row_style(s, i, place) == RowStyle::FolderSkipped <==> c.failed == 0 && c.passed == 0
            && c.skipped > 0,
{
    if s.recorded.results == Map::<Seq<char>, LeafResultView>::empty() {
        assert(s.recorded.results.dom() =~= Set::<Seq<char>>::empty());
    }
}

/// A folder below which nothing was reported has no counts behind its label, and
/// any other has.
pub proof fn law_counts_are_shown_if_there_are_any(c: ParentCounts)
    ensures
        counts_suffix(c).len() == 0 <==> c.passed == 0 && c.failed == 0 && c.skipped == 0,
{
    reveal_strlit("  ");
}

// ---------------------------------------------------------------------------
// Areas
// ---------------------------------------------------------------------------
/// The inside of a pane is what its border leaves: all but the first and the last
/// row and column.
pub proof fn law_borders_take_one_cell(a: Area, column: u16, row: u16)
    requires
        a.x + a.width <= u16::MAX,
        a.y + a.height <= u16::MAX,
    ensures
        holds_cell(a, column, row) <==> a.x <= column < a.x + a.width && a.y <= row < a.y
            + a.height,
        holds_cell(inside_border(a), column, row) <==> a.x < column < a.x + a.width - 1 && a.y < row
            < a.y + a.height - 1,
{
}

/// A popup has the size that it asks for where there is room, and as much room on
/// one side as on the other, or one cell less.
pub proof fn law_popups_are_in_the_middle(width: u16, height: u16, area: Area)
    requires
        area.x + area.width <= u16::MAX,
        area.y + area.height <= u16::MAX,
        width <= area.width,
        height <= area.height,
    ensures
        ({
            let p = centered(width, height, area);
            let left = p.x - area.x;
            let right = area.x + area.width - p.x - p.width;
            let above = p.y - area.y;
            let below = area.y + area.height - p.y - p.height;
            &&& p.width == width
            &&& p.height == height
            &&& left <= right <= left + 1
            &&& above <= below <= above + 1
        }),
{
}

/// A line takes as many rows as its characters fill, the last of them perhaps not
/// to the end; an empty line takes one.
pub proof fn law_lines_fill_their_rows(line: Seq<char>, width: u16)
    requires
        width > 0,
    ensures
        line.len() == 0 ==> rows_of(line, width) == 1,
        line.len() > 0 ==> (rows_of(line, width) - 1) * width < line.len() <= rows_of(line, width)
            * width,
{
    if line.len() > 0 {
        let w = width as int;
        let n = line.len() as int;
        let r = (n + w - 1) / w;
        assert(w * r <= n + w - 1 < w * r + w) by (nonlinear_arith)
            requires
                w > 0,
                r == (n + w - 1) / w,
        ;
        assert((r - 1) * w == w * r - w) by (nonlinear_arith);
        assert(r * w == w * r) by (nonlinear_arith);
        assert(r >= 1) by (nonlinear_arith)
            requires
                w > 0,
                n > 0,
                n + w - 1 < w * r + w,
        ;
    }
}

/// The rows of two lists of lines add up.
pub proof fn law_rows_add_up(a: Seq<Seq<char>>, b: Seq<Seq<char>>, width: u16)
    ensures
        all_rows(a + b, width) == all_rows(a, width) + all_rows(b, width),
    decreases b.len(),
{
    if b.len() == 0 {
        assert(a + b =~= a);
    } else {
        law_rows_add_up(a, b.drop_last(), width);
        assert((a + b).drop_last() =~= a + b.drop_last());
        assert((a + b).last() == b.last());
    }
}

/// At first the tests have about a fifth of the rows above the status, where the
/// screen is neither too low nor too high for that.
pub proof fn law_tests_have_a_fifth_of_the_rows(height: u16)
    requires
        17 <= height <= 2900,
    ensures
        100 * default_rows(height) <= 22 * (height - 3) < 100 * default_rows(height) + 100,
{
}

/// At first the list of failures has about a third of the width, where neither
/// pane gets too narrow by that.
pub proof fn law_failures_have_a_third_of_the_width(width: u16)
    requires
        58 <= width,
    ensures
        100 * list_cols(None, width) <= 35 * width < 100 * list_cols(None, width) + 100,
{
}

// ---------------------------------------------------------------------------
// The output pane
// ---------------------------------------------------------------------------
/// The output of a run is shown below the tests, or in place of them, as soon as
/// there is any, and it is all that the pane holds.
pub proof fn law_output_is_shown(s: SessionView)
    requires
        s.config.view_mode == ViewMode::LiveOutput,
    ensures
        s.lines.len() == 0 ==> !shows_panel(s),
        s.lines.len() > 0 && s.popups.fullscreen ==> shows_panel(s),
        panel_content(s) == s.lines,
{
}

/// Among the results, the pane is shown for a focused leaf that has one, until it
/// is hidden.
pub proof fn law_results_are_shown(s: SessionView)
    requires
        s.config.view_mode == ViewMode::Results,
    ensures
        s.results_hidden ==> !shows_panel(s),
        s.last_focus is None ==> !shows_panel(s),
        s.last_focus is Some && !s.recorded.results.dom().contains(s.last_focus->0)
            ==> !shows_panel(s),
        shows_panel(s) ==> panel_content(s).len() > 0 && leaf_panel(s) == Some(panel_content(s)),
{
}

// ---------------------------------------------------------------------------
// The mouse
// ---------------------------------------------------------------------------
/// A click on row `k` of the list of failures, counted from the first below the
/// border, picks out that failure; a click below the last changes no choice.
pub proof fn law_clicks_pick_failures(
    s: SessionView,
    m: MouseEvent,
    area: Area,
    pane: Area,
    k: int,
)
    requires
        s.failure.shown,
        s.failed.len() <= usize::MAX,
        m.kind == MouseKind::LeftDown,
        holds_cell(list_inside(s, area), m.column, m.row),
        k == m.row - list_inside(s, area).y,
    ensures
        ({
            let (after, action) = mouse_moved(s, m, area, pane, 0, 0, false, 0);
            &&& action == ActionView::Nothing
            &&& k < s.failed.len() ==> after.failure.selection == k && after.failure.scroll == 0
            &&& k >= s.failed.len() ==> after.failure.selection == s.failure.selection
            &&& after.failed == s.failed
        }),
{
}

/// A click on a detail that names a place in a file opens that place; one on any
/// other detail opens nothing.
pub proof fn law_clicks_open_places(s: SessionView, m: MouseEvent, area: Area, pane: Area, line: int)
    requires
        s.failure.shown,
        s.failed.len() > 0,
        m.kind == MouseKind::LeftDown,
        holds_cell(detail_inside(s, area), m.column, m.row),
        !holds_cell(list_inside(s, area), m.column, m.row),
        line_at_row(
            picked(s).details,
            detail_inside(s, area).width,
            s.failure.scroll + m.row - detail_inside(s, area).y,
        ) == Some(line),
    ensures
        ({
            let (after, action) = mouse_moved(s, m, area, pane, 0, 0, false, 0);
            &&& after.failure.selection == s.failure.selection
            &&& after.failure.scroll == s.failure.scroll
            &&& action == match stack_target(picked(s).details[line]) {
                Some(place) => ActionView::Open(place),
                None => ActionView::Nothing,
            }
        }),
{
}

/// The wheel moves the details by three rows, no further than the first, and only
/// where the pointer is over them.
pub proof fn law_wheel_scrolls_the_details(s: SessionView, m: MouseEvent, area: Area, pane: Area)
    requires
        s.failure.shown,
        s.failure.scroll <= u16::MAX - 3,
        m.kind == MouseKind::ScrollUp || m.kind == MouseKind::ScrollDown,
    ensures
        ({
            let over = holds_cell(detail_inside(s, area), m.column, m.row);
            let scroll = mouse_moved(s, m, area, pane, 0, 0, false, 0).0.failure.scroll;
            &&& !over ==> scroll == s.failure.scroll
            &&& over && m.kind == MouseKind::ScrollDown ==> scroll == s.failure.scroll + 3
            &&& over && m.kind == MouseKind::ScrollUp && s.failure.scroll >= 3 ==> scroll
                == s.failure.scroll - 3
            &&& over && m.kind == MouseKind::ScrollUp && s.failure.scroll < 3 ==> scroll == 0
        }),
{
}

/// A click in the tree focuses the row under the pointer, if a row is there and
/// nothing lies over the tree.
pub proof fn law_clicks_focus_rows(
    s: SessionView,
    m: MouseEvent,
    area: Area,
    pane: Area,
    offset: usize,
    listed: int,
)
    requires
        !s.failure.shown,
        m.kind == MouseKind::LeftDown,
        0 <= listed <= usize::MAX,
        holds_cell(inside_border(pane), m.column, m.row),
    ensures
        ({
            let after = mouse_moved(s, m, area, pane, offset, listed, false, 0).0;
            let place = offset + (m.row - inside_border(pane).y);
            &&& tree_is_open(s) && place < listed ==> after.cursor is Some && after.cursor->0
                == place && !after.results_hidden
            &&& !(tree_is_open(s) && place < listed) ==> after == s
            &&& after.tree == s.tree
        }),
{
}

/// The wheel moves the output by three rows where there is any, and nothing else
/// does.
pub proof fn law_wheel_scrolls_the_output(
    s: SessionView,
    m: MouseEvent,
    area: Area,
    pane: Area,
    shown: bool,
    max: u16,
)
    requires
        !s.failure.shown,
        s.scroll <= max,
    ensures
        ({
            let scroll = mouse_moved(s, m, area, pane, 0, 0, shown, max).0.scroll;
            &&& shown && m.kind == MouseKind::ScrollDown && s.scroll + 3 <= max ==> scroll
                == s.scroll + 3
            &&& shown && m.kind == MouseKind::ScrollDown && s.scroll + 3 > max ==> scroll == max
            &&& shown && m.kind == MouseKind::ScrollUp && s.scroll >= 3 ==> scroll == s.scroll - 3
            &&& shown && m.kind == MouseKind::ScrollUp && s.scroll < 3 ==> scroll == 0
            &&& !shown || (m.kind != MouseKind::ScrollUp && m.kind != MouseKind::ScrollDown)
                ==> scroll == s.scroll
        }),
{
}

/// The pointer marks the detail that it is over if that names a place in a file,
/// and nothing where it is over none.
pub proof fn law_pointer_marks_places(s: SessionView, m: MouseEvent, area: Area, pane: Area)
    requires
        s.failure.shown,
        s.failure.selection < s.failed.len(),
        s.failed[s.failure.selection as int].details.len() <= usize::MAX,
        m.kind == MouseKind::Moved,
    ensures
        ({
            let d = detail_inside(s, area);
            let details = s.failed[s.failure.selection as int].details;
            let line = line_at_row(details, d.width, s.failure.scroll + m.row - d.y);
            let after = mouse_moved(s, m, area, pane, 0, 0, false, 0).0;
            &&& after.failure.hover is Some ==> holds_cell(d, m.column, m.row) && line is Some
                && stack_target(details[line->0]) is Some
            &&& holds_cell(d, m.column, m.row) && line is Some && stack_target(details[line->0])
                is Some ==> after.failure.hover == Some(line->0 as usize)
            &&& after.failure.drag is None
        }),
{
}

// ---------------------------------------------------------------------------
// Panes
// ---------------------------------------------------------------------------
/// The panes lie one below the other over the whole width and fill the screen.
/// The lowest is the status; over it, the output has the screen for itself, the
/// tests have it, or the tests have as many rows as they are to have.
pub proof fn law_panes_fill_the_screen(area: Area, fullscreen: bool, rows: Option<u16>, i: int)
    requires
        panes_fit(area, fullscreen, rows),
    ensures
        ({
            let panes = placed_panes(area, fullscreen, rows);
            let last = panes.last();
            &&& panes.len() == if fullscreen {
                2
            } else {
                3int
            }
            &&& panes[0].y == area.y
            &&& 0 <= i < panes.len() - 1 ==> panes[i].y + panes[i].height == panes[i + 1].y
            &&& 0 <= i < panes.len() ==> panes[i].x == area.x && panes[i].width == area.width
            &&& last.y + last.height == area.y + area.height
            &&& last.height == 3
            &&& !fullscreen && rows is Some ==> panes[0].height == rows->0
            &&& !fullscreen && rows is None ==> panes[1].height == 0
        }),
{
}

// ---------------------------------------------------------------------------
// Lines of text
// ---------------------------------------------------------------------------
/// The boxes of the settings are checked exactly where the setting is on, and the
/// other lines tell the choices apart.
pub proof fn law_settings_show_what_is_set(c: ConfigView, d: ConfigView)
    ensures
        settings_lines(c)[0][3] == 'x' <==> c.no_build,
        settings_lines(c)[1][3] == 'x' <==> c.no_restore,
        settings_lines(c)[5][3] == 'x' <==> c.manual_watch_enabled,
        settings_lines(c)[7][3] == 'x' <==> c.confirm_exit_on_esc,
        settings_lines(c)[2] == settings_lines(d)[2] <==> c.verbosity == d.verbosity,
        settings_lines(c)[3] == settings_lines(d)[3] <==> c.output_mode == d.output_mode,
        settings_lines(c)[4] == settings_lines(d)[4] <==> c.view_mode == d.view_mode,
{
    reveal_strlit("  ");
    reveal_strlit("[x]");
    reveal_strlit("[ ]");
    reveal_strlit("  [∙]  Log verbosity:  ");
    reveal_strlit("  [∙]  Output layout:  ");
    reveal_strlit("  [∙]  View mode:  ");
    reveal_strlit("Normal");
    reveal_strlit("Detailed");
    reveal_strlit("Minimal");
    reveal_strlit("Split (tree + output)");
    reveal_strlit("Fullscreen when running (Live)");
    reveal_strlit("Results (tree colors + leaf panel)");
    reveal_strlit("Live (streaming output panel)");
    assert(verbosity_label(c.verbosity)[0] == verbosity_label(d.verbosity)[0] <==> c.verbosity
        == d.verbosity);
    assert(settings_lines(c)[2]["  [∙]  Log verbosity:  "@.len() as int] == verbosity_label(
        c.verbosity,
    )[0]);
    assert(settings_lines(d)[2]["  [∙]  Log verbosity:  "@.len() as int] == verbosity_label(
        d.verbosity,
    )[0]);
    assert(settings_lines(c)[3]["  [∙]  Output layout:  "@.len() as int] == layout_label(
        c.output_mode,
    )[0]);
    assert(settings_lines(d)[3]["  [∙]  Output layout:  "@.len() as int] == layout_label(
        d.output_mode,
    )[0]);
    assert(settings_lines(c)[4]["  [∙]  View mode:  "@.len() as int] == view_label(
        c.view_mode,
    )[0]);
    assert(settings_lines(d)[4]["  [∙]  View mode:  "@.len() as int] == view_label(
        d.view_mode,
    )[0]);
}

/// A preset is listed by its name, and by its tag if it has one.
pub proof fn law_presets_are_listed_by_name(p: PresetView)
    ensures
        preset_line(p).take(p.name.len() as int) == p.name,
        p.tag is Some ==> has_text(preset_line(p), p.tag->0),
{
    let line = preset_line(p);
    assert(line.take(p.name.len() as int) =~= p.name);
    if p.tag is Some {
        let a = p.name + " ("@ + decimal(p.tests.len()) + " tests)"@ + "  [tag: "@;
        law_parts_are_found(a, p.tag->0, "]"@);
        assert(line =~= a + p.tag->0 + "]"@);
    }
}

/// The status line says what is searched for, what view there is, and whether
/// files are watched.
pub proof fn law_status_says_what_is_on(s: SessionView, now: u128)
    ensures
        s.query.len() > 0 && !s.popups.fullscreen ==> has_text(status_text(s, now), s.query),
        has_text(status_text(s, now), view_hint(s.config)),
        s.config.manual_watch_enabled ==> has_text(status_text(s, now), "  ● WATCH ON "@),
{
    let text = status_text(s, now);
    let view = view_hint(s.config);
    let watch = watch_hint(s.config);
    let none = Seq::<char>::empty();
    let ends = "  Ctrl+S: preset  Ctrl+L: presets  Ctrl+E: failed "@ + " ?: help  Esc: quit "@;
    let (head, tail) = if !s.popups.fullscreen && s.query.len() == 0 && !s.run.running
        && !s.rediscovery.active {
        (
            " Arrows: nav  Space: toggle  Enter: run  Ctrl+U: churn  Ctrl+V: view  Ctrl+X: clear results "@,
            ends,
        )
    } else {
        (text.take(text.len() - watch.len() - view.len()), none)
    };
    assert(text =~= head + watch + (view + tail));
    assert(text =~= (head + watch) + view + tail);
    law_parts_are_found(head, watch, view + tail);
    law_parts_are_found(head + watch, view, tail);
    if s.query.len() > 0 && !s.popups.fullscreen {
        let after = "  |  Esc: clear  Enter: run  ?: help"@ + (watch + view);
        law_parts_are_found(" Search: "@, s.query, after);
        assert(text =~= " Search: "@ + s.query + after);
    }
}

/// The message names the place that was opened, or the one that could not be and
/// the reason.
pub proof fn law_opening_is_reported(s: SessionView, t: TargetView, error: Option<Seq<char>>)
    ensures
        ({
            let after = opening_said(s, t, error);
            let line = after.lines.last();
            &&& after.lines.drop_last() == s.lines
            &&& has_text(line, t.path)
            &&& error is Some ==> error->0.is_suffix_of(line)
            &&& error is None && t.line_number is Some ==> has_text(line, decimal(t.line_number->0))
            &&& line.len() > 0
            &&& line[0] == '✓' <==> error is None
        }),
{
    let after = opening_said(s, t, error);
    let line = after.lines.last();
    assert(after.lines.drop_last() =~= s.lines);
    reveal_strlit("✓ Opened ");
    reveal_strlit("✗ Could not open ");
    match error {
        Some(e) => {
            law_parts_are_found("✗ Could not open "@, t.path, ": "@ + e);
            assert(line =~= "✗ Could not open "@ + t.path + (": "@ + e));
            assert(e =~= line.subrange(line.len() - e.len(), line.len() as int));
        },
        None => match t.line_number {
            Some(n) => {
                let rest = " (line "@ + decimal(n) + ")."@;
                law_parts_are_found("✓ Opened "@, t.path, rest);
                assert(line =~= "✓ Opened "@ + t.path + rest);
                law_parts_are_found("✓ Opened "@ + t.path + " (line "@, decimal(n), ")."@);
            },
            None => {
                law_parts_are_found("✓ Opened "@, t.path, "."@);
            },
        },
    }
}

} // verus!
