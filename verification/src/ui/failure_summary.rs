//! The overlay that lists the failed tests: its panes, and the places in source
//! files that the details point to.

use vstd::prelude::*;

use crate::numerals::{count_text, decimal, numeral_value, opt_nat, parse_count};
use crate::text::{
    after_part, after_text, before_part, before_text, concat, ends_with, texts, trim, trimmed,
};
use crate::ui::failed_tests::{failed_views, FailedTestInfo, FailedView};
use crate::ui::layout::{
    less_by, more_by, rows_of, saturating_less, saturating_more, wrapped_rows, Area,
};
use crate::ui::tally::{leading_digits, take_digits};

verus! {

pub const MIN_LIST_COLS: u16 = 20;

pub const MIN_DETAIL_COLS: u16 = 20;

/// Share of the screen that the list has at first.
pub const DEFAULT_LIST_PERCENT: u16 = 35;

/// Rows below the two panes.
pub const FOOTER_ROWS: u16 = 2;

// ---------------------------------------------------------------------------
// Panes
// ---------------------------------------------------------------------------
pub open spec fn max_list_cols(width: u16) -> u16 {
    less_by(width, MIN_DETAIL_COLS)
}

/// The width nearest to `cols` that the list can have on a screen of this
/// width.
pub open spec fn fitting_cols(cols: u16, width: u16) -> u16 {
    let least = if MIN_LIST_COLS < max_list_cols(width) {
        MIN_LIST_COLS
    } else {
        max_list_cols(width)
    };
    if cols < least {
        least
    } else if cols > max_list_cols(width) {
        max_list_cols(width)
    } else {
        cols
    }
}

pub fn clamp_failed_summary_list_pane_cols(cols: u16, width: u16) -> (r: u16)
    ensures
        r == fitting_cols(cols, width),
{
    let most: u16 = saturating_less(width, MIN_DETAIL_COLS);
    let least: u16 = if MIN_LIST_COLS < most {
        MIN_LIST_COLS
    } else {
        most
    };
    if cols < least {
        least
    } else if cols > most {
        most
    } else {
        cols
    }
}

/// The width that the list has: the remembered one or the usual one, as far as
/// it fits.
pub open spec fn list_cols(remembered: Option<u16>, width: u16) -> u16 {
    match remembered {
        Some(cols) => fitting_cols(cols, width),
        None => fitting_cols(((width * DEFAULT_LIST_PERCENT) / 100) as u16, width),
    }
}

pub fn compute_failure_summary_list_pane_cols(remembered: Option<u16>, width: u16) -> (r: u16)
    ensures
        r == list_cols(remembered, width),
{
    match remembered {
        Some(cols) => clamp_failed_summary_list_pane_cols(cols, width),
        None => {
            let share: u32 = (width as u32) * (DEFAULT_LIST_PERCENT as u32) / 100;
            clamp_failed_summary_list_pane_cols(share as u16, width)
        },
    }
}

pub open spec fn list_area(area: Area, cols: u16) -> Area {
    Area { width: cols, height: less_by(area.height, FOOTER_ROWS), ..area }
}

pub fn failed_summary_list_rect(area: Area, cols: u16) -> (r: Area)
    ensures
        r == list_area(area, cols),
{
    Area {
        x: area.x,
        y: area.y,
        width: cols,
        height: saturating_less(area.height, FOOTER_ROWS),
    }
}

pub open spec fn detail_area(area: Area, cols: u16) -> Area {
    Area {
        x: more_by(area.x, cols),
        y: area.y,
        width: less_by(area.width, cols),
        height: less_by(area.height, FOOTER_ROWS),
    }
}

pub fn failed_summary_detail_rect(area: Area, cols: u16) -> (r: Area)
    ensures
        r == detail_area(area, cols),
{
    Area {
        x: saturating_more(area.x, cols),
        y: area.y,
        width: saturating_less(area.width, cols),
        height: saturating_less(area.height, FOOTER_ROWS),
    }
}

/// The two panes stand side by side and fill the width of the screen.
pub proof fn law_summary_panes_fill_the_width(area: Area, remembered: Option<u16>)
    requires
        area.x + area.width <= u16::MAX,
    ensures
        ({
            let cols = list_cols(remembered, area.width);
            &&& list_area(area, cols).x + list_area(area, cols).width == detail_area(area, cols).x
            &&& detail_area(area, cols).x + detail_area(area, cols).width == area.x + area.width
            &&& fitting_cols(cols, area.width) == cols
        }),
{
}

// ---------------------------------------------------------------------------
// Places in source files
// ---------------------------------------------------------------------------
/// A place in a source file that a stack trace names.
#[derive(Clone, Debug)]
pub struct StackTarget {
    pub path: String,
    pub line_number: Option<usize>,
}

#[verifier::ext_equal]
pub struct TargetView {
    pub path: Seq<char>,
    pub line_number: Option<nat>,
}

impl View for StackTarget {
    type V = TargetView;

    open spec fn view(&self) -> TargetView {
        TargetView { path: self.path@, line_number: opt_nat(self.line_number) }
    }
}

pub open spec fn opt_target(t: Option<StackTarget>) -> Option<TargetView> {
    match t {
        Some(t) => Some(t@),
        None => None,
    }
}

/// The place that a line of a stack trace names: what stands behind `in`, if it
/// is a C# file, and the number behind `:line`, if there is one.
pub open spec fn stack_target(line: Seq<char>) -> Option<TargetView> {
    match after_text(line, " in "@) {
        None => None,
        Some(place) => {
            let path = trimmed(before_text(place, ":line "@));
            if ".cs"@.is_suffix_of(path) {
                Some(
                    TargetView {
                        path,
                        line_number: match after_text(place, ":line "@) {
                            Some(rest) => numeral_value(leading_digits(rest), usize::MAX as nat),
                            None => None,
                        },
                    },
                )
            } else {
                None
            }
        },
    }
}

pub fn parse_stack_trace_target(line: &str) -> (r: Option<StackTarget>)
    ensures
        opt_target(r) == stack_target(line@),
{
    match after_part(line, " in ") {
        None => None,
        Some(place) => {
            let path = trim(before_part(place, ":line "));
            if !ends_with(path, ".cs") {
                return None;
            }
            let line_number: Option<usize> = match after_part(place, ":line ") {
                Some(rest) => parse_count(take_digits(rest).as_str()),
                None => None,
            };
            Some(StackTarget { path: path.to_owned(), line_number })
        },
    }
}

/// What is said after the editor was asked to open the place.
pub open spec fn opened_message(t: TargetView) -> Seq<char> {
    match t.line_number {
        Some(n) => "✓ Opened "@ + t.path + " (line "@ + decimal(n) + ")."@,
        None => "✓ Opened "@ + t.path + "."@,
    }
}

pub fn target_opened_message(t: &StackTarget) -> (r: String)
    ensures
        r@ == opened_message(t@),
{
    let mut s = concat("✓ Opened ", t.path.as_str());
    match t.line_number {
        Some(n) => {
            s.append(" (line ");
            let number = count_text(n);
            s.append(number.as_str());
            s.append(").");
        },
        None => {
            s.append(".");
        },
    }
    s
}

// ---------------------------------------------------------------------------
// Pointing
// ---------------------------------------------------------------------------
/// Which of the wrapped lines shows on this row, counted from the first.
pub open spec fn line_at_row(lines: Seq<Seq<char>>, width: u16, row: int) -> Option<int>
    decreases lines.len(),
{
    if lines.len() == 0 || row < 0 {
        None
    } else if row < rows_of(lines[0], width) {
        Some(0)
    } else {
        match line_at_row(lines.drop_first(), width, row - rows_of(lines[0], width)) {
            Some(i) => Some(i + 1),
            None => None,
        }
    }
}

spec fn shifted(o: Option<int>, by: int) -> Option<int> {
    match o {
        Some(i) => Some(i + by),
        None => None,
    }
}

pub open spec fn opt_int(o: Option<usize>) -> Option<int> {
    match o {
        Some(i) => Some(i as int),
        None => None,
    }
}

pub fn clicked_detail_index(
    details: &Vec<String>,
    width: u16,
    scroll: u16,
    relative_row: u16,
) -> (r: Option<usize>)
    ensures
        opt_int(r) == line_at_row(texts(details@), width, scroll + relative_row),
        r matches Some(i) ==> i < details@.len(),
{
    let ghost all = texts(details@);
    let ghost row = scroll + relative_row;
    let mut left: usize = scroll as usize + relative_row as usize;
    let mut i: usize = 0;
    assert(all.skip(0) =~= all);
    while i < details.len()
        invariant
            all == texts(details@),
            row == scroll + relative_row,
            i <= details@.len(),
            line_at_row(all, width, row) == shifted(
                line_at_row(all.skip(i as int), width, left as int),
                i as int,
            ),
        decreases details@.len() - i,
    {
        let rows: usize = wrapped_rows(details[i].as_str(), width);
        assert(all.skip(i as int)[0] == details@[i as int]@);
        if left < rows {
            return Some(i);
        }
        assert(all.skip(i as int).drop_first() =~= all.skip(i + 1));
        left = left - rows;
        i += 1;
    }
    None
}

/// The detail that the pointer is over, if it names a place in a file.
pub open spec fn hovered(
    failed: Seq<FailedView>,
    selection: int,
    width: u16,
    scroll: u16,
    in_pane: bool,
    relative_row: u16,
) -> Option<int> {
    if !in_pane || failed.len() == 0 {
        None
    } else {
        let shown = if selection < failed.len() {
            selection
        } else {
            failed.len() - 1
        };
        let details = failed[shown].details;
        match line_at_row(details, width, scroll + relative_row) {
            Some(i) => if stack_target(details[i]) is Some {
                Some(i)
            } else {
                None
            },
            None => None,
        }
    }
}

pub fn compute_failure_detail_link_hover(
    failed: &Vec<FailedTestInfo>,
    selection: usize,
    width: u16,
    top: u16,
    scroll: u16,
    in_pane: bool,
    row: u16,
) -> (r: Option<usize>)
    ensures
        opt_int(r) == hovered(
            failed_views(failed@),
            selection as int,
            width,
            scroll,
            in_pane,
            less_by(row, top),
        ),
{
    if !in_pane || failed.len() == 0 {
        return None;
    }
    let shown: usize = if selection < failed.len() {
        selection
    } else {
        failed.len() - 1
    };
    assert(failed_views(failed@)[shown as int] == failed@[shown as int]@);
    let details = &failed[shown].details;
    match clicked_detail_index(details, width, scroll, saturating_less(row, top)) {
        Some(i) => {
            assert(texts(details@)[i as int] == details@[i as int]@);
            if parse_stack_trace_target(details[i].as_str()).is_some() {
                Some(i)
            } else {
                None
            }
        },
        None => None,
    }
}

} // verus!
