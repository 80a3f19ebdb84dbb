//! Panes on the screen.

use ratatui::layout::{Constraint, Direction, Layout, Rect};

use vstd::prelude::*;

use crate::text::texts;

verus! {

/// Share of the screen that the tests pane has at first.
pub const DEFAULT_TESTS_PANE_PERCENT: u16 = 22;

pub const PANE_RESIZE_STEP_ROWS: u16 = 1;

pub const MIN_TESTS_PANE_ROWS: u16 = 3;

pub const MIN_OUTPUT_PANE_ROWS: u16 = 1;

pub const STATUS_PANE_ROWS: u16 = 3;

// ---------------------------------------------------------------------------
// Heights
// ---------------------------------------------------------------------------
pub open spec fn less_by(a: u16, b: u16) -> u16 {
    if a < b {
        0
    } else {
        (a - b) as u16
    }
}

pub fn saturating_less(a: u16, b: u16) -> (r: u16)
    ensures
        r == less_by(a, b),
{
    if a < b {
        0
    } else {
        a - b
    }
}

pub open spec fn more_by(a: u16, b: u16) -> u16 {
    if a + b > u16::MAX {
        u16::MAX
    } else {
        (a + b) as u16
    }
}

pub fn saturating_more(a: u16, b: u16) -> (r: u16)
    ensures
        r == more_by(a, b),
{
    if a > u16::MAX - b {
        u16::MAX
    } else {
        a + b
    }
}

/// The greatest height of the tests pane: the output pane keeps a row, the
/// status pane all of its own.
pub open spec fn max_tests_rows(height: u16) -> u16 {
    less_by(height, 4)
}

pub open spec fn min_tests_rows(height: u16) -> u16 {
    if MIN_TESTS_PANE_ROWS < max_tests_rows(height) {
        MIN_TESTS_PANE_ROWS
    } else {
        max_tests_rows(height)
    }
}

/// The height nearest to `rows` that the tests pane can have on a screen of
/// this height.
pub open spec fn fitting_rows(rows: u16, height: u16) -> u16 {
    if rows < min_tests_rows(height) {
        min_tests_rows(height)
    } else if rows > max_tests_rows(height) {
        max_tests_rows(height)
    } else {
        rows
    }
}

pub fn clamp_tests_pane_rows(rows: u16, terminal_height: u16) -> (r: u16)
    ensures
        r == fitting_rows(rows, terminal_height),
{
    let max_rows: u16 = saturating_less(terminal_height, STATUS_PANE_ROWS + MIN_OUTPUT_PANE_ROWS);
    let min_rows: u16 = if MIN_TESTS_PANE_ROWS < max_rows {
        MIN_TESTS_PANE_ROWS
    } else {
        max_rows
    };
    if rows < min_rows {
        min_rows
    } else if rows > max_rows {
        max_rows
    } else {
        rows
    }
}

/// A product of two numbers, as far as 16 bits hold it.
pub open spec fn bounded_product(a: u16, b: u16) -> int {
    if a * b > u16::MAX {
        u16::MAX as int
    } else {
        a * b
    }
}

pub open spec fn default_rows(height: u16) -> u16 {
    fitting_rows(
        (bounded_product(less_by(height, STATUS_PANE_ROWS), DEFAULT_TESTS_PANE_PERCENT)
            / 100) as u16,
        height,
    )
}

pub fn default_tests_pane_rows(terminal_height: u16) -> (r: u16)
    ensures
        r == default_rows(terminal_height),
{
    let resizable: u32 = saturating_less(terminal_height, STATUS_PANE_ROWS) as u32;
    let product: u32 = resizable * (DEFAULT_TESTS_PANE_PERCENT as u32);
    let bounded: u32 = if product > u16::MAX as u32 {
        u16::MAX as u32
    } else {
        product
    };
    clamp_tests_pane_rows((bounded / 100) as u16, terminal_height)
}

/// The height that the tests pane has: the remembered one, or the usual one,
/// as far as it fits.
pub open spec fn tests_rows(remembered: Option<u16>, height: u16) -> u16 {
    match remembered {
        Some(rows) => fitting_rows(rows, height),
        None => fitting_rows(default_rows(height), height),
    }
}

/// A height that fits stays as it is, and the tests pane always leaves room for
/// the other two where there is any.
pub proof fn law_fitting_heights_stay(rows: u16, height: u16)
    ensures
        fitting_rows(fitting_rows(rows, height), height) == fitting_rows(rows, height),
        height >= STATUS_PANE_ROWS + MIN_OUTPUT_PANE_ROWS ==> fitting_rows(rows, height)
            + MIN_OUTPUT_PANE_ROWS + STATUS_PANE_ROWS <= height,
        height >= MIN_TESTS_PANE_ROWS + MIN_OUTPUT_PANE_ROWS + STATUS_PANE_ROWS ==> fitting_rows(
            rows,
            height,
        ) >= MIN_TESTS_PANE_ROWS,
{
}

// ---------------------------------------------------------------------------
// Areas
// ---------------------------------------------------------------------------
/// A rectangle of the screen.
#[derive(Clone, Copy, Debug, PartialEq, Eq, Structural)]
pub struct Area {
    pub x: u16,
    pub y: u16,
    pub width: u16,
    pub height: u16,
}

/// How high a pane is to be.
#[derive(Clone, Copy, Debug, PartialEq, Eq, Structural)]
pub enum PaneHeight {
    Length(u16),
    Min(u16),
}

/// `panes` is one of the ways in which `ratatui::layout::Layout::split` may
/// split the area by these heights.
pub uninterp spec fn may_split(area: Area, heights: Seq<PaneHeight>, panes: Seq<Area>) -> bool;

/// The rows that a height asks for, or asks for at least.
pub open spec fn rows_asked(h: PaneHeight) -> nat {
    match h {
        PaneHeight::Length(n) => n as nat,
        PaneHeight::Min(n) => n as nat,
    }
}

/// The rows that the heights ask for together.
pub open spec fn needed_rows(heights: Seq<PaneHeight>) -> nat
    decreases heights.len(),
{
    if heights.len() == 0 {
        0
    } else {
        needed_rows(heights.drop_last()) + rows_asked(heights.last())
    }
}

/// One height is a minimum, the others are fixed.
pub open spec fn one_grows(heights: Seq<PaneHeight>) -> bool {
    exists|k: int|
        0 <= k < heights.len() && (#[trigger] heights[k]) is Min && forall|i: int|
            0 <= i < heights.len() && i != k ==> (#[trigger] heights[i]) is Length
}

/// Every pane is as high as its height says, and the panes fill the area.
pub open spec fn stacked(area: Area, heights: Seq<PaneHeight>, panes: Seq<Area>) -> bool {
    &&& panes.len() == heights.len()
    &&& forall|i: int|
        0 <= i < panes.len() ==> match heights[i] {
            PaneHeight::Length(n) => (#[trigger] panes[i]).height == n,
            PaneHeight::Min(n) => panes[i].height >= n,
        }
    &&& panes.len() > 0 ==> panes[0].y == area.y && panes.last().y + panes.last().height == area.y
        + area.height
    &&& forall|i: int, j: int|
        0 <= i && j == i + 1 && j < panes.len() ==> (#[trigger] panes[i]).y + panes[i].height == (
        #[trigger] panes[j]).y
}

/// Splits an area into panes, one below the other.
///
/// This is `ratatui::layout::Layout::split` with a vertical direction, no margin
/// and no spacing. Claimed of it: there is one pane per height, in order, each
/// as wide as the area; the panes lie inside the area; and where one height is a
/// minimum, the others are fixed and the area has the rows for all of them, each
/// pane is as high as its height says and the panes fill the area, one right
/// below the other. Where the panes begin and end otherwise comes out of a
/// numeric solver that walks hash maps, so that two calls may differ; of that it
/// is only said which area and which heights the panes come from.
#[verifier::external_body]
pub(crate) fn split_vertically(area: Area, heights: &Vec<PaneHeight>) -> (r: Vec<Area>)
    ensures
        may_split(area, heights@, r@),
        r@.len() == heights@.len(),
        forall|i: int|
            0 <= i < r@.len() ==> (#[trigger] r@[i]).x == area.x && r@[i].width == area.width,
        area.y + area.height <= u16::MAX ==> forall|i: int|
            0 <= i < r@.len() ==> area.y <= (#[trigger] r@[i]).y && r@[i].y + r@[i].height <= area.y
                + area.height,
        area.y + area.height <= u16::MAX && one_grows(heights@) && needed_rows(heights@)
            <= area.height ==> stacked(area, heights@, r@),
{
    let constraints = heights.iter().map(|h| match *h {
        PaneHeight::Length(n) => Constraint::Length(n),
        PaneHeight::Min(n) => Constraint::Min(n),
    });
    Layout::default()
        .direction(Direction::Vertical)
        .constraints(constraints)
        .split(Rect { x: area.x, y: area.y, width: area.width, height: area.height })
        .iter()
        .map(|r| Area { x: r.x, y: r.y, width: r.width, height: r.height })
        .collect()
}

/// The heights of the three panes where the output stands below the tree.
pub open spec fn split_heights(rows: u16) -> Seq<PaneHeight> {
    seq![
        PaneHeight::Length(rows),
        PaneHeight::Min(MIN_OUTPUT_PANE_ROWS),
        PaneHeight::Length(STATUS_PANE_ROWS),
    ]
}

/// The heights of the three panes, with the height of the tests pane
/// remembered.
pub fn split_output_constraints(
    tests_pane_rows: &mut Option<u16>,
    terminal_height: u16,
) -> (r: Vec<PaneHeight>)
    ensures
        *final(tests_pane_rows) == Some(tests_rows(*old(tests_pane_rows), terminal_height)),
        r@ == split_heights(tests_rows(*old(tests_pane_rows), terminal_height)),
{
    let wanted: u16 = match *tests_pane_rows {
        Some(rows) => rows,
        None => default_tests_pane_rows(terminal_height),
    };
    let rows: u16 = clamp_tests_pane_rows(wanted, terminal_height);
    *tests_pane_rows = Some(rows);
    vec![
        PaneHeight::Length(rows),
        PaneHeight::Min(MIN_OUTPUT_PANE_ROWS),
        PaneHeight::Length(STATUS_PANE_ROWS),
    ]
}

/// The heights of the panes: output and status where the output fills the
/// screen; else tree, output and status, the output without a row where it is
/// not shown.
pub open spec fn pane_heights(fullscreen: bool, split_rows: Option<u16>) -> Seq<PaneHeight> {
    if fullscreen {
        seq![PaneHeight::Min(0), PaneHeight::Length(STATUS_PANE_ROWS)]
    } else {
        match split_rows {
            Some(rows) => split_heights(rows),
            None => seq![
                PaneHeight::Min(0),
                PaneHeight::Length(0),
                PaneHeight::Length(STATUS_PANE_ROWS),
            ],
        }
    }
}

/// The panes of a screen that has the rows for them: the status pane at the
/// bottom, the tests pane at the top, and what is left between them.
pub open spec fn placed_panes(area: Area, fullscreen: bool, split_rows: Option<u16>) -> Seq<Area> {
    let status = STATUS_PANE_ROWS as int;
    let bottom = Area {
        y: (area.y + area.height - status) as u16,
        height: STATUS_PANE_ROWS,
        ..area
    };
    let above = Area { height: (area.height - status) as u16, ..area };
    if fullscreen {
        seq![above, bottom]
    } else {
        match split_rows {
            Some(rows) => seq![
                Area { height: rows, ..area },
                Area {
                    y: (area.y + rows) as u16,
                    height: (area.height - rows - status) as u16,
                    ..area
                },
                bottom,
            ],
            None => seq![above, Area { height: 0, ..bottom }, bottom],
        }
    }
}

/// The area has the rows for the panes.
pub open spec fn panes_fit(area: Area, fullscreen: bool, split_rows: Option<u16>) -> bool {
    &&& area.y + area.height <= u16::MAX
    &&& match split_rows {
        Some(rows) if !fullscreen => rows + MIN_OUTPUT_PANE_ROWS + STATUS_PANE_ROWS <= area.height,
        _ => STATUS_PANE_ROWS <= area.height,
    }
}

proof fn lemma_placed(area: Area, fullscreen: bool, split_rows: Option<u16>, r: Seq<Area>)
    requires
        panes_fit(area, fullscreen, split_rows),
        stacked(area, pane_heights(fullscreen, split_rows), r),
        forall|i: int|
            0 <= i < r.len() ==> (#[trigger] r[i]).x == area.x && r[i].width == area.width,
    ensures
        r == placed_panes(area, fullscreen, split_rows),
{
    let h = pane_heights(fullscreen, split_rows);
    assert(r[0].y + r[0].height == r[1].y);
    assert(r[0].x == area.x && r[1].x == area.x);
    if h.len() == 3 {
        assert(r[1].y + r[1].height == r[2].y);
        assert(r[2].x == area.x);
    }
    assert(r =~= placed_panes(area, fullscreen, split_rows));
}

proof fn lemma_heights_fit(area: Area, fullscreen: bool, split_rows: Option<u16>)
    ensures
        one_grows(pane_heights(fullscreen, split_rows)),
        panes_fit(area, fullscreen, split_rows) ==> needed_rows(
            pane_heights(fullscreen, split_rows),
        ) <= area.height,
{
    let h = pane_heights(fullscreen, split_rows);
    reveal_with_fuel(needed_rows, 4);
    assert(h[0] is Min || h[1] is Min);
    assert(h.drop_last().drop_last().len() <= 1);
}

/// The panes of a screen; `split_rows` is the height of the tests pane where
/// the output stands below it.
pub fn panes(area: Area, fullscreen: bool, split_rows: Option<u16>) -> (r: Vec<Area>)
    ensures
        may_split(area, pane_heights(fullscreen, split_rows), r@),
        r@.len() == pane_heights(fullscreen, split_rows).len(),
        forall|i: int|
            0 <= i < r@.len() ==> (#[trigger] r@[i]).x == area.x && r@[i].width == area.width,
        area.y + area.height <= u16::MAX ==> forall|i: int|
            0 <= i < r@.len() ==> area.y <= (#[trigger] r@[i]).y && r@[i].y + r@[i].height <= area.y
                + area.height,
        panes_fit(area, fullscreen, split_rows) ==> r@ == placed_panes(
            area,
            fullscreen,
            split_rows,
        ),
{
    let heights: Vec<PaneHeight> = if fullscreen {
        vec![PaneHeight::Min(0), PaneHeight::Length(STATUS_PANE_ROWS)]
    } else {
        match split_rows {
            Some(rows) => vec![
                PaneHeight::Length(rows),
                PaneHeight::Min(MIN_OUTPUT_PANE_ROWS),
                PaneHeight::Length(STATUS_PANE_ROWS),
            ],
            None => vec![
                PaneHeight::Min(0),
                PaneHeight::Length(0),
                PaneHeight::Length(STATUS_PANE_ROWS),
            ],
        }
    };
    assert(heights@ =~= pane_heights(fullscreen, split_rows));
    let r = split_vertically(area, &heights);
    proof {
        if panes_fit(area, fullscreen, split_rows) {
            lemma_heights_fit(area, fullscreen, split_rows);
            lemma_placed(area, fullscreen, split_rows, r@);
        }
    }
    r
}

/// What is left of an area inside its border.
pub open spec fn inside_border(a: Area) -> Area {
    Area {
        x: more_by(a.x, 1),
        y: more_by(a.y, 1),
        width: less_by(a.width, 2),
        height: less_by(a.height, 2),
    }
}

pub fn inner(a: Area) -> (r: Area)
    ensures
        r == inside_border(a),
{
    Area {
        x: saturating_more(a.x, 1),
        y: saturating_more(a.y, 1),
        width: saturating_less(a.width, 2),
        height: saturating_less(a.height, 2),
    }
}

/// The cell lies in the area.
pub open spec fn holds_cell(a: Area, column: u16, row: u16) -> bool {
    &&& a.width > 0
    &&& a.height > 0
    &&& a.x <= column < more_by(a.x, a.width)
    &&& a.y <= row < more_by(a.y, a.height)
}

pub fn area_holds(a: Area, column: u16, row: u16) -> (r: bool)
    ensures
        r == holds_cell(a, column, row),
{
    a.width > 0 && a.height > 0 && column >= a.x && column < saturating_more(a.x, a.width) && row
        >= a.y && row < saturating_more(a.y, a.height)
}

/// A popup of this size in the middle of an area, as far as it fits.
pub open spec fn centered(width: u16, height: u16, area: Area) -> Area {
    let w = if width < area.width {
        width
    } else {
        area.width
    };
    let h = if height < area.height {
        height
    } else {
        area.height
    };
    Area {
        x: more_by(area.x, ((area.width - w) / 2) as u16),
        y: more_by(area.y, ((area.height - h) / 2) as u16),
        width: w,
        height: h,
    }
}

pub fn centered_rect(width: u16, height: u16, area: Area) -> (r: Area)
    ensures
        r == centered(width, height, area),
{
    let w: u16 = if width < area.width {
        width
    } else {
        area.width
    };
    let h: u16 = if height < area.height {
        height
    } else {
        area.height
    };
    Area {
        x: saturating_more(area.x, (area.width - w) / 2),
        y: saturating_more(area.y, (area.height - h) / 2),
        width: w,
        height: h,
    }
}

/// A popup lies inside the area that it covers.
pub proof fn law_popups_fit(width: u16, height: u16, area: Area)
    requires
        area.x + area.width <= u16::MAX,
        area.y + area.height <= u16::MAX,
    ensures
        area.x <= centered(width, height, area).x,
        centered(width, height, area).x + centered(width, height, area).width <= area.x
            + area.width,
        area.y <= centered(width, height, area).y,
        centered(width, height, area).y + centered(width, height, area).height <= area.y
            + area.height,
{
}

// ---------------------------------------------------------------------------
// Wrapped lines
// ---------------------------------------------------------------------------
/// How many rows a line takes on a pane of this width: at least one.
pub open spec fn rows_of(line: Seq<char>, width: u16) -> nat {
    if line.len() == 0 || width == 0 {
        1
    } else {
        ((line.len() + width - 1) / (width as int)) as nat
    }
}

pub fn wrapped_rows(line: &str, width: u16) -> (r: usize)
    ensures
        r == rows_of(line@, width),
        r >= 1,
{
    let n: usize = line.unicode_len();
    if n == 0 || width == 0 {
        1
    } else {
        let w: usize = width as usize;
        let q: usize = (n - 1) / w;
        assert(q == (n - 1) / (width as int));
        assert((n + width - 1) / (width as int) == q + 1) by (nonlinear_arith)
            requires
                n >= 1,
                width >= 1,
                q == (n - 1) / (width as int),
        {
            assert(n + width - 1 == (n - 1) + width);
        }
        assert(q + 1 <= n) by (nonlinear_arith)
            requires
                n >= 1,
                width >= 1,
                q == (n - 1) / (width as int),
        ;
        q + 1
    }
}

pub open spec fn all_rows(lines: Seq<Seq<char>>, width: u16) -> nat
    decreases lines.len(),
{
    if lines.len() == 0 {
        0
    } else {
        all_rows(lines.drop_last(), width) + rows_of(lines.last(), width)
    }
}

/// How far a pane can be scrolled until its last row shows the last line, or the
/// last that 16 bits can number.
pub open spec fn scroll_max(lines: Seq<Seq<char>>, width: u16, height: u16) -> u16 {
    let rows = all_rows(lines, width);
    less_by(
        if rows < u16::MAX {
            rows as u16
        } else {
            u16::MAX
        },
        height,
    )
}

/// Scrolled as far as it can be, a pane still ends at a row that 16 bits can
/// number; where all rows have such a number, it ends at the last.
pub proof fn law_scrolled_panes_end_in_range(lines: Seq<Seq<char>>, width: u16, height: u16)
    ensures
        scroll_max(lines, width, height) + height <= u16::MAX,
        height <= all_rows(lines, width) <= u16::MAX ==> scroll_max(lines, width, height) + height
            == all_rows(lines, width),
        all_rows(lines, width) <= height ==> scroll_max(lines, width, height) == 0,
{
}

proof fn lemma_rows_grow(lines: Seq<Seq<char>>, width: u16, n: int)
    requires
        0 <= n <= lines.len(),
    ensures
        all_rows(lines.take(n), width) <= all_rows(lines, width),
    decreases lines.len(),
{
    if n < lines.len() {
        lemma_rows_grow(lines.drop_last(), width, n);
        assert(lines.drop_last().take(n) =~= lines.take(n));
    } else {
        assert(lines.take(n) =~= lines);
    }
}

pub fn output_wrapped_scroll_max(lines: &Vec<String>, width: u16, height: u16) -> (r: u16)
    ensures
        r == scroll_max(texts(lines@), width, height),
{
    let ghost all = texts(lines@);
    let most: usize = u16::MAX as usize;
    let mut rows: usize = 0;
    let mut i: usize = 0;
    assert(all.take(0) =~= Seq::<Seq<char>>::empty());
    while i < lines.len()
        invariant
            all == texts(lines@),
            i <= lines@.len(),
            most == u16::MAX,
            rows < most,
            rows == all_rows(all.take(i as int), width),
        decreases lines@.len() - i,
    {
        let more: usize = wrapped_rows(lines[i].as_str(), width);
        proof {
            assert(all.take(i + 1).drop_last() =~= all.take(i as int));
            assert(all.take(i + 1).last() == lines@[i as int]@);
            lemma_rows_grow(all, width, i + 1);
        }
        if more >= most - rows {
            return saturating_less(u16::MAX, height);
        }
        rows = rows + more;
        i += 1;
    }
    assert(all.take(i as int) =~= all);
    saturating_less(rows as u16, height)
}

} // verus!
