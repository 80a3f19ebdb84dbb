//! The mouse.

use vstd::prelude::*;

use crate::text::{concat, opt_text};
use crate::ui::actions::{Action, ActionView};
use crate::ui::failure_keys::{picked, picking, with_pane};
use crate::ui::failure_panes::{detail_inside, list_inside};
use crate::ui::failure_summary::{
    clicked_detail_index, compute_failure_detail_link_hover, hovered, line_at_row, opened_message,
    opt_target, parse_stack_trace_target, stack_target, target_opened_message, StackTarget,
    TargetView,
};
use crate::ui::frame::Frame;
use crate::ui::keys::{scrolled_down, scrolled_up};
use crate::ui::layout::{
    area_holds, holds_cell, inner, inside_border, less_by, more_by, saturating_less,
    saturating_more, Area,
};
use crate::ui::session::{saying, FailurePane, Session, SessionView};

verus! {

#[derive(Clone, Copy, Debug, PartialEq, Eq, Structural)]
pub enum MouseKind {
    LeftDown,
    ScrollUp,
    ScrollDown,
    Moved,
    Drag,
    Other,
}

#[derive(Clone, Copy, Debug, PartialEq, Eq, Structural)]
pub struct MouseEvent {
    pub kind: MouseKind,
    pub column: u16,
    pub row: u16,
}

/// Rows that the wheel scrolls.
pub const WHEEL_ROWS: u16 = 3;

// ---------------------------------------------------------------------------
// In the summary of failures
// ---------------------------------------------------------------------------
/// The detail that the pointer is over is marked, if it names a place in a
/// file.
pub open spec fn hover_marked(s: SessionView, m: MouseEvent, area: Area) -> SessionView {
    let d = detail_inside(s, area);
    let i = hovered(
        s.failed,
        s.failure.selection as int,
        d.width,
        s.failure.scroll,
        holds_cell(d, m.column, m.row),
        less_by(m.row, d.y),
    );
    with_pane(
        s,
        FailurePane {
            hover: match i {
                Some(i) => Some(i as usize),
                None => None,
            },
            ..s.failure
        },
    )
}

/// The place that the clicked detail names.
pub open spec fn clicked_target(s: SessionView, m: MouseEvent, area: Area) -> Option<TargetView> {
    let d = detail_inside(s, area);
    let details = picked(s).details;
    match line_at_row(details, d.width, s.failure.scroll + less_by(m.row, d.y)) {
        Some(i) => stack_target(details[i]),
        None => None,
    }
}

/// A click picks out a failure, or opens the place that a detail names.
pub open spec fn summary_clicked(s: SessionView, m: MouseEvent, area: Area) -> (
    SessionView,
    ActionView,
) {
    let l = list_inside(s, area);
    let row = less_by(m.row, l.y);
    if s.failed.len() == 0 {
        (s, ActionView::Nothing)
    } else if holds_cell(l, m.column, m.row) {
        (
            if row < s.failed.len() {
                picking(s, row as usize)
            } else {
                s
            },
            ActionView::Nothing,
        )
    } else if holds_cell(detail_inside(s, area), m.column, m.row) {
        match clicked_target(s, m, area) {
            Some(target) => (s, ActionView::Open(target)),
            None => (s, ActionView::Nothing),
        }
    } else {
        (s, ActionView::Nothing)
    }
}

/// The wheel scrolls the details where the pointer is over them.
pub open spec fn details_wheeled(s: SessionView, m: MouseEvent, area: Area) -> SessionView {
    if holds_cell(detail_inside(s, area), m.column, m.row) {
        with_pane(
            s,
            FailurePane {
                scroll: if m.kind == MouseKind::ScrollUp {
                    less_by(s.failure.scroll, WHEEL_ROWS)
                } else {
                    more_by(s.failure.scroll, WHEEL_ROWS)
                },
                ..s.failure
            },
        )
    } else {
        s
    }
}

/// What the pointer is held down on: a row of the details, or nothing that can be
/// dragged.
pub open spec fn grabbed(s: SessionView, m: MouseEvent, area: Area) -> SessionView {
    let drag = if holds_cell(detail_inside(s, area), m.column, m.row) {
        Some(m.row)
    } else {
        None
    };
    with_pane(s, FailurePane { drag, ..s.failure })
}

/// The pointer holds nothing any more.
pub open spec fn released(s: SessionView) -> SessionView {
    with_pane(s, FailurePane { drag: None, ..s.failure })
}

/// A drag over the details takes them along: they are scrolled by as many rows
/// as the pointer has moved, down where it moved up.
pub open spec fn details_dragged(s: SessionView, m: MouseEvent, area: Area) -> SessionView {
    let scroll = match s.failure.drag {
        Some(from) => if !holds_cell(detail_inside(s, area), m.column, m.row) {
            s.failure.scroll
        } else if m.row < from {
            more_by(s.failure.scroll, (from - m.row) as u16)
        } else {
            less_by(s.failure.scroll, (m.row - from) as u16)
        },
        None => s.failure.scroll,
    };
    grabbed(with_pane(s, FailurePane { scroll, ..s.failure }), m, area)
}

/// Dragging the details and dragging them back leads back, unless they came to
/// an end.
pub proof fn law_dragging_back_leads_back(
    s: SessionView,
    there: MouseEvent,
    back: MouseEvent,
    area: Area,
)
    requires
        s.failure.drag == Some(back.row),
        holds_cell(detail_inside(s, area), there.column, there.row),
        holds_cell(detail_inside(s, area), back.column, back.row),
        0 <= s.failure.scroll + back.row - there.row <= u16::MAX,
    ensures
        details_dragged(s, there, area).failure.scroll == s.failure.scroll + back.row - there.row,
        details_dragged(details_dragged(s, there, area), back, area) == s,
{
    assert(details_dragged(details_dragged(s, there, area), back, area) =~= s);
}

pub open spec fn summary_mouse(s: SessionView, m: MouseEvent, area: Area) -> (
    SessionView,
    ActionView,
) {
    match m.kind {
        MouseKind::LeftDown => summary_clicked(grabbed(s, m, area), m, area),
        MouseKind::ScrollUp | MouseKind::ScrollDown => (
            hover_marked(details_wheeled(s, m, area), m, area),
            ActionView::Nothing,
        ),
        MouseKind::Drag => (
            hover_marked(details_dragged(s, m, area), m, area),
            ActionView::Nothing,
        ),
        MouseKind::Moved => (hover_marked(released(s), m, area), ActionView::Nothing),
        MouseKind::Other => (released(s), ActionView::Nothing),
    }
}

impl Session {
    fn mark_hover(&mut self, m: MouseEvent, area: Area)
        requires
            old(self).wf(),
        ensures
            final(self).wf(),
            final(self)@ == hover_marked(old(self)@, m, area),
    {
        let d = self.detail_pane(area);
        self.failure.hover = compute_failure_detail_link_hover(
            &self.failed,
            self.failure.selection,
            d.width,
            d.y,
            self.failure.scroll,
            area_holds(d, m.column, m.row),
            m.row,
        );
        assert(self@ =~= hover_marked(old(self)@, m, area));
    }

    fn click_target(&self, m: MouseEvent, area: Area) -> (r: Option<StackTarget>)
        requires
            self.failed@.len() > 0,
        ensures
            opt_target(r) == clicked_target(self@, m, area),
    {
        let d = self.detail_pane(area);
        let f = self.picked_failure();
        match clicked_detail_index(
            &f.details,
            d.width,
            self.failure.scroll,
            saturating_less(m.row, d.y),
        ) {
            Some(i) => {
                assert(picked(self@).details[i as int] == f.details@[i as int]@);
                parse_stack_trace_target(f.details[i].as_str())
            },
            None => None,
        }
    }

    fn click_summary(&mut self, m: MouseEvent, area: Area) -> (r: Action)
        requires
            old(self).wf(),
        ensures
            final(self).wf(),
            (final(self)@, r@) == summary_clicked(old(self)@, m, area),
    {
        assert(self@.failed.len() == self.failed@.len());
        if self.failed.len() == 0 {
            return Action::Nothing;
        }
        let l = self.list_pane(area);
        let d = self.detail_pane(area);
        if area_holds(l, m.column, m.row) {
            let row: usize = saturating_less(m.row, l.y) as usize;
            if row < self.failed.len() {
                self.pick(row);
            }
            Action::Nothing
        } else if area_holds(d, m.column, m.row) {
            match self.click_target(m, area) {
                Some(target) => Action::Open(target),
                None => Action::Nothing,
            }
        } else {
            Action::Nothing
        }
    }

    fn wheel_details(&mut self, m: MouseEvent, area: Area)
        requires
            old(self).wf(),
        ensures
            final(self).wf(),
            final(self)@ == details_wheeled(old(self)@, m, area),
    {
        let d = self.detail_pane(area);
        if area_holds(d, m.column, m.row) {
            self.failure.scroll = if m.kind == MouseKind::ScrollUp {
                saturating_less(self.failure.scroll, WHEEL_ROWS)
            } else {
                saturating_more(self.failure.scroll, WHEEL_ROWS)
            };
        }
        assert(self@ =~= details_wheeled(old(self)@, m, area));
    }

    fn grab(&mut self, m: MouseEvent, area: Area)
        requires
            old(self).wf(),
        ensures
            final(self).wf(),
            final(self)@ == grabbed(old(self)@, m, area),
    {
        let d = self.detail_pane(area);
        self.failure.drag = if area_holds(d, m.column, m.row) {
            Some(m.row)
        } else {
            None
        };
        assert(self@ =~= grabbed(old(self)@, m, area));
    }

    fn release(&mut self)
        requires
            old(self).wf(),
        ensures
            final(self).wf(),
            final(self)@ == released(old(self)@),
    {
        self.failure.drag = None;
        assert(self@ =~= released(old(self)@));
    }

    fn drag_details(&mut self, m: MouseEvent, area: Area)
        requires
            old(self).wf(),
        ensures
            final(self).wf(),
            final(self)@ == details_dragged(old(self)@, m, area),
    {
        let d = self.detail_pane(area);
        match self.failure.drag {
            Some(from) => {
                if area_holds(d, m.column, m.row) {
                    self.failure.scroll = if m.row < from {
                        saturating_more(self.failure.scroll, from - m.row)
                    } else {
                        saturating_less(self.failure.scroll, m.row - from)
                    };
                }
            },
            None => {},
        }
        self.grab(m, area);
        assert(self@ =~= details_dragged(old(self)@, m, area));
    }

    fn mouse_in_summary(&mut self, m: MouseEvent, area: Area) -> (r: Action)
        requires
            old(self).wf(),
        ensures
            final(self).wf(),
            (final(self)@, r@) == summary_mouse(old(self)@, m, area),
    {
        match m.kind {
            MouseKind::LeftDown => {
                self.grab(m, area);
                self.click_summary(m, area)
            },
            MouseKind::ScrollUp | MouseKind::ScrollDown => {
                self.wheel_details(m, area);
                self.mark_hover(m, area);
                Action::Nothing
            },
            MouseKind::Drag => {
                self.drag_details(m, area);
                self.mark_hover(m, area);
                Action::Nothing
            },
            MouseKind::Moved => {
                self.release();
                self.mark_hover(m, area);
                Action::Nothing
            },
            MouseKind::Other => {
                self.release();
                Action::Nothing
            },
        }
    }
}

// ---------------------------------------------------------------------------
// In the tree
// ---------------------------------------------------------------------------
/// Nothing lies over the tree.
pub open spec fn tree_is_open(s: SessionView) -> bool {
    !s.popups.fullscreen && !s.popups.settings && !s.popups.help && !s.popups.presets
        && !s.popups.saving && !s.popups.exit
}

/// A click focuses the row under the pointer; `offset` is the first row that is
/// on the screen.
pub open spec fn tree_clicked(
    s: SessionView,
    m: MouseEvent,
    tree_pane: Area,
    offset: usize,
    listed: int,
) -> SessionView {
    let inside = inside_border(tree_pane);
    let place = offset + less_by(m.row, inside.y);
    if tree_is_open(s) && holds_cell(inside, m.column, m.row) && place < listed {
        SessionView { cursor: Some(place as usize), results_hidden: false, ..s }
    } else {
        s
    }
}

pub open spec fn mouse_moved(
    s: SessionView,
    m: MouseEvent,
    area: Area,
    tree_pane: Area,
    offset: usize,
    listed: int,
    panel_shown: bool,
    scroll_max: u16,
) -> (SessionView, ActionView) {
    if s.failure.shown {
        summary_mouse(s, m, area)
    } else {
        (
            match m.kind {
                MouseKind::LeftDown => tree_clicked(s, m, tree_pane, offset, listed),
                MouseKind::ScrollUp => if panel_shown {
                    scrolled_up(s, WHEEL_ROWS)
                } else {
                    s
                },
                MouseKind::ScrollDown => if panel_shown {
                    scrolled_down(s, WHEEL_ROWS, scroll_max)
                } else {
                    s
                },
                _ => s,
            },
            ActionView::Nothing,
        )
    }
}

/// What is said when the editor was asked to open a place, or could not be.
pub open spec fn opening_said(s: SessionView, t: TargetView, error: Option<Seq<char>>) -> SessionView {
    saying(
        s,
        match error {
            None => opened_message(t),
            Some(e) => "✗ Could not open "@ + t.path + ": "@ + e,
        },
    )
}

impl Session {
    fn click_tree(&mut self, m: MouseEvent, tree_pane: Area, offset: usize, listed: usize)
        requires
            old(self).wf(),
        ensures
            final(self).wf(),
            final(self)@ == tree_clicked(old(self)@, m, tree_pane, offset, listed as int),
    {
        let open = !self.popups.fullscreen && !self.popups.settings && !self.popups.help
            && !self.popups.presets && !self.popups.saving && !self.popups.exit;
        let inside = inner(tree_pane);
        if open && area_holds(inside, m.column, m.row) {
            let row: usize = saturating_less(m.row, inside.y) as usize;
            if offset < listed && row < listed - offset {
                self.cursor = Some(offset + row);
                self.results_hidden = false;
            }
        }
        assert(self@ =~= tree_clicked(old(self)@, m, tree_pane, offset, listed as int));
    }

    /// The mouse was moved or clicked; `offset` is the first row of the list
    /// that is on the screen.
    pub fn on_mouse(&mut self, m: MouseEvent, frame: &Frame, area: Area, offset: usize) -> (r:
        Action)
        requires
            old(self).wf(),
            frame.panes@.len() > 0,
        ensures
            final(self).wf(),
            (final(self)@, r@) == mouse_moved(
                old(self)@,
                m,
                area,
                frame.panes@[0],
                offset,
                frame.visible@.len() as int,
                frame.panel_shown,
                frame.scroll_max,
            ),
    {
        if self.failure.shown {
            return self.mouse_in_summary(m, area);
        }
        match m.kind {
            MouseKind::LeftDown => {
                self.click_tree(m, frame.panes[0], offset, frame.visible.len());
            },
            MouseKind::ScrollUp => {
                if frame.panel_shown {
                    self.scroll_up(WHEEL_ROWS);
                }
            },
            MouseKind::ScrollDown => {
                if frame.panel_shown {
                    self.scroll_down(WHEEL_ROWS, frame.scroll_max);
                }
            },
            _ => {},
        }
        Action::Nothing
    }

    /// The editor was asked to open a place; `error` says why it could not.
    pub fn on_opened(&mut self, target: &StackTarget, error: Option<String>)
        requires
            old(self).wf(),
        ensures
            final(self).wf(),
            final(self)@ == opening_said(old(self)@, target@, opt_text(error)),
    {
        match error {
            None => {
                self.say(target_opened_message(target));
            },
            Some(e) => {
                let mut line = concat("✗ Could not open ", target.path.as_str());
                line.append(": ");
                line.append(e.as_str());
                self.say(line);
            },
        }
    }
}

} // verus!
