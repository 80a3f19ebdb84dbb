//! Keys in the summary of failures.

use vstd::prelude::*;

use crate::text::{join, joined, texts};
use crate::ui::actions::{Action, ActionView};
use crate::ui::failed_tests::{
    build_filter_for_display_names, failed_views, filter_key_for_vstest, name_key, names_filter,
    FailedTestInfo, FailedView,
};
use crate::ui::failure_panes::details_scroll_max;
use crate::ui::failure_summary::{
    clamp_failed_summary_list_pane_cols, compute_failure_summary_list_pane_cols, fitting_cols,
    list_cols,
};
use crate::ui::keys::{control_with, resizes, Key, KeyPress, PAGE_ROWS};
use crate::ui::launch::{heading, heading_text, launched};
use crate::ui::layout::{
    less_by, more_by, saturating_less, saturating_more, Area, PANE_RESIZE_STEP_ROWS,
};
use crate::ui::overlay_keys::{one_less, one_more, step_back, step_on};
use crate::ui::session::{FailurePane, Session, SessionView};

verus! {

pub open spec fn names_of(failed: Seq<FailedView>) -> Seq<Seq<char>> {
    failed.map_values(|f: FailedView| f.name)
}

/// The failure that is picked out; the last where the list has become shorter.
pub open spec fn picked(s: SessionView) -> FailedView {
    s.failed[if s.failure.selection < s.failed.len() {
        s.failure.selection as int
    } else {
        s.failed.len() - 1
    }]
}

/// A failure as it is copied: its name, and its details below it.
pub open spec fn copied_text(f: FailedView) -> Seq<char> {
    if f.details.len() == 0 {
        f.name
    } else {
        f.name.push('\n') + joined(f.details, "\n"@)
    }
}

pub const NAMES_COPIED: &'static str = "✓ Copied failed test names to clipboard.";

pub const NAMES_NOT_COPIED: &'static str = "✗ Could not copy failed test names to clipboard.";

pub const FAILURE_COPIED: &'static str =
    "✓ Copied selected failure (name + message) to clipboard.";

pub const FAILURE_NOT_COPIED: &'static str = "✗ Could not copy to clipboard.";

pub open spec fn with_pane(s: SessionView, f: FailurePane) -> SessionView {
    SessionView { failure: f, ..s }
}

/// Another failure is picked out, and its details show from the top.
pub open spec fn picking(s: SessionView, selection: usize) -> SessionView {
    with_pane(s, FailurePane { selection, scroll: 0, hover: None, ..s.failure })
}

pub open spec fn details_scrolled(s: SessionView, scroll: u16) -> SessionView {
    with_pane(s, FailurePane { scroll, hover: None, ..s.failure })
}

pub open spec fn summary_closed(s: SessionView) -> SessionView {
    with_pane(s, FailurePane { shown: false, help: false, hover: None, ..s.failure })
}

pub open spec fn list_resized(s: SessionView, k: KeyPress, width: u16) -> SessionView {
    let cols = list_cols(s.failure.cols, width);
    let wanted = if control_with(k, 'i', 'I') {
        less_by(cols, PANE_RESIZE_STEP_ROWS)
    } else {
        more_by(cols, PANE_RESIZE_STEP_ROWS)
    };
    with_pane(s, FailurePane { cols: Some(fitting_cols(wanted, width)), ..s.failure })
}

/// Keys that pick out a failure or scroll its details. Only End knows where they
/// end; the others scroll on.
pub open spec fn pick_key(s: SessionView, k: Key, shift: bool, area: Area) -> SessionView {
    let any = s.failed.len() > 0;
    match k {
        Key::Up => if !any {
            s
        } else if shift {
            picking(s, one_less(s.failure.selection))
        } else {
            details_scrolled(s, less_by(s.failure.scroll, 1))
        },
        Key::Down => if !any {
            s
        } else if shift {
            picking(s, one_more(s.failure.selection, s.failed.len() as int))
        } else {
            details_scrolled(s, more_by(s.failure.scroll, 1))
        },
        Key::PageUp => details_scrolled(s, less_by(s.failure.scroll, PAGE_ROWS)),
        Key::PageDown => details_scrolled(s, more_by(s.failure.scroll, PAGE_ROWS)),
        Key::Home => if !shift {
            details_scrolled(s, 0)
        } else if any {
            picking(s, 0)
        } else {
            s
        },
        Key::End => if !shift {
            details_scrolled(s, details_scroll_max(s, area))
        } else if any {
            picking(s, (s.failed.len() - 1) as usize)
        } else {
            s
        },
        _ => s,
    }
}

/// The failure that is picked out runs again.
pub open spec fn picked_run(s: SessionView) -> (SessionView, ActionView) {
    launched(
        summary_closed(s),
        names_filter(seq![name_key(picked(s).name)]),
        "━━━ Re-running 1 failed test… ━━━"@,
    )
}

/// All failures run again.
pub open spec fn failures_run(s: SessionView) -> (SessionView, ActionView) {
    launched(
        summary_closed(s),
        names_filter(names_of(s.failed)),
        heading_text("Re-running "@, s.failed.len(), " failed test(s)…"@),
    )
}

/// Keys that copy or run failures, and that close the summary.
pub open spec fn failure_action_key(s: SessionView, k: Key) -> (SessionView, ActionView) {
    let any = s.failed.len() > 0;
    match k {
        Key::Esc => (summary_closed(s), ActionView::Nothing),
        Key::Char(c) => if c == '?' {
            (with_pane(s, FailurePane { help: true, ..s.failure }), ActionView::Nothing)
        } else if !any {
            (s, ActionView::Nothing)
        } else if c == 'c' {
            (
                s,
                ActionView::Copy {
                    text: joined(names_of(s.failed), "\n"@),
                    done: NAMES_COPIED@,
                    refused: NAMES_NOT_COPIED@,
                },
            )
        } else if c == 'd' || c == 'm' {
            (
                s,
                ActionView::Copy {
                    text: copied_text(picked(s)),
                    done: FAILURE_COPIED@,
                    refused: FAILURE_NOT_COPIED@,
                },
            )
        } else if c == 'r' && !s.run.running {
            picked_run(s)
        } else if c == 'R' && !s.run.running {
            failures_run(s)
        } else {
            (s, ActionView::Nothing)
        },
        _ => (s, ActionView::Nothing),
    }
}

pub open spec fn failures_key(s: SessionView, k: KeyPress, area: Area) -> (
    SessionView,
    ActionView,
) {
    if s.failure.help {
        (
            if k.key == Key::Char('?') || k.key == Key::Esc || k.key == Key::Enter {
                with_pane(s, FailurePane { help: false, ..s.failure })
            } else {
                s
            },
            ActionView::Nothing,
        )
    } else if resizes(k) {
        (list_resized(s, k, area.width), ActionView::Nothing)
    } else if k.key == Key::Esc || k.key is Char {
        failure_action_key(s, k.key)
    } else {
        (pick_key(s, k.key, k.shift, area), ActionView::Nothing)
    }
}

fn names(failed: &Vec<FailedTestInfo>) -> (r: Vec<String>)
    ensures
        texts(r@) == names_of(failed_views(failed@)),
        r@.len() == failed@.len(),
{
    let ghost all = names_of(failed_views(failed@));
    let mut out: Vec<String> = Vec::new();
    let mut i: usize = 0;
    assert(texts(out@) =~= all.take(0));
    while i < failed.len()
        invariant
            all == names_of(failed_views(failed@)),
            i <= failed@.len(),
            out@.len() == i,
            texts(out@) == all.take(i as int),
        decreases failed@.len() - i,
    {
        let ghost o = texts(out@);
        assert(all[i as int] == failed@[i as int].name@);
        out.push(failed[i].name.clone());
        assert(texts(out@) =~= o.push(all[i as int]));
        assert(all.take(i + 1) =~= all.take(i as int).push(all[i as int]));
        i += 1;
    }
    assert(all.take(i as int) =~= all);
    out
}

impl Session {
    pub fn pick(&mut self, selection: usize)
        requires
            old(self).wf(),
        ensures
            final(self).wf(),
            final(self)@ == picking(old(self)@, selection),
    {
        self.failure.selection = selection;
        self.failure.scroll = 0;
        self.failure.hover = None;
        assert(self@ =~= picking(old(self)@, selection));
    }

    fn scroll_details(&mut self, scroll: u16)
        requires
            old(self).wf(),
        ensures
            final(self).wf(),
            final(self)@ == details_scrolled(old(self)@, scroll),
    {
        self.failure.scroll = scroll;
        self.failure.hover = None;
        assert(self@ =~= details_scrolled(old(self)@, scroll));
    }

    fn close_summary(&mut self)
        requires
            old(self).wf(),
        ensures
            final(self).wf(),
            final(self)@ == summary_closed(old(self)@),
    {
        self.failure.shown = false;
        self.failure.help = false;
        self.failure.hover = None;
        assert(self@ =~= summary_closed(old(self)@));
    }

    fn press_pick(&mut self, k: Key, shift: bool, area: Area)
        requires
            old(self).wf(),
        ensures
            final(self).wf(),
            final(self)@ == pick_key(old(self)@, k, shift, area),
    {
        let n: usize = self.failed.len();
        assert(self@.failed.len() == n);
        let scroll: u16 = self.failure.scroll;
        match k {
            Key::Up => {
                if n > 0 {
                    if shift {
                        self.pick(step_back(self.failure.selection));
                    } else {
                        self.scroll_details(saturating_less(scroll, 1));
                    }
                }
            },
            Key::Down => {
                if n > 0 {
                    if shift {
                        self.pick(step_on(self.failure.selection, n));
                    } else {
                        self.scroll_details(saturating_more(scroll, 1));
                    }
                }
            },
            Key::PageUp => {
                self.scroll_details(saturating_less(scroll, PAGE_ROWS));
            },
            Key::PageDown => {
                self.scroll_details(saturating_more(scroll, PAGE_ROWS));
            },
            Key::Home => {
                if !shift {
                    self.scroll_details(0);
                } else if n > 0 {
                    self.pick(0);
                }
            },
            Key::End => {
                if !shift {
                    let end: u16 = self.details_end(area);
                    self.scroll_details(end);
                } else if n > 0 {
                    self.pick(n - 1);
                }
            },
            _ => {},
        }
    }

    /// The failure that is picked out.
    pub fn picked_failure(&self) -> (r: &FailedTestInfo)
        requires
            self.failed@.len() > 0,
        ensures
            r@ == picked(self@),
    {
        let i: usize = if self.failure.selection < self.failed.len() {
            self.failure.selection
        } else {
            self.failed.len() - 1
        };
        assert(self@.failed[i as int] == self.failed@[i as int]@);
        &self.failed[i]
    }

    fn run_picked(&mut self) -> (r: Action)
        requires
            old(self).wf(),
            old(self)@.failed.len() > 0,
        ensures
            final(self).wf(),
            (final(self)@, r@) == picked_run(old(self)@),
    {
        let key = filter_key_for_vstest(self.picked_failure().name.as_str());
        let keys: Vec<String> = vec![key];
        assert(texts(keys@) =~= seq![name_key(picked(self@).name)]);
        let filter = build_filter_for_display_names(&keys);
        self.close_summary();
        self.launch(filter, "━━━ Re-running 1 failed test… ━━━".to_owned())
    }

    fn run_failures(&mut self) -> (r: Action)
        requires
            old(self).wf(),
        ensures
            final(self).wf(),
            (final(self)@, r@) == failures_run(old(self)@),
    {
        let all = names(&self.failed);
        let filter = build_filter_for_display_names(&all);
        let n: usize = all.len();
        assert(self@.failed.len() == n);
        self.close_summary();
        self.launch(filter, heading("Re-running ", n, " failed test(s)…"))
    }

    fn press_failure_action(&mut self, k: Key) -> (r: Action)
        requires
            old(self).wf(),
        ensures
            final(self).wf(),
            (final(self)@, r@) == failure_action_key(old(self)@, k),
    {
        let any = self.failed.len() > 0;
        assert(self@.failed.len() == self.failed@.len());
        match k {
            Key::Esc => {
                self.close_summary();
                Action::Nothing
            },
            Key::Char(c) => {
                if c == '?' {
                    self.failure.help = true;
                    assert(self@ =~= failure_action_key(old(self)@, k).0);
                    Action::Nothing
                } else if !any {
                    Action::Nothing
                } else if c == 'c' {
                    Action::Copy {
                        text: join(&names(&self.failed), "\n"),
                        done: NAMES_COPIED.to_owned(),
                        refused: NAMES_NOT_COPIED.to_owned(),
                    }
                } else if c == 'd' || c == 'm' {
                    let f = self.picked_failure();
                    let mut text = f.name.clone();
                    assert(texts(f.details@).len() == f.details@.len());
                    if f.details.len() > 0 {
                        text.push('\n');
                        let details = join(&f.details, "\n");
                        text.append(details.as_str());
                    }
                    Action::Copy {
                        text,
                        done: FAILURE_COPIED.to_owned(),
                        refused: FAILURE_NOT_COPIED.to_owned(),
                    }
                } else if c == 'r' && !self.run.running {
                    self.run_picked()
                } else if c == 'R' && !self.run.running {
                    self.run_failures()
                } else {
                    Action::Nothing
                }
            },
            _ => Action::Nothing,
        }
    }

    pub fn press_in_failures(&mut self, k: KeyPress, area: Area) -> (r: Action)
        requires
            old(self).wf(),
        ensures
            final(self).wf(),
            (final(self)@, r@) == failures_key(old(self)@, k, area),
    {
        if self.failure.help {
            if k.key == Key::Char('?') || k.key == Key::Esc || k.key == Key::Enter {
                self.failure.help = false;
            }
            assert(self@ =~= failures_key(old(self)@, k, area).0);
            return Action::Nothing;
        }
        if k.is_resize() {
            let cols: u16 = compute_failure_summary_list_pane_cols(self.failure.cols, area.width);
            let wanted: u16 = if k.is_control('i', 'I') {
                saturating_less(cols, PANE_RESIZE_STEP_ROWS)
            } else {
                saturating_more(cols, PANE_RESIZE_STEP_ROWS)
            };
            self.failure.cols = Some(clamp_failed_summary_list_pane_cols(wanted, area.width));
            assert(self@ =~= list_resized(old(self)@, k, area.width));
            return Action::Nothing;
        }
        match k.key {
            Key::Esc | Key::Char(_) => self.press_failure_action(k.key),
            _ => {
                self.press_pick(k.key, k.shift, area);
                Action::Nothing
            },
        }
    }
}

} // verus!
