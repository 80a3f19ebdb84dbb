//! What is on the screen: which rows, which panes, and how far they are
//! scrolled.

use vstd::prelude::*;

use crate::domain::selection::{all_tests, count_tests, selected_tests};
use crate::domain::tree::{rows, NodeView};
use crate::seqs::positions;
use crate::text::{opt_text, same_text, texts};
use crate::ui::config::{OutputMode, ViewMode};
use crate::ui::keys::{scrolled_down, scrolled_up};
use crate::ui::layout::{
    default_rows, inner, inside_border, law_fitting_heights_stay, may_split,
    output_wrapped_scroll_max, pane_heights, panes, panes_fit, placed_panes, scroll_max,
    split_output_constraints, tests_rows, Area, MIN_OUTPUT_PANE_ROWS, STATUS_PANE_ROWS,
};
use crate::ui::run_results::panel_lines;
use crate::ui::search::{law_visible_rows_are_the_listed_ones, visible_indices, visible_rows};
use crate::ui::session::{Session, SessionView};

verus! {

/// One picture of a session.
pub struct Frame {
    /// The rows of the tree that are listed, in order.
    pub visible: Vec<usize>,
    pub selected_count: usize,
    pub total_count: usize,
    /// The key of the focused leaf.
    pub focused: Option<String>,
    /// The lines for the focused leaf, where results are shown.
    pub leaf_lines: Option<Vec<String>>,
    pub panel_shown: bool,
    /// The height of the tests pane where the output stands below it.
    pub split_rows: Option<u16>,
    pub panes: Vec<Area>,
    pub scroll_max: u16,
}

// ---------------------------------------------------------------------------
// The list
// ---------------------------------------------------------------------------
/// The focused row of a list of `n`: the last where it was beyond it, the first
/// where there was none.
pub open spec fn settled_cursor(cursor: Option<usize>, n: int) -> Option<usize> {
    match cursor {
        Some(i) => if i < n {
            cursor
        } else if n == 0 {
            None
        } else {
            Some((n - 1) as usize)
        },
        None => if n == 0 {
            None
        } else {
            Some(0)
        },
    }
}

pub fn settle_cursor(cursor: Option<usize>, n: usize) -> (r: Option<usize>)
    ensures
        r == settled_cursor(cursor, n as int),
{
    match cursor {
        Some(i) => if i < n {
            cursor
        } else if n == 0 {
            None
        } else {
            Some(n - 1)
        },
        None => if n == 0 {
            None
        } else {
            Some(0)
        },
    }
}

/// A settled focus is on a listed row wherever there is one.
pub proof fn law_focus_is_on_a_listed_row(cursor: Option<usize>, n: int)
    requires
        0 <= n <= usize::MAX,
    ensures
        settled_cursor(cursor, n) is Some <==> n > 0,
        settled_cursor(cursor, n) matches Some(i) ==> i < n,
        settled_cursor(settled_cursor(cursor, n), n) == settled_cursor(cursor, n),
{
}

/// The key of the leaf in the focused row.
pub open spec fn focused_key(
    t: Seq<NodeView>,
    visible: Seq<int>,
    cursor: Option<usize>,
) -> Option<Seq<char>> {
    match cursor {
        Some(i) => if i < visible.len() && t[visible[i as int]].is_leaf {
            t[visible[i as int]].fqn
        } else {
            None
        },
        None => None,
    }
}

/// The focus is settled; if it is on another leaf than before, its pane shows
/// again.
pub open spec fn focus_settled(s: SessionView) -> SessionView {
    let visible = visible_rows(s.tree, s.query);
    let cursor = settled_cursor(s.cursor, visible.len() as int);
    let key = focused_key(s.tree, visible, cursor);
    SessionView {
        cursor,
        last_focus: key,
        results_hidden: s.results_hidden && key == s.last_focus,
        ..s
    }
}

// ---------------------------------------------------------------------------
// The output pane
// ---------------------------------------------------------------------------
/// The lines for the focused leaf, where results are shown and it has one.
pub open spec fn leaf_panel(s: SessionView) -> Option<Seq<Seq<char>>> {
    match s.last_focus {
        Some(key) => if s.config.view_mode == ViewMode::Results && s.recorded.results.dom().contains(
            key,
        ) {
            Some(panel_lines(s.recorded.results, key))
        } else {
            None
        },
        None => None,
    }
}

/// Whether the output pane is shown: with the output of the run, or with the
/// result of the focused leaf.
pub open spec fn shows_panel(s: SessionView) -> bool {
    match s.config.view_mode {
        ViewMode::LiveOutput => s.lines.len() > 0 && (s.config.output_mode == OutputMode::Split
            || s.popups.fullscreen),
        ViewMode::Results => !s.results_hidden && leaf_panel(s) is Some && leaf_panel(s)->0.len()
            > 0,
    }
}

/// The lines in the output pane.
pub open spec fn panel_content(s: SessionView) -> Seq<Seq<char>> {
    match s.config.view_mode {
        ViewMode::Results => match leaf_panel(s) {
            Some(lines) => lines,
            None => Seq::empty(),
        },
        ViewMode::LiveOutput => s.lines,
    }
}

/// The height of the tests pane where the output stands below it.
pub open spec fn split_rows(s: SessionView, height: u16) -> Option<u16> {
    if shows_panel(s) && !s.popups.fullscreen {
        Some(tests_rows(s.tests_pane_rows, height))
    } else {
        None
    }
}

/// The height of the tests pane is remembered where it was used.
pub open spec fn rows_remembered(s: SessionView, height: u16) -> SessionView {
    SessionView {
        tests_pane_rows: match split_rows(s, height) {
            Some(rows) => Some(rows),
            None => s.tests_pane_rows,
        },
        ..s
    }
}

/// How far the output pane can be scrolled, given the panes of the screen.
pub open spec fn panel_scroll_max(s: SessionView, panes: Seq<Area>) -> u16 {
    if shows_panel(s) {
        let pane = inside_border(
            panes[if s.popups.fullscreen {
                0
            } else {
                1
            }],
        );
        scroll_max(panel_content(s), pane.width, pane.height)
    } else {
        0
    }
}

/// The output is scrolled to its end, or no further than that.
pub open spec fn scroll_settled(s: SessionView, max: u16) -> SessionView {
    SessionView {
        scroll: if s.follow || s.scroll > max {
            max
        } else {
            s.scroll
        },
        ..s
    }
}

/// The screen has rows for the status and for the output.
pub open spec fn roomy(area: Area) -> bool {
    area.y + area.height <= u16::MAX && area.height >= MIN_OUTPUT_PANE_ROWS + STATUS_PANE_ROWS
}

/// What the session is once the picture is drawn, apart from how far the output
/// is scrolled.
pub open spec fn laid_out(s: SessionView, height: u16) -> SessionView {
    rows_remembered(focus_settled(s), height)
}

impl Session {
    fn settle_focus(&mut self) -> (r: (Vec<usize>, Option<String>))
        requires
            old(self).wf(),
        ensures
            final(self).wf(),
            final(self)@ == focus_settled(old(self)@),
            positions(r.0@) == visible_rows(old(self)@.tree, old(self)@.query),
            opt_text(r.1) == final(self)@.last_focus,
    {
        let visible = visible_indices(self.tree.as_slice(), self.query.as_str());
        let ghost vs = positions(visible@);
        self.cursor = settle_cursor(self.cursor, visible.len());
        proof {
            law_visible_rows_are_the_listed_ones(
                self@.tree,
                self@.query,
                0,
            );
        }
        let focused: Option<String> = match self.cursor {
            Some(i) => {
                if i < visible.len() {
                    let ri: usize = visible[i];
                    proof {
                        assert(vs[i as int] == ri);
                        assert(vs.contains(vs[i as int]));
                        law_visible_rows_are_the_listed_ones(
                            self@.tree,
                            self@.query,
                            ri as int,
                        );
                    }
                    let node = &self.tree[ri];
                    assert(self@.tree[ri as int] == node@);
                    if node.is_leaf {
                        match &node.fqn {
                            Some(f) => Some(f.clone()),
                            None => None,
                        }
                    } else {
                        None
                    }
                } else {
                    None
                }
            },
            None => None,
        };
        let same = match (&focused, &self.last_focus) {
            (Some(a), Some(b)) => same_text(a.as_str(), b.as_str()),
            (None, None) => true,
            _ => false,
        };
        if !same {
            self.results_hidden = false;
        }
        self.last_focus = match &focused {
            Some(f) => Some(f.clone()),
            None => None,
        };
        assert(self@ =~= focus_settled(old(self)@));
        (visible, focused)
    }

    fn leaf_panel_of_focus(&self) -> (r: Option<Vec<String>>)
        requires
            self.wf(),
        ensures
            r is Some <==> leaf_panel(self@) is Some,
            r matches Some(lines) ==> texts(lines@) == leaf_panel(self@)->0,
    {
        match &self.last_focus {
            Some(key) => {
                if self.config.view_mode == ViewMode::Results && self.results.get(
                    key.as_str(),
                ).is_some() {
                    Some(self.results.leaf_panel_lines(key.as_str()))
                } else {
                    None
                }
            },
            None => None,
        }
    }

    /// Scrolls the output to its end, or no further than that.
    pub fn settle_scroll(&mut self, max: u16)
        requires
            old(self).wf(),
        ensures
            final(self).wf(),
            final(self)@ == scroll_settled(old(self)@, max),
    {
        if self.follow || self.scroll > max {
            self.scroll = max;
        }
        assert(self@ =~= scroll_settled(old(self)@, max));
    }

    /// How far the output pane can be scrolled, given the panes of the screen
    /// and the lines for the focused leaf.
    pub fn scroll_limit(
        &self,
        shown: bool,
        leaf_lines: &Option<Vec<String>>,
        panes: &Vec<Area>,
    ) -> (r: u16)
        requires
            self.wf(),
            shown == shows_panel(self@),
            panes@.len() >= 2,
            leaf_lines is Some <==> leaf_panel(self@) is Some,
            leaf_lines matches Some(lines) ==> texts(lines@) == leaf_panel(self@)->0,
        ensures
            r == panel_scroll_max(self@, panes@),
    {
        if !shown {
            return 0;
        }
        let pane = inner(
            if self.popups.fullscreen {
                panes[0]
            } else {
                panes[1]
            },
        );
        match self.config.view_mode {
            ViewMode::LiveOutput => output_wrapped_scroll_max(
                &self.lines,
                pane.width,
                pane.height,
            ),
            ViewMode::Results => match leaf_lines {
                Some(lines) => output_wrapped_scroll_max(lines, pane.width, pane.height),
                None => {
                    let none: Vec<String> = Vec::new();
                    assert(texts(none@) =~= Seq::<Seq<char>>::empty());
                    output_wrapped_scroll_max(&none, pane.width, pane.height)
                },
            },
        }
    }

    /// Settles what is focused, shown and scrolled for a screen of this size.
    pub fn frame(&mut self, area: Area) -> (r: Frame)
        requires
            old(self).wf(),
        ensures
            final(self).wf(),
            final(self)@ == scroll_settled(laid_out(old(self)@, area.height), r.scroll_max),
            positions(r.visible@) == visible_rows(old(self)@.tree, old(self)@.query),
            r.selected_count == selected_tests(old(self)@.tree),
            r.total_count == all_tests(old(self)@.tree),
            opt_text(r.focused) == final(self)@.last_focus,
            r.leaf_lines is Some <==> leaf_panel(final(self)@) is Some,
            r.leaf_lines matches Some(lines) ==> texts(lines@) == leaf_panel(final(self)@)->0,
            r.panel_shown == shows_panel(final(self)@),
            r.split_rows == split_rows(laid_out(old(self)@, area.height), area.height),
            may_split(
                area,
                pane_heights(final(self)@.popups.fullscreen, r.split_rows),
                r.panes@,
            ),
            r.panes@.len() == pane_heights(final(self)@.popups.fullscreen, r.split_rows).len(),
            forall|i: int|
                0 <= i < r.panes@.len() ==> (#[trigger] r.panes@[i]).x == area.x
                    && r.panes@[i].width == area.width,
            roomy(area) ==> r.panes@ == placed_panes(
                area,
                final(self)@.popups.fullscreen,
                r.split_rows,
            ),
            r.scroll_max == panel_scroll_max(laid_out(old(self)@, area.height), r.panes@),
    {
        let (visible, focused) = self.settle_focus();
        let leaf_lines = self.leaf_panel_of_focus();
        let panel_shown = match self.config.view_mode {
            ViewMode::LiveOutput => self.lines.len() > 0 && (self.config.output_mode
                == OutputMode::Split || self.popups.fullscreen),
            ViewMode::Results => !self.results_hidden && match &leaf_lines {
                Some(lines) => {
                    assert(texts(lines@).len() == lines@.len());
                    lines.len() > 0
                },
                None => false,
            },
        };
        let ghost f = focus_settled(old(self)@);
        assert(self@.lines.len() == self.lines@.len());
        assert(panel_shown == shows_panel(f));
        let split: Option<u16> = if panel_shown && !self.popups.fullscreen {
            let _heights = split_output_constraints(&mut self.tests_pane_rows, area.height);
            self.tests_pane_rows
        } else {
            None
        };
        let ghost l = laid_out(old(self)@, area.height);
        proof {
            assert(self@ =~= l);
            law_fitting_heights_stay(0, area.height);
            assert(leaf_panel(l) == leaf_panel(f));
            assert(shows_panel(l) == shows_panel(f));
            assert(split == split_rows(f, area.height));
            assert(split_rows(l, area.height) == split) by {
                match f.tests_pane_rows {
                    Some(rows) => {
                        law_fitting_heights_stay(rows, area.height);
                    },
                    None => {
                        law_fitting_heights_stay(
                            default_rows(area.height),
                            area.height,
                        );
                    },
                }
            }
        }
        let screen = panes(area, self.popups.fullscreen, split);
        assert(roomy(area) ==> panes_fit(area, self.popups.fullscreen, split)) by {
            match f.tests_pane_rows {
                Some(rows) => {
                    law_fitting_heights_stay(rows, area.height);
                },
                None => {
                    law_fitting_heights_stay(default_rows(area.height), area.height);
                },
            }
        }
        let max: u16 = self.scroll_limit(panel_shown, &leaf_lines, &screen);
        self.settle_scroll(max);
        let selected_count: usize = count_tests(self.tree.as_slice(), true);
        let total_count: usize = count_tests(self.tree.as_slice(), false);
        Frame {
            visible,
            selected_count,
            total_count,
            focused,
            leaf_lines,
            panel_shown,
            split_rows: split,
            panes: screen,
            scroll_max: max,
        }
    }
}

/// The output is never scrolled beyond its end, and is at its end while it is
/// followed.
pub proof fn law_scroll_stays_in_range(s: SessionView, max: u16, by: u16)
    ensures
        scroll_settled(s, max).scroll <= max,
        s.follow ==> scroll_settled(s, max).scroll == max,
        scrolled_down(s, by, max).scroll <= max,
        scrolled_down(s, by, max).follow <==> scrolled_down(s, by, max).scroll == max,
        s.scroll <= max ==> scrolled_up(s, by).scroll <= max,
{
}

/// Drawing twice without anything happening in between changes nothing: the
/// focus and the height of the tests pane are settled the first time.
pub proof fn law_drawing_settles(s: SessionView, height: u16)
    requires
        visible_rows(s.tree, s.query).len() <= usize::MAX,
    ensures
        laid_out(laid_out(s, height), height) == laid_out(s, height),
{
    let f = focus_settled(s);
    let l = laid_out(s, height);
    assert(focus_settled(l) =~= l);
    match f.tests_pane_rows {
        Some(rows) => {
            law_fitting_heights_stay(rows, height);
        },
        None => {
            law_fitting_heights_stay(default_rows(height), height);
        },
    }
    assert(leaf_panel(l) == leaf_panel(f));
    assert(rows_remembered(l, height) =~= l);
}

} // verus!
