//! Keys that move through the tree, scroll the output and answer simple popups.

use vstd::prelude::*;

use crate::domain::selection::{lemma_same_shape, lemma_shape_total, same_shape};
use crate::domain::tree::{opt_index, rows, NodeView};
use crate::seqs::positions;
use crate::text::{ascii_punctuation, is_ascii_punctuation};
use crate::ui::actions::{Action, ActionView};
use crate::ui::frame::Frame;
use crate::ui::layout::{
    clamp_tests_pane_rows, default_rows, default_tests_pane_rows, fitting_rows, less_by, more_by,
    saturating_less, saturating_more, Area, PANE_RESIZE_STEP_ROWS,
};
use crate::ui::session::{Popups, Session, SessionView};
use crate::unicode::is_letter_or_number;

verus! {

#[derive(Clone, Copy, Debug, PartialEq, Eq, Structural)]
pub enum Key {
    Char(char),
    Enter,
    Esc,
    Up,
    Down,
    Left,
    Right,
    PageUp,
    PageDown,
    Home,
    End,
    Tab,
    Backspace,
    F(u8),
    Other,
}

#[derive(Clone, Copy, Debug, PartialEq, Eq, Structural)]
pub struct KeyPress {
    pub key: Key,
    pub control: bool,
    pub shift: bool,
}

/// What is on the screen when a key is pressed.
#[verifier::ext_equal]
pub struct ScreenView {
    pub visible: Seq<int>,
    pub panel_shown: bool,
    pub scroll_max: u16,
    pub area: Area,
}

pub open spec fn screen_of(frame: Frame, area: Area) -> ScreenView {
    ScreenView {
        visible: positions(frame.visible@),
        panel_shown: frame.panel_shown,
        scroll_max: frame.scroll_max,
        area,
    }
}

/// The listed rows are rows of the tree.
pub open spec fn lists_rows_of(frame: Frame, t: Seq<NodeView>) -> bool {
    forall|i: int| 0 <= i < frame.visible@.len() ==> (#[trigger] frame.visible@[i]) < t.len()
}

/// The control key is held, and the key is one of the two letters.
pub open spec fn control_with(k: KeyPress, lower: char, upper: char) -> bool {
    k.control && (k.key == Key::Char(lower) || k.key == Key::Char(upper))
}

impl KeyPress {
    pub fn is_control(&self, lower: char, upper: char) -> (r: bool)
        ensures
            r == control_with(*self, lower, upper),
    {
        self.control && match self.key {
            Key::Char(c) => c == lower || c == upper,
            _ => false,
        }
    }
}

/// A character that can be typed into a search or a name.
pub open spec fn is_typed(c: char) -> bool {
    is_letter_or_number(c) || is_ascii_punctuation(c) || c == ' '
}

pub fn typed(c: char) -> (r: bool)
    ensures
        r == is_typed(c),
{
    c.is_alphanumeric() || ascii_punctuation(c) || c == ' '
}

// ---------------------------------------------------------------------------
// Scrolling
// ---------------------------------------------------------------------------
/// Rows that a page key scrolls.
pub const PAGE_ROWS: u16 = 5;

pub open spec fn scrolled_up(s: SessionView, by: u16) -> SessionView {
    SessionView { follow: false, scroll: less_by(s.scroll, by), ..s }
}

pub open spec fn scrolled_down(s: SessionView, by: u16, max: u16) -> SessionView {
    let to = if more_by(s.scroll, by) < max {
        more_by(s.scroll, by)
    } else {
        max
    };
    SessionView { scroll: to, follow: to >= max, ..s }
}

pub open spec fn scrolls(k: Key) -> bool {
    k == Key::PageUp || k == Key::PageDown || k == Key::Home || k == Key::End
}

/// A scroll key moves the output where its pane is shown.
pub open spec fn scroll_key(s: SessionView, k: Key, scr: ScreenView) -> SessionView {
    if !scr.panel_shown {
        s
    } else {
        match k {
            Key::PageUp => scrolled_up(s, PAGE_ROWS),
            Key::PageDown => scrolled_down(s, PAGE_ROWS, scr.scroll_max),
            Key::Home => SessionView { follow: false, scroll: 0, ..s },
            Key::End => SessionView { follow: true, scroll: scr.scroll_max, ..s },
            _ => s,
        }
    }
}

impl Session {
    pub fn scroll_up(&mut self, by: u16)
        requires
            old(self).wf(),
        ensures
            final(self).wf(),
            final(self)@ == scrolled_up(old(self)@, by),
    {
        self.follow = false;
        self.scroll = saturating_less(self.scroll, by);
        assert(self@ =~= scrolled_up(old(self)@, by));
    }

    pub fn scroll_down(&mut self, by: u16, max: u16)
        requires
            old(self).wf(),
        ensures
            final(self).wf(),
            final(self)@ == scrolled_down(old(self)@, by, max),
    {
        let to: u16 = saturating_more(self.scroll, by);
        self.scroll = if to < max {
            to
        } else {
            max
        };
        self.follow = self.scroll >= max;
        assert(self@ =~= scrolled_down(old(self)@, by, max));
    }

    pub fn press_scroll(&mut self, k: Key, frame: &Frame, area: Area)
        requires
            old(self).wf(),
        ensures
            final(self).wf(),
            final(self)@ == scroll_key(old(self)@, k, screen_of(*frame, area)),
    {
        if frame.panel_shown {
            match k {
                Key::PageUp => {
                    self.scroll_up(PAGE_ROWS);
                },
                Key::PageDown => {
                    self.scroll_down(PAGE_ROWS, frame.scroll_max);
                },
                Key::Home => {
                    self.follow = false;
                    self.scroll = 0;
                },
                Key::End => {
                    self.follow = true;
                    self.scroll = frame.scroll_max;
                },
                _ => {},
            }
        }
        assert(self@ =~= scroll_key(old(self)@, k, screen_of(*frame, area)));
    }
}

// ---------------------------------------------------------------------------
// Moving
// ---------------------------------------------------------------------------
pub open spec fn moves(k: Key) -> bool {
    k == Key::Up || k == Key::Down || k == Key::Left || k == Key::Right
}

/// The row above in a list of `n`; above the first stands the last.
pub open spec fn row_above(cursor: Option<usize>, n: int) -> Option<usize> {
    if n == 0 {
        cursor
    } else {
        match cursor {
            Some(i) => if i == 0 {
                Some((n - 1) as usize)
            } else {
                Some((i - 1) as usize)
            },
            None => Some((n - 1) as usize),
        }
    }
}

/// The row below in a list of `n`; below the last stands the first.
pub open spec fn row_below(cursor: Option<usize>, n: int) -> Option<usize> {
    if n == 0 {
        cursor
    } else {
        match cursor {
            Some(i) => if i >= n - 1 {
                Some(0)
            } else {
                Some((i + 1) as usize)
            },
            None => Some(0),
        }
    }
}

/// Going up and then down, or down and then up, leads back.
pub proof fn law_moves_undo_each_other(i: usize, n: int)
    requires
        i < n <= usize::MAX,
    ensures
        row_below(row_above(Some(i), n), n) == Some(i),
        row_above(row_below(Some(i), n), n) == Some(i),
{
}

/// The first place where `x` stands in the list.
pub open spec fn place_of(visible: Seq<int>, x: int) -> Option<int>
    decreases visible.len(),
{
    if visible.len() == 0 {
        None
    } else if visible[0] == x {
        Some(0)
    } else {
        match place_of(visible.drop_first(), x) {
            Some(i) => Some(i + 1),
            None => None,
        }
    }
}

spec fn shifted(o: Option<int>, by: int) -> Option<int> {
    match o {
        Some(i) => Some(i + by),
        None => None,
    }
}

fn find_place(visible: &Vec<usize>, x: usize) -> (r: Option<usize>)
    ensures
        opt_index(r) == place_of(positions(visible@), x as int),
        r matches Some(i) ==> i < visible@.len(),
{
    let ghost all = positions(visible@);
    let mut i: usize = 0;
    assert(all.skip(0) =~= all);
    while i < visible.len()
        invariant
            all == positions(visible@),
            i <= visible@.len(),
            place_of(all, x as int) == shifted(place_of(all.skip(i as int), x as int), i as int),
        decreases visible@.len() - i,
    {
        assert(all.skip(i as int)[0] == visible@[i as int]);
        if visible[i] == x {
            return Some(i);
        }
        assert(all.skip(i as int).drop_first() =~= all.skip(i + 1));
        i += 1;
    }
    None
}

/// The row of the tree that is focused.
pub open spec fn focused_row(s: SessionView, visible: Seq<int>) -> Option<int> {
    match s.cursor {
        Some(i) => if i < visible.len() {
            Some(visible[i as int])
        } else {
            None
        },
        None => None,
    }
}

/// Row `ri` is expanded, or not.
pub open spec fn with_expansion(t: Seq<NodeView>, ri: int, expanded: bool) -> Seq<NodeView> {
    t.update(ri, NodeView { is_expanded: expanded, ..t[ri] })
}

/// An expanded folder is folded; from any other row the focus goes to the one
/// above it, if that is listed.
pub open spec fn left_pressed(s: SessionView, visible: Seq<int>) -> SessionView {
    match focused_row(s, visible) {
        Some(ri) => if !s.tree[ri].is_leaf && s.tree[ri].is_expanded {
            SessionView { tree: with_expansion(s.tree, ri, false), ..s }
        } else {
            match s.tree[ri].parent_idx {
                Some(p) => match place_of(visible, p) {
                    Some(i) => SessionView { cursor: Some(i as usize), ..s },
                    None => s,
                },
                None => s,
            }
        },
        None => s,
    }
}

/// A folded folder is expanded.
pub open spec fn right_pressed(s: SessionView, visible: Seq<int>) -> SessionView {
    match focused_row(s, visible) {
        Some(ri) => if !s.tree[ri].is_leaf && !s.tree[ri].is_expanded {
            SessionView { tree: with_expansion(s.tree, ri, true), ..s }
        } else {
            s
        },
        None => s,
    }
}

pub open spec fn move_key(s: SessionView, k: Key, visible: Seq<int>) -> SessionView {
    match k {
        Key::Up => SessionView { cursor: row_above(s.cursor, visible.len() as int), ..s },
        Key::Down => SessionView { cursor: row_below(s.cursor, visible.len() as int), ..s },
        Key::Left => left_pressed(s, visible),
        Key::Right => right_pressed(s, visible),
        _ => s,
    }
}

pub proof fn lemma_expansion(t: Seq<NodeView>, ri: int, expanded: bool)
    requires
        0 <= ri < t.len(),
    ensures
        same_shape(t, with_expansion(t, ri, expanded)),
{
}

/// Expanding a folder and folding it again leads back.
pub proof fn law_folding_undoes_expanding(s: SessionView, visible: Seq<int>, ri: int)
    requires
        focused_row(s, visible) == Some(ri),
        0 <= ri < s.tree.len(),
        !s.tree[ri].is_leaf,
        !s.tree[ri].is_expanded,
    ensures
        left_pressed(right_pressed(s, visible), visible) == s,
{
    let e = right_pressed(s, visible);
    assert(left_pressed(e, visible).tree =~= s.tree);
}

impl Session {
    fn set_expanded(&mut self, ri: usize, expanded: bool)
        requires
            old(self).wf(),
            ri < old(self)@.tree.len(),
        ensures
            final(self).wf(),
            final(self)@ == (SessionView {
                tree: with_expansion(old(self)@.tree, ri as int, expanded),
                ..old(self)@
            }),
    {
        let ghost t = self@.tree;
        self.tree[ri].is_expanded = expanded;
        proof {
            assert(rows(self.tree@) =~= with_expansion(t, ri as int, expanded));
            lemma_expansion(t, ri as int, expanded);
            lemma_same_shape(t, self@.tree);
            lemma_shape_total(t, self@.tree, t.len() as int);
        }
        assert(self@ =~= SessionView {
            tree: with_expansion(old(self)@.tree, ri as int, expanded),
            ..old(self)@
        });
    }

    /// The row of the tree that is focused.
    pub fn focus(&self, frame: &Frame) -> (r: Option<usize>)
        requires
            lists_rows_of(*frame, self@.tree),
        ensures
            opt_index(r) == focused_row(self@, positions(frame.visible@)),
            r matches Some(ri) ==> ri < self@.tree.len(),
    {
        match self.cursor {
            Some(i) => if i < frame.visible.len() {
                assert(positions(frame.visible@)[i as int] == frame.visible@[i as int]);
                Some(frame.visible[i])
            } else {
                None
            },
            None => None,
        }
    }

    pub fn press_move(&mut self, k: Key, frame: &Frame)
        requires
            old(self).wf(),
            lists_rows_of(*frame, old(self)@.tree),
        ensures
            final(self).wf(),
            final(self)@ == move_key(old(self)@, k, positions(frame.visible@)),
    {
        let n: usize = frame.visible.len();
        assert(positions(frame.visible@).len() == n);
        match k {
            Key::Up => {
                if n > 0 {
                    self.cursor = match self.cursor {
                        Some(i) => if i == 0 {
                            Some(n - 1)
                        } else {
                            Some(i - 1)
                        },
                        None => Some(n - 1),
                    };
                }
            },
            Key::Down => {
                if n > 0 {
                    self.cursor = match self.cursor {
                        Some(i) => if i >= n - 1 {
                            Some(0)
                        } else {
                            Some(i + 1)
                        },
                        None => Some(0),
                    };
                }
            },
            Key::Left => {
                match self.focus(frame) {
                    Some(ri) => {
                        assert(self@.tree[ri as int] == self.tree@[ri as int]@);
                        if !self.tree[ri].is_leaf && self.tree[ri].is_expanded {
                            self.set_expanded(ri, false);
                        } else {
                            match self.tree[ri].parent_idx {
                                Some(p) => {
                                    match find_place(&frame.visible, p) {
                                        Some(i) => {
                                            self.cursor = Some(i);
                                        },
                                        None => {},
                                    }
                                },
                                None => {},
                            }
                        }
                    },
                    None => {},
                }
            },
            Key::Right => {
                match self.focus(frame) {
                    Some(ri) => {
                        assert(self@.tree[ri as int] == self.tree@[ri as int]@);
                        if !self.tree[ri].is_leaf && !self.tree[ri].is_expanded {
                            self.set_expanded(ri, true);
                        }
                    },
                    None => {},
                }
            },
            _ => {},
        }
        assert(self@ =~= move_key(old(self)@, k, positions(frame.visible@)));
    }
}

// ---------------------------------------------------------------------------
// Resizing
// ---------------------------------------------------------------------------
pub open spec fn resizes(k: KeyPress) -> bool {
    control_with(k, 'i', 'I') || control_with(k, 'o', 'O')
}

/// A row less for the tests pane, or one more.
pub open spec fn tests_pane_resized(s: SessionView, k: KeyPress, height: u16) -> SessionView {
    let rows = match s.tests_pane_rows {
        Some(rows) => rows,
        None => default_rows(height),
    };
    let wanted = if control_with(k, 'i', 'I') {
        less_by(rows, PANE_RESIZE_STEP_ROWS)
    } else {
        more_by(rows, PANE_RESIZE_STEP_ROWS)
    };
    SessionView { tests_pane_rows: Some(fitting_rows(wanted, height)), ..s }
}

impl KeyPress {
    pub fn is_resize(&self) -> (r: bool)
        ensures
            r == resizes(*self),
    {
        self.is_control('i', 'I') || self.is_control('o', 'O')
    }
}

impl Session {
    pub fn resize_tests_pane(&mut self, k: KeyPress, height: u16)
        requires
            old(self).wf(),
        ensures
            final(self).wf(),
            final(self)@ == tests_pane_resized(old(self)@, k, height),
    {
        let rows: u16 = match self.tests_pane_rows {
            Some(rows) => rows,
            None => default_tests_pane_rows(height),
        };
        let wanted: u16 = if k.is_control('i', 'I') {
            saturating_less(rows, PANE_RESIZE_STEP_ROWS)
        } else {
            saturating_more(rows, PANE_RESIZE_STEP_ROWS)
        };
        self.tests_pane_rows = Some(clamp_tests_pane_rows(wanted, height));
        assert(self@ =~= tests_pane_resized(old(self)@, k, height));
    }
}

// ---------------------------------------------------------------------------
// Simple popups
// ---------------------------------------------------------------------------
/// The help closes.
pub open spec fn help_key(s: SessionView, k: Key) -> SessionView {
    if k == Key::Esc || k == Key::Enter {
        SessionView { popups: Popups { help: false, ..s.popups }, ..s }
    } else {
        s
    }
}

/// The session ends, or goes on.
pub open spec fn exit_key(s: SessionView, k: Key) -> (SessionView, ActionView) {
    if k == Key::Esc || k == Key::Char('n') || k == Key::Char('N') {
        (SessionView { popups: Popups { exit: false, ..s.popups }, ..s }, ActionView::Nothing)
    } else if k == Key::Enter || k == Key::Char('y') || k == Key::Char('Y') {
        (s, ActionView::Quit)
    } else {
        (s, ActionView::Nothing)
    }
}

impl Session {
    pub fn press_in_help(&mut self, k: Key)
        requires
            old(self).wf(),
        ensures
            final(self).wf(),
            final(self)@ == help_key(old(self)@, k),
    {
        if k == Key::Esc || k == Key::Enter {
            self.popups.help = false;
        }
        assert(self@ =~= help_key(old(self)@, k));
    }

    pub fn press_in_exit(&mut self, k: Key) -> (r: Action)
        requires
            old(self).wf(),
        ensures
            final(self).wf(),
            (final(self)@, r@) == exit_key(old(self)@, k),
    {
        if k == Key::Esc || k == Key::Char('n') || k == Key::Char('N') {
            self.popups.exit = false;
            assert(self@ =~= exit_key(old(self)@, k).0);
            Action::Nothing
        } else if k == Key::Enter || k == Key::Char('y') || k == Key::Char('Y') {
            Action::Quit
        } else {
            Action::Nothing
        }
    }
}

} // verus!
