//! Keys in the dialogs for saving and for running presets.

use vstd::prelude::*;

use crate::domain::selection::{
    all_tests, lemma_same_shape, lemma_shape_total, lemma_synced_shape, reselected, same_shape,
};
use crate::domain::tree::{parents_precede, NodeView};
use crate::numerals::{count_text, decimal};
use crate::text::{concat, trim, trimmed};
use crate::ui::actions::{Action, ActionView};
use crate::ui::config::{clone_preset, PresetView};
use crate::ui::filter::{build_filter, selection_filter};
use crate::ui::keys::{is_typed, typed, Key};
use crate::ui::launch::{heading, heading_text, launched, lemma_parents_exist};
use crate::ui::presets::{
    apply_preset_selection, error_message, found_keys, refusal, save_preset, with_preset,
};
use crate::ui::session::{saying, Popups, Session, SessionView};

verus! {

/// A number less, but not below zero.
pub open spec fn one_less(n: usize) -> usize {
    if n == 0 {
        0
    } else {
        (n - 1) as usize
    }
}

pub fn step_back(n: usize) -> (r: usize)
    ensures
        r == one_less(n),
{
    if n == 0 {
        0
    } else {
        n - 1
    }
}

/// A number more, but not beyond the last of a list of `n`.
pub open spec fn one_more(i: usize, n: int) -> usize {
    if i + 1 < n {
        (i + 1) as usize
    } else {
        (n - 1) as usize
    }
}

pub fn step_on(i: usize, n: usize) -> (r: usize)
    requires
        n > 0,
    ensures
        r == one_more(i, n as int),
{
    if i < n - 1 {
        i + 1
    } else {
        n - 1
    }
}

// ---------------------------------------------------------------------------
// Saving a preset
// ---------------------------------------------------------------------------
pub open spec fn saved_text(name: Seq<char>, n: nat) -> Seq<char> {
    "✓ Preset '"@ + trimmed(name) + "' saved. Total presets: "@ + decimal(n) + "."@
}

/// The preset is saved and the dialog closes, or the reason why not is said.
pub open spec fn preset_saved(s: SessionView) -> (SessionView, ActionView) {
    match refusal(s.config.presets, s.preset_name) {
        Some(e) => (saying(s, "✗ "@ + error_message(e)), ActionView::Nothing),
        None => (
            SessionView {
                config: with_preset(s.config, s.tree, s.preset_name, Some(s.preset_tag)),
                popups: Popups { saving: false, save_field: 0, ..s.popups },
                preset_name: Seq::empty(),
                preset_tag: Seq::empty(),
                ..saying(s, saved_text(s.preset_name, s.config.presets.len() + 1))
            },
            ActionView::SaveConfig,
        ),
    }
}

pub open spec fn without_last(s: Seq<char>) -> Seq<char> {
    if s.len() == 0 {
        s
    } else {
        s.drop_last()
    }
}

/// The field that is edited has another text.
pub open spec fn field_edited(s: SessionView, text: Seq<char>) -> SessionView {
    if s.popups.save_field == 0 {
        SessionView { preset_name: text, ..s }
    } else {
        SessionView { preset_tag: text, ..s }
    }
}

pub open spec fn edited_field(s: SessionView) -> Seq<char> {
    if s.popups.save_field == 0 {
        s.preset_name
    } else {
        s.preset_tag
    }
}

pub open spec fn save_key(s: SessionView, k: Key) -> (SessionView, ActionView) {
    match k {
        Key::Esc => (
            SessionView { popups: Popups { saving: false, ..s.popups }, ..s },
            ActionView::Nothing,
        ),
        Key::Enter => preset_saved(s),
        Key::Up => (
            SessionView {
                popups: Popups { save_field: one_less(s.popups.save_field), ..s.popups },
                ..s
            },
            ActionView::Nothing,
        ),
        Key::Down | Key::Tab => (
            SessionView { popups: Popups { save_field: 1, ..s.popups }, ..s },
            ActionView::Nothing,
        ),
        Key::Backspace => (
            field_edited(s, without_last(edited_field(s))),
            ActionView::Nothing,
        ),
        Key::Char(c) => (
            if is_typed(c) {
                field_edited(s, edited_field(s).push(c))
            } else {
                s
            },
            ActionView::Nothing,
        ),
        _ => (s, ActionView::Nothing),
    }
}

impl Session {
    fn confirm_save(&mut self) -> (r: Action)
        requires
            old(self).wf(),
        ensures
            final(self).wf(),
            (final(self)@, r@) == preset_saved(old(self)@),
    {
        let tag = self.preset_tag.clone();
        let name = self.preset_name.clone();
        match save_preset(&mut self.config, self.tree.as_slice(), name.as_str(), Some(tag)) {
            Ok(total) => {
                let mut line = concat("✓ Preset '", trim(name.as_str()));
                line.append("' saved. Total presets: ");
                let number = count_text(total);
                line.append(number.as_str());
                line.append(".");
                self.say(line);
                self.popups.saving = false;
                self.popups.save_field = 0;
                self.preset_name = String::new();
                self.preset_tag = String::new();
                assert(self@ =~= preset_saved(old(self)@).0);
                Action::SaveConfig
            },
            Err(e) => {
                self.say(concat("✗ ", e.message().as_str()));
                assert(self@ =~= preset_saved(old(self)@).0);
                Action::Nothing
            },
        }
    }

    pub fn press_in_save(&mut self, k: Key) -> (r: Action)
        requires
            old(self).wf(),
        ensures
            final(self).wf(),
            (final(self)@, r@) == save_key(old(self)@, k),
    {
        match k {
            Key::Esc => {
                self.popups.saving = false;
            },
            Key::Enter => {
                return self.confirm_save();
            },
            Key::Up => {
                self.popups.save_field = step_back(self.popups.save_field);
            },
            Key::Down | Key::Tab => {
                self.popups.save_field = 1;
            },
            Key::Backspace => {
                if self.popups.save_field == 0 {
                    self.preset_name.pop();
                } else {
                    self.preset_tag.pop();
                }
            },
            Key::Char(c) => {
                if typed(c) {
                    if self.popups.save_field == 0 {
                        self.preset_name.push(c);
                    } else {
                        self.preset_tag.push(c);
                    }
                }
            },
            _ => {},
        }
        assert(self@ =~= save_key(old(self)@, k).0);
        Action::Nothing
    }
}

// ---------------------------------------------------------------------------
// Running a preset
// ---------------------------------------------------------------------------
pub open spec fn preset_text(before: Seq<char>, name: Seq<char>, after: Seq<char>) -> Seq<char> {
    before + name + after
}

fn with_name(before: &str, name: &str, after: &str) -> (r: String)
    ensures
        r@ == preset_text(before@, name@, after@),
{
    let mut s = concat(before, name);
    s.append(after);
    s
}

pub open spec fn preset_heading(name: Seq<char>, n: nat) -> Seq<char> {
    heading_text(preset_text("Running preset '"@, name, "' ("@), n, " available test(s))…"@)
}

/// The list of presets closes.
pub open spec fn presets_closed(s: SessionView) -> SessionView {
    SessionView { popups: Popups { presets: false, ..s.popups }, ..s }
}

/// It is said how many tests of the preset are not in the tree, if any.
pub open spec fn missing_said(s: SessionView, name: Seq<char>, missing: nat) -> SessionView {
    if missing > 0 {
        saying(
            s,
            preset_text("⚠ Preset '"@, name, "' skipped "@) + decimal(missing)
                + " missing test(s) not available in current discovery."@,
        )
    } else {
        s
    }
}

pub open spec fn preset_launched(s: SessionView, name: Seq<char>, applied: nat) -> (
    SessionView,
    ActionView,
) {
    match selection_filter(s.tree) {
        Some(filter) => launched(s, filter, preset_heading(name, applied)),
        None => (s, ActionView::Nothing),
    }
}

pub open spec fn none_found(s: SessionView, name: Seq<char>) -> SessionView {
    saying(
        s,
        preset_text("⚠ Preset '"@, name, "' has no tests available in current discovery."@),
    )
}

/// The tests of the preset are selected, as far as they are in the tree, and
/// run.
pub open spec fn preset_run(s: SessionView, p: PresetView) -> (SessionView, ActionView) {
    let applied = found_keys(s.tree, p.tests);
    let missing = (p.tests.len() - applied) as nat;
    let q = SessionView { tree: reselected(s.tree, p.tests), ..s };
    if applied == 0 {
        (presets_closed(none_found(q, p.name)), ActionView::Nothing)
    } else {
        let l = preset_launched(missing_said(q, p.name, missing), p.name, applied);
        (presets_closed(l.0), l.1)
    }
}

pub open spec fn presets_key(s: SessionView, k: Key) -> (SessionView, ActionView) {
    let cursor = s.popups.preset_cursor;
    match k {
        Key::Esc => (
            SessionView { popups: Popups { presets: false, ..s.popups }, ..s },
            ActionView::Nothing,
        ),
        Key::Up => (
            SessionView { popups: Popups { preset_cursor: one_less(cursor), ..s.popups }, ..s },
            ActionView::Nothing,
        ),
        Key::Down => (
            if s.config.presets.len() > 0 {
                SessionView {
                    popups: Popups {
                        preset_cursor: one_more(cursor, s.config.presets.len() as int),
                        ..s.popups
                    },
                    ..s
                }
            } else {
                s
            },
            ActionView::Nothing,
        ),
        Key::Enter => if cursor < s.config.presets.len() {
            preset_run(s, s.config.presets[cursor as int])
        } else {
            (s, ActionView::Nothing)
        },
        _ => (s, ActionView::Nothing),
    }
}

proof fn lemma_reselected(t: Seq<NodeView>, keys: Seq<Seq<char>>)
    requires
        parents_precede(t),
    ensures
        parents_precede(reselected(t, keys)),
        all_tests(reselected(t, keys)) == all_tests(t),
{
    let u = t.map_values(
        |n: NodeView|
            if n.is_leaf {
                NodeView { is_selected: n.fqn is Some && keys.contains(n.fqn->0), ..n }
            } else {
                n
            },
    );
    assert(same_shape(t, u));
    lemma_same_shape(t, u);
    lemma_synced_shape(u);
    lemma_same_shape(u, reselected(t, keys));
    lemma_shape_total(t, u, t.len() as int);
    lemma_shape_total(u, reselected(t, keys), u.len() as int);
}

impl Session {
    fn close_presets(&mut self)
        requires
            old(self).wf(),
        ensures
            final(self).wf(),
            final(self)@ == presets_closed(old(self)@),
    {
        self.popups.presets = false;
        assert(self@ =~= presets_closed(old(self)@));
    }

    fn say_missing(&mut self, name: &str, missing: usize)
        requires
            old(self).wf(),
        ensures
            final(self).wf(),
            final(self)@ == missing_said(old(self)@, name@, missing as nat),
    {
        if missing > 0 {
            let mut line = with_name("⚠ Preset '", name, "' skipped ");
            let number = count_text(missing);
            line.append(number.as_str());
            line.append(" missing test(s) not available in current discovery.");
            self.say(line);
        }
    }

    fn launch_preset(&mut self, name: &str, applied: usize) -> (r: Action)
        requires
            old(self).wf(),
        ensures
            final(self).wf(),
            (final(self)@, r@) == preset_launched(old(self)@, name@, applied as nat),
    {
        proof {
            lemma_parents_exist(self@.tree);
        }
        match build_filter(self.tree.as_slice()) {
            Some(filter) => {
                let title = heading(
                    with_name("Running preset '", name, "' (").as_str(),
                    applied,
                    " available test(s))…",
                );
                self.launch(filter, title)
            },
            None => Action::Nothing,
        }
    }

    fn run_preset(&mut self, i: usize) -> (r: Action)
        requires
            old(self).wf(),
            i < old(self)@.config.presets.len(),
        ensures
            final(self).wf(),
            (final(self)@, r@) == preset_run(old(self)@, old(self)@.config.presets[i as int]),
    {
        let preset = clone_preset(&self.config.presets[i]);
        let ghost s = self@;
        let ghost p = preset@;
        proof {
            assert(s.config.presets[i as int] == p);
            lemma_reselected(s.tree, p.tests);
        }
        let result = apply_preset_selection(&mut self.tree, &preset);
        assert(self@ =~= SessionView { tree: reselected(s.tree, p.tests), ..s });
        if result.applied == 0 {
            self.say(
                with_name(
                    "⚠ Preset '",
                    preset.name.as_str(),
                    "' has no tests available in current discovery.",
                ),
            );
            self.close_presets();
            return Action::Nothing;
        }
        self.say_missing(preset.name.as_str(), result.missing);
        let action = self.launch_preset(preset.name.as_str(), result.applied);
        self.close_presets();
        action
    }

    pub fn press_in_presets(&mut self, k: Key) -> (r: Action)
        requires
            old(self).wf(),
        ensures
            final(self).wf(),
            (final(self)@, r@) == presets_key(old(self)@, k),
    {
        let n: usize = self.config.presets.len();
        let cursor: usize = self.popups.preset_cursor;
        assert(self@.config.presets.len() == n);
        match k {
            Key::Esc => {
                self.popups.presets = false;
            },
            Key::Up => {
                self.popups.preset_cursor = step_back(cursor);
            },
            Key::Down => {
                if n > 0 {
                    self.popups.preset_cursor = step_on(cursor, n);
                }
            },
            Key::Enter => {
                if cursor < n {
                    return self.run_preset(cursor);
                }
            },
            _ => {},
        }
        assert(self@ =~= presets_key(old(self)@, k).0);
        Action::Nothing
    }
}

} // verus!
