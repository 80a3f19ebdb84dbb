//! What holds of every key.

use vstd::prelude::*;

use crate::domain::selection::{
    all_toggled, law_toggle_keeps_the_shape, lemma_listed_shape, lemma_synced_shape, reselected,
    same_shape,
};
use crate::domain::tree::NodeView;
use crate::ui::actions::ActionView;
use crate::ui::failure_keys::failures_key;
use crate::ui::keys::{focused_row, lemma_expansion, resizes, Key, KeyPress, ScreenView};
use crate::ui::overlay_keys::save_key;
use crate::ui::session::SessionView;
use crate::ui::settings_keys::settings_key;
use crate::ui::tree_keys::{key_pressed, running_key};

verus! {

/// A key that starts a run, a churn or a search for tests.
pub open spec fn starts_something(a: ActionView) -> bool {
    a is StartRun || a is StartChurn || a is StartSidecar || a is NextIteration || a is Rediscover
}

/// The session ends only where that was asked for: by a yes in the dialog, or by
/// Esc where the settings ask for no dialog, and only while no test runs.
pub proof fn law_only_an_answer_or_esc_quits(
    s: SessionView,
    k: KeyPress,
    scr: ScreenView,
    now: u128,
)
    ensures
        key_pressed(s, k, scr, now).1 is Quit ==> {
            ||| s.popups.exit && !s.popups.help && (k.key == Key::Enter || k.key == Key::Char('y')
                || k.key == Key::Char('Y'))
            ||| k.key == Key::Esc && !s.config.confirm_exit_on_esc && !s.run.running
                && !s.popups.fullscreen && s.query.len() == 0
        },
{
}

/// While tests run, no key starts anything else; only Esc ends the process, and
/// it does so wherever nothing lies over the tree.
pub proof fn law_keys_start_nothing_while_tests_run(
    s: SessionView,
    k: KeyPress,
    scr: ScreenView,
    now: u128,
)
    requires
        s.run.running,
        !s.popups.presets,
    ensures
        !starts_something(key_pressed(s, k, scr, now).1),
        key_pressed(s, k, scr, now).1 is Kill ==> k.key == Key::Esc,
        k.key == Key::Esc && !s.popups.help && !s.popups.exit && !s.popups.saving && !s.failure.shown
            && !s.popups.settings ==> !key_pressed(s, k, scr, now).0.run.running,
{
    let (after, action) = key_pressed(s, k, scr, now);
    if s.popups.help || s.popups.exit {
    } else if s.popups.saving {
        assert(action == save_key(s, k.key).1);
    } else if s.failure.shown {
        assert(action == failures_key(s, k, scr.area).1);
    } else if s.popups.settings {
        assert(action == settings_key(s, k.key).1);
    } else if scr.panel_shown && !s.popups.fullscreen && resizes(k) {
    } else {
        assert((after, action) == running_key(s, k, scr, now));
    }
}

proof fn lemma_shape_reflexive(t: Seq<NodeView>)
    ensures
        same_shape(t, t),
{
}

proof fn lemma_shape_transitive(t: Seq<NodeView>, u: Seq<NodeView>, v: Seq<NodeView>)
    requires
        same_shape(t, u),
        same_shape(u, v),
    ensures
        same_shape(t, v),
{
    assert forall|i: int| 0 <= i < t.len() implies v[i] == (NodeView {
        is_selected: v[i].is_selected,
        is_partial: v[i].is_partial,
        is_expanded: v[i].is_expanded,
        ..#[trigger] t[i]
    }) by {
        assert(u[i] == (NodeView {
            is_selected: u[i].is_selected,
            is_partial: u[i].is_partial,
            is_expanded: u[i].is_expanded,
            ..t[i]
        }));
    }
}

proof fn lemma_reselected_shape(t: Seq<NodeView>, keys: Seq<Seq<char>>)
    ensures
        same_shape(t, reselected(t, keys)),
{
    let u = t.map_values(
        |n: NodeView|
            if n.is_leaf {
                NodeView { is_selected: n.fqn is Some && keys.contains(n.fqn->0), ..n }
            } else {
                n
            },
    );
    assert(same_shape(t, u));
    lemma_synced_shape(u);
    lemma_shape_transitive(t, u, reselected(t, keys));
}

/// A key changes at most what is checked and what is expanded: no row comes,
/// goes, moves or gets another name.
pub proof fn law_keys_keep_the_rows(s: SessionView, k: KeyPress, scr: ScreenView, now: u128)
    requires
        forall|i: int|
            0 <= i < scr.visible.len() ==> 0 <= #[trigger] scr.visible[i] < s.tree.len(),
    ensures
        same_shape(s.tree, key_pressed(s, k, scr, now).0.tree),
{
    lemma_shape_reflexive(s.tree);
    assert(same_shape(s.tree, all_toggled(s.tree)));
    lemma_listed_shape(s.tree, scr.visible);
    match focused_row(s, scr.visible) {
        Some(ri) => {
            lemma_expansion(s.tree, ri, true);
            lemma_expansion(s.tree, ri, false);
            law_toggle_keeps_the_shape(s.tree, ri);
        },
        None => {},
    }
    let cursor = s.popups.preset_cursor;
    if cursor < s.config.presets.len() {
        lemma_reselected_shape(s.tree, s.config.presets[cursor as int].tests);
    }
}

} // verus!
