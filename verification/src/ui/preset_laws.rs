//! What saving and running presets comes to, and looking for the tests again.

use vstd::prelude::*;

use crate::domain::discovery::DiscoveredTestView;
use crate::domain::selection::{
    expanded_paths, is_selected_leaf, lemma_selected_keys, reselected, selected_keys,
};
use crate::domain::selection_laws::law_keys_check_their_tests;
use crate::domain::tree::{flat_tree, row_path, NodeView};
use crate::text::{is_white_space, trimmed};
use crate::text_laws::{is_blank, law_trimming_finds_the_text};
use crate::ui::actions::ActionView;
use crate::ui::attribution::has_leaf_named;
use crate::ui::config::{ConfigView, PresetView};
use crate::ui::filter::selection_filter;
use crate::ui::keys::Key;
use crate::ui::output::RunRequestView;
use crate::ui::overlay_keys::{preset_run, presets_key, save_key};
use crate::ui::presets::{found_keys, refusal, with_preset, PresetErrorView};
use crate::ui::rediscovery::{rediscovered, rediscovery_asked, rediscovery_failed};
use crate::ui::session::SessionView;
use crate::unicode::is_letter_or_number;

verus! {

// ---------------------------------------------------------------------------
// Saving
// ---------------------------------------------------------------------------
/// A preset is refused exactly if its name is blank or taken; blanks around the
/// name make no difference.
pub proof fn law_names_are_asked_for(
    presets: Seq<PresetView>,
    a: Seq<char>,
    name: Seq<char>,
    b: Seq<char>,
)
    requires
        is_blank(a),
        is_blank(b),
        name.len() > 0 ==> !is_white_space(name[0]) && !is_white_space(name.last()),
    ensures
        ({
            let r = refusal(presets, a + name + b);
            let taken = exists|i: int|
                0 <= i < presets.len() && (#[trigger] presets[i]).name == name;
            &&& name.len() == 0 ==> r == Some(PresetErrorView::NameMissing)
            &&& name.len() > 0 && taken ==> r == Some(PresetErrorView::NameTaken(name))
            &&& name.len() > 0 && !taken ==> r is None
        }),
{
    law_trimming_finds_the_text(a, name, b);
}

/// A saved preset stands behind the others, which stay, under its trimmed name,
/// and holds exactly the keys of the checked tests; nothing is left of a blank
/// tag.
pub proof fn law_saved_presets_hold_what_is_checked(
    c: ConfigView,
    t: Seq<NodeView>,
    name: Seq<char>,
    tag: Seq<char>,
    key: Seq<char>,
)
    ensures
        ({
            let after = with_preset(c, t, name, Some(tag));
            let p = after.presets.last();
            &&& after.presets.len() == c.presets.len() + 1
            &&& after.presets.drop_last() == c.presets
            &&& after == (ConfigView { presets: after.presets, ..c })
            &&& p.name == trimmed(name)
            &&& p.tag == if trimmed(tag).len() == 0 {
                None
            } else {
                Some(trimmed(tag))
            }
            &&& p.tests.contains(key) <==> exists|i: int|
                0 <= i < t.len() && (#[trigger] t[i]).is_leaf && t[i].is_selected && t[i].fqn
                    == Some(key)
        }),
{
    let after = with_preset(c, t, name, Some(tag));
    assert(after.presets.drop_last() =~= c.presets);
    lemma_selected_keys(t, t.len() as int, key);
    let keys = selected_keys(t, t.len() as int);
    if keys.contains(key) {
        let i = choose|i: int|
            0 <= i < t.len() && is_selected_leaf(#[trigger] t[i]) && t[i].fqn == Some(key);
        assert(t[i].is_leaf && t[i].is_selected);
    }
    if exists|i: int|
        0 <= i < t.len() && (#[trigger] t[i]).is_leaf && t[i].is_selected && t[i].fqn
            == Some(key) {
        let i = choose|i: int|
            0 <= i < t.len() && (#[trigger] t[i]).is_leaf && t[i].is_selected && t[i].fqn == Some(
                key,
            );
        assert(is_selected_leaf(t[i]));
    }
}

/// A preset brings back what was checked when it was saved: in a tree with the
/// same tests, a test is checked exactly if one with its key was.
pub proof fn law_presets_bring_back_what_was_checked(
    c: ConfigView,
    t: Seq<NodeView>,
    u: Seq<NodeView>,
    name: Seq<char>,
    i: int,
)
    requires
        0 <= i < u.len(),
        u[i].is_leaf,
        u[i].fqn is Some,
    ensures
        reselected(u, with_preset(c, t, name, None).presets.last().tests)[i].is_selected
            <==> exists|j: int|
            0 <= j < t.len() && (#[trigger] t[j]).is_leaf && t[j].is_selected && t[j].fqn
                == u[i].fqn,
{
    let tests = with_preset(c, t, name, None).presets.last().tests;
    assert(tests == with_preset(c, t, name, Some(Seq::empty())).presets.last().tests);
    law_keys_check_their_tests(u, tests, i);
    law_saved_presets_hold_what_is_checked(c, t, name, Seq::empty(), u[i].fqn->0);
}

/// The dialog for a preset takes what is typed into the field that is edited,
/// and leaves the other alone; Esc saves nothing.
pub proof fn law_save_dialog_edits_one_field(s: SessionView, c: char)
    requires
        'a' <= c <= 'z' && is_letter_or_number(c),
    ensures
        ({
            let typed = save_key(s, Key::Char(c));
            let left = save_key(s, Key::Esc);
            &&& typed.1 is Nothing && left.1 is Nothing
            &&& s.popups.save_field == 0 ==> typed.0 == (SessionView {
                preset_name: s.preset_name.push(c),
                ..s
            })
            &&& s.popups.save_field != 0 ==> typed.0 == (SessionView {
                preset_tag: s.preset_tag.push(c),
                ..s
            })
            &&& !left.0.popups.saving && left.0.config == s.config
            &&& save_key(typed.0, Key::Backspace).0 == s
        }),
{
    let typed = save_key(s, Key::Char(c)).0;
    assert(s.preset_name.push(c).drop_last() =~= s.preset_name);
    assert(s.preset_tag.push(c).drop_last() =~= s.preset_tag);
    assert(save_key(typed, Key::Backspace).0 =~= s);
}

/// Enter in the dialog saves the preset and has the settings written, or says
/// why not and keeps the dialog open.
pub proof fn law_enter_saves_the_preset(s: SessionView)
    ensures
        ({
            let (after, action) = save_key(s, Key::Enter);
            if refusal(s.config.presets, s.preset_name) is Some {
                &&& action is Nothing
                &&& after.config == s.config && after.popups == s.popups
                &&& after.lines.len() == s.lines.len() + 1
            } else {
                &&& action is SaveConfig
                &&& !after.popups.saving
                &&& after.config == with_preset(s.config, s.tree, s.preset_name, Some(s.preset_tag))
                &&& after.tree == s.tree
            }
        }),
{
}

// ---------------------------------------------------------------------------
// Running
// ---------------------------------------------------------------------------
proof fn lemma_found(t: Seq<NodeView>, keys: Seq<Seq<char>>)
    ensures
        found_keys(t, keys) == keys.filter(|k: Seq<char>| has_leaf_named(t, k)).len(),
    decreases keys.len(),
{
    reveal(Seq::filter);
    if keys.len() > 0 {
        lemma_found(t, keys.drop_last());
    }
}

/// Running a preset checks the tests that it names and no others, and asks for
/// a run of what is then checked; if the tree has none of them, nothing is asked
/// for. Either way the list of presets closes.
pub proof fn law_presets_run_their_tests(s: SessionView, p: PresetView)
    ensures
        ({
            let (after, action) = preset_run(s, p);
            let some = p.tests.filter(|k: Seq<char>| has_leaf_named(s.tree, k)).len() > 0;
            &&& after.tree == reselected(s.tree, p.tests)
            &&& !after.popups.presets
            &&& after.config == s.config
            &&& !some ==> action is Nothing
            &&& some ==> action == match selection_filter(after.tree) {
                Some(filter) => ActionView::StartRun(
                    RunRequestView {
                        filter: Some(filter),
                        target_path: None,
                        no_build: s.config.no_build,
                        no_restore: s.config.no_restore,
                        verbosity: s.config.verbosity,
                    },
                ),
                None => ActionView::Nothing,
            }
        }),
{
    lemma_found(s.tree, p.tests);
}

/// Enter runs the preset under the cursor, and the arrows stay in the list.
pub proof fn law_enter_runs_the_preset(s: SessionView)
    requires
        s.popups.preset_cursor < s.config.presets.len() <= usize::MAX,
    ensures
        presets_key(s, Key::Enter) == preset_run(
            s,
            s.config.presets[s.popups.preset_cursor as int],
        ),
        presets_key(s, Key::Down).0.popups.preset_cursor < s.config.presets.len(),
        presets_key(s, Key::Up).0.popups.preset_cursor < s.config.presets.len(),
        s.popups.preset_cursor + 1 < s.config.presets.len() ==> presets_key(
            s,
            Key::Down,
        ).0.popups.preset_cursor == s.popups.preset_cursor + 1,
        s.popups.preset_cursor > 0 ==> presets_key(s, Key::Up).0.popups.preset_cursor
            == s.popups.preset_cursor - 1,
{
}

// ---------------------------------------------------------------------------
// Looking for the tests again
// ---------------------------------------------------------------------------
/// Looking for the tests again is asked for once: while it goes on, asking again
/// only says so.
pub proof fn law_rediscovery_is_asked_for_once(s: SessionView, now: u128)
    ensures
        ({
            let (after, action) = rediscovery_asked(s, now);
            &&& after.tree == s.tree && after.config == s.config && after.recorded == s.recorded
            &&& after.rediscovery.active
            &&& !s.rediscovery.active ==> action == (ActionView::Rediscover {
                no_restore: s.config.no_restore,
            }) && after.rediscovery.since == Some(now)
            &&& s.rediscovery.active ==> action is Nothing && after.rediscovery == s.rediscovery
                && after.saved == s.saved
            &&& rediscovery_asked(after, now).1 is Nothing
        }),
{
}

/// Tests that were found make a new tree, without a search; an outcome is kept
/// exactly if its test is still there. Where they were not found, the tree and
/// the outcomes stay.
pub proof fn law_rediscovery_keeps_outcomes(
    s: SessionView,
    tests: Seq<DiscoveredTestView>,
    reason: Seq<char>,
    key: Seq<char>,
)
    ensures
        ({
            let found = rediscovered(s, tests);
            let failed = rediscovery_failed(s, reason);
            &&& !found.rediscovery.active && !failed.rediscovery.active
            &&& found.query.len() == 0
            &&& found.recorded.results.dom().contains(key) <==> s.recorded.results.dom().contains(
                key,
            ) && has_leaf_named(found.tree, key)
            &&& found.recorded.results.dom().contains(key) ==> found.recorded.results[key]
                == s.recorded.results[key]
            &&& s.saved is None ==> found.tree == flat_tree(tests)
            &&& failed.tree == s.tree && failed.recorded == s.recorded && failed.query == s.query
                && failed.cursor == s.cursor
        }),
{
}

proof fn lemma_expanded_paths(t: Seq<NodeView>, n: int, path: Seq<char>)
    requires
        0 <= n <= t.len(),
    ensures
        expanded_paths(t, n).contains(path) <==> exists|j: int|
            0 <= j < n && !(#[trigger] t[j]).is_leaf && t[j].is_expanded && row_path(t, j) == path,
    decreases n,
{
    if n > 0 {
        lemma_expanded_paths(t, n - 1, path);
        let before = expanded_paths(t, n - 1);
        if !t[n - 1].is_leaf && t[n - 1].is_expanded {
            let last = row_path(t, n - 1);
            let now = before.push(last);
            assert(now[before.len() as int] == last);
            if before.contains(path) {
                let i = before.index_of(path);
                assert(now[i] == path);
            }
            if now.contains(path) && path != last {
                let i = now.index_of(path);
                assert(before[i] == path);
            }
        }
    }
}

/// Looking for the tests again keeps the folds: a folder is unfolded exactly if one
/// with the same path was before.
pub proof fn law_rediscovery_keeps_the_folds(
    s: SessionView,
    now: u128,
    tests: Seq<DiscoveredTestView>,
    k: int,
)
    requires
        !s.rediscovery.active,
        0 <= k < flat_tree(tests).len(),
        !flat_tree(tests)[k].is_leaf,
    ensures
        rediscovered(rediscovery_asked(s, now).0, tests).tree[k].is_expanded <==> exists|j: int|
            0 <= j < s.tree.len() && !(#[trigger] s.tree[j]).is_leaf && s.tree[j].is_expanded
                && row_path(s.tree, j) == row_path(flat_tree(tests), k),
{
    lemma_expanded_paths(s.tree, s.tree.len() as int, row_path(flat_tree(tests), k));
}

} // verus!
