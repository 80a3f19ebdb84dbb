//! Named selections of tests.

use vstd::prelude::*;

use crate::domain::selection::{
    collect_selected_tests, reselected, select_keys, selected_keys,
};
use crate::domain::tree::{parents_precede, rows, NodeView, TreeNode};
use crate::text::{concat, opt_text, same_text, texts, trim, trimmed};
use crate::ui::attribution::{has_leaf_named, leaf_named};
use crate::ui::config::{preset_views, ConfigView, PresetView, RunConfig, TestPreset};

verus! {

/// Why a preset was not saved.
#[derive(Clone, Debug, PartialEq, Eq)]
pub enum PresetError {
    NameMissing,
    /// There is a preset of this name.
    NameTaken(String),
}

pub enum PresetErrorView {
    NameMissing,
    NameTaken(Seq<char>),
}

impl View for PresetError {
    type V = PresetErrorView;

    open spec fn view(&self) -> PresetErrorView {
        match self {
            PresetError::NameMissing => PresetErrorView::NameMissing,
            PresetError::NameTaken(name) => PresetErrorView::NameTaken(name@),
        }
    }
}

pub open spec fn error_message(e: PresetErrorView) -> Seq<char> {
    match e {
        PresetErrorView::NameMissing => "Preset name is required."@,
        PresetErrorView::NameTaken(name) => "Preset '"@ + name + "' already exists."@,
    }
}

impl PresetError {
    pub fn message(&self) -> (r: String)
        ensures
            r@ == error_message(self@),
    {
        match self {
            PresetError::NameMissing => "Preset name is required.".to_owned(),
            PresetError::NameTaken(name) => {
                let mut s = concat("Preset '", name.as_str());
                s.append("' already exists.");
                s
            },
        }
    }
}

pub open spec fn has_preset(presets: Seq<PresetView>, name: Seq<char>) -> bool {
    exists|i: int| 0 <= i < presets.len() && (#[trigger] presets[i]).name == name
}

/// A tag without the white space around it, if anything is left.
pub open spec fn clean_tag(tag: Option<Seq<char>>) -> Option<Seq<char>> {
    match tag {
        Some(t) => if trimmed(t).len() > 0 {
            Some(trimmed(t))
        } else {
            None
        },
        None => None,
    }
}

/// Why no preset of this name can be saved, if that is so.
pub open spec fn refusal(presets: Seq<PresetView>, name: Seq<char>) -> Option<PresetErrorView> {
    let clean = trimmed(name);
    if clean.len() == 0 {
        Some(PresetErrorView::NameMissing)
    } else if has_preset(presets, clean) {
        Some(PresetErrorView::NameTaken(clean))
    } else {
        None
    }
}

/// The settings with the selected tests saved as a preset.
pub open spec fn with_preset(
    c: ConfigView,
    t: Seq<NodeView>,
    name: Seq<char>,
    tag: Option<Seq<char>>,
) -> ConfigView {
    ConfigView {
        presets: c.presets.push(
            PresetView {
                name: trimmed(name),
                tag: clean_tag(tag),
                tests: selected_keys(t, t.len() as int),
            },
        ),
        ..c
    }
}

pub fn find_preset(presets: &Vec<TestPreset>, name: &str) -> (r: bool)
    ensures
        r == has_preset(preset_views(presets@), name@),
{
    let ghost all = preset_views(presets@);
    let mut i: usize = 0;
    while i < presets.len()
        invariant
            all == preset_views(presets@),
            i <= presets@.len(),
            forall|j: int| 0 <= j < i ==> (#[trigger] all[j]).name != name@,
        decreases presets@.len() - i,
    {
        assert(all[i as int] == presets@[i as int]@);
        if same_text(presets[i].name.as_str(), name) {
            return true;
        }
        i += 1;
    }
    false
}

/// Saves the selected tests under a name, and returns how many presets there
/// are then.
pub fn save_preset(
    config: &mut RunConfig,
    tree: &[TreeNode],
    name: &str,
    tag: Option<String>,
) -> (r: Result<usize, PresetError>)
    ensures
        match refusal(old(config)@.presets, name@) {
            Some(e) => r is Err && r->Err_0@ == e && final(config)@ == old(config)@,
            None => r is Ok && r->Ok_0 == final(config)@.presets.len() && final(config)@
                == with_preset(
                old(config)@,
                rows(tree@),
                name@,
                opt_text(tag),
            ),
        },
{
    let clean = trim(name);
    if clean.is_empty() {
        return Err(PresetError::NameMissing);
    }
    if find_preset(&config.presets, clean) {
        return Err(PresetError::NameTaken(clean.to_owned()));
    }
    let clean_tag: Option<String> = match tag {
        Some(t) => {
            let kept = trim(t.as_str());
            if kept.is_empty() {
                None
            } else {
                Some(kept.to_owned())
            }
        },
        None => None,
    };
    let preset = TestPreset {
        name: clean.to_owned(),
        tag: clean_tag,
        tests: collect_selected_tests(tree),
    };
    let ghost before = preset_views(config.presets@);
    config.presets.push(preset);
    assert(preset_views(config.presets@) =~= before.push(preset@));
    Ok(config.presets.len())
}

/// Names stay unique: no two presets that were saved have the same.
pub proof fn law_preset_names_stay_unique(
    c: ConfigView,
    t: Seq<NodeView>,
    name: Seq<char>,
    tag: Option<Seq<char>>,
)
    requires
        refusal(c.presets, name) is None,
        forall|i: int, j: int|
            0 <= i < j < c.presets.len() ==> (#[trigger] c.presets[i]).name != (
            #[trigger] c.presets[j]).name,
    ensures
        ({
            let after = with_preset(c, t, name, tag).presets;
            forall|i: int, j: int|
                0 <= i < j < after.len() ==> (#[trigger] after[i]).name != (
                #[trigger] after[j]).name
        }),
        refusal(with_preset(c, t, name, tag).presets, name) == Some(
            PresetErrorView::NameTaken(trimmed(name)),
        ),
{
    let after = with_preset(c, t, name, tag).presets;
    assert(after[c.presets.len() as int].name == trimmed(name));
}

// ---------------------------------------------------------------------------
// Applying
// ---------------------------------------------------------------------------
/// How many tests of a preset were found, and how many were not.
#[derive(Clone, Copy, Debug, PartialEq, Eq, Structural)]
pub struct PresetResult {
    pub applied: usize,
    pub missing: usize,
}

/// How many of the keys belong to a leaf.
pub open spec fn found_keys(t: Seq<NodeView>, keys: Seq<Seq<char>>) -> nat
    decreases keys.len(),
{
    if keys.len() == 0 {
        0
    } else {
        found_keys(t, keys.drop_last()) + if has_leaf_named(t, keys.last()) {
            1nat
        } else {
            0
        }
    }
}

pub proof fn lemma_found_keys(t: Seq<NodeView>, keys: Seq<Seq<char>>)
    ensures
        found_keys(t, keys) <= keys.len(),
    decreases keys.len(),
{
    if keys.len() > 0 {
        lemma_found_keys(t, keys.drop_last());
    }
}

/// Selects the tests of a preset that are in the tree, and no others.
pub fn apply_preset_selection(tree: &mut Vec<TreeNode>, preset: &TestPreset) -> (r: PresetResult)
    requires
        parents_precede(rows(old(tree)@)),
    ensures
        rows(final(tree)@) == reselected(rows(old(tree)@), preset@.tests),
        r.applied == found_keys(rows(old(tree)@), preset@.tests),
        r.applied + r.missing == preset@.tests.len(),
{
    let ghost t = rows(tree@);
    let ghost keys = texts(preset.tests@);
    let mut applied: usize = 0;
    let mut i: usize = 0;
    assert(keys.take(0) =~= Seq::<Seq<char>>::empty());
    while i < preset.tests.len()
        invariant
            t == rows(tree@),
            keys == texts(preset.tests@),
            i <= preset.tests@.len(),
            applied <= i,
            applied == found_keys(t, keys.take(i as int)),
        decreases preset.tests@.len() - i,
    {
        proof {
            assert(keys.take(i + 1).drop_last() =~= keys.take(i as int));
            assert(keys.take(i + 1).last() == preset.tests@[i as int]@);
        }
        if leaf_named(tree.as_slice(), preset.tests[i].as_str()) {
            applied = applied + 1;
        }
        i += 1;
    }
    assert(keys.take(i as int) =~= keys);
    select_keys(tree, &preset.tests);
    PresetResult { applied, missing: preset.tests.len() - applied }
}

} // verus!
