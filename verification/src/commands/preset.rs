//! `dotest preset`: filters that were given a name.

use vstd::prelude::*;

use crate::domain::runner::{RunOptions, RunOptionsView};
use crate::text::{concat, pad, padded, same_text, texts};
use crate::text_laws::law_padding_fills_up;

verus! {

/// A filter with a name.
#[derive(Clone, Debug)]
pub struct Preset {
    pub name: String,
    pub filter: String,
    pub no_build: bool,
}

#[verifier::ext_equal]
pub struct PresetView {
    pub name: Seq<char>,
    pub filter: Seq<char>,
    pub no_build: bool,
}

impl View for Preset {
    type V = PresetView;

    open spec fn view(&self) -> PresetView {
        PresetView { name: self.name@, filter: self.filter@, no_build: self.no_build }
    }
}

pub open spec fn views(presets: Seq<Preset>) -> Seq<PresetView> {
    presets.map_values(|p: Preset| p@)
}

/// The first preset of this name.
pub open spec fn preset_named(presets: Seq<PresetView>, name: Seq<char>) -> Option<PresetView>
    decreases presets.len(),
{
    if presets.len() == 0 {
        None
    } else if presets[0].name == name {
        Some(presets[0])
    } else {
        preset_named(presets.drop_first(), name)
    }
}

/// The presets without those of this name.
pub open spec fn without_preset(presets: Seq<PresetView>, name: Seq<char>) -> Seq<PresetView>
    decreases presets.len(),
{
    if presets.len() == 0 {
        Seq::empty()
    } else if presets.last().name == name {
        without_preset(presets.drop_last(), name)
    } else {
        without_preset(presets.drop_last(), name).push(presets.last())
    }
}

fn find_preset(presets: &Vec<Preset>, name: &str) -> (r: Option<usize>)
    ensures
        match r {
            Some(i) => i < presets@.len() && preset_named(views(presets@), name@) == Some(
                presets@[i as int]@,
            ),
            None => preset_named(views(presets@), name@) is None,
        },
{
    let ghost all = views(presets@);
    let mut i: usize = 0;
    assert(all.skip(0) =~= all);
    while i < presets.len()
        invariant
            all == views(presets@),
            i <= presets@.len(),
            preset_named(all, name@) == preset_named(all.skip(i as int), name@),
        decreases presets@.len() - i,
    {
        assert(all.skip(i as int)[0] == presets@[i as int]@);
        if same_text(presets[i].name.as_str(), name) {
            return Some(i);
        }
        assert(all.skip(i as int).drop_first() =~= all.skip(i + 1));
        i += 1;
    }
    None
}

fn drop_presets(presets: &Vec<Preset>, name: &str) -> (r: Vec<Preset>)
    ensures
        views(r@) == without_preset(views(presets@), name@),
{
    let ghost all = views(presets@);
    let mut kept: Vec<Preset> = Vec::new();
    let mut i: usize = 0;
    assert(views(kept@) =~= without_preset(all.take(0), name@));
    while i < presets.len()
        invariant
            all == views(presets@),
            i <= presets@.len(),
            views(kept@) == without_preset(all.take(i as int), name@),
        decreases presets@.len() - i,
    {
        assert(all.take(i + 1).drop_last() =~= all.take(i as int));
        assert(all.take(i + 1).last() == presets@[i as int]@);
        let p = &presets[i];
        if !same_text(p.name.as_str(), name) {
            let ghost o = views(kept@);
            let copy = Preset {
                name: p.name.clone(),
                filter: p.filter.clone(),
                no_build: p.no_build,
            };
            kept.push(copy);
            assert(views(kept@) =~= o.push(p@));
        }
        i += 1;
    }
    assert(all.take(i as int) =~= all);
    kept
}

// ---------------------------------------------------------------------------
// Listing
// ---------------------------------------------------------------------------
pub const NO_PRESETS: &'static str =
    "No presets found. Add one with `dotest preset add <name> <filter>`";

/// A row of the table.
pub open spec fn table_row(name: Seq<char>, filter: Seq<char>, last: Seq<char>) -> Seq<char> {
    padded(name, 20, ' ') + " | "@ + padded(filter, 40, ' ') + " | "@ + last
}

fn show_table_row(name: &str, filter: &str, last: &str) -> (r: String)
    ensures
        r@ == table_row(name@, filter@, last@),
{
    let mut s = pad(name, 20, ' ');
    s.append(" | ");
    let f = pad(filter, 40, ' ');
    s.append(f.as_str());
    s.append(" | ");
    s.append(last);
    s
}

/// The line below the headings.
pub open spec fn table_rule() -> Seq<char> {
    padded(Seq::empty(), 20, '-') + "-|-"@ + padded(Seq::empty(), 40, '-') + "-|-"@ + padded(
        Seq::empty(),
        8,
        '-',
    )
}

pub open spec fn yes_or_no(b: bool) -> Seq<char> {
    if b {
        "true"@
    } else {
        "false"@
    }
}

pub open spec fn preset_row(p: PresetView) -> Seq<char> {
    table_row(p.name, p.filter, yes_or_no(p.no_build))
}

/// The lines that list the presets.
pub open spec fn preset_lines(presets: Seq<PresetView>) -> Seq<Seq<char>> {
    if presets.len() == 0 {
        seq![NO_PRESETS@]
    } else {
        seq![table_row("NAME"@, "FILTER"@, "NO-BUILD"@), table_rule()] + presets.map_values(
            |p: PresetView| preset_row(p),
        )
    }
}

pub fn list(presets: &Vec<Preset>) -> (r: Vec<String>)
    ensures
        texts(r@) == preset_lines(views(presets@)),
{
    let ghost all = views(presets@);
    assert(all.len() == presets@.len());
    if presets.len() == 0 {
        let v: Vec<String> = vec![NO_PRESETS.to_owned()];
        assert(texts(v@) =~= preset_lines(all));
        return v;
    }
    let none = String::new();
    assert(none@ =~= Seq::<char>::empty());
    let mut rule = pad(none.as_str(), 20, '-');
    rule.append("-|-");
    let middle = pad(none.as_str(), 40, '-');
    rule.append(middle.as_str());
    rule.append("-|-");
    let end = pad(none.as_str(), 8, '-');
    rule.append(end.as_str());
    let ghost head = seq![table_row("NAME"@, "FILTER"@, "NO-BUILD"@), table_rule()];
    let ghost items = all.map_values(|p: PresetView| preset_row(p));
    let mut v: Vec<String> = vec![show_table_row("NAME", "FILTER", "NO-BUILD"), rule];
    let mut i: usize = 0;
    assert(texts(v@) =~= head + items.take(0));
    while i < presets.len()
        invariant
            all == views(presets@),
            items == all.map_values(|p: PresetView| preset_row(p)),
            i <= presets@.len(),
            texts(v@) == head + items.take(i as int),
        decreases presets@.len() - i,
    {
        let p = &presets[i];
        let row = show_table_row(
            p.name.as_str(),
            p.filter.as_str(),
            if p.no_build {
                "true"
            } else {
                "false"
            },
        );
        assert(all[i as int] == p@);
        assert(row@ == items[i as int]);
        let ghost o = texts(v@);
        v.push(row);
        assert(texts(v@) =~= o.push(items[i as int]));
        assert(head + items.take(i + 1) =~= (head + items.take(i as int)).push(items[i as int]));
        i += 1;
    }
    assert(items.take(i as int) =~= items);
    v
}

// ---------------------------------------------------------------------------
// Running, adding and removing
// ---------------------------------------------------------------------------
pub open spec fn named_text(before: Seq<char>, name: Seq<char>, after: Seq<char>) -> Seq<char> {
    before + name + after
}

fn about(before: &str, name: &str, after: &str) -> (r: String)
    ensures
        r@ == named_text(before@, name@, after@),
{
    let mut s = concat(before, name);
    s.append(after);
    s
}

/// The run of a preset, and what is said of it; or why there is none.
pub fn run(presets: &Vec<Preset>, name: &str) -> (r: Result<(String, RunOptions), String>)
    ensures
        match preset_named(views(presets@), name@) {
            Some(p) => {
                &&& r is Ok
                &&& r->Ok_0.0@ == "Running preset: "@ + p.name
                &&& r->Ok_0.1@ == (RunOptionsView { filter: Some(p.filter), no_build: p.no_build })
            },
            None => r is Err && r->Err_0@ == named_text("Preset '"@, name@, "' not found."@),
        },
{
    match find_preset(presets, name) {
        Some(i) => {
            let p = &presets[i];
            let options = RunOptions { filter: Some(p.filter.clone()), no_build: p.no_build };
            Ok((concat("Running preset: ", p.name.as_str()), options))
        },
        None => Err(about("Preset '", name, "' not found.")),
    }
}

/// The presets with one more, in place of any of the same name.
pub open spec fn with_preset(presets: Seq<PresetView>, p: PresetView) -> Seq<PresetView> {
    without_preset(presets, p.name).push(p)
}

pub fn add(presets: &mut Vec<Preset>, name: &str, filter: &str, build: bool) -> (r: String)
    ensures
        views(final(presets)@) == with_preset(
            views(old(presets)@),
            PresetView { name: name@, filter: filter@, no_build: !build },
        ),
        r@ == named_text("Preset '"@, name@, "' added successfully."@),
{
    let mut kept = drop_presets(presets, name);
    let preset = Preset { name: name.to_owned(), filter: filter.to_owned(), no_build: !build };
    let ghost o = views(kept@);
    kept.push(preset);
    assert(views(kept@) =~= o.push(preset@));
    *presets = kept;
    about("Preset '", name, "' added successfully.")
}

pub fn remove(presets: &mut Vec<Preset>, name: &str) -> (r: String)
    ensures
        views(final(presets)@) == without_preset(views(old(presets)@), name@),
        r@ == named_text(
            "Preset '"@,
            name@,
            if preset_named(views(old(presets)@), name@) is Some {
                "' removed successfully."@
            } else {
                "' not found."@
            },
        ),
{
    let found = find_preset(presets, name).is_some();
    *presets = drop_presets(presets, name);
    if found {
        about("Preset '", name, "' removed successfully.")
    } else {
        about("Preset '", name, "' not found.")
    }
}

proof fn lemma_not_named(presets: Seq<PresetView>, name: Seq<char>)
    requires
        forall|i: int| 0 <= i < presets.len() ==> (#[trigger] presets[i]).name != name,
    ensures
        preset_named(presets, name) is None,
    decreases presets.len(),
{
    if presets.len() > 0 {
        let rest = presets.drop_first();
        assert forall|i: int| 0 <= i < rest.len() implies (#[trigger] rest[i]).name != name by {
            assert(rest[i] == presets[i + 1]);
        }
        lemma_not_named(rest, name);
    }
}

proof fn lemma_without(presets: Seq<PresetView>, name: Seq<char>)
    ensures
        forall|i: int|
            0 <= i < without_preset(presets, name).len() ==> (#[trigger] without_preset(
                presets,
                name,
            )[i]).name != name,
    decreases presets.len(),
{
    if presets.len() > 0 {
        lemma_without(presets.drop_last(), name);
        let w = without_preset(presets.drop_last(), name);
        let r = without_preset(presets, name);
        assert forall|i: int| 0 <= i < r.len() implies (#[trigger] r[i]).name != name by {
            if i < w.len() {
                assert(w[i].name != name);
                assert(r[i] == w[i]);
            }
        }
    }
}

proof fn lemma_named_last(presets: Seq<PresetView>, p: PresetView)
    requires
        forall|i: int| 0 <= i < presets.len() ==> (#[trigger] presets[i]).name != p.name,
    ensures
        preset_named(presets.push(p), p.name) == Some(p),
    decreases presets.len(),
{
    let all = presets.push(p);
    if presets.len() > 0 {
        let rest = presets.drop_first();
        assert forall|i: int| 0 <= i < rest.len() implies (#[trigger] rest[i]).name != p.name by {
            assert(rest[i] == presets[i + 1]);
        }
        lemma_named_last(rest, p);
        assert(all.drop_first() =~= rest.push(p));
        assert(all[0] == presets[0]);
    }
}

/// A preset that was added is found; one that was removed is not.
pub proof fn law_added_presets_are_found(presets: Seq<PresetView>, p: PresetView)
    ensures
        preset_named(with_preset(presets, p), p.name) == Some(p),
        preset_named(without_preset(presets, p.name), p.name) is None,
{
    lemma_without(presets, p.name);
    lemma_not_named(without_preset(presets, p.name), p.name);
    lemma_named_last(without_preset(presets, p.name), p);
}

/// Removing a preset leaves the others, in the order that they had.
pub proof fn law_other_presets_stay(presets: Seq<PresetView>, name: Seq<char>)
    ensures
        without_preset(presets, name) == presets.filter(|p: PresetView| p.name != name),
    decreases presets.len(),
{
    reveal(Seq::filter);
    if presets.len() > 0 {
        law_other_presets_stay(presets.drop_last(), name);
    }
}

/// A name stands for the first preset that has it.
pub proof fn law_names_stand_for_the_first(presets: Seq<PresetView>, name: Seq<char>, i: int)
    requires
        0 <= i < presets.len(),
        presets[i].name == name,
        forall|j: int| 0 <= j < i ==> (#[trigger] presets[j]).name != name,
    ensures
        preset_named(presets, name) == Some(presets[i]),
    decreases i,
{
    if i > 0 {
        let rest = presets.drop_first();
        assert(presets[0].name != name);
        assert forall|j: int| 0 <= j < i - 1 implies (#[trigger] rest[j]).name != name by {
            assert(presets[j + 1].name != name);
        }
        law_names_stand_for_the_first(rest, name, i - 1);
    }
}

/// Every preset has a row below the headings, in order. Where name and filter fit
/// their columns, they begin at the same places in all rows.
pub proof fn law_presets_are_listed(presets: Seq<PresetView>, i: int)
    requires
        0 <= i < presets.len(),
        presets[i].name.len() <= 20,
        presets[i].filter.len() <= 40,
    ensures
        ({
            let lines = preset_lines(presets);
            let row = lines[i + 2];
            &&& lines.len() == presets.len() + 2
            &&& row.take(presets[i].name.len() as int) == presets[i].name
            &&& row.subrange(23, 23 + presets[i].filter.len() as int) == presets[i].filter
            &&& row.skip(66) == if presets[i].no_build {
                "true"@
            } else {
                "false"@
            }
        }),
{
    let p = presets[i];
    law_padding_fills_up(p.name, 20, ' ');
    law_padding_fills_up(p.filter, 40, ' ');
    reveal_strlit(" | ");
    let lines = preset_lines(presets);
    let row = preset_row(p);
    assert(lines[i + 2] == row);
    assert(row.take(p.name.len() as int) =~= padded(p.name, 20, ' ').take(p.name.len() as int));
    assert(row.subrange(23, 23 + p.filter.len() as int) =~= padded(p.filter, 40, ' ').take(
        p.filter.len() as int,
    ));
    assert(row.skip(66) =~= yes_or_no(p.no_build));
}

} // verus!
