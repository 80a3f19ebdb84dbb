//! `dotest config exclude`: categories that are left out of every run.

use vstd::prelude::*;

use crate::text::{concat, same_text, texts};

verus! {

pub open spec fn category_text(before: Seq<char>, category: Seq<char>, after: Seq<char>) -> Seq<
    char,
> {
    before + category + after
}

fn about(category: &str, after: &str) -> (r: String)
    ensures
        r@ == category_text("Category '"@, category@, after@),
{
    let mut s = concat("Category '", category);
    s.append(after);
    s
}

/// The categories, with one more unless it is among them.
pub open spec fn with_category(categories: Seq<Seq<char>>, category: Seq<char>) -> Seq<Seq<char>> {
    if categories.contains(category) {
        categories
    } else {
        categories.push(category)
    }
}

/// The categories without one of them.
pub open spec fn without_category(categories: Seq<Seq<char>>, category: Seq<char>) -> Seq<
    Seq<char>,
>
    decreases categories.len(),
{
    if categories.len() == 0 {
        Seq::empty()
    } else if categories.last() == category {
        without_category(categories.drop_last(), category)
    } else {
        without_category(categories.drop_last(), category).push(categories.last())
    }
}

fn has_category(categories: &Vec<String>, category: &str) -> (r: bool)
    ensures
        r == texts(categories@).contains(category@),
{
    let ghost all = texts(categories@);
    let mut i: usize = 0;
    while i < categories.len()
        invariant
            all == texts(categories@),
            i <= categories@.len(),
            forall|j: int| 0 <= j < i ==> #[trigger] all[j] != category@,
        decreases categories@.len() - i,
    {
        assert(all[i as int] == categories@[i as int]@);
        if same_text(categories[i].as_str(), category) {
            return true;
        }
        i += 1;
    }
    false
}

/// Leaves a category out of every run, and says so.
pub fn execute_exclude_add(categories: &mut Vec<String>, category: &str) -> (r: String)
    ensures
        texts(final(categories)@) == with_category(texts(old(categories)@), category@),
        r@ == category_text("Category '"@, category@, "' added to exclusions."@),
{
    let ghost o = texts(categories@);
    if !has_category(categories, category) {
        categories.push(category.to_owned());
        assert(texts(categories@) =~= o.push(category@));
    }
    about(category, "' added to exclusions.")
}

/// Takes a category back in, and says whether it had been left out.
pub fn execute_exclude_remove(categories: &mut Vec<String>, category: &str) -> (r: String)
    ensures
        texts(final(categories)@) == without_category(texts(old(categories)@), category@),
        r@ == category_text(
            "Category '"@,
            category@,
            if texts(old(categories)@).contains(category@) {
                "' removed from exclusions."@
            } else {
                "' was not in exclusions."@
            },
        ),
{
    let ghost all = texts(categories@);
    let found = has_category(categories, category);
    let mut kept: Vec<String> = Vec::new();
    let mut i: usize = 0;
    assert(texts(kept@) =~= without_category(all.take(0), category@));
    while i < categories.len()
        invariant
            all == texts(categories@),
            i <= categories@.len(),
            texts(kept@) == without_category(all.take(i as int), category@),
        decreases categories@.len() - i,
    {
        assert(all.take(i + 1).drop_last() =~= all.take(i as int));
        assert(all.take(i + 1).last() == categories@[i as int]@);
        if !same_text(categories[i].as_str(), category) {
            let ghost o = texts(kept@);
            kept.push(categories[i].clone());
            assert(texts(kept@) =~= o.push(categories@[i as int]@));
        }
        i += 1;
    }
    assert(all.take(i as int) =~= all);
    *categories = kept;
    if found {
        about(category, "' removed from exclusions.")
    } else {
        about(category, "' was not in exclusions.")
    }
}

/// The lines that list the categories.
pub open spec fn category_lines(categories: Seq<Seq<char>>) -> Seq<Seq<char>> {
    if categories.len() == 0 {
        seq!["No excluded categories."@]
    } else {
        seq!["Excluded Categories:"@] + categories.map_values(|c: Seq<char>| "  - "@ + c)
    }
}

pub fn execute_exclude_list(categories: &Vec<String>) -> (r: Vec<String>)
    ensures
        texts(r@) == category_lines(texts(categories@)),
{
    let ghost all = texts(categories@);
    assert(all.len() == categories@.len());
    if categories.len() == 0 {
        let v: Vec<String> = vec!["No excluded categories.".to_owned()];
        assert(texts(v@) =~= category_lines(all));
        return v;
    }
    let ghost head = seq!["Excluded Categories:"@];
    let ghost items = all.map_values(|c: Seq<char>| "  - "@ + c);
    let mut v: Vec<String> = vec!["Excluded Categories:".to_owned()];
    let mut i: usize = 0;
    assert(texts(v@) =~= head + items.take(0));
    while i < categories.len()
        invariant
            all == texts(categories@),
            items == all.map_values(|c: Seq<char>| "  - "@ + c),
            i <= categories@.len(),
            texts(v@) == head + items.take(i as int),
        decreases categories@.len() - i,
    {
        let line = concat("  - ", categories[i].as_str());
        assert(line@ == items[i as int]);
        let ghost o = texts(v@);
        v.push(line);
        assert(texts(v@) =~= o.push(items[i as int]));
        assert(head + items.take(i + 1) =~= (head + items.take(i as int)).push(items[i as int]));
        i += 1;
    }
    assert(items.take(i as int) =~= items);
    v
}

proof fn lemma_without(categories: Seq<Seq<char>>, category: Seq<char>)
    ensures
        !without_category(categories, category).contains(category),
        forall|c: Seq<char>|
            c != category ==> (categories.contains(c) <==> #[trigger] without_category(
                categories,
                category,
            ).contains(c)),
    decreases categories.len(),
{
    if categories.len() > 0 {
        let init = categories.drop_last();
        let last = categories.last();
        let w = without_category(init, category);
        lemma_without(init, category);
        assert forall|c: Seq<char>| categories.contains(c) <==> init.contains(c) || c == last by {
            if init.contains(c) {
                let i = choose|i: int| 0 <= i < init.len() && init[i] == c;
                assert(categories[i] == c);
            }
            if c == last {
                assert(categories[categories.len() - 1] == c);
            }
            if categories.contains(c) {
                let i = choose|i: int| 0 <= i < categories.len() && categories[i] == c;
                if i < init.len() {
                    assert(init[i] == c);
                }
            }
        }
        if last != category {
            assert forall|c: Seq<char>| w.push(last).contains(c) <==> w.contains(c) || c == last by {
                if w.contains(c) {
                    let i = choose|i: int| 0 <= i < w.len() && w[i] == c;
                    assert(w.push(last)[i] == c);
                }
                if c == last {
                    assert(w.push(last)[w.len() as int] == c);
                }
            }
        }
        let r = without_category(categories, category);
        assert forall|c: Seq<char>| c != category implies (categories.contains(c)
            <==> #[trigger] r.contains(c)) by {
            assert(init.contains(c) <==> w.contains(c));
            if last == category {
                assert(r == w);
            } else {
                assert(r == w.push(last));
            }
        }
    }
}

/// A category that was added is left out, and one that was removed is not; the
/// others stay as they were.
pub proof fn law_exclusions_are_kept(categories: Seq<Seq<char>>, category: Seq<char>, c: Seq<char>)
    ensures
        with_category(categories, category).contains(category),
        !without_category(categories, category).contains(category),
        c != category ==> (with_category(categories, category).contains(c)
            <==> categories.contains(c)),
        c != category ==> (without_category(categories, category).contains(c)
            <==> categories.contains(c)),
{
    lemma_without(categories, category);
    let p = categories.push(category);
    assert(p[categories.len() as int] == category);
    if categories.contains(c) {
        let i = choose|i: int| 0 <= i < categories.len() && categories[i] == c;
        assert(p[i] == c);
    }
}

/// Removing a category leaves the others, in the order that they had; one that is
/// there already is not added again.
pub proof fn law_other_categories_stay(categories: Seq<Seq<char>>, category: Seq<char>)
    ensures
        without_category(categories, category) == categories.filter(
            |c: Seq<char>| c != category,
        ),
        with_category(categories, category).take(categories.len() as int) == categories,
        with_category(categories, category).len() == categories.len() <==> categories.contains(
            category,
        ),
    decreases categories.len(),
{
    reveal(Seq::filter);
    assert(with_category(categories, category).take(categories.len() as int) =~= categories);
    if categories.len() > 0 {
        law_other_categories_stay(categories.drop_last(), category);
    }
}

/// Every category has a line below the heading, in order, at the end of which it
/// stands.
pub proof fn law_categories_are_listed(categories: Seq<Seq<char>>, i: int)
    requires
        0 <= i < categories.len(),
    ensures
        category_lines(categories).len() == categories.len() + 1,
        category_lines(categories)[i + 1].skip(4) == categories[i],
{
    reveal_strlit("  - ");
    assert(category_lines(categories)[i + 1] == "  - "@ + categories[i]);
    assert(("  - "@ + categories[i]).skip(4) =~= categories[i]);
}

} // verus!
