//! Runs from the command line: their options, and the categories that are left
//! out of them.

use vstd::prelude::*;

use crate::text::{concat, join, joined, opt_str, opt_text, texts};

verus! {

/// How `dotnet test` is to be run.
#[derive(Clone, Debug)]
pub struct RunOptions {
    pub filter: Option<String>,
    pub no_build: bool,
}

#[verifier::ext_equal]
pub struct RunOptionsView {
    pub filter: Option<Seq<char>>,
    pub no_build: bool,
}

impl View for RunOptions {
    type V = RunOptionsView;

    open spec fn view(&self) -> RunOptionsView {
        RunOptionsView { filter: opt_text(self.filter), no_build: self.no_build }
    }
}

/// One clause per category that is left out.
pub open spec fn exclusions(categories: Seq<Seq<char>>) -> Seq<Seq<char>> {
    categories.map_values(|c: Seq<char>| "TestCategory!="@ + c)
}

/// The filter, with the categories left out that are to be.
pub open spec fn composed_filter(
    filter: Option<Seq<char>>,
    categories: Seq<Seq<char>>,
) -> Option<Seq<char>> {
    let left_out = joined(exclusions(categories), "&"@);
    match filter {
        Some(f) => if f.len() == 0 {
            composed_filter_of_none(categories)
        } else if categories.len() == 0 {
            Some(f)
        } else {
            Some("("@ + f + ")&"@ + left_out)
        },
        None => composed_filter_of_none(categories),
    }
}

/// The filter where only categories are left out.
pub open spec fn composed_filter_of_none(categories: Seq<Seq<char>>) -> Option<Seq<char>> {
    if categories.len() == 0 {
        None
    } else {
        Some(joined(exclusions(categories), "&"@))
    }
}

pub fn compose_test_filter(filter: Option<&str>, categories: &Vec<String>) -> (r: Option<String>)
    ensures
        opt_text(r) == composed_filter(opt_str(filter), texts(categories@)),
{
    let ghost all = exclusions(texts(categories@));
    let mut clauses: Vec<String> = Vec::new();
    let mut i: usize = 0;
    assert(texts(clauses@) =~= all.take(0));
    while i < categories.len()
        invariant
            all == exclusions(texts(categories@)),
            i <= categories@.len(),
            texts(clauses@) == all.take(i as int),
        decreases categories@.len() - i,
    {
        let clause = concat("TestCategory!=", categories[i].as_str());
        assert(clause@ == all[i as int]);
        let ghost o = texts(clauses@);
        clauses.push(clause);
        assert(texts(clauses@) =~= o.push(clause@));
        assert(all.take(i + 1) =~= all.take(i as int).push(all[i as int]));
        i += 1;
    }
    assert(all.take(i as int) =~= all);
    let left_out = join(&clauses, "&");
    assert(texts(categories@).len() == categories@.len());
    let wanted: Option<&str> = match filter {
        Some(f) => if f.is_empty() {
            None
        } else {
            Some(f)
        },
        None => None,
    };
    match wanted {
        Some(f) => {
            if categories.len() == 0 {
                Some(f.to_owned())
            } else {
                let mut s = concat("(", f);
                s.append(")&");
                s.append(left_out.as_str());
                Some(s)
            }
        },
        None => if categories.len() == 0 {
            None
        } else {
            Some(left_out)
        },
    }
}

/// The arguments of `dotnet` for a run from the command line.
pub open spec fn option_arguments(o: RunOptionsView, categories: Seq<Seq<char>>) -> Seq<Seq<char>> {
    seq!["test"@] + (match composed_filter(o.filter, categories) {
        Some(f) => seq!["--filter"@, f],
        None => seq![],
    }) + (if o.no_build {
        seq!["--no-build"@]
    } else {
        seq![]
    })
}

pub fn dotnet_arguments(options: &RunOptions, categories: &Vec<String>) -> (r: Vec<String>)
    ensures
        texts(r@) == option_arguments(options@, texts(categories@)),
{
    let mut v: Vec<String> = vec!["test".to_owned()];
    let filter = match &options.filter {
        Some(f) => compose_test_filter(Some(f.as_str()), categories),
        None => compose_test_filter(None, categories),
    };
    match filter {
        Some(f) => {
            v.push("--filter".to_owned());
            v.push(f);
        },
        None => {},
    }
    if options.no_build {
        v.push("--no-build".to_owned());
    }
    assert(texts(v@) =~= option_arguments(options@, texts(categories@)));
    v
}

} // verus!
