//! `dotest run`.

use vstd::prelude::*;

use crate::domain::filter::{build_filter, filter_for_input};
use crate::domain::runner::{RunOptions, RunOptionsView};
use crate::text::opt_str;

verus! {

/// The run that is asked for by a filter, or a part of a name, and by whether to
/// build first.
pub fn execute(filter_input: Option<&str>, build: bool) -> (r: RunOptions)
    ensures
        r@ == (RunOptionsView {
            filter: filter_for_input(opt_str(filter_input)),
            no_build: !build,
        }),
{
    RunOptions { filter: build_filter(filter_input), no_build: !build }
}

} // verus!
