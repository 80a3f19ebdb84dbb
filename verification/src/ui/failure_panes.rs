//! Where the panes of the summary of failures lie, and how far the details can be
//! scrolled in theirs.

use vstd::prelude::*;

use crate::text::texts;
use crate::ui::failure_keys::{details_scrolled, failures_key, picked};
use crate::ui::failure_summary::{
    compute_failure_summary_list_pane_cols, detail_area, failed_summary_detail_rect,
    failed_summary_list_rect, list_area, list_cols,
};
use crate::ui::keys::{Key, KeyPress};
use crate::ui::layout::{inner, inside_border, output_wrapped_scroll_max, scroll_max, Area};
use crate::ui::session::{Session, SessionView};

verus! {

/// The inside of the list of failures.
pub open spec fn list_inside(s: SessionView, area: Area) -> Area {
    inside_border(list_area(area, list_cols(s.failure.cols, area.width)))
}

/// The inside of the pane with the details.
pub open spec fn detail_inside(s: SessionView, area: Area) -> Area {
    inside_border(detail_area(area, list_cols(s.failure.cols, area.width)))
}

/// The details of the failure that is picked out, if there is one.
pub open spec fn shown_details(s: SessionView) -> Seq<Seq<char>> {
    if s.failed.len() == 0 {
        Seq::empty()
    } else {
        picked(s).details
    }
}

/// How far the details can be scrolled.
pub open spec fn details_scroll_max(s: SessionView, area: Area) -> u16 {
    let pane = detail_inside(s, area);
    scroll_max(shown_details(s), pane.width, pane.height)
}

impl Session {
    /// The inside of the list of failures.
    pub fn list_pane(&self, area: Area) -> (r: Area)
        ensures
            r == list_inside(self@, area),
    {
        inner(
            failed_summary_list_rect(
                area,
                compute_failure_summary_list_pane_cols(self.failure.cols, area.width),
            ),
        )
    }

    /// The inside of the pane with the details.
    pub fn detail_pane(&self, area: Area) -> (r: Area)
        ensures
            r == detail_inside(self@, area),
    {
        inner(
            failed_summary_detail_rect(
                area,
                compute_failure_summary_list_pane_cols(self.failure.cols, area.width),
            ),
        )
    }

    /// How far the details can be scrolled.
    pub fn details_end(&self, area: Area) -> (r: u16)
        ensures
            r == details_scroll_max(self@, area),
    {
        let pane = self.detail_pane(area);
        assert(self@.failed.len() == self.failed@.len());
        if self.failed.len() == 0 {
            let none: Vec<String> = Vec::new();
            assert(texts(none@) =~= Seq::<Seq<char>>::empty());
            output_wrapped_scroll_max(&none, pane.width, pane.height)
        } else {
            let details = &self.picked_failure().details;
            output_wrapped_scroll_max(details, pane.width, pane.height)
        }
    }
}

/// Home jumps to the top of the details and End to their bottom.
pub proof fn law_home_and_end_jump(s: SessionView, area: Area)
    requires
        !s.failure.help,
    ensures
        ({
            let home = KeyPress { key: Key::Home, control: false, shift: false };
            let end = KeyPress { key: Key::End, control: false, shift: false };
            let max = details_scroll_max(s, area);
            &&& failures_key(s, home, area).0 == details_scrolled(s, 0)
            &&& failures_key(s, end, area).0 == details_scrolled(s, max)
        }),
{
}

} // verus!
