//! From what a user types to a test filter expression.

use vstd::prelude::*;

use crate::text::{concat, contains_char, opt_text};

verus! {

/// The text holds one of the operators of filter expressions.
pub open spec fn looks_like_filter(s: Seq<char>) -> bool {
    s.contains('=') || s.contains('~') || s.contains('&') || s.contains('|')
}

/// Nothing for an empty input; a filter expression as it stands; anything else
/// as a substring of the fully qualified name.
pub open spec fn filter_for_input(input: Option<Seq<char>>) -> Option<Seq<char>> {
    match input {
        None => None,
        Some(s) => if s.len() == 0 {
            None
        } else if looks_like_filter(s) {
            Some(s)
        } else {
            Some("FullyQualifiedName~"@ + s)
        },
    }
}

pub fn build_filter(input: Option<&str>) -> (r: Option<String>)
    ensures
        opt_text(r) == filter_for_input(
            match input {
                Some(s) => Some(s@),
                None => None,
            },
        ),
{
    match input {
        None => None,
        Some(s) => {
            if s.is_empty() {
                None
            } else if contains_char(s, '=') || contains_char(s, '~') || contains_char(s, '&')
                || contains_char(s, '|') {
                Some(s.to_owned())
            } else {
                Some(concat("FullyQualifiedName~", s))
            }
        },
    }
}

/// A filter that was built passes through unchanged when it is given as input
/// again.
pub proof fn law_filter_is_stable(input: Option<Seq<char>>)
    ensures
        filter_for_input(filter_for_input(input)) == filter_for_input(input),
{
    if let Some(s) = input {
        reveal_strlit("FullyQualifiedName~");
        let built = "FullyQualifiedName~"@ + s;
        assert(built[18] == '~');
    }
}

/// What has an operator of the filter language in it is taken as a filter, as it
/// stands; nothing is made of nothing.
pub proof fn law_filters_pass_as_they_stand(s: Seq<char>, c: char)
    requires
        c == '=' || c == '~' || c == '&' || c == '|',
        s.contains(c),
    ensures
        filter_for_input(Some(s)) == Some(s),
        filter_for_input(None) is None,
        filter_for_input(Some(Seq::empty())) is None,
{
}

} // verus!
