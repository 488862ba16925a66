//! Marker-guarded insertion into the head region of the base layout.
//!
//! A fragment is spliced in before the closing tag of the head region unless
//! its marker, a substring that tells the fragment is there, already stands
//! in the layout. Every feature that adds a stylesheet or a script to the
//! layout goes through this one edit, which is what makes it repeatable.
use crate::error::ScaffoldError;
use crate::text::{
    contains, find, index_of, insert_at, inserted, lemma_index_of_is_first, lemma_inserted_once,
    occurs_at, occurs_in, occurs_once, only_at,
};
use vstd::prelude::*;
use vstd::string::*;

verus! {

/// The closing tag of the head region, before which fragments are placed.
pub const HEAD_CLOSE: &'static str = "</head>";

/// The layout after an injection was asked for: unchanged where the marker
/// is present or the anchor is missing, else with `fragment` directly before
/// the leftmost closing tag of the head region.
pub open spec fn injected(document: Seq<char>, fragment: Seq<char>, marker: Seq<char>) -> Seq<
    char,
> {
    if occurs_in(document, marker) {
        document
    } else {
        match index_of(document, HEAD_CLOSE@) {
            Some(at) => inserted(document, at, fragment),
            None => document,
        }
    }
}

/// What an injection reports: `Ok(false)` where the marker was there,
/// `Ok(true)` where the fragment went in, and a refusal where the layout has
/// no anchor.
pub open spec fn injection_report(document: Seq<char>, marker: Seq<char>) -> Result<
    bool,
    ScaffoldError,
> {
    if occurs_in(document, marker) {
        Ok(false)
    } else if occurs_in(document, HEAD_CLOSE@) {
        Ok(true)
    } else {
        Err(ScaffoldError::AnchorNotFound)
    }
}

/// The layout after `times` injections of the same fragment in a row.
pub open spec fn injected_times(
    document: Seq<char>,
    fragment: Seq<char>,
    marker: Seq<char>,
    times: nat,
) -> Seq<char>
    decreases times,
{
    if times == 0 {
        document
    } else {
        injected(injected_times(document, fragment, marker, (times - 1) as nat), fragment, marker)
    }
}

/// What an injection marked by `identity` into `base_html` would report.
pub fn check_injection(base_html: &str, identity: &str) -> (report: Result<bool, ScaffoldError>)
    ensures
        report == injection_report(base_html@, identity@),
{
    if contains(base_html, identity) {
        Ok(false)
    } else if contains(base_html, HEAD_CLOSE) {
        Ok(true)
    } else {
        Err(ScaffoldError::AnchorNotFound)
    }
}

/// Places `tag` before the closing tag of the head region of `base_html`,
/// unless `identity` already stands in it. Reports whether it inserted.
pub fn add_tag_to_head(base_html: &mut String, tag: &str, identity: &str) -> (report: Result<
    bool,
    ScaffoldError,
>)
    ensures
        report == injection_report(old(base_html)@, identity@),
        final(base_html)@ == injected(old(base_html)@, tag@, identity@),
{
    if contains(base_html.as_str(), identity) {
        return Ok(false);
    }
    match find(base_html.as_str(), HEAD_CLOSE) {
        Some(at) => {
            let edited = insert_at(base_html.as_str(), at, tag);
            *base_html = edited;
            Ok(true)
        },
        None => Err(ScaffoldError::AnchorNotFound),
    }
}

/// Once the marker stands in the layout, further injections change nothing.
pub proof fn lemma_injection_settles(
    document: Seq<char>,
    fragment: Seq<char>,
    marker: Seq<char>,
    times: nat,
)
    requires
        occurs_in(document, marker),
    ensures
        injected_times(document, fragment, marker, times) == document,
    decreases times,
{
    if times > 0 {
        lemma_injection_settles(document, fragment, marker, (times - 1) as nat);
    }
}

/// Any number of injections, from one on, leaves what the first one left,
/// provided the first one left the marker in the layout.
pub proof fn lemma_injection_idempotent(
    document: Seq<char>,
    fragment: Seq<char>,
    marker: Seq<char>,
    times: nat,
)
    requires
        times >= 1,
        occurs_in(injected(document, fragment, marker), marker),
    ensures
        injected_times(document, fragment, marker, times) == injected(document, fragment, marker),
    decreases times,
{
    if times > 1 {
        lemma_injection_idempotent(document, fragment, marker, (times - 1) as nat);
    } else {
        assert(injected_times(document, fragment, marker, 0) == document);
    }
}

/// Marker uniqueness: where one injection leaves the marker exactly once in
/// the layout, so does every number of injections from one on.
pub proof fn lemma_marker_stays_unique(
    document: Seq<char>,
    fragment: Seq<char>,
    marker: Seq<char>,
    times: nat,
)
    requires
        times >= 1,
        occurs_once(injected(document, fragment, marker), marker),
    ensures
        occurs_once(injected_times(document, fragment, marker, times), marker),
{
    let first = injected(document, fragment, marker);
    let at = choose|at: int| only_at(first, marker, at);
    assert(occurs_at(first, marker, at));
    lemma_injection_idempotent(document, fragment, marker, times);
}

/// A first injection leaves the marker exactly once in a layout that has
/// the anchor and not the marker, where the fragment holds the marker once
/// and neither begins nor ends with a character of it.
pub proof fn lemma_first_injection_unique(
    document: Seq<char>,
    fragment: Seq<char>,
    marker: Seq<char>,
)
    requires
        occurs_in(document, HEAD_CLOSE@),
        !occurs_in(document, marker),
        occurs_once(fragment, marker),
        fragment.len() > 0,
        !marker.contains(fragment.first()),
        !marker.contains(fragment.last()),
    ensures
        occurs_once(injected(document, fragment, marker), marker),
{
    lemma_index_of_is_first(document, HEAD_CLOSE@);
    lemma_inserted_once(document, index_of(document, HEAD_CLOSE@).unwrap(), fragment, marker);
}

/// A fragment that holds the marker brings it into the text it is spliced
/// into.
pub proof fn lemma_fragment_brings_marker(
    text: Seq<char>,
    at: int,
    fragment: Seq<char>,
    marker: Seq<char>,
)
    requires
        0 <= at <= text.len(),
        occurs_in(fragment, marker),
    ensures
        occurs_in(inserted(text, at, fragment), marker),
{
    let inner = choose|inner: int| occurs_at(fragment, marker, inner);
    let out = inserted(text, at, fragment);
    assert(out.subrange(at + inner, at + inner + marker.len()) =~= fragment.subrange(
        inner,
        inner + marker.len(),
    ));
    assert(occurs_at(out, marker, at + inner));
}

/// An injection that went through leaves the marker in the layout, where
/// the fragment holds it.
pub proof fn lemma_injected_holds_marker(
    layout: Seq<char>,
    fragment: Seq<char>,
    marker: Seq<char>,
)
    requires
        occurs_in(fragment, marker),
        injection_report(layout, marker) is Ok,
    ensures
        occurs_in(injected(layout, fragment, marker), marker),
{
    if !occurs_in(layout, marker) {
        lemma_index_of_is_first(layout, HEAD_CLOSE@);
        lemma_fragment_brings_marker(
            layout,
            index_of(layout, HEAD_CLOSE@).unwrap(),
            fragment,
            marker,
        );
    }
}

} // verus!
