use vstd::prelude::*;

use crate::text::opt_view;

verus! {

/// For the document that `scraper::Html::parse_document` makes of `html`:
/// whether an element matches `selector` (as `scraper::Selector::parse`
/// reads it; a selector that does not parse matches nothing) and, for the
/// first such element in document order, the value of its attribute `attr`.
pub uninterp spec fn spec_first_attr(html: Seq<char>, selector: Seq<char>, attr: Seq<char>) -> Option<Option<Seq<char>>>;

/// For the document that `scraper::Html::parse_document` makes of `html`:
/// the first text node of the first element that matches `selector` (as
/// `scraper::Selector::parse` reads it), if both exist.
pub uninterp spec fn spec_first_text(html: Seq<char>, selector: Seq<char>) -> Option<Seq<char>>;

/// Calls `scraper::Html::select` with the selector that
/// `scraper::Selector::parse` reads from `selector`, on the document that
/// `scraper::Html::parse_document` makes of `html`, and reads the attribute
/// `attr` of the first element selected (`scraper::node::Element::attr`).
/// Stated: the outcome is a function of the three texts alone; HTML parsing
/// and selector matching take pages to state, so they stay behind the name.
#[verifier::external_body]
pub(crate) fn first_attr(html: &str, selector: &str, attr: &str) -> (res: Option<Option<String>>)
    ensures
        match res {
            None => spec_first_attr(html@, selector@, attr@) is None,
            Some(a) => spec_first_attr(html@, selector@, attr@) == Some(opt_view(a)),
        },
{
    let selector = match scraper::Selector::parse(selector) {
        Ok(s) => s,
        Err(_) => return None,
    };
    let document = scraper::Html::parse_document(html);
    match document.select(&selector).next() {
        Some(element) => match element.value().attr(attr) {
            Some(v) => Some(Some(v.to_owned())),
            None => Some(None),
        },
        None => None,
    }
}

/// Calls `scraper::Html::select` with the selector that
/// `scraper::Selector::parse` reads from `selector`, on the document that
/// `scraper::Html::parse_document` makes of `html`, and reads the first text
/// node of the first element selected (`scraper::ElementRef::text`).
/// Stated: the outcome is a function of the two texts alone.
#[verifier::external_body]
pub(crate) fn first_text(html: &str, selector: &str) -> (res: Option<String>)
    ensures
        opt_view(res) == spec_first_text(html@, selector@),
{
    let selector = match scraper::Selector::parse(selector) {
        Ok(s) => s,
        Err(_) => return None,
    };
    let document = scraper::Html::parse_document(html);
    match document.select(&selector).next() {
        Some(element) => match element.text().next() {
            Some(t) => Some(t.to_owned()),
            None => None,
        },
        None => None,
    }
}

} // verus!
