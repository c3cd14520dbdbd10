//! The markup document as the parser sees it: a parsed tree that is asked
//! for elements by CSS selector, and elements that are asked for an
//! attribute or their text. Parsing and matching are scraper's.

use vstd::prelude::*;

verus! {

/// `scraper::Html`, a parsed document; opaque here.
#[verifier::external_type_specification]
#[verifier::external_body]
pub struct ExHtml(scraper::Html);

/// `scraper::Selector`, a parsed CSS selector; opaque here.
#[verifier::external_type_specification]
#[verifier::external_body]
pub struct ExSelector(scraper::Selector);

/// `scraper::ElementRef`, an element of a parsed document; opaque here.
#[verifier::external_type_specification]
#[verifier::external_body]
pub struct ExElementRef<'a>(scraper::ElementRef<'a>);

/// The tree that `scraper::Html::parse_document` builds from `text`.
pub uninterp spec fn parsed_document(text: Seq<char>) -> scraper::Html;

/// The selector that `scraper::Selector::parse` reads from `css`, or `None`
/// where it reports an error.
pub uninterp spec fn parsed_selector(css: Seq<char>) -> Option<scraper::Selector>;

/// The elements that `scraper::Html::select` yields for `selector`, in the
/// order in which it yields them.
pub uninterp spec fn document_matches(
    doc: scraper::Html,
    selector: scraper::Selector,
) -> Seq<scraper::ElementRef<'static>>;

/// The first element that `scraper::ElementRef::select` yields for
/// `selector` among the descendants of `element`, if it yields any.
pub uninterp spec fn first_match(
    element: scraper::ElementRef<'static>,
    selector: scraper::Selector,
) -> Option<scraper::ElementRef<'static>>;

/// The value that `scraper::node::Element::attr` gives for the attribute
/// `name` of `element`, if the element has that attribute.
pub uninterp spec fn attribute_of(
    element: scraper::ElementRef<'static>,
    name: Seq<char>,
) -> Option<Seq<char>>;

/// The text nodes that `scraper::ElementRef::text` yields below `element`,
/// in the order in which it yields them.
pub uninterp spec fn text_of(element: scraper::ElementRef<'static>) -> Seq<Seq<char>>;

/// Calls `scraper::Html::parse_document`, which never fails. The contract
/// claims only that the tree is a function of the text.
#[verifier::external_body]
pub(crate) fn parse_html(text: &str) -> (doc: scraper::Html)
    ensures
        doc == parsed_document(text@),
{
    scraper::Html::parse_document(text)
}

/// Calls `scraper::Selector::parse`. The contract claims only that the
/// outcome is a function of the text: the selector, or `None` for scraper's
/// error.
#[verifier::external_body]
pub(crate) fn parse_selector(css: &str) -> (r: Option<scraper::Selector>)
    ensures
        r == parsed_selector(css@),
{
    match scraper::Selector::parse(css) {
        Ok(selector) => Some(selector),
        Err(_) => None,
    }
}

/// Calls `scraper::Html::select` and collects what it yields. The contract
/// claims only that the elements are a function of the tree and the
/// selector.
#[verifier::external_body]
pub(crate) fn select_all<'a>(doc: &'a scraper::Html, selector: &scraper::Selector) -> (r: Vec<
    scraper::ElementRef<'a>,
>)
    ensures
        r@ == document_matches(*doc, *selector),
{
    doc.select(selector).collect()
}

/// Calls `scraper::ElementRef::select` and takes the first element that it
/// yields. The contract claims only that the outcome is a function of the
/// element and the selector.
#[verifier::external_body]
pub(crate) fn select_first<'a>(element: scraper::ElementRef<'a>, selector: &scraper::Selector) -> (r:
    Option<scraper::ElementRef<'a>>)
    ensures
        r == first_match(element, *selector),
{
    element.select(selector).next()
}

/// Calls `scraper::node::Element::attr` on the element's node. The contract
/// claims only that the outcome is a function of the element and the name.
#[verifier::external_body]
pub(crate) fn attribute<'a>(element: scraper::ElementRef<'a>, name: &str) -> (r: Option<String>)
    ensures
        r.deep_view() == attribute_of(element, name@),
{
    match element.value().attr(name) {
        Some(value) => Some(value.to_string()),
        None => None,
    }
}

/// Calls `scraper::ElementRef::text` and collects the text nodes that it
/// yields. The contract claims only that they are a function of the
/// element.
#[verifier::external_body]
pub(crate) fn text_nodes<'a>(element: scraper::ElementRef<'a>) -> (r: Vec<String>)
    ensures
        r.deep_view() == text_of(element),
{
    element.text().map(|piece| piece.to_string()).collect()
}

} // verus!
