//! Queries on HTML documents, made through the `scraper` crate.
//!
//! A document is given by its source text and a selector by its text; each
//! query parses both and answers with the texts it found, so that what it
//! returns is a function of those texts alone.
use vstd::prelude::*;

verus! {

/// Whether `scraper::Selector::parse` accepts `sel` as a CSS selector group.
pub uninterp spec fn valid_selector(sel: Seq<char>) -> bool;

/// For each element that `sel` matches in the document `html`, in the order
/// that `Html::select` yields them, the texts of its descendant text nodes.
pub uninterp spec fn matched_text_nodes(html: Seq<char>, sel: Seq<char>) -> Seq<Seq<Seq<char>>>;

/// For each element that `outer` matches in the document `html`, and within
/// it for each element that `inner` matches, the texts of its text nodes.
pub uninterp spec fn nested_text_nodes(html: Seq<char>, outer: Seq<char>, inner: Seq<char>) -> Seq<
    Seq<Seq<Seq<char>>>,
>;

/// For each element that `table` matches in `html`, for each element that
/// `row` matches within it, for each element that `cell` matches within
/// that, the texts of its text nodes.
pub uninterp spec fn cell_text_nodes(
    html: Seq<char>,
    table: Seq<char>,
    row: Seq<char>,
    cell: Seq<char>,
) -> Seq<Seq<Seq<Seq<Seq<char>>>>>;

/// For each element that `row` matches within an element that `table`
/// matches in `html` (tables in the order that `Html::select` yields them,
/// then rows in document order), the first element that `field` matches
/// within it, if any: the texts of its text nodes and the value of its
/// attribute `attr`.
pub uninterp spec fn first_field_matches(
    html: Seq<char>,
    table: Seq<char>,
    row: Seq<char>,
    field: Seq<char>,
    attr: Seq<char>,
) -> Seq<Option<(Seq<Seq<char>>, Option<Seq<char>>)>>;

/// The texts of the text nodes under one element, in document order.
pub type ElementText = Vec<String>;

/// The first match of a field selector: its text nodes and an attribute.
pub type FieldMatch = Option<(ElementText, Option<String>)>;

/// Relies on `scraper::Html::parse_document`, `Html::select` and
/// `ElementRef::text`: the text nodes of every element that `sel` matches.
#[verifier::external_body]
pub(crate) fn select_text_nodes(html: &str, sel: &str) -> (r: Option<Vec<ElementText>>)
    ensures
        r is Some <==> valid_selector(sel@),
        r matches Some(v) ==> v.deep_view() == matched_text_nodes(html@, sel@),
{
    let selector = scraper::Selector::parse(sel).ok()?;
    let doc = scraper::Html::parse_document(html);
    Some(doc.select(&selector).map(|e| e.text().map(|t| t.to_string()).collect()).collect())
}

/// Relies on `scraper::Html::parse_document`, `Html::select`,
/// `ElementRef::select` and `ElementRef::text`: the text nodes of the
/// `inner` matches within each `outer` match.
#[verifier::external_body]
pub(crate) fn select_nested_text_nodes(html: &str, outer: &str, inner: &str) -> (r: Option<Vec<Vec<ElementText>>>)
    ensures
        r is Some <==> (valid_selector(outer@) && valid_selector(inner@)),
        r matches Some(v) ==> v.deep_view() == nested_text_nodes(html@, outer@, inner@),
{
    let o = scraper::Selector::parse(outer).ok()?;
    let i = scraper::Selector::parse(inner).ok()?;
    let doc = scraper::Html::parse_document(html);
    Some(
        doc.select(&o).map(
            |e| e.select(&i).map(|c| c.text().map(|t| t.to_string()).collect()).collect(),
        ).collect(),
    )
}

/// Relies on `scraper::Html::parse_document`, `Html::select`,
/// `ElementRef::select` and `ElementRef::text`: the text nodes of the cells
/// of the rows of each table.
#[verifier::external_body]
pub(crate) fn select_cell_text_nodes(html: &str, table: &str, row: &str, cell: &str) -> (r: Option<Vec<Vec<Vec<ElementText>>>>)
    ensures
        r is Some <==> (valid_selector(table@) && valid_selector(row@) && valid_selector(cell@)),
        r matches Some(v) ==> v.deep_view() == cell_text_nodes(html@, table@, row@, cell@),
{
    let (t, r, c) = (
        scraper::Selector::parse(table).ok()?,
        scraper::Selector::parse(row).ok()?,
        scraper::Selector::parse(cell).ok()?,
    );
    let doc = scraper::Html::parse_document(html);
    let text = |e: scraper::ElementRef| e.text().map(|s| s.to_string()).collect::<Vec<String>>();
    Some(
        doc.select(&t).map(
            |te| te.select(&r).map(|re| re.select(&c).map(text).collect()).collect(),
        ).collect(),
    )
}

/// Relies on `scraper::Html::parse_document`, `Html::select`,
/// `ElementRef::select`, `ElementRef::text` and `ElementRef::attr`: for each
/// row of each table, the first `field` match with its text nodes and
/// attribute `attr`.
#[verifier::external_body]
pub(crate) fn select_first_fields(html: &str, table: &str, row: &str, field: &str, attr: &str) -> (r: Option<Vec<FieldMatch>>)
    ensures
        r is Some <==> (valid_selector(table@) && valid_selector(row@) && valid_selector(field@)),
        r matches Some(v) ==> v.deep_view() == first_field_matches(
            html@,
            table@,
            row@,
            field@,
            attr@,
        ),
{
    let (t, r, f) = (
        scraper::Selector::parse(table).ok()?,
        scraper::Selector::parse(row).ok()?,
        scraper::Selector::parse(field).ok()?,
    );
    let doc = scraper::Html::parse_document(html);
    let first = |re: scraper::ElementRef| re.select(&f).next().map(
        |e| (e.text().map(|s| s.to_string()).collect(), e.attr(attr).map(|a| a.to_string())),
    );
    Some(doc.select(&t).flat_map(|te| te.select(&r).map(first).collect::<Vec<_>>()).collect())
}

} // verus!
