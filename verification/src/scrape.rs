//! The crate's view of an HTML document: the text fragments of its table
//! rows.  The traversal itself is done by scraper behind two trusted
//! wrappers; everything downstream works on the named row fragments.

use vstd::prelude::*;

verus! {

/// The text fragments of every `<tr>` row of the HTML document that `s`
/// parses to: one inner sequence per row in document order, one string per
/// text node in row order.  A function of the text alone: scraper's parser
/// and selector matching are deterministic.
pub uninterp spec fn doc_row_fragments(s: Seq<char>) -> Seq<Seq<Seq<char>>>;

/// The same fragments for the rows of the first `<table>` element of the
/// document, or `None` when the document has no table.
pub uninterp spec fn first_table_row_fragments(s: Seq<char>) -> Option<Seq<Seq<Seq<char>>>>;

/// Relies on scraper's `Html::parse_document`, `Selector::parse`,
/// `Html::select` and `ElementRef::text`: parses `text` (error-tolerantly,
/// any input is accepted) and collects, for each `<tr>` row in document
/// order, its text fragments in order.  `Selector::parse` cannot fail on the
/// fixed selector `tr`.
#[verifier::external_body]
pub(crate) fn scrape_row_fragments(text: &str) -> (r: Vec<Vec<String>>)
    ensures
        r.deep_view() == doc_row_fragments(text@),
{
    let document = scraper::Html::parse_document(text);
    let rows = scraper::Selector::parse("tr").unwrap();
    let mut out = Vec::new();
    for row in document.select(&rows) {
        let mut fragments = Vec::new();
        for t in row.text() {
            fragments.push(t.to_string());
        }
        out.push(fragments);
    }
    out
}

/// Relies additionally on scraper's `ElementRef::select`: the `<tr>` rows of
/// the first `<table>` element, or `None` when no table matches.
#[verifier::external_body]
pub(crate) fn scrape_first_table_rows(text: &str) -> (r: Option<Vec<Vec<String>>>)
    ensures
        r.deep_view() == first_table_row_fragments(text@),
{
    let document = scraper::Html::parse_document(text);
    let tables = scraper::Selector::parse("table").unwrap();
    let rows = scraper::Selector::parse("tr").unwrap();
    let table = document.select(&tables).next()?;
    let mut out = Vec::new();
    for row in table.select(&rows) {
        let mut fragments = Vec::new();
        for t in row.text() {
            fragments.push(t.to_string());
        }
        out.push(fragments);
    }
    Some(out)
}

} // verus!
