//! Trusted boundary to the HTML parser: each wrapper hands the page's
//! structure over as plain values, under names for what the parser
//! returns, so that the selection and attribution logic can be verified
//! against them.

use vstd::prelude::*;

verus! {

/// For each `<table>` of the page in document order, for each of its
/// `<tr>` rows, the concatenated text of each `<td>` cell.
pub uninterp spec fn tables_cells_of(page: Seq<char>) -> Seq<Seq<Seq<Seq<char>>>>;

/// For each `<table>` of the page, the text of its first `<caption>`,
/// where it has one.
pub uninterp spec fn tables_captions_of(page: Seq<char>) -> Seq<Option<Seq<char>>>;

/// For each `<table>` of the page, for each of its `<tr>` rows, the
/// `href` of the row's first anchor, where present.
pub uninterp spec fn tables_row_hrefs_of(page: Seq<char>) -> Seq<Seq<Option<Seq<char>>>>;

/// For each `<a>` of the page in document order, its `title` attribute,
/// where present.
pub uninterp spec fn anchor_titles_of(page: Seq<char>) -> Seq<Option<Seq<char>>>;

/// The lower-case form of a string, depending on its characters alone.
pub uninterp spec fn lower_of(s: Seq<char>) -> Seq<char>;

/// Relies on scraper's `Html::parse_document` and CSS selection over
/// `table`, `tr` and `td`, and `ElementRef::text`: one entry per table,
/// holding one entry per row, holding each cell's concatenated text.
#[verifier::external_body]
pub(crate) fn page_tables(page: &str) -> (r: Vec<Vec<Vec<String>>>)
    ensures
        r.deep_view() == tables_cells_of(page@),
{
    let doc = scraper::Html::parse_document(page);
    let tables = scraper::Selector::parse("table").unwrap();
    let rows = scraper::Selector::parse("tr").unwrap();
    let cells = scraper::Selector::parse("td").unwrap();
    doc.select(&tables).map(
        |t| t.select(&rows).map(
            |row| row.select(&cells).map(|c| c.text().collect::<Vec<_>>().join("")).collect(),
        ).collect(),
    ).collect()
}

/// Relies on scraper's CSS selection over `table` and `caption` and
/// `ElementRef::text`: the same tables, in the same order, as
/// [`page_tables`] yields, each with its first caption's text.
#[verifier::external_body]
pub(crate) fn page_captions(page: &str) -> (r: Vec<Option<String>>)
    ensures
        r.deep_view() == tables_captions_of(page@),
        r@.len() == tables_cells_of(page@).len(),
{
    let doc = scraper::Html::parse_document(page);
    let tables = scraper::Selector::parse("table").unwrap();
    let caption = scraper::Selector::parse("caption").unwrap();
    doc.select(&tables).map(
        |t| t.select(&caption).next().map(|c| c.text().collect::<Vec<_>>().join("")),
    ).collect()
}

/// Relies on scraper's CSS selection over `table`, `tr` and `a` and
/// `ElementRef::attr`: the same tables and rows, in the same order, as
/// [`page_tables`] yields, each row with its first anchor's `href`.
#[verifier::external_body]
pub(crate) fn page_row_hrefs(page: &str) -> (r: Vec<Vec<Option<String>>>)
    ensures
        r.deep_view() == tables_row_hrefs_of(page@),
        r@.len() == tables_cells_of(page@).len(),
        forall|i: int|
            0 <= i < r@.len() ==> #[trigger] r.deep_view()[i].len() == tables_cells_of(
                page@,
            )[i].len(),
{
    let doc = scraper::Html::parse_document(page);
    let tables = scraper::Selector::parse("table").unwrap();
    let rows = scraper::Selector::parse("tr").unwrap();
    let anchor = scraper::Selector::parse("a").unwrap();
    doc.select(&tables).map(
        |t| t.select(&rows).map(
            |row| row.select(&anchor).next().and_then(|a| a.value().attr("href")).map(
                |h| h.to_string(),
            ),
        ).collect(),
    ).collect()
}

/// Relies on scraper's CSS selection over `a` and `ElementRef::attr`: one
/// entry per anchor of the page in document order, holding its `title`
/// attribute where it has one.
#[verifier::external_body]
pub(crate) fn page_anchor_titles(page: &str) -> (r: Vec<Option<String>>)
    ensures
        r.deep_view() == anchor_titles_of(page@),
{
    let doc = scraper::Html::parse_document(page);
    let anchor = scraper::Selector::parse("a").unwrap();
    doc.select(&anchor).map(|a| a.value().attr("title").map(|t| t.to_string())).collect()
}

/// Relies on `str::to_lowercase`: the result depends on the characters
/// alone.
#[verifier::external_body]
pub(crate) fn lowercase(s: &str) -> (r: String)
    ensures
        r@ == lower_of(s@),
{
    s.to_lowercase()
}

} // verus!
