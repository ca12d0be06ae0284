//! Reading listing pages through scraper. A page is read into plain rows:
//! for each element that a row selector matches, its `value` attribute and
//! the elements inside it that a second selector matches, each with its
//! text and its `href` and `title` attributes. What the parsers make of a
//! page is then stated over these rows.

use vstd::prelude::*;
use scraper::{Html, Selector};
use crate::text::opt_view;

verus! {

/// An element inside a row.
pub struct RawElem {
    pub text: String,
    pub href: Option<String>,
    pub title: Option<String>,
}

/// A row: its own `value` attribute and the elements selected inside it.
pub struct RawRow {
    pub value: Option<String>,
    pub items: Vec<RawElem>,
}

/// The abstract form of a [`RawElem`].
pub ghost struct ElemText {
    pub text: Seq<char>,
    pub href: Option<Seq<char>>,
    pub title: Option<Seq<char>>,
}

/// The abstract form of a [`RawRow`].
pub ghost struct RowText {
    pub value: Option<Seq<char>>,
    pub items: Seq<ElemText>,
}

impl RawElem {
    pub open spec fn shape(&self) -> ElemText {
        ElemText { text: self.text@, href: opt_view(self.href), title: opt_view(self.title) }
    }
}

impl RawRow {
    pub open spec fn shape(&self) -> RowText {
        RowText { value: opt_view(self.value), items: self.items@.map_values(|e: RawElem| e.shape()) }
    }
}

pub open spec fn rows_text(rows: Seq<RawRow>) -> Seq<RowText> {
    rows.map_values(|r: RawRow| r.shape())
}

/// The rows of the page `html` (parsed as a document) that `row_css`
/// selects, each with the elements inside it that `inner_css` selects, in
/// document order; none when a selector does not parse.
pub uninterp spec fn page_rows(html: Seq<char>, row_css: Seq<char>, inner_css: Seq<char>) -> Option<Seq<RowText>>;

/// Relies on scraper (`Selector::parse`, `Html::parse_document`,
/// `Html::select`, `ElementRef::select`, `ElementRef::text`,
/// `ElementRef::attr`): the result depends on the page text and the two
/// selectors alone.
#[verifier::external_body]
pub(crate) fn read_rows(html: &str, row_css: &str, inner_css: &str) -> (r: Option<Vec<RawRow>>)
    ensures
        match r {
            Some(v) => page_rows(html@, row_css@, inner_css@) == Some(rows_text(v@)),
            None => page_rows(html@, row_css@, inner_css@) is None,
        },
{
    let rows = Selector::parse(row_css).ok()?;
    let inner = Selector::parse(inner_css).ok()?;
    let doc = Html::parse_document(html);
    Some(doc.select(&rows).map(|row| RawRow {
        value: row.attr("value").map(String::from),
        items: row.select(&inner).map(|e| RawElem {
            text: e.text().collect(),
            href: e.attr("href").map(String::from),
            title: e.attr("title").map(String::from),
        }).collect(),
    }).collect())
}

} // verus!
