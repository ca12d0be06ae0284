//! The XpressEngine board dialect: a table listing at `/{mid}`.

use vstd::prelude::*;
use vstd::string::StringExecFns;
use crate::config::{param_or_default, SourceConfig};
use vstd::string::StrSliceExecFns;
use crate::parser::html::{page_rows, read_rows, rows_text, RawRow, RowText};
use crate::parser::{
    chosen_from, elem_anchor, fields_of, first_item, non_empty, non_empty_trimmed, number_after, number_after_exec, or_empty,
    or_empty_exec, run_len, run_len_exec, Anchor, AnchorView, NoticeFields, RawNotice,
};
use crate::text::{clone_opt, contains, contains_str, opt_view, trim_text, trim_trailing_slashes, trimmed, without_trailing_slashes};

verus! {

/// Parser of an XE board module.
pub struct XeBoardParser {
    pub source_key: String,
    pub display_name: String,
    pub base_url: String,
    pub mid: String,
}

impl XeBoardParser {
    pub fn from_config(config: &SourceConfig) -> (r: XeBoardParser)
        ensures
            r.source_key@ == config.key@,
            r.display_name@ == config.display_name@,
            r.base_url@ == without_trailing_slashes(config.url@),
            r.mid@ == param_or_default(config.params@, "mid"@, ""@),
    {
        XeBoardParser {
            source_key: config.key.clone(),
            display_name: config.display_name.clone(),
            base_url: trim_trailing_slashes(config.url.as_str()),
            mid: config.param_or("mid", ""),
        }
    }

    /// The listing page.
    pub fn board_url(&self) -> (r: String)
        ensures
            r@ == self.base_url@ + "/"@ + self.mid@,
    {
        let mut s = self.base_url.clone();
        s.append("/");
        s.append(self.mid.as_str());
        s
    }

    /// The page of the document numbered `document_srl`.
    pub fn build_view_url(&self, document_srl: &str) -> (r: String)
        ensures
            r@ == self.base_url@ + "/"@ + self.mid@ + "/"@ + document_srl@,
    {
        let mut s = self.base_url.clone();
        s.append("/");
        s.append(self.mid.as_str());
        s.append("/");
        s.append(document_srl);
        s
    }
}

/// A listing row of an XE board read out of the page.
pub struct XeRow {
    /// The number of table cells.
    pub cell_count: usize,
    /// The first link of the `td.title` cell.
    pub link: Option<Anchor>,
    /// The texts of the first `td.no`, `td.author` and `td.time` cells.
    pub no_text: Option<String>,
    pub author_text: Option<String>,
    pub time_text: Option<String>,
}

/// The abstract form of an [`XeRow`].
pub ghost struct XeRowView {
    pub cell_count: int,
    pub link: Option<AnchorView>,
    pub no_text: Option<Seq<char>>,
    pub author_text: Option<Seq<char>>,
    pub time_text: Option<Seq<char>>,
}

impl XeRow {
    pub open spec fn shape(&self) -> XeRowView {
        XeRowView {
            cell_count: self.cell_count as int,
            link: match self.link {
                Some(a) => Some(a.shape()),
                None => None,
            },
            no_text: opt_view(self.no_text),
            author_text: opt_view(self.author_text),
            time_text: opt_view(self.time_text),
        }
    }
}

pub open spec fn xe_shapes(rows: Seq<XeRow>) -> Seq<XeRowView> {
    rows.map_values(|r: XeRow| r.shape())
}

/// The text of the first element of row `i` of `rows`, if any.
pub open spec fn first_text(rows: Seq<RowText>, i: int) -> Option<Seq<char>> {
    match first_item(rows, i) {
        Some(e) => Some(e.text),
        None => None,
    }
}

/// Row `i` of a listing: how many `td` it has, the first link of its title
/// cell, and the texts of its `td.no`, `td.author` and `td.time` cells.
pub open spec fn xe_row_at(
    tds: Seq<RowText>,
    links: Seq<RowText>,
    nos: Seq<RowText>,
    authors: Seq<RowText>,
    times: Seq<RowText>,
    i: int,
) -> XeRowView {
    XeRowView {
        cell_count: tds[i].items.len() as int,
        link: match first_item(links, i) {
            Some(e) => Some(elem_anchor(e)),
            None => None,
        },
        no_text: first_text(nos, i),
        author_text: first_text(authors, i),
        time_text: first_text(times, i),
    }
}

/// The row selectors tried, in order.
pub open spec fn xe_candidates() -> Seq<&'static str> {
    seq!["table.bd_lst tbody tr", "table.bd_tb_lst tbody tr", "table.bd_tb tbody tr"]
}

pub open spec fn xe_table(html: Seq<char>, css: Seq<char>) -> Seq<XeRowView> {
    let tds = or_empty(page_rows(html, css, "td"@));
    Seq::new(tds.len(), |i: int| xe_row_at(
        tds,
        or_empty(page_rows(html, css, "td.title a[href]"@)),
        or_empty(page_rows(html, css, "td.no"@)),
        or_empty(page_rows(html, css, "td.author"@)),
        or_empty(page_rows(html, css, "td.time"@)),
        i,
    ))
}

/// The rows of a page: those of the first candidate selector that matches
/// a row; none when no candidate matches.
pub open spec fn xe_page(html: Seq<char>) -> Seq<XeRowView> {
    match chosen_from(html, xe_candidates(), "td"@, 0) {
        Some(k) => xe_table(html, xe_candidates()[k]@),
        None => Seq::empty(),
    }
}

/// A `/`, digits, then `?`, `#` or the end of the text start at `i`.
pub open spec fn srl_at(t: Seq<char>, i: int) -> bool {
    &&& 0 <= i < t.len()
    &&& t[i] == '/'
    &&& run_len(t, i + 1) > 0
    &&& {
        let e = i + 1 + run_len(t, i + 1);
        e == t.len() || t[e] == '?' || t[e] == '#'
    }
}

pub open spec fn first_srl(t: Seq<char>, p: int) -> Option<int>
    decreases t.len() - p,
{
    if p < 0 || p >= t.len() {
        None
    } else if srl_at(t, p) {
        Some(p)
    } else {
        first_srl(t, p + 1)
    }
}

/// The document number of a link target: a trailing path segment of digits,
/// else the digits after `document_srl=`.
pub open spec fn xe_id(href: Seq<char>) -> Option<Seq<char>> {
    match first_srl(href, 0) {
        Some(i) => Some(href.subrange(i + 1, i + 1 + run_len(href, i + 1))),
        None => number_after(href, "document_srl="@),
    }
}

pub open spec fn trimmed_opt(t: Option<Seq<char>>) -> Option<Seq<char>> {
    match t {
        Some(s) => non_empty(trimmed(s)),
        None => None,
    }
}

/// The notice of one row, if it has at least three cells, a link in its
/// title cell with a document number, and a non-empty title. A `td.no`
/// reading "공지" marks a pinned row.
pub open spec fn xe_row(p: XeBoardParser, row: XeRowView) -> Option<NoticeFields> {
    if row.cell_count < 3 || row.link is None {
        None
    } else {
        let link = row.link->Some_0;
        let id = xe_id(link.href);
        let title = trimmed(link.text);
        if id is None || title.len() == 0 {
            None
        } else {
            Some(NoticeFields {
                notice_id: id->Some_0,
                title,
                url: p.base_url@ + "/"@ + p.mid@ + "/"@ + id->Some_0,
                author: trimmed_opt(row.author_text),
                date: trimmed_opt(row.time_text),
                category: None,
                is_pinned: match row.no_text {
                    Some(t) => contains(t, "공지"@),
                    None => false,
                },
            })
        }
    }
}

/// The notices of the rows, in order, without the rows that give none.
pub open spec fn xe_rows(p: XeBoardParser, rows: Seq<XeRowView>) -> Seq<NoticeFields>
    decreases rows.len(),
{
    if rows.len() == 0 {
        Seq::empty()
    } else {
        let prev = xe_rows(p, rows.drop_last());
        match xe_row(p, rows.last()) {
            Some(n) => prev.push(n),
            None => prev,
        }
    }
}

fn srl_exec(t: &str) -> (r: Option<String>)
    ensures
        opt_view(r) == (match first_srl(t@, 0) {
            Some(i) => Some(t@.subrange(i + 1, i + 1 + run_len(t@, i + 1))),
            None => None::<Seq<char>>,
        }),
{
    let n = t.unicode_len();
    let mut i: usize = 0;
    while i < n
        invariant
            n == t@.len(),
            i <= n,
            first_srl(t@, 0) == first_srl(t@, i as int),
        decreases n - i,
    {
        if t.get_char(i) == '/' {
            let k = run_len_exec(t, i + 1);
            if k > 0 {
                let e = i + 1 + k;
                if e == n || t.get_char(e) == '?' || t.get_char(e) == '#' {
                    return Some(String::from_str(t.substring_char(i + 1, e)));
                }
            }
        }
        i = i + 1;
    }
    None
}

/// The document number of a link target; see [`xe_id`].
pub fn xe_id_exec(href: &str) -> (r: Option<String>)
    ensures
        opt_view(r) == xe_id(href@),
{
    match srl_exec(href) {
        Some(id) => Some(id),
        None => number_after_exec(href, "document_srl="),
    }
}

fn trimmed_opt_exec(t: &Option<String>) -> (r: Option<String>)
    ensures
        opt_view(r) == trimmed_opt(opt_view(*t)),
{
    match t {
        Some(s) => non_empty_trimmed(s.as_str()),
        None => None,
    }
}

impl XeBoardParser {
    /// The notice of one row; see [`xe_row`].
    pub fn parse_row(&self, row: &XeRow) -> (r: Option<RawNotice>)
        ensures
            match r {
                Some(n) => xe_row(*self, row.shape()) == Some(n.fields()),
                None => xe_row(*self, row.shape()) is None,
            },
    {
        if row.cell_count < 3 {
            return None;
        }
        let link = match &row.link {
            Some(a) => a,
            None => return None,
        };
        let id = match xe_id_exec(link.href.as_str()) {
            Some(id) => id,
            None => return None,
        };
        let title = trim_text(link.text.as_str());
        if title.as_str().unicode_len() == 0 {
            return None;
        }
        let url = self.build_view_url(id.as_str());
        let is_pinned = match &row.no_text {
            Some(t) => contains_str(t.as_str(), "공지"),
            None => false,
        };
        let author = trimmed_opt_exec(&row.author_text);
        let date = trimmed_opt_exec(&row.time_text);
        Some(RawNotice { notice_id: id, title, url, author, date, category: None, is_pinned })
    }

    /// The notices of the rows, in order; rows without an id or a title are
    /// skipped.
    pub fn parse_rows(&self, rows: &Vec<XeRow>) -> (r: Vec<RawNotice>)
        ensures
            fields_of(r@) == xe_rows(*self, xe_shapes(rows@)),
    {
        let mut out: Vec<RawNotice> = Vec::new();
        let mut i: usize = 0;
        while i < rows.len()
            invariant
                i <= rows@.len(),
                fields_of(out@) == xe_rows(*self, xe_shapes(rows@.subrange(0, i as int))),
            decreases rows@.len() - i,
        {
            assert(xe_shapes(rows@.subrange(0, i + 1)).drop_last() =~= xe_shapes(rows@.subrange(0, i as int)));
            if let Some(n) = self.parse_row(&rows[i]) {
                out.push(n);
            }
            assert(fields_of(out@) =~= xe_rows(*self, xe_shapes(rows@.subrange(0, i + 1))));
            i = i + 1;
        }
        assert(rows@.subrange(0, rows@.len() as int) =~= rows@);
        out
    }

    /// Parses a listing page: the rows of the first table selector that
    /// matches any row are read, and each gives at most one notice.
    pub fn parse_html(&self, html: &str) -> (r: Vec<RawNotice>)
        ensures
            fields_of(r@) == xe_rows(*self, xe_page(html@)),
    {
        let candidates: [&'static str; 3] = ["table.bd_lst tbody tr", "table.bd_tb_lst tbody tr", "table.bd_tb tbody tr"];
        assert(candidates@ =~= xe_candidates());
        let mut k: usize = 0;
        while k < 3
            invariant
                candidates@ == xe_candidates(),
                k <= 3,
                chosen_from(html@, xe_candidates(), "td"@, 0) == chosen_from(html@, xe_candidates(), "td"@, k as int),
            decreases 3 - k,
        {
            let c = candidates[k];
            if let Some(tds) = read_rows(html, c, "td") {
                if tds.len() > 0 {
                    let rows = read_xe_rows(html, c, tds);
                    return self.parse_rows(&rows);
                }
            }
            k = k + 1;
        }
        let none: Vec<XeRow> = Vec::new();
        assert(xe_shapes(none@) =~= Seq::empty());
        self.parse_rows(&none)
    }
}

fn first_text_exec(rows: &Vec<RawRow>, i: usize) -> (r: Option<String>)
    ensures
        opt_view(r) == first_text(rows_text(rows@), i as int),
{
    if i < rows.len() && rows[i].items.len() > 0 {
        Some(rows[i].items[0].text.clone())
    } else {
        None
    }
}

/// Reads the rows that `css` selects, given their `td` cells.
fn read_xe_rows(html: &str, css: &str, tds: Vec<RawRow>) -> (r: Vec<XeRow>)
    requires
        page_rows(html@, css@, "td"@) == Some(rows_text(tds@)),
    ensures
        xe_shapes(r@) == xe_table(html@, css@),
{
    let links = or_empty_exec(read_rows(html, css, "td.title a[href]"));
    let nos = or_empty_exec(read_rows(html, css, "td.no"));
    let authors = or_empty_exec(read_rows(html, css, "td.author"));
    let times = or_empty_exec(read_rows(html, css, "td.time"));
    let ghost (ts, ls, ns, as_, ms) = (rows_text(tds@), rows_text(links@), rows_text(nos@), rows_text(authors@), rows_text(times@));
    let mut out: Vec<XeRow> = Vec::new();
    let mut i: usize = 0;
    while i < tds.len()
        invariant
            ts == rows_text(tds@),
            ls == rows_text(links@),
            ns == rows_text(nos@),
            as_ == rows_text(authors@),
            ms == rows_text(times@),
            i <= tds@.len(),
            out@.len() == i,
            forall|k: int| 0 <= k < i ==> #[trigger] out@[k].shape() == xe_row_at(ts, ls, ns, as_, ms, k),
        decreases tds@.len() - i,
    {
        let link = if i < links.len() && links[i].items.len() > 0 {
            let e = &links[i].items[0];
            let href = match &e.href {
                Some(h) => h.clone(),
                None => String::new(),
            };
            Some(Anchor { href, text: e.text.clone(), title: clone_opt(&e.title) })
        } else {
            None
        };
        let row = XeRow {
            cell_count: tds[i].items.len(),
            link,
            no_text: first_text_exec(&nos, i),
            author_text: first_text_exec(&authors, i),
            time_text: first_text_exec(&times, i),
        };
        assert(row.shape() == xe_row_at(ts, ls, ns, as_, ms, i as int));
        out.push(row);
        i = i + 1;
    }
    assert(xe_shapes(out@) =~= xe_table(html@, css@));
    out
}

} // verus!
