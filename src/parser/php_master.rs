//! The PHP `master.php` dialect: a listing page with hidden form values and
//! a separate endpoint that returns the rows as `div` pseudo-rows.

use vstd::prelude::*;
use vstd::string::StringExecFns;
use crate::config::{param_or_default, SourceConfig};
use vstd::string::StrSliceExecFns;
use crate::parser::html::{page_rows, read_rows, rows_text, RawRow};
use crate::parser::{
    build_table_rows, fields_of, non_empty, non_empty_trimmed, number_after, number_after_exec, or_empty, or_empty_exec,
    shapes, table_rows, NoticeFields, RawNotice, RowView, TableRow,
};
use crate::text::{clone_opt, contains, opt_view, contains_str, trim_text, trim_trailing_slashes, trimmed, without_trailing_slashes};

verus! {

/// Parser of a PHP `master.php` board.
pub struct PhpMasterParser {
    pub source_key: String,
    pub display_name: String,
    pub base_url: String,
    pub pg_idx: String,
}

impl PhpMasterParser {
    pub fn from_config(config: &SourceConfig) -> (r: PhpMasterParser)
        ensures
            r.source_key@ == config.key@,
            r.display_name@ == config.display_name@,
            r.base_url@ == without_trailing_slashes(config.url@),
            r.pg_idx@ == param_or_default(config.params@, "pg_idx"@, ""@),
    {
        PhpMasterParser {
            source_key: config.key.clone(),
            display_name: config.display_name.clone(),
            base_url: trim_trailing_slashes(config.url.as_str()),
            pg_idx: config.param_or("pg_idx", ""),
        }
    }

    /// The endpoint that returns the rows.
    pub fn ajax_url(&self) -> (r: String)
        ensures
            r@ == self.base_url@ + "/module/board/_main.php"@,
    {
        let mut s = self.base_url.clone();
        s.append("/module/board/_main.php");
        s
    }

    /// The listing page, which holds the hidden form values.
    pub fn main_page_url(&self) -> (r: String)
        ensures
            r@ == self.base_url@ + "/master.php?pg_idx="@ + self.pg_idx@,
    {
        let mut s = self.base_url.clone();
        s.append("/master.php?pg_idx=");
        s.append(self.pg_idx.as_str());
        s
    }

    /// The page of the post numbered `pidx`.
    pub fn build_view_url(&self, pidx: &str) -> (r: String)
        ensures
            r@ == self.base_url@ + "/master.php?mod=view&pg_idx="@ + self.pg_idx@ + "&pidx="@ + pidx@,
    {
        let mut s = self.base_url.clone();
        s.append("/master.php?mod=view&pg_idx=");
        s.append(self.pg_idx.as_str());
        s.append("&pidx=");
        s.append(pidx);
        s
    }
}

/// The hidden form values of the listing page.
pub struct FormParams {
    pub bidx: String,
    pub id: String,
}

/// The notice of one pseudo-row, if it has at least four `div`s, a link
/// whose target carries `pidx=` and digits, and a non-empty title. The first
/// `div` reading "공지" marks a pinned row; the author is `div` 2, and with
/// five or more the date is `div` 3.
pub open spec fn php_row(p: PhpMasterParser, row: RowView) -> Option<NoticeFields> {
    let cells = row.cells;
    if cells.len() < 4 || row.link is None {
        None
    } else {
        let link = row.link->Some_0;
        let id = number_after(link.href, "pidx="@);
        let title = trimmed(link.text);
        if id is None || title.len() == 0 {
            None
        } else {
            Some(NoticeFields {
                notice_id: id->Some_0,
                title,
                url: p.base_url@ + "/master.php?mod=view&pg_idx="@ + p.pg_idx@ + "&pidx="@ + id->Some_0,
                author: non_empty(trimmed(cells[2])),
                date: if cells.len() >= 5 { non_empty(trimmed(cells[3])) } else { None },
                category: None,
                is_pinned: contains(trimmed(cells[0]), "공지"@),
            })
        }
    }
}

/// The pseudo-rows of a fragment: each `div.board_rows`, with its `div`s as
/// cells and its `a[href]` links.
pub open spec fn php_page(html: Seq<char>) -> Seq<RowView> {
    table_rows(
        or_empty(page_rows(html, "div.board_rows"@, "div"@)),
        or_empty(page_rows(html, "div.board_rows"@, "a[href]"@)),
        Seq::empty(),
    )
}

/// The notices of the rows, in order, without the rows that give none.
pub open spec fn php_rows(p: PhpMasterParser, rows: Seq<RowView>) -> Seq<NoticeFields>
    decreases rows.len(),
{
    if rows.len() == 0 {
        Seq::empty()
    } else {
        let prev = php_rows(p, rows.drop_last());
        match php_row(p, rows.last()) {
            Some(n) => prev.push(n),
            None => prev,
        }
    }
}

/// The form values, with `"2"` and `""` where the page lacks one.
pub fn form_params(bidx: Option<String>, id: Option<String>) -> (r: FormParams)
    ensures
        r.bidx@ == (match bidx { Some(b) => b@, None => "2"@ }),
        r.id@ == (match id { Some(i) => i@, None => ""@ }),
{
    FormParams {
        bidx: match bidx {
            Some(b) => b,
            None => String::from_str("2"),
        },
        id: match id {
            Some(i) => i,
            None => String::from_str(""),
        },
    }
}

/// The `value` attribute of the first element of the page that `css`
/// selects, if there is one.
pub open spec fn input_value(html: Seq<char>, css: Seq<char>) -> Option<Seq<char>> {
    match page_rows(html, css, "a[href]"@) {
        Some(rs) => if rs.len() > 0 { rs[0].value } else { None },
        None => None,
    }
}

fn first_value(html: &str, css: &str) -> (r: Option<String>)
    ensures
        opt_view(r) == input_value(html@, css@),
{
    match read_rows(html, css, "a[href]") {
        Some(rows) => {
            if rows.len() > 0 {
                clone_opt(&rows[0].value)
            } else {
                None
            }
        },
        None => None,
    }
}

/// The hidden form values of a listing page: the `value` of `input#bidx`
/// (`"2"` when absent) and of `input#id` (empty when absent).
pub fn extract_form_params(html: &str) -> (r: FormParams)
    ensures
        r.bidx@ == (match input_value(html@, "input#bidx"@) {
            Some(v) => v,
            None => "2"@,
        }),
        r.id@ == (match input_value(html@, "input#id"@) {
            Some(v) => v,
            None => ""@,
        }),
{
    let bidx = first_value(html, "input#bidx");
    let id = first_value(html, "input#id");
    form_params(bidx, id)
}

impl PhpMasterParser {
    /// The form posted to [`PhpMasterParser::ajax_url`] for the first page.
    pub fn ajax_form(&self, params: &FormParams) -> (r: Vec<(String, String)>)
        ensures
            r@.len() == 8,
            r@[0].0@ == "pg_idx"@ && r@[0].1@ == self.pg_idx@,
            r@[1].0@ == "bidx"@ && r@[1].1@ == params.bidx@,
            r@[2].0@ == "id"@ && r@[2].1@ == params.id@,
            r@[3].0@ == "cate"@ && r@[3].1@ == ""@,
            r@[4].0@ == "pidx"@ && r@[4].1@ == "0"@,
            r@[5].0@ == "str"@ && r@[5].1@ == ""@,
            r@[6].0@ == "page"@ && r@[6].1@ == "1"@,
            r@[7].0@ == "mode"@ && r@[7].1@ == "list"@,
    {
        let mut v: Vec<(String, String)> = Vec::new();
        v.push((String::from_str("pg_idx"), self.pg_idx.clone()));
        v.push((String::from_str("bidx"), params.bidx.clone()));
        v.push((String::from_str("id"), params.id.clone()));
        v.push((String::from_str("cate"), String::from_str("")));
        v.push((String::from_str("pidx"), String::from_str("0")));
        v.push((String::from_str("str"), String::from_str("")));
        v.push((String::from_str("page"), String::from_str("1")));
        v.push((String::from_str("mode"), String::from_str("list")));
        v
    }

    /// The notice of one pseudo-row; see [`php_row`].
    pub fn parse_row(&self, row: &TableRow) -> (r: Option<RawNotice>)
        ensures
            match r {
                Some(n) => php_row(*self, row.shape()) == Some(n.fields()),
                None => php_row(*self, row.shape()) is None,
            },
    {
        let n = row.cells.len();
        if n < 4 {
            return None;
        }
        let link = match &row.link {
            Some(a) => a,
            None => return None,
        };
        let id = match number_after_exec(link.href.as_str(), "pidx=") {
            Some(id) => id,
            None => return None,
        };
        let title = trim_text(link.text.as_str());
        if title.as_str().unicode_len() == 0 {
            return None;
        }
        let url = self.build_view_url(id.as_str());
        let first = trim_text(row.cells[0].as_str());
        let is_pinned = contains_str(first.as_str(), "공지");
        let author = non_empty_trimmed(row.cells[2].as_str());
        let date = if n >= 5 { non_empty_trimmed(row.cells[3].as_str()) } else { None };
        Some(RawNotice { notice_id: id, title, url, author, date, category: None, is_pinned })
    }

    /// The notices of the pseudo-rows, in order; rows without an id or a
    /// title are skipped.
    pub fn parse_rows(&self, rows: &Vec<TableRow>) -> (r: Vec<RawNotice>)
        ensures
            fields_of(r@) == php_rows(*self, shapes(rows@)),
    {
        let mut out: Vec<RawNotice> = Vec::new();
        let mut i: usize = 0;
        while i < rows.len()
            invariant
                i <= rows@.len(),
                fields_of(out@) == php_rows(*self, shapes(rows@.subrange(0, i as int))),
            decreases rows@.len() - i,
        {
            assert(shapes(rows@.subrange(0, i + 1)).drop_last() =~= shapes(rows@.subrange(0, i as int)));
            if let Some(n) = self.parse_row(&rows[i]) {
                out.push(n);
            }
            assert(fields_of(out@) =~= php_rows(*self, shapes(rows@.subrange(0, i + 1))));
            i = i + 1;
        }
        assert(rows@.subrange(0, rows@.len() as int) =~= rows@);
        out
    }

    /// Parses the fragment the row endpoint returns: each `div.board_rows`
    /// gives at most one notice.
    pub fn parse_ajax_html(&self, html: &str) -> (r: Vec<RawNotice>)
        ensures
            fields_of(r@) == php_rows(*self, php_page(html@)),
    {
        let cells = or_empty_exec(read_rows(html, "div.board_rows", "div"));
        let links = or_empty_exec(read_rows(html, "div.board_rows", "a[href]"));
        let none: Vec<RawRow> = Vec::new();
        assert(rows_text(none@) =~= Seq::empty());
        let rows = build_table_rows(&cells, &links, &none);
        self.parse_rows(&rows)
    }
}

} // verus!
