//! The CIBoard dialect: a table listing whose links end in `/post/{id}`.

use vstd::prelude::*;
use vstd::string::StringExecFns;
use crate::config::{param_or_default, SourceConfig};
use vstd::string::StrSliceExecFns;
use crate::parser::html::{page_rows, read_rows, rows_text, RawRow};
use crate::parser::{
    build_table_rows, chosen_from, fields_of, non_empty, non_empty_trimmed, number_after, number_after_exec, or_empty,
    or_empty_exec, shapes, table_rows, NoticeFields, RawNotice, RowView, TableRow,
};
use crate::text::{trim_text, trim_trailing_slashes, trimmed, without_trailing_slashes};

verus! {

/// Parser of a CIBoard notice board, listed at `/board/{board_name}`.
pub struct CiBoardParser {
    pub source_key: String,
    pub display_name: String,
    pub base_url: String,
    pub board_name: String,
}

impl CiBoardParser {
    pub fn from_config(config: &SourceConfig) -> (r: CiBoardParser)
        ensures
            r.source_key@ == config.key@,
            r.display_name@ == config.display_name@,
            r.base_url@ == without_trailing_slashes(config.url@),
            r.board_name@ == param_or_default(config.params@, "board_name"@, "department_notice"@),
    {
        CiBoardParser {
            source_key: config.key.clone(),
            display_name: config.display_name.clone(),
            base_url: trim_trailing_slashes(config.url.as_str()),
            board_name: config.param_or("board_name", "department_notice"),
        }
    }

    /// The listing page.
    pub fn board_url(&self) -> (r: String)
        ensures
            r@ == self.base_url@ + "/board/"@ + self.board_name@,
    {
        let mut s = self.base_url.clone();
        s.append("/board/");
        s.append(self.board_name.as_str());
        s
    }

    /// The page of the post numbered `id`.
    pub fn build_view_url(&self, id: &str) -> (r: String)
        ensures
            r@ == self.base_url@ + "/post/"@ + id@,
    {
        let mut s = self.base_url.clone();
        s.append("/post/");
        s.append(id);
        s
    }
}

/// The notice of one row, if the row has at least four cells, a link whose
/// target carries `/post/` and digits, and a non-empty title: the link's
/// `title` attribute when it has text, else the link text. A badge in the
/// first cell marks a pinned row; the date is cell 3.
pub open spec fn ciboard_row(p: CiBoardParser, row: RowView) -> Option<NoticeFields> {
    let cells = row.cells;
    if cells.len() < 4 || row.link is None {
        None
    } else {
        let link = row.link->Some_0;
        let id = number_after(link.href, "/post/"@);
        let title = match link.title {
            Some(t) => if trimmed(t).len() > 0 { trimmed(t) } else { trimmed(link.text) },
            None => trimmed(link.text),
        };
        if id is None || title.len() == 0 {
            None
        } else {
            Some(NoticeFields {
                notice_id: id->Some_0,
                title,
                url: p.base_url@ + "/post/"@ + id->Some_0,
                author: None,
                date: non_empty(trimmed(cells[3])),
                category: None,
                is_pinned: row.first_cell_badge,
            })
        }
    }
}

/// The row selectors tried, in order.
pub open spec fn ciboard_candidates() -> Seq<&'static str> {
    seq!["table.gitav_table_skin1 tbody tr", "table.board tbody tr", "table tbody tr"]
}

/// The rows of a page: those of the first candidate selector that matches
/// a row, with their `td` cells, their `a[href]` links, and a badge where
/// the first cell holds a `span.label`; none when no candidate matches.
pub open spec fn ciboard_page(html: Seq<char>) -> Seq<RowView> {
    match chosen_from(html, ciboard_candidates(), "td"@, 0) {
        Some(k) => table_rows(
            or_empty(page_rows(html, ciboard_candidates()[k]@, "td"@)),
            or_empty(page_rows(html, ciboard_candidates()[k]@, "a[href]"@)),
            or_empty(page_rows(html, ciboard_candidates()[k]@, "td:first-of-type span.label"@)),
        ),
        None => Seq::empty(),
    }
}

/// The notices of the rows, in order, without the rows that give none.
pub open spec fn ciboard_rows(p: CiBoardParser, rows: Seq<RowView>) -> Seq<NoticeFields>
    decreases rows.len(),
{
    if rows.len() == 0 {
        Seq::empty()
    } else {
        let prev = ciboard_rows(p, rows.drop_last());
        match ciboard_row(p, rows.last()) {
            Some(n) => prev.push(n),
            None => prev,
        }
    }
}

impl CiBoardParser {
    /// The notice of one row; see [`ciboard_row`].
    pub fn parse_row(&self, row: &TableRow) -> (r: Option<RawNotice>)
        ensures
            match r {
                Some(n) => ciboard_row(*self, row.shape()) == Some(n.fields()),
                None => ciboard_row(*self, row.shape()) is None,
            },
    {
        let n = row.cells.len();
        if n < 4 {
            return None;
        }
        let link = match &row.link {
            Some(a) => a,
            None => return None,
        };
        let id = match number_after_exec(link.href.as_str(), "/post/") {
            Some(id) => id,
            None => return None,
        };
        let title = match &link.title {
            Some(t) => {
                let tt = trim_text(t.as_str());
                if tt.as_str().unicode_len() > 0 { tt } else { trim_text(link.text.as_str()) }
            },
            None => trim_text(link.text.as_str()),
        };
        if title.as_str().unicode_len() == 0 {
            return None;
        }
        let url = self.build_view_url(id.as_str());
        let date = non_empty_trimmed(row.cells[3].as_str());
        Some(RawNotice { notice_id: id, title, url, author: None, date, category: None, is_pinned: row.first_cell_badge })
    }

    /// The notices of the rows, in order; rows without an id or a title are
    /// skipped.
    pub fn parse_rows(&self, rows: &Vec<TableRow>) -> (r: Vec<RawNotice>)
        ensures
            fields_of(r@) == ciboard_rows(*self, shapes(rows@)),
    {
        let mut out: Vec<RawNotice> = Vec::new();
        let mut i: usize = 0;
        while i < rows.len()
            invariant
                i <= rows@.len(),
                fields_of(out@) == ciboard_rows(*self, shapes(rows@.subrange(0, i as int))),
            decreases rows@.len() - i,
        {
            assert(shapes(rows@.subrange(0, i + 1)).drop_last() =~= shapes(rows@.subrange(0, i as int)));
            if let Some(n) = self.parse_row(&rows[i]) {
                out.push(n);
            }
            assert(fields_of(out@) =~= ciboard_rows(*self, shapes(rows@.subrange(0, i + 1))));
            i = i + 1;
        }
        assert(rows@.subrange(0, rows@.len() as int) =~= rows@);
        out
    }

    /// Parses a listing page: the rows of the first table selector that
    /// matches any row are read, and each gives at most one notice.
    pub fn parse_html(&self, html: &str) -> (r: Vec<RawNotice>)
        ensures
            fields_of(r@) == ciboard_rows(*self, ciboard_page(html@)),
    {
        let candidates: [&'static str; 3] = [
            "table.gitav_table_skin1 tbody tr",
            "table.board tbody tr",
            "table tbody tr",
        ];
        assert(candidates@ =~= ciboard_candidates());
        let mut k: usize = 0;
        while k < 3
            invariant
                candidates@ == ciboard_candidates(),
                k <= 3,
                chosen_from(html@, ciboard_candidates(), "td"@, 0) == chosen_from(html@, ciboard_candidates(), "td"@, k as int),
            decreases 3 - k,
        {
            let c = candidates[k];
            if let Some(cells) = read_rows(html, c, "td") {
                if cells.len() > 0 {
                    let links = or_empty_exec(read_rows(html, c, "a[href]"));
                    let badges = or_empty_exec(read_rows(html, c, "td:first-of-type span.label"));
                    let rows = build_table_rows(&cells, &links, &badges);
                    return self.parse_rows(&rows);
                }
            }
            k = k + 1;
        }
        let none: Vec<TableRow> = Vec::new();
        assert(shapes(none@) =~= Seq::empty());
        self.parse_rows(&none)
    }
}

} // verus!
