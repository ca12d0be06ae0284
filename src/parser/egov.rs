//! The eGov board dialect: a table listing whose links carry `nttNo`.

use vstd::prelude::*;
use vstd::string::{StrSliceExecFns, StringExecFns};
use crate::config::{param_or_default, SourceConfig};
use crate::parser::html::{page_rows, read_rows, rows_text, RawRow};
use crate::parser::{
    build_table_rows, chosen_from, fields_of, non_empty, non_empty_trimmed, number_after, number_after_exec, or_empty,
    or_empty_exec, shapes, table_rows, NoticeFields, RawNotice, RowView, TableRow,
};
use crate::text::{contains, contains_str, opt_view, replace_text, replaced, trim_text, trimmed};

verus! {

/// Parser of an eGov notice board.
pub struct EgovParser {
    pub source_key: String,
    pub display_name: String,
    pub base_url: String,
    pub bbs_no: String,
    pub key: String,
    pub page_unit: String,
}

/// The view page of a notice.
pub open spec fn egov_view_url(p: EgovParser, ntt_no: Seq<char>) -> Seq<char> {
    replaced(p.base_url@, "selectBbsNttList.do"@, "selectBbsNttView.do"@)
        + "?bbsNo="@ + p.bbs_no@ + "&key="@ + p.key@ + "&nttNo="@ + ntt_no
}

/// The notice of one row, if the row has at least four cells, a link whose
/// target carries `nttNo=` and digits, and a non-empty title. The first
/// cell reading "공지" marks a pinned row; six or more cells hold category,
/// author and date in cells 1, 3 and 4; five hold author and date in cells
/// 2 and 3.
pub open spec fn egov_row(p: EgovParser, row: RowView) -> Option<NoticeFields> {
    let cells = row.cells;
    if cells.len() < 4 || row.link is None {
        None
    } else {
        let link = row.link->Some_0;
        let id = number_after(link.href, "nttNo="@);
        let title = trimmed(link.text);
        if id is None || title.len() == 0 {
            None
        } else {
            Some(NoticeFields {
                notice_id: id->Some_0,
                title,
                url: egov_view_url(p, id->Some_0),
                author: if cells.len() >= 6 {
                    non_empty(trimmed(cells[3]))
                } else if cells.len() >= 5 {
                    non_empty(trimmed(cells[2]))
                } else {
                    None
                },
                date: if cells.len() >= 6 {
                    non_empty(trimmed(cells[4]))
                } else if cells.len() >= 5 {
                    non_empty(trimmed(cells[3]))
                } else {
                    None
                },
                category: if cells.len() >= 6 { non_empty(trimmed(cells[1])) } else { None },
                is_pinned: contains(cells[0], "공지"@),
            })
        }
    }
}

/// The row selectors tried, in order.
pub open spec fn egov_candidates() -> Seq<&'static str> {
    seq!["table.board-list tbody tr", "table.bbs-list tbody tr", ".boardList tbody tr", "table tbody tr"]
}

/// The rows of a page: those of the first candidate selector that matches
/// a row, with their `td` cells and `a[href]` links; none when no candidate
/// matches.
pub open spec fn egov_page(html: Seq<char>) -> Seq<RowView> {
    match chosen_from(html, egov_candidates(), "td"@, 0) {
        Some(k) => table_rows(
            or_empty(page_rows(html, egov_candidates()[k]@, "td"@)),
            or_empty(page_rows(html, egov_candidates()[k]@, "a[href]"@)),
            Seq::empty(),
        ),
        None => Seq::empty(),
    }
}

/// The notices of the rows, in order, without the rows that give none.
pub open spec fn egov_rows(p: EgovParser, rows: Seq<RowView>) -> Seq<NoticeFields>
    decreases rows.len(),
{
    if rows.len() == 0 {
        Seq::empty()
    } else {
        let prev = egov_rows(p, rows.drop_last());
        match egov_row(p, rows.last()) {
            Some(n) => prev.push(n),
            None => prev,
        }
    }
}

impl EgovParser {
    pub fn from_config(config: &SourceConfig) -> (r: EgovParser)
        ensures
            r.source_key@ == config.key@,
            r.display_name@ == config.display_name@,
            r.base_url@ == config.url@,
            r.bbs_no@ == param_or_default(config.params@, "bbsNo"@, ""@),
            r.key@ == param_or_default(config.params@, "key"@, ""@),
            r.page_unit@ == param_or_default(config.params@, "pageUnit"@, "10"@),
    {
        EgovParser {
            source_key: config.key.clone(),
            display_name: config.display_name.clone(),
            base_url: config.url.clone(),
            bbs_no: config.param_or("bbsNo", ""),
            key: config.param_or("key", ""),
            page_unit: config.param_or("pageUnit", "10"),
        }
    }

    /// The first listing page.
    pub fn build_list_url(&self) -> (r: String)
        ensures
            r@ == self.base_url@ + "?bbsNo="@ + self.bbs_no@ + "&key="@ + self.key@
                + "&pageUnit="@ + self.page_unit@ + "&pageIndex=1"@,
    {
        let mut s = self.base_url.clone();
        s.append("?bbsNo=");
        s.append(self.bbs_no.as_str());
        s.append("&key=");
        s.append(self.key.as_str());
        s.append("&pageUnit=");
        s.append(self.page_unit.as_str());
        s.append("&pageIndex=1");
        s
    }

    /// The page of the notice numbered `ntt_no`.
    pub fn build_view_url(&self, ntt_no: &str) -> (r: String)
        ensures
            r@ == replaced(self.base_url@, "selectBbsNttList.do"@, "selectBbsNttView.do"@)
                + "?bbsNo="@ + self.bbs_no@ + "&key="@ + self.key@ + "&nttNo="@ + ntt_no@,
    {
        proof {
            reveal_strlit("selectBbsNttList.do");
        }
        let mut s = replace_text(self.base_url.as_str(), "selectBbsNttList.do", "selectBbsNttView.do");
        s.append("?bbsNo=");
        s.append(self.bbs_no.as_str());
        s.append("&key=");
        s.append(self.key.as_str());
        s.append("&nttNo=");
        s.append(ntt_no);
        s
    }
}

impl EgovParser {
    /// The notice of one row; see [`egov_row`].
    pub fn parse_row(&self, row: &TableRow) -> (r: Option<RawNotice>)
        ensures
            match r {
                Some(n) => egov_row(*self, row.shape()) == Some(n.fields()),
                None => egov_row(*self, row.shape()) is None,
            },
    {
        let n = row.cells.len();
        if n < 4 {
            return None;
        }
        let link = match &row.link {
            Some(a) => a,
            None => return None,
        };
        let id = match number_after_exec(link.href.as_str(), "nttNo=") {
            Some(id) => id,
            None => return None,
        };
        let title = trim_text(link.text.as_str());
        if title.as_str().unicode_len() == 0 {
            return None;
        }
        let url = self.build_view_url(id.as_str());
        let is_pinned = contains_str(row.cells[0].as_str(), "공지");
        let (category, author, date) = if n >= 6 {
            (
                non_empty_trimmed(row.cells[1].as_str()),
                non_empty_trimmed(row.cells[3].as_str()),
                non_empty_trimmed(row.cells[4].as_str()),
            )
        } else if n >= 5 {
            (None, non_empty_trimmed(row.cells[2].as_str()), non_empty_trimmed(row.cells[3].as_str()))
        } else {
            (None, None, None)
        };
        Some(RawNotice { notice_id: id, title, url, author, date, category, is_pinned })
    }

    /// The notices of the rows, in order; rows without an id or a title are
    /// skipped.
    pub fn parse_rows(&self, rows: &Vec<TableRow>) -> (r: Vec<RawNotice>)
        ensures
            fields_of(r@) == egov_rows(*self, shapes(rows@)),
    {
        let mut out: Vec<RawNotice> = Vec::new();
        let mut i: usize = 0;
        while i < rows.len()
            invariant
                i <= rows@.len(),
                fields_of(out@) == egov_rows(*self, shapes(rows@.subrange(0, i as int))),
            decreases rows@.len() - i,
        {
            assert(shapes(rows@.subrange(0, i + 1)).drop_last() =~= shapes(rows@.subrange(0, i as int)));
            if let Some(n) = self.parse_row(&rows[i]) {
                out.push(n);
            }
            assert(fields_of(out@) =~= egov_rows(*self, shapes(rows@.subrange(0, i + 1))));
            i = i + 1;
        }
        assert(rows@.subrange(0, rows@.len() as int) =~= rows@);
        out
    }

    /// Parses a listing page: the rows of the first table selector that
    /// matches any row are read, and each gives at most one notice.
    pub fn parse_html(&self, html: &str) -> (r: Vec<RawNotice>)
        ensures
            fields_of(r@) == egov_rows(*self, egov_page(html@)),
    {
        let candidates: [&'static str; 4] = [
            "table.board-list tbody tr",
            "table.bbs-list tbody tr",
            ".boardList tbody tr",
            "table tbody tr",
        ];
        assert(candidates@ =~= egov_candidates());
        let mut k: usize = 0;
        while k < 4
            invariant
                candidates@ == egov_candidates(),
                k <= 4,
                chosen_from(html@, egov_candidates(), "td"@, 0) == chosen_from(html@, egov_candidates(), "td"@, k as int),
            decreases 4 - k,
        {
            let c = candidates[k];
            if let Some(cells) = read_rows(html, c, "td") {
                if cells.len() > 0 {
                    let links = or_empty_exec(read_rows(html, c, "a[href]"));
                    let none: Vec<RawRow> = Vec::new();
                    assert(rows_text(none@) =~= Seq::empty());
                    let rows = build_table_rows(&cells, &links, &none);
                    return self.parse_rows(&rows);
                }
            }
            k = k + 1;
        }
        let none: Vec<TableRow> = Vec::new();
        assert(shapes(none@) =~= Seq::empty());
        self.parse_rows(&none)
    }
}

} // verus!
