//! The uniform notice record produced by every dialect, and the dispatch
//! from a configured dialect tag to its parser.

pub mod ciboard;
pub mod egov;
pub mod html;
pub mod php_master;
pub mod xe_board;

use vstd::prelude::*;
use vstd::string::StringExecFns;
use crate::config::SourceConfig;
use vstd::string::StrSliceExecFns;
use crate::text::{clone_opt, contains, occurs_at, occurs_at_exec, opt_view, same_text, trim_text, trimmed};
use self::html::page_rows;
use self::ciboard::CiBoardParser;
use self::ciboard::{ciboard_page, ciboard_rows};
use self::egov::{egov_page, egov_rows, EgovParser};
use self::php_master::{php_page, php_rows};
use self::xe_board::{xe_page, xe_rows};
use self::html::{rows_text, ElemText, RawRow, RowText};
use self::php_master::PhpMasterParser;
use self::xe_board::XeBoardParser;

verus! {

/// One notice as a listing page shows it.
#[derive(Debug, Clone)]
pub struct RawNotice {
    pub notice_id: String,
    pub title: String,
    pub url: String,
    pub author: Option<String>,
    pub date: Option<String>,
    pub category: Option<String>,
    pub is_pinned: bool,
}

/// The abstract form of a [`RawNotice`].
pub ghost struct NoticeFields {
    pub notice_id: Seq<char>,
    pub title: Seq<char>,
    pub url: Seq<char>,
    pub author: Option<Seq<char>>,
    pub date: Option<Seq<char>>,
    pub category: Option<Seq<char>>,
    pub is_pinned: bool,
}

impl RawNotice {
    pub open spec fn fields(&self) -> NoticeFields {
        NoticeFields {
            notice_id: self.notice_id@,
            title: self.title@,
            url: self.url@,
            author: opt_view(self.author),
            date: opt_view(self.date),
            category: opt_view(self.category),
            is_pinned: self.is_pinned,
        }
    }
}

/// The abstract form of a list of notices.
pub open spec fn fields_of(ns: Seq<RawNotice>) -> Seq<NoticeFields> {
    ns.map_values(|n: RawNotice| n.fields())
}

/// A link of a listing row.
pub struct Anchor {
    pub href: String,
    pub text: String,
    /// The `title` attribute, if any.
    pub title: Option<String>,
}

/// A listing row read out of the page: the texts of its cells (table cells,
/// or the `div`s of a pseudo-row), its first link, and whether its first
/// cell carries a badge element.
pub struct TableRow {
    pub cells: Vec<String>,
    pub link: Option<Anchor>,
    pub first_cell_badge: bool,
}

/// The abstract form of an [`Anchor`].
pub ghost struct AnchorView {
    pub href: Seq<char>,
    pub text: Seq<char>,
    pub title: Option<Seq<char>>,
}

/// The abstract form of a [`TableRow`].
pub ghost struct RowView {
    pub cells: Seq<Seq<char>>,
    pub link: Option<AnchorView>,
    pub first_cell_badge: bool,
}

impl Anchor {
    pub open spec fn shape(&self) -> AnchorView {
        AnchorView { href: self.href@, text: self.text@, title: opt_view(self.title) }
    }
}

impl TableRow {
    pub open spec fn shape(&self) -> RowView {
        RowView {
            cells: self.cells@.map_values(|c: String| c@),
            link: match self.link {
                Some(a) => Some(a.shape()),
                None => None,
            },
            first_cell_badge: self.first_cell_badge,
        }
    }
}

pub open spec fn shapes(rows: Seq<TableRow>) -> Seq<RowView> {
    rows.map_values(|r: TableRow| r.shape())
}

/// The rows read, or none.
pub open spec fn or_empty(o: Option<Seq<RowText>>) -> Seq<RowText> {
    match o {
        Some(rs) => rs,
        None => Seq::empty(),
    }
}

pub fn or_empty_exec(o: Option<Vec<RawRow>>) -> (r: Vec<RawRow>)
    ensures
        rows_text(r@) == (match o {
            Some(v) => rows_text(v@),
            None => Seq::empty(),
        }),
{
    match o {
        Some(v) => v,
        None => {
            let v: Vec<RawRow> = Vec::new();
            assert(rows_text(v@) =~= Seq::empty());
            v
        },
    }
}

/// A link element as a row's link: a missing target reads as empty.
pub open spec fn elem_anchor(e: ElemText) -> AnchorView {
    AnchorView {
        href: match e.href {
            Some(h) => h,
            None => Seq::empty(),
        },
        text: e.text,
        title: e.title,
    }
}

/// The first element of row `i` of `rows`, if there is one.
pub open spec fn first_item(rows: Seq<RowText>, i: int) -> Option<ElemText> {
    if 0 <= i < rows.len() && rows[i].items.len() > 0 { Some(rows[i].items[0]) } else { None }
}

/// Row `i` of a listing: the cell texts from `cells`, the first link from
/// `links`, and a badge when `badges` has an element for that row.
pub open spec fn row_at(cells: Seq<RowText>, links: Seq<RowText>, badges: Seq<RowText>, i: int) -> RowView {
    RowView {
        cells: cells[i].items.map_values(|e: ElemText| e.text),
        link: match first_item(links, i) {
            Some(e) => Some(elem_anchor(e)),
            None => None,
        },
        first_cell_badge: first_item(badges, i) is Some,
    }
}

/// The rows of a listing, one per row of `cells`.
pub open spec fn table_rows(cells: Seq<RowText>, links: Seq<RowText>, badges: Seq<RowText>) -> Seq<RowView> {
    Seq::new(cells.len(), |i: int| row_at(cells, links, badges, i))
}

/// Builds the rows of a listing; see [`table_rows`].
pub fn build_table_rows(cells: &Vec<RawRow>, links: &Vec<RawRow>, badges: &Vec<RawRow>) -> (r: Vec<TableRow>)
    ensures
        shapes(r@) == table_rows(rows_text(cells@), rows_text(links@), rows_text(badges@)),
{
    let ghost cs = rows_text(cells@);
    let ghost ls = rows_text(links@);
    let ghost bs = rows_text(badges@);
    let mut out: Vec<TableRow> = Vec::new();
    let mut i: usize = 0;
    while i < cells.len()
        invariant
            cs == rows_text(cells@),
            ls == rows_text(links@),
            bs == rows_text(badges@),
            i <= cells@.len(),
            out@.len() == i,
            forall|k: int| 0 <= k < i ==> #[trigger] out@[k].shape() == row_at(cs, ls, bs, k),
        decreases cells@.len() - i,
    {
        let row = &cells[i];
        let mut texts: Vec<String> = Vec::new();
        let mut j: usize = 0;
        while j < row.items.len()
            invariant
                j <= row.items@.len(),
                texts@.len() == j,
                forall|k: int| 0 <= k < j ==> #[trigger] texts@[k]@ == row.items@[k].text@,
            decreases row.items@.len() - j,
        {
            texts.push(row.items[j].text.clone());
            j = j + 1;
        }
        assert(texts@.map_values(|c: String| c@) =~= cs[i as int].items.map_values(|e: ElemText| e.text));
        let link = if i < links.len() && links[i].items.len() > 0 {
            let e = &links[i].items[0];
            let href = match &e.href {
                Some(h) => h.clone(),
                None => String::new(),
            };
            Some(Anchor { href, text: e.text.clone(), title: clone_opt(&e.title) })
        } else {
            None
        };
        let badge = i < badges.len() && badges[i].items.len() > 0;
        let t = TableRow { cells: texts, link, first_cell_badge: badge };
        assert(t.shape() == row_at(cs, ls, bs, i as int));
        out.push(t);
        i = i + 1;
    }
    assert(shapes(out@) =~= table_rows(cs, ls, bs));
    out
}

/// Whether `page_rows(html, css, inner)` has at least one row.
pub open spec fn has_rows(html: Seq<char>, css: Seq<char>, inner: Seq<char>) -> bool {
    match page_rows(html, css, inner) {
        Some(rs) => rs.len() > 0,
        None => false,
    }
}

/// The first of `cands`, from position `k`, whose rows (read with `inner`)
/// are not empty.
pub open spec fn chosen_from(html: Seq<char>, cands: Seq<&'static str>, inner: Seq<char>, k: int) -> Option<int>
    decreases cands.len() - k,
{
    if k < 0 || k >= cands.len() {
        None
    } else if has_rows(html, cands[k]@, inner) {
        Some(k)
    } else {
        chosen_from(html, cands, inner, k + 1)
    }
}

/// Trimmed text, or none when nothing is left.
pub open spec fn non_empty(s: Seq<char>) -> Option<Seq<char>> {
    if s.len() == 0 { None } else { Some(s) }
}

pub fn non_empty_trimmed(s: &str) -> (r: Option<String>)
    ensures
        opt_view(r) == non_empty(trimmed(s@)),
{
    let t = trim_text(s);
    if t.as_str().unicode_len() == 0 { None } else { Some(t) }
}

pub open spec fn is_ascii_digit(c: char) -> bool {
    '0' <= c <= '9'
}

/// The length of the run of digits of `t` from `p`.
pub open spec fn run_len(t: Seq<char>, p: int) -> int
    decreases t.len() - p,
{
    if 0 <= p < t.len() && is_ascii_digit(t[p]) { 1 + run_len(t, p + 1) } else { 0 }
}

/// `prefix` followed by at least one digit starts at `i`.
pub open spec fn prefixed_at(t: Seq<char>, prefix: Seq<char>, i: int) -> bool {
    occurs_at(t, prefix, i) && run_len(t, i + prefix.len()) > 0
}

/// The leftmost position from `p` where `prefix` and a digit start.
pub open spec fn first_prefixed(t: Seq<char>, prefix: Seq<char>, p: int) -> Option<int>
    decreases t.len() - p,
{
    if p < 0 || p >= t.len() {
        None
    } else if prefixed_at(t, prefix, p) {
        Some(p)
    } else {
        first_prefixed(t, prefix, p + 1)
    }
}

/// The digits that follow the leftmost `prefix` that digits follow.
pub open spec fn number_after(t: Seq<char>, prefix: Seq<char>) -> Option<Seq<char>> {
    match first_prefixed(t, prefix, 0) {
        Some(i) => Some(t.subrange(i + prefix.len(), i + prefix.len() + run_len(t, i + prefix.len()))),
        None => None,
    }
}

pub(crate) fn run_len_exec(t: &str, p: usize) -> (r: usize)
    ensures
        r as int == run_len(t@, p as int),
        p <= t@.len() ==> p + r <= t@.len(),
{
    let n = t.unicode_len();
    if p >= n {
        return 0;
    }
    let mut e: usize = p;
    while e < n && is_digit_char(t.get_char(e))
        invariant
            n == t@.len(),
            p <= e <= n,
            run_len(t@, p as int) == (e - p) + run_len(t@, e as int),
        decreases n - e,
    {
        e = e + 1;
    }
    e - p
}

fn is_digit_char(c: char) -> (r: bool)
    ensures
        r == is_ascii_digit(c),
{
    '0' <= c && c <= '9'
}

/// The digits after the leftmost `prefix` that digits follow, as in the
/// link patterns `nttNo=`, `pidx=` and `/post/`.
pub fn number_after_exec(t: &str, prefix: &str) -> (r: Option<String>)
    ensures
        opt_view(r) == number_after(t@, prefix@),
{
    let n = t.unicode_len();
    let m = prefix.unicode_len();
    let mut i: usize = 0;
    while i < n
        invariant
            n == t@.len(),
            m == prefix@.len(),
            i <= n,
            first_prefixed(t@, prefix@, 0) == first_prefixed(t@, prefix@, i as int),
        decreases n - i,
    {
        if occurs_at_exec(t, prefix, i) {
            let k = run_len_exec(t, i + m);
            if k > 0 {
                return Some(String::from_str(t.substring_char(i + m, i + m + k)));
            }
        }
        i = i + 1;
    }
    None
}

/// The parser of one source, one case per dialect.
pub enum NoticeParser {
    Egov(EgovParser),
    PhpMaster(PhpMasterParser),
    CiBoard(CiBoardParser),
    XeBoard(XeBoardParser),
}

/// The dialect tags that configuration may name.
pub open spec fn is_known_dialect(tag: Seq<char>) -> bool {
    tag == "egov"@ || tag == "php_master"@ || tag == "ciboard"@ || tag == "xe_board"@
}

/// Whether configuration may name the dialect `tag`.
pub fn known_dialect(tag: &str) -> (r: bool)
    ensures
        r == is_known_dialect(tag@),
{
    same_text(tag, "egov") || same_text(tag, "php_master") || same_text(tag, "ciboard") || same_text(tag, "xe_board")
}

/// Builds the parser that a source's dialect tag selects.
pub fn create_parser(source: &SourceConfig) -> (r: NoticeParser)
    requires
        is_known_dialect(source.parser@),
    ensures
        source.parser@ == "egov"@ ==> r is Egov,
        source.parser@ == "php_master"@ ==> r is PhpMaster,
        source.parser@ == "ciboard"@ ==> r is CiBoard,
        source.parser@ == "xe_board"@ ==> r is XeBoard,
        r.source_key_spec() == source.key@,
        r.display_name_spec() == source.display_name@,
{
    proof {
        reveal_strlit("egov");
        reveal_strlit("php_master");
        reveal_strlit("ciboard");
        reveal_strlit("xe_board");
        assert("egov"@.len() == 4);
        assert("php_master"@.len() == 10);
        assert("ciboard"@.len() == 7);
        assert("xe_board"@.len() == 8);
    }
    if same_text(source.parser.as_str(), "egov") {
        NoticeParser::Egov(EgovParser::from_config(source))
    } else if same_text(source.parser.as_str(), "php_master") {
        NoticeParser::PhpMaster(PhpMasterParser::from_config(source))
    } else if same_text(source.parser.as_str(), "ciboard") {
        NoticeParser::CiBoard(CiBoardParser::from_config(source))
    } else {
        NoticeParser::XeBoard(XeBoardParser::from_config(source))
    }
}

/// Why a listing could not be fetched.
#[derive(Debug, Clone, Copy, PartialEq, Eq, Structural)]
pub enum FetchError {
    /// The server answered with a status outside 200..=299.
    Status(u16),
    /// The response body was empty or blank.
    EmptyBody,
    /// The request did not complete (network failure or timeout).
    Transport,
}

pub open spec fn is_success(status: u16) -> bool {
    200 <= status <= 299
}

/// The verdict on a response: a non-success status, then a blank body, is
/// a fetch error.
pub open spec fn response_verdict(status: u16, body: Seq<char>) -> Result<(), FetchError> {
    if !is_success(status) {
        Err(FetchError::Status(status))
    } else if trimmed(body).len() == 0 {
        Err(FetchError::EmptyBody)
    } else {
        Ok(())
    }
}

/// Whether a response is usable; see [`response_verdict`].
pub fn check_response(status: u16, body: &str) -> (r: Result<(), FetchError>)
    ensures
        r == response_verdict(status, body@),
{
    if status < 200 || status > 299 {
        return Err(FetchError::Status(status));
    }
    let t = trim_text(body);
    if t.as_str().unicode_len() == 0 {
        return Err(FetchError::EmptyBody);
    }
    Ok(())
}

impl NoticeParser {
    /// The notices that the dialect makes of the page `body`.
    pub open spec fn page_notices(&self, body: Seq<char>) -> Seq<NoticeFields> {
        match self {
            NoticeParser::Egov(p) => egov_rows(*p, egov_page(body)),
            NoticeParser::PhpMaster(p) => php_rows(*p, php_page(body)),
            NoticeParser::CiBoard(p) => ciboard_rows(*p, ciboard_page(body)),
            NoticeParser::XeBoard(p) => xe_rows(*p, xe_page(body)),
        }
    }

    /// The page requested first: the listing, or for the PHP dialect the
    /// page that holds the hidden form values.
    pub fn list_url(&self) -> (r: String)
        ensures
            match self {
                NoticeParser::Egov(p) => r@ == p.base_url@ + "?bbsNo="@ + p.bbs_no@ + "&key="@ + p.key@
                    + "&pageUnit="@ + p.page_unit@ + "&pageIndex=1"@,
                NoticeParser::PhpMaster(p) => r@ == p.base_url@ + "/master.php?pg_idx="@ + p.pg_idx@,
                NoticeParser::CiBoard(p) => r@ == p.base_url@ + "/board/"@ + p.board_name@,
                NoticeParser::XeBoard(p) => r@ == p.base_url@ + "/"@ + p.mid@,
            },
    {
        match self {
            NoticeParser::Egov(p) => p.build_list_url(),
            NoticeParser::PhpMaster(p) => p.main_page_url(),
            NoticeParser::CiBoard(p) => p.board_url(),
            NoticeParser::XeBoard(p) => p.board_url(),
        }
    }

    /// The notices of a page body (for the PHP dialect, of the fragment the
    /// row endpoint returns).
    pub fn parse_page(&self, body: &str) -> (r: Vec<RawNotice>)
        ensures
            fields_of(r@) == self.page_notices(body@),
    {
        match self {
            NoticeParser::Egov(p) => p.parse_html(body),
            NoticeParser::PhpMaster(p) => p.parse_ajax_html(body),
            NoticeParser::CiBoard(p) => p.parse_html(body),
            NoticeParser::XeBoard(p) => p.parse_html(body),
        }
    }

    /// The notices of a response: a fetch error for a non-success status or
    /// a blank body, else what the page parses to. A page where no row
    /// matches gives no notices, not an error.
    pub fn handle_response(&self, status: u16, body: &str) -> (r: Result<Vec<RawNotice>, FetchError>)
        ensures
            r is Err <==> response_verdict(status, body@) is Err,
            r matches Err(e) ==> response_verdict(status, body@) == Err::<(), FetchError>(e),
            r matches Ok(ns) ==> fields_of(ns@) == self.page_notices(body@),
    {
        match check_response(status, body) {
            Err(e) => Err(e),
            Ok(()) => Ok(self.parse_page(body)),
        }
    }

    pub open spec fn source_key_spec(&self) -> Seq<char> {
        match self {
            NoticeParser::Egov(p) => p.source_key@,
            NoticeParser::PhpMaster(p) => p.source_key@,
            NoticeParser::CiBoard(p) => p.source_key@,
            NoticeParser::XeBoard(p) => p.source_key@,
        }
    }

    pub open spec fn display_name_spec(&self) -> Seq<char> {
        match self {
            NoticeParser::Egov(p) => p.display_name@,
            NoticeParser::PhpMaster(p) => p.display_name@,
            NoticeParser::CiBoard(p) => p.display_name@,
            NoticeParser::XeBoard(p) => p.display_name@,
        }
    }

    pub fn source_key(&self) -> (r: &str)
        ensures
            r@ == self.source_key_spec(),
    {
        match self {
            NoticeParser::Egov(p) => p.source_key.as_str(),
            NoticeParser::PhpMaster(p) => p.source_key.as_str(),
            NoticeParser::CiBoard(p) => p.source_key.as_str(),
            NoticeParser::XeBoard(p) => p.source_key.as_str(),
        }
    }

    pub fn display_name(&self) -> (r: &str)
        ensures
            r@ == self.display_name_spec(),
    {
        match self {
            NoticeParser::Egov(p) => p.display_name.as_str(),
            NoticeParser::PhpMaster(p) => p.display_name.as_str(),
            NoticeParser::CiBoard(p) => p.display_name.as_str(),
            NoticeParser::XeBoard(p) => p.display_name.as_str(),
        }
    }
}

} // verus!
