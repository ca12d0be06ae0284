use cbnu_notice::config::{Config, BotConfig, DbConfig, SourceConfig};
use cbnu_notice::parser::ciboard::CiBoardParser;
use cbnu_notice::parser::egov::EgovParser;
use cbnu_notice::parser::php_master::{extract_form_params, PhpMasterParser};
use cbnu_notice::parser::xe_board::{xe_id_exec, XeBoardParser};
use cbnu_notice::parser::{check_response, create_parser, number_after_exec, FetchError, NoticeParser};

fn source(key: &str, parser: &str, url: &str, params: &[(&str, &str)]) -> SourceConfig {
    SourceConfig {
        key: key.to_string(),
        display_name: format!("{} 공지", key),
        parser: parser.to_string(),
        url: url.to_string(),
        params: params.iter().map(|(k, v)| (k.to_string(), v.to_string())).collect(),
        enabled: true,
        channel: None,
    }
}

#[test]
fn egov_urls_and_rows() {
    let cfg = source(
        "cbnu_main",
        "egov",
        "https://www.chungbuk.ac.kr/www/selectBbsNttList.do",
        &[("bbsNo", "8"), ("key", "813")],
    );
    let p = EgovParser::from_config(&cfg);
    assert_eq!(
        p.build_list_url(),
        "https://www.chungbuk.ac.kr/www/selectBbsNttList.do?bbsNo=8&key=813&pageUnit=10&pageIndex=1"
    );
    assert_eq!(
        p.build_view_url("182452"),
        "https://www.chungbuk.ac.kr/www/selectBbsNttView.do?bbsNo=8&key=813&nttNo=182452"
    );
    let html = r#"<html><body><table class="board-list"><tbody>
        <tr><td>공지</td><td>학사</td><td><a href="./selectBbsNttView.do?bbsNo=8&amp;nttNo=182452&amp;key=813">  2026학년도 수강신청 안내  </a></td><td>학사과</td><td>2026-02-01</td><td>10</td></tr>
        <tr><td>3</td><td><a href="./view.do?nttNo=182451">일반 공지</a></td><td>총무과</td><td>2026-01-30</td><td>5</td></tr>
        <tr><td>2</td><td><a href="./view.do?nothing=1">번호 없는 행</a></td><td>x</td><td>y</td></tr>
        <tr><td>1</td><td><a href="./view.do?nttNo=5">   </a></td><td>x</td><td>y</td></tr>
        </tbody></table></body></html>"#;
    let ns = p.parse_html(html);
    assert_eq!(ns.len(), 2);
    assert_eq!(ns[0].notice_id, "182452");
    assert_eq!(ns[0].title, "2026학년도 수강신청 안내");
    assert!(ns[0].is_pinned);
    assert_eq!(ns[0].category.as_deref(), Some("학사"));
    assert_eq!(ns[0].author.as_deref(), Some("학사과"));
    assert_eq!(ns[0].date.as_deref(), Some("2026-02-01"));
    assert_eq!(ns[1].notice_id, "182451");
    assert!(!ns[1].is_pinned);
    assert_eq!(ns[1].category, None);
    assert_eq!(ns[1].author.as_deref(), Some("총무과"));
}

#[test]
fn selector_fallback_stops_at_first_matching_selector() {
    let cfg = source("s", "egov", "https://x/selectBbsNttList.do", &[]);
    let p = EgovParser::from_config(&cfg);
    let html = r#"<table class="bbs-list"><tbody>
        <tr><td>1</td><td><a href="v?nttNo=11">첫째</a></td><td>a</td><td>b</td></tr>
        </tbody></table>
        <table class="other"><tbody>
        <tr><td>1</td><td><a href="v?nttNo=22">둘째</a></td><td>a</td><td>b</td></tr>
        </tbody></table>"#;
    let ns = p.parse_html(html);
    assert_eq!(ns.len(), 1);
    assert_eq!(ns[0].notice_id, "11");
    assert!(p.parse_html("<p>no table</p>").is_empty());
}

#[test]
fn ciboard_rows_use_title_attribute_and_badge() {
    let cfg = source("sociology", "ciboard", "https://sociology.chungbuk.ac.kr/", &[]);
    let p = CiBoardParser::from_config(&cfg);
    assert_eq!(p.board_url(), "https://sociology.chungbuk.ac.kr/board/department_notice");
    let html = r#"<table class="gitav_table_skin1"><tbody>
        <tr><td><span class="label">공지</span></td><td><a href="https://sociology.chungbuk.ac.kr/post/123" title=" 전체 제목 ">짧은…</a></td><td>-</td><td>01-27</td><td>391</td></tr>
        <tr><td>5</td><td><a href="/post/124">본문 제목</a></td><td>-</td><td></td><td>3</td></tr>
        </tbody></table>"#;
    let ns = p.parse_html(html);
    assert_eq!(ns.len(), 2);
    assert_eq!(ns[0].notice_id, "123");
    assert_eq!(ns[0].title, "전체 제목");
    assert!(ns[0].is_pinned);
    assert_eq!(ns[0].url, "https://sociology.chungbuk.ac.kr/post/123");
    assert_eq!(ns[0].date.as_deref(), Some("01-27"));
    assert_eq!(ns[1].title, "본문 제목");
    assert!(!ns[1].is_pinned);
    assert_eq!(ns[1].date, None);
}

#[test]
fn xe_rows_and_ids() {
    let cfg = source("civil", "xe_board", "https://civil.chungbuk.ac.kr", &[("mid", "board_jIDW98")]);
    let p = XeBoardParser::from_config(&cfg);
    assert_eq!(p.board_url(), "https://civil.chungbuk.ac.kr/board_jIDW98");
    let html = r#"<table class="bd_lst bd_tb_lst bd_tb"><tbody>
        <tr><td class="no"><strong>공지</strong></td><td class="title"><a href="https://civil.chungbuk.ac.kr/board_jIDW98/4242" class="hx">공지 제목</a></td><td class="author"><span><a>관리자</a></span></td><td class="time">2026.02.06</td><td class="m_no">22</td></tr>
        <tr><td class="no">3</td><td class="title"><a href="/index.php?mid=board&amp;document_srl=777">둘째</a></td><td class="author"> </td><td class="time">2026.02.01</td></tr>
        </tbody></table>"#;
    let ns = p.parse_html(html);
    assert_eq!(ns.len(), 2);
    assert_eq!(ns[0].notice_id, "4242");
    assert!(ns[0].is_pinned);
    assert_eq!(ns[0].author.as_deref(), Some("관리자"));
    assert_eq!(ns[0].url, "https://civil.chungbuk.ac.kr/board_jIDW98/4242");
    assert_eq!(ns[1].notice_id, "777");
    assert_eq!(ns[1].author, None);
    assert_eq!(ns[1].date.as_deref(), Some("2026.02.01"));
    assert_eq!(xe_id_exec("https://x/m/12?page=2").as_deref(), Some("12"));
    assert_eq!(xe_id_exec("https://x/m/12a"), None);
    assert_eq!(xe_id_exec("https://x/m/12#c").as_deref(), Some("12"));
}

#[test]
fn php_master_two_step() {
    let cfg = source("biz", "php_master", "https://biz.chungbuk.ac.kr/", &[("pg_idx", "7")]);
    let p = PhpMasterParser::from_config(&cfg);
    assert_eq!(p.main_page_url(), "https://biz.chungbuk.ac.kr/master.php?pg_idx=7");
    assert_eq!(p.ajax_url(), "https://biz.chungbuk.ac.kr/module/board/_main.php");
    let page = r#"<form><input type="hidden" id="bidx" value="15"><input type="hidden" id="id" value="abc"></form>"#;
    let fp = extract_form_params(page);
    assert_eq!(fp.bidx, "15");
    assert_eq!(fp.id, "abc");
    let fp2 = extract_form_params("<p></p>");
    assert_eq!(fp2.bidx, "2");
    assert_eq!(fp2.id, "");
    let form = p.ajax_form(&fp);
    assert_eq!(form.len(), 8);
    assert_eq!(form[0], ("pg_idx".to_string(), "7".to_string()));
    assert_eq!(form[1], ("bidx".to_string(), "15".to_string()));
    assert_eq!(form[7], ("mode".to_string(), "list".to_string()));
    let fragment = r#"<div class="board_rows"><div>공지</div><div><a href="master.php?mod=view&amp;pidx=901">  행사 안내 </a></div><div>관리자</div><div>2026-02-03</div><div>10</div></div>
        <div class="board_rows"><div>1</div><div><a href="x">링크 없음</a></div><div>a</div><div>b</div></div>"#;
    let ns = p.parse_ajax_html(fragment);
    assert!(!ns.is_empty());
    assert_eq!(ns[0].notice_id, "901");
    assert_eq!(ns[0].title, "행사 안내");
    assert!(ns[0].is_pinned);
    assert!(ns[0].url.contains("pidx=901"));
}

#[test]
fn link_number_patterns() {
    assert_eq!(number_after_exec("a?nttNo=&nttNo=55&x", "nttNo=").as_deref(), Some("55"));
    assert_eq!(number_after_exec("/post/", "/post/"), None);
    assert_eq!(number_after_exec("x/post/0123/y", "/post/").as_deref(), Some("0123"));
}

#[test]
fn responses_and_dispatch() {
    assert_eq!(check_response(404, "<html>x</html>"), Err(FetchError::Status(404)));
    assert_eq!(check_response(200, "   \n"), Err(FetchError::EmptyBody));
    assert_eq!(check_response(200, "<p>x</p>"), Ok(()));
    let cfg = source("c", "ciboard", "https://c.example", &[("board_name", "notice")]);
    let p = create_parser(&cfg);
    assert!(matches!(p, NoticeParser::CiBoard(_)));
    assert_eq!(p.source_key(), "c");
    assert_eq!(p.display_name(), "c 공지");
    assert_eq!(p.list_url(), "https://c.example/board/notice");
    assert_eq!(p.handle_response(500, "x").unwrap_err(), FetchError::Status(500));
    assert!(p.handle_response(200, "<p>nothing</p>").unwrap().is_empty());
}

#[test]
fn enabled_sources_and_params() {
    let mut disabled = source("biz", "php_master", "https://biz.chungbuk.ac.kr", &[("pg_idx", "7")]);
    disabled.enabled = false;
    let cfg = Config {
        bot: BotConfig {
            telegram_channel: "@cbnu_notice".to_string(),
            log_channel: None,
            max_notices_per_run: 10,
            message_delay_ms: 200,
        },
        database: DbConfig { path: "test.db".to_string() },
        sources: vec![source("cbnu_main", "egov", "https://x", &[("bbsNo", "8"), ("bbsNo", "9")]), disabled],
    };
    let enabled = cfg.enabled_sources();
    assert_eq!(enabled.len(), 1);
    assert_eq!(enabled[0].key, "cbnu_main");
    assert_eq!(cfg.sources[0].param_or("bbsNo", "0"), "8");
    assert_eq!(cfg.sources[0].param_or("pageUnit", "10"), "10");
}

#[test]
fn titles_lose_unicode_whitespace() {
    let cfg = source("s", "egov", "https://x/selectBbsNttList.do", &[]);
    let p = EgovParser::from_config(&cfg);
    let html = "<table class=\"board-list\"><tbody><tr><td>1</td><td><a href=\"v?nttNo=3\">\u{3000}\u{a0}제목 \u{2003}</a></td><td>a</td><td>b</td></tr></tbody></table>";
    let ns = p.parse_html(html);
    assert_eq!(ns.len(), 1);
    assert_eq!(ns[0].title, "제목");
}

#[test]
fn no_candidate_selector_matches() {
    let cfg = source("s", "xe_board", "https://x", &[("mid", "m")]);
    let p = XeBoardParser::from_config(&cfg);
    assert!(p.parse_html("<table class=\"other\"><tbody><tr><td>x</td></tr></tbody></table>").is_empty());
}
