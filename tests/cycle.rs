use cbnu_notice::config::{default_db_path, default_delay, default_max_notices, default_true};
use cbnu_notice::crawl::{date_text, enrich_deadlines_for_year, ingest, record_failure, retry_delay_secs, should_alert};
use cbnu_notice::deadline::Date;
use cbnu_notice::notifier::{alert_text, channel_for, cycle_summary, decimal_text, escape_markdown, notice_text, source_stat, summary_wanted};
use cbnu_notice::parser::RawNotice;
use cbnu_notice::store::{Database, Notice};

fn raw(id: &str, title: &str) -> RawNotice {
    RawNotice {
        notice_id: id.to_string(),
        title: title.to_string(),
        url: format!("https://example.com/{}", id),
        author: None,
        date: None,
        category: None,
        is_pinned: false,
    }
}

#[test]
fn test_escape_markdown() {
    assert_eq!(escape_markdown("hello"), "hello");
    assert_eq!(escape_markdown("test_var"), "test\\_var");
    assert_eq!(escape_markdown("[학사]"), "\\[학사\\]");
    assert_eq!(escape_markdown("2026.02.01 | author"), "2026\\.02\\.01 \\| author");
}

#[test]
fn retry_backoff_doubles_from_two() {
    assert_eq!(retry_delay_secs(0), Some(2));
    assert_eq!(retry_delay_secs(1), Some(4));
    assert_eq!(retry_delay_secs(2), Some(8));
    assert_eq!(retry_delay_secs(3), None);
}

#[test]
fn alert_threshold() {
    assert!(!should_alert(4));
    assert!(should_alert(5));
    assert!(should_alert(6));
}

#[test]
fn failures_escalate_at_five_and_success_resets() {
    let mut db = Database::init(":memory:").unwrap();
    for expected in 1..=4u32 {
        let r = record_failure(&mut db, "s");
        assert_eq!(r.count, expected);
        assert!(!r.alert);
    }
    let r = record_failure(&mut db, "s");
    assert_eq!(r.count, 5);
    assert!(r.alert);
    let n = ingest(&mut db, "s", "S", &vec![raw("2", "b"), raw("1", "a")]);
    assert_eq!(n, 2);
    let r = record_failure(&mut db, "s");
    assert_eq!(r.count, 1);
}

#[test]
fn ingest_counts_only_new_notices() {
    let mut db = Database::init(":memory:").unwrap();
    assert_eq!(ingest(&mut db, "s", "S", &vec![raw("1", "a"), raw("2", "b")]), 2);
    assert_eq!(ingest(&mut db, "s", "S", &vec![raw("3", "c"), raw("2", "b"), raw("1", "a")]), 1);
    assert_eq!(ingest(&mut db, "s", "S", &Vec::new()), 0);
    assert_eq!(db.get_pending(10, &Vec::new()).unwrap().len(), 3);
}

#[test]
fn enrichment_writes_dates() {
    let mut db = Database::init(":memory:").unwrap();
    ingest(&mut db, "s", "S", &vec![raw("1", "장학금 신청 (~2026.02.14까지)"), raw("2", "장학금 신청 안내")]);
    let pending = db.get_pending(10, &Vec::new()).unwrap();
    assert_eq!(enrich_deadlines_for_year(&mut db, &pending, 2026), 1);
}

#[test]
fn dates_are_written_zero_padded() {
    assert_eq!(date_text(Date { year: 2026, month: 2, day: 4 }), "2026-02-04");
    assert_eq!(date_text(Date { year: 987, month: 11, day: 30 }), "0987-11-30");
    assert_eq!(decimal_text(0), "0");
    assert_eq!(decimal_text(1234567), "1234567");
}

#[test]
fn broadcast_text_and_routing() {
    let n = Notice {
        id: 3,
        source_key: "biz".to_string(),
        notice_id: "9".to_string(),
        title: "장학금 (1차)".to_string(),
        url: "https://e/9".to_string(),
        author: None,
        category: "scholarship".to_string(),
        published: Some("2026.02.01".to_string()),
        source_display_name: "경영학부".to_string(),
    };
    assert_eq!(
        notice_text(&n),
        "\u{1f4b0} *경영학부*\n\n\\[장학\\] 장학금 \\(1차\\)\n\n\u{1f4c5} 2026\\.02\\.01 \\| \u{270d}\u{fe0f} 작성자 미상"
    );
    let mut g = n.clone();
    g.category = "general".to_string();
    assert!(notice_text(&g).starts_with("\u{1f4e2} *경영학부*\n\n장학금"));
    let map = vec![("biz".to_string(), "@cbnu_dept".to_string())];
    assert_eq!(channel_for("biz", &map, "@cbnu_notice"), "@cbnu_dept");
    assert_eq!(channel_for("main", &map, "@cbnu_notice"), "@cbnu_notice");
}

#[test]
fn summary_and_alert_texts() {
    let stats = vec![source_stat("a", Some(3)), source_stat("b", None)];
    assert_eq!(stats[0], "a:3");
    assert_eq!(stats[1], "b:ERR");
    assert_eq!(cycle_summary(3, 2, 1, &stats), "\u{2705} Crawl done: 3 new / 2 ch-sent / 1 dm | a:3 b:ERR");
    assert!(summary_wanted(0, 0, 1));
    assert!(!summary_wanted(0, 0, 0));
    assert_eq!(
        alert_text("biz", 5, "timeout"),
        "\u{26a0}\u{fe0f} 크롤링 경고\n\n소스: biz\n상태: 연속 5회 실패\n에러: timeout"
    );
}

#[test]
fn configuration_defaults() {
    assert_eq!(default_max_notices(), 20);
    assert_eq!(default_delay(), 150);
    assert_eq!(default_db_path(), "notices.db");
    assert!(default_true());
}
