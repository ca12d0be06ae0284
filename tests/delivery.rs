use cbnu_notice::dm_engine::{dm_text, find_matches, html_escape, record_outcome, should_send, DmMatch, SendOutcome};
use cbnu_notice::parser::RawNotice;
use cbnu_notice::store::{Database, Notice};

fn notice(title: &str, source_key: &str) -> Notice {
    Notice {
        id: 1,
        source_key: source_key.to_string(),
        notice_id: "10".to_string(),
        title: title.to_string(),
        url: "https://example.com/10".to_string(),
        author: None,
        category: "scholarship".to_string(),
        published: Some("2026-02-01".to_string()),
        source_display_name: "경영학부".to_string(),
    }
}

#[test]
fn test_html_escape() {
    assert_eq!(html_escape("hello"), "hello");
    assert_eq!(html_escape("<b>bold</b>"), "&lt;b&gt;bold&lt;/b&gt;");
    assert_eq!(html_escape("A & B"), "A &amp; B");
}

#[test]
fn fan_out_two_users_no_duplicates() {
    let n = notice("2026 장학금 신청 안내", "biz");
    // User 1 matches by keyword and also subscribes to the source; user 2
    // subscribes to the source only.
    let keyword_subs = vec![(1, "장학금".to_string())];
    let source_subs = vec![1, 2];
    let m = find_matches(&n, &keyword_subs, &source_subs);
    assert_eq!(m.len(), 2);
    assert_eq!(m[0].telegram_id, 1);
    assert_eq!(m[0].match_type, "keyword");
    assert_eq!(m[0].match_value, "장학금");
    assert_eq!(m[1].telegram_id, 2);
    assert_eq!(m[1].match_type, "source");
    assert_eq!(m[1].match_value, "biz");
}

#[test]
fn keyword_match_ignores_case_and_first_keyword_wins() {
    let n = notice("AI Seminar 안내", "x");
    let keyword_subs = vec![(5, "ai".to_string()), (5, "SEMINAR".to_string()), (6, "robot".to_string())];
    let m = find_matches(&n, &keyword_subs, &Vec::new());
    assert_eq!(m.len(), 1);
    assert_eq!(m[0].telegram_id, 5);
    assert_eq!(m[0].match_value, "ai");
}

#[test]
fn no_subscriptions_no_candidates() {
    let n = notice("공지", "x");
    assert!(find_matches(&n, &Vec::new(), &Vec::new()).is_empty());
}

#[test]
fn delivered_once_is_not_sent_again() {
    let mut db = Database::init(":memory:").unwrap();
    db.register_user(100, Some("u"), None).unwrap();
    db.add_keyword_sub(100, "장학금").unwrap();
    let raw = RawNotice {
        notice_id: "1".to_string(),
        title: "장학금 신청".to_string(),
        url: "https://example.com/1".to_string(),
        author: None,
        date: None,
        category: None,
        is_pinned: false,
    };
    db.insert_if_new("s", &raw, "S").unwrap();
    db.mark_notified(1).unwrap();

    let mut sent_total = 0;
    for _cycle in 0..2 {
        let recent = db.get_recent_for_dm(100).unwrap();
        assert_eq!(recent.len(), 1);
        let kw = db.get_all_keyword_subs().unwrap();
        let subs = db.get_source_subscribers(&recent[0].source_key).unwrap();
        let matches = find_matches(&recent[0], &kw, &subs);
        assert_eq!(matches.len(), 1);
        for m in &matches {
            if should_send(&db, recent[0].id, m) {
                sent_total += record_outcome(&mut db, recent[0].id, m, SendOutcome::Sent);
            }
        }
    }
    assert_eq!(sent_total, 1);
    assert!(db.is_dm_sent(1, 100).unwrap());
}

#[test]
fn blocked_recipient_is_deactivated() {
    let mut db = Database::init(":memory:").unwrap();
    db.register_user(7, None, None).unwrap();
    db.add_source_sub(7, "s").unwrap();
    let m = DmMatch { telegram_id: 7, match_type: "source".to_string(), match_value: "s".to_string() };
    assert_eq!(record_outcome(&mut db, 1, &m, SendOutcome::Failed), 0);
    assert_eq!(db.get_source_subscribers("s").unwrap(), vec![7]);
    assert_eq!(record_outcome(&mut db, 1, &m, SendOutcome::Blocked), 0);
    assert!(db.get_source_subscribers("s").unwrap().is_empty());
    assert!(!db.is_dm_sent(1, 7).unwrap());
}

#[test]
fn direct_message_text() {
    let n = notice("장학금 <신청>", "biz");
    let t = dm_text(&n, "keyword", "장학금");
    assert_eq!(
        t,
        "\u{1f4b0} <b>경영학부</b>\n\n장학금 &lt;신청&gt;\n\n\u{1f50d} 키워드: 장학금\n\u{1f4c5} 2026-02-01"
    );
    let t = dm_text(&n, "source", "biz");
    assert!(t.contains("\u{1f3eb} 학과: 경영학부"));
}
