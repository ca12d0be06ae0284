use cbnu_notice::parser::RawNotice;
use cbnu_notice::store::{Database, StoreError};

fn make_notice(id: &str, title: &str) -> RawNotice {
    RawNotice {
        notice_id: id.to_string(),
        title: title.to_string(),
        url: format!("https://example.com/{}", id),
        author: Some("테스트".into()),
        date: Some("2026-02-01".into()),
        category: None,
        is_pinned: false,
    }
}

#[test]
fn test_insert_and_dedup() {
    let mut db = Database::init(":memory:").unwrap();
    let n = make_notice("123", "테스트 공지");

    let first = db.insert_if_new("test", &n, "테스트 소스").unwrap();
    assert!(first, "First insert should be new");

    let second = db.insert_if_new("test", &n, "테스트 소스").unwrap();
    assert!(!second, "Duplicate insert should be ignored");
}

#[test]
fn test_pending_and_mark_notified() {
    let mut db = Database::init(":memory:").unwrap();
    let display = vec![("test".to_string(), "테스트 소스".to_string())];

    db.insert_if_new("test", &make_notice("1", "공지1"), "테스트 소스").unwrap();
    db.insert_if_new("test", &make_notice("2", "공지2"), "테스트 소스").unwrap();

    let pending = db.get_pending(10, &display).unwrap();
    assert_eq!(pending.len(), 2);

    db.mark_notified(pending[0].id).unwrap();

    let pending = db.get_pending(10, &display).unwrap();
    assert_eq!(pending.len(), 1);
}

#[test]
fn test_error_count() {
    let mut db = Database::init(":memory:").unwrap();
    let c1 = db.increment_error("test").unwrap();
    assert_eq!(c1, 1);
    let c2 = db.increment_error("test").unwrap();
    assert_eq!(c2, 2);
    db.reset_error("test").unwrap();
    let c3 = db.increment_error("test").unwrap();
    assert_eq!(c3, 1);
}

#[test]
fn test_user_registration_and_subs() {
    let mut db = Database::init(":memory:").unwrap();

    db.register_user(12345, Some("testuser"), Some("Test")).unwrap();

    assert!(db.add_keyword_sub(12345, "장학금").unwrap());
    assert!(db.add_keyword_sub(12345, "채용").unwrap());
    assert!(!db.add_keyword_sub(12345, "장학금").unwrap());

    assert!(db.add_source_sub(12345, "cbnu_main").unwrap());

    let subs = db.get_user_subs(12345).unwrap();
    assert_eq!(subs.keywords, vec!["장학금", "채용"]);
    assert_eq!(subs.sources, vec!["cbnu_main"]);

    assert!(db.remove_keyword_sub(12345, "채용").unwrap());
    let subs = db.get_user_subs(12345).unwrap();
    assert_eq!(subs.keywords, vec!["장학금"]);
}

#[test]
fn test_source_subscribers() {
    let mut db = Database::init(":memory:").unwrap();
    db.register_user(100, None, None).unwrap();
    db.register_user(200, None, None).unwrap();
    db.add_source_sub(100, "biz").unwrap();
    db.add_source_sub(200, "biz").unwrap();

    let subs = db.get_source_subscribers("biz").unwrap();
    assert_eq!(subs.len(), 2);
    assert!(subs.contains(&100));
    assert!(subs.contains(&200));

    db.deactivate_user(200).unwrap();
    let subs = db.get_source_subscribers("biz").unwrap();
    assert_eq!(subs.len(), 1);
    assert_eq!(subs[0], 100);
}

#[test]
fn test_dm_log() {
    let mut db = Database::init(":memory:").unwrap();
    db.register_user(100, None, None).unwrap();
    db.insert_if_new("test", &make_notice("1", "장학금 공지"), "테스트").unwrap();

    assert!(!db.is_dm_sent(1, 100).unwrap());

    db.log_dm(1, 100, "keyword", Some("장학금")).unwrap();
    assert!(db.is_dm_sent(1, 100).unwrap());

    db.log_dm(1, 100, "keyword", Some("장학금")).unwrap();
}

#[test]
fn second_insert_leaves_the_row_as_it_was() {
    let mut db = Database::init(":memory:").unwrap();
    let n = make_notice("7", "장학금 신청 안내");
    assert!(db.insert_if_new("src", &n, "소스").unwrap());
    let before = db.get_pending(10, &Vec::new()).unwrap();
    let changed = make_notice("7", "다른 제목");
    assert!(!db.insert_if_new("src", &changed, "소스").unwrap());
    let after = db.get_pending(10, &Vec::new()).unwrap();
    assert_eq!(before.len(), 1);
    assert_eq!(after.len(), 1);
    assert_eq!(after[0].title, "장학금 신청 안내");
    assert_eq!(after[0].id, before[0].id);
    assert_eq!(after[0].category, "scholarship");
    assert_eq!(after[0].source_display_name, "src");
}

#[test]
fn same_id_in_another_source_is_new() {
    let mut db = Database::init(":memory:").unwrap();
    assert!(db.insert_if_new("a", &make_notice("1", "x"), "A").unwrap());
    assert!(db.insert_if_new("b", &make_notice("1", "x"), "B").unwrap());
    assert_eq!(db.get_pending(10, &Vec::new()).unwrap().len(), 2);
}

#[test]
fn pending_is_newest_first_and_bounded() {
    let mut db = Database::init(":memory:").unwrap();
    for i in 1..=5 {
        db.insert_if_new("s", &make_notice(&i.to_string(), &format!("공지{}", i)), "S").unwrap();
    }
    let names = vec![("s".to_string(), "에스".to_string())];
    let p = db.get_pending(3, &names).unwrap();
    assert_eq!(p.len(), 3);
    assert_eq!(p[0].notice_id, "5");
    assert_eq!(p[1].notice_id, "4");
    assert_eq!(p[2].notice_id, "3");
    assert_eq!(p[0].source_display_name, "에스");
    assert!(db.get_pending(0, &names).unwrap().is_empty());
    db.mark_all_notified("s").unwrap();
    assert!(db.get_pending(10, &names).unwrap().is_empty());
    assert_eq!(db.get_recent_for_dm(100).unwrap().len(), 5);
}

#[test]
fn error_counter_sequence_and_reset_by_success() {
    let mut db = Database::init(":memory:").unwrap();
    assert_eq!(db.increment_error("s").unwrap(), 1);
    assert_eq!(db.increment_error("s").unwrap(), 2);
    assert_eq!(db.increment_error("s").unwrap(), 3);
    db.update_crawl_state("s", Some("99")).unwrap();
    assert_eq!(db.increment_error("s").unwrap(), 1);
    let stats = db.get_crawl_stats().unwrap();
    assert_eq!(stats.len(), 1);
    assert_eq!(stats[0].source_key, "s");
    assert_eq!(stats[0].error_count, 1);
    assert!(stats[0].last_crawled.is_some());
}

#[test]
fn counters_are_per_source() {
    let mut db = Database::init(":memory:").unwrap();
    assert_eq!(db.increment_error("a").unwrap(), 1);
    assert_eq!(db.increment_error("b").unwrap(), 1);
    assert_eq!(db.increment_error("a").unwrap(), 2);
}

#[test]
fn removing_what_is_absent_reports_false() {
    let mut db = Database::init(":memory:").unwrap();
    assert!(!db.remove_keyword_sub(1, "x").unwrap());
    assert!(!db.remove_source_sub(1, "x").unwrap());
    assert!(db.add_source_sub(1, "x").unwrap());
    assert!(!db.add_source_sub(1, "x").unwrap());
    assert!(db.remove_source_sub(1, "x").unwrap());
    assert!(db.get_user_subs(1).unwrap().sources.is_empty());
}

#[test]
fn keyword_subscriptions_of_inactive_users_are_hidden() {
    let mut db = Database::init(":memory:").unwrap();
    db.register_user(1, None, None).unwrap();
    db.register_user(2, None, None).unwrap();
    db.add_keyword_sub(1, "장학").unwrap();
    db.add_keyword_sub(2, "채용").unwrap();
    db.add_keyword_sub(3, "행사").unwrap();
    db.deactivate_user(2).unwrap();
    let all = db.get_all_keyword_subs().unwrap();
    assert_eq!(all, vec![(1, "장학".to_string())]);
    db.register_user(2, None, None).unwrap();
    assert_eq!(db.get_all_keyword_subs().unwrap().len(), 2);
}

#[test]
fn deadlines_and_paths() {
    let mut db = Database::init("notices.db").unwrap();
    assert_eq!(db.path(), "notices.db");
    db.insert_if_new("s", &make_notice("1", "a"), "S").unwrap();
    db.set_deadline(1, "2026-02-14").unwrap();
    db.set_deadline(42, "2026-02-14").unwrap();
    assert_eq!(db.get_pending(10, &Vec::new()).unwrap().len(), 1);
    let _ = StoreError::Full;
}

#[test]
fn deadline_listing_is_earliest_first_from_today() {
    let mut db = Database::init(":memory:").unwrap();
    for i in 1..=4 {
        db.insert_if_new("s", &make_notice(&i.to_string(), "공지"), "S").unwrap();
    }
    db.set_deadline(1, "2026-03-10").unwrap();
    db.set_deadline(2, "2026-02-01").unwrap();
    db.set_deadline(3, "2026-03-01").unwrap();
    db.set_deadline(4, "2026-03-01").unwrap();
    let ns = db.get_deadline_notices_from(10, "2026-02-15");
    let ids: Vec<i64> = ns.iter().map(|n| n.id).collect();
    assert_eq!(ids, vec![3, 4, 1]);
    assert_eq!(db.get_deadline_notices_from(2, "2026-02-15").len(), 2);
    assert!(db.get_deadline_notices_from(10, "2027-01-01").is_empty());
    assert!(db.get_deadline_notices(10).is_ok());
}

#[test]
fn crawl_stats_are_ordered_by_source_key() {
    let mut db = Database::init(":memory:").unwrap();
    db.increment_error("zeta").unwrap();
    db.update_crawl_state("alpha", None).unwrap();
    db.increment_error("mid").unwrap();
    db.increment_error("mid").unwrap();
    let stats = db.get_crawl_stats().unwrap();
    let keys: Vec<&str> = stats.iter().map(|s| s.source_key.as_str()).collect();
    assert_eq!(keys, vec!["alpha", "mid", "zeta"]);
    assert_eq!(stats[1].error_count, 2);
    assert_eq!(stats[0].error_count, 0);
}

#[test]
fn failures_leave_the_last_success_time() {
    let mut db = Database::init(":memory:").unwrap();
    db.increment_error("fresh").unwrap();
    db.update_crawl_state("ok", Some("7")).unwrap();
    let before = db.get_crawl_stats().unwrap();
    db.increment_error("ok").unwrap();
    let after = db.get_crawl_stats().unwrap();
    assert_eq!(after[0].source_key, "fresh");
    assert_eq!(after[0].last_crawled, None);
    assert_eq!(after[1].source_key, "ok");
    assert_eq!(after[1].last_crawled, before[1].last_crawled);
    assert_eq!(after[1].error_count, 1);
}
