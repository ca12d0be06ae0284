use cbnu_notice::commands::{
    handle_dept, handle_help, handle_mysubs, handle_sources, handle_start, handle_sub, handle_undept, handle_unsub,
};
use cbnu_notice::config::SourceConfig;
use cbnu_notice::store::Database;

fn sources() -> Vec<SourceConfig> {
    vec![
        SourceConfig {
            key: "biz".to_string(),
            display_name: "경영학부".to_string(),
            parser: "php_master".to_string(),
            url: "https://biz.chungbuk.ac.kr".to_string(),
            params: vec![("pg_idx".to_string(), "7".to_string())],
            enabled: true,
            channel: None,
        },
        SourceConfig {
            key: "civil".to_string(),
            display_name: "토목공학부".to_string(),
            parser: "xe_board".to_string(),
            url: "https://civil.chungbuk.ac.kr".to_string(),
            params: Vec::new(),
            enabled: false,
            channel: None,
        },
    ]
}

#[test]
fn sub_replies() {
    let mut db = Database::init(":memory:").unwrap();
    assert_eq!(handle_sub(&mut db, 1, "  장학금 "), "\u{2705} '장학금' 키워드 구독 완료!");
    assert_eq!(handle_sub(&mut db, 1, "장학금"), "\u{2139}\u{fe0f} '장학금' 이미 구독 중입니다.");
    assert_eq!(handle_sub(&mut db, 1, "   "), "\u{26a0}\u{fe0f} 키워드를 입력하세요.\n예: /sub 장학금");
    // Seventeen Hangul syllables are 51 bytes.
    let long = "가".repeat(17);
    assert_eq!(handle_sub(&mut db, 1, &long), "\u{26a0}\u{fe0f} 키워드가 너무 깁니다 (최대 50자).");
    let fits = "가".repeat(16);
    assert!(handle_sub(&mut db, 1, &fits).starts_with("\u{2705}"));
    assert_eq!(handle_unsub(&mut db, 1, "장학금"), "\u{2705} '장학금' 구독 해제 완료!");
    assert_eq!(handle_unsub(&mut db, 1, "장학금"), "\u{2139}\u{fe0f} '장학금' 구독 중이 아닙니다.");
}

#[test]
fn dept_replies() {
    let mut db = Database::init(":memory:").unwrap();
    let src = sources();
    assert_eq!(handle_dept(&mut db, &src, 1, "biz"), "\u{2705} 경영학부 구독 완료!");
    assert_eq!(handle_dept(&mut db, &src, 1, "biz"), "\u{2139}\u{fe0f} 'biz' 이미 구독 중입니다.");
    assert_eq!(
        handle_dept(&mut db, &src, 1, "nope"),
        "\u{274c} 'nope' 는 유효한 소스가 아닙니다.\n/sources 로 목록을 확인하세요."
    );
    assert_eq!(handle_undept(&mut db, 1, "biz"), "\u{2705} 'biz' 구독 해제 완료!");
    assert_eq!(handle_undept(&mut db, 1, ""), "\u{26a0}\u{fe0f} 학과 코드를 입력하세요.");
}

#[test]
fn mysubs_lists_sorted_subscriptions() {
    let mut db = Database::init(":memory:").unwrap();
    let src = sources();
    assert_eq!(
        handle_mysubs(&db, &src, 1),
        "\u{1f4ed} 구독 중인 항목이 없습니다.\n\n/sub 키워드 또는 /dept 학과코드 로 구독하세요!"
    );
    db.add_keyword_sub(1, "채용").unwrap();
    db.add_keyword_sub(1, "장학금").unwrap();
    db.add_source_sub(1, "biz").unwrap();
    let subs = db.get_user_subs(1).unwrap();
    assert_eq!(subs.keywords, vec!["장학금", "채용"]);
    assert_eq!(
        handle_mysubs(&db, &src, 1),
        "\u{1f4cb} <b>내 구독 현황</b>\n\n\u{1f50d} <b>키워드 구독:</b>\n  • 장학금\n  • 채용\n\n\u{1f3eb} <b>학과 구독:</b>\n  • 경영학부 (biz)\n"
    );
}

#[test]
fn sources_start_and_help() {
    let text = handle_sources(&sources());
    assert_eq!(
        text,
        "\u{1f4da} <b>사용 가능한 소스 목록</b>\n\n\u{2705} <code>biz</code> — 경영학부\n\u{23f8}\u{fe0f} <code>civil</code> — 토목공학부\n\n\u{1f4a1} /dept &lt;코드&gt; 로 구독하세요!"
    );
    assert!(handle_start("민수").starts_with("\u{1f44b} 안녕하세요, 민수님!"));
    assert!(handle_help().contains("/mysubs"));
}

#[test]
fn keywords_sort_by_code_point() {
    let mut db = Database::init(":memory:").unwrap();
    for k in ["b", "a", "B", "ab", "가"] {
        db.add_keyword_sub(9, k).unwrap();
    }
    assert_eq!(db.get_user_subs(9).unwrap().keywords, vec!["B", "a", "ab", "b", "가"]);
}
