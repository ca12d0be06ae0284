use cbnu_notice::deadline::{extract_deadline, extract_deadline_for_year, Date};

#[test]
fn test_full_date_with_deadline_keyword() {
    let d = extract_deadline("장학금 신청 (~2026.02.14까지)");
    assert_eq!(d, Date::from_ymd_opt(2026, 2, 14));
}

#[test]
fn test_short_date_with_keyword() {
    let d = extract_deadline("(재)하림장학재단 추천 안내(2.10.(화)까지 신청서 제출)");
    assert!(d.is_some());
    assert_eq!(d.unwrap().month(), 2);
    assert_eq!(d.unwrap().day(), 10);
}

#[test]
fn test_range_picks_last() {
    let d = extract_deadline("2.6(금)~2.8(일) 등록금 납부");
    assert!(d.is_some());
    assert_eq!(d.unwrap().day(), 8);
}

#[test]
fn test_no_date_returns_none() {
    assert!(extract_deadline("장학금 신청 안내").is_none());
}

#[test]
fn test_full_iso_date() {
    let d = extract_deadline("2026-03-01 마감 공지");
    assert_eq!(d, Date::from_ymd_opt(2026, 3, 1));
}

#[test]
fn month_day_takes_the_reference_year() {
    let d = extract_deadline_for_year("3월 5일까지 제출", 2025);
    assert_eq!(d, Some(Date { year: 2025, month: 3, day: 5 }));
}

#[test]
fn month_day_with_space_and_markers() {
    let d = extract_deadline_for_year("접수 12월 1일 마감", 2024);
    assert_eq!(d, Some(Date { year: 2024, month: 12, day: 1 }));
}

#[test]
fn keyword_order_decides() {
    // "까지" is looked at before "마감", whatever their places.
    let title = "2026.03.01 마감 가나다라마바사아자차카타파하가나다라마바사아자차카타파하가나다라마바사아자차카타파하 2026.03.20까지";
    let d = extract_deadline_for_year(title, 2026);
    assert_eq!(d, Some(Date { year: 2026, month: 3, day: 20 }));
    // In one window, the leftmost date wins.
    let d = extract_deadline_for_year("2026.01.10 마감, 2026.01.20까지 보완", 2026);
    assert_eq!(d, Some(Date { year: 2026, month: 1, day: 10 }));
}

#[test]
fn window_is_forty_characters() {
    // The date lies more than forty characters before the keyword, so the
    // fallback (the last date of the title) answers.
    let title = "2026.05.01 가나다라마바사아자차카타파하가나다라마바사아자차카타파하가나다라마바사아자차카타파하 까지 2026.06.01";
    let d = extract_deadline_for_year(title, 2026);
    assert_eq!(d, Some(Date { year: 2026, month: 6, day: 1 }));
}

#[test]
fn full_date_beats_month_day_in_fallback() {
    let d = extract_deadline_for_year("2026/04/30 공지 (5.2 수정)", 2026);
    assert_eq!(d, Some(Date { year: 2026, month: 4, day: 30 }));
}

#[test]
fn invalid_dates_are_skipped() {
    assert_eq!(extract_deadline_for_year("2026.02.30 공지", 2026), None);
    assert_eq!(extract_deadline_for_year("2.29 공지", 2023), None);
    assert_eq!(extract_deadline_for_year("2.29 공지", 2024), Some(Date { year: 2024, month: 2, day: 29 }));
    assert_eq!(extract_deadline_for_year("2026.13.01 그리고 2026.01.31", 2026), Some(Date { year: 2026, month: 1, day: 31 }));
}

#[test]
fn calendar_dates() {
    assert_eq!(Date::from_ymd_opt(2024, 2, 29).map(|d| d.day()), Some(29));
    assert!(Date::from_ymd_opt(2100, 2, 29).is_none());
    assert!(Date::from_ymd_opt(2000, 2, 29).is_some());
    assert!(Date::from_ymd_opt(2026, 4, 31).is_none());
    assert!(Date::from_ymd_opt(2026, 0, 1).is_none());
    assert_eq!(Date::from_ymd_opt(2026, 12, 31).map(|d| d.year()), Some(2026));
}
