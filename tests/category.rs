use cbnu_notice::category::Category;

#[test]
fn test_classify() {
    assert_eq!(
        Category::classify("2026학년도 1학기 수강신청 일정 안내"),
        Category::Academic
    );
    assert_eq!(
        Category::classify("2026학년도 국가장학금 신청 안내"),
        Category::Scholarship
    );
    assert_eq!(
        Category::classify("2026년도 제1차 직원(공무직) 채용 공고"),
        Category::Recruit
    );
    assert_eq!(
        Category::classify("해외 어학연수 참가자 모집"),
        Category::Contest
    );
    assert_eq!(
        Category::classify("AI 특강 및 세미나 안내"),
        Category::Event
    );
    assert_eq!(
        Category::classify("캠퍼스 도로 보수공사 안내"),
        Category::General
    );
    // Priority: a scholarship term wins over a contest term.
    assert_eq!(
        Category::classify("교내장학금 신청 모집"),
        Category::Scholarship
    );
}

#[test]
fn unmatched_title_is_general() {
    assert_eq!(Category::classify("캠퍼스 도로 보수공사 안내"), Category::General);
    assert_eq!(Category::classify(""), Category::General);
}

#[test]
fn priority_scholarship_over_contest() {
    assert_eq!(Category::classify("교내장학금 신청 모집"), Category::Scholarship);
    assert_ne!(Category::classify("교내장학금 신청 모집"), Category::Contest);
}

#[test]
fn academic_wins_over_every_later_rule() {
    assert_eq!(Category::classify("수강신청 장학 채용 모집 특강"), Category::Academic);
}

#[test]
fn classify_lowers_the_title_first() {
    assert_eq!(Category::classify_lowered("AI 특강"), Category::Event);
    assert_eq!(Category::classify("해외 연수 참가자 모집"), Category::Contest);
}

#[test]
fn tags_round_trip() {
    let all = [
        Category::Academic,
        Category::Scholarship,
        Category::Recruit,
        Category::Contest,
        Category::Event,
        Category::General,
    ];
    for c in all {
        assert_eq!(Category::from_str_tag(c.as_str()), c);
    }
    assert_eq!(Category::from_str_tag("unknown"), Category::General);
    assert_eq!(Category::Scholarship.label(), "장학");
    assert_eq!(Category::Academic.emoji(), "\u{1f4da}");
    assert_eq!(Category::Event.to_string(), "\u{1f3a4} 행사");
}
