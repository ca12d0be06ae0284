//! Priority-ordered keyword classification of notice titles.

use vstd::prelude::*;
use vstd::string::StringExecFns;
use crate::text::{contains, contains_str, lower_of, same_text, to_lower};

verus! {

/// The category tag of a notice.
#[derive(Debug, Clone, Copy, PartialEq, Eq, Structural)]
pub enum Category {
    Academic,
    Scholarship,
    Recruit,
    Contest,
    Event,
    General,
}

/// Academic-affairs terms.
pub open spec fn academic_terms() -> Seq<&'static str> {
    seq![
        "수강", "학점", "성적", "졸업", "휴학", "복학", "전과", "재입학", "수업",
        "학사일정", "교육과정", "이수", "학기", "편입", "등록금 납부", "학위",
    ]
}

/// Scholarship terms.
pub open spec fn scholarship_terms() -> Seq<&'static str> {
    seq!["장학", "학자금", "등록금 감면", "국가장학", "교내장학", "근로장학"]
}

/// Recruitment terms.
pub open spec fn recruit_terms() -> Seq<&'static str> {
    seq![
        "채용", "인사", "공무직", "계약직", "교원", "조교", "강사 채용", "직원",
        "합격자", "경쟁채용",
    ]
}

/// Contest and call-for-participants terms.
pub open spec fn contest_terms() -> Seq<&'static str> {
    seq![
        "모집", "공모", "선발", "신청 안내", "접수", "지원자", "참가자", "대회",
        "공모전",
    ]
}

/// Event terms.
pub open spec fn event_terms() -> Seq<&'static str> {
    seq![
        "특강", "세미나", "워크숍", "설명회", "포럼", "행사", "축제", "공연",
        "전시", "초청",
    ]
}

/// Some term of `terms` is a substring of `t`.
pub open spec fn has_term(t: Seq<char>, terms: Seq<&'static str>) -> bool {
    exists|i: int| 0 <= i < terms.len() && contains(t, terms[i]@)
}

/// The category of an already lower-cased title: the first rule, in the
/// fixed order academic, scholarship, recruitment, contest, event, whose
/// terms occur in it; general when none does.
pub open spec fn category_of(t: Seq<char>) -> Category {
    if has_term(t, academic_terms()) {
        Category::Academic
    } else if has_term(t, scholarship_terms()) {
        Category::Scholarship
    } else if has_term(t, recruit_terms()) {
        Category::Recruit
    } else if has_term(t, contest_terms()) {
        Category::Contest
    } else if has_term(t, event_terms()) {
        Category::Event
    } else {
        Category::General
    }
}

pub open spec fn emoji_of(c: Category) -> &'static str {
    match c {
        Category::Academic => "\u{1f4da}",
        Category::Scholarship => "\u{1f4b0}",
        Category::Recruit => "\u{1f4bc}",
        Category::Contest => "\u{1f4cb}",
        Category::Event => "\u{1f3a4}",
        Category::General => "\u{1f4e2}",
    }
}

pub open spec fn label_of(c: Category) -> &'static str {
    match c {
        Category::Academic => "학사",
        Category::Scholarship => "장학",
        Category::Recruit => "채용",
        Category::Contest => "모집",
        Category::Event => "행사",
        Category::General => "일반",
    }
}

pub open spec fn tag_of(c: Category) -> &'static str {
    match c {
        Category::Academic => "academic",
        Category::Scholarship => "scholarship",
        Category::Recruit => "recruit",
        Category::Contest => "contest",
        Category::Event => "event",
        Category::General => "general",
    }
}

/// The category stored under a tag; unknown tags read as general.
pub open spec fn category_of_tag(s: Seq<char>) -> Category {
    if s == "academic"@ {
        Category::Academic
    } else if s == "scholarship"@ {
        Category::Scholarship
    } else if s == "recruit"@ {
        Category::Recruit
    } else if s == "contest"@ {
        Category::Contest
    } else if s == "event"@ {
        Category::Event
    } else {
        Category::General
    }
}

fn has_term_exec(t: &str, terms: &[&'static str]) -> (r: bool)
    ensures
        r == has_term(t@, terms@),
{
    let mut i: usize = 0;
    while i < terms.len()
        invariant
            i <= terms@.len(),
            forall|j: int| 0 <= j < i ==> !contains(t@, terms@[j]@),
        decreases terms@.len() - i,
    {
        if contains_str(t, terms[i]) {
            return true;
        }
        i = i + 1;
    }
    false
}

impl Category {
    /// Classifies a title that is already lower-cased.
    pub fn classify_lowered(t: &str) -> (r: Category)
        ensures
            r == category_of(t@),
    {
        let academic: [&'static str; 16] = [
            "수강", "학점", "성적", "졸업", "휴학", "복학", "전과", "재입학", "수업",
            "학사일정", "교육과정", "이수", "학기", "편입", "등록금 납부", "학위",
        ];
        let scholarship: [&'static str; 6] = [
            "장학", "학자금", "등록금 감면", "국가장학", "교내장학", "근로장학",
        ];
        let recruit: [&'static str; 10] = [
            "채용", "인사", "공무직", "계약직", "교원", "조교", "강사 채용", "직원",
            "합격자", "경쟁채용",
        ];
        let contest: [&'static str; 9] = [
            "모집", "공모", "선발", "신청 안내", "접수", "지원자", "참가자", "대회",
            "공모전",
        ];
        let event: [&'static str; 10] = [
            "특강", "세미나", "워크숍", "설명회", "포럼", "행사", "축제", "공연",
            "전시", "초청",
        ];
        assert(academic@ =~= academic_terms());
        assert(scholarship@ =~= scholarship_terms());
        assert(recruit@ =~= recruit_terms());
        assert(contest@ =~= contest_terms());
        assert(event@ =~= event_terms());
        if has_term_exec(t, &academic) {
            Category::Academic
        } else if has_term_exec(t, &scholarship) {
            Category::Scholarship
        } else if has_term_exec(t, &recruit) {
            Category::Recruit
        } else if has_term_exec(t, &contest) {
            Category::Contest
        } else if has_term_exec(t, &event) {
            Category::Event
        } else {
            Category::General
        }
    }

    /// Classifies a notice by the terms in its lower-cased title.
    pub fn classify(title: &str) -> (r: Category)
        ensures
            r == category_of(lower_of(title@)),
            !has_term(lower_of(title@), academic_terms())
                && !has_term(lower_of(title@), scholarship_terms())
                && !has_term(lower_of(title@), recruit_terms())
                && !has_term(lower_of(title@), contest_terms())
                && !has_term(lower_of(title@), event_terms()) ==> r == Category::General,
    {
        let t = to_lower(title);
        Category::classify_lowered(t.as_str())
    }

    pub fn emoji(&self) -> (r: &'static str)
        ensures
            r == emoji_of(*self),
    {
        match self {
            Category::Academic => "\u{1f4da}",
            Category::Scholarship => "\u{1f4b0}",
            Category::Recruit => "\u{1f4bc}",
            Category::Contest => "\u{1f4cb}",
            Category::Event => "\u{1f3a4}",
            Category::General => "\u{1f4e2}",
        }
    }

    pub fn label(&self) -> (r: &'static str)
        ensures
            r == label_of(*self),
    {
        match self {
            Category::Academic => "학사",
            Category::Scholarship => "장학",
            Category::Recruit => "채용",
            Category::Contest => "모집",
            Category::Event => "행사",
            Category::General => "일반",
        }
    }

    pub fn as_str(&self) -> (r: &'static str)
        ensures
            r == tag_of(*self),
    {
        match self {
            Category::Academic => "academic",
            Category::Scholarship => "scholarship",
            Category::Recruit => "recruit",
            Category::Contest => "contest",
            Category::Event => "event",
            Category::General => "general",
        }
    }

    pub fn from_str_tag(s: &str) -> (r: Category)
        ensures
            r == category_of_tag(s@),
    {
        if same_text(s, "academic") {
            Category::Academic
        } else if same_text(s, "scholarship") {
            Category::Scholarship
        } else if same_text(s, "recruit") {
            Category::Recruit
        } else if same_text(s, "contest") {
            Category::Contest
        } else if same_text(s, "event") {
            Category::Event
        } else {
            Category::General
        }
    }

    /// The emoji and the label, separated by a space, as the category is shown.
    pub fn to_string(&self) -> (r: String)
        ensures
            r@ == emoji_of(*self)@ + " "@ + label_of(*self)@,
    {
        let mut s = String::from_str(self.emoji());
        s.append(" ");
        s.append(self.label());
        s
    }
}

/// A title in which no rule's terms occur is classified as general.
pub proof fn lemma_unmatched_title_is_general(title: Seq<char>)
    requires
        !has_term(lower_of(title), academic_terms()),
        !has_term(lower_of(title), scholarship_terms()),
        !has_term(lower_of(title), recruit_terms()),
        !has_term(lower_of(title), contest_terms()),
        !has_term(lower_of(title), event_terms()),
    ensures
        category_of(lower_of(title)) == Category::General,
{
}

} // verus!
