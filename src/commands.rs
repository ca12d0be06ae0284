//! The replies of the interactive front end: each command is one call into
//! the store and a text back.

use vstd::prelude::*;
use vstd::string::{StrSliceExecFns, StringExecFns};
use vstd::utf8::encode_utf8;
use crate::config::SourceConfig;
use crate::store::{has_pair, texts_of, Database, StoreView};
use crate::text::{same_text, sorted_texts, trim_text, trimmed};

verus! {

/// The longest keyword accepted, in bytes of UTF-8.
pub const MAX_KEYWORD_BYTES: usize = 50;

/// The display name of source `key`, or the key itself.
pub open spec fn source_display(sources: Seq<SourceConfig>, key: Seq<char>) -> Seq<char>
    decreases sources.len(),
{
    if sources.len() == 0 {
        key
    } else if sources[0].key@ == key {
        sources[0].display_name@
    } else {
        source_display(sources.drop_first(), key)
    }
}

pub open spec fn is_source(sources: Seq<SourceConfig>, key: Seq<char>) -> bool {
    exists|i: int| 0 <= i < sources.len() && sources[i].key@ == key
}

fn display_of(sources: &Vec<SourceConfig>, key: &str) -> (r: (bool, String))
    ensures
        r.0 == is_source(sources@, key@),
        r.1@ == source_display(sources@, key@),
{
    let mut i: usize = 0;
    assert(sources@.skip(0) =~= sources@);
    while i < sources.len()
        invariant
            i <= sources@.len(),
            source_display(sources@, key@) == source_display(sources@.skip(i as int), key@),
            forall|j: int| 0 <= j < i ==> sources@[j].key@ != key@,
        decreases sources@.len() - i,
    {
        assert(sources@.skip(i as int).drop_first() =~= sources@.skip(i + 1));
        if same_text(sources[i].key.as_str(), key) {
            return (true, sources[i].display_name.clone());
        }
        i = i + 1;
    }
    (false, String::from_str(key))
}

/// The reply to `/sub`.
pub open spec fn sub_reply(v: StoreView, uid: int, keyword: Seq<char>) -> Seq<char> {
    let k = trimmed(keyword);
    if k.len() == 0 {
        "\u{26a0}\u{fe0f} 키워드를 입력하세요.\n예: /sub 장학금"@
    } else if encode_utf8(k).len() > MAX_KEYWORD_BYTES {
        "\u{26a0}\u{fe0f} 키워드가 너무 깁니다 (최대 50자)."@
    } else if !has_pair(v.keyword_subs, uid, k) {
        "\u{2705} '"@ + k + "' 키워드 구독 완료!"@
    } else {
        "\u{2139}\u{fe0f} '"@ + k + "' 이미 구독 중입니다."@
    }
}

/// Subscribes to a keyword: blank and over-long keywords are refused, the
/// keyword is trimmed, and an existing subscription is reported.
pub fn handle_sub(db: &mut Database, user_id: i64, keyword: &str) -> (r: String)
    requires
        old(db).wf(),
    ensures
        final(db).wf(),
        final(db).path_spec() == old(db).path_spec(),
        r@ == sub_reply(old(db)@, user_id as int, keyword@),
        trimmed(keyword@).len() == 0 || encode_utf8(trimmed(keyword@)).len() > MAX_KEYWORD_BYTES
            ==> final(db)@ == old(db)@,
        trimmed(keyword@).len() > 0 && encode_utf8(trimmed(keyword@)).len() <= MAX_KEYWORD_BYTES
            ==> final(db)@ == (StoreView {
                keyword_subs: crate::store::pairs_added(old(db)@.keyword_subs, user_id as int, trimmed(keyword@)),
                ..old(db)@
            }),
{
    let k = trim_text(keyword);
    if k.as_str().unicode_len() == 0 {
        return String::from_str("\u{26a0}\u{fe0f} 키워드를 입력하세요.\n예: /sub 장학금");
    }
    if k.as_str().as_bytes().len() > MAX_KEYWORD_BYTES {
        return String::from_str("\u{26a0}\u{fe0f} 키워드가 너무 깁니다 (최대 50자).");
    }
    let added = db.add_keyword_sub(user_id, k.as_str());
    let mut s = String::new();
    match added {
        Ok(true) => {
            s.append("\u{2705} '");
            s.append(k.as_str());
            s.append("' 키워드 구독 완료!");
        },
        _ => {
            s.append("\u{2139}\u{fe0f} '");
            s.append(k.as_str());
            s.append("' 이미 구독 중입니다.");
        },
    }
    s
}

/// The reply to `/unsub`.
pub open spec fn unsub_reply(v: StoreView, uid: int, keyword: Seq<char>) -> Seq<char> {
    let k = trimmed(keyword);
    if k.len() == 0 {
        "\u{26a0}\u{fe0f} 키워드를 입력하세요.\n예: /unsub 장학금"@
    } else if has_pair(v.keyword_subs, uid, k) {
        "\u{2705} '"@ + k + "' 구독 해제 완료!"@
    } else {
        "\u{2139}\u{fe0f} '"@ + k + "' 구독 중이 아닙니다."@
    }
}

/// Removes a keyword subscription.
pub fn handle_unsub(db: &mut Database, user_id: i64, keyword: &str) -> (r: String)
    requires
        old(db).wf(),
    ensures
        final(db).wf(),
        final(db).path_spec() == old(db).path_spec(),
        r@ == unsub_reply(old(db)@, user_id as int, keyword@),
        trimmed(keyword@).len() == 0 ==> final(db)@ == old(db)@,
        trimmed(keyword@).len() > 0 ==> final(db)@ == (StoreView {
            keyword_subs: crate::store::pairs_removed(old(db)@.keyword_subs, user_id as int, trimmed(keyword@)),
            ..old(db)@
        }),
{
    let k = trim_text(keyword);
    if k.as_str().unicode_len() == 0 {
        return String::from_str("\u{26a0}\u{fe0f} 키워드를 입력하세요.\n예: /unsub 장학금");
    }
    let removed = db.remove_keyword_sub(user_id, k.as_str());
    let mut s = String::new();
    match removed {
        Ok(true) => {
            s.append("\u{2705} '");
            s.append(k.as_str());
            s.append("' 구독 해제 완료!");
        },
        _ => {
            s.append("\u{2139}\u{fe0f} '");
            s.append(k.as_str());
            s.append("' 구독 중이 아닙니다.");
        },
    }
    s
}

/// The reply to `/dept`.
pub open spec fn dept_reply(v: StoreView, sources: Seq<SourceConfig>, uid: int, key: Seq<char>) -> Seq<char> {
    let k = trimmed(key);
    if k.len() == 0 {
        "\u{26a0}\u{fe0f} 학과 코드를 입력하세요.\n/sources 로 목록을 확인하세요."@
    } else if !is_source(sources, k) {
        "\u{274c} '"@ + k + "' 는 유효한 소스가 아닙니다.\n/sources 로 목록을 확인하세요."@
    } else if !has_pair(v.source_subs, uid, k) {
        "\u{2705} "@ + source_display(sources, k) + " 구독 완료!"@
    } else {
        "\u{2139}\u{fe0f} '"@ + k + "' 이미 구독 중입니다."@
    }
}

/// Subscribes to a configured source.
pub fn handle_dept(db: &mut Database, sources: &Vec<SourceConfig>, user_id: i64, source_key: &str) -> (r: String)
    requires
        old(db).wf(),
    ensures
        final(db).wf(),
        final(db).path_spec() == old(db).path_spec(),
        r@ == dept_reply(old(db)@, sources@, user_id as int, source_key@),
        trimmed(source_key@).len() == 0 || !is_source(sources@, trimmed(source_key@)) ==> final(db)@ == old(db)@,
        trimmed(source_key@).len() > 0 && is_source(sources@, trimmed(source_key@)) ==> final(db)@ == (StoreView {
            source_subs: crate::store::pairs_added(old(db)@.source_subs, user_id as int, trimmed(source_key@)),
            ..old(db)@
        }),
{
    let k = trim_text(source_key);
    if k.as_str().unicode_len() == 0 {
        return String::from_str("\u{26a0}\u{fe0f} 학과 코드를 입력하세요.\n/sources 로 목록을 확인하세요.");
    }
    let (valid, display) = display_of(sources, k.as_str());
    let mut s = String::new();
    if !valid {
        s.append("\u{274c} '");
        s.append(k.as_str());
        s.append("' 는 유효한 소스가 아닙니다.\n/sources 로 목록을 확인하세요.");
        return s;
    }
    match db.add_source_sub(user_id, k.as_str()) {
        Ok(true) => {
            s.append("\u{2705} ");
            s.append(display.as_str());
            s.append(" 구독 완료!");
        },
        _ => {
            s.append("\u{2139}\u{fe0f} '");
            s.append(k.as_str());
            s.append("' 이미 구독 중입니다.");
        },
    }
    s
}

/// The reply to `/undept`.
pub open spec fn undept_reply(v: StoreView, uid: int, key: Seq<char>) -> Seq<char> {
    let k = trimmed(key);
    if k.len() == 0 {
        "\u{26a0}\u{fe0f} 학과 코드를 입력하세요."@
    } else if has_pair(v.source_subs, uid, k) {
        "\u{2705} '"@ + k + "' 구독 해제 완료!"@
    } else {
        "\u{2139}\u{fe0f} '"@ + k + "' 구독 중이 아닙니다."@
    }
}

/// Removes a source subscription.
pub fn handle_undept(db: &mut Database, user_id: i64, source_key: &str) -> (r: String)
    requires
        old(db).wf(),
    ensures
        final(db).wf(),
        final(db).path_spec() == old(db).path_spec(),
        r@ == undept_reply(old(db)@, user_id as int, source_key@),
        trimmed(source_key@).len() == 0 ==> final(db)@ == old(db)@,
        trimmed(source_key@).len() > 0 ==> final(db)@ == (StoreView {
            source_subs: crate::store::pairs_removed(old(db)@.source_subs, user_id as int, trimmed(source_key@)),
            ..old(db)@
        }),
{
    let k = trim_text(source_key);
    if k.as_str().unicode_len() == 0 {
        return String::from_str("\u{26a0}\u{fe0f} 학과 코드를 입력하세요.");
    }
    let removed = db.remove_source_sub(user_id, k.as_str());
    let mut s = String::new();
    match removed {
        Ok(true) => {
            s.append("\u{2705} '");
            s.append(k.as_str());
            s.append("' 구독 해제 완료!");
        },
        _ => {
            s.append("\u{2139}\u{fe0f} '");
            s.append(k.as_str());
            s.append("' 구독 중이 아닙니다.");
        },
    }
    s
}

/// The keyword lines of `/mysubs`.
pub open spec fn keyword_lines(ks: Seq<Seq<char>>) -> Seq<char>
    decreases ks.len(),
{
    if ks.len() == 0 { Seq::empty() } else { keyword_lines(ks.drop_last()) + "  • "@ + ks.last() + "\n"@ }
}

/// The source lines of `/mysubs`.
pub open spec fn source_lines(sources: Seq<SourceConfig>, ks: Seq<Seq<char>>) -> Seq<char>
    decreases ks.len(),
{
    if ks.len() == 0 {
        Seq::empty()
    } else {
        source_lines(sources, ks.drop_last()) + "  • "@ + source_display(sources, ks.last()) + " ("@ + ks.last() + ")\n"@
    }
}

/// The reply to `/mysubs`.
pub open spec fn mysubs_reply(v: StoreView, sources: Seq<SourceConfig>, uid: int) -> Seq<char> {
    let ks = sorted_texts(texts_of(v.keyword_subs, uid));
    let ss = sorted_texts(texts_of(v.source_subs, uid));
    if ks.len() == 0 && ss.len() == 0 {
        "\u{1f4ed} 구독 중인 항목이 없습니다.\n\n/sub 키워드 또는 /dept 학과코드 로 구독하세요!"@
    } else {
        "\u{1f4cb} <b>내 구독 현황</b>\n\n"@
            + (if ks.len() > 0 { "\u{1f50d} <b>키워드 구독:</b>\n"@ + keyword_lines(ks) + "\n"@ } else { Seq::empty() })
            + (if ss.len() > 0 { "\u{1f3eb} <b>학과 구독:</b>\n"@ + source_lines(sources, ss) } else { Seq::empty() })
    }
}

/// Lists a user's subscriptions.
pub fn handle_mysubs(db: &Database, sources: &Vec<SourceConfig>, user_id: i64) -> (r: String)
    ensures
        r@ == mysubs_reply(db@, sources@, user_id as int),
{
    let subs = match db.get_user_subs(user_id) {
        Ok(s) => s,
        Err(_) => return String::new(),
    };
    let ghost ks = sorted_texts(texts_of(db@.keyword_subs, user_id as int));
    let ghost ss = sorted_texts(texts_of(db@.source_subs, user_id as int));
    if subs.keywords.len() == 0 && subs.sources.len() == 0 {
        return String::from_str("\u{1f4ed} 구독 중인 항목이 없습니다.\n\n/sub 키워드 또는 /dept 학과코드 로 구독하세요!");
    }
    let mut text = String::from_str("\u{1f4cb} <b>내 구독 현황</b>\n\n");
    let ghost head = text@;
    if subs.keywords.len() > 0 {
        text.append("\u{1f50d} <b>키워드 구독:</b>\n");
        let ghost h2 = text@;
        let mut i: usize = 0;
        while i < subs.keywords.len()
            invariant
                subs.keywords@.map_values(|s: String| s@) == ks,
                i <= ks.len(),
                text@ == h2 + keyword_lines(ks.subrange(0, i as int)),
            decreases ks.len() - i,
        {
            assert(ks.subrange(0, i + 1).drop_last() =~= ks.subrange(0, i as int));
            assert(ks[i as int] == subs.keywords@[i as int]@);
            text.append("  • ");
            text.append(subs.keywords[i].as_str());
            text.append("\n");
            assert(text@ =~= h2 + keyword_lines(ks.subrange(0, i + 1)));
            i = i + 1;
        }
        assert(ks.subrange(0, ks.len() as int) =~= ks);
        text.append("\n");
    }
    let ghost mid = text@;
    if subs.sources.len() > 0 {
        text.append("\u{1f3eb} <b>학과 구독:</b>\n");
        let ghost h3 = text@;
        let mut j: usize = 0;
        while j < subs.sources.len()
            invariant
                subs.sources@.map_values(|s: String| s@) == ss,
                j <= ss.len(),
                text@ == h3 + source_lines(sources@, ss.subrange(0, j as int)),
            decreases ss.len() - j,
        {
            assert(ss.subrange(0, j + 1).drop_last() =~= ss.subrange(0, j as int));
            assert(ss[j as int] == subs.sources@[j as int]@);
            let (_, display) = display_of(sources, subs.sources[j].as_str());
            text.append("  • ");
            text.append(display.as_str());
            text.append(" (");
            text.append(subs.sources[j].as_str());
            text.append(")\n");
            assert(text@ =~= h3 + source_lines(sources@, ss.subrange(0, j + 1)));
            j = j + 1;
        }
        assert(ss.subrange(0, ss.len() as int) =~= ss);
    }
    assert(text@ =~= mysubs_reply(db@, sources@, user_id as int));
    text
}

/// The lines of `/sources`.
pub open spec fn sources_lines(sources: Seq<SourceConfig>) -> Seq<char>
    decreases sources.len(),
{
    if sources.len() == 0 {
        Seq::empty()
    } else {
        let s = sources.last();
        sources_lines(sources.drop_last())
            + (if s.enabled { "\u{2705}"@ } else { "\u{23f8}\u{fe0f}"@ })
            + " <code>"@ + s.key@ + "</code> — "@ + s.display_name@ + "\n"@
    }
}

/// Lists the configured sources, enabled or paused.
pub fn handle_sources(sources: &Vec<SourceConfig>) -> (r: String)
    ensures
        r@ == "\u{1f4da} <b>사용 가능한 소스 목록</b>\n\n"@ + sources_lines(sources@)
            + "\n\u{1f4a1} /dept &lt;코드&gt; 로 구독하세요!"@,
{
    let mut text = String::from_str("\u{1f4da} <b>사용 가능한 소스 목록</b>\n\n");
    let ghost head = text@;
    let mut i: usize = 0;
    while i < sources.len()
        invariant
            i <= sources@.len(),
            text@ == head + sources_lines(sources@.subrange(0, i as int)),
        decreases sources@.len() - i,
    {
        assert(sources@.subrange(0, i + 1).drop_last() =~= sources@.subrange(0, i as int));
        let src = &sources[i];
        if src.enabled {
            text.append("\u{2705}");
        } else {
            text.append("\u{23f8}\u{fe0f}");
        }
        text.append(" <code>");
        text.append(src.key.as_str());
        text.append("</code> — ");
        text.append(src.display_name.as_str());
        text.append("\n");
        assert(text@ =~= head + sources_lines(sources@.subrange(0, i + 1)));
        i = i + 1;
    }
    assert(sources@.subrange(0, sources@.len() as int) =~= sources@);
    text.append("\n\u{1f4a1} /dept &lt;코드&gt; 로 구독하세요!");
    text
}

/// The greeting of `/start`.
pub fn handle_start(first_name: &str) -> (r: String)
    ensures
        r@ == "\u{1f44b} 안녕하세요, "@ + first_name@ + START_BODY@,
{
    let mut s = String::from_str("\u{1f44b} 안녕하세요, ");
    s.append(first_name);
    s.append(START_BODY);
    s
}

pub const START_BODY: &'static str = "님!\n\n<b>충북대 공지 알림 봇</b>에 등록되었습니다.\n\n\u{1f4cc} <b>사용 방법:</b>\n• /sub 장학금 → '장학금' 포함 공지 DM\n• /dept biz → 경영학부 공지 DM\n• /mysubs → 내 구독 현황\n• /sources → 학과 목록\n• /help → 전체 도움말";

pub const HELP_TEXT: &'static str = "\u{2139}\u{fe0f} <b>충북대 공지 봇 도움말</b>\n\n<b>키워드 구독</b>\n/sub &lt;키워드&gt; — 키워드가 포함된 공지를 DM으로 받기\n/unsub &lt;키워드&gt; — 키워드 구독 해제\n\n<b>학과 구독</b>\n/dept &lt;학과코드&gt; — 특정 학과 공지를 DM으로 받기\n/undept &lt;학과코드&gt; — 학과 구독 해제\n\n<b>조회</b>\n/mysubs — 내 구독 현황 보기\n/sources — 사용 가능한 학과/소스 목록\n/status — 봇 상태 확인\n\n\u{1f4a1} <b>예시</b>\n<code>/sub 장학금</code> → '장학금' 관련 공지 알림\n<code>/dept biz</code> → 경영학부 공지 알림";

/// The help text.
pub fn handle_help() -> (r: String)
    ensures
        r@ == HELP_TEXT@,
{
    String::from_str(HELP_TEXT)
}

} // verus!
