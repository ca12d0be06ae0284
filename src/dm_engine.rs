//! Direct-message matching: which subscribers a notice goes to, and what a
//! delivery attempt changes in the store.
//!
//! The sending itself, and the pause between attempts, belong to the caller:
//! for each candidate it asks [`should_send`], sends, and hands the outcome
//! to [`record_outcome`].

use vstd::prelude::*;
use vstd::string::{StrSliceExecFns, StringExecFns};
use crate::category::{category_of_tag, emoji_of, Category};
use crate::store::{after_deactivate, after_log, delivered, Database, Notice, StoreView};
use crate::text::{contains, contains_str, lower_of, same_text, to_lower};

verus! {

/// One recipient of a notice and why.
#[derive(Debug, Clone)]
pub struct DmMatch {
    pub telegram_id: i64,
    /// `"keyword"` or `"source"`.
    pub match_type: String,
    /// The keyword, or the source key.
    pub match_value: String,
}

/// The abstract form of a [`DmMatch`].
pub ghost struct MatchRow {
    pub telegram_id: int,
    pub by_keyword: bool,
    pub value: Seq<char>,
}

impl DmMatch {
    pub open spec fn row(&self) -> MatchRow {
        MatchRow {
            telegram_id: self.telegram_id as int,
            by_keyword: self.match_type@ == "keyword"@,
            value: self.match_value@,
        }
    }
}

/// What a delivery attempt came to.
#[derive(Debug, Clone, Copy, PartialEq, Eq, Structural)]
pub enum SendOutcome {
    Sent,
    /// A failure that may pass.
    Failed,
    /// The recipient refuses all messages from the sender.
    Blocked,
}

/// The recipients of `matches`, in order.
pub open spec fn ids_of(matches: Seq<MatchRow>) -> Seq<int> {
    matches.map_values(|m: MatchRow| m.telegram_id)
}

/// A keyword matches a title when its lower-case form occurs in the
/// lower-case title.
pub open spec fn keyword_hits(title: Seq<char>, keyword: Seq<char>) -> bool {
    contains(lower_of(title), lower_of(keyword))
}

/// The keyword matches, in subscription order, one per user: the first
/// matching keyword of a user is the reason.
pub open spec fn keyword_matches(title: Seq<char>, subs: Seq<(int, Seq<char>)>) -> Seq<MatchRow>
    decreases subs.len(),
{
    if subs.len() == 0 {
        Seq::empty()
    } else {
        let prev = keyword_matches(title, subs.drop_last());
        let (u, k) = subs.last();
        if keyword_hits(title, k) && !ids_of(prev).contains(u) {
            prev.push(MatchRow { telegram_id: u, by_keyword: true, value: k })
        } else {
            prev
        }
    }
}

/// `base` followed by the source subscribers not already in it.
pub open spec fn with_source_matches(base: Seq<MatchRow>, subscribers: Seq<int>, source_key: Seq<char>) -> Seq<MatchRow>
    decreases subscribers.len(),
{
    if subscribers.len() == 0 {
        base
    } else {
        let prev = with_source_matches(base, subscribers.drop_last(), source_key);
        let u = subscribers.last();
        if !ids_of(prev).contains(u) {
            prev.push(MatchRow { telegram_id: u, by_keyword: false, value: source_key })
        } else {
            prev
        }
    }
}

/// The candidates for a notice: keyword matches first, then the source's
/// subscribers, each user once.
pub open spec fn candidates(
    title: Seq<char>,
    source_key: Seq<char>,
    keyword_subs: Seq<(int, Seq<char>)>,
    subscribers: Seq<int>,
) -> Seq<MatchRow> {
    with_source_matches(keyword_matches(title, keyword_subs), subscribers, source_key)
}

pub open spec fn no_repeats(s: Seq<int>) -> bool {
    forall|i: int, j: int| #![trigger s[i], s[j]] 0 <= i < s.len() && 0 <= j < s.len() && i != j ==> s[i] != s[j]
}

fn listed(matches: &Vec<DmMatch>, uid: i64) -> (r: bool)
    ensures
        r == ids_of(matches@.map_values(|m: DmMatch| m.row())).contains(uid as int),
{
    let ghost ids = ids_of(matches@.map_values(|m: DmMatch| m.row()));
    let mut i: usize = 0;
    while i < matches.len()
        invariant
            ids == ids_of(matches@.map_values(|m: DmMatch| m.row())),
            i <= matches@.len(),
            forall|j: int| 0 <= j < i ==> ids[j] != uid,
        decreases matches@.len() - i,
    {
        if matches[i].telegram_id == uid {
            assert(ids[i as int] == uid);
            return true;
        }
        i = i + 1;
    }
    false
}

/// The recipients of a notice: every user with a keyword that occurs in the
/// title (case-insensitively), then every subscriber of its source, each
/// user once, with the first reason found.
pub fn find_matches(notice: &Notice, keyword_subs: &Vec<(i64, String)>, source_subscribers: &Vec<i64>) -> (r: Vec<DmMatch>)
    ensures
        r@.map_values(|m: DmMatch| m.row()) == candidates(
            notice.title@,
            notice.source_key@,
            keyword_subs@.map_values(|p: (i64, String)| (p.0 as int, p.1@)),
            source_subscribers@.map_values(|x: i64| x as int),
        ),
        forall|i: int| 0 <= i < r@.len() ==> (#[trigger] r@[i].match_type@ == "keyword"@ || r@[i].match_type@ == "source"@),
{
    let ghost kws = keyword_subs@.map_values(|p: (i64, String)| (p.0 as int, p.1@));
    let ghost srcs = source_subscribers@.map_values(|x: i64| x as int);
    proof {
        reveal_strlit("keyword");
        reveal_strlit("source");
    }
    let title_lower = to_lower(notice.title.as_str());
    let mut out: Vec<DmMatch> = Vec::new();
    let mut i: usize = 0;
    while i < keyword_subs.len()
        invariant
            kws == keyword_subs@.map_values(|p: (i64, String)| (p.0 as int, p.1@)),
            title_lower@ == lower_of(notice.title@),
            i <= keyword_subs@.len(),
            out@.map_values(|m: DmMatch| m.row()) == keyword_matches(notice.title@, kws.subrange(0, i as int)),
            forall|k: int| 0 <= k < out@.len() ==> (#[trigger] out@[k].match_type@ == "keyword"@ || out@[k].match_type@ == "source"@),
        decreases keyword_subs@.len() - i,
    {
        assert(kws.subrange(0, i + 1).drop_last() =~= kws.subrange(0, i as int));
        let uid = keyword_subs[i].0;
        let kw_lower = to_lower(keyword_subs[i].1.as_str());
        if contains_str(title_lower.as_str(), kw_lower.as_str()) && !listed(&out, uid) {
            out.push(DmMatch {
                telegram_id: uid,
                match_type: String::from_str("keyword"),
                match_value: keyword_subs[i].1.clone(),
            });
        }
        assert(out@.map_values(|m: DmMatch| m.row()) =~= keyword_matches(notice.title@, kws.subrange(0, i + 1)));
        i = i + 1;
    }
    assert(kws.subrange(0, kws.len() as int) =~= kws);
    let ghost base = out@.map_values(|m: DmMatch| m.row());
    assert("source"@.len() != "keyword"@.len());
    let mut j: usize = 0;
    assert(srcs.subrange(0, 0) =~= Seq::<int>::empty());
    while j < source_subscribers.len()
        invariant
            srcs == source_subscribers@.map_values(|x: i64| x as int),
            base == keyword_matches(notice.title@, kws),
            "source"@ != "keyword"@,
            j <= source_subscribers@.len(),
            out@.map_values(|m: DmMatch| m.row()) == with_source_matches(base, srcs.subrange(0, j as int), notice.source_key@),
            forall|k: int| 0 <= k < out@.len() ==> (#[trigger] out@[k].match_type@ == "keyword"@ || out@[k].match_type@ == "source"@),
        decreases source_subscribers@.len() - j,
    {
        assert(srcs.subrange(0, j + 1).drop_last() =~= srcs.subrange(0, j as int));
        let uid = source_subscribers[j];
        assert(srcs.subrange(0, j + 1).last() == uid as int);
        if !listed(&out, uid) {
            out.push(DmMatch {
                telegram_id: uid,
                match_type: String::from_str("source"),
                match_value: notice.source_key.clone(),
            });
        }
        assert(out@.map_values(|m: DmMatch| m.row()) =~= with_source_matches(base, srcs.subrange(0, j + 1), notice.source_key@));
        j = j + 1;
    }
    assert(srcs.subrange(0, srcs.len() as int) =~= srcs);
    out
}

proof fn lemma_push_contains(s: Seq<int>, x: int)
    ensures
        forall|u: int| #[trigger] s.push(x).contains(u) <==> (s.contains(u) || u == x),
        no_repeats(s) && !s.contains(x) ==> no_repeats(s.push(x)),
{
    assert forall|u: int| #[trigger] s.push(x).contains(u) <==> (s.contains(u) || u == x) by {
        let t = s.push(x);
        if t.contains(u) {
            let k = choose|k: int| 0 <= k < t.len() && t[k] == u;
            if k < s.len() {
                assert(s[k] == u);
            }
        }
        if s.contains(u) {
            let k = choose|k: int| 0 <= k < s.len() && s[k] == u;
            assert(t[k] == u);
        }
        if u == x {
            assert(t[s.len() as int] == u);
        }
    }
    if no_repeats(s) && !s.contains(x) {
        let t = s.push(x);
        assert forall|i: int, j: int| 0 <= i < t.len() && 0 <= j < t.len() && i != j implies t[i] != t[j] by {
            if i == s.len() {
                assert(t[j] == s[j]);
            } else if j == s.len() {
                assert(t[i] == s[i]);
            } else {
                assert(t[i] == s[i] && t[j] == s[j]);
            }
        }
    }
}

proof fn lemma_keyword_matches(title: Seq<char>, subs: Seq<(int, Seq<char>)>)
    ensures
        no_repeats(ids_of(keyword_matches(title, subs))),
        forall|u: int| #[trigger] ids_of(keyword_matches(title, subs)).contains(u) <==>
            exists|i: int| 0 <= i < subs.len() && subs[i].0 == u && keyword_hits(title, subs[i].1),
    decreases subs.len(),
{
    if subs.len() > 0 {
        let pre = subs.drop_last();
        lemma_keyword_matches(title, pre);
        let prev = keyword_matches(title, pre);
        let cur = keyword_matches(title, subs);
        let (u0, k0) = subs.last();
        lemma_push_contains(ids_of(prev), u0);
        if keyword_hits(title, k0) && !ids_of(prev).contains(u0) {
            assert(ids_of(cur) =~= ids_of(prev).push(u0));
        } else {
            assert(ids_of(cur) =~= ids_of(prev));
        }
        assert forall|u: int| ids_of(cur).contains(u) <==>
            exists|i: int| 0 <= i < subs.len() && subs[i].0 == u && keyword_hits(title, subs[i].1) by {
            if ids_of(cur).contains(u) {
                if ids_of(prev).contains(u) {
                    let i = choose|i: int| 0 <= i < pre.len() && pre[i].0 == u && keyword_hits(title, pre[i].1);
                    assert(subs[i] == pre[i]);
                } else {
                    assert(subs[subs.len() - 1].0 == u);
                }
            }
            if exists|i: int| 0 <= i < subs.len() && subs[i].0 == u && keyword_hits(title, subs[i].1) {
                let i = choose|i: int| 0 <= i < subs.len() && subs[i].0 == u && keyword_hits(title, subs[i].1);
                if i < pre.len() {
                    assert(pre[i] == subs[i]);
                }
            }
        }
    } else {
        assert(ids_of(keyword_matches(title, subs)) =~= Seq::<int>::empty());
    }
}

proof fn lemma_source_matches(base: Seq<MatchRow>, subscribers: Seq<int>, source_key: Seq<char>)
    requires
        no_repeats(ids_of(base)),
    ensures
        no_repeats(ids_of(with_source_matches(base, subscribers, source_key))),
        forall|u: int| #[trigger] ids_of(with_source_matches(base, subscribers, source_key)).contains(u) <==>
            (ids_of(base).contains(u) || subscribers.contains(u)),
    decreases subscribers.len(),
{
    if subscribers.len() > 0 {
        let pre = subscribers.drop_last();
        lemma_source_matches(base, pre, source_key);
        let prev = with_source_matches(base, pre, source_key);
        let cur = with_source_matches(base, subscribers, source_key);
        let u0 = subscribers.last();
        lemma_push_contains(ids_of(prev), u0);
        lemma_push_contains(pre, u0);
        assert(subscribers =~= pre.push(u0));
        if !ids_of(prev).contains(u0) {
            assert(ids_of(cur) =~= ids_of(prev).push(u0));
        } else {
            assert(ids_of(cur) =~= ids_of(prev));
        }
        assert forall|u: int| ids_of(cur).contains(u) <==> (ids_of(base).contains(u) || subscribers.contains(u)) by {
            assert(ids_of(prev).contains(u) <==> (ids_of(base).contains(u) || pre.contains(u)));
            assert(pre.push(u0).contains(u) <==> (pre.contains(u) || u == u0));
            assert(ids_of(prev).push(u0).contains(u) <==> (ids_of(prev).contains(u) || u == u0));
        }
    } else {
        assert(with_source_matches(base, subscribers, source_key) == base);
        assert forall|u: int| !subscribers.contains(u) by {}
    }
}

proof fn lemma_keyword_rows_by_keyword(title: Seq<char>, subs: Seq<(int, Seq<char>)>)
    ensures
        forall|k: int| 0 <= k < keyword_matches(title, subs).len() ==> #[trigger] keyword_matches(title, subs)[k].by_keyword,
    decreases subs.len(),
{
    if subs.len() > 0 {
        let p = subs.drop_last();
        lemma_keyword_rows_by_keyword(title, p);
        let prev = keyword_matches(title, p);
        let cur = keyword_matches(title, subs);
        assert forall|k: int| 0 <= k < cur.len() implies #[trigger] cur[k].by_keyword by {
            if k < prev.len() {
                assert(cur[k] == prev[k]);
            }
        }
    }
}

proof fn lemma_source_rows_extend(base: Seq<MatchRow>, subscribers: Seq<int>, source_key: Seq<char>)
    ensures
        with_source_matches(base, subscribers, source_key).len() >= base.len(),
        forall|k: int| 0 <= k < base.len() ==> #[trigger] with_source_matches(base, subscribers, source_key)[k] == base[k],
        forall|k: int| base.len() <= k < with_source_matches(base, subscribers, source_key).len() ==>
            !ids_of(base).contains(#[trigger] with_source_matches(base, subscribers, source_key)[k].telegram_id),
    decreases subscribers.len(),
{
    if subscribers.len() > 0 {
        let pre = subscribers.drop_last();
        lemma_source_rows_extend(base, pre, source_key);
        let prev = with_source_matches(base, pre, source_key);
        let cur = with_source_matches(base, subscribers, source_key);
        let u0 = subscribers.last();
        if !ids_of(prev).contains(u0) {
            assert forall|k: int| base.len() <= k < cur.len() implies !ids_of(base).contains(#[trigger] cur[k].telegram_id) by {
                if k < prev.len() {
                    assert(cur[k] == prev[k]);
                } else {
                    assert(cur[k].telegram_id == u0);
                    if ids_of(base).contains(u0) {
                        let i = choose|i: int| 0 <= i < ids_of(base).len() && ids_of(base)[i] == u0;
                        assert(prev[i] == base[i]);
                        assert(ids_of(prev)[i] == u0);
                    }
                }
            }
        }
    }
}

/// A user whose keyword occurs in the title appears once, with the keyword
/// as the reason, even when also subscribed to the source.
pub proof fn lemma_keyword_reason_wins(
    title: Seq<char>,
    source_key: Seq<char>,
    keyword_subs: Seq<(int, Seq<char>)>,
    subscribers: Seq<int>,
    u: int,
)
    requires
        exists|i: int| 0 <= i < keyword_subs.len() && keyword_subs[i].0 == u && keyword_hits(title, keyword_subs[i].1),
    ensures
        forall|k: int| 0 <= k < candidates(title, source_key, keyword_subs, subscribers).len()
            && #[trigger] candidates(title, source_key, keyword_subs, subscribers)[k].telegram_id == u
            ==> candidates(title, source_key, keyword_subs, subscribers)[k].by_keyword,
{
    let base = keyword_matches(title, keyword_subs);
    lemma_keyword_matches(title, keyword_subs);
    lemma_keyword_rows_by_keyword(title, keyword_subs);
    lemma_source_rows_extend(base, subscribers, source_key);
    assert(ids_of(base).contains(u));
    let c = candidates(title, source_key, keyword_subs, subscribers);
    assert forall|k: int| 0 <= k < c.len() && #[trigger] c[k].telegram_id == u implies c[k].by_keyword by {
        if k < base.len() {
            assert(c[k] == base[k]);
        }
    }
}

/// Fan-out: each user is a candidate at most once, and exactly the users
/// with a keyword in the title or a subscription to the source are.
pub proof fn lemma_fan_out(
    title: Seq<char>,
    source_key: Seq<char>,
    keyword_subs: Seq<(int, Seq<char>)>,
    subscribers: Seq<int>,
)
    ensures
        no_repeats(ids_of(candidates(title, source_key, keyword_subs, subscribers))),
        forall|u: int| #[trigger] ids_of(candidates(title, source_key, keyword_subs, subscribers)).contains(u) <==>
            ((exists|i: int| 0 <= i < keyword_subs.len() && keyword_subs[i].0 == u && keyword_hits(title, keyword_subs[i].1))
                || subscribers.contains(u)),
{
    lemma_keyword_matches(title, keyword_subs);
    lemma_source_matches(keyword_matches(title, keyword_subs), subscribers, source_key);
    assert forall|u: int| #[trigger] ids_of(candidates(title, source_key, keyword_subs, subscribers)).contains(u) <==>
        ((exists|i: int| 0 <= i < keyword_subs.len() && keyword_subs[i].0 == u && keyword_hits(title, keyword_subs[i].1))
            || subscribers.contains(u)) by {
        assert(ids_of(keyword_matches(title, keyword_subs)).contains(u) <==>
            exists|i: int| 0 <= i < keyword_subs.len() && keyword_subs[i].0 == u && keyword_hits(title, keyword_subs[i].1));
    }
}

/// Whether `m` still has to be sent `notice_db_id`: no delivery of it is
/// recorded for that user.
pub fn should_send(db: &Database, notice_db_id: i64, m: &DmMatch) -> (r: bool)
    ensures
        r == !delivered(db@, notice_db_id as int, m.telegram_id as int),
{
    match db.is_dm_sent(notice_db_id, m.telegram_id) {
        Ok(b) => !b,
        Err(_) => false,
    }
}

/// The store after a delivery attempt of notice `nid` to `m`.
pub open spec fn after_outcome(v: StoreView, nid: int, m: MatchRow, outcome: SendOutcome) -> StoreView {
    match outcome {
        SendOutcome::Sent => after_log(v, nid, m.telegram_id,
            if m.by_keyword { "keyword"@ } else { "source"@ }, Some(m.value)),
        SendOutcome::Failed => v,
        SendOutcome::Blocked => after_deactivate(v, m.telegram_id),
    }
}

/// Records what a delivery attempt came to: a sent message is logged with
/// its reason, a blocked recipient is deactivated, any other failure
/// changes nothing. Returns the number of messages sent (0 or 1).
pub fn record_outcome(db: &mut Database, notice_db_id: i64, m: &DmMatch, outcome: SendOutcome) -> (r: u32)
    requires
        old(db).wf(),
        m.match_type@ == "keyword"@ || m.match_type@ == "source"@,
    ensures
        final(db).wf(),
        final(db).path_spec() == old(db).path_spec(),
        final(db)@ == after_outcome(old(db)@, notice_db_id as int, m.row(), outcome),
        r == (if outcome == SendOutcome::Sent { 1u32 } else { 0u32 }),
{
    proof {
        reveal_strlit("keyword");
        reveal_strlit("source");
    }
    match outcome {
        SendOutcome::Sent => {
            let _ = db.log_dm(notice_db_id, m.telegram_id, m.match_type.as_str(), Some(m.match_value.as_str()));
            1
        },
        SendOutcome::Failed => 0,
        SendOutcome::Blocked => {
            let _ = db.deactivate_user(m.telegram_id);
            0
        },
    }
}

/// Once a notice was sent to a user, no later attempt outcome makes it
/// unsent: a later cycle's [`should_send`] answers false for that pair.
pub proof fn lemma_sent_stays_sent(v: StoreView, nid: int, m: MatchRow, later: Seq<(int, MatchRow, SendOutcome)>)
    ensures
        delivered(replay(after_outcome(v, nid, m, SendOutcome::Sent), later), nid, m.telegram_id),
    decreases later.len(),
{
    let v1 = after_outcome(v, nid, m, SendOutcome::Sent);
    if !delivered(v, nid, m.telegram_id) {
        let k = v.deliveries.len() as int;
        assert(v1.deliveries[k].notice_id == nid && v1.deliveries[k].telegram_id == m.telegram_id);
    }
    lemma_replay_keeps(v1, nid, m.telegram_id, later);
}

/// The store after a sequence of attempt outcomes.
pub open spec fn replay(v: StoreView, steps: Seq<(int, MatchRow, SendOutcome)>) -> StoreView
    decreases steps.len(),
{
    if steps.len() == 0 {
        v
    } else {
        after_outcome(replay(v, steps.drop_last()), steps.last().0, steps.last().1, steps.last().2)
    }
}

proof fn lemma_replay_keeps(v: StoreView, nid: int, uid: int, steps: Seq<(int, MatchRow, SendOutcome)>)
    requires
        delivered(v, nid, uid),
    ensures
        delivered(replay(v, steps), nid, uid),
    decreases steps.len(),
{
    if steps.len() > 0 {
        lemma_replay_keeps(v, nid, uid, steps.drop_last());
        let p = replay(v, steps.drop_last());
        let i = choose|i: int| 0 <= i < p.deliveries.len() && p.deliveries[i].notice_id == nid && p.deliveries[i].telegram_id == uid;
        let q = after_outcome(p, steps.last().0, steps.last().1, steps.last().2);
        assert(q.deliveries[i] == p.deliveries[i]);
    }
}

/// HTML text with `&`, `<` and `>` escaped.
pub open spec fn html_escaped(s: Seq<char>) -> Seq<char>
    decreases s.len(),
{
    if s.len() == 0 {
        Seq::empty()
    } else {
        html_escaped(s.drop_last()) + html_escape_char(s.last())
    }
}

pub open spec fn html_escape_char(c: char) -> Seq<char> {
    if c == '&' {
        "&amp;"@
    } else if c == '<' {
        "&lt;"@
    } else if c == '>' {
        "&gt;"@
    } else {
        seq![c]
    }
}

/// Escapes `&`, `<` and `>` for HTML text.
pub fn html_escape(s: &str) -> (r: String)
    ensures
        r@ == html_escaped(s@),
{
    let n = s.unicode_len();
    let mut out = String::new();
    let mut i: usize = 0;
    while i < n
        invariant
            n == s@.len(),
            i <= n,
            out@ == html_escaped(s@.subrange(0, i as int)),
        decreases n - i,
    {
        assert(s@.subrange(0, i + 1).drop_last() =~= s@.subrange(0, i as int));
        let c = s.get_char(i);
        if c == '&' {
            out.append("&amp;");
        } else if c == '<' {
            out.append("&lt;");
        } else if c == '>' {
            out.append("&gt;");
        } else {
            let one = s.substring_char(i, i + 1);
            assert(one@ =~= seq![c]);
            out.append(one);
        }
        i = i + 1;
    }
    assert(s@.subrange(0, n as int) =~= s@);
    out
}

/// The direct message for `notice`, matched for the reason `match_type`
/// with `match_value`: emoji, source in bold, title, reason and date, with
/// the text parts escaped.
pub fn dm_text(notice: &Notice, match_type: &str, match_value: &str) -> (r: String)
    ensures
        r@ == emoji_of(category_of_tag(notice.category@))@ + " <b>"@ + html_escaped(notice.source_display_name@)
            + "</b>\n\n"@ + html_escaped(notice.title@) + "\n\n"@
            + html_escaped(dm_reason(match_type@, match_value@, notice.source_display_name@)) + "\n\u{1f4c5} "@
            + html_escaped(match notice.published { Some(p) => p@, None => "날짜 미상"@ }),
{
    let category = Category::from_str_tag(notice.category.as_str());
    let mut reason = String::new();
    if same_text(match_type, "keyword") {
        reason.append("\u{1f50d} 키워드: ");
        reason.append(match_value);
    } else if same_text(match_type, "source") {
        reason.append("\u{1f3eb} 학과: ");
        reason.append(notice.source_display_name.as_str());
    }
    let mut s = String::from_str(category.emoji());
    s.append(" <b>");
    let src = html_escape(notice.source_display_name.as_str());
    s.append(src.as_str());
    s.append("</b>\n\n");
    let title = html_escape(notice.title.as_str());
    s.append(title.as_str());
    s.append("\n\n");
    let why = html_escape(reason.as_str());
    s.append(why.as_str());
    s.append("\n\u{1f4c5} ");
    let date = match &notice.published {
        Some(p) => html_escape(p.as_str()),
        None => html_escape("날짜 미상"),
    };
    s.append(date.as_str());
    s
}

/// The reason line of a direct message.
pub open spec fn dm_reason(match_type: Seq<char>, match_value: Seq<char>, display: Seq<char>) -> Seq<char> {
    if match_type == "keyword"@ {
        "\u{1f50d} 키워드: "@ + match_value
    } else if match_type == "source"@ {
        "\u{1f3eb} 학과: "@ + display
    } else {
        Seq::empty()
    }
}

} // verus!
