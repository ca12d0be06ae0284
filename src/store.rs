//! The notice store: notices with their dedup key, crawl state per source,
//! users, subscriptions and the delivery log.
//!
//! Every operation is a single step on the tables, so each is safe to retry:
//! the unique keys (source and source-local id of a notice; notice and user
//! of a delivery) are never duplicated.

use vstd::prelude::*;
use vstd::string::StringExecFns;
use crate::category::{category_of, tag_of, Category};
use crate::config::{lookup_or, param_or_default};
use crate::parser::RawNotice;
use crate::text::{clone_opt, lower_of, opt_str_view, opt_view, owned_opt, same_text, sort_texts, sorted_texts, text_le, text_le_exec};

verus! {

/// A user's subscriptions.
#[derive(Debug, Clone)]
pub struct UserSubs {
    pub keywords: Vec<String>,
    pub sources: Vec<String>,
}

/// Crawl progress of one source.
#[derive(Debug, Clone)]
pub struct CrawlStat {
    pub source_key: String,
    /// Seconds since the Unix epoch of the last crawl.
    pub last_crawled: Option<i64>,
    pub error_count: u32,
}

/// A stored notice as the delivery side reads it.
#[derive(Debug, Clone)]
pub struct Notice {
    pub id: i64,
    pub source_key: String,
    pub notice_id: String,
    pub title: String,
    pub url: String,
    pub author: Option<String>,
    pub category: String,
    pub published: Option<String>,
    pub source_display_name: String,
}

/// Why a store operation was refused.
#[derive(Debug, Clone, Copy, PartialEq, Eq, Structural)]
pub enum StoreError {
    /// No further notice id can be assigned.
    Full,
    /// A source's error counter is at its largest value.
    CounterOverflow,
}

/// One stored notice.
pub ghost struct NoticeRow {
    pub id: int,
    pub source_key: Seq<char>,
    pub notice_id: Seq<char>,
    pub title: Seq<char>,
    pub url: Seq<char>,
    pub author: Option<Seq<char>>,
    pub category: Category,
    pub published: Option<Seq<char>>,
    pub deadline: Option<Seq<char>>,
    pub crawled_at: int,
    pub notified: bool,
}

/// Crawl state of one source.
pub ghost struct CrawlRow {
    pub source_key: Seq<char>,
    pub last_crawled: Option<int>,
    pub last_notice_id: Option<Seq<char>>,
    pub error_count: int,
}

/// One user.
pub ghost struct UserRow {
    pub telegram_id: int,
    pub username: Option<Seq<char>>,
    pub first_name: Option<Seq<char>>,
    pub is_active: bool,
}

/// One direct message that was sent.
pub ghost struct DeliveryRow {
    pub notice_id: int,
    pub telegram_id: int,
    pub match_type: Seq<char>,
    pub match_value: Option<Seq<char>>,
}

/// The contents of the store.
pub ghost struct StoreView {
    pub notices: Seq<NoticeRow>,
    pub crawl: Seq<CrawlRow>,
    pub users: Seq<UserRow>,
    pub keyword_subs: Seq<(int, Seq<char>)>,
    pub source_subs: Seq<(int, Seq<char>)>,
    pub deliveries: Seq<DeliveryRow>,
}

/// The number of notices the store can hold.
pub const MAX_NOTICES: usize = 0x7fff_fffe;

/// The width of the recent window, in seconds.
pub const RECENT_WINDOW_SECS: i64 = 86400;

// ---- the laws of the tables ----

pub open spec fn has_notice(v: StoreView, sk: Seq<char>, nid: Seq<char>) -> bool {
    exists|i: int| 0 <= i < v.notices.len() && v.notices[i].source_key == sk && v.notices[i].notice_id == nid
}

pub open spec fn delivered(v: StoreView, nid: int, uid: int) -> bool {
    exists|i: int| 0 <= i < v.deliveries.len() && v.deliveries[i].notice_id == nid && v.deliveries[i].telegram_id == uid
}

pub open spec fn has_crawl(v: StoreView, sk: Seq<char>) -> bool {
    exists|i: int| 0 <= i < v.crawl.len() && v.crawl[i].source_key == sk
}

pub open spec fn crawl_pos(v: StoreView, sk: Seq<char>) -> int {
    choose|i: int| 0 <= i < v.crawl.len() && v.crawl[i].source_key == sk
}

pub open spec fn has_user(v: StoreView, uid: int) -> bool {
    exists|i: int| 0 <= i < v.users.len() && v.users[i].telegram_id == uid
}

pub open spec fn user_pos(v: StoreView, uid: int) -> int {
    choose|i: int| 0 <= i < v.users.len() && v.users[i].telegram_id == uid
}

pub open spec fn is_active_user(v: StoreView, uid: int) -> bool {
    has_user(v, uid) && v.users[user_pos(v, uid)].is_active
}

pub open spec fn has_pair(s: Seq<(int, Seq<char>)>, uid: int, text: Seq<char>) -> bool {
    exists|i: int| 0 <= i < s.len() && s[i] == (uid, text)
}

pub open spec fn pair_pos(s: Seq<(int, Seq<char>)>, uid: int, text: Seq<char>) -> int {
    choose|i: int| 0 <= i < s.len() && s[i] == (uid, text)
}

pub open spec fn unique_pairs(s: Seq<(int, Seq<char>)>) -> bool {
    forall|i: int, j: int| #![trigger s[i], s[j]] 0 <= i < s.len() && 0 <= j < s.len() && i != j ==> s[i] != s[j]
}

/// Notices are stored in the order they were crawled: crawl times never
/// decrease from one surrogate id to the next.
pub open spec fn crawl_times_ordered(ns: Seq<NoticeRow>) -> bool {
    forall|i: int, j: int| 0 <= i <= j < ns.len() ==> #[trigger] ns[i].crawled_at <= #[trigger] ns[j].crawled_at
}

/// The latest crawl time stored, if any notice is.
pub open spec fn latest_crawl(v: StoreView) -> Option<int> {
    if v.notices.len() > 0 { Some(v.notices.last().crawled_at) } else { None }
}

/// The invariant of the store: surrogate ids are positions plus one, and
/// every unique key is unique.
pub open spec fn store_inv(v: StoreView) -> bool {
    &&& v.notices.len() <= MAX_NOTICES
    &&& crawl_times_ordered(v.notices)
    &&& forall|i: int| 0 <= i < v.notices.len() ==> #[trigger] v.notices[i].id == i + 1
    &&& forall|i: int, j: int| #![trigger v.notices[i], v.notices[j]] 0 <= i < v.notices.len() && 0 <= j < v.notices.len() && i != j
        ==> !(v.notices[i].source_key == v.notices[j].source_key && v.notices[i].notice_id == v.notices[j].notice_id)
    &&& forall|i: int, j: int| #![trigger v.crawl[i], v.crawl[j]] 0 <= i < v.crawl.len() && 0 <= j < v.crawl.len() && i != j
        ==> v.crawl[i].source_key != v.crawl[j].source_key
    &&& forall|i: int| 0 <= i < v.crawl.len() ==> 0 <= #[trigger] v.crawl[i].error_count <= u32::MAX
    &&& forall|i: int, j: int| #![trigger v.users[i], v.users[j]] 0 <= i < v.users.len() && 0 <= j < v.users.len() && i != j
        ==> v.users[i].telegram_id != v.users[j].telegram_id
    &&& unique_pairs(v.keyword_subs)
    &&& unique_pairs(v.source_subs)
    &&& forall|i: int, j: int| #![trigger v.deliveries[i], v.deliveries[j]] 0 <= i < v.deliveries.len() && 0 <= j < v.deliveries.len() && i != j
        ==> !(v.deliveries[i].notice_id == v.deliveries[j].notice_id && v.deliveries[i].telegram_id == v.deliveries[j].telegram_id)
}

/// The row that inserting `n` under `sk` at time `t` creates.
pub open spec fn new_notice_row(v: StoreView, sk: Seq<char>, n: RawNotice, t: int) -> NoticeRow {
    NoticeRow {
        id: v.notices.len() + 1 as int,
        source_key: sk,
        notice_id: n.notice_id@,
        title: n.title@,
        url: n.url@,
        author: opt_view(n.author),
        category: category_of(lower_of(n.title@)),
        published: opt_view(n.date),
        deadline: None,
        crawled_at: t,
        notified: false,
    }
}

/// The crawl table once `sk` has a row, created at time `t` if absent.
pub open spec fn crawl_touched(v: StoreView, sk: Seq<char>, t: int) -> Seq<CrawlRow> {
    if has_crawl(v, sk) {
        v.crawl
    } else {
        v.crawl.push(CrawlRow { source_key: sk, last_crawled: Some(t), last_notice_id: None, error_count: 0 })
    }
}

/// The store after an insert-or-ignore of `n` under `sk` at time `t`.
pub open spec fn after_insert(v: StoreView, sk: Seq<char>, n: RawNotice, t: int) -> StoreView {
    StoreView {
        notices: if has_notice(v, sk, n.notice_id@) {
            v.notices
        } else {
            v.notices.push(new_notice_row(v, sk, n, t))
        },
        crawl: crawl_touched(v, sk, t),
        ..v
    }
}

/// Marks the notice with surrogate id `id` as broadcast.
pub open spec fn after_mark(v: StoreView, id: int) -> StoreView {
    StoreView {
        notices: Seq::new(v.notices.len(), |i: int|
            if v.notices[i].id == id { NoticeRow { notified: true, ..v.notices[i] } } else { v.notices[i] }),
        ..v
    }
}

/// Marks every notice of source `sk` as broadcast.
pub open spec fn after_mark_source(v: StoreView, sk: Seq<char>) -> StoreView {
    StoreView {
        notices: Seq::new(v.notices.len(), |i: int|
            if v.notices[i].source_key == sk { NoticeRow { notified: true, ..v.notices[i] } } else { v.notices[i] }),
        ..v
    }
}

/// Sets the deadline of the notice with surrogate id `id`.
pub open spec fn after_deadline(v: StoreView, id: int, d: Seq<char>) -> StoreView {
    StoreView {
        notices: Seq::new(v.notices.len(), |i: int|
            if v.notices[i].id == id { NoticeRow { deadline: Some(d), ..v.notices[i] } } else { v.notices[i] }),
        ..v
    }
}

/// The notices that `sel` selects, newest first.
pub open spec fn newest_first(s: Seq<NoticeRow>, sel: Selection) -> Seq<NoticeRow>
    decreases s.len(),
{
    if s.len() == 0 {
        Seq::empty()
    } else if selects(sel, s.last()) {
        seq![s.last()] + newest_first(s.drop_last(), sel)
    } else {
        newest_first(s.drop_last(), sel)
    }
}

/// Which notices a listing reads.
#[derive(Clone, Copy)]
pub enum Selection {
    /// Not yet broadcast.
    Pending,
    /// Broadcast, and crawled at or after the given second.
    RecentSince(i64),
}

/// The selection of the recent window that ends at `now`.
pub open spec fn recent_since(now: i64) -> Selection {
    Selection::RecentSince((now - RECENT_WINDOW_SECS) as i64)
}

pub open spec fn selects(sel: Selection, r: NoticeRow) -> bool {
    match sel {
        Selection::Pending => !r.notified,
        Selection::RecentSince(t) => r.notified && r.crawled_at >= t,
    }
}

/// `ns` lists, under their source keys, the first `limit` notices that
/// `sel` selects, newest first.
pub open spec fn recent_listing(v: StoreView, limit: int, sel: Selection, ns: Seq<Notice>) -> bool {
    &&& ns.len() == min(limit, newest_first(v.notices, sel).len() as int)
    &&& forall|k: int| 0 <= k < ns.len() ==> shows(ns[k], newest_first(v.notices, sel)[k], newest_first(v.notices, sel)[k].source_key)
}

/// The source keys of the crawl table, sorted.
pub open spec fn crawl_keys_sorted(v: StoreView) -> Seq<Seq<char>> {
    sorted_texts(v.crawl.map_values(|c: CrawlRow| c.source_key))
}

/// The display name listed for `key`, or the key itself.
pub open spec fn display_for(names: Seq<(String, String)>, key: Seq<char>) -> Seq<char> {
    param_or_default(names, key, key)
}

/// `n` shows the stored row `r` under the display name `d`.
pub open spec fn shows(n: Notice, r: NoticeRow, d: Seq<char>) -> bool {
    &&& n.id == r.id
    &&& n.source_key@ == r.source_key
    &&& n.notice_id@ == r.notice_id
    &&& n.title@ == r.title
    &&& n.url@ == r.url
    &&& opt_view(n.author) == r.author
    &&& n.category@ == tag_of(r.category)@
    &&& opt_view(n.published) == r.published
    &&& n.source_display_name@ == d
}

/// The consecutive-error counter of source `sk`; zero without a row.
pub open spec fn error_count_of(v: StoreView, sk: Seq<char>) -> int {
    if has_crawl(v, sk) { v.crawl[crawl_pos(v, sk)].error_count } else { 0 }
}

/// The store after a successful crawl of `sk` at time `t` whose newest
/// notice id is `last` (kept as before when absent): the counter is zero.
pub open spec fn after_success(v: StoreView, sk: Seq<char>, last: Option<Seq<char>>, t: int) -> StoreView {
    StoreView {
        crawl: if has_crawl(v, sk) {
            let p = crawl_pos(v, sk);
            v.crawl.update(p, CrawlRow {
                last_crawled: Some(t),
                last_notice_id: if last is Some { last } else { v.crawl[p].last_notice_id },
                error_count: 0,
                ..v.crawl[p]
            })
        } else {
            v.crawl.push(CrawlRow { source_key: sk, last_crawled: Some(t), last_notice_id: last, error_count: 0 })
        },
        ..v
    }
}

/// The store after a failed crawl of `sk`: the counter grows by one; the
/// time of the last successful crawl stays as it was.
pub open spec fn after_failure(v: StoreView, sk: Seq<char>) -> StoreView {
    StoreView {
        crawl: if has_crawl(v, sk) {
            let p = crawl_pos(v, sk);
            v.crawl.update(p, CrawlRow { error_count: v.crawl[p].error_count + 1, ..v.crawl[p] })
        } else {
            v.crawl.push(CrawlRow { source_key: sk, last_crawled: None, last_notice_id: None, error_count: 1 })
        },
        ..v
    }
}

/// The last notice id recorded for source `sk`, if any.
pub open spec fn watermark_of(v: StoreView, sk: Seq<char>) -> Option<Seq<char>> {
    if has_crawl(v, sk) { v.crawl[crawl_pos(v, sk)].last_notice_id } else { None }
}

/// The store with the counter of `sk` set to zero, if `sk` has a row.
pub open spec fn after_reset(v: StoreView, sk: Seq<char>) -> StoreView {
    StoreView {
        crawl: if has_crawl(v, sk) {
            let p = crawl_pos(v, sk);
            v.crawl.update(p, CrawlRow { error_count: 0, ..v.crawl[p] })
        } else {
            v.crawl
        },
        ..v
    }
}

/// The store after user `uid` interacted: created, or refreshed with the
/// names given and made active again.
pub open spec fn after_register(v: StoreView, uid: int, username: Option<Seq<char>>, first_name: Option<Seq<char>>) -> StoreView {
    StoreView {
        users: if has_user(v, uid) {
            let p = user_pos(v, uid);
            v.users.update(p, UserRow {
                username: if username is Some { username } else { v.users[p].username },
                first_name: if first_name is Some { first_name } else { v.users[p].first_name },
                is_active: true,
                ..v.users[p]
            })
        } else {
            v.users.push(UserRow { telegram_id: uid, username, first_name, is_active: true })
        },
        ..v
    }
}

/// The store with user `uid` inactive, if known.
pub open spec fn after_deactivate(v: StoreView, uid: int) -> StoreView {
    StoreView {
        users: if has_user(v, uid) {
            let p = user_pos(v, uid);
            v.users.update(p, UserRow { is_active: false, ..v.users[p] })
        } else {
            v.users
        },
        ..v
    }
}

/// `s` with the pair added unless present.
pub open spec fn pairs_added(s: Seq<(int, Seq<char>)>, uid: int, text: Seq<char>) -> Seq<(int, Seq<char>)> {
    if has_pair(s, uid, text) { s } else { s.push((uid, text)) }
}

/// `s` without the pair.
pub open spec fn pairs_removed(s: Seq<(int, Seq<char>)>, uid: int, text: Seq<char>) -> Seq<(int, Seq<char>)> {
    if has_pair(s, uid, text) { s.remove(pair_pos(s, uid, text)) } else { s }
}

/// The texts paired with `uid`, in order.
pub open spec fn texts_of(s: Seq<(int, Seq<char>)>, uid: int) -> Seq<Seq<char>>
    decreases s.len(),
{
    if s.len() == 0 {
        Seq::empty()
    } else if s.last().0 == uid {
        texts_of(s.drop_last(), uid).push(s.last().1)
    } else {
        texts_of(s.drop_last(), uid)
    }
}

/// The active users subscribed to source `sk`, in subscription order.
pub open spec fn subscribers_in(v: StoreView, s: Seq<(int, Seq<char>)>, sk: Seq<char>) -> Seq<int>
    decreases s.len(),
{
    if s.len() == 0 {
        Seq::empty()
    } else if s.last().1 == sk && is_active_user(v, s.last().0) {
        subscribers_in(v, s.drop_last(), sk).push(s.last().0)
    } else {
        subscribers_in(v, s.drop_last(), sk)
    }
}

pub open spec fn source_subscribers(v: StoreView, sk: Seq<char>) -> Seq<int> {
    subscribers_in(v, v.source_subs, sk)
}

/// The keyword subscriptions of active users, in subscription order.
pub open spec fn active_pairs_in(v: StoreView, s: Seq<(int, Seq<char>)>) -> Seq<(int, Seq<char>)>
    decreases s.len(),
{
    if s.len() == 0 {
        Seq::empty()
    } else if is_active_user(v, s.last().0) {
        active_pairs_in(v, s.drop_last()).push(s.last())
    } else {
        active_pairs_in(v, s.drop_last())
    }
}

pub open spec fn active_keyword_subs(v: StoreView) -> Seq<(int, Seq<char>)> {
    active_pairs_in(v, v.keyword_subs)
}

/// The store after recording that notice `nid` went to user `uid`; a
/// second record for the same pair is ignored.
pub open spec fn after_log(v: StoreView, nid: int, uid: int, match_type: Seq<char>, match_value: Option<Seq<char>>) -> StoreView {
    if delivered(v, nid, uid) {
        v
    } else {
        StoreView {
            deliveries: v.deliveries.push(DeliveryRow { notice_id: nid, telegram_id: uid, match_type, match_value }),
            ..v
        }
    }
}

/// The notice has a deadline on or after `today` (dates as `YYYY-MM-DD`
/// compare as texts).
pub open spec fn due_from(r: NoticeRow, today: Seq<char>) -> bool {
    r.deadline is Some && text_le(today, r.deadline->Some_0)
}

/// The positions of the notices due from `today`, in id order.
pub open spec fn due_positions(s: Seq<NoticeRow>, today: Seq<char>) -> Seq<int>
    decreases s.len(),
{
    if s.len() == 0 {
        Seq::empty()
    } else if due_from(s.last(), today) {
        due_positions(s.drop_last(), today).push(s.len() - 1)
    } else {
        due_positions(s.drop_last(), today)
    }
}

/// `x` placed into `s` after every position whose deadline sorts before
/// or equals its own, counting from the end.
pub open spec fn insert_by_deadline(s: Seq<int>, x: int, rows: Seq<NoticeRow>) -> Seq<int>
    decreases s.len(),
{
    if s.len() == 0 {
        seq![x]
    } else if text_le(rows[s.last()].deadline->Some_0, rows[x].deadline->Some_0) {
        s.push(x)
    } else {
        insert_by_deadline(s.drop_last(), x, rows).push(s.last())
    }
}

/// Positions ordered by deadline; equal deadlines keep their order.
pub open spec fn by_deadline(s: Seq<int>, rows: Seq<NoticeRow>) -> Seq<int>
    decreases s.len(),
{
    if s.len() == 0 {
        Seq::empty()
    } else {
        insert_by_deadline(by_deadline(s.drop_last(), rows), s.last(), rows)
    }
}

/// The notices due from `today`, earliest deadline first.
pub open spec fn upcoming(v: StoreView, today: Seq<char>) -> Seq<int> {
    by_deadline(due_positions(v.notices, today), v.notices)
}

/// `ns` lists, under their source keys, the first `limit` notices due from
/// `today`, earliest deadline first.
pub open spec fn deadline_listing(v: StoreView, limit: int, today: Seq<char>, ns: Seq<Notice>) -> bool {
    &&& ns.len() == min(limit, upcoming(v, today).len() as int)
    &&& forall|k: int| 0 <= k < ns.len() ==> shows(#[trigger] ns[k], v.notices[upcoming(v, today)[k]],
        v.notices[upcoming(v, today)[k]].source_key)
}

pub open spec fn min(a: int, b: int) -> int {
    if a <= b { a } else { b }
}

// ---- records ----

/// A stored notice, as it is persisted.

pub struct NoticeRecord {
    pub id: i64,
    pub source_key: String,
    pub notice_id: String,
    pub title: String,
    pub url: String,
    pub author: Option<String>,
    pub category: Category,
    pub published: Option<String>,
    pub deadline: Option<String>,
    pub crawled_at: i64,
    pub notified: bool,
}

impl NoticeRecord {
    pub open spec fn row(&self) -> NoticeRow {
        NoticeRow {
            id: self.id as int,
            source_key: self.source_key@,
            notice_id: self.notice_id@,
            title: self.title@,
            url: self.url@,
            author: opt_view(self.author),
            category: self.category,
            published: opt_view(self.published),
            deadline: opt_view(self.deadline),
            crawled_at: self.crawled_at as int,
            notified: self.notified,
        }
    }
}

/// The crawl state of a source, as it is persisted.
pub struct CrawlRecord {
    pub source_key: String,
    pub last_crawled: Option<i64>,
    pub last_notice_id: Option<String>,
    pub error_count: u32,
}

impl CrawlRecord {
    pub open spec fn row(&self) -> CrawlRow {
        CrawlRow {
            source_key: self.source_key@,
            last_crawled: match self.last_crawled {
                Some(t) => Some(t as int),
                None => None,
            },
            last_notice_id: opt_view(self.last_notice_id),
            error_count: self.error_count as int,
        }
    }
}

/// A user, as it is persisted.
pub struct UserRecord {
    pub telegram_id: i64,
    pub username: Option<String>,
    pub first_name: Option<String>,
    pub is_active: bool,
}

impl UserRecord {
    pub open spec fn row(&self) -> UserRow {
        UserRow {
            telegram_id: self.telegram_id as int,
            username: opt_view(self.username),
            first_name: opt_view(self.first_name),
            is_active: self.is_active,
        }
    }
}

/// A delivery, as it is persisted.
pub struct DeliveryRecord {
    pub notice_id: i64,
    pub telegram_id: i64,
    pub match_type: String,
    pub match_value: Option<String>,
}

impl DeliveryRecord {
    pub open spec fn row(&self) -> DeliveryRow {
        DeliveryRow {
            notice_id: self.notice_id as int,
            telegram_id: self.telegram_id as int,
            match_type: self.match_type@,
            match_value: opt_view(self.match_value),
        }
    }
}

pub open spec fn pair_row(p: (i64, String)) -> (int, Seq<char>) {
    (p.0 as int, p.1@)
}

/// The store. `path` names where the process keeps it between runs.
pub struct Database {
    path: String,
    notices: Vec<NoticeRecord>,
    crawl: Vec<CrawlRecord>,
    users: Vec<UserRecord>,
    keyword_subs: Vec<(i64, String)>,
    source_subs: Vec<(i64, String)>,
    deliveries: Vec<DeliveryRecord>,
}

impl View for Database {
    type V = StoreView;

    closed spec fn view(&self) -> StoreView {
        StoreView {
            notices: self.notices@.map_values(|r: NoticeRecord| r.row()),
            crawl: self.crawl@.map_values(|r: CrawlRecord| r.row()),
            users: self.users@.map_values(|r: UserRecord| r.row()),
            keyword_subs: self.keyword_subs@.map_values(|p: (i64, String)| pair_row(p)),
            source_subs: self.source_subs@.map_values(|p: (i64, String)| pair_row(p)),
            deliveries: self.deliveries@.map_values(|r: DeliveryRecord| r.row()),
        }
    }
}

/// Relies on chrono's `Utc::now`: the current time, as seconds since the
/// Unix epoch and as the UTC date `YYYY-MM-DD`. Nothing is promised of the
/// values.
#[verifier::external_body]
fn utc_now() -> (i64, String) {
    let t = chrono::Utc::now();
    (t.timestamp(), t.date_naive().to_string())
}

fn unix_now() -> i64 {
    utc_now().0
}

impl Database {
    pub open spec fn wf(&self) -> bool {
        store_inv(self@)
    }

    pub closed spec fn path_spec(&self) -> Seq<char> {
        self.path@
    }

    /// An empty store, to be kept at `path`.
    pub fn init(path: &str) -> (r: Result<Database, StoreError>)
        ensures
            r is Ok,
            r matches Ok(db) ==> db.wf() && db.path_spec() == path@ && db@ == (StoreView {
                notices: Seq::empty(),
                crawl: Seq::empty(),
                users: Seq::empty(),
                keyword_subs: Seq::empty(),
                source_subs: Seq::empty(),
                deliveries: Seq::empty(),
            }),
    {
        let db = Database {
            path: String::from_str(path),
            notices: Vec::new(),
            crawl: Vec::new(),
            users: Vec::new(),
            keyword_subs: Vec::new(),
            source_subs: Vec::new(),
            deliveries: Vec::new(),
        };
        assert(db@.notices =~= Seq::empty());
        assert(db@.crawl =~= Seq::empty());
        assert(db@.users =~= Seq::empty());
        assert(db@.keyword_subs =~= Seq::empty());
        assert(db@.source_subs =~= Seq::empty());
        assert(db@.deliveries =~= Seq::empty());
        Ok(db)
    }

    /// Where the store is kept.
    pub fn path(&self) -> (r: &str)
        ensures
            r@ == self.path_spec(),
    {
        self.path.as_str()
    }

    fn find_notice(&self, sk: &str, nid: &str) -> (r: Option<usize>)
        requires
            self.wf(),
        ensures
            r is Some <==> has_notice(self@, sk@, nid@),
    {
        let mut i: usize = 0;
        while i < self.notices.len()
            invariant
                i <= self.notices@.len(),
                self@.notices.len() == self.notices@.len(),
                forall|j: int| 0 <= j < i ==> !(self@.notices[j].source_key == sk@ && self@.notices[j].notice_id == nid@),
            decreases self.notices@.len() - i,
        {
            proof {
                assert(self@.notices[i as int] == self.notices@[i as int].row());
            }
            if same_text(self.notices[i].source_key.as_str(), sk)
                && same_text(self.notices[i].notice_id.as_str(), nid) {
                return Some(i);
            }
            i = i + 1;
        }
        None
    }

    fn find_crawl(&self, sk: &str) -> (r: Option<usize>)
        requires
            self.wf(),
        ensures
            r is Some <==> has_crawl(self@, sk@),
            r matches Some(i) ==> i == crawl_pos(self@, sk@) && i < self@.crawl.len(),
    {
        let mut i: usize = 0;
        while i < self.crawl.len()
            invariant
                self.wf(),
                i <= self.crawl@.len(),
                self@.crawl.len() == self.crawl@.len(),
                forall|j: int| 0 <= j < i ==> self@.crawl[j].source_key != sk@,
            decreases self.crawl@.len() - i,
        {
            proof {
                assert(self@.crawl[i as int] == self.crawl@[i as int].row());
            }
            if same_text(self.crawl[i].source_key.as_str(), sk) {
                proof {
                    let p = crawl_pos(self@, sk@);
                    assert(self@.crawl[i as int].source_key == sk@);
                }
                return Some(i);
            }
            i = i + 1;
        }
        None
    }

    /// Inserts the notice unless one with the same source and source-local
    /// id is stored; classification happens here, once. Returns whether the
    /// row was new. The source also gets a crawl-state row if it had none.
    pub fn insert_if_new(&mut self, source_key: &str, notice: &RawNotice, display_name: &str) -> (r: Result<bool, StoreError>)
        requires
            old(self).wf(),
        ensures
            final(self).wf(),
            final(self).path_spec() == old(self).path_spec(),
            r is Err <==> !has_notice(old(self)@, source_key@, notice.notice_id@)
                && old(self)@.notices.len() >= MAX_NOTICES,
            r matches Ok(b) ==> b == !has_notice(old(self)@, source_key@, notice.notice_id@)
                && exists|t: int| final(self)@ == after_insert(old(self)@, source_key@, *notice, t)
                    && (latest_crawl(old(self)@) matches Some(l) ==> l <= t),
            r is Err ==> final(self)@ == old(self)@,
    {
        let found = self.find_notice(source_key, notice.notice_id.as_str());
        if found.is_none() && self.notices.len() >= MAX_NOTICES {
            return Err(StoreError::Full);
        }
        let mut now = unix_now();
        let n = self.notices.len();
        if n > 0 && self.notices[n - 1].crawled_at > now {
            // A clock that stepped back must not reorder the notices.
            now = self.notices[n - 1].crawled_at;
        }
        let ghost v0 = self@;
        proof {
            if n > 0 {
                assert(v0.notices[n - 1] == self.notices@[n - 1].row());
            }
        }
        let is_new = found.is_none();
        if is_new {
            let category = Category::classify(notice.title.as_str());
            let rec = NoticeRecord {
                id: (self.notices.len() + 1) as i64,
                source_key: String::from_str(source_key),
                notice_id: notice.notice_id.clone(),
                title: notice.title.clone(),
                url: notice.url.clone(),
                author: clone_opt(&notice.author),
                category,
                published: clone_opt(&notice.date),
                deadline: None,
                crawled_at: now,
                notified: false,
            };
            assert(rec.row() == new_notice_row(v0, source_key@, *notice, now as int));
            self.notices.push(rec);
            assert(self@.notices =~= v0.notices.push(new_notice_row(v0, source_key@, *notice, now as int)));
            proof {
                let w = self@.notices;
                assert forall|i: int, j: int| 0 <= i <= j < w.len() implies #[trigger] w[i].crawled_at <= #[trigger] w[j].crawled_at by {
                    if j == n as int && i < j {
                        assert(v0.notices[i].crawled_at <= v0.notices[n - 1].crawled_at);
                    } else if j < n as int {
                        assert(w[i] == v0.notices[i] && w[j] == v0.notices[j]);
                    }
                }
                assert forall|i: int, j: int| #![trigger w[i], w[j]] 0 <= i < w.len() && 0 <= j < w.len() && i != j
                    implies !(w[i].source_key == w[j].source_key && w[i].notice_id == w[j].notice_id) by {
                    if i == n as int {
                        assert(!(v0.notices[j].source_key == source_key@ && v0.notices[j].notice_id == notice.notice_id@));
                    } else if j == n as int {
                        assert(!(v0.notices[i].source_key == source_key@ && v0.notices[i].notice_id == notice.notice_id@));
                    } else {
                        assert(w[i] == v0.notices[i] && w[j] == v0.notices[j]);
                    }
                }
            }
        }
        let ghost v1 = self@;
        if self.find_crawl(source_key).is_none() {
            let rec = CrawlRecord {
                source_key: String::from_str(source_key),
                last_crawled: Some(now),
                last_notice_id: None,
                error_count: 0,
            };
            self.crawl.push(rec);
            assert(self@.crawl =~= v1.crawl.push(
                CrawlRow { source_key: source_key@, last_crawled: Some(now as int), last_notice_id: None, error_count: 0 },
            ));
        }
        assert(self@ == after_insert(v0, source_key@, *notice, now as int));
        proof {
            let v = self@;
            assert forall|i: int, j: int| 0 <= i < v.notices.len() && 0 <= j < v.notices.len() && i != j
                implies !(v.notices[i].source_key == v.notices[j].source_key && v.notices[i].notice_id == v.notices[j].notice_id) by {
                if is_new && (i == v0.notices.len() || j == v0.notices.len()) {
                    if i == v0.notices.len() {
                        assert(!(v0.notices[j].source_key == source_key@ && v0.notices[j].notice_id == notice.notice_id@));
                    } else {
                        assert(!(v0.notices[i].source_key == source_key@ && v0.notices[i].notice_id == notice.notice_id@));
                    }
                }
            }
        }
        Ok(is_new)
    }
}

impl Database {
    proof fn lemma_notice_rows(&self)
        ensures
            self@.notices.len() == self.notices@.len(),
            forall|i: int| 0 <= i < self.notices@.len() ==> #[trigger] self@.notices[i] == self.notices@[i].row(),
    {
    }

    fn selected(&self, i: usize, sel: Selection) -> (r: bool)
        requires
            i < self.notices@.len(),
        ensures
            r == selects(sel, self@.notices[i as int]),
    {
        match sel {
            Selection::Pending => !self.notices[i].notified,
            Selection::RecentSince(t) => self.notices[i].notified && self.notices[i].crawled_at >= t,
        }
    }

    fn notice_out(&self, i: usize, names: &Vec<(String, String)>) -> (r: Notice)
        requires
            i < self.notices@.len(),
        ensures
            shows(r, self@.notices[i as int], display_for(names@, self@.notices[i as int].source_key)),
    {
        let rec = &self.notices[i];
        Notice {
            id: rec.id,
            source_key: rec.source_key.clone(),
            notice_id: rec.notice_id.clone(),
            title: rec.title.clone(),
            url: rec.url.clone(),
            author: clone_opt(&rec.author),
            category: String::from_str(rec.category.as_str()),
            published: clone_opt(&rec.published),
            source_display_name: lookup_or(names, rec.source_key.as_str(), rec.source_key.as_str()),
        }
    }

    /// Up to `limit` of the notices that `sel` selects, newest first, shown
    /// under the display names of `names`.
    pub fn select_notices(&self, limit: usize, sel: Selection, names: &Vec<(String, String)>) -> (r: Vec<Notice>)
        ensures
            r@.len() == min(limit as int, newest_first(self@.notices, sel).len() as int),
            forall|k: int| 0 <= k < r@.len() ==> shows(r@[k], newest_first(self@.notices, sel)[k],
                display_for(names@, newest_first(self@.notices, sel)[k].source_key)),
    {
        proof { self.lemma_notice_rows(); }
        let ghost v = self@;
        let ghost full = newest_first(v.notices, sel);
        let mut out: Vec<Notice> = Vec::new();
        let ghost mut taken: Seq<NoticeRow> = Seq::empty();
        let mut j = self.notices.len();
        assert(v.notices.subrange(0, j as int) =~= v.notices);
        assert(taken + newest_first(v.notices.subrange(0, j as int), sel) =~= full);
        while j > 0 && out.len() < limit
            invariant
                v == self@,
                full == newest_first(v.notices, sel),
                j <= v.notices.len(),
                v.notices.len() == self.notices@.len(),
                out@.len() == taken.len(),
                out@.len() <= limit,
                taken + newest_first(v.notices.subrange(0, j as int), sel) == full,
                forall|k: int| 0 <= k < out@.len() ==> shows(out@[k], taken[k], display_for(names@, taken[k].source_key)),
            decreases j,
        {
            let idx = j - 1;
            let ghost pre = v.notices.subrange(0, j as int);
            assert(pre.drop_last() =~= v.notices.subrange(0, idx as int));
            assert(pre.last() == v.notices[idx as int]);
            if self.selected(idx, sel) {
                let n = self.notice_out(idx, names);
                out.push(n);
                proof {
                    let r = v.notices[idx as int];
                    assert(taken.push(r) + newest_first(v.notices.subrange(0, idx as int), sel)
                        =~= taken + (seq![r] + newest_first(v.notices.subrange(0, idx as int), sel)));
                    taken = taken.push(r);
                }
            }
            j = idx;
        }
        proof {
            if j == 0 {
                assert(v.notices.subrange(0, 0) =~= Seq::<NoticeRow>::empty());
                assert(taken =~= full);
            }
            assert forall|k: int| 0 <= k < out@.len() implies taken[k] == full[k] by {
                assert((taken + newest_first(v.notices.subrange(0, j as int), sel))[k] == taken[k]);
            }
        }
        out
    }

    /// Up to `limit` notices not yet broadcast, most recently crawled first, shown under
    /// their source's display name (the key where none is listed).
    pub fn get_pending(&self, limit: usize, source_display_names: &Vec<(String, String)>) -> (r: Result<Vec<Notice>, StoreError>)
        requires
            self.wf(),
        ensures
            forall|i: int, j: int| 0 <= i <= j < newest_first(self@.notices, Selection::Pending).len() ==>
                #[trigger] newest_first(self@.notices, Selection::Pending)[i].crawled_at
                    >= #[trigger] newest_first(self@.notices, Selection::Pending)[j].crawled_at,
            r matches Ok(ns) && ns@.len() == min(limit as int, newest_first(self@.notices, Selection::Pending).len() as int)
                && forall|k: int| 0 <= k < ns@.len() ==> shows(ns@[k], newest_first(self@.notices, Selection::Pending)[k],
                    display_for(source_display_names@, newest_first(self@.notices, Selection::Pending)[k].source_key)),
    {
        proof {
            lemma_newest_first_ordered(self@.notices, Selection::Pending);
        }
        Ok(self.select_notices(limit, Selection::Pending, source_display_names))
    }

    /// Up to `limit` broadcast notices crawled within the recent window
    /// ending at `now`, newest first, shown under their source key.
    pub fn get_recent_for_dm_at(&self, limit: usize, now: i64) -> (r: Vec<Notice>)
        requires
            now >= i64::MIN + RECENT_WINDOW_SECS,
        ensures
            r@.len() == min(limit as int, newest_first(self@.notices, recent_since(now)).len() as int),
            forall|k: int| 0 <= k < r@.len() ==> shows(r@[k],
                newest_first(self@.notices, recent_since(now))[k],
                newest_first(self@.notices, recent_since(now))[k].source_key),
    {
        let names: Vec<(String, String)> = Vec::new();
        let r = self.select_notices(limit, Selection::RecentSince(now - RECENT_WINDOW_SECS), &names);
        proof {
            assert forall|key: Seq<char>| display_for(names@, key) == key by {
                assert(names@.len() == 0);
            }
        }
        r
    }

    /// Up to `limit` broadcast notices crawled within the last day, newest
    /// first, shown under their source key.
    pub fn get_recent_for_dm(&self, limit: usize) -> (r: Result<Vec<Notice>, StoreError>)
        ensures
            r matches Ok(ns) && exists|now: i64| recent_listing(self@, limit as int, #[trigger] recent_since(now), ns@),
    {
        let mut now = unix_now();
        if now < i64::MIN + RECENT_WINDOW_SECS {
            now = i64::MIN + RECENT_WINDOW_SECS;
        }
        Ok(self.get_recent_for_dm_at(limit, now))
    }

    fn replace_notice(&mut self, i: usize, rec: NoticeRecord)
        requires
            i < old(self).notices@.len(),
        ensures
            final(self).notices@ == old(self).notices@.update(i as int, rec),
            final(self).path == old(self).path,
            final(self).crawl == old(self).crawl,
            final(self).users == old(self).users,
            final(self).keyword_subs == old(self).keyword_subs,
            final(self).source_subs == old(self).source_subs,
            final(self).deliveries == old(self).deliveries,
    {
        let _ = self.notices.remove(i);
        self.notices.insert(i, rec);
        assert(self.notices@ =~= old(self).notices@.update(i as int, rec));
    }

    /// Marks the notice with surrogate id `id` as broadcast; the flag never
    /// reverts.
    pub fn mark_notified(&mut self, id: i64) -> (r: Result<(), StoreError>)
        requires
            old(self).wf(),
        ensures
            r is Ok,
            final(self).wf(),
            final(self).path_spec() == old(self).path_spec(),
            final(self)@ == after_mark(old(self)@, id as int),
    {
        proof { self.lemma_notice_rows(); }
        let ghost v = self@;
        if id >= 1 && id <= self.notices.len() as i64 {
            let idx = (id - 1) as usize;
            let mut rec = self.notices.remove(idx);
            rec.notified = true;
            self.notices.insert(idx, rec);
            assert(self.notices@ =~= old(self).notices@.update(idx as int, rec));
        }
        assert(self@.notices =~= after_mark(v, id as int).notices);
        Ok(())
    }

    /// Marks every notice of `source_key` as broadcast.
    pub fn mark_all_notified(&mut self, source_key: &str) -> (r: Result<(), StoreError>)
        requires
            old(self).wf(),
        ensures
            r is Ok,
            final(self).wf(),
            final(self).path_spec() == old(self).path_spec(),
            final(self)@ == after_mark_source(old(self)@, source_key@),
    {
        proof { self.lemma_notice_rows(); }
        let ghost v = self@;
        let mut i: usize = 0;
        while i < self.notices.len()
            invariant
                i <= self.notices@.len(),
                self.notices@.len() == v.notices.len(),
                self.path == old(self).path,
                self@.crawl == v.crawl && self@.users == v.users && self@.keyword_subs == v.keyword_subs
                    && self@.source_subs == v.source_subs && self@.deliveries == v.deliveries,
                forall|k: int| 0 <= k < i ==> #[trigger] self.notices@[k].row() == after_mark_source(v, source_key@).notices[k],
                forall|k: int| i <= k < v.notices.len() ==> #[trigger] self.notices@[k].row() == v.notices[k],
            decreases self.notices@.len() - i,
        {
            if same_text(self.notices[i].source_key.as_str(), source_key) {
                let mut rec = self.notices.remove(i);
                rec.notified = true;
                self.notices.insert(i, rec);
            }
            i = i + 1;
        }
        assert(self@.notices =~= after_mark_source(v, source_key@).notices);
        Ok(())
    }

    /// Records the deadline found for the notice with surrogate id `id`.
    pub fn set_deadline(&mut self, notice_db_id: i64, deadline: &str) -> (r: Result<(), StoreError>)
        requires
            old(self).wf(),
        ensures
            r is Ok,
            final(self).wf(),
            final(self).path_spec() == old(self).path_spec(),
            final(self)@ == after_deadline(old(self)@, notice_db_id as int, deadline@),
    {
        proof { self.lemma_notice_rows(); }
        let ghost v = self@;
        if notice_db_id >= 1 && notice_db_id <= self.notices.len() as i64 {
            let idx = (notice_db_id - 1) as usize;
            let mut rec = self.notices.remove(idx);
            rec.deadline = Some(String::from_str(deadline));
            self.notices.insert(idx, rec);
            assert(self.notices@ =~= old(self).notices@.update(idx as int, rec));
        }
        assert(self@.notices =~= after_deadline(v, notice_db_id as int, deadline@).notices);
        Ok(())
    }
}

impl Database {
    fn find_user(&self, uid: i64) -> (r: Option<usize>)
        requires
            self.wf(),
        ensures
            r is Some <==> has_user(self@, uid as int),
            r matches Some(i) ==> i == user_pos(self@, uid as int) && i < self@.users.len(),
    {
        let mut i: usize = 0;
        while i < self.users.len()
            invariant
                self.wf(),
                i <= self.users@.len(),
                self@.users.len() == self.users@.len(),
                forall|j: int| 0 <= j < i ==> self@.users[j].telegram_id != uid,
            decreases self.users@.len() - i,
        {
            proof {
                assert(self@.users[i as int] == self.users@[i as int].row());
            }
            if self.users[i].telegram_id == uid {
                proof {
                    assert(self@.users[i as int].telegram_id == uid);
                }
                return Some(i);
            }
            i = i + 1;
        }
        None
    }

    /// Records a successful crawl of `source_key`: the time, the newest
    /// notice id when given, and a zero error counter.
    pub fn update_crawl_state(&mut self, source_key: &str, last_id: Option<&str>) -> (r: Result<(), StoreError>)
        requires
            old(self).wf(),
        ensures
            r is Ok,
            final(self).wf(),
            final(self).path_spec() == old(self).path_spec(),
            exists|t: int| final(self)@ == after_success(old(self)@, source_key@, opt_str_view(last_id), t),
    {
        let now = unix_now();
        let ghost v = self@;
        match self.find_crawl(source_key) {
            Some(i) => {
                let mut rec = self.crawl.remove(i);
                rec.last_crawled = Some(now);
                if last_id.is_some() {
                    rec.last_notice_id = owned_opt(last_id);
                }
                rec.error_count = 0;
                self.crawl.insert(i, rec);
                assert(self.crawl@ =~= old(self).crawl@.update(i as int, rec));
            },
            None => {
                self.crawl.push(CrawlRecord {
                    source_key: String::from_str(source_key),
                    last_crawled: Some(now),
                    last_notice_id: owned_opt(last_id),
                    error_count: 0,
                });
            },
        }
        assert(self@.crawl =~= after_success(v, source_key@, opt_str_view(last_id), now as int).crawl);
        assert(self@ == after_success(v, source_key@, opt_str_view(last_id), now as int));
        proof {
            let c = self@.crawl;
            assert forall|i: int, j: int| 0 <= i < c.len() && 0 <= j < c.len() && i != j
                implies c[i].source_key != c[j].source_key by {
                if i < v.crawl.len() && j < v.crawl.len() {
                    assert(c[i].source_key == v.crawl[i].source_key);
                    assert(c[j].source_key == v.crawl[j].source_key);
                }
            }
        }
        Ok(())
    }

    /// Records a failed crawl of `source_key` and returns the new number of
    /// consecutive failures.
    pub fn increment_error(&mut self, source_key: &str) -> (r: Result<u32, StoreError>)
        requires
            old(self).wf(),
        ensures
            final(self).wf(),
            final(self).path_spec() == old(self).path_spec(),
            r is Err <==> error_count_of(old(self)@, source_key@) == u32::MAX,
            r matches Ok(c) ==> c == error_count_of(old(self)@, source_key@) + 1
                && c == error_count_of(final(self)@, source_key@)
                && final(self)@ == after_failure(old(self)@, source_key@),
            r is Err ==> final(self)@ == old(self)@ && r == Err::<u32, StoreError>(StoreError::CounterOverflow),
    {
        let ghost v = self@;
        let found = self.find_crawl(source_key);
        if let Some(i) = found {
            proof {
                assert(self@.crawl[i as int] == self.crawl@[i as int].row());
            }
            if self.crawl[i].error_count == u32::MAX {
                return Err(StoreError::CounterOverflow);
            }
        }
        let count: u32;
        match found {
            Some(i) => {
                let mut rec = self.crawl.remove(i);
                rec.error_count = rec.error_count + 1;
                count = rec.error_count;
                self.crawl.insert(i, rec);
                assert(self.crawl@ =~= old(self).crawl@.update(i as int, rec));
            },
            None => {
                self.crawl.push(CrawlRecord {
                    source_key: String::from_str(source_key),
                    last_crawled: None,
                    last_notice_id: None,
                    error_count: 1,
                });
                count = 1;
            },
        }
        assert(self@.crawl =~= after_failure(v, source_key@).crawl);
        assert(self@ == after_failure(v, source_key@));
        proof {
            let c = self@.crawl;
            assert forall|i: int, j: int| 0 <= i < c.len() && 0 <= j < c.len() && i != j
                implies c[i].source_key != c[j].source_key by {
                if i < v.crawl.len() && j < v.crawl.len() {
                    assert(c[i].source_key == v.crawl[i].source_key);
                    assert(c[j].source_key == v.crawl[j].source_key);
                }
            }
            match found {
                Some(i) => {
                    assert(c[i as int].source_key == source_key@);
                    let p = crawl_pos(self@, source_key@);
                    assert(c[p].source_key == source_key@);
                },
                None => {
                    assert(c[v.crawl.len() as int].source_key == source_key@);
                    let p = crawl_pos(self@, source_key@);
                    assert(c[p].source_key == source_key@);
                },
            }
        }
        Ok(count)
    }

    /// Sets the error counter of `source_key` to zero, if it has one.
    pub fn reset_error(&mut self, source_key: &str) -> (r: Result<(), StoreError>)
        requires
            old(self).wf(),
        ensures
            r is Ok,
            final(self).wf(),
            final(self).path_spec() == old(self).path_spec(),
            final(self)@ == after_reset(old(self)@, source_key@),
    {
        let ghost v = self@;
        if let Some(i) = self.find_crawl(source_key) {
            let mut rec = self.crawl.remove(i);
            rec.error_count = 0;
            self.crawl.insert(i, rec);
            assert(self.crawl@ =~= old(self).crawl@.update(i as int, rec));
        }
        assert(self@.crawl =~= after_reset(v, source_key@).crawl);
        proof {
            let c = self@.crawl;
            assert forall|i: int, j: int| 0 <= i < c.len() && 0 <= j < c.len() && i != j
                implies c[i].source_key != c[j].source_key by {
                assert(c[i].source_key == v.crawl[i].source_key);
                assert(c[j].source_key == v.crawl[j].source_key);
            }
        }
        Ok(())
    }

    /// Creates user `telegram_id`, or refreshes the names given and makes
    /// the user active again.
    pub fn register_user(&mut self, telegram_id: i64, username: Option<&str>, first_name: Option<&str>) -> (r: Result<(), StoreError>)
        requires
            old(self).wf(),
        ensures
            r is Ok,
            final(self).wf(),
            final(self).path_spec() == old(self).path_spec(),
            final(self)@ == after_register(old(self)@, telegram_id as int, opt_str_view(username), opt_str_view(first_name)),
    {
        let ghost v = self@;
        match self.find_user(telegram_id) {
            Some(i) => {
                let mut rec = self.users.remove(i);
                if username.is_some() {
                    rec.username = owned_opt(username);
                }
                if first_name.is_some() {
                    rec.first_name = owned_opt(first_name);
                }
                rec.is_active = true;
                self.users.insert(i, rec);
                assert(self.users@ =~= old(self).users@.update(i as int, rec));
            },
            None => {
                self.users.push(UserRecord {
                    telegram_id,
                    username: owned_opt(username),
                    first_name: owned_opt(first_name),
                    is_active: true,
                });
            },
        }
        assert(self@.users =~= after_register(v, telegram_id as int, opt_str_view(username), opt_str_view(first_name)).users);
        proof {
            let u = self@.users;
            assert forall|i: int, j: int| 0 <= i < u.len() && 0 <= j < u.len() && i != j
                implies u[i].telegram_id != u[j].telegram_id by {
                if i < v.users.len() && j < v.users.len() {
                    assert(u[i].telegram_id == v.users[i].telegram_id);
                    assert(u[j].telegram_id == v.users[j].telegram_id);
                }
            }
        }
        Ok(())
    }

    /// Marks user `telegram_id` inactive: no subscriber query lists it again
    /// until it registers anew.
    pub fn deactivate_user(&mut self, telegram_id: i64) -> (r: Result<(), StoreError>)
        requires
            old(self).wf(),
        ensures
            r is Ok,
            final(self).wf(),
            final(self).path_spec() == old(self).path_spec(),
            final(self)@ == after_deactivate(old(self)@, telegram_id as int),
    {
        let ghost v = self@;
        if let Some(i) = self.find_user(telegram_id) {
            let mut rec = self.users.remove(i);
            rec.is_active = false;
            self.users.insert(i, rec);
            assert(self.users@ =~= old(self).users@.update(i as int, rec));
        }
        assert(self@.users =~= after_deactivate(v, telegram_id as int).users);
        proof {
            let u = self@.users;
            assert forall|i: int, j: int| 0 <= i < u.len() && 0 <= j < u.len() && i != j
                implies u[i].telegram_id != u[j].telegram_id by {
                assert(u[i].telegram_id == v.users[i].telegram_id);
                assert(u[j].telegram_id == v.users[j].telegram_id);
            }
        }
        Ok(())
    }
}

fn find_pair(s: &Vec<(i64, String)>, uid: i64, text: &str) -> (r: Option<usize>)
    requires
        unique_pairs(s@.map_values(|p: (i64, String)| pair_row(p))),
    ensures
        r is Some <==> has_pair(s@.map_values(|p: (i64, String)| pair_row(p)), uid as int, text@),
        r matches Some(i) ==> i == pair_pos(s@.map_values(|p: (i64, String)| pair_row(p)), uid as int, text@)
            && i < s@.len(),
{
    let ghost m = s@.map_values(|p: (i64, String)| pair_row(p));
    let mut i: usize = 0;
    while i < s.len()
        invariant
            m == s@.map_values(|p: (i64, String)| pair_row(p)),
            unique_pairs(m),
            i <= s@.len(),
            forall|j: int| 0 <= j < i ==> m[j] != (uid as int, text@),
        decreases s@.len() - i,
    {
        if s[i].0 == uid && same_text(s[i].1.as_str(), text) {
            proof {
                assert(m[i as int] == (uid as int, text@));
                let p = pair_pos(m, uid as int, text@);
                assert(m[p] == (uid as int, text@));
            }
            return Some(i);
        }
        i = i + 1;
    }
    None
}

fn add_pair(s: &mut Vec<(i64, String)>, uid: i64, text: &str) -> (r: bool)
    requires
        unique_pairs(old(s)@.map_values(|p: (i64, String)| pair_row(p))),
    ensures
        r == !has_pair(old(s)@.map_values(|p: (i64, String)| pair_row(p)), uid as int, text@),
        final(s)@.map_values(|p: (i64, String)| pair_row(p))
            == pairs_added(old(s)@.map_values(|p: (i64, String)| pair_row(p)), uid as int, text@),
        unique_pairs(final(s)@.map_values(|p: (i64, String)| pair_row(p))),
{
    let ghost m = old(s)@.map_values(|p: (i64, String)| pair_row(p));
    if find_pair(s, uid, text).is_some() {
        return false;
    }
    s.push((uid, String::from_str(text)));
    let ghost m2 = s@.map_values(|p: (i64, String)| pair_row(p));
    assert(m2 =~= m.push((uid as int, text@)));
    assert forall|i: int, j: int| 0 <= i < m2.len() && 0 <= j < m2.len() && i != j implies m2[i] != m2[j] by {
        if i < m.len() && j < m.len() {
            assert(m2[i] == m[i] && m2[j] == m[j]);
        } else if i < m.len() {
            assert(m2[i] == m[i]);
        } else {
            assert(m2[j] == m[j]);
        }
    }
    true
}

fn remove_pair(s: &mut Vec<(i64, String)>, uid: i64, text: &str) -> (r: bool)
    requires
        unique_pairs(old(s)@.map_values(|p: (i64, String)| pair_row(p))),
    ensures
        r == has_pair(old(s)@.map_values(|p: (i64, String)| pair_row(p)), uid as int, text@),
        final(s)@.map_values(|p: (i64, String)| pair_row(p))
            == pairs_removed(old(s)@.map_values(|p: (i64, String)| pair_row(p)), uid as int, text@),
        unique_pairs(final(s)@.map_values(|p: (i64, String)| pair_row(p))),
{
    let ghost m = old(s)@.map_values(|p: (i64, String)| pair_row(p));
    match find_pair(s, uid, text) {
        Some(i) => {
            let _ = s.remove(i);
            let ghost m2 = s@.map_values(|p: (i64, String)| pair_row(p));
            assert(m2 =~= m.remove(i as int));
            assert forall|a: int, b: int| 0 <= a < m2.len() && 0 <= b < m2.len() && a != b implies m2[a] != m2[b] by {
                let a0 = if a < i { a } else { a + 1 };
                let b0 = if b < i { b } else { b + 1 };
                assert(m2[a] == m[a0] && m2[b] == m[b0]);
            }
            true
        },
        None => false,
    }
}

impl Database {
    /// Subscribes user `telegram_id` to titles containing `keyword`; returns
    /// false, changing nothing, when already subscribed.
    pub fn add_keyword_sub(&mut self, telegram_id: i64, keyword: &str) -> (r: Result<bool, StoreError>)
        requires
            old(self).wf(),
        ensures
            final(self).wf(),
            final(self).path_spec() == old(self).path_spec(),
            r == Ok::<bool, StoreError>(!has_pair(old(self)@.keyword_subs, telegram_id as int, keyword@)),
            final(self)@ == (StoreView { keyword_subs: pairs_added(old(self)@.keyword_subs, telegram_id as int, keyword@), ..old(self)@ }),
    {
        let b = add_pair(&mut self.keyword_subs, telegram_id, keyword);
        Ok(b)
    }

    /// Removes a keyword subscription; returns whether there was one.
    pub fn remove_keyword_sub(&mut self, telegram_id: i64, keyword: &str) -> (r: Result<bool, StoreError>)
        requires
            old(self).wf(),
        ensures
            final(self).wf(),
            final(self).path_spec() == old(self).path_spec(),
            r == Ok::<bool, StoreError>(has_pair(old(self)@.keyword_subs, telegram_id as int, keyword@)),
            final(self)@ == (StoreView { keyword_subs: pairs_removed(old(self)@.keyword_subs, telegram_id as int, keyword@), ..old(self)@ }),
    {
        let b = remove_pair(&mut self.keyword_subs, telegram_id, keyword);
        Ok(b)
    }

    /// Subscribes user `telegram_id` to every notice of `source_key`;
    /// returns false, changing nothing, when already subscribed.
    pub fn add_source_sub(&mut self, telegram_id: i64, source_key: &str) -> (r: Result<bool, StoreError>)
        requires
            old(self).wf(),
        ensures
            final(self).wf(),
            final(self).path_spec() == old(self).path_spec(),
            r == Ok::<bool, StoreError>(!has_pair(old(self)@.source_subs, telegram_id as int, source_key@)),
            final(self)@ == (StoreView { source_subs: pairs_added(old(self)@.source_subs, telegram_id as int, source_key@), ..old(self)@ }),
    {
        let b = add_pair(&mut self.source_subs, telegram_id, source_key);
        Ok(b)
    }

    /// Removes a source subscription; returns whether there was one.
    pub fn remove_source_sub(&mut self, telegram_id: i64, source_key: &str) -> (r: Result<bool, StoreError>)
        requires
            old(self).wf(),
        ensures
            final(self).wf(),
            final(self).path_spec() == old(self).path_spec(),
            r == Ok::<bool, StoreError>(has_pair(old(self)@.source_subs, telegram_id as int, source_key@)),
            final(self)@ == (StoreView { source_subs: pairs_removed(old(self)@.source_subs, telegram_id as int, source_key@), ..old(self)@ }),
    {
        let b = remove_pair(&mut self.source_subs, telegram_id, source_key);
        Ok(b)
    }

    /// Whether notice `notice_db_id` was already sent to user `telegram_id`.
    pub fn is_dm_sent(&self, notice_db_id: i64, telegram_id: i64) -> (r: Result<bool, StoreError>)
        ensures
            r == Ok::<bool, StoreError>(delivered(self@, notice_db_id as int, telegram_id as int)),
    {
        let mut i: usize = 0;
        while i < self.deliveries.len()
            invariant
                i <= self.deliveries@.len(),
                self@.deliveries.len() == self.deliveries@.len(),
                forall|j: int| 0 <= j < i ==> !(self@.deliveries[j].notice_id == notice_db_id && self@.deliveries[j].telegram_id == telegram_id),
            decreases self.deliveries@.len() - i,
        {
            proof {
                assert(self@.deliveries[i as int] == self.deliveries@[i as int].row());
            }
            if self.deliveries[i].notice_id == notice_db_id && self.deliveries[i].telegram_id == telegram_id {
                return Ok(true);
            }
            i = i + 1;
        }
        Ok(false)
    }

    /// Records that notice `notice_db_id` was sent to user `telegram_id`,
    /// with the reason; a record already there is kept as it is.
    pub fn log_dm(&mut self, notice_db_id: i64, telegram_id: i64, match_type: &str, match_value: Option<&str>) -> (r: Result<(), StoreError>)
        requires
            old(self).wf(),
        ensures
            r is Ok,
            final(self).wf(),
            final(self).path_spec() == old(self).path_spec(),
            final(self)@ == after_log(old(self)@, notice_db_id as int, telegram_id as int, match_type@, opt_str_view(match_value)),
    {
        let ghost v = self@;
        let sent = self.is_dm_sent(notice_db_id, telegram_id);
        if let Ok(true) = sent {
            return Ok(());
        }
        self.deliveries.push(DeliveryRecord {
            notice_id: notice_db_id,
            telegram_id,
            match_type: String::from_str(match_type),
            match_value: owned_opt(match_value),
        });
        assert(self@.deliveries =~= v.deliveries.push(DeliveryRow {
            notice_id: notice_db_id as int,
            telegram_id: telegram_id as int,
            match_type: match_type@,
            match_value: opt_str_view(match_value),
        }));
        assert(self@ == after_log(v, notice_db_id as int, telegram_id as int, match_type@, opt_str_view(match_value)));
        Ok(())
    }
}

impl Database {
    fn user_active(&self, uid: i64) -> (r: bool)
        requires
            self.wf(),
        ensures
            r == is_active_user(self@, uid as int),
    {
        match self.find_user(uid) {
            Some(i) => {
                proof {
                    assert(self@.users[i as int] == self.users@[i as int].row());
                }
                self.users[i].is_active
            },
            None => false,
        }
    }

    /// The active users subscribed to `source_key`, in subscription order.
    pub fn get_source_subscribers(&self, source_key: &str) -> (r: Result<Vec<i64>, StoreError>)
        requires
            self.wf(),
        ensures
            r matches Ok(ids) && ids@.map_values(|x: i64| x as int) == source_subscribers(self@, source_key@),
    {
        let ghost v = self@;
        let ghost m = v.source_subs;
        let mut out: Vec<i64> = Vec::new();
        let mut i: usize = 0;
        while i < self.source_subs.len()
            invariant
                self.wf(),
                v == self@,
                m == v.source_subs,
                m.len() == self.source_subs@.len(),
                i <= m.len(),
                out@.map_values(|x: i64| x as int) == subscribers_in(v, m.subrange(0, i as int), source_key@),
            decreases m.len() - i,
        {
            assert(m.subrange(0, i + 1).drop_last() =~= m.subrange(0, i as int));
            assert(m[i as int] == pair_row(self.source_subs@[i as int]));
            let uid = self.source_subs[i].0;
            if same_text(self.source_subs[i].1.as_str(), source_key) && self.user_active(uid) {
                out.push(uid);
            }
            assert(out@.map_values(|x: i64| x as int) =~= subscribers_in(v, m.subrange(0, i + 1), source_key@));
            i = i + 1;
        }
        assert(m.subrange(0, m.len() as int) =~= m);
        Ok(out)
    }

    /// Every keyword subscription of an active user, in subscription order.
    pub fn get_all_keyword_subs(&self) -> (r: Result<Vec<(i64, String)>, StoreError>)
        requires
            self.wf(),
        ensures
            r matches Ok(subs) && subs@.map_values(|p: (i64, String)| (p.0 as int, p.1@)) == active_keyword_subs(self@),
    {
        let ghost v = self@;
        let ghost m = v.keyword_subs;
        let mut out: Vec<(i64, String)> = Vec::new();
        let mut i: usize = 0;
        while i < self.keyword_subs.len()
            invariant
                self.wf(),
                v == self@,
                m == v.keyword_subs,
                m.len() == self.keyword_subs@.len(),
                i <= m.len(),
                out@.map_values(|p: (i64, String)| (p.0 as int, p.1@)) == active_pairs_in(v, m.subrange(0, i as int)),
            decreases m.len() - i,
        {
            assert(m.subrange(0, i + 1).drop_last() =~= m.subrange(0, i as int));
            assert(m[i as int] == pair_row(self.keyword_subs@[i as int]));
            let uid = self.keyword_subs[i].0;
            if self.user_active(uid) {
                out.push((uid, self.keyword_subs[i].1.clone()));
            }
            assert(out@.map_values(|p: (i64, String)| (p.0 as int, p.1@)) =~= active_pairs_in(v, m.subrange(0, i + 1)));
            i = i + 1;
        }
        assert(m.subrange(0, m.len() as int) =~= m);
        Ok(out)
    }

    /// A user's keywords and sources, each sorted in code-point order.
    pub fn get_user_subs(&self, telegram_id: i64) -> (r: Result<UserSubs, StoreError>)
        ensures
            r matches Ok(subs)
                && subs.keywords@.map_values(|s: String| s@) == sorted_texts(texts_of(self@.keyword_subs, telegram_id as int))
                && subs.sources@.map_values(|s: String| s@) == sorted_texts(texts_of(self@.source_subs, telegram_id as int)),
    {
        let keywords = sort_texts(texts_for(&self.keyword_subs, telegram_id));
        let sources = sort_texts(texts_for(&self.source_subs, telegram_id));
        Ok(UserSubs { keywords, sources })
    }

    /// The crawl state of every source seen, ordered by source key.
    pub fn get_crawl_stats(&self) -> (r: Result<Vec<CrawlStat>, StoreError>)
        requires
            self.wf(),
        ensures
            r matches Ok(stats) && stats@.len() == self@.crawl.len()
                && forall|k: int| 0 <= k < stats@.len() ==> #[trigger] stats@[k].source_key@ == crawl_keys_sorted(self@)[k]
                    && has_crawl(self@, stats@[k].source_key@)
                    && stats@[k].error_count == self@.crawl[crawl_pos(self@, stats@[k].source_key@)].error_count
                    && stats@[k].last_crawled == (match self@.crawl[crawl_pos(self@, stats@[k].source_key@)].last_crawled {
                        Some(t) => Some(t as i64),
                        None => None,
                    }),
    {
        let mut keys: Vec<String> = Vec::new();
        let mut i: usize = 0;
        while i < self.crawl.len()
            invariant
                i <= self.crawl@.len(),
                self@.crawl.len() == self.crawl@.len(),
                keys@.len() == i,
                forall|k: int| 0 <= k < i ==> #[trigger] keys@[k]@ == self@.crawl[k].source_key,
            decreases self.crawl@.len() - i,
        {
            proof {
                assert(self@.crawl[i as int] == self.crawl@[i as int].row());
            }
            keys.push(self.crawl[i].source_key.clone());
            i = i + 1;
        }
        assert(keys@.map_values(|t: String| t@) =~= self@.crawl.map_values(|c: CrawlRow| c.source_key));
        let sorted = sort_texts(keys);
        proof {
            crate::text::lemma_sorted_texts_len(self@.crawl.map_values(|c: CrawlRow| c.source_key));
            crate::text::lemma_sorted_texts_keys(self@.crawl.map_values(|c: CrawlRow| c.source_key));
        }
        let mut out: Vec<CrawlStat> = Vec::new();
        let mut j: usize = 0;
        while j < sorted.len()
            invariant
                self.wf(),
                sorted@.map_values(|t: String| t@) == crawl_keys_sorted(self@),
                sorted@.len() == self@.crawl.len(),
                forall|k: int| 0 <= k < sorted@.len() ==> has_crawl(self@, #[trigger] crawl_keys_sorted(self@)[k]),
                j <= sorted@.len(),
                out@.len() == j,
                forall|k: int| 0 <= k < j ==> #[trigger] out@[k].source_key@ == crawl_keys_sorted(self@)[k]
                    && has_crawl(self@, out@[k].source_key@)
                    && out@[k].error_count == self@.crawl[crawl_pos(self@, out@[k].source_key@)].error_count
                    && out@[k].last_crawled == (match self@.crawl[crawl_pos(self@, out@[k].source_key@)].last_crawled {
                        Some(t) => Some(t as i64),
                        None => None,
                    }),
            decreases sorted@.len() - j,
        {
            assert(sorted@[j as int]@ == crawl_keys_sorted(self@)[j as int]);
            let p = match self.find_crawl(sorted[j].as_str()) {
                Some(p) => p,
                None => {
                    assert(false);
                    0
                },
            };
            proof {
                assert(self@.crawl[p as int] == self.crawl@[p as int].row());
            }
            let rec = &self.crawl[p];
            let stat = CrawlStat {
                source_key: sorted[j].clone(),
                last_crawled: rec.last_crawled,
                error_count: rec.error_count,
            };
            let ghost before = out@;
            out.push(stat);
            assert forall|k: int| 0 <= k < j + 1 implies #[trigger] out@[k].source_key@ == crawl_keys_sorted(self@)[k]
                && has_crawl(self@, out@[k].source_key@)
                && out@[k].error_count == self@.crawl[crawl_pos(self@, out@[k].source_key@)].error_count
                && out@[k].last_crawled == (match self@.crawl[crawl_pos(self@, out@[k].source_key@)].last_crawled {
                    Some(t) => Some(t as i64),
                    None => None,
                }) by {
                if k < j {
                    assert(out@[k] == before[k]);
                } else {
                    assert(out@[k] == stat);
                    assert(stat.source_key@ == sorted@[j as int]@);
                }
            }
            j = j + 1;
        }
        Ok(out)
    }
}

fn texts_for(s: &Vec<(i64, String)>, uid: i64) -> (r: Vec<String>)
    ensures
        r@.map_values(|t: String| t@) == texts_of(s@.map_values(|p: (i64, String)| pair_row(p)), uid as int),
{
    let ghost m = s@.map_values(|p: (i64, String)| pair_row(p));
    let mut out: Vec<String> = Vec::new();
    let mut i: usize = 0;
    while i < s.len()
        invariant
            m == s@.map_values(|p: (i64, String)| pair_row(p)),
            i <= s@.len(),
            out@.map_values(|t: String| t@) == texts_of(m.subrange(0, i as int), uid as int),
        decreases s@.len() - i,
    {
        assert(m.subrange(0, i + 1).drop_last() =~= m.subrange(0, i as int));
        if s[i].0 == uid {
            out.push(s[i].1.clone());
        }
        assert(out@.map_values(|t: String| t@) =~= texts_of(m.subrange(0, i + 1), uid as int));
        i = i + 1;
    }
    assert(m.subrange(0, m.len() as int) =~= m);
    out
}

impl NoticeRecord {
    pub fn copy(&self) -> (r: NoticeRecord)
        ensures
            r.row() == self.row(),
    {
        NoticeRecord {
            id: self.id,
            source_key: self.source_key.clone(),
            notice_id: self.notice_id.clone(),
            title: self.title.clone(),
            url: self.url.clone(),
            author: clone_opt(&self.author),
            category: self.category,
            published: clone_opt(&self.published),
            deadline: clone_opt(&self.deadline),
            crawled_at: self.crawled_at,
            notified: self.notified,
        }
    }
}

impl CrawlRecord {
    pub fn copy(&self) -> (r: CrawlRecord)
        ensures
            r.row() == self.row(),
    {
        CrawlRecord {
            source_key: self.source_key.clone(),
            last_crawled: self.last_crawled,
            last_notice_id: clone_opt(&self.last_notice_id),
            error_count: self.error_count,
        }
    }
}

impl UserRecord {
    pub fn copy(&self) -> (r: UserRecord)
        ensures
            r.row() == self.row(),
    {
        UserRecord {
            telegram_id: self.telegram_id,
            username: clone_opt(&self.username),
            first_name: clone_opt(&self.first_name),
            is_active: self.is_active,
        }
    }
}

impl DeliveryRecord {
    pub fn copy(&self) -> (r: DeliveryRecord)
        ensures
            r.row() == self.row(),
    {
        DeliveryRecord {
            notice_id: self.notice_id,
            telegram_id: self.telegram_id,
            match_type: self.match_type.clone(),
            match_value: clone_opt(&self.match_value),
        }
    }
}

/// The whole contents of a store, table by table, in order.
pub struct Snapshot {
    pub notices: Vec<NoticeRecord>,
    pub crawl: Vec<CrawlRecord>,
    pub users: Vec<UserRecord>,
    pub keyword_subs: Vec<(i64, String)>,
    pub source_subs: Vec<(i64, String)>,
    pub deliveries: Vec<DeliveryRecord>,
}

impl Snapshot {
    pub open spec fn view_of(&self) -> StoreView {
        StoreView {
            notices: self.notices@.map_values(|r: NoticeRecord| r.row()),
            crawl: self.crawl@.map_values(|r: CrawlRecord| r.row()),
            users: self.users@.map_values(|r: UserRecord| r.row()),
            keyword_subs: self.keyword_subs@.map_values(|p: (i64, String)| pair_row(p)),
            source_subs: self.source_subs@.map_values(|p: (i64, String)| pair_row(p)),
            deliveries: self.deliveries@.map_values(|r: DeliveryRecord| r.row()),
        }
    }
}

impl Database {
    /// A copy of every table.
    pub fn snapshot(&self) -> (r: Snapshot)
        ensures
            r.view_of() == self@,
    {
        let mut notices: Vec<NoticeRecord> = Vec::new();
        let mut i: usize = 0;
        while i < self.notices.len()
            invariant
                i <= self.notices@.len(),
                notices@.len() == i,
                forall|k: int| 0 <= k < i ==> #[trigger] notices@[k].row() == self.notices@[k].row(),
            decreases self.notices@.len() - i,
        {
            notices.push(self.notices[i].copy());
            i = i + 1;
        }
        assert(notices@.map_values(|r: NoticeRecord| r.row()) =~= self.notices@.map_values(|r: NoticeRecord| r.row()));
        let mut crawl: Vec<CrawlRecord> = Vec::new();
        let mut i: usize = 0;
        while i < self.crawl.len()
            invariant
                i <= self.crawl@.len(),
                crawl@.len() == i,
                forall|k: int| 0 <= k < i ==> #[trigger] crawl@[k].row() == self.crawl@[k].row(),
            decreases self.crawl@.len() - i,
        {
            crawl.push(self.crawl[i].copy());
            i = i + 1;
        }
        assert(crawl@.map_values(|r: CrawlRecord| r.row()) =~= self.crawl@.map_values(|r: CrawlRecord| r.row()));
        let mut users: Vec<UserRecord> = Vec::new();
        let mut i: usize = 0;
        while i < self.users.len()
            invariant
                i <= self.users@.len(),
                users@.len() == i,
                forall|k: int| 0 <= k < i ==> #[trigger] users@[k].row() == self.users@[k].row(),
            decreases self.users@.len() - i,
        {
            users.push(self.users[i].copy());
            i = i + 1;
        }
        assert(users@.map_values(|r: UserRecord| r.row()) =~= self.users@.map_values(|r: UserRecord| r.row()));
        let mut deliveries: Vec<DeliveryRecord> = Vec::new();
        let mut i: usize = 0;
        while i < self.deliveries.len()
            invariant
                i <= self.deliveries@.len(),
                deliveries@.len() == i,
                forall|k: int| 0 <= k < i ==> #[trigger] deliveries@[k].row() == self.deliveries@[k].row(),
            decreases self.deliveries@.len() - i,
        {
            deliveries.push(self.deliveries[i].copy());
            i = i + 1;
        }
        assert(deliveries@.map_values(|r: DeliveryRecord| r.row()) =~= self.deliveries@.map_values(|r: DeliveryRecord| r.row()));
        let keyword_subs = copy_pairs(&self.keyword_subs);
        let source_subs = copy_pairs(&self.source_subs);
        let snap = Snapshot { notices, crawl, users, keyword_subs, source_subs, deliveries };
        assert(snap.view_of().notices =~= self@.notices);
        assert(snap.view_of().crawl =~= self@.crawl);
        assert(snap.view_of().users =~= self@.users);
        assert(snap.view_of().deliveries =~= self@.deliveries);
        snap
    }

    /// Appends a persisted notice; refused (false, nothing changed) unless
    /// its id is the next one, its dedup key is new and it was not crawled
    /// before the latest stored notice.
    pub fn restore_notice(&mut self, rec: NoticeRecord) -> (r: bool)
        requires
            old(self).wf(),
        ensures
            final(self).wf(),
            final(self).path_spec() == old(self).path_spec(),
            r == (rec.id == old(self)@.notices.len() + 1 && old(self)@.notices.len() < MAX_NOTICES
                && !has_notice(old(self)@, rec.source_key@, rec.notice_id@)
                && (latest_crawl(old(self)@) matches Some(l) ==> l <= rec.crawled_at)),
            final(self)@ == if r { StoreView { notices: old(self)@.notices.push(rec.row()), ..old(self)@ } } else { old(self)@ },
    {
        let ghost v = self@;
        if self.notices.len() >= MAX_NOTICES || rec.id != (self.notices.len() + 1) as i64 {
            return false;
        }
        if self.find_notice(rec.source_key.as_str(), rec.notice_id.as_str()).is_some() {
            return false;
        }
        let n = self.notices.len();
        if n > 0 && self.notices[n - 1].crawled_at > rec.crawled_at {
            return false;
        }
        proof {
            if n > 0 {
                assert(v.notices[n - 1] == self.notices@[n - 1].row());
            }
        }
        let ghost row = rec.row();
        self.notices.push(rec);
        assert(self@.notices =~= v.notices.push(row));
        proof {
            let w = self@;
            assert forall|i: int, j: int| 0 <= i < w.notices.len() && 0 <= j < w.notices.len() && i != j
                implies !(w.notices[i].source_key == w.notices[j].source_key && w.notices[i].notice_id == w.notices[j].notice_id) by {
                if i == v.notices.len() {
                    assert(!(v.notices[j].source_key == row.source_key && v.notices[j].notice_id == row.notice_id));
                } else if j == v.notices.len() {
                    assert(!(v.notices[i].source_key == row.source_key && v.notices[i].notice_id == row.notice_id));
                }
            }
        }
        true
    }

    /// Appends a persisted crawl state; refused unless its source is new.
    pub fn restore_crawl(&mut self, rec: CrawlRecord) -> (r: bool)
        requires
            old(self).wf(),
        ensures
            final(self).wf(),
            final(self).path_spec() == old(self).path_spec(),
            r == !has_crawl(old(self)@, rec.source_key@),
            final(self)@ == if r { StoreView { crawl: old(self)@.crawl.push(rec.row()), ..old(self)@ } } else { old(self)@ },
    {
        let ghost v = self@;
        if self.find_crawl(rec.source_key.as_str()).is_some() {
            return false;
        }
        let ghost row = rec.row();
        self.crawl.push(rec);
        assert(self@.crawl =~= v.crawl.push(row));
        proof {
            let c = self@.crawl;
            assert forall|i: int, j: int| 0 <= i < c.len() && 0 <= j < c.len() && i != j
                implies c[i].source_key != c[j].source_key by {
                if i < v.crawl.len() && j < v.crawl.len() {
                    assert(c[i] == v.crawl[i] && c[j] == v.crawl[j]);
                } else if i < v.crawl.len() {
                    assert(c[i] == v.crawl[i]);
                } else {
                    assert(c[j] == v.crawl[j]);
                }
            }
        }
        true
    }

    /// Appends a persisted user; refused unless the user is new.
    pub fn restore_user(&mut self, rec: UserRecord) -> (r: bool)
        requires
            old(self).wf(),
        ensures
            final(self).wf(),
            final(self).path_spec() == old(self).path_spec(),
            r == !has_user(old(self)@, rec.telegram_id as int),
            final(self)@ == if r { StoreView { users: old(self)@.users.push(rec.row()), ..old(self)@ } } else { old(self)@ },
    {
        let ghost v = self@;
        if self.find_user(rec.telegram_id).is_some() {
            return false;
        }
        let ghost row = rec.row();
        self.users.push(rec);
        assert(self@.users =~= v.users.push(row));
        proof {
            let u = self@.users;
            assert forall|i: int, j: int| 0 <= i < u.len() && 0 <= j < u.len() && i != j
                implies u[i].telegram_id != u[j].telegram_id by {
                if i < v.users.len() && j < v.users.len() {
                    assert(u[i] == v.users[i] && u[j] == v.users[j]);
                } else if i < v.users.len() {
                    assert(u[i] == v.users[i]);
                } else {
                    assert(u[j] == v.users[j]);
                }
            }
        }
        true
    }

    /// Appends a persisted delivery; refused unless the pair is new.
    pub fn restore_delivery(&mut self, rec: DeliveryRecord) -> (r: bool)
        requires
            old(self).wf(),
        ensures
            final(self).wf(),
            final(self).path_spec() == old(self).path_spec(),
            r == !delivered(old(self)@, rec.notice_id as int, rec.telegram_id as int),
            final(self)@ == if r { StoreView { deliveries: old(self)@.deliveries.push(rec.row()), ..old(self)@ } } else { old(self)@ },
    {
        let ghost v = self@;
        if let Ok(true) = self.is_dm_sent(rec.notice_id, rec.telegram_id) {
            return false;
        }
        let ghost row = rec.row();
        self.deliveries.push(rec);
        assert(self@.deliveries =~= v.deliveries.push(row));
        true
    }
}

fn copy_pairs(s: &Vec<(i64, String)>) -> (r: Vec<(i64, String)>)
    ensures
        r@.map_values(|p: (i64, String)| pair_row(p)) == s@.map_values(|p: (i64, String)| pair_row(p)),
{
    let mut out: Vec<(i64, String)> = Vec::new();
    let mut i: usize = 0;
    while i < s.len()
        invariant
            i <= s@.len(),
            out@.len() == i,
            forall|k: int| 0 <= k < i ==> #[trigger] pair_row(out@[k]) == pair_row(s@[k]),
        decreases s@.len() - i,
    {
        out.push((s[i].0, s[i].1.clone()));
        i = i + 1;
    }
    assert(out@.map_values(|p: (i64, String)| pair_row(p)) =~= s@.map_values(|p: (i64, String)| pair_row(p)));
    out
}

proof fn lemma_insert_by_deadline_len(s: Seq<int>, x: int, rows: Seq<NoticeRow>)
    ensures
        insert_by_deadline(s, x, rows).len() == s.len() + 1,
        forall|k: int| 0 <= k < insert_by_deadline(s, x, rows).len() ==>
            #[trigger] insert_by_deadline(s, x, rows)[k] == x || s.contains(insert_by_deadline(s, x, rows)[k]),
    decreases s.len(),
{
    if s.len() > 0 {
        if text_le(rows[s.last()].deadline->Some_0, rows[x].deadline->Some_0) {
            assert forall|k: int| 0 <= k < insert_by_deadline(s, x, rows).len() implies
                #[trigger] insert_by_deadline(s, x, rows)[k] == x || s.contains(insert_by_deadline(s, x, rows)[k]) by {
                if k < s.len() {
                    assert(insert_by_deadline(s, x, rows)[k] == s[k]);
                }
            }
        } else {
            let p = s.drop_last();
            lemma_insert_by_deadline_len(p, x, rows);
            assert forall|k: int| 0 <= k < insert_by_deadline(s, x, rows).len() implies
                #[trigger] insert_by_deadline(s, x, rows)[k] == x || s.contains(insert_by_deadline(s, x, rows)[k]) by {
                let t = insert_by_deadline(s, x, rows)[k];
                if k < insert_by_deadline(p, x, rows).len() {
                    assert(t == insert_by_deadline(p, x, rows)[k]);
                    if t != x {
                        let i = choose|i: int| 0 <= i < p.len() && p[i] == t;
                        assert(s[i] == t);
                    }
                } else {
                    assert(t == s[s.len() - 1]);
                }
            }
        }
    }
}

proof fn lemma_by_deadline(s: Seq<int>, rows: Seq<NoticeRow>)
    ensures
        by_deadline(s, rows).len() == s.len(),
        forall|k: int| 0 <= k < by_deadline(s, rows).len() ==> s.contains(#[trigger] by_deadline(s, rows)[k]),
    decreases s.len(),
{
    if s.len() > 0 {
        let p = s.drop_last();
        lemma_by_deadline(p, rows);
        lemma_insert_by_deadline_len(by_deadline(p, rows), s.last(), rows);
        assert forall|k: int| 0 <= k < by_deadline(s, rows).len() implies s.contains(#[trigger] by_deadline(s, rows)[k]) by {
            let t = by_deadline(s, rows)[k];
            if t == s.last() {
                assert(s[s.len() - 1] == t);
            } else {
                assert(by_deadline(p, rows).contains(t));
                let j = choose|j: int| 0 <= j < by_deadline(p, rows).len() && by_deadline(p, rows)[j] == t;
                assert(p.contains(by_deadline(p, rows)[j]));
                let i = choose|i: int| 0 <= i < p.len() && p[i] == t;
                assert(s[i] == t);
            }
        }
    }
}

proof fn lemma_due_positions(s: Seq<NoticeRow>, today: Seq<char>)
    ensures
        forall|k: int| 0 <= k < due_positions(s, today).len() ==>
            0 <= #[trigger] due_positions(s, today)[k] < s.len() && due_from(s[due_positions(s, today)[k]], today),
    decreases s.len(),
{
    if s.len() > 0 {
        let p = s.drop_last();
        lemma_due_positions(p, today);
        assert forall|k: int| 0 <= k < due_positions(s, today).len() implies
            0 <= #[trigger] due_positions(s, today)[k] < s.len() && due_from(s[due_positions(s, today)[k]], today) by {
            if k < due_positions(p, today).len() {
                assert(due_positions(s, today)[k] == due_positions(p, today)[k]);
                assert(p[due_positions(p, today)[k]] == s[due_positions(p, today)[k]]);
            }
        }
    }
}

impl Database {
    /// Up to `limit` notices with a deadline on or after `today`, earliest
    /// deadline first (equal deadlines in id order), shown under their
    /// source key.
    pub fn get_deadline_notices_from(&self, limit: usize, today: &str) -> (r: Vec<Notice>)
        requires
            self.wf(),
        ensures
            deadline_listing(self@, limit as int, today@, r@),
    {
        proof { self.lemma_notice_rows(); }
        let ghost v = self@;
        let ghost rows = v.notices;
        // The due positions, in id order.
        let mut due: Vec<usize> = Vec::new();
        let mut i: usize = 0;
        while i < self.notices.len()
            invariant
                v == self@,
                rows == v.notices,
                rows.len() == self.notices@.len(),
                i <= rows.len(),
                due@.map_values(|x: usize| x as int) == due_positions(rows.subrange(0, i as int), today@),
            decreases rows.len() - i,
        {
            assert(rows.subrange(0, i + 1).drop_last() =~= rows.subrange(0, i as int));
            let is_due = match &self.notices[i].deadline {
                Some(d) => text_le_exec(today, d.as_str()),
                None => false,
            };
            if is_due {
                due.push(i);
            }
            assert(due@.map_values(|x: usize| x as int) =~= due_positions(rows.subrange(0, i + 1), today@));
            i = i + 1;
        }
        assert(rows.subrange(0, rows.len() as int) =~= rows);
        proof { lemma_due_positions(rows, today@); }
        let ghost src = due@.map_values(|x: usize| x as int);
        // Insertion by deadline, stable.
        let mut order: Vec<usize> = Vec::new();
        let mut t: usize = 0;
        while t < due.len()
            invariant
                v == self@,
                rows == v.notices,
                rows.len() == self.notices@.len(),
                src == due@.map_values(|x: usize| x as int),
                src == due_positions(rows, today@),
                forall|k: int| 0 <= k < src.len() ==> 0 <= #[trigger] src[k] < rows.len() && due_from(rows[src[k]], today@),
                t <= due@.len(),
                order@.map_values(|x: usize| x as int) == by_deadline(src.subrange(0, t as int), rows),
                forall|k: int| 0 <= k < order@.len() ==> src.subrange(0, t as int).contains(#[trigger] (order@[k] as int)),
            decreases due@.len() - t,
        {
            let x = due[t];
            assert(src[t as int] == x as int);
            assert(src.subrange(0, t + 1).drop_last() =~= src.subrange(0, t as int));
            let ghost o = order@.map_values(|y: usize| y as int);
            proof {
                assert forall|k: int| 0 <= k < o.len() implies 0 <= #[trigger] o[k] < rows.len() && rows[o[k]].deadline is Some by {
                    assert(src.subrange(0, t as int).contains(order@[k] as int));
                    let i = choose|i: int| 0 <= i < t && src.subrange(0, t as int)[i] == order@[k] as int;
                    assert(src[i] == o[k]);
                }
            }
            let mut j = order.len();
            assert(o.subrange(0, j as int) =~= o);
            assert(o.subrange(j as int, o.len() as int) =~= Seq::<int>::empty());
            let xd = match &self.notices[x].deadline {
                Some(d) => d,
                None => {
                    assert(false);
                    return Vec::new();
                },
            };
            loop
                invariant
                    o == order@.map_values(|y: usize| y as int),
                    forall|k: int| 0 <= k < o.len() ==> 0 <= #[trigger] o[k] < rows.len() && rows[o[k]].deadline is Some,
                    rows.len() == self.notices@.len(),
                    rows == self@.notices,
                    0 <= x < rows.len(),
                    rows[x as int].deadline == Some(xd@),
                    j <= o.len(),
                    insert_by_deadline(o, x as int, rows)
                        == insert_by_deadline(o.subrange(0, j as int), x as int, rows) + o.subrange(j as int, o.len() as int),
                ensures
                    j == 0 || text_le(rows[o[j - 1]].deadline->Some_0, rows[x as int].deadline->Some_0),
                decreases j,
            {
                proof { self.lemma_notice_rows(); }
                if j == 0 {
                    break;
                }
                let y = order[j - 1];
                assert(o[j - 1] == y as int);
                let yd = match &self.notices[y].deadline {
                    Some(d) => d,
                    None => {
                        assert(false);
                        break;
                    },
                };
                let ghost p = o.subrange(0, j as int);
                assert(p.last() == y as int);
                if text_le_exec(yd.as_str(), xd.as_str()) {
                    break;
                }
                assert(p.drop_last() =~= o.subrange(0, j - 1));
                assert(insert_by_deadline(o.subrange(0, j - 1), x as int, rows).push(o[j - 1]) + o.subrange(j as int, o.len() as int)
                    =~= insert_by_deadline(o.subrange(0, j - 1), x as int, rows) + o.subrange(j - 1, o.len() as int));
                j = j - 1;
            }
            proof {
                if j > 0 {
                    assert(o.subrange(0, j as int).last() == o[j - 1]);
                }
            }
            order.insert(j, x);
            assert(order@.map_values(|y: usize| y as int) =~= insert_by_deadline(o.subrange(0, j as int), x as int, rows)
                + o.subrange(j as int, o.len() as int));
            proof {
                assert forall|k: int| 0 <= k < order@.len() implies src.subrange(0, t + 1).contains(#[trigger] (order@[k] as int)) by {
                    if order@[k] as int == x as int {
                        assert(src.subrange(0, t + 1)[t as int] == x as int);
                    } else {
                        let kk = if k < j { k } else { k - 1 };
                        assert(o[kk] == order@[k] as int);
                        assert(src.subrange(0, t as int).contains(o[kk]));
                        let i = choose|i: int| 0 <= i < t && src.subrange(0, t as int)[i] == o[kk];
                        assert(src.subrange(0, t + 1)[i] == o[kk]);
                    }
                }
            }
            t = t + 1;
        }
        assert(src.subrange(0, src.len() as int) =~= src);
        proof { lemma_by_deadline(src, rows); }
        let empty: Vec<(String, String)> = Vec::new();
        let mut out: Vec<Notice> = Vec::new();
        let mut k: usize = 0;
        while k < order.len() && k < limit
            invariant
                v == self@,
                rows == v.notices,
                rows.len() == self.notices@.len(),
                order@.map_values(|y: usize| y as int) == upcoming(v, today@),
                forall|q: int| 0 <= q < order@.len() ==> (order@[q] as int) < rows.len(),
                empty@.len() == 0,
                k <= order@.len(),
                k <= limit,
                out@.len() == k,
                forall|q: int| 0 <= q < k ==> shows(#[trigger] out@[q], rows[upcoming(v, today@)[q]], rows[upcoming(v, today@)[q]].source_key),
            decreases order@.len() - k,
        {
            let idx = order[k];
            let n = self.notice_out(idx, &empty);
            assert(display_for(empty@, rows[idx as int].source_key) == rows[idx as int].source_key);
            out.push(n);
            k = k + 1;
        }
        assert(order@.map_values(|y: usize| y as int).len() == order@.len());
        out
    }

    /// Up to `limit` notices whose deadline is today (UTC) or later,
    /// earliest first.
    pub fn get_deadline_notices(&self, limit: usize) -> (r: Result<Vec<Notice>, StoreError>)
        requires
            self.wf(),
        ensures
            r is Ok,
            r matches Ok(ns) ==> exists|today: Seq<char>| #[trigger] deadline_listing(self@, limit as int, today, ns@),
    {
        let today = utc_now().1;
        let ns = self.get_deadline_notices_from(limit, today.as_str());
        let r: Result<Vec<Notice>, StoreError> = Ok(ns);
        assert(deadline_listing(self@, limit as int, today@, r->Ok_0@));
        r
    }
}

proof fn lemma_newest_first_bounded(s: Seq<NoticeRow>, sel: Selection, b: int)
    requires
        forall|i: int| 0 <= i < s.len() ==> #[trigger] s[i].crawled_at <= b,
    ensures
        forall|k: int| 0 <= k < newest_first(s, sel).len() ==> #[trigger] newest_first(s, sel)[k].crawled_at <= b,
    decreases s.len(),
{
    if s.len() > 0 {
        let p = s.drop_last();
        assert forall|i: int| 0 <= i < p.len() implies #[trigger] p[i].crawled_at <= b by {
            assert(p[i] == s[i]);
        }
        lemma_newest_first_bounded(p, sel, b);
        if selects(sel, s.last()) {
            let nf = newest_first(s, sel);
            assert forall|k: int| 0 <= k < nf.len() implies #[trigger] nf[k].crawled_at <= b by {
                if k > 0 {
                    assert(nf[k] == newest_first(p, sel)[k - 1]);
                }
            }
        }
    }
}

/// Listings come newest-crawled first: along `newest_first`, crawl times
/// never increase.
pub proof fn lemma_newest_first_ordered(s: Seq<NoticeRow>, sel: Selection)
    requires
        crawl_times_ordered(s),
    ensures
        forall|i: int, j: int| 0 <= i <= j < newest_first(s, sel).len() ==>
            #[trigger] newest_first(s, sel)[i].crawled_at >= #[trigger] newest_first(s, sel)[j].crawled_at,
    decreases s.len(),
{
    if s.len() > 0 {
        let p = s.drop_last();
        assert(crawl_times_ordered(p)) by {
            assert forall|i: int, j: int| 0 <= i <= j < p.len() implies #[trigger] p[i].crawled_at <= #[trigger] p[j].crawled_at by {
                assert(p[i] == s[i] && p[j] == s[j]);
            }
        }
        lemma_newest_first_ordered(p, sel);
        if selects(sel, s.last()) {
            let last = s.last();
            assert forall|i: int| 0 <= i < p.len() implies #[trigger] p[i].crawled_at <= last.crawled_at by {
                assert(p[i] == s[i]);
                assert(s[i].crawled_at <= s[s.len() - 1].crawled_at);
            }
            lemma_newest_first_bounded(p, sel, last.crawled_at);
            let nf = newest_first(s, sel);
            let q = newest_first(p, sel);
            assert forall|i: int, j: int| 0 <= i <= j < nf.len() implies #[trigger] nf[i].crawled_at >= #[trigger] nf[j].crawled_at by {
                if i == 0 {
                    if j > 0 {
                        assert(nf[j] == q[j - 1]);
                    }
                } else {
                    assert(nf[i] == q[i - 1] && nf[j] == q[j - 1]);
                }
            }
        }
    }
}

/// One change to the store, as an operation makes it.
pub ghost enum StoreStep {
    Insert { sk: Seq<char>, notice: RawNotice, t: int },
    Mark { id: int },
    MarkSource { sk: Seq<char> },
    Deadline { id: int, date: Seq<char> },
    Success { sk: Seq<char>, last: Option<Seq<char>>, t: int },
    Failure { sk: Seq<char> },
    Reset { sk: Seq<char> },
    Register { uid: int, username: Option<Seq<char>>, first_name: Option<Seq<char>> },
    Deactivate { uid: int },
    AddKeyword { uid: int, text: Seq<char> },
    RemoveKeyword { uid: int, text: Seq<char> },
    AddSource { uid: int, text: Seq<char> },
    RemoveSource { uid: int, text: Seq<char> },
    Log { nid: int, uid: int, match_type: Seq<char>, match_value: Option<Seq<char>> },
}

/// The store after one step.
pub open spec fn apply_step(v: StoreView, step: StoreStep) -> StoreView {
    match step {
        StoreStep::Insert { sk, notice, t } => after_insert(v, sk, notice, t),
        StoreStep::Mark { id } => after_mark(v, id),
        StoreStep::MarkSource { sk } => after_mark_source(v, sk),
        StoreStep::Deadline { id, date } => after_deadline(v, id, date),
        StoreStep::Success { sk, last, t } => after_success(v, sk, last, t),
        StoreStep::Failure { sk } => after_failure(v, sk),
        StoreStep::Reset { sk } => after_reset(v, sk),
        StoreStep::Register { uid, username, first_name } => after_register(v, uid, username, first_name),
        StoreStep::Deactivate { uid } => after_deactivate(v, uid),
        StoreStep::AddKeyword { uid, text } => StoreView { keyword_subs: pairs_added(v.keyword_subs, uid, text), ..v },
        StoreStep::RemoveKeyword { uid, text } => StoreView { keyword_subs: pairs_removed(v.keyword_subs, uid, text), ..v },
        StoreStep::AddSource { uid, text } => StoreView { source_subs: pairs_added(v.source_subs, uid, text), ..v },
        StoreStep::RemoveSource { uid, text } => StoreView { source_subs: pairs_removed(v.source_subs, uid, text), ..v },
        StoreStep::Log { nid, uid, match_type, match_value } => after_log(v, nid, uid, match_type, match_value),
    }
}

/// The store after the steps, in order.
pub open spec fn apply_steps(v: StoreView, steps: Seq<StoreStep>) -> StoreView
    decreases steps.len(),
{
    if steps.len() == 0 {
        v
    } else {
        apply_step(apply_steps(v, steps.drop_last()), steps.last())
    }
}

proof fn lemma_step_keeps_delivery(v: StoreView, step: StoreStep, nid: int, uid: int)
    requires
        delivered(v, nid, uid),
    ensures
        delivered(apply_step(v, step), nid, uid),
{
    let i = choose|i: int| 0 <= i < v.deliveries.len() && v.deliveries[i].notice_id == nid && v.deliveries[i].telegram_id == uid;
    let w = apply_step(v, step);
    assert(w.deliveries[i] == v.deliveries[i]);
}

/// Once a delivery is logged, whatever the store operations that follow,
/// the pair still reads as delivered.
pub proof fn lemma_delivery_persists(
    v: StoreView,
    nid: int,
    uid: int,
    match_type: Seq<char>,
    match_value: Option<Seq<char>>,
    later: Seq<StoreStep>,
)
    ensures
        delivered(apply_steps(after_log(v, nid, uid, match_type, match_value), later), nid, uid),
    decreases later.len(),
{
    if later.len() == 0 {
        lemma_delivery_idempotent(v, nid, uid, match_type, match_value);
    } else {
        lemma_delivery_persists(v, nid, uid, match_type, match_value, later.drop_last());
        lemma_step_keeps_delivery(
            apply_steps(after_log(v, nid, uid, match_type, match_value), later.drop_last()),
            later.last(),
            nid,
            uid,
        );
    }
}

/// Inserting the same notice twice: the first insert creates the row, and
/// the second changes nothing at all, whatever the times of the two calls.
pub proof fn lemma_insert_idempotent(v: StoreView, sk: Seq<char>, n: RawNotice, t1: int, t2: int)
    requires
        store_inv(v),
        !has_notice(v, sk, n.notice_id@),
    ensures
        has_notice(after_insert(v, sk, n, t1), sk, n.notice_id@),
        after_insert(after_insert(v, sk, n, t1), sk, n, t2) == after_insert(v, sk, n, t1),
{
    let v1 = after_insert(v, sk, n, t1);
    let k = v.notices.len() as int;
    assert(v1.notices[k].source_key == sk && v1.notices[k].notice_id == n.notice_id@);
    if !has_crawl(v, sk) {
        let c = v.crawl.len() as int;
        assert(v1.crawl[c].source_key == sk);
    }
    assert(has_crawl(v1, sk));
}

/// Logging a delivery makes it delivered, and logging it again changes
/// nothing: no duplicate record.
pub proof fn lemma_delivery_idempotent(v: StoreView, nid: int, uid: int, match_type: Seq<char>, match_value: Option<Seq<char>>)
    ensures
        delivered(after_log(v, nid, uid, match_type, match_value), nid, uid),
        after_log(after_log(v, nid, uid, match_type, match_value), nid, uid, match_type, match_value)
            == after_log(v, nid, uid, match_type, match_value),
{
    let v1 = after_log(v, nid, uid, match_type, match_value);
    if !delivered(v, nid, uid) {
        let k = v.deliveries.len() as int;
        assert(v1.deliveries[k].notice_id == nid && v1.deliveries[k].telegram_id == uid);
    }
}

/// No two crawl rows share a source key.
pub open spec fn crawl_keys_unique(v: StoreView) -> bool {
    forall|i: int, j: int| #![trigger v.crawl[i], v.crawl[j]] 0 <= i < v.crawl.len() && 0 <= j < v.crawl.len() && i != j
        ==> v.crawl[i].source_key != v.crawl[j].source_key
}

/// A failure adds one to the source's counter.
pub proof fn lemma_failure_counts(v: StoreView, sk: Seq<char>)
    requires
        crawl_keys_unique(v),
    ensures
        error_count_of(after_failure(v, sk), sk) == error_count_of(v, sk) + 1,
        crawl_keys_unique(after_failure(v, sk)),
{
    let v1 = after_failure(v, sk);
    let c = v1.crawl;
    assert forall|i: int, j: int| 0 <= i < c.len() && 0 <= j < c.len() && i != j
        implies c[i].source_key != c[j].source_key by {
        if i < v.crawl.len() && j < v.crawl.len() {
            assert(c[i].source_key == v.crawl[i].source_key);
            assert(c[j].source_key == v.crawl[j].source_key);
        }
    }
    let v1 = after_failure(v, sk);
    if has_crawl(v, sk) {
        let p = crawl_pos(v, sk);
        assert(v1.crawl[p].source_key == sk);
        let q = crawl_pos(v1, sk);
        if q != p {
            assert(v1.crawl[q] == v.crawl[q]);
        }
    } else {
        let p = v.crawl.len() as int;
        assert(v1.crawl[p].source_key == sk);
        let q = crawl_pos(v1, sk);
        if q != p {
            assert(v1.crawl[q] == v.crawl[q]);
        }
    }
}

/// A success sets the source's counter to zero, whatever the time.
pub proof fn lemma_success_resets(v: StoreView, sk: Seq<char>, last: Option<Seq<char>>, t: int)
    requires
        crawl_keys_unique(v),
    ensures
        error_count_of(after_success(v, sk, last, t), sk) == 0,
        crawl_keys_unique(after_success(v, sk, last, t)),
        has_crawl(after_success(v, sk, last, t), sk),
        last is Some ==> watermark_of(after_success(v, sk, last, t), sk) == last,
{
    let v0 = after_success(v, sk, last, t);
    let c = v0.crawl;
    assert forall|i: int, j: int| 0 <= i < c.len() && 0 <= j < c.len() && i != j
        implies c[i].source_key != c[j].source_key by {
        if i < v.crawl.len() && j < v.crawl.len() {
            assert(c[i].source_key == v.crawl[i].source_key);
            assert(c[j].source_key == v.crawl[j].source_key);
        }
    }
    let v1 = after_success(v, sk, last, t);
    if has_crawl(v, sk) {
        let p = crawl_pos(v, sk);
        assert(v1.crawl[p].source_key == sk);
        let q = crawl_pos(v1, sk);
        if q != p {
            assert(v1.crawl[q] == v.crawl[q]);
        }
    } else {
        let p = v.crawl.len() as int;
        assert(v1.crawl[p].source_key == sk);
        let q = crawl_pos(v1, sk);
        if q != p {
            assert(v1.crawl[q] == v.crawl[q]);
        }
    }
}

/// Three failures in a row from a clean counter read 1, 2 and 3; after a
/// success (at any time `t`), the next failure reads 1 again.
pub proof fn lemma_error_counter_sequence(
    v: StoreView,
    sk: Seq<char>,
    last: Option<Seq<char>>,
    t: int,
)
    requires
        crawl_keys_unique(v),
        error_count_of(v, sk) == 0,
    ensures
        error_count_of(after_failure(v, sk), sk) == 1,
        error_count_of(after_failure(after_failure(v, sk), sk), sk) == 2,
        error_count_of(after_failure(after_failure(after_failure(v, sk), sk), sk), sk) == 3,
        error_count_of(after_failure(after_success(after_failure(after_failure(after_failure(v, sk), sk), sk), sk, last, t), sk), sk) == 1,
{
    let v1 = after_failure(v, sk);
    lemma_failure_counts(v, sk);
    let v2 = after_failure(v1, sk);
    lemma_failure_counts(v1, sk);
    let v3 = after_failure(v2, sk);
    lemma_failure_counts(v2, sk);
    let v4 = after_success(v3, sk, last, t);
    lemma_success_resets(v3, sk, last, t);
    lemma_failure_counts(v4, sk);
}

} // verus!
