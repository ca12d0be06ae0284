//! The decisions of a crawl cycle: retry and backoff, recording a fetched
//! listing or a failure, escalation, and deadline enrichment. The caller
//! performs the requests, the sends and the pauses.

use vstd::prelude::*;
use vstd::string::{StrSliceExecFns, StringExecFns};
use crate::deadline::{deadline_of, extract_deadline_for_year, local_year, Date};
use crate::notifier::{decimal, decimal_text};
use crate::parser::RawNotice;
use crate::store::{
    after_deadline, after_insert, after_success, error_count_of, has_notice, watermark_of, Database, Notice, StoreView,
    MAX_NOTICES,
};

verus! {

/// Retries after the first failed fetch of a source in one cycle.
pub const MAX_RETRIES: u32 = 3;

/// Consecutive failures from which each failure raises an operator alert.
pub const ALERT_THRESHOLD: u32 = 5;

pub open spec fn pow2(n: nat) -> nat
    decreases n,
{
    if n == 0 { 1 } else { 2 * pow2((n - 1) as nat) }
}

/// What to do after fetch attempt `attempt` (counted from 0) failed: wait
/// the returned number of seconds and try again, or give up. The waits
/// double from 2 seconds: 2, 4, 8.
pub fn retry_delay_secs(attempt: u32) -> (r: Option<u64>)
    ensures
        attempt < MAX_RETRIES ==> r == Some(pow2((attempt + 1) as nat) as u64),
        attempt >= MAX_RETRIES ==> r is None,
{
    if attempt >= MAX_RETRIES {
        return None;
    }
    let mut d: u64 = 1;
    let mut k: u32 = 0;
    proof {
        reveal_with_fuel(pow2, 4);
    }
    while k <= attempt
        invariant
            attempt < MAX_RETRIES,
            k <= attempt + 1,
            d == pow2(k as nat),
            d <= 8,
        decreases attempt + 1 - k,
    {
        proof {
            reveal_with_fuel(pow2, 4);
        }
        d = d * 2;
        k = k + 1;
    }
    Some(d)
}

/// Whether a source that has failed `count` times in a row is escalated.
pub fn should_alert(count: u32) -> (r: bool)
    ensures
        r == (count >= ALERT_THRESHOLD),
{
    count >= ALERT_THRESHOLD
}

/// Every row of `old` is still there, unchanged, at the same place.
pub open spec fn keeps_rows(old: StoreView, new: StoreView) -> bool {
    old.notices.len() <= new.notices.len() && new.notices.subrange(0, old.notices.len() as int) == old.notices
}

/// One insert-or-ignore at time `t`; a new notice that no longer fits
/// changes nothing.
pub open spec fn insert_step(v: StoreView, sk: Seq<char>, n: RawNotice, t: int) -> StoreView {
    if !has_notice(v, sk, n.notice_id@) && v.notices.len() >= MAX_NOTICES {
        v
    } else {
        after_insert(v, sk, n, t)
    }
}

/// The store after inserting `ns` in order, the `i`-th at time `ts[i]`.
pub open spec fn inserted_all(v: StoreView, sk: Seq<char>, ns: Seq<RawNotice>, ts: Seq<int>) -> StoreView
    decreases ns.len(),
{
    if ns.len() == 0 || ts.len() != ns.len() {
        v
    } else {
        insert_step(inserted_all(v, sk, ns.drop_last(), ts.drop_last()), sk, ns.last(), ts.last())
    }
}

/// The watermark of a listing: the id of its first (most recent) notice.
pub open spec fn listing_watermark(ns: Seq<RawNotice>) -> Option<Seq<char>> {
    if ns.len() > 0 { Some(ns[0].notice_id@) } else { None }
}

/// Records a fetched listing of `source_key`: each notice is inserted
/// unless known (a notice that no longer fits is skipped), the newest
/// notice's id becomes the watermark, and the error counter is reset.
/// Returns how many notices were new.
pub fn ingest(db: &mut Database, source_key: &str, display_name: &str, notices: &Vec<RawNotice>) -> (r: usize)
    requires
        old(db).wf(),
    ensures
        final(db).wf(),
        final(db).path_spec() == old(db).path_spec(),
        r == final(db)@.notices.len() - old(db)@.notices.len(),
        keeps_rows(old(db)@, final(db)@),
        forall|i: int| 0 <= i < notices@.len() ==> has_notice(final(db)@, source_key@, #[trigger] notices@[i].notice_id@)
            || final(db)@.notices.len() >= MAX_NOTICES,
        error_count_of(final(db)@, source_key@) == 0,
        notices@.len() > 0 ==> watermark_of(final(db)@, source_key@) == listing_watermark(notices@),
        exists|ts: Seq<int>, t: int| final(db)@ == after_success(
            inserted_all(old(db)@, source_key@, notices@, ts), source_key@, listing_watermark(notices@), t),
        final(db)@.users == old(db)@.users,
        final(db)@.keyword_subs == old(db)@.keyword_subs,
        final(db)@.source_subs == old(db)@.source_subs,
        final(db)@.deliveries == old(db)@.deliveries,
{
    let ghost v0 = db@;
    assert(v0.notices.subrange(0, v0.notices.len() as int) =~= v0.notices);
    let mut new_count: usize = 0;
    let mut i: usize = 0;
    let ghost mut ts: Seq<int> = Seq::empty();
    assert(notices@.subrange(0, 0) =~= Seq::<RawNotice>::empty());
    while i < notices.len()
        invariant
            db.wf(),
            db.path_spec() == old(db).path_spec(),
            i <= notices@.len(),
            v0 == old(db)@,
            new_count == db@.notices.len() - v0.notices.len(),
            ts.len() == i,
            db@ == inserted_all(v0, source_key@, notices@.subrange(0, i as int), ts),
            keeps_rows(v0, db@),
            forall|j: int| 0 <= j < i ==> has_notice(db@, source_key@, #[trigger] notices@[j].notice_id@)
                || db@.notices.len() >= MAX_NOTICES,
            db@.users == v0.users && db@.keyword_subs == v0.keyword_subs && db@.source_subs == v0.source_subs
                && db@.deliveries == v0.deliveries,
        decreases notices@.len() - i,
    {
        let ghost before = db@;
        let r = db.insert_if_new(source_key, &notices[i], display_name);
        proof {
            let after = db@;
            if r is Ok {
                assert(after.notices.len() >= before.notices.len());
                assert(after.notices.subrange(0, before.notices.len() as int) =~= before.notices);
                assert(after.notices.subrange(0, v0.notices.len() as int) =~= before.notices.subrange(0, v0.notices.len() as int));
                assert forall|j: int| 0 <= j < i implies has_notice(after, source_key@, #[trigger] notices@[j].notice_id@)
                    || after.notices.len() >= MAX_NOTICES by {
                    if has_notice(before, source_key@, notices@[j].notice_id@) {
                        let k = choose|k: int| 0 <= k < before.notices.len() && before.notices[k].source_key == source_key@
                            && before.notices[k].notice_id == notices@[j].notice_id@;
                        assert(after.notices[k] == before.notices[k]);
                    }
                }
                if !has_notice(before, source_key@, notices@[i as int].notice_id@) {
                    let k = before.notices.len() as int;
                    assert(after.notices[k].source_key == source_key@ && after.notices[k].notice_id == notices@[i as int].notice_id@);
                }
            }
        }
        proof {
            let t = if r is Ok {
                choose|t: int| db@ == after_insert(before, source_key@, notices@[i as int], t)
            } else {
                0
            };
            let sub = notices@.subrange(0, i + 1);
            assert(sub.drop_last() =~= notices@.subrange(0, i as int));
            assert(ts.push(t).drop_last() =~= ts);
            assert(db@ == insert_step(before, source_key@, notices@[i as int], t));
            ts = ts.push(t);
        }
        if let Ok(true) = r {
            new_count = new_count + 1;
        }
        i = i + 1;
    }
    let last_id: Option<&str> = if notices.len() > 0 { Some(notices[0].notice_id.as_str()) } else { None };
    let ghost before = db@;
    let _ = db.update_crawl_state(source_key, last_id);
    proof {
        assert(notices@.subrange(0, notices@.len() as int) =~= notices@);
        assert(crate::text::opt_str_view(last_id) == listing_watermark(notices@));
        let t = choose|t: int| db@ == crate::store::after_success(before, source_key@, crate::text::opt_str_view(last_id), t);
        crate::store::lemma_success_resets(before, source_key@, crate::text::opt_str_view(last_id), t);
    }
    new_count
}

/// What a terminal fetch failure of a source led to.
#[derive(Debug, Clone, Copy, PartialEq, Eq, Structural)]
pub struct FailureReport {
    /// Consecutive failures, this one included.
    pub count: u32,
    /// Whether the operator is alerted.
    pub alert: bool,
}

/// Records a terminal fetch failure of `source_key`: its error counter
/// grows by one (it stays at its largest value), and from the threshold on
/// the failure is escalated.
pub fn record_failure(db: &mut Database, source_key: &str) -> (r: FailureReport)
    requires
        old(db).wf(),
    ensures
        final(db).wf(),
        final(db).path_spec() == old(db).path_spec(),
        error_count_of(old(db)@, source_key@) < u32::MAX ==> r.count == error_count_of(old(db)@, source_key@) + 1,
        error_count_of(old(db)@, source_key@) == u32::MAX ==> r.count == u32::MAX,
        r.alert == (r.count >= ALERT_THRESHOLD),
{
    let count = match db.increment_error(source_key) {
        Ok(c) => c,
        Err(_) => u32::MAX,
    };
    FailureReport { count, alert: should_alert(count) }
}

/// `n` in exactly `width` digits, zero-padded, when it has at most that many.
pub open spec fn padded(n: nat, width: nat) -> Seq<char>
    decreases width,
{
    if decimal(n).len() >= width || width == 0 {
        decimal(n)
    } else {
        seq!['0'] + padded(n, (width - 1) as nat)
    }
}

fn padded_text(n: u64, width: usize) -> (r: String)
    ensures
        r@ == padded(n as nat, width as nat),
    decreases width,
{
    let d = decimal_text(n);
    if d.as_str().unicode_len() >= width || width == 0 {
        d
    } else {
        let rest = padded_text(n, width - 1);
        let mut s = String::from_str("0");
        proof {
            reveal_strlit("0");
        }
        s.append(rest.as_str());
        s
    }
}

/// A date as `YYYY-MM-DD`.
pub open spec fn date_text_of(d: Date) -> Seq<char> {
    padded(d.year as nat, 4) + "-"@ + padded(d.month as nat, 2) + "-"@ + padded(d.day as nat, 2)
}

/// Writes a date as `YYYY-MM-DD`, for years 0 to 9999.
pub fn date_text(d: Date) -> (r: String)
    requires
        0 <= d.year <= 9999,
    ensures
        r@ == date_text_of(d),
{
    let mut s = padded_text(d.year as u64, 4);
    s.append("-");
    let m = padded_text(d.month as u64, 2);
    s.append(m.as_str());
    s.append("-");
    let dd = padded_text(d.day as u64, 2);
    s.append(dd.as_str());
    s
}

/// The store after the deadlines of `ns` found in reference year `y` are
/// recorded, in order; titles without one, or whose year does not take four
/// digits, or that are too long to scan, change nothing.
pub open spec fn enriched(v: StoreView, ns: Seq<Notice>, y: int) -> StoreView
    decreases ns.len(),
{
    if ns.len() == 0 {
        v
    } else {
        let prev = enriched(v, ns.drop_last(), y);
        let n = ns.last();
        if n.title@.len() + 16 < usize::MAX {
            match deadline_of(n.title@, y) {
                Some(d) => if 0 <= d.year <= 9999 { after_deadline(prev, n.id as int, date_text_of(d)) } else { prev },
                None => prev,
            }
        } else {
            prev
        }
    }
}

/// Records the deadline of each notice, with month-day tokens read in
/// `reference_year`. Returns how many deadlines were recorded.
pub fn enrich_deadlines_for_year(db: &mut Database, notices: &Vec<Notice>, reference_year: i32) -> (r: usize)
    requires
        old(db).wf(),
    ensures
        final(db).wf(),
        final(db).path_spec() == old(db).path_spec(),
        final(db)@ == enriched(old(db)@, notices@, reference_year as int),
        r <= notices@.len(),
{
    let ghost v0 = db@;
    let mut count: usize = 0;
    let mut i: usize = 0;
    while i < notices.len()
        invariant
            db.wf(),
            db.path_spec() == old(db).path_spec(),
            i <= notices@.len(),
            count <= i,
            db@ == enriched(v0, notices@.subrange(0, i as int), reference_year as int),
        decreases notices@.len() - i,
    {
        assert(notices@.subrange(0, i + 1).drop_last() =~= notices@.subrange(0, i as int));
        let n = &notices[i];
        let len = n.title.as_str().unicode_len();
        if len < usize::MAX - 16 {
            if let Some(d) = extract_deadline_for_year(n.title.as_str(), reference_year) {
                if 0 <= d.year && d.year <= 9999 {
                    let text = date_text(d);
                    let _ = db.set_deadline(n.id, text.as_str());
                    count = count + 1;
                }
            }
        }
        i = i + 1;
    }
    assert(notices@.subrange(0, notices@.len() as int) =~= notices@);
    count
}

/// Records the deadline of each notice, with month-day tokens read in the
/// current local year.
pub fn enrich_deadlines(db: &mut Database, notices: &Vec<Notice>) -> (r: usize)
    requires
        old(db).wf(),
    ensures
        final(db).wf(),
        final(db).path_spec() == old(db).path_spec(),
        exists|y: i32| final(db)@ == enriched(old(db)@, notices@, y as int),
{
    let year = local_year();
    enrich_deadlines_for_year(db, notices, year)
}

} // verus!
