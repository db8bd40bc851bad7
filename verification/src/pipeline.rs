//! The per-item pipeline: from the prior record, the fresh fingerprint
//! and the completeness score to one of skip, embed-only, or
//! fetch-apply-embed-refresh, with the record written after every
//! transition.  The caller performs the external invocations and feeds
//! each result back; every decision and every record built here is
//! verified.

use vstd::prelude::*;
use vstd::string::StringExecFns;
use vstd::string::StrSliceExecFns;
use crate::state::{BookState, Status, is_resting, status_is_resting, book_lookup};
use crate::strutil::{joined, join_with};

verus! {

// ---------------------------------------------------------------------------
// The resting-state short circuit and the decision.
// ---------------------------------------------------------------------------

/// Whether the item is skipped outright: a resting prior record, and —
/// when metadata-change reprocessing is on — an unchanged fingerprint.
pub open spec fn should_skip_spec(prev: Option<BookState>, hash: Seq<char>, reprocess: bool) -> bool {
    match prev {
        Some(p) => is_resting(p.status) && (!reprocess || p.last_hash@ == hash),
        None => false,
    }
}

pub fn should_skip(prev: &Option<BookState>, hash: &str, reprocess: bool) -> (r: bool)
    ensures
        r == should_skip_spec(*prev, hash@, reprocess),
{
    match prev {
        Some(p) => {
            status_is_resting(p.status) && (!reprocess || crate::strutil::str_eq(
                p.last_hash.as_str(),
                hash,
            ))
        },
        None => false,
    }
}

/// What the pipeline does with one item.  `Skip` is decided before any
/// command is built: a skipped item causes no external invocation.
pub enum ItemDecision {
    Skip,
    EmbedOnly,
    Fetch,
}

pub fn decide_item(prev: &Option<BookState>, hash: &str, reprocess: bool, good_enough: bool) -> (r:
    ItemDecision)
    ensures
        should_skip_spec(*prev, hash@, reprocess) ==> r is Skip,
        !should_skip_spec(*prev, hash@, reprocess) && good_enough ==> r is EmbedOnly,
        !should_skip_spec(*prev, hash@, reprocess) && !good_enough ==> r is Fetch,
{
    if should_skip(prev, hash, reprocess) {
        ItemDecision::Skip
    } else if good_enough {
        ItemDecision::EmbedOnly
    } else {
        ItemDecision::Fetch
    }
}

// ---------------------------------------------------------------------------
// Record transitions.
// ---------------------------------------------------------------------------

/// The failure count carried over unchanged from the prior record.
pub open spec fn carried_fail(prev: Option<BookState>) -> int {
    match prev {
        Some(p) => p.fail_count as int,
        None => 0,
    }
}

/// The failure count after one more failure.
pub open spec fn bumped_fail(prev: Option<BookState>) -> int {
    match prev {
        Some(p) => if p.fail_count < i32::MAX {
            p.fail_count + 1
        } else {
            p.fail_count as int
        },
        None => 1,
    }
}

/// The last-success stamp carried forward from the prior record.
pub open spec fn carried_ok(prev: Option<BookState>) -> Option<String> {
    match prev {
        Some(p) => p.last_ok_utc,
        None => None,
    }
}

fn carried_ok_exec(prev: &Option<BookState>) -> (r: Option<String>)
    ensures
        r == carried_ok(*prev),
{
    match prev {
        Some(p) => match &p.last_ok_utc {
            Some(s) => Some(s.clone()),
            None => None,
        },
        None => None,
    }
}

fn carried_fail_exec(prev: &Option<BookState>) -> (r: i32)
    ensures
        r as int == carried_fail(*prev),
{
    match prev {
        Some(p) => p.fail_count,
        None => 0,
    }
}

fn bumped_fail_exec(prev: &Option<BookState>) -> (r: i32)
    ensures
        r as int == bumped_fail(*prev),
{
    match prev {
        Some(p) => if p.fail_count < i32::MAX {
            p.fail_count + 1
        } else {
            p.fail_count
        },
        None => 1,
    }
}

/// The record written before any external call: the attempt is stamped,
/// the failure count and last success carried.
pub fn started_state(hash: &String, now: String, prev: &Option<BookState>) -> (r: BookState)
    ensures
        r.status == Status::Started,
        r.last_hash@ == hash@,
        r.last_attempt_utc == now,
        r.last_ok_utc == carried_ok(*prev),
        r.message matches Some(m) && m@ == "started"@,
        r.fail_count as int == carried_fail(*prev),
{
    BookState {
        status: Status::Started,
        last_hash: hash.clone(),
        last_attempt_utc: now,
        last_ok_utc: carried_ok_exec(prev),
        message: Some(String::from_str("started")),
        fail_count: carried_fail_exec(prev),
    }
}

/// The record after the embed-only path: success rests as `EmbeddedOnly`
/// with the failure count cleared and the success stamp advanced; failure
/// keeps the prior success stamp and bumps the count, with the missing
/// fields listed in the message.
pub fn embed_only_outcome(
    embed_ok: bool,
    embed_msg: String,
    reasons: &Vec<String>,
    hash: &String,
    now: String,
    prev: &Option<BookState>,
) -> (r: BookState)
    ensures
        r.last_hash@ == hash@,
        r.last_attempt_utc == now,
        embed_ok ==> {
            &&& r.status == Status::EmbeddedOnly
            &&& r.fail_count == 0
            &&& r.last_ok_utc matches Some(t) && t == now
            &&& r.message matches Some(m) && m@ == "good enough; embedded"@
        },
        !embed_ok ==> {
            &&& r.status == Status::Failed
            &&& r.fail_count as int == bumped_fail(*prev)
            &&& r.last_ok_utc == carried_ok(*prev)
            &&& r.message matches Some(m) && m@ == embed_msg@ + " (good enough reasons: "@
                + joined(reasons.deep_view(), ", "@) + ")"@
        },
{
    if embed_ok {
        BookState {
            status: Status::EmbeddedOnly,
            last_hash: hash.clone(),
            last_attempt_utc: now.clone(),
            last_ok_utc: Some(now),
            message: Some(String::from_str("good enough; embedded")),
            fail_count: 0,
        }
    } else {
        let mut msg = embed_msg;
        msg.append(" (good enough reasons: ");
        let joined_reasons = join_with(reasons, ", ");
        msg.append(joined_reasons.as_str());
        msg.append(")");
        BookState {
            status: Status::Failed,
            last_hash: hash.clone(),
            last_attempt_utc: now,
            last_ok_utc: carried_ok_exec(prev),
            message: Some(msg),
            fail_count: bumped_fail_exec(prev),
        }
    }
}

/// The record after a failed fetch: a timeout rests as `FailedPermanent`
/// so later runs do not repeat a call known to exceed the budget; any
/// other fetch failure is `Failed` and eligible for retry.
pub fn fetch_failure_state(
    timed_out: bool,
    msg: String,
    hash: &String,
    now: String,
    prev: &Option<BookState>,
) -> (r: BookState)
    ensures
        r.status == (if timed_out {
            Status::FailedPermanent
        } else {
            Status::Failed
        }),
        r.last_hash@ == hash@,
        r.last_attempt_utc == now,
        r.last_ok_utc == carried_ok(*prev),
        r.message == Some(msg),
        r.fail_count as int == bumped_fail(*prev),
{
    BookState {
        status: if timed_out {
            Status::FailedPermanent
        } else {
            Status::Failed
        },
        last_hash: hash.clone(),
        last_attempt_utc: now,
        last_ok_utc: carried_ok_exec(prev),
        message: Some(msg),
        fail_count: bumped_fail_exec(prev),
    }
}

/// The record after a failed apply or embed step.
pub fn step_failure_state(msg: String, hash: &String, now: String, prev: &Option<BookState>) -> (r:
    BookState)
    ensures
        r.status == Status::Failed,
        r.last_hash@ == hash@,
        r.last_attempt_utc == now,
        r.last_ok_utc == carried_ok(*prev),
        r.message == Some(msg),
        r.fail_count as int == bumped_fail(*prev),
{
    BookState {
        status: Status::Failed,
        last_hash: hash.clone(),
        last_attempt_utc: now,
        last_ok_utc: carried_ok_exec(prev),
        message: Some(msg),
        fail_count: bumped_fail_exec(prev),
    }
}

/// The record after an unexpected fault inside one item's processing: the
/// item fails without aborting the run.
pub fn exception_state(err: &str, hash: &String, now: String, prev: &Option<BookState>) -> (r:
    BookState)
    ensures
        r.status == Status::Failed,
        r.last_hash@ == hash@,
        r.last_attempt_utc == now,
        r.last_ok_utc == carried_ok(*prev),
        r.message matches Some(m) && m@ == "exception: "@ + err@,
        r.fail_count as int == bumped_fail(*prev),
{
    let mut msg = String::from_str("exception: ");
    msg.append(err);
    BookState {
        status: Status::Failed,
        last_hash: hash.clone(),
        last_attempt_utc: now,
        last_ok_utc: carried_ok_exec(prev),
        message: Some(msg),
        fail_count: bumped_fail_exec(prev),
    }
}

/// The record of a full fetch-apply-embed-refresh success: `Done` under
/// the refreshed fingerprint, the failure count cleared, the success
/// stamp advanced.
pub fn success_state(new_hash: String, now: String) -> (r: BookState)
    ensures
        r.status == Status::Done,
        r.last_hash == new_hash,
        r.last_attempt_utc == now,
        r.last_ok_utc matches Some(t) && t == now,
        r.message matches Some(m) && m@ == "fetched+applied+embedded"@,
        r.fail_count == 0,
{
    BookState {
        status: Status::Done,
        last_hash: new_hash,
        last_attempt_utc: now.clone(),
        last_ok_utc: Some(now),
        message: Some(String::from_str("fetched+applied+embedded")),
        fail_count: 0,
    }
}

// ---------------------------------------------------------------------------
// The run summary.
// ---------------------------------------------------------------------------

/// How one item's processing ended, for the aggregate counters.
pub enum RunOutcome {
    Succeeded,
    Failed,
    Skipped,
}

/// The aggregate counters a run reports.
pub struct RunSummary {
    pub ok: u64,
    pub fail: u64,
    pub skipped: u64,
}

impl RunSummary {
    pub fn new() -> (r: RunSummary)
        ensures
            r.ok == 0 && r.fail == 0 && r.skipped == 0,
    {
        RunSummary { ok: 0, fail: 0, skipped: 0 }
    }

    /// Folds one item's outcome into the counters; exactly one counter
    /// moves, by one.
    pub fn record(&mut self, outcome: RunOutcome)
        ensures
            final(self).ok as int == old(self).ok + (if outcome is Succeeded && old(self).ok
                < u64::MAX {
                1int
            } else {
                0int
            }),
            final(self).fail as int == old(self).fail + (if outcome is Failed && old(self).fail
                < u64::MAX {
                1int
            } else {
                0int
            }),
            final(self).skipped as int == old(self).skipped + (if outcome is Skipped && old(
                self,
            ).skipped < u64::MAX {
                1int
            } else {
                0int
            }),
    {
        match outcome {
            RunOutcome::Succeeded => {
                if self.ok < u64::MAX {
                    self.ok = self.ok + 1;
                }
            },
            RunOutcome::Failed => {
                if self.fail < u64::MAX {
                    self.fail = self.fail + 1;
                }
            },
            RunOutcome::Skipped => {
                if self.skipped < u64::MAX {
                    self.skipped = self.skipped + 1;
                }
            },
        }
    }
}

/// How a processed item counts, read off the record written last: `Done`
/// counts as a success, and so does `EmbeddedOnly` — the embed-only path's
/// resting form, which is reported as done; `Failed` counts as a failure;
/// everything else as skipped, deliberately including `FailedPermanent`:
/// a timed-out fetch rests at once, filed as handled rather than as a
/// live failure.
pub fn classify_outcome(after: &Option<BookState>) -> (r: RunOutcome)
    ensures
        (after matches Some(st) && (st.status == Status::Done || st.status
            == Status::EmbeddedOnly)) ==> r is Succeeded,
        (after matches Some(st) && st.status == Status::Failed) ==> r is Failed,
        (match after {
            Some(st) => st.status != Status::Done && st.status != Status::EmbeddedOnly
                && st.status != Status::Failed,
            None => true,
        }) ==> r is Skipped,
{
    match after {
        Some(st) => match st.status {
            Status::Done => RunOutcome::Succeeded,
            Status::EmbeddedOnly => RunOutcome::Succeeded,
            Status::Failed => RunOutcome::Failed,
            _ => RunOutcome::Skipped,
        },
        None => RunOutcome::Skipped,
    }
}

/// How a dry-run decision counts: both hypothetical work paths count as
/// successes, a skip as skipped.
pub fn classify_dry_run(d: &ItemDecision) -> (r: RunOutcome)
    ensures
        d is Skip ==> r is Skipped,
        (d is EmbedOnly || d is Fetch) ==> r is Succeeded,
{
    match d {
        ItemDecision::Skip => RunOutcome::Skipped,
        _ => RunOutcome::Succeeded,
    }
}

// ---------------------------------------------------------------------------
// Laws of rerunning.
// ---------------------------------------------------------------------------

/// Law: a record left by a successful pass — or any other resting record —
/// makes the next run of the same item skip it outright, provided the
/// fingerprint is unchanged (or change reprocessing is off).  Since the
/// skip decision precedes all command construction, the second run makes
/// no external invocation for the item.
pub proof fn lemma_second_run_skips(bs: BookState, hash: Seq<char>, reprocess: bool)
    requires
        is_resting(bs.status),
        reprocess ==> bs.last_hash@ == hash,
    ensures
        should_skip_spec(Some(bs), hash, reprocess),
{
}

/// Law: once item `id`'s outcome is persisted, a rerun finds that record —
/// so a resting outcome with an unchanged fingerprint is skipped, never
/// reprocessed — and every other item's record reads exactly as before
/// the write.
pub proof fn lemma_resume_safety(
    before: Seq<(i64, crate::state::BookState)>,
    after: Seq<(i64, crate::state::BookState)>,
    id: i64,
    bs: BookState,
    hash: Seq<char>,
    reprocess: bool,
)
    requires
        book_lookup(after, id as int) == Some(bs),
        forall|id2: int| id2 != id as int ==> book_lookup(after, id2) == book_lookup(before, id2),
        is_resting(bs.status),
        reprocess ==> bs.last_hash@ == hash,
    ensures
        should_skip_spec(book_lookup(after, id as int), hash, reprocess),
        forall|id2: int| id2 != id as int ==> book_lookup(after, id2) == book_lookup(before, id2),
{
}

} // verus!
