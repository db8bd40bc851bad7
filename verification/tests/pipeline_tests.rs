use calibre_updatr::config::ScoringConfig;
use calibre_updatr::json::Json;
use calibre_updatr::metadata::{metadata_snapshot, score_good_enough, is_good_enough};
use calibre_updatr::fingerprint::snapshot_hash;
use calibre_updatr::pipeline::{
    should_skip, decide_item, ItemDecision, started_state, embed_only_outcome,
    fetch_failure_state, step_failure_state, success_state, exception_state, RunSummary,
    RunOutcome, classify_outcome, classify_dry_run,
};
use calibre_updatr::state::{
    Status, BookState, StateFile, get_book_state, put_book_state, empty_state,
};
use calibre_updatr::runner::timed_out_result;
use calibre_updatr::calibre::fetch_metadata_outcome;

fn s(text: &str) -> String {
    text.to_string()
}

fn obj(pairs: Vec<(&str, Json)>) -> Json {
    Json::Obj(pairs.into_iter().map(|(k, v)| (k.to_string(), v)).collect())
}

fn resting(status: Status, hash: &str) -> BookState {
    BookState {
        status,
        last_hash: s(hash),
        last_attempt_utc: s("t0"),
        last_ok_utc: Some(s("t0")),
        message: None,
        fail_count: 0,
    }
}

#[test]
fn good_enough_item_takes_embed_only_path_and_rests_done() {
    // Title, authors, ISBN, tags, description and cover present: score 7.
    let book = obj(vec![
        ("title", Json::Str(s("T"))),
        ("authors", Json::Arr(vec![Json::Str(s("A"))])),
        ("isbn", Json::Str(s("978"))),
        ("tags", Json::Arr(vec![Json::Str(s("x"))])),
        ("comments", Json::Str(s("desc"))),
        ("cover", Json::Str(s("/c.jpg"))),
    ]);
    let snap = metadata_snapshot(&book);
    let sc = ScoringConfig::default();
    let (score, reasons) = score_good_enough(&snap, &sc);
    assert!(score >= sc.min_score_to_skip_fetch);
    let h = snapshot_hash(&snap);
    let d = decide_item(&None, &h, false, is_good_enough(score, &snap, &sc));
    assert!(matches!(d, ItemDecision::EmbedOnly));

    let started = started_state(&h, s("t1"), &None);
    assert_eq!(started.status, Status::Started);
    assert_eq!(started.fail_count, 0);

    let after = embed_only_outcome(true, s(""), &reasons, &h, s("t2"), &None);
    assert_eq!(after.status, Status::EmbeddedOnly);
    assert_eq!(after.fail_count, 0);
    assert_eq!(after.last_ok_utc, Some(s("t2")));
    assert_eq!(after.message, Some(s("good enough; embedded")));
    // The embed-only success is reported as done.
    assert!(matches!(classify_outcome(&Some(after)), RunOutcome::Succeeded));
}

#[test]
fn embed_failure_keeps_prior_success_and_bumps_count() {
    let prev = Some(BookState {
        status: Status::Failed,
        last_hash: s("h0"),
        last_attempt_utc: s("t0"),
        last_ok_utc: Some(s("old-ok")),
        message: None,
        fail_count: 2,
    });
    let after = embed_only_outcome(
        false,
        s("embed_metadata failed rc=1"),
        &vec![s("missing cover")],
        &s("h1"),
        s("t1"),
        &prev,
    );
    assert_eq!(after.status, Status::Failed);
    assert_eq!(after.fail_count, 3);
    assert_eq!(after.last_ok_utc, Some(s("old-ok")));
    assert_eq!(
        after.message,
        Some(s("embed_metadata failed rc=1 (good enough reasons: missing cover)"))
    );
}

#[test]
fn poor_item_takes_fetch_path_and_success_changes_fingerprint() {
    // Missing title and authors: score 0.
    let before = obj(vec![("id", Json::Num(s("9")))]);
    let snap = metadata_snapshot(&before);
    let sc = ScoringConfig::default();
    let (score, _) = score_good_enough(&snap, &sc);
    assert_eq!(score, 0);
    let h0 = snapshot_hash(&snap);
    let d = decide_item(&None, &h0, false, is_good_enough(score, &snap, &sc));
    assert!(matches!(d, ItemDecision::Fetch));

    // After a successful fetch, apply, embed and refresh, the item rests
    // Done under the refreshed fingerprint.
    let refreshed = obj(vec![
        ("id", Json::Num(s("9"))),
        ("title", Json::Str(s("Found Title"))),
        ("authors", Json::Arr(vec![Json::Str(s("Found Author"))])),
    ]);
    let h1 = snapshot_hash(&metadata_snapshot(&refreshed));
    assert_ne!(h0, h1);
    let after = success_state(h1.clone(), s("t3"));
    assert_eq!(after.status, Status::Done);
    assert_eq!(after.fail_count, 0);
    assert_eq!(after.last_hash, h1);
    assert_eq!(after.last_ok_utc, Some(s("t3")));
}

#[test]
fn fetch_timeout_rests_failed_permanent() {
    let r = timed_out_result(s("partial"), s(""));
    assert!(r.timed_out);
    assert_eq!(r.status_code, 124);
    assert_eq!(r.stdout, "partial");
    let out = fetch_metadata_outcome(&r, 45, None);
    assert!(!out.ok);
    assert!(out.timed_out);
    assert_eq!(out.message, "fetch-ebook-metadata timed out after 45s");
    let bs = fetch_failure_state(out.timed_out, out.message, &s("h"), s("t1"), &None);
    assert_eq!(bs.status, Status::FailedPermanent);
    assert_eq!(bs.fail_count, 1);
}

#[test]
fn other_fetch_failures_stay_retryable() {
    let bs = fetch_failure_state(false, s("fetch-ebook-metadata failed rc=2"), &s("h"), s("t"), &None);
    assert_eq!(bs.status, Status::Failed);
    let bs2 = step_failure_state(s("set_metadata failed rc=1"), &s("h"), s("t"), &None);
    assert_eq!(bs2.status, Status::Failed);
    let bs3 = exception_state("boom", &s("h"), s("t"), &None);
    assert_eq!(bs3.status, Status::Failed);
    assert_eq!(bs3.message, Some(s("exception: boom")));
}

#[test]
fn second_run_skips_every_rested_item() {
    // Idempotence: each resting status with an unchanged fingerprint skips.
    for st in [Status::Done, Status::EmbeddedOnly, Status::Skipped, Status::FailedPermanent] {
        let bs = resting(st, "h1");
        assert!(should_skip(&Some(bs), "h1", false));
        let bs = resting(st, "h1");
        assert!(should_skip(&Some(bs), "h1", true));
        let bs = resting(st, "h1");
        assert!(matches!(decide_item(&Some(bs), "h1", true, true), ItemDecision::Skip));
    }
    // A non-resting status is retried.
    assert!(!should_skip(&Some(resting(Status::Failed, "h1")), "h1", false));
    // A changed fingerprint under reprocessing is redone.
    assert!(!should_skip(&Some(resting(Status::Done, "h1")), "h2", true));
    // ...but without reprocessing it still skips.
    assert!(should_skip(&Some(resting(Status::Done, "h1")), "h2", false));
}

#[test]
fn resume_after_persisting_item_n_skips_it_and_keeps_others() {
    let mut state: StateFile = empty_state();
    put_book_state(&mut state, 1, resting(Status::Done, "h1"));
    put_book_state(&mut state, 2, resting(Status::Failed, "h2"));
    // Item 1's outcome was persisted before the interruption.
    let one = get_book_state(&state, 1).unwrap();
    assert!(should_skip(&Some(one), "h1", false));
    // Item 2 is unaffected and still eligible.
    let two = get_book_state(&state, 2).unwrap();
    assert_eq!(two.status, Status::Failed);
    assert!(!should_skip(&Some(two), "h2", false));
    // Rewriting item 1 leaves item 2's record untouched.
    put_book_state(&mut state, 1, resting(Status::Done, "h1b"));
    assert_eq!(get_book_state(&state, 2).unwrap().last_hash, "h2");
    assert_eq!(get_book_state(&state, 1).unwrap().last_hash, "h1b");
}

#[test]
fn summary_counts_one_outcome_each() {
    let mut sum = RunSummary::new();
    sum.record(RunOutcome::Succeeded);
    sum.record(RunOutcome::Succeeded);
    sum.record(RunOutcome::Failed);
    sum.record(RunOutcome::Skipped);
    assert_eq!((sum.ok, sum.fail, sum.skipped), (2, 1, 1));

    let done = Some(resting(Status::Done, "h"));
    assert!(matches!(classify_outcome(&done), RunOutcome::Succeeded));
    let failed = Some(resting(Status::Failed, "h"));
    assert!(matches!(classify_outcome(&failed), RunOutcome::Failed));
    // An embed-only success rests as EmbeddedOnly and is reported as done.
    let embedded = Some(resting(Status::EmbeddedOnly, "h"));
    assert!(matches!(classify_outcome(&embedded), RunOutcome::Succeeded));
    let skipped = Some(resting(Status::Skipped, "h"));
    assert!(matches!(classify_outcome(&skipped), RunOutcome::Skipped));
    assert!(matches!(classify_outcome(&None), RunOutcome::Skipped));

    assert!(matches!(classify_dry_run(&ItemDecision::Skip), RunOutcome::Skipped));
    assert!(matches!(classify_dry_run(&ItemDecision::Fetch), RunOutcome::Succeeded));
    assert!(matches!(classify_dry_run(&ItemDecision::EmbedOnly), RunOutcome::Succeeded));
}
