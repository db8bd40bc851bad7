use calibre_updatr::state::{
    Status, BookState, StateFile, empty_state, upgrade_state_version, get_book_state,
    put_book_state, status_text, parse_status, now_iso,
};
use calibre_updatr::config::{
    Config, ScoringConfig, PolicyConfig, FetchConfig, CalibreEnvMode, normalize_library_spec,
    normalize_optional_string,
};
use calibre_updatr::strutil::{u64_to_string, i64_to_string, str_contains, str_starts_with};

fn s(text: &str) -> String {
    text.to_string()
}

fn record(status: Status) -> BookState {
    BookState {
        status,
        last_hash: s("h"),
        last_attempt_utc: s("t"),
        last_ok_utc: None,
        message: None,
        fail_count: 0,
    }
}

#[test]
fn status_texts_round_trip() {
    for st in [
        Status::Started,
        Status::Done,
        Status::EmbeddedOnly,
        Status::Skipped,
        Status::Failed,
        Status::FailedPermanent,
    ] {
        assert_eq!(parse_status(&status_text(st)), st);
    }
    assert_eq!(status_text(Status::Skipped), "skipped_good_enough");
    assert_eq!(parse_status("anything else"), Status::Started);
}

#[test]
fn store_upserts_by_item_id() {
    let mut state: StateFile = empty_state();
    assert_eq!(state.version, 1);
    assert!(get_book_state(&state, 5).is_none());
    put_book_state(&mut state, 5, record(Status::Started));
    put_book_state(&mut state, 6, record(Status::Done));
    put_book_state(&mut state, 5, record(Status::Failed));
    assert_eq!(get_book_state(&state, 5).unwrap().status, Status::Failed);
    assert_eq!(get_book_state(&state, 6).unwrap().status, Status::Done);
    assert_eq!(state.books.len(), 2);
}

#[test]
fn version_zero_upgrades_to_one_without_data_loss() {
    let mut state = StateFile { version: 0, updated_at_utc: None, books: vec![(1, record(Status::Done))] };
    upgrade_state_version(&mut state);
    assert_eq!(state.version, 1);
    assert_eq!(state.books.len(), 1);
    let mut state2 = StateFile { version: 3, updated_at_utc: None, books: vec![] };
    upgrade_state_version(&mut state2);
    assert_eq!(state2.version, 3);
}

#[test]
fn clock_returns_a_stamp() {
    let t = now_iso();
    assert!(t.len() >= 19);
}

#[test]
fn defaults_match_the_documented_policy() {
    let c = Config::default();
    assert_eq!(c.logging.level, "info");
    assert_eq!(c.formats.list, vec![s("epub"), s("pdf")]);
    assert!(matches!(c.calibredb.env_mode, CalibreEnvMode::Inherit));
    let sc = ScoringConfig::default();
    assert_eq!(sc.min_score_to_skip_fetch, 6);
    assert_eq!(sc.isbn_weight, 2);
    assert_eq!(sc.identifiers_weight, 2);
    assert!(sc.require_title && sc.require_authors);
    let p = PolicyConfig::default();
    assert!(p.include_missing_language);
    assert_eq!(p.english_codes, vec![s("en"), s("eng"), s("en-us"), s("en-gb")]);
    assert_eq!(p.delay_between_fetches_ms, 350);
    let f = FetchConfig::default();
    assert_eq!(f.timeout_seconds, 45);
    assert_eq!(f.heartbeat_seconds, 10);
    assert!(f.headless);
    assert!(f.headless_env.iter().any(|(k, _)| k == "QTWEBENGINE_DISABLE_SANDBOX"));
}

#[test]
fn library_locations_normalize() {
    assert_eq!(normalize_library_spec("  /books  "), "/books");
    assert_eq!(normalize_library_spec("http://host:8081/#lib///"), "http://host:8081/#lib");
    assert_eq!(normalize_library_spec("https://host/"), "https://host");
    assert_eq!(normalize_optional_string(Some(s("   "))), None);
    assert_eq!(normalize_optional_string(Some(s("x"))), Some(s("x")));
    assert_eq!(normalize_optional_string(None), None);
}

#[test]
fn decimal_renderings() {
    assert_eq!(u64_to_string(0), "0");
    assert_eq!(u64_to_string(4050), "4050");
    assert_eq!(i64_to_string(-123), "-123");
    assert_eq!(i64_to_string(0), "0");
    assert_eq!(i64_to_string(i64::MIN), "-9223372036854775808");
}

#[test]
fn substring_search_through_the_library() {
    assert!(str_contains("hello world", "lo wo"));
    assert!(!str_contains("hello", "world"));
    assert!(str_contains("abc", ""));
    assert!(str_starts_with("http://x", "http://"));
    assert!(!str_starts_with("ftp://x", "http://"));
}
