use calibre_updatr::config::CalibreEnvMode;
use calibre_updatr::runner::{
    Runner, CmdResult, RetryDecision, TIMEOUT_STATUS_CODE, timed_out_result, completed_result,
    timeout_expired, heartbeat_due, append_output_line, truncate_chars, trim_if_present,
    should_clean_env_key, clean_env, apply_env_overrides, apply_env_defaults, is_calibredb,
    calibre_env_variant,
};

fn s(text: &str) -> String {
    text.to_string()
}

fn pair(k: &str, v: &str) -> (String, String) {
    (s(k), s(v))
}

fn runner(mode: CalibreEnvMode) -> Runner {
    Runner {
        calibredb_env_mode: mode,
        debug_calibredb_env: false,
        headless_fetch: true,
        headless_env: vec![pair("QT_QPA_PLATFORM", "xcb")],
        fetch_use_xvfb: false,
        calibre_username: None,
        calibre_password: None,
        clean_retry_signature: s("No module named 'msgpack'"),
    }
}

fn failed(stderr: &str) -> CmdResult {
    CmdResult { status_code: 1, stdout: s(""), stderr: s(stderr), timed_out: false }
}

#[test]
fn timeout_result_carries_sentinel_and_partial_output() {
    let r = timed_out_result(s("out"), s("err"));
    assert!(r.timed_out);
    assert_eq!(r.status_code, TIMEOUT_STATUS_CODE);
    assert_eq!(r.stdout, "out");
    assert_eq!(r.stderr, "err");
    let c = completed_result(None, s(""), s(""));
    assert!(!c.timed_out);
    assert_eq!(c.status_code, 1);
    let c2 = completed_result(Some(0), s(""), s(""));
    assert_eq!(c2.status_code, 0);
}

#[test]
fn timeout_and_heartbeat_predicates() {
    assert!(timeout_expired(45_000, 45_000));
    assert!(!timeout_expired(44_999, 45_000));
    assert!(heartbeat_due(10_000, 10_000));
    assert!(!heartbeat_due(20_000, 0));
}

#[test]
fn output_lines_accumulate_with_newlines() {
    let mut acc = String::new();
    append_output_line(&mut acc, "first");
    append_output_line(&mut acc, "second");
    assert_eq!(acc, "first\nsecond\n");
}

#[test]
fn truncation_and_trimming() {
    assert_eq!(truncate_chars("abcdef", 3), "abc");
    assert_eq!(truncate_chars("ab", 10), "ab");
    assert_eq!(trim_if_present("  x  "), "x");
}

#[test]
fn clean_strategy_strips_runtime_tooling_keys() {
    assert!(should_clean_env_key("PYTHONPATH"));
    assert!(should_clean_env_key("UV_PYTHON"));
    assert!(should_clean_env_key("CONDA_PREFIX"));
    assert!(!should_clean_env_key("PATH"));
    let env = vec![pair("PYTHONPATH", "/x"), pair("PATH", "/bin"), pair("PIP_INDEX_URL", "u")];
    let cleaned = clean_env(&env);
    assert_eq!(cleaned, vec![pair("PATH", "/bin")]);
}

#[test]
fn overrides_replace_and_defaults_fill_only_gaps() {
    let base = vec![pair("LANG", "C"), pair("PATH", "/bin")];
    let over = apply_env_overrides(&base, &vec![pair("LANG", "en_US.utf8")]);
    assert_eq!(over, vec![pair("PATH", "/bin"), pair("LANG", "en_US.utf8")]);

    let defaulted = apply_env_defaults(&base, &vec![pair("LANG", "xx"), pair("HOME", "/root")]);
    assert_eq!(defaulted, vec![pair("LANG", "C"), pair("PATH", "/bin"), pair("HOME", "/root")]);
}

#[test]
fn catalog_tool_recognized_by_final_path_component() {
    assert!(is_calibredb("calibredb"));
    assert!(is_calibredb("/usr/bin/calibredb"));
    assert!(!is_calibredb("calibre"));
    assert!(!is_calibredb("/usr/bin/fetch-ebook-metadata"));
}

#[test]
fn first_env_injects_headless_defaults_for_fetch_tool() {
    let r = runner(CalibreEnvMode::Inherit);
    let cmd = vec![s("fetch-ebook-metadata"), s("--isbn"), s("978")];
    let ambient = vec![pair("PATH", "/bin")];
    let env = r.first_env(&cmd, &ambient, &vec![]).unwrap();
    assert!(env.contains(&pair("PATH", "/bin")));
    assert!(env.contains(&pair("QT_QPA_PLATFORM", "xcb")));
    // A caller-set value is never overridden.
    let ambient2 = vec![pair("QT_QPA_PLATFORM", "offscreen")];
    let env2 = r.first_env(&cmd, &ambient2, &vec![]).unwrap();
    assert!(env2.contains(&pair("QT_QPA_PLATFORM", "offscreen")));
    assert!(!env2.contains(&pair("QT_QPA_PLATFORM", "xcb")));
}

#[test]
fn first_env_refuses_empty_command() {
    let r = runner(CalibreEnvMode::Inherit);
    let e = r.first_env(&vec![], &vec![], &vec![]).unwrap_err();
    assert_eq!(e, "empty command");
}

#[test]
fn clean_mode_strips_for_catalog_tool_only() {
    let r = runner(CalibreEnvMode::Clean);
    let ambient = vec![pair("PYTHONPATH", "/x"), pair("PATH", "/bin")];
    let env = r.first_env(&vec![s("calibredb"), s("list")], &ambient, &vec![]).unwrap();
    assert_eq!(env, vec![pair("PATH", "/bin")]);
    let env2 = r.first_env(&vec![s("other")], &ambient, &vec![]).unwrap();
    assert_eq!(env2, ambient);
}

#[test]
fn inherit_mode_retries_once_on_signature() {
    let r = runner(CalibreEnvMode::Inherit);
    let base = vec![pair("PYTHONPATH", "/x"), pair("PATH", "/bin")];
    let d = r.next_attempt(true, 0, &base, &failed("ImportError: No module named 'msgpack'!"));
    match d {
        RetryDecision::RetryWith(env) => assert_eq!(env, vec![pair("PATH", "/bin")]),
        RetryDecision::Accept => panic!("expected a clean-environment retry"),
    }
    // Another stderr text is not retried.
    assert!(matches!(
        r.next_attempt(true, 0, &base, &failed("some other error")),
        RetryDecision::Accept
    ));
    // Only one retry.
    assert!(matches!(
        r.next_attempt(true, 1, &base, &failed("No module named 'msgpack'")),
        RetryDecision::Accept
    ));
}

#[test]
fn override_mode_walks_variants_then_returns_last_result() {
    let r = runner(CalibreEnvMode::Override);
    let base = vec![pair("PATH", "/bin")];
    for attempt in 0..3usize {
        match r.next_attempt(true, attempt, &base, &failed("still broken")) {
            RetryDecision::RetryWith(env) => {
                let variant = calibre_env_variant(attempt);
                for (k, v) in &variant {
                    assert!(env.contains(&(k.clone(), v.clone())));
                }
                assert!(env.contains(&pair("PATH", "/bin")));
            },
            RetryDecision::Accept => panic!("variant {attempt} should be tried"),
        }
    }
    // All fallback locale variants exhausted without success: the last
    // attempt's result is handed back, not an error.
    assert!(matches!(
        r.next_attempt(true, 3, &base, &failed("still broken")),
        RetryDecision::Accept
    ));
}

#[test]
fn successful_and_foreign_commands_are_never_retried() {
    let r = runner(CalibreEnvMode::Override);
    let ok = CmdResult { status_code: 0, stdout: s(""), stderr: s(""), timed_out: false };
    assert!(matches!(r.next_attempt(true, 0, &vec![], &ok), RetryDecision::Accept));
    assert!(matches!(r.next_attempt(false, 0, &vec![], &failed("x")), RetryDecision::Accept));
}
