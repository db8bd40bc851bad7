//! The process-execution plan: how a child environment is built for each
//! tool, which environment variants are retried in which order, and how a
//! timed-out invocation is reported.  Spawning, polling and killing the
//! child happen outside the library, which is handed each attempt's
//! result and decides the next step.

use vstd::prelude::*;
use vstd::string::StrSliceExecFns;
use crate::config::CalibreEnvMode;
use crate::strutil::{
    contains_spec, str_contains, str_eq, starts_with_spec, str_starts_with, trim_of, trim_str,
    push_char,
};

verus! {

/// The sentinel status of a killed, timed-out invocation.
pub const TIMEOUT_STATUS_CODE: i32 = 124;

/// The outcome of one external process invocation.
pub struct CmdResult {
    pub status_code: i32,
    pub stdout: String,
    pub stderr: String,
    pub timed_out: bool,
}

/// The configuration of the process-execution layer.
pub struct Runner {
    pub calibredb_env_mode: CalibreEnvMode,
    pub debug_calibredb_env: bool,
    pub headless_fetch: bool,
    pub headless_env: Vec<(String, String)>,
    pub fetch_use_xvfb: bool,
    pub calibre_username: Option<String>,
    pub calibre_password: Option<String>,
    /// The stderr text whose appearance triggers the one clean-environment
    /// retry under the `Inherit` strategy.
    pub clean_retry_signature: String,
}

// ---------------------------------------------------------------------------
// Result construction.
// ---------------------------------------------------------------------------

/// The result of an invocation that was killed on timeout: the sentinel
/// status, the flag set, and whatever output was captured.
pub fn timed_out_result(stdout: String, stderr: String) -> (r: CmdResult)
    ensures
        r.timed_out,
        r.status_code == TIMEOUT_STATUS_CODE,
        r.stdout == stdout,
        r.stderr == stderr,
{
    CmdResult { status_code: TIMEOUT_STATUS_CODE, stdout, stderr, timed_out: true }
}

/// The result of an invocation that exited; an exit without a code (a
/// signal) reads as status 1.
pub fn completed_result(code: Option<i32>, stdout: String, stderr: String) -> (r: CmdResult)
    ensures
        !r.timed_out,
        r.status_code == (match code {
            Some(c) => c,
            None => 1,
        }),
        r.stdout == stdout,
        r.stderr == stderr,
{
    let status_code = match code {
        Some(c) => c,
        None => 1,
    };
    CmdResult { status_code, stdout, stderr, timed_out: false }
}

/// Whether the configured time budget is used up.
pub fn timeout_expired(elapsed_ms: u64, timeout_ms: u64) -> (r: bool)
    ensures
        r == (elapsed_ms >= timeout_ms),
{
    elapsed_ms >= timeout_ms
}

/// Whether a progress line is due: only when a heartbeat interval is set
/// and that long has passed since the last one.
pub fn heartbeat_due(since_last_ms: u64, heartbeat_ms: u64) -> (r: bool)
    ensures
        r == (heartbeat_ms > 0 && since_last_ms >= heartbeat_ms),
{
    heartbeat_ms > 0 && since_last_ms >= heartbeat_ms
}

/// Accumulates one captured output line, newline-terminated.
pub fn append_output_line(acc: &mut String, line: &str)
    ensures
        final(acc)@ == old(acc)@ + line@ + seq!['\n'],
{
    acc.append(line);
    push_char(acc, '\n');
    proof {
        assert((old(acc)@ + line@).push('\n') =~= old(acc)@ + line@ + seq!['\n']);
    }
}

/// The first `max` characters of the text, for bounded logging.
pub fn truncate_chars(s: &str, max: usize) -> (r: String)
    ensures
        r@ == s@.take(if max <= s@.len() {
            max as int
        } else {
            s@.len() as int
        }),
{
    let n = s.unicode_len();
    let k = if max <= n {
        max
    } else {
        n
    };
    let r = s.substring_char(0, k).to_owned();
    proof {
        assert(s@.subrange(0, k as int) =~= s@.take(k as int));
    }
    r
}

/// The trimmed text, for log lines.
pub fn trim_if_present(s: &str) -> (r: String)
    ensures
        r@ == trim_of(s@),
{
    trim_str(s)
}

// ---------------------------------------------------------------------------
// Environment construction.
// ---------------------------------------------------------------------------

/// Keys of foreign language-runtime tooling that the clean strategy
/// strips.
pub open spec fn should_clean_key_spec(k: Seq<char>) -> bool {
    ||| starts_with_spec(k, "PYTHON"@)
    ||| starts_with_spec(k, "VIRTUAL_ENV"@)
    ||| starts_with_spec(k, "UV_"@)
    ||| starts_with_spec(k, "PIP_"@)
    ||| starts_with_spec(k, "CONDA"@)
    ||| starts_with_spec(k, "POETRY"@)
    ||| starts_with_spec(k, "PYENV"@)
}

pub fn should_clean_env_key(key: &str) -> (r: bool)
    ensures
        r == should_clean_key_spec(key@),
{
    str_starts_with(key, "PYTHON") || str_starts_with(key, "VIRTUAL_ENV") || str_starts_with(
        key,
        "UV_",
    ) || str_starts_with(key, "PIP_") || str_starts_with(key, "CONDA") || str_starts_with(
        key,
        "POETRY",
    ) || str_starts_with(key, "PYENV")
}

/// The environment with every denylisted key removed; order kept.
pub open spec fn cleaned_env(env: Seq<(Seq<char>, Seq<char>)>) -> Seq<(Seq<char>, Seq<char>)>
    decreases env.len(),
{
    if env.len() == 0 {
        Seq::<(Seq<char>, Seq<char>)>::empty()
    } else {
        let prev = cleaned_env(env.drop_last());
        if should_clean_key_spec(env.last().0) {
            prev
        } else {
            prev.push(env.last())
        }
    }
}

pub fn clean_env(env: &Vec<(String, String)>) -> (r: Vec<(String, String)>)
    ensures
        r.deep_view() == cleaned_env(env.deep_view()),
{
    let ghost deep = env.deep_view();
    let mut r: Vec<(String, String)> = Vec::new();
    let mut i: usize = 0;
    while i < env.len()
        invariant
            i <= env@.len(),
            deep == env.deep_view(),
            deep.len() == env@.len(),
            r.deep_view() =~= cleaned_env(deep.subrange(0, i as int)),
        decreases env@.len() - i,
    {
        let ghost pre1 = deep.subrange(0, i + 1);
        proof {
            assert(pre1.drop_last() =~= deep.subrange(0, i as int));
            assert(pre1.last() == deep[i as int]);
            assert(deep[i as int] == (env@[i as int].0@, env@[i as int].1@));
        }
        if !should_clean_env_key(env[i].0.as_str()) {
            let ghost before = r.deep_view();
            r.push((env[i].0.clone(), env[i].1.clone()));
            proof {
                assert(r.deep_view() =~= before.push(deep[i as int]));
            }
        }
        i += 1;
    }
    proof {
        assert(deep.subrange(0, deep.len() as int) =~= deep);
    }
    r
}

/// Whether the environment holds the key.
pub open spec fn env_has_key(env: Seq<(Seq<char>, Seq<char>)>, k: Seq<char>) -> bool {
    exists|i: int| 0 <= i < env.len() && (#[trigger] env[i]).0 == k
}

fn env_has_key_exec(env: &Vec<(String, String)>, k: &str) -> (r: bool)
    ensures
        r == env_has_key(env.deep_view(), k@),
{
    let ghost deep = env.deep_view();
    let mut i: usize = 0;
    while i < env.len()
        invariant
            i <= env@.len(),
            deep == env.deep_view(),
            deep.len() == env@.len(),
            forall|j: int| 0 <= j < i ==> (#[trigger] deep[j]).0 != k@,
        decreases env@.len() - i,
    {
        proof {
            assert(deep[i as int] == (env@[i as int].0@, env@[i as int].1@));
        }
        if str_eq(env[i].0.as_str(), k) {
            proof {
                assert((deep[i as int]).0 == k@);
            }
            return true;
        }
        i += 1;
    }
    false
}

/// The entries of `extra` whose keys are absent from `base`.
pub open spec fn entries_missing_from(
    extra: Seq<(Seq<char>, Seq<char>)>,
    base: Seq<(Seq<char>, Seq<char>)>,
) -> Seq<(Seq<char>, Seq<char>)>
    decreases extra.len(),
{
    if extra.len() == 0 {
        Seq::<(Seq<char>, Seq<char>)>::empty()
    } else {
        let prev = entries_missing_from(extra.drop_last(), base);
        if env_has_key(base, extra.last().0) {
            prev
        } else {
            prev.push(extra.last())
        }
    }
}

/// The entries of `base` whose keys are absent from `overrides`.
pub open spec fn entries_not_overridden(
    base: Seq<(Seq<char>, Seq<char>)>,
    overrides: Seq<(Seq<char>, Seq<char>)>,
) -> Seq<(Seq<char>, Seq<char>)>
    decreases base.len(),
{
    if base.len() == 0 {
        Seq::<(Seq<char>, Seq<char>)>::empty()
    } else {
        let prev = entries_not_overridden(base.drop_last(), overrides);
        if env_has_key(overrides, base.last().0) {
            prev
        } else {
            prev.push(base.last())
        }
    }
}

/// The base environment with every override applied: overridden keys take
/// the new value, the rest stay.
pub open spec fn env_overridden(
    base: Seq<(Seq<char>, Seq<char>)>,
    overrides: Seq<(Seq<char>, Seq<char>)>,
) -> Seq<(Seq<char>, Seq<char>)> {
    entries_not_overridden(base, overrides) + overrides
}

/// The base environment with defaults filled in for absent keys only;
/// caller-set values are never overridden.
pub open spec fn env_defaulted(
    base: Seq<(Seq<char>, Seq<char>)>,
    defaults: Seq<(Seq<char>, Seq<char>)>,
) -> Seq<(Seq<char>, Seq<char>)> {
    base + entries_missing_from(defaults, base)
}

fn push_pairs_missing_from(out: &mut Vec<(String, String)>, extra: &Vec<(String, String)>, base:
    Ghost<Seq<(Seq<char>, Seq<char>)>>, base_exec: &Vec<(String, String)>)
    requires
        base@ == base_exec.deep_view(),
    ensures
        final(out).deep_view() == old(out).deep_view() + entries_missing_from(
            extra.deep_view(),
            base@,
        ),
{
    let ghost deep = extra.deep_view();
    let ghost out0 = old(out).deep_view();
    let mut i: usize = 0;
    proof {
        assert(out.deep_view() =~= out0 + entries_missing_from(deep.subrange(0, 0), base@));
    }
    while i < extra.len()
        invariant
            i <= extra@.len(),
            deep == extra.deep_view(),
            deep.len() == extra@.len(),
            base@ == base_exec.deep_view(),
            out.deep_view() =~= out0 + entries_missing_from(deep.subrange(0, i as int), base@),
        decreases extra@.len() - i,
    {
        let ghost pre1 = deep.subrange(0, i + 1);
        proof {
            assert(pre1.drop_last() =~= deep.subrange(0, i as int));
            assert(pre1.last() == deep[i as int]);
            assert(deep[i as int] == (extra@[i as int].0@, extra@[i as int].1@));
        }
        if !env_has_key_exec(base_exec, extra[i].0.as_str()) {
            let ghost before = out.deep_view();
            out.push((extra[i].0.clone(), extra[i].1.clone()));
            proof {
                assert(out.deep_view() =~= before.push(deep[i as int]));
            }
        }
        i += 1;
    }
    proof {
        assert(deep.subrange(0, deep.len() as int) =~= deep);
    }
}

/// The base environment extended with defaults for keys it lacks.
pub fn apply_env_defaults(base: &Vec<(String, String)>, defaults: &Vec<(String, String)>) -> (r:
    Vec<(String, String)>)
    ensures
        r.deep_view() == env_defaulted(base.deep_view(), defaults.deep_view()),
{
    let mut r: Vec<(String, String)> = Vec::new();
    let mut i: usize = 0;
    let ghost deep = base.deep_view();
    while i < base.len()
        invariant
            i <= base@.len(),
            deep == base.deep_view(),
            deep.len() == base@.len(),
            r.deep_view() =~= deep.subrange(0, i as int),
        decreases base@.len() - i,
    {
        proof {
            assert(deep[i as int] == (base@[i as int].0@, base@[i as int].1@));
        }
        let ghost before = r.deep_view();
        r.push((base[i].0.clone(), base[i].1.clone()));
        proof {
            assert(r.deep_view() =~= before.push(deep[i as int]));
            assert(deep.subrange(0, i + 1) =~= deep.subrange(0, i as int).push(deep[i as int]));
        }
        i += 1;
    }
    proof {
        assert(deep.subrange(0, deep.len() as int) =~= deep);
        assert(r.deep_view() =~= deep);
    }
    push_pairs_missing_from(&mut r, defaults, Ghost(base.deep_view()), base);
    r
}

/// The base environment with every override entry applied over it.
pub fn apply_env_overrides(base: &Vec<(String, String)>, overrides: &Vec<(String, String)>) -> (r:
    Vec<(String, String)>)
    ensures
        r.deep_view() == env_overridden(base.deep_view(), overrides.deep_view()),
{
    let ghost deep = base.deep_view();
    let ghost odeep = overrides.deep_view();
    let mut r: Vec<(String, String)> = Vec::new();
    let mut i: usize = 0;
    while i < base.len()
        invariant
            i <= base@.len(),
            deep == base.deep_view(),
            odeep == overrides.deep_view(),
            deep.len() == base@.len(),
            r.deep_view() =~= entries_not_overridden(deep.subrange(0, i as int), odeep),
        decreases base@.len() - i,
    {
        let ghost pre1 = deep.subrange(0, i + 1);
        proof {
            assert(pre1.drop_last() =~= deep.subrange(0, i as int));
            assert(pre1.last() == deep[i as int]);
            assert(deep[i as int] == (base@[i as int].0@, base@[i as int].1@));
        }
        if !env_has_key_exec(overrides, base[i].0.as_str()) {
            let ghost before = r.deep_view();
            r.push((base[i].0.clone(), base[i].1.clone()));
            proof {
                assert(r.deep_view() =~= before.push(deep[i as int]));
            }
        }
        i += 1;
    }
    proof {
        assert(deep.subrange(0, deep.len() as int) =~= deep);
    }
    let mut j: usize = 0;
    let ghost mid = r.deep_view();
    while j < overrides.len()
        invariant
            j <= overrides@.len(),
            odeep == overrides.deep_view(),
            odeep.len() == overrides@.len(),
            r.deep_view() =~= mid + odeep.subrange(0, j as int),
        decreases overrides@.len() - j,
    {
        proof {
            assert(odeep[j as int] == (overrides@[j as int].0@, overrides@[j as int].1@));
        }
        let ghost before = r.deep_view();
        r.push((overrides[j].0.clone(), overrides[j].1.clone()));
        proof {
            assert(r.deep_view() =~= before.push(odeep[j as int]));
            assert(odeep.subrange(0, j + 1) =~= odeep.subrange(0, j as int).push(odeep[j as int]));
        }
        j += 1;
    }
    proof {
        assert(odeep.subrange(0, odeep.len() as int) =~= odeep);
    }
    r
}

// ---------------------------------------------------------------------------
// Which tool an invocation runs.
// ---------------------------------------------------------------------------

/// The text after the last path separator.
pub open spec fn after_last_slash(s: Seq<char>) -> Seq<char>
    decreases s.len(),
{
    if contains_spec(s, seq!['/']) {
        after_last_slash(s.drop_first())
    } else {
        s
    }
}

proof fn lemma_after_last_slash_step(s: Seq<char>)
    requires
        s.len() > 0,
        contains_spec(s, seq!['/']),
    ensures
        after_last_slash(s) == after_last_slash(s.drop_first()),
{
}

proof fn lemma_after_last_slash_none(s: Seq<char>)
    requires
        forall|j: int| 0 <= j < s.len() ==> s[j] != '/',
    ensures
        after_last_slash(s) == s,
{
    if contains_spec(s, seq!['/']) {
        let i = choose|i: int|
            0 <= i <= s.len() - 1 && #[trigger] s.subrange(i, i + 1) == seq!['/'];
        assert(s.subrange(i, i + 1)[0] == s[i]);
        assert(false);
    }
}

proof fn lemma_after_last_slash_at(s: Seq<char>, i: int)
    requires
        0 <= i < s.len(),
        s[i] == '/',
        forall|j: int| i < j < s.len() ==> s[j] != '/',
    ensures
        after_last_slash(s) == s.skip(i + 1),
    decreases i,
{
    assert(s.subrange(i, i + 1) =~= seq!['/']);
    assert(contains_spec(s, seq!['/']));
    let t = s.drop_first();
    if i == 0 {
        assert forall|j: int| 0 <= j < t.len() implies t[j] != '/' by {
            assert(t[j] == s[j + 1]);
        }
        lemma_after_last_slash_none(t);
        assert(t =~= s.skip(1));
    } else {
        assert(t[i - 1] == s[i]);
        assert forall|j: int| i - 1 < j < t.len() implies t[j] != '/' by {
            assert(t[j] == s[j + 1]);
        }
        lemma_after_last_slash_at(t, i - 1);
        assert(t.skip(i) =~= s.skip(i + 1));
    }
}

/// Whether the command's program, by its final path component, is the
/// catalog tool.
pub fn is_calibredb(cmd0: &str) -> (r: bool)
    ensures
        r == (after_last_slash(cmd0@) == "calibredb"@),
{
    let n = cmd0.unicode_len();
    let mut j: usize = n;
    while j > 0 && cmd0.get_char(j - 1) != '/'
        invariant
            j <= n,
            n == cmd0@.len(),
            forall|k: int| j <= k < n ==> cmd0@[k] != '/',
        decreases j,
    {
        j -= 1;
    }
    proof {
        if j == 0 {
            lemma_after_last_slash_none(cmd0@);
            assert(cmd0@.skip(0) =~= cmd0@);
        } else {
            lemma_after_last_slash_at(cmd0@, j - 1);
        }
    }
    let base = cmd0.substring_char(j, n);
    proof {
        assert(cmd0@.subrange(j as int, n as int) =~= cmd0@.skip(j as int));
    }
    str_eq(base, "calibredb")
}

// ---------------------------------------------------------------------------
// The environment strategies.
// ---------------------------------------------------------------------------

/// The ordered locale variants the `Override` strategy walks through.
pub open spec fn calibre_env_variant_spec(idx: int) -> Seq<(Seq<char>, Seq<char>)> {
    if idx == 0 {
        seq![
            ("LC_ALL"@, "en_US.utf8"@),
            ("LANG"@, "en_US.utf8"@),
            ("LANGUAGE"@, "en_US:en"@),
            ("CALIBRE_OVERRIDE_LANG"@, "en"@),
        ]
    } else if idx == 1 {
        seq![
            ("LC_ALL"@, "C.utf8"@),
            ("LANG"@, "C.utf8"@),
            ("LANGUAGE"@, "en"@),
            ("CALIBRE_OVERRIDE_LANG"@, "en"@),
        ]
    } else {
        seq![
            ("LC_ALL"@, "C"@),
            ("LANG"@, "C"@),
            ("LANGUAGE"@, "en"@),
            ("CALIBRE_OVERRIDE_LANG"@, "en"@),
        ]
    }
}

fn env_pair(k: &str, v: &str) -> (r: (String, String))
    ensures
        r.0@ == k@,
        r.1@ == v@,
{
    (k.to_owned(), v.to_owned())
}

/// The locale variant at the given position.
pub fn calibre_env_variant(idx: usize) -> (r: Vec<(String, String)>)
    requires
        idx < 3,
    ensures
        r.deep_view() == calibre_env_variant_spec(idx as int),
{
    let mut v: Vec<(String, String)> = Vec::new();
    if idx == 0 {
        v.push(env_pair("LC_ALL", "en_US.utf8"));
        v.push(env_pair("LANG", "en_US.utf8"));
        v.push(env_pair("LANGUAGE", "en_US:en"));
        v.push(env_pair("CALIBRE_OVERRIDE_LANG", "en"));
    } else if idx == 1 {
        v.push(env_pair("LC_ALL", "C.utf8"));
        v.push(env_pair("LANG", "C.utf8"));
        v.push(env_pair("LANGUAGE", "en"));
        v.push(env_pair("CALIBRE_OVERRIDE_LANG", "en"));
    } else {
        v.push(env_pair("LC_ALL", "C"));
        v.push(env_pair("LANG", "C"));
        v.push(env_pair("LANGUAGE", "en"));
        v.push(env_pair("CALIBRE_OVERRIDE_LANG", "en"));
    }
    proof {
        assert(v.deep_view() =~= calibre_env_variant_spec(idx as int));
    }
    v
}

/// The fetch-tool invocation wrapped for a virtual display: the wrapper
/// program, its automatic-display flag, then the command as given.
pub fn xvfb_wrapped_cmd(cmd: &Vec<String>) -> (r: Vec<String>)
    ensures
        r.deep_view() == seq!["xvfb-run"@, "-a"@] + cmd.deep_view(),
{
    let ghost deep = cmd.deep_view();
    let mut r: Vec<String> = Vec::new();
    r.push("xvfb-run".to_owned());
    r.push("-a".to_owned());
    proof {
        assert(r.deep_view() =~= seq!["xvfb-run"@, "-a"@]);
    }
    let ghost head = r.deep_view();
    let mut i: usize = 0;
    while i < cmd.len()
        invariant
            i <= cmd@.len(),
            deep == cmd.deep_view(),
            deep.len() == cmd@.len(),
            head == seq!["xvfb-run"@, "-a"@],
            r.deep_view() =~= head + deep.subrange(0, i as int),
        decreases cmd@.len() - i,
    {
        proof {
            assert(deep[i as int] == cmd@[i as int]@);
        }
        let ghost before = r.deep_view();
        r.push(cmd[i].clone());
        proof {
            assert(r.deep_view() =~= before.push(deep[i as int]));
            assert(deep.subrange(0, i + 1) =~= deep.subrange(0, i as int).push(deep[i as int]));
        }
        i += 1;
    }
    proof {
        assert(deep.subrange(0, deep.len() as int) =~= deep);
    }
    r
}

/// What to do after one attempt of the catalog tool.
pub enum RetryDecision {
    /// Hand the last result back; no further attempt is made.
    Accept,
    /// Run once more, with this child environment.
    RetryWith(Vec<(String, String)>),
}

impl Runner {
    /// The child environment of the first attempt: the ambient environment
    /// with the caller's overrides, then the headless defaults for the
    /// fetch tool, then — for the catalog tool under the `Clean` strategy —
    /// the denylisted keys stripped.
    pub open spec fn first_env_spec(
        self,
        cmd0: Seq<char>,
        ambient: Seq<(Seq<char>, Seq<char>)>,
        extra: Seq<(Seq<char>, Seq<char>)>,
    ) -> Seq<(Seq<char>, Seq<char>)> {
        let base = env_overridden(ambient, extra);
        let with_headless = if cmd0 == "fetch-ebook-metadata"@ && self.headless_fetch {
            env_defaulted(base, self.headless_env.deep_view())
        } else {
            base
        };
        if after_last_slash(cmd0) == "calibredb"@ && self.calibredb_env_mode
            == CalibreEnvMode::Clean {
            cleaned_env(with_headless)
        } else {
            with_headless
        }
    }

    /// Builds the first attempt's child environment; an empty command is a
    /// caller fault.
    pub fn first_env(
        &self,
        cmd: &Vec<String>,
        ambient: &Vec<(String, String)>,
        extra_env: &Vec<(String, String)>,
    ) -> (r: Result<Vec<(String, String)>, String>)
        ensures
            match r {
                Ok(env) => cmd@.len() > 0 && env.deep_view() == self.first_env_spec(
                    cmd@[0]@,
                    ambient.deep_view(),
                    extra_env.deep_view(),
                ),
                Err(e) => cmd@.len() == 0 && e@ == "empty command"@,
            },
    {
        if cmd.len() == 0 {
            return Err("empty command".to_owned());
        }
        let base = apply_env_overrides(ambient, extra_env);
        let with_headless = if str_eq(cmd[0].as_str(), "fetch-ebook-metadata")
            && self.headless_fetch {
            apply_env_defaults(&base, &self.headless_env)
        } else {
            base
        };
        let mode_is_clean = match self.calibredb_env_mode {
            CalibreEnvMode::Clean => true,
            _ => false,
        };
        if is_calibredb(cmd[0].as_str()) && mode_is_clean {
            Ok(clean_env(&with_headless))
        } else {
            Ok(with_headless)
        }
    }

    /// Decides what follows one completed attempt.  Only the catalog tool
    /// is ever retried: the `Inherit` strategy retries once with a cleaned
    /// environment when the configured stderr signature appears, and the
    /// `Override` strategy walks the locale variants in order; once they
    /// are exhausted the last result is handed back as it stands.
    pub fn next_attempt(
        &self,
        cmd_is_calibredb: bool,
        attempt: usize,
        base_env: &Vec<(String, String)>,
        last: &CmdResult,
    ) -> (r: RetryDecision)
        ensures
            !cmd_is_calibredb ==> r is Accept,
            last.status_code == 0 ==> r is Accept,
            self.calibredb_env_mode == CalibreEnvMode::Clean ==> r is Accept,
            (cmd_is_calibredb && last.status_code != 0 && self.calibredb_env_mode
                == CalibreEnvMode::Inherit) ==> if attempt == 0 && contains_spec(
                last.stderr@,
                self.clean_retry_signature@,
            ) {
                r matches RetryDecision::RetryWith(e) && e.deep_view() == cleaned_env(
                    base_env.deep_view(),
                )
            } else {
                r is Accept
            },
            (cmd_is_calibredb && last.status_code != 0 && self.calibredb_env_mode
                == CalibreEnvMode::Override) ==> if attempt < 3 {
                r matches RetryDecision::RetryWith(e) && e.deep_view() == env_overridden(
                    base_env.deep_view(),
                    calibre_env_variant_spec(attempt as int),
                )
            } else {
                r is Accept
            },
    {
        if !cmd_is_calibredb || last.status_code == 0 {
            return RetryDecision::Accept;
        }
        match self.calibredb_env_mode {
            CalibreEnvMode::Clean => RetryDecision::Accept,
            CalibreEnvMode::Inherit => {
                if attempt == 0 && str_contains(
                    last.stderr.as_str(),
                    self.clean_retry_signature.as_str(),
                ) {
                    RetryDecision::RetryWith(clean_env(base_env))
                } else {
                    RetryDecision::Accept
                }
            },
            CalibreEnvMode::Override => {
                if attempt < 3 {
                    let variant = calibre_env_variant(attempt);
                    RetryDecision::RetryWith(apply_env_overrides(base_env, &variant))
                } else {
                    RetryDecision::Accept
                }
            },
        }
    }
}

} // verus!
