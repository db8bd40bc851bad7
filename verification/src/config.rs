//! The resolved run configuration: scoring weights, policy switches,
//! environment strategy, and the command-line override merge.  Reading the
//! configuration file and parsing arguments happen outside the library;
//! the values arrive here as plain data.

use vstd::prelude::*;
use vstd::string::StringExecFns;
use vstd::string::StrSliceExecFns;
use crate::strutil::{trim_of, trim_str, trim_trailing, trim_end_char, starts_with_spec, str_starts_with};

verus! {

/// How the catalog tool's child environment is prepared.
#[derive(Clone, Copy, Debug, PartialEq, Eq, Structural)]
pub enum CalibreEnvMode {
    Inherit,
    Clean,
    Override,
}

pub struct LoggingConfig {
    pub level: String,
}

pub struct LibraryConfig {
    pub path: Option<String>,
    pub url: Option<String>,
}

pub struct StateConfig {
    pub path: Option<String>,
}

pub struct FormatsConfig {
    pub list: Vec<String>,
}

pub struct CalibredbConfig {
    pub env_mode: CalibreEnvMode,
    pub debug_env: bool,
}

pub struct ContentServerConfig {
    pub username: Option<String>,
    pub password: Option<String>,
}

pub struct FetchConfig {
    pub headless: bool,
    pub headless_env: Vec<(String, String)>,
    pub timeout_seconds: u64,
    pub heartbeat_seconds: u64,
    pub use_xvfb: bool,
}

pub struct PolicyConfig {
    pub dry_run: bool,
    pub reprocess_on_metadata_change: bool,
    pub include_missing_language: bool,
    pub english_codes: Vec<String>,
    pub delay_between_fetches_ms: u64,
}

/// The weights of the completeness score and its acceptance threshold.
pub struct ScoringConfig {
    pub min_score_to_skip_fetch: i32,
    pub require_title: bool,
    pub require_authors: bool,
    pub title_weight: i32,
    pub authors_weight: i32,
    pub publisher_weight: i32,
    pub pubdate_weight: i32,
    pub isbn_weight: i32,
    pub identifiers_weight: i32,
    pub tags_weight: i32,
    pub comments_weight: i32,
    pub cover_weight: i32,
}

pub struct Config {
    pub logging: LoggingConfig,
    pub library: LibraryConfig,
    pub state: StateConfig,
    pub formats: FormatsConfig,
    pub calibredb: CalibredbConfig,
    pub content_server: ContentServerConfig,
    pub fetch: FetchConfig,
    pub policy: PolicyConfig,
    pub scoring: ScoringConfig,
}

/// Command-line arguments after parsing, as plain values.
pub struct Args {
    pub config: String,
    pub library: Option<String>,
    pub library_url: Option<String>,
    pub calibre_username: Option<String>,
    pub calibre_password: Option<String>,
    pub dry_run: bool,
    pub command: Option<Command>,
}

pub enum Command {
    Dups(crate::dups::DupsArgs),
}

// ---------------------------------------------------------------------------
// Defaults.
// ---------------------------------------------------------------------------

impl Default for LoggingConfig {
    fn default() -> (r: Self)
        ensures
            r.level@ == "info"@,
    {
        LoggingConfig { level: String::from_str("info") }
    }
}

impl Default for LibraryConfig {
    fn default() -> (r: Self)
        ensures
            r.path is None,
            r.url is None,
    {
        LibraryConfig { path: None, url: None }
    }
}

impl Default for StateConfig {
    fn default() -> (r: Self)
        ensures
            r.path is None,
    {
        StateConfig { path: None }
    }
}

impl Default for FormatsConfig {
    fn default() -> (r: Self)
        ensures
            r.list.deep_view() =~= seq!["epub"@, "pdf"@],
    {
        let mut list: Vec<String> = Vec::new();
        list.push(String::from_str("epub"));
        list.push(String::from_str("pdf"));
        proof {
            assert(list.deep_view() =~= seq!["epub"@, "pdf"@]);
        }
        FormatsConfig { list }
    }
}

impl Default for CalibredbConfig {
    fn default() -> (r: Self)
        ensures
            r.env_mode == CalibreEnvMode::Inherit,
            !r.debug_env,
    {
        CalibredbConfig { env_mode: CalibreEnvMode::Inherit, debug_env: false }
    }
}

impl Default for ContentServerConfig {
    fn default() -> (r: Self)
        ensures
            r.username is None,
            r.password is None,
    {
        ContentServerConfig { username: None, password: None }
    }
}

/// The fixed headless-rendering environment handed to the fetch tool when
/// no caller-set value is present.
pub open spec fn default_headless_env() -> Seq<(Seq<char>, Seq<char>)> {
    seq![
        ("QT_QPA_PLATFORM"@, "xcb"@),
        ("QTWEBENGINE_DISABLE_SANDBOX"@, "1"@),
        ("QTWEBENGINE_CHROMIUM_FLAGS"@, "--no-sandbox"@),
        ("QT_OPENGL"@, "software"@),
        ("LIBGL_ALWAYS_SOFTWARE"@, "1"@),
    ]
}

fn pair_of(k: &str, v: &str) -> (r: (String, String))
    ensures
        r.0@ == k@,
        r.1@ == v@,
{
    (String::from_str(k), String::from_str(v))
}

impl Default for FetchConfig {
    fn default() -> (r: Self)
        ensures
            r.headless,
            r.headless_env.deep_view() =~= default_headless_env(),
            r.timeout_seconds == 45,
            r.heartbeat_seconds == 10,
            !r.use_xvfb,
    {
        let mut env: Vec<(String, String)> = Vec::new();
        env.push(pair_of("QT_QPA_PLATFORM", "xcb"));
        env.push(pair_of("QTWEBENGINE_DISABLE_SANDBOX", "1"));
        env.push(pair_of("QTWEBENGINE_CHROMIUM_FLAGS", "--no-sandbox"));
        env.push(pair_of("QT_OPENGL", "software"));
        env.push(pair_of("LIBGL_ALWAYS_SOFTWARE", "1"));
        proof {
            assert(env.deep_view() =~= default_headless_env());
        }
        FetchConfig {
            headless: true,
            headless_env: env,
            timeout_seconds: 45,
            heartbeat_seconds: 10,
            use_xvfb: false,
        }
    }
}

/// The default language codes counted as English.
pub open spec fn default_english_codes() -> Seq<Seq<char>> {
    seq!["en"@, "eng"@, "en-us"@, "en-gb"@]
}

impl Default for PolicyConfig {
    fn default() -> (r: Self)
        ensures
            !r.dry_run,
            !r.reprocess_on_metadata_change,
            r.include_missing_language,
            r.english_codes.deep_view() =~= default_english_codes(),
            r.delay_between_fetches_ms == 350,
    {
        let mut codes: Vec<String> = Vec::new();
        codes.push(String::from_str("en"));
        codes.push(String::from_str("eng"));
        codes.push(String::from_str("en-us"));
        codes.push(String::from_str("en-gb"));
        proof {
            assert(codes.deep_view() =~= default_english_codes());
        }
        PolicyConfig {
            dry_run: false,
            reprocess_on_metadata_change: false,
            include_missing_language: true,
            english_codes: codes,
            delay_between_fetches_ms: 350,
        }
    }
}

impl Default for ScoringConfig {
    fn default() -> (r: Self)
        ensures
            r.min_score_to_skip_fetch == 6,
            r.require_title,
            r.require_authors,
            r.title_weight == 1,
            r.authors_weight == 1,
            r.publisher_weight == 1,
            r.pubdate_weight == 1,
            r.isbn_weight == 2,
            r.identifiers_weight == 2,
            r.tags_weight == 1,
            r.comments_weight == 1,
            r.cover_weight == 1,
    {
        ScoringConfig {
            min_score_to_skip_fetch: 6,
            require_title: true,
            require_authors: true,
            title_weight: 1,
            authors_weight: 1,
            publisher_weight: 1,
            pubdate_weight: 1,
            isbn_weight: 2,
            identifiers_weight: 2,
            tags_weight: 1,
            comments_weight: 1,
            cover_weight: 1,
        }
    }
}

impl Default for Config {
    fn default() -> (r: Self)
        ensures
            r.logging.level@ == "info"@,
            r.library.path is None,
            r.library.url is None,
            r.state.path is None,
            r.formats.list.deep_view() == seq!["epub"@, "pdf"@],
            r.calibredb.env_mode == CalibreEnvMode::Inherit,
            !r.calibredb.debug_env,
            r.content_server.username is None,
            r.content_server.password is None,
            r.fetch.headless,
            r.fetch.headless_env.deep_view() == default_headless_env(),
            r.fetch.timeout_seconds == 45,
            r.fetch.heartbeat_seconds == 10,
            !r.fetch.use_xvfb,
            !r.policy.dry_run,
            !r.policy.reprocess_on_metadata_change,
            r.policy.include_missing_language,
            r.policy.english_codes.deep_view() == default_english_codes(),
            r.policy.delay_between_fetches_ms == 350,
            r.scoring.min_score_to_skip_fetch == 6,
            r.scoring.require_title,
            r.scoring.require_authors,
            r.scoring.title_weight == 1,
            r.scoring.authors_weight == 1,
            r.scoring.publisher_weight == 1,
            r.scoring.pubdate_weight == 1,
            r.scoring.isbn_weight == 2,
            r.scoring.identifiers_weight == 2,
            r.scoring.tags_weight == 1,
            r.scoring.comments_weight == 1,
            r.scoring.cover_weight == 1,
    {
        Config {
            logging: LoggingConfig::default(),
            library: LibraryConfig::default(),
            state: StateConfig::default(),
            formats: FormatsConfig::default(),
            calibredb: CalibredbConfig::default(),
            content_server: ContentServerConfig::default(),
            fetch: FetchConfig::default(),
            policy: PolicyConfig::default(),
            scoring: ScoringConfig::default(),
        }
    }
}

// ---------------------------------------------------------------------------
// Normalization of configured values.
// ---------------------------------------------------------------------------

/// The normalized catalog location text.
pub open spec fn normalized_library_spec(s: Seq<char>) -> Seq<char> {
    let t = trim_of(s);
    if starts_with_spec(t, "http://"@) || starts_with_spec(t, "https://"@) {
        trim_trailing(t, '/')
    } else {
        t
    }
}

/// Trims the catalog location; a remote URL also loses its trailing
/// slashes.
pub fn normalize_library_spec(spec: &str) -> (r: String)
    ensures
        r@ == normalized_library_spec(spec@),
{
    let trimmed = trim_str(spec);
    if str_starts_with(trimmed.as_str(), "http://") || str_starts_with(
        trimmed.as_str(),
        "https://",
    ) {
        trim_end_char(trimmed.as_str(), '/')
    } else {
        trimmed
    }
}

/// Turns a present-but-blank optional string into an absent one.
pub fn normalize_optional_string(value: Option<String>) -> (r: Option<String>)
    ensures
        match value {
            Some(s) => if trim_of(s@).len() == 0 {
                r is None
            } else {
                r == Some(s)
            },
            None => r is None,
        },
{
    match value {
        Some(s) => {
            let t = trim_str(s.as_str());
            if t.as_str().unicode_len() == 0 {
                None
            } else {
                Some(s)
            }
        },
        None => None,
    }
}

} // verus!
