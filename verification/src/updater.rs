//! Self-update: which release archive fits this machine, whether a release
//! is newer than the running binary, the release URLs, and what the cached
//! or fetched release information says.
use flate2::read::GzDecoder;
use std::io::{self, Read};
use std::mem::take;
use std::path::PathBuf;
use vstd::prelude::*;

use crate::frontmatter::{find_char, index_of};
use crate::roadmap::{path_join, path_joined};
use crate::text::{chars_of, parse_u32, parse_u32_span, push_span, push_str, string_of};

verus! {

pub const DEFAULT_GITHUB_API_BASE: &'static str = "https://api.github.com";

pub const DEFAULT_DOWNLOAD_BASE: &'static str = "https://github.com";

pub const REPO: &'static str = "frantufro/cubil";

pub const BIN_NAME: &'static str = "cubil";

/// How long a cached "latest release" answer stays valid: one day.
pub const CACHE_TTL_SECS: u64 = 24 * 60 * 60;

/// The version of this build.
pub const VERSION: &'static str = "0.1.4";

/// The cached answer of the last release check.
#[derive(Debug, Clone)]
pub struct CacheEntry {
    /// Seconds since the Unix epoch when the check ran.
    pub checked_at: u64,
    pub latest: String,
}

/// The target triple of the release archive to download.
#[derive(Debug)]
pub struct Target {
    pub triple: String,
}

/// Why no release archive fits this machine.
#[derive(Debug)]
pub enum TargetError {
    UnsupportedOs(String),
    UnsupportedArch(String),
    MacosX86,
}

impl TargetError {
    /// The text shown to the user for this error.
    pub fn message(&self) -> (r: String)
        ensures
            match self {
                TargetError::UnsupportedOs(s) => r@ == "Unsupported OS: "@ + s@,
                TargetError::UnsupportedArch(s) => r@ == "Unsupported architecture: "@ + s@,
                TargetError::MacosX86 => r@
                    == "x86_64 macOS is not supported. Use an Apple Silicon Mac or build from source."@,
            },
    {
        let mut out: Vec<char> = Vec::new();
        match self {
            TargetError::UnsupportedOs(s) => {
                push_str(&mut out, "Unsupported OS: ");
                push_str(&mut out, s.as_str());
            },
            TargetError::UnsupportedArch(s) => {
                push_str(&mut out, "Unsupported architecture: ");
                push_str(&mut out, s.as_str());
            },
            TargetError::MacosX86 => {
                push_str(
                    &mut out,
                    "x86_64 macOS is not supported. Use an Apple Silicon Mac or build from source.",
                );
            },
        }
        string_of(&out)
    }
}

// ---------------------------------------------------------------------------
// Targets
// ---------------------------------------------------------------------------

/// The vendor and OS part of the triple for an OS name.
pub open spec fn os_part(os: Seq<char>) -> Option<Seq<char>> {
    if os == "linux"@ {
        Some("unknown-linux-gnu"@)
    } else if os == "macos"@ {
        Some("apple-darwin"@)
    } else {
        None
    }
}

/// The architecture part of the triple for an architecture name.
pub open spec fn arch_part(arch: Seq<char>) -> Option<Seq<char>> {
    if arch == "x86_64"@ {
        Some("x86_64"@)
    } else if arch == "aarch64"@ || arch == "arm64"@ {
        Some("aarch64"@)
    } else {
        None
    }
}

/// What `target_from_parts(arch, os)` returns: the OS is checked first, then
/// x86_64 macOS is refused, then the architecture is checked.
pub open spec fn target_outcome(r: Result<Target, TargetError>, arch: Seq<char>, os: Seq<char>) -> bool {
    match os_part(os) {
        None => r matches Err(TargetError::UnsupportedOs(s)) && s@ == os,
        Some(o) => if arch == "x86_64"@ && os == "macos"@ {
            r matches Err(TargetError::MacosX86)
        } else {
            match arch_part(arch) {
                Some(a) => r matches Ok(t) && t.triple@ == a + "-"@ + o,
                None => r matches Err(TargetError::UnsupportedArch(s)) && s@ == arch,
            }
        },
    }
}

/// The release target for an architecture and OS name (as in
/// `std::env::consts`).
pub fn target_from_parts(arch: &str, os: &str) -> (r: Result<Target, TargetError>)
    ensures
        target_outcome(r, arch@, os@),
{
    let os_name = if os.to_owned() == "linux".to_owned() {
        "unknown-linux-gnu"
    } else if os.to_owned() == "macos".to_owned() {
        "apple-darwin"
    } else {
        return Err(TargetError::UnsupportedOs(os.to_owned()));
    };
    let is_x86 = arch.to_owned() == "x86_64".to_owned();
    if is_x86 && os.to_owned() == "macos".to_owned() {
        return Err(TargetError::MacosX86);
    }
    let arch_name = if is_x86 {
        "x86_64"
    } else if arch.to_owned() == "aarch64".to_owned() || arch.to_owned() == "arm64".to_owned() {
        "aarch64"
    } else {
        return Err(TargetError::UnsupportedArch(arch.to_owned()));
    };
    let mut out: Vec<char> = Vec::new();
    push_str(&mut out, arch_name);
    push_str(&mut out, "-");
    push_str(&mut out, os_name);
    Ok(Target { triple: string_of(&out) })
}

/// The target named by an override: `<arch>:<os>` (split at the first `:`)
/// goes through [`target_from_parts`]; any other text is taken as the
/// triple itself.
pub fn target_from_override(s: &str) -> (r: Result<Target, TargetError>)
    ensures
        match index_of(s@, ':') {
            Some(k) => target_outcome(r, s@.take(k as int), s@.skip(k + 1int)),
            None => r matches Ok(t) && t.triple@ == s@,
        },
{
    let v = chars_of(s);
    let n = v.len();
    proof {
        assert(v@.subrange(0, n as int) =~= s@);
    }
    match find_char(&v, 0, n, ':') {
        Some(k) => {
            let mut arch: Vec<char> = Vec::new();
            push_span(&mut arch, &v, 0, k);
            let mut os: Vec<char> = Vec::new();
            push_span(&mut os, &v, k + 1, n);
            let arch = string_of(&arch);
            let os = string_of(&os);
            proof {
                assert(arch@ =~= s@.take(k as int));
                assert(os@ =~= s@.skip(k + 1int));
            }
            target_from_parts(arch.as_str(), os.as_str())
        },
        None => Ok(Target { triple: s.to_owned() }),
    }
}

/// The release target: the override, when one is set, else the running
/// machine's architecture and OS.
pub fn detect_target_from(override_value: Option<&str>, arch: &str, os: &str) -> (r: Result<Target, TargetError>)
    ensures
        override_value is None ==> target_outcome(r, arch@, os@),
        override_value matches Some(s) ==> match index_of(s@, ':') {
            Some(k) => target_outcome(r, s@.take(k as int), s@.skip(k + 1int)),
            None => r matches Ok(t) && t.triple@ == s@,
        },
{
    match override_value {
        Some(s) => target_from_override(s),
        None => target_from_parts(arch, os),
    }
}

// ---------------------------------------------------------------------------
// Versions
// ---------------------------------------------------------------------------

/// The version of this build.
pub fn current_version() -> (r: &'static str)
    ensures
        r@ == VERSION@,
{
    VERSION
}

/// `s` without a leading `v`.
pub open spec fn without_v(s: Seq<char>) -> Seq<char> {
    if s.len() > 0 && s[0] == 'v' {
        s.drop_first()
    } else {
        s
    }
}

/// What comes before the first `c` in `s` (all of `s` if there is none).
pub open spec fn before_char(s: Seq<char>, c: char) -> Seq<char> {
    match index_of(s, c) {
        Some(k) => s.take(k as int),
        None => s,
    }
}

/// What comes after the first `c` in `s`, if there is one.
pub open spec fn after_char(s: Seq<char>, c: char) -> Option<Seq<char>> {
    match index_of(s, c) {
        Some(k) => Some(s.skip(k + 1int)),
        None => None,
    }
}

/// The `(major, minor, patch)` of a version text: a leading `v` is dropped,
/// as is everything from the first `-`; the first three `.`-separated fields
/// must each parse as a `u32`.
pub open spec fn version_of(s: Seq<char>) -> Option<(u32, u32, u32)> {
    let core = before_char(without_v(s), '-');
    match after_char(core, '.') {
        None => None,
        Some(r1) => match after_char(r1, '.') {
            None => None,
            Some(r2) => match (
                parse_u32(before_char(core, '.')),
                parse_u32(before_char(r1, '.')),
                parse_u32(before_char(r2, '.')),
            ) {
                (Some(a), Some(b), Some(c)) => Some((a, b, c)),
                _ => None,
            },
        },
    }
}

proof fn lemma_index_of_bound(s: Seq<char>, c: char)
    ensures
        index_of(s, c) matches Some(k) ==> k < s.len(),
    decreases s.len(),
{
    if s.len() > 0 && s[0] != c {
        lemma_index_of_bound(s.drop_first(), c);
    }
}

/// Splits `v[lo..hi]` at its first `c`: where the part before it ends, and
/// where the part after it starts, if there is a `c`.
fn split_first(v: &Vec<char>, lo: usize, hi: usize, c: char) -> (r: (usize, Option<usize>))
    requires
        lo <= hi <= v@.len(),
    ensures
        lo <= r.0 <= hi,
        v@.subrange(lo as int, r.0 as int) == before_char(v@.subrange(lo as int, hi as int), c),
        match after_char(v@.subrange(lo as int, hi as int), c) {
            Some(t) => r.1 matches Some(j) && j <= hi && v@.subrange(j as int, hi as int) == t,
            None => r.1 is None,
        },
{
    let ghost s = v@.subrange(lo as int, hi as int);
    proof {
        lemma_index_of_bound(s, c);
    }
    match find_char(v, lo, hi, c) {
        Some(i) => {
            assert(v@.subrange(lo as int, i as int) =~= s.take(i - lo));
            assert(v@.subrange(i + 1, hi as int) =~= s.skip(i - lo + 1));
            (i, Some(i + 1))
        },
        None => (hi, None),
    }
}

/// Parses `"v1.2.3-rc.1"` style version text into its numbers.
pub fn parse_version(s: &str) -> (r: Option<(u32, u32, u32)>)
    ensures
        r == version_of(s@),
{
    let v = chars_of(s);
    let n = v.len();
    let a: usize = if n > 0 && v[0] == 'v' {
        1
    } else {
        0
    };
    proof {
        assert(v@.subrange(a as int, n as int) =~= without_v(s@));
    }
    let (e, _) = split_first(&v, a, n, '-');
    let (f0, rest1) = split_first(&v, a, e, '.');
    let j1 = match rest1 {
        Some(j) => j,
        None => {
            return None;
        },
    };
    let (f1, rest2) = split_first(&v, j1, e, '.');
    let j2 = match rest2 {
        Some(j) => j,
        None => {
            return None;
        },
    };
    let (f2, _) = split_first(&v, j2, e, '.');
    let major = parse_u32_span(&v, a, f0);
    let minor = parse_u32_span(&v, j1, f1);
    let patch = parse_u32_span(&v, j2, f2);
    match (major, minor, patch) {
        (Some(x), Some(y), Some(z)) => Some((x, y, z)),
        _ => None,
    }
}

/// Version `a` is lower than version `b`, field by field.
pub open spec fn version_lt(a: (u32, u32, u32), b: (u32, u32, u32)) -> bool {
    a.0 < b.0 || (a.0 == b.0 && (a.1 < b.1 || (a.1 == b.1 && a.2 < b.2)))
}

/// Release `latest` is newer than `current`; text that is not a version is
/// never newer, nor older.
pub open spec fn newer(latest: Seq<char>, current: Seq<char>) -> bool {
    match (version_of(latest), version_of(current)) {
        (Some(l), Some(c)) => version_lt(c, l),
        _ => false,
    }
}

/// Whether release `latest` is newer than `current`.
pub fn is_newer(latest: &str, current: &str) -> (r: bool)
    ensures
        r == newer(latest@, current@),
{
    match (parse_version(latest), parse_version(current)) {
        (Some(l), Some(c)) => l.0 > c.0 || (l.0 == c.0 && (l.1 > c.1 || (l.1 == c.1 && l.2 > c.2))),
        _ => false,
    }
}

/// No version is newer than itself.
pub proof fn lemma_newer_irreflexive(v: Seq<char>)
    ensures
        !newer(v, v),
{
}

/// Of two versions, at most one is newer than the other.
pub proof fn lemma_newer_asymmetric(a: Seq<char>, b: Seq<char>)
    requires
        newer(a, b),
    ensures
        !newer(b, a),
{
}

/// A version newer than one that is newer than a third is newer than the
/// third.
pub proof fn lemma_newer_transitive(a: Seq<char>, b: Seq<char>, c: Seq<char>)
    requires
        newer(a, b),
        newer(b, c),
    ensures
        newer(a, c),
{
}

// ---------------------------------------------------------------------------
// The cached answer
// ---------------------------------------------------------------------------

/// A cache entry written at `checked_at` is still fresh at `now`.
pub open spec fn fresh_at(checked_at: u64, now: u64) -> bool {
    (if now >= checked_at {
        now - checked_at
    } else {
        0
    }) < CACHE_TTL_SECS
}

/// What `PathBuf::from` makes of `text`: the path with that text. It
/// depends on the text alone.
pub uninterp spec fn path_of(text: Seq<char>) -> PathBuf;

/// `PathBuf::from` on a `String`; its result is named [`path_of`].
#[verifier::external_body]
fn path_from(text: String) -> (r: PathBuf)
    ensures
        r == path_of(text@),
{
    PathBuf::from(text)
}

/// Where the cache file lives, given the values of `CUBIL_CACHE_DIR`,
/// `XDG_CACHE_HOME` and `HOME` (each `None` when unset or not Unicode):
/// `$CUBIL_CACHE_DIR/latest.json`, else `$XDG_CACHE_HOME/cubil/latest.json`,
/// else `$HOME/.cache/cubil/latest.json`; nowhere without any of them.
pub fn cache_path_from(cache_dir: Option<String>, xdg: Option<String>, home: Option<String>) -> (r: Option<PathBuf>)
    ensures
        match (cache_dir, xdg, home) {
            (Some(d), _, _) => r == Some(path_joined(path_of(d@), "latest.json"@)),
            (None, Some(x), _) => r == Some(
                path_joined(path_joined(path_of(x@), "cubil"@), "latest.json"@),
            ),
            (None, None, Some(h)) => r == Some(
                path_joined(
                    path_joined(path_joined(path_of(h@), ".cache"@), "cubil"@),
                    "latest.json"@,
                ),
            ),
            (None, None, None) => r is None,
        },
{
    let base = match (cache_dir, xdg, home) {
        (Some(d), _, _) => {
            return Some(path_join(&path_from(d), "latest.json"));
        },
        (None, Some(x), _) => path_from(x),
        (None, None, Some(h)) => path_join(&path_from(h), ".cache"),
        (None, None, None) => {
            return None;
        },
    };
    Some(path_join(&path_join(&base, "cubil"), "latest.json"))
}

/// Whether `entry` is still fresh at time `now` (seconds since the epoch).
pub fn cache_is_fresh_at(entry: &CacheEntry, now: u64) -> (r: bool)
    ensures
        r == fresh_at(entry.checked_at, now),
{
    now.saturating_sub(entry.checked_at) < CACHE_TTL_SECS
}

/// Seconds since the Unix epoch by the system clock (`SystemTime::now`),
/// or 0 when the clock is set before the epoch. It depends on the clock,
/// so nothing is stated of it.
#[verifier::external_body]
fn now_secs() -> (r: u64) {
    std::time::SystemTime::now().duration_since(std::time::UNIX_EPOCH).map(|d| d.as_secs()).unwrap_or(0)
}

/// Whether `entry` is still fresh now.
pub fn cache_is_fresh(entry: &CacheEntry) -> (r: bool)
    ensures
        exists|now: u64| r == fresh_at(entry.checked_at, now),
{
    let now = now_secs();
    cache_is_fresh_at(entry, now)
}

/// The cache entry recording that `latest` was the latest release, checked
/// now.
pub fn cache_entry_now(latest: &str) -> (r: CacheEntry)
    ensures
        r.latest@ == latest@,
{
    CacheEntry { checked_at: now_secs(), latest: latest.to_owned() }
}

/// The warning printed when the running binary is older than the latest
/// release.
pub open spec fn stale_text(current: Seq<char>, latest: Seq<char>) -> Seq<char> {
    "warning: cubil "@ + current + " is out of date (latest: "@ + latest
        + "). Run `cubil update` to upgrade."@
}

/// The warning to print, if release `latest` is newer than `current`.
pub fn stale_message(latest: &str, current: &str) -> (r: Option<String>)
    ensures
        newer(latest@, current@) ==> (r matches Some(w) && w@ == stale_text(current@, latest@)),
        !newer(latest@, current@) ==> r is None,
{
    if !is_newer(latest, current) {
        return None;
    }
    let mut out: Vec<char> = Vec::new();
    push_str(&mut out, "warning: cubil ");
    push_str(&mut out, current);
    push_str(&mut out, " is out of date (latest: ");
    push_str(&mut out, latest);
    push_str(&mut out, "). Run `cubil update` to upgrade.");
    Some(string_of(&out))
}

// ---------------------------------------------------------------------------
// The stale-version check
// ---------------------------------------------------------------------------

/// What the stale-version check does next.
#[derive(Debug)]
pub enum StaleStep {
    /// Checking is switched off: print nothing.
    Skip,
    /// Compare this latest version, from a fresh cache entry, with ours.
    Compare(String),
    /// Ask the release API for the latest version.
    Fetch,
}

/// The first step of the check at time `now`: nothing when it is switched
/// off, the cached version when the cache entry is still fresh, else a
/// fetch.
pub fn stale_step(disabled: bool, cached: Option<CacheEntry>, now: u64) -> (r: StaleStep)
    ensures
        disabled ==> r is Skip,
        !disabled ==> match cached {
            Some(e) => if fresh_at(e.checked_at, now) {
                r matches StaleStep::Compare(v) && v == e.latest
            } else {
                r is Fetch
            },
            None => r is Fetch,
        },
{
    if disabled {
        return StaleStep::Skip;
    }
    match cached {
        Some(e) => if cache_is_fresh_at(&e, now) {
            StaleStep::Compare(e.latest)
        } else {
            StaleStep::Fetch
        },
        None => StaleStep::Fetch,
    }
}

/// The first step of the check now (see [`stale_step`]); which one it is
/// for a cached entry depends on the clock.
pub fn stale_check_start(disabled: bool, cached: Option<CacheEntry>) -> (r: StaleStep)
    ensures
        disabled ==> r is Skip,
        !disabled && cached is None ==> r is Fetch,
        !disabled && cached is Some ==> exists|now: u64|
            if fresh_at(cached->0.checked_at, now) {
                r matches StaleStep::Compare(v) && v == cached->0.latest
            } else {
                r is Fetch
            },
{
    let now = now_secs();
    stale_step(disabled, cached, now)
}

/// After a fetch: the warning to print, if any, and the version to write
/// to the cache, if any. A failed fetch is dropped silently.
pub fn stale_after_fetch(fetched: Result<String, String>, current: &str) -> (r: (Option<String>, Option<String>))
    ensures
        match fetched {
            Ok(v) => r.1 == Some(v) && (newer(v@, current@) ==> (r.0 matches Some(w) && w@
                == stale_text(current@, v@))) && (!newer(v@, current@) ==> r.0 is None),
            Err(_) => r.0 is None && r.1 is None,
        },
{
    match fetched {
        Ok(v) => (stale_message(v.as_str(), current), Some(v)),
        Err(_) => (None, None),
    }
}

// ---------------------------------------------------------------------------
// Release URLs and the release API's answer
// ---------------------------------------------------------------------------

/// The API URL that answers with the latest release.
pub fn latest_release_url(api_base: &str) -> (r: String)
    ensures
        r@ == api_base@ + "/repos/"@ + REPO@ + "/releases/latest"@,
{
    let mut out: Vec<char> = Vec::new();
    push_str(&mut out, api_base);
    push_str(&mut out, "/repos/");
    push_str(&mut out, REPO);
    push_str(&mut out, "/releases/latest");
    string_of(&out)
}

/// The URL of the release archive of `version` for `target`.
pub fn download_url(download_base: &str, target: &Target, version: &str) -> (r: String)
    ensures
        r@ == download_base@ + "/"@ + REPO@ + "/releases/download/v"@ + version@ + "/"@
            + BIN_NAME@ + "-"@ + target.triple@ + ".tar.gz"@,
{
    let mut out: Vec<char> = Vec::new();
    push_str(&mut out, download_base);
    push_str(&mut out, "/");
    push_str(&mut out, REPO);
    push_str(&mut out, "/releases/download/v");
    push_str(&mut out, version);
    push_str(&mut out, "/");
    push_str(&mut out, BIN_NAME);
    push_str(&mut out, "-");
    push_str(&mut out, target.triple.as_str());
    push_str(&mut out, ".tar.gz");
    string_of(&out)
}

/// The user agent sent with each request.
pub fn user_agent() -> (r: String)
    ensures
        r@ == "cubil/"@ + VERSION@,
{
    let mut out: Vec<char> = Vec::new();
    push_str(&mut out, "cubil/");
    push_str(&mut out, current_version());
    string_of(&out)
}

/// What `serde_json` finds in `body` under `key`: the parser's error
/// message (`Display` of `serde_json::Error`) when `body` is not one JSON
/// document; otherwise the string value of the top-level object's member
/// `key`, if there is such a member and it is a string. It depends on its
/// arguments alone.
pub uninterp spec fn json_string_field(body: Seq<char>, key: Seq<char>) -> Result<Option<Seq<char>>, Seq<char>>;

/// Parses `body` as JSON (`serde_json::from_str` into a `serde_json::Value`)
/// and reads the string member `key` of the top-level object
/// (`Value::get`, then the `Value::String` variant); a parse error is
/// turned into its message. Its result is named [`json_string_field`];
/// nothing more is stated of the JSON grammar.
#[verifier::external_body]
fn string_field(body: &str, key: &str) -> (r: Result<Option<String>, String>)
    ensures
        json_string_field(body@, key@) == match r {
            Ok(t) => Ok::<Option<Seq<char>>, Seq<char>>(
                match t {
                    Some(s) => Some(s@),
                    None => None,
                },
            ),
            Err(e) => Err(e@),
        },
{
    match serde_json::from_str::<serde_json::Value>(body) {
        Ok(value) => Ok(match value.get(key) {
            Some(serde_json::Value::String(s)) => Some(s.clone()),
            _ => None,
        }),
        Err(e) => Err(e.to_string()),
    }
}

/// The version that a release's tag names: the tag without a leading `v`.
/// A missing tag is an error.
pub fn version_from_tag(tag: Option<String>) -> (r: Result<String, String>)
    ensures
        match tag {
            Some(t) => r matches Ok(v) && v@ == without_v(t@),
            None => r matches Err(e) && e@ == "missing tag_name in API response"@,
        },
{
    match tag {
        Some(t) => {
            let v = chars_of(t.as_str());
            let a: usize = if v.len() > 0 && v[0] == 'v' {
                1
            } else {
                0
            };
            let mut out: Vec<char> = Vec::new();
            push_span(&mut out, &v, a, v.len());
            proof {
                assert(out@ =~= without_v(t@));
            }
            Ok(string_of(&out))
        },
        None => Err("missing tag_name in API response".to_owned()),
    }
}

/// The latest version named by the body of the release API's answer: the
/// `tag_name` member, without a leading `v`. Errors when the body is not
/// JSON (`invalid JSON: ` and the parser's message) or has no string
/// `tag_name`.
pub fn latest_version_from_body(body: &str) -> (r: Result<String, String>)
    ensures
        match json_string_field(body@, "tag_name"@) {
            Err(msg) => r matches Err(e) && e@ == "invalid JSON: "@ + msg,
            Ok(None) => r matches Err(e) && e@ == "missing tag_name in API response"@,
            Ok(Some(t)) => r matches Ok(v) && v@ == without_v(t),
        },
{
    match string_field(body, "tag_name") {
        Ok(tag) => version_from_tag(tag),
        Err(msg) => {
            let mut out: Vec<char> = Vec::new();
            push_str(&mut out, "invalid JSON: ");
            push_str(&mut out, msg.as_str());
            Err(string_of(&out))
        },
    }
}

// ---------------------------------------------------------------------------
// The release archive
// ---------------------------------------------------------------------------

/// Where reading a `.tar.gz` archive failed.
#[derive(Debug, Clone, Copy, PartialEq, Eq, Structural)]
pub enum TarStage {
    /// Opening the archive's entries.
    Archive,
    /// Reading the next entry's header.
    Entry,
    /// Reading an entry's path.
    Path,
    /// Reading an entry's contents.
    Read,
}

/// What the `flate2` and `tar` crates read from the bytes of a `.tar.gz`
/// archive: each entry's file name (`None` when its path has none, or it is
/// not valid Unicode) and contents, in archive order, up to the first
/// failure; and that failure's stage and message, if there is one. When
/// reading an entry's contents fails, that entry is the last one listed,
/// with the bytes read before the failure. It depends on the bytes alone.
pub uninterp spec fn tar_gz_entries(tarball: Seq<u8>) -> (Seq<(Option<Seq<char>>, Seq<u8>)>, Option<(TarStage, Seq<char>)>);

/// An entry as text and bytes.
pub open spec fn entry_view(e: (Option<String>, Vec<u8>)) -> (Option<Seq<char>>, Seq<u8>) {
    (
        match e.0 {
            Some(n) => Some(n@),
            None => None,
        },
        e.1@,
    )
}

/// The entries as text and bytes.
pub open spec fn entry_views(es: Seq<(Option<String>, Vec<u8>)>) -> Seq<(Option<Seq<char>>, Seq<u8>)> {
    es.map_values(|e: (Option<String>, Vec<u8>)| entry_view(e))
}

/// A failure as its stage and text.
pub open spec fn fault_view(f: Option<(TarStage, String)>) -> Option<(TarStage, Seq<char>)> {
    match f {
        Some((stage, msg)) => Some((stage, msg@)),
        None => None,
    }
}

/// Decodes `tarball` with `flate2::read::GzDecoder` and walks it with
/// `tar::Archive::entries`, reading each entry's path (`Entry::path`,
/// `Path::file_name`) and contents (`Read::read_to_end`); a failure stops
/// the walk and is returned with its stage and `Display` text (an entry
/// whose contents fail to read is still listed). Its result is named
/// [`tar_gz_entries`].
#[verifier::external_body]
fn read_tar_gz(tarball: &[u8]) -> (r: (Vec<(Option<String>, Vec<u8>)>, Option<(TarStage, String)>))
    ensures
        entry_views(r.0@) == tar_gz_entries(tarball@).0,
        fault_view(r.1) == tar_gz_entries(tarball@).1,
{
    let (mut archive, mut out, mut stage, mut bytes) = (tar::Archive::new(GzDecoder::new(tarball)), Vec::new(), TarStage::Archive, Vec::new());
    let walk = (|| -> io::Result<()> {
        for entry in archive.entries()? {
            stage = TarStage::Entry;
            let mut entry = entry?;
            stage = TarStage::Path;
            let name = entry.path()?.file_name().and_then(|n| n.to_str()).map(str::to_owned);
            stage = TarStage::Read;
            let read = entry.read_to_end(&mut bytes);
            out.push((name, take(&mut bytes)));
            read?;
        }
        Ok(())
    })();
    (out, walk.err().map(|e| (stage, e.to_string())))
}

/// The contents of the first entry whose file name is `name`.
pub open spec fn first_named(es: Seq<(Option<Seq<char>>, Seq<u8>)>, name: Seq<char>) -> Option<Seq<u8>>
    decreases es.len(),
{
    if es.len() == 0 {
        None
    } else if es[0].0 == Some(name) {
        Some(es[0].1)
    } else {
        first_named(es.drop_first(), name)
    }
}

/// The message for a failure at `stage`.
pub open spec fn tar_fault_text(stage: TarStage, msg: Seq<char>) -> Seq<char> {
    match stage {
        TarStage::Archive => "tar error: "@ + msg,
        TarStage::Entry => "tar entry error: "@ + msg,
        TarStage::Path => "tar path error: "@ + msg,
        TarStage::Read => "tar read error: "@ + msg,
    }
}

/// Whether the walk stopped on reading an entry's contents.
pub open spec fn read_failed(fault: Option<(TarStage, Seq<char>)>) -> bool {
    fault matches Some((stage, _)) && stage == TarStage::Read
}

/// The entries read in full: all listed ones, but the last when reading its
/// contents failed.
pub open spec fn whole_entries(
    es: Seq<(Option<Seq<char>>, Seq<u8>)>,
    fault: Option<(TarStage, Seq<char>)>,
) -> Seq<(Option<Seq<char>>, Seq<u8>)> {
    if read_failed(fault) && es.len() > 0 {
        es.drop_last()
    } else {
        es
    }
}

/// What `extract_binary` returns for the entries read and the failure that
/// ended the walk. Only the binary's contents are read for their own sake:
/// a failure while reading another entry's contents is met when the walk
/// moves past that entry, so it is reported as a failure of the walk.
pub open spec fn extracted(
    es: Seq<(Option<Seq<char>>, Seq<u8>)>,
    fault: Option<(TarStage, Seq<char>)>,
) -> Result<Seq<u8>, Seq<char>> {
    match first_named(whole_entries(es, fault), BIN_NAME@) {
        Some(bytes) => Ok(bytes),
        None => match fault {
            Some((stage, msg)) => if stage == TarStage::Read && !(es.len() > 0 && es.last().0 == Some(
                BIN_NAME@,
            )) {
                Err(tar_fault_text(TarStage::Entry, msg))
            } else {
                Err(tar_fault_text(stage, msg))
            },
            None => Err("'"@ + BIN_NAME@ + "' not found in tarball"@),
        },
    }
}

/// The `cubil` binary inside a release archive: the contents of the first
/// entry named `cubil`. Errors with the stage and message of a failure met
/// before it, or when no entry has that name.
pub fn extract_binary(tarball: &[u8]) -> (r: Result<Vec<u8>, String>)
    ensures
        match extracted(tar_gz_entries(tarball@).0, tar_gz_entries(tarball@).1) {
            Ok(bytes) => r matches Ok(b) && b@ == bytes,
            Err(msg) => r matches Err(e) && e@ == msg,
        },
{
    let (entries, fault) = read_tar_gz(tarball);
    let ghost es = tar_gz_entries(tarball@).0;
    let ghost whole = whole_entries(es, fault_view(fault));
    let mut entries = entries;
    let n = entries.len();
    let failed_read = match &fault {
        Some((TarStage::Read, _)) => true,
        _ => false,
    };
    let m = if failed_read && n > 0 {
        n - 1
    } else {
        n
    };
    let mut i: usize = 0;
    proof {
        assert(whole =~= es.take(m as int));
        assert(whole.skip(0) =~= whole);
    }
    while i < m
        invariant
            n == es.len(),
            m <= n,
            whole == es.take(m as int),
            whole == whole_entries(es, tar_gz_entries(tarball@).1),
            es == tar_gz_entries(tarball@).0,
            i <= m,
            entries@.len() == n - i,
            entry_views(entries@) == es.skip(i as int),
            first_named(whole, BIN_NAME@) == first_named(whole.skip(i as int), BIN_NAME@),
        decreases m - i,
    {
        let ghost rest = whole.skip(i as int);
        let ghost before = entries@;
        let e = entries.remove(0);
        proof {
            assert(entry_views(before)[0] == es.skip(i as int)[0]);
            assert(entry_views(before)[0] == entry_view(e));
            assert(rest[0] == es[i as int]);
            assert(rest[0] == entry_view(e));
            assert forall|j: int| 0 <= j < entries@.len() implies #[trigger] entry_views(entries@)[j] == es.skip(i + 1)[j] by {
                assert(entries@[j] == before[j + 1]);
                assert(entry_views(before)[j + 1] == es.skip(i as int)[j + 1]);
            }
            assert(entry_views(entries@) =~= es.skip(i + 1));
            assert(rest.drop_first() =~= whole.skip(i + 1));
        }
        let (name, bytes) = e;
        let is_bin = match &name {
            Some(t) => *t == BIN_NAME.to_owned(),
            None => false,
        };
        if is_bin {
            proof {
                assert(rest[0].0 == Some(BIN_NAME@));
                assert(first_named(rest, BIN_NAME@) == Some(bytes@));
            }
            return Ok(bytes);
        }
        proof {
            assert(rest[0].0 != Some(BIN_NAME@));
        }
        i = i + 1;
    }
    proof {
        assert(whole.skip(m as int).len() == 0);
    }
    let last_is_bin = entries.len() > 0 && match &entries[entries.len() - 1].0 {
        Some(t) => *t == BIN_NAME.to_owned(),
        None => false,
    };
    proof {
        if entries@.len() > 0 {
            assert(entry_views(entries@)[entries@.len() - 1] == es.last());
        }
    }
    let fault = match fault {
        Some((TarStage::Read, msg)) => if last_is_bin {
            Some((TarStage::Read, msg))
        } else {
            Some((TarStage::Entry, msg))
        },
        other => other,
    };
    match fault {
        Some((stage, msg)) => {
            let mut out: Vec<char> = Vec::new();
            match stage {
                TarStage::Archive => push_str(&mut out, "tar error: "),
                TarStage::Entry => push_str(&mut out, "tar entry error: "),
                TarStage::Path => push_str(&mut out, "tar path error: "),
                TarStage::Read => push_str(&mut out, "tar read error: "),
            }
            push_str(&mut out, msg.as_str());
            Err(string_of(&out))
        },
        None => {
            let mut out: Vec<char> = Vec::new();
            push_str(&mut out, "'");
            push_str(&mut out, BIN_NAME);
            push_str(&mut out, "' not found in tarball");
            Err(string_of(&out))
        },
    }
}

} // verus!
