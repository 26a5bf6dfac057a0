//! The update check: whether the cached answer is too old to trust, and
//! whether the newest published version is newer than the running one.
use vstd::prelude::*;
use crate::text::{chars_of, extend_chars, string_of};

verus! {

/// How long, in seconds, a cached answer about the newest version is
/// trusted: a day.
pub const CACHE_MAX_AGE_SECS: u64 = 86400;

/// What the cache file remembers: the newest version seen and when, in
/// seconds since the Unix epoch.
#[derive(Debug)]
pub struct VersionCache {
    pub latest_version: String,
    pub last_checked: u64,
}

/// The cache must be refreshed: there is none, or it was written more than
/// a day before `now` (a clock that went back counts as no time passed).
pub open spec fn cache_stale(cache: Option<VersionCache>, now: u64) -> bool {
    match cache {
        None => true,
        Some(c) => (if now >= c.last_checked {
            now - c.last_checked
        } else {
            0
        }) > CACHE_MAX_AGE_SECS,
    }
}

/// Decides whether to ask the registry again, given the time `now` in
/// seconds since the Unix epoch.
pub fn should_check(cache: Option<&VersionCache>, now: u64) -> (r: bool)
    ensures
        r == cache_stale(
            match cache {
                Some(c) => Some(*c),
                None => None,
            },
            now,
        ),
{
    match cache {
        None => true,
        Some(c) => now.saturating_sub(c.last_checked) > CACHE_MAX_AGE_SECS,
    }
}

/// The text is a version as the `semver` crate reads it
/// (`semver::Version::from_str` accepts it).
pub uninterp spec fn semver_valid(s: Seq<char>) -> bool;

/// The version written `a` comes after the version written `b` in the
/// order of the `semver` crate (`Version`'s `>`).
pub uninterp spec fn semver_greater(a: Seq<char>, b: Seq<char>) -> bool;

/// `semver::Version::from_str`, reduced to whether it accepts the text.
#[verifier::external_body]
fn parses_as_version(s: &str) -> (r: bool)
    ensures
        r == semver_valid(s@),
{
    s.parse::<semver::Version>().is_ok()
}

/// `>` on two versions as the `semver` crate orders them (a derived total
/// order). The order is strict: no version comes after itself, and of two
/// versions at most one comes after the other.
#[verifier::external_body]
fn version_greater(a: &str, b: &str) -> (r: bool)
    requires
        semver_valid(a@),
        semver_valid(b@),
    ensures
        r == semver_greater(a@, b@),
        a@ == b@ ==> !r,
        r ==> !semver_greater(b@, a@),
{
    match (a.parse::<semver::Version>(), b.parse::<semver::Version>()) {
        (Ok(x), Ok(y)) => x > y,
        _ => false,
    }
}

/// `latest` is a newer version than `current`; an unreadable version on
/// either side counts as not newer.
pub open spec fn newer(latest: Seq<char>, current: Seq<char>) -> bool {
    semver_valid(latest) && semver_valid(current) && semver_greater(latest, current)
}

/// Whether `latest` is a newer version than `current`. Either text failing
/// to read as a version makes the answer no.
pub fn is_newer(latest: &str, current: &str) -> (r: bool)
    ensures
        r == newer(latest@, current@),
        latest@ == current@ ==> !r,
        r ==> !newer(current@, latest@),
{
    if !parses_as_version(latest) {
        return false;
    }
    if !parses_as_version(current) {
        return false;
    }
    version_greater(latest, current)
}

/// The version to offer: `latest` when it is newer than `current`, nothing
/// otherwise.
pub fn newer_version(latest: String, current: &str) -> (r: Option<String>)
    ensures
        r is Some <==> newer(latest@, current@),
        r matches Some(v) ==> v@ == latest@,
        latest@ == current@ ==> r is None,
{
    if is_newer(latest.as_str(), current) {
        Some(latest)
    } else {
        None
    }
}

/// The registry URL that describes the published crate.
pub fn crate_info_url(base_url: &str) -> (r: String)
    ensures
        r@ == base_url@ + "/api/v1/crates/stmo-cli"@,
{
    let mut out = chars_of(base_url);
    let p = chars_of("/api/v1/crates/stmo-cli");
    extend_chars(&mut out, &p);
    string_of(&out)
}

/// The user agent sent to the registry: the tool's name and version.
pub fn user_agent(version: &str) -> (r: String)
    ensures
        r@ == "stmo-cli/"@ + version@,
{
    let mut out = chars_of("stmo-cli/");
    let v = chars_of(version);
    extend_chars(&mut out, &v);
    string_of(&out)
}

} // verus!
