//! Contract versions, as semantic versions, and how they compare with a release.
use vstd::prelude::*;

verus! {

/// What `semver::Version::parse` makes of a text: `None` when it is no version, else major,
/// minor and patch number and whether a pre-release and build metadata are present.
pub uninterp spec fn semver_parse(text: Seq<char>) -> Option<(u64, u64, u64, bool, bool)>;

/// Parses a semantic version with `semver::Version::parse` into its numbers and the presence of
/// a pre-release and of build metadata. Claimed: the result is `semver_parse` of the text.
#[verifier::external_body]
fn parse_version(text: &str) -> (r: Option<(u64, u64, u64, bool, bool)>)
    ensures
        r == semver_parse(text@),
{
    match semver::Version::parse(text) {
        Ok(v) => Some((v.major, v.minor, v.patch, !v.pre.is_empty(), !v.build.is_empty())),
        Err(_) => None,
    }
}

/// Whether the numbers `(a, b, c)` come before `(x, y, z)`.
pub open spec fn triple_lt(a: u64, b: u64, c: u64, x: u64, y: u64, z: u64) -> bool {
    a < x || (a == x && (b < y || (b == y && c < z)))
}

/// Whether version `v` (numbers, pre-release present, build present) precedes the release
/// `major.minor.patch`: semantic versions order by their numbers, a pre-release before its
/// release, and build metadata after it.
pub open spec fn spec_version_lt(v: (u64, u64, u64, bool, bool), major: u64, minor: u64, patch: u64) -> bool {
    triple_lt(v.0, v.1, v.2, major, minor, patch) || (v.0 == major && v.1 == minor && v.2 == patch && v.3)
}

/// Whether version `v` is at most the release `major.minor.patch`.
pub open spec fn spec_version_le(v: (u64, u64, u64, bool, bool), major: u64, minor: u64, patch: u64) -> bool {
    spec_version_lt(v, major, minor, patch) || (v.0 == major && v.1 == minor && v.2 == patch && !v.4)
}

/// Whether `v` precedes the release `major.minor.patch`.
pub fn version_lt(v: (u64, u64, u64, bool, bool), major: u64, minor: u64, patch: u64) -> (r: bool)
    ensures
        r == spec_version_lt(v, major, minor, patch),
{
    if v.0 != major {
        v.0 < major
    } else if v.1 != minor {
        v.1 < minor
    } else if v.2 != patch {
        v.2 < patch
    } else {
        v.3
    }
}

/// Whether `v` is at most the release `major.minor.patch`.
pub fn version_le(v: (u64, u64, u64, bool, bool), major: u64, minor: u64, patch: u64) -> (r: bool)
    ensures
        r == spec_version_le(v, major, minor, patch),
{
    version_lt(v, major, minor, patch) || (v.0 == major && v.1 == minor && v.2 == patch && !v.4)
}

/// Whether the version in `text` precedes the release `major.minor.patch`; `None` when `text`
/// is no semantic version.
pub fn version_text_lt(text: &str, major: u64, minor: u64, patch: u64) -> (r: Option<bool>)
    ensures
        r == (match semver_parse(text@) {
            Some(v) => Some(spec_version_lt(v, major, minor, patch)),
            None => None,
        }),
{
    match parse_version(text) {
        Some(v) => Some(version_lt(v, major, minor, patch)),
        None => None,
    }
}

/// Whether the version in `text` is at most the release `major.minor.patch`; `None` when
/// `text` is no semantic version.
pub fn version_text_le(text: &str, major: u64, minor: u64, patch: u64) -> (r: Option<bool>)
    ensures
        r == (match semver_parse(text@) {
            Some(v) => Some(spec_version_le(v, major, minor, patch)),
            None => None,
        }),
{
    match parse_version(text) {
        Some(v) => Some(version_le(v, major, minor, patch)),
        None => None,
    }
}

/// A version before a release is at most that release.
pub proof fn law_version_lt_implies_le(v: (u64, u64, u64, bool, bool), major: u64, minor: u64, patch: u64)
    ensures
        spec_version_lt(v, major, minor, patch) ==> spec_version_le(v, major, minor, patch),
{
}

} // verus!
