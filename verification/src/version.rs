//! Semantic versions, parsed and compared by the `semver` crate.
use vstd::prelude::*;

verus! {

#[verifier::external_type_specification]
#[verifier::external_body]
pub struct ExVersion(semver::Version);

/// A version and the text it was parsed from. Its fields are private, so
/// that only [`parse_version`] builds one: the version is always the one
/// `semver` reads from the text.
pub struct ParsedVersion {
    text: String,
    version: semver::Version,
}

impl View for ParsedVersion {
    type V = Seq<char>;

    /// The text the version was parsed from.
    closed spec fn view(&self) -> Seq<char> {
        self.text@
    }
}

/// Whether `semver` accepts a text as a version.
pub uninterp spec fn semver_valid(text: Seq<char>) -> bool;

/// How `semver` orders two versions: -1 for less, 0 for equal, 1 for greater.
pub uninterp spec fn semver_order(a: Seq<char>, b: Seq<char>) -> i8;

/// `semver::Version::parse`. Claimed: whether it succeeds depends on the
/// text alone, and a parsed version keeps its text.
#[verifier::external_body]
pub fn parse_version(text: &str) -> (r: Option<ParsedVersion>)
    ensures
        r is Some <==> semver_valid(text@),
        r matches Some(p) ==> p@ == text@,
{
    match semver::Version::parse(text) {
        Ok(version) => Some(ParsedVersion { text: text.to_string(), version }),
        Err(_) => None,
    }
}

/// `Ord::cmp` of `semver::Version`, as -1, 0 or 1. Claimed: the outcome
/// depends on the two versions' texts alone (named [`semver_order`]) and is
/// one of the three.
#[verifier::external_body]
pub fn compare_versions(a: &ParsedVersion, b: &ParsedVersion) -> (r: i8)
    ensures
        r == semver_order(a@, b@),
        -1 <= r <= 1,
{
    match a.version.cmp(&b.version) {
        std::cmp::Ordering::Less => -1,
        std::cmp::Ordering::Equal => 0,
        std::cmp::Ordering::Greater => 1,
    }
}

} // verus!
