//! Semantic versions, parsed and ordered by the `semver` crate.
use vstd::prelude::*;

verus! {

/// Whether `semver::Version::parse` accepts `text`.
pub uninterp spec fn semver_valid(text: Seq<char>) -> bool;

/// Whether the version `a` orders after the version `b` under `semver::Version`'s
/// ordering (major, minor, patch, pre-release, then build metadata).
pub uninterp spec fn semver_gt(a: Seq<char>, b: Seq<char>) -> bool;

/// Calls `semver::Version::parse` and reports whether it succeeded. The
/// contract claims only that the answer is `semver_valid` of the text.
#[verifier::external_body]
fn semver_accepts(text: &str) -> (r: bool)
    ensures
        r == semver_valid(text@),
{
    semver::Version::parse(text).is_ok()
}

/// Parses both texts with `semver::Version::parse` and compares them with `>`.
/// The contract claims the answer is `semver_gt` of the two texts; both must
/// be accepted by the parser, which is what makes the parse never fail here.
#[verifier::external_body]
fn semver_greater(a: &str, b: &str) -> (r: bool)
    requires
        semver_valid(a@),
        semver_valid(b@),
    ensures
        r == semver_gt(a@, b@),
{
    semver::Version::parse(a).unwrap() > semver::Version::parse(b).unwrap()
}

/// A semantic version, kept as the text it was parsed from.
#[derive(Debug, PartialEq, Eq)]
pub struct Version {
    text: String,
}

impl Clone for Version {
    fn clone(&self) -> (r: Self)
        ensures
            r@ == self@,
    {
        Version { text: self.text.clone() }
    }
}

impl View for Version {
    type V = Seq<char>;

    closed spec fn view(&self) -> Seq<char> {
        self.text@
    }
}

impl Version {
    /// `semver_valid` of its text: every value built by `parse` has it.
    pub open spec fn is_valid(&self) -> bool {
        semver_valid(self@)
    }

    /// Parses `text` as a semantic version; `None` exactly when semver rejects it.
    pub fn parse(text: &str) -> (r: Option<Version>)
        ensures
            r.is_some() == semver_valid(text@),
            r matches Some(v) ==> v@ == text@ && v.is_valid(),
    {
        if semver_accepts(text) {
            Some(Version { text: text.to_owned() })
        } else {
            None
        }
    }

    /// The text of the version.
    pub fn as_str(&self) -> (r: &str)
        ensures
            r@ == self@,
    {
        self.text.as_str()
    }

    /// Whether `self` orders after `other`.
    pub fn greater_than(&self, other: &Version) -> (r: bool)
        requires
            self.is_valid(),
            other.is_valid(),
        ensures
            r == semver_gt(self@, other@),
    {
        semver_greater(self.text.as_str(), other.text.as_str())
    }
}

} // verus!
