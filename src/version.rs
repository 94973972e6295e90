//! Semantic versions as plain triples, their numeric order, and version
//! requirements evaluated through the `semver` crate.
use vstd::prelude::*;
use crate::errors::BadRequest;

verus! {

#[verifier::external_type_specification]
#[verifier::external_body]
pub struct ExSemverVersionReq(semver::VersionReq);

#[verifier::external_type_specification]
#[verifier::external_body]
pub struct ExSemverError(semver::Error);

/// What `semver::Version::parse` makes of a text, as a
/// `(major, minor, patch)` triple, or `None` where it refuses the text.
pub uninterp spec fn parsed_version(text: Seq<char>) -> Option<(u64, u64, u64)>;

/// Whether `semver::VersionReq::parse` accepts a text.
pub uninterp spec fn requirement_accepts(text: Seq<char>) -> bool;

/// Whether the requirement that `semver::VersionReq::parse` makes of `text`
/// is satisfied, per `semver::VersionReq::matches`, by the release version
/// `major.minor.patch`.
pub uninterp spec fn requirement_matches(text: Seq<char>, major: u64, minor: u64, patch: u64) -> bool;

/// A release version: three numeric components, no pre-release or build part.
#[derive(Clone, Copy, Debug, PartialEq, Eq, Structural, Hash)]
pub struct Version {
    pub major: u64,
    pub minor: u64,
    pub patch: u64,
}

/// `a` precedes `b` in semantic-version order: major, then minor, then
/// patch, each compared as a number.
pub open spec fn version_lt(a: Version, b: Version) -> bool {
    ||| a.major < b.major
    ||| (a.major == b.major && a.minor < b.minor)
    ||| (a.major == b.major && a.minor == b.minor && a.patch < b.patch)
}

/// The version order is a strict total order.
pub proof fn lemma_version_order(a: Version, b: Version, c: Version)
    ensures
        !version_lt(a, a),
        version_lt(a, b) ==> !version_lt(b, a),
        version_lt(a, b) && version_lt(b, c) ==> version_lt(a, c),
        a == b || version_lt(a, b) || version_lt(b, a),
{
}

impl Version {
    pub fn new(major: u64, minor: u64, patch: u64) -> (r: Version)
        ensures
            r == (Version { major, minor, patch }),
    {
        Version { major, minor, patch }
    }

    /// Reads a version text such as `1.2.3`; a malformed text is a
    /// `BadRequest`. Pre-release and build parts that `semver` accepts are
    /// not kept.
    pub fn parse(text: &str) -> (r: Result<Version, BadRequest>)
        ensures
            match r {
                Ok(v) => parsed_version(text@) == Some((v.major, v.minor, v.patch)),
                Err(_) => parsed_version(text@) is None,
            },
    {
        match parse_semver_version(text) {
            Ok(v) => Ok(v),
            Err(_) => Err(BadRequest),
        }
    }

    /// Numeric comparison in semantic-version order.
    pub fn lt(&self, other: &Version) -> (r: bool)
        ensures
            r == version_lt(*self, *other),
    {
        if self.major != other.major {
            self.major < other.major
        } else if self.minor != other.minor {
            self.minor < other.minor
        } else {
            self.patch < other.patch
        }
    }
}

/// Relies on `semver::Version::parse`: the numeric components of the version
/// it reads, or its error; an empty text is refused.
#[verifier::external_body]
fn parse_semver_version(text: &str) -> (r: Result<Version, semver::Error>)
    ensures
        match r {
            Ok(v) => parsed_version(text@) == Some((v.major, v.minor, v.patch)),
            Err(_) => parsed_version(text@) is None,
        },
        text@.len() == 0 ==> r is Err,
{
    semver::Version::parse(text).map(|v| Version { major: v.major, minor: v.minor, patch: v.patch })
}

/// Relies on `semver::VersionReq::parse`: a requirement, or its error.
#[verifier::external_body]
fn parse_semver_requirement(text: &str) -> (r: Result<semver::VersionReq, semver::Error>)
    ensures
        r is Ok == requirement_accepts(text@),
{
    semver::VersionReq::parse(text)
}

/// A version requirement (`^1`, `~1.2`, `>=1.0.0, <2.0.0`, `*`, ...): the
/// text it was read from and the requirement `semver` made of it.
#[derive(Debug)]
pub struct Requirement {
    text: String,
    parsed: semver::VersionReq,
}

impl Requirement {
    /// The text the requirement was read from.
    pub closed spec fn text(&self) -> Seq<char> {
        self.text@
    }

    /// Whether `v` satisfies the requirement.
    pub open spec fn spec_matches(&self, v: Version) -> bool {
        requirement_matches(self.text(), v.major, v.minor, v.patch)
    }

    /// Reads a requirement; a text that `semver` refuses is a `BadRequest`.
    pub fn parse(text: &str) -> (r: Result<Requirement, BadRequest>)
        ensures
            r is Ok == requirement_accepts(text@),
            r matches Ok(q) ==> q.text() == text@,
    {
        match parse_semver_requirement(text) {
            Ok(parsed) => Ok(Requirement { text: text.to_owned(), parsed }),
            Err(_) => Err(BadRequest),
        }
    }

    pub fn as_str(&self) -> (r: &str)
        ensures
            r@ == self.text(),
    {
        self.text.as_str()
    }

    /// Whether `v` satisfies the requirement.
    pub fn matches(&self, v: &Version) -> (r: bool)
        ensures
            r == self.spec_matches(*v),
    {
        requirement_holds(self, v)
    }
}

/// Relies on `semver::VersionReq::matches`, applied to the requirement that
/// `Requirement::parse` read from `req`'s text (the only way one is made).
#[verifier::external_body]
fn requirement_holds(req: &Requirement, v: &Version) -> (r: bool)
    ensures
        r == requirement_matches(req.text(), v.major, v.minor, v.patch),
{
    req.parsed.matches(&semver::Version::new(v.major, v.minor, v.patch))
}

} // verus!
