//! Semantic versions and version requirements, as the `semver` crate reads them.
use vstd::prelude::*;

verus! {

#[verifier::external_type_specification]
#[verifier::external_body]
pub struct ExSemverVersion(semver::Version);

#[verifier::external_type_specification]
#[verifier::external_body]
pub struct ExSemverVersionReq(semver::VersionReq);

/// What `semver::Version::parse` makes of `text`: major, minor, patch, the
/// pre-release and the build metadata as written, or the text of its error.
pub uninterp spec fn semver_version(text: Seq<char>) -> Result<
    (u64, u64, u64, Seq<char>, Seq<char>),
    Seq<char>,
>;

/// Whether `semver::VersionReq::parse` accepts `text`.
pub uninterp spec fn semver_req_parses(text: Seq<char>) -> bool;

/// Whether the requirement `semver` reads from `req` matches the version it reads from `version`.
pub uninterp spec fn semver_matches(req: Seq<char>, version: Seq<char>) -> bool;

/// A version read by `semver`, with its parts and the text it was read from.
pub struct SemVersion {
    major: u64,
    minor: u64,
    patch: u64,
    pre: String,
    build: String,
    source: String,
    parsed: semver::Version,
}

/// A version requirement read by `semver`, with the text it was read from.
pub struct SemReq {
    source: String,
    parsed: semver::VersionReq,
}

impl View for SemVersion {
    /// Major, minor, patch, pre-release and build metadata.
    type V = (u64, u64, u64, Seq<char>, Seq<char>);

    closed spec fn view(&self) -> (u64, u64, u64, Seq<char>, Seq<char>) {
        (self.major, self.minor, self.patch, self.pre@, self.build@)
    }
}

impl SemVersion {
    /// The text this version was read from.
    pub closed spec fn source_text(&self) -> Seq<char> {
        self.source@
    }

    pub fn major(&self) -> (r: u64)
        ensures
            r == self@.0,
    {
        self.major
    }

    pub fn minor(&self) -> (r: u64)
        ensures
            r == self@.1,
    {
        self.minor
    }

    pub fn patch(&self) -> (r: u64)
        ensures
            r == self@.2,
    {
        self.patch
    }

    /// The pre-release identifiers, as written.
    pub fn pre(&self) -> (r: &str)
        ensures
            r@ == self@.3,
    {
        self.pre.as_str()
    }

    /// The build metadata, as written.
    pub fn build(&self) -> (r: &str)
        ensures
            r@ == self@.4,
    {
        self.build.as_str()
    }
}

impl SemReq {
    /// The text this requirement was read from.
    pub closed spec fn source_text(&self) -> Seq<char> {
        self.source@
    }
}

/// `semver::Version::parse`: the parts of the version, or the error's text.
#[verifier::external_body]
pub fn parse_semver(text: &str) -> (r: Result<SemVersion, String>)
    ensures
        match semver_version(text@) {
            Ok(p) => r matches Ok(v) && v@ == p && v.source_text() == text@,
            Err(e) => r matches Err(m) && m@ == e,
        },
        r is Ok ==> text@.len() > 0 && '0' <= text@[0] <= '9',
{
    match semver::Version::parse(text) {
        Ok(v) => Ok(
            SemVersion {
                major: v.major,
                minor: v.minor,
                patch: v.patch,
                pre: v.pre.as_str().to_string(),
                build: v.build.as_str().to_string(),
                source: text.to_string(),
                parsed: v,
            },
        ),
        Err(e) => Err(e.to_string()),
    }
}

/// `semver::VersionReq::parse`: the requirement, when the text is one.
#[verifier::external_body]
pub fn parse_semver_req(text: &str) -> (r: Option<SemReq>)
    ensures
        r is Some == semver_req_parses(text@),
        r matches Some(q) ==> q.source_text() == text@,
{
    match semver::VersionReq::parse(text) {
        Ok(q) => Some(SemReq { source: text.to_string(), parsed: q }),
        Err(_) => None,
    }
}

/// `semver::VersionReq::matches`.
#[verifier::external_body]
pub fn semver_req_matches(req: &SemReq, version: &SemVersion) -> (r: bool)
    ensures
        r == semver_matches(req.source_text(), version.source_text()),
{
    req.parsed.matches(&version.parsed)
}

} // verus!
