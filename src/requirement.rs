use crate::version::{Identifier, Version};
use crate::limits::{digit_run, has_digit_run};
use vstd::prelude::*;
use vstd::utf8::encode_utf8;

verus! {

#[verifier::external_type_specification]
#[verifier::external_body]
pub struct ExVersionReq(semver::VersionReq);

/// Whether semver accepts a text as a version requirement.
pub uninterp spec fn requirement_parses(text: Seq<char>) -> bool;

/// Whether the requirement that semver reads from a text admits a version.
pub uninterp spec fn requirement_admits(text: Seq<char>, v: Version) -> bool;

/// The most digits in a row a requirement text may hold. semver's parser
/// unwraps each number as a `u64` and adds one to some of them.
pub const MAX_DIGITS: usize = 19;

/// Whether a text is short enough in digit runs to be handed to semver.
pub open spec fn requirement_guarded(text: Seq<char>) -> bool {
    !has_digit_run(encode_utf8(text), (MAX_DIGITS + 1) as nat)
}

/// Relies on semver::VersionReq::parse: whether it succeeds depends on the
/// text alone.
#[verifier::external_body]
fn parse_requirement(text: &str) -> (r: Option<semver::VersionReq>)
    requires
        requirement_guarded(text@),
    ensures
        (r is Some) == requirement_parses(text@),
{
    semver::VersionReq::parse(text).ok()
}

/// A version requirement: either "any version", or one that semver parsed.
pub struct Requirement {
    text: String,
    parsed: Option<semver::VersionReq>,
}

/// Relies on semver::VersionReq::matches, on the requirement parsed from
/// `req.text` (the only way a `Requirement` holding one is built) and on the
/// version with its fields moved over unchanged.
#[verifier::external_body]
fn semver_matches(req: &Requirement, v: &Version) -> (r: bool)
    requires
        !req.is_any(),
    ensures
        r == requirement_admits(req.req_text(), *v),
{
    let to = |i: &Identifier| match i {
        Identifier::Numeric(n) => semver::Identifier::Numeric(*n),
        Identifier::AlphaNumeric(a) => semver::Identifier::AlphaNumeric(a.clone()),
    };
    let sv = semver::Version {
        major: v.major,
        minor: v.minor,
        patch: v.patch,
        pre: v.pre.iter().map(to).collect(),
        build: v.build.iter().map(to).collect(),
    };
    req.parsed.as_ref().map_or(false, |q| q.matches(&sv))
}

impl Requirement {
    /// The text of the requirement; `"*"` for the one that admits any version.
    pub closed spec fn req_text(&self) -> Seq<char> {
        self.text@
    }

    /// Whether this is the requirement that admits every version.
    pub closed spec fn is_any(&self) -> bool {
        self.parsed is None
    }

    /// The versions this requirement admits: every one, for the default
    /// requirement, pre-releases included.
    pub open spec fn admits(&self, v: Version) -> bool {
        self.is_any() || requirement_admits(self.req_text(), v)
    }

    /// The requirement that admits every version.
    pub fn any() -> (r: Requirement)
        ensures
            r.is_any(),
            r.req_text() == "*"@,
    {
        Requirement { text: String::from_str("*"), parsed: None }
    }

    /// Reads a requirement; `None` where semver refuses the text, or where
    /// it holds more than `MAX_DIGITS` digits in a row.
    pub fn parse(text: &str) -> (r: Option<Requirement>)
        ensures
            (r is Some) == (requirement_guarded(text@) && requirement_parses(text@)),
            r matches Some(q) ==> !q.is_any() && q.req_text() == text@,
    {
        if digit_run(text.as_bytes(), MAX_DIGITS + 1) {
            return None;
        }
        match parse_requirement(text) {
            Some(q) => Some(Requirement { text: text.to_owned(), parsed: Some(q) }),
            None => None,
        }
    }

    /// The text of the requirement.
    pub fn text(&self) -> (r: String)
        ensures
            r@ == self.req_text(),
    {
        self.text.clone()
    }

    /// Whether the requirement admits a version.
    pub fn matches(&self, v: &Version) -> (r: bool)
        ensures
            r == self.admits(*v),
    {
        if self.parsed.is_none() {
            true
        } else {
            semver_matches(self, v)
        }
    }
}

} // verus!
