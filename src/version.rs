use vstd::prelude::*;
use crate::limits::{byte_count, count_byte};
use vstd::utf8::encode_utf8;

verus! {

/// One dot-separated identifier of a pre-release or of build metadata.
#[derive(Clone, Debug, PartialEq, Eq, Hash)]
pub enum Identifier {
    Numeric(u64),
    AlphaNumeric(String),
}

/// A parsed semantic version. Build metadata takes no part in precedence.
#[derive(Clone, Debug)]
pub struct Version {
    pub major: u64,
    pub minor: u64,
    pub patch: u64,
    pub pre: Vec<Identifier>,
    pub build: Vec<Identifier>,
}

/// Three-way comparison of two integers: -1, 0 or 1.
pub open spec fn num_cmp(a: u64, b: u64) -> int {
    if a < b {
        -1
    } else if a > b {
        1
    } else {
        0
    }
}

/// Lexicographic order of byte strings; a proper prefix sorts first.
pub open spec fn bytes_cmp(a: Seq<u8>, b: Seq<u8>) -> int
    decreases a.len(),
{
    if a.len() == 0 {
        if b.len() == 0 {
            0
        } else {
            -1
        }
    } else if b.len() == 0 {
        1
    } else if a[0] < b[0] {
        -1
    } else if a[0] > b[0] {
        1
    } else {
        bytes_cmp(a.drop_first(), b.drop_first())
    }
}

/// Numeric identifiers compare by value and sort before alphanumeric ones;
/// alphanumeric identifiers compare by their UTF-8 bytes.
pub open spec fn ident_cmp(a: Identifier, b: Identifier) -> int {
    match (a, b) {
        (Identifier::Numeric(x), Identifier::Numeric(y)) => num_cmp(x, y),
        (Identifier::Numeric(_), Identifier::AlphaNumeric(_)) => -1,
        (Identifier::AlphaNumeric(_), Identifier::Numeric(_)) => 1,
        (Identifier::AlphaNumeric(x), Identifier::AlphaNumeric(y)) => bytes_cmp(
            encode_utf8(x@),
            encode_utf8(y@),
        ),
    }
}

/// Lexicographic order of identifier lists; a proper prefix sorts first.
pub open spec fn idents_cmp(a: Seq<Identifier>, b: Seq<Identifier>) -> int
    decreases a.len(),
{
    if a.len() == 0 {
        if b.len() == 0 {
            0
        } else {
            -1
        }
    } else if b.len() == 0 {
        1
    } else if ident_cmp(a[0], b[0]) != 0 {
        ident_cmp(a[0], b[0])
    } else {
        idents_cmp(a.drop_first(), b.drop_first())
    }
}

/// Version precedence: major, minor and patch numerically, then a version
/// without a pre-release above any with one, then the pre-release lists.
pub open spec fn version_cmp(a: Version, b: Version) -> int {
    if a.major != b.major {
        num_cmp(a.major, b.major)
    } else if a.minor != b.minor {
        num_cmp(a.minor, b.minor)
    } else if a.patch != b.patch {
        num_cmp(a.patch, b.patch)
    } else if a.pre@.len() == 0 && b.pre@.len() == 0 {
        0
    } else if a.pre@.len() == 0 {
        1
    } else if b.pre@.len() == 0 {
        -1
    } else {
        idents_cmp(a.pre@, b.pre@)
    }
}

pub proof fn lemma_bytes_cmp_props(a: Seq<u8>, b: Seq<u8>, c: Seq<u8>)
    ensures
        bytes_cmp(a, a) == 0,
        bytes_cmp(a, b) == -bytes_cmp(b, a),
        -1 <= bytes_cmp(a, b) <= 1,
        bytes_cmp(a, b) >= 0 && bytes_cmp(b, c) >= 0 ==> bytes_cmp(a, c) >= 0,
    decreases a.len(),
{
    if a.len() > 0 && b.len() > 0 && c.len() > 0 {
        lemma_bytes_cmp_props(a.drop_first(), b.drop_first(), c.drop_first());
    } else if a.len() > 0 && b.len() > 0 {
        lemma_bytes_cmp_props(a.drop_first(), b.drop_first(), c);
    } else if a.len() > 0 {
        lemma_bytes_cmp_props(a.drop_first(), a.drop_first(), c);
    }
}

pub proof fn lemma_ident_cmp_props(a: Identifier, b: Identifier, c: Identifier)
    ensures
        ident_cmp(a, a) == 0,
        ident_cmp(a, b) == -ident_cmp(b, a),
        -1 <= ident_cmp(a, b) <= 1,
        ident_cmp(a, b) >= 0 && ident_cmp(b, c) >= 0 ==> ident_cmp(a, c) >= 0,
{
    let ab = |i: Identifier|
        match i {
            Identifier::AlphaNumeric(s) => encode_utf8(s@),
            Identifier::Numeric(_) => Seq::<u8>::empty(),
        };
    lemma_bytes_cmp_props(ab(a), ab(b), ab(c));
}

pub proof fn lemma_idents_cmp_props(a: Seq<Identifier>, b: Seq<Identifier>, c: Seq<Identifier>)
    ensures
        idents_cmp(a, a) == 0,
        idents_cmp(a, b) == -idents_cmp(b, a),
        -1 <= idents_cmp(a, b) <= 1,
        idents_cmp(a, b) >= 0 && idents_cmp(b, c) >= 0 ==> idents_cmp(a, c) >= 0,
    decreases a.len(),
{
    if a.len() > 0 && b.len() > 0 && c.len() > 0 {
        lemma_ident_cmp_props(a[0], b[0], c[0]);
        lemma_ident_cmp_props(a[0], c[0], b[0]);
        lemma_ident_cmp_props(b[0], a[0], c[0]);
        lemma_ident_cmp_props(b[0], c[0], a[0]);
        lemma_ident_cmp_props(c[0], a[0], b[0]);
        lemma_ident_cmp_props(c[0], b[0], a[0]);
        lemma_idents_cmp_props(a.drop_first(), b.drop_first(), c.drop_first());
    } else if a.len() > 0 && b.len() > 0 {
        lemma_ident_cmp_props(a[0], b[0], a[0]);
        lemma_idents_cmp_props(a.drop_first(), b.drop_first(), c);
    } else if a.len() > 0 {
        lemma_ident_cmp_props(a[0], a[0], a[0]);
        lemma_idents_cmp_props(a.drop_first(), a.drop_first(), c);
    }
}

/// Precedence is reflexive, antisymmetric and transitive: a total preorder
/// in which build metadata plays no part.
pub proof fn lemma_version_cmp_props(a: Version, b: Version, c: Version)
    ensures
        version_cmp(a, a) == 0,
        version_cmp(a, b) == -version_cmp(b, a),
        -1 <= version_cmp(a, b) <= 1,
        version_cmp(a, b) >= 0 && version_cmp(b, c) >= 0 ==> version_cmp(a, c) >= 0,
{
    lemma_idents_cmp_props(a.pre@, b.pre@, c.pre@);
    lemma_idents_cmp_props(a.pre@, a.pre@, c.pre@);
}

/// Versions that differ in build metadata alone have equal precedence.
pub proof fn lemma_build_ignored(a: Version, b: Version)
    requires
        a.major == b.major,
        a.minor == b.minor,
        a.patch == b.patch,
        a.pre@ == b.pre@,
    ensures
        version_cmp(a, b) == 0,
{
    lemma_idents_cmp_props(a.pre@, b.pre@, b.pre@);
}

fn bytes_compare(a: &[u8], b: &[u8]) -> (r: i8)
    ensures
        r as int == bytes_cmp(a@, b@),
{
    let mut i: usize = 0;
    assert(a@.skip(0) =~= a@);
    assert(b@.skip(0) =~= b@);
    while i < a.len() && i < b.len()
        invariant
            i <= a@.len(),
            i <= b@.len(),
            bytes_cmp(a@, b@) == bytes_cmp(a@.skip(i as int), b@.skip(i as int)),
        decreases a@.len() - i,
    {
        if a[i] < b[i] {
            return -1;
        } else if a[i] > b[i] {
            return 1;
        }
        assert(a@.skip(i as int).drop_first() =~= a@.skip(i + 1));
        assert(b@.skip(i as int).drop_first() =~= b@.skip(i + 1));
        i = i + 1;
    }
    if i < a.len() {
        1
    } else if i < b.len() {
        -1
    } else {
        0
    }
}

fn num_compare(a: u64, b: u64) -> (r: i8)
    ensures
        r as int == num_cmp(a, b),
{
    if a < b {
        -1
    } else if a > b {
        1
    } else {
        0
    }
}

impl Identifier {
    /// Precedence of two identifiers as -1, 0 or 1.
    pub fn compare(&self, other: &Identifier) -> (r: i8)
        ensures
            r as int == ident_cmp(*self, *other),
    {
        match (self, other) {
            (Identifier::Numeric(x), Identifier::Numeric(y)) => num_compare(*x, *y),
            (Identifier::Numeric(_), Identifier::AlphaNumeric(_)) => -1,
            (Identifier::AlphaNumeric(_), Identifier::Numeric(_)) => 1,
            (Identifier::AlphaNumeric(x), Identifier::AlphaNumeric(y)) => bytes_compare(
                x.as_str().as_bytes(),
                y.as_str().as_bytes(),
            ),
        }
    }
}

fn idents_compare(a: &Vec<Identifier>, b: &Vec<Identifier>) -> (r: i8)
    ensures
        r as int == idents_cmp(a@, b@),
{
    let mut i: usize = 0;
    assert(a@.skip(0) =~= a@);
    assert(b@.skip(0) =~= b@);
    while i < a.len() && i < b.len()
        invariant
            i <= a@.len(),
            i <= b@.len(),
            idents_cmp(a@, b@) == idents_cmp(a@.skip(i as int), b@.skip(i as int)),
        decreases a@.len() - i,
    {
        let c = a[i].compare(&b[i]);
        if c != 0 {
            return c;
        }
        assert(a@.skip(i as int).drop_first() =~= a@.skip(i + 1));
        assert(b@.skip(i as int).drop_first() =~= b@.skip(i + 1));
        i = i + 1;
    }
    if i < a.len() {
        1
    } else if i < b.len() {
        -1
    } else {
        0
    }
}

/// The version that semver reads from a text, if the text is one.
pub uninterp spec fn parsed_version(s: Seq<char>) -> Option<Version>;

/// The most `-` a version text may hold. semver's parser panics on an
/// identifier joined from more hyphenated pieces than this.
pub const MAX_HYPHENS: usize = 255;

/// Whether a text is short enough in hyphens to be handed to semver.
pub open spec fn parse_guarded(s: Seq<char>) -> bool {
    byte_count(encode_utf8(s), 45) <= MAX_HYPHENS
}

/// The version a text stands for: what semver reads, where the text is
/// within `MAX_HYPHENS`; none otherwise.
pub open spec fn version_of(s: Seq<char>) -> Option<Version> {
    if parse_guarded(s) {
        parsed_version(s)
    } else {
        None
    }
}

/// Relies on semver::Version::parse, whose result depends on the text alone;
/// its fields are moved over unchanged.
#[verifier::external_body]
fn parse_semver(s: &str) -> (r: Option<Version>)
    requires
        parse_guarded(s@),
    ensures
        r == parsed_version(s@),
{
    let from = |i: semver::Identifier| match i {
        semver::Identifier::Numeric(n) => Identifier::Numeric(n),
        semver::Identifier::AlphaNumeric(a) => Identifier::AlphaNumeric(a),
    };
    match semver::Version::parse(s) {
        Ok(v) => Some(Version {
            major: v.major,
            minor: v.minor,
            patch: v.patch,
            pre: v.pre.into_iter().map(from).collect(),
            build: v.build.into_iter().map(from).collect(),
        }),
        Err(_) => None,
    }
}

impl Version {
    /// Reads a semantic version; `None` where the text is not one, or holds
    /// more than `MAX_HYPHENS` hyphens.
    pub fn parse(s: &str) -> (r: Option<Version>)
        ensures
            r == version_of(s@),
    {
        if count_byte(s.as_bytes(), 45) > MAX_HYPHENS {
            None
        } else {
            parse_semver(s)
        }
    }

    /// Precedence of two versions as -1, 0 or 1.
    pub fn compare(&self, other: &Version) -> (r: i8)
        ensures
            r as int == version_cmp(*self, *other),
    {
        if self.major != other.major {
            num_compare(self.major, other.major)
        } else if self.minor != other.minor {
            num_compare(self.minor, other.minor)
        } else if self.patch != other.patch {
            num_compare(self.patch, other.patch)
        } else if self.pre.len() == 0 && other.pre.len() == 0 {
            0
        } else if self.pre.len() == 0 {
            1
        } else if other.pre.len() == 0 {
            -1
        } else {
            idents_compare(&self.pre, &other.pre)
        }
    }
}

} // verus!
