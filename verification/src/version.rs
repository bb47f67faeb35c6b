//! Semantic versions, as the `semver` crate parses, prints and orders them.
use vstd::prelude::*;
use crate::text::{append_chars, decimal, decimal_of, string_of, chars_of};

verus! {

#[verifier::external_type_specification]
#[verifier::external_body]
pub struct ExSemverVersion(semver::Version);

/// The plain parts of a version: major, minor, patch, pre-release text and
/// build-metadata text.
pub type VersionView = (u64, u64, u64, Seq<char>, Seq<char>);

/// A semantic version. The plain parts are what the logic reads; `value` is
/// the same version as `semver` holds it, used where `semver` does the work.
pub struct SemVersion {
    major: u64,
    minor: u64,
    patch: u64,
    pre: String,
    build: String,
    value: semver::Version,
}

impl View for SemVersion {
    type V = VersionView;

    closed spec fn view(&self) -> VersionView {
        (self.major, self.minor, self.patch, self.pre@, self.build@)
    }
}

/// How `semver` writes a version: `major.minor.patch`, then `-pre` when there
/// is a pre-release part and `+build` when there is build metadata.
pub open spec fn version_text(v: VersionView) -> Seq<char> {
    let core = decimal(v.0 as nat) + seq!['.'] + decimal(v.1 as nat) + seq!['.'] + decimal(
        v.2 as nat,
    );
    let with_pre = if v.3.len() > 0 {
        core + seq!['-'] + v.3
    } else {
        core
    };
    if v.4.len() > 0 {
        with_pre + seq!['+'] + v.4
    } else {
        with_pre
    }
}

/// A character that may stand in a pre-release or build-metadata part.
pub open spec fn is_identifier_char(c: char) -> bool {
    ('0' <= c && c <= '9') || ('a' <= c && c <= 'z') || ('A' <= c && c <= 'Z') || c == '-' || c
        == '.'
}

pub open spec fn opt_version_view(v: Option<SemVersion>) -> Option<VersionView> {
    match v {
        Some(x) => Some(x@),
        None => None,
    }
}

/// What `semver::Version::parse` makes of `text`: `None` where it returns an error.
pub uninterp spec fn semver_parse(text: Seq<char>) -> Option<VersionView>;

/// The sign of `semver`'s `Ord::cmp` on two versions: -1, 0 or 1.
pub uninterp spec fn semver_order(a: VersionView, b: VersionView) -> int;

/// `semver::Version::parse`. Claimed: the result is the one `semver_parse`
/// names; a version it returns prints back as the text it was parsed from
/// (the parser consumes the whole text, rejects leading zeros in the numbers
/// and keeps the pre-release and build texts as written); those texts hold
/// only ASCII letters, digits, `-` and `.`.
#[verifier::external_body]
fn parse_semver(text: &str) -> (res: Option<SemVersion>)
    ensures
        opt_version_view(res) == semver_parse(text@),
        res matches Some(v) ==> version_text(v@) == text@,
        res matches Some(v) ==> forall|i: int| 0 <= i < v@.3.len() ==> is_identifier_char(#[trigger] v@.3[i]),
        res matches Some(v) ==> forall|i: int| 0 <= i < v@.4.len() ==> is_identifier_char(#[trigger] v@.4[i]),
{
    match semver::Version::parse(text) {
        Ok(v) => Some(SemVersion {
            major: v.major,
            minor: v.minor,
            patch: v.patch,
            pre: v.pre.as_str().to_string(),
            build: v.build.as_str().to_string(),
            value: v,
        }),
        Err(_) => None,
    }
}

/// `semver::Version::new`. Claimed: the version has the given numbers and
/// neither pre-release nor build metadata; `semver` parses its text back to it
/// (decimal numbers without leading zeros are what the parser reads).
#[verifier::external_body]
fn new_semver(major: u64, minor: u64, patch: u64) -> (res: SemVersion)
    ensures
        res@ == (major, minor, patch, Seq::<char>::empty(), Seq::<char>::empty()),
        semver_parse(version_text(res@)) == Some(res@),
{
    SemVersion {
        major,
        minor,
        patch,
        pre: String::new(),
        build: String::new(),
        value: semver::Version::new(major, minor, patch),
    }
}

/// `Ord::cmp` of `semver::Version` (major, minor, patch, then pre-release and
/// build metadata by the crate's identifier rules). Claimed: the result is the
/// sign `semver_order` names; the comparison the other way round has the
/// opposite sign (as `Ord` requires); it is equal exactly when the versions
/// have the same parts (the crate compares identifier texts so that only equal
/// texts compare equal).
#[verifier::external_body]
fn semver_precedence(a: &SemVersion, b: &SemVersion) -> (res: i8)
    ensures
        res == semver_order(a@, b@),
        semver_order(b@, a@) == 0 - res,
        -1 <= res <= 1,
        (res == 0) == (a@ == b@),
{
    match a.value.cmp(&b.value) {
        std::cmp::Ordering::Less => -1,
        std::cmp::Ordering::Equal => 0,
        std::cmp::Ordering::Greater => 1,
    }
}

/// `Clone` of `semver::Version`. Claimed: the copy is equal to the original.
#[verifier::external_body]
fn clone_semver(v: &semver::Version) -> (res: semver::Version)
    ensures
        res == *v,
{
    v.clone()
}

impl Clone for SemVersion {
    fn clone(&self) -> (res: Self)
        ensures
            res@ == self@,
    {
        SemVersion {
            major: self.major,
            minor: self.minor,
            patch: self.patch,
            pre: self.pre.clone(),
            build: self.build.clone(),
            value: clone_semver(&self.value),
        }
    }
}

impl SemVersion {
    /// A release version with the given numbers.
    pub fn new(major: u64, minor: u64, patch: u64) -> (res: SemVersion)
        ensures
            res@ == (major, minor, patch, Seq::<char>::empty(), Seq::<char>::empty()),
            semver_parse(version_text(res@)) == Some(res@),
    {
        new_semver(major, minor, patch)
    }

    /// Parses semantic-version text.
    pub fn parse(text: &str) -> (res: Option<SemVersion>)
        ensures
            opt_version_view(res) == semver_parse(text@),
            res matches Some(v) ==> version_text(v@) == text@,
            res matches Some(v) ==> semver_parse(version_text(v@)) == Some(v@),
    {
        parse_semver(text)
    }

    pub fn major(&self) -> (res: u64)
        ensures
            res == self@.0,
    {
        self.major
    }

    pub fn minor(&self) -> (res: u64)
        ensures
            res == self@.1,
    {
        self.minor
    }

    pub fn patch(&self) -> (res: u64)
        ensures
            res == self@.2,
    {
        self.patch
    }

    /// The pre-release part, empty when there is none.
    pub fn pre(&self) -> (res: &str)
        ensures
            res@ == self@.3,
    {
        self.pre.as_str()
    }

    /// The build-metadata part, empty when there is none.
    pub fn build(&self) -> (res: &str)
        ensures
            res@ == self@.4,
    {
        self.build.as_str()
    }

    /// The version as text, as `semver` displays it.
    pub fn to_chars(&self) -> (res: Vec<char>)
        ensures
            res@ == version_text(self@),
    {
        let mut out = decimal_of(self.major);
        out.push('.');
        let minor = decimal_of(self.minor);
        append_chars(&mut out, &minor);
        out.push('.');
        let patch = decimal_of(self.patch);
        append_chars(&mut out, &patch);
        let ghost core = out@;
        let pre = chars_of(self.pre.as_str());
        if pre.len() > 0 {
            out.push('-');
            append_chars(&mut out, &pre);
        }
        let ghost with_pre = out@;
        let build = chars_of(self.build.as_str());
        if build.len() > 0 {
            out.push('+');
            append_chars(&mut out, &build);
        }
        out
    }

    /// The version as text, as `semver` displays it.
    pub fn to_string(&self) -> (res: String)
        ensures
            res@ == version_text(self@),
    {
        let chars = self.to_chars();
        string_of(&chars)
    }

    /// The version's precedence against `other`: -1, 0 or 1.
    pub fn compare(&self, other: &SemVersion) -> (res: i8)
        ensures
            res == semver_order(self@, other@),
            semver_order(other@, self@) == 0 - res,
            -1 <= res <= 1,
            (res == 0) == (self@ == other@),
    {
        semver_precedence(self, other)
    }
}

} // verus!
