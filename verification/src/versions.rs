//! Exact SemVer versions as the library reads them. Parsing and precedence
//! are `semver`'s; the text a version prints as is stated here.
use vstd::prelude::*;

use crate::text::{chars_of, decimal, decimal_of_u64, push_all, push_str, string_of, Text};

verus! {

broadcast use crate::views::lemma_text_deep_view;

#[verifier::external_type_specification]
#[verifier::external_body]
pub struct ExSemverVersion(semver::Version);

/// A version as the contracts see it: major, minor, patch, pre-release and
/// build metadata, the last two without their `-` / `+`.
pub type VersionView = (u64, u64, u64, Seq<char>, Seq<char>);

/// What `semver::Version::parse` makes of `s`: `None` when `s` is not an exact
/// SemVer 2.0 version, else its five parts.
pub uninterp spec fn semver_parse(s: Seq<char>) -> Option<VersionView>;

/// The message `semver::Version::parse`'s error displays for `s`.
pub uninterp spec fn semver_error(s: Seq<char>) -> Seq<char>;

/// Whether `semver::VersionReq::parse` accepts `s` as a requirement.
pub uninterp spec fn semver_req_parses(s: Seq<char>) -> bool;

/// Whether `a` has lower precedence than `b` under `semver::Version`'s `Ord`.
pub uninterp spec fn semver_lt(a: VersionView, b: VersionView) -> bool;

/// An exact version. Only [`parse_version`] makes one, so the parts always
/// come from `semver`'s own parse, which the private field keeps.
#[derive(Clone, Debug)]
pub struct SemVer {
    major: u64,
    minor: u64,
    patch: u64,
    pre: String,
    build: String,
    raw: semver::Version,
}

impl View for SemVer {
    type V = VersionView;

    closed spec fn view(&self) -> VersionView {
        (self.major, self.minor, self.patch, self.pre@, self.build@)
    }
}

/// `semver::Version`'s derived `Clone`: the copy equals the original.
pub assume_specification[ <semver::Version as Clone>::clone ](v: &semver::Version) -> (r: semver::Version)
    ensures
        r == *v,
;

/// `s` as an exact version, through `semver::Version::parse`, or the message
/// its error displays. The contract names both.
#[verifier::external_body]
fn semver_version_parse(s: &str) -> (r: Result<SemVer, String>)
    ensures
        match semver_parse(s@) {
            None => r matches Err(e) && e@ == semver_error(s@),
            Some(v) => r matches Ok(x) && x@ == v,
        },
{
    match semver::Version::parse(s) {
        Ok(v) => Ok(SemVer {
            major: v.major,
            minor: v.minor,
            patch: v.patch,
            pre: v.pre.as_str().to_owned(),
            build: v.build.as_str().to_owned(),
            raw: v,
        }),
        Err(e) => Err(e.to_string()),
    }
}

/// Whether `semver::VersionReq::parse` accepts `s`; the contract names the answer.
#[verifier::external_body]
pub(crate) fn requirement_parses(s: &str) -> (b: bool)
    ensures
        b == semver_req_parses(s@),
{
    semver::VersionReq::parse(s).is_ok()
}

/// `s` as an exact version, or why it is not one: what `semver` accepts as
/// a version, part for part, and otherwise the message its refusal gives.
pub fn parse_version(s: &str) -> (r: Result<SemVer, String>)
    ensures
        match semver_parse(s@) {
            None => r matches Err(e) && e@ == semver_error(s@),
            Some(v) => r matches Ok(x) && x@ == v,
        },
{
    semver_version_parse(s)
}

/// `a < b` under `semver::Version`'s ordering; the contract names the answer.
#[verifier::external_body]
fn raw_lt(a: &SemVer, b: &SemVer) -> (r: bool)
    ensures
        r == semver_lt(a@, b@),
{
    a.raw < b.raw
}

/// The text `semver::Version` displays as: `major.minor.patch`, then
/// `-pre` and `+build` when present.
pub open spec fn version_text(v: VersionView) -> Seq<char> {
    decimal(v.0 as nat) + "."@ + decimal(v.1 as nat) + "."@ + decimal(v.2 as nat) + (if v.3.len() > 0 {
        seq!['-'] + v.3
    } else {
        Seq::empty()
    }) + (if v.4.len() > 0 {
        seq!['+'] + v.4
    } else {
        Seq::empty()
    })
}

/// Whether `s` parses as an exact version.
pub open spec fn is_version(s: Seq<char>) -> bool {
    semver_parse(s) is Some
}

impl SemVer {
    /// A copy of the version, part for part.
    pub fn duplicate(&self) -> (c: SemVer)
        ensures
            c@ == self@,
    {
        SemVer {
            major: self.major,
            minor: self.minor,
            patch: self.patch,
            pre: self.pre.clone(),
            build: self.build.clone(),
            raw: self.raw.clone(),
        }
    }

    /// The text the version displays as.
    pub fn text(&self) -> (t: String)
        ensures
            t@ == version_text(self@),
    {
        let t = self.chars();
        string_of(&t)
    }

    /// The text the version displays as, as characters.
    pub fn chars(&self) -> (t: Text)
        ensures
            t@ == version_text(self@),
    {
        let mut t = decimal_of_u64(self.major);
        push_str(&mut t, ".");
        push_all(&mut t, &decimal_of_u64(self.minor));
        push_str(&mut t, ".");
        push_all(&mut t, &decimal_of_u64(self.patch));
        let pre = chars_of(self.pre.as_str());
        if pre.len() > 0 {
            t.push('-');
            push_all(&mut t, &pre);
        }
        let build = chars_of(self.build.as_str());
        if build.len() > 0 {
            t.push('+');
            push_all(&mut t, &build);
        }
        t
    }

    /// Whether both versions have the same five parts, as `semver::Version`'s
    /// `==` compares them.
    pub fn same_as(&self, other: &SemVer) -> (b: bool)
        ensures
            b == (self@ == other@),
    {
        self.major == other.major && self.minor == other.minor && self.patch == other.patch
            && crate::text::same(&chars_of(self.pre.as_str()), &chars_of(other.pre.as_str()))
            && crate::text::same(&chars_of(self.build.as_str()), &chars_of(other.build.as_str()))
    }

    /// Whether `self` has lower precedence than `other`.
    pub fn precedes(&self, other: &SemVer) -> (b: bool)
        ensures
            b == semver_lt(self@, other@),
    {
        raw_lt(self, other)
    }

    /// Whether the version carries a pre-release part.
    pub fn is_prerelease(&self) -> (b: bool)
        ensures
            b == (self@.3.len() > 0),
    {
        !self.pre.as_str().is_empty()
    }
}

} // verus!
