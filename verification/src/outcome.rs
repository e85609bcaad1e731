//! What a failure is, once: the classification a run's exit code and its
//! stderr token are both read off.
use vstd::prelude::*;

use crate::text::{chars_of, decimal, decimal_of, push_str, string_of, strip_prefix, strip_prefix_str, Text};

verus! {

broadcast use crate::views::lemma_text_deep_view;

/// The two failure outcomes. A finding outranks a look that did not happen,
/// so `Error` is declared first and compares lower.
#[derive(Clone, Copy, Debug, PartialEq, Eq, Structural)]
pub enum Outcome {
    Error,
    Unverified,
}

/// The rank an outcome takes when several refusals compete: lower decides.
pub open spec fn rank(o: Outcome) -> int {
    match o {
        Outcome::Error => 0,
        Outcome::Unverified => 1,
    }
}

impl Outcome {
    /// The exit code: `2` for a look that did not happen, `1` for a finding.
    pub fn code(self) -> (c: i32)
        ensures
            c == (if self == Outcome::Unverified { 2i32 } else { 1i32 }),
    {
        match self {
            Outcome::Unverified => 2,
            Outcome::Error => 1,
        }
    }

    /// The word stderr leads with.
    pub fn token(self) -> (t: &'static str)
        ensures
            t@ == outcome_token(self),
    {
        match self {
            Outcome::Unverified => "unverified",
            Outcome::Error => "error",
        }
    }

    /// Whether `self` decides over `other`: strictly lower rank.
    pub fn outranks(self, other: Outcome) -> (b: bool)
        ensures
            b == (rank(self) < rank(other)),
    {
        self == Outcome::Error && other == Outcome::Unverified
    }
}

/// The word an outcome is printed as.
pub open spec fn outcome_token(o: Outcome) -> Seq<char> {
    match o {
        Outcome::Unverified => "unverified"@,
        Outcome::Error => "error"@,
    }
}

/// Every way a command can fail, as distinct variants so the outcomes stay
/// distinguishable all the way out to the shell.
#[derive(Clone, Debug)]
pub enum CliError {
    Unverified { detail: String },
    TagDrift { count: usize },
    Uncovered { count: usize },
    Forbidden { path: String },
    MissingActionsToken,
    MissingPullNumber,
    Other(String),
}

/// The sentence an error prints as.
pub open spec fn said(e: CliError) -> Seq<char> {
    match e {
        CliError::Unverified { detail } => detail@,
        CliError::TagDrift { count } => decimal(count as nat) + " package(s) bumped without a tag"@,
        CliError::Uncovered { count } => decimal(count as nat)
            + " package(s) changed with no covering intent"@,
        CliError::Forbidden { path } => "GitHub "@ + path@ + " returned 403"@,
        CliError::MissingActionsToken => "`oakum ci pr-status` needs GITHUB_TOKEN to post a comment"@,
        CliError::MissingPullNumber =>
            "`oakum ci pr-status` needs a pull request number (GITHUB_EVENT_PATH or GITHUB_REF)"@,
        CliError::Other(message) => message@,
    }
}

/// The class of an error: only `Unverified` is a look that did not happen.
pub open spec fn class_of(e: CliError) -> Outcome {
    match e {
        CliError::Unverified { .. } => Outcome::Unverified,
        _ => Outcome::Error,
    }
}

/// The sentence without a leading `unverified: ` token.
pub open spec fn detail_of(e: CliError) -> Seq<char> {
    match strip_prefix(said(e), "unverified: "@) {
        Some(rest) => rest,
        None => said(e),
    }
}

impl CliError {
    /// A finding with this message.
    pub fn new(message: String) -> (e: CliError)
        ensures
            e == CliError::Other(message),
    {
        CliError::Other(message)
    }

    /// A look that did not happen, with this detail.
    pub fn unverified(detail: String) -> (e: CliError)
        ensures
            e == (CliError::Unverified { detail }),
    {
        CliError::Unverified { detail }
    }

    /// Packages bumped without a tag.
    pub fn tag_drift(count: usize) -> (e: CliError)
        ensures
            e == (CliError::TagDrift { count }),
    {
        CliError::TagDrift { count }
    }

    /// Packages changed with no covering intent.
    pub fn uncovered(count: usize) -> (e: CliError)
        ensures
            e == (CliError::Uncovered { count }),
    {
        CliError::Uncovered { count }
    }

    /// The one place a variant is classified.
    pub fn class(&self) -> (o: Outcome)
        ensures
            o == class_of(*self),
    {
        match self {
            CliError::Unverified { .. } => Outcome::Unverified,
            _ => Outcome::Error,
        }
    }

    /// `0` ok is never an error; `2` unverified, `1` error.
    pub fn exit_code(&self) -> (c: i32)
        ensures
            c == (if class_of(*self) == Outcome::Unverified { 2i32 } else { 1i32 }),
    {
        self.class().code()
    }

    /// The token stderr leads with.
    pub fn outcome(&self) -> (t: &'static str)
        ensures
            t@ == outcome_token(class_of(*self)),
    {
        self.class().token()
    }

    /// The sentence this error prints as.
    pub fn message(&self) -> (m: String)
        ensures
            m@ == said(*self),
    {
        let t = self.message_text();
        string_of(&t)
    }

    /// The sentence as characters.
    pub fn message_text(&self) -> (m: Text)
        ensures
            m@ == said(*self),
    {
        match self {
            CliError::Unverified { detail } => chars_of(detail.as_str()),
            CliError::TagDrift { count } => {
                let mut out = decimal_of(*count);
                push_str(&mut out, " package(s) bumped without a tag");
                out
            },
            CliError::Uncovered { count } => {
                let mut out = decimal_of(*count);
                push_str(&mut out, " package(s) changed with no covering intent");
                out
            },
            CliError::Forbidden { path } => {
                let mut out = chars_of("GitHub ");
                push_str(&mut out, path.as_str());
                push_str(&mut out, " returned 403");
                out
            },
            CliError::MissingActionsToken => chars_of(
                "`oakum ci pr-status` needs GITHUB_TOKEN to post a comment",
            ),
            CliError::MissingPullNumber => chars_of(
                "`oakum ci pr-status` needs a pull request number (GITHUB_EVENT_PATH or GITHUB_REF)",
            ),
            CliError::Other(message) => chars_of(message.as_str()),
        }
    }

    /// The sentence without a leading `unverified: ` token, as characters.
    pub fn detail_text(&self) -> (d: Text)
        ensures
            d@ == detail_of(*self),
    {
        let m = self.message_text();
        match strip_prefix_str(&m, "unverified: ") {
            Some(rest) => rest,
            None => m,
        }
    }

    /// The sentence without a leading `unverified: ` token.
    pub fn detail(&self) -> (d: String)
        ensures
            d@ == detail_of(*self),
    {
        let t = self.detail_text();
        string_of(&t)
    }

    /// An error of the same class carrying `detail` as its whole sentence.
    pub fn recast(&self, detail: String) -> (e: CliError)
        ensures
            class_of(e) == class_of(*self),
            said(e) == detail@,
    {
        match self {
            CliError::Unverified { .. } => CliError::Unverified { detail },
            _ => CliError::Other(detail),
        }
    }
}

} // verus!
