//! How a failed coverage look is disposed of, by the caller's own choice.
use vstd::prelude::*;

use crate::outcome::{detail_of, CliError};
use crate::text::{chars_of, push_str, string_of};
use crate::verdict::{verdict_line, verdict_line_of};

verus! {

/// What a caller does when the coverage look fails.
#[derive(Clone, Copy, Debug, PartialEq, Eq, Structural)]
pub enum CoverageMode {
    /// A failed look refuses: the caller cannot answer without it.
    Required,
    /// A failed look is recorded as not run, and the report says so.
    Reported,
}

/// What the coverage look came to in a report.
#[derive(Clone, Debug, PartialEq, Eq)]
pub enum CoverageOutcome<C> {
    Ran(C),
    Failed,
}

/// The line said on stderr for a look recorded as failed.
pub open spec fn not_checked_line(e: CliError) -> Seq<char> {
    "unverified: coverage not checked: "@ + verdict_line_of(detail_of(e))
}

/// What a failed look becomes, given the caller's disposition: under
/// `Required` it refuses; under `Reported` it is recorded as failed, with the
/// line to say about it. A look that ran carries its answer either way.
pub fn resolve_coverage<C>(look: Result<C, CliError>, mode: CoverageMode) -> (r: (Result<CoverageOutcome<C>, CliError>, Option<String>))
    ensures
        match look {
            Ok(c) => r.0 == Ok::<CoverageOutcome<C>, CliError>(CoverageOutcome::Ran(c)) && r.1 is None,
            Err(e) => if mode == CoverageMode::Required {
                r.0 == Err::<CoverageOutcome<C>, CliError>(e) && r.1 is None
            } else {
                r.0 == Ok::<CoverageOutcome<C>, CliError>(CoverageOutcome::Failed) && (r.1 matches Some(s) && s@ == not_checked_line(e))
            },
        },
{
    match look {
        Ok(coverage) => (Ok(CoverageOutcome::Ran(coverage)), None),
        Err(err) => if mode == CoverageMode::Required {
            (Err(err), None)
        } else {
            let mut line = chars_of("unverified: coverage not checked: ");
            push_str(&mut line, verdict_line(err.detail().as_str()).as_str());
            (Ok(CoverageOutcome::Failed), Some(string_of(&line)))
        },
    }
}

} // verus!
