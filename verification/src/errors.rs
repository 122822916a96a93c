//! The error taxonomy.  Every failure is terminal to the run: nothing is
//! retried, and the caller reports the failure instead of partial results.

use vstd::prelude::*;

use crate::objects_def::MoveTypes;

verus! {

/// Why a run was aborted.
#[derive(Clone, Copy, Debug, PartialEq, Eq, Structural)]
pub enum GcodeError {
    /// A letter with no numeric text after it, or text that is not a number
    /// of the shape the letter asks for.
    SyntaxError,
    /// The same positional or offset letter given twice within one line.
    DuplicateAxis(char),
    /// A coordinate or feed value supplied before any unit flag was seen.
    MissingUnit,
    /// A coordinate supplied before any referential flag was seen.
    MissingReferential,
    /// The tracked position lacks the named axis; unreachable from a machine
    /// built by `Machine::new`, kept as a defensive check.
    MissingOrigin(char),
    /// The arc-angle computation is degenerate: a radius vector has zero
    /// length.
    InvalidArc,
    /// A feed-driven move of the named type commanded with no feed speed
    /// ever set.
    MissingFeed(MoveTypes),
    /// The line stream ended before the end-of-program code.
    UnexpectedEndOfInput,
}

} // verus!
