//! The diagnostic counts of a compilation.

use vstd::prelude::*;

verus! {

/// Severity of a libvala diagnostic.
#[derive(Debug, Clone, Copy, PartialEq, Eq, Structural)]
pub enum ReportLevel {
    /// Informational note.
    Note,
    /// Deprecation notice.
    Deprecated,
    /// Experimental-feature notice.
    Experimental,
    /// Warning.
    Warning,
    /// Error.
    Error,
}

/// The diagnostics a compilation has reported so far, as counts.
#[derive(Debug, Clone, Copy, PartialEq, Eq, Structural)]
pub struct Report {
    errors: i32,
    warnings: i32,
}

impl Report {
    /// The number of errors.
    pub closed spec fn error_count(&self) -> i32 {
        self.errors
    }

    /// The number of warnings.
    pub closed spec fn warning_count(&self) -> i32 {
        self.warnings
    }

    /// A report holding the counts libvala returned.
    pub fn from_counts(errors: i32, warnings: i32) -> (r: Self)
        ensures
            r.error_count() == errors,
            r.warning_count() == warnings,
    {
        Report { errors, warnings }
    }

    /// Number of errors reported so far.
    pub fn errors(&self) -> (r: i32)
        ensures
            r == self.error_count(),
    {
        self.errors
    }

    /// Number of warnings reported so far.
    pub fn warnings(&self) -> (r: i32)
        ensures
            r == self.warning_count(),
    {
        self.warnings
    }

    /// Whether any errors have been reported.
    pub fn has_errors(&self) -> (r: bool)
        ensures
            r == (self.error_count() > 0),
    {
        self.errors() > 0
    }
}

} // verus!
