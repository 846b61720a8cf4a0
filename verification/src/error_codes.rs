//! The engine's own entries of the error catalogue.

use vstd::prelude::*;

verus! {

/// How serious a catalogue entry is.
#[derive(Clone, Copy, Debug, PartialEq, Eq, Structural)]
pub enum Severity {
    /// Worth reporting; nothing failed.
    Warning,
    /// The operation failed.
    Error,
}

/// One entry of the error catalogue.
#[derive(Clone, Copy, Debug, PartialEq, Eq)]
pub struct ErrorCode {
    /// Stable, namespaced identifier.
    pub id: &'static str,
    /// How serious the condition is.
    pub severity: Severity,
    /// What the user is told.
    pub message_template: &'static str,
}

/// A preparation asked for blocks of no frames at all.
pub fn max_block_size_zero() -> (code: ErrorCode)
    ensures
        code.id@ == "engine.prepare.max_block_size_zero"@,
        code.severity == Severity::Error,
        code.message_template@ == "Maximum block size must be greater than zero."@,
{
    ErrorCode {
        id: "engine.prepare.max_block_size_zero",
        severity: Severity::Error,
        message_template: "Maximum block size must be greater than zero.",
    }
}

} // verus!
