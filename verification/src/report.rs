//! How a finding is graded: its severity and its analytical lens.

use vstd::prelude::*;

verus! {

/// Severity of a forensic finding (`Info` < `Low` < `Medium` < `High` <
/// `Critical`).
#[derive(Debug, Clone, Copy, PartialEq, Eq, PartialOrd, Ord, Hash)]
pub enum Severity {
    /// Informational: provenance or context, not suspicious on its own.
    Info,
    /// A minor irregularity with a common benign explanation.
    Low,
    /// A notable irregularity worth an examiner's attention.
    Medium,
    /// A strong indicator of tampering or concealment.
    High,
    /// A structural contradiction: the medium cannot be trusted as it is.
    Critical,
}

/// The forensic lens a finding belongs to.
#[derive(Debug, Clone, Copy, PartialEq, Eq, Hash)]
pub enum Category {
    /// Integrity and authenticity (CRC, checksum, completeness).
    Integrity,
    /// Structural contradiction (overlap, out of bounds, internal mismatch).
    Structure,
    /// Residue and recoverability (deleted entries, slack, hidden data).
    Residue,
    /// Provenance and attribution.
    Provenance,
    /// History: the medium's biography.
    History,
    /// Concealment and anti-forensics.
    Concealment,
    /// Malicious code or behaviour.
    Threat,
}

} // verus!
