//! The data model of a transaction: package references, per-package stages
//! and the overall transaction state.

use vstd::prelude::*;

use crate::errors::ErrorKind;

verus! {

/// A resolved package reference: an identifier plus an optional version
/// constraint. Immutable once it is part of a transaction.
#[derive(Clone, Debug)]
pub struct PackageRef {
    pub name: String,
    pub version: Option<String>,
}

/// The pipeline phase in which a package failed; an explicit retry resets the
/// package to the last stage that phase had completed.
#[derive(Clone, Copy, Debug, PartialEq, Eq, Structural)]
pub enum Phase {
    Fetch,
    Verify,
    Extract,
}

/// The stage a single package has reached within a transaction. A stage only
/// moves forward, except on an explicit retry from `Failed`, which resets to
/// the last successfully completed stage.
#[derive(Clone, Copy, Debug, PartialEq, Eq, Structural)]
pub enum Stage {
    NotStarted,
    /// A download is underway or interrupted; `bytes` bytes are staged.
    Fetching { bytes: u64 },
    Fetched,
    Verifying,
    Verified,
    Extracting,
    Extracted,
    Committed,
    RolledBack,
    Failed { reason: ErrorKind, phase: Phase },
}

impl Stage {
    /// A terminal stage: the engine never advances it again.
    pub open spec fn is_terminal(self) -> bool {
        match self {
            Stage::Committed => true,
            Stage::RolledBack => true,
            Stage::Failed { .. } => true,
            _ => false,
        }
    }

    /// How many stage transitions remain until the package is terminal; the
    /// measure that shows every run terminates.
    pub open spec fn work(self) -> nat {
        match self {
            Stage::NotStarted => 7,
            Stage::Fetching { .. } => 6,
            Stage::Fetched => 5,
            Stage::Verifying => 4,
            Stage::Verified => 3,
            Stage::Extracting => 2,
            Stage::Extracted => 1,
            Stage::Committed => 0,
            Stage::RolledBack => 0,
            Stage::Failed { .. } => 0,
        }
    }

    /// Executable mirror of `is_terminal`.
    pub fn check_terminal(&self) -> (r: bool)
        ensures
            r == self.is_terminal(),
    {
        match self {
            Stage::Committed => true,
            Stage::RolledBack => true,
            Stage::Failed { .. } => true,
            _ => false,
        }
    }

    /// The stage an explicit retry resets a failed package to: the last stage
    /// the failed phase had successfully completed.
    pub open spec fn spec_retry_reset(phase: Phase) -> Stage {
        match phase {
            Phase::Fetch => Stage::NotStarted,
            Phase::Verify => Stage::Fetched,
            Phase::Extract => Stage::Verified,
        }
    }

    /// Executable mirror of `spec_retry_reset`.
    pub fn retry_reset(phase: Phase) -> (r: Stage)
        ensures
            r == Stage::spec_retry_reset(phase),
    {
        match phase {
            Phase::Fetch => Stage::NotStarted,
            Phase::Verify => Stage::Fetched,
            Phase::Extract => Stage::Verified,
        }
    }
}

/// The overall state of one transaction. `Paused` and `Failed` accept a
/// resume; `Committed` and `RolledBack` are terminal.
#[derive(Clone, Copy, Debug, PartialEq, Eq, Structural)]
pub enum TxState {
    Pending,
    InProgress,
    Paused,
    Committed,
    Failed,
    RolledBack,
}

impl TxState {
    /// States from which a later invocation may pick the transaction up:
    /// `Paused`, or `InProgress` left behind by an unclean shutdown.
    pub open spec fn is_resumable(self) -> bool {
        self == TxState::Paused || self == TxState::InProgress
    }

    /// Executable mirror of `is_resumable`.
    pub fn check_resumable(&self) -> (r: bool)
        ensures
            r == self.is_resumable(),
    {
        match self {
            TxState::Paused => true,
            TxState::InProgress => true,
            _ => false,
        }
    }
}

/// The per-package outcome reported when a transaction finishes.
#[derive(Clone, Copy, Debug, PartialEq, Eq, Structural)]
pub enum Outcome {
    Installed,
    Failed { reason: ErrorKind },
    RolledBack,
    /// The package has not reached a terminal stage (the transaction is
    /// paused or was interrupted).
    Pending,
}

/// The outcome a terminal (or still pending) stage maps to in the final
/// transaction report.
pub open spec fn outcome_of(stage: Stage) -> Outcome {
    match stage {
        Stage::Committed => Outcome::Installed,
        Stage::RolledBack => Outcome::RolledBack,
        Stage::Failed { reason, .. } => Outcome::Failed { reason },
        _ => Outcome::Pending,
    }
}

/// Executable mirror of `outcome_of`.
pub fn stage_outcome(stage: &Stage) -> (r: Outcome)
    ensures
        r == outcome_of(*stage),
{
    match stage {
        Stage::Committed => Outcome::Installed,
        Stage::RolledBack => Outcome::RolledBack,
        Stage::Failed { reason, .. } => Outcome::Failed { reason: *reason },
        _ => Outcome::Pending,
    }
}

} // verus!
