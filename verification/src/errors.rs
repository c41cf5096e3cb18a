use vstd::prelude::*;

verus! {

/// The error taxonomy of the engine: every failure a stage can record.
#[derive(Clone, Copy, Debug, PartialEq, Eq, Structural)]
pub enum ErrorKind {
    /// Retryable transfer failure.
    Network,
    /// Unknown transaction or missing source; not retryable.
    NotFound,
    /// Local disk failure; retryable after operator intervention.
    Io,
    /// Lock contention or a filesystem path owned by someone else.
    Conflict,
    /// Insufficient permissions at the target.
    Permission,
    /// Insufficient disk space at the target.
    ResourceExhausted,
    /// Archive entry escaping the target root; security relevant.
    UnsafePath,
    /// Integrity check failed; the archive is quarantined, never extracted.
    VerifyMismatch,
    /// No way to verify; refused unless the caller forces.
    VerifySpecUnavailable,
}

impl ErrorKind {
    /// A short human-readable description of the failure.
    pub fn describe(&self) -> (r: String)
        ensures
            r@.len() > 0,
    {
        let msg: &str = match self {
            ErrorKind::Network => "network failure (retryable)",
            ErrorKind::NotFound => "not found",
            ErrorKind::Io => "local disk failure",
            ErrorKind::Conflict => "conflict: resource owned by someone else",
            ErrorKind::Permission => "insufficient permissions",
            ErrorKind::ResourceExhausted => "insufficient disk space",
            ErrorKind::UnsafePath => "archive entry escapes the target root",
            ErrorKind::VerifyMismatch => "integrity check failed; archive quarantined",
            ErrorKind::VerifySpecUnavailable => "no way to verify this archive",
        };
        proof {
            reveal_strlit("network failure (retryable)");
            reveal_strlit("not found");
            reveal_strlit("local disk failure");
            reveal_strlit("conflict: resource owned by someone else");
            reveal_strlit("insufficient permissions");
            reveal_strlit("insufficient disk space");
            reveal_strlit("archive entry escapes the target root");
            reveal_strlit("integrity check failed; archive quarantined");
            reveal_strlit("no way to verify this archive");
        }
        msg.to_owned()
    }

    /// Only transfer failures are worth an automatic retry.
    pub fn is_retryable(&self) -> (r: bool)
        ensures
            r == (*self == ErrorKind::Network),
    {
        match self {
            ErrorKind::Network => true,
            _ => false,
        }
    }
}

} // verus!
