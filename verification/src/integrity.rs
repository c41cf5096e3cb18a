//! Integrity verification of a staged archive before extraction.
//!
//! The verification contract is pluggable: a checksum, or an explicit opt-out.
//! The concrete checksum is a 64-bit polynomial rolling sum; what matters is
//! the rule that an archive is extracted only after its verification spec
//! accepted it.

use vstd::prelude::*;

use crate::errors::ErrorKind;

verus! {

/// How a staged archive is to be verified. The engine treats the explicit
/// opt-out as a warning-level event, never as a silent default; a package
/// whose verification spec is missing altogether is refused unless the caller
/// forces.
#[derive(Clone, Copy, Debug, PartialEq, Eq, Structural)]
pub enum VerificationSpec {
    /// The archive must hash to exactly this value.
    Checksum { expected: u64 },
    /// Integrity checking was explicitly waived by the caller.
    NoVerification,
}

/// The rolling checksum over a byte sequence: each byte folds in as
/// `acc * 31 + byte`, wrapping at 64 bits.
pub open spec fn checksum_spec(s: Seq<u8>) -> u64
    decreases s.len(),
{
    if s.len() == 0 {
        0u64
    } else {
        (((checksum_spec(s.drop_last()) * 31) + s.last()) % 0x1_0000_0000_0000_0000) as u64
    }
}

/// Computes the rolling checksum of `data`.
pub fn checksum(data: &Vec<u8>) -> (r: u64)
    ensures
        r == checksum_spec(data@),
{
    let mut acc: u64 = 0;
    let mut i: usize = 0;
    while i < data.len()
        invariant
            i <= data@.len(),
            acc == checksum_spec(data@.take(i as int)),
        decreases data@.len() - i,
    {
        proof {
            assert(data@.take(i + 1).drop_last() =~= data@.take(i as int));
            assert(data@.take(i + 1).last() == data@[i as int]);
        }
        acc = acc.wrapping_mul(31).wrapping_add(data[i] as u64);
        i = i + 1;
    }
    proof {
        assert(data@.take(data@.len() as int) =~= data@);
    }
    acc
}

/// Whether verification of an archive with contents `data` passes, given the
/// (possibly missing) spec and the caller's force flag.
pub open spec fn verification_passes(
    data: Seq<u8>,
    vspec: Option<VerificationSpec>,
    force: bool,
) -> bool {
    match vspec {
        Some(VerificationSpec::Checksum { expected }) => checksum_spec(data) == expected,
        Some(VerificationSpec::NoVerification) => true,
        None => force,
    }
}

/// The error a failing verification reports: an integrity mismatch, or the
/// absence of any way to verify.
pub open spec fn verification_error(
    data: Seq<u8>,
    vspec: Option<VerificationSpec>,
) -> ErrorKind {
    match vspec {
        Some(VerificationSpec::Checksum { .. }) => ErrorKind::VerifyMismatch,
        _ => ErrorKind::VerifySpecUnavailable,
    }
}

/// Whether accepting this archive deserves a warning event: integrity
/// checking was skipped (explicitly waived, or forced past a missing spec).
pub open spec fn verification_warns(vspec: Option<VerificationSpec>) -> bool {
    match vspec {
        Some(VerificationSpec::Checksum { .. }) => false,
        Some(VerificationSpec::NoVerification) => true,
        None => true,
    }
}

/// Checks a staged archive against its verification spec. Returns `Ok` with
/// the warning flag exactly when `verification_passes` holds; a checksum
/// mismatch reports `VerifyMismatch` (the archive is quarantined by the
/// caller, never extracted), a missing spec reports `VerifySpecUnavailable`
/// unless `force` is set.
pub fn verify_archive(
    data: &Vec<u8>,
    vspec: &Option<VerificationSpec>,
    force: bool,
) -> (r: Result<bool, ErrorKind>)
    ensures
        r is Ok <==> verification_passes(data@, *vspec, force),
        r matches Ok(warn) ==> warn == verification_warns(*vspec),
        r matches Err(e) ==> e == verification_error(data@, *vspec),
{
    match vspec {
        Some(VerificationSpec::Checksum { expected }) => {
            let actual = checksum(data);
            if actual == *expected {
                Ok(false)
            } else {
                Err(ErrorKind::VerifyMismatch)
            }
        },
        Some(VerificationSpec::NoVerification) => Ok(true),
        None => {
            if force {
                Ok(true)
            } else {
                Err(ErrorKind::VerifySpecUnavailable)
            }
        },
    }
}

} // verus!
