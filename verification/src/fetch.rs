//! The archive fetcher: retrieves a package archive from its source into the
//! staging area, resumable at the byte level.
//!
//! A source is modelled by the bytes it serves and its transfer capabilities;
//! the process boundary performs the real transfer and mirrors it here. A
//! transfer fault is part of the source value (`fail_after`), so an
//! interrupted download is an ordinary, fully specified outcome.

use vstd::prelude::*;

use crate::errors::ErrorKind;
use crate::integrity::VerificationSpec;

verus! {

/// How often a retryable fetch failure is retried before the package fails.
pub const MAX_FETCH_RETRIES: u64 = 5;

/// First retry delay, in milliseconds.
pub const BACKOFF_BASE_MS: u64 = 500;

/// Upper bound on any retry delay, in milliseconds.
pub const BACKOFF_CAP_MS: u64 = 30000;

/// One package's archive source, as the engine sees it: the bytes the remote
/// serves, what the transfer supports, and the verification spec the resolver
/// supplied for the package.
pub struct Source {
    /// Whether the remote has the archive at all; a missing source fails the
    /// package with `NotFound`.
    pub available: bool,
    /// The bytes an uninterrupted transfer would deliver.
    pub data: Vec<u8>,
    /// Whether the remote advertises a content length.
    pub advertises_length: bool,
    /// Whether the remote honours ranged retrieval; without it a resumed
    /// fetch restarts from zero and the staged partial file is discarded.
    pub range_capable: bool,
    /// A pending transfer fault: the connection will drop once this many
    /// bytes are staged. Consumed when it fires.
    pub fail_after: Option<u64>,
    /// How the staged archive is to be verified; `None` means no spec is
    /// available.
    pub vspec: Option<VerificationSpec>,
}

/// A staged archive: the local file's bytes plus the advertised total, so a
/// partial download can be resumed exactly.
pub struct StagedArchive {
    pub data: Vec<u8>,
    /// Advertised total size; `None` when the source does not advertise one.
    pub total: Option<u64>,
}

impl StagedArchive {
    /// An empty staging slot.
    pub fn empty() -> (r: StagedArchive)
        ensures
            r.data@ == Seq::<u8>::empty(),
            r.total is None,
    {
        StagedArchive { data: Vec::new(), total: None }
    }
}

/// The offset a fetch starts from: the staged byte count if the source honours
/// ranges, zero (after discarding the partial file) otherwise.
pub open spec fn fetch_start_offset(staged_len: nat, range_capable: bool) -> nat {
    if range_capable {
        staged_len
    } else {
        0
    }
}

/// Whether a pending fault fires during a fetch that starts at offset `b` of
/// a `total`-byte source.
pub open spec fn fetch_fault_fires(b: nat, fail_after: Option<u64>, total: nat) -> bool {
    match fail_after {
        Some(f) => b <= f < total,
        None => false,
    }
}

/// The advertised total recorded on the staged archive.
pub open spec fn advertised_total(src: Source) -> Option<u64> {
    if src.advertises_length {
        Some(src.data@.len() as u64)
    } else {
        None
    }
}

/// Did one fetch attempt complete, or was the transfer interrupted by a
/// fault (retryable; the partial file stays intact)?
#[derive(Clone, Copy, Debug, PartialEq, Eq, Structural)]
pub enum FetchOutcome {
    Complete,
    Interrupted,
}

/// One fetch attempt against `src`, resuming from whatever `staged` already
/// holds. Requests only the remaining byte range when the source honours
/// ranges, otherwise discards the partial file first. On a transfer fault the
/// staged file keeps every byte received so far, so a later attempt resumes
/// at that exact offset.
pub fn fetch_step(staged: &mut StagedArchive, src: &mut Source) -> (r: FetchOutcome)
    requires
        old(src).range_capable ==> old(staged).data@.is_prefix_of(old(src).data@),
    ensures
        final(src).data == old(src).data,
        final(src).available == old(src).available,
        final(src).advertises_length == old(src).advertises_length,
        final(src).range_capable == old(src).range_capable,
        final(src).vspec == old(src).vspec,
        final(staged).total == advertised_total(*old(src)),
        ({
            let b = fetch_start_offset(old(staged).data@.len(), old(src).range_capable);
            if fetch_fault_fires(b, old(src).fail_after, old(src).data@.len()) {
                &&& r == FetchOutcome::Interrupted
                &&& final(staged).data@ == old(src).data@.take(
                    old(src).fail_after.unwrap() as int,
                )
                &&& final(src).fail_after is None
            } else {
                &&& r == FetchOutcome::Complete
                &&& final(staged).data@ == old(src).data@
                &&& final(src).fail_after == old(src).fail_after
            }
        }),
{
    let total = src.data.len();
    staged.total = if src.advertises_length {
        Some(total as u64)
    } else {
        None
    };
    if !src.range_capable && staged.data.len() > 0 {
        staged.data.clear();
    }
    let b = staged.data.len();
    let ghost b0 = fetch_start_offset(old(staged).data@.len(), old(src).range_capable);
    assert(b == b0);
    let mut end: usize = total;
    let mut fault: bool = false;
    match src.fail_after {
        Some(f) => {
            if b as u64 <= f && f < total as u64 {
                end = f as usize;
                fault = true;
                src.fail_after = None;
            }
        },
        None => {},
    }
    while staged.data.len() < end
        invariant
            end <= src.data@.len(),
            staged.data@.len() <= end,
            staged.data@ == src.data@.take(staged.data@.len() as int),
            staged.total == advertised_total(*old(src)),
        decreases end - staged.data@.len(),
    {
        let i = staged.data.len();
        let byte = src.data[i];
        staged.data.push(byte);
        proof {
            assert(staged.data@ =~= src.data@.take(staged.data@.len() as int));
        }
    }
    proof {
        assert(staged.data@ == src.data@.take(end as int));
        if !fault {
            assert(staged.data@ =~= src.data@);
        }
    }
    if fault {
        FetchOutcome::Interrupted
    } else {
        FetchOutcome::Complete
    }
}

/// The capped exponential backoff schedule: the base delay doubles with each
/// attempt until it reaches the cap.
pub open spec fn backoff_delay_spec(attempt: nat) -> u64
    decreases attempt,
{
    if attempt == 0 {
        BACKOFF_BASE_MS
    } else {
        let p = backoff_delay_spec((attempt - 1) as nat);
        if 2 * p > BACKOFF_CAP_MS {
            BACKOFF_CAP_MS
        } else {
            (2 * p) as u64
        }
    }
}

/// The delay before retry number `attempt` (counting from zero).
pub fn backoff_delay_ms(attempt: u64) -> (r: u64)
    ensures
        r == backoff_delay_spec(attempt as nat),
        r <= BACKOFF_CAP_MS,
{
    proof {
        lemma_backoff_bounded(attempt as nat);
    }
    let mut d: u64 = BACKOFF_BASE_MS;
    let mut k: u64 = 0;
    while k < attempt
        invariant
            k <= attempt,
            d == backoff_delay_spec(k as nat),
            d <= BACKOFF_CAP_MS,
        decreases attempt - k,
    {
        proof {
            lemma_backoff_bounded((k + 1) as nat);
        }
        if 2 * d > BACKOFF_CAP_MS {
            d = BACKOFF_CAP_MS;
        } else {
            d = 2 * d;
        }
        k = k + 1;
    }
    d
}

/// Every delay in the schedule stays at or under the cap.
pub proof fn lemma_backoff_bounded(attempt: nat)
    ensures
        backoff_delay_spec(attempt) <= BACKOFF_CAP_MS,
    decreases attempt,
{
    if attempt > 0 {
        lemma_backoff_bounded((attempt - 1) as nat);
    }
}

/// Whether a failed attempt is retried, and after how many milliseconds:
/// only retryable failures, and only while the bounded retry budget lasts.
pub fn should_retry(err: ErrorKind, attempt: u64) -> (r: Option<u64>)
    ensures
        r is Some <==> err == ErrorKind::Network && attempt < MAX_FETCH_RETRIES,
        r matches Some(d) ==> d == backoff_delay_spec(attempt as nat),
{
    if err.is_retryable() && attempt < MAX_FETCH_RETRIES {
        Some(backoff_delay_ms(attempt))
    } else {
        None
    }
}

} // verus!
