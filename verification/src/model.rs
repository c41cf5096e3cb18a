//! The mathematical model of a running transaction: per-package stage and
//! staging state, the sources, and the target filesystem, together with the
//! one-step transition the engine takes at every stage boundary.
//!
//! The executable engine is proved to follow `step_spec` exactly, so
//! statements about whole runs — a resumed run reaches the same outcome as an
//! uninterrupted one, an unverified archive never touches the target — are
//! proved here once, about the model, and carry over to the code.

use vstd::prelude::*;

use crate::archive::decoded_entries;
use crate::errors::ErrorKind;
use crate::extract::{extraction_outcome, record_paths};
use crate::fetch::{fetch_fault_fires, fetch_start_offset};
use crate::fsmodel::NodeV;
use crate::integrity::{VerificationSpec, verification_error, verification_passes};
use crate::pkg::{Phase, Stage};

verus! {

/// One package's state: its stage, the bytes staged for it, and its
/// extraction record.
pub ghost struct PkgM {
    pub stage: Stage,
    pub staged: Seq<u8>,
    pub record: Option<Seq<Seq<char>>>,
}

/// One package's source: what the remote serves and supports, the pending
/// transfer fault if any, and the package's verification spec.
pub ghost struct SrcM {
    pub available: bool,
    pub data: Seq<u8>,
    pub range_capable: bool,
    pub fail_after: Option<u64>,
    pub vspec: Option<VerificationSpec>,
}

/// The whole state one transaction runs over.
pub ghost struct Model {
    pub pkgs: Seq<PkgM>,
    pub srcs: Seq<SrcM>,
    pub fs: Map<Seq<char>, NodeV>,
    pub force: bool,
}

/// The staged bytes are consistent with the package's stage: a fetch in
/// flight has staged exactly its byte count, a fetched archive is staged
/// whole, and a committed package's staged archive has been destroyed.
pub open spec fn pkg_wf(p: PkgM, s: SrcM) -> bool {
    &&& p.staged.is_prefix_of(s.data)
    &&& match p.stage {
        Stage::Fetching { bytes } => p.staged.len() == bytes,
        Stage::Fetched => p.staged == s.data,
        Stage::Verifying => p.staged == s.data,
        Stage::Verified => p.staged == s.data,
        Stage::Extracting => p.staged == s.data,
        Stage::Extracted => p.staged == s.data,
        Stage::Committed => p.staged.len() == 0,
        _ => true,
    }
}

/// A well-formed model: one source per package, each consistent.
pub open spec fn model_wf(m: Model) -> bool {
    &&& m.pkgs.len() == m.srcs.len()
    &&& forall|i: int| 0 <= i < m.pkgs.len() ==> pkg_wf(#[trigger] m.pkgs[i], m.srcs[i])
}

/// The first package at or after `i` that still needs work.
pub open spec fn first_active_from(pkgs: Seq<PkgM>, i: int) -> Option<int>
    decreases pkgs.len() - i,
    when 0 <= i <= pkgs.len()
{
    if i >= pkgs.len() {
        None
    } else if !pkgs[i].stage.is_terminal() {
        Some(i)
    } else {
        first_active_from(pkgs, i + 1)
    }
}

/// The package the engine works on next: stage advancement is sequential and
/// in package order.
pub open spec fn first_active(m: Model) -> Option<int> {
    first_active_from(m.pkgs, 0)
}

/// Nothing is left to do: every package is terminal.
pub open spec fn quiescent(m: Model) -> bool {
    first_active(m) is None
}

/// `m` with package `i` replaced.
pub open spec fn set_pkg(m: Model, i: int, p: PkgM) -> Model {
    Model { pkgs: m.pkgs.update(i, p), ..m }
}

/// `m` with package `i`'s stage replaced.
pub open spec fn set_stage(m: Model, i: int, stage: Stage) -> Model {
    set_pkg(m, i, PkgM { stage, ..m.pkgs[i] })
}

/// The fetch attempt for package `i`: resume from the staged byte count when
/// the source honours ranges (discard and restart otherwise); a pending fault
/// in the requested range interrupts the transfer at its byte, consuming the
/// fault, and the partial file stays staged for the next attempt.
pub open spec fn fetch_step_model(m: Model, i: int) -> Model {
    let p = m.pkgs[i];
    let s = m.srcs[i];
    let b = fetch_start_offset(p.staged.len(), s.range_capable);
    if fetch_fault_fires(b, s.fail_after, s.data.len()) {
        let f = s.fail_after.unwrap();
        Model {
            pkgs: m.pkgs.update(
                i,
                PkgM { stage: Stage::Fetching { bytes: f }, staged: s.data.take(f as int), ..p },
            ),
            srcs: m.srcs.update(i, SrcM { fail_after: None, ..s }),
            ..m
        }
    } else {
        set_pkg(m, i, PkgM { stage: Stage::Fetched, staged: s.data, ..p })
    }
}

/// The extraction step for package `i`: decode the staged archive, then map
/// its entries onto the target; a malformed archive is a local `Io` failure,
/// and any rejection leaves the target untouched.
pub open spec fn extract_step_model(m: Model, i: int) -> Model {
    let p = m.pkgs[i];
    match decoded_entries(p.staged) {
        None => set_stage(
            m,
            i,
            Stage::Failed { reason: ErrorKind::Io, phase: Phase::Extract },
        ),
        Some(entries) => match extraction_outcome(m.fs, entries, p.record) {
            Err(reason) => set_stage(m, i, Stage::Failed { reason, phase: Phase::Extract }),
            Ok(result) => Model {
                pkgs: m.pkgs.update(
                    i,
                    PkgM { stage: Stage::Extracted, record: Some(result.1), ..p },
                ),
                fs: result.0,
                ..m
            },
        },
    }
}

/// One stage transition of package `i`. Failures record the reason and the
/// phase; the staged archive is kept on every failure (a mismatched archive
/// is quarantined, a partial download stays resumable), and destroyed only at
/// commit.
pub open spec fn step_pkg(m: Model, i: int) -> Model {
    let p = m.pkgs[i];
    let s = m.srcs[i];
    match p.stage {
        Stage::NotStarted => {
            if !s.available {
                set_stage(
                    m,
                    i,
                    Stage::Failed { reason: ErrorKind::NotFound, phase: Phase::Fetch },
                )
            } else {
                set_pkg(
                    m,
                    i,
                    PkgM { stage: Stage::Fetching { bytes: 0 }, staged: Seq::empty(), ..p },
                )
            }
        },
        Stage::Fetching { .. } => fetch_step_model(m, i),
        Stage::Fetched => set_stage(m, i, Stage::Verifying),
        Stage::Verifying => {
            if verification_passes(p.staged, s.vspec, m.force) {
                set_stage(m, i, Stage::Verified)
            } else {
                set_stage(
                    m,
                    i,
                    Stage::Failed {
                        reason: verification_error(p.staged, s.vspec),
                        phase: Phase::Verify,
                    },
                )
            }
        },
        Stage::Verified => set_stage(m, i, Stage::Extracting),
        Stage::Extracting => extract_step_model(m, i),
        Stage::Extracted => set_pkg(
            m,
            i,
            PkgM { stage: Stage::Committed, staged: Seq::empty(), ..p },
        ),
        _ => m,
    }
}

/// One source per package; anything else has no meaning and is left alone.
pub open spec fn balanced(m: Model) -> bool {
    m.pkgs.len() == m.srcs.len()
}

/// Nothing remains for the engine: every package terminal (or the model is
/// not even balanced).
pub open spec fn done(m: Model) -> bool {
    !balanced(m) || quiescent(m)
}

/// The next step is a fetch attempt that a pending transfer fault will
/// interrupt: the one step after which the engine pauses of its own accord.
pub open spec fn step_interrupts(m: Model) -> bool {
    balanced(m) && match first_active(m) {
        Some(i) => m.pkgs[i].stage matches Stage::Fetching { .. } && fetch_fault_fires(
            fetch_start_offset(m.pkgs[i].staged.len(), m.srcs[i].range_capable),
            m.srcs[i].fail_after,
            m.srcs[i].data.len(),
        ),
        None => false,
    }
}

/// A transfer fault never ends the work: the interrupted package is left
/// `Fetching`, so the model is not quiescent after the step.
pub proof fn lemma_interrupt_not_quiescent(m: Model)
    requires
        step_interrupts(m),
    ensures
        !quiescent(step_spec(m)),
{
    let i = first_active(m).unwrap();
    lemma_first_active_valid(m.pkgs, 0);
    let m2 = step_spec(m);
    assert(m2.pkgs[i].stage matches Stage::Fetching { .. });
    if quiescent(m2) {
        lemma_quiescent_all_terminal(m2.pkgs, 0);
    }
}

/// One step of the engine: advance the first package that needs work; a done
/// model is a fixpoint.
pub open spec fn step_spec(m: Model) -> Model {
    if !balanced(m) {
        m
    } else {
        match first_active(m) {
            None => m,
            Some(i) => step_pkg(m, i),
        }
    }
}

/// `k` steps of the engine.
pub open spec fn steps(m: Model, k: nat) -> Model
    decreases k,
{
    if k == 0 {
        m
    } else {
        steps(step_spec(m), (k - 1) as nat)
    }
}

/// Unconsumed transfer faults: each can interrupt at most one attempt.
pub open spec fn faults_count(srcs: Seq<SrcM>) -> nat
    decreases srcs.len(),
{
    if srcs.len() == 0 {
        0
    } else {
        faults_count(srcs.drop_last()) + if srcs.last().fail_after is Some {
            1nat
        } else {
            0nat
        }
    }
}

/// Stage transitions still ahead of the whole transaction.
pub open spec fn work_total(pkgs: Seq<PkgM>) -> nat
    decreases pkgs.len(),
{
    if pkgs.len() == 0 {
        0
    } else {
        work_total(pkgs.drop_last()) + pkgs.last().stage.work()
    }
}

proof fn lemma_work_total_update(pkgs: Seq<PkgM>, i: int, p: PkgM)
    requires
        0 <= i < pkgs.len(),
    ensures
        work_total(pkgs.update(i, p)) == work_total(pkgs) - pkgs[i].stage.work()
            + p.stage.work(),
    decreases pkgs.len(),
{
    if i == pkgs.len() - 1 {
        assert(pkgs.update(i, p).drop_last() =~= pkgs.drop_last());
    } else {
        assert(pkgs.update(i, p).drop_last() =~= pkgs.drop_last().update(i, p));
        lemma_work_total_update(pkgs.drop_last(), i, p);
    }
}

proof fn lemma_faults_count_update(srcs: Seq<SrcM>, i: int, s: SrcM)
    requires
        0 <= i < srcs.len(),
    ensures
        faults_count(srcs.update(i, s)) == faults_count(srcs) - (
        if srcs[i].fail_after is Some {
            1int
        } else {
            0int
        }) + (
        if s.fail_after is Some {
            1int
        } else {
            0int
        }),
    decreases srcs.len(),
{
    if i == srcs.len() - 1 {
        assert(srcs.update(i, s).drop_last() =~= srcs.drop_last());
    } else {
        assert(srcs.update(i, s).drop_last() =~= srcs.drop_last().update(i, s));
        lemma_faults_count_update(srcs.drop_last(), i, s);
    }
}

/// The package the engine picks is never terminal and is in range.
pub proof fn lemma_first_active_valid(pkgs: Seq<PkgM>, i: int)
    requires
        0 <= i <= pkgs.len(),
        first_active_from(pkgs, i) is Some,
    ensures
        i <= first_active_from(pkgs, i).unwrap() < pkgs.len(),
        !pkgs[first_active_from(pkgs, i).unwrap()].stage.is_terminal(),
        forall|j: int|
            i <= j < first_active_from(pkgs, i).unwrap() ==> (
            #[trigger] pkgs[j]).stage.is_terminal(),
    decreases pkgs.len() - i,
{
    if i < pkgs.len() && pkgs[i].stage.is_terminal() {
        lemma_first_active_valid(pkgs, i + 1);
    }
}

/// A quiescent model has only terminal packages.
pub proof fn lemma_quiescent_all_terminal(pkgs: Seq<PkgM>, i: int)
    requires
        0 <= i <= pkgs.len(),
        first_active_from(pkgs, i) is None,
    ensures
        forall|j: int| i <= j < pkgs.len() ==> (#[trigger] pkgs[j]).stage.is_terminal(),
    decreases pkgs.len() - i,
{
    if i < pkgs.len() {
        lemma_quiescent_all_terminal(pkgs, i + 1);
    }
}

/// When every package is terminal the engine finds nothing to do.
pub proof fn lemma_all_terminal_quiescent(pkgs: Seq<PkgM>, i: int)
    requires
        0 <= i <= pkgs.len(),
        forall|j: int| i <= j < pkgs.len() ==> (#[trigger] pkgs[j]).stage.is_terminal(),
    ensures
        first_active_from(pkgs, i) is None,
    decreases pkgs.len() - i,
{
    if i < pkgs.len() {
        lemma_all_terminal_quiescent(pkgs, i + 1);
    }
}

/// Every step either consumes a transfer fault or retires stage work: the
/// run terminates.
pub proof fn lemma_step_decreases(m: Model)
    requires
        !done(m),
    ensures
        faults_count(step_spec(m).srcs) <= faults_count(m.srcs),
        faults_count(step_spec(m).srcs) == faults_count(m.srcs) ==> work_total(
            step_spec(m).pkgs,
        ) < work_total(m.pkgs),
{
    let i = first_active(m).unwrap();
    lemma_first_active_valid(m.pkgs, 0);
    let p = m.pkgs[i];
    let s = m.srcs[i];
    match p.stage {
        Stage::Fetching { .. } => {
            let b = fetch_start_offset(p.staged.len(), s.range_capable);
            if fetch_fault_fires(b, s.fail_after, s.data.len()) {
                lemma_faults_count_update(m.srcs, i, SrcM { fail_after: None, ..s });
                lemma_work_total_update(
                    m.pkgs,
                    i,
                    PkgM {
                        stage: Stage::Fetching { bytes: s.fail_after.unwrap() },
                        staged: s.data.take(s.fail_after.unwrap() as int),
                        ..p
                    },
                );
            } else {
                lemma_work_total_update(m.pkgs, i, PkgM { stage: Stage::Fetched, staged: s.data, ..p });
            }
        },
        _ => {
            let m2 = step_pkg(m, i);
            assert(m2.srcs == m.srcs);
            lemma_work_total_update(m.pkgs, i, m2.pkgs[i]);
            assert(m2.pkgs == m.pkgs.update(i, m2.pkgs[i]));
        },
    }
}

/// The run to quiescence: what an uninterrupted sequence of resumes reaches.
pub open spec fn run_full(m: Model) -> Model
    decreases faults_count(m.srcs), work_total(m.pkgs),
        via lemma_run_full_decreases
{
    if done(m) {
        m
    } else {
        run_full(step_spec(m))
    }
}

#[via_fn]
proof fn lemma_run_full_decreases(m: Model) {
    if !done(m) {
        lemma_step_decreases(m);
    }
}

/// One step never changes where the run ends.
pub proof fn lemma_run_full_step(m: Model)
    ensures
        run_full(step_spec(m)) == run_full(m),
{
    if done(m) {
        assert(step_spec(m) == m);
    }
}

/// Taking one more step is stepping the result: steps compose.
pub proof fn lemma_steps_snoc(m: Model, k: nat)
    ensures
        steps(m, k + 1) == step_spec(steps(m, k)),
    decreases k,
{
    assert(steps(m, k + 1) == steps(step_spec(m), (k + 1 - 1) as nat));
    if k == 0 {
        assert(steps(step_spec(m), 0) == step_spec(m));
        assert(steps(m, 0) == m);
    } else {
        lemma_steps_snoc(step_spec(m), (k - 1) as nat);
        assert(steps(m, k) == steps(step_spec(m), (k - 1) as nat));
    }
}

/// Scanning for the first non-terminal stage finds exactly `first_active`.
pub proof fn lemma_first_active_is(pkgs: Seq<PkgM>, from: int, i: int)
    requires
        0 <= from <= i < pkgs.len(),
        !pkgs[i].stage.is_terminal(),
        forall|j: int| from <= j < i ==> (#[trigger] pkgs[j]).stage.is_terminal(),
    ensures
        first_active_from(pkgs, from) == Some(i),
    decreases i - from,
{
    if from < i {
        lemma_first_active_is(pkgs, from + 1, i);
    }
}

/// A step keeps the model well formed: every arm re-establishes the stage's
/// staging discipline.
pub proof fn lemma_step_preserves_wf(m: Model)
    requires
        model_wf(m),
    ensures
        model_wf(step_spec(m)),
{
    if balanced(m) && first_active(m) is Some {
        let i = first_active(m).unwrap();
        lemma_first_active_valid(m.pkgs, 0);
        let m2 = step_spec(m);
        let p = m.pkgs[i];
        let s = m.srcs[i];
        assert forall|k: int| 0 <= k < m2.pkgs.len() implies pkg_wf(
            #[trigger] m2.pkgs[k],
            m2.srcs[k],
        ) by {
            if k != i {
                assert(m2.pkgs[k] == m.pkgs[k]);
                assert(m2.srcs[k] == m.srcs[k]);
            } else {
                match p.stage {
                    Stage::Fetching { .. } => {
                        let b = fetch_start_offset(p.staged.len(), s.range_capable);
                        if fetch_fault_fires(b, s.fail_after, s.data.len()) {
                            let f = s.fail_after.unwrap();
                            assert(m2.pkgs[i].staged == s.data.take(f as int));
                            assert(m2.pkgs[i].staged.is_prefix_of(s.data));
                        } else {
                            assert(s.data.take(s.data.len() as int) =~= s.data);
                        }
                    },
                    Stage::NotStarted => {
                        assert(Seq::<u8>::empty().is_prefix_of(s.data));
                    },
                    Stage::Extracted => {
                        assert(Seq::<u8>::empty().is_prefix_of(s.data));
                    },
                    _ => {},
                }
            }
        }
    }
}

} // verus!
