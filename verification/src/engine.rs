//! The transaction engine: drives each package of a transaction through
//! fetch, verify, extract and commit, persisting every stage transition to
//! the journal before the matching progress event is emitted, pausing only at
//! stage boundaries, and resuming exactly where a run stopped.
//!
//! The engine works over an explicit environment (`Env`); every step it takes
//! is proved equal to the model's `step_spec`, so the run-level statements in
//! `laws` hold of this code.

use vstd::prelude::*;

use crate::archive::decode_archive;
use crate::errors::ErrorKind;
use crate::extract::{ExtractionRecord, apply_extraction, prior_view, remove_all, remove_record_paths};
use crate::fetch::{FetchOutcome, Source, StagedArchive, fetch_step};
use crate::fsmodel::Fs;
use crate::integrity::verify_archive;
use crate::journal::{Journal, Transaction, tx_updated, tx_with_state};
use crate::model::{
    Model, PkgM, SrcM, balanced, first_active, lemma_all_terminal_quiescent,
    lemma_first_active_is, lemma_step_preserves_wf, lemma_steps_snoc, model_wf, quiescent,
    step_pkg, step_spec, steps,
};
use crate::pkg::{Outcome, PackageRef, Phase, Stage, TxState, stage_outcome, outcome_of};

verus! {

/// The world one transaction runs against: one source and one staging slot
/// per package, and the target filesystem. The process boundary performs the
/// real transfers and writes and mirrors them here.
pub struct Env {
    pub sources: Vec<Source>,
    pub staging: Vec<StagedArchive>,
    pub fs: Fs,
}

/// The model of one source.
pub open spec fn src_view(s: Source) -> SrcM {
    SrcM {
        available: s.available,
        data: s.data@,
        range_capable: s.range_capable,
        fail_after: s.fail_after,
        vspec: s.vspec,
    }
}

/// The model of one optional extraction record.
pub open spec fn rec_view(r: Option<ExtractionRecord>) -> Option<Seq<Seq<char>>> {
    match r {
        Some(rec) => Some(rec.deep_view()),
        None => None,
    }
}

/// The environment carries one source and one staging slot per package.
pub open spec fn env_sized(tx: Transaction, env: Env) -> bool {
    &&& env.sources@.len() == tx.pkgs@.len()
    &&& env.staging@.len() == tx.pkgs@.len()
}

/// The model a transaction and its environment denote.
pub open spec fn tx_env_model(tx: Transaction, env: Env) -> Model {
    Model {
        pkgs: Seq::new(
            tx.pkgs@.len(),
            |i: int|
                PkgM {
                    stage: tx.stages@[i],
                    staged: env.staging@[i].data@,
                    record: rec_view(tx.records@[i]),
                },
        ),
        srcs: Seq::new(env.sources@.len(), |i: int| src_view(env.sources@[i])),
        fs: env.fs@,
        force: tx.force,
    }
}

/// One progress event, emitted only after the stage transition it reports
/// has been recorded in the journal: the caller's view of progress is never
/// ahead of durable state.
pub struct ProgressEvent {
    pub package: usize,
    pub stage: Stage,
    pub bytes_done: u64,
    pub bytes_total: Option<u64>,
    /// Verification was waived for this package (explicit opt-out or force).
    pub warning: bool,
}

/// The event one engine step emits, pinned to the stage transition it
/// reports: the acted package's index, its stage after the step, and the
/// bytes staged for it after the step (`bytes_done` tracks the staged
/// archive, so it is the received byte count while fetching, the archive
/// size once fetched, and zero after commit destroys the staged file).
pub open spec fn event_matches_step(m: Model, e: ProgressEvent) -> bool {
    match first_active(m) {
        Some(i) => {
            &&& e.package == i
            &&& e.stage == step_spec(m).pkgs[i].stage
            &&& e.bytes_done == step_spec(m).pkgs[i].staged.len() as u64
        },
        None => false,
    }
}

/// What one engine step did.
#[derive(Clone, Copy, Debug, PartialEq, Eq, Structural)]
pub enum StepResult {
    /// A stage transition was recorded in the journal.
    Advanced,
    /// The transfer was interrupted by a fault; the run pauses, resumable at
    /// the recorded byte offset.
    Interrupted,
    /// Every package is terminal; nothing was changed.
    Quiescent,
}

/// How a run ended.
#[derive(Clone, Copy, Debug, PartialEq, Eq, Structural)]
pub enum RunStatus {
    /// Every package reached a terminal stage; the transaction state is
    /// `Committed`, or `Failed` if any package failed.
    Completed,
    /// The run stopped at a stage boundary — transfer fault or exhausted step
    /// budget — and the transaction is `Paused`, ready for `resume`.
    Paused,
}

/// The terminal state a finished run records: `Failed` if any package
/// failed, else `Committed`.
pub open spec fn tx_final_state(stages: Seq<Stage>) -> TxState {
    if exists|i: int| 0 <= i < stages.len() && (#[trigger] stages[i]) matches Stage::Failed { .. } {
        TxState::Failed
    } else {
        TxState::Committed
    }
}

/// The first package that still needs work, by stage scan.
fn first_pending(tx: &Transaction) -> (r: Option<usize>)
    ensures
        match r {
            Some(i) => {
                &&& i < tx.stages@.len()
                &&& !tx.stages@[i as int].is_terminal()
                &&& forall|j: int| 0 <= j < i ==> (#[trigger] tx.stages@[j]).is_terminal()
            },
            None => forall|j: int|
                0 <= j < tx.stages@.len() ==> (#[trigger] tx.stages@[j]).is_terminal(),
        },
{
    let mut i: usize = 0;
    while i < tx.stages.len()
        invariant
            i <= tx.stages@.len(),
            forall|j: int| 0 <= j < i ==> (#[trigger] tx.stages@[j]).is_terminal(),
        decreases tx.stages@.len() - i,
    {
        if !tx.stages[i].check_terminal() {
            return Some(i);
        }
        i = i + 1;
    }
    None
}

/// Records one stage transition through the journal's atomic `update`; the
/// caller knows the transaction's position, so the update cannot miss.
fn record_transition(
    j: &mut Journal,
    id: u64,
    pos: usize,
    i: usize,
    stage: Stage,
    rec: Option<ExtractionRecord>,
)
    requires
        old(j).wf(),
        pos < old(j).txs@.len(),
        old(j).txs@[pos as int].id == id,
        i < old(j).txs@[pos as int].pkgs@.len(),
    ensures
        final(j).wf(),
        final(j).lock == old(j).lock,
        final(j).next_id == old(j).next_id,
        final(j).txs@.len() == old(j).txs@.len(),
        forall|t: int|
            0 <= t < old(j).txs@.len() && t != pos ==> final(j).txs@[t] == old(j).txs@[t],
        tx_updated(old(j).txs@[pos as int], final(j).txs@[pos as int], i as int, stage, rec),
{
    let ghost rec_g = rec;
    let r = j.update(id, i, stage, rec);
    proof {
        if r is Err {
            assert(old(j).txs@[pos as int].id == id && i < old(j).txs@[pos as int].pkgs@.len());
            assert(false);
        }
        let t = choose|t: int|
            {
                &&& 0 <= t < old(j).txs@.len()
                &&& (#[trigger] old(j).txs@[t]).id == id
                &&& i < old(j).txs@[t].pkgs@.len()
                &&& j.txs@.len() == old(j).txs@.len()
                &&& (forall|u: int|
                    0 <= u < old(j).txs@.len() && u != t ==> j.txs@[u] == old(j).txs@[u])
                &&& tx_updated(old(j).txs@[t], j.txs@[t], i as int, stage, rec_g)
            };
        if t != pos {
            assert(old(j).txs@[t].id != old(j).txs@[pos as int].id);
            assert(false);
        }
    }
}

/// One engine step on transaction `id` at position `pos`: advance the first
/// package that needs work by exactly one stage transition — the journal is
/// updated before the progress event is emitted — or report quiescence. The
/// resulting state is exactly `step_spec` of the starting state.
pub fn step_tx(
    j: &mut Journal,
    env: &mut Env,
    id: u64,
    pos: usize,
    events: &mut Vec<ProgressEvent>,
) -> (r: StepResult)
    requires
        old(j).wf(),
        pos < old(j).txs@.len(),
        old(j).txs@[pos as int].id == id,
        env_sized(old(j).txs@[pos as int], *old(env)),
        model_wf(tx_env_model(old(j).txs@[pos as int], *old(env))),
    ensures
        final(j).wf(),
        final(j).lock == old(j).lock,
        final(j).next_id == old(j).next_id,
        final(j).txs@.len() == old(j).txs@.len(),
        forall|t: int|
            0 <= t < old(j).txs@.len() && t != pos ==> final(j).txs@[t] == old(j).txs@[t],
        final(j).txs@[pos as int].id == id,
        final(j).txs@[pos as int].pkgs == old(j).txs@[pos as int].pkgs,
        final(j).txs@[pos as int].state == old(j).txs@[pos as int].state,
        final(j).txs@[pos as int].force == old(j).txs@[pos as int].force,
        final(j).txs@[pos as int].created_at == old(j).txs@[pos as int].created_at,
        env_sized(final(j).txs@[pos as int], *final(env)),
        tx_env_model(final(j).txs@[pos as int], *final(env)) == step_spec(
            tx_env_model(old(j).txs@[pos as int], *old(env)),
        ),
        r == StepResult::Quiescent <==> quiescent(tx_env_model(old(j).txs@[pos as int], *old(env))),
        r == StepResult::Interrupted <==> crate::model::step_interrupts(
            tx_env_model(old(j).txs@[pos as int], *old(env)),
        ),
        r == StepResult::Quiescent ==> *final(j) == *old(j) && *final(env) == *old(env)
            && final(events)@ == old(events)@,
        old(events)@.is_prefix_of(final(events)@),
        r != StepResult::Quiescent ==> final(events)@.len() == old(events)@.len() + 1
            && event_matches_step(
            tx_env_model(old(j).txs@[pos as int], *old(env)),
            final(events)@.last(),
        ) && final(events)@.last().bytes_total == final(env).staging@[first_active(
            tx_env_model(old(j).txs@[pos as int], *old(env)),
        ).unwrap()].total,
{
    let ghost txo = old(j).txs@[pos as int];
    let ghost m0 = tx_env_model(txo, *old(env));
    proof {
        assert(m0.pkgs.len() == txo.pkgs@.len());
        assert(balanced(m0));
    }
    let i = match first_pending(&j.txs[pos]) {
        None => {
            proof {
                assert forall|k: int| 0 <= k < m0.pkgs.len() implies (
                #[trigger] m0.pkgs[k]).stage.is_terminal() by {
                    assert(m0.pkgs[k].stage == txo.stages@[k]);
                }
                lemma_all_terminal_quiescent(m0.pkgs, 0);
            }
            return StepResult::Quiescent;
        },
        Some(i) => i,
    };
    proof {
        assert(m0.pkgs[i as int].stage == txo.stages@[i as int]);
        assert forall|k: int| 0 <= k < i implies (#[trigger] m0.pkgs[k]).stage.is_terminal() by {
            assert(m0.pkgs[k].stage == txo.stages@[k]);
        }
        lemma_first_active_is(m0.pkgs, 0, i as int);
        assert(first_active(m0) == Some(i as int));
        assert(!quiescent(m0));
    }
    let ghost p0 = m0.pkgs[i as int];
    let ghost s0 = m0.srcs[i as int];
    proof {
        assert(s0 == src_view(old(env).sources@[i as int]));
        assert(p0.staged == old(env).staging@[i as int].data@);
        assert(p0.record == rec_view(txo.records@[i as int]));
    }
    let stage = j.txs[pos].stages[i];
    let force = j.txs[pos].force;
    match stage {
        Stage::NotStarted => {
            if !env.sources[i].available {
                let new_stage = Stage::Failed { reason: ErrorKind::NotFound, phase: Phase::Fetch };
                record_transition(j, id, pos, i, new_stage, None);
                proof {
                    lemma_model_after(
                        txo,
                        *old(env),
                        j.txs@[pos as int],
                        *env,
                        i as int,
                        PkgM { stage: new_stage, ..p0 },
                        s0,
                        m0,
                    );
                    assert(m0.srcs.update(i as int, s0) =~= m0.srcs);
                    assert(tx_env_model(j.txs@[pos as int], *env) == step_pkg(m0, i as int));
                }
                push_event(events, i, new_stage, &env.staging[i], false);
                StepResult::Advanced
            } else {
                env.staging[i] = StagedArchive::empty();
                let new_stage = Stage::Fetching { bytes: 0 };
                record_transition(j, id, pos, i, new_stage, None);
                proof {
                    lemma_model_after(
                        txo,
                        *old(env),
                        j.txs@[pos as int],
                        *env,
                        i as int,
                        PkgM { stage: new_stage, staged: Seq::empty(), ..p0 },
                        s0,
                        m0,
                    );
                    assert(m0.srcs.update(i as int, s0) =~= m0.srcs);
                    assert(tx_env_model(j.txs@[pos as int], *env) == step_pkg(m0, i as int));
                }
                push_event(events, i, new_stage, &env.staging[i], false);
                StepResult::Advanced
            }
        },
        Stage::Fetching { .. } => {
            let outcome = fetch_step(&mut env.staging[i], &mut env.sources[i]);
            match outcome {
                FetchOutcome::Complete => {
                    let new_stage = Stage::Fetched;
                    record_transition(j, id, pos, i, new_stage, None);
                    proof {
                        lemma_model_after(
                            txo,
                            *old(env),
                            j.txs@[pos as int],
                            *env,
                            i as int,
                            PkgM { stage: new_stage, staged: s0.data, ..p0 },
                            s0,
                            m0,
                        );
                        assert(m0.srcs.update(i as int, s0) =~= m0.srcs);
                        assert(tx_env_model(j.txs@[pos as int], *env) == step_pkg(m0, i as int));
                    }
                    push_event(events, i, new_stage, &env.staging[i], false);
                    StepResult::Advanced
                },
                FetchOutcome::Interrupted => {
                    let staged_len = env.staging[i].data.len();
                    let new_stage = Stage::Fetching { bytes: staged_len as u64 };
                    let ghost f = s0.fail_after.unwrap();
                    proof {
                        assert(env.staging@[i as int].data@ == s0.data.take(f as int));
                        assert(staged_len as u64 == f);
                    }
                    record_transition(j, id, pos, i, new_stage, None);
                    proof {
                        lemma_model_after(
                            txo,
                            *old(env),
                            j.txs@[pos as int],
                            *env,
                            i as int,
                            PkgM {
                                stage: Stage::Fetching { bytes: f },
                                staged: s0.data.take(f as int),
                                ..p0
                            },
                            SrcM { fail_after: None, ..s0 },
                            m0,
                        );
                        assert(tx_env_model(j.txs@[pos as int], *env) == step_pkg(m0, i as int));
                    }
                    push_event(events, i, new_stage, &env.staging[i], false);
                    StepResult::Interrupted
                },
            }
        },
        Stage::Fetched => {
            let new_stage = Stage::Verifying;
            record_transition(j, id, pos, i, new_stage, None);
            proof {
                lemma_model_after(
                    txo,
                    *old(env),
                    j.txs@[pos as int],
                    *env,
                    i as int,
                    PkgM { stage: new_stage, ..p0 },
                    s0,
                    m0,
                );
                assert(m0.srcs.update(i as int, s0) =~= m0.srcs);
                assert(tx_env_model(j.txs@[pos as int], *env) == step_pkg(m0, i as int));
            }
            push_event(events, i, new_stage, &env.staging[i], false);
            StepResult::Advanced
        },
        Stage::Verifying => {
            let (new_stage, warn) = match verify_archive(
                &env.staging[i].data,
                &env.sources[i].vspec,
                force,
            ) {
                Ok(warn) => (Stage::Verified, warn),
                Err(e) => (Stage::Failed { reason: e, phase: Phase::Verify }, false),
            };
            record_transition(j, id, pos, i, new_stage, None);
            proof {
                lemma_model_after(
                    txo,
                    *old(env),
                    j.txs@[pos as int],
                    *env,
                    i as int,
                    PkgM { stage: new_stage, ..p0 },
                    s0,
                    m0,
                );
                assert(m0.srcs.update(i as int, s0) =~= m0.srcs);
                assert(tx_env_model(j.txs@[pos as int], *env) == step_pkg(m0, i as int));
            }
            push_event(events, i, new_stage, &env.staging[i], warn);
            StepResult::Advanced
        },
        Stage::Verified => {
            let new_stage = Stage::Extracting;
            record_transition(j, id, pos, i, new_stage, None);
            proof {
                lemma_model_after(
                    txo,
                    *old(env),
                    j.txs@[pos as int],
                    *env,
                    i as int,
                    PkgM { stage: new_stage, ..p0 },
                    s0,
                    m0,
                );
                assert(m0.srcs.update(i as int, s0) =~= m0.srcs);
                assert(tx_env_model(j.txs@[pos as int], *env) == step_pkg(m0, i as int));
            }
            push_event(events, i, new_stage, &env.staging[i], false);
            StepResult::Advanced
        },
        Stage::Extracting => {
            let (new_stage, new_rec) = match decode_archive(&env.staging[i].data) {
                None => (Stage::Failed { reason: ErrorKind::Io, phase: Phase::Extract }, None),
                Some(entries) => {
                    let prior = j.txs[pos].records[i].as_ref();
                    proof {
                        assert(prior_view(prior) == p0.record);
                    }
                    match apply_extraction(&mut env.fs, &entries, prior) {
                        Ok(rec) => (Stage::Extracted, Some(rec)),
                        Err(e) => (Stage::Failed { reason: e, phase: Phase::Extract }, None),
                    }
                },
            };
            let ghost new_rec_view = match new_rec {
                Some(ref rec) => Some(rec.deep_view()),
                None => p0.record,
            };
            record_transition(j, id, pos, i, new_stage, new_rec);
            proof {
                lemma_model_after(
                    txo,
                    *old(env),
                    j.txs@[pos as int],
                    *env,
                    i as int,
                    PkgM { stage: new_stage, staged: p0.staged, record: new_rec_view },
                    s0,
                    m0,
                );
                assert(m0.srcs.update(i as int, s0) =~= m0.srcs);
                assert(tx_env_model(j.txs@[pos as int], *env) == step_pkg(m0, i as int));
            }
            push_event(events, i, new_stage, &env.staging[i], false);
            StepResult::Advanced
        },
        Stage::Extracted => {
            env.staging[i] = StagedArchive::empty();
            let new_stage = Stage::Committed;
            record_transition(j, id, pos, i, new_stage, None);
            proof {
                lemma_model_after(
                    txo,
                    *old(env),
                    j.txs@[pos as int],
                    *env,
                    i as int,
                    PkgM { stage: new_stage, staged: Seq::empty(), ..p0 },
                    s0,
                    m0,
                );
                assert(m0.srcs.update(i as int, s0) =~= m0.srcs);
                assert(tx_env_model(j.txs@[pos as int], *env) == step_pkg(m0, i as int));
            }
            push_event(events, i, new_stage, &env.staging[i], false);
            StepResult::Advanced
        },
        _ => {
            proof {
                assert(false);
            }
            StepResult::Quiescent
        },
    }
}

/// Emits one progress event; called only after the journal already holds the
/// transition it reports.
fn push_event(
    events: &mut Vec<ProgressEvent>,
    package: usize,
    stage: Stage,
    staged: &StagedArchive,
    warning: bool,
)
    ensures
        final(events)@ == old(events)@.push(
            ProgressEvent {
                package,
                stage,
                bytes_done: staged.data@.len() as u64,
                bytes_total: staged.total,
                warning,
            },
        ),
        old(events)@.is_prefix_of(final(events)@),
{
    let bytes_done = staged.data.len() as u64;
    let bytes_total = staged.total;
    events.push(ProgressEvent { package, stage, bytes_done, bytes_total, warning });
    proof {
        assert(final(events)@.take(old(events)@.len() as int) =~= old(events)@);
    }
}

/// Records the transaction's overall state; position is known, so the update
/// cannot miss, and the model — which carries no overall state — is
/// untouched.
fn record_state(j: &mut Journal, id: u64, pos: usize, state: TxState)
    requires
        old(j).wf(),
        pos < old(j).txs@.len(),
        old(j).txs@[pos as int].id == id,
    ensures
        final(j).wf(),
        final(j).lock == old(j).lock,
        final(j).next_id == old(j).next_id,
        final(j).txs@.len() == old(j).txs@.len(),
        forall|t: int|
            0 <= t < old(j).txs@.len() && t != pos ==> final(j).txs@[t] == old(j).txs@[t],
        final(j).txs@[pos as int] == tx_with_state(old(j).txs@[pos as int], state),
        final(j).txs@[pos as int].state == state,
{
    let r = j.set_state(id, state);
    proof {
        if r is Err {
            assert(old(j).txs@[pos as int].id == id);
            assert(false);
        }
        let t = choose|t: int|
            {
                &&& 0 <= t < old(j).txs@.len()
                &&& (#[trigger] old(j).txs@[t]).id == id
                &&& j.txs@ == old(j).txs@.update(t, tx_with_state(old(j).txs@[t], state))
            };
        if t != pos {
            assert(old(j).txs@[t].id != old(j).txs@[pos as int].id);
            assert(false);
        }
    }
}

/// Whether any package of the transaction has failed.
fn any_failed(tx: &Transaction) -> (r: bool)
    ensures
        r == exists|i: int|
            0 <= i < tx.stages@.len() && (#[trigger] tx.stages@[i]) matches Stage::Failed { .. },
        tx_final_state(tx.stages@) == if r {
            TxState::Failed
        } else {
            TxState::Committed
        },
{
    let mut i: usize = 0;
    while i < tx.stages.len()
        invariant
            i <= tx.stages@.len(),
            forall|j: int|
                0 <= j < i ==> !((#[trigger] tx.stages@[j]) matches Stage::Failed { .. }),
        decreases tx.stages@.len() - i,
    {
        let failed = match tx.stages[i] {
            Stage::Failed { .. } => true,
            _ => false,
        };
        if failed {
            return true;
        }
        i = i + 1;
    }
    false
}

/// Runs transaction `id` for at most `budget` stage transitions: the
/// cooperative pause point is the stage boundary, so the journal always shows
/// a resumable state. The run ends `Completed` at quiescence — recording
/// `Committed`, or `Failed` if any package failed — and `Paused` on a
/// transfer fault or an exhausted budget. The final state is some number of
/// model steps from the starting state: a resumed run continues exactly the
/// same run.
pub fn run_tx(
    j: &mut Journal,
    env: &mut Env,
    id: u64,
    pos: usize,
    budget: u64,
    events: &mut Vec<ProgressEvent>,
) -> (r: RunStatus)
    requires
        old(j).wf(),
        pos < old(j).txs@.len(),
        old(j).txs@[pos as int].id == id,
        env_sized(old(j).txs@[pos as int], *old(env)),
        model_wf(tx_env_model(old(j).txs@[pos as int], *old(env))),
    ensures
        final(j).wf(),
        final(j).lock == old(j).lock,
        final(j).next_id == old(j).next_id,
        final(j).txs@.len() == old(j).txs@.len(),
        forall|t: int|
            0 <= t < old(j).txs@.len() && t != pos ==> final(j).txs@[t] == old(j).txs@[t],
        final(j).txs@[pos as int].id == id,
        final(j).txs@[pos as int].pkgs == old(j).txs@[pos as int].pkgs,
        final(j).txs@[pos as int].force == old(j).txs@[pos as int].force,
        final(j).txs@[pos as int].created_at == old(j).txs@[pos as int].created_at,
        env_sized(final(j).txs@[pos as int], *final(env)),
        model_wf(tx_env_model(final(j).txs@[pos as int], *final(env))),
        exists|k: nat|
            {
                &&& tx_env_model(final(j).txs@[pos as int], *final(env)) == #[trigger] steps(
                    tx_env_model(old(j).txs@[pos as int], *old(env)),
                    k,
                )
                &&& final(events)@.len() == old(events)@.len() + k
                &&& (forall|m: nat|
                    m < k ==> event_matches_step(
                        steps(tx_env_model(old(j).txs@[pos as int], *old(env)), m),
                        #[trigger] final(events)@[old(events)@.len() + m as int],
                    ))
                &&& r == RunStatus::Paused ==> (k == budget || (k >= 1
                    && crate::model::step_interrupts(
                    steps(tx_env_model(old(j).txs@[pos as int], *old(env)), (k - 1) as nat),
                )))
            },
        r == RunStatus::Completed ==> quiescent(
            tx_env_model(final(j).txs@[pos as int], *final(env)),
        ) && final(j).txs@[pos as int].state == tx_final_state(final(j).txs@[pos as int].stages@),
        r == RunStatus::Paused ==> final(j).txs@[pos as int].state == TxState::Paused && !quiescent(
            tx_env_model(final(j).txs@[pos as int], *final(env)),
        ),
        old(events)@.is_prefix_of(final(events)@),
{
    let ghost m0 = tx_env_model(old(j).txs@[pos as int], *old(env));
    let ghost mut kk: nat = 0;
    let mut n: u64 = 0;
    proof {
        assert(steps(m0, 0) == m0);
    }
    while n < budget
        invariant
            j.wf(),
            j.lock == old(j).lock,
            j.next_id == old(j).next_id,
            j.txs@.len() == old(j).txs@.len(),
            forall|t: int|
                0 <= t < old(j).txs@.len() && t != pos ==> j.txs@[t] == old(j).txs@[t],
            pos < j.txs@.len(),
            j.txs@[pos as int].id == id,
            j.txs@[pos as int].pkgs == old(j).txs@[pos as int].pkgs,
            j.txs@[pos as int].state == old(j).txs@[pos as int].state,
            j.txs@[pos as int].force == old(j).txs@[pos as int].force,
            j.txs@[pos as int].created_at == old(j).txs@[pos as int].created_at,
            env_sized(j.txs@[pos as int], *env),
            model_wf(tx_env_model(j.txs@[pos as int], *env)),
            m0 == tx_env_model(old(j).txs@[pos as int], *old(env)),
            tx_env_model(j.txs@[pos as int], *env) == steps(m0, kk),
            old(events)@.is_prefix_of(events@),
            events@.len() == old(events)@.len() + kk,
            forall|m: nat|
                m < kk ==> event_matches_step(
                    steps(m0, m),
                    #[trigger] events@[old(events)@.len() + m as int],
                ),
            n <= budget,
            kk == n,
        decreases budget - n,
    {
        let ghost events_before = events@;
        let res = step_tx(j, env, id, pos, events);
        match res {
            StepResult::Quiescent => {
                let failed = any_failed(&j.txs[pos]);
                let state = if failed {
                    TxState::Failed
                } else {
                    TxState::Committed
                };
                let ghost tx_before = j.txs@[pos as int];
                record_state(j, id, pos, state);
                proof {
                    lemma_state_keeps_model(tx_before, j.txs@[pos as int], *env);
                }
                return RunStatus::Completed;
            },
            StepResult::Interrupted => {
                proof {
                    lemma_steps_snoc(m0, kk);
                    lemma_step_preserves_wf(steps(m0, kk));
                    crate::model::lemma_interrupt_not_quiescent(steps(m0, kk));
                    assert(events@.take(events_before.len() as int) =~= events_before);
                    kk = kk + 1;
                    assert forall|m: nat| m < kk implies event_matches_step(
                        steps(m0, m),
                        events@[old(events)@.len() + m as int],
                    ) by {
                        if m + 1 == kk {
                            assert(events@[old(events)@.len() + m as int] == events@.last());
                        } else {
                            assert(events@[old(events)@.len() + m as int] == events_before[old(
                                events,
                            )@.len() + m as int]);
                        }
                    }
                }
                let ghost tx_before = j.txs@[pos as int];
                record_state(j, id, pos, TxState::Paused);
                proof {
                    lemma_state_keeps_model(tx_before, j.txs@[pos as int], *env);
                }
                return RunStatus::Paused;
            },
            StepResult::Advanced => {
                proof {
                    lemma_steps_snoc(m0, kk);
                    lemma_step_preserves_wf(steps(m0, kk));
                    assert(events@.take(events_before.len() as int) =~= events_before);
                    kk = kk + 1;
                    assert forall|m: nat| m < kk implies event_matches_step(
                        steps(m0, m),
                        events@[old(events)@.len() + m as int],
                    ) by {
                        if m + 1 == kk {
                            assert(events@[old(events)@.len() + m as int] == events@.last());
                        } else {
                            assert(events@[old(events)@.len() + m as int] == events_before[old(
                                events,
                            )@.len() + m as int]);
                        }
                    }
                }
            },
        }
        n = n + 1;
    }
    // The budget is spent; pause at the boundary — unless nothing remains.
    let ghost m_now = steps(m0, kk);
    match first_pending(&j.txs[pos]) {
        None => {
            proof {
                assert forall|t: int| 0 <= t < m_now.pkgs.len() implies (
                #[trigger] m_now.pkgs[t]).stage.is_terminal() by {
                    assert(m_now.pkgs[t].stage == j.txs@[pos as int].stages@[t]);
                }
                lemma_all_terminal_quiescent(m_now.pkgs, 0);
            }
            let failed = any_failed(&j.txs[pos]);
            let state = if failed {
                TxState::Failed
            } else {
                TxState::Committed
            };
            let ghost tx_before = j.txs@[pos as int];
            record_state(j, id, pos, state);
            proof {
                lemma_state_keeps_model(tx_before, j.txs@[pos as int], *env);
            }
            RunStatus::Completed
        },
        Some(i) => {
            proof {
                assert(m_now.pkgs[i as int].stage == j.txs@[pos as int].stages@[i as int]);
                assert forall|t: int| 0 <= t < i implies (
                #[trigger] m_now.pkgs[t]).stage.is_terminal() by {
                    assert(m_now.pkgs[t].stage == j.txs@[pos as int].stages@[t]);
                }
                lemma_first_active_is(m_now.pkgs, 0, i as int);
            }
            let ghost tx_before = j.txs@[pos as int];
            record_state(j, id, pos, TxState::Paused);
            proof {
                lemma_state_keeps_model(tx_before, j.txs@[pos as int], *env);
            }
            RunStatus::Paused
        },
    }
}

/// Changing only the overall state leaves the model — stages, staging,
/// records, target — untouched.
proof fn lemma_state_keeps_model(txo: Transaction, txn: Transaction, env: Env)
    requires
        txn.pkgs == txo.pkgs,
        txn.stages == txo.stages,
        txn.records == txo.records,
        txn.force == txo.force,
    ensures
        tx_env_model(txn, env) == tx_env_model(txo, env),
{
    assert(tx_env_model(txn, env).pkgs =~= tx_env_model(txo, env).pkgs);
    assert(tx_env_model(txn, env).srcs =~= tx_env_model(txo, env).srcs);
}

/// The model a fresh transaction over this environment starts from: every
/// package `NotStarted` with an empty staging slot and no record.
pub open spec fn initial_model(env: Env, force: bool) -> Model {
    Model {
        pkgs: Seq::new(
            env.staging@.len(),
            |i: int|
                PkgM {
                    stage: Stage::NotStarted,
                    staged: env.staging@[i].data@,
                    record: None,
                },
        ),
        srcs: Seq::new(env.sources@.len(), |i: int| src_view(env.sources@[i])),
        fs: env.fs@,
        force,
    }
}

/// Installs a resolved, ordered package list: creates the transaction, takes
/// the per-root advisory lock, and drives every package toward commit. A
/// second engine racing on the same root — a held lock, or a live transaction
/// in the journal — fails fast with `Conflict` and changes nothing. On `Ok`
/// the new transaction's end state is a run of the model from the fresh
/// state; `Completed` means every package is terminal and the recorded state
/// is `Committed`, or `Failed` if any package failed.
pub fn install(
    j: &mut Journal,
    env: &mut Env,
    pkgs: Vec<PackageRef>,
    force: bool,
    now: u64,
    budget: u64,
    events: &mut Vec<ProgressEvent>,
) -> (r: Result<(u64, RunStatus), ErrorKind>)
    requires
        old(j).wf(),
        old(j).next_id < u64::MAX,
        old(env).sources@.len() == pkgs@.len(),
        old(env).staging@.len() == pkgs@.len(),
        forall|i: int| 0 <= i < pkgs@.len() ==> (#[trigger] old(env).staging@[i]).data@.len() == 0,
    ensures
        final(j).wf(),
        old(events)@.is_prefix_of(final(events)@),
        match r {
            Err(e) => {
                &&& e == ErrorKind::Conflict
                &&& (old(j).lock is Some || old(j).has_active())
                &&& *final(j) == *old(j)
                &&& *final(env) == *old(env)
            },
            Ok(ret) => {
                &&& ret.0 == old(j).next_id
                &&& old(j).lock is None
                &&& !old(j).has_active()
                &&& final(j).lock is None
                &&& final(j).txs@.len() == old(j).txs@.len() + 1
                &&& (forall|t: int|
                    0 <= t < old(j).txs@.len() ==> final(j).txs@[t] == old(j).txs@[t])
                &&& final(j).txs@.last().id == ret.0
                &&& final(j).txs@.last().pkgs@ == pkgs@
                &&& env_sized(final(j).txs@.last(), *final(env))
                &&& exists|k: nat|
                    {
                        &&& tx_env_model(final(j).txs@.last(), *final(env)) == #[trigger] steps(
                            initial_model(*old(env), force),
                            k,
                        )
                        &&& final(events)@.len() == old(events)@.len() + k
                        &&& (forall|m: nat|
                            m < k ==> event_matches_step(
                                steps(initial_model(*old(env), force), m),
                                #[trigger] final(events)@[old(events)@.len() + m as int],
                            ))
                        &&& ret.1 == RunStatus::Paused ==> (k == budget || (k >= 1
                            && crate::model::step_interrupts(
                            steps(initial_model(*old(env), force), (k - 1) as nat),
                        )))
                    }
                &&& (ret.1 == RunStatus::Completed ==> quiescent(
                    tx_env_model(final(j).txs@.last(), *final(env)),
                ) && final(j).txs@.last().state == tx_final_state(final(j).txs@.last().stages@))
                &&& (ret.1 == RunStatus::Paused ==> final(j).txs@.last().state == TxState::Paused
                    && !quiescent(tx_env_model(final(j).txs@.last(), *final(env))))
            },
        },
{
    let lock_held = match j.lock {
        Some(_) => true,
        None => false,
    };
    if lock_held {
        return Err(ErrorKind::Conflict);
    }
    let ghost n_old = old(j).txs@.len() as int;
    let id = match j.create(pkgs, force, now) {
        Ok(id) => id,
        Err(e) => {
            return Err(e);
        },
    };
    let pos = j.txs.len() - 1;
    proof {
        assert(j.txs@[pos as int] == j.txs@.last());
        let m_init = tx_env_model(j.txs@[pos as int], *env);
        assert forall|i: int| 0 <= i < m_init.pkgs.len() implies crate::model::pkg_wf(
            #[trigger] m_init.pkgs[i],
            m_init.srcs[i],
        ) by {
            assert(m_init.pkgs[i].staged == env.staging@[i].data@);
            assert(m_init.pkgs[i].staged.len() == 0);
            assert(m_init.pkgs[i].staged.is_prefix_of(m_init.srcs[i].data));
        }
        assert(m_init.pkgs =~= initial_model(*env, force).pkgs);
        assert(m_init.srcs =~= initial_model(*env, force).srcs);
        assert(m_init == initial_model(*env, force));
    }
    let lr = j.acquire_lock(id);
    proof {
        assert(lr is Ok);
    }
    let ghost tx_created = j.txs@[pos as int];
    record_state(j, id, pos, TxState::InProgress);
    proof {
        lemma_state_keeps_model(tx_created, j.txs@[pos as int], *env);
    }
    let status = run_tx(j, env, id, pos, budget, events);
    j.release_lock(id);
    Ok((id, status))
}

/// Resumes transaction `id`: accepted from `Paused`, from `InProgress` (an
/// unclean shutdown), from `Pending` and from `Failed` (an explicit retry);
/// `Committed` and `RolledBack` are terminal and refused with `Conflict`, as
/// is a held lock. The caller supplies the environment the journal describes:
/// staged bytes matching each package's recorded stage. The run continues
/// exactly where the journal says it stopped.
pub fn resume(
    j: &mut Journal,
    env: &mut Env,
    id: u64,
    budget: u64,
    events: &mut Vec<ProgressEvent>,
) -> (r: Result<RunStatus, ErrorKind>)
    requires
        old(j).wf(),
        forall|t: int|
            0 <= t < old(j).txs@.len() && (#[trigger] old(j).txs@[t]).id == id ==> env_sized(
                old(j).txs@[t],
                *old(env),
            ) && model_wf(tx_env_model(old(j).txs@[t], *old(env))),
    ensures
        final(j).wf(),
        old(events)@.is_prefix_of(final(events)@),
        r is Ok <==> old(j).lock is None && old(j).has_tx(id) && !old(j).tx_in_state(
            id,
            TxState::Committed,
            TxState::RolledBack,
        ),
        match r {
            Err(e) => {
                &&& *final(j) == *old(j)
                &&& *final(env) == *old(env)
                &&& (e == ErrorKind::NotFound <==> old(j).lock is None && !old(j).has_tx(id))
                &&& (e == ErrorKind::Conflict <==> old(j).lock is Some || old(j).tx_in_state(
                    id,
                    TxState::Committed,
                    TxState::RolledBack,
                ))
            },
            Ok(status) => exists|t: int|
                {
                    &&& 0 <= t < old(j).txs@.len()
                    &&& (#[trigger] old(j).txs@[t]).id == id
                    &&& old(j).lock is None
                    &&& final(j).lock is None
                    &&& final(j).txs@.len() == old(j).txs@.len()
                    &&& (forall|u: int|
                        0 <= u < old(j).txs@.len() && u != t ==> final(j).txs@[u] == old(
                            j,
                        ).txs@[u])
                    &&& final(j).txs@[t].id == id
                    &&& (exists|k: nat|
                        {
                            &&& tx_env_model(final(j).txs@[t], *final(env)) == #[trigger] steps(
                                tx_env_model(old(j).txs@[t], *old(env)),
                                k,
                            )
                            &&& final(events)@.len() == old(events)@.len() + k
                            &&& (forall|m: nat|
                                m < k ==> event_matches_step(
                                    steps(tx_env_model(old(j).txs@[t], *old(env)), m),
                                    #[trigger] final(events)@[old(events)@.len() + m as int],
                                ))
                            &&& status == RunStatus::Paused ==> (k == budget || (k >= 1
                                && crate::model::step_interrupts(
                                steps(tx_env_model(old(j).txs@[t], *old(env)), (k - 1) as nat),
                            )))
                        })
                    &&& (status == RunStatus::Completed ==> quiescent(
                        tx_env_model(final(j).txs@[t], *final(env)),
                    ) && final(j).txs@[t].state == tx_final_state(final(j).txs@[t].stages@))
                    &&& (status == RunStatus::Paused ==> final(j).txs@[t].state == TxState::Paused
                        && !quiescent(tx_env_model(final(j).txs@[t], *final(env))))
                },
        },
{
    let lock_held = match j.lock {
        Some(_) => true,
        None => false,
    };
    if lock_held {
        return Err(ErrorKind::Conflict);
    }
    let pos = match j.find(id) {
        Some(p) => p,
        None => {
            proof {
                assert(!j.tx_in_state(id, TxState::Committed, TxState::RolledBack));
            }
            return Err(ErrorKind::NotFound);
        },
    };
    proof {
        assert forall|t: int|
            0 <= t < j.txs@.len() && (#[trigger] j.txs@[t]).id == id implies t == pos as int by {
            if t != pos as int {
                assert(j.txs@[t].id != j.txs@[pos as int].id);
            }
        }
    }
    let terminal = match j.txs[pos].state {
        TxState::Committed => true,
        TxState::RolledBack => true,
        _ => false,
    };
    if terminal {
        return Err(ErrorKind::Conflict);
    }
    proof {
        assert(!j.tx_in_state(id, TxState::Committed, TxState::RolledBack));
    }
    let lr = j.acquire_lock(id);
    proof {
        assert(lr is Ok);
    }
    let ghost tx_before = j.txs@[pos as int];
    record_state(j, id, pos, TxState::InProgress);
    proof {
        lemma_state_keeps_model(tx_before, j.txs@[pos as int], *env);
    }
    let status = run_tx(j, env, id, pos, budget, events);
    j.release_lock(id);
    proof {
        assert(0 <= pos < old(j).txs@.len() && old(j).txs@[pos as int].id == id);
    }
    Ok(status)
}

/// Rollback undoes this package: its extraction reached the target.
pub open spec fn rollback_marks(stage: Stage) -> bool {
    stage == Stage::Extracted || stage == Stage::Committed
}

/// The target after rolling back packages `i..`: each marked package's
/// recorded paths are deleted, in package order.
pub open spec fn rollback_fs_from(
    fs: Map<Seq<char>, crate::fsmodel::NodeV>,
    stages: Seq<Stage>,
    records: Seq<Option<ExtractionRecord>>,
    i: int,
) -> Map<Seq<char>, crate::fsmodel::NodeV>
    decreases stages.len() - i,
    when 0 <= i <= stages.len() && records.len() == stages.len()
{
    if i >= stages.len() {
        fs
    } else {
        let fs2 = if rollback_marks(stages[i]) && records[i] is Some {
            remove_all(fs, records[i].unwrap().deep_view())
        } else {
            fs
        };
        rollback_fs_from(fs2, stages, records, i + 1)
    }
}

/// Rolls transaction `id` back: for every package whose extraction reached
/// the target (`Extracted` or `Committed`), deletes exactly the paths in its
/// extraction record, destroys its staged archive, and records the stage
/// `RolledBack`; other packages keep their stages. The whole transaction ends
/// `RolledBack`. Refused with `Conflict` while another engine holds the lock
/// or once the transaction is already rolled back.
pub fn rollback(j: &mut Journal, env: &mut Env, id: u64) -> (r: Result<(), ErrorKind>)
    requires
        old(j).wf(),
        forall|t: int|
            0 <= t < old(j).txs@.len() && (#[trigger] old(j).txs@[t]).id == id ==> env_sized(
                old(j).txs@[t],
                *old(env),
            ),
    ensures
        final(j).wf(),
        r is Ok <==> old(j).lock is None && old(j).has_tx(id) && !old(j).tx_in_state(
            id,
            TxState::RolledBack,
            TxState::RolledBack,
        ),
        match r {
            Err(e) => {
                &&& *final(j) == *old(j)
                &&& *final(env) == *old(env)
                &&& (e == ErrorKind::NotFound <==> old(j).lock is None && !old(j).has_tx(id))
                &&& (e == ErrorKind::Conflict <==> old(j).lock is Some || old(j).tx_in_state(
                    id,
                    TxState::RolledBack,
                    TxState::RolledBack,
                ))
            },
            Ok(()) => exists|t: int|
                {
                    &&& 0 <= t < old(j).txs@.len()
                    &&& (#[trigger] old(j).txs@[t]).id == id
                    &&& old(j).lock is None
                    &&& final(j).lock is None
                    &&& final(j).txs@.len() == old(j).txs@.len()
                    &&& (forall|u: int|
                        0 <= u < old(j).txs@.len() && u != t ==> final(j).txs@[u] == old(
                            j,
                        ).txs@[u])
                    &&& final(j).txs@[t].id == id
                    &&& final(j).txs@[t].state == TxState::RolledBack
                    &&& final(j).txs@[t].records@ == old(j).txs@[t].records@
                    &&& final(j).txs@[t].stages@.len() == old(j).txs@[t].stages@.len()
                    &&& (forall|k: int|
                        0 <= k < old(j).txs@[t].stages@.len() ==> final(j).txs@[t].stages@[k]
                            == if rollback_marks(#[trigger] old(j).txs@[t].stages@[k]) {
                            Stage::RolledBack
                        } else {
                            old(j).txs@[t].stages@[k]
                        })
                    &&& final(env).fs@ == rollback_fs_from(
                        old(env).fs@,
                        old(j).txs@[t].stages@,
                        old(j).txs@[t].records@,
                        0,
                    )
                    &&& final(env).staging@.len() == old(env).staging@.len()
                    &&& (forall|k: int|
                        0 <= k < old(j).txs@[t].stages@.len() ==> if rollback_marks(
                            #[trigger] old(j).txs@[t].stages@[k],
                        ) {
                            final(env).staging@[k].data@.len() == 0
                        } else {
                            final(env).staging@[k] == old(env).staging@[k]
                        })
                    &&& final(env).sources@ == old(env).sources@
                },
        },
{
    let lock_held = match j.lock {
        Some(_) => true,
        None => false,
    };
    if lock_held {
        return Err(ErrorKind::Conflict);
    }
    let pos = match j.find(id) {
        Some(p) => p,
        None => {
            proof {
                assert(!j.tx_in_state(id, TxState::RolledBack, TxState::RolledBack));
            }
            return Err(ErrorKind::NotFound);
        },
    };
    proof {
        assert forall|t: int|
            0 <= t < j.txs@.len() && (#[trigger] j.txs@[t]).id == id implies t == pos as int by {
            if t != pos as int {
                assert(j.txs@[t].id != j.txs@[pos as int].id);
            }
        }
    }
    let rolled = match j.txs[pos].state {
        TxState::RolledBack => true,
        _ => false,
    };
    if rolled {
        return Err(ErrorKind::Conflict);
    }
    proof {
        assert(!j.tx_in_state(id, TxState::RolledBack, TxState::RolledBack));
    }
    let lr = j.acquire_lock(id);
    proof {
        assert(lr is Ok);
    }
    let ghost stages0 = j.txs@[pos as int].stages@;
    let ghost records0 = j.txs@[pos as int].records@;
    let ghost fs0 = env.fs@;
    let ghost staging0 = env.staging@;
    let n = j.txs[pos].stages.len();
    let mut k: usize = 0;
    while k < n
        invariant
            j.wf(),
            pos < j.txs@.len(),
            j.txs@.len() == old(j).txs@.len(),
            j.txs@[pos as int].id == id,
            j.lock == Some(id),
            j.next_id == old(j).next_id,
            forall|u: int|
                0 <= u < old(j).txs@.len() && u != pos ==> j.txs@[u] == old(j).txs@[u],
            k <= n,
            n == stages0.len(),
            records0.len() == stages0.len(),
            j.txs@[pos as int].stages@.len() == n,
            j.txs@[pos as int].records@ == records0,
            j.txs@[pos as int].state == old(j).txs@[pos as int].state,
            j.txs@[pos as int].pkgs == old(j).txs@[pos as int].pkgs,
            forall|u: int| k <= u < n ==> j.txs@[pos as int].stages@[u] == stages0[u],
            forall|u: int|
                0 <= u < k ==> j.txs@[pos as int].stages@[u] == if rollback_marks(
                    #[trigger] stages0[u],
                ) {
                    Stage::RolledBack
                } else {
                    stages0[u]
                },
            rollback_fs_from(env.fs@, stages0, records0, k as int) == rollback_fs_from(
                fs0,
                stages0,
                records0,
                0,
            ),
            env.staging@.len() == staging0.len(),
            staging0.len() >= n,
            forall|u: int|
                0 <= u < staging0.len() ==> if 0 <= u < k && rollback_marks(stages0[u]) {
                    (#[trigger] env.staging@[u]).data@.len() == 0
                } else {
                    env.staging@[u] == staging0[u]
                },
            env.sources@ == old(env).sources@,
        decreases n - k,
    {
        let marks = match j.txs[pos].stages[k] {
            Stage::Extracted => true,
            Stage::Committed => true,
            _ => false,
        };
        if marks {
            let ghost fs_before = env.fs@;
            match j.txs[pos].records[k].as_ref() {
                Some(rec) => {
                    remove_record_paths(&mut env.fs, rec);
                    proof {
                        assert(env.fs@ == remove_all(fs_before, records0[k as int].unwrap().deep_view()));
                    }
                },
                None => {},
            }
            env.staging[k] = StagedArchive::empty();
            record_transition(j, id, pos, k, Stage::RolledBack, None);
        }
        k = k + 1;
    }
    let ghost tx_before = j.txs@[pos as int];
    record_state(j, id, pos, TxState::RolledBack);
    j.release_lock(id);
    proof {
        assert(0 <= pos < old(j).txs@.len() && old(j).txs@[pos as int].id == id);
        assert(rollback_fs_from(env.fs@, stages0, records0, n as int) == env.fs@);
    }
    Ok(())
}

/// The transaction with this id exists and `i` indexes one of its packages.
pub open spec fn pkg_in_range(j: Journal, id: u64, i: int) -> bool {
    exists|t: int|
        0 <= t < j.txs@.len() && (#[trigger] j.txs@[t]).id == id && i < j.txs@[t].stages@.len()
}

/// Package `i` of the transaction with this id is in a `Failed` stage.
pub open spec fn pkg_failed_at(j: Journal, id: u64, i: int) -> bool {
    exists|t: int|
        0 <= t < j.txs@.len() && (#[trigger] j.txs@[t]).id == id && 0 <= i
            < j.txs@[t].stages@.len() && j.txs@[t].stages@[i] matches Stage::Failed { .. }
}

/// An explicit retry of a failed package: the one backward stage movement the
/// data model allows. The package's stage is reset to the last stage its
/// failed phase had completed — `NotStarted` for a fetch failure, `Fetched`
/// for a verification failure, `Verified` for an extraction failure — and a
/// later `resume` runs it again from there. It succeeds exactly on a failed
/// package: any package that has not failed is refused with `Conflict`.
pub fn retry_package(j: &mut Journal, id: u64, i: usize) -> (r: Result<(), ErrorKind>)
    requires
        old(j).wf(),
    ensures
        final(j).wf(),
        r is Ok <==> pkg_failed_at(*old(j), id, i as int),
        match r {
            Err(e) => {
                &&& *final(j) == *old(j)
                &&& (e == ErrorKind::NotFound <==> !pkg_in_range(*old(j), id, i as int))
                &&& (e == ErrorKind::Conflict <==> pkg_in_range(*old(j), id, i as int)
                    && !pkg_failed_at(*old(j), id, i as int))
            },
            Ok(()) => exists|t: int|
                {
                    &&& 0 <= t < old(j).txs@.len()
                    &&& (#[trigger] old(j).txs@[t]).id == id
                    &&& i < old(j).txs@[t].stages@.len()
                    &&& old(j).txs@[t].stages@[i as int] matches Stage::Failed { phase, .. }
                        && final(j).txs@[t].stages@ == old(j).txs@[t].stages@.update(
                        i as int,
                        Stage::spec_retry_reset(phase),
                    )
                    &&& final(j).txs@[t].records@ == old(j).txs@[t].records@
                    &&& final(j).txs@[t].state == old(j).txs@[t].state
                    &&& final(j).txs@.len() == old(j).txs@.len()
                    &&& (forall|u: int|
                        0 <= u < old(j).txs@.len() && u != t ==> final(j).txs@[u] == old(
                            j,
                        ).txs@[u])
                    &&& final(j).lock == old(j).lock
                    &&& final(j).next_id == old(j).next_id
                },
        },
{
    let pos = match j.find(id) {
        Some(p) => p,
        None => {
            proof {
                assert(!pkg_in_range(*j, id, i as int));
                assert(!pkg_failed_at(*j, id, i as int));
            }
            return Err(ErrorKind::NotFound);
        },
    };
    proof {
        assert forall|t: int|
            0 <= t < j.txs@.len() && (#[trigger] j.txs@[t]).id == id implies t == pos as int by {
            if t != pos as int {
                assert(j.txs@[t].id != j.txs@[pos as int].id);
            }
        }
    }
    if i >= j.txs[pos].stages.len() {
        proof {
            assert(!pkg_in_range(*j, id, i as int));
            assert(!pkg_failed_at(*j, id, i as int));
        }
        return Err(ErrorKind::NotFound);
    }
    proof {
        assert(pkg_in_range(*j, id, i as int));
    }
    let phase = match j.txs[pos].stages[i] {
        Stage::Failed { phase, .. } => phase,
        _ => {
            proof {
                assert(!pkg_failed_at(*j, id, i as int));
            }
            return Err(ErrorKind::Conflict);
        },
    };
    proof {
        assert(pkg_failed_at(*j, id, i as int));
    }
    let reset = Stage::retry_reset(phase);
    record_transition(j, id, pos, i, reset, None);
    Ok(())
}

/// Records a failure the process boundary hit while carrying out this
/// package's decided writes — insufficient permissions, exhausted disk space,
/// or another local fault — so the package ends `Failed(reason)` in the
/// journal rather than being silently skipped. Succeeds exactly when the
/// transaction and package exist.
pub fn record_write_failure(j: &mut Journal, id: u64, i: usize, reason: ErrorKind) -> (r: Result<
    (),
    ErrorKind,
>)
    requires
        old(j).wf(),
    ensures
        final(j).wf(),
        r is Ok <==> pkg_in_range(*old(j), id, i as int),
        match r {
            Err(e) => {
                &&& *final(j) == *old(j)
                &&& e == ErrorKind::NotFound
            },
            Ok(()) => exists|t: int|
                {
                    &&& 0 <= t < old(j).txs@.len()
                    &&& (#[trigger] old(j).txs@[t]).id == id
                    &&& i < old(j).txs@[t].stages@.len()
                    &&& final(j).txs@[t].stages@ == old(j).txs@[t].stages@.update(
                        i as int,
                        Stage::Failed { reason, phase: Phase::Extract },
                    )
                    &&& final(j).txs@[t].records@ == old(j).txs@[t].records@
                    &&& final(j).txs@[t].state == old(j).txs@[t].state
                    &&& final(j).txs@.len() == old(j).txs@.len()
                    &&& (forall|u: int|
                        0 <= u < old(j).txs@.len() && u != t ==> final(j).txs@[u] == old(
                            j,
                        ).txs@[u])
                    &&& final(j).lock == old(j).lock
                    &&& final(j).next_id == old(j).next_id
                },
        },
{
    let pos = match j.find(id) {
        Some(p) => p,
        None => {
            proof {
                assert(!pkg_in_range(*j, id, i as int));
            }
            return Err(ErrorKind::NotFound);
        },
    };
    proof {
        assert forall|t: int|
            0 <= t < j.txs@.len() && (#[trigger] j.txs@[t]).id == id implies t == pos as int by {
            if t != pos as int {
                assert(j.txs@[t].id != j.txs@[pos as int].id);
            }
        }
    }
    if i >= j.txs[pos].stages.len() {
        proof {
            assert(!pkg_in_range(*j, id, i as int));
        }
        return Err(ErrorKind::NotFound);
    }
    record_transition(j, id, pos, i, Stage::Failed { reason, phase: Phase::Extract }, None);
    Ok(())
}

/// The final per-package report of a transaction: one outcome per package,
/// in package order.
pub fn report(tx: &Transaction) -> (r: Vec<Outcome>)
    ensures
        r@.len() == tx.stages@.len(),
        forall|i: int| 0 <= i < tx.stages@.len() ==> r@[i] == outcome_of(tx.stages@[i]),
{
    let mut out: Vec<Outcome> = Vec::new();
    let mut i: usize = 0;
    while i < tx.stages.len()
        invariant
            i <= tx.stages@.len(),
            out@.len() == i,
            forall|k: int| 0 <= k < i ==> out@[k] == outcome_of(tx.stages@[k]),
        decreases tx.stages@.len() - i,
    {
        out.push(stage_outcome(&tx.stages[i]));
        i = i + 1;
    }
    out
}

/// The model after a step is the old model with package `i` (and possibly
/// its source and the filesystem) replaced: the per-arm glue between the
/// executable update and the model update.
proof fn lemma_model_after(
    txo: Transaction,
    envo: Env,
    txn: Transaction,
    envn: Env,
    i: int,
    p: PkgM,
    s: SrcM,
    m0: Model,
)
    requires
        m0 == tx_env_model(txo, envo),
        env_sized(txo, envo),
        0 <= i < txo.pkgs@.len(),
        txn.pkgs == txo.pkgs,
        txn.force == txo.force,
        txn.stages@ == txo.stages@.update(i, p.stage),
        txn.records@.len() == txo.records@.len(),
        txo.records@.len() == txo.pkgs@.len(),
        txo.stages@.len() == txo.pkgs@.len(),
        rec_view(txn.records@[i]) == p.record,
        forall|k: int| 0 <= k < txo.records@.len() && k != i ==> txn.records@[k] == txo.records@[k],
        envn.staging@.len() == envo.staging@.len(),
        envn.staging@[i].data@ == p.staged,
        forall|k: int|
            0 <= k < envo.staging@.len() && k != i ==> envn.staging@[k] == envo.staging@[k],
        envn.sources@.len() == envo.sources@.len(),
        src_view(envn.sources@[i]) == s,
        forall|k: int|
            0 <= k < envo.sources@.len() && k != i ==> envn.sources@[k] == envo.sources@[k],
    ensures
        tx_env_model(txn, envn) == (Model {
            pkgs: m0.pkgs.update(i, p),
            srcs: m0.srcs.update(i, s),
            fs: envn.fs@,
            force: m0.force,
        }),
{
    let mn = tx_env_model(txn, envn);
    assert forall|k: int| 0 <= k < mn.pkgs.len() implies mn.pkgs[k] == m0.pkgs.update(i, p)[k] by {
        if k == i {
            assert(mn.pkgs[k].stage == p.stage);
            assert(mn.pkgs[k].staged == p.staged);
            assert(mn.pkgs[k].record == p.record);
        } else {
            assert(txn.stages@[k] == txo.stages@[k]);
            assert(txn.records@[k] == txo.records@[k]);
            assert(envn.staging@[k] == envo.staging@[k]);
        }
    }
    assert(mn.pkgs =~= m0.pkgs.update(i, p));
    assert forall|k: int| 0 <= k < mn.srcs.len() implies mn.srcs[k] == m0.srcs.update(i, s)[k] by {
        if k != i {
            assert(envn.sources@[k] == envo.sources@[k]);
        }
    }
    assert(mn.srcs =~= m0.srcs.update(i, s));
}

} // verus!
