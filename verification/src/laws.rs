//! Run-level laws of the engine, proved once about the model that every
//! executable run is tied to (`run_tx` ensures the final state is `steps` of
//! the starting state, and `run_full` is the run continued to quiescence).

use vstd::prelude::*;

use crate::archive::decoded_entries;
use crate::extract::{apply_entries, apply_one, extraction_outcome, record_paths};
use crate::fetch::{fetch_fault_fires, fetch_start_offset};
use crate::integrity::verification_passes;
use crate::model::{
    Model, balanced, done, faults_count, first_active, lemma_all_terminal_quiescent,
    lemma_first_active_valid, lemma_run_full_step, lemma_step_decreases,
    lemma_step_preserves_wf, model_wf, run_full, step_pkg, step_spec, steps, work_total,
};
use crate::pkg::Stage;

verus! {

/// Resuming is idempotent: a run interrupted at any stage boundary — after
/// any number `k` of steps — and then resumed to quiescence ends in exactly
/// the state an uninterrupted run reaches.
pub proof fn lemma_resume_reaches_same_outcome(m: Model, k: nat)
    ensures
        run_full(steps(m, k)) == run_full(m),
    decreases k,
{
    if k > 0 {
        lemma_run_full_step(m);
        lemma_resume_reaches_same_outcome(step_spec(m), (k - 1) as nat);
        assert(steps(m, k) == steps(step_spec(m), (k - 1) as nat));
    }
}

/// A run resumed to its end always reaches a terminal outcome: every package
/// ends `Committed`, `RolledBack` or `Failed`, never stuck in between.
pub proof fn lemma_run_reaches_terminal_outcome(m: Model)
    requires
        balanced(m),
    ensures
        run_full(m).pkgs.len() == m.pkgs.len(),
        forall|i: int|
            0 <= i < run_full(m).pkgs.len() ==> (#[trigger] run_full(
                m,
            ).pkgs[i]).stage.is_terminal(),
    decreases faults_count(m.srcs), work_total(m.pkgs),
{
    if done(m) {
        crate::model::lemma_quiescent_all_terminal(m.pkgs, 0);
    } else {
        lemma_step_decreases(m);
        let m2 = step_spec(m);
        let a = first_active(m).unwrap();
        lemma_first_active_valid(m.pkgs, 0);
        assert(m2.pkgs == m.pkgs.update(a, m2.pkgs[a]));
        if m2.srcs != m.srcs {
            assert(m2.srcs == m.srcs.update(a, m2.srcs[a]));
        }
        lemma_run_reaches_terminal_outcome(m2);
    }
}

/// One step never touches a package that is already terminal.
proof fn lemma_step_terminal_untouched(m: Model, i: int)
    requires
        0 <= i < m.pkgs.len(),
        m.pkgs[i].stage.is_terminal(),
    ensures
        step_spec(m).pkgs.len() == m.pkgs.len(),
        step_spec(m).pkgs[i] == m.pkgs[i],
{
    if balanced(m) && first_active(m) is Some {
        let a = first_active(m).unwrap();
        lemma_first_active_valid(m.pkgs, 0);
        assert(a != i);
        let m2 = step_pkg(m, a);
        assert(m2.pkgs == m.pkgs.update(a, m2.pkgs[a]));
    }
}

/// No number of steps touches a package that is already terminal: its stage,
/// staged archive and extraction record stay exactly as they are.
pub proof fn lemma_terminal_package_untouched(m: Model, i: int, k: nat)
    requires
        0 <= i < m.pkgs.len(),
        m.pkgs[i].stage.is_terminal(),
    ensures
        steps(m, k).pkgs.len() == m.pkgs.len(),
        steps(m, k).pkgs[i] == m.pkgs[i],
    decreases k,
{
    if k > 0 {
        lemma_step_terminal_untouched(m, i);
        lemma_terminal_package_untouched(step_spec(m), i, (k - 1) as nat);
    }
}

/// Re-running a transaction whose packages are all terminal — every one
/// `Committed`, for instance — is a no-op: no write reaches the target, no
/// extraction record changes, nothing moves.
pub proof fn lemma_finished_resume_noop(m: Model)
    requires
        forall|i: int| 0 <= i < m.pkgs.len() ==> (#[trigger] m.pkgs[i]).stage.is_terminal(),
    ensures
        run_full(m) == m,
{
    lemma_all_terminal_quiescent(m.pkgs, 0);
}

/// A committed package survives a full resume untouched: same record, same
/// stage, no duplicate extraction.
pub proof fn lemma_committed_package_noop(m: Model, i: int)
    requires
        0 <= i < m.pkgs.len(),
        m.pkgs[i].stage.is_terminal(),
    ensures
        run_full(m).pkgs.len() == m.pkgs.len(),
        run_full(m).pkgs[i] == m.pkgs[i],
    decreases faults_count(m.srcs), work_total(m.pkgs),
{
    if !done(m) {
        lemma_step_decreases(m);
        lemma_step_terminal_untouched(m, i);
        lemma_committed_package_noop(step_spec(m), i);
    }
}

/// Whether package `i`'s archive, as the source serves it, passes its
/// verification spec.
pub open spec fn verify_gate(m: Model, i: int) -> bool {
    verification_passes(m.srcs[i].data, m.srcs[i].vspec, m.force)
}

/// Stages on the far side of the verification gate.
pub open spec fn past_verification(stage: Stage) -> bool {
    match stage {
        Stage::Verified => true,
        Stage::Extracting => true,
        Stage::Extracted => true,
        _ => false,
    }
}

/// Every package past the verification gate did pass it.
pub open spec fn gate_inv(m: Model) -> bool {
    forall|i: int|
        0 <= i < m.pkgs.len() && past_verification((#[trigger] m.pkgs[i]).stage) ==> verify_gate(
            m,
            i,
        )
}

/// What a step never changes: the sources' bytes and specs, the force flag,
/// and the package count.
proof fn lemma_step_pins_sources(m: Model)
    ensures
        step_spec(m).pkgs.len() == m.pkgs.len(),
        step_spec(m).srcs.len() == m.srcs.len(),
        step_spec(m).force == m.force,
        forall|i: int|
            0 <= i < m.srcs.len() ==> (#[trigger] step_spec(m).srcs[i]).data == m.srcs[i].data
                && step_spec(m).srcs[i].vspec == m.srcs[i].vspec,
{
    if balanced(m) && first_active(m) is Some {
        let a = first_active(m).unwrap();
        lemma_first_active_valid(m.pkgs, 0);
        let m2 = step_pkg(m, a);
        assert(m2.pkgs == m.pkgs.update(a, m2.pkgs[a]));
        assert forall|i: int| 0 <= i < m.srcs.len() implies (#[trigger] m2.srcs[i]).data
            == m.srcs[i].data && m2.srcs[i].vspec == m.srcs[i].vspec by {
            if m2.srcs != m.srcs {
                assert(m2.srcs == m.srcs.update(a, m2.srcs[a]));
            }
        }
    }
}

/// One step keeps the verification-gate invariant: the only way past the
/// gate is the verifying step itself, which checks the staged archive — the
/// whole source, by well-formedness.
proof fn lemma_gate_inv_step(m: Model)
    requires
        model_wf(m),
        gate_inv(m),
    ensures
        gate_inv(step_spec(m)),
{
    lemma_step_pins_sources(m);
    if balanced(m) && first_active(m) is Some {
        let a = first_active(m).unwrap();
        lemma_first_active_valid(m.pkgs, 0);
        let m2 = step_pkg(m, a);
        assert forall|i: int|
            0 <= i < m2.pkgs.len() && past_verification((#[trigger] m2.pkgs[i]).stage) implies
            verify_gate(m2, i) by {
            if i != a {
                assert(m2.pkgs[i] == m.pkgs[i]);
                assert(verify_gate(m2, i) == verify_gate(m, i));
            } else {
                if past_verification(m2.pkgs[a].stage) {
                    if m.pkgs[a].stage == Stage::Verifying {
                        assert(m.pkgs[a].staged == m.srcs[a].data);
                        assert(verification_passes(m.srcs[a].data, m.srcs[a].vspec, m.force));
                    } else {
                        assert(past_verification(m.pkgs[a].stage));
                    }
                    assert(verify_gate(m2, a) == verify_gate(m, a));
                }
            }
        }
    }
}

/// An extraction can only create paths named by the entries it was given.
proof fn lemma_apply_entries_dom(
    fs: Map<Seq<char>, crate::fsmodel::NodeV>,
    es: Seq<crate::archive::EntryV>,
    prior: Option<Seq<Seq<char>>>,
    p: Seq<char>,
)
    requires
        apply_entries(fs, es, prior).contains_key(p),
        !fs.contains_key(p),
    ensures
        record_paths(es).contains(p),
    decreases es.len(),
{
    if es.len() > 0 {
        let fs1 = apply_one(fs, es[0], prior);
        if p == es[0].path {
            assert(record_paths(es)[0] == p);
        } else {
            assert(!fs1.contains_key(p));
            lemma_apply_entries_dom(fs1, es.drop_first(), prior, p);
            let q = choose|q: int|
                0 <= q < es.drop_first().len() && record_paths(es.drop_first())[q] == p;
            assert(record_paths(es)[q + 1] == es[q + 1].path);
            assert(es.drop_first()[q] == es[q + 1]);
        }
    }
}

/// If one step adds a path to the target, the acting package was past its
/// verification gate and its archive names that path.
proof fn lemma_p4_step(m: Model, p: Seq<char>)
    requires
        model_wf(m),
        gate_inv(m),
        step_spec(m).fs.contains_key(p),
        !m.fs.contains_key(p),
    ensures
        exists|i: int|
            {
                &&& 0 <= i < #[trigger] m.pkgs.len()
                &&& verify_gate(m, i)
                &&& decoded_entries(m.srcs[i].data) matches Some(es) && record_paths(es).contains(
                    p,
                )
            },
{
    assert(balanced(m) && first_active(m) is Some);
    let a = first_active(m).unwrap();
    lemma_first_active_valid(m.pkgs, 0);
    let m2 = step_pkg(m, a);
    assert(m.pkgs[a].stage is Extracting);
    assert(m.pkgs[a].staged == m.srcs[a].data);
    assert(verify_gate(m, a));
    let es = decoded_entries(m.srcs[a].data).unwrap();
    assert(extraction_outcome(m.fs, es, m.pkgs[a].record) matches Ok(res) && res.0 == m2.fs);
    lemma_apply_entries_dom(m.fs, es, m.pkgs[a].record, p);
}

/// A checksum mismatch never results in files appearing under the target
/// root: any path a run adds to the target belongs to the archive of a
/// package whose verification spec accepted it. A package whose archive does
/// not pass its spec contributes nothing, however long the run.
pub proof fn lemma_only_verified_written(m: Model, k: nat, p: Seq<char>)
    requires
        model_wf(m),
        gate_inv(m),
        steps(m, k).fs.contains_key(p),
        !m.fs.contains_key(p),
    ensures
        exists|i: int|
            {
                &&& 0 <= i < #[trigger] m.pkgs.len()
                &&& verify_gate(m, i)
                &&& decoded_entries(m.srcs[i].data) matches Some(es) && record_paths(es).contains(
                    p,
                )
            },
    decreases k,
{
    if k == 0 {
        assert(false);
    } else {
        let m1 = step_spec(m);
        lemma_step_preserves_wf(m);
        lemma_gate_inv_step(m);
        lemma_step_pins_sources(m);
        if m1.fs.contains_key(p) {
            lemma_p4_step(m, p);
        } else {
            assert(steps(m, k) == steps(m1, (k - 1) as nat));
            lemma_only_verified_written(m1, (k - 1) as nat, p);
            let i = choose|i: int|
                {
                    &&& 0 <= i < #[trigger] m1.pkgs.len()
                    &&& verify_gate(m1, i)
                    &&& decoded_entries(m1.srcs[i].data) matches Some(es)
                        && record_paths(es).contains(p)
                };
            assert(m1.srcs[i].data == m.srcs[i].data && m1.srcs[i].vspec == m.srcs[i].vspec);
            assert(verify_gate(m, i));
        }
    }
}

/// One step never moves any package's stage backward.
proof fn lemma_step_stage_forward(m: Model, i: int)
    requires
        0 <= i < m.pkgs.len(),
    ensures
        step_spec(m).pkgs.len() == m.pkgs.len(),
        step_spec(m).pkgs[i].stage.work() <= m.pkgs[i].stage.work(),
{
    if balanced(m) && first_active(m) is Some {
        let a = first_active(m).unwrap();
        lemma_first_active_valid(m.pkgs, 0);
        let m2 = step_pkg(m, a);
        assert(m2.pkgs == m.pkgs.update(a, m2.pkgs[a]));
    }
}

/// A package's stage only moves forward: no run ever returns a package to an
/// earlier stage (only an explicit retry from `Failed` may, and that is a
/// separate operation).
pub proof fn lemma_stage_only_moves_forward(m: Model, i: int, k: nat)
    requires
        0 <= i < m.pkgs.len(),
    ensures
        steps(m, k).pkgs.len() == m.pkgs.len(),
        steps(m, k).pkgs[i].stage.work() <= m.pkgs[i].stage.work(),
    decreases k,
{
    if k > 0 {
        lemma_step_stage_forward(m, i);
        lemma_stage_only_moves_forward(step_spec(m), i, (k - 1) as nat);
    }
}

/// A checksum mismatch never results in files appearing under the target
/// root, pointwise: a package whose archive fails its verification spec
/// contributes nothing — any path that no verified package's archive names is
/// absent after every run, however the mismatched package's archive names it.
pub proof fn lemma_mismatched_package_adds_nothing(m: Model, i: int, k: nat, p: Seq<char>)
    requires
        model_wf(m),
        gate_inv(m),
        0 <= i < m.pkgs.len(),
        !verify_gate(m, i),
        forall|t: int|
            0 <= t < m.pkgs.len() && verify_gate(m, t) && decoded_entries(
                #[trigger] m.srcs[t].data,
            ) is Some ==> !record_paths(decoded_entries(m.srcs[t].data).unwrap()).contains(p),
        !m.fs.contains_key(p),
    ensures
        !steps(m, k).fs.contains_key(p),
{
    if steps(m, k).fs.contains_key(p) {
        lemma_only_verified_written(m, k, p);
        let t = choose|t: int|
            {
                &&& 0 <= t < #[trigger] m.pkgs.len()
                &&& verify_gate(m, t)
                &&& decoded_entries(m.srcs[t].data) matches Some(es) && record_paths(es).contains(
                    p,
                )
            };
        assert(!record_paths(decoded_entries(m.srcs[t].data).unwrap()).contains(p));
    }
}

/// Applying entries that are all already in place changes nothing.
proof fn lemma_apply_entries_all_match(
    fs: Map<Seq<char>, crate::fsmodel::NodeV>,
    es: Seq<crate::archive::EntryV>,
    prior: Option<Seq<Seq<char>>>,
)
    requires
        forall|i: int|
            0 <= i < es.len() ==> fs.contains_key((#[trigger] es[i]).path) && crate::extract::owns_path(
                prior,
                es[i].path,
            ) && crate::extract::entry_matches(fs[es[i].path], es[i]),
    ensures
        apply_entries(fs, es, prior) == fs,
    decreases es.len(),
{
    if es.len() > 0 {
        assert(apply_one(fs, es[0], prior) == fs);
        assert(forall|i: int|
            0 <= i < es.drop_first().len() ==> #[trigger] es.drop_first()[i] == es[i + 1]);
        lemma_apply_entries_all_match(fs, es.drop_first(), prior);
    }
}

/// Re-extracting a package over its own intact record is a no-op: with the
/// prior record listing exactly the archive's paths and every one of them
/// already matching on the target, extraction succeeds, writes nothing, and
/// returns the same record.
pub proof fn lemma_reextraction_noop(
    fs: Map<Seq<char>, crate::fsmodel::NodeV>,
    es: Seq<crate::archive::EntryV>,
)
    requires
        forall|i: int| 0 <= i < es.len() ==> crate::archive::entry_is_safe(#[trigger] es[i]),
        forall|i: int|
            0 <= i < es.len() ==> fs.contains_key((#[trigger] es[i]).path)
                && crate::extract::entry_matches(fs[es[i].path], es[i]),
    ensures
        extraction_outcome(fs, es, Some(record_paths(es))) == Ok::<_, crate::errors::ErrorKind>(
            (fs, record_paths(es)),
        ),
{
    let prior = Some(record_paths(es));
    assert(!crate::extract::has_unsafe_entry(es));
    assert forall|i: int| 0 <= i < es.len() implies crate::extract::owns_path(
        prior,
        (#[trigger] es[i]).path,
    ) by {
        assert(record_paths(es)[i] == es[i].path);
    }
    assert(!crate::extract::has_conflict(fs, es, prior));
    lemma_apply_entries_all_match(fs, es, prior);
}

/// A fetch interrupted at any byte offset and resumed against a
/// range-capable source stages exactly the source's bytes — byte-identical
/// to an uninterrupted fetch, whatever the offset was.
pub proof fn lemma_resumed_fetch_byte_identical(m: Model, i: int, offset: u64)
    requires
        model_wf(m),
        first_active(m) == Some(i),
        balanced(m),
        m.pkgs[i].stage == (Stage::Fetching { bytes: offset }),
        m.srcs[i].range_capable,
        m.srcs[i].fail_after is None,
    ensures
        step_spec(m).pkgs[i].staged == m.srcs[i].data,
        step_spec(m).pkgs[i].stage == Stage::Fetched,
{
    lemma_first_active_valid(m.pkgs, 0);
    let b = fetch_start_offset(m.pkgs[i].staged.len(), m.srcs[i].range_capable);
    assert(!fetch_fault_fires(b, m.srcs[i].fail_after, m.srcs[i].data.len()));
}

} // verus!
