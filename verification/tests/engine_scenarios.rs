//! End-to-end scenarios of the transaction engine over an in-memory
//! environment, with real tar + xz archives.

use iris::engine::{Env, ProgressEvent, RunStatus, install, report, resume, rollback};
use iris::errors::ErrorKind;
use iris::extract::ExtractionRecord;
use iris::fetch::{Source, StagedArchive};
use iris::fsmodel::{Fs, FsNode};
use iris::integrity::{VerificationSpec, checksum};
use iris::journal::Journal;
use iris::pkg::{Outcome, PackageRef, Phase, Stage, TxState};

fn make_tar_xz(entries: &[(&str, &[u8])]) -> Vec<u8> {
    let mut builder = tar::Builder::new(Vec::new());
    for (path, data) in entries {
        let mut header = tar::Header::new_gnu();
        header.set_size(data.len() as u64);
        header.set_mode(0o644);
        header.set_cksum();
        builder.append_data(&mut header, path, *data).unwrap();
    }
    let tar_bytes = builder.into_inner().unwrap();
    let mut encoder = xz2::read::XzEncoder::new(tar_bytes.as_slice(), 6);
    let mut out = Vec::new();
    std::io::Read::read_to_end(&mut encoder, &mut out).unwrap();
    out
}

/// Builds a tar.xz whose single entry carries a raw, unsanitized path — the
/// shape of a path-traversal attack, which the builder API itself refuses.
fn make_hostile_tar_xz(path: &str, data: &[u8]) -> Vec<u8> {
    let mut header = tar::Header::new_gnu();
    {
        let gnu = header.as_gnu_mut().unwrap();
        let bytes = path.as_bytes();
        gnu.name[..bytes.len()].copy_from_slice(bytes);
    }
    header.set_size(data.len() as u64);
    header.set_mode(0o644);
    header.set_entry_type(tar::EntryType::Regular);
    header.set_cksum();
    let mut builder = tar::Builder::new(Vec::new());
    builder.append(&header, data).unwrap();
    let tar_bytes = builder.into_inner().unwrap();
    let mut encoder = xz2::read::XzEncoder::new(tar_bytes.as_slice(), 6);
    let mut out = Vec::new();
    std::io::Read::read_to_end(&mut encoder, &mut out).unwrap();
    out
}

fn pkg(name: &str) -> PackageRef {
    PackageRef { name: name.to_string(), version: None }
}

fn good_source(archive: Vec<u8>) -> Source {
    let sum = checksum(&archive);
    Source {
        available: true,
        data: archive,
        advertises_length: true,
        range_capable: true,
        fail_after: None,
        vspec: Some(VerificationSpec::Checksum { expected: sum }),
    }
}

fn env_for(sources: Vec<Source>) -> Env {
    let staging = sources.iter().map(|_| StagedArchive::empty()).collect::<Vec<_>>();
    Env { sources, staging, fs: Fs::empty() }
}

fn file_bytes(fs: &Fs, path: &str) -> Option<Vec<u8>> {
    match fs.lookup(&path.to_string()) {
        Some(FsNode::File { data }) => Some(data.clone()),
        _ => None,
    }
}

fn run_to_completion(j: &mut Journal, env: &mut Env, id: u64) -> RunStatus {
    let mut events: Vec<ProgressEvent> = Vec::new();
    for _ in 0..100 {
        match resume(j, env, id, 1000, &mut events) {
            Ok(RunStatus::Completed) => return RunStatus::Completed,
            Ok(RunStatus::Paused) => continue,
            Err(e) => panic!("resume failed: {:?}", e),
        }
    }
    panic!("transaction did not settle");
}

#[test]
fn install_single_package_completes() {
    let archive = make_tar_xz(&[("usr/bin/foo", b"foo binary"), ("usr/share/foo.txt", b"docs")]);
    let mut j = Journal::new();
    let mut env = env_for(vec![good_source(archive)]);
    let mut events: Vec<ProgressEvent> = Vec::new();
    let (id, status) =
        install(&mut j, &mut env, vec![pkg("foo-1.2")], false, 7, 1000, &mut events).unwrap();
    assert_eq!(status, RunStatus::Completed);
    let tx = j.load(id).unwrap();
    assert_eq!(tx.state, TxState::Committed);
    assert_eq!(tx.stages[0], Stage::Committed);
    assert_eq!(report(tx), vec![Outcome::Installed]);
    assert_eq!(file_bytes(&env.fs, "usr/bin/foo").unwrap(), b"foo binary".to_vec());
    assert_eq!(file_bytes(&env.fs, "usr/share/foo.txt").unwrap(), b"docs".to_vec());
    assert!(!events.is_empty());
}

#[test]
fn network_failure_records_offset_and_resume_finishes() {
    let archive = make_tar_xz(&[("opt/foo/data", b"the payload of foo")]);
    let total = archive.len() as u64;
    let cut = total * 2 / 5;
    let mut source = good_source(archive.clone());
    source.fail_after = Some(cut);
    let mut j = Journal::new();
    let mut env = env_for(vec![source]);
    let mut events: Vec<ProgressEvent> = Vec::new();
    let (id, status) =
        install(&mut j, &mut env, vec![pkg("foo-1.2")], false, 7, 1000, &mut events).unwrap();
    assert_eq!(status, RunStatus::Paused);
    {
        let tx = j.load(id).unwrap();
        assert_eq!(tx.state, TxState::Paused);
        assert_eq!(tx.stages[0], Stage::Fetching { bytes: cut });
    }
    assert_eq!(env.staging[0].data.len() as u64, cut);
    assert_eq!(env.staging[0].data[..], archive[..cut as usize]);
    assert_eq!(run_to_completion(&mut j, &mut env, id), RunStatus::Completed);
    let tx = j.load(id).unwrap();
    assert_eq!(tx.state, TxState::Committed);
    assert_eq!(report(tx), vec![Outcome::Installed]);
    assert_eq!(file_bytes(&env.fs, "opt/foo/data").unwrap(), b"the payload of foo".to_vec());
}

#[test]
fn verification_failure_fails_package_but_commits_the_rest() {
    let foo = make_tar_xz(&[("usr/bin/foo", b"foo")]);
    let bar = make_tar_xz(&[("usr/bin/bar", b"bar")]);
    let bar_sum = checksum(&bar);
    let mut bar_source = good_source(bar);
    bar_source.vspec = Some(VerificationSpec::Checksum { expected: bar_sum.wrapping_add(1) });
    let mut j = Journal::new();
    let mut env = env_for(vec![good_source(foo), bar_source]);
    let mut events: Vec<ProgressEvent> = Vec::new();
    let (id, status) = install(
        &mut j,
        &mut env,
        vec![pkg("foo-1.2"), pkg("bar-0.9")],
        false,
        7,
        1000,
        &mut events,
    )
    .unwrap();
    assert_eq!(status, RunStatus::Completed);
    let tx = j.load(id).unwrap();
    assert_eq!(tx.state, TxState::Failed);
    assert_eq!(
        report(tx),
        vec![
            Outcome::Installed,
            Outcome::Failed { reason: ErrorKind::VerifyMismatch }
        ]
    );
    assert!(file_bytes(&env.fs, "usr/bin/foo").is_some());
    assert!(file_bytes(&env.fs, "usr/bin/bar").is_none());
    // The mismatched archive is quarantined, not deleted.
    assert!(!env.staging[1].data.is_empty());
}

#[test]
fn unsafe_path_rejected_and_target_untouched() {
    let evil = make_hostile_tar_xz("../../etc/passwd", b"root::0:0::/:/bin/sh");
    let mut j = Journal::new();
    let mut env = env_for(vec![good_source(evil)]);
    let mut events: Vec<ProgressEvent> = Vec::new();
    let (id, status) =
        install(&mut j, &mut env, vec![pkg("evil-0.1")], false, 7, 1000, &mut events).unwrap();
    assert_eq!(status, RunStatus::Completed);
    let tx = j.load(id).unwrap();
    assert_eq!(tx.state, TxState::Failed);
    assert_eq!(
        tx.stages[0],
        Stage::Failed { reason: ErrorKind::UnsafePath, phase: Phase::Extract }
    );
    assert!(env.fs.lookup(&"../../etc/passwd".to_string()).is_none());
    assert!(env.fs.lookup(&"etc/passwd".to_string()).is_none());
    assert!(tx.records[0].is_none());
}

#[test]
fn checksum_mismatch_leaves_no_files() {
    let archive = make_tar_xz(&[("usr/lib/libbad.so", b"payload")]);
    let sum = checksum(&archive);
    let mut source = good_source(archive);
    source.vspec = Some(VerificationSpec::Checksum { expected: sum.wrapping_add(7) });
    let mut j = Journal::new();
    let mut env = env_for(vec![source]);
    let mut events: Vec<ProgressEvent> = Vec::new();
    let (id, _) =
        install(&mut j, &mut env, vec![pkg("bad-1.0")], false, 7, 1000, &mut events).unwrap();
    let tx = j.load(id).unwrap();
    assert_eq!(
        tx.stages[0],
        Stage::Failed { reason: ErrorKind::VerifyMismatch, phase: Phase::Verify }
    );
    assert!(env.fs.lookup(&"usr/lib/libbad.so".to_string()).is_none());
}

#[test]
fn second_install_conflicts_while_first_is_live() {
    let archive = make_tar_xz(&[("a", b"a")]);
    let mut j = Journal::new();
    let mut env = env_for(vec![good_source(archive.clone())]);
    let mut events: Vec<ProgressEvent> = Vec::new();
    // Stop the first transaction after one stage transition: it stays live.
    let (_, status) =
        install(&mut j, &mut env, vec![pkg("first-1.0")], false, 7, 1, &mut events).unwrap();
    assert_eq!(status, RunStatus::Paused);
    let mut env2 = env_for(vec![good_source(archive)]);
    let second = install(&mut j, &mut env2, vec![pkg("second-1.0")], false, 8, 1000, &mut events);
    assert_eq!(second.unwrap_err(), ErrorKind::Conflict);
}

#[test]
fn lock_holder_blocks_second_engine() {
    let mut j = Journal::new();
    assert!(j.acquire_lock(1).is_ok());
    assert_eq!(j.acquire_lock(2).unwrap_err(), ErrorKind::Conflict);
    j.release_lock(1);
    assert!(j.acquire_lock(2).is_ok());
}

#[test]
fn resume_after_any_interruption_reaches_same_outcome() {
    let archive = make_tar_xz(&[("usr/bin/tool", b"tool bytes"), ("etc/tool.conf", b"conf")]);
    // Baseline: an uninterrupted run.
    let mut j0 = Journal::new();
    let mut env0 = env_for(vec![good_source(archive.clone())]);
    let mut events: Vec<ProgressEvent> = Vec::new();
    let (id0, status0) =
        install(&mut j0, &mut env0, vec![pkg("tool-2.0")], false, 7, 1000, &mut events).unwrap();
    assert_eq!(status0, RunStatus::Completed);
    let baseline_report = report(j0.load(id0).unwrap());
    let baseline_file = file_bytes(&env0.fs, "usr/bin/tool").unwrap();
    // Interrupt after every possible number of stage transitions, then resume.
    for budget in 0..10u64 {
        let mut j = Journal::new();
        let mut env = env_for(vec![good_source(archive.clone())]);
        let mut evs: Vec<ProgressEvent> = Vec::new();
        let (id, status) =
            install(&mut j, &mut env, vec![pkg("tool-2.0")], false, 7, budget, &mut evs).unwrap();
        if status == RunStatus::Paused {
            assert_eq!(run_to_completion(&mut j, &mut env, id), RunStatus::Completed);
        }
        let tx = j.load(id).unwrap();
        assert_eq!(tx.state, TxState::Committed);
        assert_eq!(report(tx), baseline_report);
        assert_eq!(file_bytes(&env.fs, "usr/bin/tool").unwrap(), baseline_file);
        assert_eq!(file_bytes(&env.fs, "etc/tool.conf").unwrap(), b"conf".to_vec());
    }
}

#[test]
fn resuming_committed_package_is_noop() {
    let foo = make_tar_xz(&[("foo.txt", b"foo")]);
    let bar = make_tar_xz(&[("bar.txt", b"bar")]);
    let mut j = Journal::new();
    let mut env = env_for(vec![good_source(foo), good_source(bar)]);
    let mut events: Vec<ProgressEvent> = Vec::new();
    // Exactly enough budget to commit the first package and no more.
    let (id, status) = install(
        &mut j,
        &mut env,
        vec![pkg("foo-1.2"), pkg("bar-0.9")],
        false,
        7,
        7,
        &mut events,
    )
    .unwrap();
    assert_eq!(status, RunStatus::Paused);
    let record_before: Vec<String> = match &j.load(id).unwrap().records[0] {
        Some(ExtractionRecord { paths }) => paths.clone(),
        None => panic!("first package should have a record"),
    };
    assert_eq!(j.load(id).unwrap().stages[0], Stage::Committed);
    assert_eq!(report(j.load(id).unwrap())[1], Outcome::Pending);
    assert_eq!(run_to_completion(&mut j, &mut env, id), RunStatus::Completed);
    let tx = j.load(id).unwrap();
    assert_eq!(tx.stages[0], Stage::Committed);
    let record_after: Vec<String> = match &tx.records[0] {
        Some(ExtractionRecord { paths }) => paths.clone(),
        None => panic!("record vanished"),
    };
    assert_eq!(record_before, record_after);
    assert_eq!(file_bytes(&env.fs, "foo.txt").unwrap(), b"foo".to_vec());
    assert_eq!(file_bytes(&env.fs, "bar.txt").unwrap(), b"bar".to_vec());
}

#[test]
fn missing_source_fails_package_as_not_found() {
    let mut source = good_source(make_tar_xz(&[("x", b"x")]));
    source.available = false;
    let mut j = Journal::new();
    let mut env = env_for(vec![source]);
    let mut events: Vec<ProgressEvent> = Vec::new();
    let (id, status) =
        install(&mut j, &mut env, vec![pkg("ghost-1.0")], false, 7, 1000, &mut events).unwrap();
    assert_eq!(status, RunStatus::Completed);
    let tx = j.load(id).unwrap();
    assert_eq!(
        tx.stages[0],
        Stage::Failed { reason: ErrorKind::NotFound, phase: Phase::Fetch }
    );
    assert_eq!(tx.state, TxState::Failed);
}

#[test]
fn missing_verification_spec_is_policy_gated() {
    let archive = make_tar_xz(&[("y", b"y")]);
    let mut source = good_source(archive.clone());
    source.vspec = None;
    let mut j = Journal::new();
    let mut env = env_for(vec![source]);
    let mut events: Vec<ProgressEvent> = Vec::new();
    let (id, _) =
        install(&mut j, &mut env, vec![pkg("unsigned-1.0")], false, 7, 1000, &mut events).unwrap();
    assert_eq!(
        j.load(id).unwrap().stages[0],
        Stage::Failed { reason: ErrorKind::VerifySpecUnavailable, phase: Phase::Verify }
    );
    // The same package with an explicit force flag installs, with a warning.
    let mut source2 = good_source(archive);
    source2.vspec = None;
    let mut j2 = Journal::new();
    let mut env2 = env_for(vec![source2]);
    let mut evs: Vec<ProgressEvent> = Vec::new();
    let (id2, status2) =
        install(&mut j2, &mut env2, vec![pkg("unsigned-1.0")], true, 7, 1000, &mut evs).unwrap();
    assert_eq!(status2, RunStatus::Completed);
    assert_eq!(j2.load(id2).unwrap().stages[0], Stage::Committed);
    assert!(evs.iter().any(|e| e.warning));
}

#[test]
fn rollback_deletes_exactly_what_was_written() {
    let archive = make_tar_xz(&[("usr/bin/app", b"app"), ("usr/share/app/readme", b"read me")]);
    let mut j = Journal::new();
    let mut env = env_for(vec![good_source(archive)]);
    let mut events: Vec<ProgressEvent> = Vec::new();
    let (id, status) =
        install(&mut j, &mut env, vec![pkg("app-3.1")], false, 7, 1000, &mut events).unwrap();
    assert_eq!(status, RunStatus::Completed);
    assert!(file_bytes(&env.fs, "usr/bin/app").is_some());
    rollback(&mut j, &mut env, id).unwrap();
    let tx = j.load(id).unwrap();
    assert_eq!(tx.state, TxState::RolledBack);
    assert_eq!(tx.stages[0], Stage::RolledBack);
    assert_eq!(report(tx), vec![Outcome::RolledBack]);
    assert!(env.fs.lookup(&"usr/bin/app".to_string()).is_none());
    assert!(env.fs.lookup(&"usr/share/app/readme".to_string()).is_none());
    assert!(env.staging[0].data.is_empty());
    // A rolled-back transaction can be retired, and rolled back only once.
    assert_eq!(rollback(&mut j, &mut env, id).unwrap_err(), ErrorKind::Conflict);
    assert!(j.retire(id).is_ok());
    assert_eq!(j.load(id).unwrap_err(), ErrorKind::NotFound);
}

#[test]
fn resume_surface_lists_paused_transactions() {
    let archive = make_tar_xz(&[("z", b"z")]);
    let mut j = Journal::new();
    let mut env = env_for(vec![good_source(archive)]);
    let mut events: Vec<ProgressEvent> = Vec::new();
    let (id, status) =
        install(&mut j, &mut env, vec![pkg("z-1.0")], false, 7, 1, &mut events).unwrap();
    assert_eq!(status, RunStatus::Paused);
    let resumable = j.list_resumable();
    assert_eq!(resumable.len(), 1);
    assert_eq!(resumable[0].0, id);
    assert_eq!(resumable[0].1, 1);
    assert_eq!(run_to_completion(&mut j, &mut env, id), RunStatus::Completed);
    assert!(j.list_resumable().is_empty());
}

#[test]
fn malformed_archive_fails_extraction_as_io() {
    // Bytes that checksum correctly but are no xz stream at all.
    let garbage: Vec<u8> = vec![7; 64];
    let mut j = Journal::new();
    let mut env = env_for(vec![good_source(garbage)]);
    let mut events: Vec<ProgressEvent> = Vec::new();
    let (id, _) =
        install(&mut j, &mut env, vec![pkg("broken-1.0")], false, 7, 1000, &mut events).unwrap();
    assert_eq!(
        j.load(id).unwrap().stages[0],
        Stage::Failed { reason: ErrorKind::Io, phase: Phase::Extract }
    );
}

#[test]
fn events_follow_each_recorded_transition() {
    let archive = make_tar_xz(&[("e/one", b"1")]);
    let mut j = Journal::new();
    let mut env = env_for(vec![good_source(archive)]);
    let mut events: Vec<ProgressEvent> = Vec::new();
    let (_, status) =
        install(&mut j, &mut env, vec![pkg("e-1.0")], false, 7, 1000, &mut events).unwrap();
    assert_eq!(status, RunStatus::Completed);
    // One event per stage transition, in order, ending at commit.
    assert_eq!(events.len(), 7);
    assert!(events.iter().all(|e| e.package == 0));
    assert_eq!(events[0].stage, Stage::Fetching { bytes: 0 });
    assert_eq!(events[1].stage, Stage::Fetched);
    assert_eq!(events[6].stage, Stage::Committed);
}

#[test]
fn operator_recorded_failures_appear_in_the_report() {
    let mut j = Journal::new();
    let id = j.create(vec![pkg("disk-1.0"), pkg("perm-1.0")], false, 7).unwrap();
    j.update(
        id,
        0,
        Stage::Failed { reason: ErrorKind::ResourceExhausted, phase: Phase::Extract },
        None,
    )
    .unwrap();
    j.update(
        id,
        1,
        Stage::Failed { reason: ErrorKind::Permission, phase: Phase::Extract },
        None,
    )
    .unwrap();
    let tx = j.load(id).unwrap();
    assert_eq!(
        report(tx),
        vec![
            Outcome::Failed { reason: ErrorKind::ResourceExhausted },
            Outcome::Failed { reason: ErrorKind::Permission }
        ]
    );
}

#[test]
fn retry_resets_failed_package_to_last_completed_stage() {
    let archive = make_tar_xz(&[("pkg/bin", b"binary")]);
    let sum = checksum(&archive);
    let mut source = good_source(archive);
    // The resolver supplied a wrong checksum; verification fails.
    source.vspec = Some(VerificationSpec::Checksum { expected: sum.wrapping_add(1) });
    let mut j = Journal::new();
    let mut env = env_for(vec![source]);
    let mut events: Vec<ProgressEvent> = Vec::new();
    let (id, _) =
        install(&mut j, &mut env, vec![pkg("pkg-1.0")], false, 7, 1000, &mut events).unwrap();
    assert_eq!(
        j.load(id).unwrap().stages[0],
        Stage::Failed { reason: ErrorKind::VerifyMismatch, phase: Phase::Verify }
    );
    // A retry of a package that has not failed is refused.
    assert_eq!(iris::engine::retry_package(&mut j, id, 1).unwrap_err(), ErrorKind::NotFound);
    // The operator fixes the spec and retries: the package re-verifies the
    // quarantined archive and installs.
    env.sources[0].vspec = Some(VerificationSpec::Checksum { expected: sum });
    iris::engine::retry_package(&mut j, id, 0).unwrap();
    assert_eq!(j.load(id).unwrap().stages[0], Stage::Fetched);
    assert_eq!(run_to_completion(&mut j, &mut env, id), RunStatus::Completed);
    assert_eq!(j.load(id).unwrap().stages[0], Stage::Committed);
    assert_eq!(file_bytes(&env.fs, "pkg/bin").unwrap(), b"binary".to_vec());
    // A committed package cannot be retried.
    assert_eq!(iris::engine::retry_package(&mut j, id, 0).unwrap_err(), ErrorKind::Conflict);
}

#[test]
fn resume_of_unknown_transaction_is_not_found() {
    let mut j = Journal::new();
    let mut env = env_for(vec![]);
    let mut events: Vec<ProgressEvent> = Vec::new();
    assert_eq!(resume(&mut j, &mut env, 42, 10, &mut events).unwrap_err(), ErrorKind::NotFound);
}
