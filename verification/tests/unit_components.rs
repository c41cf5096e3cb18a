//! Unit tests for the engine's components: path safety, checksums and
//! verification, resumable fetching, backoff, the journal, extraction, the
//! model filesystem, and the confirmation parser.

use iris::cli::{AddRepo, Install, Operations, Remove, Resume, interpret_answer, needs_confirmation};
use iris::errors::ErrorKind;
use iris::extract::{ExtractionRecord, apply_extraction};
use iris::archive::ArchiveEntry;
use iris::fetch::{
    BACKOFF_CAP_MS, FetchOutcome, Source, StagedArchive, backoff_delay_ms, fetch_step,
    should_retry,
};
use iris::fsmodel::{Fs, FsNode};
use iris::integrity::{VerificationSpec, checksum, verify_archive};
use iris::journal::Journal;
use iris::paths::check_safe_rel_path;
use iris::pkg::{PackageRef, Phase, Stage, TxState};

fn pkg(name: &str) -> PackageRef {
    PackageRef { name: name.to_string(), version: None }
}

#[test]
fn path_traversal_is_rejected() {
    assert!(!check_safe_rel_path("../../etc/passwd"));
    assert!(!check_safe_rel_path("/etc/passwd"));
    assert!(!check_safe_rel_path("a/../b"));
    assert!(!check_safe_rel_path(".."));
    assert!(!check_safe_rel_path("a/.."));
    assert!(!check_safe_rel_path("../a"));
    assert!(!check_safe_rel_path(""));
}

#[test]
fn plain_relative_paths_are_accepted() {
    assert!(check_safe_rel_path("usr/bin/foo"));
    assert!(check_safe_rel_path("a..b"));
    assert!(check_safe_rel_path("..."));
    assert!(check_safe_rel_path("a/..b/c"));
    assert!(check_safe_rel_path("a/b../c"));
    assert!(check_safe_rel_path("."));
}

#[test]
fn checksum_has_exact_rolling_value() {
    // ((0 * 31 + 1) * 31 + 2) * 31 + 3
    assert_eq!(checksum(&vec![1u8, 2, 3]), 1026);
    assert_eq!(checksum(&vec![]), 0);
    assert_eq!(checksum(&vec![255u8]), 255);
}

#[test]
fn verification_distinguishes_mismatch_from_missing_spec() {
    let data = vec![1u8, 2, 3];
    let good = Some(VerificationSpec::Checksum { expected: 1026 });
    let bad = Some(VerificationSpec::Checksum { expected: 1027 });
    assert_eq!(verify_archive(&data, &good, false), Ok(false));
    assert_eq!(verify_archive(&data, &bad, false), Err(ErrorKind::VerifyMismatch));
    assert_eq!(verify_archive(&data, &None, false), Err(ErrorKind::VerifySpecUnavailable));
    assert_eq!(verify_archive(&data, &None, true), Ok(true));
    assert_eq!(verify_archive(&data, &Some(VerificationSpec::NoVerification), false), Ok(true));
}

#[test]
fn interrupted_fetch_resumes_byte_identically() {
    let payload: Vec<u8> = (0u8..=99).collect();
    let mut source = Source {
        available: true,
        data: payload.clone(),
        advertises_length: true,
        range_capable: true,
        fail_after: Some(40),
        vspec: None,
    };
    let mut staged = StagedArchive::empty();
    assert_eq!(fetch_step(&mut staged, &mut source), FetchOutcome::Interrupted);
    assert_eq!(staged.data[..], payload[..40]);
    assert_eq!(staged.total, Some(100));
    assert_eq!(fetch_step(&mut staged, &mut source), FetchOutcome::Complete);
    assert_eq!(staged.data, payload);
    // And the resumed result equals an uninterrupted fetch.
    let mut fresh_source = Source { fail_after: None, data: payload.clone(), ..source };
    let mut fresh = StagedArchive::empty();
    assert_eq!(fetch_step(&mut fresh, &mut fresh_source), FetchOutcome::Complete);
    assert_eq!(fresh.data, staged.data);
}

#[test]
fn non_range_source_restarts_from_zero() {
    let payload: Vec<u8> = (0u8..50).collect();
    let mut source = Source {
        available: true,
        data: payload.clone(),
        advertises_length: false,
        range_capable: false,
        fail_after: None,
        vspec: None,
    };
    let mut staged = StagedArchive::empty();
    staged.data = payload[..20].to_vec();
    assert_eq!(fetch_step(&mut staged, &mut source), FetchOutcome::Complete);
    assert_eq!(staged.data, payload);
    assert_eq!(staged.total, None);
}

#[test]
fn backoff_doubles_and_caps() {
    assert_eq!(backoff_delay_ms(0), 500);
    assert_eq!(backoff_delay_ms(1), 1000);
    assert_eq!(backoff_delay_ms(2), 2000);
    assert_eq!(backoff_delay_ms(5), 16000);
    assert_eq!(backoff_delay_ms(6), 30000);
    assert_eq!(backoff_delay_ms(60), BACKOFF_CAP_MS);
}

#[test]
fn only_network_errors_retry_within_budget() {
    assert_eq!(should_retry(ErrorKind::Network, 0), Some(500));
    assert_eq!(should_retry(ErrorKind::Network, 4), Some(8000));
    assert_eq!(should_retry(ErrorKind::Network, 5), None);
    assert_eq!(should_retry(ErrorKind::VerifyMismatch, 0), None);
    assert_eq!(should_retry(ErrorKind::NotFound, 0), None);
    assert!(ErrorKind::Network.is_retryable());
    assert!(!ErrorKind::Io.is_retryable());
}

#[test]
fn journal_create_conflicts_with_live_transaction() {
    let mut j = Journal::new();
    let id = j.create(vec![pkg("a-1")], false, 1).unwrap();
    assert_eq!(id, 0);
    // A pending transaction does not block creation; a live one does.
    j.set_state(id, TxState::InProgress).unwrap();
    assert_eq!(j.create(vec![pkg("b-1")], false, 2).unwrap_err(), ErrorKind::Conflict);
    j.set_state(id, TxState::Paused).unwrap();
    assert_eq!(j.create(vec![pkg("b-1")], false, 3).unwrap_err(), ErrorKind::Conflict);
    j.set_state(id, TxState::Committed).unwrap();
    let id2 = j.create(vec![pkg("b-1")], false, 4).unwrap();
    assert_eq!(id2, 1);
}

#[test]
fn journal_update_is_atomic_per_record() {
    let mut j = Journal::new();
    let id = j.create(vec![pkg("a-1"), pkg("b-2")], true, 9).unwrap();
    j.update(id, 1, Stage::Fetching { bytes: 10 }, None).unwrap();
    let tx = j.load(id).unwrap();
    assert_eq!(tx.stages[0], Stage::NotStarted);
    assert_eq!(tx.stages[1], Stage::Fetching { bytes: 10 });
    assert!(tx.force);
    assert_eq!(tx.created_at, 9);
    assert_eq!(j.update(id, 2, Stage::Fetched, None).unwrap_err(), ErrorKind::NotFound);
    assert_eq!(j.update(7, 0, Stage::Fetched, None).unwrap_err(), ErrorKind::NotFound);
}

#[test]
fn boundary_write_failures_are_recorded_not_skipped() {
    let mut j = Journal::new();
    let id = j.create(vec![pkg("a-1")], false, 1).unwrap();
    assert_eq!(
        iris::engine::record_write_failure(&mut j, id, 1, ErrorKind::Permission).unwrap_err(),
        ErrorKind::NotFound
    );
    iris::engine::record_write_failure(&mut j, id, 0, ErrorKind::ResourceExhausted).unwrap();
    assert_eq!(
        j.load(id).unwrap().stages[0],
        Stage::Failed { reason: ErrorKind::ResourceExhausted, phase: Phase::Extract }
    );
    iris::engine::record_write_failure(&mut j, id, 0, ErrorKind::Permission).unwrap();
    assert_eq!(
        j.load(id).unwrap().stages[0],
        Stage::Failed { reason: ErrorKind::Permission, phase: Phase::Extract }
    );
}

#[test]
fn journal_retire_requires_terminal_state() {
    let mut j = Journal::new();
    let id = j.create(vec![pkg("a-1")], false, 1).unwrap();
    assert_eq!(j.retire(id).unwrap_err(), ErrorKind::Conflict);
    j.set_state(id, TxState::Committed).unwrap();
    assert!(j.retire(id).is_ok());
    assert_eq!(j.retire(id).unwrap_err(), ErrorKind::NotFound);
}

#[test]
fn extraction_conflicts_on_foreign_file() {
    let mut fs = Fs::empty();
    fs.set_node("owned/by/other".to_string(), FsNode::File { data: vec![1] });
    let entries = vec![ArchiveEntry {
        path: "owned/by/other".to_string(),
        is_dir: false,
        link_target: None,
        data: vec![2],
    }];
    let r = apply_extraction(&mut fs, &entries, None);
    assert_eq!(r.unwrap_err(), ErrorKind::Conflict);
    // The foreign file is untouched.
    match fs.lookup(&"owned/by/other".to_string()) {
        Some(FsNode::File { data }) => assert_eq!(data, &vec![1]),
        _ => panic!("file vanished"),
    }
}

#[test]
fn extraction_skips_matching_owned_entries() {
    let mut fs = Fs::empty();
    fs.set_node("pkg/file".to_string(), FsNode::File { data: vec![9, 9, 9] });
    let prior = ExtractionRecord { paths: vec!["pkg/file".to_string()] };
    let entries = vec![ArchiveEntry {
        path: "pkg/file".to_string(),
        is_dir: false,
        link_target: None,
        data: vec![1, 2, 3],
    }];
    let rec = apply_extraction(&mut fs, &entries, Some(&prior)).unwrap();
    assert_eq!(rec.paths, vec!["pkg/file".to_string()]);
    // Same size: the already-written node is kept, not rewritten.
    match fs.lookup(&"pkg/file".to_string()) {
        Some(FsNode::File { data }) => assert_eq!(data, &vec![9, 9, 9]),
        _ => panic!("file vanished"),
    }
}

#[test]
fn extraction_rejects_escaping_symlink() {
    let mut fs = Fs::empty();
    let entries = vec![ArchiveEntry {
        path: "innocent".to_string(),
        is_dir: false,
        link_target: Some("../../outside".to_string()),
        data: vec![],
    }];
    assert_eq!(apply_extraction(&mut fs, &entries, None).unwrap_err(), ErrorKind::UnsafePath);
    assert!(fs.lookup(&"innocent".to_string()).is_none());
}

#[test]
fn fsmodel_set_lookup_remove() {
    let mut fs = Fs::empty();
    assert!(fs.lookup(&"a/b".to_string()).is_none());
    fs.set_node("a/b".to_string(), FsNode::File { data: vec![1, 2] });
    fs.set_node("a/c".to_string(), FsNode::Dir);
    match fs.lookup(&"a/b".to_string()) {
        Some(FsNode::File { data }) => assert_eq!(data, &vec![1, 2]),
        _ => panic!("missing file"),
    }
    fs.set_node("a/b".to_string(), FsNode::File { data: vec![3] });
    match fs.lookup(&"a/b".to_string()) {
        Some(FsNode::File { data }) => assert_eq!(data, &vec![3]),
        _ => panic!("missing file"),
    }
    fs.remove_node(&"a/b".to_string());
    assert!(fs.lookup(&"a/b".to_string()).is_none());
    assert!(matches!(fs.lookup(&"a/c".to_string()), Some(FsNode::Dir)));
}

#[test]
fn confirmation_answers_are_trimmed_and_case_insensitive() {
    assert_eq!(interpret_answer("y"), Some(true));
    assert_eq!(interpret_answer("Y"), Some(true));
    assert_eq!(interpret_answer("  yes \n"), Some(true));
    assert_eq!(interpret_answer("YeS"), Some(true));
    assert_eq!(interpret_answer("n"), Some(false));
    assert_eq!(interpret_answer("NO"), Some(false));
    assert_eq!(interpret_answer(" no\r\n"), Some(false));
    assert_eq!(interpret_answer(""), None);
    assert_eq!(interpret_answer("   "), None);
    assert_eq!(interpret_answer("maybe"), None);
    assert_eq!(interpret_answer("yess"), None);
}

#[test]
fn confirmation_policy_follows_flags() {
    assert!(needs_confirmation(&Operations::Install(Install {
        pkgs: vec!["a".to_string()],
        force: false
    })));
    assert!(!needs_confirmation(&Operations::Install(Install {
        pkgs: vec!["a".to_string()],
        force: true
    })));
    assert!(needs_confirmation(&Operations::Remove(Remove { pkgs: vec![], yes: false })));
    assert!(!needs_confirmation(&Operations::Remove(Remove { pkgs: vec![], yes: true })));
    assert!(needs_confirmation(&Operations::Upgrade));
    assert!(needs_confirmation(&Operations::Sync));
    assert!(!needs_confirmation(&Operations::List));
    assert!(!needs_confirmation(&Operations::AddRepo(AddRepo {
        repo: "r".to_string(),
        update: true
    })));
    assert!(needs_confirmation(&Operations::Resume(Resume { all: false, id: None })));
    assert!(!needs_confirmation(&Operations::Resume(Resume { all: true, id: None })));
    assert!(!needs_confirmation(&Operations::Resume(Resume {
        all: false,
        id: Some("3".to_string())
    })));
}
