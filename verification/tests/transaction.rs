use std::collections::BTreeMap;

use omnius_generator::applicator::{Applicator, ApplyAction, ApplyEvent};
use omnius_generator::digest::sha256_hex;
use omnius_generator::journal::{
    classify_contents, decode_optional, operation_temporary_name, permission_mode,
    validate_operation_path, validate_plan_id, ApplyBoundary, ContentDecision, EncodedBytes,
    JournalError, JOURNAL_SCHEMA_VERSION,
};
use omnius_generator::recovery::{
    cleanup_journal_temporary_file, cleanup_operation_temporary_file,
    ensure_created_directory_absent, ensure_operation_temporary_absent, plan_directory_removal,
    preflight_created_directory, prune_empty_operation_parents, settle_application,
    verify_file_identity, verify_sealed_contents, FoundDirectory, JournalFile, RecoveryOutcome,
    TemporaryFile, TemporaryJournalAction,
};
use omnius_generator::restorer::{
    begin_recovery, RecoveryStart, RestoreAction, RestoreEvent, Restorer,
};
use omnius_generator::transaction::{
    parent_directories, prepare_transaction, CurrentFile, DirectoryState, FileIdentity, Journal,
    JournalEntry, JournalOperation, JournalState, Observation, TemporaryState,
};

const IDENTITY: FileIdentity = FileIdentity { device: 1, inode: 7 };

/// Files, directories and temporary files of a project, and its journal.
#[derive(Clone, Debug, PartialEq, Eq)]
struct Disk {
    files: BTreeMap<String, Vec<u8>>,
    directories: BTreeMap<String, FileIdentity>,
    temporaries: BTreeMap<usize, Vec<u8>>,
}

fn text(value: &str) -> String {
    value.to_owned()
}

fn new_disk(files: &[(&str, &[u8])]) -> Disk {
    let mut directories = BTreeMap::new();
    for (path, _) in files {
        for parent in parent_directories(path) {
            directories.insert(parent, IDENTITY);
        }
    }
    Disk {
        files: files.iter().map(|(path, bytes)| (text(path), bytes.to_vec())).collect(),
        directories,
        temporaries: BTreeMap::new(),
    }
}

fn write(path: &str, before: Option<&[u8]>, after: &[u8]) -> JournalOperation {
    JournalOperation::write(text(path), before.map(sha256_hex), after.to_vec(), sha256_hex(after))
        .expect("operation")
}

fn remove(path: &str, before: &[u8]) -> JournalOperation {
    JournalOperation::remove(text(path), sha256_hex(before)).expect("operation")
}

fn observe(disk: &Disk, path: &str) -> Observation {
    Observation {
        present_parents: parent_directories(path)
            .iter()
            .filter(|parent| disk.directories.contains_key(parent.as_str()))
            .count(),
        current: disk
            .files
            .get(path)
            .map(|bytes| CurrentFile { bytes: bytes.clone(), mode: 0o600 }),
    }
}

fn prepare(
    disk: &Disk,
    plan: &str,
    operations: Vec<JournalOperation>,
) -> Result<Journal, JournalError> {
    let observations =
        operations.iter().map(|operation| observe(disk, operation.path())).collect();
    prepare_transaction(text(plan), operations, observations)
}

fn contents(disk: &Disk, journal: &Journal) -> Vec<Option<Vec<u8>>> {
    journal.entries.iter().map(|entry| disk.files.get(&entry.path).cloned()).collect()
}

fn put(disk: &mut Disk, path: &str, bytes: Option<Vec<u8>>) {
    match bytes {
        Some(bytes) => disk.files.insert(text(path), bytes),
        None => disk.files.remove(path),
    };
}

fn found(disk: &Disk, path: &str) -> FoundDirectory {
    disk.directories.get(path).map_or(FoundDirectory::Missing, |id| FoundDirectory::Directory(*id))
}

fn is_empty(disk: &Disk, path: &str) -> bool {
    let prefix = format!("{path}/");
    !disk.files.keys().any(|file| file.starts_with(&prefix))
        && !disk.directories.keys().any(|directory| directory.starts_with(&prefix))
}

/// Performs an action of an application and says what came of it.
fn perform(disk: &mut Disk, written: &mut Option<Journal>, run: &Applicator) -> ApplyEvent {
    let journal = run.journal();
    match run.action() {
        ApplyAction::InspectDirectory { index } => {
            let path = &journal.created_directories[index].path;
            ApplyEvent::Directory { display: path.clone(), found: found(disk, path) }
        }
        ApplyAction::WriteJournal => {
            *written = Some(journal.duplicate());
            ApplyEvent::Done
        }
        ApplyAction::MakeDirectory { index } => {
            disk.directories.insert(journal.created_directories[index].path.clone(), IDENTITY);
            ApplyEvent::Identity(IDENTITY)
        }
        ApplyAction::SyncDirectory { .. } => ApplyEvent::Done,
        ApplyAction::InspectEntry { index } => ApplyEvent::Entry {
            display: text("temporary"),
            temporary: disk.temporaries.get(&index).cloned(),
            current: disk.files.get(&journal.entries[index].path).cloned(),
        },
        ApplyAction::CreateTemporary { index } => {
            disk.temporaries.insert(index, vec![]);
            ApplyEvent::Identity(IDENTITY)
        }
        ApplyAction::ReplaceTarget { index } => {
            let entry = &journal.entries[index];
            let bytes = decode_optional(&entry.replacement, &entry.path, "replacement");
            disk.temporaries.remove(&index);
            put(disk, &entry.path, bytes.expect("replacement"));
            ApplyEvent::Done
        }
        ApplyAction::RemoveTarget { index, prune } => {
            disk.files.remove(&journal.entries[index].path);
            for path in prune {
                if !is_empty(disk, &path) {
                    break;
                }
                disk.directories.remove(&path);
            }
            ApplyEvent::Done
        }
        ApplyAction::InspectContents => ApplyEvent::Contents(contents(disk, journal)),
        ApplyAction::RemoveJournal => {
            *written = None;
            ApplyEvent::Done
        }
    }
}

/// Applies a journal, but for at most this many actions, and returns the journal on disk.
fn apply_steps(disk: &mut Disk, journal: Journal, steps: usize) -> Option<Journal> {
    let mut written = Some(journal.duplicate());
    let mut run = Applicator::begin(journal);
    for _ in 0..steps {
        let event = perform(disk, &mut written, &run);
        match run.advance(event).expect("application") {
            Some(next) => run = next,
            None => return written,
        }
    }
    written
}

/// Applies a journal up to the first action of the given kind, and through it.
fn apply_through(
    disk: &mut Disk,
    journal: Journal,
    last: impl Fn(&ApplyAction) -> bool,
) -> Option<Journal> {
    let mut written = Some(journal.duplicate());
    let mut run = Applicator::begin(journal);
    loop {
        let done = last(&run.action());
        let event = perform(disk, &mut written, &run);
        match run.advance(event).expect("application") {
            Some(next) if !done => run = next,
            _ => return written,
        }
    }
}

fn recover(disk: &mut Disk, journal: Journal) -> Result<RecoveryOutcome, JournalError> {
    let mut run = match begin_recovery(Some(journal))? {
        RecoveryStart::Restore(run) => run,
        RecoveryStart::Finished(outcome) => return Ok(outcome),
    };
    loop {
        let outcome = run.outcome();
        let event = restore(disk, &run);
        match run.advance(event)? {
            Some(next) => run = next,
            None => return Ok(outcome),
        }
    }
}

fn restore(disk: &mut Disk, run: &Restorer) -> RestoreEvent {
    let journal = run.journal();
    match run.action() {
        RestoreAction::InspectDirectory { index } => {
            let path = &journal.created_directories[index].path;
            RestoreEvent::Directory { display: path.clone(), found: found(disk, path) }
        }
        RestoreAction::InspectContents => RestoreEvent::Contents(contents(disk, journal)),
        RestoreAction::InspectTemporary { index } => RestoreEvent::Temporary {
            display: text("temporary"),
            file: disk
                .temporaries
                .get(&index)
                .map(|bytes| TemporaryFile { bytes: bytes.clone(), identity: IDENTITY }),
        },
        RestoreAction::RemoveTemporary { index } => {
            disk.temporaries.remove(&index);
            RestoreEvent::Done
        }
        RestoreAction::InspectEntry { index } => {
            RestoreEvent::Current(disk.files.get(&journal.entries[index].path).cloned())
        }
        RestoreAction::CreateTemporary { index } => {
            for parent in parent_directories(&journal.entries[index].path) {
                disk.directories.entry(parent).or_insert(IDENTITY);
            }
            disk.temporaries.insert(index, vec![]);
            RestoreEvent::Identity(IDENTITY)
        }
        RestoreAction::RestoreTarget { index } => {
            let entry = &journal.entries[index];
            let bytes = decode_optional(&entry.original, &entry.path, "original");
            disk.temporaries.remove(&index);
            put(disk, &entry.path, bytes.expect("original"));
            RestoreEvent::Done
        }
        RestoreAction::RemoveTarget { index } => {
            disk.files.remove(&journal.entries[index].path);
            RestoreEvent::Done
        }
        RestoreAction::RemoveDirectory { index } => {
            let path = &journal.created_directories[index].path;
            assert!(is_empty(disk, path));
            disk.directories.remove(path);
            RestoreEvent::Done
        }
        RestoreAction::WriteJournal | RestoreAction::RemoveJournal => RestoreEvent::Done,
    }
}

fn rolled_back(plan: &str) -> Result<RecoveryOutcome, JournalError> {
    Ok(RecoveryOutcome::RolledBack { plan_id: text(plan) })
}

fn finalized(plan: &str) -> Result<RecoveryOutcome, JournalError> {
    Ok(RecoveryOutcome::Finalized { plan_id: text(plan) })
}

fn three_operations() -> Vec<JournalOperation> {
    vec![
        write("ordinary.bin", Some(b"ordinary-old"), b"ordinary-new"),
        write("Cargo.lock", Some(b"lock-old"), b"lock-new"),
        write(".omnius/service.toml", Some(b"state-old"), b"state-new"),
    ]
}

#[test]
fn journal_round_trip_preserves_arbitrary_exact_bytes() {
    let original = [0, 1, 2, 0xff, b'\n'];
    let replacement = [0xfe, 0, b'\r', b'\n'];
    let journal = Journal {
        schema_version: JOURNAL_SCHEMA_VERSION,
        plan_id: text("round-trip"),
        state: JournalState::Prepared,
        created_directories: Vec::new(),
        entries: vec![JournalEntry {
            path: text("data.bin"),
            expected_before_sha256: Some(sha256_hex(&original)),
            expected_after_sha256: Some(sha256_hex(&replacement)),
            original: EncodedBytes::from_optional(&Some(original.to_vec())),
            replacement: EncodedBytes::from_optional(&Some(replacement.to_vec())),
            original_mode: Some(0o600),
            temporary_state: TemporaryState::Absent,
            temporary_identity: None,
            applied: false,
        }],
    };
    let decoded = journal.duplicate();
    assert_eq!(decoded.validate(), Ok(()));
    let decoded_original = decode_optional(&decoded.entries[0].original, "data.bin", "original");
    let decoded_replacement =
        decode_optional(&decoded.entries[0].replacement, "data.bin", "replacement");
    assert_eq!(
        (decoded, decoded_original, decoded_replacement),
        (journal, Ok(Some(original.to_vec())), Ok(Some(replacement.to_vec())))
    );
}

#[test]
fn prepared_recovery_restores_replacement_after_target_change_fault() {
    let mut disk = new_disk(&[("target.bin", b"original")]);
    let before = disk.clone();
    let operations = vec![write("target.bin", Some(b"original"), b"replacement")];
    let journal = prepare(&disk, "prepared-recovery", operations).expect("journal");
    let written = apply_through(&mut disk, journal, |action| {
        matches!(action, ApplyAction::ReplaceTarget { index: 0 })
    });
    assert_eq!(disk.files["target.bin"], b"replacement");
    assert_eq!(recover(&mut disk, written.expect("journal")), rolled_back("prepared-recovery"));
    assert_eq!(disk, before);
}

#[test]
fn prepared_recovery_removes_synced_temporary_file_and_created_parent() {
    let mut disk = new_disk(&[]);
    let before = disk.clone();
    let operations = vec![write("nested/target.bin", None, b"replacement")];
    let journal = prepare(&disk, "temporary-recovery", operations).expect("journal");
    assert_eq!(journal.created_directories.len(), 1);
    let written = apply_steps(&mut disk, journal, 9);
    disk.temporaries.insert(0, b"replacement".to_vec());
    assert!(disk.directories.contains_key("nested"));
    assert_eq!(recover(&mut disk, written.expect("journal")), rolled_back("temporary-recovery"));
    assert_eq!(disk, before);
}

#[test]
fn prepared_recovery_fails_closed_on_third_party_bytes() {
    let mut disk = new_disk(&[("target.bin", b"original")]);
    let operations = vec![write("target.bin", Some(b"original"), b"replacement")];
    let journal = prepare(&disk, "third-bytes", operations).expect("journal");
    let written = apply_through(&mut disk, journal, |action| {
        matches!(action, ApplyAction::ReplaceTarget { index: 0 })
    });
    put(&mut disk, "target.bin", Some(b"third-party".to_vec()));
    let error = recover(&mut disk, written.expect("journal"))
        .expect_err("third-party bytes block recovery");
    assert!(matches!(error, JournalError::UnexpectedContents { .. }));
    assert_eq!(disk.files["target.bin"], b"third-party");
}

#[test]
fn recovery_of_a_project_without_a_journal_has_nothing_to_do() {
    assert!(matches!(
        begin_recovery(None),
        Ok(RecoveryStart::Finished(RecoveryOutcome::Absent))
    ));
    let disk = new_disk(&[("target.bin", b"original")]);
    let operations = vec![write("target.bin", Some(b"original"), b"replacement")];
    let mut journal = prepare(&disk, "start", operations).expect("journal");
    journal.plan_id = text("");
    assert!(begin_recovery(Some(journal)).is_err());
}

#[test]
fn committed_recovery_finalizes_without_rolling_back() {
    let mut disk = new_disk(&[("target.bin", b"original")]);
    let operations = vec![write("target.bin", Some(b"original"), b"replacement")];
    let mut journal = prepare(&disk, "committed-recovery", operations).expect("journal");
    journal = apply_through(&mut disk, journal, |action| *action == ApplyAction::InspectContents)
        .expect("journal");
    journal.mark_committed();
    assert_eq!(recover(&mut disk, journal), finalized("committed-recovery"));
    assert_eq!(disk.files["target.bin"], b"replacement");
}

#[test]
fn prepared_recovery_handles_crash_before_directory_identity_is_journaled() {
    let mut disk = new_disk(&[]);
    let before = disk.clone();
    let operations = vec![write("nested/target.bin", None, b"replacement")];
    let journal = prepare(&disk, "directory-intent-recovery", operations).expect("journal");
    let written = apply_through(&mut disk, journal, |action| {
        matches!(action, ApplyAction::MakeDirectory { index: 0 })
    })
    .expect("journal");
    assert_eq!(written.created_directories[0].state, DirectoryState::Creating);
    assert_eq!(recover(&mut disk, written), rolled_back("directory-intent-recovery"));
    assert_eq!(disk, before);
}

#[test]
fn prepared_recovery_handles_crash_before_temporary_identity_is_journaled() {
    let mut disk = new_disk(&[("target.bin", b"original")]);
    let before = disk.clone();
    let operations = vec![write("target.bin", Some(b"original"), b"replacement")];
    let journal = prepare(&disk, "temporary-intent-recovery", operations).expect("journal");
    let written = apply_through(&mut disk, journal, |action| {
        matches!(action, ApplyAction::CreateTemporary { index: 0 })
    })
    .expect("journal");
    assert_eq!(written.entries[0].temporary_state, TemporaryState::Creating);
    assert_eq!(recover(&mut disk, written), rolled_back("temporary-intent-recovery"));
    assert_eq!(disk, before);
}

#[test]
fn one_transaction_applies_creation_replacement_and_deletion() {
    let mut disk = new_disk(&[("replace.bin", b"old"), ("delete.bin", b"delete")]);
    let operations = vec![
        write("nested/create.bin", None, b"created"),
        write("replace.bin", Some(b"old"), b"new"),
        remove("delete.bin", b"delete"),
    ];
    let journal = prepare(&disk, "all-operation-kinds", operations).expect("journal");
    assert_eq!(apply_steps(&mut disk, journal, usize::MAX), None);
    let created: &[(&str, &[u8])] =
        &[("nested/create.bin", b"created"), ("replace.bin", b"new")];
    assert_eq!(disk, new_disk(created));
}

#[test]
fn prepared_recovery_recreates_pruned_parents_for_deleted_files() {
    let mut disk = new_disk(&[("legacy/nested/deleted.bin", b"original")]);
    let before = disk.clone();
    let operations =
        vec![remove("legacy/nested/deleted.bin", b"original"), write("marker.bin", None, b"marker")];
    let journal = prepare(&disk, "pruned-parent-recovery", operations).expect("journal");
    assert_eq!(
        prune_empty_operation_parents("legacy/nested/deleted.bin", &journal.entries, 1),
        vec![text("legacy/nested"), text("legacy")]
    );
    let written = apply_through(&mut disk, journal, |action| {
        matches!(action, ApplyAction::InspectEntry { index: 1 })
    });
    assert!(disk.files.is_empty() && disk.directories.is_empty());
    let outcome = recover(&mut disk, written.expect("journal"));
    assert_eq!(outcome, rolled_back("pruned-parent-recovery"));
    assert_eq!(disk, before);
}

fn file(journal: Journal) -> JournalFile {
    JournalFile { bytes: b"journal".to_vec(), decoded: Ok(journal) }
}

fn partial() -> JournalFile {
    JournalFile {
        bytes: b"{\"schema_version\":".to_vec(),
        decoded: Err(text("EOF while parsing a value")),
    }
}

#[test]
fn recovery_removes_partial_journal_without_ready_marker() {
    assert_eq!(
        cleanup_journal_temporary_file(&Some(partial()), &None, &None),
        Ok(TemporaryJournalAction::RemoveTemporary)
    );
    assert_eq!(
        cleanup_journal_temporary_file(&None, &None, &None),
        Ok(TemporaryJournalAction::Nothing)
    );
}

#[test]
fn recovery_rejects_malformed_journal_with_ready_marker() {
    let result = cleanup_journal_temporary_file(&Some(partial()), &Some(vec![]), &None);
    assert!(matches!(result, Err(JournalError::Decode(_))));
}

#[test]
fn a_complete_next_journal_takes_the_place_of_the_durable_one() {
    let disk = new_disk(&[("target.bin", b"original")]);
    let operations = || vec![write("target.bin", Some(b"original"), b"replacement")];
    let current = prepare(&disk, "plan", operations()).expect("journal");
    let mut next = current.duplicate();
    next.mark_entry(0, TemporaryState::Creating, None, false);
    assert!(current.same_sealed_plan(&next));
    assert_eq!(
        cleanup_journal_temporary_file(
            &Some(file(next.duplicate())),
            &Some(vec![]),
            &Some(file(current))
        ),
        Ok(TemporaryJournalAction::FinishReplacement)
    );
    let other = prepare(&disk, "other", operations()).expect("journal");
    let refused =
        cleanup_journal_temporary_file(&Some(file(other)), &Some(vec![]), &Some(file(next)));
    assert!(matches!(refused, Err(JournalError::UnexpectedContents { .. })));
}

#[test]
fn every_file_and_commit_boundary_recovers_to_one_complete_identity() {
    let old = new_disk(&[
        ("ordinary.bin", b"ordinary-old"),
        ("Cargo.lock", b"lock-old"),
        (".omnius/service.toml", b"state-old"),
    ]);
    let new = new_disk(&[
        ("ordinary.bin", b"ordinary-new"),
        ("Cargo.lock", b"lock-new"),
        (".omnius/service.toml", b"state-new"),
    ]);
    let mut finished = false;
    let mut steps = 0;
    while !finished {
        let mut disk = old.clone();
        let journal = prepare(&disk, "boundary", three_operations()).expect("journal");
        match apply_steps(&mut disk, journal, steps) {
            Some(written) => {
                let committed = written.state == JournalState::Committed;
                let outcome = recover(&mut disk, written).expect("recovery");
                assert_eq!(matches!(outcome, RecoveryOutcome::Finalized { .. }), committed);
                assert_eq!(&disk, if committed { &new } else { &old });
            }
            None => {
                assert_eq!(disk, new);
                finished = true;
            }
        }
        steps += 1;
    }
    assert!(steps > 20);
}

#[test]
fn stale_and_useless_operations_are_refused() {
    let disk = new_disk(&[("target.bin", b"changed")]);
    let stale = prepare(
        &disk,
        "stale",
        vec![write("target.bin", Some(b"original"), b"replacement")],
    );
    assert!(matches!(stale, Err(JournalError::StaleInput { .. })));
    assert!(matches!(prepare(&disk, "empty", vec![]), Err(JournalError::InvalidPlan(_))));
    let twice = vec![write("a", None, b"1"), write("a", None, b"2")];
    assert!(prepare(&disk, "twice", twice).is_err());
    let wrong_hash =
        JournalOperation::write(text("a"), None, b"bytes".to_vec(), sha256_hex(b"other"));
    assert!(matches!(wrong_hash, Err(JournalError::InvalidOperation { .. })));
    assert!(validate_plan_id("").is_err());
    assert!(matches!(
        validate_operation_path("../outside"),
        Err(JournalError::InvalidOperation { .. })
    ));
    assert!(validate_operation_path(".omnius/transaction.json").is_err());
}

#[test]
fn unowned_directories_and_files_stop_recovery() {
    let operations = vec![write("nested/target.bin", None, b"replacement")];
    let mut journal = prepare(&new_disk(&[]), "unowned", operations).expect("journal");
    let nested = FoundDirectory::Directory(IDENTITY);
    let planned =
        preflight_created_directory(journal.state, &journal.created_directories[0], "n", nested);
    assert_eq!(
        planned,
        Err(JournalError::UnsafePath {
            path: text("n"),
            reason: text("unowned directory appeared after transaction sealing"),
        })
    );
    assert!(ensure_created_directory_absent("n", nested).is_err());
    assert!(ensure_created_directory_absent("n", FoundDirectory::Other).is_err());
    assert_eq!(ensure_created_directory_absent("n", FoundDirectory::Missing), Ok(()));
    assert!(ensure_operation_temporary_absent(&journal.entries[0], "t", &Some(vec![1])).is_err());
    assert_eq!(ensure_operation_temporary_absent(&journal.entries[0], "t", &None), Ok(()));
    let temporary = TemporaryFile { bytes: vec![], identity: IDENTITY };
    assert!(cleanup_operation_temporary_file(&journal.entries[0], "t", &Some(temporary)).is_err());
    journal.mark_directory(0, DirectoryState::Created, Some(IDENTITY));
    let other = FileIdentity { device: 1, inode: 8 };
    assert!(plan_directory_removal(
        &journal.created_directories[0],
        "n",
        FoundDirectory::Directory(other)
    )
    .is_err());
    assert!(verify_file_identity(IDENTITY, other, "t").is_err());
    assert_eq!(verify_file_identity(IDENTITY, IDENTITY, "t"), Ok(()));
    let bytes = Some(vec![1]);
    assert_eq!(verify_sealed_contents("t", "sealed bytes", &bytes, &bytes), Ok(()));
    assert!(verify_sealed_contents("t", "sealed bytes", &None, &bytes).is_err());
}

#[test]
fn a_failed_application_is_settled_by_its_recovery() {
    let failure = || JournalError::InvalidPlan(text("failed"));
    assert_eq!(settle_application(failure(), finalized("p")), Ok(()));
    assert_eq!(settle_application(failure(), rolled_back("p")), Err(failure()));
    assert!(matches!(
        settle_application(failure(), Err(failure())),
        Err(JournalError::RollbackFailed { .. })
    ));
    assert_eq!(ApplyBoundary::BeforeCommit.message(), "before-commit");
}

#[test]
fn contents_and_names_are_told_apart() {
    let bytes = |value: &[u8]| Some(value.to_vec());
    assert_eq!(
        classify_contents(&bytes(b"a"), &bytes(b"a"), &None),
        ContentDecision::Original
    );
    assert_eq!(classify_contents(&None, &bytes(b"a"), &None), ContentDecision::Replacement);
    assert_eq!(classify_contents(&bytes(b"b"), &bytes(b"a"), &None), ContentDecision::Other);
    assert_eq!(permission_mode(0o100644), 0o644);
    assert_ne!(operation_temporary_name(0), operation_temporary_name(1));
    assert_eq!(parent_directories("a/b/c"), vec![text("a"), text("a/b")]);
}
