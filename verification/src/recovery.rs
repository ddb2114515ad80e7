//! Recovery of interrupted transactions.
//!
//! The decisions here take what was found on disk and say what is to be done; each file that a
//! transaction sealed ends at its original bytes or at its replacement bytes, all files alike.

use vstd::prelude::*;
use vstd::string::*;

use crate::findings::or_else;
use crate::journal::{
    bytes_view, classify_contents, content_decision, decode_optional, decoded, encoding_failure,
    hash_of, outcome, unexpected_contents, ContentDecision, JournalError, JournalFailure,
    JOURNAL_READY_PATH, JOURNAL_TEMP_PATH, TRANSACTION_JOURNAL_PATH,
};
use crate::text::{join2, starts_with, texts};
use crate::transaction::{
    entry_failure, entry_models, parent_directories, parents, same_contents, DirectoryModel,
    DirectoryState, EntryModel, FileIdentity, Journal, JournalDirectory, JournalEntry, JournalModel, JournalState,
    TemporaryState,
};

verus! {

/// Result of recovering a journal.
#[derive(Debug, PartialEq, Eq)]
pub enum RecoveryOutcome {
    /// No transaction journal existed.
    Absent,
    /// A prepared transaction was restored to its sealed original bytes.
    RolledBack {
        /// Identifier of the plan.
        plan_id: String,
    },
    /// A committed transaction was verified at replacement bytes and finalized.
    Finalized {
        /// Identifier of the plan.
        plan_id: String,
    },
}

/// The values of the contents of files.
pub open spec fn contents_view(contents: Seq<Option<Vec<u8>>>) -> Seq<Option<Seq<u8>>> {
    contents.map_values(|bytes: Option<Vec<u8>>| bytes_view(bytes))
}

impl EntryModel {
    /// What `current` is, among the sealed bytes of this entry.
    pub open spec fn decision(self, current: Option<Seq<u8>>) -> ContentDecision {
        content_decision(current, self.original_bytes(), self.replacement_bytes())
    }

    /// Why recovery cannot deal with `current` in a journal of the given state.
    pub open spec fn recovery_failure(
        self,
        state: JournalState,
        current: Option<Seq<u8>>,
    ) -> Option<JournalFailure> {
        or_else(
            encoding_failure(self.original, self.path, "original"@),
            or_else(
                encoding_failure(self.replacement, self.path, "replacement"@),
                match state {
                    JournalState::Prepared => if self.decision(current)
                        != ContentDecision::Other {
                        None
                    } else {
                        Some(
                            JournalFailure::UnexpectedContents {
                                path: self.path,
                                expected: "sealed original or replacement bytes"@,
                                actual: hash_of(current),
                            },
                        )
                    },
                    JournalState::Committed => if self.decision(current)
                        == ContentDecision::Replacement {
                        None
                    } else {
                        Some(
                            JournalFailure::UnexpectedContents {
                                path: self.path,
                                expected: "sealed replacement bytes of a committed transaction"@,
                                actual: hash_of(current),
                            },
                        )
                    },
                },
            ),
        )
    }
}

impl JournalModel {
    /// Why recovery cannot deal with the contents of the first `count` entries.
    pub open spec fn recovery_failure(
        self,
        contents: Seq<Option<Seq<u8>>>,
        count: int,
    ) -> Option<JournalFailure>
        decreases count,
    {
        if count <= 0 {
            None
        } else {
            or_else(
                self.recovery_failure(contents, count - 1),
                self.entries[count - 1].recovery_failure(self.state, contents[count - 1]),
            )
        }
    }

    /// The contents of the file at `at` when application was interrupted after `done` changes.
    pub open spec fn interrupted(self, done: int, at: int) -> Option<Seq<u8>> {
        if at < done {
            self.entries[at].replacement_bytes()
        } else {
            self.entries[at].original_bytes()
        }
    }

    /// Recovery accepts contents exactly where it accepts those of each entry.
    pub proof fn lemma_recovery_accepts(self, contents: Seq<Option<Seq<u8>>>, count: int)
        requires
            0 <= count <= self.entries.len(),
        ensures
            self.recovery_failure(contents, count) is None <==> forall|i: int|
                0 <= i < count ==> (#[trigger] self.entries[i]).recovery_failure(
                    self.state,
                    contents[i],
                ) is None,
        decreases count,
    {
        if count > 0 {
            self.lemma_recovery_accepts(contents, count - 1);
            assert(self.entries[count - 1].recovery_failure(
                self.state,
                contents[count - 1],
            ) is None || self.entries[count - 1].recovery_failure(
                self.state,
                contents[count - 1],
            ) is Some);
        }
    }

    /// The contents that a valid journal sealed can be decoded, and differ.
    pub proof fn lemma_entries_decode(self)
        requires
            self.is_valid(),
        ensures
            forall|i: int|
                0 <= i < self.entries.len() ==> decoded((#[trigger] self.entries[i]).original) is Ok
                    && decoded(self.entries[i].replacement) is Ok
                    && self.entries[i].original_bytes() != self.entries[i].replacement_bytes(),
    {
        crate::transaction::lemma_no_entries_failure(self.entries, self.entries.len() as int);
        assert forall|i: int| 0 <= i < self.entries.len() implies decoded(
            (#[trigger] self.entries[i]).original,
        ) is Ok && decoded(self.entries[i].replacement) is Ok && self.entries[i].original_bytes()
            != self.entries[i].replacement_bytes() by {
            assert(entry_failure(self.entries, i) is None);
        }
    }
}

proof fn lemma_recovery_failure_stays(
    journal: JournalModel,
    contents: Seq<Option<Seq<u8>>>,
    count: int,
    total: int,
)
    requires
        journal.recovery_failure(contents, count) is Some,
        count <= total,
    ensures
        journal.recovery_failure(contents, total) == journal.recovery_failure(contents, count),
    decreases total - count,
{
    if count < total {
        lemma_recovery_failure_stays(journal, contents, count, total - 1);
    }
}

fn entry_decision(entry: &JournalEntry, current: &Option<Vec<u8>>) -> (result: Result<
    ContentDecision,
    JournalError,
>)
    ensures
        outcome(result) == or_else(
            encoding_failure(entry@.original, entry@.path, "original"@),
            encoding_failure(entry@.replacement, entry@.path, "replacement"@),
        ),
        result matches Ok(decision) ==> decision == entry@.decision(bytes_view(*current)),
{
    let original = match decode_optional(&entry.original, entry.path.as_str(), "original") {
        Ok(bytes) => bytes,
        Err(error) => {
            return Err(error);
        },
    };
    let replacement = match decode_optional(
        &entry.replacement,
        entry.path.as_str(),
        "replacement",
    ) {
        Ok(bytes) => bytes,
        Err(error) => {
            return Err(error);
        },
    };
    Ok(classify_contents(current, &original, &replacement))
}

/// Checks every file of a journal before recovery changes any of them.
pub fn preflight_recovery(journal: &Journal, contents: &Vec<Option<Vec<u8>>>) -> (result: Result<
    (),
    JournalError,
>)
    requires
        contents@.len() == journal@.entries.len(),
    ensures
        outcome(result) == journal@.recovery_failure(
            contents_view(contents@),
            journal@.entries.len() as int,
        ),
{
    let ghost model = journal@;
    let ghost files = contents_view(contents@);
    let mut index: usize = 0;
    while index < journal.entries.len()
        invariant
            model == journal@,
            files == contents_view(contents@),
            contents@.len() == model.entries.len(),
            index <= model.entries.len(),
            model.recovery_failure(files, index as int) is None,
        decreases model.entries.len() - index,
    {
        let entry = &journal.entries[index];
        let current = &contents[index];
        proof {
            assert(model.entries[index as int] == entry@);
            assert(files[index as int] == bytes_view(*current));
            if entry@.recovery_failure(model.state, bytes_view(*current)) is Some {
                lemma_recovery_failure_stays(
                    model,
                    files,
                    index + 1,
                    model.entries.len() as int,
                );
            }
        }
        let decision = match entry_decision(entry, current) {
            Ok(decision) => decision,
            Err(error) => {
                return Err(error);
            },
        };
        match journal.state {
            JournalState::Prepared => {
                if decision == ContentDecision::Other {
                    return Err(
                        unexpected_contents(
                            entry.path.as_str(),
                            "sealed original or replacement bytes",
                            current,
                        ),
                    );
                }
            },
            JournalState::Committed => {
                if decision != ContentDecision::Replacement {
                    return Err(
                        unexpected_contents(
                            entry.path.as_str(),
                            "sealed replacement bytes of a committed transaction",
                            current,
                        ),
                    );
                }
            },
        }
        index += 1;
    }
    Ok(())
}

/// What applying an entry has to do.
#[derive(Clone, Copy, Debug, PartialEq, Eq, Structural)]
pub enum ApplyDecision {
    /// Change the file from its original to its replacement.
    Change,
    /// The file already holds its replacement.
    Done,
}

/// Decides what applying an entry has to do.
pub fn plan_operation(entry: &JournalEntry, current: &Option<Vec<u8>>) -> (result: Result<
    ApplyDecision,
    JournalError,
>)
    ensures
        outcome(result) == entry@.recovery_failure(JournalState::Prepared, bytes_view(*current)),
        result matches Ok(decision) ==> (decision == ApplyDecision::Change <==> bytes_view(
            *current,
        ) == entry@.original_bytes()),
        result == Ok::<ApplyDecision, JournalError>(ApplyDecision::Done) ==> bytes_view(*current)
            == entry@.replacement_bytes(),
{
    match entry_decision(entry, current) {
        Ok(ContentDecision::Original) => Ok(ApplyDecision::Change),
        Ok(ContentDecision::Replacement) => Ok(ApplyDecision::Done),
        Ok(ContentDecision::Other) => Err(
            unexpected_contents(
                entry.path.as_str(),
                "sealed original or replacement bytes",
                current,
            ),
        ),
        Err(error) => Err(error),
    }
}

/// Why the first `count` files keep a journal from being committed.
pub open spec fn commit_failure(
    entries: Seq<EntryModel>,
    contents: Seq<Option<Seq<u8>>>,
    count: int,
) -> Option<JournalFailure>
    decreases count,
{
    if count <= 0 {
        None
    } else {
        let entry = entries[count - 1];
        or_else(
            commit_failure(entries, contents, count - 1),
            or_else(
                encoding_failure(entry.replacement, entry.path, "replacement"@),
                if contents[count - 1] != entry.replacement_bytes() {
                    Some(
                        JournalFailure::UnexpectedContents {
                            path: entry.path,
                            expected: "sealed replacement bytes before commit"@,
                            actual: hash_of(contents[count - 1]),
                        },
                    )
                } else {
                    None
                },
            ),
        )
    }
}

proof fn lemma_commit_failure_stays(
    entries: Seq<EntryModel>,
    contents: Seq<Option<Seq<u8>>>,
    count: int,
    total: int,
)
    requires
        commit_failure(entries, contents, count) is Some,
        count <= total,
    ensures
        commit_failure(entries, contents, total) == commit_failure(entries, contents, count),
    decreases total - count,
{
    if count < total {
        lemma_commit_failure_stays(entries, contents, count, total - 1);
    }
}

/// Checks that every file holds its replacement before a journal is committed.
pub fn check_commit(journal: &Journal, contents: &Vec<Option<Vec<u8>>>) -> (result: Result<
    (),
    JournalError,
>)
    requires
        contents@.len() == journal@.entries.len(),
    ensures
        outcome(result) == commit_failure(
            journal@.entries,
            contents_view(contents@),
            journal@.entries.len() as int,
        ),
{
    let ghost entries = journal@.entries;
    let ghost files = contents_view(contents@);
    let mut index: usize = 0;
    while index < journal.entries.len()
        invariant
            entries == entry_models(journal.entries@),
            files == contents_view(contents@),
            contents@.len() == entries.len(),
            index <= entries.len(),
            commit_failure(entries, files, index as int) is None,
        decreases entries.len() - index,
    {
        let entry = &journal.entries[index];
        let current = &contents[index];
        proof {
            assert(entries[index as int] == entry@);
            assert(files[index as int] == bytes_view(*current));
            if commit_failure(entries, files, index + 1) is Some {
                lemma_commit_failure_stays(entries, files, index + 1, entries.len() as int);
            }
        }
        let replacement = match decode_optional(
            &entry.replacement,
            entry.path.as_str(),
            "replacement",
        ) {
            Ok(bytes) => bytes,
            Err(error) => {
                return Err(error);
            },
        };
        if !same_contents(current, &replacement) {
            return Err(
                unexpected_contents(
                    entry.path.as_str(),
                    "sealed replacement bytes before commit",
                    current,
                ),
            );
        }
        index += 1;
    }
    Ok(())
}

// Temporary files.
/// A journal file and what it was read as.
#[derive(Debug, PartialEq, Eq)]
pub struct JournalFile {
    /// Contents.
    pub bytes: Vec<u8>,
    /// The journal, or why it could not be read.
    pub decoded: Result<Journal, String>,
}

impl JournalFile {
    /// Whether the file holds a valid journal.
    pub open spec fn is_valid(self) -> bool {
        self.decoded matches Ok(journal) && journal@.is_valid()
    }

    /// Whether `error` says what is wrong with the file.
    pub open spec fn rejected_with(self, error: JournalError) -> bool {
        match self.decoded {
            Err(message) => error is Decode && error->Decode_0@ == message@,
            Ok(journal) => journal@.failure() is Some && error.failure()
                == journal@.failure()->Some_0,
        }
    }

    fn check(&self) -> (result: Result<&Journal, JournalError>)
        ensures
            match result {
                Ok(journal) => self.is_valid() && self.decoded == Ok::<Journal, String>(*journal),
                Err(error) => !self.is_valid() && self.rejected_with(error),
            },
    {
        match &self.decoded {
            Ok(journal) => match journal.validate() {
                Ok(()) => Ok(journal),
                Err(error) => Err(error),
            },
            Err(message) => Err(JournalError::Decode(message.clone())),
        }
    }
}

/// Whether a journal may take the place of another: it was sealed alike and does not take back a
/// commit.
pub open spec fn continues(current: JournalModel, candidate: JournalModel) -> bool {
    &&& current.sealed() == candidate.sealed()
    &&& current.state == JournalState::Committed ==> candidate.state == JournalState::Committed
}

/// What is to be done about a journal that was being written.
#[derive(Clone, Copy, Debug, PartialEq, Eq, Structural)]
pub enum TemporaryJournalAction {
    /// Nothing was being written.
    Nothing,
    /// Remove what was written incompletely.
    RemoveTemporary,
    /// Remove the marker of a journal that already took its place.
    RemoveMarker,
    /// Let the written journal take its place, and remove its marker.
    FinishReplacement,
}

/// Whether `error` is why the files of an interrupted journal write are rejected.
pub open spec fn temporary_journal_rejected(
    temporary: Option<JournalFile>,
    marker: Option<Seq<u8>>,
    current: Option<JournalFile>,
    error: JournalError,
) -> bool {
    if marker is Some && marker->Some_0.len() > 0 {
        error.failure() == (JournalFailure::UnexpectedContents {
            path: JOURNAL_READY_PATH@,
            expected: "an empty durable journal-ready marker"@,
            actual: hash_of(marker),
        })
    } else if marker is None {
        false
    } else {
        match (temporary, current) {
            (None, None) => error.failure() == (JournalFailure::UnexpectedContents {
                path: TRANSACTION_JOURNAL_PATH@,
                expected: "a valid durable journal after temporary rename"@,
                actual: None,
            }),
            (None, Some(file)) => !file.is_valid() && file.rejected_with(error),
            (Some(candidate), _) => if !candidate.is_valid() {
                candidate.rejected_with(error)
            } else {
                match current {
                    None => false,
                    Some(file) => if !file.is_valid() {
                        file.rejected_with(error)
                    } else {
                        !continues(file.decoded->Ok_0@, candidate.decoded->Ok_0@)
                            && error.failure() == (JournalFailure::UnexpectedContents {
                            path: JOURNAL_TEMP_PATH@,
                            expected: "a valid next state of the durable transaction journal"@,
                            actual: hash_of(Some(candidate.bytes@)),
                        })
                    },
                }
            },
        }
    }
}

/// Decides what is to be done about a journal that was being written when the process stopped.
pub fn cleanup_journal_temporary_file(
    temporary: &Option<JournalFile>,
    marker: &Option<Vec<u8>>,
    current: &Option<JournalFile>,
) -> (result: Result<TemporaryJournalAction, JournalError>)
    ensures
        match result {
            Ok(TemporaryJournalAction::Nothing) => temporary is None && marker is None,
            Ok(TemporaryJournalAction::RemoveTemporary) => temporary is Some && marker is None,
            Ok(TemporaryJournalAction::RemoveMarker) => temporary is None && marker is Some
                && marker->Some_0@.len() == 0 && current is Some && current->Some_0.is_valid(),
            Ok(TemporaryJournalAction::FinishReplacement) => temporary is Some && marker is Some
                && marker->Some_0@.len() == 0 && temporary->Some_0.is_valid() && (
            current is Some ==> current->Some_0.is_valid() && continues(
                current->Some_0.decoded->Ok_0@,
                temporary->Some_0.decoded->Ok_0@,
            )),
            Err(error) => temporary_journal_rejected(
                *temporary,
                bytes_view(*marker),
                *current,
                error,
            ),
        },
{
    if let Some(bytes) = marker {
        if bytes.len() > 0 {
            return Err(
                unexpected_contents(
                    JOURNAL_READY_PATH,
                    "an empty durable journal-ready marker",
                    marker,
                ),
            );
        }
    }
    match (temporary, marker) {
        (None, None) => Ok(TemporaryJournalAction::Nothing),
        (Some(_), None) => Ok(TemporaryJournalAction::RemoveTemporary),
        (None, Some(_)) => match current {
            None => Err(
                unexpected_contents(
                    TRANSACTION_JOURNAL_PATH,
                    "a valid durable journal after temporary rename",
                    &None,
                ),
            ),
            Some(file) => match file.check() {
                Ok(_) => Ok(TemporaryJournalAction::RemoveMarker),
                Err(error) => Err(error),
            },
        },
        (Some(file), Some(_)) => {
            let candidate = match file.check() {
                Ok(journal) => journal,
                Err(error) => {
                    return Err(error);
                },
            };
            if let Some(current_file) = current {
                let journal = match current_file.check() {
                    Ok(journal) => journal,
                    Err(error) => {
                        return Err(error);
                    },
                };
                if !journal.same_sealed_plan(candidate) || (journal.state
                    == JournalState::Committed && candidate.state != JournalState::Committed) {
                    let bytes = Some(crate::journal::clone_bytes(&file.bytes));
                    return Err(
                        unexpected_contents(
                            JOURNAL_TEMP_PATH,
                            "a valid next state of the durable transaction journal",
                            &bytes,
                        ),
                    );
                }
            }
            Ok(TemporaryJournalAction::FinishReplacement)
        },
    }
}

/// A temporary file of an entry as it was found.
#[derive(Debug, PartialEq, Eq)]
pub struct TemporaryFile {
    /// Contents.
    pub bytes: Vec<u8>,
    /// Identity.
    pub identity: FileIdentity,
}

/// Why the temporary file found at `display` may not be removed for an entry.
pub open spec fn temporary_failure(
    entry: EntryModel,
    display: Seq<char>,
    bytes: Seq<u8>,
    identity: FileIdentity,
) -> Option<JournalFailure> {
    match entry.temporary {
        TemporaryState::Absent => Some(
            JournalFailure::UnexpectedContents {
                path: display,
                expected: "no unowned transaction temporary file"@,
                actual: hash_of(Some(bytes)),
            },
        ),
        TemporaryState::Creating => if bytes.len() > 0 {
            Some(
                JournalFailure::UnexpectedContents {
                    path: display,
                    expected: "the empty temporary file claimed before a crash"@,
                    actual: hash_of(Some(bytes)),
                },
            )
        } else {
            None
        },
        TemporaryState::Created => match entry.identity {
            None => Some(
                JournalFailure::InvalidOperation {
                    path: entry.path,
                    reason: "created temporary file has no ownership identity"@,
                },
            ),
            Some(owned) => if owned == identity {
                None
            } else {
                Some(
                    JournalFailure::UnsafePath {
                        path: display,
                        reason: "transaction temporary file identity changed"@,
                    },
                )
            },
        },
    }
}

/// Decides whether the temporary file of an entry is to be removed.
pub fn cleanup_operation_temporary_file(
    entry: &JournalEntry,
    display: &str,
    temporary: &Option<TemporaryFile>,
) -> (result: Result<bool, JournalError>)
    ensures
        match temporary {
            None => result == Ok::<bool, JournalError>(false),
            Some(file) => outcome(result) == temporary_failure(
                entry@,
                display@,
                file.bytes@,
                file.identity,
            ) && (result matches Ok(remove) ==> remove),
        },
{
    let file = match temporary {
        None => {
            return Ok(false);
        },
        Some(file) => file,
    };
    let bytes = Some(crate::journal::clone_bytes(&file.bytes));
    match entry.temporary_state {
        TemporaryState::Absent => Err(
            unexpected_contents(display, "no unowned transaction temporary file", &bytes),
        ),
        TemporaryState::Creating => {
            if file.bytes.len() > 0 {
                Err(
                    unexpected_contents(
                        display,
                        "the empty temporary file claimed before a crash",
                        &bytes,
                    ),
                )
            } else {
                Ok(true)
            }
        },
        TemporaryState::Created => match entry.temporary_identity {
            None => Err(
                JournalError::InvalidOperation {
                    path: entry.path.clone(),
                    reason: "created temporary file has no ownership identity".to_owned(),
                },
            ),
            Some(owned) => {
                if owned == file.identity {
                    Ok(true)
                } else {
                    Err(
                        JournalError::UnsafePath {
                            path: display.to_owned(),
                            reason: "transaction temporary file identity changed".to_owned(),
                        },
                    )
                }
            },
        },
    }
}

/// Checks that no temporary file stands in the way of an entry that is about to be applied.
pub fn ensure_operation_temporary_absent(
    entry: &JournalEntry,
    display: &str,
    temporary: &Option<Vec<u8>>,
) -> (result: Result<(), JournalError>)
    ensures
        outcome(result) == (if entry@.temporary != TemporaryState::Absent || entry@.identity is Some {
            Some(
                JournalFailure::InvalidOperation {
                    path: entry@.path,
                    reason: "operation temporary state is not absent before apply"@,
                },
            )
        } else if temporary is Some {
            Some(
                JournalFailure::UnexpectedContents {
                    path: display@,
                    expected: "no pre-existing transaction temporary file"@,
                    actual: hash_of(bytes_view(*temporary)),
                },
            )
        } else {
            None
        }),
{
    if entry.temporary_state != TemporaryState::Absent || entry.temporary_identity.is_some() {
        return Err(
            JournalError::InvalidOperation {
                path: entry.path.clone(),
                reason: "operation temporary state is not absent before apply".to_owned(),
            },
        );
    }
    if temporary.is_some() {
        return Err(
            unexpected_contents(display, "no pre-existing transaction temporary file", temporary),
        );
    }
    Ok(())
}

/// Checks that a file still holds what was sealed, right before it is changed.
pub fn verify_sealed_contents(
    display: &str,
    expected: &str,
    current: &Option<Vec<u8>>,
    sealed: &Option<Vec<u8>>,
) -> (result: Result<(), JournalError>)
    ensures
        outcome(result) == (if bytes_view(*current) == bytes_view(*sealed) {
            None
        } else {
            Some(
                JournalFailure::UnexpectedContents {
                    path: display@,
                    expected: expected@,
                    actual: hash_of(bytes_view(*current)),
                },
            )
        }),
{
    if same_contents(current, sealed) {
        Ok(())
    } else {
        Err(unexpected_contents(display, expected, current))
    }
}

/// Checks that the file found at the path of a temporary file is the one that was created.
pub fn verify_file_identity(owned: FileIdentity, found: FileIdentity, display: &str) -> (result:
    Result<(), JournalError>)
    ensures
        outcome(result) == (if owned == found {
            None
        } else {
            Some(
                JournalFailure::UnsafePath {
                    path: display@,
                    reason: "transaction temporary file identity changed"@,
                },
            )
        }),
{
    if owned == found {
        Ok(())
    } else {
        Err(
            JournalError::UnsafePath {
                path: display.to_owned(),
                reason: "transaction temporary file identity changed".to_owned(),
            },
        )
    }
}

// Directories.
/// What was found at the path of a directory.
#[derive(Clone, Copy, Debug, PartialEq, Eq, Structural)]
pub enum FoundDirectory {
    /// Nothing, or no parent to look in.
    Missing,
    /// A directory of this identity.
    Directory(FileIdentity),
    /// Something that is not a directory.
    Other,
}

/// Whether a directory record has the given identity.
pub open spec fn has_identity(directory: DirectoryModel, identity: FileIdentity) -> bool {
    directory.device == Some(identity.device) && directory.inode == Some(identity.inode)
}

/// Why recovery cannot deal with what was found at a directory's path.
pub open spec fn directory_recovery_failure(
    state: JournalState,
    directory: DirectoryModel,
    display: Seq<char>,
    found: FoundDirectory,
) -> Option<JournalFailure> {
    match found {
        FoundDirectory::Missing => if state == JournalState::Committed {
            Some(
                JournalFailure::UnsafePath {
                    path: display,
                    reason: "committed transaction parent directory is missing"@,
                },
            )
        } else {
            None
        },
        FoundDirectory::Other => Some(
            JournalFailure::UnsafePath {
                path: display,
                reason: "parent path is a symlink or non-directory"@,
            },
        ),
        FoundDirectory::Directory(identity) => match directory.state {
            DirectoryState::Planned => Some(
                JournalFailure::UnsafePath {
                    path: display,
                    reason: "unowned directory appeared after transaction sealing"@,
                },
            ),
            DirectoryState::Creating => None,
            DirectoryState::Created => if has_identity(directory, identity) {
                None
            } else {
                Some(
                    JournalFailure::UnsafePath {
                        path: display,
                        reason: "transaction-created directory identity changed"@,
                    },
                )
            },
        },
    }
}

fn identity_matches(directory: &JournalDirectory, identity: FileIdentity) -> (same: bool)
    ensures
        same == has_identity(directory@, identity),
{
    match (directory.device, directory.inode) {
        (Some(device), Some(inode)) => device == identity.device && inode == identity.inode,
        _ => false,
    }
}

/// Checks what was found at a directory's path before recovery changes anything.
pub fn preflight_created_directory(
    state: JournalState,
    directory: &JournalDirectory,
    display: &str,
    found: FoundDirectory,
) -> (result: Result<(), JournalError>)
    ensures
        outcome(result) == directory_recovery_failure(state, directory@, display@, found),
{
    let reason = match found {
        FoundDirectory::Missing => {
            if state == JournalState::Committed {
                "committed transaction parent directory is missing"
            } else {
                return Ok(());
            }
        },
        FoundDirectory::Other => "parent path is a symlink or non-directory",
        FoundDirectory::Directory(identity) => match directory.state {
            DirectoryState::Planned => "unowned directory appeared after transaction sealing",
            DirectoryState::Creating => {
                return Ok(());
            },
            DirectoryState::Created => {
                if identity_matches(directory, identity) {
                    return Ok(());
                }
                "transaction-created directory identity changed"
            },
        },
    };
    Err(JournalError::UnsafePath { path: display.to_owned(), reason: reason.to_owned() })
}

/// Whether rolling back removes what was found at a directory's path, or why it cannot.
pub open spec fn directory_removal(
    directory: DirectoryModel,
    display: Seq<char>,
    found: FoundDirectory,
) -> Result<bool, JournalFailure> {
    if directory.state == DirectoryState::Planned {
        Ok(false)
    } else {
        match found {
            FoundDirectory::Missing => Ok(false),
            FoundDirectory::Other => Err(
                JournalFailure::UnsafePath {
                    path: display,
                    reason: "parent path is a symlink or non-directory"@,
                },
            ),
            FoundDirectory::Directory(identity) => if directory.state == DirectoryState::Created
                && !has_identity(directory, identity) {
                Err(
                    JournalFailure::UnsafePath {
                        path: display,
                        reason: "transaction-created directory identity changed"@,
                    },
                )
            } else {
                Ok(true)
            },
        }
    }
}

/// Decides whether rolling back removes a directory: one that the transaction may have created
/// and that is still the same.
pub fn plan_directory_removal(
    directory: &JournalDirectory,
    display: &str,
    found: FoundDirectory,
) -> (result: Result<bool, JournalError>)
    ensures
        match result {
            Ok(remove) => directory_removal(directory@, display@, found) == Ok::<
                bool,
                JournalFailure,
            >(remove),
            Err(error) => directory_removal(directory@, display@, found) == Err::<
                bool,
                JournalFailure,
            >(error.failure()),
        },
{
    if directory.state == DirectoryState::Planned {
        return Ok(false);
    }
    match found {
        FoundDirectory::Missing => Ok(false),
        FoundDirectory::Other => Err(
            JournalError::UnsafePath {
                path: display.to_owned(),
                reason: "parent path is a symlink or non-directory".to_owned(),
            },
        ),
        FoundDirectory::Directory(identity) => {
            if directory.state == DirectoryState::Created && !identity_matches(
                directory,
                identity,
            ) {
                Err(
                    JournalError::UnsafePath {
                        path: display.to_owned(),
                        reason: "transaction-created directory identity changed".to_owned(),
                    },
                )
            } else {
                Ok(true)
            }
        },
    }
}

/// Checks that nothing stands at the path of a directory that a transaction is to create, right
/// before its journal is written.
pub fn ensure_created_directory_absent(display: &str, found: FoundDirectory) -> (result: Result<
    (),
    JournalError,
>)
    ensures
        outcome(result) == match found {
            FoundDirectory::Missing => None,
            FoundDirectory::Other => Some(
                JournalFailure::UnsafePath {
                    path: display@,
                    reason: "parent path is a symlink or non-directory"@,
                },
            ),
            FoundDirectory::Directory(_) => Some(
                JournalFailure::UnsafePath {
                    path: display@,
                    reason: "transaction parent directory appeared during preparation"@,
                },
            ),
        },
{
    let reason = match found {
        FoundDirectory::Missing => {
            return Ok(());
        },
        FoundDirectory::Other => "parent path is a symlink or non-directory",
        FoundDirectory::Directory(_) => "transaction parent directory appeared during preparation",
    };
    Err(JournalError::UnsafePath { path: display.to_owned(), reason: reason.to_owned() })
}

/// Says what an application comes to that failed with `failure` and was then recovered: it
/// succeeded after all where recovery found it committed.
pub fn settle_application(
    failure: JournalError,
    recovered: Result<RecoveryOutcome, JournalError>,
) -> (result: Result<(), JournalError>)
    ensures
        match recovered {
            Ok(RecoveryOutcome::Finalized { .. }) => result is Ok,
            Ok(_) => result == Err::<(), JournalError>(failure),
            Err(rollback) => match result {
                Err(JournalError::RollbackFailed { apply, rollback: second }) => apply@
                    == failure.text() && second@ == rollback.text(),
                _ => false,
            },
        },
{
    match recovered {
        Ok(RecoveryOutcome::Finalized { .. }) => Ok(()),
        Ok(_) => Err(failure),
        Err(rollback) => Err(
            JournalError::RollbackFailed {
                apply: failure.message(),
                rollback: rollback.message(),
            },
        ),
    }
}

/// Whether one of the entries from `from` on leaves a file below `directory`.
pub open spec fn is_needed(entries: Seq<EntryModel>, from: int, directory: Seq<char>) -> bool {
    exists|i: int|
        from <= i < entries.len() && (#[trigger] entries[i]).after_hash is Some && (directory
            + "/"@).is_prefix_of(entries[i].path)
}

/// Those of the first `count` parents, innermost first, that may be pruned when they are empty:
/// up to the first one that a later entry needs.
pub open spec fn prunable(
    list: Seq<Seq<char>>,
    count: int,
    entries: Seq<EntryModel>,
    from: int,
) -> Seq<Seq<char>>
    decreases count,
{
    if count <= 0 || is_needed(entries, from, list[count - 1]) {
        Seq::empty()
    } else {
        seq![list[count - 1]] + prunable(list, count - 1, entries, from)
    }
}

/// Lists the parent directories that deleting the file at `path` may leave empty, innermost
/// first, up to the first one that an entry from `from` on needs.
pub fn prune_empty_operation_parents(path: &str, entries: &Vec<JournalEntry>, from: usize) -> (
directories: Vec<String>)
    ensures
        texts(directories@) == prunable(
            parents(path@),
            parents(path@).len() as int,
            entry_models(entries@),
            from as int,
        ),
{
    let list = parent_directories(path);
    let ghost all = parents(path@);
    let ghost models = entry_models(entries@);
    let ghost total = all.len() as int;
    let mut directories: Vec<String> = Vec::new();
    let mut index: usize = list.len();
    assert(texts(directories@) =~= Seq::<Seq<char>>::empty());
    while index > 0
        invariant
            all == texts(list@),
            all == parents(path@),
            models == entry_models(entries@),
            total == all.len(),
            index <= total,
            texts(directories@) + prunable(all, index as int, models, from as int) == prunable(
                all,
                total,
                models,
                from as int,
            ),
        decreases index,
    {
        let directory = &list[index - 1];
        assert(all[index - 1] == directory@);
        let prefix = join2(directory.as_str(), "/");
        let mut needed = false;
        let mut at: usize = from;
        while at < entries.len() && !needed
            invariant
                models == entry_models(entries@),
                prefix@ == directory@ + "/"@,
                from <= at,
                needed == exists|i: int|
                    from <= i < at && i < models.len() && (#[trigger] models[i]).after_hash is Some
                        && prefix@.is_prefix_of(models[i].path),
            decreases entries@.len() - at + (if needed {
                0int
            } else {
                1int
            }),
        {
            let entry = &entries[at];
            assert(models[at as int] == entry@);
            if entry.expected_after_sha256.is_some() && starts_with(
                entry.path.as_str(),
                prefix.as_str(),
            ) {
                needed = true;
            }
            at += 1;
        }
        if needed {
            assert(is_needed(models, from as int, directory@));
            assert(prunable(all, index as int, models, from as int) =~= Seq::<Seq<char>>::empty());
            assert(texts(directories@) + Seq::<Seq<char>>::empty() =~= texts(directories@));
            return directories;
        }
        assert(!is_needed(models, from as int, directory@));
        let ghost before = texts(directories@);
        directories.push(directory.clone());
        index -= 1;
        assert(texts(directories@) =~= before.push(directory@));
        assert(texts(directories@) + prunable(all, index as int, models, from as int) =~= before + (
        seq![directory@] + prunable(all, index as int, models, from as int)));
    }
    assert(texts(directories@) + Seq::<Seq<char>>::empty() =~= texts(directories@));
    directories
}

} // verus!
