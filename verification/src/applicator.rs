//! Application of a prepared transaction.
//!
//! An applicator alternates with the one who works on disk: it asks for one action at a time and
//! takes what came of it. The journal is on disk before each change that it announces.

use vstd::prelude::*;
use vstd::string::*;

use crate::journal::{bytes_view, hash_of, JournalError, JournalFailure};
use crate::recovery::{
    check_commit, commit_failure, contents_view, ensure_operation_temporary_absent, plan_operation,
    prunable, prune_empty_operation_parents, ApplyDecision, FoundDirectory,
};
use crate::text::texts;
use crate::transaction::{
    parents, DirectoryModel, DirectoryState, EntryModel, FileIdentity, Journal, JournalModel,
    JournalState, TemporaryState,
};

verus! {

/// Where an application stands.
#[derive(Clone, Copy, Debug, PartialEq, Eq, Structural)]
pub enum ApplyPoint {
    /// The path of a directory is being looked at.
    Directory {
        /// Place of the directory.
        index: usize,
    },
    /// The journal that announces a directory is being written.
    DirectoryIntent {
        /// Place of the directory.
        index: usize,
    },
    /// A directory is being created.
    DirectoryMade {
        /// Place of the directory.
        index: usize,
    },
    /// The journal that identifies a directory is being written.
    DirectoryRecord {
        /// Place of the directory.
        index: usize,
    },
    /// The parent of a directory is being synced.
    DirectorySync {
        /// Place of the directory.
        index: usize,
    },
    /// The file of an entry is being looked at.
    Entry {
        /// Place of the entry.
        index: usize,
    },
    /// The journal that announces a temporary file is being written.
    TemporaryIntent {
        /// Place of the entry.
        index: usize,
    },
    /// A temporary file is being created.
    TemporaryMade {
        /// Place of the entry.
        index: usize,
    },
    /// The journal that identifies a temporary file is being written.
    TemporaryRecord {
        /// Place of the entry.
        index: usize,
    },
    /// The file of an entry is being changed.
    Change {
        /// Place of the entry.
        index: usize,
    },
    /// The journal that marks an entry applied is being written.
    EntryRecord {
        /// Place of the entry.
        index: usize,
    },
    /// All files are being read.
    Contents,
    /// The committed journal is being written.
    Commit,
    /// The journal is being removed.
    Finish,
}

/// What an application asks for.
#[derive(Debug, PartialEq, Eq)]
pub enum ApplyAction {
    /// Look at the path of a directory, below its existing parent.
    InspectDirectory {
        /// Place of the directory.
        index: usize,
    },
    /// Write the journal durably.
    WriteJournal,
    /// Create a directory and read its identity.
    MakeDirectory {
        /// Place of the directory.
        index: usize,
    },
    /// Sync the parent of a directory.
    SyncDirectory {
        /// Place of the directory.
        index: usize,
    },
    /// Read the file of an entry and its temporary file.
    InspectEntry {
        /// Place of the entry.
        index: usize,
    },
    /// Create the empty temporary file of an entry and read its identity.
    CreateTemporary {
        /// Place of the entry.
        index: usize,
    },
    /// Fill and sync the temporary file, and rename it to the file of the entry.
    ReplaceTarget {
        /// Place of the entry.
        index: usize,
    },
    /// Remove the file of an entry, then those of these directories that are empty, in order and
    /// up to the first one that is not.
    RemoveTarget {
        /// Place of the entry.
        index: usize,
        /// Directories, innermost first.
        prune: Vec<String>,
    },
    /// Read the files of all entries.
    InspectContents,
    /// Remove the journal durably.
    RemoveJournal,
}

/// What came of an action.
#[derive(Debug, PartialEq, Eq)]
pub enum ApplyEvent {
    /// It was done.
    Done,
    /// What stands at the path of a directory.
    Directory {
        /// Path to show.
        display: String,
        /// What was found.
        found: FoundDirectory,
    },
    /// A directory or file of this identity was created.
    Identity(FileIdentity),
    /// What stands at the path of an entry and of its temporary file.
    Entry {
        /// Path of the temporary file to show.
        display: String,
        /// Contents of the temporary file.
        temporary: Option<Vec<u8>>,
        /// Contents of the file.
        current: Option<Vec<u8>>,
    },
    /// What the files of all entries hold.
    Contents(Vec<Option<Vec<u8>>>),
}

/// An application under way.
#[derive(Debug)]
pub struct Applicator {
    journal: Journal,
    point: ApplyPoint,
}

/// The value of an application.
pub struct ApplyModel {
    /// The journal as it is to be on disk once the action that is asked for was done.
    pub journal: JournalModel,
    /// Where the application stands.
    pub point: ApplyPoint,
}

/// Whether a directory has yet to be created.
pub open spec fn is_planned(directory: DirectoryModel) -> bool {
    directory.state == DirectoryState::Planned && directory.device is None
        && directory.inode is None
}

/// Whether an entry has yet to be applied.
pub open spec fn is_fresh(entry: EntryModel) -> bool {
    entry.temporary == TemporaryState::Absent && entry.identity is None && !entry.applied
}

/// Whether an entry is applied.
pub open spec fn is_applied(entry: EntryModel) -> bool {
    entry.temporary == TemporaryState::Absent && entry.identity is None && entry.applied
}

impl JournalModel {
    /// Whether the first `count` directories are created and those after the next are planned.
    pub open spec fn directories_reached(self, count: int) -> bool {
        &&& forall|i: int|
            0 <= i < count ==> (#[trigger] self.directories[i]).state == DirectoryState::Created
        &&& forall|i: int|
            count < i < self.directories.len() ==> is_planned(#[trigger] self.directories[i])
    }

    /// Whether the first `count` entries are applied and those after the next are fresh.
    pub open spec fn entries_reached(self, count: int) -> bool {
        &&& forall|i: int| 0 <= i < count ==> is_applied(#[trigger] self.entries[i])
        &&& forall|i: int| count < i < self.entries.len() ==> is_fresh(#[trigger] self.entries[i])
    }

    /// Whether no entry was touched.
    pub open spec fn entries_fresh(self) -> bool {
        forall|i: int| 0 <= i < self.entries.len() ==> is_fresh(#[trigger] self.entries[i])
    }

    /// Whether every directory is created.
    pub open spec fn directories_created(self) -> bool {
        forall|i: int|
            0 <= i < self.directories.len() ==> (#[trigger] self.directories[i]).state
                == DirectoryState::Created
    }

    /// Whether nothing of the journal was begun.
    pub open spec fn is_untouched(self) -> bool {
        &&& self.state == JournalState::Prepared
        &&& forall|i: int|
            0 <= i < self.directories.len() ==> is_planned(#[trigger] self.directories[i])
        &&& self.entries_fresh()
    }
}

/// Where an application stands that reached the entry at `index`.
pub open spec fn entry_point(journal: JournalModel, index: int) -> ApplyPoint {
    if index < journal.entries.len() {
        ApplyPoint::Entry { index: index as usize }
    } else {
        ApplyPoint::Contents
    }
}

/// Where an application stands that reached the directory at `index`.
pub open spec fn directory_point(journal: JournalModel, index: int) -> ApplyPoint {
    if index < journal.directories.len() {
        ApplyPoint::Directory { index: index as usize }
    } else {
        entry_point(journal, 0)
    }
}

impl ApplyModel {
    /// Whether the application stands at a directory whose record satisfies `state`.
    pub open spec fn at_directory(self, index: usize, state: DirectoryState) -> bool {
        &&& self.journal.state == JournalState::Prepared
        &&& index < self.journal.directories.len()
        &&& self.journal.directories_reached(index as int)
        &&& self.journal.directories[index as int].state == state
        &&& state == DirectoryState::Planned ==> is_planned(
            self.journal.directories[index as int],
        )
        &&& self.journal.entries_fresh()
    }

    /// Whether the application stands at an entry.
    pub open spec fn at_entry(self, index: usize, temporary: TemporaryState, applied: bool) -> bool {
        &&& self.journal.state == JournalState::Prepared
        &&& index < self.journal.entries.len()
        &&& self.journal.directories_created()
        &&& self.journal.entries_reached(index as int)
        &&& self.journal.entries[index as int].temporary == temporary
        &&& self.journal.entries[index as int].applied == applied
    }

    /// Whether the journal records what the application reached.
    pub open spec fn is_sound(self) -> bool {
        &&& self.journal.is_valid()
        &&& self.journal.directories.len() <= usize::MAX
        &&& self.journal.entries.len() <= usize::MAX
        &&& match self.point {
            ApplyPoint::Directory { index } => self.at_directory(index, DirectoryState::Planned),
            ApplyPoint::DirectoryIntent { index } => self.at_directory(
                index,
                DirectoryState::Creating,
            ),
            ApplyPoint::DirectoryMade { index } => self.at_directory(
                index,
                DirectoryState::Creating,
            ),
            ApplyPoint::DirectoryRecord { index } => self.at_directory(
                index,
                DirectoryState::Created,
            ),
            ApplyPoint::DirectorySync { index } => self.at_directory(
                index,
                DirectoryState::Created,
            ),
            ApplyPoint::Entry { index } => self.at_entry(index, TemporaryState::Absent, false),
            ApplyPoint::TemporaryIntent { index } => self.at_entry(
                index,
                TemporaryState::Creating,
                false,
            ) && self.journal.entries[index as int].replacement_bytes() is Some,
            ApplyPoint::TemporaryMade { index } => self.at_entry(
                index,
                TemporaryState::Creating,
                false,
            ) && self.journal.entries[index as int].replacement_bytes() is Some,
            ApplyPoint::TemporaryRecord { index } => self.at_entry(
                index,
                TemporaryState::Created,
                false,
            ) && self.journal.entries[index as int].replacement_bytes() is Some,
            ApplyPoint::Change { index } => self.at_entry(
                index,
                if self.journal.entries[index as int].replacement_bytes() is Some {
                    TemporaryState::Created
                } else {
                    TemporaryState::Absent
                },
                false,
            ),
            ApplyPoint::EntryRecord { index } => self.at_entry(index, TemporaryState::Absent, true),
            ApplyPoint::Contents => self.journal.state == JournalState::Prepared
                && self.journal.is_complete(),
            ApplyPoint::Commit => self.journal.state == JournalState::Committed,
            ApplyPoint::Finish => self.journal.state == JournalState::Committed,
        }
    }

    /// Whether `action` is what the application asks for.
    pub open spec fn asks(self, action: ApplyAction) -> bool {
        match self.point {
            ApplyPoint::Directory { index } => action == (ApplyAction::InspectDirectory { index }),
            ApplyPoint::DirectoryMade { index } => action == (ApplyAction::MakeDirectory { index }),
            ApplyPoint::DirectorySync { index } => action == (ApplyAction::SyncDirectory { index }),
            ApplyPoint::Entry { index } => action == (ApplyAction::InspectEntry { index }),
            ApplyPoint::TemporaryMade { index } => action == (ApplyAction::CreateTemporary {
                index,
            }),
            ApplyPoint::Change { index } => if self.journal.entries[index as int].replacement_bytes() is Some {
                action == (ApplyAction::ReplaceTarget { index })
            } else {
                action matches ApplyAction::RemoveTarget { index: at, prune } && at == index
                    && texts(prune@) == prunable(
                    parents(self.journal.entries[index as int].path),
                    parents(self.journal.entries[index as int].path).len() as int,
                    self.journal.entries,
                    index + 1,
                )
            },
            ApplyPoint::Contents => action == ApplyAction::InspectContents,
            ApplyPoint::Finish => action == ApplyAction::RemoveJournal,
            _ => action == ApplyAction::WriteJournal,
        }
    }

    /// Whether `event` answers what the application asks for.
    pub open spec fn awaits(self, event: ApplyEvent) -> bool {
        match self.point {
            ApplyPoint::Directory { .. } => event is Directory,
            ApplyPoint::DirectoryMade { .. } => event is Identity,
            ApplyPoint::Entry { .. } => event is Entry,
            ApplyPoint::TemporaryMade { .. } => event is Identity,
            ApplyPoint::Contents => event matches ApplyEvent::Contents(list) && list@.len()
                == self.journal.entries.len(),
            _ => event is Done,
        }
    }

    /// What looking at the path of a directory leads to.
    pub open spec fn after_inspection(
        self,
        index: usize,
        display: Seq<char>,
        found: FoundDirectory,
    ) -> Result<ApplyModel, JournalFailure> {
        match found {
            FoundDirectory::Missing => Ok(
                ApplyModel {
                    journal: self.journal.with_directory(
                        index as int,
                        DirectoryState::Creating,
                        None,
                    ),
                    point: ApplyPoint::DirectoryIntent { index },
                },
            ),
            FoundDirectory::Directory(_) => Err(
                JournalFailure::UnsafePath {
                    path: display,
                    reason: "transaction parent directory appeared after sealing"@,
                },
            ),
            FoundDirectory::Other => Err(
                JournalFailure::UnsafePath {
                    path: display,
                    reason: "parent path is a symlink or non-directory"@,
                },
            ),
        }
    }

    /// The application with the entry at `index` applied.
    pub open spec fn with_applied(self, index: usize) -> ApplyModel {
        ApplyModel {
            journal: self.journal.with_entry(index as int, TemporaryState::Absent, None, true),
            point: ApplyPoint::EntryRecord { index },
        }
    }

    /// What looking at the file of an entry leads to.
    pub open spec fn after_entry(
        self,
        index: usize,
        display: Seq<char>,
        temporary: Option<Seq<u8>>,
        current: Option<Seq<u8>>,
    ) -> Result<ApplyModel, JournalFailure> {
        let entry = self.journal.entries[index as int];
        if temporary is Some {
            Err(
                JournalFailure::UnexpectedContents {
                    path: display,
                    expected: "no pre-existing transaction temporary file"@,
                    actual: hash_of(temporary),
                },
            )
        } else {
            match entry.recovery_failure(JournalState::Prepared, current) {
                Some(failure) => Err(failure),
                None => if current != entry.original_bytes() {
                    Ok(self.with_applied(index))
                } else if entry.replacement_bytes() is Some {
                    Ok(
                        ApplyModel {
                            journal: self.journal.with_entry(
                                index as int,
                                TemporaryState::Creating,
                                None,
                                false,
                            ),
                            point: ApplyPoint::TemporaryIntent { index },
                        },
                    )
                } else {
                    Ok(ApplyModel { journal: self.journal, point: ApplyPoint::Change { index } })
                },
            }
        }
    }

    /// The application with the same journal at another point.
    pub open spec fn moved(self, point: ApplyPoint) -> ApplyModel {
        ApplyModel { journal: self.journal, point }
    }

    /// What an event leads to: the application that goes on, nothing once it is finished, or a
    /// failure.
    pub open spec fn next(self, event: ApplyEvent) -> Result<Option<ApplyModel>, JournalFailure> {
        match (self.point, event) {
            (ApplyPoint::Directory { index }, ApplyEvent::Directory { display, found }) => {
                match self.after_inspection(index, display@, found) {
                    Ok(next) => Ok(Some(next)),
                    Err(failure) => Err(failure),
                }
            },
            (ApplyPoint::DirectoryIntent { index }, _) => Ok(
                Some(self.moved(ApplyPoint::DirectoryMade { index })),
            ),
            (ApplyPoint::DirectoryMade { index }, ApplyEvent::Identity(identity)) => Ok(
                Some(
                    ApplyModel {
                        journal: self.journal.with_directory(
                            index as int,
                            DirectoryState::Created,
                            Some(identity),
                        ),
                        point: ApplyPoint::DirectoryRecord { index },
                    },
                ),
            ),
            (ApplyPoint::DirectoryRecord { index }, _) => Ok(
                Some(self.moved(ApplyPoint::DirectorySync { index })),
            ),
            (ApplyPoint::DirectorySync { index }, _) => Ok(
                Some(self.moved(directory_point(self.journal, index + 1))),
            ),
            (ApplyPoint::Entry { index }, ApplyEvent::Entry { display, temporary, current }) => {
                match self.after_entry(index, display@, bytes_view(temporary), bytes_view(current)) {
                    Ok(next) => Ok(Some(next)),
                    Err(failure) => Err(failure),
                }
            },
            (ApplyPoint::TemporaryIntent { index }, _) => Ok(
                Some(self.moved(ApplyPoint::TemporaryMade { index })),
            ),
            (ApplyPoint::TemporaryMade { index }, ApplyEvent::Identity(identity)) => Ok(
                Some(
                    ApplyModel {
                        journal: self.journal.with_entry(
                            index as int,
                            TemporaryState::Created,
                            Some(identity),
                            false,
                        ),
                        point: ApplyPoint::TemporaryRecord { index },
                    },
                ),
            ),
            (ApplyPoint::TemporaryRecord { index }, _) => Ok(
                Some(self.moved(ApplyPoint::Change { index })),
            ),
            (ApplyPoint::Change { index }, _) => Ok(Some(self.with_applied(index))),
            (ApplyPoint::EntryRecord { index }, _) => Ok(
                Some(self.moved(entry_point(self.journal, index + 1))),
            ),
            (ApplyPoint::Contents, ApplyEvent::Contents(list)) => {
                match commit_failure(
                    self.journal.entries,
                    contents_view(list@),
                    self.journal.entries.len() as int,
                ) {
                    Some(failure) => Err(failure),
                    None => Ok(
                        Some(
                            ApplyModel {
                                journal: self.journal.committed(),
                                point: ApplyPoint::Commit,
                            },
                        ),
                    ),
                }
            },
            (ApplyPoint::Commit, _) => Ok(Some(self.moved(ApplyPoint::Finish))),
            _ => Ok(None),
        }
    }

    /// What an application goes on to is sound, and keeps what was sealed.
    pub proof fn lemma_next_is_sound(self, event: ApplyEvent)
        requires
            self.is_sound(),
            self.awaits(event),
        ensures
            self.next(event) matches Ok(Some(next)) ==> next.is_sound() && next.journal.sealed()
                == self.journal.sealed(),
    {
        if let Ok(Some(next)) = self.next(event) {
            match (self.point, event) {
                (ApplyPoint::Directory { index }, _) => {
                    self.journal.lemma_directory_progress(
                        index as int,
                        DirectoryState::Creating,
                        None,
                    );
                },
                (ApplyPoint::DirectoryMade { index }, ApplyEvent::Identity(identity)) => {
                    self.journal.lemma_directory_progress(
                        index as int,
                        DirectoryState::Created,
                        Some(identity),
                    );
                },
                (ApplyPoint::DirectorySync { index }, _) => {
                    if index + 1 < self.journal.directories.len() {
                        assert(is_planned(self.journal.directories[index + 1]));
                    }
                },
                (ApplyPoint::Entry { index }, _) => {
                    self.journal.lemma_entry_progress(
                        index as int,
                        TemporaryState::Creating,
                        None,
                        false,
                    );
                    self.journal.lemma_entry_progress(
                        index as int,
                        TemporaryState::Absent,
                        None,
                        true,
                    );
                },
                (ApplyPoint::TemporaryMade { index }, ApplyEvent::Identity(identity)) => {
                    self.journal.lemma_entry_progress(
                        index as int,
                        TemporaryState::Created,
                        Some(identity),
                        false,
                    );
                },
                (ApplyPoint::Change { index }, _) => {
                    self.journal.lemma_entry_progress(
                        index as int,
                        TemporaryState::Absent,
                        None,
                        true,
                    );
                },
                (ApplyPoint::EntryRecord { index }, _) => {
                    crate::transaction::lemma_no_entries_failure(
                        self.journal.entries,
                        self.journal.entries.len() as int,
                    );
                    assert(crate::transaction::entry_failure(
                        self.journal.entries,
                        index as int,
                    ) is None);
                    if index + 1 < self.journal.entries.len() {
                        assert(is_fresh(self.journal.entries[index + 1]));
                    }
                },
                (ApplyPoint::Contents, _) => {
                    self.journal.lemma_commit();
                },
                _ => {},
            }
        }
    }
}

impl Applicator {
    /// The value of this application.
    pub closed spec fn view(&self) -> ApplyModel {
        ApplyModel { journal: self.journal@, point: self.point }
    }

    /// Begins the application of a journal that was sealed and written.
    pub fn begin(journal: Journal) -> (run: Self)
        requires
            journal@.is_valid(),
            journal@.is_untouched(),
        ensures
            run@.is_sound(),
            run@ == (ApplyModel { journal: journal@, point: directory_point(journal@, 0) }),
    {
        let directories: usize = journal.created_directories.len();
        let entries: usize = journal.entries.len();
        let point = if directories > 0 {
            ApplyPoint::Directory { index: 0 }
        } else if entries > 0 {
            ApplyPoint::Entry { index: 0 }
        } else {
            ApplyPoint::Contents
        };
        proof {
            if journal@.directories.len() > 0 {
                assert(is_planned(journal@.directories[0]));
            }
            if journal@.entries.len() > 0 {
                assert(is_fresh(journal@.entries[0]));
            }
        }
        Applicator { journal, point }
    }

    /// Returns the journal as it is to be on disk once the action was done.
    pub fn journal(&self) -> (journal: &Journal)
        ensures
            journal@ == self@.journal,
    {
        &self.journal
    }

    /// Returns what is to be done next.
    pub fn action(&self) -> (action: ApplyAction)
        requires
            self@.is_sound(),
        ensures
            self@.asks(action),
    {
        match self.point {
            ApplyPoint::Directory { index } => ApplyAction::InspectDirectory { index },
            ApplyPoint::DirectoryMade { index } => ApplyAction::MakeDirectory { index },
            ApplyPoint::DirectorySync { index } => ApplyAction::SyncDirectory { index },
            ApplyPoint::Entry { index } => ApplyAction::InspectEntry { index },
            ApplyPoint::TemporaryMade { index } => ApplyAction::CreateTemporary { index },
            ApplyPoint::Change { index } => {
                let entry = &self.journal.entries[index];
                assert(self.journal@.entries[index as int] == entry@);
                proof {
                    self.journal@.lemma_forms(index as int);
                }
                if entry.replacement.is_some() {
                    ApplyAction::ReplaceTarget { index }
                } else {
                    let prune = prune_empty_operation_parents(
                        entry.path.as_str(),
                        &self.journal.entries,
                        index + 1,
                    );
                    ApplyAction::RemoveTarget { index, prune }
                }
            },
            ApplyPoint::Contents => ApplyAction::InspectContents,
            ApplyPoint::Finish => ApplyAction::RemoveJournal,
            _ => ApplyAction::WriteJournal,
        }
    }

    fn moved(self, point: ApplyPoint) -> (run: Self)
        ensures
            run@ == self@.moved(point),
    {
        Applicator { journal: self.journal, point }
    }

    fn apply(self, index: usize) -> (run: Self)
        requires
            index < self@.journal.entries.len(),
        ensures
            run@ == self@.with_applied(index),
    {
        let mut journal = self.journal;
        journal.mark_entry(index, TemporaryState::Absent, None, true);
        Applicator { journal, point: ApplyPoint::EntryRecord { index } }
    }

    fn look_at_entry(
        self,
        index: usize,
        display: String,
        temporary: Option<Vec<u8>>,
        current: Option<Vec<u8>>,
    ) -> (result: Result<Self, JournalError>)
        requires
            self@.is_sound(),
            self@.point == (ApplyPoint::Entry { index }),
        ensures
            match result {
                Ok(run) => self@.after_entry(
                    index,
                    display@,
                    bytes_view(temporary),
                    bytes_view(current),
                ) == Ok::<ApplyModel, JournalFailure>(run@),
                Err(error) => self@.after_entry(
                    index,
                    display@,
                    bytes_view(temporary),
                    bytes_view(current),
                ) == Err::<ApplyModel, JournalFailure>(error.failure()),
            },
    {
        let entry = &self.journal.entries[index];
        proof {
            assert(self.journal@.entries[index as int] == entry@);
            self.journal@.lemma_forms(index as int);
        }
        match ensure_operation_temporary_absent(entry, display.as_str(), &temporary) {
            Ok(()) => {},
            Err(error) => {
                return Err(error);
            },
        }
        match plan_operation(entry, &current) {
            Ok(ApplyDecision::Change) => {},
            Ok(ApplyDecision::Done) => {
                return Ok(self.apply(index));
            },
            Err(error) => {
                return Err(error);
            },
        }
        if entry.replacement.is_some() {
            let mut journal = self.journal;
            journal.mark_entry(index, TemporaryState::Creating, None, false);
            Ok(Applicator { journal, point: ApplyPoint::TemporaryIntent { index } })
        } else {
            Ok(self.moved(ApplyPoint::Change { index }))
        }
    }

    /// Takes what came of the action that was asked for.
    pub fn advance(self, event: ApplyEvent) -> (result: Result<Option<Self>, JournalError>)
        requires
            self@.is_sound(),
            self@.awaits(event),
        ensures
            match result {
                Ok(Some(run)) => self@.next(event) == Ok::<Option<ApplyModel>, JournalFailure>(
                    Some(run@),
                ) && run@.is_sound(),
                Ok(None) => self@.next(event) == Ok::<Option<ApplyModel>, JournalFailure>(None),
                Err(error) => self@.next(event) == Err::<Option<ApplyModel>, JournalFailure>(
                    error.failure(),
                ),
            },
    {
        proof {
            self@.lemma_next_is_sound(event);
        }
        match (self.point, event) {
            (ApplyPoint::Directory { index }, ApplyEvent::Directory { display, found }) => {
                let reason = match found {
                    FoundDirectory::Missing => {
                        let mut journal = self.journal;
                        journal.mark_directory(index, DirectoryState::Creating, None);
                        let point = ApplyPoint::DirectoryIntent { index };
                        return Ok(Some(Applicator { journal, point }));
                    },
                    FoundDirectory::Directory(_) =>
                        "transaction parent directory appeared after sealing",
                    FoundDirectory::Other => "parent path is a symlink or non-directory",
                };
                Err(JournalError::UnsafePath { path: display, reason: reason.to_owned() })
            },
            (ApplyPoint::DirectoryIntent { index }, _) => Ok(
                Some(self.moved(ApplyPoint::DirectoryMade { index })),
            ),
            (ApplyPoint::DirectoryMade { index }, ApplyEvent::Identity(identity)) => {
                let mut journal = self.journal;
                journal.mark_directory(index, DirectoryState::Created, Some(identity));
                Ok(Some(Applicator { journal, point: ApplyPoint::DirectoryRecord { index } }))
            },
            (ApplyPoint::DirectoryRecord { index }, _) => Ok(
                Some(self.moved(ApplyPoint::DirectorySync { index })),
            ),
            (ApplyPoint::DirectorySync { index }, _) => {
                let point = if index + 1 < self.journal.created_directories.len() {
                    ApplyPoint::Directory { index: index + 1 }
                } else if self.journal.entries.len() > 0 {
                    ApplyPoint::Entry { index: 0 }
                } else {
                    ApplyPoint::Contents
                };
                Ok(Some(self.moved(point)))
            },
            (ApplyPoint::Entry { index }, ApplyEvent::Entry { display, temporary, current }) => {
                match self.look_at_entry(index, display, temporary, current) {
                    Ok(run) => Ok(Some(run)),
                    Err(error) => Err(error),
                }
            },
            (ApplyPoint::TemporaryIntent { index }, _) => Ok(
                Some(self.moved(ApplyPoint::TemporaryMade { index })),
            ),
            (ApplyPoint::TemporaryMade { index }, ApplyEvent::Identity(identity)) => {
                let mut journal = self.journal;
                journal.mark_entry(index, TemporaryState::Created, Some(identity), false);
                Ok(Some(Applicator { journal, point: ApplyPoint::TemporaryRecord { index } }))
            },
            (ApplyPoint::TemporaryRecord { index }, _) => Ok(
                Some(self.moved(ApplyPoint::Change { index })),
            ),
            (ApplyPoint::Change { index }, _) => Ok(Some(self.apply(index))),
            (ApplyPoint::EntryRecord { index }, _) => {
                let point = if index + 1 < self.journal.entries.len() {
                    ApplyPoint::Entry { index: index + 1 }
                } else {
                    ApplyPoint::Contents
                };
                Ok(Some(self.moved(point)))
            },
            (ApplyPoint::Contents, ApplyEvent::Contents(list)) => {
                match check_commit(&self.journal, &list) {
                    Ok(()) => {
                        let mut journal = self.journal;
                        journal.mark_committed();
                        Ok(Some(Applicator { journal, point: ApplyPoint::Commit }))
                    },
                    Err(error) => Err(error),
                }
            },
            (ApplyPoint::Commit, _) => Ok(Some(self.moved(ApplyPoint::Finish))),
            _ => Ok(None),
        }
    }
}

impl JournalModel {
    /// An entry of a valid journal has replacement bytes where it has their written form.
    pub proof fn lemma_forms(self, index: int)
        requires
            self.is_valid(),
            0 <= index < self.entries.len(),
        ensures
            self.entries[index].replacement_bytes() is Some <==> self.entries[index].replacement is Some,
            self.entries[index].original_bytes() is Some <==> self.entries[index].original is Some,
            self.entries[index].original_bytes() != self.entries[index].replacement_bytes(),
            self.entries[index].identity_fits(),
    {
        crate::transaction::lemma_no_entries_failure(self.entries, self.entries.len() as int);
        assert(crate::transaction::entry_failure(self.entries, index) is None);
    }
}

} // verus!
