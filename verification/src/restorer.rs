//! Recovery of an interrupted transaction, one step at a time.
//!
//! A restorer alternates with the one who works on disk: it asks for one action at a time and
//! takes what came of it. Nothing is changed before everything was looked at.

use vstd::prelude::*;
use vstd::string::*;

use crate::journal::{bytes_view, JournalError, JournalFailure};
use crate::recovery::{
    cleanup_operation_temporary_file, contents_view, directory_recovery_failure,
    directory_removal, plan_directory_removal, plan_operation, preflight_created_directory,
    preflight_recovery, temporary_failure, ApplyDecision, FoundDirectory, RecoveryOutcome,
    TemporaryFile,
};
use crate::transaction::{
    DirectoryState, EntryModel, FileIdentity, Journal, JournalModel, JournalState, TemporaryState,
};

verus! {

/// Where a recovery stands.
#[derive(Clone, Copy, Debug, PartialEq, Eq, Structural)]
pub enum RestorePoint {
    /// The path of a directory is being looked at.
    Directory {
        /// Place of the directory.
        index: usize,
    },
    /// All files are being read.
    Contents,
    /// The temporary file of an entry is being looked at.
    Temporary {
        /// Place of the entry.
        index: usize,
    },
    /// The temporary file of an entry is being removed.
    TemporaryRemoved {
        /// Place of the entry.
        index: usize,
    },
    /// The journal that forgets a temporary file is being written.
    TemporaryRecord {
        /// Place of the entry.
        index: usize,
    },
    /// The file of an entry is being read.
    Entry {
        /// Place of the entry.
        index: usize,
    },
    /// The journal that announces a temporary file is being written.
    RestoreIntent {
        /// Place of the entry.
        index: usize,
    },
    /// A temporary file is being created.
    RestoreMade {
        /// Place of the entry.
        index: usize,
    },
    /// The journal that identifies a temporary file is being written.
    RestoreRecord {
        /// Place of the entry.
        index: usize,
    },
    /// The original of an entry is being restored.
    Restore {
        /// Place of the entry.
        index: usize,
    },
    /// The journal that forgets the temporary file of a restored entry is being written.
    RestoreClear {
        /// Place of the entry.
        index: usize,
    },
    /// The journal that marks an entry as not applied is being written.
    Unapplied {
        /// Place of the entry.
        index: usize,
    },
    /// The path of a directory is being looked at once more.
    DirectoryRemoval {
        /// Place of the directory.
        index: usize,
    },
    /// A directory is being removed.
    DirectoryRemoved {
        /// Place of the directory.
        index: usize,
    },
    /// The journal is being removed.
    Finish,
}

/// What a recovery asks for.
#[derive(Debug, PartialEq, Eq)]
pub enum RestoreAction {
    /// Look at the path of a directory.
    InspectDirectory {
        /// Place of the directory.
        index: usize,
    },
    /// Read the files of all entries.
    InspectContents,
    /// Look at the temporary file of an entry.
    InspectTemporary {
        /// Place of the entry.
        index: usize,
    },
    /// Remove the temporary file of an entry.
    RemoveTemporary {
        /// Place of the entry.
        index: usize,
    },
    /// Write the journal durably.
    WriteJournal,
    /// Read the file of an entry.
    InspectEntry {
        /// Place of the entry.
        index: usize,
    },
    /// Create the empty temporary file of an entry, with its missing parents, and read its
    /// identity.
    CreateTemporary {
        /// Place of the entry.
        index: usize,
    },
    /// Fill and sync the temporary file with the original, and rename it to the file of the entry.
    RestoreTarget {
        /// Place of the entry.
        index: usize,
    },
    /// Remove the file of an entry.
    RemoveTarget {
        /// Place of the entry.
        index: usize,
    },
    /// Remove an empty directory.
    RemoveDirectory {
        /// Place of the directory.
        index: usize,
    },
    /// Remove the journal durably.
    RemoveJournal,
}

/// What came of an action.
#[derive(Debug, PartialEq, Eq)]
pub enum RestoreEvent {
    /// It was done.
    Done,
    /// What stands at the path of a directory.
    Directory {
        /// Path to show.
        display: String,
        /// What was found.
        found: FoundDirectory,
    },
    /// What the files of all entries hold.
    Contents(Vec<Option<Vec<u8>>>),
    /// The temporary file of an entry.
    Temporary {
        /// Path to show.
        display: String,
        /// What was found.
        file: Option<TemporaryFile>,
    },
    /// What the file of an entry holds.
    Current(Option<Vec<u8>>),
    /// A file of this identity was created.
    Identity(FileIdentity),
}

/// A recovery under way.
#[derive(Debug)]
pub struct Restorer {
    journal: Journal,
    point: RestorePoint,
}

/// The value of a recovery.
pub struct RestoreModel {
    /// The journal as it is to be on disk once the action that is asked for was done.
    pub journal: JournalModel,
    /// Where the recovery stands.
    pub point: RestorePoint,
}

/// Whether an entry claims no temporary file.
pub open spec fn is_clean(entry: EntryModel) -> bool {
    entry.temporary == TemporaryState::Absent && entry.identity is None
}

impl JournalModel {
    /// Whether the first `count` entries claim no temporary file.
    pub open spec fn is_cleaned(self, count: int) -> bool {
        forall|i: int| 0 <= i < count ==> is_clean(#[trigger] self.entries[i])
    }

    /// Whether no entry but possibly the one at `at` claims a temporary file, and none after it is
    /// marked applied.
    pub open spec fn is_unwound(self, at: int) -> bool {
        &&& forall|i: int| 0 <= i < self.entries.len() && i != at ==> is_clean(#[trigger] self.entries[i])
        &&& forall|i: int| at < i < self.entries.len() ==> !(#[trigger] self.entries[i]).applied
    }
}

/// Where a recovery stands that has the first `count` directories left to remove.
pub open spec fn removal_point(journal: JournalModel, count: int) -> RestorePoint
    decreases count,
{
    if count <= 0 {
        RestorePoint::Finish
    } else if journal.directories[count - 1].state == DirectoryState::Planned {
        removal_point(journal, count - 1)
    } else {
        RestorePoint::DirectoryRemoval { index: (count - 1) as usize }
    }
}

/// Where a recovery stands that has the first `count` entries left to restore.
pub open spec fn unwind_point(journal: JournalModel, count: int) -> RestorePoint {
    if count > 0 {
        RestorePoint::Entry { index: (count - 1) as usize }
    } else {
        removal_point(journal, journal.directories.len() as int)
    }
}

/// Where a recovery stands that reached the temporary file of the entry at `index`.
pub open spec fn temporary_point(journal: JournalModel, index: int) -> RestorePoint {
    if index < journal.entries.len() {
        RestorePoint::Temporary { index: index as usize }
    } else if journal.state == JournalState::Committed {
        RestorePoint::Finish
    } else {
        unwind_point(journal, journal.entries.len() as int)
    }
}

/// Where a recovery stands that reached the directory at `index`.
pub open spec fn inspection_point(journal: JournalModel, index: int) -> RestorePoint {
    if index < journal.directories.len() {
        RestorePoint::Directory { index: index as usize }
    } else {
        RestorePoint::Contents
    }
}

impl RestoreModel {
    /// Whether the recovery stands at an entry whose original is being restored.
    pub open spec fn at_entry(self, index: usize, temporary: TemporaryState) -> bool {
        &&& self.journal.state == JournalState::Prepared
        &&& index < self.journal.entries.len()
        &&& self.journal.is_unwound(index as int)
        &&& self.journal.entries[index as int].temporary == temporary
    }

    /// Whether the recovery stands at an entry whose original is being restored through a
    /// temporary file.
    pub open spec fn writes_entry(self, index: usize, temporary: TemporaryState) -> bool {
        self.at_entry(index, temporary) && self.journal.entries[index as int].original_bytes() is Some
    }

    /// Whether the journal records what the recovery reached.
    pub open spec fn is_sound(self) -> bool {
        &&& self.journal.is_valid()
        &&& self.journal.directories.len() <= usize::MAX
        &&& self.journal.entries.len() <= usize::MAX
        &&& match self.point {
            RestorePoint::Directory { index } => index < self.journal.directories.len(),
            RestorePoint::Contents => true,
            RestorePoint::Temporary { index } => index < self.journal.entries.len()
                && self.journal.is_cleaned(index as int),
            RestorePoint::TemporaryRemoved { index } => index < self.journal.entries.len()
                && self.journal.is_cleaned(index as int),
            RestorePoint::TemporaryRecord { index } => index < self.journal.entries.len()
                && self.journal.state == JournalState::Prepared && self.journal.is_cleaned(
                index + 1,
            ),
            RestorePoint::Entry { index } => self.at_entry(index, TemporaryState::Absent),
            RestorePoint::RestoreIntent { index } => self.writes_entry(
                index,
                TemporaryState::Creating,
            ),
            RestorePoint::RestoreMade { index } => self.writes_entry(
                index,
                TemporaryState::Creating,
            ),
            RestorePoint::RestoreRecord { index } => self.writes_entry(
                index,
                TemporaryState::Created,
            ),
            RestorePoint::Restore { index } => self.at_entry(
                index,
                if self.journal.entries[index as int].original_bytes() is Some {
                    TemporaryState::Created
                } else {
                    TemporaryState::Absent
                },
            ),
            RestorePoint::RestoreClear { index } => self.at_entry(index, TemporaryState::Absent),
            RestorePoint::Unapplied { index } => self.at_entry(index, TemporaryState::Absent)
                && !self.journal.entries[index as int].applied,
            RestorePoint::DirectoryRemoval { index } => self.journal.state == JournalState::Prepared
                && self.journal.is_unwound(-1) && index < self.journal.directories.len()
                && self.journal.directories[index as int].state != DirectoryState::Planned,
            RestorePoint::DirectoryRemoved { index } => self.journal.state == JournalState::Prepared
                && self.journal.is_unwound(-1) && index < self.journal.directories.len()
                && self.journal.directories[index as int].state != DirectoryState::Planned,
            RestorePoint::Finish => self.journal.state == JournalState::Committed
                || self.journal.is_unwound(-1),
        }
    }

    /// What the recovery asks for.
    pub open spec fn action(self) -> RestoreAction {
        match self.point {
            RestorePoint::Directory { index } => RestoreAction::InspectDirectory { index },
            RestorePoint::Contents => RestoreAction::InspectContents,
            RestorePoint::Temporary { index } => RestoreAction::InspectTemporary { index },
            RestorePoint::TemporaryRemoved { index } => RestoreAction::RemoveTemporary { index },
            RestorePoint::Entry { index } => RestoreAction::InspectEntry { index },
            RestorePoint::RestoreMade { index } => RestoreAction::CreateTemporary { index },
            RestorePoint::Restore { index } => if self.journal.entries[index as int].original_bytes() is Some {
                RestoreAction::RestoreTarget { index }
            } else {
                RestoreAction::RemoveTarget { index }
            },
            RestorePoint::DirectoryRemoval { index } => RestoreAction::InspectDirectory { index },
            RestorePoint::DirectoryRemoved { index } => RestoreAction::RemoveDirectory { index },
            RestorePoint::Finish => RestoreAction::RemoveJournal,
            _ => RestoreAction::WriteJournal,
        }
    }

    /// Whether `event` answers what the recovery asks for.
    pub open spec fn awaits(self, event: RestoreEvent) -> bool {
        match self.point {
            RestorePoint::Directory { .. } => event is Directory,
            RestorePoint::Contents => event matches RestoreEvent::Contents(list) && list@.len()
                == self.journal.entries.len(),
            RestorePoint::Temporary { .. } => event is Temporary,
            RestorePoint::Entry { .. } => event is Current,
            RestorePoint::RestoreMade { .. } => event is Identity,
            RestorePoint::DirectoryRemoval { .. } => event is Directory,
            _ => event is Done,
        }
    }

    /// The recovery with the same journal at another point.
    pub open spec fn moved(self, point: RestorePoint) -> RestoreModel {
        RestoreModel { journal: self.journal, point }
    }

    /// The recovery with the progress of the temporary file of an entry changed.
    pub open spec fn marked(
        self,
        index: usize,
        temporary: TemporaryState,
        identity: Option<FileIdentity>,
        point: RestorePoint,
    ) -> RestoreModel {
        RestoreModel {
            journal: self.journal.with_entry(
                index as int,
                temporary,
                identity,
                self.journal.entries[index as int].applied,
            ),
            point,
        }
    }

    /// The recovery once the temporary file of the entry at `index` is gone.
    pub open spec fn cleared(self, index: usize) -> RestoreModel {
        if self.journal.entries[index as int].temporary != TemporaryState::Absent {
            self.marked(index, TemporaryState::Absent, None, RestorePoint::TemporaryRecord { index })
        } else {
            self.moved(temporary_point(self.journal, index + 1))
        }
    }

    /// The recovery once the file of the entry at `index` holds its original.
    pub open spec fn unapplied(self, index: usize) -> RestoreModel {
        if self.journal.entries[index as int].applied {
            RestoreModel {
                journal: self.journal.with_entry(
                    index as int,
                    TemporaryState::Absent,
                    None,
                    false,
                ),
                point: RestorePoint::Unapplied { index },
            }
        } else {
            self.moved(unwind_point(self.journal, index as int))
        }
    }

    /// What looking at the temporary file of an entry leads to.
    pub open spec fn after_temporary(
        self,
        index: usize,
        display: Seq<char>,
        file: Option<TemporaryFile>,
    ) -> Result<RestoreModel, JournalFailure> {
        match file {
            None => Ok(self.cleared(index)),
            Some(found) => match temporary_failure(
                self.journal.entries[index as int],
                display,
                found.bytes@,
                found.identity,
            ) {
                Some(failure) => Err(failure),
                None => Ok(self.moved(RestorePoint::TemporaryRemoved { index })),
            },
        }
    }

    /// What reading the file of an entry leads to.
    pub open spec fn after_entry(self, index: usize, current: Option<Seq<u8>>) -> Result<
        RestoreModel,
        JournalFailure,
    > {
        let entry = self.journal.entries[index as int];
        match entry.recovery_failure(JournalState::Prepared, current) {
            Some(failure) => Err(failure),
            None => if current == entry.original_bytes() {
                Ok(self.unapplied(index))
            } else if entry.original_bytes() is Some {
                Ok(
                    self.marked(
                        index,
                        TemporaryState::Creating,
                        None,
                        RestorePoint::RestoreIntent { index },
                    ),
                )
            } else {
                Ok(self.moved(RestorePoint::Restore { index }))
            },
        }
    }

    /// What an event leads to: the recovery that goes on, nothing once it is finished, or a
    /// failure.
    pub open spec fn next(self, event: RestoreEvent) -> Result<Option<RestoreModel>, JournalFailure> {
        match (self.point, event) {
            (RestorePoint::Directory { index }, RestoreEvent::Directory { display, found }) => {
                match directory_recovery_failure(
                    self.journal.state,
                    self.journal.directories[index as int],
                    display@,
                    found,
                ) {
                    Some(failure) => Err(failure),
                    None => Ok(Some(self.moved(inspection_point(self.journal, index + 1)))),
                }
            },
            (RestorePoint::Contents, RestoreEvent::Contents(list)) => {
                match self.journal.recovery_failure(
                    contents_view(list@),
                    self.journal.entries.len() as int,
                ) {
                    Some(failure) => Err(failure),
                    None => Ok(Some(self.moved(temporary_point(self.journal, 0)))),
                }
            },
            (RestorePoint::Temporary { index }, RestoreEvent::Temporary { display, file }) => {
                match self.after_temporary(index, display@, file) {
                    Ok(next) => Ok(Some(next)),
                    Err(failure) => Err(failure),
                }
            },
            (RestorePoint::TemporaryRemoved { index }, _) => Ok(Some(self.cleared(index))),
            (RestorePoint::TemporaryRecord { index }, _) => Ok(
                Some(self.moved(temporary_point(self.journal, index + 1))),
            ),
            (RestorePoint::Entry { index }, RestoreEvent::Current(current)) => {
                match self.after_entry(index, bytes_view(current)) {
                    Ok(next) => Ok(Some(next)),
                    Err(failure) => Err(failure),
                }
            },
            (RestorePoint::RestoreIntent { index }, _) => Ok(
                Some(self.moved(RestorePoint::RestoreMade { index })),
            ),
            (RestorePoint::RestoreMade { index }, RestoreEvent::Identity(identity)) => Ok(
                Some(
                    self.marked(
                        index,
                        TemporaryState::Created,
                        Some(identity),
                        RestorePoint::RestoreRecord { index },
                    ),
                ),
            ),
            (RestorePoint::RestoreRecord { index }, _) => Ok(
                Some(self.moved(RestorePoint::Restore { index })),
            ),
            (RestorePoint::Restore { index }, _) => Ok(
                Some(
                    if self.journal.entries[index as int].original_bytes() is Some {
                        self.marked(
                            index,
                            TemporaryState::Absent,
                            None,
                            RestorePoint::RestoreClear { index },
                        )
                    } else {
                        self.unapplied(index)
                    },
                ),
            ),
            (RestorePoint::RestoreClear { index }, _) => Ok(Some(self.unapplied(index))),
            (RestorePoint::Unapplied { index }, _) => Ok(
                Some(self.moved(unwind_point(self.journal, index as int))),
            ),
            (
                RestorePoint::DirectoryRemoval { index },
                RestoreEvent::Directory { display, found },
            ) => match directory_removal(
                self.journal.directories[index as int],
                display@,
                found,
            ) {
                Err(failure) => Err(failure),
                Ok(true) => Ok(Some(self.moved(RestorePoint::DirectoryRemoved { index }))),
                Ok(false) => Ok(Some(self.moved(removal_point(self.journal, index as int)))),
            },
            (RestorePoint::DirectoryRemoved { index }, _) => Ok(
                Some(self.moved(removal_point(self.journal, index as int))),
            ),
            _ => Ok(None),
        }
    }

    proof fn lemma_removal_is_sound(self, count: int)
        requires
            self.journal.is_valid(),
            self.journal.directories.len() <= usize::MAX,
            self.journal.entries.len() <= usize::MAX,
            self.journal.state == JournalState::Prepared,
            self.journal.is_unwound(-1),
            0 <= count <= self.journal.directories.len(),
        ensures
            self.moved(removal_point(self.journal, count)).is_sound(),
        decreases count,
    {
        if count > 0 {
            self.lemma_removal_is_sound(count - 1);
        }
    }

    proof fn lemma_unwind_is_sound(self, count: int)
        requires
            self.journal.is_valid(),
            self.journal.directories.len() <= usize::MAX,
            self.journal.entries.len() <= usize::MAX,
            self.journal.state == JournalState::Prepared,
            self.journal.is_unwound(count - 1),
            self.journal.is_cleaned(self.journal.entries.len() as int),
            0 <= count <= self.journal.entries.len(),
        ensures
            self.moved(unwind_point(self.journal, count)).is_sound(),
    {
        if count == 0 {
            self.lemma_removal_is_sound(self.journal.directories.len() as int);
        } else {
            assert(is_clean(self.journal.entries[count - 1]));
        }
    }

    proof fn lemma_temporary_is_sound(self, index: int)
        requires
            self.journal.is_valid(),
            self.journal.directories.len() <= usize::MAX,
            self.journal.entries.len() <= usize::MAX,
            self.journal.is_cleaned(index),
            0 <= index <= self.journal.entries.len(),
        ensures
            self.moved(temporary_point(self.journal, index)).is_sound(),
    {
        if index == self.journal.entries.len() && self.journal.state == JournalState::Prepared {
            self.lemma_unwind_is_sound(index);
        }
    }

    proof fn lemma_unapplied_is_sound(self, index: usize)
        requires
            self.is_sound(),
            self.at_entry(index, TemporaryState::Absent),
        ensures
            self.unapplied(index).is_sound(),
            self.unapplied(index).journal.sealed() == self.journal.sealed(),
    {
        self.journal.lemma_forms(index as int);
        if self.journal.entries[index as int].applied {
            self.journal.lemma_entry_progress(index as int, TemporaryState::Absent, None, false);
        } else {
            assert(self.journal.is_cleaned(self.journal.entries.len() as int));
            self.lemma_unwind_is_sound(index as int);
        }
    }

    proof fn lemma_cleared_is_sound(self, index: usize)
        requires
            self.is_sound(),
            index < self.journal.entries.len(),
            self.journal.is_cleaned(index as int),
        ensures
            self.cleared(index).is_sound(),
            self.cleared(index).journal.sealed() == self.journal.sealed(),
    {
        self.journal.lemma_forms(index as int);
        if self.journal.entries[index as int].temporary != TemporaryState::Absent {
            if self.journal.state == JournalState::Committed {
                assert(self.journal.is_complete());
                assert(false);
            }
            self.journal.lemma_entry_progress(
                index as int,
                TemporaryState::Absent,
                None,
                self.journal.entries[index as int].applied,
            );
        } else {
            self.lemma_temporary_is_sound(index + 1);
        }
    }

    /// What a recovery goes on to is sound, and keeps what was sealed.
    pub proof fn lemma_next_is_sound(self, event: RestoreEvent)
        requires
            self.is_sound(),
            self.awaits(event),
        ensures
            self.next(event) matches Ok(Some(next)) ==> next.is_sound() && next.journal.sealed()
                == self.journal.sealed(),
    {
        if let Ok(Some(next)) = self.next(event) {
            match (self.point, event) {
                (RestorePoint::Contents, _) => {
                    self.lemma_temporary_is_sound(0);
                },
                (RestorePoint::Temporary { index }, _) => {
                    self.lemma_cleared_is_sound(index);
                },
                (RestorePoint::TemporaryRemoved { index }, _) => {
                    self.lemma_cleared_is_sound(index);
                },
                (RestorePoint::TemporaryRecord { index }, _) => {
                    self.lemma_temporary_is_sound(index + 1);
                },
                (RestorePoint::Entry { index }, _) => {
                    self.lemma_unapplied_is_sound(index);
                    self.journal.lemma_entry_progress(
                        index as int,
                        TemporaryState::Creating,
                        None,
                        self.journal.entries[index as int].applied,
                    );
                },
                (RestorePoint::RestoreMade { index }, RestoreEvent::Identity(identity)) => {
                    self.journal.lemma_entry_progress(
                        index as int,
                        TemporaryState::Created,
                        Some(identity),
                        self.journal.entries[index as int].applied,
                    );
                },
                (RestorePoint::Restore { index }, _) => {
                    if self.journal.entries[index as int].original_bytes() is Some {
                        self.journal.lemma_entry_progress(
                            index as int,
                            TemporaryState::Absent,
                            None,
                            self.journal.entries[index as int].applied,
                        );
                    } else {
                        self.lemma_unapplied_is_sound(index);
                    }
                },
                (RestorePoint::RestoreClear { index }, _) => {
                    self.lemma_unapplied_is_sound(index);
                },
                (RestorePoint::Unapplied { index }, _) => {
                    self.journal.lemma_forms(index as int);
                    assert(self.journal.is_cleaned(self.journal.entries.len() as int));
                    self.lemma_unwind_is_sound(index as int);
                },
                (RestorePoint::DirectoryRemoval { index }, _) => {
                    self.lemma_removal_is_sound(index as int);
                },
                (RestorePoint::DirectoryRemoved { index }, _) => {
                    self.lemma_removal_is_sound(index as int);
                },
                _ => {},
            }
        }
    }
}

fn removal_start(journal: &Journal, count: usize) -> (point: RestorePoint)
    requires
        count <= journal@.directories.len(),
    ensures
        point == removal_point(journal@, count as int),
{
    let mut left: usize = count;
    while left > 0
        invariant
            left <= count,
            count <= journal@.directories.len(),
            removal_point(journal@, left as int) == removal_point(journal@, count as int),
        decreases left,
    {
        assert(journal@.directories[left - 1] == journal.created_directories@[left - 1]@);
        if journal.created_directories[left - 1].state != DirectoryState::Planned {
            return RestorePoint::DirectoryRemoval { index: left - 1 };
        }
        left -= 1;
    }
    RestorePoint::Finish
}

fn unwind_start(journal: &Journal, count: usize) -> (point: RestorePoint)
    requires
        count <= journal@.entries.len(),
    ensures
        point == unwind_point(journal@, count as int),
{
    if count > 0 {
        RestorePoint::Entry { index: count - 1 }
    } else {
        removal_start(journal, journal.created_directories.len())
    }
}

fn temporary_start(journal: &Journal, index: usize) -> (point: RestorePoint)
    requires
        index <= journal@.entries.len(),
    ensures
        point == temporary_point(journal@, index as int),
{
    if index < journal.entries.len() {
        RestorePoint::Temporary { index }
    } else if journal.state == JournalState::Committed {
        RestorePoint::Finish
    } else {
        unwind_start(journal, journal.entries.len())
    }
}

/// Whether `result` is what a step leads to.
pub open spec fn steps_to(
    result: Result<Restorer, JournalError>,
    owed: Result<RestoreModel, JournalFailure>,
) -> bool {
    match result {
        Ok(run) => owed == Ok::<RestoreModel, JournalFailure>(run@),
        Err(error) => owed == Err::<RestoreModel, JournalFailure>(error.failure()),
    }
}

impl Restorer {
    /// The value of this recovery.
    pub closed spec fn view(&self) -> RestoreModel {
        RestoreModel { journal: self.journal@, point: self.point }
    }

    /// Begins the recovery of a valid journal that was found on disk.
    pub fn begin(journal: Journal) -> (run: Self)
        requires
            journal@.is_valid(),
        ensures
            run@.is_sound(),
            run@ == (RestoreModel { journal: journal@, point: inspection_point(journal@, 0) }),
    {
        let directories: usize = journal.created_directories.len();
        let entries: usize = journal.entries.len();
        assert(journal@.entries.len() == entries);
        let point = if directories > 0 {
            RestorePoint::Directory { index: 0 }
        } else {
            RestorePoint::Contents
        };
        Restorer { journal, point }
    }

    /// Returns the journal as it is to be on disk once the action was done.
    pub fn journal(&self) -> (journal: &Journal)
        ensures
            journal@ == self@.journal,
    {
        &self.journal
    }

    /// Returns what the recovery comes to once it is finished.
    pub fn outcome(&self) -> (outcome: RecoveryOutcome)
        ensures
            match outcome {
                RecoveryOutcome::RolledBack { plan_id } => self@.journal.state
                    == JournalState::Prepared && plan_id@ == self@.journal.plan_id,
                RecoveryOutcome::Finalized { plan_id } => self@.journal.state
                    == JournalState::Committed && plan_id@ == self@.journal.plan_id,
                RecoveryOutcome::Absent => false,
            },
    {
        match self.journal.state {
            JournalState::Prepared => RecoveryOutcome::RolledBack {
                plan_id: self.journal.plan_id.clone(),
            },
            JournalState::Committed => RecoveryOutcome::Finalized {
                plan_id: self.journal.plan_id.clone(),
            },
        }
    }

    /// Returns what is to be done next.
    pub fn action(&self) -> (action: RestoreAction)
        requires
            self@.is_sound(),
        ensures
            action == self@.action(),
    {
        match self.point {
            RestorePoint::Directory { index } => RestoreAction::InspectDirectory { index },
            RestorePoint::Contents => RestoreAction::InspectContents,
            RestorePoint::Temporary { index } => RestoreAction::InspectTemporary { index },
            RestorePoint::TemporaryRemoved { index } => RestoreAction::RemoveTemporary { index },
            RestorePoint::Entry { index } => RestoreAction::InspectEntry { index },
            RestorePoint::RestoreMade { index } => RestoreAction::CreateTemporary { index },
            RestorePoint::Restore { index } => {
                let entry = &self.journal.entries[index];
                proof {
                    assert(self.journal@.entries[index as int] == entry@);
                    self.journal@.lemma_forms(index as int);
                }
                if entry.original.is_some() {
                    RestoreAction::RestoreTarget { index }
                } else {
                    RestoreAction::RemoveTarget { index }
                }
            },
            RestorePoint::DirectoryRemoval { index } => RestoreAction::InspectDirectory { index },
            RestorePoint::DirectoryRemoved { index } => RestoreAction::RemoveDirectory { index },
            RestorePoint::Finish => RestoreAction::RemoveJournal,
            _ => RestoreAction::WriteJournal,
        }
    }

    fn moved(self, point: RestorePoint) -> (run: Self)
        ensures
            run@ == self@.moved(point),
    {
        Restorer { journal: self.journal, point }
    }

    fn marked(
        self,
        index: usize,
        temporary: TemporaryState,
        identity: Option<FileIdentity>,
        point: RestorePoint,
    ) -> (run: Self)
        requires
            index < self@.journal.entries.len(),
        ensures
            run@ == self@.marked(index, temporary, identity, point),
    {
        let mut journal = self.journal;
        assert(journal@.entries[index as int] == journal.entries@[index as int]@);
        let applied = journal.entries[index].applied;
        journal.mark_entry(index, temporary, identity, applied);
        Restorer { journal, point }
    }

    fn cleared(self, index: usize) -> (run: Self)
        requires
            index < self@.journal.entries.len(),
        ensures
            run@ == self@.cleared(index),
    {
        assert(self.journal@.entries[index as int] == self.journal.entries@[index as int]@);
        if self.journal.entries[index].temporary_state != TemporaryState::Absent {
            self.marked(index, TemporaryState::Absent, None, RestorePoint::TemporaryRecord { index })
        } else {
            let total: usize = self.journal.entries.len();
            assert(index < total);
            let point = temporary_start(&self.journal, index + 1);
            self.moved(point)
        }
    }

    fn unapplied(self, index: usize) -> (run: Self)
        requires
            index < self@.journal.entries.len(),
        ensures
            run@ == self@.unapplied(index),
    {
        assert(self.journal@.entries[index as int] == self.journal.entries@[index as int]@);
        if self.journal.entries[index].applied {
            let mut journal = self.journal;
            journal.mark_entry(index, TemporaryState::Absent, None, false);
            Restorer { journal, point: RestorePoint::Unapplied { index } }
        } else {
            let point = unwind_start(&self.journal, index);
            self.moved(point)
        }
    }

    fn look_at_temporary(self, index: usize, display: String, file: Option<TemporaryFile>) -> (result:
        Result<Self, JournalError>)
        requires
            index < self@.journal.entries.len(),
        ensures
            steps_to(result, self@.after_temporary(index, display@, file)),
    {
        let entry = &self.journal.entries[index];
        assert(self.journal@.entries[index as int] == entry@);
        match cleanup_operation_temporary_file(entry, display.as_str(), &file) {
            Ok(true) => Ok(self.moved(RestorePoint::TemporaryRemoved { index })),
            Ok(false) => Ok(self.cleared(index)),
            Err(error) => Err(error),
        }
    }

    fn look_at_entry(self, index: usize, current: Option<Vec<u8>>) -> (result: Result<
        Self,
        JournalError,
    >)
        requires
            self@.is_sound(),
            index < self@.journal.entries.len(),
        ensures
            steps_to(result, self@.after_entry(index, bytes_view(current))),
    {
        let entry = &self.journal.entries[index];
        proof {
            assert(self.journal@.entries[index as int] == entry@);
            self.journal@.lemma_forms(index as int);
        }
        match plan_operation(entry, &current) {
            Ok(ApplyDecision::Change) => {
                return Ok(self.unapplied(index));
            },
            Ok(ApplyDecision::Done) => {},
            Err(error) => {
                return Err(error);
            },
        }
        if entry.original.is_some() {
            Ok(
                self.marked(
                    index,
                    TemporaryState::Creating,
                    None,
                    RestorePoint::RestoreIntent { index },
                ),
            )
        } else {
            Ok(self.moved(RestorePoint::Restore { index }))
        }
    }

    fn look_at_removal(self, index: usize, display: String, found: FoundDirectory) -> (result:
        Result<Self, JournalError>)
        requires
            index < self@.journal.directories.len(),
        ensures
            steps_to(
                result,
                match directory_removal(
                    self@.journal.directories[index as int],
                    display@,
                    found,
                ) {
                    Err(failure) => Err(failure),
                    Ok(true) => Ok(self@.moved(RestorePoint::DirectoryRemoved { index })),
                    Ok(false) => Ok(self@.moved(removal_point(self@.journal, index as int))),
                },
            ),
    {
        let directory = &self.journal.created_directories[index];
        assert(self.journal@.directories[index as int] == directory@);
        match plan_directory_removal(directory, display.as_str(), found) {
            Ok(true) => Ok(self.moved(RestorePoint::DirectoryRemoved { index })),
            Ok(false) => {
                let point = removal_start(&self.journal, index);
                Ok(self.moved(point))
            },
            Err(error) => Err(error),
        }
    }

    fn finish_restore(self, index: usize) -> (run: Self)
        requires
            self@.is_sound(),
            index < self@.journal.entries.len(),
        ensures
            run@ == (if self@.journal.entries[index as int].original_bytes() is Some {
                self@.marked(
                    index,
                    TemporaryState::Absent,
                    None,
                    RestorePoint::RestoreClear { index },
                )
            } else {
                self@.unapplied(index)
            }),
    {
        let entry = &self.journal.entries[index];
        proof {
            assert(self.journal@.entries[index as int] == entry@);
            self.journal@.lemma_forms(index as int);
        }
        if entry.original.is_some() {
            self.marked(index, TemporaryState::Absent, None, RestorePoint::RestoreClear { index })
        } else {
            self.unapplied(index)
        }
    }

    /// Takes what came of the action that was asked for.
    pub fn advance(self, event: RestoreEvent) -> (result: Result<Option<Self>, JournalError>)
        requires
            self@.is_sound(),
            self@.awaits(event),
        ensures
            match result {
                Ok(Some(run)) => self@.next(event) == Ok::<Option<RestoreModel>, JournalFailure>(
                    Some(run@),
                ) && run@.is_sound(),
                Ok(None) => self@.next(event) == Ok::<Option<RestoreModel>, JournalFailure>(None),
                Err(error) => self@.next(event) == Err::<Option<RestoreModel>, JournalFailure>(
                    error.failure(),
                ),
            },
    {
        proof {
            self@.lemma_next_is_sound(event);
        }
        let step = match (self.point, event) {
            (RestorePoint::Directory { index }, RestoreEvent::Directory { display, found }) => {
                let directory = &self.journal.created_directories[index];
                assert(self.journal@.directories[index as int] == directory@);
                match preflight_created_directory(
                    self.journal.state,
                    directory,
                    display.as_str(),
                    found,
                ) {
                    Ok(()) => {},
                    Err(error) => {
                        return Err(error);
                    },
                }
                let point = if index + 1 < self.journal.created_directories.len() {
                    RestorePoint::Directory { index: index + 1 }
                } else {
                    RestorePoint::Contents
                };
                Ok(self.moved(point))
            },
            (RestorePoint::Contents, RestoreEvent::Contents(list)) => {
                match preflight_recovery(&self.journal, &list) {
                    Ok(()) => {},
                    Err(error) => {
                        return Err(error);
                    },
                }
                let point = temporary_start(&self.journal, 0);
                Ok(self.moved(point))
            },
            (RestorePoint::Temporary { index }, RestoreEvent::Temporary { display, file }) => {
                self.look_at_temporary(index, display, file)
            },
            (RestorePoint::TemporaryRemoved { index }, _) => Ok(self.cleared(index)),
            (RestorePoint::TemporaryRecord { index }, _) => {
                let point = temporary_start(&self.journal, index + 1);
                Ok(self.moved(point))
            },
            (RestorePoint::Entry { index }, RestoreEvent::Current(current)) => {
                self.look_at_entry(index, current)
            },
            (RestorePoint::RestoreIntent { index }, _) => Ok(
                self.moved(RestorePoint::RestoreMade { index }),
            ),
            (RestorePoint::RestoreMade { index }, RestoreEvent::Identity(identity)) => Ok(
                self.marked(
                    index,
                    TemporaryState::Created,
                    Some(identity),
                    RestorePoint::RestoreRecord { index },
                ),
            ),
            (RestorePoint::RestoreRecord { index }, _) => Ok(
                self.moved(RestorePoint::Restore { index }),
            ),
            (RestorePoint::Restore { index }, _) => Ok(self.finish_restore(index)),
            (RestorePoint::RestoreClear { index }, _) => Ok(self.unapplied(index)),
            (RestorePoint::Unapplied { index }, _) => {
                let point = unwind_start(&self.journal, index);
                Ok(self.moved(point))
            },
            (
                RestorePoint::DirectoryRemoval { index },
                RestoreEvent::Directory { display, found },
            ) => self.look_at_removal(index, display, found),
            (RestorePoint::DirectoryRemoved { index }, _) => {
                let point = removal_start(&self.journal, index);
                Ok(self.moved(point))
            },
            _ => {
                return Ok(None);
            },
        };
        match step {
            Ok(run) => Ok(Some(run)),
            Err(error) => Err(error),
        }
    }
}

/// How the recovery of a project begins.
#[derive(Debug)]
pub enum RecoveryStart {
    /// There is nothing to recover.
    Finished(RecoveryOutcome),
    /// A journal was found, whose transaction is to be recovered.
    Restore(Restorer),
}

/// How the recovery begins of a project with this journal: not at all without one.
pub open spec fn recovery_start(found: Option<JournalModel>) -> Result<
    Option<RestoreModel>,
    JournalFailure,
> {
    match found {
        None => Ok(None),
        Some(journal) => match journal.failure() {
            Some(failure) => Err(failure),
            None => Ok(Some(RestoreModel { journal, point: inspection_point(journal, 0) })),
        },
    }
}

/// Begins the recovery of a project, given the journal that was found in it.
pub fn begin_recovery(found: Option<Journal>) -> (result: Result<RecoveryStart, JournalError>)
    ensures
        ({
            let owed = recovery_start(
                match found {
                    Some(journal) => Some(journal@),
                    None => None,
                },
            );
            match result {
                Ok(RecoveryStart::Finished(outcome)) => owed == Ok::<
                    Option<RestoreModel>,
                    JournalFailure,
                >(None) && outcome is Absent,
                Ok(RecoveryStart::Restore(run)) => owed == Ok::<
                    Option<RestoreModel>,
                    JournalFailure,
                >(Some(run@)) && run@.is_sound(),
                Err(error) => owed == Err::<Option<RestoreModel>, JournalFailure>(error.failure()),
            }
        }),
{
    match found {
        None => Ok(RecoveryStart::Finished(RecoveryOutcome::Absent)),
        Some(journal) => match journal.validate() {
            Ok(()) => Ok(RecoveryStart::Restore(Restorer::begin(journal))),
            Err(error) => Err(error),
        },
    }
}

} // verus!
