//! What is on disk while a transaction is recovered, and what recovery comes to.

use vstd::prelude::*;
use vstd::string::*;

use crate::applicator_laws::{directory_left, lemma_entry_back, temporary_fits, DiskModel};
use crate::journal::{bytes_view, decoded};
use crate::recovery::{contents_view, directory_recovery_failure, FoundDirectory};
use crate::restorer::{
    inspection_point, is_clean, removal_point, temporary_point, unwind_point, RestoreEvent,
    RestoreModel, RestorePoint,
};
use crate::transaction::{DirectoryState, JournalModel, JournalState, TemporaryState};

verus! {

impl RestoreModel {
    /// From which entry on the files hold their originals.
    pub open spec fn restored_from(self) -> int {
        match self.point {
            RestorePoint::Entry { index } => index + 1,
            RestorePoint::RestoreIntent { index } => index + 1,
            RestorePoint::RestoreMade { index } => index + 1,
            RestorePoint::RestoreRecord { index } => index + 1,
            RestorePoint::Restore { index } => index + 1,
            RestorePoint::RestoreClear { index } => index as int,
            RestorePoint::Unapplied { index } => index as int,
            RestorePoint::DirectoryRemoval { .. } => 0,
            RestorePoint::DirectoryRemoved { .. } => 0,
            RestorePoint::Finish => 0,
            _ => self.journal.entries.len() as int,
        }
    }

    /// From which directory on nothing stands at the paths.
    pub open spec fn removed_from(self) -> int {
        match self.point {
            RestorePoint::DirectoryRemoval { index } => index + 1,
            RestorePoint::DirectoryRemoved { index } => index + 1,
            RestorePoint::Finish => 0,
            _ => self.journal.directories.len() as int,
        }
    }

    /// Whether the journal on disk is the one before the action that is asked for.
    pub open spec fn follows(self, written: JournalModel) -> bool {
        match self.point {
            RestorePoint::TemporaryRecord { index } => self.forgets(written, index as int),
            RestorePoint::RestoreIntent { index } => written == self.journal.with_entry(
                index as int,
                TemporaryState::Absent,
                None,
                self.journal.entries[index as int].applied,
            ),
            RestorePoint::RestoreRecord { index } => written == self.journal.with_entry(
                index as int,
                TemporaryState::Creating,
                None,
                self.journal.entries[index as int].applied,
            ),
            RestorePoint::RestoreClear { index } => self.forgets(written, index as int),
            RestorePoint::Unapplied { index } => written == self.journal.with_entry(
                index as int,
                TemporaryState::Absent,
                None,
                true,
            ),
            _ => written == self.journal,
        }
    }

    /// Whether the journal on disk differs by the temporary file of the entry at `index`.
    pub open spec fn forgets(self, written: JournalModel, index: int) -> bool {
        written == self.journal.with_entry(
            index,
            written.entries[index].temporary,
            written.entries[index].identity,
            self.journal.entries[index].applied,
        )
    }

    /// Whether the disk is as the recovery left it before the action that is asked for.
    pub open spec fn tracks(self, disk: DiskModel) -> bool {
        &&& self.is_sound()
        &&& self.follows(disk.journal)
        &&& disk.is_recoverable()
        &&& self.journal.state == JournalState::Prepared ==> forall|i: int|
            self.restored_from() <= i < disk.contents.len() ==> #[trigger] disk.contents[i]
                == self.journal.entries[i].original_bytes()
        &&& self.journal.state == JournalState::Prepared ==> forall|i: int|
            self.removed_from() <= i < disk.directories.len() ==> (
            #[trigger] disk.directories[i]) is Missing
        &&& match self.point {
            RestorePoint::TemporaryRecord { index } => disk.temporaries[index as int] is None,
            RestorePoint::RestoreRecord { index } => temporary_fits(
                self.journal.entries[index as int],
                disk.temporaries[index as int],
            ),
            RestorePoint::RestoreClear { index } => disk.temporaries[index as int] is None,
            _ => true,
        }
    }

    /// The disk once the action that is asked for was done with this event.
    pub open spec fn done(self, disk: DiskModel, event: RestoreEvent) -> DiskModel {
        match self.point {
            RestorePoint::TemporaryRemoved { index } => DiskModel {
                temporaries: disk.temporaries.update(index as int, None),
                ..disk
            },
            RestorePoint::RestoreMade { index } => DiskModel {
                temporaries: disk.temporaries.update(
                    index as int,
                    Some((Seq::empty(), event->Identity_0)),
                ),
                ..disk
            },
            RestorePoint::Restore { index } => DiskModel {
                temporaries: disk.temporaries.update(index as int, None),
                contents: disk.contents.update(
                    index as int,
                    self.journal.entries[index as int].original_bytes(),
                ),
                ..disk
            },
            RestorePoint::DirectoryRemoved { index } => DiskModel {
                directories: disk.directories.update(index as int, FoundDirectory::Missing),
                ..disk
            },
            _ => DiskModel { journal: self.journal, ..disk },
        }
    }

    /// Whether the event says what is on disk.
    pub open spec fn reports(self, disk: DiskModel, event: RestoreEvent) -> bool {
        match (self.point, event) {
            (RestorePoint::Directory { index }, RestoreEvent::Directory { found, .. }) => found
                == disk.directories[index as int],
            (RestorePoint::Contents, RestoreEvent::Contents(list)) => contents_view(list@)
                == disk.contents,
            (RestorePoint::Temporary { index }, RestoreEvent::Temporary { file, .. }) => {
                disk.temporaries[index as int] == match file {
                    None => None,
                    Some(found) => Some((found.bytes@, found.identity)),
                }
            },
            (RestorePoint::Entry { index }, RestoreEvent::Current(current)) => bytes_view(current)
                == disk.contents[index as int],
            (RestorePoint::DirectoryRemoval { index }, RestoreEvent::Directory { found, .. }) => {
                found == disk.directories[index as int]
            },
            _ => true,
        }
    }

    /// Whether an interruption of the action that is asked for may leave `during` of `disk`: the
    /// action was not begun, or it was done, or a temporary file was written in part.
    pub open spec fn interrupted_at(self, disk: DiskModel, during: DiskModel) -> bool {
        ||| during == disk
        ||| exists|event: RestoreEvent|
            self.awaits(event) && during == #[trigger] self.done(disk, event)
        ||| exists|bytes: Seq<u8>| during == #[trigger] self.part_written(disk, bytes)
    }

    /// The disk with a temporary file written in part, where one is being written.
    pub open spec fn part_written(self, disk: DiskModel, bytes: Seq<u8>) -> DiskModel {
        match self.point {
            RestorePoint::Restore { index } => match self.journal.entries[index as int].identity {
                Some(identity) => DiskModel {
                    temporaries: disk.temporaries.update(index as int, Some((bytes, identity))),
                    ..disk
                },
                None => disk,
            },
            _ => disk,
        }
    }

    proof fn lemma_removal_reached(self, disk: DiskModel, count: int)
        requires
            disk.is_recoverable(),
            disk.journal == self.journal,
            0 <= count <= self.journal.directories.len() <= usize::MAX,
            forall|i: int|
                count <= i < disk.directories.len() ==> (#[trigger] disk.directories[i]) is Missing,
        ensures
            self.moved(removal_point(self.journal, count)).restored_from() == 0,
            self.moved(removal_point(self.journal, count)).follows(disk.journal),
            forall|i: int|
                self.moved(removal_point(self.journal, count)).removed_from() <= i
                    < disk.directories.len() ==> (#[trigger] disk.directories[i]) is Missing,
        decreases count,
    {
        if count > 0 && self.journal.directories[count - 1].state == DirectoryState::Planned {
            assert(directory_left(
                disk.journal.state,
                disk.journal.directories[count - 1],
                disk.directories[count - 1],
            ));
            self.lemma_removal_reached(disk, count - 1);
        }
    }

    proof fn lemma_unwind_reached(self, disk: DiskModel, count: int)
        requires
            disk.is_recoverable(),
            disk.journal == self.journal,
            self.journal.directories.len() <= usize::MAX,
            0 <= count <= self.journal.entries.len() <= usize::MAX,
            self.moved(unwind_point(self.journal, count)).is_sound(),
            forall|i: int|
                count <= i < disk.contents.len() ==> #[trigger] disk.contents[i]
                    == self.journal.entries[i].original_bytes(),
        ensures
            self.moved(unwind_point(self.journal, count)).tracks(disk),
    {
        if count == 0 {
            self.lemma_removal_reached(disk, self.journal.directories.len() as int);
        }
    }

    proof fn lemma_temporary_reached(self, disk: DiskModel, index: int)
        requires
            disk.is_recoverable(),
            disk.journal == self.journal,
            self.journal.directories.len() <= usize::MAX,
            0 <= index <= self.journal.entries.len() <= usize::MAX,
            self.moved(temporary_point(self.journal, index)).is_sound(),
        ensures
            self.moved(temporary_point(self.journal, index)).tracks(disk),
    {
        if index == self.journal.entries.len() && self.journal.state == JournalState::Prepared {
            self.lemma_unwind_reached(disk, index);
        }
    }

    /// Changing the progress of the entry at `index` keeps what is on disk recoverable, where the
    /// temporary file fits.
    proof fn lemma_rewritten(self, disk: DiskModel, index: int)
        requires
            disk.is_recoverable(),
            self.journal.is_valid(),
            0 <= index < self.journal.entries.len(),
            disk.journal == self.journal.with_entry(
                index,
                disk.journal.entries[index].temporary,
                disk.journal.entries[index].identity,
                disk.journal.entries[index].applied,
            ),
            temporary_fits(self.journal.entries[index], disk.temporaries[index]),
        ensures
            (DiskModel { journal: self.journal, ..disk }).is_recoverable(),
    {
        let after = DiskModel { journal: self.journal, ..disk };
        assert forall|i: int| 0 <= i < after.temporaries.len() implies temporary_fits(
            after.journal.entries[i],
            #[trigger] after.temporaries[i],
        ) by {
            assert(temporary_fits(disk.journal.entries[i], disk.temporaries[i]));
        }
        assert forall|i: int| 0 <= i < after.directories.len() implies directory_left(
            after.journal.state,
            after.journal.directories[i],
            #[trigger] after.directories[i],
        ) by {
            assert(directory_left(
                disk.journal.state,
                disk.journal.directories[i],
                disk.directories[i],
            ));
        }
        assert forall|i: int| 0 <= i < after.contents.len() implies #[trigger] after.contents[i]
            == after.journal.entries[i].replacement_bytes() || after.journal.state
            == JournalState::Prepared && after.contents[i]
            == after.journal.entries[i].original_bytes() by {
            assert(disk.contents[i] == after.contents[i]);
            assert(disk.journal.entries[i].original == self.journal.entries[i].original);
            assert(disk.journal.entries[i].replacement == self.journal.entries[i].replacement);
        }
    }

    /// The disk tracks a recovery that begins on anything that an interruption may leave.
    pub proof fn lemma_recovery_begins(journal: JournalModel, disk: DiskModel)
        requires
            disk.is_recoverable(),
            disk.journal == journal,
            journal.directories.len() <= usize::MAX,
            journal.entries.len() <= usize::MAX,
        ensures
            (RestoreModel { journal, point: inspection_point(journal, 0) }).tracks(disk),
    {
    }

    proof fn lemma_inspection_step(self, disk: DiskModel, event: RestoreEvent)
        requires
            self.tracks(disk),
            self.awaits(event),
            self.reports(disk, event),
            self.point is Directory || self.point is Contents,
        ensures
            self.next(event) matches Ok(Some(next)) && next.tracks(self.done(disk, event)),
    {
        self.lemma_next_is_sound(event);
        disk.lemma_recovery_is_accepted();
        assert(self.done(disk, event) == disk);
        match (self.point, event) {
            (RestorePoint::Directory { index }, RestoreEvent::Directory { display, found }) => {
                assert(directory_recovery_failure(
                    disk.journal.state,
                    disk.journal.directories[index as int],
                    display@,
                    disk.directories[index as int],
                ) is None);
            },
            _ => {
                self.lemma_temporary_reached(disk, 0);
            },
        }
    }

    /// The recovery goes on where the temporary file of the entry at `index` is gone.
    proof fn lemma_cleared_tracks(self, disk: DiskModel, index: usize)
        requires
            self.is_sound(),
            disk.is_recoverable(),
            disk.journal == self.journal,
            index < self.journal.entries.len(),
            self.journal.is_cleaned(index as int),
            disk.temporaries[index as int] is None,
            self.cleared(index).is_sound(),
        ensures
            self.cleared(index).tracks(disk),
    {
        self.journal.lemma_forms(index as int);
        let entry = self.journal.entries[index as int];
        if entry.temporary != TemporaryState::Absent {
            lemma_entry_back(
                self.journal,
                index as int,
                TemporaryState::Absent,
                None,
                entry.applied,
            );
        } else {
            self.lemma_temporary_reached(disk, index + 1);
        }
    }

    proof fn lemma_temporary_step(self, disk: DiskModel, event: RestoreEvent, index: usize)
        requires
            self.tracks(disk),
            self.awaits(event),
            self.reports(disk, event),
            self.point == (RestorePoint::Temporary { index }) || self.point == (
            RestorePoint::TemporaryRemoved { index }) || self.point == (
            RestorePoint::TemporaryRecord { index }),
        ensures
            self.next(event) matches Ok(Some(next)) && next.tracks(self.done(disk, event)),
    {
        self.lemma_next_is_sound(event);
        let after = self.done(disk, event);
        let at = index as int;
        if self.point is TemporaryRecord {
            self.lemma_rewritten(disk, at);
            self.lemma_temporary_reached(after, at + 1);
        } else {
            assert(temporary_fits(disk.journal.entries[at], disk.temporaries[at]));
            if self.point is TemporaryRemoved {
                lemma_without_temporary(disk, at);
                self.lemma_cleared_tracks(after, index);
            } else if disk.temporaries[at] is None {
                assert(after == disk);
                self.lemma_cleared_tracks(disk, index);
            } else {
                disk.lemma_recovery_is_accepted();
                assert(after == disk);
            }
        }
    }

    /// The recovery goes on where the file of the entry at `index` holds its original.
    proof fn lemma_unapplied_tracks(self, disk: DiskModel, index: usize)
        requires
            self.is_sound(),
            self.at_entry(index, TemporaryState::Absent),
            disk.is_recoverable(),
            disk.journal == self.journal,
            forall|i: int|
                index <= i < disk.contents.len() ==> #[trigger] disk.contents[i]
                    == self.journal.entries[i].original_bytes(),
            self.unapplied(index).is_sound(),
        ensures
            self.unapplied(index).tracks(disk),
    {
        self.journal.lemma_forms(index as int);
        let next = self.unapplied(index);
        if self.journal.entries[index as int].applied {
            lemma_entry_back(self.journal, index as int, TemporaryState::Absent, None, false);
            assert forall|i: int| index <= i < disk.contents.len() implies #[trigger] disk.contents[i]
                == next.journal.entries[i].original_bytes() by {
                assert(next.journal.entries[i].original == self.journal.entries[i].original);
            }
        } else {
            self.lemma_unwind_reached(disk, index as int);
        }
    }

    /// Whether the recovery stands at the entry at `index`.
    spec fn is_at_entry(self, index: usize) -> bool {
        match self.point {
            RestorePoint::Entry { index: at } => at == index,
            RestorePoint::RestoreIntent { index: at } => at == index,
            RestorePoint::RestoreMade { index: at } => at == index,
            RestorePoint::RestoreRecord { index: at } => at == index,
            RestorePoint::Restore { index: at } => at == index,
            RestorePoint::RestoreClear { index: at } => at == index,
            RestorePoint::Unapplied { index: at } => at == index,
            _ => false,
        }
    }

    proof fn lemma_entry_step(self, disk: DiskModel, event: RestoreEvent, index: usize)
        requires
            self.tracks(disk),
            self.awaits(event),
            self.reports(disk, event),
            self.is_at_entry(index),
        ensures
            self.next(event) matches Ok(Some(next)) && next.tracks(self.done(disk, event)),
    {
        self.lemma_next_is_sound(event);
        let after = self.done(disk, event);
        let at = index as int;
        let entry = self.journal.entries[at];
        self.journal.lemma_forms(at);
        self.journal.lemma_entries_decode();
        assert(decoded(entry.original) is Ok);
        assert(temporary_fits(disk.journal.entries[at], disk.temporaries[at]));
        assert(disk.contents[at] == disk.contents[at]);
        assert(disk.journal.entries[at].original == entry.original);
        assert(disk.journal.entries[at].replacement == entry.replacement);
        match self.point {
            RestorePoint::Entry { .. } => {
                assert(after == disk);
                if disk.contents[at] == entry.original_bytes() {
                    self.lemma_unapplied_tracks(disk, index);
                } else if entry.original_bytes() is Some {
                    lemma_entry_back(self.journal, at, TemporaryState::Creating, None, entry.applied);
                    self.lemma_marked_tracks(
                        disk,
                        index,
                        TemporaryState::Creating,
                        None,
                        RestorePoint::RestoreIntent { index },
                    );
                }
            },
            RestorePoint::RestoreIntent { .. } => {
                self.lemma_rewritten(disk, at);
            },
            RestorePoint::RestoreMade { .. } => {
                let identity = event->Identity_0;
                lemma_entry_back(
                    self.journal,
                    at,
                    TemporaryState::Created,
                    Some(identity),
                    entry.applied,
                );
                lemma_with_temporary(disk, at, Seq::empty(), identity);
                self.lemma_marked_tracks(
                    after,
                    index,
                    TemporaryState::Created,
                    Some(identity),
                    RestorePoint::RestoreRecord { index },
                );
            },
            RestorePoint::RestoreRecord { .. } => {
                self.lemma_rewritten(disk, at);
            },
            RestorePoint::Restore { .. } => {
                lemma_with_original(disk, at);
                assert forall|i: int| at <= i < after.contents.len() implies #[trigger] after.contents[i]
                    == self.journal.entries[i].original_bytes() by {
                    if i != at {
                        assert(disk.contents[i] == after.contents[i]);
                    }
                }
                if entry.original_bytes() is Some {
                    lemma_entry_back(self.journal, at, TemporaryState::Absent, None, entry.applied);
                    self.lemma_marked_tracks(
                        after,
                        index,
                        TemporaryState::Absent,
                        None,
                        RestorePoint::RestoreClear { index },
                    );
                } else {
                    self.lemma_unapplied_tracks(after, index);
                }
            },
            RestorePoint::RestoreClear { .. } => {
                self.lemma_rewritten(disk, at);
                self.lemma_unapplied_tracks(after, index);
            },
            _ => {
                self.lemma_rewritten(disk, at);
                self.lemma_unwind_reached(after, at);
            },
        }
    }

    proof fn lemma_marked_tracks(
        self,
        disk: DiskModel,
        index: usize,
        temporary: TemporaryState,
        identity: Option<crate::transaction::FileIdentity>,
        point: RestorePoint,
    )
        requires
            disk.is_recoverable(),
            disk.journal == self.journal,
            self.journal.state == JournalState::Prepared,
            index < self.journal.entries.len(),
            self.marked(index, temporary, identity, point).is_sound(),
            self.marked(index, temporary, identity, point).follows(disk.journal),
            point is RestoreIntent || point is RestoreRecord || point is RestoreClear,
            self.marked(index, temporary, identity, point).is_at_entry(index),
            point is RestoreRecord ==> temporary_fits(
                self.marked(index, temporary, identity, point).journal.entries[index as int],
                disk.temporaries[index as int],
            ),
            point is RestoreClear ==> disk.temporaries[index as int] is None,
            forall|i: int|
                self.marked(index, temporary, identity, point).restored_from() <= i
                    < disk.contents.len() ==> #[trigger] disk.contents[i]
                    == self.journal.entries[i].original_bytes(),
        ensures
            self.marked(index, temporary, identity, point).tracks(disk),
    {
        let next = self.marked(index, temporary, identity, point);
        assert forall|i: int|
            next.restored_from() <= i < disk.contents.len() implies #[trigger] disk.contents[i]
            == next.journal.entries[i].original_bytes() by {
            assert(next.journal.entries[i].original == self.journal.entries[i].original);
        }
    }

    proof fn lemma_removal_step(self, disk: DiskModel, event: RestoreEvent, index: usize)
        requires
            self.tracks(disk),
            self.awaits(event),
            self.reports(disk, event),
            self.point == (RestorePoint::DirectoryRemoval { index }) || self.point == (
            RestorePoint::DirectoryRemoved { index }),
        ensures
            self.next(event) matches Ok(Some(next)) && next.tracks(self.done(disk, event)),
    {
        self.lemma_next_is_sound(event);
        let after = self.done(disk, event);
        let at = index as int;
        assert(directory_left(
            disk.journal.state,
            disk.journal.directories[at],
            disk.directories[at],
        ));
        if self.point is DirectoryRemoved {
            lemma_without_directory(disk, at);
            assert forall|i: int| at <= i < after.directories.len() implies (
            #[trigger] after.directories[i]) is Missing by {
                if i != at {
                    assert(disk.directories[i] is Missing);
                }
            }
            self.lemma_removal_reached(after, at);
        } else {
            assert(after == disk);
            if disk.directories[at] is Missing {
                assert forall|i: int| at <= i < disk.directories.len() implies (
                #[trigger] disk.directories[i]) is Missing by {}
                self.lemma_removal_reached(disk, at);
            }
        }
    }

    /// Where the disk tracks a recovery and the event says what is there, the recovery does not
    /// fail. The disk tracks what it goes on to. Once it is finished no temporary file is left, and
    /// either every file holds its original and no directory of the transaction is left, or the
    /// transaction was committed and every file holds its replacement.
    pub proof fn lemma_recovery_goes_on(self, disk: DiskModel, event: RestoreEvent)
        requires
            self.tracks(disk),
            self.awaits(event),
            self.reports(disk, event),
        ensures
            match self.next(event) {
                Ok(Some(next)) => next.tracks(self.done(disk, event)),
                Ok(None) => {
                    &&& forall|i: int|
                        0 <= i < disk.temporaries.len() ==> (
                        #[trigger] disk.temporaries[i]) is None
                    &&& if self.journal.state == JournalState::Prepared {
                        &&& forall|i: int|
                            0 <= i < disk.contents.len() ==> #[trigger] disk.contents[i]
                                == self.journal.entries[i].original_bytes()
                        &&& forall|i: int|
                            0 <= i < disk.directories.len() ==> (
                            #[trigger] disk.directories[i]) is Missing
                    } else {
                        forall|i: int|
                            0 <= i < disk.contents.len() ==> #[trigger] disk.contents[i]
                                == self.journal.entries[i].replacement_bytes()
                    }
                },
                Err(_) => false,
            },
    {
        match self.point {
            RestorePoint::Directory { .. } => {
                self.lemma_inspection_step(disk, event);
            },
            RestorePoint::Contents => {
                self.lemma_inspection_step(disk, event);
            },
            RestorePoint::Temporary { index } => {
                self.lemma_temporary_step(disk, event, index);
            },
            RestorePoint::TemporaryRemoved { index } => {
                self.lemma_temporary_step(disk, event, index);
            },
            RestorePoint::TemporaryRecord { index } => {
                self.lemma_temporary_step(disk, event, index);
            },
            RestorePoint::Entry { index } => {
                self.lemma_entry_step(disk, event, index);
            },
            RestorePoint::RestoreIntent { index } => {
                self.lemma_entry_step(disk, event, index);
            },
            RestorePoint::RestoreMade { index } => {
                self.lemma_entry_step(disk, event, index);
            },
            RestorePoint::RestoreRecord { index } => {
                self.lemma_entry_step(disk, event, index);
            },
            RestorePoint::Restore { index } => {
                self.lemma_entry_step(disk, event, index);
            },
            RestorePoint::RestoreClear { index } => {
                self.lemma_entry_step(disk, event, index);
            },
            RestorePoint::Unapplied { index } => {
                self.lemma_entry_step(disk, event, index);
            },
            RestorePoint::DirectoryRemoval { index } => {
                self.lemma_removal_step(disk, event, index);
            },
            RestorePoint::DirectoryRemoved { index } => {
                self.lemma_removal_step(disk, event, index);
            },
            RestorePoint::Finish => {
                assert forall|i: int| 0 <= i < disk.temporaries.len() implies (
                #[trigger] disk.temporaries[i]) is None by {
                    assert(temporary_fits(disk.journal.entries[i], disk.temporaries[i]));
                    if self.journal.state == JournalState::Prepared {
                        assert(is_clean(self.journal.entries[i]));
                    }
                }
            },
        }
    }

    /// Whatever an interruption of a recovery leaves can be recovered once more.
    pub proof fn lemma_interruption_is_recoverable(self, disk: DiskModel, during: DiskModel)
        requires
            self.tracks(disk),
            self.interrupted_at(disk, during),
        ensures
            during.is_recoverable(),
    {
        if during != disk {
            if exists|event: RestoreEvent|
                self.awaits(event) && during == #[trigger] self.done(disk, event) {
                let event = choose|event: RestoreEvent|
                    self.awaits(event) && during == #[trigger] self.done(disk, event);
                if self.reports(disk, event) {
                    self.lemma_recovery_goes_on(disk, event);
                }
            } else {
                let bytes = choose|bytes: Seq<u8>|
                    during == #[trigger] self.part_written(disk, bytes);
                if let RestorePoint::Restore { index } = self.point {
                    self.journal.lemma_forms(index as int);
                    lemma_with_temporary(
                        disk,
                        index as int,
                        bytes,
                        self.journal.entries[index as int].identity->Some_0,
                    );
                }
            }
        }
    }
}

proof fn lemma_without_temporary(disk: DiskModel, index: int)
    requires
        disk.is_recoverable(),
        0 <= index < disk.temporaries.len(),
    ensures
        (DiskModel { temporaries: disk.temporaries.update(index, None), ..disk }).is_recoverable(),
{
    let after = DiskModel { temporaries: disk.temporaries.update(index, None), ..disk };
    lemma_same_but_temporary(disk, after, index);
}

proof fn lemma_with_temporary(
    disk: DiskModel,
    index: int,
    bytes: Seq<u8>,
    identity: crate::transaction::FileIdentity,
)
    requires
        disk.is_recoverable(),
        0 <= index < disk.temporaries.len(),
        temporary_fits(disk.journal.entries[index], Some((bytes, identity))),
    ensures
        (DiskModel {
            temporaries: disk.temporaries.update(index, Some((bytes, identity))),
            ..disk
        }).is_recoverable(),
{
    let after = DiskModel {
        temporaries: disk.temporaries.update(index, Some((bytes, identity))),
        ..disk
    };
    lemma_same_but_temporary(disk, after, index);
}

proof fn lemma_same_but_temporary(disk: DiskModel, after: DiskModel, index: int)
    requires
        disk.is_recoverable(),
        0 <= index < disk.temporaries.len(),
        after == (DiskModel {
            temporaries: disk.temporaries.update(index, after.temporaries[index]),
            ..disk
        }),
        temporary_fits(disk.journal.entries[index], after.temporaries[index]),
    ensures
        after.is_recoverable(),
{
    assert forall|i: int| 0 <= i < after.temporaries.len() implies temporary_fits(
        after.journal.entries[i],
        #[trigger] after.temporaries[i],
    ) by {
        assert(temporary_fits(disk.journal.entries[i], disk.temporaries[i]));
    }
    assert forall|i: int| 0 <= i < after.directories.len() implies directory_left(
        after.journal.state,
        after.journal.directories[i],
        #[trigger] after.directories[i],
    ) by {
        assert(disk.directories[i] == after.directories[i]);
    }
    assert forall|i: int| 0 <= i < after.contents.len() implies #[trigger] after.contents[i]
        == after.journal.entries[i].replacement_bytes() || after.journal.state
        == JournalState::Prepared && after.contents[i]
        == after.journal.entries[i].original_bytes() by {
        assert(disk.contents[i] == after.contents[i]);
    }
}

proof fn lemma_with_original(disk: DiskModel, index: int)
    requires
        disk.is_recoverable(),
        disk.journal.state == JournalState::Prepared,
        0 <= index < disk.temporaries.len(),
    ensures
        (DiskModel {
            temporaries: disk.temporaries.update(index, None),
            contents: disk.contents.update(index, disk.journal.entries[index].original_bytes()),
            ..disk
        }).is_recoverable(),
{
    lemma_without_temporary(disk, index);
    let middle = DiskModel { temporaries: disk.temporaries.update(index, None), ..disk };
    let after = DiskModel {
        contents: disk.contents.update(index, disk.journal.entries[index].original_bytes()),
        ..middle
    };
    assert forall|i: int| 0 <= i < after.temporaries.len() implies temporary_fits(
        after.journal.entries[i],
        #[trigger] after.temporaries[i],
    ) by {
        assert(temporary_fits(middle.journal.entries[i], middle.temporaries[i]));
    }
    assert forall|i: int| 0 <= i < after.directories.len() implies directory_left(
        after.journal.state,
        after.journal.directories[i],
        #[trigger] after.directories[i],
    ) by {
        assert(middle.directories[i] == after.directories[i]);
    }
    assert forall|i: int| 0 <= i < after.contents.len() implies #[trigger] after.contents[i]
        == after.journal.entries[i].replacement_bytes() || after.journal.state
        == JournalState::Prepared && after.contents[i]
        == after.journal.entries[i].original_bytes() by {
        assert(middle.contents[i] == disk.contents[i]);
    }
}

proof fn lemma_without_directory(disk: DiskModel, index: int)
    requires
        disk.is_recoverable(),
        disk.journal.state == JournalState::Prepared,
        0 <= index < disk.directories.len(),
    ensures
        (DiskModel {
            directories: disk.directories.update(index, FoundDirectory::Missing),
            ..disk
        }).is_recoverable(),
{
    let after = DiskModel {
        directories: disk.directories.update(index, FoundDirectory::Missing),
        ..disk
    };
    assert forall|i: int| 0 <= i < after.temporaries.len() implies temporary_fits(
        after.journal.entries[i],
        #[trigger] after.temporaries[i],
    ) by {
        assert(disk.temporaries[i] == after.temporaries[i]);
    }
    assert forall|i: int| 0 <= i < after.directories.len() implies directory_left(
        after.journal.state,
        after.journal.directories[i],
        #[trigger] after.directories[i],
    ) by {
        assert(directory_left(
            disk.journal.state,
            disk.journal.directories[i],
            disk.directories[i],
        ));
    }
    assert forall|i: int| 0 <= i < after.contents.len() implies #[trigger] after.contents[i]
        == after.journal.entries[i].replacement_bytes() || after.journal.state
        == JournalState::Prepared && after.contents[i]
        == after.journal.entries[i].original_bytes() by {
        assert(disk.contents[i] == after.contents[i]);
    }
}

} // verus!
