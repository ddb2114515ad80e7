//! What is on disk while a transaction is applied, and why an interruption does no harm.

use vstd::prelude::*;
use vstd::string::*;

use crate::applicator::{directory_point, is_fresh, is_planned, ApplyEvent, ApplyModel, ApplyPoint};
use crate::journal::{bytes_view, decoded};
use crate::recovery::{
    commit_failure, contents_view, directory_recovery_failure, has_identity, temporary_failure,
    FoundDirectory,
};
use crate::transaction::{
    sealed_journal, DirectoryModel, DirectoryState, EntryModel, FileIdentity, JournalModel,
    JournalState, Observation, OperationModel, TemporaryState,
};

verus! {

/// What is on disk of a transaction.
pub struct DiskModel {
    /// The journal.
    pub journal: JournalModel,
    /// What stands at the paths of the directories.
    pub directories: Seq<FoundDirectory>,
    /// The temporary files of the entries.
    pub temporaries: Seq<Option<(Seq<u8>, FileIdentity)>>,
    /// The contents of the files of the entries.
    pub contents: Seq<Option<Seq<u8>>>,
}

/// Whether what stands at the path of a directory is what its record allows.
pub open spec fn directory_fits(directory: DirectoryModel, found: FoundDirectory) -> bool {
    match directory.state {
        DirectoryState::Planned => found is Missing,
        DirectoryState::Creating => !(found is Other),
        DirectoryState::Created => found matches FoundDirectory::Directory(identity)
            && has_identity(directory, identity),
    }
}

/// Whether what stands at the path of a directory is what recovery allows: before the commit a
/// directory may be missing.
pub open spec fn directory_left(
    state: JournalState,
    directory: DirectoryModel,
    found: FoundDirectory,
) -> bool {
    found is Missing && state == JournalState::Prepared || !(found is Missing) && directory_fits(
        directory,
        found,
    )
}

/// Whether a temporary file is what its entry allows.
pub open spec fn temporary_fits(
    entry: EntryModel,
    temporary: Option<(Seq<u8>, FileIdentity)>,
) -> bool {
    match temporary {
        None => true,
        Some((bytes, identity)) => match entry.temporary {
            TemporaryState::Absent => false,
            TemporaryState::Creating => bytes.len() == 0,
            TemporaryState::Created => entry.identity == Some(identity),
        },
    }
}

impl DiskModel {
    /// Whether the temporary files are what the journal allows.
    pub open spec fn temporaries_fit(self) -> bool {
        &&& self.journal.is_valid()
        &&& self.directories.len() == self.journal.directories.len()
        &&& self.temporaries.len() == self.journal.entries.len()
        &&& self.contents.len() == self.journal.entries.len()
        &&& forall|i: int|
            0 <= i < self.temporaries.len() ==> temporary_fits(
                self.journal.entries[i],
                #[trigger] self.temporaries[i],
            )
    }

    /// Whether the directories and temporary files are what the journal allows.
    pub open spec fn fits(self) -> bool {
        &&& self.temporaries_fit()
        &&& forall|i: int|
            0 <= i < self.directories.len() ==> directory_fits(
                self.journal.directories[i],
                #[trigger] self.directories[i],
            )
    }

    /// Whether an interruption may leave the disk like this: each file holds its original or its
    /// replacement, and its replacement once the journal is committed.
    pub open spec fn is_recoverable(self) -> bool {
        &&& self.temporaries_fit()
        &&& forall|i: int|
            0 <= i < self.directories.len() ==> directory_left(
                self.journal.state,
                self.journal.directories[i],
                #[trigger] self.directories[i],
            )
        &&& forall|i: int|
            0 <= i < self.contents.len() ==> #[trigger] self.contents[i]
                == self.journal.entries[i].replacement_bytes() || self.journal.state
                == JournalState::Prepared && self.contents[i]
                == self.journal.entries[i].original_bytes()
    }

    /// Recovery refuses nothing that an interruption may leave.
    pub proof fn lemma_recovery_is_accepted(self)
        requires
            self.is_recoverable(),
        ensures
            self.journal.recovery_failure(self.contents, self.journal.entries.len() as int) is None,
            forall|i: int, display: Seq<char>|
                0 <= i < self.directories.len() ==> #[trigger] directory_recovery_failure(
                    self.journal.state,
                    self.journal.directories[i],
                    display,
                    self.directories[i],
                ) is None,
            forall|i: int, display: Seq<char>|
                0 <= i < self.temporaries.len() && self.temporaries[i] is Some ==> (
                #[trigger] temporary_failure(
                    self.journal.entries[i],
                    display,
                    self.temporaries[i]->Some_0.0,
                    self.temporaries[i]->Some_0.1,
                )) is None,
    {
        let journal = self.journal;
        let total = journal.entries.len() as int;
        journal.lemma_entries_decode();
        assert forall|i: int| 0 <= i < total implies (
        #[trigger] journal.entries[i]).recovery_failure(journal.state, self.contents[i]) is None by {
            assert(self.contents[i] == self.contents[i]);
            assert(decoded(journal.entries[i].original) is Ok);
        }
        journal.lemma_recovery_accepts(self.contents, total);
        assert forall|i: int, display: Seq<char>|
            0 <= i < self.directories.len() implies #[trigger] directory_recovery_failure(
            journal.state,
            journal.directories[i],
            display,
            self.directories[i],
        ) is None by {
            assert(directory_left(journal.state, journal.directories[i], self.directories[i]));
        }
        assert forall|i: int, display: Seq<char>|
            0 <= i < self.temporaries.len() && self.temporaries[i] is Some implies (
        #[trigger] temporary_failure(
            journal.entries[i],
            display,
            self.temporaries[i]->Some_0.0,
            self.temporaries[i]->Some_0.1,
        )) is None by {
            assert(temporary_fits(journal.entries[i], self.temporaries[i]));
        }
    }
}

impl ApplyModel {
    /// How many files hold their replacement before the action that is asked for.
    pub open spec fn reached(self) -> int {
        match self.point {
            ApplyPoint::Entry { index } => index as int,
            ApplyPoint::TemporaryIntent { index } => index as int,
            ApplyPoint::TemporaryMade { index } => index as int,
            ApplyPoint::TemporaryRecord { index } => index as int,
            ApplyPoint::Change { index } => index as int,
            ApplyPoint::EntryRecord { index } => index + 1,
            ApplyPoint::Contents => self.journal.entries.len() as int,
            ApplyPoint::Commit => self.journal.entries.len() as int,
            ApplyPoint::Finish => self.journal.entries.len() as int,
            _ => 0,
        }
    }

    /// Whether the journal on disk is the one before the action that is asked for.
    pub open spec fn follows(self, written: JournalModel) -> bool {
        match self.point {
            ApplyPoint::DirectoryIntent { index } => written == self.journal.with_directory(
                index as int,
                DirectoryState::Planned,
                None,
            ),
            ApplyPoint::DirectoryRecord { index } => written == self.journal.with_directory(
                index as int,
                DirectoryState::Creating,
                None,
            ),
            ApplyPoint::TemporaryIntent { index } => written == self.journal.with_entry(
                index as int,
                TemporaryState::Absent,
                None,
                false,
            ),
            ApplyPoint::TemporaryRecord { index } => written == self.journal.with_entry(
                index as int,
                TemporaryState::Creating,
                None,
                false,
            ),
            ApplyPoint::EntryRecord { index } => written == self.journal.with_entry(
                index as int,
                written.entries[index as int].temporary,
                written.entries[index as int].identity,
                false,
            ),
            ApplyPoint::Commit => written.state == JournalState::Prepared && written.committed()
                == self.journal,
            _ => written == self.journal,
        }
    }

    /// Whether the disk is as the application left it before the action that is asked for.
    pub open spec fn tracks(self, disk: DiskModel) -> bool {
        &&& self.is_sound()
        &&& self.follows(disk.journal)
        &&& disk.fits()
        &&& forall|i: int|
            0 <= i < disk.contents.len() ==> #[trigger] disk.contents[i]
                == self.journal.interrupted(self.reached(), i)
        &&& match self.point {
            ApplyPoint::DirectoryRecord { index } => directory_fits(
                self.journal.directories[index as int],
                disk.directories[index as int],
            ),
            ApplyPoint::TemporaryRecord { index } => temporary_fits(
                self.journal.entries[index as int],
                disk.temporaries[index as int],
            ),
            ApplyPoint::EntryRecord { index } => disk.temporaries[index as int] is None,
            _ => true,
        }
    }

    /// The disk once the action that is asked for was done with this event.
    pub open spec fn done(self, disk: DiskModel, event: ApplyEvent) -> DiskModel {
        match self.point {
            ApplyPoint::DirectoryMade { index } => DiskModel {
                directories: disk.directories.update(
                    index as int,
                    FoundDirectory::Directory(event->Identity_0),
                ),
                ..disk
            },
            ApplyPoint::TemporaryMade { index } => DiskModel {
                temporaries: disk.temporaries.update(
                    index as int,
                    Some((Seq::empty(), event->Identity_0)),
                ),
                ..disk
            },
            ApplyPoint::Change { index } => DiskModel {
                temporaries: disk.temporaries.update(index as int, None),
                contents: disk.contents.update(
                    index as int,
                    self.journal.entries[index as int].replacement_bytes(),
                ),
                ..disk
            },
            _ => DiskModel { journal: self.journal, ..disk },
        }
    }

    /// Whether the event says what is on disk.
    pub open spec fn reports(self, disk: DiskModel, event: ApplyEvent) -> bool {
        match (self.point, event) {
            (ApplyPoint::Directory { index }, ApplyEvent::Directory { found, .. }) => found
                == disk.directories[index as int],
            (ApplyPoint::Entry { index }, ApplyEvent::Entry { temporary, current, .. }) => {
                &&& temporary is Some <==> disk.temporaries[index as int] is Some
                &&& bytes_view(current) == disk.contents[index as int]
            },
            (ApplyPoint::Contents, ApplyEvent::Contents(list)) => contents_view(list@)
                == disk.contents,
            _ => true,
        }
    }

    /// Whether an interruption of the action that is asked for may leave `during` of `disk`: the
    /// action was not begun, or it was done, or a temporary file was written in part.
    pub open spec fn interrupted_at(self, disk: DiskModel, during: DiskModel) -> bool {
        ||| during == disk
        ||| exists|event: ApplyEvent|
            self.awaits(event) && during == #[trigger] self.done(disk, event)
        ||| exists|bytes: Seq<u8>| during == #[trigger] self.part_written(disk, bytes)
    }

    /// The disk with a temporary file written in part, where one is being written.
    pub open spec fn part_written(self, disk: DiskModel, bytes: Seq<u8>) -> DiskModel {
        match self.point {
            ApplyPoint::Change { index } => match self.journal.entries[index as int].identity {
                Some(identity) => DiskModel {
                    temporaries: disk.temporaries.update(index as int, Some((bytes, identity))),
                    ..disk
                },
                None => disk,
            },
            _ => disk,
        }
    }

    proof fn lemma_tracked_is_recoverable(self, disk: DiskModel)
        requires
            self.tracks(disk),
        ensures
            disk.is_recoverable(),
    {
        assert forall|i: int| 0 <= i < disk.contents.len() implies #[trigger] disk.contents[i]
            == disk.journal.entries[i].replacement_bytes() || disk.journal.state
            == JournalState::Prepared && disk.contents[i]
            == disk.journal.entries[i].original_bytes() by {
            assert(disk.contents[i] == self.journal.interrupted(self.reached(), i));
            assert(disk.journal.entries[i].replacement == self.journal.entries[i].replacement);
            assert(disk.journal.entries[i].original == self.journal.entries[i].original);
        }
        assert forall|i: int| 0 <= i < disk.directories.len() implies directory_left(
            disk.journal.state,
            disk.journal.directories[i],
            #[trigger] disk.directories[i],
        ) by {
            assert(directory_fits(disk.journal.directories[i], disk.directories[i]));
        }
    }

    /// A journal that was sealed is untouched, so its application can begin.
    pub proof fn lemma_sealed_is_untouched(
        plan_id: Seq<char>,
        operations: Seq<OperationModel>,
        observations: Seq<Observation>,
    )
        ensures
            sealed_journal(plan_id, operations, observations).is_untouched(),
    {
    }

    /// The disk tracks an application that begins: nothing was done yet.
    pub proof fn lemma_application_begins(journal: JournalModel, disk: DiskModel)
        requires
            journal.is_valid(),
            journal.is_untouched(),
            journal.directories.len() <= usize::MAX,
            journal.entries.len() <= usize::MAX,
            disk.journal == journal,
            disk.directories.len() == journal.directories.len(),
            disk.temporaries.len() == journal.entries.len(),
            disk.contents.len() == journal.entries.len(),
            forall|i: int|
                0 <= i < disk.directories.len() ==> (#[trigger] disk.directories[i]) is Missing,
            forall|i: int|
                0 <= i < disk.temporaries.len() ==> (#[trigger] disk.temporaries[i]) is None,
            forall|i: int|
                0 <= i < disk.contents.len() ==> #[trigger] disk.contents[i]
                    == journal.entries[i].original_bytes(),
        ensures
            (ApplyModel { journal, point: directory_point(journal, 0) }).tracks(disk),
    {
        if journal.directories.len() > 0 {
            assert(is_planned(journal.directories[0]));
        }
        if journal.entries.len() > 0 {
            assert(is_fresh(journal.entries[0]));
        }
        assert forall|i: int| 0 <= i < disk.directories.len() implies directory_fits(
            journal.directories[i],
            #[trigger] disk.directories[i],
        ) by {
            assert(is_planned(journal.directories[i]));
        }
    }

    /// Where the disk tracks an application and the event says what is there, the application does
    /// not fail. The disk tracks what it goes on to; once it is finished, every file holds its
    /// replacement.
    pub proof fn lemma_application_goes_on(self, disk: DiskModel, event: ApplyEvent)
        requires
            self.tracks(disk),
            self.awaits(event),
            self.reports(disk, event),
        ensures
            match self.next(event) {
                Ok(Some(next)) => next.tracks(self.done(disk, event)),
                Ok(None) => forall|i: int|
                    0 <= i < disk.contents.len() ==> #[trigger] disk.contents[i]
                        == self.journal.entries[i].replacement_bytes(),
                Err(_) => false,
            },
    {
        self.lemma_next_is_sound(event);
        match self.point {
            ApplyPoint::Directory { index } => {
                self.lemma_directory_step(disk, event, index as int);
            },
            ApplyPoint::DirectoryIntent { index } => {
                self.lemma_directory_step(disk, event, index as int);
            },
            ApplyPoint::DirectoryMade { index } => {
                self.lemma_directory_step(disk, event, index as int);
            },
            ApplyPoint::DirectoryRecord { index } => {
                self.lemma_directory_step(disk, event, index as int);
            },
            ApplyPoint::DirectorySync { index } => {
                self.lemma_directory_step(disk, event, index as int);
            },
            ApplyPoint::Contents => {
                self.lemma_contents_step(disk, event);
            },
            ApplyPoint::Commit => {
                self.lemma_contents_step(disk, event);
            },
            ApplyPoint::Finish => {
                self.lemma_contents_step(disk, event);
            },
            ApplyPoint::Entry { index } => {
                self.lemma_entry_step(disk, event, index as int);
            },
            ApplyPoint::TemporaryIntent { index } => {
                self.lemma_entry_step(disk, event, index as int);
            },
            ApplyPoint::TemporaryMade { index } => {
                self.lemma_entry_step(disk, event, index as int);
            },
            ApplyPoint::TemporaryRecord { index } => {
                self.lemma_entry_step(disk, event, index as int);
            },
            ApplyPoint::Change { index } => {
                self.lemma_entry_step(disk, event, index as int);
            },
            ApplyPoint::EntryRecord { index } => {
                self.lemma_entry_step(disk, event, index as int);
            },
        }
    }

    /// Whether the application stands at the directory at `index`.
    spec fn is_at_directory(self, index: int) -> bool {
        match self.point {
            ApplyPoint::Directory { index: at } => at == index,
            ApplyPoint::DirectoryIntent { index: at } => at == index,
            ApplyPoint::DirectoryMade { index: at } => at == index,
            ApplyPoint::DirectoryRecord { index: at } => at == index,
            ApplyPoint::DirectorySync { index: at } => at == index,
            _ => false,
        }
    }

    /// Whether the application stands at the entry at `index`.
    spec fn is_at_entry(self, index: int) -> bool {
        match self.point {
            ApplyPoint::Entry { index: at } => at == index,
            ApplyPoint::TemporaryIntent { index: at } => at == index,
            ApplyPoint::TemporaryMade { index: at } => at == index,
            ApplyPoint::TemporaryRecord { index: at } => at == index,
            ApplyPoint::Change { index: at } => at == index,
            ApplyPoint::EntryRecord { index: at } => at == index,
            _ => false,
        }
    }

    proof fn lemma_directory_step(self, disk: DiskModel, event: ApplyEvent, index: int)
        requires
            self.tracks(disk),
            self.awaits(event),
            self.reports(disk, event),
            self.is_at_directory(index),
        ensures
            self.next(event) matches Ok(Some(next)) && next.tracks(self.done(disk, event)),
    {
        self.lemma_next_is_sound(event);
        let after = self.done(disk, event);
        assert(directory_fits(disk.journal.directories[index], disk.directories[index]));
        let next = self.next(event)->Ok_0->Some_0;
        assert(self.journal.entries =~= disk.journal.entries);
        assert(next.journal.entries =~= self.journal.entries);
        assert(next.follows(after.journal)) by {
            crate::transaction::lemma_no_directories_failure(
                self.journal.directories,
                self.journal.directories.len() as int,
            );
            assert(crate::transaction::directory_failure(self.journal.directories, index) is None);
            if self.point is Directory || self.point is DirectoryMade {
                lemma_directory_back(
                    self.journal,
                    index,
                    next.journal.directories[index].state,
                    if self.point is DirectoryMade {
                        Some(event->Identity_0)
                    } else {
                        None
                    },
                );
            }
        }
        assert forall|i: int| 0 <= i < after.directories.len() implies directory_fits(
            after.journal.directories[i],
            #[trigger] after.directories[i],
        ) by {
            assert(directory_fits(disk.journal.directories[i], disk.directories[i]));
            if i != index {
                assert(after.directories[i] == disk.directories[i]);
                assert(after.journal.directories[i] == disk.journal.directories[i]);
            }
        }
        assert forall|i: int| 0 <= i < after.temporaries.len() implies temporary_fits(
            after.journal.entries[i],
            #[trigger] after.temporaries[i],
        ) by {
            assert(temporary_fits(disk.journal.entries[i], disk.temporaries[i]));
        }
        assert(after.fits());
        assert forall|i: int| 0 <= i < after.contents.len() implies #[trigger] after.contents[i]
            == next.journal.interrupted(next.reached(), i) by {
            assert(disk.contents[i] == self.journal.interrupted(self.reached(), i));
        }
    }

    proof fn lemma_contents_step(self, disk: DiskModel, event: ApplyEvent)
        requires
            self.tracks(disk),
            self.awaits(event),
            self.reports(disk, event),
            self.point is Contents || self.point is Commit || self.point is Finish,
        ensures
            match self.next(event) {
                Ok(Some(next)) => next.tracks(self.done(disk, event)),
                Ok(None) => forall|i: int|
                    0 <= i < disk.contents.len() ==> #[trigger] disk.contents[i]
                        == self.journal.entries[i].replacement_bytes(),
                Err(_) => false,
            },
    {
        self.lemma_next_is_sound(event);
        let after = self.done(disk, event);
        assert(disk.journal.entries == self.journal.entries);
        assert(disk.journal.directories == self.journal.directories);
        assert forall|i: int| 0 <= i < disk.contents.len() implies #[trigger] disk.contents[i]
            == self.journal.entries[i].replacement_bytes() by {
            assert(disk.contents[i] == self.journal.interrupted(self.reached(), i));
        }
        if self.point is Contents {
            self.journal.lemma_entries_decode();
            lemma_nothing_keeps_from_commit(
                self.journal,
                disk.contents,
                self.journal.entries.len() as int,
            );
        }
        assert forall|i: int| 0 <= i < after.directories.len() implies directory_fits(
            after.journal.directories[i],
            #[trigger] after.directories[i],
        ) by {
            assert(directory_fits(disk.journal.directories[i], disk.directories[i]));
        }
        assert forall|i: int| 0 <= i < after.temporaries.len() implies temporary_fits(
            after.journal.entries[i],
            #[trigger] after.temporaries[i],
        ) by {
            assert(temporary_fits(disk.journal.entries[i], disk.temporaries[i]));
        }
    }

    proof fn lemma_entry_step(self, disk: DiskModel, event: ApplyEvent, index: int)
        requires
            self.tracks(disk),
            self.awaits(event),
            self.reports(disk, event),
            self.is_at_entry(index),
        ensures
            self.next(event) matches Ok(Some(next)) && next.tracks(self.done(disk, event)),
    {
        self.lemma_next_is_sound(event);
        let after = self.done(disk, event);
        self.journal.lemma_forms(index);
        self.journal.lemma_entries_decode();
        assert(temporary_fits(disk.journal.entries[index], disk.temporaries[index]));
        assert(disk.contents[index] == self.journal.interrupted(self.reached(), index));
        assert(decoded(self.journal.entries[index].original) is Ok);
        let next = self.next(event)->Ok_0->Some_0;
        assert(self.journal.directories =~= disk.journal.directories);
        assert(next.journal.directories =~= self.journal.directories);
        assert(next.follows(after.journal)) by {
            if self.point is Entry || self.point is TemporaryMade || self.point is Change {
                lemma_entry_back(
                    self.journal,
                    index,
                    next.journal.entries[index].temporary,
                    next.journal.entries[index].identity,
                    next.journal.entries[index].applied,
                );
            }
        }
        assert forall|i: int| 0 <= i < after.directories.len() implies directory_fits(
            after.journal.directories[i],
            #[trigger] after.directories[i],
        ) by {
            assert(directory_fits(disk.journal.directories[i], disk.directories[i]));
        }
        assert forall|i: int| 0 <= i < after.temporaries.len() implies temporary_fits(
            after.journal.entries[i],
            #[trigger] after.temporaries[i],
        ) by {
            assert(temporary_fits(disk.journal.entries[i], disk.temporaries[i]));
            if i != index {
                assert(after.temporaries[i] == disk.temporaries[i]);
                assert(after.journal.entries[i] == disk.journal.entries[i]);
            }
        }
        assert(after.fits());
        assert forall|i: int| 0 <= i < after.contents.len() implies #[trigger] after.contents[i]
            == next.journal.interrupted(next.reached(), i) by {
            assert(disk.contents[i] == self.journal.interrupted(self.reached(), i));
            assert(next.journal.entries[i].original == self.journal.entries[i].original);
            assert(next.journal.entries[i].replacement == self.journal.entries[i].replacement);
        }
    }

    /// Whatever an interruption of an application leaves can be recovered.
    pub proof fn lemma_interruption_is_recoverable(self, disk: DiskModel, during: DiskModel)
        requires
            self.tracks(disk),
            self.interrupted_at(disk, during),
        ensures
            during.is_recoverable(),
    {
        self.lemma_tracked_is_recoverable(disk);
        if during != disk {
            if exists|event: ApplyEvent|
                self.awaits(event) && during == #[trigger] self.done(disk, event) {
                let event = choose|event: ApplyEvent|
                    self.awaits(event) && during == #[trigger] self.done(disk, event);
                if self.reports(disk, event) {
                    self.lemma_application_goes_on(disk, event);
                    if let Ok(Some(next)) = self.next(event) {
                        next.lemma_tracked_is_recoverable(during);
                    }
                }
            } else {
                let bytes = choose|bytes: Seq<u8>|
                    during == #[trigger] self.part_written(disk, bytes);
                if let ApplyPoint::Change { index } = self.point {
                    self.journal.lemma_forms(index as int);
                    assert forall|i: int| 0 <= i < during.temporaries.len() implies temporary_fits(
                        during.journal.entries[i],
                        #[trigger] during.temporaries[i],
                    ) by {
                        assert(temporary_fits(disk.journal.entries[i], disk.temporaries[i]));
                    }
                    assert forall|i: int| 0 <= i < during.directories.len() implies directory_left(
                        during.journal.state,
                        during.journal.directories[i],
                        #[trigger] during.directories[i],
                    ) by {
                        assert(disk.directories[i] == during.directories[i]);
                    }
                    assert forall|i: int|
                        0 <= i < during.contents.len() implies #[trigger] during.contents[i]
                        == during.journal.entries[i].replacement_bytes() || during.journal.state
                        == JournalState::Prepared && during.contents[i]
                        == during.journal.entries[i].original_bytes() by {
                        assert(disk.contents[i] == during.contents[i]);
                    }
                }
            }
        }
    }
}

proof fn lemma_directory_back(
    journal: JournalModel,
    index: int,
    state: DirectoryState,
    identity: Option<FileIdentity>,
)
    requires
        0 <= index < journal.directories.len(),
        journal.directories[index].device is None,
        journal.directories[index].inode is None,
    ensures
        journal.with_directory(index, state, identity).with_directory(
            index,
            journal.directories[index].state,
            None,
        ) == journal,
{
    assert(journal.with_directory(index, state, identity).with_directory(
        index,
        journal.directories[index].state,
        None,
    ).directories =~= journal.directories);
}

/// Changing the progress of an entry back gives the journal back.
pub proof fn lemma_entry_back(
    journal: JournalModel,
    index: int,
    temporary: TemporaryState,
    identity: Option<FileIdentity>,
    applied: bool,
)
    requires
        0 <= index < journal.entries.len(),
    ensures
        journal.with_entry(index, temporary, identity, applied).with_entry(
            index,
            journal.entries[index].temporary,
            journal.entries[index].identity,
            journal.entries[index].applied,
        ) == journal,
{
    assert(journal.with_entry(index, temporary, identity, applied).with_entry(
        index,
        journal.entries[index].temporary,
        journal.entries[index].identity,
        journal.entries[index].applied,
    ).entries =~= journal.entries);
}

proof fn lemma_nothing_keeps_from_commit(
    journal: JournalModel,
    contents: Seq<Option<Seq<u8>>>,
    count: int,
)
    requires
        0 <= count <= journal.entries.len(),
        contents.len() == journal.entries.len(),
        forall|i: int|
            0 <= i < journal.entries.len() ==> decoded(
                (#[trigger] journal.entries[i]).replacement,
            ) is Ok,
        forall|i: int|
            0 <= i < contents.len() ==> #[trigger] contents[i]
                == journal.entries[i].replacement_bytes(),
    ensures
        commit_failure(journal.entries, contents, count) is None,
    decreases count,
{
    if count > 0 {
        lemma_nothing_keeps_from_commit(journal, contents, count - 1);
        assert(decoded(journal.entries[count - 1].replacement) is Ok);
        assert(contents[count - 1] == journal.entries[count - 1].replacement_bytes());
    }
}

} // verus!
