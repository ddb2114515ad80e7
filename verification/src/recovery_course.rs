//! Whole recoveries: how they end, and what they leave.

use vstd::prelude::*;
use vstd::string::*;

use crate::applicator::ApplyModel;
use crate::applicator_laws::{directory_left, DiskModel};
use crate::journal::{decoded, hash_of, JournalFailure};
use crate::recovery::directory_recovery_failure;
use crate::restorer::{
    inspection_point, recovery_start, removal_point, temporary_point, unwind_point, RestoreEvent,
    RestoreModel, RestorePoint,
};
use crate::transaction::{JournalModel, JournalState};

verus! {

/// What a recovery has come to.
pub enum RecoveryCourse {
    /// It goes on.
    Going {
        /// The recovery.
        run: RestoreModel,
        /// What is on disk.
        disk: DiskModel,
    },
    /// It is finished, and the journal was removed.
    Finished {
        /// The journal as it was when it was removed.
        journal: JournalModel,
        /// What is on disk beside the journal.
        disk: DiskModel,
    },
    /// It was refused.
    Refused {
        /// Why.
        failure: JournalFailure,
        /// What is on disk.
        disk: DiskModel,
    },
}

impl RecoveryCourse {
    /// The journal that is on disk.
    pub open spec fn journal_left(self) -> Option<JournalModel> {
        match self {
            RecoveryCourse::Going { disk, .. } => Some(disk.journal),
            RecoveryCourse::Finished { .. } => None,
            RecoveryCourse::Refused { disk, .. } => Some(disk.journal),
        }
    }

    /// What the recovery comes to with one more event.
    pub open spec fn followed(self, event: RestoreEvent) -> RecoveryCourse {
        match self {
            RecoveryCourse::Going { run, disk } => match run.next(event) {
                Ok(Some(next)) => RecoveryCourse::Going { run: next, disk: run.done(disk, event) },
                Ok(None) => RecoveryCourse::Finished { journal: run.journal, disk },
                Err(failure) => RecoveryCourse::Refused { failure, disk },
            },
            _ => self,
        }
    }

    /// Whether the event is awaited, where the recovery goes on, and says what is on disk.
    pub open spec fn trusts(self, event: RestoreEvent) -> bool {
        self matches RecoveryCourse::Going { run, disk } ==> run.awaits(event) && run.reports(
            disk,
            event,
        )
    }
}

/// The recovery that begins with the journal on disk.
pub open spec fn beginning(disk: DiskModel) -> RestoreModel {
    RestoreModel { journal: disk.journal, point: inspection_point(disk.journal, 0) }
}

/// What a recovery of `disk` has come to after the first `count` events.
pub open spec fn course(disk: DiskModel, events: Seq<RestoreEvent>, count: int) -> RecoveryCourse
    decreases count,
{
    if count <= 0 {
        RecoveryCourse::Going { run: beginning(disk), disk }
    } else {
        course(disk, events, count - 1).followed(events[count - 1])
    }
}

/// Whether the events of a recovery of `disk` say what is on disk.
pub open spec fn is_truthful(disk: DiskModel, events: Seq<RestoreEvent>) -> bool {
    forall|i: int|
        0 <= i < events.len() ==> (#[trigger] course(disk, events, i)).trusts(events[i])
}

// The end.
impl RestoreModel {
    /// A bound on the events that are still to come.
    pub open spec fn events_left(self) -> int {
        let directories = self.journal.directories.len() as int;
        let entries = self.journal.entries.len() as int;
        let unwinding = 2 * directories + 2;
        let clearing = unwinding + 8 * entries;
        let looking = clearing + 3 * entries + 1;
        match self.point {
            RestorePoint::Directory { index } => looking + directories - index,
            RestorePoint::Contents => looking,
            RestorePoint::Temporary { index } => clearing + 3 * (entries - index),
            RestorePoint::TemporaryRemoved { index } => clearing + 3 * (entries - index) - 1,
            RestorePoint::TemporaryRecord { index } => clearing + 3 * (entries - index) - 2,
            RestorePoint::Entry { index } => unwinding + 8 * index + 7,
            RestorePoint::RestoreIntent { index } => unwinding + 8 * index + 6,
            RestorePoint::RestoreMade { index } => unwinding + 8 * index + 5,
            RestorePoint::RestoreRecord { index } => unwinding + 8 * index + 4,
            RestorePoint::Restore { index } => unwinding + 8 * index + 3,
            RestorePoint::RestoreClear { index } => unwinding + 8 * index + 2,
            RestorePoint::Unapplied { index } => unwinding + 8 * index + 1,
            RestorePoint::DirectoryRemoval { index } => 2 * index + 3,
            RestorePoint::DirectoryRemoved { index } => 2 * index + 2,
            RestorePoint::Finish => 1,
        }
    }

    proof fn lemma_removal_left(self, count: int)
        requires
            0 <= count <= self.journal.directories.len() <= usize::MAX,
        ensures
            self.moved(removal_point(self.journal, count)).events_left() <= 2 * count + 1,
        decreases count,
    {
        if count > 0 {
            self.lemma_removal_left(count - 1);
        }
    }

    proof fn lemma_unwind_left(self, count: int)
        requires
            self.journal.directories.len() <= usize::MAX,
            0 <= count <= self.journal.entries.len() <= usize::MAX,
        ensures
            self.moved(unwind_point(self.journal, count)).events_left() < 2
                * self.journal.directories.len() + 2 + 8 * count,
    {
        self.lemma_removal_left(self.journal.directories.len() as int);
    }

    proof fn lemma_temporary_left(self, index: int)
        requires
            self.journal.directories.len() <= usize::MAX,
            0 <= index <= self.journal.entries.len() <= usize::MAX,
        ensures
            self.moved(temporary_point(self.journal, index)).events_left() <= 2
                * self.journal.directories.len() + 2 + 8 * self.journal.entries.len() + 3 * (
            self.journal.entries.len() - index),
    {
        self.lemma_unwind_left(self.journal.entries.len() as int);
    }

    proof fn lemma_unapplied_left(self, index: usize)
        requires
            self.is_sound(),
            index < self.journal.entries.len(),
        ensures
            self.unapplied(index).events_left() < 2 * self.journal.directories.len() + 2 + 8 * index
                + 2,
    {
        self.lemma_unwind_left(index as int);
    }

    proof fn lemma_cleared_left(self, index: usize)
        requires
            self.is_sound(),
            index < self.journal.entries.len(),
        ensures
            self.cleared(index).events_left() <= 2 * self.journal.directories.len() + 2 + 8
                * self.journal.entries.len() + 3 * (self.journal.entries.len() - index) - 2,
    {
        self.lemma_temporary_left(index + 1);
    }

    /// Every event that does not end a recovery brings it nearer to its end, and changes neither
    /// the state of the journal nor what was sealed.
    pub proof fn lemma_event_counts(self, event: RestoreEvent)
        requires
            self.is_sound(),
            self.awaits(event),
        ensures
            self.events_left() > 0,
            self.next(event) matches Ok(Some(next)) ==> {
                &&& next.events_left() < self.events_left()
                &&& next.journal.state == self.journal.state
                &&& next.journal.sealed() == self.journal.sealed()
            },
    {
        self.lemma_next_is_sound(event);
        match self.point {
            RestorePoint::Contents => {
                self.lemma_temporary_left(0);
            },
            RestorePoint::Temporary { index } => {
                self.lemma_cleared_left(index);
            },
            RestorePoint::TemporaryRemoved { index } => {
                self.lemma_cleared_left(index);
            },
            RestorePoint::TemporaryRecord { index } => {
                self.lemma_temporary_left(index + 1);
            },
            RestorePoint::Entry { index } => {
                self.lemma_unapplied_left(index);
            },
            RestorePoint::Restore { index } => {
                self.lemma_unapplied_left(index);
            },
            RestorePoint::RestoreClear { index } => {
                self.lemma_unapplied_left(index);
            },
            RestorePoint::Unapplied { index } => {
                self.lemma_unwind_left(index as int);
            },
            RestorePoint::DirectoryRemoval { index } => {
                self.lemma_removal_left(index as int);
            },
            RestorePoint::DirectoryRemoved { index } => {
                self.lemma_removal_left(index as int);
            },
            _ => {},
        }
    }
}

/// Whether the disk is as it was before the transaction: every file holds its original, and no
/// directory of the transaction is left.
pub open spec fn is_rolled_back(journal: JournalModel, disk: DiskModel) -> bool {
    &&& forall|i: int|
        0 <= i < journal.entries.len() ==> #[trigger] disk.contents[i]
            == journal.entries[i].original_bytes()
    &&& forall|i: int|
        0 <= i < journal.directories.len() ==> (#[trigger] disk.directories[i]) is Missing
}

/// Whether every file holds its replacement.
pub open spec fn is_finalized(journal: JournalModel, disk: DiskModel) -> bool {
    forall|i: int|
        0 <= i < journal.entries.len() ==> #[trigger] disk.contents[i]
            == journal.entries[i].replacement_bytes()
}

proof fn lemma_same_sealed(left: JournalModel, right: JournalModel)
    requires
        left.sealed() == right.sealed(),
    ensures
        left.entries.len() == right.entries.len(),
        left.directories.len() == right.directories.len(),
        left.plan_id == right.plan_id,
        forall|i: int|
            0 <= i < left.entries.len() ==> (#[trigger] left.entries[i]).original_bytes()
                == right.entries[i].original_bytes() && left.entries[i].replacement_bytes()
                == right.entries[i].replacement_bytes(),
{
    assert(left.sealed().entries.len() == left.entries.len());
    assert(right.sealed().entries.len() == right.entries.len());
    assert(left.sealed().directories.len() == left.directories.len());
    assert(right.sealed().directories.len() == right.directories.len());
    assert forall|i: int| 0 <= i < left.entries.len() implies (
    #[trigger] left.entries[i]).original_bytes() == right.entries[i].original_bytes()
        && left.entries[i].replacement_bytes() == right.entries[i].replacement_bytes() by {
        assert(left.sealed().entries[i] == left.entries[i].sealed());
        assert(right.sealed().entries[i] == right.entries[i].sealed());
    }
}

/// A recovery of anything that an interruption may leave is not refused, and comes to its end: the
/// events that it has taken and those that it may still take are bounded from the beginning. While
/// it goes on, the disk stays recoverable. Once it is finished no temporary file is left, and there
/// is one complete identity: all originals where the journal was prepared, all replacements where
/// it was committed. A recovery after that one finds nothing to do.
pub proof fn lemma_recovery_course(disk: DiskModel, events: Seq<RestoreEvent>, count: int)
    requires
        disk.is_recoverable(),
        disk.journal.directories.len() <= usize::MAX,
        disk.journal.entries.len() <= usize::MAX,
        is_truthful(disk, events),
        0 <= count <= events.len(),
    ensures
        match course(disk, events, count) {
            RecoveryCourse::Going { run, disk: now } => {
                &&& run.tracks(now)
                &&& now.is_recoverable()
                &&& 0 < run.events_left()
                &&& count + run.events_left() <= beginning(disk).events_left()
                &&& run.journal.state == disk.journal.state
                &&& run.journal.sealed() == disk.journal.sealed()
            },
            RecoveryCourse::Finished { journal, disk: now } => {
                &&& journal.state == disk.journal.state
                &&& journal.sealed() == disk.journal.sealed()
                &&& forall|i: int|
                    0 <= i < now.temporaries.len() ==> (#[trigger] now.temporaries[i]) is None
                &&& disk.journal.state == JournalState::Prepared ==> is_rolled_back(
                    disk.journal,
                    now,
                )
                &&& disk.journal.state == JournalState::Committed ==> is_finalized(
                    disk.journal,
                    now,
                )
                &&& recovery_start(course(disk, events, count).journal_left()) == Ok::<
                    Option<RestoreModel>,
                    JournalFailure,
                >(None)
            },
            RecoveryCourse::Refused { .. } => false,
        },
    decreases count,
{
    if count <= 0 {
        RestoreModel::lemma_recovery_begins(disk.journal, disk);
        let run = beginning(disk);
        assert(0 < run.events_left());
    } else {
        lemma_recovery_course(disk, events, count - 1);
        let before = course(disk, events, count - 1);
        let event = events[count - 1];
        assert(before.trusts(event));
        if let RecoveryCourse::Going { run, disk: now } = before {
            run.lemma_recovery_goes_on(now, event);
            run.lemma_event_counts(event);
            match run.next(event) {
                Ok(Some(next)) => {
                    let after = run.done(now, event);
                    assert(next.tracks(after));
                    assert(next.is_sound());
                    lemma_events_left(next);
                },
                _ => {
                    lemma_same_sealed(run.journal, disk.journal);
                    assert(now.contents.len() == run.journal.entries.len());
                    assert(now.directories.len() == run.journal.directories.len());
                    assert forall|i: int| 0 <= i < disk.journal.entries.len() implies (
                    #[trigger] run.journal.entries[i]).original_bytes()
                        == disk.journal.entries[i].original_bytes() by {}
                    if disk.journal.state == JournalState::Prepared {
                        assert forall|i: int| 0 <= i < disk.journal.entries.len() implies (
                        #[trigger] now.contents[i]) == disk.journal.entries[i].original_bytes() by {
                            assert(now.contents[i] == run.journal.entries[i].original_bytes());
                        }
                    } else {
                        assert forall|i: int| 0 <= i < disk.journal.entries.len() implies (
                        #[trigger] now.contents[i])
                            == disk.journal.entries[i].replacement_bytes() by {
                            assert(now.contents[i] == run.journal.entries[i].replacement_bytes());
                        }
                    }
                },
            }
        }
    }
}

proof fn lemma_events_left(run: RestoreModel)
    requires
        run.is_sound(),
    ensures
        run.events_left() > 0,
{
}

// What an interrupted application leaves.
/// An application that was interrupted wherever is recovered: every truthful recovery of what it
/// left goes on without being refused until it is finished, and then there are all originals or all
/// replacements, the journal is gone, and a recovery after it finds nothing to do.
pub proof fn lemma_interrupted_application_is_recovered(
    application: ApplyModel,
    disk: DiskModel,
    during: DiskModel,
    events: Seq<RestoreEvent>,
)
    requires
        application.tracks(disk),
        application.interrupted_at(disk, during),
        is_truthful(during, events),
        during.journal.directories.len() <= usize::MAX,
        during.journal.entries.len() <= usize::MAX,
    ensures
        match course(during, events, events.len() as int) {
            RecoveryCourse::Going { run, disk: now } => events.len() < beginning(
                during,
            ).events_left() && now.is_recoverable(),
            RecoveryCourse::Finished { journal, disk: now } => {
                &&& is_rolled_back(during.journal, now) || is_finalized(during.journal, now)
                &&& recovery_start(
                    course(during, events, events.len() as int).journal_left(),
                ) == Ok::<Option<RestoreModel>, JournalFailure>(None)
            },
            RecoveryCourse::Refused { .. } => false,
        },
{
    application.lemma_interruption_is_recoverable(disk, during);
    lemma_recovery_course(during, events, events.len() as int);
}

// What is refused.
/// Whether the file of the entry at `at` holds what recovery does not expect: neither its original
/// nor its replacement, or not its replacement once the journal is committed.
pub open spec fn is_unexpected(disk: DiskModel, at: int) -> bool {
    &&& disk.contents[at] != disk.journal.entries[at].replacement_bytes()
    &&& disk.journal.state == JournalState::Prepared ==> disk.contents[at]
        != disk.journal.entries[at].original_bytes()
}

/// The failure that the file of an entry holds unexpected contents.
pub open spec fn refuses_entry(failure: JournalFailure, disk: DiskModel, at: int) -> bool {
    failure matches JournalFailure::UnexpectedContents { path, actual, .. } && path
        == disk.journal.entries[at].path && actual == hash_of(disk.contents[at])
}

proof fn lemma_contents_refused(disk: DiskModel, count: int)
    requires
        disk.journal.is_valid(),
        disk.contents.len() == disk.journal.entries.len(),
        0 <= count <= disk.contents.len(),
    ensures
        match disk.journal.recovery_failure(disk.contents, count) {
            None => forall|i: int| 0 <= i < count ==> !#[trigger] is_unexpected(disk, i),
            Some(failure) => exists|i: int|
                0 <= i < count && #[trigger] is_unexpected(disk, i) && refuses_entry(
                    failure,
                    disk,
                    i,
                ),
        },
    decreases count,
{
    if count > 0 {
        lemma_contents_refused(disk, count - 1);
        disk.journal.lemma_entries_decode();
        let entry = disk.journal.entries[count - 1];
        assert(decoded(entry.original) is Ok);
        let before = disk.journal.recovery_failure(disk.contents, count - 1);
        if before is None {
            let failure = entry.recovery_failure(disk.journal.state, disk.contents[count - 1]);
            assert(failure is Some <==> is_unexpected(disk, count - 1));
            if failure is Some {
                assert(refuses_entry(failure->Some_0, disk, count - 1));
            }
        }
    }
}

/// Where the file of an entry holds unexpected contents and nothing is wrong with the directories,
/// a recovery looks at everything, changes nothing, and is then refused for such a file. The journal
/// is kept as it was.
pub proof fn lemma_unexpected_contents_are_refused(
    disk: DiskModel,
    events: Seq<RestoreEvent>,
    count: int,
)
    requires
        disk.journal.is_valid(),
        disk.directories.len() == disk.journal.directories.len() <= usize::MAX,
        disk.contents.len() == disk.journal.entries.len() <= usize::MAX,
        forall|i: int|
            0 <= i < disk.directories.len() ==> directory_left(
                disk.journal.state,
                disk.journal.directories[i],
                #[trigger] disk.directories[i],
            ),
        exists|i: int| 0 <= i < disk.contents.len() && #[trigger] is_unexpected(disk, i),
        is_truthful(disk, events),
        0 <= count <= events.len(),
    ensures
        course(disk, events, count).journal_left() == Some(disk.journal),
        match course(disk, events, count) {
            RecoveryCourse::Going { run, disk: now } => {
                &&& count <= disk.directories.len()
                &&& run == (RestoreModel {
                    journal: disk.journal,
                    point: inspection_point(disk.journal, count),
                })
                &&& now == disk
            },
            RecoveryCourse::Finished { .. } => false,
            RecoveryCourse::Refused { failure, disk: now } => {
                &&& count > disk.directories.len()
                &&& now == disk
                &&& exists|i: int|
                    0 <= i < disk.contents.len() && #[trigger] is_unexpected(disk, i)
                        && refuses_entry(failure, disk, i)
            },
        },
    decreases count,
{
    if count > 0 {
        lemma_unexpected_contents_are_refused(disk, events, count - 1);
        let before = course(disk, events, count - 1);
        let event = events[count - 1];
        assert(before.trusts(event));
        if let RecoveryCourse::Going { run, disk: now } = before {
            if count <= disk.directories.len() {
                let display = event->Directory_display@;
                assert(directory_left(
                    disk.journal.state,
                    disk.journal.directories[count - 1],
                    disk.directories[count - 1],
                ));
                assert(directory_recovery_failure(
                    disk.journal.state,
                    disk.journal.directories[count - 1],
                    display,
                    disk.directories[count - 1],
                ) is None);
                assert(run.done(now, event) == disk);
            } else {
                lemma_contents_refused(disk, disk.journal.entries.len() as int);
            }
        }
    }
}

} // verus!
