//! Transactions: sealing operations into a journal, and the journal's life until it is removed.

use vstd::prelude::*;
use vstd::string::*;

use crate::digest::{hex, sha256, sha256_hex};
use crate::findings::or_else;
use crate::journal::{
    bytes_view, clone_bytes, decode_optional, decoded, encoded_view, encoding_failure,
    hash_failure, hash_of, operation_path_failure, optional_hash_failure, outcome, plan_id_failure,
    sealed_form, validate_hash, validate_operation_path, validate_optional_hash, validate_plan_id,
    verify_expected_hash, ByteEncoding, EncodedBytes, JournalError, JournalFailure,
    CONTROL_DIRECTORY, JOURNAL_SCHEMA_VERSION, STATE_FILE_PATH,
};
use crate::ordered::{set_add, Sorted, TextSet};
use crate::paths::{
    parent_of, relative_path_defect, split_parent_name, validate_relative_path,
};
use crate::text::{
    clone_optional_text, decimal, decimal_text, holds_text, join3, join4, join5, join_texts,
    joined, optional_view, same_bytes, same_optional_text, same_text, split_on, split_text,
    starts_with, texts,
};

verus! {

/// Progress of the temporary file of an entry.
#[derive(Clone, Copy, Debug, PartialEq, Eq, Structural)]
pub enum TemporaryState {
    /// There is none.
    Absent,
    /// It is about to be created.
    Creating,
    /// It was created.
    Created,
}

/// Whether a journal's replacements are final.
#[derive(Clone, Copy, Debug, PartialEq, Eq, Structural)]
pub enum JournalState {
    /// Recovery restores the originals.
    Prepared,
    /// Recovery keeps the replacements.
    Committed,
}

/// Progress of a directory that a transaction creates.
#[derive(Clone, Copy, Debug, PartialEq, Eq, Structural)]
pub enum DirectoryState {
    /// It is to be created.
    Planned,
    /// It is about to be created.
    Creating,
    /// It was created.
    Created,
}

/// Identity of a file on its filesystem.
#[derive(Clone, Copy, Debug, PartialEq, Eq, Structural)]
pub struct FileIdentity {
    /// Device number.
    pub device: u64,
    /// Inode number.
    pub inode: u64,
}

/// A directory that a transaction creates.
#[derive(Debug, PartialEq, Eq)]
pub struct JournalDirectory {
    /// Project-relative path.
    pub path: String,
    /// Progress.
    pub state: DirectoryState,
    /// Device number, once created.
    pub device: Option<u64>,
    /// Inode number, once created.
    pub inode: Option<u64>,
}

/// A file that a transaction changes.
#[derive(Debug, PartialEq, Eq)]
pub struct JournalEntry {
    /// Project-relative path.
    pub path: String,
    /// Hash before, absent for a new file.
    pub expected_before_sha256: Option<String>,
    /// Hash after, absent for a deleted file.
    pub expected_after_sha256: Option<String>,
    /// Sealed original bytes.
    pub original: Option<EncodedBytes>,
    /// Sealed replacement bytes.
    pub replacement: Option<EncodedBytes>,
    /// Permission bits of the original.
    pub original_mode: Option<u32>,
    /// Progress of the temporary file.
    pub temporary_state: TemporaryState,
    /// Identity of the temporary file, once created.
    pub temporary_identity: Option<FileIdentity>,
    /// Whether the replacement stands.
    pub applied: bool,
}

/// A durable transaction journal.
#[derive(Debug, PartialEq, Eq)]
pub struct Journal {
    /// Version of the form.
    pub schema_version: u32,
    /// Identifier of the sealed plan.
    pub plan_id: String,
    /// Whether the replacements are final.
    pub state: JournalState,
    /// Directories that the transaction creates, parents first.
    pub created_directories: Vec<JournalDirectory>,
    /// Files that the transaction changes, in order.
    pub entries: Vec<JournalEntry>,
}

/// The value of a directory record.
pub struct DirectoryModel {
    /// Project-relative path.
    pub path: Seq<char>,
    /// Progress.
    pub state: DirectoryState,
    /// Device number, once created.
    pub device: Option<u64>,
    /// Inode number, once created.
    pub inode: Option<u64>,
}

/// The value of an entry.
pub struct EntryModel {
    /// Project-relative path.
    pub path: Seq<char>,
    /// Hash before, absent for a new file.
    pub before_hash: Option<Seq<char>>,
    /// Hash after, absent for a deleted file.
    pub after_hash: Option<Seq<char>>,
    /// Written form of the original bytes.
    pub original: Option<Seq<char>>,
    /// Written form of the replacement bytes.
    pub replacement: Option<Seq<char>>,
    /// Permission bits of the original.
    pub mode: Option<u32>,
    /// Progress of the temporary file.
    pub temporary: TemporaryState,
    /// Identity of the temporary file, once created.
    pub identity: Option<FileIdentity>,
    /// Whether the replacement stands.
    pub applied: bool,
}

/// The value of a journal.
pub struct JournalModel {
    /// Version of the form.
    pub schema_version: u32,
    /// Identifier of the sealed plan.
    pub plan_id: Seq<char>,
    /// Whether the replacements are final.
    pub state: JournalState,
    /// Directories that the transaction creates.
    pub directories: Seq<DirectoryModel>,
    /// Files that the transaction changes.
    pub entries: Seq<EntryModel>,
}

impl JournalDirectory {
    /// The value of this record.
    pub open spec fn view(&self) -> DirectoryModel {
        DirectoryModel {
            path: self.path@,
            state: self.state,
            device: self.device,
            inode: self.inode,
        }
    }
}

impl JournalEntry {
    /// The value of this entry.
    pub open spec fn view(&self) -> EntryModel {
        EntryModel {
            path: self.path@,
            before_hash: optional_view(self.expected_before_sha256),
            after_hash: optional_view(self.expected_after_sha256),
            original: encoded_view(self.original),
            replacement: encoded_view(self.replacement),
            mode: self.original_mode,
            temporary: self.temporary_state,
            identity: self.temporary_identity,
            applied: self.applied,
        }
    }
}

/// The values of directory records.
pub open spec fn directory_models(directories: Seq<JournalDirectory>) -> Seq<DirectoryModel> {
    directories.map_values(|directory: JournalDirectory| directory@)
}

/// The values of entries.
pub open spec fn entry_models(entries: Seq<JournalEntry>) -> Seq<EntryModel> {
    entries.map_values(|entry: JournalEntry| entry@)
}

impl DirectoryModel {
    /// The record as it was sealed.
    pub open spec fn sealed(self) -> DirectoryModel {
        DirectoryModel { path: self.path, state: DirectoryState::Planned, device: None, inode: None }
    }

    /// Whether an identity is recorded exactly once the directory was created.
    pub open spec fn identity_fits(self) -> bool {
        if self.state == DirectoryState::Created {
            self.device is Some && self.inode is Some
        } else {
            self.device is None && self.inode is None
        }
    }
}

impl EntryModel {
    /// The entry as it was sealed.
    pub open spec fn sealed(self) -> EntryModel {
        EntryModel {
            path: self.path,
            before_hash: self.before_hash,
            after_hash: self.after_hash,
            original: self.original,
            replacement: self.replacement,
            mode: self.mode,
            temporary: TemporaryState::Absent,
            identity: None,
            applied: false,
        }
    }

    /// The sealed original bytes.
    pub open spec fn original_bytes(self) -> Option<Seq<u8>> {
        decoded(self.original)->Ok_0
    }

    /// The sealed replacement bytes.
    pub open spec fn replacement_bytes(self) -> Option<Seq<u8>> {
        decoded(self.replacement)->Ok_0
    }

    /// Ordinary files come first, then the lockfile, then the lifecycle state.
    pub open spec fn phase(self) -> int {
        if self.path == "Cargo.lock"@ {
            1
        } else if self.path == STATE_FILE_PATH@ {
            2
        } else {
            0
        }
    }

    /// Whether an identity is recorded exactly once the temporary file was created.
    pub open spec fn identity_fits(self) -> bool {
        (self.temporary == TemporaryState::Created) == (self.identity is Some)
    }

    /// What is wrong with the entry by itself.
    pub open spec fn own_failure(self) -> Option<JournalFailure> {
        or_else(
            optional_hash_failure(self.before_hash, self.path, "before"@),
            or_else(
                optional_hash_failure(self.after_hash, self.path, "after"@),
                or_else(
                    encoding_failure(self.original, self.path, "original"@),
                    or_else(
                        encoding_failure(self.replacement, self.path, "replacement"@),
                        self.contents_failure(),
                    ),
                ),
            ),
        )
    }

    /// What is wrong with the sealed contents of the entry.
    pub open spec fn contents_failure(self) -> Option<JournalFailure> {
        if self.original_bytes() == self.replacement_bytes() {
            Some(
                JournalFailure::InvalidOperation {
                    path: self.path,
                    reason: "sealed original and replacement bytes are identical"@,
                },
            )
        } else if self.before_hash != hash_of(self.original_bytes()) {
            Some(
                JournalFailure::InvalidOperation {
                    path: self.path,
                    reason: "sealed original bytes do not match the recorded before hash"@,
                },
            )
        } else if self.after_hash != hash_of(self.replacement_bytes()) {
            Some(
                JournalFailure::InvalidOperation {
                    path: self.path,
                    reason: "sealed replacement bytes do not match the recorded after hash"@,
                },
            )
        } else if !self.identity_fits() {
            Some(
                JournalFailure::InvalidOperation {
                    path: self.path,
                    reason: "temporary file state has inconsistent ownership identity"@,
                },
            )
        } else if self.original_bytes() is Some && self.mode is Some && self.mode->Some_0 > 0o7777 {
            Some(
                JournalFailure::InvalidOperation {
                    path: self.path,
                    reason: "sealed original mode contains unsupported bits"@,
                },
            )
        } else if self.original_bytes() is Some != self.mode is Some {
            Some(
                JournalFailure::InvalidOperation {
                    path: self.path,
                    reason: "sealed original mode does not match original presence"@,
                },
            )
        } else {
            None
        }
    }
}

/// Whether an earlier directory than the one at `at` has its path.
pub open spec fn directory_repeats(directories: Seq<DirectoryModel>, at: int) -> bool {
    exists|j: int| 0 <= j < at && (#[trigger] directories[j]).path == directories[at].path
}

/// What is wrong with the directory at `at`.
pub open spec fn directory_failure(directories: Seq<DirectoryModel>, at: int) -> Option<
    JournalFailure,
> {
    let directory = directories[at];
    if relative_path_defect(directory.path) is Some {
        Some(
            JournalFailure::InvalidPlan(
                "invalid created directory `"@ + directory.path + "`: "@ + relative_path_defect(
                    directory.path,
                )->Some_0,
            ),
        )
    } else if directory.path == CONTROL_DIRECTORY@ || ".omnius/"@.is_prefix_of(directory.path) {
        Some(
            JournalFailure::InvalidPlan(
                "transaction cannot create reserved directory `"@ + directory.path + "`"@,
            ),
        )
    } else if directory_repeats(directories, at) {
        Some(JournalFailure::InvalidPlan("duplicate created directory `"@ + directory.path + "`"@))
    } else if !directory.identity_fits() {
        Some(
            JournalFailure::InvalidPlan(
                "created directory `"@ + directory.path
                    + "` has inconsistent ownership identity"@,
            ),
        )
    } else {
        None
    }
}

/// What is wrong with the first `count` directories.
pub open spec fn directories_failure(directories: Seq<DirectoryModel>, count: int) -> Option<
    JournalFailure,
>
    decreases count,
{
    if count <= 0 {
        None
    } else {
        or_else(
            directories_failure(directories, count - 1),
            directory_failure(directories, count - 1),
        )
    }
}

/// Whether an earlier entry than the one at `at` has its path.
pub open spec fn entry_repeats(entries: Seq<EntryModel>, at: int) -> bool {
    exists|j: int| 0 <= j < at && (#[trigger] entries[j]).path == entries[at].path
}

/// What is wrong with the entry at `at`.
pub open spec fn entry_failure(entries: Seq<EntryModel>, at: int) -> Option<JournalFailure> {
    let entry = entries[at];
    if at > 0 && entry.phase() < entries[at - 1].phase() {
        Some(
            JournalFailure::InvalidPlan(
                "ordinary files must precede Cargo.lock and lifecycle state"@,
            ),
        )
    } else {
        or_else(
            operation_path_failure(entry.path),
            if entry_repeats(entries, at) {
                Some(
                    JournalFailure::InvalidOperation {
                        path: entry.path,
                        reason: "duplicate transaction path"@,
                    },
                )
            } else {
                entry.own_failure()
            },
        )
    }
}

/// What is wrong with the first `count` entries.
pub open spec fn entries_failure(entries: Seq<EntryModel>, count: int) -> Option<JournalFailure>
    decreases count,
{
    if count <= 0 {
        None
    } else {
        or_else(entries_failure(entries, count - 1), entry_failure(entries, count - 1))
    }
}

impl JournalModel {
    /// What is wrong with the journal's header.
    pub open spec fn header_failure(self) -> Option<JournalFailure> {
        if self.schema_version != JOURNAL_SCHEMA_VERSION {
            Some(
                JournalFailure::InvalidPlan(
                    "unsupported journal schema version "@ + decimal(self.schema_version as nat)
                        + "; expected "@ + decimal(JOURNAL_SCHEMA_VERSION as nat),
                ),
            )
        } else {
            or_else(
                plan_id_failure(self.plan_id),
                if self.entries.len() == 0 {
                    Some(
                        JournalFailure::InvalidPlan(
                            "a transaction journal must contain at least one entry"@,
                        ),
                    )
                } else {
                    None
                },
            )
        }
    }

    /// Whether every entry and directory is marked applied.
    pub open spec fn is_complete(self) -> bool {
        &&& forall|i: int|
            0 <= i < self.entries.len() ==> (#[trigger] self.entries[i]).temporary
                == TemporaryState::Absent && self.entries[i].identity is None
                && self.entries[i].applied
        &&& forall|i: int|
            0 <= i < self.directories.len() ==> (#[trigger] self.directories[i]).state
                == DirectoryState::Created
    }

    /// What is wrong with the journal's state.
    pub open spec fn state_failure(self) -> Option<JournalFailure> {
        if self.state == JournalState::Committed && !self.is_complete() {
            Some(
                JournalFailure::InvalidPlan(
                    "a committed journal must mark every entry and directory applied"@,
                ),
            )
        } else {
            None
        }
    }

    /// What is wrong with the journal.
    pub open spec fn failure(self) -> Option<JournalFailure> {
        or_else(
            self.header_failure(),
            or_else(
                directories_failure(self.directories, self.directories.len() as int),
                or_else(
                    entries_failure(self.entries, self.entries.len() as int),
                    self.state_failure(),
                ),
            ),
        )
    }

    /// Whether the journal is valid.
    pub open spec fn is_valid(self) -> bool {
        self.failure() is None
    }

    /// The journal as it was sealed: what never changes while it lives.
    pub open spec fn sealed(self) -> JournalModel {
        JournalModel {
            schema_version: self.schema_version,
            plan_id: self.plan_id,
            state: JournalState::Prepared,
            directories: self.directories.map_values(|directory: DirectoryModel| directory.sealed()),
            entries: self.entries.map_values(|entry: EntryModel| entry.sealed()),
        }
    }
}

impl Journal {
    /// The value of this journal.
    pub open spec fn view(&self) -> JournalModel {
        JournalModel {
            schema_version: self.schema_version,
            plan_id: self.plan_id@,
            state: self.state,
            directories: directory_models(self.created_directories@),
            entries: entry_models(self.entries@),
        }
    }

    /// Checks the whole journal.
    pub fn validate(&self) -> (result: Result<(), JournalError>)
        ensures
            outcome(result) == self@.failure(),
    {
        match self.validate_header() {
            Ok(()) => {},
            Err(error) => {
                return Err(error);
            },
        }
        match self.validate_created_directories() {
            Ok(()) => {},
            Err(error) => {
                return Err(error);
            },
        }
        match self.validate_entries() {
            Ok(()) => {},
            Err(error) => {
                return Err(error);
            },
        }
        self.validate_committed_state()
    }

    /// Checks the schema version, the plan identifier, and that there is an entry.
    pub fn validate_header(&self) -> (result: Result<(), JournalError>)
        ensures
            outcome(result) == self@.header_failure(),
    {
        if self.schema_version != JOURNAL_SCHEMA_VERSION {
            let found = decimal_text(self.schema_version as u64);
            let expected = decimal_text(JOURNAL_SCHEMA_VERSION as u64);
            return Err(
                JournalError::InvalidPlan(
                    join4(
                        "unsupported journal schema version ",
                        found.as_str(),
                        "; expected ",
                        expected.as_str(),
                    ),
                ),
            );
        }
        match validate_plan_id(self.plan_id.as_str()) {
            Ok(()) => {},
            Err(error) => {
                return Err(error);
            },
        }
        if self.entries.len() == 0 {
            return Err(
                JournalError::InvalidPlan(
                    "a transaction journal must contain at least one entry".to_owned(),
                ),
            );
        }
        Ok(())
    }

    /// Checks the directories that the transaction creates.
    pub fn validate_created_directories(&self) -> (result: Result<(), JournalError>)
        ensures
            outcome(result) == directories_failure(
                self@.directories,
                self@.directories.len() as int,
            ),
    {
        let ghost all = self@.directories;
        let mut seen: TextSet = Sorted::new();
        let mut index: usize = 0;
        while index < self.created_directories.len()
            invariant
                all == directory_models(self.created_directories@),
                index <= all.len(),
                directories_failure(all, index as int) is None,
                forall|path: Seq<char>| #[trigger]
                    seen@.contains(path) <==> exists|j: int|
                        0 <= j < index && (#[trigger] all[j]).path == path,
            decreases all.len() - index,
        {
            let directory = &self.created_directories[index];
            let ghost here = all[index as int];
            assert(here == directory@);
            proof {
                if directory_failure(all, index as int) is Some {
                    lemma_directories_failure(all, index + 1, all.len() as int);
                }
            }
            match validate_relative_path(directory.path.as_str()) {
                Ok(()) => {},
                Err(reason) => {
                    return Err(
                        JournalError::InvalidPlan(
                            join4(
                                "invalid created directory `",
                                directory.path.as_str(),
                                "`: ",
                                reason,
                            ),
                        ),
                    );
                },
            }
            if same_text(directory.path.as_str(), CONTROL_DIRECTORY) || starts_with(
                directory.path.as_str(),
                ".omnius/",
            ) {
                return Err(
                    JournalError::InvalidPlan(
                        join3(
                            "transaction cannot create reserved directory `",
                            directory.path.as_str(),
                            "`",
                        ),
                    ),
                );
            }
            let ghost before = seen@;
            if !set_add(&mut seen, directory.path.as_str()) {
                return Err(
                    JournalError::InvalidPlan(
                        join3("duplicate created directory `", directory.path.as_str(), "`"),
                    ),
                );
            }
            proof {
                assert forall|path: Seq<char>| #[trigger]
                    seen@.contains(path) <==> exists|j: int|
                        0 <= j < index + 1 && (#[trigger] all[j]).path == path by {
                    assert(before.contains(path) <==> exists|j: int|
                        0 <= j < index && (#[trigger] all[j]).path == path);
                    if path == here.path {
                        assert(all[index as int].path == path);
                    }
                }
            }
            let fits = match directory.state {
                DirectoryState::Created => directory.device.is_some() && directory.inode.is_some(),
                _ => directory.device.is_none() && directory.inode.is_none(),
            };
            if !fits {
                return Err(
                    JournalError::InvalidPlan(
                        join3(
                            "created directory `",
                            directory.path.as_str(),
                            "` has inconsistent ownership identity",
                        ),
                    ),
                );
            }
            index += 1;
        }
        Ok(())
    }

    /// Checks the files that the transaction changes.
    pub fn validate_entries(&self) -> (result: Result<(), JournalError>)
        ensures
            outcome(result) == entries_failure(self@.entries, self@.entries.len() as int),
    {
        let ghost all = self@.entries;
        let mut phase: u8 = 0;
        let mut seen: TextSet = Sorted::new();
        let mut index: usize = 0;
        while index < self.entries.len()
            invariant
                all == entry_models(self.entries@),
                index <= all.len(),
                entries_failure(all, index as int) is None,
                index > 0 ==> phase as int == all[index - 1].phase(),
                index == 0 ==> phase == 0,
                forall|path: Seq<char>| #[trigger]
                    seen@.contains(path) <==> exists|j: int|
                        0 <= j < index && (#[trigger] all[j]).path == path,
            decreases all.len() - index,
        {
            let entry = &self.entries[index];
            let ghost here = all[index as int];
            assert(here == entry@);
            proof {
                if entry_failure(all, index as int) is Some {
                    lemma_entries_failure(all, index + 1, all.len() as int);
                }
            }
            let entry_phase = phase_of(entry.path.as_str());
            assert(entry_phase as int == here.phase());
            if entry_phase < phase {
                return Err(
                    JournalError::InvalidPlan(
                        "ordinary files must precede Cargo.lock and lifecycle state".to_owned(),
                    ),
                );
            }
            phase = entry_phase;
            match validate_operation_path(entry.path.as_str()) {
                Ok(()) => {},
                Err(error) => {
                    return Err(error);
                },
            }
            let ghost before = seen@;
            if !set_add(&mut seen, entry.path.as_str()) {
                return Err(
                    JournalError::InvalidOperation {
                        path: entry.path.clone(),
                        reason: "duplicate transaction path".to_owned(),
                    },
                );
            }
            proof {
                assert forall|path: Seq<char>| #[trigger]
                    seen@.contains(path) <==> exists|j: int|
                        0 <= j < index + 1 && (#[trigger] all[j]).path == path by {
                    assert(before.contains(path) <==> exists|j: int|
                        0 <= j < index && (#[trigger] all[j]).path == path);
                    if path == here.path {
                        assert(all[index as int].path == path);
                    }
                }
            }
            match entry.validate() {
                Ok(()) => {},
                Err(error) => {
                    return Err(error);
                },
            }
            index += 1;
        }
        Ok(())
    }

    /// Checks that a committed journal marks everything applied.
    pub fn validate_committed_state(&self) -> (result: Result<(), JournalError>)
        ensures
            outcome(result) == self@.state_failure(),
    {
        if self.state == JournalState::Prepared {
            return Ok(());
        }
        if self.is_complete() {
            Ok(())
        } else {
            Err(
                JournalError::InvalidPlan(
                    "a committed journal must mark every entry and directory applied".to_owned(),
                ),
            )
        }
    }

    /// Returns whether every entry and directory is marked applied.
    pub fn is_complete(&self) -> (complete: bool)
        ensures
            complete == self@.is_complete(),
    {
        let ghost entries = self@.entries;
        let ghost directories = self@.directories;
        let mut index: usize = 0;
        while index < self.entries.len()
            invariant
                entries == entry_models(self.entries@),
                index <= entries.len(),
                forall|i: int|
                    0 <= i < index ==> (#[trigger] entries[i]).temporary == TemporaryState::Absent
                        && entries[i].identity is None && entries[i].applied,
            decreases entries.len() - index,
        {
            let entry = &self.entries[index];
            assert(entries[index as int] == entry@);
            if entry.temporary_state != TemporaryState::Absent || entry.temporary_identity.is_some()
                || !entry.applied {
                assert(!(entries[index as int].temporary == TemporaryState::Absent
                    && entries[index as int].identity is None && entries[index as int].applied));
                assert(self@.entries[index as int] == entry@);
                return false;
            }
            index += 1;
        }
        let mut index: usize = 0;
        while index < self.created_directories.len()
            invariant
                directories == directory_models(self.created_directories@),
                index <= directories.len(),
                forall|i: int|
                    0 <= i < index ==> (#[trigger] directories[i]).state == DirectoryState::Created,
            decreases directories.len() - index,
        {
            let directory = &self.created_directories[index];
            assert(directories[index as int] == directory@);
            if directory.state != DirectoryState::Created {
                assert(self@.directories[index as int].state != DirectoryState::Created);
                return false;
            }
            index += 1;
        }
        assert(entries == self@.entries);
        true
    }

    /// Returns whether two journals were sealed alike.
    pub fn same_sealed_plan(&self, other: &Self) -> (same: bool)
        ensures
            same == (self@.sealed() == other@.sealed()),
    {
        let ghost left = self@.sealed();
        let ghost right = other@.sealed();
        if self.schema_version != other.schema_version || !same_text(
            self.plan_id.as_str(),
            other.plan_id.as_str(),
        ) {
            return false;
        }
        if self.created_directories.len() != other.created_directories.len() || self.entries.len()
            != other.entries.len() {
            assert(left.directories.len() == self.created_directories@.len());
            assert(right.directories.len() == other.created_directories@.len());
            assert(left.entries.len() == self.entries@.len());
            assert(right.entries.len() == other.entries@.len());
            return false;
        }
        let mut index: usize = 0;
        while index < self.created_directories.len()
            invariant
                left == self@.sealed(),
                right == other@.sealed(),
                self.created_directories@.len() == other.created_directories@.len(),
                index <= self.created_directories@.len(),
                forall|i: int| 0 <= i < index ==> left.directories[i] == right.directories[i],
            decreases self.created_directories@.len() - index,
        {
            assert(left.directories[index as int] == self.created_directories@[index as int]@.sealed());
            assert(right.directories[index as int]
                == other.created_directories@[index as int]@.sealed());
            if !same_text(
                self.created_directories[index].path.as_str(),
                other.created_directories[index].path.as_str(),
            ) {
                return false;
            }
            index += 1;
        }
        let mut index: usize = 0;
        while index < self.entries.len()
            invariant
                left == self@.sealed(),
                right == other@.sealed(),
                self.entries@.len() == other.entries@.len(),
                index <= self.entries@.len(),
                forall|i: int| 0 <= i < index ==> left.entries[i] == right.entries[i],
            decreases self.entries@.len() - index,
        {
            assert(left.entries[index as int] == self.entries@[index as int]@.sealed());
            assert(right.entries[index as int] == other.entries@[index as int]@.sealed());
            if !same_sealed_entry(&self.entries[index], &other.entries[index]) {
                return false;
            }
            index += 1;
        }
        assert(left.directories =~= right.directories);
        assert(left.entries =~= right.entries);
        true
    }
}

fn same_encoded(left: &Option<EncodedBytes>, right: &Option<EncodedBytes>) -> (same: bool)
    ensures
        same == (encoded_view(*left) == encoded_view(*right)),
{
    match (left, right) {
        (Some(left), Some(right)) => same_text(left.data.as_str(), right.data.as_str()),
        (None, None) => true,
        _ => false,
    }
}

fn same_sealed_entry(left: &JournalEntry, right: &JournalEntry) -> (same: bool)
    ensures
        same == (left@.sealed() == right@.sealed()),
{
    let same_mode = match (left.original_mode, right.original_mode) {
        (Some(left), Some(right)) => left == right,
        (None, None) => true,
        _ => false,
    };
    same_mode && same_text(left.path.as_str(), right.path.as_str()) && same_optional_text(
        &left.expected_before_sha256,
        &right.expected_before_sha256,
    ) && same_optional_text(&left.expected_after_sha256, &right.expected_after_sha256)
        && same_encoded(&left.original, &right.original) && same_encoded(
        &left.replacement,
        &right.replacement,
    )
}

fn phase_of(path: &str) -> (phase: u8)
    ensures
        phase <= 2,
        phase == 1 <==> path@ == "Cargo.lock"@,
        phase == 2 <==> path@ == STATE_FILE_PATH@ && path@ != "Cargo.lock"@,
{
    if same_text(path, "Cargo.lock") {
        1
    } else if same_text(path, STATE_FILE_PATH) {
        2
    } else {
        0
    }
}

impl JournalEntry {
    fn validate(&self) -> (result: Result<(), JournalError>)
        ensures
            outcome(result) == self@.own_failure(),
    {
        match validate_optional_hash(&self.expected_before_sha256, self.path.as_str(), "before") {
            Ok(()) => {},
            Err(error) => {
                return Err(error);
            },
        }
        match validate_optional_hash(&self.expected_after_sha256, self.path.as_str(), "after") {
            Ok(()) => {},
            Err(error) => {
                return Err(error);
            },
        }
        let original = match decode_optional(&self.original, self.path.as_str(), "original") {
            Ok(bytes) => bytes,
            Err(error) => {
                return Err(error);
            },
        };
        let replacement = match decode_optional(
            &self.replacement,
            self.path.as_str(),
            "replacement",
        ) {
            Ok(bytes) => bytes,
            Err(error) => {
                return Err(error);
            },
        };
        let reason = if same_contents(&original, &replacement) {
            "sealed original and replacement bytes are identical"
        } else if !has_hash(&original, &self.expected_before_sha256) {
            "sealed original bytes do not match the recorded before hash"
        } else if !has_hash(&replacement, &self.expected_after_sha256) {
            "sealed replacement bytes do not match the recorded after hash"
        } else if (self.temporary_state == TemporaryState::Created)
            != self.temporary_identity.is_some() {
            "temporary file state has inconsistent ownership identity"
        } else {
            match (&original, self.original_mode) {
                (Some(_), Some(mode)) => {
                    if mode > 0o7777 {
                        "sealed original mode contains unsupported bits"
                    } else {
                        return Ok(());
                    }
                },
                (None, None) => {
                    return Ok(());
                },
                _ => "sealed original mode does not match original presence",
            }
        };
        Err(
            JournalError::InvalidOperation { path: self.path.clone(), reason: reason.to_owned() },
        )
    }
}

pub(crate) fn same_contents(left: &Option<Vec<u8>>, right: &Option<Vec<u8>>) -> (same: bool)
    ensures
        same == (bytes_view(*left) == bytes_view(*right)),
{
    match (left, right) {
        (Some(left), Some(right)) => same_bytes(left.as_slice(), right.as_slice()),
        (None, None) => true,
        _ => false,
    }
}

fn has_hash(bytes: &Option<Vec<u8>>, hash: &Option<String>) -> (same: bool)
    ensures
        same == (optional_view(*hash) == hash_of(bytes_view(*bytes))),
{
    let actual = match bytes {
        Some(value) => Some(sha256_hex(value.as_slice())),
        None => None,
    };
    same_optional_text(hash, &actual)
}

proof fn lemma_directories_failure(directories: Seq<DirectoryModel>, count: int, total: int)
    requires
        directories_failure(directories, count) is Some,
        count <= total,
    ensures
        directories_failure(directories, total) == directories_failure(directories, count),
    decreases total - count,
{
    if count < total {
        lemma_directories_failure(directories, count, total - 1);
    }
}

proof fn lemma_entries_failure(entries: Seq<EntryModel>, count: int, total: int)
    requires
        entries_failure(entries, count) is Some,
        count <= total,
    ensures
        entries_failure(entries, total) == entries_failure(entries, count),
    decreases total - count,
{
    if count < total {
        lemma_entries_failure(entries, count, total - 1);
    }
}

/// Directories are right together exactly where each one is.
pub proof fn lemma_no_directories_failure(directories: Seq<DirectoryModel>, count: int)
    requires
        0 <= count <= directories.len(),
    ensures
        directories_failure(directories, count) is None <==> forall|i: int|
            0 <= i < count ==> #[trigger] directory_failure(directories, i) is None,
    decreases count,
{
    if count > 0 {
        lemma_no_directories_failure(directories, count - 1);
        assert(directory_failure(directories, count - 1) is None
            || directory_failure(directories, count - 1) is Some);
    }
}

pub proof fn lemma_no_entries_failure(entries: Seq<EntryModel>, count: int)
    requires
        0 <= count <= entries.len(),
    ensures
        entries_failure(entries, count) is None <==> forall|i: int|
            0 <= i < count ==> #[trigger] entry_failure(entries, i) is None,
    decreases count,
{
    if count > 0 {
        lemma_no_entries_failure(entries, count - 1);
        assert(entry_failure(entries, count - 1) is None || entry_failure(
            entries,
            count - 1,
        ) is Some);
    }
}

// Sealing.
/// The value of a sealed operation.
pub struct OperationModel {
    /// Project-relative path.
    pub path: Seq<char>,
    /// Hash before, absent for a new file.
    pub before_hash: Option<Seq<char>>,
    /// Hash after, absent for a deleted file.
    pub after_hash: Option<Seq<char>>,
    /// Replacement bytes, absent for a deleted file.
    pub replacement: Option<Seq<u8>>,
}

impl OperationModel {
    /// Whether the path and the hashes are well formed and the replacement has its hash.
    pub open spec fn is_sealed(self) -> bool {
        &&& operation_path_failure(self.path) is None
        &&& optional_hash_failure(self.before_hash, self.path, "before"@) is None
        &&& self.after_hash == hash_of(self.replacement)
        &&& self.replacement is None ==> self.before_hash is Some
    }
}

/// One file change whose expected hashes and replacement bytes are sealed before application.
#[derive(Debug, PartialEq, Eq)]
pub struct JournalOperation {
    path: String,
    expected_before_sha256: Option<String>,
    expected_after_sha256: Option<String>,
    replacement: Option<Vec<u8>>,
}

impl JournalOperation {
    /// The value of this operation.
    pub closed spec fn view(&self) -> OperationModel {
        OperationModel {
            path: self.path@,
            before_hash: optional_view(self.expected_before_sha256),
            after_hash: optional_view(self.expected_after_sha256),
            replacement: bytes_view(self.replacement),
        }
    }

    #[verifier::type_invariant]
    closed spec fn sealed(self) -> bool {
        self@.is_sealed()
    }

    /// Seals a file creation or replacement against caller-provided before/after hashes.
    pub fn write(
        path: String,
        expected_before_sha256: Option<String>,
        replacement: Vec<u8>,
        expected_after_sha256: String,
    ) -> (result: Result<Self, JournalError>)
        ensures
            outcome(result) == or_else(
                operation_path_failure(path@),
                or_else(
                    optional_hash_failure(
                        optional_view(expected_before_sha256),
                        path@,
                        "before"@,
                    ),
                    or_else(
                        hash_failure(expected_after_sha256@, path@, "after"@),
                        if hex(sha256(replacement@)) != expected_after_sha256@ {
                            Some(
                                JournalFailure::InvalidOperation {
                                    path: path@,
                                    reason: "replacement SHA-256 `"@ + hex(sha256(replacement@))
                                        + "` does not match sealed after hash `"@
                                        + expected_after_sha256@ + "`"@,
                                },
                            )
                        } else {
                            None
                        },
                    ),
                ),
            ),
            result matches Ok(operation) ==> operation@ == (OperationModel {
                path: path@,
                before_hash: optional_view(expected_before_sha256),
                after_hash: Some(expected_after_sha256@),
                replacement: Some(replacement@),
            }) && operation@.is_sealed(),
    {
        match validate_operation_path(path.as_str()) {
            Ok(()) => {},
            Err(error) => {
                return Err(error);
            },
        }
        match validate_optional_hash(&expected_before_sha256, path.as_str(), "before") {
            Ok(()) => {},
            Err(error) => {
                return Err(error);
            },
        }
        match validate_hash(expected_after_sha256.as_str(), path.as_str(), "after") {
            Ok(()) => {},
            Err(error) => {
                return Err(error);
            },
        }
        let actual_after = sha256_hex(replacement.as_slice());
        if !same_text(actual_after.as_str(), expected_after_sha256.as_str()) {
            return Err(
                JournalError::InvalidOperation {
                    path,
                    reason: join5(
                        "replacement SHA-256 `",
                        actual_after.as_str(),
                        "` does not match sealed after hash `",
                        expected_after_sha256.as_str(),
                        "`",
                    ),
                },
            );
        }
        Ok(
            JournalOperation {
                path,
                expected_before_sha256,
                expected_after_sha256: Some(expected_after_sha256),
                replacement: Some(replacement),
            },
        )
    }

    /// Seals deletion of a regular file with the expected current hash.
    pub fn remove(path: String, expected_before_sha256: String) -> (result: Result<
        Self,
        JournalError,
    >)
        ensures
            outcome(result) == or_else(
                operation_path_failure(path@),
                hash_failure(expected_before_sha256@, path@, "before"@),
            ),
            result matches Ok(operation) ==> operation@ == (OperationModel {
                path: path@,
                before_hash: Some(expected_before_sha256@),
                after_hash: None,
                replacement: None,
            }) && operation@.is_sealed(),
    {
        match validate_operation_path(path.as_str()) {
            Ok(()) => {},
            Err(error) => {
                return Err(error);
            },
        }
        match validate_hash(expected_before_sha256.as_str(), path.as_str(), "before") {
            Ok(()) => {},
            Err(error) => {
                return Err(error);
            },
        }
        Ok(
            JournalOperation {
                path,
                expected_before_sha256: Some(expected_before_sha256),
                expected_after_sha256: None,
                replacement: None,
            },
        )
    }

    /// Returns the path of the file.
    pub fn path(&self) -> (path: &str)
        ensures
            path@ == self@.path,
            self@.is_sealed(),
    {
        proof {
            use_type_invariant(self);
        }
        self.path.as_str()
    }
}

/// A regular file as it was found.
#[derive(Debug, PartialEq, Eq)]
pub struct CurrentFile {
    /// Contents.
    pub bytes: Vec<u8>,
    /// Permission bits.
    pub mode: u32,
}

/// What was found at the path of an operation.
#[derive(Debug, PartialEq, Eq)]
pub struct Observation {
    /// How many of the path's parent directories exist, from the project root on.
    pub present_parents: usize,
    /// The file, absent where there is none.
    pub current: Option<CurrentFile>,
}

/// The contents of a file that may be missing.
pub open spec fn file_bytes(file: Option<CurrentFile>) -> Option<Seq<u8>> {
    match file {
        Some(found) => Some(found.bytes@),
        None => None,
    }
}

/// The permission bits of a file that may be missing.
pub open spec fn file_mode(file: Option<CurrentFile>) -> Option<u32> {
    match file {
        Some(found) => Some(found.mode),
        None => None,
    }
}

/// The pieces of a directory path that are not empty.
pub open spec fn named_pieces(pieces: Seq<Seq<char>>) -> Seq<Seq<char>>
    decreases pieces.len(),
{
    if pieces.len() == 0 {
        Seq::empty()
    } else if pieces.last().len() == 0 {
        named_pieces(pieces.drop_last())
    } else {
        named_pieces(pieces.drop_last()).push(pieces.last())
    }
}

/// The parent directories of a path, outermost first.
pub open spec fn parents(path: Seq<char>) -> Seq<Seq<char>> {
    let names = named_pieces(split_on(parent_of(path), '/'));
    Seq::new(names.len(), |i: int| joined(names.take(i + 1), "/"@))
}

/// Returns the parent directories of a path, outermost first.
pub fn parent_directories(path: &str) -> (directories: Vec<String>)
    ensures
        texts(directories@) == parents(path@),
{
    let (parent, _) = split_parent_name(path);
    let pieces = split_text(parent.as_str(), '/');
    let ghost all = split_on(parent_of(path@), '/');
    let mut names: Vec<String> = Vec::new();
    let mut directories: Vec<String> = Vec::new();
    let mut index: usize = 0;
    assert(texts(names@) =~= named_pieces(all.take(0)));
    while index < pieces.len()
        invariant
            all == texts(pieces@),
            index <= pieces@.len(),
            texts(names@) == named_pieces(all.take(index as int)),
            directories@.len() == names@.len(),
            forall|i: int|
                0 <= i < directories@.len() ==> (#[trigger] directories@[i])@ == joined(
                    texts(names@).take(i + 1),
                    "/"@,
                ),
        decreases pieces@.len() - index,
    {
        let piece = &pieces[index];
        assert(all.take(index + 1).drop_last() =~= all.take(index as int));
        assert(all.take(index + 1).last() == piece@);
        if !piece.as_str().is_empty() {
            let ghost before = texts(names@);
            names.push(piece.clone());
            let ghost after = texts(names@);
            assert(after =~= before.push(piece@));
            let directory = join_texts(&names, "/");
            directories.push(directory);
            proof {
                assert forall|i: int| 0 <= i < directories@.len() implies (
                #[trigger] directories@[i])@ == joined(after.take(i + 1), "/"@) by {
                    if i < before.len() {
                        assert(after.take(i + 1) =~= before.take(i + 1));
                    } else {
                        assert(after.take(i + 1) =~= after);
                    }
                }
            }
        }
        index += 1;
    }
    assert(all.take(index as int) =~= all);
    assert(texts(directories@) =~= parents(path@));
    directories
}

/// The directories to create, when the parents of one more path are noted from place `at` on:
/// from the first parent that is not there or is created anyway, every parent that is not yet
/// noted.
pub open spec fn noted(
    created: Seq<Seq<char>>,
    list: Seq<Seq<char>>,
    at: int,
    missing: bool,
    present: nat,
) -> Seq<Seq<char>>
    decreases list.len() - at,
{
    if at < 0 || at >= list.len() {
        created
    } else if missing || at >= present || created.contains(list[at]) {
        noted(
            if created.contains(list[at]) {
                created
            } else {
                created.push(list[at])
            },
            list,
            at + 1,
            true,
            present,
        )
    } else {
        noted(created, list, at + 1, false, present)
    }
}

/// Whether the parent at `at` is not there or is created anyway.
pub open spec fn is_missing_parent(
    created: Seq<Seq<char>>,
    list: Seq<Seq<char>>,
    at: int,
    present: nat,
) -> bool {
    at >= present || created.contains(list[at])
}

/// Whether one of the first `count` parents is not there or is created anyway.
pub open spec fn parent_missing(
    created: Seq<Seq<char>>,
    list: Seq<Seq<char>>,
    count: int,
    present: nat,
) -> bool {
    exists|k: int| 0 <= k < count && #[trigger] is_missing_parent(created, list, k, present)
}

/// The directories to create for the first `count` operations.
pub open spec fn directories_for(
    operations: Seq<OperationModel>,
    observations: Seq<Observation>,
    count: int,
) -> Seq<Seq<char>>
    decreases count,
{
    if count <= 0 {
        Seq::empty()
    } else {
        noted(
            directories_for(operations, observations, count - 1),
            parents(operations[count - 1].path),
            0,
            false,
            observations[count - 1].present_parents as nat,
        )
    }
}

/// The file that the operation at `at` finds: none where a parent directory is missing.
pub open spec fn found_file(
    operations: Seq<OperationModel>,
    observations: Seq<Observation>,
    at: int,
) -> Option<CurrentFile> {
    let list = parents(operations[at].path);
    if parent_missing(
        directories_for(operations, observations, at),
        list,
        list.len() as int,
        observations[at].present_parents as nat,
    ) {
        None
    } else {
        observations[at].current
    }
}

/// Whether an earlier operation than the one at `at` has its path.
pub open spec fn operation_repeats(operations: Seq<OperationModel>, at: int) -> bool {
    exists|j: int| 0 <= j < at && (#[trigger] operations[j]).path == operations[at].path
}

/// Why the operation at `at` cannot be sealed.
pub open spec fn operation_failure(
    operations: Seq<OperationModel>,
    observations: Seq<Observation>,
    at: int,
) -> Option<JournalFailure> {
    let operation = operations[at];
    let found = file_bytes(found_file(operations, observations, at));
    if operation_repeats(operations, at) {
        Some(
            JournalFailure::InvalidOperation {
                path: operation.path,
                reason: "duplicate transaction path"@,
            },
        )
    } else if hash_of(found) != operation.before_hash {
        Some(
            JournalFailure::StaleInput {
                path: operation.path,
                expected: operation.before_hash,
                actual: hash_of(found),
            },
        )
    } else if found == operation.replacement {
        Some(
            JournalFailure::InvalidOperation {
                path: operation.path,
                reason: "sealed original and replacement bytes are identical"@,
            },
        )
    } else {
        None
    }
}

/// Why the first `count` operations cannot be sealed.
pub open spec fn operations_failure(
    operations: Seq<OperationModel>,
    observations: Seq<Observation>,
    count: int,
) -> Option<JournalFailure>
    decreases count,
{
    if count <= 0 {
        None
    } else {
        or_else(
            operations_failure(operations, observations, count - 1),
            operation_failure(operations, observations, count - 1),
        )
    }
}

/// The entry that seals the operation at `at`.
pub open spec fn sealed_entry(
    operations: Seq<OperationModel>,
    observations: Seq<Observation>,
    at: int,
) -> EntryModel {
    let operation = operations[at];
    let found = found_file(operations, observations, at);
    EntryModel {
        path: operation.path,
        before_hash: operation.before_hash,
        after_hash: operation.after_hash,
        original: sealed_form(file_bytes(found)),
        replacement: sealed_form(operation.replacement),
        mode: file_mode(found),
        temporary: TemporaryState::Absent,
        identity: None,
        applied: false,
    }
}

/// The journal that seals operations.
pub open spec fn sealed_journal(
    plan_id: Seq<char>,
    operations: Seq<OperationModel>,
    observations: Seq<Observation>,
) -> JournalModel {
    JournalModel {
        schema_version: JOURNAL_SCHEMA_VERSION,
        plan_id,
        state: JournalState::Prepared,
        directories: directories_for(
            operations,
            observations,
            operations.len() as int,
        ).map_values(
            |path: Seq<char>|
                DirectoryModel { path, state: DirectoryState::Planned, device: None, inode: None },
        ),
        entries: Seq::new(operations.len(), |i: int| sealed_entry(operations, observations, i)),
    }
}

/// Why operations cannot be sealed into a journal.
pub open spec fn preparation_failure(
    plan_id: Seq<char>,
    operations: Seq<OperationModel>,
    observations: Seq<Observation>,
) -> Option<JournalFailure> {
    or_else(
        plan_id_failure(plan_id),
        if operations.len() == 0 {
            Some(
                JournalFailure::InvalidPlan(
                    "a transaction must contain at least one file operation"@,
                ),
            )
        } else {
            or_else(
                operations_failure(operations, observations, operations.len() as int),
                sealed_journal(plan_id, operations, observations).failure(),
            )
        },
    )
}

/// The values of operations.
pub open spec fn operation_models(operations: Seq<JournalOperation>) -> Seq<OperationModel> {
    operations.map_values(|operation: JournalOperation| operation@)
}

proof fn lemma_operations_failure(
    operations: Seq<OperationModel>,
    observations: Seq<Observation>,
    count: int,
    total: int,
)
    requires
        operations_failure(operations, observations, count) is Some,
        count <= total,
    ensures
        operations_failure(operations, observations, total) == operations_failure(
            operations,
            observations,
            count,
        ),
    decreases total - count,
{
    if count < total {
        lemma_operations_failure(operations, observations, count, total - 1);
    }
}

proof fn lemma_parent_missing_grows(
    created: Seq<Seq<char>>,
    list: Seq<Seq<char>>,
    count: int,
    more: int,
    present: nat,
)
    requires
        parent_missing(created, list, count, present),
        count <= more,
    ensures
        parent_missing(created, list, more, present),
{
    let k = choose|k: int|
        0 <= k < count && #[trigger] is_missing_parent(created, list, k, present);
    assert(0 <= k < more && is_missing_parent(created, list, k, present));
}

/// Notes the parents of a path; returns whether one of them is missing.
fn note_parents(created: &mut Vec<String>, path: &str, present: usize) -> (missing: bool)
    ensures
        texts(final(created)@) == noted(
            texts(old(created)@),
            parents(path@),
            0,
            false,
            present as nat,
        ),
        missing == parent_missing(
            texts(old(created)@),
            parents(path@),
            parents(path@).len() as int,
            present as nat,
        ),
{
    let list = parent_directories(path);
    let ghost all = parents(path@);
    let ghost start = texts(created@);
    let mut missing = false;
    let mut index: usize = 0;
    while index < list.len()
        invariant
            all == texts(list@),
            index <= list@.len(),
            noted(texts(created@), all, index as int, missing, present as nat) == noted(
                start,
                all,
                0,
                false,
                present as nat,
            ),
            missing == parent_missing(start, all, index as int, present as nat),
            !missing ==> texts(created@) == start,
        decreases list@.len() - index,
    {
        let directory = &list[index];
        assert(all[index as int] == directory@);
        let known = holds_text(created, directory.as_str());
        let ghost was_missing = missing;
        if missing || index >= present || known {
            if !known {
                let ghost before = texts(created@);
                created.push(directory.clone());
                assert(texts(created@) =~= before.push(directory@));
            }
            missing = true;
        }
        proof {
            if missing && !was_missing {
                assert(is_missing_parent(start, all, index as int, present as nat));
                assert(parent_missing(start, all, index + 1, present as nat));
            }
            if was_missing {
                lemma_parent_missing_grows(start, all, index as int, index + 1, present as nat);
            }
            if !missing {
                assert(!parent_missing(start, all, index + 1, present as nat)) by {
                    if parent_missing(start, all, index + 1, present as nat) {
                        let k = choose|k: int|
                            0 <= k < index + 1 && #[trigger] is_missing_parent(
                                start,
                                all,
                                k,
                                present as nat,
                            );
                        if k < index {
                            assert(parent_missing(start, all, index as int, present as nat));
                        }
                    }
                }
            }
        }
        index += 1;
    }
    missing
}

/// Validates all expected inputs and seals exact originals and replacements into a prepared
/// journal. No file operation can be added afterward.
pub fn prepare_transaction(
    plan_id: String,
    operations: Vec<JournalOperation>,
    observations: Vec<Observation>,
) -> (result: Result<Journal, JournalError>)
    requires
        operations@.len() == observations@.len(),
    ensures
        outcome(result) == preparation_failure(
            plan_id@,
            operation_models(operations@),
            observations@,
        ),
        result matches Ok(journal) ==> journal@ == sealed_journal(
            plan_id@,
            operation_models(operations@),
            observations@,
        ) && journal@.is_valid(),
{
    match validate_plan_id(plan_id.as_str()) {
        Ok(()) => {},
        Err(error) => {
            return Err(error);
        },
    }
    if operations.len() == 0 {
        return Err(
            JournalError::InvalidPlan(
                "a transaction must contain at least one file operation".to_owned(),
            ),
        );
    }
    let ghost values = operation_models(operations@);
    let ghost files = observations@;
    let ghost sealed = sealed_journal(plan_id@, values, files);
    let mut seen: TextSet = Sorted::new();
    let mut directories: Vec<String> = Vec::new();
    let mut entries: Vec<JournalEntry> = Vec::new();
    let mut index: usize = 0;
    assert(texts(directories@) =~= directories_for(values, files, 0));
    while index < operations.len()
        invariant
            operations@.len() == observations@.len(),
            values == operation_models(operations@),
            files == observations@,
            plan_id_failure(plan_id@) is None,
            operations@.len() > 0,
            index <= values.len(),
            operations_failure(values, files, index as int) is None,
            texts(directories@) == directories_for(values, files, index as int),
            entries@.len() == index,
            forall|i: int|
                0 <= i < index ==> (#[trigger] entries@[i])@ == sealed_entry(values, files, i),
            forall|path: Seq<char>| #[trigger]
                seen@.contains(path) <==> exists|j: int|
                    0 <= j < index && (#[trigger] values[j]).path == path,
        decreases values.len() - index,
    {
        let operation = &operations[index];
        let observation = &observations[index];
        let ghost here = values[index as int];
        proof {
            assert(here == operation@);
            if operation_failure(values, files, index as int) is Some {
                lemma_operations_failure(values, files, index + 1, values.len() as int);
            }
        }
        let ghost before = seen@;
        if !set_add(&mut seen, operation.path.as_str()) {
            return Err(
                JournalError::InvalidOperation {
                    path: operation.path.clone(),
                    reason: "duplicate transaction path".to_owned(),
                },
            );
        }
        proof {
            assert forall|path: Seq<char>| #[trigger]
                seen@.contains(path) <==> exists|j: int|
                    0 <= j < index + 1 && (#[trigger] values[j]).path == path by {
                assert(before.contains(path) <==> exists|j: int|
                    0 <= j < index && (#[trigger] values[j]).path == path);
                if path == here.path {
                    assert(values[index as int].path == path);
                }
            }
        }
        let missing = note_parents(
            &mut directories,
            operation.path.as_str(),
            observation.present_parents,
        );
        let (bytes, mode): (Option<Vec<u8>>, Option<u32>) = if missing {
            (None, None)
        } else {
            match &observation.current {
                Some(file) => (Some(clone_bytes(&file.bytes)), Some(file.mode)),
                None => (None, None),
            }
        };
        let ghost found = found_file(values, files, index as int);
        assert(bytes_view(bytes) == file_bytes(found));
        assert(mode == file_mode(found));
        match verify_expected_hash(
            operation.path.as_str(),
            &operation.expected_before_sha256,
            &bytes,
        ) {
            Ok(()) => {},
            Err(error) => {
                return Err(error);
            },
        }
        if same_contents(&bytes, &operation.replacement) {
            return Err(
                JournalError::InvalidOperation {
                    path: operation.path.clone(),
                    reason: "sealed original and replacement bytes are identical".to_owned(),
                },
            );
        }
        entries.push(
            JournalEntry {
                path: operation.path.clone(),
                expected_before_sha256: clone_optional_text(&operation.expected_before_sha256),
                expected_after_sha256: clone_optional_text(&operation.expected_after_sha256),
                original: EncodedBytes::from_optional(&bytes),
                replacement: EncodedBytes::from_optional(&operation.replacement),
                original_mode: mode,
                temporary_state: TemporaryState::Absent,
                temporary_identity: None,
                applied: false,
            },
        );
        index += 1;
    }
    let ghost paths = directories_for(values, files, values.len() as int);
    let mut created_directories: Vec<JournalDirectory> = Vec::new();
    let mut index: usize = 0;
    while index < directories.len()
        invariant
            paths == texts(directories@),
            index <= directories@.len(),
            created_directories@.len() == index,
            forall|i: int|
                0 <= i < index ==> (#[trigger] created_directories@[i])@ == (DirectoryModel {
                    path: paths[i],
                    state: DirectoryState::Planned,
                    device: None,
                    inode: None,
                }),
        decreases directories@.len() - index,
    {
        assert(paths[index as int] == directories@[index as int]@);
        created_directories.push(
            JournalDirectory {
                path: directories[index].clone(),
                state: DirectoryState::Planned,
                device: None,
                inode: None,
            },
        );
        index += 1;
    }
    let journal = Journal {
        schema_version: JOURNAL_SCHEMA_VERSION,
        plan_id,
        state: JournalState::Prepared,
        created_directories,
        entries,
    };
    proof {
        assert(journal@.directories =~= sealed.directories);
        assert(journal@.entries =~= sealed.entries);
    }
    match journal.validate() {
        Ok(()) => Ok(journal),
        Err(error) => Err(error),
    }
}

// Progress.
impl JournalModel {
    /// The journal with the record of one directory advanced.
    pub open spec fn with_directory(
        self,
        index: int,
        state: DirectoryState,
        identity: Option<FileIdentity>,
    ) -> JournalModel {
        JournalModel {
            schema_version: self.schema_version,
            plan_id: self.plan_id,
            state: self.state,
            directories: self.directories.update(
                index,
                DirectoryModel {
                    path: self.directories[index].path,
                    state,
                    device: match identity {
                        Some(id) => Some(id.device),
                        None => None,
                    },
                    inode: match identity {
                        Some(id) => Some(id.inode),
                        None => None,
                    },
                },
            ),
            entries: self.entries,
        }
    }

    /// The journal with the progress of one entry changed.
    pub open spec fn with_entry(
        self,
        index: int,
        temporary: TemporaryState,
        identity: Option<FileIdentity>,
        applied: bool,
    ) -> JournalModel {
        let entry = self.entries[index];
        JournalModel {
            schema_version: self.schema_version,
            plan_id: self.plan_id,
            state: self.state,
            directories: self.directories,
            entries: self.entries.update(
                index,
                EntryModel {
                    path: entry.path,
                    before_hash: entry.before_hash,
                    after_hash: entry.after_hash,
                    original: entry.original,
                    replacement: entry.replacement,
                    mode: entry.mode,
                    temporary,
                    identity,
                    applied,
                },
            ),
        }
    }

    /// The journal with its replacements final.
    pub open spec fn committed(self) -> JournalModel {
        JournalModel {
            schema_version: self.schema_version,
            plan_id: self.plan_id,
            state: JournalState::Committed,
            directories: self.directories,
            entries: self.entries,
        }
    }

    /// Advancing a directory of a prepared journal keeps the journal valid and what was sealed.
    pub proof fn lemma_directory_progress(
        self,
        index: int,
        state: DirectoryState,
        identity: Option<FileIdentity>,
    )
        requires
            self.is_valid(),
            self.state == JournalState::Prepared,
            0 <= index < self.directories.len(),
            (state == DirectoryState::Created) == (identity is Some),
        ensures
            self.with_directory(index, state, identity).is_valid(),
            self.with_directory(index, state, identity).sealed() == self.sealed(),
    {
        let next = self.with_directory(index, state, identity);
        let old_list = self.directories;
        let new_list = next.directories;
        lemma_no_directories_failure(old_list, old_list.len() as int);
        assert forall|i: int| 0 <= i < new_list.len() implies #[trigger] directory_failure(
            new_list,
            i,
        ) is None by {
            assert(directory_failure(old_list, i) is None);
            assert(new_list[i].path == old_list[i].path);
            if directory_repeats(new_list, i) {
                let j = choose|j: int| 0 <= j < i && (#[trigger] new_list[j]).path
                    == new_list[i].path;
                assert(old_list[j].path == old_list[i].path);
                assert(directory_repeats(old_list, i));
            }
        }
        lemma_no_directories_failure(new_list, new_list.len() as int);
        assert(next.sealed().directories =~= self.sealed().directories);
        assert(next.sealed().entries =~= self.sealed().entries);
    }

    /// Changing the progress of an entry of a prepared journal keeps the journal valid and what
    /// was sealed.
    pub proof fn lemma_entry_progress(
        self,
        index: int,
        temporary: TemporaryState,
        identity: Option<FileIdentity>,
        applied: bool,
    )
        requires
            self.is_valid(),
            self.state == JournalState::Prepared,
            0 <= index < self.entries.len(),
            (temporary == TemporaryState::Created) == (identity is Some),
        ensures
            self.with_entry(index, temporary, identity, applied).is_valid(),
            self.with_entry(index, temporary, identity, applied).sealed() == self.sealed(),
    {
        let next = self.with_entry(index, temporary, identity, applied);
        let old_list = self.entries;
        let new_list = next.entries;
        lemma_no_entries_failure(old_list, old_list.len() as int);
        assert forall|i: int| 0 <= i < new_list.len() implies #[trigger] entry_failure(
            new_list,
            i,
        ) is None by {
            assert(entry_failure(old_list, i) is None);
            assert(new_list[i].path == old_list[i].path);
            if i > 0 {
                assert(new_list[i - 1].path == old_list[i - 1].path);
            }
            assert(new_list[i].original_bytes() == old_list[i].original_bytes());
            assert(new_list[i].replacement_bytes() == old_list[i].replacement_bytes());
            if entry_repeats(new_list, i) {
                let j = choose|j: int| 0 <= j < i && (#[trigger] new_list[j]).path
                    == new_list[i].path;
                assert(old_list[j].path == old_list[i].path);
                assert(entry_repeats(old_list, i));
            }
        }
        lemma_no_entries_failure(new_list, new_list.len() as int);
        assert(next.sealed().directories =~= self.sealed().directories);
        assert(next.sealed().entries =~= self.sealed().entries);
    }

    /// A complete journal stays valid, and what was sealed stays, when it is committed.
    pub proof fn lemma_commit(self)
        requires
            self.is_valid(),
            self.is_complete(),
        ensures
            self.committed().is_valid(),
            self.committed().sealed() == self.sealed(),
    {
        assert(self.committed().is_complete());
    }
}

impl Journal {
    /// Returns a journal of the same value.
    pub fn duplicate(&self) -> (copy: Self)
        ensures
            copy@ == self@,
    {
        let mut created_directories: Vec<JournalDirectory> = Vec::new();
        let mut index: usize = 0;
        while index < self.created_directories.len()
            invariant
                index <= self.created_directories@.len(),
                created_directories@.len() == index,
                forall|i: int|
                    0 <= i < index ==> (#[trigger] created_directories@[i])@
                        == self.created_directories@[i]@,
            decreases self.created_directories@.len() - index,
        {
            let directory = &self.created_directories[index];
            created_directories.push(
                JournalDirectory {
                    path: directory.path.clone(),
                    state: directory.state,
                    device: directory.device,
                    inode: directory.inode,
                },
            );
            index += 1;
        }
        let mut entries: Vec<JournalEntry> = Vec::new();
        let mut index: usize = 0;
        while index < self.entries.len()
            invariant
                index <= self.entries@.len(),
                entries@.len() == index,
                forall|i: int|
                    0 <= i < index ==> (#[trigger] entries@[i])@ == self.entries@[i]@,
            decreases self.entries@.len() - index,
        {
            entries.push(self.entries[index].duplicate());
            index += 1;
        }
        let copy = Journal {
            schema_version: self.schema_version,
            plan_id: self.plan_id.clone(),
            state: self.state,
            created_directories,
            entries,
        };
        assert(copy@.directories =~= self@.directories);
        assert(copy@.entries =~= self@.entries);
        copy
    }

    /// Records the progress of a directory.
    pub fn mark_directory(
        &mut self,
        index: usize,
        state: DirectoryState,
        identity: Option<FileIdentity>,
    )
        requires
            index < old(self)@.directories.len(),
        ensures
            final(self)@ == old(self)@.with_directory(index as int, state, identity),
    {
        let ghost before = self@;
        let (device, inode): (Option<u64>, Option<u64>) = match identity {
            Some(id) => (Some(id.device), Some(id.inode)),
            None => (None, None),
        };
        let path = self.created_directories[index].path.clone();
        self.created_directories.set(index, JournalDirectory { path, state, device, inode });
        assert(self@.directories =~= before.with_directory(
            index as int,
            state,
            identity,
        ).directories);
    }

    /// Records the progress of an entry.
    pub fn mark_entry(
        &mut self,
        index: usize,
        temporary: TemporaryState,
        identity: Option<FileIdentity>,
        applied: bool,
    )
        requires
            index < old(self)@.entries.len(),
        ensures
            final(self)@ == old(self)@.with_entry(index as int, temporary, identity, applied),
    {
        let ghost before = self@;
        let mut entry = self.entries[index].duplicate();
        entry.temporary_state = temporary;
        entry.temporary_identity = identity;
        entry.applied = applied;
        self.entries.set(index, entry);
        assert(self@.entries =~= before.with_entry(
            index as int,
            temporary,
            identity,
            applied,
        ).entries);
    }

    /// Makes the replacements final.
    pub fn mark_committed(&mut self)
        ensures
            final(self)@ == old(self)@.committed(),
    {
        self.state = JournalState::Committed;
    }
}

impl JournalEntry {
    /// Returns an entry of the same value.
    pub fn duplicate(&self) -> (copy: Self)
        ensures
            copy@ == self@,
    {
        JournalEntry {
            path: self.path.clone(),
            expected_before_sha256: clone_optional_text(&self.expected_before_sha256),
            expected_after_sha256: clone_optional_text(&self.expected_after_sha256),
            original: clone_encoded(&self.original),
            replacement: clone_encoded(&self.replacement),
            original_mode: self.original_mode,
            temporary_state: self.temporary_state,
            temporary_identity: self.temporary_identity,
            applied: self.applied,
        }
    }
}

fn clone_encoded(bytes: &Option<EncodedBytes>) -> (copy: Option<EncodedBytes>)
    ensures
        encoded_view(copy) == encoded_view(*bytes),
{
    match bytes {
        Some(value) => Some(EncodedBytes { encoding: ByteEncoding::Hex, data: value.data.clone() }),
        None => None,
    }
}

} // verus!
