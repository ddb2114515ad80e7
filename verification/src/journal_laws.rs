//! What a valid transaction journal is, and what preparing one seals.

use vstd::prelude::*;
use vstd::string::*;

use crate::digest::{hex, lemma_decode_exact, lemma_decode_of_encode, sha256};
use crate::journal::{decoded, is_hash, is_plan_char, is_plan_id, operation_path_failure};
use crate::paths::{has_special_component, is_special_component, name_of, relative_path_defect};
use crate::text::split_on;
use crate::transaction::{
    directories_failure, directories_for, directory_failure, directory_repeats, entries_failure,
    entry_failure, entry_repeats, file_bytes, file_mode, found_file, is_missing_parent,
    lemma_no_directories_failure, lemma_no_entries_failure, noted, operation_failure,
    operations_failure, parent_missing, parents, preparation_failure, sealed_journal,
    DirectoryModel, DirectoryState, EntryModel, JournalModel, JournalState, Observation,
    OperationModel, TemporaryState,
};

verus! {

// Paths.
/// Whether a path is relative to the project, in portable form: slashes between components that
/// are neither empty nor the current or the parent directory.
pub open spec fn is_portable(path: Seq<char>) -> bool {
    &&& path.len() > 0
    &&& !path.contains('\\')
    &&& forall|i: int|
        0 <= i < split_on(path, '/').len() ==> {
            let component = #[trigger] split_on(path, '/')[i];
            component.len() > 0 && component != "."@ && component != ".."@
        }
}

/// Whether a transaction may write a path: a portable one, none of the lifecycle's control files,
/// and not named like a temporary file of a transaction.
pub open spec fn is_writable(path: Seq<char>) -> bool {
    &&& is_portable(path)
    &&& path != ".omnius/lifecycle.lock"@
    &&& path != ".omnius/transaction.json"@
    &&& path != ".omnius/.transaction.json.tmp"@
    &&& path != ".omnius/.transaction.json.tmp.ready"@
    &&& !".omnius-transaction-"@.is_prefix_of(name_of(path))
}

proof fn lemma_first_component(path: Seq<char>)
    requires
        path.len() > 0,
        path[0] == '/',
    ensures
        split_on(path, '/').len() > 0,
        split_on(path, '/')[0].len() == 0,
    decreases path.len(),
{
    let before = path.drop_last();
    if path.len() == 1 {
        assert(before =~= Seq::<char>::empty());
        reveal_with_fuel(split_on, 2);
    } else {
        lemma_first_component(before);
        let pieces = split_on(before, '/');
        if path.last() != '/' && pieces.len() == 1 {
            lemma_separated(before);
        }
    }
}

proof fn lemma_separated(path: Seq<char>)
    requires
        path.len() > 0,
        path[0] == '/',
    ensures
        split_on(path, '/').len() > 1,
    decreases path.len(),
{
    let before = path.drop_last();
    if path.len() == 1 {
        assert(before =~= Seq::<char>::empty());
        reveal_with_fuel(split_on, 2);
    } else {
        lemma_separated(before);
    }
}

pub proof fn lemma_portable(path: Seq<char>)
    ensures
        relative_path_defect(path) is None <==> is_portable(path),
{
    if path.len() > 0 && path[0] == '/' {
        lemma_first_component(path);
    }
    if is_portable(path) && has_special_component(path) {
        let i = choose|i: int|
            0 <= i < split_on(path, '/').len() && is_special_component(
                #[trigger] split_on(path, '/')[i],
            );
        assert(is_special_component(split_on(path, '/')[i]));
    }
    if relative_path_defect(path) is None {
        assert forall|i: int| 0 <= i < split_on(path, '/').len() implies {
            let component = #[trigger] split_on(path, '/')[i];
            component.len() > 0 && component != "."@ && component != ".."@
        } by {
            assert(!is_special_component(split_on(path, '/')[i]));
        }
    }
}

/// A path can be the target of an operation if and only if a transaction may write it.
pub proof fn lemma_writable(path: Seq<char>)
    ensures
        operation_path_failure(path) is None <==> is_writable(path),
{
    lemma_portable(path);
}

// Validity.
/// Whether a string identifies a plan.
pub open spec fn identifies_plan(text: Seq<char>) -> bool {
    &&& 1 <= text.len() <= 128
    &&& forall|i: int|
        0 <= i < text.len() ==> {
            let character = #[trigger] text[i];
            ||| 'a' <= character && character <= 'z'
            ||| 'A' <= character && character <= 'Z'
            ||| '0' <= character && character <= '9'
            ||| character == '-'
            ||| character == '_'
        }
}

/// Whether a recorded directory is right: a portable path outside the control directory, with an
/// identity if and only if it was created.
pub open spec fn directory_is_valid(directory: DirectoryModel) -> bool {
    &&& is_portable(directory.path)
    &&& directory.path != ".omnius"@
    &&& !".omnius/"@.is_prefix_of(directory.path)
    &&& (directory.state == DirectoryState::Created) == (directory.device is Some)
    &&& (directory.state == DirectoryState::Created) == (directory.inode is Some)
}

/// The hash of bytes that may be missing.
pub open spec fn digest_of(bytes: Option<Seq<u8>>) -> Option<Seq<char>> {
    match bytes {
        Some(value) => Some(hex(sha256(value))),
        None => None,
    }
}

/// The written form of bytes that may be missing.
pub open spec fn written_form(bytes: Option<Seq<u8>>) -> Option<Seq<char>> {
    match bytes {
        Some(value) => Some(hex(value)),
        None => None,
    }
}

/// Whether an entry seals the bytes that were there and the bytes that replace them, which differ:
/// both with their hashes, and the mode of what was there.
pub open spec fn seals(
    entry: EntryModel,
    original: Option<Seq<u8>>,
    replacement: Option<Seq<u8>>,
) -> bool {
    &&& entry.original == written_form(original)
    &&& entry.replacement == written_form(replacement)
    &&& original != replacement
    &&& entry.before_hash == digest_of(original)
    &&& entry.after_hash == digest_of(replacement)
    &&& entry.before_hash matches Some(hash) ==> is_hash(hash)
    &&& entry.after_hash matches Some(hash) ==> is_hash(hash)
    &&& original is Some <==> entry.mode is Some
    &&& entry.mode matches Some(mode) ==> mode <= 0o7777
}

/// Whether an entry is right: its path can be written, it seals what was there and what replaces
/// it, and it knows an identity if and only if its temporary file was created.
pub open spec fn entry_is_valid(entry: EntryModel) -> bool {
    &&& is_writable(entry.path)
    &&& (entry.temporary == TemporaryState::Created) == (entry.identity is Some)
    &&& exists|original: Option<Seq<u8>>, replacement: Option<Seq<u8>>| #[trigger]
        seals(entry, original, replacement)
}

/// Whether an entry may stand before another: no file stands behind the lockfile but the state, and
/// none behind the state.
pub open spec fn may_precede(first: EntryModel, second: EntryModel) -> bool {
    &&& first.path != second.path
    &&& first.path == "Cargo.lock"@ ==> second.path == ".omnius/service.toml"@
    &&& first.path != ".omnius/service.toml"@
}

/// Whether a journal is right.
pub open spec fn journal_is_valid(journal: JournalModel) -> bool {
    &&& journal.schema_version == 1
    &&& identifies_plan(journal.plan_id)
    &&& journal.entries.len() > 0
    &&& forall|i: int|
        0 <= i < journal.directories.len() ==> directory_is_valid(#[trigger] journal.directories[i])
    &&& forall|i: int, j: int|
        0 <= i < j < journal.directories.len() ==> (#[trigger] journal.directories[i]).path != (
        #[trigger] journal.directories[j]).path
    &&& forall|i: int|
        0 <= i < journal.entries.len() ==> entry_is_valid(#[trigger] journal.entries[i])
    &&& forall|i: int, j: int|
        0 <= i < j < journal.entries.len() ==> may_precede(
            #[trigger] journal.entries[i],
            #[trigger] journal.entries[j],
        )
    &&& journal.state == JournalState::Committed ==> {
        &&& forall|i: int|
            0 <= i < journal.entries.len() ==> (#[trigger] journal.entries[i]).applied
                && journal.entries[i].temporary == TemporaryState::Absent
        &&& forall|i: int|
            0 <= i < journal.directories.len() ==> (#[trigger] journal.directories[i]).state
                == DirectoryState::Created
    }
}

proof fn lemma_plan_name(text: Seq<char>)
    ensures
        is_plan_id(text) <==> identifies_plan(text),
{
    if identifies_plan(text) {
        assert forall|i: int| 0 <= i < text.len() implies is_plan_char(#[trigger] text[i]) by {}
    }
    if is_plan_id(text) {
        assert forall|i: int| 0 <= i < text.len() implies {
            let character = #[trigger] text[i];
            ||| 'a' <= character && character <= 'z'
            ||| 'A' <= character && character <= 'Z'
            ||| '0' <= character && character <= '9'
            ||| character == '-'
            ||| character == '_'
        } by {
            assert(is_plan_char(text[i]));
        }
    }
}

proof fn lemma_written_form(data: Option<Seq<char>>, bytes: Option<Seq<u8>>)
    ensures
        decoded(data) == Ok::<Option<Seq<u8>>, crate::digest::HexError>(bytes) <==> data
            == written_form(bytes),
{
    if let Some(text) = data {
        if let Some(value) = bytes {
            lemma_decode_exact(text, value);
            lemma_decode_of_encode(value);
        }
    }
}

proof fn lemma_own_entry(entry: EntryModel)
    ensures
        (operation_path_failure(entry.path) is None && entry.own_failure() is None)
            <==> entry_is_valid(entry),
{
    lemma_writable(entry.path);
    if entry.own_failure() is None {
        let original = entry.original_bytes();
        let replacement = entry.replacement_bytes();
        lemma_written_form(entry.original, original);
        lemma_written_form(entry.replacement, replacement);
        assert(seals(entry, original, replacement));
    }
    if entry_is_valid(entry) {
        let (original, replacement) = choose|
            original: Option<Seq<u8>>,
            replacement: Option<Seq<u8>>,
        | #[trigger]
            seals(entry, original, replacement);
        lemma_written_form(entry.original, original);
        lemma_written_form(entry.replacement, replacement);
        assert(entry.contents_failure() is None);
    }
}

spec fn follows(entries: Seq<EntryModel>, at: int) -> bool {
    entries[at - 1].phase() <= entries[at].phase()
}

proof fn lemma_phases(entries: Seq<EntryModel>, first: int, second: int)
    requires
        0 <= first < second < entries.len(),
        forall|i: int| 0 < i < entries.len() ==> #[trigger] follows(entries, i),
    ensures
        entries[first].phase() <= entries[second].phase(),
    decreases second - first,
{
    assert(follows(entries, second));
    if first < second - 1 {
        lemma_phases(entries, first, second - 1);
    }
}

proof fn lemma_literals()
    ensures
        "Cargo.lock"@ != ".omnius/service.toml"@,
{
    reveal_strlit("Cargo.lock");
    reveal_strlit(".omnius/service.toml");
    assert("Cargo.lock"@.len() != ".omnius/service.toml"@.len());
}

proof fn lemma_right_entries(entries: Seq<EntryModel>)
    requires
        forall|i: int|
            0 <= i < entries.len() ==> #[trigger] entry_failure(entries, i) is None,
    ensures
        forall|i: int| 0 <= i < entries.len() ==> entry_is_valid(#[trigger] entries[i]),
        forall|i: int, j: int|
            0 <= i < j < entries.len() ==> may_precede(#[trigger] entries[i], #[trigger] entries[j]),
{
    assert forall|i: int| 0 < i < entries.len() implies #[trigger] follows(entries, i) by {
        assert(entry_failure(entries, i) is None);
    }
    assert forall|i: int| 0 <= i < entries.len() implies entry_is_valid(#[trigger] entries[i]) by {
        assert(entry_failure(entries, i) is None);
        lemma_own_entry(entries[i]);
    }
    assert forall|i: int, j: int| 0 <= i < j < entries.len() implies may_precede(
        #[trigger] entries[i],
        #[trigger] entries[j],
    ) by {
        assert(entry_failure(entries, j) is None);
        assert(!entry_repeats(entries, j));
        lemma_phases(entries, i, j);
        lemma_literals();
    }
}

proof fn lemma_entry_accepted(entries: Seq<EntryModel>, at: int)
    requires
        0 <= at < entries.len(),
        forall|i: int| 0 <= i < entries.len() ==> entry_is_valid(#[trigger] entries[i]),
        forall|i: int, j: int|
            0 <= i < j < entries.len() ==> may_precede(#[trigger] entries[i], #[trigger] entries[j]),
    ensures
        entry_failure(entries, at) is None,
{
    lemma_literals();
    lemma_own_entry(entries[at]);
    if at > 0 {
        assert(may_precede(entries[at - 1], entries[at]));
    }
    if entry_repeats(entries, at) {
        let j = choose|j: int| 0 <= j < at && (#[trigger] entries[j]).path == entries[at].path;
        assert(may_precede(entries[j], entries[at]));
    }
}

proof fn lemma_entries(entries: Seq<EntryModel>)
    ensures
        entries_failure(entries, entries.len() as int) is None <==> {
            &&& forall|i: int| 0 <= i < entries.len() ==> entry_is_valid(#[trigger] entries[i])
            &&& forall|i: int, j: int|
                0 <= i < j < entries.len() ==> may_precede(
                    #[trigger] entries[i],
                    #[trigger] entries[j],
                )
        },
{
    lemma_no_entries_failure(entries, entries.len() as int);
    if entries_failure(entries, entries.len() as int) is None {
        lemma_right_entries(entries);
    }
    if {
        &&& forall|i: int| 0 <= i < entries.len() ==> entry_is_valid(#[trigger] entries[i])
        &&& forall|i: int, j: int|
            0 <= i < j < entries.len() ==> may_precede(#[trigger] entries[i], #[trigger] entries[j])
    } {
        assert forall|i: int| 0 <= i < entries.len() implies #[trigger] entry_failure(
            entries,
            i,
        ) is None by {
            lemma_entry_accepted(entries, i);
        }
    }
}

proof fn lemma_directories(directories: Seq<DirectoryModel>)
    ensures
        directories_failure(directories, directories.len() as int) is None
            <==> {
            &&& forall|i: int|
                0 <= i < directories.len() ==> directory_is_valid(#[trigger] directories[i])
            &&& forall|i: int, j: int|
                0 <= i < j < directories.len() ==> (#[trigger] directories[i]).path != (
                #[trigger] directories[j]).path
        },
{
    lemma_no_directories_failure(directories, directories.len() as int);
    assert forall|i: int| 0 <= i < directories.len() implies (#[trigger] directory_failure(
        directories,
        i,
    ) is None <==> directory_is_valid(directories[i]) && !directory_repeats(directories, i)) by {
        lemma_portable(directories[i].path);
    }
    if directories_failure(directories, directories.len() as int) is None {
        assert forall|i: int| 0 <= i < directories.len() implies directory_is_valid(
            #[trigger] directories[i],
        ) by {
            assert(directory_failure(directories, i) is None);
        }
        assert forall|i: int, j: int| 0 <= i < j < directories.len() implies (
        #[trigger] directories[i]).path != (#[trigger] directories[j]).path by {
            assert(directory_failure(directories, j) is None);
            assert(!directory_repeats(directories, j));
        }
    }
    if {
        &&& forall|i: int|
            0 <= i < directories.len() ==> directory_is_valid(#[trigger] directories[i])
        &&& forall|i: int, j: int|
            0 <= i < j < directories.len() ==> (#[trigger] directories[i]).path != (
            #[trigger] directories[j]).path
    } {
        assert forall|i: int| 0 <= i < directories.len() implies #[trigger] directory_failure(
            directories,
            i,
        ) is None by {
            assert(directory_is_valid(directories[i]));
        }
    }
}

/// A journal is accepted if and only if it is right.
pub proof fn lemma_valid_journal(journal: JournalModel)
    ensures
        journal.is_valid() <==> journal_is_valid(journal),
{
    lemma_plan_name(journal.plan_id);
    lemma_directories(journal.directories);
    lemma_entries(journal.entries);
    if journal_is_valid(journal) {
        assert forall|i: int| 0 <= i < journal.entries.len() implies (
        #[trigger] journal.entries[i]).temporary == TemporaryState::Created
            || journal.entries[i].identity is None by {
            assert(entry_is_valid(journal.entries[i]));
        }
    }
}

// Preparation.
proof fn lemma_operations(
    operations: Seq<OperationModel>,
    observations: Seq<Observation>,
    count: int,
)
    requires
        0 <= count <= operations.len(),
    ensures
        operations_failure(operations, observations, count) is None <==> forall|i: int|
            0 <= i < count ==> #[trigger] operation_failure(operations, observations, i) is None,
    decreases count,
{
    if count > 0 {
        lemma_operations(operations, observations, count - 1);
        assert(operation_failure(operations, observations, count - 1) is None || operation_failure(
            operations,
            observations,
            count - 1,
        ) is Some);
    }
}

/// Operations are sealed into a journal only where each of them finds what it expects, something
/// other than what it writes, at a path of its own. The journal is then right, and each entry seals
/// what its operation found, with its mode, and what the operation writes; nothing is applied.
pub proof fn lemma_prepared_journal(
    plan_id: Seq<char>,
    operations: Seq<OperationModel>,
    observations: Seq<Observation>,
)
    requires
        preparation_failure(plan_id, operations, observations) is None,
    ensures
        ({
            let journal = sealed_journal(plan_id, operations, observations);
            &&& journal_is_valid(journal)
            &&& journal.plan_id == plan_id
            &&& journal.state == JournalState::Prepared
            &&& journal.entries.len() == operations.len()
            &&& forall|i: int|
                0 <= i < operations.len() ==> {
                    let found = found_file(operations, observations, i);
                    &&& digest_of(file_bytes(found)) == (#[trigger] operations[i]).before_hash
                    &&& journal.entries[i].path == operations[i].path
                    &&& seals(
                        journal.entries[i],
                        file_bytes(found),
                        operations[i].replacement,
                    )
                    &&& journal.entries[i].mode == file_mode(found)
                    &&& !journal.entries[i].applied
                    &&& journal.entries[i].temporary == TemporaryState::Absent
                }
            &&& forall|i: int|
                0 <= i < journal.directories.len() ==> (#[trigger] journal.directories[i]).state
                    == DirectoryState::Planned
        }),
{
    let journal = sealed_journal(plan_id, operations, observations);
    lemma_valid_journal(journal);
    lemma_operations(operations, observations, operations.len() as int);
    assert forall|i: int| 0 <= i < operations.len() implies {
        let found = found_file(operations, observations, i);
        &&& digest_of(file_bytes(found)) == (#[trigger] operations[i]).before_hash
        &&& journal.entries[i].path == operations[i].path
        &&& seals(journal.entries[i], file_bytes(found), operations[i].replacement)
        &&& journal.entries[i].mode == file_mode(found)
        &&& !journal.entries[i].applied
        &&& journal.entries[i].temporary == TemporaryState::Absent
    } by {
        let found = found_file(operations, observations, i);
        assert(operation_failure(operations, observations, i) is None);
        assert(entry_is_valid(journal.entries[i]));
        let (original, replacement) = choose|
            original: Option<Seq<u8>>,
            replacement: Option<Seq<u8>>,
        | #[trigger]
            seals(journal.entries[i], original, replacement);
        lemma_written_form(journal.entries[i].original, original);
        lemma_written_form(journal.entries[i].replacement, replacement);
        lemma_written_form(journal.entries[i].original, file_bytes(found));
        lemma_written_form(journal.entries[i].replacement, operations[i].replacement);
    }
}

/// Whether the directory at `place` is not there or is one of those that are created anyway.
pub open spec fn is_absent(
    created: Seq<Seq<char>>,
    list: Seq<Seq<char>>,
    place: int,
    present: nat,
) -> bool {
    place >= present || created.contains(list[place])
}

/// Whether the parent at `place` of the path of an operation has to be created, where the
/// directories of `created` are: it is not there, or it is one of those, or stands in such a one.
pub open spec fn is_to_create(
    created: Seq<Seq<char>>,
    list: Seq<Seq<char>>,
    place: int,
    present: nat,
) -> bool {
    exists|j: int| 0 <= j <= place && #[trigger] is_absent(created, list, j, present)
}

proof fn lemma_noted(
    start: Seq<Seq<char>>,
    created: Seq<Seq<char>>,
    list: Seq<Seq<char>>,
    at: int,
    missing: bool,
    present: nat,
)
    requires
        0 <= at <= list.len(),
        start.is_prefix_of(created),
        created.no_duplicates(),
        list.no_duplicates(),
        missing ==> at > 0 && is_to_create(start, list, at - 1, present),
        !missing ==> created == start && (at > 0 ==> !is_to_create(start, list, at - 1, present)),
        forall|path: Seq<char>| #[trigger]
            created.contains(path) <==> start.contains(path) || exists|i: int|
                0 <= i < at && #[trigger] list[i] == path && is_to_create(start, list, i, present),
    ensures
        ({
            let all = noted(created, list, at, missing, present);
            &&& start.is_prefix_of(all)
            &&& all.no_duplicates()
            &&& forall|path: Seq<char>| #[trigger]
                all.contains(path) <==> start.contains(path) || exists|i: int|
                    0 <= i < list.len() && #[trigger] list[i] == path && is_to_create(
                        start,
                        list,
                        i,
                        present,
                    )
        }),
    decreases list.len() - at,
{
    if at < list.len() {
        let now = missing || at >= present || created.contains(list[at]);
        if created.contains(list[at]) && !missing {
            assert(start.contains(list[at]));
        }
        assert(now <==> is_to_create(start, list, at, present)) by {
            if now {
                if missing {
                    let j = choose|j: int|
                        0 <= j <= at - 1 && #[trigger] is_absent(start, list, j, present);
                    assert(0 <= j <= at);
                } else {
                    assert(is_absent(start, list, at, present));
                }
            } else if is_to_create(start, list, at, present) {
                let j = choose|j: int|
                    0 <= j <= at && #[trigger] is_absent(start, list, j, present);
                if j < at {
                    assert(is_to_create(start, list, at - 1, present));
                }
            }
        }
        let more = if now && !created.contains(list[at]) {
            created.push(list[at])
        } else {
            created
        };
        assert(start.is_prefix_of(more));
        assert forall|path: Seq<char>| #[trigger]
            more.contains(path) <==> start.contains(path) || exists|i: int|
                0 <= i < at + 1 && #[trigger] list[i] == path && is_to_create(
                    start,
                    list,
                    i,
                    present,
                ) by {
            assert(created.contains(path) <==> start.contains(path) || exists|i: int|
                0 <= i < at && #[trigger] list[i] == path && is_to_create(start, list, i, present));
            if more.contains(path) {
                let k = choose|k: int| 0 <= k < more.len() && more[k] == path;
                if k < created.len() {
                    assert(created[k] == path);
                } else {
                    assert(list[at] == path);
                }
            }
            if created.contains(path) {
                let k = choose|k: int| 0 <= k < created.len() && created[k] == path;
                assert(more[k] == path);
            }
            if now {
                if !created.contains(list[at]) {
                    assert(more[created.len() as int] == list[at]);
                }
                assert(more.contains(list[at]));
            }
        }
        lemma_noted(start, more, list, at + 1, now, present);
    }
}

/// The directories that are created for operations are each other's and the files' parents: for the
/// operation behind some others, those of its parents that are not there, that are created for the
/// others, or that stand in such a one. None is created twice.
pub proof fn lemma_created_directories(
    operations: Seq<OperationModel>,
    observations: Seq<Observation>,
    count: int,
)
    requires
        0 < count <= operations.len(),
        forall|i: int|
            0 <= i < operations.len() ==> parents((#[trigger] operations[i]).path).no_duplicates(),
    ensures
        ({
            let before = directories_for(operations, observations, count - 1);
            let list = parents(operations[count - 1].path);
            let present = observations[count - 1].present_parents as nat;
            let all = directories_for(operations, observations, count);
            &&& all.no_duplicates()
            &&& before.is_prefix_of(all)
            &&& forall|path: Seq<char>| #[trigger]
                all.contains(path) <==> before.contains(path) || exists|i: int|
                    0 <= i < list.len() && #[trigger] list[i] == path && is_to_create(
                        before,
                        list,
                        i,
                        present,
                    )
        }),
    decreases count,
{
    let before = directories_for(operations, observations, count - 1);
    if count > 1 {
        lemma_created_directories(operations, observations, count - 1);
    }
    assert(parents(operations[count - 1].path).no_duplicates());
    lemma_noted(
        before,
        before,
        parents(operations[count - 1].path),
        0,
        false,
        observations[count - 1].present_parents as nat,
    );
}

proof fn lemma_missing(created: Seq<Seq<char>>, list: Seq<Seq<char>>, present: nat)
    requires
        list.len() > 0,
    ensures
        parent_missing(created, list, list.len() as int, present) <==> is_to_create(
            created,
            list,
            list.len() - 1,
            present,
        ),
{
    let last = list.len() - 1;
    if parent_missing(created, list, list.len() as int, present) {
        let k = choose|k: int|
            0 <= k < list.len() && #[trigger] is_missing_parent(created, list, k, present);
        assert(is_absent(created, list, k, present));
    }
    if is_to_create(created, list, last, present) {
        let j = choose|j: int| 0 <= j <= last && #[trigger] is_absent(created, list, j, present);
        assert(is_missing_parent(created, list, j, present));
    }
}

/// An operation finds no file where a directory on the way to it has to be created, and otherwise
/// what was observed.
pub proof fn lemma_found(
    operations: Seq<OperationModel>,
    observations: Seq<Observation>,
    at: int,
)
    requires
        0 <= at < operations.len(),
    ensures
        ({
            let list = parents(operations[at].path);
            let missing = list.len() > 0 && is_to_create(
                directories_for(operations, observations, at),
                list,
                list.len() - 1,
                observations[at].present_parents as nat,
            );
            found_file(operations, observations, at) == if missing {
                None
            } else {
                observations[at].current
            }
        }),
{
    let list = parents(operations[at].path);
    if list.len() > 0 {
        lemma_missing(
            directories_for(operations, observations, at),
            list,
            observations[at].present_parents as nat,
        );
    }
}

} // verus!
