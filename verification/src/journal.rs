//! The durable transaction journal: its entries, their validation, and what recovery does with
//! them.
//!
//! A journal seals the original and the replacement bytes of every file of a transaction before
//! any of them is changed. While it is prepared, recovery restores every original; once it is
//! committed, recovery keeps every replacement.

use vstd::prelude::*;
use vstd::string::*;

use crate::digest::{
    decode_hex, encode_hex, hex, hex_char, hex_decoded, is_hex_digit, is_lower_hex,
    lemma_decode_of_encode, sha256, sha256_hex, HexError,
};
use crate::paths::{name_of, relative_path_defect, split_parent_name, validate_relative_path};
use crate::text::{
    chars_of, clone_optional_text, decimal, decimal_text, join2, join3, join4, join6, optional_view,
    same_bytes, same_optional_text, same_text, starts_with, text_of,
};

verus! {

/// Stable project-relative path of the process-wide lifecycle advisory lock.
pub const LIFECYCLE_LOCK_PATH: &'static str = ".omnius/lifecycle.lock";

/// Stable project-relative path of the durable transaction journal.
pub const TRANSACTION_JOURNAL_PATH: &'static str = ".omnius/transaction.json";

/// Path of a journal that is being written.
pub const JOURNAL_TEMP_PATH: &'static str = ".omnius/.transaction.json.tmp";

/// Path of the marker that a journal has been written completely.
pub const JOURNAL_READY_PATH: &'static str = ".omnius/.transaction.json.tmp.ready";

/// Path of the lifecycle state.
pub const STATE_FILE_PATH: &'static str = ".omnius/service.toml";

/// Directory of the lifecycle control files.
pub const CONTROL_DIRECTORY: &'static str = ".omnius";

/// Version of the journal's form.
pub const JOURNAL_SCHEMA_VERSION: u32 = 1;

/// A lifecycle journal failure, by its values.
#[allow(inconsistent_fields)]
pub enum JournalFailure {
    /// A file or directory would traverse a symlink or use an unexpected file type.
    UnsafePath {
        /// Affected path.
        path: Seq<char>,
        /// Reason.
        reason: Seq<char>,
    },
    /// A plan identifier or journal-level invariant is invalid.
    InvalidPlan(Seq<char>),
    /// One operation is malformed or internally inconsistent.
    InvalidOperation {
        /// Affected path.
        path: Seq<char>,
        /// Reason.
        reason: Seq<char>,
    },
    /// Expected presealed bytes no longer match the filesystem.
    StaleInput {
        /// Affected path.
        path: Seq<char>,
        /// Sealed hash, absent for a missing file.
        expected: Option<Seq<char>>,
        /// Observed hash, absent for a missing file.
        actual: Option<Seq<char>>,
    },
    /// Recovery or application found bytes outside both sealed states.
    UnexpectedContents {
        /// Affected path.
        path: Seq<char>,
        /// What was expected.
        expected: Seq<char>,
        /// Observed hash, absent for a missing file.
        actual: Option<Seq<char>>,
    },
    /// A failure outside the library.
    Outside,
}

/// Deterministic lifecycle journal failure.
#[allow(inconsistent_fields)]
#[derive(Debug, PartialEq, Eq)]
pub enum JournalError {
    /// The exclusive lifecycle lock is already held.
    LockBusy {
        /// Lock path.
        path: String,
    },
    /// A file or directory would traverse a symlink or use an unexpected file type.
    UnsafePath {
        /// Affected path.
        path: String,
        /// Reason.
        reason: String,
    },
    /// A transaction journal already exists and must be recovered first.
    TransactionExists {
        /// Journal path.
        path: String,
    },
    /// A plan identifier or journal-level invariant is invalid.
    InvalidPlan(String),
    /// One operation is malformed or internally inconsistent.
    InvalidOperation {
        /// Affected path.
        path: String,
        /// Reason.
        reason: String,
    },
    /// Expected presealed bytes no longer match the filesystem.
    StaleInput {
        /// Affected path.
        path: String,
        /// Sealed hash, absent for a missing file.
        expected_sha256: Option<String>,
        /// Observed hash, absent for a missing file.
        actual_sha256: Option<String>,
    },
    /// Recovery or application found bytes outside both sealed states.
    UnexpectedContents {
        /// Affected path.
        path: String,
        /// What was expected.
        expected: String,
        /// Observed hash, absent for a missing file.
        actual_sha256: Option<String>,
    },
    /// Journal JSON could not be decoded.
    Decode(String),
    /// Journal JSON could not be encoded.
    Encode(String),
    /// A filesystem operation failed.
    Filesystem {
        /// What was attempted.
        action: String,
        /// Affected path.
        path: String,
        /// Underlying failure.
        failure: String,
    },
    /// Application was deliberately interrupted.
    InjectedFault {
        /// Boundary of the interruption.
        boundary: ApplyBoundary,
        /// Message of the interruption.
        message: String,
    },
    /// An ordinary apply failure could not be reversed to the sealed original bytes.
    RollbackFailed {
        /// Original application failure.
        apply: String,
        /// Recovery failure.
        rollback: String,
    },
}

/// A durable point at which an application can be interrupted.
#[derive(Clone, Copy, Debug, PartialEq, Eq, Structural)]
pub enum ApplyBoundary {
    /// Immediately before a transaction-owned parent directory is created.
    BeforeDirectory {
        /// Directory index.
        directory: usize,
    },
    /// After the journal records directory-creation intent and before `mkdir`.
    AfterDirectoryIntentSync {
        /// Directory index.
        directory: usize,
    },
    /// After directory creation and before its parent directory is synced.
    AfterDirectoryCreated {
        /// Directory index.
        directory: usize,
    },
    /// After the new directory's parent has been synced.
    AfterDirectorySync {
        /// Directory index.
        directory: usize,
    },
    /// Immediately before one sealed file entry is inspected or changed.
    BeforeOperation {
        /// Entry index.
        entry: usize,
    },
    /// After the journal records temporary-file intent and before exclusive creation.
    AfterTemporaryIntentSync {
        /// Entry index.
        entry: usize,
    },
    /// After exclusive temporary-file creation and before its identity is journaled.
    AfterTemporaryFileCreated {
        /// Entry index.
        entry: usize,
    },
    /// After a replacement temporary file has been synced and before rename.
    AfterTemporaryFileSync {
        /// Entry index.
        entry: usize,
    },
    /// After rename or deletion and before the containing directory is synced.
    AfterTargetChange {
        /// Entry index.
        entry: usize,
    },
    /// After the changed target's containing directory has been synced.
    AfterTargetDirectorySync {
        /// Entry index.
        entry: usize,
    },
    /// After the entry's applied status has been durably journaled.
    AfterAppliedStatusSync {
        /// Entry index.
        entry: usize,
    },
    /// Before the journal transitions from prepared to committed.
    BeforeCommit,
    /// After the committed journal has been durably persisted.
    AfterCommitSync,
    /// After the committed journal has been removed but before directory sync.
    AfterJournalRemoval,
    /// After journal removal has been durably synced.
    AfterJournalDirectorySync,
}

impl ApplyBoundary {
    /// The boundary's name.
    pub open spec fn text(self) -> Seq<char> {
        match self {
            ApplyBoundary::BeforeDirectory { directory } => "before-directory-"@ + decimal(
                directory as nat,
            ),
            ApplyBoundary::AfterDirectoryIntentSync { directory } =>
                "after-directory-intent-sync-"@ + decimal(directory as nat),
            ApplyBoundary::AfterDirectoryCreated { directory } => "after-directory-created-"@
                + decimal(directory as nat),
            ApplyBoundary::AfterDirectorySync { directory } => "after-directory-sync-"@ + decimal(
                directory as nat,
            ),
            ApplyBoundary::BeforeOperation { entry } => "before-operation-"@ + decimal(
                entry as nat,
            ),
            ApplyBoundary::AfterTemporaryIntentSync { entry } => "after-temporary-intent-sync-"@
                + decimal(entry as nat),
            ApplyBoundary::AfterTemporaryFileCreated { entry } => "after-temporary-file-created-"@
                + decimal(entry as nat),
            ApplyBoundary::AfterTemporaryFileSync { entry } => "after-temporary-file-sync-"@
                + decimal(entry as nat),
            ApplyBoundary::AfterTargetChange { entry } => "after-target-change-"@ + decimal(
                entry as nat,
            ),
            ApplyBoundary::AfterTargetDirectorySync { entry } => "after-target-directory-sync-"@
                + decimal(entry as nat),
            ApplyBoundary::AfterAppliedStatusSync { entry } => "after-applied-status-sync-"@
                + decimal(entry as nat),
            ApplyBoundary::BeforeCommit => "before-commit"@,
            ApplyBoundary::AfterCommitSync => "after-commit-sync"@,
            ApplyBoundary::AfterJournalRemoval => "after-journal-removal"@,
            ApplyBoundary::AfterJournalDirectorySync => "after-journal-directory-sync"@,
        }
    }

    /// Returns the boundary's name.
    pub fn message(self) -> (text: String)
        ensures
            text@ == self.text(),
    {
        let (label, number): (&str, usize) = match self {
            ApplyBoundary::BeforeDirectory { directory } => ("before-directory-", directory),
            ApplyBoundary::AfterDirectoryIntentSync { directory } => (
                "after-directory-intent-sync-",
                directory,
            ),
            ApplyBoundary::AfterDirectoryCreated { directory } => (
                "after-directory-created-",
                directory,
            ),
            ApplyBoundary::AfterDirectorySync { directory } => ("after-directory-sync-", directory),
            ApplyBoundary::BeforeOperation { entry } => ("before-operation-", entry),
            ApplyBoundary::AfterTemporaryIntentSync { entry } => (
                "after-temporary-intent-sync-",
                entry,
            ),
            ApplyBoundary::AfterTemporaryFileCreated { entry } => (
                "after-temporary-file-created-",
                entry,
            ),
            ApplyBoundary::AfterTemporaryFileSync { entry } => (
                "after-temporary-file-sync-",
                entry,
            ),
            ApplyBoundary::AfterTargetChange { entry } => ("after-target-change-", entry),
            ApplyBoundary::AfterTargetDirectorySync { entry } => (
                "after-target-directory-sync-",
                entry,
            ),
            ApplyBoundary::AfterAppliedStatusSync { entry } => (
                "after-applied-status-sync-",
                entry,
            ),
            ApplyBoundary::BeforeCommit => {
                return "before-commit".to_owned();
            },
            ApplyBoundary::AfterCommitSync => {
                return "after-commit-sync".to_owned();
            },
            ApplyBoundary::AfterJournalRemoval => {
                return "after-journal-removal".to_owned();
            },
            ApplyBoundary::AfterJournalDirectorySync => {
                return "after-journal-directory-sync".to_owned();
            },
        };
        let digits = decimal_text(number as u64);
        join2(label, digits.as_str())
    }
}

/// A hash as a diagnostic shows it.
pub open spec fn shown_hash(hash: Option<Seq<char>>) -> Seq<char> {
    match hash {
        Some(value) => value,
        None => "<missing>"@,
    }
}

/// Returns a hash as a diagnostic shows it.
pub fn hash_or_missing(hash: &Option<String>) -> (text: &str)
    ensures
        text@ == shown_hash(optional_view(*hash)),
{
    match hash {
        Some(value) => value.as_str(),
        None => "<missing>",
    }
}

impl JournalError {
    /// The failure that this error reports.
    pub open spec fn failure(self) -> JournalFailure {
        match self {
            JournalError::UnsafePath { path, reason } => JournalFailure::UnsafePath {
                path: path@,
                reason: reason@,
            },
            JournalError::InvalidPlan(message) => JournalFailure::InvalidPlan(message@),
            JournalError::InvalidOperation { path, reason } => JournalFailure::InvalidOperation {
                path: path@,
                reason: reason@,
            },
            JournalError::StaleInput { path, expected_sha256, actual_sha256 } =>
                JournalFailure::StaleInput {
                    path: path@,
                    expected: optional_view(expected_sha256),
                    actual: optional_view(actual_sha256),
                },
            JournalError::UnexpectedContents { path, expected, actual_sha256 } =>
                JournalFailure::UnexpectedContents {
                    path: path@,
                    expected: expected@,
                    actual: optional_view(actual_sha256),
                },
            _ => JournalFailure::Outside,
        }
    }

    /// The diagnostic text.
    pub open spec fn text(self) -> Seq<char> {
        match self {
            JournalError::LockBusy { path } => "lifecycle lock is already held at "@ + path@,
            JournalError::UnsafePath { path, reason } => "unsafe lifecycle path "@ + path@ + ": "@
                + reason@,
            JournalError::TransactionExists { path } =>
                "transaction journal already exists at "@ + path@
                    + "; recover it before preparing another transaction"@,
            JournalError::InvalidPlan(message) => "invalid lifecycle plan: "@ + message@,
            JournalError::InvalidOperation { path, reason } => "invalid lifecycle operation `"@
                + path@ + "`: "@ + reason@,
            JournalError::StaleInput { path, expected_sha256, actual_sha256 } =>
                "stale lifecycle input `"@ + path@ + "`: expected "@ + shown_hash(
                    optional_view(expected_sha256),
                ) + ", found "@ + shown_hash(optional_view(actual_sha256)),
            JournalError::UnexpectedContents { path, expected, actual_sha256 } =>
                "unexpected bytes at `"@ + path@ + "`: expected "@ + expected@ + ", found "@
                    + shown_hash(optional_view(actual_sha256)),
            JournalError::Decode(failure) => "invalid durable journal at "@
                + TRANSACTION_JOURNAL_PATH@ + ": "@ + failure@,
            JournalError::Encode(failure) => "cannot encode durable journal: "@ + failure@,
            JournalError::Filesystem { action, path, failure } => "cannot "@ + action@ + " at "@
                + path@ + ": "@ + failure@,
            JournalError::InjectedFault { boundary, message } => "injected lifecycle fault at "@
                + boundary.text() + ": "@ + message@,
            JournalError::RollbackFailed { apply, rollback } => "lifecycle apply failed: "@
                + apply@ + "; rollback also failed: "@ + rollback@,
        }
    }

    /// Returns the diagnostic text.
    pub fn message(&self) -> (text: String)
        ensures
            text@ == self.text(),
    {
        match self {
            JournalError::LockBusy { path } => join2(
                "lifecycle lock is already held at ",
                path.as_str(),
            ),
            JournalError::UnsafePath { path, reason } => join4(
                "unsafe lifecycle path ",
                path.as_str(),
                ": ",
                reason.as_str(),
            ),
            JournalError::TransactionExists { path } => join3(
                "transaction journal already exists at ",
                path.as_str(),
                "; recover it before preparing another transaction",
            ),
            JournalError::InvalidPlan(message) => join2(
                "invalid lifecycle plan: ",
                message.as_str(),
            ),
            JournalError::InvalidOperation { path, reason } => join4(
                "invalid lifecycle operation `",
                path.as_str(),
                "`: ",
                reason.as_str(),
            ),
            JournalError::StaleInput { path, expected_sha256, actual_sha256 } => join6(
                "stale lifecycle input `",
                path.as_str(),
                "`: expected ",
                hash_or_missing(expected_sha256),
                ", found ",
                hash_or_missing(actual_sha256),
            ),
            JournalError::UnexpectedContents { path, expected, actual_sha256 } => join6(
                "unexpected bytes at `",
                path.as_str(),
                "`: expected ",
                expected.as_str(),
                ", found ",
                hash_or_missing(actual_sha256),
            ),
            JournalError::Decode(failure) => join4(
                "invalid durable journal at ",
                TRANSACTION_JOURNAL_PATH,
                ": ",
                failure.as_str(),
            ),
            JournalError::Encode(failure) => join2(
                "cannot encode durable journal: ",
                failure.as_str(),
            ),
            JournalError::Filesystem { action, path, failure } => join6(
                "cannot ",
                action.as_str(),
                " at ",
                path.as_str(),
                ": ",
                failure.as_str(),
            ),
            JournalError::InjectedFault { boundary, message } => {
                let name = boundary.message();
                join4("injected lifecycle fault at ", name.as_str(), ": ", message.as_str())
            },
            JournalError::RollbackFailed { apply, rollback } => join4(
                "lifecycle apply failed: ",
                apply.as_str(),
                "; rollback also failed: ",
                rollback.as_str(),
            ),
        }
    }
}

/// What a fallible journal check finds.
pub open spec fn outcome<T>(result: Result<T, JournalError>) -> Option<JournalFailure> {
    match result {
        Ok(_) => None,
        Err(error) => Some(error.failure()),
    }
}

// Names and paths.
/// Whether a character may stand in a plan identifier.
pub open spec fn is_plan_char(character: char) -> bool {
    ('a' <= character && character <= 'z') || ('A' <= character && character <= 'Z') || ('0'
        <= character && character <= '9') || character == '-' || character == '_'
}

/// Whether a string is a plan identifier.
pub open spec fn is_plan_id(plan_id: Seq<char>) -> bool {
    0 < plan_id.len() <= 128 && forall|i: int|
        0 <= i < plan_id.len() ==> is_plan_char(#[trigger] plan_id[i])
}

/// What is wrong with a plan identifier.
pub open spec fn plan_id_failure(plan_id: Seq<char>) -> Option<JournalFailure> {
    if is_plan_id(plan_id) {
        None
    } else {
        Some(
            JournalFailure::InvalidPlan(
                "plan id must be 1..=128 ASCII letters, digits, hyphens, or underscores"@,
            ),
        )
    }
}

/// Checks a plan identifier.
pub fn validate_plan_id(plan_id: &str) -> (result: Result<(), JournalError>)
    ensures
        outcome(result) == plan_id_failure(plan_id@),
{
    let chars = chars_of(plan_id);
    let mut valid = chars.len() > 0 && chars.len() <= 128;
    let mut index: usize = 0;
    while valid && index < chars.len()
        invariant
            chars@ == plan_id@,
            index <= chars@.len(),
            valid ==> 0 < chars@.len() <= 128,
            valid ==> forall|i: int| 0 <= i < index ==> is_plan_char(#[trigger] plan_id@[i]),
            !valid ==> !is_plan_id(plan_id@),
        decreases chars@.len() - index,
    {
        let character = chars[index];
        if !((character >= 'a' && character <= 'z') || (character >= 'A' && character <= 'Z') || (
        character >= '0' && character <= '9') || character == '-' || character == '_') {
            assert(!is_plan_char(plan_id@[index as int]));
            valid = false;
        }
        index += 1;
    }
    if valid {
        Ok(())
    } else {
        Err(
            JournalError::InvalidPlan(
                "plan id must be 1..=128 ASCII letters, digits, hyphens, or underscores".to_owned(),
            ),
        )
    }
}

/// Whether a path is one of the lifecycle control files.
pub open spec fn is_control_file(path: Seq<char>) -> bool {
    path == LIFECYCLE_LOCK_PATH@ || path == TRANSACTION_JOURNAL_PATH@ || path == JOURNAL_TEMP_PATH@
        || path == JOURNAL_READY_PATH@
}

/// Why a transaction cannot target a path.
pub open spec fn operation_path_failure(path: Seq<char>) -> Option<JournalFailure> {
    match relative_path_defect(path) {
        Some(reason) => Some(JournalFailure::InvalidOperation { path, reason }),
        None => if is_control_file(path) {
            Some(
                JournalFailure::InvalidOperation {
                    path,
                    reason: "transaction cannot target lifecycle control files"@,
                },
            )
        } else if ".omnius-transaction-"@.is_prefix_of(name_of(path)) {
            Some(
                JournalFailure::InvalidOperation {
                    path,
                    reason: "path uses the lifecycle transaction internal-file namespace"@,
                },
            )
        } else {
            None
        },
    }
}

/// Checks that a transaction can target a path.
pub fn validate_operation_path(path: &str) -> (result: Result<(), JournalError>)
    ensures
        outcome(result) == operation_path_failure(path@),
{
    match validate_relative_path(path) {
        Ok(()) => {},
        Err(reason) => {
            return Err(
                JournalError::InvalidOperation {
                    path: path.to_owned(),
                    reason: reason.to_owned(),
                },
            );
        },
    }
    if same_text(path, LIFECYCLE_LOCK_PATH) || same_text(path, TRANSACTION_JOURNAL_PATH)
        || same_text(path, JOURNAL_TEMP_PATH) || same_text(path, JOURNAL_READY_PATH) {
        return Err(
            JournalError::InvalidOperation {
                path: path.to_owned(),
                reason: "transaction cannot target lifecycle control files".to_owned(),
            },
        );
    }
    let (_, name) = split_parent_name(path);
    if starts_with(name.as_str(), ".omnius-transaction-") {
        return Err(
            JournalError::InvalidOperation {
                path: path.to_owned(),
                reason: "path uses the lifecycle transaction internal-file namespace".to_owned(),
            },
        );
    }
    Ok(())
}

/// Whether a string has the form of a SHA-256 hash.
pub open spec fn is_hash(hash: Seq<char>) -> bool {
    hash.len() == 64 && forall|i: int| 0 <= i < 64 ==> is_lower_hex(#[trigger] hash[i])
}

/// What is wrong with the form of a hash of the operation at `path`.
pub open spec fn hash_failure(hash: Seq<char>, path: Seq<char>, field: Seq<char>) -> Option<
    JournalFailure,
> {
    if is_hash(hash) {
        None
    } else {
        Some(
            JournalFailure::InvalidOperation {
                path,
                reason: field
                    + " SHA-256 must be exactly 64 lowercase hexadecimal characters"@,
            },
        )
    }
}

/// What is wrong with the form of an optional hash of the operation at `path`.
pub open spec fn optional_hash_failure(
    hash: Option<Seq<char>>,
    path: Seq<char>,
    field: Seq<char>,
) -> Option<JournalFailure> {
    match hash {
        Some(value) => hash_failure(value, path, field),
        None => None,
    }
}

/// Checks the form of a hash.
pub fn validate_hash(hash: &str, path: &str, field: &str) -> (result: Result<(), JournalError>)
    ensures
        outcome(result) == hash_failure(hash@, path@, field@),
{
    let chars = chars_of(hash);
    let mut valid = chars.len() == 64;
    let mut index: usize = 0;
    while valid && index < 64
        invariant
            chars@ == hash@,
            index <= 64,
            valid ==> chars@.len() == 64,
            valid ==> forall|i: int| 0 <= i < index ==> is_lower_hex(#[trigger] hash@[i]),
            !valid ==> !is_hash(hash@),
        decreases 64 - index,
    {
        if !is_hex_digit(chars[index]) {
            assert(!is_lower_hex(hash@[index as int]));
            valid = false;
        }
        index += 1;
    }
    if valid {
        Ok(())
    } else {
        Err(
            JournalError::InvalidOperation {
                path: path.to_owned(),
                reason: join2(
                    field,
                    " SHA-256 must be exactly 64 lowercase hexadecimal characters",
                ),
            },
        )
    }
}

/// Checks the form of an optional hash.
pub fn validate_optional_hash(hash: &Option<String>, path: &str, field: &str) -> (result: Result<
    (),
    JournalError,
>)
    ensures
        outcome(result) == optional_hash_failure(optional_view(*hash), path@, field@),
{
    match hash {
        Some(value) => validate_hash(value.as_str(), path, field),
        None => Ok(()),
    }
}

/// The hexadecimal numeral of `number`, without leading zeros.
pub open spec fn hex_number(number: nat) -> Seq<char>
    decreases number,
{
    if number < 16 {
        seq![hex_char(number as int)]
    } else {
        hex_number(number / 16).push(hex_char((number % 16) as int))
    }
}

/// A numeral with leading zeros up to eight digits.
pub open spec fn padded(numeral: Seq<char>) -> Seq<char> {
    if numeral.len() < 8 {
        Seq::new((8 - numeral.len()) as nat, |i: int| '0') + numeral
    } else {
        numeral
    }
}

/// The name of the temporary file of the entry at `index`.
pub open spec fn temporary_name(index: nat) -> Seq<char> {
    ".omnius-transaction-"@ + padded(hex_number(index)) + ".tmp"@
}

fn hex_digits(number: u64) -> (digits: Vec<char>)
    ensures
        digits@ == hex_number(number as nat),
    decreases number,
{
    let value: u8 = (number % 16) as u8;
    let digit = if value < 10 {
        (value + 48) as char
    } else {
        (value + 87) as char
    };
    assert(digit == hex_char((number % 16) as int));
    if number < 16 {
        let mut digits: Vec<char> = Vec::new();
        digits.push(digit);
        assert(digits@ =~= seq![hex_char(number as int)]);
        digits
    } else {
        let mut digits = hex_digits(number / 16);
        digits.push(digit);
        digits
    }
}

/// Returns the name of the temporary file of the entry at `index`.
pub fn operation_temporary_name(index: usize) -> (name: String)
    ensures
        name@ == temporary_name(index as nat),
{
    let digits = hex_digits(index as u64);
    let mut all: Vec<char> = Vec::new();
    let missing: usize = if digits.len() < 8 {
        8 - digits.len()
    } else {
        0
    };
    let ghost zeros = Seq::new(missing as nat, |i: int| '0');
    let mut count: usize = 0;
    while count < missing
        invariant
            zeros == Seq::new(missing as nat, |i: int| '0'),
            count <= missing,
            all@ == zeros.take(count as int),
        decreases missing - count,
    {
        all.push('0');
        count += 1;
        assert(all@ =~= zeros.take(count as int));
    }
    assert(all@ =~= zeros);
    let mut rest = digits;
    let ghost numeral = rest@;
    all.append(&mut rest);
    assert(all@ =~= padded(numeral));
    let number = text_of(all.as_slice());
    join3(".omnius-transaction-", number.as_str(), ".tmp")
}

// Sealed bytes.
/// How sealed bytes are written.
#[derive(Clone, Copy, Debug, PartialEq, Eq, Structural)]
pub enum ByteEncoding {
    /// Lowercase hexadecimal digits.
    Hex,
}

/// Sealed bytes in their written form.
#[derive(Debug, PartialEq, Eq)]
pub struct EncodedBytes {
    /// Form.
    pub encoding: ByteEncoding,
    /// Written bytes.
    pub data: String,
}

/// The written form of optional sealed bytes.
pub open spec fn encoded_view(bytes: Option<EncodedBytes>) -> Option<Seq<char>> {
    match bytes {
        Some(encoded) => Some(encoded.data@),
        None => None,
    }
}

/// The value of optional bytes.
pub open spec fn bytes_view(bytes: Option<Vec<u8>>) -> Option<Seq<u8>> {
    match bytes {
        Some(value) => Some(value@),
        None => None,
    }
}

/// The written form of optional bytes.
pub open spec fn sealed_form(bytes: Option<Seq<u8>>) -> Option<Seq<char>> {
    match bytes {
        Some(value) => Some(hex(value)),
        None => None,
    }
}

/// The hash of optional bytes.
pub open spec fn hash_of(bytes: Option<Seq<u8>>) -> Option<Seq<char>> {
    match bytes {
        Some(value) => Some(hex(sha256(value))),
        None => None,
    }
}

/// What reading optional sealed bytes gives.
pub open spec fn decoded(data: Option<Seq<char>>) -> Result<Option<Seq<u8>>, HexError> {
    match data {
        None => Ok(None),
        Some(text) => match hex_decoded(text) {
            Ok(bytes) => Ok(Some(bytes)),
            Err(error) => Err(error),
        },
    }
}

/// The failure to read sealed bytes.
pub open spec fn encoding_failure(
    data: Option<Seq<char>>,
    path: Seq<char>,
    field: Seq<char>,
) -> Option<JournalFailure> {
    match decoded(data) {
        Ok(_) => None,
        Err(error) => Some(
            JournalFailure::InvalidOperation {
                path,
                reason: "invalid "@ + field + " byte encoding: "@ + error.text(),
            },
        ),
    }
}

/// Reading what was sealed gives the exact bytes back.
pub proof fn lemma_sealed_round_trip(bytes: Option<Seq<u8>>)
    ensures
        decoded(sealed_form(bytes)) == Ok::<Option<Seq<u8>>, HexError>(bytes),
{
    if let Some(value) = bytes {
        lemma_decode_of_encode(value);
    }
}

impl EncodedBytes {
    /// Seals optional bytes.
    pub fn from_optional(bytes: &Option<Vec<u8>>) -> (encoded: Option<EncodedBytes>)
        ensures
            encoded_view(encoded) == sealed_form(bytes_view(*bytes)),
            decoded(encoded_view(encoded)) == Ok::<Option<Seq<u8>>, HexError>(bytes_view(*bytes)),
    {
        proof {
            lemma_sealed_round_trip(bytes_view(*bytes));
        }
        match bytes {
            Some(value) => Some(
                EncodedBytes { encoding: ByteEncoding::Hex, data: encode_hex(value.as_slice()) },
            ),
            None => None,
        }
    }

    /// Reads sealed bytes.
    pub fn decode(&self, path: &str, field: &str) -> (result: Result<Vec<u8>, JournalError>)
        ensures
            outcome(result) == encoding_failure(Some(self.data@), path@, field@),
            result matches Ok(bytes) ==> decoded(Some(self.data@)) == Ok::<
                Option<Seq<u8>>,
                HexError,
            >(Some(bytes@)),
    {
        match decode_hex(self.data.as_str()) {
            Ok(bytes) => Ok(bytes),
            Err(error) => {
                let detail = error.message();
                Err(
                    JournalError::InvalidOperation {
                        path: path.to_owned(),
                        reason: join4("invalid ", field, " byte encoding: ", detail.as_str()),
                    },
                )
            },
        }
    }
}

/// Reads optional sealed bytes.
pub fn decode_optional(encoded: &Option<EncodedBytes>, path: &str, field: &str) -> (result: Result<
    Option<Vec<u8>>,
    JournalError,
>)
    ensures
        outcome(result) == encoding_failure(encoded_view(*encoded), path@, field@),
        result matches Ok(bytes) ==> decoded(encoded_view(*encoded)) == Ok::<
            Option<Seq<u8>>,
            HexError,
        >(bytes_view(bytes)),
{
    match encoded {
        Some(value) => match value.decode(path, field) {
            Ok(bytes) => Ok(Some(bytes)),
            Err(error) => Err(error),
        },
        None => Ok(None),
    }
}

fn same_optional_bytes(left: &Option<Vec<u8>>, right: &Option<Vec<u8>>) -> (same: bool)
    ensures
        same == (bytes_view(*left) == bytes_view(*right)),
{
    match (left, right) {
        (Some(left), Some(right)) => same_bytes(left.as_slice(), right.as_slice()),
        (None, None) => true,
        _ => false,
    }
}

pub(crate) fn clone_bytes(bytes: &Vec<u8>) -> (copy: Vec<u8>)
    ensures
        copy@ == bytes@,
{
    let mut copy: Vec<u8> = Vec::new();
    let mut index: usize = 0;
    while index < bytes.len()
        invariant
            index <= bytes@.len(),
            copy@ == bytes@.take(index as int),
        decreases bytes@.len() - index,
    {
        copy.push(bytes[index]);
        index += 1;
    }
    assert(bytes@.take(index as int) =~= bytes@);
    copy
}

fn optional_hash(bytes: &Option<Vec<u8>>) -> (hash: Option<String>)
    ensures
        optional_view(hash) == hash_of(bytes_view(*bytes)),
{
    match bytes {
        Some(value) => Some(sha256_hex(value.as_slice())),
        None => None,
    }
}

/// What the bytes of a file are, among those that a transaction sealed.
#[derive(Clone, Copy, Debug, PartialEq, Eq, Structural)]
pub enum ContentDecision {
    /// The sealed original bytes.
    Original,
    /// The sealed replacement bytes.
    Replacement,
    /// Neither.
    Other,
}

/// What `current` is, among the sealed bytes.
pub open spec fn content_decision(
    current: Option<Seq<u8>>,
    original: Option<Seq<u8>>,
    replacement: Option<Seq<u8>>,
) -> ContentDecision {
    if current == original {
        ContentDecision::Original
    } else if current == replacement {
        ContentDecision::Replacement
    } else {
        ContentDecision::Other
    }
}

/// Decides what the bytes of a file are, among the sealed bytes.
pub fn classify_contents(
    current: &Option<Vec<u8>>,
    original: &Option<Vec<u8>>,
    replacement: &Option<Vec<u8>>,
) -> (decision: ContentDecision)
    ensures
        decision == content_decision(
            bytes_view(*current),
            bytes_view(*original),
            bytes_view(*replacement),
        ),
{
    if same_optional_bytes(current, original) {
        ContentDecision::Original
    } else if same_optional_bytes(current, replacement) {
        ContentDecision::Replacement
    } else {
        ContentDecision::Other
    }
}

/// Reports bytes that no sealed state explains.
pub fn unexpected_contents(path: &str, expected: &str, actual: &Option<Vec<u8>>) -> (error:
    JournalError)
    ensures
        error.failure() == (JournalFailure::UnexpectedContents {
            path: path@,
            expected: expected@,
            actual: hash_of(bytes_view(*actual)),
        }),
{
    JournalError::UnexpectedContents {
        path: path.to_owned(),
        expected: expected.to_owned(),
        actual_sha256: optional_hash(actual),
    }
}

/// Checks that a file has the hash that was sealed.
pub fn verify_expected_hash(
    path: &str,
    expected_sha256: &Option<String>,
    current: &Option<Vec<u8>>,
) -> (result: Result<(), JournalError>)
    ensures
        outcome(result) == (if hash_of(bytes_view(*current)) == optional_view(*expected_sha256) {
            None
        } else {
            Some(
                JournalFailure::StaleInput {
                    path: path@,
                    expected: optional_view(*expected_sha256),
                    actual: hash_of(bytes_view(*current)),
                },
            )
        }),
{
    let actual = optional_hash(current);
    if same_optional_text(&actual, expected_sha256) {
        Ok(())
    } else {
        Err(
            JournalError::StaleInput {
                path: path.to_owned(),
                expected_sha256: clone_optional_text(expected_sha256),
                actual_sha256: actual,
            },
        )
    }
}

/// Returns the permission bits of a raw file mode.
pub fn permission_mode(mode: u32) -> (permissions: u32)
    ensures
        permissions == mode % 4096,
        permissions < 4096,
{
    let permissions: u32 = mode & 4095;
    assert(mode & 4095 == mode % 4096) by (bit_vector);
    permissions
}

} // verus!
