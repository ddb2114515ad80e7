//! What an updated project must not hold: the framework's own sources and migrations.

use vstd::prelude::*;
use vstd::string::*;

use crate::lifecycle::NodeKind;
use crate::management::{ManagerError, ManagerFailure};
use crate::region::digits_value;
use crate::text::{chars_of, join3, same_text, starts_with, text_between, texts};
use crate::toml_text::{nested, get_nested, read_toml, toml_parsed, TomlValue};

verus! {

// Roots.
/// Whether a directory at the root of a project is one of the framework's.
pub open spec fn is_legacy_root(name: Seq<char>) -> bool {
    name == ".sqlx"@ || name == "specs"@ || name == "templates"@ || name == "xtask"@
}

/// Why something at the root of a project is forbidden.
pub open spec fn root_defect(name: Seq<char>) -> Option<Seq<char>> {
    if is_legacy_root(name) {
        Some(
            "legacy path `"@ + name
                + "` is forbidden in a thin service; relocate application-owned bytes before update"@,
        )
    } else {
        None
    }
}

/// Whether `result` reports a defect, as an invalid project.
pub open spec fn reports(result: Result<(), ManagerError>, defect: Option<Seq<char>>) -> bool {
    match result {
        Ok(()) => defect is None,
        Err(error) => defect is Some && error.failure() == ManagerFailure::InvalidProject(
            defect->Some_0,
        ),
    }
}

/// Checks something at the root of a project.
pub fn check_root(name: &str) -> (result: Result<(), ManagerError>)
    ensures
        reports(result, root_defect(name@)),
{
    if same_text(name, ".sqlx") || same_text(name, "specs") || same_text(name, "templates")
        || same_text(name, "xtask") {
        return Err(
            ManagerError::InvalidProject(
                join3(
                    "legacy path `",
                    name,
                    "` is forbidden in a thin service; relocate application-owned bytes before update",
                ),
            ),
        );
    }
    Ok(())
}

/// The directories of a former project that an update empties.
pub open spec fn legacy_roots() -> Seq<Seq<char>> {
    seq![".sqlx"@, "specs"@, "templates"@, "xtask"@, "crates"@]
}

/// Lists the directories of a former project that an update empties.
pub fn list_legacy_roots() -> (roots: Vec<String>)
    ensures
        texts(roots@) == legacy_roots(),
{
    let mut roots: Vec<String> = Vec::new();
    roots.push(".sqlx".to_owned());
    roots.push("specs".to_owned());
    roots.push("templates".to_owned());
    roots.push("xtask".to_owned());
    roots.push("crates".to_owned());
    assert(texts(roots@) =~= legacy_roots());
    roots
}

// Crates.
/// Why the directory of crates cannot be inspected.
pub open spec fn crate_root_defect(display: Seq<char>, kind: NodeKind) -> Option<Seq<char>> {
    if kind != NodeKind::Directory {
        Some("thin-service crate root `"@ + display + "` must be a regular directory"@)
    } else {
        None
    }
}

/// Checks the directory of crates.
pub fn check_crate_root(display: &str, kind: NodeKind) -> (result: Result<(), ManagerError>)
    ensures
        reports(result, crate_root_defect(display@, kind)),
{
    if kind != NodeKind::Directory {
        return Err(
            ManagerError::InvalidProject(
                join3("thin-service crate root `", display, "` must be a regular directory"),
            ),
        );
    }
    Ok(())
}

/// What to do with an entry below the directory of crates.
#[derive(Clone, Copy, Debug, PartialEq, Eq, Structural)]
pub enum CrateVisit {
    /// Visit the entries of the directory.
    Descend,
    /// Inspect the manifest.
    Inspect,
    /// Leave it.
    Skip,
}

/// Whether a directory of crates is one of the framework's, by its name.
pub open spec fn is_framework_crate(name: Seq<char>) -> bool {
    name == "service-kit"@ || "omnius-"@.is_prefix_of(name)
}

/// What to do with an entry below the directory of crates, or why it is forbidden. The name is
/// absent where it is not UTF-8.
pub open spec fn crate_entry(
    at_root: bool,
    name: Option<Seq<char>>,
    display: Seq<char>,
    kind: NodeKind,
) -> Result<CrateVisit, Seq<char>> {
    if kind == NodeKind::Symlink {
        Err("thin-service candidate refuses symlink `"@ + display + "`"@)
    } else if at_root && (name matches Some(text) && is_framework_crate(text)) {
        Err(
            "legacy framework crate directory `"@ + display
                + "` is forbidden in a thin service; relocate application-owned bytes before update"@,
        )
    } else if kind == NodeKind::Directory {
        Ok(CrateVisit::Descend)
    } else if kind == NodeKind::File && name == Some("Cargo.toml"@) {
        Ok(CrateVisit::Inspect)
    } else {
        Ok(CrateVisit::Skip)
    }
}

/// Decides what to do with an entry below the directory of crates.
pub fn visit_crate_entry(at_root: bool, name: Option<&str>, display: &str, kind: NodeKind) -> (result:
    Result<CrateVisit, ManagerError>)
    ensures
        ({
            let owed = crate_entry(
                at_root,
                (match name {
                    Some(text) => Some(text@),
                    None => None,
                }),
                display@,
                kind,
            );
            match result {
                Ok(visit) => owed == Ok::<CrateVisit, Seq<char>>(visit),
                Err(error) => owed is Err && error.failure() == ManagerFailure::InvalidProject(
                    owed->Err_0,
                ),
            }
        }),
{
    if kind == NodeKind::Symlink {
        return Err(
            ManagerError::InvalidProject(
                join3("thin-service candidate refuses symlink `", display, "`"),
            ),
        );
    }
    let framework = match name {
        Some(text) => same_text(text, "service-kit") || starts_with(text, "omnius-"),
        None => false,
    };
    if at_root && framework {
        return Err(
            ManagerError::InvalidProject(
                join3(
                    "legacy framework crate directory `",
                    display,
                    "` is forbidden in a thin service; relocate application-owned bytes before update",
                ),
            ),
        );
    }
    if kind == NodeKind::Directory {
        return Ok(CrateVisit::Descend);
    }
    let manifest = match name {
        Some(text) => same_text(text, "Cargo.toml"),
        None => false,
    };
    if kind == NodeKind::File && manifest {
        Ok(CrateVisit::Inspect)
    } else {
        Ok(CrateVisit::Skip)
    }
}

/// The name of the package of a manifest.
pub open spec fn package_name(manifest: TomlValue) -> Option<Seq<char>> {
    match nested(manifest.entry("package"@), "name"@) {
        Some(value) => value.text(),
        None => None,
    }
}

/// Why a crate's manifest is forbidden.
pub open spec fn manifest_defect(relative: Seq<char>, manifest: TomlValue) -> Option<Seq<char>> {
    if "crates/service-kit/"@.is_prefix_of(relative) || (package_name(manifest) matches Some(name)
        && "omnius-"@.is_prefix_of(name)) {
        Some(
            "legacy framework crate `"@ + relative
                + "` is forbidden in a thin service; relocate application-owned bytes before update"@,
        )
    } else {
        None
    }
}

/// Checks a crate's parsed manifest.
pub fn check_manifest(relative: &str, manifest: &TomlValue) -> (result: Result<(), ManagerError>)
    ensures
        reports(result, manifest_defect(relative@, *manifest)),
{
    let package = manifest.get("package");
    let name = match get_nested(package, "name") {
        Some(value) => value.as_text(),
        None => None,
    };
    let framework = match name {
        Some(text) => starts_with(text, "omnius-"),
        None => false,
    };
    if starts_with(relative, "crates/service-kit/") || framework {
        return Err(
            ManagerError::InvalidProject(
                join3(
                    "legacy framework crate `",
                    relative,
                    "` is forbidden in a thin service; relocate application-owned bytes before update",
                ),
            ),
        );
    }
    Ok(())
}

/// Why a crate's manifest is forbidden, given what its text holds.
pub open spec fn source_defect(
    relative: Seq<char>,
    display: Seq<char>,
    parsed: Result<TomlValue, Seq<char>>,
) -> Option<Seq<char>> {
    match parsed {
        Err(message) => Some(
            "candidate crate manifest `"@ + display + "` is invalid TOML: "@ + message,
        ),
        Ok(manifest) => manifest_defect(relative, manifest),
    }
}

/// Checks the text of a crate's manifest.
pub fn check_manifest_source(relative: &str, display: &str, source: &str) -> (result: Result<
    (),
    ManagerError,
>)
    ensures
        reports(result, source_defect(relative@, display@, toml_parsed(source@))),
{
    match read_toml(source) {
        Ok(manifest) => check_manifest(relative, &manifest),
        Err(message) => {
            let mut text = join3("candidate crate manifest `", display, "` is invalid TOML: ");
            text.append(message.as_str());
            Err(ManagerError::InvalidProject(text))
        },
    }
}

// Migrations.
/// The first version that is reserved for the application's migrations.
pub const FIRST_APPLICATION_VERSION: u64 = 9_000_000_000_000_000_000;

/// The last version that is reserved for the application's migrations.
pub const LAST_APPLICATION_VERSION: u64 = 9_099_999_999_999_999_999;

/// The value of a version: decimal digits behind an optional plus sign.
pub open spec fn version_value(text: Seq<char>) -> Option<nat> {
    let digits = if text.len() > 0 && text[0] == '+' {
        text.skip(1)
    } else {
        text
    };
    if digits.len() == 0 {
        None
    } else {
        digits_value(digits, digits.len() as int)
    }
}

/// The place, from `at` on, of the first underscore.
pub open spec fn underscore_place(text: Seq<char>, at: int) -> int
    decreases text.len() - at,
{
    if at < 0 || at >= text.len() || text[at] == '_' {
        at
    } else {
        underscore_place(text, at + 1)
    }
}

/// Whether a file name is that of a migration of the application: a reserved version, an
/// underscore, a description, and `.sql`.
pub open spec fn is_application_migration(name: Seq<char>) -> bool {
    let stem = name.take(name.len() - 4);
    let place = underscore_place(stem, 0);
    &&& name.len() >= 4
    &&& name.skip(name.len() - 4) == ".sql"@
    &&& place + 1 < stem.len()
    &&& version_value(stem.take(place)) matches Some(version) && FIRST_APPLICATION_VERSION
        <= version <= LAST_APPLICATION_VERSION
}

/// Why an entry among the migrations is forbidden. The name is absent where it is not UTF-8.
pub open spec fn migration_defect(name: Option<Seq<char>>, display: Seq<char>, kind: NodeKind) -> Option<
    Seq<char>,
> {
    if kind != NodeKind::File {
        Some(
            "migration path `"@ + display
                + "` must be a regular file in the application migration root"@,
        )
    } else {
        match name {
            None => Some("migration filenames must be UTF-8"@),
            Some(text) => if text == "application-compatibility.toml"@
                || is_application_migration(text) {
                None
            } else {
                Some(
                    "legacy framework migration `migrations/"@ + text
                        + "` is forbidden in a thin service; relocate application SQL into the reserved application range before update"@,
                )
            },
        }
    }
}

proof fn lemma_no_digits(text: Seq<char>, count: int, total: int)
    requires
        digits_value(text, count) is None,
        count <= total,
    ensures
        digits_value(text, total) is None,
    decreases total - count,
{
    if count < total {
        lemma_no_digits(text, count, total - 1);
    }
}

proof fn lemma_digits_grow(text: Seq<char>, count: int, total: int)
    requires
        0 <= count <= total <= text.len(),
        digits_value(text, total) is Some,
    ensures
        digits_value(text, count) is Some,
        digits_value(text, total)->Some_0 >= digits_value(text, count)->Some_0,
    decreases total - count,
{
    if count < total {
        lemma_digits_grow(text, count, total - 1);
    }
}

/// Returns whether a version is one of those reserved for the application's migrations.
pub fn is_reserved_version(text: &str) -> (reserved: bool)
    ensures
        reserved == (version_value(text@) matches Some(version) && FIRST_APPLICATION_VERSION
            <= version <= LAST_APPLICATION_VERSION),
{
    let all = chars_of(text);
    let start: usize = if all.len() > 0 && all[0] == '+' {
        1
    } else {
        0
    };
    let digits_text = text_between(&all, start, all.len());
    let chars = chars_of(digits_text.as_str());
    let ghost digits = chars@;
    assert(digits =~= if text@.len() > 0 && text@[0] == '+' {
        text@.skip(1)
    } else {
        text@
    });
    if chars.len() == 0 {
        return false;
    }
    let mut value: u64 = 0;
    let mut index: usize = 0;
    while index < chars.len()
        invariant
            digits == chars@,
            digits.len() > 0,
            version_value(text@) == digits_value(digits, digits.len() as int),
            index <= digits.len(),
            digits_value(digits, index as int) == Some(value as nat),
            value <= LAST_APPLICATION_VERSION,
        decreases digits.len() - index,
    {
        let character = chars[index];
        if character < '0' || character > '9' {
            proof {
                lemma_no_digits(digits, index + 1, digits.len() as int);
            }
            return false;
        }
        let digit: u64 = character as u64 - 48;
        if value > 909_999_999_999_999_999 {
            proof {
                assert(10 * value + digit > LAST_APPLICATION_VERSION);
                if digits_value(digits, digits.len() as int) is Some {
                    lemma_digits_grow(digits, index + 1, digits.len() as int);
                }
            }
            return false;
        }
        value = 10 * value + digit;
        index += 1;
    }
    value >= FIRST_APPLICATION_VERSION
}

/// Returns whether a file name is that of a migration of the application.
pub fn application_migration(name: &str) -> (result: bool)
    ensures
        result == is_application_migration(name@),
{
    let chars = chars_of(name);
    let length: usize = chars.len();
    if length < 4 {
        return false;
    }
    let end: usize = length - 4;
    let suffix = text_between(&chars, end, length);
    assert(name@.skip(end as int) =~= name@.subrange(end as int, length as int));
    if !same_text(suffix.as_str(), ".sql") {
        return false;
    }
    let ghost stem = name@.take(end as int);
    let mut place: usize = 0;
    while place < end && chars[place] != '_'
        invariant
            chars@ == name@,
            length == chars@.len(),
            end == length - 4,
            stem == name@.take(end as int),
            place <= end,
            underscore_place(stem, 0) == underscore_place(stem, place as int),
        decreases end - place,
    {
        place += 1;
    }
    assert(underscore_place(stem, 0) == place);
    if place >= end || place == end - 1 {
        return false;
    }
    let version = text_between(&chars, 0, place);
    assert(stem.take(place as int) =~= name@.subrange(0, place as int));
    is_reserved_version(version.as_str())
}

/// Checks an entry among the migrations.
pub fn check_migration(name: Option<&str>, display: &str, kind: NodeKind) -> (result: Result<
    (),
    ManagerError,
>)
    ensures
        reports(
            result,
            migration_defect(
                (match name {
                    Some(text) => Some(text@),
                    None => None,
                }),
                display@,
                kind,
            ),
        ),
{
    if kind != NodeKind::File {
        return Err(
            ManagerError::InvalidProject(
                join3(
                    "migration path `",
                    display,
                    "` must be a regular file in the application migration root",
                ),
            ),
        );
    }
    let text = match name {
        Some(text) => text,
        None => {
            return Err(
                ManagerError::InvalidProject("migration filenames must be UTF-8".to_owned()),
            );
        },
    };
    if same_text(text, "application-compatibility.toml") || application_migration(text) {
        return Ok(());
    }
    Err(
        ManagerError::InvalidProject(
            join3(
                "legacy framework migration `migrations/",
                text,
                "` is forbidden in a thin service; relocate application SQL into the reserved application range before update",
            ),
        ),
    )
}

} // verus!
