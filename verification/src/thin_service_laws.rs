//! What a thin service may hold.

use vstd::prelude::*;
use vstd::string::*;

use crate::lifecycle::NodeKind;
use crate::region::digits_value;
use crate::thin_service::{
    crate_entry, is_application_migration, legacy_roots, manifest_defect, migration_defect,
    root_defect, underscore_place, version_value, CrateVisit,
};
use crate::toml_text::{nested, TomlValue};

verus! {

// Migrations.
/// The number that decimal digits stand for.
pub open spec fn number_of(digits: Seq<char>) -> nat
    decreases digits.len(),
{
    if digits.len() == 0 {
        0
    } else {
        (10 * number_of(digits.drop_last()) + (digits.last() as nat - '0' as nat)) as nat
    }
}

/// Whether a string is made of decimal digits, at least one.
pub open spec fn is_numeral(text: Seq<char>) -> bool {
    text.len() > 0 && forall|i: int|
        0 <= i < text.len() ==> '0' <= #[trigger] text[i] && text[i] <= '9'
}

/// Whether a string is a version of the range that is reserved for applications: a numeral, with
/// or without a plus sign before it.
pub open spec fn is_reserved_version(text: Seq<char>) -> bool {
    exists|digits: Seq<char>|
        {
            &&& #[trigger] is_numeral(digits)
            &&& text == digits || text == seq!['+'] + digits
            &&& 9_000_000_000_000_000_000 <= number_of(digits)
            &&& number_of(digits) <= 9_099_999_999_999_999_999
        }
}

/// Whether a file name is that of a migration of the application: a reserved version, an
/// underscore, a description that is not empty, and `.sql`.
pub open spec fn names_migration(name: Seq<char>) -> bool {
    exists|version: Seq<char>, description: Seq<char>|
        {
            &&& #[trigger] (version + "_"@ + description + ".sql"@) == name
            &&& is_reserved_version(version)
            &&& description.len() > 0
        }
}

proof fn lemma_digits(text: Seq<char>, count: int)
    requires
        0 <= count <= text.len(),
    ensures
        digits_value(text, count) matches Some(value) ==> value == number_of(text.take(count))
            && forall|i: int| 0 <= i < count ==> '0' <= #[trigger] text[i] && text[i] <= '9',
        digits_value(text, count) is None ==> exists|i: int|
            0 <= i < count && !('0' <= #[trigger] text[i] && text[i] <= '9'),
    decreases count,
{
    if count > 0 {
        lemma_digits(text, count - 1);
        assert(text.take(count).drop_last() =~= text.take(count - 1));
        assert(text.take(count).last() == text[count - 1]);
    }
}

proof fn lemma_version(text: Seq<char>)
    ensures
        (version_value(text) matches Some(value) && 9_000_000_000_000_000_000 <= value <= 9_099_999_999_999_999_999)
            <==> is_reserved_version(text),
{
    let digits = if text.len() > 0 && text[0] == '+' {
        text.skip(1)
    } else {
        text
    };
    lemma_digits(digits, digits.len() as int);
    assert(digits.take(digits.len() as int) =~= digits);
    if version_value(text) is Some {
        assert(is_numeral(digits));
        if text.len() > 0 && text[0] == '+' {
            assert(text =~= seq!['+'] + digits);
        }
    }
    if is_reserved_version(text) {
        let own = choose|own: Seq<char>|
            {
                &&& #[trigger] is_numeral(own)
                &&& text == own || text == seq!['+'] + own
                &&& 9_000_000_000_000_000_000 <= number_of(own)
                &&& number_of(own) <= 9_099_999_999_999_999_999
            };
        if text == own {
            assert('0' <= own[0] && own[0] <= '9');
            assert(digits == own);
        } else {
            assert(text[0] == '+');
            assert(text.skip(1) =~= own);
        }
        assert(digits == own);
        assert forall|i: int| 0 <= i < digits.len() implies '0' <= #[trigger] digits[i] && digits[i]
            <= '9' by {
            assert('0' <= own[i] && own[i] <= '9');
        }
    }
}

proof fn lemma_underscore(text: Seq<char>, at: int)
    requires
        0 <= at <= text.len(),
    ensures
        at <= underscore_place(text, at) <= text.len(),
        underscore_place(text, at) < text.len() ==> text[underscore_place(text, at)] == '_',
        forall|i: int| at <= i < underscore_place(text, at) ==> #[trigger] text[i] != '_',
    decreases text.len() - at,
{
    if at < text.len() && text[at] != '_' {
        lemma_underscore(text, at + 1);
    }
}

/// A file name is accepted as that of a migration if and only if it is one.
pub proof fn lemma_migration_name(name: Seq<char>)
    ensures
        is_application_migration(name) <==> names_migration(name),
{
    reveal_strlit("_");
    reveal_strlit(".sql");
    if is_application_migration(name) {
        let stem = name.take(name.len() - 4);
        let place = underscore_place(stem, 0);
        lemma_underscore(stem, 0);
        let version = stem.take(place);
        let description = stem.skip(place + 1);
        lemma_version(version);
        assert(version + "_"@ + description =~= stem);
        assert(stem + ".sql"@ =~= name);
        assert((version + "_"@ + description + ".sql"@) == name);
    }
    if names_migration(name) {
        let (version, description) = choose|version: Seq<char>, description: Seq<char>|
            {
                &&& #[trigger] (version + "_"@ + description + ".sql"@) == name
                &&& is_reserved_version(version)
                &&& description.len() > 0
            };
        let stem = version + "_"@ + description;
        assert(name.take(name.len() - 4) =~= stem);
        assert(name.skip(name.len() - 4) =~= ".sql"@);
        lemma_version(version);
        lemma_underscore(stem, 0);
        let place = underscore_place(stem, 0);
        let own = choose|own: Seq<char>|
            {
                &&& #[trigger] is_numeral(own)
                &&& version == own || version == seq!['+'] + own
                &&& 9_000_000_000_000_000_000 <= number_of(own)
                &&& number_of(own) <= 9_099_999_999_999_999_999
            };
        assert forall|i: int| 0 <= i < version.len() implies #[trigger] version[i] != '_' by {
            if version == own {
                assert('0' <= own[i] && own[i] <= '9');
            } else if i > 0 {
                assert(version[i] == own[i - 1]);
                assert('0' <= own[i - 1] && own[i - 1] <= '9');
            }
        }
        assert(stem[version.len() as int] == '_');
        if place < version.len() {
            assert(stem[place] == version[place]);
        }
        assert(place == version.len());
        assert(stem.take(place) =~= version);
    }
}

/// Among the migrations of a thin service only regular files are allowed that are migrations of
/// the application or the record of compatibility.
pub proof fn lemma_migrations(name: Option<Seq<char>>, display: Seq<char>, kind: NodeKind)
    ensures
        migration_defect(name, display, kind) is None <==> kind == NodeKind::File && (name matches
            Some(text) && (text == "application-compatibility.toml"@ || names_migration(text))),
{
    if let Some(text) = name {
        lemma_migration_name(text);
    }
}

// Directories and crates.
/// At the root of a thin service the four directories of the framework are forbidden, and nothing
/// else is; an update empties these and that of the crates.
pub proof fn lemma_roots(name: Seq<char>)
    ensures
        root_defect(name) is Some <==> name == ".sqlx"@ || name == "specs"@ || name == "templates"@
            || name == "xtask"@,
        legacy_roots().contains(name) <==> root_defect(name) is Some || name == "crates"@,
{
    let roots = legacy_roots();
    assert(roots[0] == ".sqlx"@ && roots[1] == "specs"@ && roots[2] == "templates"@ && roots[3]
        == "xtask"@ && roots[4] == "crates"@);
    if roots.contains(name) {
        let k = choose|k: int| 0 <= k < roots.len() && roots[k] == name;
    }
}

/// Below the crates of a thin service no links are allowed, and at their root no directory that is
/// named like one of the framework's; other directories are entered, and manifests are read.
pub proof fn lemma_crate_entries(
    at_root: bool,
    name: Option<Seq<char>>,
    display: Seq<char>,
    kind: NodeKind,
)
    ensures
        ({
            let result = crate_entry(at_root, name, display, kind);
            let forbidden = at_root && (name matches Some(text) && (text == "service-kit"@
                || "omnius-"@.is_prefix_of(text)));
            &&& result is Err <==> kind == NodeKind::Symlink || forbidden
            &&& result == Ok::<CrateVisit, Seq<char>>(CrateVisit::Descend) <==> !forbidden && kind
                == NodeKind::Directory
            &&& result == Ok::<CrateVisit, Seq<char>>(CrateVisit::Inspect) <==> !forbidden && kind
                == NodeKind::File && name == Some("Cargo.toml"@)
        }),
{
}

/// A manifest of a thin service is forbidden if and only if it lies in the crate of the framework,
/// or its package is named like one of the framework's.
pub proof fn lemma_crate_manifest(relative: Seq<char>, manifest: TomlValue)
    ensures
        manifest_defect(relative, manifest) is Some <==> "crates/service-kit/"@.is_prefix_of(
            relative,
        ) || (nested(manifest.entry("package"@), "name"@) matches Some(value) && (
        value.text() matches Some(text) && "omnius-"@.is_prefix_of(text))),
{
}

} // verus!
