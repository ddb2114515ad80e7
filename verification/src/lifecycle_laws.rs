//! What belongs to a project: the entries that are staged, the inputs that are compared, the files
//! that a snapshot holds, and the plans that are sealed.

use vstd::prelude::*;
use vstd::string::*;

use crate::application_templates::ApplicationTemplateDescriptor;
use crate::digest::{hex, sha256};
use crate::file_map::ProjectFile;
use crate::lifecycle::{
    changed_path, entry_path, first_unmatched, target_defect, visit, InputModel,
    NodeKind, VisitModel,
};
use crate::management::{PlanStep, SnapshotModel};
use crate::module_checks::last_place;
use crate::modules::{ModuleCatalog, ModuleDefinition};
use crate::ordered::{ascending, lemma_listing_exists};
use crate::provenance_project::{expansion_of, PatternExpansion};
use crate::rendering::is_derivable;
use crate::sealing::{
    is_final_write, lock_steps, seal_defect, staging_defect, state_place, SealKind,
};
use crate::snapshot::{
    catalog_paths, derivable_paths, file_paths, manifests_by_path, overlaid, owned_paths,
    pattern_wildcard, referenced_paths, region_paths, snapshot_files, snapshot_paths, stated_form,
    template_paths, wildcard_place, wildcards, without_lock, StateForm,
};
use crate::state::{owner_of, OwnershipKind, StateModel, PROJECT_STATE_PATH};
use crate::text::{lemma_split_pieces, split_on, texts};
use crate::toml_text::TomlValue;

verus! {

// Entries.
proof fn lemma_first_piece(text: Seq<char>, separator: char)
    ensures
        ({
            let pieces = split_on(text, separator);
            let end = pieces[0].len() as int;
            &&& pieces.len() > 0
            &&& end <= text.len()
            &&& pieces[0] == text.take(end)
            &&& end == text.len() <==> pieces.len() == 1
            &&& end < text.len() ==> text[end] == separator
        }),
    decreases text.len(),
{
    if text.len() > 0 {
        let before = text.drop_last();
        lemma_first_piece(before, separator);
        let pieces = split_on(before, separator);
        let now = split_on(text, separator);
        if text.last() == separator {
            assert(now[0] == pieces[0]);
            assert(now[0] =~= text.take(pieces[0].len() as int));
        } else if pieces.len() == 1 {
            assert(now[0] == pieces[0].push(text.last()));
            assert(now[0] =~= text);
        } else {
            assert(now[0] == pieces[0]);
            assert(now[0] =~= text.take(pieces[0].len() as int));
        }
    } else {
        assert(split_on(text, separator)[0] =~= text.take(0));
    }
}

proof fn lemma_begins(path: Seq<char>, name: Seq<char>)
    requires
        !name.contains('/'),
    ensures
        split_on(path, '/')[0] == name <==> path == name || name.push('/').is_prefix_of(path),
{
    lemma_first_piece(path, '/');
    lemma_split_pieces(path, '/');
    let first = split_on(path, '/')[0];
    let end = first.len() as int;
    assert(!first.contains('/'));
    if first == name {
        if end < path.len() {
            assert(name.push('/') =~= path.take(end + 1));
        } else {
            assert(path.take(end) =~= path);
        }
    }
    if path == name {
        if end < path.len() {
            assert(name[end] == '/');
            assert(name.contains('/'));
        }
        assert(path.take(end) =~= path);
    }
    if name.push('/').is_prefix_of(path) {
        let full = name.push('/');
        assert(full =~= path.take(full.len() as int));
        assert(path[name.len() as int] == full[name.len() as int]);
        if end < name.len() {
            assert(path[end] == full[end]);
            assert(name[end] == '/');
            assert(name.contains('/'));
        }
        if end > name.len() {
            assert(first[name.len() as int] == '/');
            assert(first.contains('/'));
        }
        assert(first =~= name) by {
            assert forall|i: int| 0 <= i < name.len() implies first[i] == name[i] by {
                assert(path[i] == full[i]);
            }
        }
    }
}

/// Whether a path is version control, a build output, or one of the lifecycle's control files.
pub open spec fn is_outside(path: Seq<char>) -> bool {
    ||| path == ".git"@ || ".git/"@.is_prefix_of(path)
    ||| path == "target"@ || "target/"@.is_prefix_of(path)
    ||| path == ".omnius/lifecycle.lock"@
    ||| path == ".omnius/transaction.json"@
    ||| path == ".omnius/.transaction.json.tmp"@
    ||| path == ".omnius/.transaction.json.tmp.ready"@
}

/// An entry of a project is left out if and only if it is version control, a build output, or a
/// control file; of the others, directories are entered, files are taken, and nothing else can be
/// staged.
pub proof fn lemma_staged_entries(parent: Seq<char>, name: Seq<char>, kind: NodeKind)
    ensures
        ({
            let path = if parent.len() == 0 {
                name
            } else {
                parent + seq!['/'] + name
            };
            let result = visit(parent, name, kind);
            &&& result == Ok::<VisitModel, Seq<char>>(VisitModel::Omit) <==> is_outside(path)
            &&& !is_outside(path) ==> match kind {
                NodeKind::Directory => result == Ok::<VisitModel, Seq<char>>(
                    VisitModel::Descend(path),
                ),
                NodeKind::File => result == Ok::<VisitModel, Seq<char>>(VisitModel::Take(path)),
                _ => result is Err,
            }
        }),
{
    reveal_strlit("/");
    reveal_strlit(".git");
    reveal_strlit("target");
    reveal_strlit(".git/");
    reveal_strlit("target/");
    assert("/"@ =~= seq!['/']);
    let path = entry_path(parent, name);
    assert(".git"@.push('/') =~= ".git/"@);
    assert("target"@.push('/') =~= "target/"@);
    assert(!".git"@.contains('/'));
    assert(!"target"@.contains('/'));
    lemma_begins(path, ".git"@);
    lemma_begins(path, "target"@);
}

/// A path can be a target if and only if none of its components that are there is a link, and all
/// of them but the last are directories.
pub proof fn lemma_target(
    subject: Seq<char>,
    relative: Seq<char>,
    observed: Seq<NodeKind>,
    at: int,
)
    requires
        0 <= at <= observed.len(),
    ensures
        target_defect(subject, relative, observed, at) is None <==> forall|i: int|
            at <= i < observed.len() ==> #[trigger] observed[i] != NodeKind::Symlink && (i + 1
                < split_on(relative, '/').len() ==> observed[i] == NodeKind::Directory),
    decreases observed.len() - at,
{
    if at < observed.len() {
        lemma_target(subject, relative, observed, at + 1);
        assert(observed[at] == NodeKind::Symlink || observed[at] != NodeKind::Symlink);
    }
}

// Inputs.
proof fn lemma_unmatched(list: Seq<InputModel>, other: Seq<InputModel>, at: int)
    requires
        0 <= at <= list.len(),
    ensures
        match first_unmatched(list, other, at) {
            None => forall|i: int| at <= i < list.len() ==> other.contains(#[trigger] list[i]),
            Some(path) => exists|i: int|
                at <= i < list.len() && (#[trigger] list[i]).0 == path && !other.contains(list[i]),
        },
    decreases list.len() - at,
{
    if at < list.len() {
        if other.contains(list[at]) {
            lemma_unmatched(list, other, at + 1);
        } else {
            assert(list[at].0 == list[at].0);
        }
    }
}

/// Inputs are unchanged if and only if the same paths have the same hashes; otherwise the path that
/// is reported has an input on one side that the other side lacks.
pub proof fn lemma_changed_input(expected: Seq<InputModel>, actual: Seq<InputModel>)
    ensures
        match changed_path(expected, actual) {
            None => forall|input: InputModel|
                expected.contains(input) <==> #[trigger] actual.contains(input),
            Some(path) => exists|input: InputModel|
                input.0 == path && expected.contains(input) != #[trigger] actual.contains(input),
        },
{
    lemma_unmatched(expected, actual, 0);
    lemma_unmatched(actual, expected, 0);
    match changed_path(expected, actual) {
        None => {
            assert forall|input: InputModel| expected.contains(input) <==> #[trigger] actual.contains(
                input,
            ) by {
                if expected.contains(input) {
                    let i = choose|i: int| 0 <= i < expected.len() && expected[i] == input;
                    assert(actual.contains(expected[i]));
                }
                if actual.contains(input) {
                    let i = choose|i: int| 0 <= i < actual.len() && actual[i] == input;
                    assert(expected.contains(actual[i]));
                }
            }
        },
        Some(path) => {
            if first_unmatched(expected, actual, 0) is Some {
                let i = choose|i: int|
                    0 <= i < expected.len() && (#[trigger] expected[i]).0 == path
                        && !actual.contains(expected[i]);
                assert(expected.contains(expected[i]));
                assert(!actual.contains(expected[i]));
            } else {
                let i = choose|i: int|
                    0 <= i < actual.len() && (#[trigger] actual[i]).0 == path
                        && !expected.contains(actual[i]);
                assert(actual.contains(actual[i]));
            }
        },
    }
}

// Snapshots.
/// A recorded state has the former form if its schema version is one, the present form if it is two,
/// and no form otherwise.
pub proof fn lemma_state_form(state: TomlValue)
    ensures
        stated_form(state) == Ok::<StateForm, Seq<char>>(StateForm::Legacy) <==> (state.entry(
            "schema_version"@,
        ) matches Some(TomlValue::Integer(number)) && number == 1),
        stated_form(state) == Ok::<StateForm, Seq<char>>(StateForm::Current) <==> (state.entry(
            "schema_version"@,
        ) matches Some(TomlValue::Integer(number)) && number == 2),
{
}

proof fn lemma_wildcards(parts: Seq<Seq<char>>, at: int)
    requires
        0 <= at <= parts.len(),
    ensures
        ({
            let place = wildcard_place(parts, at);
            &&& at <= place <= parts.len()
            &&& forall|i: int| at <= i < place ==> #[trigger] parts[i] != "*"@
            &&& place < parts.len() ==> parts[place] == "*"@
            &&& wildcards(parts, at) == 0 <==> place == parts.len()
            &&& place < parts.len() ==> wildcards(parts, at) == 1 + wildcards(parts, place + 1)
        }),
    decreases parts.len() - at,
{
    if at < parts.len() {
        lemma_wildcards(parts, at + 1);
    }
}

/// A pattern without a wildcard has no place for one; a pattern with one names its place; a pattern
/// with several is refused.
pub proof fn lemma_pattern(pattern: Seq<char>)
    ensures
        ({
            let parts = split_on(pattern, '/');
            match pattern_wildcard(pattern) {
                Ok(None) => forall|i: int| 0 <= i < parts.len() ==> #[trigger] parts[i] != "*"@,
                Ok(Some(place)) => 0 <= place < parts.len() && forall|i: int|
                    0 <= i < parts.len() ==> (#[trigger] parts[i] == "*"@ <==> i == place),
                Err(_) => exists|i: int, j: int|
                    0 <= i < j < parts.len() && #[trigger] parts[i] == "*"@ && #[trigger] parts[j]
                        == "*"@,
            }
        }),
{
    let parts = split_on(pattern, '/');
    lemma_wildcards(parts, 0);
    let place = wildcard_place(parts, 0);
    if place < parts.len() {
        lemma_wildcards(parts, place + 1);
        let next = wildcard_place(parts, place + 1);
        if wildcards(parts, 0) != 1 {
            assert(parts[place] == "*"@ && parts[next] == "*"@);
        }
    }
}

/// Whether a reference to a region stands for a path: the part before the last number sign, or one
/// of the paths that it expands to where it has a wildcard.
pub open spec fn stands_for(
    expansions: Seq<PatternExpansion>,
    reference: Seq<char>,
    path: Seq<char>,
) -> bool {
    exists|place: int|
        #![trigger reference[place]]
        {
            &&& 0 <= place < reference.len()
            &&& reference[place] == '#'
            &&& !reference.skip(place + 1).contains('#')
            &&& if reference.take(place).contains('*') {
                expansion_of(expansions, reference.take(place), 0).contains(path)
            } else {
                reference.take(place) == path
            }
        }
}

proof fn lemma_last_place(text: Seq<char>, character: char, end: int)
    requires
        0 <= end <= text.len(),
    ensures
        ({
            let place = last_place(text, character, end);
            &&& -1 <= place < end
            &&& place >= 0 ==> text[place] == character
            &&& forall|i: int| place < i < end ==> #[trigger] text[i] != character
        }),
    decreases end,
{
    if end > 0 && text[end - 1] != character {
        lemma_last_place(text, character, end - 1);
    }
}

proof fn lemma_stands_for(
    expansions: Seq<PatternExpansion>,
    reference: Seq<char>,
    path: Seq<char>,
)
    ensures
        ({
            let place = last_place(reference, '#', reference.len() as int);
            stands_for(expansions, reference, path) <==> place >= 0 && if reference.take(
                place,
            ).contains('*') {
                expansion_of(expansions, reference.take(place), 0).contains(path)
            } else {
                reference.take(place) == path
            }
        }),
{
    let last = last_place(reference, '#', reference.len() as int);
    lemma_last_place(reference, '#', reference.len() as int);
    if last >= 0 {
        let rest = reference.skip(last + 1);
        if rest.contains('#') {
            let k = choose|k: int| 0 <= k < rest.len() && rest[k] == '#';
            assert(reference[last + 1 + k] == '#');
        }
        assert(reference[last] == '#');
    }
    if stands_for(expansions, reference, path) {
        let place = choose|place: int|
            #![trigger reference[place]]
            {
                &&& 0 <= place < reference.len()
                &&& reference[place] == '#'
                &&& !reference.skip(place + 1).contains('#')
                &&& if reference.take(place).contains('*') {
                    expansion_of(expansions, reference.take(place), 0).contains(path)
                } else {
                    reference.take(place) == path
                }
            };
        if place < last {
            let rest = reference.skip(place + 1);
            assert(rest[last - place - 1] == '#');
            assert(rest.contains('#'));
        }
        assert(place == last);
    }
}

pub(crate) proof fn lemma_in_sum<A>(left: Seq<A>, right: Seq<A>, value: A)
    ensures
        (left + right).contains(value) <==> left.contains(value) || right.contains(value),
{
    let all = left + right;
    if all.contains(value) {
        let k = choose|k: int| 0 <= k < all.len() && all[k] == value;
        if k < left.len() {
            assert(left[k] == value);
        } else {
            assert(right[k - left.len()] == value);
        }
    }
    if left.contains(value) {
        let k = choose|k: int| 0 <= k < left.len() && left[k] == value;
        assert(all[k] == value);
    }
    if right.contains(value) {
        let k = choose|k: int| 0 <= k < right.len() && right[k] == value;
        assert(all[left.len() + k] == value);
    }
}

proof fn lemma_pushed<A>(list: Seq<A>, last: A, value: A)
    ensures
        list.push(last).contains(value) <==> list.contains(value) || last == value,
{
    let all = list.push(last);
    assert(all =~= list + seq![last]);
    lemma_in_sum(list, seq![last], value);
    assert(seq![last][0] == last);
    if seq![last].contains(value) {
        assert(last == value);
    }
}

proof fn lemma_referenced(
    references: Seq<Seq<char>>,
    expansions: Seq<PatternExpansion>,
    count: int,
    path: Seq<char>,
)
    requires
        0 <= count <= references.len(),
    ensures
        referenced_paths(references, expansions, count).contains(path) <==> exists|i: int|
            0 <= i < count && stands_for(expansions, #[trigger] references[i], path),
    decreases count,
{
    if count > 0 {
        lemma_referenced(references, expansions, count - 1, path);
        let reference = references[count - 1];
        let place = last_place(reference, '#', reference.len() as int);
        let before = referenced_paths(references, expansions, count - 1);
        lemma_stands_for(expansions, reference, path);
        lemma_in_sum(before, expansion_of(expansions, reference.take(place), 0), path);
        lemma_pushed(before, reference.take(place), path);
        assert(referenced_paths(references, expansions, count).contains(path) <==> before.contains(
            path,
        ) || stands_for(expansions, references[count - 1], path));
    }
}

proof fn lemma_derivable(paths: Seq<Seq<char>>, count: int, path: Seq<char>)
    requires
        0 <= count <= paths.len(),
    ensures
        derivable_paths(paths, count).contains(path) <==> is_derivable(path)
            && exists|i: int| 0 <= i < count && #[trigger] paths[i] == path,
    decreases count,
{
    if count > 0 {
        lemma_derivable(paths, count - 1, path);
        lemma_pushed(derivable_paths(paths, count - 1), paths[count - 1], path);
        assert(paths[count - 1] == paths[count - 1]);
    }
}

/// Whether a module concerns a path: it derives it, and the generator can, or it has a region there.
pub open spec fn concerns(
    module: ModuleDefinition,
    expansions: Seq<PatternExpansion>,
    path: Seq<char>,
) -> bool {
    let owned = module.generator_ownership;
    ||| is_derivable(path) && texts(owned.derived@).contains(path)
    ||| exists|i: int|
        0 <= i < owned.managed_regions@.len() && stands_for(
            expansions,
            (#[trigger] owned.managed_regions@[i])@,
            path,
        )
}

proof fn lemma_concerned(
    modules: Seq<ModuleDefinition>,
    expansions: Seq<PatternExpansion>,
    count: int,
    path: Seq<char>,
)
    requires
        0 <= count <= modules.len(),
    ensures
        catalog_paths(modules, expansions, count).contains(path) <==> exists|i: int|
            0 <= i < count && concerns(#[trigger] modules[i], expansions, path),
    decreases count,
{
    if count > 0 {
        lemma_concerned(modules, expansions, count - 1, path);
        let owned = modules[count - 1].generator_ownership;
        let before = catalog_paths(modules, expansions, count - 1);
        let derived = texts(owned.derived@);
        let regions = texts(owned.managed_regions@);
        let left = derivable_paths(derived, owned.derived@.len() as int);
        let right = referenced_paths(regions, expansions, owned.managed_regions@.len() as int);
        lemma_derivable(derived, derived.len() as int, path);
        lemma_referenced(regions, expansions, regions.len() as int, path);
        lemma_in_sum(before, left, path);
        lemma_in_sum(before + left, right, path);
        assert(left.contains(path) <==> is_derivable(path) && derived.contains(
            path,
        )) by {
            if derived.contains(path) {
                let i = choose|i: int| 0 <= i < derived.len() && derived[i] == path;
                assert(derived[i] == path);
            }
        }
        assert(right.contains(path) <==> exists|i: int|
            0 <= i < owned.managed_regions@.len() && stands_for(
                expansions,
                (#[trigger] owned.managed_regions@[i])@,
                path,
            )) by {
            if right.contains(path) {
                let i = choose|i: int|
                    0 <= i < regions.len() && stands_for(expansions, #[trigger] regions[i], path);
                assert(regions[i] == owned.managed_regions@[i]@);
            }
            if exists|i: int|
                0 <= i < owned.managed_regions@.len() && stands_for(
                    expansions,
                    (#[trigger] owned.managed_regions@[i])@,
                    path,
                ) {
                let i = choose|i: int|
                    0 <= i < owned.managed_regions@.len() && stands_for(
                        expansions,
                        (#[trigger] owned.managed_regions@[i])@,
                        path,
                    );
                assert(regions[i] == owned.managed_regions@[i]@);
            }
        }
        assert(catalog_paths(modules, expansions, count).contains(path) <==> before.contains(path)
            || concerns(modules[count - 1], expansions, path));
    }
}

proof fn lemma_without_lock(paths: Seq<Seq<char>>, count: int, path: Seq<char>)
    requires
        0 <= count <= paths.len(),
    ensures
        without_lock(paths, count).contains(path) <==> path != "Cargo.lock"@ && exists|i: int|
            0 <= i < count && #[trigger] paths[i] == path,
    decreases count,
{
    if count > 0 {
        lemma_without_lock(paths, count - 1, path);
        lemma_pushed(without_lock(paths, count - 1), paths[count - 1], path);
        assert(paths[count - 1] == paths[count - 1]);
    }
}

/// Whether a snapshot has to read a path: the state, what it owns or has a region in, what the
/// release, a template or a module of the catalog puts there.
pub open spec fn is_read(
    state: StateModel,
    base_files: Seq<ProjectFile>,
    templates: Seq<ApplicationTemplateDescriptor>,
    catalog: ModuleCatalog,
    expansions: Seq<PatternExpansion>,
    path: Seq<char>,
) -> bool {
    ||| path == ".omnius/service.toml"@
    ||| exists|i: int| 0 <= i < state.ownership.len() && (#[trigger] state.ownership[i]).path == path
    ||| exists|i: int| 0 <= i < state.regions.len() && (#[trigger] state.regions[i]).path == path
    ||| exists|i: int| 0 <= i < base_files.len() && (#[trigger] base_files[i]).path@ == path
    ||| exists|i: int| 0 <= i < templates.len() && (#[trigger] templates[i]).path@ == path
    ||| exists|i: int|
        0 <= i < catalog.modules@.len() && concerns(
            #[trigger] catalog.modules@[i],
            expansions,
            path,
        )
}

/// A snapshot reads exactly the paths that it has to, in order and each once; the lockfile is read
/// apart.
pub proof fn lemma_snapshot_paths(
    state: StateModel,
    base_files: Seq<ProjectFile>,
    templates: Seq<ApplicationTemplateDescriptor>,
    catalog: ModuleCatalog,
    expansions: Seq<PatternExpansion>,
    path: Seq<char>,
)
    ensures
        ({
            let paths = snapshot_paths(state, base_files, templates, catalog, expansions);
            &&& ascending::<String>(paths)
            &&& paths.contains(path) <==> path != "Cargo.lock"@ && is_read(
                state,
                base_files,
                templates,
                catalog,
                expansions,
                path,
            )
        }),
{
    let first = seq![PROJECT_STATE_PATH@];
    let owned = owned_paths(state.ownership);
    let regions = region_paths(state.regions);
    let base = file_paths(base_files);
    let own = template_paths(templates);
    let modules = catalog_paths(catalog.modules@, expansions, catalog.modules@.len() as int);
    let all = first + owned + regions + base + own + modules;
    let kept = without_lock(all, all.len() as int);
    lemma_listing_exists::<String>(kept);
    lemma_without_lock(all, all.len() as int, path);
    lemma_in_sum(first, owned, path);
    lemma_in_sum(first + owned, regions, path);
    lemma_in_sum(first + owned + regions, base, path);
    lemma_in_sum(first + owned + regions + base, own, path);
    lemma_in_sum(first + owned + regions + base + own, modules, path);
    lemma_concerned(catalog.modules@, expansions, catalog.modules@.len() as int, path);
    assert(first.contains(path) <==> path == ".omnius/service.toml"@) by {
        assert(first[0] == ".omnius/service.toml"@);
    }
    assert(owned.contains(path) <==> exists|i: int|
        0 <= i < state.ownership.len() && (#[trigger] state.ownership[i]).path == path) by {
        if owned.contains(path) {
            let i = choose|i: int| 0 <= i < owned.len() && owned[i] == path;
            assert(state.ownership[i].path == path);
        }
        if exists|i: int|
            0 <= i < state.ownership.len() && (#[trigger] state.ownership[i]).path == path {
            let i = choose|i: int|
                0 <= i < state.ownership.len() && (#[trigger] state.ownership[i]).path == path;
            assert(owned[i] == path);
        }
    }
    assert(regions.contains(path) <==> exists|i: int|
        0 <= i < state.regions.len() && (#[trigger] state.regions[i]).path == path) by {
        if regions.contains(path) {
            let i = choose|i: int| 0 <= i < regions.len() && regions[i] == path;
            assert(state.regions[i].path == path);
        }
        if exists|i: int| 0 <= i < state.regions.len() && (#[trigger] state.regions[i]).path
            == path {
            let i = choose|i: int|
                0 <= i < state.regions.len() && (#[trigger] state.regions[i]).path == path;
            assert(regions[i] == path);
        }
    }
    assert(base.contains(path) <==> exists|i: int|
        0 <= i < base_files.len() && (#[trigger] base_files[i]).path@ == path) by {
        if base.contains(path) {
            let i = choose|i: int| 0 <= i < base.len() && base[i] == path;
            assert(base_files[i].path@ == path);
        }
        if exists|i: int| 0 <= i < base_files.len() && (#[trigger] base_files[i]).path@ == path {
            let i = choose|i: int|
                0 <= i < base_files.len() && (#[trigger] base_files[i]).path@ == path;
            assert(base[i] == path);
        }
    }
    assert(own.contains(path) <==> exists|i: int|
        0 <= i < templates.len() && (#[trigger] templates[i]).path@ == path) by {
        if own.contains(path) {
            let i = choose|i: int| 0 <= i < own.len() && own[i] == path;
            assert(templates[i].path@ == path);
        }
        if exists|i: int| 0 <= i < templates.len() && (#[trigger] templates[i]).path@ == path {
            let i = choose|i: int|
                0 <= i < templates.len() && (#[trigger] templates[i]).path@ == path;
            assert(own[i] == path);
        }
    }
    assert(all.contains(path) <==> exists|i: int| 0 <= i < all.len() && #[trigger] all[i] == path);
}

proof fn lemma_manifests(
    manifests: Seq<(Seq<char>, Seq<char>)>,
    count: int,
    path: Seq<char>,
)
    requires
        0 <= count <= manifests.len(),
    ensures
        ({
            let map = manifests_by_path(manifests, count);
            if map.contains_key(path) {
                exists|i: int|
                    0 <= i < count && (#[trigger] manifests[i]).0 == path && manifests[i].1
                        == map[path] && forall|j: int|
                        i < j < count ==> (#[trigger] manifests[j]).0 != path
            } else {
                forall|i: int| 0 <= i < count ==> (#[trigger] manifests[i]).0 != path
            }
        }),
    decreases count,
{
    if count > 0 {
        lemma_manifests(manifests, count - 1, path);
        if manifests[count - 1].0 == path {
            assert(manifests[count - 1].0 == path);
        } else {
            let map = manifests_by_path(manifests, count - 1);
            if map.contains_key(path) {
                let i = choose|i: int|
                    0 <= i < count - 1 && (#[trigger] manifests[i]).0 == path && manifests[i].1
                        == map[path] && forall|j: int|
                        i < j < count - 1 ==> (#[trigger] manifests[j]).0 != path;
                assert(manifests[i].0 == path);
            }
        }
    }
}

proof fn lemma_overlaid(
    below: Map<Seq<char>, Seq<char>>,
    files: Seq<ProjectFile>,
    count: int,
    path: Seq<char>,
)
    requires
        0 <= count <= files.len(),
    ensures
        ({
            let map = overlaid(below, files, count);
            ||| (forall|i: int| 0 <= i < count ==> (#[trigger] files[i]).path@ != path)
                && map.contains_key(path) == below.contains_key(path) && (below.contains_key(path)
                ==> map[path] == below[path])
            ||| map.contains_key(path) && exists|i: int|
                0 <= i < count && (#[trigger] files[i]).path@ == path && files[i].contents@
                    == map[path] && forall|j: int|
                    i < j < count ==> (#[trigger] files[j]).path@ != path
        }),
    decreases count,
{
    if count > 0 {
        lemma_overlaid(below, files, count - 1, path);
        if files[count - 1].path@ == path {
            assert(files[count - 1].path@ == path);
        } else {
            let map = overlaid(below, files, count - 1);
            if exists|i: int| 0 <= i < count - 1 && (#[trigger] files[i]).path@ == path {
                let i = choose|i: int|
                    0 <= i < count - 1 && (#[trigger] files[i]).path@ == path && files[i].contents@
                        == map[path] && forall|j: int|
                        i < j < count - 1 ==> (#[trigger] files[j]).path@ != path;
                assert(files[i].path@ == path);
            }
        }
    }
}

/// A snapshot holds the lockfile where it is text, what was read last at a path, and the last
/// manifest of a path where nothing was read; it holds nothing else.
pub proof fn lemma_snapshot_files(
    manifests: Seq<(Seq<char>, Seq<char>)>,
    read: Seq<ProjectFile>,
    lock_text: Option<Seq<char>>,
    path: Seq<char>,
)
    ensures
        ({
            let files = snapshot_files(manifests, read, lock_text);
            if path == "Cargo.lock"@ && lock_text is Some {
                files.contains_key(path) && files[path] == lock_text->Some_0
            } else if exists|i: int| 0 <= i < read.len() && (#[trigger] read[i]).path@ == path {
                files.contains_key(path) && exists|i: int|
                    0 <= i < read.len() && (#[trigger] read[i]).path@ == path && read[i].contents@
                        == files[path] && forall|j: int|
                        i < j < read.len() ==> (#[trigger] read[j]).path@ != path
            } else if exists|i: int| 0 <= i < manifests.len() && (#[trigger] manifests[i]).0 == path {
                files.contains_key(path) && exists|i: int|
                    0 <= i < manifests.len() && (#[trigger] manifests[i]).0 == path
                        && manifests[i].1 == files[path] && forall|j: int|
                        i < j < manifests.len() ==> (#[trigger] manifests[j]).0 != path
            } else {
                !files.contains_key(path)
            }
        }),
{
    let below = manifests_by_path(manifests, manifests.len() as int);
    lemma_manifests(manifests, manifests.len() as int, path);
    lemma_overlaid(below, read, read.len() as int, path);
}

// Sealing.
/// A change is sealed if and only if there is a lockfile that the state owns as such; an update, if
/// there is a lockfile.
pub proof fn lemma_sealable(snapshot: SnapshotModel)
    ensures
        seal_defect(snapshot, SealKind::Change) is None <==> snapshot.lockfile is Some && owner_of(
            snapshot.state.ownership,
            "Cargo.lock"@,
        ) == Some(OwnershipKind::DependencyLock),
        seal_defect(snapshot, SealKind::Update) is None <==> snapshot.lockfile is Some,
{
}

proof fn lemma_state_step(list: Seq<PlanStep>, at: int)
    requires
        0 <= at <= list.len(),
    ensures
        ({
            let place = state_place(list, at);
            &&& at <= place <= list.len()
            &&& place < list.len() ==> list[place] is WriteState
            &&& forall|i: int| at <= i < place ==> !((#[trigger] list[i]) is WriteState)
        }),
    decreases list.len() - at,
{
    if at < list.len() && !(list[at] is WriteState) {
        lemma_state_step(list, at + 1);
    }
}

/// A plan is staged if and only if it writes the state exactly once and the lockfile not at all.
pub proof fn lemma_stageable(list: Seq<PlanStep>, kind: SealKind)
    ensures
        staging_defect(list, kind) is None <==> exists|place: int|
            0 <= place < list.len() && (#[trigger] list[place]) is WriteState && forall|i: int|
                0 <= i < list.len() && i != place ==> !((#[trigger] list[i]) is WriteState)
                    && !(list[i] is WriteLock) && !(list[i] is WriteResolvedLock),
{
    lemma_state_step(list, 0);
    let place = state_place(list, 0);
    if place < list.len() {
        let rest = list.remove(place);
        if staging_defect(list, kind) is None {
            assert(list[place] is WriteState);
            assert forall|i: int| 0 <= i < list.len() && i != place implies !((
            #[trigger] list[i]) is WriteState) && !(list[i] is WriteLock) && !(
            list[i] is WriteResolvedLock) by {
                let k = if i < place {
                    i
                } else {
                    i - 1
                };
                assert(rest[k] == list[i]);
                assert(!is_final_write(rest[k]));
            }
        }
        if exists|only: int|
            0 <= only < list.len() && (#[trigger] list[only]) is WriteState && forall|i: int|
                0 <= i < list.len() && i != only ==> !((#[trigger] list[i]) is WriteState) && !(
                list[i] is WriteLock) && !(list[i] is WriteResolvedLock) {
            let only = choose|only: int|
                0 <= only < list.len() && (#[trigger] list[only]) is WriteState && forall|i: int|
                    0 <= i < list.len() && i != only ==> !((#[trigger] list[i]) is WriteState)
                        && !(list[i] is WriteLock) && !(list[i] is WriteResolvedLock);
            assert(only == place) by {
                assert(list[place] is WriteState);
            }
            assert forall|i: int| 0 <= i < rest.len() implies !is_final_write(
                #[trigger] rest[i],
            ) by {
                let k = if i < place {
                    i
                } else {
                    i + 1
                };
                assert(rest[i] == list[k]);
            }
        }
    } else {
        assert forall|i: int| 0 <= i < list.len() implies !((#[trigger] list[i]) is WriteState) by {}
    }
}

/// The lockfile is written if and only if it changes, and then once, from what it is to what was
/// resolved.
pub proof fn lemma_lock_written(current: Seq<u8>, resolved: Seq<u8>)
    ensures
        current == resolved ==> lock_steps(current, resolved).len() == 0,
        current != resolved ==> {
            let steps = lock_steps(current, resolved);
            &&& steps.len() == 1
            &&& steps[0].target() == "Cargo.lock"@
            &&& steps[0].bytes() == Some(resolved)
            &&& steps[0].hash_before() == Some(hex(sha256(current)))
            &&& steps[0].hash_after() == Some(hex(sha256(resolved)))
        },
{
}

} // verus!
