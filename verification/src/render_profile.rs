//! Canonical form of new projects: derived files, recorded owners, and composed contents.

use vstd::prelude::*;
use vstd::string::*;

use crate::derived::{derived_text, render_derived_with_retained_volumes};
use crate::diagnosis::{hash_text, text_hash};
use crate::file_map::FileMap;
use crate::management::ManagerFailure;
use crate::modules::ModuleCatalog;
use crate::ordered::{ascending, codes, codes_of, models, set_add, Sorted, TextSet};
use crate::plan_files::{find_owner, kind_name, owner_place, show_kind};
use crate::provenance::{FindingModel, ProvenanceFinding};
use crate::render::{
    is_canonical_error, rendered_models, RenderError, RenderedFile, RenderedModel,
    TemplateOwnership,
};
use crate::rendering::REACT_INDEX_PATH;
use crate::selection::{lemma_listing, listing};
use crate::sorting::{arranged, lemma_arranged, sort_ranked, Ranked};
use crate::state::{
    owner_of, ownership_models, OwnershipKind, OwnershipModel, OwnershipRecord, ProjectState,
    StateModel, PROJECT_STATE_PATH,
};
use crate::text::{
    join3, join7, join_texts, joined, optional_view, same_text, texts,
};

verus! {

// Derived files.
/// The paths of derived files in the order in which they are rendered.
pub open spec fn derived_order() -> Seq<Seq<char>> {
    seq![
        "config/reference.toml"@,
        "docs/module-catalog.md"@,
        "ops/compose.yaml"@,
        "ops/Dockerfile"@,
        REACT_INDEX_PATH@,
    ]
}

/// The first `count` derived files of a new project.
pub open spec fn derived_files(
    catalog: ModuleCatalog,
    selected: Seq<Seq<char>>,
    state: StateModel,
    image: Seq<char>,
    count: int,
) -> Result<Seq<RenderedModel>, ManagerFailure>
    decreases count,
{
    if count <= 0 {
        Ok(Seq::empty())
    } else {
        let path = derived_order()[count - 1];
        match derived_files(catalog, selected, state, image, count - 1) {
            Err(failure) => Err(failure),
            Ok(before) => match derived_text(
                path,
                catalog,
                selected,
                state.service,
                state.retained_volumes,
                image,
            ) {
                Err(failure) => Err(failure),
                Ok(contents) => Ok(
                    before.push(
                        RenderedModel { path, contents, ownership: TemplateOwnership::Derived },
                    ),
                ),
            },
        }
    }
}

proof fn lemma_derived_files_fail(
    catalog: ModuleCatalog,
    selected: Seq<Seq<char>>,
    state: StateModel,
    image: Seq<char>,
    count: int,
    total: int,
)
    requires
        derived_files(catalog, selected, state, image, count) is Err,
        count <= total,
    ensures
        derived_files(catalog, selected, state, image, total) == derived_files(
            catalog,
            selected,
            state,
            image,
            count,
        ),
    decreases total - count,
{
    if count < total {
        lemma_derived_files_fail(catalog, selected, state, image, count, total - 1);
    }
}

/// Appends the derived files of a new project.
pub fn append_derived_files(
    rendered: &mut Vec<RenderedFile>,
    catalog: &ModuleCatalog,
    selected: &TextSet,
    state: &ProjectState,
    image_template: &str,
) -> (result: Result<(), RenderError>)
    ensures
        ({
            let owed = derived_files(*catalog, selected@, state@, image_template@, 5);
            match result {
                Ok(()) => owed is Ok && rendered_models(final(rendered)@) == rendered_models(
                    old(rendered)@,
                ) + owed->Ok_0,
                Err(error) => owed is Err && is_canonical_error(error, owed->Err_0.text()),
            }
        }),
{
    let mut paths = crate::rendering::unconditional_derived_paths();
    let ghost first = texts(paths@);
    paths.push(REACT_INDEX_PATH.to_owned());
    let ghost all = texts(paths@);
    assert(all =~= first.push(REACT_INDEX_PATH@));
    assert(all =~= derived_order());
    let ghost start = rendered_models(rendered@);
    let ghost mut done = Seq::<RenderedModel>::empty();
    assert(start + done =~= start);
    let mut index: usize = 0;
    while index < paths.len()
        invariant
            all == texts(paths@),
            all == derived_order(),
            paths@.len() == 5,
            start == rendered_models(old(rendered)@),
            index <= 5,
            derived_files(*catalog, selected@, state@, image_template@, index as int) == Ok::<
                Seq<RenderedModel>,
                ManagerFailure,
            >(done),
            rendered_models(rendered@) == start + done,
        decreases 5 - index,
    {
        let path = paths[index].as_str();
        assert(all[index as int] == path@);
        let contents = match render_derived_with_retained_volumes(
            path,
            catalog,
            selected,
            state.service.as_str(),
            &state.retained_compose_volumes,
            image_template,
        ) {
            Ok(contents) => contents,
            Err(error) => {
                proof {
                    lemma_derived_files_fail(
                        *catalog,
                        selected@,
                        state@,
                        image_template@,
                        index + 1,
                        5,
                    );
                }
                return Err(RenderError::Canonical(error.message()));
            },
        };
        let ghost before = rendered_models(rendered@);
        let file = RenderedFile {
            path: path.to_owned(),
            contents,
            ownership: TemplateOwnership::Derived,
        };
        let ghost value = file@;
        rendered.push(file);
        proof {
            assert(rendered_models(rendered@) =~= before.push(value));
            assert((start + done).push(value) =~= start + done.push(value));
            done = done.push(value);
        }
        index += 1;
    }
    Ok(())
}

// Owners.
/// The hash that a state approves for a rendered file.
pub open spec fn approved_hash(kind: OwnershipKind, contents: Seq<char>) -> Option<Seq<char>> {
    match kind {
        OwnershipKind::KitOwned => Some(text_hash(contents)),
        OwnershipKind::Derived => Some(text_hash(contents)),
        _ => None,
    }
}

/// The records with the owner of one rendered file.
pub open spec fn with_rendered(records: Seq<OwnershipModel>, file: RenderedModel) -> Result<
    Seq<OwnershipModel>,
    Seq<char>,
> {
    let kind = file.ownership.recorded();
    let place = owner_place(records, file.path, 0);
    if file.path == PROJECT_STATE_PATH@ {
        Ok(records)
    } else if place >= records.len() {
        Ok(
            records.push(
                OwnershipModel {
                    path: file.path,
                    kind,
                    approved: approved_hash(kind, file.contents),
                },
            ),
        )
    } else if records[place].kind != kind {
        Err(
            "template ownership for `"@ + file.path + "` is `"@ + kind_name(records[place].kind)
                + "`, expected `"@ + kind_name(kind) + "`"@,
        )
    } else {
        Ok(
            records.update(
                place,
                OwnershipModel {
                    approved: approved_hash(kind, file.contents),
                    ..records[place]
                },
            ),
        )
    }
}

/// The records with the owners of the first `count` rendered files.
pub open spec fn with_all_rendered(
    records: Seq<OwnershipModel>,
    files: Seq<RenderedModel>,
    count: int,
) -> Result<Seq<OwnershipModel>, Seq<char>>
    decreases count,
{
    if count <= 0 {
        Ok(records)
    } else {
        match with_all_rendered(records, files, count - 1) {
            Err(message) => Err(message),
            Ok(before) => with_rendered(before, files[count - 1]),
        }
    }
}

proof fn lemma_all_rendered_fail(
    records: Seq<OwnershipModel>,
    files: Seq<RenderedModel>,
    count: int,
    total: int,
)
    requires
        with_all_rendered(records, files, count) is Err,
        count <= total,
    ensures
        with_all_rendered(records, files, total) == with_all_rendered(records, files, count),
    decreases total - count,
{
    if count < total {
        lemma_all_rendered_fail(records, files, count, total - 1);
    }
}

fn approve(kind: OwnershipKind, contents: &str) -> (hash: Option<String>)
    ensures
        optional_view(hash) == approved_hash(kind, contents@),
{
    match kind {
        OwnershipKind::KitOwned => Some(hash_text(contents)),
        OwnershipKind::Derived => Some(hash_text(contents)),
        _ => None,
    }
}

fn recorded_kind(ownership: TemplateOwnership) -> (kind: OwnershipKind)
    ensures
        kind == ownership.recorded(),
{
    match ownership {
        TemplateOwnership::Kit => OwnershipKind::KitOwned,
        TemplateOwnership::Application => OwnershipKind::ApplicationOwned,
        TemplateOwnership::Derived => OwnershipKind::Derived,
    }
}

fn record_file(file: &RenderedFile, records: &mut Vec<OwnershipRecord>) -> (result: Result<
    (),
    RenderError,
>)
    ensures
        ({
            let owed = with_rendered(ownership_models(old(records)@), file@);
            match result {
                Ok(()) => owed == Ok::<Seq<OwnershipModel>, Seq<char>>(
                    ownership_models(final(records)@),
                ),
                Err(error) => owed is Err && is_canonical_error(error, owed->Err_0),
            }
        }),
{
    let ghost before = ownership_models(records@);
    let path = file.path.as_str();
    if same_text(path, PROJECT_STATE_PATH) {
        return Ok(());
    }
    let kind = recorded_kind(file.ownership);
    match find_owner(records, path) {
        None => {
            let record = OwnershipRecord {
                path: file.path.clone(),
                kind,
                approved_sha256: approve(kind, file.contents.as_str()),
            };
            let ghost value = record@;
            records.push(record);
            assert(ownership_models(records@) =~= before.push(value));
        },
        Some(place) => {
            let existing = records[place].duplicate();
            assert(before[place as int] == existing@);
            if existing.kind != kind {
                return Err(
                    RenderError::Canonical(
                        join7(
                            "template ownership for `",
                            path,
                            "` is `",
                            show_kind(existing.kind),
                            "`, expected `",
                            show_kind(kind),
                            "`",
                        ),
                    ),
                );
            }
            let changed = OwnershipRecord {
                path: existing.path,
                kind: existing.kind,
                approved_sha256: approve(kind, file.contents.as_str()),
            };
            let ghost value = changed@;
            records.set(place, changed);
            assert(ownership_models(records@) =~= before.update(place as int, value));
        },
    }
    Ok(())
}

/// Records the owners of rendered files in a state.
pub fn record_rendered_ownership(rendered: &Vec<RenderedFile>, state: &mut ProjectState) -> (result:
    Result<(), RenderError>)
    ensures
        ({
            let owed = with_all_rendered(
                old(state)@.ownership,
                rendered_models(rendered@),
                rendered@.len() as int,
            );
            match result {
                Ok(()) => owed is Ok && final(state)@ == (StateModel {
                    ownership: owed->Ok_0,
                    ..old(state)@
                }),
                Err(error) => owed is Err && is_canonical_error(error, owed->Err_0),
            }
        }),
{
    let ghost files = rendered_models(rendered@);
    let ghost start = ownership_models(state.ownership@);
    let ghost total = rendered@.len() as int;
    let mut records = crate::state::clone_ownership(&state.ownership);
    let mut index: usize = 0;
    while index < rendered.len()
        invariant
            files == rendered_models(rendered@),
            start == old(state)@.ownership,
            state@ == old(state)@,
            total == rendered@.len(),
            index <= total,
            with_all_rendered(start, files, index as int) == Ok::<
                Seq<OwnershipModel>,
                Seq<char>,
            >(ownership_models(records@)),
        decreases total - index,
    {
        assert(files[index as int] == rendered@[index as int]@);
        proof {
            if with_all_rendered(start, files, index + 1) is Err {
                lemma_all_rendered_fail(start, files, index + 1, total);
            }
        }
        match record_file(&rendered[index], &mut records) {
            Ok(()) => {},
            Err(error) => {
                return Err(error);
            },
        }
        index += 1;
    }
    state.ownership = records;
    Ok(())
}

/// A record with the hash of its file as it is now.
pub open spec fn refreshed(record: OwnershipModel, files: Map<Seq<char>, Seq<char>>) -> Result<
    OwnershipModel,
    Seq<char>,
> {
    let hashed = record.kind == OwnershipKind::KitOwned || record.kind == OwnershipKind::Derived;
    if record.path == PROJECT_STATE_PATH@ {
        Err("rendered state must not own itself"@)
    } else if hashed && !files.contains_key(record.path) {
        Err("rendered ownership references missing file `"@ + record.path + "`"@)
    } else if hashed {
        Ok(OwnershipModel { approved: Some(text_hash(files[record.path])), ..record })
    } else {
        Ok(OwnershipModel { approved: None, ..record })
    }
}

/// The first `count` records with the hashes of their files as they are now.
pub open spec fn all_refreshed(
    records: Seq<OwnershipModel>,
    files: Map<Seq<char>, Seq<char>>,
    count: int,
) -> Result<Seq<OwnershipModel>, Seq<char>>
    decreases count,
{
    if count <= 0 {
        Ok(Seq::empty())
    } else {
        match all_refreshed(records, files, count - 1) {
            Err(message) => Err(message),
            Ok(before) => match refreshed(records[count - 1], files) {
                Err(message) => Err(message),
                Ok(record) => Ok(before.push(record)),
            },
        }
    }
}

proof fn lemma_refreshed_fail(
    records: Seq<OwnershipModel>,
    files: Map<Seq<char>, Seq<char>>,
    count: int,
    total: int,
)
    requires
        all_refreshed(records, files, count) is Err,
        count <= total,
    ensures
        all_refreshed(records, files, total) == all_refreshed(records, files, count),
    decreases total - count,
{
    if count < total {
        lemma_refreshed_fail(records, files, count, total - 1);
    }
}

fn refresh_record(record: &OwnershipRecord, files: &FileMap) -> (result: Result<
    OwnershipRecord,
    RenderError,
>)
    ensures
        match result {
            Ok(changed) => refreshed(record@, files@) == Ok::<OwnershipModel, Seq<char>>(changed@),
            Err(error) => refreshed(record@, files@) is Err && is_canonical_error(
                error,
                refreshed(record@, files@)->Err_0,
            ),
        },
{
    let path = record.path.as_str();
    if same_text(path, PROJECT_STATE_PATH) {
        return Err(RenderError::Canonical("rendered state must not own itself".to_owned()));
    }
    let approved_sha256 = match record.kind {
        OwnershipKind::KitOwned | OwnershipKind::Derived => match files.get(path) {
            Some(contents) => Some(hash_text(contents)),
            None => {
                return Err(
                    RenderError::Canonical(
                        join3("rendered ownership references missing file `", path, "`"),
                    ),
                );
            },
        },
        _ => None,
    };
    Ok(OwnershipRecord { path: record.path.clone(), kind: record.kind, approved_sha256 })
}

/// Records the hashes of owned files as they are now.
pub fn refresh_approved_hashes(state: &mut ProjectState, files: &FileMap) -> (result: Result<
    (),
    RenderError,
>)
    ensures
        ({
            let owed = all_refreshed(
                old(state)@.ownership,
                files@,
                old(state)@.ownership.len() as int,
            );
            match result {
                Ok(()) => owed is Ok && final(state)@ == (StateModel {
                    ownership: owed->Ok_0,
                    ..old(state)@
                }),
                Err(error) => owed is Err && is_canonical_error(error, owed->Err_0),
            }
        }),
{
    let ghost start = ownership_models(state.ownership@);
    let ghost total = start.len() as int;
    let mut records: Vec<OwnershipRecord> = Vec::new();
    assert(ownership_models(records@) =~= Seq::<OwnershipModel>::empty());
    let mut index: usize = 0;
    while index < state.ownership.len()
        invariant
            start == ownership_models(state.ownership@),
            start == old(state)@.ownership,
            state@ == old(state)@,
            total == start.len(),
            index <= total,
            all_refreshed(start, files@, index as int) == Ok::<Seq<OwnershipModel>, Seq<char>>(
                ownership_models(records@),
            ),
        decreases total - index,
    {
        assert(start[index as int] == state.ownership@[index as int]@);
        proof {
            if all_refreshed(start, files@, index + 1) is Err {
                lemma_refreshed_fail(start, files@, index + 1, total);
            }
        }
        let record = match refresh_record(&state.ownership[index], files) {
            Ok(record) => record,
            Err(error) => {
                return Err(error);
            },
        };
        let ghost before = ownership_models(records@);
        let ghost value = record@;
        records.push(record);
        assert(ownership_models(records@) =~= before.push(value));
        index += 1;
    }
    state.ownership = records;
    Ok(())
}

// Composed contents.
/// The first `count` rendered files with their composed contents, and the composed files that are
/// left.
pub open spec fn composed_files(
    files: Seq<RenderedModel>,
    composed: Map<Seq<char>, Seq<char>>,
    count: int,
) -> Result<(Seq<RenderedModel>, Map<Seq<char>, Seq<char>>), Seq<char>>
    decreases count,
{
    if count <= 0 {
        Ok((Seq::empty(), composed))
    } else {
        let file = files[count - 1];
        match composed_files(files, composed, count - 1) {
            Err(message) => Err(message),
            Ok(before) => if !before.1.contains_key(file.path) {
                Err("initial composition removed rendered file `"@ + file.path + "`"@)
            } else {
                Ok(
                    (
                        before.0.push(
                            RenderedModel { contents: before.1[file.path], ..file },
                        ),
                        before.1.remove(file.path),
                    ),
                )
            },
        }
    }
}

/// The owner of a file that composition has added.
pub open spec fn composed_owner(state: StateModel, path: Seq<char>) -> Result<
    TemplateOwnership,
    Seq<char>,
> {
    match owner_of(state.ownership, path) {
        Some(OwnershipKind::KitOwned) => Ok(TemplateOwnership::Kit),
        Some(OwnershipKind::Derived) => Ok(TemplateOwnership::Derived),
        Some(OwnershipKind::ApplicationOwned) => Ok(TemplateOwnership::Application),
        Some(OwnershipKind::DependencyLock) => Err(
            "initial composition unexpectedly produced dependency lock `"@ + path + "`"@,
        ),
        None => Err("initial composition produced unowned file `"@ + path + "`"@),
    }
}

proof fn lemma_composed_fail(
    files: Seq<RenderedModel>,
    composed: Map<Seq<char>, Seq<char>>,
    count: int,
    total: int,
)
    requires
        composed_files(files, composed, count) is Err,
        count <= total,
    ensures
        composed_files(files, composed, total) == composed_files(files, composed, count),
    decreases total - count,
{
    if count < total {
        lemma_composed_fail(files, composed, count, total - 1);
    }
}

/// Gives rendered files their composed contents; what composition has added is left.
pub fn take_composed_contents(rendered: &Vec<RenderedFile>, composed: &mut FileMap) -> (result: Result<
    Vec<RenderedFile>,
    RenderError,
>)
    ensures
        ({
            let owed = composed_files(
                rendered_models(rendered@),
                old(composed)@,
                rendered@.len() as int,
            );
            match result {
                Ok(files) => owed == Ok::<
                    (Seq<RenderedModel>, Map<Seq<char>, Seq<char>>),
                    Seq<char>,
                >((rendered_models(files@), final(composed)@)),
                Err(error) => owed is Err && is_canonical_error(error, owed->Err_0),
            }
        }),
{
    let ghost all = rendered_models(rendered@);
    let ghost start = composed@;
    let ghost total = rendered@.len() as int;
    let mut files: Vec<RenderedFile> = Vec::new();
    assert(rendered_models(files@) =~= Seq::<RenderedModel>::empty());
    let mut index: usize = 0;
    while index < rendered.len()
        invariant
            all == rendered_models(rendered@),
            start == old(composed)@,
            total == rendered@.len(),
            index <= total,
            composed_files(all, start, index as int) == Ok::<
                (Seq<RenderedModel>, Map<Seq<char>, Seq<char>>),
                Seq<char>,
            >((rendered_models(files@), composed@)),
        decreases total - index,
    {
        assert(all[index as int] == rendered@[index as int]@);
        let path = rendered[index].path.as_str();
        let contents = match composed.remove(path) {
            Some(contents) => contents,
            None => {
                proof {
                    lemma_composed_fail(all, start, index + 1, total);
                }
                return Err(
                    RenderError::Canonical(
                        join3("initial composition removed rendered file `", path, "`"),
                    ),
                );
            },
        };
        let ghost before = rendered_models(files@);
        let file = RenderedFile {
            path: path.to_owned(),
            contents,
            ownership: rendered[index].ownership,
        };
        let ghost value = file@;
        files.push(file);
        assert(rendered_models(files@) =~= before.push(value));
        index += 1;
    }
    Ok(files)
}

/// Decides who owns a file that composition has added.
pub fn own_composed_file(state: &ProjectState, path: &str) -> (result: Result<
    TemplateOwnership,
    RenderError,
>)
    ensures
        match result {
            Ok(ownership) => composed_owner(state@, path@) == Ok::<TemplateOwnership, Seq<char>>(
                ownership,
            ),
            Err(error) => composed_owner(state@, path@) is Err && is_canonical_error(
                error,
                composed_owner(state@, path@)->Err_0,
            ),
        },
{
    match state.ownership_of(path) {
        Some(OwnershipKind::KitOwned) => Ok(TemplateOwnership::Kit),
        Some(OwnershipKind::Derived) => Ok(TemplateOwnership::Derived),
        Some(OwnershipKind::ApplicationOwned) => Ok(TemplateOwnership::Application),
        Some(OwnershipKind::DependencyLock) => Err(
            RenderError::Canonical(
                join3("initial composition unexpectedly produced dependency lock `", path, "`"),
            ),
        ),
        None => Err(
            RenderError::Canonical(
                join3("initial composition produced unowned file `", path, "`"),
            ),
        ),
    }
}

/// The files at the first `count` paths, with their owners.
pub open spec fn added_files(
    state: StateModel,
    rest: Map<Seq<char>, Seq<char>>,
    paths: Seq<Seq<char>>,
    count: int,
) -> Result<Seq<RenderedModel>, Seq<char>>
    decreases count,
{
    if count <= 0 {
        Ok(Seq::empty())
    } else {
        let path = paths[count - 1];
        match added_files(state, rest, paths, count - 1) {
            Err(message) => Err(message),
            Ok(before) => match composed_owner(state, path) {
                Err(message) => Err(message),
                Ok(ownership) => Ok(
                    before.push(RenderedModel { path, contents: rest[path], ownership }),
                ),
            },
        }
    }
}

/// Rendered files with their composed contents and the files that composition has added, in the
/// order of their paths.
pub open spec fn merged_files(
    files: Seq<RenderedModel>,
    state: StateModel,
    composed: Map<Seq<char>, Seq<char>>,
) -> Result<Seq<RenderedModel>, Seq<char>> {
    match composed_files(files, composed, files.len() as int) {
        Err(message) => Err(message),
        Ok(taken) => {
            let paths = listing(taken.1.dom());
            match added_files(state, taken.1, paths, paths.len() as int) {
                Err(message) => Err(message),
                Ok(more) => {
                    let all = taken.0 + more;
                    Ok(arranged(all, rendered_rank(), all.len() as int))
                },
            }
        },
    }
}

proof fn lemma_added_fail(
    state: StateModel,
    rest: Map<Seq<char>, Seq<char>>,
    paths: Seq<Seq<char>>,
    count: int,
    total: int,
)
    requires
        added_files(state, rest, paths, count) is Err,
        count <= total,
    ensures
        added_files(state, rest, paths, total) == added_files(state, rest, paths, count),
    decreases total - count,
{
    if count < total {
        lemma_added_fail(state, rest, paths, count, total - 1);
    }
}

fn listed_paths(files: &FileMap) -> (paths: TextSet)
    ensures
        paths@ == listing(files@.dom()),
        forall|i: int| 0 <= i < paths@.len() ==> files@.contains_key(#[trigger] paths@[i]),
{
    let ghost listed = files.listed();
    let mut paths: TextSet = Sorted::new();
    paths.use_order();
    files.use_listing();
    let mut index: usize = 0;
    while index < files.len()
        invariant
            listed == files.listed(),
            index <= listed.len(),
            ascending::<String>(paths@),
            forall|path: Seq<char>| #[trigger]
                paths@.contains(path) <==> exists|i: int|
                    0 <= i < index && (#[trigger] listed[i]).path@ == path,
        decreases listed.len() - index,
    {
        let ghost before = paths@;
        let path = files.at(index).path.as_str();
        set_add(&mut paths, path);
        proof {
            assert forall|other: Seq<char>| #[trigger]
                paths@.contains(other) <==> exists|i: int|
                    0 <= i < index + 1 && (#[trigger] listed[i]).path@ == other by {
                assert(before.contains(other) <==> exists|i: int|
                    0 <= i < index && (#[trigger] listed[i]).path@ == other);
                if other == path@ {
                    assert(listed[index as int].path@ == other);
                }
            }
        }
        index += 1;
    }
    proof {
        assert forall|path: Seq<char>| paths@.to_set().contains(path) <==> files@.dom().contains(
            path,
        ) by {
            assert(paths@.contains(path) <==> files@.contains_key(path));
        }
        assert(paths@.to_set() =~= files@.dom());
        lemma_listing(paths@);
        assert forall|i: int| 0 <= i < paths@.len() implies files@.contains_key(
            #[trigger] paths@[i],
        ) by {
            assert(paths@.contains(paths@[i]));
        }
    }
    paths
}

/// Merges composed contents into rendered files.
pub fn merge_composed_files(
    rendered: &Vec<RenderedFile>,
    state: &ProjectState,
    composed: FileMap,
) -> (result: Result<Vec<RenderedFile>, RenderError>)
    ensures
        ({
            let owed = merged_files(rendered_models(rendered@), state@, composed@);
            match result {
                Ok(files) => owed == Ok::<Seq<RenderedModel>, Seq<char>>(rendered_models(files@)),
                Err(error) => owed is Err && is_canonical_error(error, owed->Err_0),
            }
        }),
{
    let mut rest = composed;
    assert(rendered_models(rendered@).len() == rendered@.len());
    let mut files = match take_composed_contents(rendered, &mut rest) {
        Ok(files) => files,
        Err(error) => {
            return Err(error);
        },
    };
    let ghost taken = rendered_models(files@);
    let ghost left = rest@;
    let paths = listed_paths(&rest);
    let ghost total = paths@.len() as int;
    let ghost mut done = Seq::<RenderedModel>::empty();
    assert(taken + done =~= taken);
    let mut index: usize = 0;
    while index < paths.len()
        invariant
            left == rest@,
            paths@ == listing(left.dom()),
            forall|i: int| 0 <= i < paths@.len() ==> left.contains_key(#[trigger] paths@[i]),
            composed_files(
                rendered_models(rendered@),
                composed@,
                rendered_models(rendered@).len() as int,
            ) == Ok::<(Seq<RenderedModel>, Map<Seq<char>, Seq<char>>), Seq<char>>((taken, left)),
            total == paths@.len(),
            index <= total,
            added_files(state@, left, paths@, index as int) == Ok::<
                Seq<RenderedModel>,
                Seq<char>,
            >(done),
            rendered_models(files@) == taken + done,
        decreases total - index,
    {
        let path = paths.at(index).as_str();
        assert(paths@[index as int] == path@);
        proof {
            if added_files(state@, left, paths@, index + 1) is Err {
                lemma_added_fail(state@, left, paths@, index + 1, total);
            }
        }
        let ownership = match own_composed_file(state, path) {
            Ok(ownership) => ownership,
            Err(error) => {
                return Err(error);
            },
        };
        if let Some(contents) = rest.get(path) {
            let ghost before = rendered_models(files@);
            let file = RenderedFile {
                path: path.to_owned(),
                contents: contents.to_owned(),
                ownership,
            };
            let ghost value = file@;
            files.push(file);
            proof {
                assert(rendered_models(files@) =~= before.push(value));
                assert((taken + done).push(value) =~= taken + done.push(value));
                done = done.push(value);
            }
        }
        index += 1;
    }
    assert(rendered_models(files@).len() == files@.len());
    Ok(sort_rendered(files))
}

impl Ranked for RenderedFile {
    open spec fn rank(&self) -> Seq<u32> {
        codes(self.path@)
    }

    fn rank_codes(&self) -> (codes: Vec<u32>) {
        codes_of(self.path.as_str())
    }
}

/// The rank of a rendered file: its path.
pub open spec fn rendered_rank() -> spec_fn(RenderedModel) -> Seq<u32> {
    |file: RenderedModel| codes(file.path)
}

/// Sorts rendered files by their paths.
pub fn sort_rendered(files: Vec<RenderedFile>) -> (sorted: Vec<RenderedFile>)
    ensures
        rendered_models(sorted@) == arranged(
            rendered_models(files@),
            rendered_rank(),
            files@.len() as int,
        ),
{
    let ghost unsorted = files@;
    let sorted = sort_ranked(files);
    proof {
        let view = |file: RenderedFile| file@;
        lemma_arranged(unsorted, view, rendered_rank(), unsorted.len() as int);
        assert(rendered_models(unsorted) == unsorted.map_values(view));
    }
    sorted
}

// Provenance.
/// What a finding adds to a diagnostic.
pub open spec fn shown_finding(finding: FindingModel) -> Seq<char> {
    finding.0 + " at "@ + finding.1 + ": "@ + finding.2
}

/// The diagnostic of provenance findings.
pub open spec fn shown_findings(findings: Seq<FindingModel>) -> Seq<char> {
    joined(findings.map_values(|finding: FindingModel| shown_finding(finding)), "; "@)
}

/// Checks that a new project has no provenance findings.
pub fn check_provenance(findings: &Vec<ProvenanceFinding>) -> (result: Result<(), RenderError>)
    ensures
        match result {
            Ok(()) => findings@.len() == 0,
            Err(error) => findings@.len() > 0 && (error matches RenderError::Provenance(message)
                && message@ == shown_findings(models(findings@))),
        },
{
    if findings.len() == 0 {
        return Ok(());
    }
    let ghost all = models(findings@).map_values(|finding: FindingModel| shown_finding(finding));
    let mut list: Vec<String> = Vec::new();
    let mut index: usize = 0;
    while index < findings.len()
        invariant
            all == models(findings@).map_values(|finding: FindingModel| shown_finding(finding)),
            index <= findings@.len(),
            texts(list@) == all.take(index as int),
        decreases findings@.len() - index,
    {
        let finding = &findings[index];
        let ghost before = texts(list@);
        let mut text = finding.code.to_owned();
        text.append(" at ");
        text.append(finding.path.as_str());
        text.append(": ");
        text.append(finding.message.as_str());
        let ghost value = text@;
        list.push(text);
        proof {
            assert(all[index as int] == value);
            assert(texts(list@) =~= before.push(value));
            assert(all.take(index + 1) =~= all.take(index as int).push(value));
        }
        index += 1;
    }
    assert(all.take(index as int) =~= all);
    Err(RenderError::Provenance(join_texts(&list, "; ")))
}

/// The place, from `at` on, of the rendered state.
pub open spec fn rendered_state_place(files: Seq<RenderedModel>, at: int) -> int
    decreases files.len() - at,
{
    if at < 0 || at >= files.len() || files[at].path == PROJECT_STATE_PATH@ {
        at
    } else {
        rendered_state_place(files, at + 1)
    }
}

/// Takes the rendered state out of rendered files, so that it can be written last.
pub fn take_rendered_state(rendered: &mut Vec<RenderedFile>) -> (result: Result<
    RenderedFile,
    RenderError,
>)
    ensures
        ({
            let files = rendered_models(old(rendered)@);
            let place = rendered_state_place(files, 0);
            match result {
                Ok(file) => place < files.len() && file@ == files[place] && rendered_models(
                    final(rendered)@,
                ) == files.remove(place),
                Err(error) => place >= files.len() && is_canonical_error(
                    error,
                    "rendered project state is missing"@,
                ) && rendered_models(final(rendered)@) == files,
            }
        }),
{
    let ghost files = rendered_models(rendered@);
    let mut index: usize = 0;
    while index < rendered.len()
        invariant
            files == rendered_models(rendered@),
            files == rendered_models(old(rendered)@),
            index <= rendered@.len(),
            rendered_state_place(files, 0) == rendered_state_place(files, index as int),
        decreases rendered@.len() - index,
    {
        assert(files[index as int] == rendered@[index as int]@);
        if same_text(rendered[index].path.as_str(), PROJECT_STATE_PATH) {
            let file = rendered.remove(index);
            assert(rendered_models(rendered@) =~= files.remove(index as int));
            return Ok(file);
        }
        index += 1;
    }
    Err(RenderError::Canonical("rendered project state is missing".to_owned()))
}

} // verus!
