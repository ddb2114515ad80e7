//! What plans do to the files of the kit, to application templates, and to derived files.

use vstd::prelude::*;
use vstd::string::*;

use crate::application_templates::{template_place, ApplicationTemplateDescriptor};
use crate::diagnosis::{project_derived, text_hash, InputsModel};
use crate::file_map::ProjectFile;
use crate::management::{ManagerFailure, PlanAction, PlanStep, SnapshotModel};
use crate::ordered::{ascending, lemma_listing_exists};
use crate::plan_derived::{derived_plan, paths_derived_plan, retired};
use crate::plan_files::{
    added_template_plan, historical_paths, is_historical, kit_listing, kit_overridden, kit_owns,
    kit_records, left_by_modules, module_template_plan, owner_place, path_rank, present_paths,
    preserved_paths, release_plan, release_step, release_steps, removal_step, removal_steps,
    template_steps, without_kit,
};
use crate::plan_selection::{next_selection, state_after};
use crate::planning::{base_plan, plan_outcome, PlanOutcome};
use crate::rendering::derived_paths;
use crate::selection::listing;
use crate::state::{owner_of, selected_of, OwnershipKind, OwnershipModel, StateModel};
use crate::text::texts;

verus! {

// Files of the kit.
proof fn lemma_kit_records(records: Seq<OwnershipModel>, count: int)
    requires
        0 <= count <= records.len(),
    ensures
        forall|record: OwnershipModel| #[trigger]
            kit_records(records, count).contains(record) <==> exists|i: int|
                0 <= i < count && #[trigger] records[i] == record && record.kind
                    == OwnershipKind::KitOwned && !kit_overridden(records, i),
    decreases count,
{
    let now = kit_records(records, count);
    if count > 0 {
        lemma_kit_records(records, count - 1);
        let before = kit_records(records, count - 1);
        let last = records[count - 1];
        assert forall|record: OwnershipModel| #[trigger] now.contains(record) <==> exists|i: int|
            0 <= i < count && #[trigger] records[i] == record && record.kind
                == OwnershipKind::KitOwned && !kit_overridden(records, i) by {
            assert(before.contains(record) <==> exists|i: int|
                0 <= i < count - 1 && #[trigger] records[i] == record && record.kind
                    == OwnershipKind::KitOwned && !kit_overridden(records, i));
            if now != before {
                assert(now == before.push(last));
                if before.contains(record) {
                    let k = choose|k: int| 0 <= k < before.len() && before[k] == record;
                    assert(now[k] == record);
                }
                if now.contains(record) && record != last {
                    let k = choose|k: int| 0 <= k < now.len() && now[k] == record;
                    assert(before[k] == record);
                }
                assert(now[before.len() as int] == last);
            }
        }
    }
}

/// The last of the kit-owned records of a path.
proof fn lemma_last_kit_record(records: Seq<OwnershipModel>, at: int) -> (last: int)
    requires
        0 <= at < records.len(),
        records[at].kind == OwnershipKind::KitOwned,
    ensures
        at <= last < records.len(),
        records[last].kind == OwnershipKind::KitOwned,
        records[last].path == records[at].path,
        !kit_overridden(records, last),
    decreases records.len() - at,
{
    if kit_overridden(records, at) {
        let i = choose|i: int|
            at < i < records.len() && (#[trigger] records[i]).kind == OwnershipKind::KitOwned
                && records[i].path == records[at].path;
        lemma_last_kit_record(records, i)
    } else {
        at
    }
}

proof fn lemma_kit_listing(records: Seq<OwnershipModel>)
    ensures
        forall|record: OwnershipModel| #[trigger]
            kit_listing(records).contains(record) <==> exists|i: int|
                0 <= i < records.len() && #[trigger] records[i] == record && record.kind
                    == OwnershipKind::KitOwned && !kit_overridden(records, i),
{
    let kept = kit_records(records, records.len() as int);
    lemma_kit_records(records, records.len() as int);
    crate::compose_laws::lemma_arranged_members(kept, path_rank());
    assert forall|record: OwnershipModel| #[trigger] kit_listing(records).contains(record)
        <==> kept.contains(record) by {}
}

proof fn lemma_removals(snapshot: SnapshotModel, target: Seq<OwnershipModel>, count: int)
    requires
        0 <= count <= snapshot.state.ownership.len(),
    ensures
        removal_steps(snapshot, target, count) matches Ok(steps) ==> {
            &&& forall|i: int|
                0 <= i < count && (#[trigger] snapshot.state.ownership[i]).kind
                    == OwnershipKind::KitOwned && !kit_owns(
                    target,
                    snapshot.state.ownership[i].path,
                ) ==> {
                    &&& snapshot.files.contains_key(snapshot.state.ownership[i].path)
                    &&& snapshot.state.ownership[i].approved == Some(
                        text_hash(snapshot.files[snapshot.state.ownership[i].path]),
                    )
                    &&& steps.contains(
                        PlanStep::RemoveFile {
                            path: snapshot.state.ownership[i].path,
                            expected_hash: text_hash(
                                snapshot.files[snapshot.state.ownership[i].path],
                            ),
                        },
                    )
                }
            &&& forall|k: int|
                0 <= k < steps.len() ==> (#[trigger] steps[k]) is RemoveFile && kit_owns(
                    snapshot.state.ownership,
                    steps[k].target(),
                ) && !kit_owns(target, steps[k].target())
        },
    decreases count,
{
    if count > 0 {
        lemma_removals(snapshot, target, count - 1);
        if let Ok(steps) = removal_steps(snapshot, target, count) {
            let before = removal_steps(snapshot, target, count - 1)->Ok_0;
            let record = snapshot.state.ownership[count - 1];
            let more = removal_step(snapshot, target, record)->Ok_0;
            assert(steps == before + more);
            assert forall|i: int|
                0 <= i < count && (#[trigger] snapshot.state.ownership[i]).kind
                    == OwnershipKind::KitOwned && !kit_owns(
                    target,
                    snapshot.state.ownership[i].path,
                ) implies {
                &&& snapshot.files.contains_key(snapshot.state.ownership[i].path)
                &&& snapshot.state.ownership[i].approved == Some(
                    text_hash(snapshot.files[snapshot.state.ownership[i].path]),
                )
                &&& steps.contains(
                    PlanStep::RemoveFile {
                        path: snapshot.state.ownership[i].path,
                        expected_hash: text_hash(
                            snapshot.files[snapshot.state.ownership[i].path],
                        ),
                    },
                )
            } by {
                let step = PlanStep::RemoveFile {
                    path: snapshot.state.ownership[i].path,
                    expected_hash: text_hash(snapshot.files[snapshot.state.ownership[i].path]),
                };
                if i < count - 1 {
                    assert(before.contains(step));
                    let k = choose|k: int| 0 <= k < before.len() && before[k] == step;
                    assert(steps[k] == step);
                } else {
                    assert(more[0] == step);
                    assert(steps[before.len() as int] == step);
                }
            }
            assert forall|k: int| 0 <= k < steps.len() implies (#[trigger] steps[k]) is RemoveFile
                && kit_owns(snapshot.state.ownership, steps[k].target()) && !kit_owns(
                target,
                steps[k].target(),
            ) by {
                if k < before.len() {
                    assert(steps[k] == before[k]);
                } else {
                    assert(steps[k] == more[k - before.len()]);
                    assert(snapshot.state.ownership[count - 1].path == steps[k].target());
                }
            }
        }
    }
}

/// Whether a file of the release is what steps come to: it is there as it is to be and no step
/// concerns it, or one step writes it so and no other does otherwise; a file that is replaced is the
/// one that was approved.
pub open spec fn is_released(
    snapshot: SnapshotModel,
    steps: Seq<PlanStep>,
    path: Seq<char>,
    content: Seq<char>,
) -> bool {
    if !snapshot.files.contains_key(path) {
        steps.contains(
            PlanStep::CreateFile { path, content_hash: text_hash(content), content },
        )
    } else {
        &&& owner_of(snapshot.state.ownership, path) == Some(OwnershipKind::KitOwned)
        &&& snapshot.files[path] == content || steps.contains(
            PlanStep::ReplaceKitFile {
                path,
                expected_hash: text_hash(snapshot.files[path]),
                content_hash: text_hash(content),
                content,
            },
        )
    }
}

proof fn lemma_owner_at(records: Seq<OwnershipModel>, path: Seq<char>, at: int)
    requires
        0 <= at <= records.len(),
    ensures
        at <= owner_place(records, path, at) <= records.len(),
        owner_place(records, path, at) < records.len() ==> records[owner_place(
            records,
            path,
            at,
        )].path == path,
        owner_of(records.skip(at), path) == if owner_place(records, path, at) < records.len() {
            Some(records[owner_place(records, path, at)].kind)
        } else {
            None
        },
    decreases records.len() - at,
{
    let rest = records.skip(at);
    if at < records.len() {
        assert(rest[0] == records[at]);
        if records[at].path != path {
            lemma_owner_at(records, path, at + 1);
            assert(rest.drop_first() =~= records.skip(at + 1));
        }
    }
}

proof fn lemma_releases(
    snapshot: SnapshotModel,
    files: Map<Seq<char>, Seq<char>>,
    records: Seq<OwnershipModel>,
    count: int,
)
    requires
        0 <= count <= records.len(),
    ensures
        release_steps(snapshot, files, records, count) matches Ok(steps) ==> {
            &&& forall|i: int|
                0 <= i < count ==> files.contains_key((#[trigger] records[i]).path)
                    && records[i].approved == Some(text_hash(files[records[i].path]))
                    && is_released(snapshot, steps, records[i].path, files[records[i].path])
            &&& forall|k: int|
                0 <= k < steps.len() ==> exists|i: int|
                    0 <= i < count && (#[trigger] records[i]).path == (
                    #[trigger] steps[k]).target() && writes(steps[k], files[records[i].path])
        },
    decreases count,
{
    if count > 0 {
        lemma_releases(snapshot, files, records, count - 1);
        if let Ok(steps) = release_steps(snapshot, files, records, count) {
            let before = release_steps(snapshot, files, records, count - 1)->Ok_0;
            let record = records[count - 1];
            let more = release_step(snapshot, files, record)->Ok_0;
            assert(steps == before + more);
            let owned = snapshot.state.ownership;
            lemma_owner_at(owned, record.path, 0);
            assert(owned.skip(0) =~= owned);
            assert forall|step: PlanStep| before.contains(step) implies #[trigger] steps.contains(
                step,
            ) by {
                let k = choose|k: int| 0 <= k < before.len() && before[k] == step;
                assert(steps[k] == step);
            }
            if more.len() > 0 {
                assert(steps[before.len() as int] == more[0]);
                assert(steps.contains(more[0]));
            }
            assert forall|i: int| 0 <= i < count implies files.contains_key(
                (#[trigger] records[i]).path,
            ) && records[i].approved == Some(text_hash(files[records[i].path])) && is_released(
                snapshot,
                steps,
                records[i].path,
                files[records[i].path],
            ) by {
                if i < count - 1 {
                    assert(is_released(snapshot, before, records[i].path, files[records[i].path]));
                }
            }
            assert forall|k: int| 0 <= k < steps.len() implies exists|i: int|
                0 <= i < count && (#[trigger] records[i]).path == (#[trigger] steps[k]).target()
                    && writes(steps[k], files[records[i].path]) by {
                if k < before.len() {
                    assert(steps[k] == before[k]);
                    let i = choose|i: int|
                        0 <= i < count - 1 && (#[trigger] records[i]).path == before[k].target()
                            && writes(before[k], files[records[i].path]);
                    assert(records[i].path == steps[k].target());
                } else {
                    assert(steps[k] == more[k - before.len()]);
                    assert(records[count - 1].path == steps[k].target());
                }
            }
        }
    }
}

/// Whether a step creates or replaces a file with a content.
pub open spec fn writes(step: PlanStep, expected: Seq<char>) -> bool {
    match step {
        PlanStep::CreateFile { content, .. } => content == expected,
        PlanStep::ReplaceKitFile { content, .. } => content == expected,
        _ => false,
    }
}

proof fn lemma_without_kit(records: Seq<OwnershipModel>, count: int)
    requires
        0 <= count <= records.len(),
    ensures
        forall|record: OwnershipModel| #[trigger]
            without_kit(records, count).contains(record) <==> records.take(count).contains(record)
                && record.kind != OwnershipKind::KitOwned,
    decreases count,
{
    let now = without_kit(records, count);
    if count > 0 {
        lemma_without_kit(records, count - 1);
        let before = without_kit(records, count - 1);
        let few = records.take(count - 1);
        let more = records.take(count);
        let last = records[count - 1];
        assert forall|record: OwnershipModel| #[trigger] now.contains(record) <==> more.contains(
            record,
        ) && record.kind != OwnershipKind::KitOwned by {
            assert(before.contains(record) <==> few.contains(record) && record.kind
                != OwnershipKind::KitOwned);
            if more.contains(record) {
                let k = choose|k: int| 0 <= k < more.len() && more[k] == record;
                if k < few.len() {
                    assert(few[k] == record);
                }
            }
            if few.contains(record) {
                let k = choose|k: int| 0 <= k < few.len() && few[k] == record;
                assert(more[k] == record);
            }
            assert(more[count - 1] == last);
            if now != before {
                if before.contains(record) {
                    let k = choose|k: int| 0 <= k < before.len() && before[k] == record;
                    assert(now[k] == record);
                }
                if now.contains(record) && record != last {
                    let k = choose|k: int| 0 <= k < now.len() && now[k] == record;
                    assert(before[k] == record);
                }
                assert(now[before.len() as int] == last);
            }
        }
    } else {
        assert(records.take(0) =~= Seq::<OwnershipModel>::empty());
    }
}

/// A change of release brings the files of the kit to those of the release: every file that the
/// release owns is created or replaced with its contents, or is there with them; every file of the
/// kit that the release has not is removed; nothing else is concerned, and a file that was edited
/// stands in the way. The records of the kit become those of the release, and all others stay.
pub proof fn lemma_release_change(
    snapshot: SnapshotModel,
    state: StateModel,
    target: StateModel,
    files: Map<Seq<char>, Seq<char>>,
)
    ensures
        release_plan(snapshot, state, target, files) matches Ok(plan) ==> {
            &&& forall|i: int|
                0 <= i < target.ownership.len() && (#[trigger] target.ownership[i]).kind
                    == OwnershipKind::KitOwned ==> files.contains_key(target.ownership[i].path)
                    && is_released(
                    snapshot,
                    plan.1,
                    target.ownership[i].path,
                    files[target.ownership[i].path],
                )
            &&& forall|i: int|
                0 <= i < snapshot.state.ownership.len() && (
                #[trigger] snapshot.state.ownership[i]).kind == OwnershipKind::KitOwned
                    && !kit_owns(target.ownership, snapshot.state.ownership[i].path) ==> {
                    &&& snapshot.state.ownership[i].approved == Some(
                        text_hash(snapshot.files[snapshot.state.ownership[i].path]),
                    )
                    &&& plan.1.contains(
                        PlanStep::RemoveFile {
                            path: snapshot.state.ownership[i].path,
                            expected_hash: text_hash(
                                snapshot.files[snapshot.state.ownership[i].path],
                            ),
                        },
                    )
                }
            &&& forall|k: int|
                0 <= k < plan.1.len() ==> if (#[trigger] plan.1[k]) is RemoveFile {
                    kit_owns(snapshot.state.ownership, plan.1[k].target()) && !kit_owns(
                        target.ownership,
                        plan.1[k].target(),
                    )
                } else {
                    kit_owns(target.ownership, plan.1[k].target()) && writes(
                        plan.1[k],
                        files[plan.1[k].target()],
                    )
                }
            &&& forall|record: OwnershipModel| #[trigger]
                plan.0.ownership.contains(record) <==> (state.ownership.contains(record)
                    && record.kind != OwnershipKind::KitOwned) || exists|i: int|
                    0 <= i < target.ownership.len() && #[trigger] target.ownership[i] == record
                        && record.kind == OwnershipKind::KitOwned && !kit_overridden(
                        target.ownership,
                        i,
                    )
        },
{
    if let Ok(plan) = release_plan(snapshot, state, target, files) {
        let kept = kit_listing(target.ownership);
        let removals = removal_steps(
            snapshot,
            target.ownership,
            snapshot.state.ownership.len() as int,
        )->Ok_0;
        let changes = release_steps(snapshot, files, kept, kept.len() as int)->Ok_0;
        let steps = plan.1;
        assert(steps == removals + changes);
        lemma_kit_listing(target.ownership);
        lemma_removals(snapshot, target.ownership, snapshot.state.ownership.len() as int);
        lemma_releases(snapshot, files, kept, kept.len() as int);
        lemma_without_kit(state.ownership, state.ownership.len() as int);
        assert(state.ownership.take(state.ownership.len() as int) =~= state.ownership);
        assert forall|step: PlanStep| removals.contains(step) implies #[trigger] steps.contains(
            step,
        ) by {
            let k = choose|k: int| 0 <= k < removals.len() && removals[k] == step;
            assert(steps[k] == step);
        }
        assert forall|step: PlanStep| changes.contains(step) implies #[trigger] steps.contains(
            step,
        ) by {
            let k = choose|k: int| 0 <= k < changes.len() && changes[k] == step;
            assert(steps[removals.len() + k] == step);
        }
        assert forall|i: int|
            0 <= i < target.ownership.len() && (#[trigger] target.ownership[i]).kind
                == OwnershipKind::KitOwned implies files.contains_key(target.ownership[i].path)
            && is_released(
            snapshot,
            steps,
            target.ownership[i].path,
            files[target.ownership[i].path],
        ) by {
            let last = lemma_last_kit_record(target.ownership, i);
            assert(kept.contains(target.ownership[last]));
            let k = choose|k: int| 0 <= k < kept.len() && kept[k] == target.ownership[last];
            assert(kept[k].path == target.ownership[i].path);
            assert(is_released(snapshot, changes, kept[k].path, files[kept[k].path]));
        }
        assert forall|k: int| 0 <= k < steps.len() implies if (
        #[trigger] steps[k]) is RemoveFile {
            kit_owns(snapshot.state.ownership, steps[k].target()) && !kit_owns(
                target.ownership,
                steps[k].target(),
            )
        } else {
            kit_owns(target.ownership, steps[k].target()) && writes(
                steps[k],
                files[steps[k].target()],
            )
        } by {
            if k < removals.len() {
                assert(steps[k] == removals[k]);
            } else {
                let c = k - removals.len();
                assert(steps[k] == changes[c]);
                let i = choose|i: int|
                    0 <= i < kept.len() && (#[trigger] kept[i]).path == changes[c].target()
                        && writes(changes[c], files[kept[i].path]);
                assert(kept.contains(kept[i]));
                let j = choose|j: int|
                    0 <= j < target.ownership.len() && #[trigger] target.ownership[j] == kept[i]
                        && kept[i].kind == OwnershipKind::KitOwned && !kit_overridden(
                        target.ownership,
                        j,
                    );
                assert(target.ownership[j].path == steps[k].target());
            }
        }
        let left = without_kit(state.ownership, state.ownership.len() as int);
        assert forall|record: OwnershipModel| #[trigger] plan.0.ownership.contains(record) <==> (
        state.ownership.contains(record) && record.kind != OwnershipKind::KitOwned) || exists|
            i: int,
        |
            0 <= i < target.ownership.len() && #[trigger] target.ownership[i] == record
                && record.kind == OwnershipKind::KitOwned && !kit_overridden(
                target.ownership,
                i,
            ) by {
            let all = plan.0.ownership;
            assert(all == left + kept);
            if all.contains(record) {
                let k = choose|k: int| 0 <= k < all.len() && all[k] == record;
                if k < left.len() {
                    assert(left[k] == record);
                    assert(left.contains(record));
                } else {
                    assert(kept[k - left.len()] == record);
                    assert(kept.contains(record));
                }
            }
            if left.contains(record) {
                let k = choose|k: int| 0 <= k < left.len() && left[k] == record;
                assert(all[k] == record);
            }
            if kept.contains(record) {
                let k = choose|k: int| 0 <= k < kept.len() && kept[k] == record;
                assert(all[left.len() + k] == record);
            }
        }
    }
}

// Application templates.
/// Whether a template of a module is planned: where there is no file, it is created from the
/// template, and then nobody owned the path; where there is one, it is the application's or
/// nobody's, and it stays.
pub open spec fn template_planned(
    templates: Seq<ApplicationTemplateDescriptor>,
    snapshot: SnapshotModel,
    steps: Seq<PlanStep>,
    id: Seq<char>,
    path: Seq<char>,
) -> bool {
    let owner = owner_of(snapshot.state.ownership, path);
    if snapshot.files.contains_key(path) {
        owner is None || owner == Some(OwnershipKind::ApplicationOwned)
    } else {
        owner is None && exists|k: int|
            0 <= k < templates.len() && (#[trigger] templates[k]).module@ == id
                && templates[k].path@ == path && steps.contains(
                PlanStep::CreateFile {
                    path,
                    content_hash: text_hash(templates[k].source@),
                    content: templates[k].source@,
                },
            )
    }
}

proof fn lemma_template_found(
    templates: Seq<ApplicationTemplateDescriptor>,
    id: Seq<char>,
    path: Seq<char>,
    at: int,
)
    requires
        0 <= at <= templates.len(),
    ensures
        ({
            let place = template_place(templates, id, path, at);
            at <= place <= templates.len() && (place < templates.len() ==> templates[place].module@
                == id && templates[place].path@ == path)
        }),
    decreases templates.len() - at,
{
    if at < templates.len() && !(templates[at].module@ == id && templates[at].path@ == path) {
        lemma_template_found(templates, id, path, at + 1);
    }
}

proof fn lemma_more_steps(
    templates: Seq<ApplicationTemplateDescriptor>,
    snapshot: SnapshotModel,
    steps: Seq<PlanStep>,
    more: Seq<PlanStep>,
    id: Seq<char>,
    path: Seq<char>,
)
    requires
        template_planned(templates, snapshot, steps, id, path),
        forall|step: PlanStep| #[trigger] steps.contains(step) ==> more.contains(step),
    ensures
        template_planned(templates, snapshot, more, id, path),
{
}

proof fn lemma_owner_pushed(
    records: Seq<OwnershipModel>,
    record: OwnershipModel,
    path: Seq<char>,
)
    ensures
        owner_of(records.push(record), path) == (if owner_of(records, path) is Some {
            owner_of(records, path)
        } else if record.path == path {
            Some(record.kind)
        } else {
            None
        }),
    decreases records.len(),
{
    let more = records.push(record);
    if records.len() > 0 {
        assert(more[0] == records[0]);
        assert(more.drop_first() =~= records.drop_first().push(record));
        lemma_owner_pushed(records.drop_first(), record, path);
    } else {
        reveal_with_fuel(owner_of, 2);
        assert(more[0] == record);
        assert(more.drop_first() =~= Seq::<OwnershipModel>::empty());
    }
}

proof fn lemma_module_templates(
    templates: Seq<ApplicationTemplateDescriptor>,
    snapshot: SnapshotModel,
    state: StateModel,
    id: Seq<char>,
    paths: Seq<Seq<char>>,
    count: int,
)
    requires
        0 <= count <= paths.len(),
    ensures
        module_template_plan(templates, snapshot, state, id, paths, count) matches Ok(plan) ==> {
            &&& forall|i: int|
                0 <= i < count ==> template_planned(
                    templates,
                    snapshot,
                    plan.1,
                    id,
                    #[trigger] paths[i],
                ) && owner_of(plan.0.ownership, paths[i]) is Some
            &&& forall|path: Seq<char>| #[trigger]
                owner_of(plan.0.ownership, path) == owner_of(state.ownership, path) || (owner_of(
                    state.ownership,
                    path,
                ) is None && owner_of(plan.0.ownership, path) == Some(
                    OwnershipKind::ApplicationOwned,
                ) && paths.contains(path))
            &&& forall|k: int|
                0 <= k < plan.1.len() ==> (#[trigger] plan.1[k]) is CreateFile && paths.contains(
                    plan.1[k].target(),
                ) && !snapshot.files.contains_key(plan.1[k].target())
        },
    decreases count,
{
    if count > 0 {
        lemma_module_templates(templates, snapshot, state, id, paths, count - 1);
        if let Ok(plan) = module_template_plan(templates, snapshot, state, id, paths, count) {
            let before = module_template_plan(
                templates,
                snapshot,
                state,
                id,
                paths,
                count - 1,
            )->Ok_0;
            let path = paths[count - 1];
            let more = template_steps(templates, snapshot, id, path)->Ok_0;
            assert(plan.1 == before.1 + more);
            lemma_template_found(templates, id, path, 0);
            assert forall|step: PlanStep| #[trigger] before.1.contains(
                step,
            ) implies plan.1.contains(step) by {
                let k = choose|k: int| 0 <= k < before.1.len() && before.1[k] == step;
                assert(plan.1[k] == step);
            }
            if more.len() > 0 {
                assert(plan.1[before.1.len() as int] == more[0]);
                assert(plan.1.contains(more[0]));
            }
            assert(template_planned(templates, snapshot, plan.1, id, path));
            let record = OwnershipModel {
                path,
                kind: OwnershipKind::ApplicationOwned,
                approved: None,
            };
            assert(paths.contains(path));
            assert forall|other: Seq<char>| #[trigger]
                owner_of(plan.0.ownership, other) == owner_of(state.ownership, other) || (owner_of(
                    state.ownership,
                    other,
                ) is None && owner_of(plan.0.ownership, other) == Some(
                    OwnershipKind::ApplicationOwned,
                ) && paths.contains(other)) by {
                lemma_owner_pushed(before.0.ownership, record, other);
                assert(owner_of(before.0.ownership, other) == owner_of(state.ownership, other) || (
                owner_of(state.ownership, other) is None && owner_of(before.0.ownership, other)
                    == Some(OwnershipKind::ApplicationOwned) && paths.contains(other)));
            }
            assert forall|i: int| 0 <= i < count implies template_planned(
                templates,
                snapshot,
                plan.1,
                id,
                #[trigger] paths[i],
            ) && owner_of(plan.0.ownership, paths[i]) is Some by {
                lemma_owner_pushed(before.0.ownership, record, paths[i]);
                if i < count - 1 {
                    lemma_more_steps(templates, snapshot, before.1, plan.1, id, paths[i]);
                }
            }
            assert forall|k: int| 0 <= k < plan.1.len() implies (
            #[trigger] plan.1[k]) is CreateFile && paths.contains(plan.1[k].target())
                && !snapshot.files.contains_key(plan.1[k].target()) by {
                if k < before.1.len() {
                    assert(plan.1[k] == before.1[k]);
                } else {
                    assert(plan.1[k] == more[k - before.1.len()]);
                }
            }
        }
    }
}

proof fn lemma_added_templates(
    inputs: InputsModel,
    snapshot: SnapshotModel,
    state: StateModel,
    added: Seq<Seq<char>>,
    count: int,
)
    requires
        0 <= count <= added.len(),
    ensures
        added_template_plan(inputs, snapshot, state, added, count) matches Ok(plan) ==> forall|
            i: int,
            j: int,
        |
            0 <= i < count && (inputs.catalog.find(#[trigger] added[i]) matches Some(module) && 0
                <= j < module.application_templates@.len()) ==> template_planned(
                inputs.templates,
                snapshot,
                plan.1,
                added[i],
                #[trigger] texts(inputs.catalog.find(added[i])->Some_0.application_templates@)[j],
            ),
    decreases count,
{
    if count > 0 {
        lemma_added_templates(inputs, snapshot, state, added, count - 1);
        if let Ok(plan) = added_template_plan(inputs, snapshot, state, added, count) {
            let before = added_template_plan(inputs, snapshot, state, added, count - 1)->Ok_0;
            let module = inputs.catalog.find(added[count - 1])->Some_0;
            let paths = texts(module.application_templates@);
            lemma_module_templates(
                inputs.templates,
                snapshot,
                before.0,
                added[count - 1],
                paths,
                paths.len() as int,
            );
            let more = module_template_plan(
                inputs.templates,
                snapshot,
                before.0,
                added[count - 1],
                paths,
                paths.len() as int,
            )->Ok_0;
            assert(plan.1 == before.1 + more.1);
            assert forall|step: PlanStep| #[trigger] before.1.contains(
                step,
            ) implies plan.1.contains(step) by {
                let k = choose|k: int| 0 <= k < before.1.len() && before.1[k] == step;
                assert(plan.1[k] == step);
            }
            assert forall|step: PlanStep| #[trigger] more.1.contains(step) implies plan.1.contains(
                step,
            ) by {
                let k = choose|k: int| 0 <= k < more.1.len() && more.1[k] == step;
                assert(plan.1[before.1.len() + k] == step);
            }
            assert forall|i: int, j: int|
                0 <= i < count && (inputs.catalog.find(#[trigger] added[i]) matches Some(module)
                    && 0 <= j < module.application_templates@.len()) implies template_planned(
                inputs.templates,
                snapshot,
                plan.1,
                added[i],
                #[trigger] texts(inputs.catalog.find(added[i])->Some_0.application_templates@)[j],
            ) by {
                let path = texts(
                    inputs.catalog.find(added[i])->Some_0.application_templates@,
                )[j];
                if i < count - 1 {
                    assert(template_planned(
                        inputs.templates,
                        snapshot,
                        before.1,
                        added[i],
                        path,
                    ));
                    lemma_more_steps(
                        inputs.templates,
                        snapshot,
                        before.1,
                        plan.1,
                        added[i],
                        path,
                    );
                } else {
                    assert(paths[j] == path);
                    lemma_more_steps(inputs.templates, snapshot, more.1, plan.1, added[i], path);
                }
            }
        }
    }
}

// Derived files.
proof fn lemma_retired(
    inputs: InputsModel,
    snapshot: SnapshotModel,
    before: Seq<Seq<char>>,
    after: Seq<Seq<char>>,
    before_paths: Seq<Seq<char>>,
    after_paths: Seq<Seq<char>>,
    state: StateModel,
    paths: Seq<Seq<char>>,
    count: int,
)
    requires
        0 <= count <= paths.len(),
    ensures
        paths_derived_plan(
            inputs,
            snapshot,
            before,
            after,
            before_paths,
            after_paths,
            state,
            paths,
            count,
        ) matches Ok(plan) ==> forall|i: int|
            0 <= i < count && !after_paths.contains(#[trigger] paths[i])
                && snapshot.files.contains_key(paths[i]) ==> {
                &&& owner_of(snapshot.state.ownership, paths[i]) == Some(OwnershipKind::Derived)
                &&& project_derived(inputs, snapshot, paths[i], before) == Ok::<
                    Seq<char>,
                    ManagerFailure,
                >(snapshot.files[paths[i]])
                &&& plan.1.contains(
                    PlanStep::RemoveFile {
                        path: paths[i],
                        expected_hash: text_hash(snapshot.files[paths[i]]),
                    },
                )
            },
    decreases count,
{
    if count > 0 {
        lemma_retired(
            inputs,
            snapshot,
            before,
            after,
            before_paths,
            after_paths,
            state,
            paths,
            count - 1,
        );
        if let Ok(plan) = paths_derived_plan(
            inputs,
            snapshot,
            before,
            after,
            before_paths,
            after_paths,
            state,
            paths,
            count,
        ) {
            let earlier = paths_derived_plan(
                inputs,
                snapshot,
                before,
                after,
                before_paths,
                after_paths,
                state,
                paths,
                count - 1,
            )->Ok_0;
            let path = paths[count - 1];
            assert forall|i: int|
                0 <= i < count && !after_paths.contains(#[trigger] paths[i])
                    && snapshot.files.contains_key(paths[i]) implies {
                &&& owner_of(snapshot.state.ownership, paths[i]) == Some(OwnershipKind::Derived)
                &&& project_derived(inputs, snapshot, paths[i], before) == Ok::<
                    Seq<char>,
                    ManagerFailure,
                >(snapshot.files[paths[i]])
                &&& plan.1.contains(
                    PlanStep::RemoveFile {
                        path: paths[i],
                        expected_hash: text_hash(snapshot.files[paths[i]]),
                    },
                )
            } by {
                let step = PlanStep::RemoveFile {
                    path: paths[i],
                    expected_hash: text_hash(snapshot.files[paths[i]]),
                };
                if i < count - 1 {
                    assert(earlier.1.contains(step));
                    let k = choose|k: int| 0 <= k < earlier.1.len() && earlier.1[k] == step;
                    assert(plan.1[k] == step);
                } else {
                    let more = retired(inputs, snapshot, before, earlier.0, path)->Ok_0;
                    assert(more.1[0] == step);
                    assert(plan.1[earlier.1.len() as int] == step);
                }
            }
        }
    }
}

// The laws of a plan.
/// Whatever the request, a plan that changes something creates every missing application template of
/// the modules that it adds, leaves the ones that are there, and removes every file that was derived
/// before and is derived no more, where nobody edited it.
pub proof fn lemma_files_follow_selection(
    inputs: InputsModel,
    snapshot: SnapshotModel,
    files: Seq<ProjectFile>,
    target: Result<(StateModel, Map<Seq<char>, Seq<char>>), Seq<char>>,
    action: PlanAction,
    requested: Option<Seq<char>>,
)
    ensures
        plan_outcome(inputs, snapshot, files, target, action, requested) matches Ok(
            PlanOutcome::Change { state, added, steps, .. },
        ) ==> {
            &&& forall|i: int, j: int|
                0 <= i < added.len() && (inputs.catalog.find(#[trigger] added[i]) matches Some(
                    module,
                ) && 0 <= j < module.application_templates@.len()) ==> template_planned(
                    inputs.templates,
                    snapshot,
                    steps,
                    added[i],
                    #[trigger] texts(
                        inputs.catalog.find(added[i])->Some_0.application_templates@,
                    )[j],
                )
            &&& (derived_paths(
                inputs.catalog,
                selected_of(snapshot.state),
            ) matches Ok(old_paths) && (derived_paths(
                inputs.catalog,
                selected_of(state),
            ) matches Ok(new_paths) && forall|i: int|
                0 <= i < old_paths.len() && !new_paths.contains(#[trigger] old_paths[i])
                    && snapshot.files.contains_key(old_paths[i]) ==> {
                    &&& owner_of(snapshot.state.ownership, old_paths[i]) == Some(
                        OwnershipKind::Derived,
                    )
                    &&& project_derived(
                        inputs,
                        snapshot,
                        old_paths[i],
                        selected_of(snapshot.state),
                    ) == Ok::<Seq<char>, ManagerFailure>(snapshot.files[old_paths[i]])
                    &&& steps.contains(
                        PlanStep::RemoveFile {
                            path: old_paths[i],
                            expected_hash: text_hash(snapshot.files[old_paths[i]]),
                        },
                    )
                }))
        },
{
    if let Ok(PlanOutcome::Change { state: last_state, added, removed, steps, .. }) = plan_outcome(
        inputs,
        snapshot,
        files,
        target,
        action,
        requested,
    ) {
        let before = selected_of(snapshot.state);
        let set = next_selection(inputs, snapshot.state, action, requested)->Ok_0;
        let state = state_after(
            inputs.catalog,
            snapshot.state,
            action,
            requested,
            listing(set),
            added,
            removed,
        )->Ok_0;
        crate::profile_laws::lemma_change_keeps_selection(
            inputs,
            snapshot,
            files,
            target,
            before,
            added,
            removed,
            state,
        );
        let base = base_plan(snapshot, target, state)->Ok_0;
        lemma_added_templates(inputs, snapshot, base.0, added, added.len() as int);
        crate::profile_laws::lemma_templates_keep(
            inputs,
            snapshot,
            base.0,
            added,
            added.len() as int,
        );
        let templates = added_template_plan(
            inputs,
            snapshot,
            base.0,
            added,
            added.len() as int,
        )->Ok_0;
        let after = selected_of(templates.0);
        let regions = crate::plan_regions::region_plan(
            inputs,
            snapshot,
            files,
            before,
            after,
            templates.0,
        )->Ok_0;
        let derived = derived_plan(inputs, snapshot, before, after, regions.0)->Ok_0;
        assert(steps == base.1 + templates.1 + regions.1 + derived.1);
        assert(last_state.modules == state.modules);
        assert(templates.0.modules == state.modules);
        assert(crate::state::module_ids_of(last_state) == crate::state::module_ids_of(
            templates.0,
        ));
        assert forall|step: PlanStep| #[trigger] templates.1.contains(step) implies steps.contains(
            step,
        ) by {
            let k = choose|k: int| 0 <= k < templates.1.len() && templates.1[k] == step;
            assert(steps[base.1.len() + k] == step);
        }
        assert forall|step: PlanStep| #[trigger] derived.1.contains(step) implies steps.contains(
            step,
        ) by {
            let k = choose|k: int| 0 <= k < derived.1.len() && derived.1[k] == step;
            assert(steps[base.1.len() + templates.1.len() + regions.1.len() + k] == step);
        }
        assert forall|i: int, j: int|
            0 <= i < added.len() && (inputs.catalog.find(#[trigger] added[i]) matches Some(module)
                && 0 <= j < module.application_templates@.len()) implies template_planned(
            inputs.templates,
            snapshot,
            steps,
            added[i],
            #[trigger] texts(inputs.catalog.find(added[i])->Some_0.application_templates@)[j],
        ) by {
            let path = texts(inputs.catalog.find(added[i])->Some_0.application_templates@)[j];
            lemma_more_steps(inputs.templates, snapshot, templates.1, steps, added[i], path);
        }
        let old_paths = derived_paths(inputs.catalog, before)->Ok_0;
        let new_paths = derived_paths(inputs.catalog, after)->Ok_0;
        let paths = listing(old_paths.to_set().union(new_paths.to_set()));
        lemma_retired(
            inputs,
            snapshot,
            before,
            after,
            old_paths,
            new_paths,
            regions.0,
            paths,
            paths.len() as int,
        );
        assert forall|i: int|
            0 <= i < old_paths.len() && !new_paths.contains(#[trigger] old_paths[i])
                && snapshot.files.contains_key(old_paths[i]) implies {
            &&& owner_of(snapshot.state.ownership, old_paths[i]) == Some(OwnershipKind::Derived)
            &&& project_derived(inputs, snapshot, old_paths[i], before) == Ok::<
                Seq<char>,
                ManagerFailure,
            >(snapshot.files[old_paths[i]])
            &&& steps.contains(
                PlanStep::RemoveFile {
                    path: old_paths[i],
                    expected_hash: text_hash(snapshot.files[old_paths[i]]),
                },
            )
        } by {
            let path = old_paths[i];
            lemma_union_listed(old_paths, new_paths, path);
            let k = choose|k: int| 0 <= k < paths.len() && paths[k] == path;
            assert(paths[k] == path);
        }
    }
}

proof fn lemma_union_listed(left: Seq<Seq<char>>, right: Seq<Seq<char>>, path: Seq<char>)
    requires
        left.contains(path) || right.contains(path),
    ensures
        listing(left.to_set().union(right.to_set())).contains(path),
{
    let all = left + right;
    assert(all.to_set() =~= left.to_set().union(right.to_set())) by {
        assert forall|value: Seq<char>| all.to_set().contains(value) <==> left.to_set().union(
            right.to_set(),
        ).contains(value) by {
            if all.contains(value) {
                let k = choose|k: int| 0 <= k < all.len() && all[k] == value;
                if k < left.len() {
                    assert(left[k] == value);
                } else {
                    assert(right[k - left.len()] == value);
                }
            }
            if left.contains(value) {
                let k = choose|k: int| 0 <= k < left.len() && left[k] == value;
                assert(all[k] == value);
            }
            if right.contains(value) {
                let k = choose|k: int| 0 <= k < right.len() && right[k] == value;
                assert(all[left.len() + k] == value);
            }
        }
    }
    crate::plan_settled::lemma_listing_holds(all);
    lemma_listing_exists::<String>(all);
    assert(all.to_set().contains(path));
    assert(all.contains(path));
}

// Preserved paths.
proof fn lemma_present(files: Map<Seq<char>, Seq<char>>, paths: Seq<Seq<char>>, count: int)
    requires
        0 <= count <= paths.len(),
    ensures
        forall|path: Seq<char>| #[trigger]
            present_paths(files, paths, count).contains(path) <==> paths.take(count).contains(path)
                && files.contains_key(path),
    decreases count,
{
    let now = present_paths(files, paths, count);
    if count > 0 {
        lemma_present(files, paths, count - 1);
        let before = present_paths(files, paths, count - 1);
        let few = paths.take(count - 1);
        let more = paths.take(count);
        let last = paths[count - 1];
        assert forall|path: Seq<char>| #[trigger] now.contains(path) <==> more.contains(path)
            && files.contains_key(path) by {
            assert(before.contains(path) <==> few.contains(path) && files.contains_key(path));
            if more.contains(path) {
                let k = choose|k: int| 0 <= k < more.len() && more[k] == path;
                if k < few.len() {
                    assert(few[k] == path);
                }
            }
            if few.contains(path) {
                let k = choose|k: int| 0 <= k < few.len() && few[k] == path;
                assert(more[k] == path);
            }
            assert(more[count - 1] == last);
            if now != before {
                if before.contains(path) {
                    let k = choose|k: int| 0 <= k < before.len() && before[k] == path;
                    assert(now[k] == path);
                }
                if now.contains(path) && path != last {
                    let k = choose|k: int| 0 <= k < now.len() && now[k] == path;
                    assert(before[k] == path);
                }
                assert(now[before.len() as int] == last);
            }
        }
    } else {
        assert(paths.take(0) =~= Seq::<Seq<char>>::empty());
    }
}

proof fn lemma_left(
    inputs: InputsModel,
    snapshot: SnapshotModel,
    removed: Seq<Seq<char>>,
    count: int,
)
    requires
        0 <= count <= removed.len(),
    ensures
        left_by_modules(inputs, snapshot, removed, count) matches Ok(list) ==> forall|
            path: Seq<char>,
        | #[trigger]
            list.contains(path) <==> exists|i: int|
                0 <= i < count && leaves(inputs, snapshot, #[trigger] removed[i], path),
    decreases count,
{
    if count > 0 {
        lemma_left(inputs, snapshot, removed, count - 1);
        if let Ok(list) = left_by_modules(inputs, snapshot, removed, count) {
            let before = left_by_modules(inputs, snapshot, removed, count - 1)->Ok_0;
            let module = inputs.catalog.find(removed[count - 1])->Some_0;
            let kept = texts(module.persistence@);
            let templates = texts(module.application_templates@);
            let present = present_paths(snapshot.files, templates, templates.len() as int);
            lemma_present(snapshot.files, templates, templates.len() as int);
            assert(templates.take(templates.len() as int) =~= templates);
            assert(list == before + kept + present);
            assert forall|path: Seq<char>| #[trigger] list.contains(path) <==> exists|i: int|
                0 <= i < count && leaves(inputs, snapshot, #[trigger] removed[i], path) by {
                assert(before.contains(path) <==> exists|i: int|
                    0 <= i < count - 1 && leaves(inputs, snapshot, #[trigger] removed[i], path));
                assert(leaves(inputs, snapshot, removed[count - 1], path) <==> kept.contains(path)
                    || present.contains(path));
                if list.contains(path) {
                    let k = choose|k: int| 0 <= k < list.len() && list[k] == path;
                    if k < before.len() {
                        assert(before[k] == path);
                    } else if k < before.len() + kept.len() {
                        assert(kept[k - before.len()] == path);
                    } else {
                        assert(present[k - before.len() - kept.len()] == path);
                    }
                }
                if before.contains(path) {
                    let k = choose|k: int| 0 <= k < before.len() && before[k] == path;
                    assert(list[k] == path);
                }
                if kept.contains(path) {
                    let k = choose|k: int| 0 <= k < kept.len() && kept[k] == path;
                    assert(list[before.len() + k] == path);
                }
                if present.contains(path) {
                    let k = choose|k: int| 0 <= k < present.len() && present[k] == path;
                    assert(list[before.len() + kept.len() + k] == path);
                }
            }
        }
    }
}

/// Whether a removed module leaves a path in place: what it persists, and its application templates
/// that are there.
pub open spec fn leaves(
    inputs: InputsModel,
    snapshot: SnapshotModel,
    id: Seq<char>,
    path: Seq<char>,
) -> bool {
    inputs.catalog.find(id) matches Some(module) && (texts(module.persistence@).contains(path) || (
    texts(module.application_templates@).contains(path) && snapshot.files.contains_key(path)))
}

proof fn lemma_historical(records: Seq<OwnershipModel>, count: int)
    requires
        0 <= count <= records.len(),
    ensures
        forall|path: Seq<char>| #[trigger]
            historical_paths(records, count).contains(path) <==> is_historical(path) && exists|
                i: int,
            |
                0 <= i < count && (#[trigger] records[i]).path == path,
    decreases count,
{
    let now = historical_paths(records, count);
    if count > 0 {
        lemma_historical(records, count - 1);
        let before = historical_paths(records, count - 1);
        let last = records[count - 1].path;
        assert forall|path: Seq<char>| #[trigger] now.contains(path) <==> is_historical(path)
            && exists|i: int| 0 <= i < count && (#[trigger] records[i]).path == path by {
            assert(before.contains(path) <==> is_historical(path) && exists|i: int|
                0 <= i < count - 1 && (#[trigger] records[i]).path == path);
            assert(records[count - 1].path == last);
            if now != before {
                if before.contains(path) {
                    let k = choose|k: int| 0 <= k < before.len() && before[k] == path;
                    assert(now[k] == path);
                }
                if now.contains(path) && path != last {
                    let k = choose|k: int| 0 <= k < now.len() && now[k] == path;
                    assert(before[k] == path);
                }
                assert(now[before.len() as int] == last);
            }
        }
    }
}

/// A removal names, in order, exactly what it leaves in place: what the removed modules persist,
/// their application templates that are there, and every owned path of migrations, data and history.
/// Without a removed module nothing is named.
pub proof fn lemma_preserved(
    inputs: InputsModel,
    snapshot: SnapshotModel,
    removed: Seq<Seq<char>>,
)
    ensures
        preserved_paths(inputs, snapshot, removed) matches Ok(list) ==> {
            &&& ascending::<String>(list)
            &&& forall|path: Seq<char>| #[trigger]
                list.contains(path) <==> (exists|i: int|
                    0 <= i < removed.len() && leaves(
                        inputs,
                        snapshot,
                        #[trigger] removed[i],
                        path,
                    )) || (removed.len() > 0 && is_historical(path) && exists|i: int|
                    0 <= i < snapshot.state.ownership.len() && (
                    #[trigger] snapshot.state.ownership[i]).path == path)
        },
{
    if let Ok(list) = preserved_paths(inputs, snapshot, removed) {
        let owned = snapshot.state.ownership;
        let left = left_by_modules(inputs, snapshot, removed, removed.len() as int)->Ok_0;
        let old = historical_paths(owned, owned.len() as int);
        lemma_left(inputs, snapshot, removed, removed.len() as int);
        lemma_historical(owned, owned.len() as int);
        let all = if removed.len() == 0 {
            left
        } else {
            left + old
        };
        lemma_listing_exists::<String>(all);
        assert forall|path: Seq<char>| #[trigger] list.contains(path) <==> (exists|i: int|
            0 <= i < removed.len() && leaves(inputs, snapshot, #[trigger] removed[i], path)) || (
        removed.len() > 0 && is_historical(path) && exists|i: int|
            0 <= i < owned.len() && (#[trigger] owned[i]).path == path) by {
            assert(list.contains(path) <==> all.contains(path));
            if all.contains(path) && removed.len() > 0 {
                let k = choose|k: int| 0 <= k < all.len() && all[k] == path;
                if k < left.len() {
                    assert(left[k] == path);
                    assert(left.contains(path));
                } else {
                    assert(old[k - left.len()] == path);
                    assert(old.contains(path));
                }
            }
            if left.contains(path) {
                let k = choose|k: int| 0 <= k < left.len() && left[k] == path;
                assert(all[k] == path);
            }
            if old.contains(path) && removed.len() > 0 {
                let k = choose|k: int| 0 <= k < old.len() && old[k] == path;
                assert(all[left.len() + k] == path);
            }
        }
    }
}

} // verus!
