//! What Cargo is asked to resolve, and when its answer is accepted.

use vstd::prelude::*;
use vstd::string::*;

use crate::cargo_framework::{framework_defect, framework_ids, legacy_framework_defect};
use crate::cargo_graph::GraphModel;
use crate::cargo_resolver::{
    lockfile_path, metadata_arguments, ModeModel, RequestModel,
};

verus! {

/// A request is accepted if and only if what it names fits its mode: a new project has nothing
/// before it; every other has a project before it, at another place; an update within a release
/// stays at it; an update to a revision names that of the target; and only a project of the former
/// form has no release before it.
pub proof fn lemma_request_accepted(request: RequestModel, same_project: bool)
    ensures
        request.defect(same_project) is None <==> match request.mode {
            ModeModel::New => request.current is None && request.before is None,
            ModeModel::LegacyCutover => request.current is Some && !same_project
                && request.before is None,
            ModeModel::UpdateLocked => request.current is Some && !same_project && request.before
                == Some(request.target),
            ModeModel::RevisionPrecise(revision) => request.current is Some && !same_project
                && request.before is Some && revision == request.target.revision,
        },
{
}

/// The arguments with which Cargo is asked, before the flag that keeps it offline.
pub open spec fn asked(request: RequestModel) -> Seq<Seq<char>> {
    match request.mode {
        ModeModel::New => seq!["generate-lockfile"@],
        ModeModel::LegacyCutover => seq!["metadata"@, "--format-version"@, "1"@],
        ModeModel::UpdateLocked => seq![
            "update"@,
            "-p"@,
            "omnius-service-kit"@ + "@"@ + request.target.version,
        ],
        ModeModel::RevisionPrecise(revision) => seq![
            "update"@,
            "-p"@,
            "omnius-service-kit"@ + "@"@ + request.before->Some_0.version,
            "--precise"@,
            revision,
        ],
    }
}

/// Cargo is asked to resolve a new project as a whole, to leave the lockfile of a project of the
/// former form to itself, and otherwise to update the framework alone, from the version that the
/// lockfile has; offline exactly where that is wanted. The graph is read from a locked project where
/// the lockfile must not change.
pub proof fn lemma_resolver_arguments(request: RequestModel, locked: bool)
    ensures
        request.update_arguments() == if request.offline {
            asked(request) + seq!["--offline"@]
        } else {
            asked(request)
        },
        metadata_arguments(locked, request.offline) == seq![
            "metadata"@,
            "--format-version"@,
            "1"@,
        ] + (if locked {
            seq!["--locked"@]
        } else {
            Seq::empty()
        }) + (if request.offline {
            seq!["--offline"@]
        } else {
            Seq::empty()
        }),
{
    assert(request.update_arguments() =~= if request.offline {
        asked(request) + seq!["--offline"@]
    } else {
        asked(request)
    });
    assert(metadata_arguments(locked, request.offline) =~= seq![
        "metadata"@,
        "--format-version"@,
        "1"@,
    ] + (if locked {
        seq!["--locked"@]
    } else {
        Seq::empty()
    }) + (if request.offline {
        seq!["--offline"@]
    } else {
        Seq::empty()
    }));
}

/// The lockfile of a project stands right in it.
pub proof fn lemma_lockfile_place(project: Seq<char>)
    ensures
        project.len() > 0 && project.last() != '/' ==> lockfile_path(project) == project + seq!['/']
            + "Cargo.lock"@,
        project.len() == 0 || project.last() == '/' ==> lockfile_path(project) == project
            + "Cargo.lock"@,
{
    reveal_strlit("/Cargo.lock");
    reveal_strlit("Cargo.lock");
    assert("/Cargo.lock"@ =~= seq!['/'] + "Cargo.lock"@);
    assert(project + "/Cargo.lock"@ =~= project + seq!['/'] + "Cargo.lock"@);
}

/// A resolved graph is accepted if and only if the framework in it is that of the target and, where
/// there was a graph before, only the framework has changed. The graph before has to have the
/// framework of the release before, or that of the former form.
pub proof fn lemma_resolution_accepted(
    request: RequestModel,
    before: Option<GraphModel>,
    after: GraphModel,
)
    ensures
        request.after_defect(before, after) is None <==> framework_defect(after, request.target)
            is None && (before matches Some(graph) ==> {
            &&& request.scope(graph, after).defect() is None
            &&& !(request.mode is LegacyCutover) ==> framework_ids(graph.packages, false).len() == 1
        }),
        before matches Some(graph) ==> request.before_defect(graph) == (
        if request.mode is LegacyCutover {
            legacy_framework_defect(graph)
        } else {
            framework_defect(graph, request.before->Some_0)
        }),
{
}

} // verus!
