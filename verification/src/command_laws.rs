//! What a command reports.

use vstd::prelude::*;
use vstd::string::*;

use crate::cargo_resolver::CargoResolverError;
use crate::cargo_service::{
    build_findings, diff_execution, doctor_execution, finding_line, has_code, manager_code,
    mutation_execution, presented, render_code, resolver_code, ExecutionModel, ServiceInvocation,
};
use crate::management::{Diagnostic, DoctorReport, ManagementPlan, ManagerError};
use crate::ordered::models;
use crate::release::ReleaseBuildStatus;
use crate::render::RenderError;
use crate::text::occurs;

verus! {

/// A diagnosis exits with success if and only if the project is healthy, nothing was found, and
/// the build is a clean one; every finding is reported.
pub proof fn lemma_doctor_exit(report: DoctorReport, release: ReleaseBuildStatus)
    ensures
        ({
            let execution = doctor_execution(report, release);
            &&& execution.exit_code == 0 <==> report.healthy && report.diagnostics@.len() == 0
                && release is Clean
            &&& execution.exit_code == 0 || execution.exit_code == 1
            &&& execution.status == (if execution.exit_code == 0 {
                "clean"@
            } else {
                "unhealthy"@
            })
            &&& models(report.diagnostics@).is_prefix_of(execution.diagnostics)
            &&& execution.diagnostics.len() == report.diagnostics@.len() + (if release is Clean {
                0int
            } else {
                1int
            })
            &&& execution.plan is None
        }),
{
    let found = models(report.diagnostics@) + build_findings(release);
    assert(found.take(report.diagnostics@.len() as int) =~= models(report.diagnostics@));
}

/// A mutation that succeeds reports no change where its plan is empty; otherwise it is planned in a
/// dry run and applied without one.
pub proof fn lemma_mutation_status(
    plan: ManagementPlan,
    encoded: Seq<char>,
    dry_run: bool,
    command: Seq<char>,
    subject: Seq<char>,
)
    ensures
        ({
            let execution = mutation_execution(plan, encoded, dry_run, command, subject);
            &&& plan@.steps.len() == 0 ==> execution.status == "noop"@
            &&& plan@.steps.len() > 0 && dry_run ==> execution.status == "planned"@
            &&& plan@.steps.len() > 0 && !dry_run ==> execution.status == "applied"@
            &&& execution.plan == Some(encoded)
            &&& execution.diagnostics.len() == 0
            &&& execution.exit_code == 0
        }),
{
}

/// A comparison succeeds whether or not there are changes, and says which.
pub proof fn lemma_diff_status(
    plan: ManagementPlan,
    encoded: Seq<char>,
    release: ReleaseBuildStatus,
)
    ensures
        ({
            let execution = diff_execution(plan, encoded, release);
            &&& execution.status == (if plan@.steps.len() == 0 {
                "clean"@
            } else {
                "changes"@
            })
            &&& execution.plan == Some(encoded)
            &&& execution.exit_code == 0
            &&& execution.diagnostics.len() == (if release is Clean {
                0int
            } else {
                1int
            })
        }),
{
}

/// What a command comes to is told once: in one document where that is wanted, and else in lines,
/// findings apart. A failure exits with one and names its class and its message; a success exits
/// with the code of what was done.
pub proof fn lemma_presented(
    invocation: ServiceInvocation,
    release: ReleaseBuildStatus,
    result: Result<ExecutionModel, (Seq<char>, Seq<char>)>,
)
    ensures
        ({
            let shown = presented(invocation, release, result);
            &&& shown.document is Some <==> invocation.is_json()
            &&& shown.document is Some ==> shown.stdout.len() == 0 && shown.stderr.len() == 0
            &&& shown.document matches Some(document) ==> {
                &&& document.schema_version == 1
                &&& document.command == invocation.name_text()
                &&& document.project == Some(invocation.project_text())
                &&& match release {
                    ReleaseBuildStatus::Clean(identity) => document.release.status == "clean"@
                        && document.release.revision == Some(identity@.revision),
                    ReleaseBuildStatus::Dirty { revision } => document.release.status == "dirty"@
                        && document.release.revision == Some(revision@),
                    ReleaseBuildStatus::Unbound => document.release.status == "unbound"@
                        && document.release.revision is None,
                }
            }
            &&& match result {
                Ok(execution) => {
                    &&& shown.exit_code == execution.exit_code
                    &&& shown.document matches Some(document) ==> document.status
                        == execution.status && document.plan == execution.plan
                        && document.diagnostics == execution.diagnostics && document.error is None
                    &&& shown.document is None ==> shown.stdout == execution.lines
                        && shown.stderr.len() == execution.diagnostics.len() && forall|i: int|
                        0 <= i < shown.stderr.len() ==> #[trigger] shown.stderr[i] == finding_line(
                            execution.diagnostics[i],
                        )
                },
                Err(error) => {
                    &&& shown.exit_code == 1
                    &&& shown.document matches Some(document) ==> document.status == "error"@
                        && document.error == Some(error) && document.plan is None
                    &&& shown.document is None ==> shown.stdout.len() == 0 && shown.stderr == seq![
                        "error: "@ + error.1,
                    ]
                },
            }
        }),
{
}

/// A failure of the resolver is classed by what went wrong: a source that is not the framework's, a
/// change beyond it, or a resolution that failed, offline where Cargo was kept offline.
pub proof fn lemma_resolver_classes(error: CargoResolverError, offline: bool)
    ensures
        error matches CargoResolverError::Graph(graph) ==> {
            &&& graph is OmniusSourceMismatch ==> resolver_code(error, offline)
                == "lock-source-mismatch"@
            &&& graph is OutOfScopeWorkspaceChange || graph is OutOfScopePackageChange
                || graph is OutOfScopeNodeChange ==> resolver_code(error, offline)
                == "lock-diff-out-of-scope"@
            &&& !(graph is OmniusSourceMismatch) && !(graph is OutOfScopeWorkspaceChange) && !(
            graph is OutOfScopePackageChange) && !(graph is OutOfScopeNodeChange) ==> resolver_code(
                error,
                offline,
            ) == "cargo-resolution-failed"@
        },
        error is CommandFailed || error is Spawn ==> resolver_code(error, offline) == (
        if offline {
            "offline-resolution-failed"@
        } else {
            "cargo-resolution-failed"@
        }),
        !(error is Graph) && !(error is CommandFailed) && !(error is Spawn) ==> resolver_code(
            error,
            offline,
        ) == "cargo-resolution-failed"@,
{
}

/// A failure of a command on a project is classed by what went wrong.
pub proof fn lemma_manager_classes(error: ManagerError, offline: bool)
    ensures
        error is StalePlan ==> manager_code(error, offline) == "stale-plan"@,
        error matches ManagerError::Resolver(inner) ==> manager_code(error, offline)
            == resolver_code(inner, offline),
        error matches ManagerError::Preflight(findings) ==> {
            let overridden = exists|i: int|
                0 <= i < findings@.len() && (#[trigger] findings@[i]).code@ == "source-override"@;
            let mismatched = exists|i: int|
                0 <= i < findings@.len() && (#[trigger] findings@[i]).code@ == "release-mismatch"@;
            manager_code(error, offline) == if overridden {
                "source-override"@
            } else if mismatched {
                "release-mismatch"@
            } else {
                "invalid-project"@
            }
        },
        error matches ManagerError::InvalidProject(message) ==> manager_code(error, offline) == if occurs(
            "baseline"@,
            message@,
        ) {
            "legacy-baseline-mismatch"@
        } else {
            "invalid-project"@
        },
{
    if let ManagerError::Preflight(findings) = error {
        let list = models(findings@);
        assert forall|i: int| 0 <= i < list.len() implies (#[trigger] list[i]).0
            == findings@[i].code@ by {}
        lemma_codes_found(findings@, "source-override"@);
        lemma_codes_found(findings@, "release-mismatch"@);
    }
}

proof fn lemma_codes_found(findings: Seq<Diagnostic>, code: Seq<char>)
    ensures
        has_code(models(findings), code) <==> exists|i: int|
            0 <= i < findings.len() && (#[trigger] findings[i]).code@ == code,
{
    let list = models(findings);
    if has_code(list, code) {
        let i = choose|i: int| 0 <= i < list.len() && (#[trigger] list[i]).0 == code;
        assert(findings[i].code@ == code);
    }
    if exists|i: int| 0 <= i < findings.len() && (#[trigger] findings[i]).code@ == code {
        let i = choose|i: int| 0 <= i < findings.len() && (#[trigger] findings[i]).code@ == code;
        assert(list[i].0 == code);
    }
}

/// A failure to render a new project is classed by what went wrong.
pub proof fn lemma_render_classes(error: RenderError, offline: bool)
    ensures
        error is DestinationExists ==> render_code(error, offline) == "destination-exists"@,
        error is Provenance ==> render_code(error, offline) == "source-override"@,
        error matches RenderError::Resolver(inner) ==> render_code(error, offline) == resolver_code(
            inner,
            offline,
        ),
        !(error is DestinationExists) && !(error is Provenance) && !(error is Resolver)
            ==> render_code(error, offline) == "invalid-project"@,
{
}

} // verus!
