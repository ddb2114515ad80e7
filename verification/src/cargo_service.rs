//! The `cargo service` command line: requests, results, and how they are presented.

use vstd::prelude::*;
use vstd::string::*;

use crate::cargo_graph::CargoGraphError;
use crate::cargo_resolver::CargoResolverError;
use crate::catalog::KIT_VERSION;
use crate::management::{
    Diagnostic, DiagnosticModel, DoctorReport, ManagementPlan, ManagerError, PlanModel,
};
use crate::ordered::{models, Keyed};
use crate::release::{
    ReleaseBuildStatus, ReleaseIdentity, ReleaseIdentityError, CANONICAL_REPOSITORY,
    GENERATOR_VERSION,
};
use crate::render::RenderError;
use crate::sealing::SealedManagementPlan;
use crate::state::PROJECT_STATE_PATH;
use crate::text::{
    chars_of, contains_text, decimal, decimal_text, holds_text, join2, join3, join5, join6, occurs,
    optional_view, same_text, texts,
};

verus! {

/// Version of the form of JSON documents.
pub const JSON_SCHEMA_VERSION: u32 = 1;

/// Exit code of success.
pub const EXIT_SUCCESS: u8 = 0;

/// Exit code of an operational failure.
pub const EXIT_OPERATIONAL: u8 = 1;

/// Exit code of a syntax error.
pub const EXIT_SYNTAX: u8 = 2;

// Requests.
/// Canonical command request after direct and Cargo-prefixed argv normalization.
#[derive(Debug, PartialEq, Eq)]
pub enum ServiceInvocation {
    /// Create a new service.
    New {
        /// Service name.
        name: String,
        /// Profile identifier.
        profile: String,
        /// Destination path.
        project: String,
        /// Cargo cache-only resolution.
        offline: bool,
        /// Machine-readable output.
        json: bool,
    },
    /// Add one module.
    Add(ModuleInvocation),
    /// Remove one module.
    Remove(ModuleInvocation),
    /// Set one exact profile.
    ProfileSet(ProfileSetInvocation),
    /// Update to this CLI release.
    Update(ProjectMutationInvocation),
    /// Diagnose one project.
    Doctor(ProjectInvocation),
    /// Diff one project.
    Diff(ProjectInvocation),
}

/// Shared arguments for add and remove.
#[derive(Debug, PartialEq, Eq)]
pub struct ModuleInvocation {
    /// Module identifier.
    pub module: String,
    /// Project root.
    pub project: String,
    /// Seal without applying.
    pub dry_run: bool,
    /// Cargo cache-only resolution.
    pub offline: bool,
    /// Machine-readable output.
    pub json: bool,
}

/// Parsed exact-profile transition.
#[derive(Debug, PartialEq, Eq)]
pub struct ProfileSetInvocation {
    /// Profile identifier.
    pub profile: String,
    /// Project root.
    pub project: String,
    /// Seal without applying.
    pub dry_run: bool,
    /// Cargo cache-only resolution.
    pub offline: bool,
    /// Machine-readable output.
    pub json: bool,
}

/// Parsed project mutation without a separate operand.
#[derive(Debug, PartialEq, Eq)]
pub struct ProjectMutationInvocation {
    /// Project root.
    pub project: String,
    /// Seal without applying.
    pub dry_run: bool,
    /// Cargo cache-only resolution.
    pub offline: bool,
    /// Machine-readable output.
    pub json: bool,
}

/// Parsed read-only project command.
#[derive(Debug, PartialEq, Eq)]
pub struct ProjectInvocation {
    /// Project root.
    pub project: String,
    /// Machine-readable output.
    pub json: bool,
}

impl ServiceInvocation {
    /// The name of the command.
    pub open spec fn name_text(self) -> Seq<char> {
        match self {
            ServiceInvocation::New { .. } => "new"@,
            ServiceInvocation::Add(_) => "add"@,
            ServiceInvocation::Remove(_) => "remove"@,
            ServiceInvocation::ProfileSet(_) => "profile-set"@,
            ServiceInvocation::Update(_) => "update"@,
            ServiceInvocation::Doctor(_) => "doctor"@,
            ServiceInvocation::Diff(_) => "diff"@,
        }
    }

    /// The project of the command.
    pub open spec fn project_text(self) -> Seq<char> {
        match self {
            ServiceInvocation::New { project, .. } => project@,
            ServiceInvocation::Add(arguments) => arguments.project@,
            ServiceInvocation::Remove(arguments) => arguments.project@,
            ServiceInvocation::ProfileSet(arguments) => arguments.project@,
            ServiceInvocation::Update(arguments) => arguments.project@,
            ServiceInvocation::Doctor(arguments) => arguments.project@,
            ServiceInvocation::Diff(arguments) => arguments.project@,
        }
    }

    /// Whether the result is to be a JSON document.
    pub open spec fn is_json(self) -> bool {
        match self {
            ServiceInvocation::New { json, .. } => json,
            ServiceInvocation::Add(arguments) => arguments.json,
            ServiceInvocation::Remove(arguments) => arguments.json,
            ServiceInvocation::ProfileSet(arguments) => arguments.json,
            ServiceInvocation::Update(arguments) => arguments.json,
            ServiceInvocation::Doctor(arguments) => arguments.json,
            ServiceInvocation::Diff(arguments) => arguments.json,
        }
    }

    /// Returns the name of the command.
    pub fn command_name(&self) -> (name: &'static str)
        ensures
            name@ == self.name_text(),
    {
        match self {
            ServiceInvocation::New { .. } => "new",
            ServiceInvocation::Add(_) => "add",
            ServiceInvocation::Remove(_) => "remove",
            ServiceInvocation::ProfileSet(_) => "profile-set",
            ServiceInvocation::Update(_) => "update",
            ServiceInvocation::Doctor(_) => "doctor",
            ServiceInvocation::Diff(_) => "diff",
        }
    }

    /// Returns the project of the command.
    pub fn project(&self) -> (project: &str)
        ensures
            project@ == self.project_text(),
    {
        match self {
            ServiceInvocation::New { project, .. } => project.as_str(),
            ServiceInvocation::Add(arguments) => arguments.project.as_str(),
            ServiceInvocation::Remove(arguments) => arguments.project.as_str(),
            ServiceInvocation::ProfileSet(arguments) => arguments.project.as_str(),
            ServiceInvocation::Update(arguments) => arguments.project.as_str(),
            ServiceInvocation::Doctor(arguments) => arguments.project.as_str(),
            ServiceInvocation::Diff(arguments) => arguments.project.as_str(),
        }
    }

    /// Returns whether the result is to be a JSON document.
    pub fn wants_json(&self) -> (json: bool)
        ensures
            json == self.is_json(),
    {
        match self {
            ServiceInvocation::New { json, .. } => *json,
            ServiceInvocation::Add(arguments) => arguments.json,
            ServiceInvocation::Remove(arguments) => arguments.json,
            ServiceInvocation::ProfileSet(arguments) => arguments.json,
            ServiceInvocation::Update(arguments) => arguments.json,
            ServiceInvocation::Doctor(arguments) => arguments.json,
            ServiceInvocation::Diff(arguments) => arguments.json,
        }
    }
}

/// The arguments behind the name of the executable, without one leading `service`.
pub open spec fn normalized_arguments(arguments: Seq<Seq<char>>) -> Seq<Seq<char>> {
    if arguments.len() == 0 {
        Seq::empty()
    } else if arguments.len() > 1 && arguments[1] == "service"@ {
        arguments.skip(2)
    } else {
        arguments.skip(1)
    }
}

/// Drops the name of the executable and one leading `service` behind it, so that a direct call and
/// a call through Cargo are the same.
pub fn normalize_argv(arguments: &Vec<String>) -> (normalized: Vec<String>)
    ensures
        texts(normalized@) == normalized_arguments(texts(arguments@)),
{
    let ghost all = texts(arguments@);
    let mut start: usize = 0;
    if arguments.len() > 0 {
        start = 1;
    }
    if arguments.len() > 1 && same_text(arguments[1].as_str(), "service") {
        assert(all[1] == arguments@[1]@);
        start = 2;
    } else if arguments.len() > 1 {
        assert(all[1] == arguments@[1]@);
    }
    let ghost rest = all.skip(start as int);
    let mut normalized: Vec<String> = Vec::new();
    let mut index: usize = start;
    assert(texts(normalized@) =~= rest.take(0));
    while index < arguments.len()
        invariant
            all == texts(arguments@),
            start <= index <= arguments@.len(),
            rest == all.skip(start as int),
            texts(normalized@) == rest.take(index - start),
        decreases arguments@.len() - index,
    {
        let ghost before = texts(normalized@);
        normalized.push(arguments[index].clone());
        proof {
            assert(rest[index - start] == arguments@[index as int]@);
            assert(texts(normalized@) =~= before.push(rest[index - start]));
            assert(rest.take(index + 1 - start) =~= rest.take(index - start).push(
                rest[index - start],
            ));
        }
        index += 1;
    }
    assert(rest.take(index - start) =~= rest);
    proof {
        if arguments@.len() == 0 {
            assert(rest =~= Seq::<Seq<char>>::empty());
        }
    }
    normalized
}

/// A direct call and a call through Cargo are the same.
pub proof fn lemma_cargo_prefix(executable: Seq<char>, arguments: Seq<Seq<char>>)
    requires
        arguments.len() == 0 || arguments[0] != "service"@,
    ensures
        normalized_arguments(seq![executable, "service"@] + arguments) == normalized_arguments(
            seq![executable] + arguments,
        ),
{
    let direct = seq![executable] + arguments;
    let prefixed = seq![executable, "service"@] + arguments;
    assert(prefixed[1] == "service"@);
    assert(prefixed.skip(2) =~= arguments);
    assert(direct.skip(1) =~= arguments);
    if arguments.len() > 0 {
        assert(direct[1] == arguments[0]);
    }
}

/// Which command arguments seem to name; an argument is absent where it is missing or not UTF-8.
pub open spec fn hinted_command(first: Option<Seq<char>>, second: Option<Seq<char>>) -> Seq<char> {
    if first == Some("profile"@) && second == Some("set"@) {
        "profile-set"@
    } else {
        match first {
            Some(command) => if command.len() > 0 && command[0] == '-' {
                "unknown"@
            } else {
                command
            },
            None => "unknown"@,
        }
    }
}

/// Returns which command arguments seem to name.
pub fn command_hint(first: Option<&str>, second: Option<&str>) -> (command: String)
    ensures
        command@ == hinted_command(
            (match first {
                Some(text) => Some(text@),
                None => None,
            }),
            (match second {
                Some(text) => Some(text@),
                None => None,
            }),
        ),
{
    let command = match first {
        Some(command) => command,
        None => {
            return "unknown".to_owned();
        },
    };
    let sets = match second {
        Some(text) => same_text(text, "set"),
        None => false,
    };
    if same_text(command, "profile") && sets {
        return "profile-set".to_owned();
    }
    let chars = chars_of(command);
    if chars.len() > 0 && chars[0] == '-' {
        return "unknown".to_owned();
    }
    command.to_owned()
}

/// Returns whether arguments ask for a JSON document.
pub fn asks_for_json(arguments: &Vec<String>) -> (json: bool)
    ensures
        json == texts(arguments@).contains("--json"@),
{
    holds_text(arguments, "--json")
}

/// Returns the destination of a new service: the one that was asked for, or `./NAME`.
pub fn new_destination(name: &str, path: Option<String>) -> (destination: String)
    ensures
        destination@ == (match path {
            Some(text) => text@,
            None => "./"@ + name@,
        }),
{
    match path {
        Some(path) => path,
        None => join2("./", name),
    }
}

// Failures.
/// Stable operational failure returned by a service command runner.
#[derive(Debug, PartialEq, Eq)]
pub struct ServiceError {
    /// Stable machine-readable classification.
    pub code: &'static str,
    /// Actionable diagnostic text.
    pub message: String,
}

impl ServiceError {
    /// Constructs an explicitly classified runner failure.
    pub fn new(code: &'static str, message: String) -> (error: Self)
        ensures
            error.code@ == code@,
            error.message@ == message@,
    {
        ServiceError { code, message }
    }
}

/// The classification of a resolver failure.
pub open spec fn resolver_code(error: CargoResolverError, offline: bool) -> Seq<char> {
    match error {
        CargoResolverError::Graph(CargoGraphError::OmniusSourceMismatch { .. }) =>
            "lock-source-mismatch"@,
        CargoResolverError::Graph(CargoGraphError::OutOfScopeWorkspaceChange { .. }) =>
            "lock-diff-out-of-scope"@,
        CargoResolverError::Graph(CargoGraphError::OutOfScopePackageChange { .. }) =>
            "lock-diff-out-of-scope"@,
        CargoResolverError::Graph(CargoGraphError::OutOfScopeNodeChange { .. }) =>
            "lock-diff-out-of-scope"@,
        CargoResolverError::CommandFailed { .. } => if offline {
            "offline-resolution-failed"@
        } else {
            "cargo-resolution-failed"@
        },
        CargoResolverError::Spawn { .. } => if offline {
            "offline-resolution-failed"@
        } else {
            "cargo-resolution-failed"@
        },
        _ => "cargo-resolution-failed"@,
    }
}

/// Whether a finding has a code.
pub open spec fn has_code(findings: Seq<DiagnosticModel>, code: Seq<char>) -> bool {
    exists|i: int| 0 <= i < findings.len() && (#[trigger] findings[i]).0 == code
}

/// The classification of a manager failure.
pub open spec fn manager_code(error: ManagerError, offline: bool) -> Seq<char> {
    match error {
        ManagerError::StalePlan(_) => "stale-plan"@,
        ManagerError::Resolver(error) => resolver_code(error, offline),
        ManagerError::Preflight(findings) => if has_code(
            models(findings@),
            "source-override"@,
        ) {
            "source-override"@
        } else if has_code(models(findings@), "release-mismatch"@) {
            "release-mismatch"@
        } else {
            "invalid-project"@
        },
        ManagerError::InvalidProject(message) => if occurs("baseline"@, message@) {
            "legacy-baseline-mismatch"@
        } else {
            "invalid-project"@
        },
        _ => "invalid-project"@,
    }
}

/// The classification of a render failure.
pub open spec fn render_code(error: RenderError, offline: bool) -> Seq<char> {
    match error {
        RenderError::DestinationExists(_) => "destination-exists"@,
        RenderError::Provenance(_) => "source-override"@,
        RenderError::Resolver(error) => resolver_code(error, offline),
        _ => "invalid-project"@,
    }
}

/// Classifies a resolver failure.
pub fn classify_resolver_error(error: &CargoResolverError, offline: bool) -> (code: &'static str)
    ensures
        code@ == resolver_code(*error, offline),
{
    match error {
        CargoResolverError::Graph(CargoGraphError::OmniusSourceMismatch { .. }) =>
            "lock-source-mismatch",
        CargoResolverError::Graph(CargoGraphError::OutOfScopeWorkspaceChange { .. }) =>
            "lock-diff-out-of-scope",
        CargoResolverError::Graph(CargoGraphError::OutOfScopePackageChange { .. }) =>
            "lock-diff-out-of-scope",
        CargoResolverError::Graph(CargoGraphError::OutOfScopeNodeChange { .. }) =>
            "lock-diff-out-of-scope",
        CargoResolverError::CommandFailed { .. } => if offline {
            "offline-resolution-failed"
        } else {
            "cargo-resolution-failed"
        },
        CargoResolverError::Spawn { .. } => if offline {
            "offline-resolution-failed"
        } else {
            "cargo-resolution-failed"
        },
        _ => "cargo-resolution-failed",
    }
}

/// Returns whether a finding has a code.
pub fn has_diagnostic(diagnostics: &Vec<Diagnostic>, code: &str) -> (found: bool)
    ensures
        found == has_code(models(diagnostics@), code@),
{
    let ghost all = models(diagnostics@);
    let mut index: usize = 0;
    while index < diagnostics.len()
        invariant
            all == models(diagnostics@),
            index <= diagnostics@.len(),
            forall|i: int| 0 <= i < index ==> (#[trigger] all[i]).0 != code@,
        decreases diagnostics@.len() - index,
    {
        assert(all[index as int] == diagnostics@[index as int].model());
        if same_text(diagnostics[index].code.as_str(), code) {
            assert(all[index as int].0 == code@);
            return true;
        }
        index += 1;
    }
    false
}

/// Classifies a manager failure.
pub fn classify_manager_error(error: &ManagerError, offline: bool) -> (result: ServiceError)
    ensures
        result.code@ == manager_code(*error, offline),
        result.message@ == error.failure().text(),
{
    let code = match error {
        ManagerError::StalePlan(_) => "stale-plan",
        ManagerError::Resolver(error) => classify_resolver_error(error, offline),
        ManagerError::Preflight(findings) => if has_diagnostic(findings, "source-override") {
            "source-override"
        } else if has_diagnostic(findings, "release-mismatch") {
            "release-mismatch"
        } else {
            "invalid-project"
        },
        ManagerError::InvalidProject(message) => if contains_text(message.as_str(), "baseline") {
            "legacy-baseline-mismatch"
        } else {
            "invalid-project"
        },
        _ => "invalid-project",
    };
    ServiceError::new(code, error.message())
}

/// Classifies a render failure.
pub fn classify_render_error(error: &RenderError, offline: bool) -> (result: ServiceError)
    ensures
        result.code@ == render_code(*error, offline),
        result.message@ == error.text(),
{
    let code = match error {
        RenderError::DestinationExists(_) => "destination-exists",
        RenderError::Provenance(_) => "source-override",
        RenderError::Resolver(error) => classify_resolver_error(error, offline),
        _ => "invalid-project",
    };
    ServiceError::new(code, error.message())
}

/// Classifies a release failure.
pub fn classify_release_error(error: &ReleaseIdentityError) -> (result: ServiceError)
    ensures
        result.code@ == (if error is DirtyBuild {
            "release-dirty"@
        } else {
            "release-unbound"@
        }),
        result.message@ == error.text(),
{
    let code = match error {
        ReleaseIdentityError::DirtyBuild { .. } => "release-dirty",
        _ => "release-unbound",
    };
    ServiceError::new(code, error.message())
}

// Results.
/// Successful runner result before human or JSON presentation.
#[derive(Debug, PartialEq, Eq)]
pub struct ServiceExecution {
    /// Stable status string.
    pub status: &'static str,
    /// Reviewable plan or result details, as a JSON document.
    pub plan: Option<String>,
    /// Structured diagnostics.
    pub diagnostics: Vec<Diagnostic>,
    /// Human result lines written to stdout.
    pub human_output: Vec<String>,
    /// Process exit classification.
    pub exit_code: u8,
}

/// The value of a runner result.
pub struct ExecutionModel {
    /// Status.
    pub status: Seq<char>,
    /// Plan.
    pub plan: Option<Seq<char>>,
    /// Diagnostics.
    pub diagnostics: Seq<DiagnosticModel>,
    /// Lines.
    pub lines: Seq<Seq<char>>,
    /// Exit code.
    pub exit_code: u8,
}

impl ServiceExecution {
    /// The value of this result.
    pub open spec fn view(&self) -> ExecutionModel {
        ExecutionModel {
            status: self.status@,
            plan: optional_view(self.plan),
            diagnostics: models(self.diagnostics@),
            lines: texts(self.human_output@),
            exit_code: self.exit_code,
        }
    }
}

/// What a plan comes to, in words.
pub open spec fn disposition(plan: PlanModel, dry_run: bool) -> Seq<char> {
    if plan.steps.len() == 0 {
        "no changes"@
    } else if dry_run {
        "planned"@
    } else {
        "applied"@
    }
}

/// The summary of a plan.
pub open spec fn summary_text(
    command: Seq<char>,
    id: Seq<char>,
    plan: PlanModel,
    dry_run: bool,
) -> Seq<char> {
    "service "@ + command + ": "@ + disposition(plan, dry_run) + " (plan "@ + id + ", "@ + decimal(
        plan.steps.len(),
    ) + " file operation(s))"@
}

/// Summarizes a plan.
pub fn plan_summary(command: &str, plan: &ManagementPlan, dry_run: bool) -> (summary: String)
    ensures
        summary@ == summary_text(command@, plan.plan_id@, plan@, dry_run),
{
    let outcome = if plan.is_empty() {
        "no changes"
    } else if dry_run {
        "planned"
    } else {
        "applied"
    };
    let count: usize = plan.operations.len();
    let number = decimal_text(count as u64);
    let mut summary = "service ".to_owned();
    summary.append(command);
    summary.append(": ");
    summary.append(outcome);
    summary.append(" (plan ");
    summary.append(plan.plan_id.as_str());
    summary.append(", ");
    summary.append(number.as_str());
    summary.append(" file operation(s))");
    summary
}

fn one_line(line: String) -> (lines: Vec<String>)
    ensures
        texts(lines@) == seq![line@],
{
    let mut lines: Vec<String> = Vec::new();
    lines.push(line);
    assert(texts(lines@) =~= seq![line@]);
    lines
}

fn no_diagnostics() -> (list: Vec<Diagnostic>)
    ensures
        models(list@) == Seq::<DiagnosticModel>::empty(),
{
    let list: Vec<Diagnostic> = Vec::new();
    assert(models(list@) =~= Seq::<DiagnosticModel>::empty());
    list
}

/// The report of a mutation that was sealed and, but for a dry run, applied.
pub open spec fn mutation_execution(
    plan: ManagementPlan,
    encoded: Seq<char>,
    dry_run: bool,
    command: Seq<char>,
    subject: Seq<char>,
) -> ExecutionModel {
    ExecutionModel {
        status: if plan@.steps.len() == 0 {
            "noop"@
        } else if dry_run {
            "planned"@
        } else {
            "applied"@
        },
        plan: Some(encoded),
        diagnostics: Seq::empty(),
        lines: seq![
            summary_text(command, plan.plan_id@, plan@, dry_run) + "; target `"@ + subject + "`"@,
        ],
        exit_code: EXIT_SUCCESS,
    }
}

/// Reports a mutation that was sealed and, but for a dry run, applied.
pub fn finish_mutation(
    sealed: &SealedManagementPlan,
    encoded: String,
    dry_run: bool,
    command: &str,
    subject: &str,
) -> (execution: ServiceExecution)
    ensures
        execution@ == mutation_execution(
            sealed.sealed(),
            encoded@,
            dry_run,
            command@,
            subject@,
        ),
{
    let plan = sealed.plan();
    let mut line = plan_summary(command, plan, dry_run);
    line.append("; target `");
    line.append(subject);
    line.append("`");
    let status = if plan.is_empty() {
        "noop"
    } else if dry_run {
        "planned"
    } else {
        "applied"
    };
    ServiceExecution {
        status,
        plan: Some(encoded),
        diagnostics: no_diagnostics(),
        human_output: one_line(line),
        exit_code: EXIT_SUCCESS,
    }
}

/// The report of a new service.
pub open spec fn created_execution(
    name: Seq<char>,
    profile: Seq<char>,
    project: Seq<char>,
    files: nat,
) -> ExecutionModel {
    ExecutionModel {
        status: "created"@,
        plan: Some("{\"rendered_files\":"@ + decimal(files) + "}"@),
        diagnostics: Seq::empty(),
        lines: seq![
            "created service `"@ + name + "` with profile `"@ + profile + "` at "@ + project,
        ],
        exit_code: EXIT_SUCCESS,
    }
}

/// Reports a new service of this many files.
pub fn report_created(name: &str, profile: &str, project: &str, files: usize) -> (execution:
    ServiceExecution)
    ensures
        execution@ == created_execution(name@, profile@, project@, files as nat),
{
    let number = decimal_text(files as u64);
    ServiceExecution {
        status: "created",
        plan: Some(join3("{\"rendered_files\":", number.as_str(), "}")),
        diagnostics: no_diagnostics(),
        human_output: one_line(
            join6("created service `", name, "` with profile `", profile, "` at ", project),
        ),
        exit_code: EXIT_SUCCESS,
    }
}

/// What is to be said of the build that makes an inspection.
pub open spec fn build_findings(release: ReleaseBuildStatus) -> Seq<DiagnosticModel> {
    match release {
        ReleaseBuildStatus::Clean(_) => Seq::empty(),
        ReleaseBuildStatus::Dirty { revision } => seq![
            (
                "release-dirty"@,
                None,
                "cargo-service was built from dirty source at revision "@ + revision@
                    + "; inspection is read-only"@,
            ),
        ],
        ReleaseBuildStatus::Unbound => seq![
            (
                "release-unbound"@,
                None,
                "cargo-service is not bound to an immutable revision; inspection uses the project's recorded release"@,
            ),
        ],
    }
}

/// Returns what is to be said of the build that makes an inspection.
pub fn build_diagnostic(release: &ReleaseBuildStatus) -> (list: Vec<Diagnostic>)
    ensures
        models(list@) == build_findings(*release),
{
    let mut list = no_diagnostics();
    match release {
        ReleaseBuildStatus::Clean(_) => {},
        ReleaseBuildStatus::Dirty { revision } => {
            list.push(
                Diagnostic {
                    code: "release-dirty".to_owned(),
                    path: None,
                    message: join3(
                        "cargo-service was built from dirty source at revision ",
                        revision.as_str(),
                        "; inspection is read-only",
                    ),
                },
            );
        },
        ReleaseBuildStatus::Unbound => {
            list.push(
                Diagnostic {
                    code: "release-unbound".to_owned(),
                    path: None,
                    message:
                        "cargo-service is not bound to an immutable revision; inspection uses the project's recorded release".to_owned(),
                },
            );
        },
    }
    assert(models(list@) =~= build_findings(*release));
    list
}

/// The report of a diagnosis.
pub open spec fn doctor_execution(report: DoctorReport, release: ReleaseBuildStatus) -> ExecutionModel {
    let found = models(report.diagnostics@) + build_findings(release);
    let healthy = report.healthy && found.len() == 0;
    ExecutionModel {
        status: if healthy {
            "clean"@
        } else {
            "unhealthy"@
        },
        plan: None,
        diagnostics: found,
        lines: seq![
            if healthy {
                "service doctor: clean"@
            } else {
                "service doctor: findings reported on stderr"@
            },
        ],
        exit_code: if healthy {
            EXIT_SUCCESS
        } else {
            EXIT_OPERATIONAL
        },
    }
}

/// Reports a diagnosis.
pub fn report_doctor(report: DoctorReport, release: &ReleaseBuildStatus) -> (execution:
    ServiceExecution)
    ensures
        execution@ == doctor_execution(report, *release),
{
    let ghost first = models(report.diagnostics@);
    let well = report.healthy;
    let mut diagnostics = report.diagnostics;
    let mut more = build_diagnostic(release);
    diagnostics.append(&mut more);
    assert(models(diagnostics@) =~= first + build_findings(*release));
    assert(models(diagnostics@).len() == diagnostics@.len());
    let healthy = well && diagnostics.len() == 0;
    let line = if healthy {
        "service doctor: clean"
    } else {
        "service doctor: findings reported on stderr"
    };
    ServiceExecution {
        status: if healthy {
            "clean"
        } else {
            "unhealthy"
        },
        plan: None,
        diagnostics,
        human_output: one_line(line.to_owned()),
        exit_code: if healthy {
            EXIT_SUCCESS
        } else {
            EXIT_OPERATIONAL
        },
    }
}

/// The report of a reconciliation plan.
pub open spec fn diff_execution(
    plan: ManagementPlan,
    encoded: Seq<char>,
    release: ReleaseBuildStatus,
) -> ExecutionModel {
    ExecutionModel {
        status: if plan@.steps.len() == 0 {
            "clean"@
        } else {
            "changes"@
        },
        plan: Some(encoded),
        diagnostics: build_findings(release),
        lines: seq![summary_text("diff"@, plan.plan_id@, plan@, false)],
        exit_code: EXIT_SUCCESS,
    }
}

/// Reports a difference.
pub fn report_diff(plan: &ManagementPlan, encoded: String, release: &ReleaseBuildStatus) -> (execution:
    ServiceExecution)
    ensures
        execution@ == diff_execution(*plan, encoded@, *release),
{
    let status = if plan.is_empty() {
        "clean"
    } else {
        "changes"
    };
    ServiceExecution {
        status,
        plan: Some(encoded),
        diagnostics: build_diagnostic(release),
        human_output: one_line(plan_summary("diff", plan, false)),
        exit_code: EXIT_SUCCESS,
    }
}

/// The report of an inspection that has no release to go by.
pub open spec fn unavailable_execution(command: Seq<char>) -> ExecutionModel {
    ExecutionModel {
        status: "unavailable"@,
        plan: None,
        diagnostics: seq![
            (
                "release-unbound"@,
                Some(PROJECT_STATE_PATH@),
                "cargo service "@ + command
                    + " could not derive a release identity from this unbound build and project state"@,
            ),
        ],
        lines: seq!["service "@ + command + ": inspection unavailable"@],
        exit_code: EXIT_OPERATIONAL,
    }
}

/// Reports that an inspection has no release to go by.
pub fn unbound_inspection(command: &str) -> (execution: ServiceExecution)
    ensures
        execution@ == unavailable_execution(command@),
{
    let mut diagnostics: Vec<Diagnostic> = Vec::new();
    diagnostics.push(
        Diagnostic {
            code: "release-unbound".to_owned(),
            path: Some(PROJECT_STATE_PATH.to_owned()),
            message: join3(
                "cargo service ",
                command,
                " could not derive a release identity from this unbound build and project state",
            ),
        },
    );
    assert(models(diagnostics@) =~= seq![
        (
            "release-unbound"@,
            Some(PROJECT_STATE_PATH@),
            "cargo service "@ + command@
                + " could not derive a release identity from this unbound build and project state"@,
        ),
    ]);
    ServiceExecution {
        status: "unavailable",
        plan: None,
        diagnostics,
        human_output: one_line(join3("service ", command, ": inspection unavailable")),
        exit_code: EXIT_OPERATIONAL,
    }
}

/// Whether `identity` is the release that an inspection goes by.
pub open spec fn inspects_with(
    release: ReleaseBuildStatus,
    recorded: Option<ReleaseIdentity>,
    identity: Option<ReleaseIdentity>,
) -> bool {
    match release {
        ReleaseBuildStatus::Clean(build) => identity is Some && identity->Some_0@ == build@,
        ReleaseBuildStatus::Dirty { revision } => {
            let wanted = crate::release::ReleaseModel {
                version: GENERATOR_VERSION@,
                repository: CANONICAL_REPOSITORY@,
                revision: revision@,
            };
            match identity {
                Some(found) => wanted.is_valid() && found@ == wanted,
                None => !wanted.is_valid(),
            }
        },
        ReleaseBuildStatus::Unbound => identity == recorded,
    }
}

/// Returns the release that an inspection goes by: that of the build, or the one that the project
/// records where the build is bound to none.
pub fn inspection_identity(release: &ReleaseBuildStatus, recorded: Option<ReleaseIdentity>) -> (identity:
    Option<ReleaseIdentity>)
    ensures
        inspects_with(*release, recorded, identity),
{
    match release {
        ReleaseBuildStatus::Clean(build) => Some(build.duplicate()),
        ReleaseBuildStatus::Dirty { revision } => match ReleaseIdentity::new(
            GENERATOR_VERSION,
            CANONICAL_REPOSITORY,
            revision.as_str(),
        ) {
            Ok(identity) => Some(identity),
            Err(_) => None,
        },
        ReleaseBuildStatus::Unbound => recorded,
    }
}

// Presentation.
/// The release in a JSON document.
#[derive(Debug, PartialEq, Eq)]
pub struct ReleaseEnvelope {
    /// Binding of the build.
    pub status: &'static str,
    /// Version.
    pub version: String,
    /// Repository.
    pub repository: String,
    /// Revision, where the build is bound to one.
    pub revision: Option<String>,
}

/// The value of the release in a JSON document.
pub struct ReleaseEnvelopeModel {
    /// Binding of the build.
    pub status: Seq<char>,
    /// Version.
    pub version: Seq<char>,
    /// Repository.
    pub repository: Seq<char>,
    /// Revision.
    pub revision: Option<Seq<char>>,
}

impl ReleaseEnvelope {
    /// The value of this release.
    pub open spec fn view(&self) -> ReleaseEnvelopeModel {
        ReleaseEnvelopeModel {
            status: self.status@,
            version: self.version@,
            repository: self.repository@,
            revision: optional_view(self.revision),
        }
    }
}

/// The release that a JSON document tells of.
pub open spec fn release_envelope(release: Option<ReleaseBuildStatus>) -> ReleaseEnvelopeModel {
    match release {
        Some(ReleaseBuildStatus::Clean(identity)) => ReleaseEnvelopeModel {
            status: "clean"@,
            version: identity@.version,
            repository: identity@.repository,
            revision: Some(identity@.revision),
        },
        Some(ReleaseBuildStatus::Dirty { revision }) => ReleaseEnvelopeModel {
            status: "dirty"@,
            version: GENERATOR_VERSION@,
            repository: CANONICAL_REPOSITORY@,
            revision: Some(revision@),
        },
        _ => ReleaseEnvelopeModel {
            status: "unbound"@,
            version: GENERATOR_VERSION@,
            repository: CANONICAL_REPOSITORY@,
            revision: None,
        },
    }
}

/// The status behind an optional reference.
pub open spec fn status_value(release: Option<&ReleaseBuildStatus>) -> Option<ReleaseBuildStatus> {
    match release {
        Some(status) => Some(*status),
        None => None,
    }
}

/// Returns the release that a JSON document tells of.
pub fn release_json(release: Option<&ReleaseBuildStatus>) -> (envelope: ReleaseEnvelope)
    ensures
        envelope@ == release_envelope(status_value(release)),
{
    match release {
        Some(ReleaseBuildStatus::Clean(identity)) => ReleaseEnvelope {
            status: "clean",
            version: identity.version().to_owned(),
            repository: identity.repository().to_owned(),
            revision: Some(identity.revision().to_owned()),
        },
        Some(ReleaseBuildStatus::Dirty { revision }) => ReleaseEnvelope {
            status: "dirty",
            version: GENERATOR_VERSION.to_owned(),
            repository: CANONICAL_REPOSITORY.to_owned(),
            revision: Some(revision.clone()),
        },
        _ => ReleaseEnvelope {
            status: "unbound",
            version: GENERATOR_VERSION.to_owned(),
            repository: CANONICAL_REPOSITORY.to_owned(),
            revision: None,
        },
    }
}

/// The exact release-aware `--version` line.
pub open spec fn version_line(release: ReleaseBuildStatus) -> Seq<char> {
    "cargo-service "@ + GENERATOR_VERSION@ + " (kit "@ + KIT_VERSION@ + (match release {
        ReleaseBuildStatus::Clean(identity) => ", "@ + identity@.revision + ")"@,
        ReleaseBuildStatus::Dirty { revision } => ", "@ + revision@ + ", dirty)"@,
        ReleaseBuildStatus::Unbound => ", unbound)"@,
    })
}

/// Formats the exact release-aware `--version` line.
pub fn format_version(release: &ReleaseBuildStatus) -> (line: String)
    ensures
        line@ == version_line(*release),
{
    let binding = match release {
        ReleaseBuildStatus::Clean(identity) => join3(", ", identity.revision(), ")"),
        ReleaseBuildStatus::Dirty { revision } => join3(", ", revision.as_str(), ", dirty)"),
        ReleaseBuildStatus::Unbound => ", unbound)".to_owned(),
    };
    join5("cargo-service ", GENERATOR_VERSION, " (kit ", KIT_VERSION, binding.as_str())
}

/// A JSON document.
#[derive(Debug, PartialEq, Eq)]
pub struct JsonEnvelope {
    /// Form of the document.
    pub schema_version: u32,
    /// Command.
    pub command: String,
    /// Status.
    pub status: &'static str,
    /// Project.
    pub project: Option<String>,
    /// Release.
    pub release: ReleaseEnvelope,
    /// Plan, as a JSON document.
    pub plan: Option<String>,
    /// Diagnostics.
    pub diagnostics: Vec<Diagnostic>,
    /// Failure.
    pub error: Option<ServiceError>,
}

/// The value of a JSON document.
pub struct EnvelopeModel {
    /// Form of the document.
    pub schema_version: u32,
    /// Command.
    pub command: Seq<char>,
    /// Status.
    pub status: Seq<char>,
    /// Project.
    pub project: Option<Seq<char>>,
    /// Release.
    pub release: ReleaseEnvelopeModel,
    /// Plan.
    pub plan: Option<Seq<char>>,
    /// Diagnostics.
    pub diagnostics: Seq<DiagnosticModel>,
    /// Failure: code and message.
    pub error: Option<(Seq<char>, Seq<char>)>,
}

impl JsonEnvelope {
    /// The value of this document.
    pub open spec fn view(&self) -> EnvelopeModel {
        EnvelopeModel {
            schema_version: self.schema_version,
            command: self.command@,
            status: self.status@,
            project: optional_view(self.project),
            release: self.release@,
            plan: optional_view(self.plan),
            diagnostics: models(self.diagnostics@),
            error: match self.error {
                Some(error) => Some((error.code@, error.message@)),
                None => None,
            },
        }
    }
}

/// The document that reports a failure.
pub open spec fn failure_envelope(
    command: Seq<char>,
    project: Option<Seq<char>>,
    release: Option<ReleaseBuildStatus>,
    code: Seq<char>,
    message: Seq<char>,
) -> EnvelopeModel {
    EnvelopeModel {
        schema_version: JSON_SCHEMA_VERSION,
        command,
        status: "error"@,
        project,
        release: release_envelope(release),
        plan: None,
        diagnostics: Seq::empty(),
        error: Some((code, message)),
    }
}

/// Makes the document that reports a failure.
pub fn error_envelope(
    command: String,
    project: Option<&str>,
    release: Option<&ReleaseBuildStatus>,
    error: ServiceError,
) -> (envelope: JsonEnvelope)
    ensures
        envelope@ == failure_envelope(
            command@,
            (match project {
                Some(text) => Some(text@),
                None => None,
            }),
            status_value(release),
            error.code@,
            error.message@,
        ),
{
    let place = match project {
        Some(text) => Some(text.to_owned()),
        None => None,
    };
    JsonEnvelope {
        schema_version: JSON_SCHEMA_VERSION,
        command,
        status: "error",
        project: place,
        release: release_json(release),
        plan: None,
        diagnostics: no_diagnostics(),
        error: Some(error),
    }
}

/// What a command writes: lines, a JSON document on its standard output, and its exit code.
#[derive(Debug, PartialEq, Eq)]
pub struct Presentation {
    /// Lines of the standard output.
    pub stdout: Vec<String>,
    /// Lines of the standard error output.
    pub stderr: Vec<String>,
    /// JSON document.
    pub document: Option<JsonEnvelope>,
    /// Exit code.
    pub exit_code: u8,
}

/// The value of what a command writes.
pub struct PresentationModel {
    /// Lines of the standard output.
    pub stdout: Seq<Seq<char>>,
    /// Lines of the standard error output.
    pub stderr: Seq<Seq<char>>,
    /// JSON document.
    pub document: Option<EnvelopeModel>,
    /// Exit code.
    pub exit_code: u8,
}

impl Presentation {
    /// The value of this presentation.
    pub open spec fn view(&self) -> PresentationModel {
        PresentationModel {
            stdout: texts(self.stdout@),
            stderr: texts(self.stderr@),
            document: match self.document {
                Some(document) => Some(document@),
                None => None,
            },
            exit_code: self.exit_code,
        }
    }
}

/// The line of a finding.
pub open spec fn finding_line(finding: DiagnosticModel) -> Seq<char> {
    match finding.1 {
        Some(path) => finding.0 + " ["@ + path + "]: "@ + finding.2,
        None => finding.0 + ": "@ + finding.2,
    }
}

/// The lines of findings.
pub open spec fn finding_lines(findings: Seq<DiagnosticModel>) -> Seq<Seq<char>> {
    findings.map_values(|finding: DiagnosticModel| finding_line(finding))
}

/// How the result of a command is presented.
pub open spec fn presented(
    invocation: ServiceInvocation,
    release: ReleaseBuildStatus,
    result: Result<ExecutionModel, (Seq<char>, Seq<char>)>,
) -> PresentationModel {
    match result {
        Ok(execution) => if invocation.is_json() {
            PresentationModel {
                stdout: Seq::empty(),
                stderr: Seq::empty(),
                document: Some(
                    EnvelopeModel {
                        schema_version: JSON_SCHEMA_VERSION,
                        command: invocation.name_text(),
                        status: execution.status,
                        project: Some(invocation.project_text()),
                        release: release_envelope(Some(release)),
                        plan: execution.plan,
                        diagnostics: execution.diagnostics,
                        error: None,
                    },
                ),
                exit_code: execution.exit_code,
            }
        } else {
            PresentationModel {
                stdout: execution.lines,
                stderr: finding_lines(execution.diagnostics),
                document: None,
                exit_code: execution.exit_code,
            }
        },
        Err(error) => if invocation.is_json() {
            PresentationModel {
                stdout: Seq::empty(),
                stderr: Seq::empty(),
                document: Some(
                    failure_envelope(
                        invocation.name_text(),
                        Some(invocation.project_text()),
                        Some(release),
                        error.0,
                        error.1,
                    ),
                ),
                exit_code: EXIT_OPERATIONAL,
            }
        } else {
            PresentationModel {
                stdout: Seq::empty(),
                stderr: seq!["error: "@ + error.1],
                document: None,
                exit_code: EXIT_OPERATIONAL,
            }
        },
    }
}

fn no_lines() -> (lines: Vec<String>)
    ensures
        texts(lines@) == Seq::<Seq<char>>::empty(),
{
    let lines: Vec<String> = Vec::new();
    assert(texts(lines@) =~= Seq::<Seq<char>>::empty());
    lines
}

fn show_findings(diagnostics: &Vec<Diagnostic>) -> (lines: Vec<String>)
    ensures
        texts(lines@) == finding_lines(models(diagnostics@)),
{
    let ghost all = finding_lines(models(diagnostics@));
    let mut lines: Vec<String> = Vec::new();
    let mut index: usize = 0;
    while index < diagnostics.len()
        invariant
            all == finding_lines(models(diagnostics@)),
            index <= diagnostics@.len(),
            texts(lines@) == all.take(index as int),
        decreases diagnostics@.len() - index,
    {
        let finding = &diagnostics[index];
        let line = match &finding.path {
            Some(path) => join5(
                finding.code.as_str(),
                " [",
                path.as_str(),
                "]: ",
                finding.message.as_str(),
            ),
            None => join3(finding.code.as_str(), ": ", finding.message.as_str()),
        };
        let ghost before = texts(lines@);
        let ghost value = line@;
        lines.push(line);
        proof {
            assert(all[index as int] == value);
            assert(texts(lines@) =~= before.push(value));
            assert(all.take(index + 1) =~= all.take(index as int).push(value));
        }
        index += 1;
    }
    assert(all.take(index as int) =~= all);
    lines
}

/// Presents one line and no document.
pub(crate) fn present_line(line: String, fails: bool, exit_code: u8) -> (presentation: Presentation)
    ensures
        presentation@ == (PresentationModel {
            stdout: if fails {
                Seq::empty()
            } else {
                seq![line@]
            },
            stderr: if fails {
                seq![line@]
            } else {
                Seq::empty()
            },
            document: None,
            exit_code,
        }),
{
    if fails {
        Presentation { stdout: no_lines(), stderr: one_line(line), document: None, exit_code }
    } else {
        Presentation { stdout: one_line(line), stderr: no_lines(), document: None, exit_code }
    }
}

/// The value of a command's result.
pub open spec fn result_value(result: Result<ServiceExecution, ServiceError>) -> Result<
    ExecutionModel,
    (Seq<char>, Seq<char>),
> {
    match result {
        Ok(execution) => Ok(execution@),
        Err(error) => Err((error.code@, error.message@)),
    }
}

/// Presents the result of a command.
pub fn present(
    invocation: &ServiceInvocation,
    release: &ReleaseBuildStatus,
    result: Result<ServiceExecution, ServiceError>,
) -> (presentation: Presentation)
    ensures
        presentation@ == presented(*invocation, *release, result_value(result)),
{
    match result {
        Ok(execution) => {
            if invocation.wants_json() {
                Presentation {
                    stdout: no_lines(),
                    stderr: no_lines(),
                    document: Some(
                        JsonEnvelope {
                            schema_version: JSON_SCHEMA_VERSION,
                            command: invocation.command_name().to_owned(),
                            status: execution.status,
                            project: Some(invocation.project().to_owned()),
                            release: release_json(Some(release)),
                            plan: execution.plan,
                            diagnostics: execution.diagnostics,
                            error: None,
                        },
                    ),
                    exit_code: execution.exit_code,
                }
            } else {
                Presentation {
                    stderr: show_findings(&execution.diagnostics),
                    stdout: execution.human_output,
                    document: None,
                    exit_code: execution.exit_code,
                }
            }
        },
        Err(error) => {
            if invocation.wants_json() {
                Presentation {
                    stdout: no_lines(),
                    stderr: no_lines(),
                    document: Some(
                        error_envelope(
                            invocation.command_name().to_owned(),
                            Some(invocation.project()),
                            Some(release),
                            error,
                        ),
                    ),
                    exit_code: EXIT_OPERATIONAL,
                }
            } else {
                Presentation {
                    stdout: no_lines(),
                    stderr: one_line(join2("error: ", error.message.as_str())),
                    document: None,
                    exit_code: EXIT_OPERATIONAL,
                }
            }
        },
    }
}

/// The presentation of arguments that do not parse, as a JSON document.
pub open spec fn syntax_presentation(command: Seq<char>, message: Seq<char>) -> PresentationModel {
    PresentationModel {
        stdout: Seq::empty(),
        stderr: Seq::empty(),
        document: Some(failure_envelope(command, None, None, "invalid-arguments"@, message)),
        exit_code: EXIT_SYNTAX,
    }
}

/// Presents arguments that do not parse, where a JSON document is asked for.
pub fn present_syntax_error(command: String, message: String) -> (presentation: Presentation)
    ensures
        presentation@ == syntax_presentation(command@, message@),
{
    Presentation {
        stdout: no_lines(),
        stderr: no_lines(),
        document: Some(
            error_envelope(command, None, None, ServiceError::new("invalid-arguments", message)),
        ),
        exit_code: EXIT_SYNTAX,
    }
}

/// The presentation of a build whose release binding is invalid.
pub open spec fn release_presentation(
    command: Seq<char>,
    code: Seq<char>,
    message: Seq<char>,
    json: bool,
) -> PresentationModel {
    if json {
        PresentationModel {
            stdout: Seq::empty(),
            stderr: Seq::empty(),
            document: Some(failure_envelope(command, None, None, code, message)),
            exit_code: EXIT_OPERATIONAL,
        }
    } else {
        PresentationModel {
            stdout: Seq::empty(),
            stderr: seq!["error: "@ + message],
            document: None,
            exit_code: EXIT_OPERATIONAL,
        }
    }
}

/// Presents a build whose release binding is invalid.
pub fn present_release_error(command: String, error: ServiceError, json: bool) -> (presentation:
    Presentation)
    ensures
        presentation@ == release_presentation(command@, error.code@, error.message@, json),
{
    if json {
        Presentation {
            stdout: no_lines(),
            stderr: no_lines(),
            document: Some(error_envelope(command, None, None, error)),
            exit_code: EXIT_OPERATIONAL,
        }
    } else {
        Presentation {
            stdout: no_lines(),
            stderr: one_line(join2("error: ", error.message.as_str())),
            document: None,
            exit_code: EXIT_OPERATIONAL,
        }
    }
}

/// A command that asks for a JSON document writes exactly one, and no line beside it.
pub proof fn lemma_json_is_alone(
    invocation: ServiceInvocation,
    release: ReleaseBuildStatus,
    result: Result<ExecutionModel, (Seq<char>, Seq<char>)>,
)
    requires
        invocation.is_json(),
    ensures
        presented(invocation, release, result).document is Some,
        presented(invocation, release, result).stdout.len() == 0,
        presented(invocation, release, result).stderr.len() == 0,
{
}

} // verus!
