//! The course of a command, from its arguments to what is written.
//!
//! The functions here decide; the one who calls them reads the release binding, works on the
//! project and hands back what came of it.

use vstd::prelude::*;
use vstd::string::*;

use crate::cargo_service::{
    asks_for_json, classify_manager_error, classify_release_error, classify_render_error,
    command_hint, created_execution, diff_execution, doctor_execution, finish_mutation,
    format_version, hinted_command, inspection_identity, inspects_with, manager_code,
    mutation_execution, present_line, present_release_error, present_syntax_error,
    release_presentation, render_code, report_created, report_diff, report_doctor, result_value,
    syntax_presentation, unavailable_execution, unbound_inspection, version_line, ExecutionModel,
    Presentation, PresentationModel, ServiceError, ServiceExecution, ServiceInvocation,
    EXIT_SUCCESS, EXIT_SYNTAX,
};
use crate::management::{DoctorReport, ManagementPlan, ManagerError};
use crate::release::{ReleaseBuildStatus, ReleaseIdentity, ReleaseIdentityError};
use crate::render::{RenderError, RenderOutcome};
use crate::sealing::SealedManagementPlan;
use crate::text::{join2, texts};

verus! {

/// What the arguments of a command were read as.
#[derive(Debug)]
pub enum ParsedArguments {
    /// A text that was asked for, such as the help.
    Shown(String),
    /// Not a command, and why.
    Rejected(String),
    /// A command.
    Command {
        /// Whether the version is asked for.
        version: bool,
        /// The command that is asked for.
        invocation: Option<ServiceInvocation>,
    },
}

/// A command whose arguments were read.
#[derive(Debug)]
pub struct ParsedCommand {
    /// Whether the version is asked for.
    pub version: bool,
    /// The command that is asked for.
    pub invocation: Option<ServiceInvocation>,
    /// Whether an argument asks for a JSON document.
    pub json: bool,
}

/// What a command writes without having run.
#[derive(Debug)]
pub enum CliOutput {
    /// Texts as they are.
    Verbatim {
        /// Text of the standard output.
        stdout: String,
        /// Text of the standard error output.
        stderr: String,
        /// Exit code.
        exit_code: u8,
    },
    /// Lines or a document.
    Presented(Presentation),
}

/// The value of what a command writes without having run.
pub enum OutputModel {
    /// Texts as they are.
    Verbatim(Seq<char>, Seq<char>, u8),
    /// Lines or a document.
    Presented(PresentationModel),
}

impl CliOutput {
    /// The value of this output.
    pub open spec fn view(&self) -> OutputModel {
        match *self {
            CliOutput::Verbatim { stdout, stderr, exit_code } => OutputModel::Verbatim(
                stdout@,
                stderr@,
                exit_code,
            ),
            CliOutput::Presented(presentation) => OutputModel::Presented(presentation@),
        }
    }
}

/// The text at `at`, where there is one.
pub open spec fn argument_at(arguments: Seq<Seq<char>>, at: int) -> Option<Seq<char>> {
    if at < arguments.len() {
        Some(arguments[at])
    } else {
        None
    }
}

/// Whether `--json` is among arguments.
pub open spec fn wants_document(arguments: Seq<Seq<char>>) -> bool {
    arguments.contains("--json"@)
}

/// Decides what follows from what normalized arguments were read as: a command, or something to
/// write at once. No command runs on arguments that do not parse.
pub fn after_parsing(normalized: &Vec<String>, parsed: ParsedArguments) -> (result: Result<
    ParsedCommand,
    CliOutput,
>)
    ensures
        ({
            let json = wants_document(texts(normalized@));
            match (parsed, result) {
                (ParsedArguments::Shown(text), Err(output)) => output@ == OutputModel::Verbatim(
                    text@,
                    ""@,
                    EXIT_SUCCESS,
                ),
                (ParsedArguments::Rejected(message), Err(output)) => output@ == if json {
                    OutputModel::Presented(
                        syntax_presentation(
                            hinted_command(
                                argument_at(texts(normalized@), 0),
                                argument_at(texts(normalized@), 1),
                            ),
                            message@,
                        ),
                    )
                } else {
                    OutputModel::Verbatim(""@, message@, EXIT_SYNTAX)
                },
                (ParsedArguments::Command { version, invocation }, Ok(command)) => command == (
                ParsedCommand { version, invocation, json }),
                _ => false,
            }
        }),
{
    let json = asks_for_json(normalized);
    match parsed {
        ParsedArguments::Shown(text) => Err(
            CliOutput::Verbatim { stdout: text, stderr: "".to_owned(), exit_code: EXIT_SUCCESS },
        ),
        ParsedArguments::Rejected(message) => {
            if json {
                let ghost all = texts(normalized@);
                let first = if normalized.len() > 0 {
                    assert(all[0] == normalized@[0]@);
                    Some(normalized[0].as_str())
                } else {
                    None
                };
                let second = if normalized.len() > 1 {
                    assert(all[1] == normalized@[1]@);
                    Some(normalized[1].as_str())
                } else {
                    None
                };
                Err(CliOutput::Presented(present_syntax_error(command_hint(first, second), message)))
            } else {
                Err(
                    CliOutput::Verbatim {
                        stdout: "".to_owned(),
                        stderr: message,
                        exit_code: EXIT_SYNTAX,
                    },
                )
            }
        },
        ParsedArguments::Command { version, invocation } => Ok(
            ParsedCommand { version, invocation, json },
        ),
    }
}

/// The name under which a command is reported whose build is not bound to a release.
pub open spec fn reported_name(invocation: Option<ServiceInvocation>) -> Seq<char> {
    match invocation {
        Some(command) => command.name_text(),
        None => "version"@,
    }
}

/// Decides what follows from the release binding of the build: a command runs with it, or
/// something is written at once.
pub fn after_release(
    command: ParsedCommand,
    release: Result<ReleaseBuildStatus, ServiceError>,
) -> (result: Result<(ServiceInvocation, ReleaseBuildStatus), CliOutput>)
    ensures
        match (release, result) {
            (Err(error), Err(output)) => output@ == OutputModel::Presented(
                release_presentation(
                    reported_name(command.invocation),
                    error.code@,
                    error.message@,
                    command.json,
                ),
            ),
            (Ok(status), Err(output)) => if command.version {
                output@ == OutputModel::Presented(
                    PresentationModel {
                        stdout: seq![version_line(status)],
                        stderr: Seq::empty(),
                        document: None,
                        exit_code: EXIT_SUCCESS,
                    },
                )
            } else {
                command.invocation is None && output@ == OutputModel::Presented(
                    PresentationModel {
                        stdout: Seq::empty(),
                        stderr: seq!["error: a command is required"@],
                        document: None,
                        exit_code: EXIT_SYNTAX,
                    },
                )
            },
            (Ok(status), Ok(run)) => !command.version && command.invocation == Some(run.0)
                && status == run.1,
            _ => false,
        },
{
    let status = match release {
        Ok(status) => status,
        Err(error) => {
            let name = match &command.invocation {
                Some(invocation) => invocation.command_name().to_owned(),
                None => "version".to_owned(),
            };
            return Err(CliOutput::Presented(present_release_error(name, error, command.json)));
        },
    };
    if command.version {
        let line = format_version(&status);
        return Err(CliOutput::Presented(present_line(line, false, EXIT_SUCCESS)));
    }
    match command.invocation {
        Some(invocation) => Ok((invocation, status)),
        None => Err(
            CliOutput::Presented(
                present_line("error: a command is required".to_owned(), true, EXIT_SYNTAX),
            ),
        ),
    }
}

/// How a mutation is reported, and how it is to be made.
#[derive(Clone, Copy, Debug)]
pub struct Mutation<'a> {
    /// Name in the report.
    pub label: &'a str,
    /// What the report calls the target.
    pub subject: &'a str,
    /// Whether the plan is not to be applied.
    pub dry_run: bool,
    /// Whether Cargo resolves from its caches only.
    pub offline: bool,
}

/// The value of a mutation.
pub struct MutationModel {
    /// Name in the report.
    pub label: Seq<char>,
    /// What the report calls the target.
    pub subject: Seq<char>,
    /// Whether the plan is not to be applied.
    pub dry_run: bool,
    /// Whether Cargo resolves from its caches only.
    pub offline: bool,
}

impl<'a> Mutation<'a> {
    /// The value of this mutation.
    pub open spec fn view(&self) -> MutationModel {
        MutationModel {
            label: self.label@,
            subject: self.subject@,
            dry_run: self.dry_run,
            offline: self.offline,
        }
    }
}

/// The mutation of an existing project that a command asks for, by a build of this version.
pub open spec fn mutation_model(invocation: ServiceInvocation, version: Seq<char>) -> Option<
    MutationModel,
> {
    match invocation {
        ServiceInvocation::Add(arguments) => Some(
            MutationModel {
                label: "add"@,
                subject: arguments.module@,
                dry_run: arguments.dry_run,
                offline: arguments.offline,
            },
        ),
        ServiceInvocation::Remove(arguments) => Some(
            MutationModel {
                label: "remove"@,
                subject: arguments.module@,
                dry_run: arguments.dry_run,
                offline: arguments.offline,
            },
        ),
        ServiceInvocation::ProfileSet(arguments) => Some(
            MutationModel {
                label: "profile set"@,
                subject: arguments.profile@,
                dry_run: arguments.dry_run,
                offline: arguments.offline,
            },
        ),
        ServiceInvocation::Update(arguments) => Some(
            MutationModel {
                label: "update"@,
                subject: version,
                dry_run: arguments.dry_run,
                offline: arguments.offline,
            },
        ),
        _ => None,
    }
}

/// Returns the mutation of an existing project that a command asks for.
pub fn mutation_of<'a>(invocation: &'a ServiceInvocation, version: &'a str) -> (mutation: Option<
    Mutation<'a>,
>)
    ensures
        match mutation {
            Some(found) => mutation_model(*invocation, version@) == Some(found@),
            None => mutation_model(*invocation, version@) is None,
        },
{
    match invocation {
        ServiceInvocation::Add(arguments) => Some(
            Mutation {
                label: "add",
                subject: arguments.module.as_str(),
                dry_run: arguments.dry_run,
                offline: arguments.offline,
            },
        ),
        ServiceInvocation::Remove(arguments) => Some(
            Mutation {
                label: "remove",
                subject: arguments.module.as_str(),
                dry_run: arguments.dry_run,
                offline: arguments.offline,
            },
        ),
        ServiceInvocation::ProfileSet(arguments) => Some(
            Mutation {
                label: "profile set",
                subject: arguments.profile.as_str(),
                dry_run: arguments.dry_run,
                offline: arguments.offline,
            },
        ),
        ServiceInvocation::Update(arguments) => Some(
            Mutation {
                label: "update",
                subject: version,
                dry_run: arguments.dry_run,
                offline: arguments.offline,
            },
        ),
        _ => None,
    }
}

/// Whether a command only inspects a project.
pub open spec fn is_inspection(invocation: ServiceInvocation) -> bool {
    invocation is Doctor || invocation is Diff
}

/// How a command begins.
#[derive(Debug)]
pub enum ExecutionStart {
    /// It works with this release.
    Work(ReleaseIdentity),
    /// It is finished.
    Finished(Result<ServiceExecution, ServiceError>),
}

/// Decides with which release a command works. A mutation needs that of a clean build; an
/// inspection falls back on the release that the project records.
pub fn begin_execution(
    invocation: &ServiceInvocation,
    release: &ReleaseBuildStatus,
    current: Result<ReleaseIdentity, ReleaseIdentityError>,
    recorded: Option<ReleaseIdentity>,
) -> (start: ExecutionStart)
    ensures
        match start {
            ExecutionStart::Work(identity) => if is_inspection(*invocation) {
                inspects_with(*release, recorded, Some(identity))
            } else {
                current == Ok::<ReleaseIdentity, ReleaseIdentityError>(identity)
            },
            ExecutionStart::Finished(Ok(execution)) => is_inspection(*invocation) && inspects_with(
                *release,
                recorded,
                None,
            ) && execution@ == unavailable_execution(invocation.name_text()),
            ExecutionStart::Finished(Err(error)) => !is_inspection(*invocation) && match current {
                Ok(_) => false,
                Err(failure) => error.message@ == failure.text() && error.code@ == (
                if failure is DirtyBuild {
                    "release-dirty"@
                } else {
                    "release-unbound"@
                }),
            },
        },
{
    let inspection = match invocation {
        ServiceInvocation::Doctor(_) => true,
        ServiceInvocation::Diff(_) => true,
        _ => false,
    };
    if inspection {
        match inspection_identity(release, recorded) {
            Some(identity) => ExecutionStart::Work(identity),
            None => ExecutionStart::Finished(Ok(unbound_inspection(invocation.command_name()))),
        }
    } else {
        match current {
            Ok(identity) => ExecutionStart::Work(identity),
            Err(error) => ExecutionStart::Finished(Err(classify_release_error(&error))),
        }
    }
}

/// The result of a manager's failure.
pub open spec fn manager_result(error: ManagerError, offline: bool) -> Result<
    ExecutionModel,
    (Seq<char>, Seq<char>),
> {
    Err((manager_code(error, offline), error.failure().text()))
}

/// The result of a plan that cannot be encoded.
pub open spec fn encoding_result(message: Seq<char>) -> Result<
    ExecutionModel,
    (Seq<char>, Seq<char>),
> {
    Err(("internal-error"@, "cannot encode plan: "@ + message))
}

fn encoding_error(message: &str) -> (error: ServiceError)
    ensures
        error.code@ == "internal-error"@,
        error.message@ == "cannot encode plan: "@ + message@,
{
    ServiceError::new("internal-error", join2("cannot encode plan: ", message))
}

/// Reports how the rendering of a new service went.
pub fn conclude_new(
    name: &str,
    profile: &str,
    project: &str,
    offline: bool,
    rendered: Result<RenderOutcome, RenderError>,
) -> (result: Result<ServiceExecution, ServiceError>)
    ensures
        result_value(result) == match rendered {
            Ok(outcome) => Ok::<ExecutionModel, (Seq<char>, Seq<char>)>(
                created_execution(name@, profile@, project@, outcome.files as nat),
            ),
            Err(error) => Err((render_code(error, offline), error.text())),
        },
{
    match rendered {
        Ok(outcome) => Ok(report_created(name, profile, project, outcome.files)),
        Err(error) => Err(classify_render_error(&error, offline)),
    }
}

/// Reports how a mutation went: it was sealed, its plan was encoded and, but for a dry run, it was
/// applied.
pub fn conclude_mutation(
    mutation: &Mutation,
    sealed: Result<SealedManagementPlan, ManagerError>,
    encoded: Result<String, String>,
    applied: Result<(), ManagerError>,
) -> (result: Result<ServiceExecution, ServiceError>)
    ensures
        result_value(result) == match sealed {
            Err(error) => manager_result(error, mutation.offline),
            Ok(plan) => match encoded {
                Err(message) => encoding_result(message@),
                Ok(text) => match applied {
                    Err(error) if !mutation.dry_run => manager_result(error, false),
                    _ => Ok(
                        mutation_execution(
                            plan.sealed(),
                            text@,
                            mutation.dry_run,
                            mutation.label@,
                            mutation.subject@,
                        ),
                    ),
                },
            },
        },
{
    let plan = match sealed {
        Ok(plan) => plan,
        Err(error) => {
            return Err(classify_manager_error(&error, mutation.offline));
        },
    };
    let text = match encoded {
        Ok(text) => text,
        Err(message) => {
            return Err(encoding_error(message.as_str()));
        },
    };
    if !mutation.dry_run {
        match applied {
            Ok(()) => {},
            Err(error) => {
                return Err(classify_manager_error(&error, false));
            },
        }
    }
    Ok(finish_mutation(&plan, text, mutation.dry_run, mutation.label, mutation.subject))
}

/// Reports how a diagnosis went.
pub fn conclude_doctor(
    diagnosed: Result<DoctorReport, ManagerError>,
    release: &ReleaseBuildStatus,
) -> (result: Result<ServiceExecution, ServiceError>)
    ensures
        result_value(result) == match diagnosed {
            Ok(report) => Ok::<ExecutionModel, (Seq<char>, Seq<char>)>(
                doctor_execution(report, *release),
            ),
            Err(error) => manager_result(error, false),
        },
{
    match diagnosed {
        Ok(report) => Ok(report_doctor(report, release)),
        Err(error) => Err(classify_manager_error(&error, false)),
    }
}

/// Reports how a reconciliation was planned.
pub fn conclude_diff(
    planned: Result<ManagementPlan, ManagerError>,
    encoded: Result<String, String>,
    release: &ReleaseBuildStatus,
) -> (result: Result<ServiceExecution, ServiceError>)
    ensures
        result_value(result) == match planned {
            Err(error) => manager_result(error, false),
            Ok(plan) => match encoded {
                Err(message) => encoding_result(message@),
                Ok(text) => Ok(diff_execution(plan, text@, *release)),
            },
        },
{
    let plan = match planned {
        Ok(plan) => plan,
        Err(error) => {
            return Err(classify_manager_error(&error, false));
        },
    };
    match encoded {
        Ok(text) => Ok(report_diff(&plan, text, release)),
        Err(message) => Err(encoding_error(message.as_str())),
    }
}

} // verus!
