use omnius_generator::cargo_graph::CargoGraphError;
use omnius_generator::cargo_resolver::CargoResolverError;
use omnius_generator::cargo_service::{
    asks_for_json, build_diagnostic, classify_manager_error, classify_release_error,
    classify_render_error, command_hint, format_version, inspection_identity, new_destination,
    normalize_argv, present, present_release_error, present_syntax_error, release_json,
    report_created, report_diff, report_doctor, unbound_inspection, ModuleInvocation,
    ProfileSetInvocation, ProjectInvocation, ProjectMutationInvocation, ServiceError,
    ServiceExecution, ServiceInvocation, EXIT_OPERATIONAL, EXIT_SUCCESS, EXIT_SYNTAX,
};
use omnius_generator::catalog::KIT_VERSION;
use omnius_generator::management::{
    Diagnostic, DoctorReport, ManagementPlan, ManagerError, PlanAction,
};
use omnius_generator::release::{
    ReleaseBuildStatus, ReleaseIdentity, ReleaseIdentityError, CANONICAL_REPOSITORY,
    GENERATOR_VERSION,
};
use omnius_generator::render::{RenderError, RenderOutcome};
use omnius_generator::sealing::{begin_seal, SealCourse, SealKind};
use omnius_generator::ordered::Sorted;
use omnius_generator::service_run::{
    after_parsing, after_release, begin_execution, conclude_diff, conclude_doctor,
    conclude_mutation, conclude_new, mutation_of, CliOutput, ExecutionStart, ParsedArguments,
};

const REVISION: &str = "0123456789abcdef0123456789abcdef01234567";

fn text(value: &str) -> String {
    value.to_owned()
}

fn arguments(values: &[&str]) -> Vec<String> {
    values.iter().map(|value| text(value)).collect()
}

fn list_of(values: &[&str]) -> Vec<String> {
    arguments(values)
}

fn clean() -> ReleaseBuildStatus {
    ReleaseBuildStatus::Clean(
        ReleaseIdentity::new(GENERATOR_VERSION, CANONICAL_REPOSITORY, REVISION)
            .expect("test identity is valid"),
    )
}

fn profile_set(json: bool) -> ServiceInvocation {
    ServiceInvocation::ProfileSet(ProfileSetInvocation {
        profile: text("minimal"),
        project: text("."),
        dry_run: true,
        offline: false,
        json,
    })
}

fn planned() -> ServiceExecution {
    ServiceExecution {
        status: "planned",
        plan: Some(text("{\"plan_id\":\"test-plan\"}")),
        diagnostics: vec![],
        human_output: vec![text("planned test change")],
        exit_code: EXIT_SUCCESS,
    }
}

fn plan(id: &str) -> ManagementPlan {
    ManagementPlan {
        schema_version: 1,
        plan_id: text(id),
        action: PlanAction::Diff,
        requested_module: None,
        target_version: None,
        added_modules: vec![],
        removed_modules: vec![],
        operations: vec![],
        preserved_paths: vec![],
    }
}

#[test]
fn direct_and_cargo_prefixed_argv_normalize_identically() {
    let direct = normalize_argv(&arguments(&["cargo-service", "add", "postgres", "--dry-run"]));
    let cargo =
        normalize_argv(&arguments(&["cargo-service", "service", "add", "postgres", "--dry-run"]));
    assert_eq!(direct, cargo);
    assert_eq!(direct, arguments(&["add", "postgres", "--dry-run"]));
}

#[test]
fn strips_exactly_one_cargo_service_token() {
    let normalized =
        normalize_argv(&arguments(&["cargo-service", "service", "service", "doctor"]));
    assert_eq!(normalized, arguments(&["service", "doctor"]));
}

#[test]
fn canonical_defaults_are_applied_without_touching_production() {
    assert_eq!(new_destination("short-link-service", None), "./short-link-service");
    assert_eq!(new_destination("short-link-service", Some(text("elsewhere"))), "elsewhere");
    let module = || ModuleInvocation {
        module: text("postgres"),
        project: text("."),
        dry_run: false,
        offline: false,
        json: false,
    };
    let invocations = [
        ServiceInvocation::Add(module()),
        ServiceInvocation::Remove(module()),
        profile_set(false),
        ServiceInvocation::Update(ProjectMutationInvocation {
            project: text("."),
            dry_run: false,
            offline: false,
            json: false,
        }),
        ServiceInvocation::Doctor(ProjectInvocation { project: text("."), json: false }),
        ServiceInvocation::Diff(ProjectInvocation { project: text("."), json: false }),
    ];
    let names = invocations.iter().map(ServiceInvocation::command_name).collect::<Vec<_>>();
    assert_eq!(names, ["add", "remove", "profile-set", "update", "doctor", "diff"]);
    assert!(invocations.iter().all(|invocation| invocation.project() == "."));
    assert!(invocations.iter().all(|invocation| !invocation.wants_json()));
}

#[test]
fn json_success_has_exact_top_level_shape_and_no_stderr_prose() {
    let presentation = present(&profile_set(true), &clean(), Ok(planned()));
    assert_eq!(presentation.exit_code, EXIT_SUCCESS);
    assert!(presentation.stdout.is_empty());
    assert!(presentation.stderr.is_empty());
    let document = presentation.document.expect("one document");
    assert_eq!(document.schema_version, 1);
    assert_eq!(document.command, "profile-set");
    assert_eq!(document.status, "planned");
    assert_eq!(document.project.as_deref(), Some("."));
    assert_eq!(document.release.status, "clean");
    assert_eq!(document.plan.as_deref(), Some("{\"plan_id\":\"test-plan\"}"));
    assert!(document.diagnostics.is_empty());
    assert!(document.error.is_none());
}

#[test]
fn json_syntax_error_is_one_document_and_exit_two() {
    let normalized = normalize_argv(&arguments(&["cargo-service", "upgrade", "--json"]));
    assert!(asks_for_json(&normalized));
    let command = command_hint(
        normalized.first().map(String::as_str),
        normalized.get(1).map(String::as_str),
    );
    assert_eq!(command, "upgrade");
    let presentation = present_syntax_error(command, text("unrecognized subcommand"));
    assert_eq!(presentation.exit_code, EXIT_SYNTAX);
    assert!(presentation.stdout.is_empty());
    assert!(presentation.stderr.is_empty());
    let document = presentation.document.expect("one document");
    assert_eq!(document.error.expect("error").code, "invalid-arguments");
    assert_eq!(document.release.status, "unbound");
    assert!(document.release.revision.is_none());
}

#[test]
fn operational_failure_is_exit_one_with_stable_json_code() {
    let failure = || Err(ServiceError::new("stale-plan", text("project changed")));
    let presentation = present(&profile_set(true), &clean(), failure());
    assert_eq!(presentation.exit_code, EXIT_OPERATIONAL);
    assert!(presentation.stderr.is_empty());
    let document = presentation.document.expect("one document");
    assert_eq!(document.status, "error");
    assert_eq!(document.error.expect("error").code, "stale-plan");
    let plain = present(&profile_set(false), &clean(), failure());
    assert_eq!(plain.stderr, arguments(&["error: project changed"]));
    assert!(plain.document.is_none());
}

#[test]
fn version_format_reports_clean_dirty_and_unbound_builds() {
    assert_eq!(
        format_version(&clean()),
        format!("cargo-service {GENERATOR_VERSION} (kit {KIT_VERSION}, {REVISION})")
    );
    assert_eq!(
        format_version(&ReleaseBuildStatus::Dirty { revision: REVISION.to_owned() }),
        format!("cargo-service {GENERATOR_VERSION} (kit {KIT_VERSION}, {REVISION}, dirty)")
    );
    assert_eq!(
        format_version(&ReleaseBuildStatus::Unbound),
        format!("cargo-service {GENERATOR_VERSION} (kit {KIT_VERSION}, unbound)")
    );
}

#[test]
fn hints_name_commands_and_not_options() {
    assert_eq!(command_hint(Some("profile"), Some("set")), "profile-set");
    assert_eq!(command_hint(Some("profile"), None), "profile");
    assert_eq!(command_hint(Some("--json"), None), "unknown");
    assert_eq!(command_hint(None, None), "unknown");
    assert_eq!(command_hint(Some(""), None), "");
}

#[test]
fn findings_are_lines_of_the_error_output() {
    let mut execution = planned();
    execution.diagnostics = vec![
        Diagnostic { code: text("a"), path: Some(text("p")), message: text("m") },
        Diagnostic { code: text("b"), path: None, message: text("n") },
    ];
    let presentation = present(&profile_set(false), &clean(), Ok(execution));
    assert_eq!(presentation.stdout, arguments(&["planned test change"]));
    assert_eq!(presentation.stderr, arguments(&["a [p]: m", "b: n"]));
}

#[test]
fn a_failed_release_binding_is_operational() {
    let error = || ServiceError::new("release-dirty", text("dirty"));
    let plain = present_release_error(text("add"), error(), false);
    assert_eq!(plain.exit_code, EXIT_OPERATIONAL);
    assert_eq!(plain.stderr, arguments(&["error: dirty"]));
    let json = present_release_error(text("add"), error(), true);
    assert_eq!(json.document.expect("document").error.expect("error").code, "release-dirty");
}

#[test]
fn resolver_failures_are_classified() {
    let graph = |error| ManagerError::Resolver(CargoResolverError::Graph(error));
    let mismatch = graph(CargoGraphError::OmniusSourceMismatch {
        package: text("kit"),
        expected: text("git+x"),
        actual: None,
    });
    assert_eq!(classify_manager_error(&mismatch, false).code, "lock-source-mismatch");
    let scope = graph(CargoGraphError::OutOfScopeNodeChange { package: text("app") });
    assert_eq!(classify_manager_error(&scope, false).code, "lock-diff-out-of-scope");
    let request = ManagerError::Resolver(CargoResolverError::InvalidRequest(text("no")));
    assert_eq!(classify_manager_error(&request, true).code, "cargo-resolution-failed");
}

#[test]
fn manager_failures_are_classified() {
    let finding = |code: &str| Diagnostic { code: text(code), path: None, message: text("m") };
    let code = |error: ManagerError| classify_manager_error(&error, false).code;
    assert_eq!(code(ManagerError::StalePlan(text("x"))), "stale-plan");
    assert_eq!(
        code(ManagerError::Preflight(vec![finding("release-mismatch"), finding("source-override")])),
        "source-override"
    );
    assert_eq!(
        code(ManagerError::Preflight(vec![finding("release-mismatch")])),
        "release-mismatch"
    );
    assert_eq!(code(ManagerError::Preflight(vec![finding("other")])), "invalid-project");
    assert_eq!(
        code(ManagerError::InvalidProject(text("legacy baseline differs"))),
        "legacy-baseline-mismatch"
    );
    assert_eq!(code(ManagerError::Journal(text("x"))), "invalid-project");
    let message = classify_manager_error(
        &ManagerError::Preflight(vec![finding("a"), finding("b")]),
        false,
    )
    .message;
    assert_eq!(message, "project preflight failed; a: m; b: m");
}

#[test]
fn render_and_release_failures_are_classified() {
    assert_eq!(
        classify_render_error(&RenderError::DestinationExists(text("x")), false).code,
        "destination-exists"
    );
    assert_eq!(
        classify_render_error(&RenderError::Provenance(text("x")), false).code,
        "source-override"
    );
    assert_eq!(
        classify_render_error(&RenderError::InvalidServiceName, false).code,
        "invalid-project"
    );
    let dirty = ReleaseIdentityError::DirtyBuild { revision: text(REVISION) };
    assert_eq!(classify_release_error(&dirty).code, "release-dirty");
    assert_eq!(
        classify_release_error(&ReleaseIdentityError::UnboundBuild).code,
        "release-unbound"
    );
}

#[test]
fn inspections_report_their_build() {
    let healthy = || DoctorReport { schema_version: 1, healthy: true, diagnostics: vec![] };
    let report = report_doctor(healthy(), &clean());
    assert_eq!(report.status, "clean");
    assert_eq!(report.exit_code, EXIT_SUCCESS);
    let unbound = report_doctor(healthy(), &ReleaseBuildStatus::Unbound);
    assert_eq!(unbound.status, "unhealthy");
    assert_eq!(unbound.exit_code, EXIT_OPERATIONAL);
    assert_eq!(unbound.diagnostics[0].code, "release-unbound");
    assert_eq!(build_diagnostic(&clean()).len(), 0);
    let diff = report_diff(&plan("p1"), text("{}"), &clean());
    assert_eq!(diff.status, "clean");
    assert_eq!(
        diff.human_output,
        arguments(&["service diff: no changes (plan p1, 0 file operation(s))"])
    );
    assert_eq!(unbound_inspection("diff").status, "unavailable");
    let created = report_created("name", "api", "./name", 12);
    assert_eq!(created.plan.as_deref(), Some("{\"rendered_files\":12}"));
    assert_eq!(
        created.human_output,
        arguments(&["created service `name` with profile `api` at ./name"])
    );
}

#[test]
fn an_unbound_build_goes_by_the_recorded_release() {
    let identity = || {
        ReleaseIdentity::new("9.9.9", CANONICAL_REPOSITORY, REVISION).expect("identity")
    };
    let recorded = inspection_identity(&ReleaseBuildStatus::Unbound, Some(identity()));
    assert_eq!(recorded.expect("recorded").version(), "9.9.9");
    assert!(inspection_identity(&ReleaseBuildStatus::Unbound, None).is_none());
    let dirty = ReleaseBuildStatus::Dirty { revision: text(REVISION) };
    let own = inspection_identity(&dirty, Some(identity())).expect("own");
    assert_eq!(own.version(), GENERATOR_VERSION);
    assert_eq!(release_json(Some(&dirty)).status, "dirty");
}

#[test]
fn removed_upgrade_and_flags_are_syntax_errors_before_runner_execution() {
    for arguments in [
        vec!["cargo-service", "upgrade"],
        vec!["cargo-service", "add", "postgres", "--target", "0.2.0"],
    ] {
        let normalized = normalize_argv(&list_of(&arguments));
        let parsed = ParsedArguments::Rejected(text("unexpected argument"));
        match after_parsing(&normalized, parsed) {
            Err(CliOutput::Verbatim { stdout, stderr, exit_code }) => {
                assert_eq!((stdout.as_str(), stderr.as_str()), ("", "unexpected argument"));
                assert_eq!(exit_code, EXIT_SYNTAX);
            }
            other => panic!("unexpected {other:?}"),
        }
    }
}

#[test]
fn version_and_help_do_not_execute_a_command() {
    let help = after_parsing(&arguments(&["--help"]), ParsedArguments::Shown(text("help")));
    assert!(matches!(
        help,
        Err(CliOutput::Verbatim { ref stdout, exit_code: EXIT_SUCCESS, .. }) if stdout == "help"
    ));
    let version = || ParsedArguments::Command { version: true, invocation: None };
    let command = after_parsing(&arguments(&["--version"]), version()).expect("command");
    match after_release(command, Ok(clean())) {
        Err(CliOutput::Presented(presentation)) => {
            assert_eq!(presentation.stdout, vec![format_version(&clean())]);
            assert_eq!(presentation.exit_code, EXIT_SUCCESS);
        }
        other => panic!("unexpected {other:?}"),
    }
    let empty = ParsedArguments::Command { version: false, invocation: None };
    let command = after_parsing(&arguments(&[]), empty).expect("command");
    match after_release(command, Ok(clean())) {
        Err(CliOutput::Presented(presentation)) => {
            assert_eq!(presentation.stderr, arguments(&["error: a command is required"]));
            assert_eq!(presentation.exit_code, EXIT_SYNTAX);
        }
        other => panic!("unexpected {other:?}"),
    }
}

#[test]
fn commands_run_with_the_release_of_the_build() {
    let parsed =
        ParsedArguments::Command { version: false, invocation: Some(profile_set(true)) };
    let command = after_parsing(&arguments(&["profile", "set", "minimal", "--json"]), parsed)
        .expect("command");
    assert!(command.json);
    let (invocation, release) = after_release(command, Ok(clean())).expect("run");
    let identity = || {
        ReleaseIdentity::new("0.3.0", CANONICAL_REPOSITORY, REVISION).expect("identity")
    };
    let start = begin_execution(&invocation, &release, Ok(identity()), None);
    assert!(matches!(start, ExecutionStart::Work(ref found) if found.version() == "0.3.0"));
    let unbound = Err(ReleaseIdentityError::UnboundBuild);
    let start = begin_execution(&invocation, &release, unbound, Some(identity()));
    assert!(matches!(
        start,
        ExecutionStart::Finished(Err(ref error)) if error.code == "release-unbound"
    ));
    let doctor = ServiceInvocation::Doctor(ProjectInvocation { project: text("."), json: false });
    let unbound = || Err(ReleaseIdentityError::UnboundBuild);
    let start = begin_execution(&doctor, &ReleaseBuildStatus::Unbound, unbound(), Some(identity()));
    assert!(matches!(start, ExecutionStart::Work(_)));
    let start = begin_execution(&doctor, &ReleaseBuildStatus::Unbound, unbound(), None);
    assert!(matches!(
        start,
        ExecutionStart::Finished(Ok(ref execution)) if execution.status == "unavailable"
    ));
}

#[test]
fn results_are_concluded() {
    let invocation = profile_set(false);
    let mutation = mutation_of(&invocation, "0.3.0").expect("mutation");
    assert_eq!((mutation.label, mutation.subject), ("profile set", "minimal"));
    assert!(mutation.dry_run);
    let sealed = || match begin_seal(plan("p2"), &Sorted::new(), SealKind::Change) {
        Ok(SealCourse::Unchanged(sealed)) => Ok(sealed),
        _ => panic!("a plan without steps is sealed"),
    };
    let failed = || Err(ManagerError::StalePlan(text("x")));
    let execution = conclude_mutation(&mutation, sealed(), Ok(text("{}")), failed())
        .expect("a dry run is not applied");
    assert_eq!(execution.status, "noop");
    assert_eq!(
        execution.human_output,
        arguments(&["service profile set: no changes (plan p2, 0 file operation(s)); target `minimal`"])
    );
    let error = conclude_mutation(&mutation, sealed(), Err(text("bad")), Ok(()))
        .expect_err("encoding");
    assert_eq!((error.code, error.message.as_str()), ("internal-error", "cannot encode plan: bad"));
    let stale = Err(ManagerError::StalePlan(text("x")));
    assert_eq!(
        conclude_mutation(&mutation, stale, Ok(text("{}")), Ok(())).expect_err("stale").code,
        "stale-plan"
    );
    let doctor = ServiceInvocation::Doctor(ProjectInvocation { project: text("."), json: false });
    assert!(mutation_of(&doctor, "0.3.0").is_none());
    assert!(conclude_doctor(Err(ManagerError::Journal(text("x"))), &clean()).is_err());
    assert_eq!(
        conclude_diff(Ok(plan("p")), Ok(text("{}")), &clean()).expect("diff").status,
        "clean"
    );
    let created =
        conclude_new("name", "api", "./name", false, Ok(RenderOutcome { files: 3 })).expect("new");
    assert_eq!(created.status, "created");
    let refused = conclude_new("n", "api", "./n", false, Err(RenderError::InvalidServiceName));
    assert_eq!(refused.expect_err("name").code, "invalid-project");
}
