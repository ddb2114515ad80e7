use omnius_generator::cargo_resolver::{
    begin_resolution, resolve_lockfile, validate_lockfile_inputs, CargoInvocation,
    CargoResolverError, CargoResolverRequest, ResolutionState, ResolutionStep, ResolverAction,
    ResolverEvent,
};
use omnius_generator::release::{ReleaseIdentity, CANONICAL_REPOSITORY};

const REVISION: &str = "0123456789abcdef0123456789abcdef01234567";

fn text(value: &str) -> String {
    value.to_owned()
}

fn release() -> ReleaseIdentity {
    ReleaseIdentity::new("0.3.0", CANONICAL_REPOSITORY, REVISION).expect("identity")
}

fn update() -> CargoResolverRequest {
    CargoResolverRequest::update_locked(text("old"), text("new"), release(), false)
}

fn lockfiles(candidate: &[u8], current: &[u8]) -> ResolverEvent {
    ResolverEvent::Lockfiles { candidate: Some(candidate.to_vec()), current: Some(current.to_vec()) }
}

#[test]
fn an_update_starts_from_the_current_lockfile() {
    let request = update();
    assert!(matches!(
        begin_resolution(&request, false),
        Ok(ResolutionStep::Continue {
            state: ResolutionState::Lockfiles,
            action: ResolverAction::InspectLockfiles,
        })
    ));
    let step = resolve_lockfile(&request, ResolutionState::Lockfiles, lockfiles(b"a", b"a"));
    assert!(matches!(
        step,
        Ok(ResolutionStep::Continue { state: ResolutionState::Current, .. })
    ));
    assert_eq!(
        resolve_lockfile(&request, ResolutionState::Lockfiles, lockfiles(b"a", b"b")),
        Err(CargoResolverError::CandidateLockMismatch {
            current: text("old/Cargo.lock"),
            candidate: text("new/Cargo.lock"),
        })
    );
}

#[test]
fn a_new_project_has_no_lockfile() {
    let request = CargoResolverRequest::new_project(text("new"), release(), true);
    let some = Some(Vec::new());
    assert_eq!(validate_lockfile_inputs(&request, &None, &None), Ok(()));
    assert_eq!(
        validate_lockfile_inputs(&request, &some, &None),
        Err(CargoResolverError::UnexpectedLockfile { path: text("new/Cargo.lock") })
    );
    let slashed = CargoResolverRequest::new_project(text("new/"), release(), true);
    assert_eq!(
        validate_lockfile_inputs(&slashed, &some, &None),
        Err(CargoResolverError::UnexpectedLockfile { path: text("new/Cargo.lock") })
    );
    let event = ResolverEvent::Lockfiles { candidate: None, current: None };
    let step = resolve_lockfile(&request, ResolutionState::Lockfiles, event).expect("step");
    let ResolutionStep::Continue { state, action } = step else {
        panic!("the candidate is resolved next");
    };
    assert_eq!(state, ResolutionState::Update { before: None });
    assert_eq!(
        action,
        ResolverAction::ResolveCandidate {
            arguments: vec![text("generate-lockfile"), text("--offline")],
        }
    );
}

#[test]
fn one_project_cannot_be_both() {
    let error = begin_resolution(&update(), true).expect_err("one place");
    assert!(error.message().starts_with("invalid Cargo resolver request: current and candidate"));
}

#[test]
fn arguments_are_shown_quoted() {
    let invocation = CargoInvocation {
        program: text("cargo"),
        arguments: vec![text("update"), text("a b"), text("it's \"so\"\n")],
    };
    assert_eq!(invocation.message(), r#"cargo "update" "a b" "it's \"so\"\n""#);
}
