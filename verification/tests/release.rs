use omnius_generator::build_support::{
    porcelain_status_is_dirty, resolve_build_binding, BuildBinding, BuildBindingError, GitSnapshot,
};
use omnius_generator::release::{
    status_from_build_binding, BuildMetadata, ReleaseBuildStatus, ReleaseIdentity,
    ReleaseIdentityError, CANONICAL_REPOSITORY, GENERATOR_VERSION,
};
use omnius_generator::revision::is_valid_release_revision;

const REVISION: &str = "0123456789abcdef0123456789abcdef01234567";

fn metadata(revision: Option<&str>, dirty: Option<&str>) -> BuildMetadata {
    BuildMetadata {
        version: GENERATOR_VERSION.to_owned(),
        repository: CANONICAL_REPOSITORY.to_owned(),
        revision: revision.map(str::to_owned),
        dirty: dirty.map(str::to_owned),
    }
}

#[test]
fn release_identity_serde_should_be_strict_and_validated() {
    let identity = ReleaseIdentity::new(GENERATOR_VERSION, CANONICAL_REPOSITORY, REVISION)
        .expect("identity should be valid");
    let again =
        ReleaseIdentity::new(identity.version(), identity.repository(), identity.revision())
            .expect("identity should be valid");
    assert_eq!(again, identity);
    assert!(ReleaseIdentity::new("not-semver", CANONICAL_REPOSITORY, REVISION).is_err());
    assert!(ReleaseIdentity::new(GENERATOR_VERSION, "ssh://example", REVISION).is_err());
    assert!(ReleaseIdentity::new(
        GENERATOR_VERSION,
        CANONICAL_REPOSITORY,
        &REVISION.to_ascii_uppercase()
    )
    .is_err());
}

#[test]
fn status_should_preserve_a_dirty_revision_without_yielding_an_identity() {
    let status = status_from_build_binding(&metadata(Some(REVISION), Some("true")))
        .expect("deterministic binding should be valid");
    assert_eq!(status, ReleaseBuildStatus::Dirty { revision: REVISION.to_owned() });
}

#[test]
fn status_should_represent_a_packaged_unbound_build() {
    let status = status_from_build_binding(&metadata(None, Some("false")))
        .expect("deterministic binding should be valid");
    assert_eq!(status, ReleaseBuildStatus::Unbound);
}

#[test]
fn status_should_reject_an_inconsistent_binding() {
    let error = status_from_build_binding(&metadata(Some(REVISION), None))
        .expect_err("a bound revision requires an explicit dirty marker");
    assert_eq!(error, ReleaseIdentityError::InvalidBuildBinding);
}

#[test]
fn each_part_of_an_identity_has_its_own_error() {
    let version = ReleaseIdentity::new("1.0", CANONICAL_REPOSITORY, REVISION).expect_err("version");
    assert_eq!(version, ReleaseIdentityError::InvalidVersion("1.0".to_owned()));
    let repository =
        ReleaseIdentity::new("1.0.0", "https://example.com", REVISION).expect_err("repository");
    assert!(matches!(
        &repository,
        ReleaseIdentityError::InvalidRepository { actual, .. } if actual == "https://example.com"
    ));
    let revision =
        ReleaseIdentity::new("1.0.0", CANONICAL_REPOSITORY, "abc").expect_err("revision");
    assert_eq!(
        revision.message(),
        "release revision must be exactly 40 lowercase hexadecimal characters, got `abc`"
    );
}

#[test]
fn only_a_clean_build_has_a_current_identity() {
    assert!(ReleaseIdentity::current(&metadata(Some(REVISION), Some("false"))).is_ok());
    assert_eq!(
        ReleaseIdentity::current(&metadata(Some(REVISION), Some("true"))),
        Err(ReleaseIdentityError::DirtyBuild { revision: REVISION.to_owned() })
    );
    assert_eq!(
        ReleaseIdentity::current(&metadata(None, None)),
        Err(ReleaseIdentityError::UnboundBuild)
    );
}

#[test]
fn revisions_are_forty_lowercase_digits() {
    assert!(is_valid_release_revision(REVISION));
    assert!(!is_valid_release_revision(&REVISION[1..]));
    assert!(!is_valid_release_revision(&REVISION.replace('a', "g")));
}

#[test]
fn a_build_binding_must_agree_with_its_checkout() {
    let clean = GitSnapshot { revision: REVISION.to_owned(), dirty: false };
    assert_eq!(
        resolve_build_binding(None, Some(&clean)),
        Ok(BuildBinding::Bound { revision: REVISION.to_owned(), dirty: false })
    );
    assert_eq!(resolve_build_binding(None, None), Ok(BuildBinding::Unbound));
    let other = "1123456789abcdef0123456789abcdef01234567";
    assert_eq!(
        resolve_build_binding(Some(other), Some(&clean)),
        Err(BuildBindingError::RevisionMismatch {
            explicit: other.to_owned(),
            git: REVISION.to_owned(),
        })
    );
    assert_eq!(
        resolve_build_binding(Some("short"), None),
        Err(BuildBindingError::InvalidExplicitRevision("short".to_owned()))
    );
    let bad = GitSnapshot { revision: "HEAD".to_owned(), dirty: true };
    assert_eq!(
        resolve_build_binding(Some(REVISION), Some(&bad)),
        Err(BuildBindingError::InvalidGitRevision("HEAD".to_owned()))
    );
    assert!(porcelain_status_is_dirty(b"?? new-file"));
    assert!(!porcelain_status_is_dirty(b""));
}
