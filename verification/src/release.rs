//! Release identities and the release binding of a build.

use vstd::prelude::*;
use vstd::string::*;

use crate::revision::{is_release_revision, is_valid_release_revision};
use crate::text::{join3, join5, same_text};

verus! {

/// Canonical source repository for every Omnius release identity.
pub const CANONICAL_REPOSITORY: &'static str = "https://github.com/bmanturner/omnius.git";

/// Version of the generator package.
pub const GENERATOR_VERSION: &'static str = "0.1.0";

/// Whether a string is a semantic version.
pub uninterp spec fn is_semantic_version(text: Seq<char>) -> bool;

/// Calls `semver::Version::parse`; whether it succeeds depends on `text` alone.
#[verifier::external_body]
fn parses_as_version(text: &str) -> (valid: bool)
    ensures
        valid == is_semantic_version(text@),
{
    semver::Version::parse(text).is_ok()
}

/// The value of a release identity.
pub struct ReleaseModel {
    /// Package version.
    pub version: Seq<char>,
    /// Source repository.
    pub repository: Seq<char>,
    /// Commit revision.
    pub revision: Seq<char>,
}

impl ReleaseModel {
    /// Whether the value identifies a reproducible release.
    pub open spec fn is_valid(self) -> bool {
        &&& is_semantic_version(self.version)
        &&& self.repository == CANONICAL_REPOSITORY@
        &&& is_release_revision(self.revision)
    }
}

/// Immutable identity of one clean, reproducible Omnius release.
#[derive(Debug, PartialEq, Eq)]
pub struct ReleaseIdentity {
    version: String,
    repository: String,
    revision: String,
}

/// Release metadata or build-binding validation failure.
#[derive(Debug, PartialEq, Eq)]
pub enum ReleaseIdentityError {
    /// The supplied version is not a valid semantic version.
    InvalidVersion(String),
    /// The supplied repository is not the canonical HTTPS repository.
    InvalidRepository {
        /// Required canonical repository.
        expected: &'static str,
        /// Supplied repository.
        actual: String,
    },
    /// The revision is not exactly 40 lowercase ASCII hexadecimal characters.
    InvalidRevision(String),
    /// The compiled build binding has an internally inconsistent dirty flag or revision.
    InvalidBuildBinding,
    /// The source checkout was dirty when the generator was compiled.
    DirtyBuild {
        /// Full lowercase commit revision of the dirty checkout.
        revision: String,
    },
    /// The generator was compiled without a revision binding.
    UnboundBuild,
}

/// The release values compiled into a build.
#[derive(Debug, PartialEq, Eq)]
pub struct BuildMetadata {
    /// Package version.
    pub version: String,
    /// Package repository.
    pub repository: String,
    /// Bound revision, if any.
    pub revision: Option<String>,
    /// Dirty marker, if any.
    pub dirty: Option<String>,
}

/// Read-only release binding observed in the compiled generator.
#[derive(Debug, PartialEq, Eq)]
pub enum ReleaseBuildStatus {
    /// The generator was built from a clean source at a validated immutable revision.
    Clean(ReleaseIdentity),
    /// The revision is valid, but the source had staged, unstaged, or untracked changes.
    Dirty {
        /// Full lowercase commit revision of the dirty checkout.
        revision: String,
    },
    /// Neither source Git metadata nor an explicit packager revision was available.
    Unbound,
}

impl ReleaseIdentityError {
    /// The diagnostic text.
    pub open spec fn text(self) -> Seq<char> {
        match self {
            ReleaseIdentityError::InvalidVersion(version) =>
                "release version must be a valid semantic version, got `"@ + version@ + "`"@,
            ReleaseIdentityError::InvalidRepository { expected, actual } =>
                "release repository must be exactly `"@ + expected@ + "`, got `"@ + actual@ + "`"@,
            ReleaseIdentityError::InvalidRevision(revision) =>
                "release revision must be exactly 40 lowercase hexadecimal characters, got `"@
                    + revision@ + "`"@,
            ReleaseIdentityError::InvalidBuildBinding =>
                "compiled release binding has an inconsistent revision or dirty marker"@,
            ReleaseIdentityError::DirtyBuild { revision } => "generator release `"@ + revision@
                + "` was built from a dirty source checkout"@,
            ReleaseIdentityError::UnboundBuild =>
                "generator build is not bound to an immutable release revision"@,
        }
    }

    /// Returns the diagnostic text.
    pub fn message(&self) -> (text: String)
        ensures
            text@ == self.text(),
    {
        match self {
            ReleaseIdentityError::InvalidVersion(version) => join3(
                "release version must be a valid semantic version, got `",
                version.as_str(),
                "`",
            ),
            ReleaseIdentityError::InvalidRepository { expected, actual } => join5(
                "release repository must be exactly `",
                expected,
                "`, got `",
                actual.as_str(),
                "`",
            ),
            ReleaseIdentityError::InvalidRevision(revision) => join3(
                "release revision must be exactly 40 lowercase hexadecimal characters, got `",
                revision.as_str(),
                "`",
            ),
            ReleaseIdentityError::InvalidBuildBinding =>
                "compiled release binding has an inconsistent revision or dirty marker".to_owned(),
            ReleaseIdentityError::DirtyBuild { revision } => join3(
                "generator release `",
                revision.as_str(),
                "` was built from a dirty source checkout",
            ),
            ReleaseIdentityError::UnboundBuild =>
                "generator build is not bound to an immutable release revision".to_owned(),
        }
    }
}

impl ReleaseIdentity {
    /// The value of this identity.
    pub closed spec fn view(&self) -> ReleaseModel {
        ReleaseModel {
            version: self.version@,
            repository: self.repository@,
            revision: self.revision@,
        }
    }

    #[verifier::type_invariant]
    closed spec fn valid(self) -> bool {
        self@.is_valid()
    }

    /// Constructs an explicit identity.
    ///
    /// The version must be a semantic version, the repository the canonical HTTPS URL, and the
    /// revision a full lowercase commit name.
    pub fn new(version: &str, repository: &str, revision: &str) -> (result: Result<
        Self,
        ReleaseIdentityError,
    >)
        ensures
            match result {
                Ok(identity) => identity@.is_valid() && identity@ == (ReleaseModel {
                    version: version@,
                    repository: repository@,
                    revision: revision@,
                }),
                Err(error) => metadata_rejected(version@, repository@, error) || (
                is_semantic_version(version@) && repository@ == CANONICAL_REPOSITORY@
                    && !is_release_revision(revision@) && revision_error(error, revision@)),
            },
    {
        match validate_metadata(version, repository) {
            Ok(()) => {},
            Err(error) => {
                return Err(error);
            },
        }
        if !is_valid_release_revision(revision) {
            return Err(ReleaseIdentityError::InvalidRevision(revision.to_owned()));
        }
        Ok(
            ReleaseIdentity {
                version: version.to_owned(),
                repository: repository.to_owned(),
                revision: revision.to_owned(),
            },
        )
    }

    /// Returns the identity of the build that `metadata` describes, only when the build is clean
    /// and bound.
    pub fn current(metadata: &BuildMetadata) -> (result: Result<Self, ReleaseIdentityError>)
        ensures
            match result {
                Ok(identity) => binding_is(metadata, "false"@) && identity@.is_valid()
                    && identity@ == (ReleaseModel {
                    version: metadata.version@,
                    repository: metadata.repository@,
                    revision: metadata.revision->Some_0@,
                }),
                Err(ReleaseIdentityError::DirtyBuild { revision }) => metadata_accepted(
                    metadata.version@,
                    metadata.repository@,
                ) && binding_is(metadata, "true"@) && revision@ == metadata.revision->Some_0@
                    && is_release_revision(revision@),
                Err(ReleaseIdentityError::UnboundBuild) => metadata_accepted(
                    metadata.version@,
                    metadata.repository@,
                ) && metadata.revision is None && (metadata.dirty is None
                    || metadata.dirty->Some_0@ == "false"@),
                Err(error) => status_rejected(metadata, error),
            },
    {
        match ReleaseBuildStatus::current(metadata) {
            Ok(ReleaseBuildStatus::Clean(identity)) => {
                proof {
                    use_type_invariant(&identity);
                }
                Ok(identity)
            },
            Ok(ReleaseBuildStatus::Dirty { revision }) => Err(
                ReleaseIdentityError::DirtyBuild { revision },
            ),
            Ok(ReleaseBuildStatus::Unbound) => Err(ReleaseIdentityError::UnboundBuild),
            Err(error) => Err(error),
        }
    }

    /// Returns the generator package version.
    pub fn version(&self) -> (version: &str)
        ensures
            version@ == self@.version,
            is_semantic_version(version@),
    {
        proof {
            use_type_invariant(self);
        }
        self.version.as_str()
    }

    /// Returns the canonical source repository.
    pub fn repository(&self) -> (repository: &str)
        ensures
            repository@ == self@.repository,
            repository@ == CANONICAL_REPOSITORY@,
    {
        proof {
            use_type_invariant(self);
        }
        self.repository.as_str()
    }

    /// Returns the full lowercase commit revision.
    pub fn revision(&self) -> (revision: &str)
        ensures
            revision@ == self@.revision,
            is_release_revision(revision@),
    {
        proof {
            use_type_invariant(self);
        }
        self.revision.as_str()
    }

    /// Returns an identity of the same value.
    pub fn duplicate(&self) -> (copy: Self)
        ensures
            copy@ == self@,
    {
        proof {
            use_type_invariant(self);
        }
        ReleaseIdentity {
            version: self.version.clone(),
            repository: self.repository.clone(),
            revision: self.revision.clone(),
        }
    }

    /// Returns whether two identities have the same value.
    pub fn same(&self, other: &Self) -> (same: bool)
        ensures
            same == (self@ == other@),
    {
        same_text(self.version.as_str(), other.version.as_str()) && same_text(
            self.repository.as_str(),
            other.repository.as_str(),
        ) && same_text(self.revision.as_str(), other.revision.as_str())
    }
}

/// Whether the version and the repository of a build can belong to a release.
pub open spec fn metadata_accepted(version: Seq<char>, repository: Seq<char>) -> bool {
    is_semantic_version(version) && repository == CANONICAL_REPOSITORY@
}

/// Whether `error` is the one that an unacceptable version or repository gives.
pub open spec fn metadata_rejected(
    version: Seq<char>,
    repository: Seq<char>,
    error: ReleaseIdentityError,
) -> bool {
    if !is_semantic_version(version) {
        error is InvalidVersion && error->InvalidVersion_0@ == version
    } else {
        &&& repository != CANONICAL_REPOSITORY@
        &&& error is InvalidRepository
        &&& error->expected@ == CANONICAL_REPOSITORY@
        &&& error->actual@ == repository
    }
}

/// Whether `error` reports `revision` as malformed.
pub open spec fn revision_error(error: ReleaseIdentityError, revision: Seq<char>) -> bool {
    error is InvalidRevision && error->InvalidRevision_0@ == revision
}

/// Whether a build is bound to a revision with the dirty marker `marker`.
pub open spec fn binding_is(metadata: &BuildMetadata, marker: Seq<char>) -> bool {
    &&& metadata.revision is Some
    &&& metadata.dirty is Some
    &&& metadata.dirty->Some_0@ == marker
}

/// Whether `error` is what the binding in `metadata` is rejected with.
pub open spec fn status_rejected(metadata: &BuildMetadata, error: ReleaseIdentityError) -> bool {
    if !metadata_accepted(metadata.version@, metadata.repository@) {
        metadata_rejected(metadata.version@, metadata.repository@, error)
    } else if binding_is(metadata, "false"@) || binding_is(metadata, "true"@) {
        !is_release_revision(metadata.revision->Some_0@) && revision_error(
            error,
            metadata.revision->Some_0@,
        )
    } else {
        &&& error is InvalidBuildBinding
        &&& !(metadata.revision is None && (metadata.dirty is None || metadata.dirty->Some_0@
            == "false"@))
    }
}

impl ReleaseBuildStatus {
    /// Reads and validates the release binding that `metadata` holds.
    pub fn current(metadata: &BuildMetadata) -> (result: Result<Self, ReleaseIdentityError>)
        ensures
            match result {
                Ok(status) => metadata_accepted(metadata.version@, metadata.repository@)
                    && match status {
                    ReleaseBuildStatus::Clean(identity) => binding_is(metadata, "false"@)
                        && identity@ == (ReleaseModel {
                        version: metadata.version@,
                        repository: metadata.repository@,
                        revision: metadata.revision->Some_0@,
                    }) && identity@.is_valid(),
                    ReleaseBuildStatus::Dirty { revision } => binding_is(metadata, "true"@)
                        && revision@ == metadata.revision->Some_0@ && is_release_revision(
                        revision@,
                    ),
                    ReleaseBuildStatus::Unbound => metadata.revision is None && (
                    metadata.dirty is None || metadata.dirty->Some_0@ == "false"@),
                },
                Err(error) => status_rejected(metadata, error),
            },
    {
        status_from_build_binding(metadata)
    }

    /// The bound revision of a clean or dirty build.
    pub open spec fn bound_revision(self) -> Option<Seq<char>> {
        match self {
            ReleaseBuildStatus::Clean(identity) => Some(identity@.revision),
            ReleaseBuildStatus::Dirty { revision } => Some(revision@),
            ReleaseBuildStatus::Unbound => None,
        }
    }

    /// Returns the bound revision for clean or dirty builds.
    pub fn revision(&self) -> (revision: Option<&str>)
        ensures
            match revision {
                Some(text) => self.bound_revision() == Some(text@),
                None => self.bound_revision() is None,
            },
    {
        match self {
            ReleaseBuildStatus::Clean(identity) => Some(identity.revision()),
            ReleaseBuildStatus::Dirty { revision } => Some(revision.as_str()),
            ReleaseBuildStatus::Unbound => None,
        }
    }

    /// Reports whether this status can yield a mutation-capable release identity.
    pub fn is_clean(&self) -> (clean: bool)
        ensures
            clean == (self is Clean),
    {
        matches!(self, ReleaseBuildStatus::Clean(_))
    }
}

fn validate_metadata(version: &str, repository: &str) -> (result: Result<
    (),
    ReleaseIdentityError,
>)
    ensures
        match result {
            Ok(()) => metadata_accepted(version@, repository@),
            Err(error) => !metadata_accepted(version@, repository@) && metadata_rejected(
                version@,
                repository@,
                error,
            ),
        },
{
    if !parses_as_version(version) {
        return Err(ReleaseIdentityError::InvalidVersion(version.to_owned()));
    }
    if !same_text(repository, CANONICAL_REPOSITORY) {
        return Err(
            ReleaseIdentityError::InvalidRepository {
                expected: CANONICAL_REPOSITORY,
                actual: repository.to_owned(),
            },
        );
    }
    Ok(())
}

/// Derives the release status of a build from its compiled metadata.
pub fn status_from_build_binding(metadata: &BuildMetadata) -> (result: Result<
    ReleaseBuildStatus,
    ReleaseIdentityError,
>)
    ensures
        match result {
            Ok(status) => metadata_accepted(metadata.version@, metadata.repository@)
                && match status {
                ReleaseBuildStatus::Clean(identity) => binding_is(metadata, "false"@) && identity@
                    == (ReleaseModel {
                    version: metadata.version@,
                    repository: metadata.repository@,
                    revision: metadata.revision->Some_0@,
                }) && identity@.is_valid(),
                ReleaseBuildStatus::Dirty { revision } => binding_is(metadata, "true"@)
                    && revision@ == metadata.revision->Some_0@ && is_release_revision(revision@),
                ReleaseBuildStatus::Unbound => metadata.revision is None && (
                metadata.dirty is None || metadata.dirty->Some_0@ == "false"@),
            },
            Err(error) => status_rejected(metadata, error),
        },
{
    match validate_metadata(metadata.version.as_str(), metadata.repository.as_str()) {
        Ok(()) => {},
        Err(error) => {
            return Err(error);
        },
    }
    proof {
        reveal_strlit("false");
        reveal_strlit("true");
    }
    match (&metadata.revision, &metadata.dirty) {
        (None, None) => Ok(ReleaseBuildStatus::Unbound),
        (None, Some(dirty)) => {
            if same_text(dirty.as_str(), "false") {
                Ok(ReleaseBuildStatus::Unbound)
            } else {
                Err(ReleaseIdentityError::InvalidBuildBinding)
            }
        },
        (Some(revision), Some(dirty)) => {
            if same_text(dirty.as_str(), "false") {
                match ReleaseIdentity::new(
                    metadata.version.as_str(),
                    metadata.repository.as_str(),
                    revision.as_str(),
                ) {
                    Ok(identity) => Ok(ReleaseBuildStatus::Clean(identity)),
                    Err(error) => Err(error),
                }
            } else if same_text(dirty.as_str(), "true") {
                if is_valid_release_revision(revision.as_str()) {
                    Ok(ReleaseBuildStatus::Dirty { revision: revision.clone() })
                } else {
                    Err(ReleaseIdentityError::InvalidRevision(revision.clone()))
                }
            } else {
                Err(ReleaseIdentityError::InvalidBuildBinding)
            }
        },
        (Some(_), None) => Err(ReleaseIdentityError::InvalidBuildBinding),
    }
}

} // verus!
