//! Validation of runtime dependency descriptors.

use vstd::prelude::*;
use vstd::string::*;

use crate::digest::{is_hex_digit, is_lower_hex};
use crate::findings::or_else;
use crate::module_checks::{
    any_hollow, contains_control, has_control, has_hollow, hollow, id_defect, is_compose_name,
    is_environment_name, is_hollow, lemma_seen_grows, repeats, valid_compose_name,
    valid_environment_name, validate_id,
};
use crate::modules::{
    outcome, CatalogError, ComposeEnvironmentBinding, ComposeHealthcheck, ComposeMigration,
    ExternalEnvironmentBinding, RuntimeDependencyDescriptor, RuntimeDependencyId,
};
use crate::ordered::{set_add, Sorted, TextSet};
use crate::text::{
    chars_of, contains_text, holds_at, join3, join5, occurs, occurs_at, starts_with, texts,
};

verus! {

/// The last place at or before `from` at which `part` occurs in `text`, or -1.
pub open spec fn last_occurrence(part: Seq<char>, text: Seq<char>, from: int) -> int
    decreases from + 1,
{
    if from < 0 {
        -1
    } else if occurs_at(part, text, from) {
        from
    } else {
        last_occurrence(part, text, from - 1)
    }
}

/// Whether a string has the form of a SHA-256 digest.
pub open spec fn is_digest(digest: Seq<char>) -> bool {
    digest.len() == 64 && forall|i: int| 0 <= i < 64 ==> is_lower_hex(#[trigger] digest[i])
}

/// What is wrong with the local service of a dependency.
pub open spec fn topology_defect(
    id: RuntimeDependencyId,
    service: Seq<char>,
    image: Seq<char>,
    volume: Seq<char>,
    volume_mount: Seq<char>,
    healthcheck: ComposeHealthcheck,
) -> Option<Seq<char>> {
    let place = last_occurrence("@sha256:"@, image, image.len() as int);
    if !is_compose_name(service) || !is_compose_name(volume) || !(volume_mount.len() > 0
        && volume_mount[0] == '/') || has_control(volume_mount) {
        Some(
            "runtime dependency `"@ + id.text()
                + "` has an invalid Compose service or volume name"@,
        )
    } else if place < 0 {
        Some("runtime dependency `"@ + id.text() + "` Compose image must be digest pinned"@)
    } else if !is_digest(image.skip(place + 8)) {
        Some(
            "runtime dependency `"@ + id.text()
                + "` Compose image has an invalid sha256 digest"@,
        )
    } else if healthcheck.test@.len() == 0 || has_hollow(texts(healthcheck.test@)) || is_hollow(
        healthcheck.interval@,
    ) || is_hollow(healthcheck.timeout@) || healthcheck.retries == 0 {
        Some(
            "runtime dependency `"@ + id.text() + "` has an incomplete Compose health check"@,
        )
    } else {
        None
    }
}

fn find_last(part: &str, text: &Vec<char>) -> (place: Option<usize>)
    ensures
        match place {
            Some(at) => last_occurrence(part@, text@, text@.len() as int) == at as int && at
                + part@.len() <= text@.len(),
            None => last_occurrence(part@, text@, text@.len() as int) == -1,
        },
{
    let wanted = chars_of(part);
    let mut index: usize = text.len();
    loop
        invariant
            wanted@ == part@,
            index <= text@.len(),
            last_occurrence(part@, text@, text@.len() as int) == last_occurrence(
                part@,
                text@,
                index as int,
            ),
        decreases index,
    {
        if wanted.len() <= text.len() - index && holds_at(text, index, &wanted) {
            assert(occurs_at(part@, text@, index as int));
            return Some(index);
        }
        assert(!occurs_at(part@, text@, index as int));
        if index == 0 {
            assert(last_occurrence(part@, text@, -1) == -1);
            return None;
        }
        index -= 1;
    }
}

fn valid_digest(chars: &Vec<char>, start: usize) -> (valid: bool)
    requires
        start <= chars@.len(),
    ensures
        valid == is_digest(chars@.skip(start as int)),
{
    let ghost digest = chars@.skip(start as int);
    let length: usize = chars.len();
    if length - start != 64 {
        return false;
    }
    let mut index: usize = 0;
    while index < 64
        invariant
            digest == chars@.skip(start as int),
            length == chars@.len(),
            start + 64 == length,
            index <= 64,
            forall|i: int| 0 <= i < index ==> is_lower_hex(#[trigger] digest[i]),
        decreases 64 - index,
    {
        assert(digest[index as int] == chars@[start + index]);
        if !is_hex_digit(chars[start + index]) {
            assert(!is_lower_hex(digest[index as int]));
            return false;
        }
        index += 1;
    }
    true
}

/// Checks the local service of a dependency.
pub fn validate_compose_topology(
    id: RuntimeDependencyId,
    service: &str,
    image: &str,
    volume: &str,
    volume_mount: &str,
    healthcheck: &ComposeHealthcheck,
) -> (result: Result<(), CatalogError>)
    ensures
        outcome(result) == topology_defect(
            id,
            service@,
            image@,
            volume@,
            volume_mount@,
            *healthcheck,
        ),
{
    let mount = chars_of(volume_mount);
    if !valid_compose_name(service) || !valid_compose_name(volume) || !(mount.len() > 0 && mount[0]
        == '/') || contains_control(volume_mount) {
        return Err(
            CatalogError::new(
                join3(
                    "runtime dependency `",
                    id.as_str(),
                    "` has an invalid Compose service or volume name",
                ),
            ),
        );
    }
    let chars = chars_of(image);
    proof {
        reveal_strlit("@sha256:");
        assert("@sha256:"@.len() == 8);
    }
    let place = match find_last("@sha256:", &chars) {
        Some(place) => place,
        None => {
            return Err(
                CatalogError::new(
                    join3(
                        "runtime dependency `",
                        id.as_str(),
                        "` Compose image must be digest pinned",
                    ),
                ),
            );
        },
    };
    let length: usize = chars.len();
    assert(length == chars@.len());
    if !valid_digest(&chars, place + 8) {
        return Err(
            CatalogError::new(
                join3(
                    "runtime dependency `",
                    id.as_str(),
                    "` Compose image has an invalid sha256 digest",
                ),
            ),
        );
    }
    if healthcheck.test.len() == 0 || any_hollow(&healthcheck.test) || hollow(
        healthcheck.interval.as_str(),
    ) || hollow(healthcheck.timeout.as_str()) || healthcheck.retries == 0 {
        return Err(
            CatalogError::new(
                join3(
                    "runtime dependency `",
                    id.as_str(),
                    "` has an incomplete Compose health check",
                ),
            ),
        );
    }
    Ok(())
}

/// The names of Compose environment bindings.
pub open spec fn compose_names(bindings: Seq<ComposeEnvironmentBinding>) -> Seq<Seq<char>> {
    bindings.map_values(|binding: ComposeEnvironmentBinding| binding.name@)
}

/// What is wrong with the Compose environment binding at `at`.
pub open spec fn compose_binding_defect(
    id: RuntimeDependencyId,
    bindings: Seq<ComposeEnvironmentBinding>,
    application: bool,
    at: int,
) -> Option<Seq<char>> {
    let binding = bindings[at];
    if !is_environment_name(binding.name@) || repeats(compose_names(bindings), at)
        || binding.value@.len() == 0 || occurs("${"@, binding.value@) || (application
        && !"OMNIUS__"@.is_prefix_of(binding.name@)) {
        Some(
            "runtime dependency `"@ + id.text()
                + "` has an invalid Compose environment binding"@,
        )
    } else if binding.secret && !binding.development_only {
        Some(
            "runtime dependency `"@ + id.text() + "` secret default `"@ + binding.name@
                + "` must be explicitly development-only"@,
        )
    } else {
        None
    }
}

/// What is wrong with the first `count` Compose environment bindings.
pub open spec fn compose_bindings_defect(
    id: RuntimeDependencyId,
    bindings: Seq<ComposeEnvironmentBinding>,
    application: bool,
    count: int,
) -> Option<Seq<char>>
    decreases count,
{
    if count <= 0 {
        None
    } else {
        or_else(
            compose_bindings_defect(id, bindings, application, count - 1),
            compose_binding_defect(id, bindings, application, count - 1),
        )
    }
}

proof fn lemma_compose_bindings_stay(
    id: RuntimeDependencyId,
    bindings: Seq<ComposeEnvironmentBinding>,
    application: bool,
    count: int,
    total: int,
)
    requires
        compose_bindings_defect(id, bindings, application, count) is Some,
        count <= total,
    ensures
        compose_bindings_defect(id, bindings, application, total) == compose_bindings_defect(
            id,
            bindings,
            application,
            count,
        ),
    decreases total - count,
{
    if count < total {
        lemma_compose_bindings_stay(id, bindings, application, count, total - 1);
    }
}

/// Checks a Compose environment.
pub fn validate_compose_environment(
    id: RuntimeDependencyId,
    bindings: &Vec<ComposeEnvironmentBinding>,
    application: bool,
) -> (result: Result<(), CatalogError>)
    ensures
        outcome(result) == compose_bindings_defect(
            id,
            bindings@,
            application,
            bindings@.len() as int,
        ),
{
    let ghost names = compose_names(bindings@);
    let ghost total = bindings@.len() as int;
    let mut seen: TextSet = Sorted::new();
    let mut index: usize = 0;
    while index < bindings.len()
        invariant
            names == compose_names(bindings@),
            total == bindings@.len(),
            index <= total,
            compose_bindings_defect(id, bindings@, application, index as int) is None,
            forall|value: Seq<char>| #[trigger]
                seen@.contains(value) <==> exists|j: int|
                    0 <= j < index && #[trigger] names[j] == value,
        decreases total - index,
    {
        let binding = &bindings[index];
        proof {
            if compose_binding_defect(id, bindings@, application, index as int) is Some {
                lemma_compose_bindings_stay(id, bindings@, application, index + 1, total);
            }
            assert(names[index as int] == binding.name@);
        }
        let ghost before = seen@;
        let added = set_add(&mut seen, binding.name.as_str());
        proof {
            lemma_seen_grows(before, seen@, names, index as int);
        }
        if !valid_environment_name(binding.name.as_str()) || !added
            || binding.value.as_str().is_empty() || contains_text(binding.value.as_str(), "${") || (
        application && !starts_with(binding.name.as_str(), "OMNIUS__")) {
            return Err(
                CatalogError::new(
                    join3(
                        "runtime dependency `",
                        id.as_str(),
                        "` has an invalid Compose environment binding",
                    ),
                ),
            );
        }
        if binding.secret && !binding.development_only {
            return Err(
                CatalogError::new(
                    join5(
                        "runtime dependency `",
                        id.as_str(),
                        "` secret default `",
                        binding.name.as_str(),
                        "` must be explicitly development-only",
                    ),
                ),
            );
        }
        index += 1;
    }
    Ok(())
}

/// The names of external environment bindings.
pub open spec fn external_names(bindings: Seq<ExternalEnvironmentBinding>) -> Seq<Seq<char>> {
    bindings.map_values(|binding: ExternalEnvironmentBinding| binding.name@)
}

/// Whether the external environment binding at `at` is invalid.
pub open spec fn is_invalid_external(bindings: Seq<ExternalEnvironmentBinding>, at: int) -> bool {
    let binding = bindings[at];
    !is_environment_name(binding.name@) || repeats(external_names(bindings), at) || is_hollow(
        binding.message@,
    ) || occurs("${"@, binding.message@)
}

/// What is wrong with an operator-supplied dependency.
pub open spec fn external_defect(
    id: RuntimeDependencyId,
    bindings: Seq<ExternalEnvironmentBinding>,
) -> Option<Seq<char>> {
    if bindings.len() == 0 {
        Some("external runtime dependency `"@ + id.text() + "` has no required bindings"@)
    } else if exists|i: int|
        0 <= i < bindings.len() && #[trigger] is_invalid_external(bindings, i) {
        Some(
            "external runtime dependency `"@ + id.text()
                + "` has an invalid environment binding"@,
        )
    } else {
        None
    }
}

fn validate_external(id: RuntimeDependencyId, bindings: &Vec<ExternalEnvironmentBinding>) -> (result:
    Result<(), CatalogError>)
    ensures
        outcome(result) == external_defect(id, bindings@),
{
    if bindings.len() == 0 {
        return Err(
            CatalogError::new(
                join3(
                    "external runtime dependency `",
                    id.as_str(),
                    "` has no required bindings",
                ),
            ),
        );
    }
    let ghost names = external_names(bindings@);
    let mut seen: TextSet = Sorted::new();
    let mut index: usize = 0;
    while index < bindings.len()
        invariant
            bindings@.len() > 0,
            names == external_names(bindings@),
            index <= bindings@.len(),
            forall|i: int| 0 <= i < index ==> !#[trigger] is_invalid_external(bindings@, i),
            forall|value: Seq<char>| #[trigger]
                seen@.contains(value) <==> exists|j: int|
                    0 <= j < index && #[trigger] names[j] == value,
        decreases bindings@.len() - index,
    {
        let binding = &bindings[index];
        let ghost before = seen@;
        assert(names[index as int] == binding.name@);
        let added = set_add(&mut seen, binding.name.as_str());
        proof {
            lemma_seen_grows(before, seen@, names, index as int);
        }
        if !valid_environment_name(binding.name.as_str()) || !added || hollow(
            binding.message.as_str(),
        ) || contains_text(binding.message.as_str(), "${") {
            assert(is_invalid_external(bindings@, index as int));
            return Err(
                CatalogError::new(
                    join3(
                        "external runtime dependency `",
                        id.as_str(),
                        "` has an invalid environment binding",
                    ),
                ),
            );
        }
        assert(!is_invalid_external(bindings@, index as int));
        index += 1;
    }
    Ok(())
}

/// What is wrong with a migration.
pub open spec fn migration_defect(id: RuntimeDependencyId, migration: ComposeMigration) -> Option<
    Seq<char>,
> {
    or_else(
        id_defect(migration.required_module@),
        if migration.command@.len() == 0 || has_hollow(texts(migration.command@)) {
            Some("runtime dependency `"@ + id.text() + "` has an empty migration command"@)
        } else {
            None
        },
    )
}

fn validate_migration(id: RuntimeDependencyId, migration: &ComposeMigration) -> (result: Result<
    (),
    CatalogError,
>)
    ensures
        outcome(result) == migration_defect(id, *migration),
{
    match validate_id(migration.required_module.as_str()) {
        Ok(()) => {},
        Err(error) => {
            return Err(error);
        },
    }
    if migration.command.len() == 0 || any_hollow(&migration.command) {
        return Err(
            CatalogError::new(
                join3(
                    "runtime dependency `",
                    id.as_str(),
                    "` has an empty migration command",
                ),
            ),
        );
    }
    Ok(())
}

/// Whether an earlier descriptor than the one at `at` is of the same dependency.
pub open spec fn descriptor_repeats(
    descriptors: Seq<RuntimeDependencyDescriptor>,
    at: int,
) -> bool {
    exists|j: int|
        0 <= j < at && (#[trigger] descriptors[j]).dependency_id()
            == descriptors[at].dependency_id()
}

/// What is wrong with a descriptor by itself.
pub open spec fn own_descriptor_defect(descriptor: RuntimeDependencyDescriptor) -> Option<
    Seq<char>,
> {
    match descriptor {
        RuntimeDependencyDescriptor::Compose {
            id,
            service,
            image,
            volume,
            volume_mount,
            healthcheck,
            service_environment,
            application_environment,
            migration,
        } => or_else(
            topology_defect(id, service@, image@, volume@, volume_mount@, *healthcheck),
            or_else(
                compose_bindings_defect(
                    id,
                    service_environment@,
                    false,
                    service_environment@.len() as int,
                ),
                or_else(
                    compose_bindings_defect(
                        id,
                        application_environment@,
                        true,
                        application_environment@.len() as int,
                    ),
                    match migration {
                        Some(owner) => migration_defect(id, owner),
                        None => None,
                    },
                ),
            ),
        ),
        RuntimeDependencyDescriptor::External { id, bindings } => external_defect(id, bindings@),
    }
}

/// What is wrong with the first `count` descriptors.
pub open spec fn descriptors_defect(
    descriptors: Seq<RuntimeDependencyDescriptor>,
    count: int,
) -> Option<Seq<char>>
    decreases count,
{
    if count <= 0 {
        None
    } else {
        or_else(
            descriptors_defect(descriptors, count - 1),
            if descriptor_repeats(descriptors, count - 1) {
                Some(
                    "duplicate runtime dependency descriptor `"@
                        + descriptors[count - 1].dependency_id().text() + "`"@,
                )
            } else {
                own_descriptor_defect(descriptors[count - 1])
            },
        )
    }
}

/// Whether a descriptor owns migrations.
pub open spec fn owns_migrations(descriptor: RuntimeDependencyDescriptor) -> bool {
    match descriptor {
        RuntimeDependencyDescriptor::Compose { migration, .. } => migration is Some,
        RuntimeDependencyDescriptor::External { .. } => false,
    }
}

/// What is wrong with a registry of runtime dependencies.
pub open spec fn registry_defect(descriptors: Seq<RuntimeDependencyDescriptor>) -> Option<
    Seq<char>,
> {
    or_else(
        descriptors_defect(descriptors, descriptors.len() as int),
        if exists|i: int, j: int|
            0 <= i < j < descriptors.len() && owns_migrations(#[trigger] descriptors[i])
                && owns_migrations(#[trigger] descriptors[j]) {
            Some("runtime dependency registry defines multiple Compose migration owners"@)
        } else {
            None
        },
    )
}

proof fn lemma_descriptors_stay(
    descriptors: Seq<RuntimeDependencyDescriptor>,
    count: int,
    total: int,
)
    requires
        descriptors_defect(descriptors, count) is Some,
        count <= total,
    ensures
        descriptors_defect(descriptors, total) == descriptors_defect(descriptors, count),
    decreases total - count,
{
    if count < total {
        lemma_descriptors_stay(descriptors, count, total - 1);
    }
}

fn repeats_dependency(descriptors: &Vec<RuntimeDependencyDescriptor>, at: usize) -> (found: bool)
    requires
        at < descriptors@.len(),
    ensures
        found == descriptor_repeats(descriptors@, at as int),
{
    let id = descriptors[at].id();
    let mut index: usize = 0;
    while index < at
        invariant
            at < descriptors@.len(),
            id == descriptors@[at as int].dependency_id(),
            index <= at,
            forall|j: int|
                0 <= j < index ==> (#[trigger] descriptors@[j]).dependency_id() != id,
        decreases at - index,
    {
        if descriptors[index].id() == id {
            assert(descriptors@[index as int].dependency_id() == id);
            return true;
        }
        index += 1;
    }
    false
}

fn validate_descriptor(descriptor: &RuntimeDependencyDescriptor) -> (result: Result<
    (),
    CatalogError,
>)
    ensures
        outcome(result) == own_descriptor_defect(*descriptor),
{
    match descriptor {
        RuntimeDependencyDescriptor::Compose {
            id,
            service,
            image,
            volume,
            volume_mount,
            healthcheck,
            service_environment,
            application_environment,
            migration,
        } => {
            match validate_compose_topology(
                *id,
                service.as_str(),
                image.as_str(),
                volume.as_str(),
                volume_mount.as_str(),
                healthcheck,
            ) {
                Ok(()) => {},
                Err(error) => {
                    return Err(error);
                },
            }
            match validate_compose_environment(*id, service_environment, false) {
                Ok(()) => {},
                Err(error) => {
                    return Err(error);
                },
            }
            match validate_compose_environment(*id, application_environment, true) {
                Ok(()) => {},
                Err(error) => {
                    return Err(error);
                },
            }
            match migration {
                Some(owner) => validate_migration(*id, owner),
                None => Ok(()),
            }
        },
        RuntimeDependencyDescriptor::External { id, bindings } => validate_external(*id, bindings),
    }
}

/// Checks a registry of runtime dependencies.
pub fn validate_runtime_dependency_registry(descriptors: &Vec<RuntimeDependencyDescriptor>) -> (result:
    Result<(), CatalogError>)
    ensures
        outcome(result) == registry_defect(descriptors@),
{
    let ghost all = descriptors@;
    let ghost total = all.len() as int;
    let mut owner: Option<usize> = None;
    let mut several = false;
    let mut index: usize = 0;
    while index < descriptors.len()
        invariant
            all == descriptors@,
            total == all.len(),
            index <= total,
            descriptors_defect(all, index as int) is None,
            match owner {
                Some(at) => at < index && owns_migrations(all[at as int]) && (!several
                    ==> forall|i: int|
                    0 <= i < index && owns_migrations(#[trigger] all[i]) ==> i == at),
                None => !several && forall|i: int|
                    0 <= i < index ==> !owns_migrations(#[trigger] all[i]),
            },
            several ==> exists|i: int, j: int|
                0 <= i < j < all.len() && owns_migrations(#[trigger] all[i]) && owns_migrations(
                    #[trigger] all[j],
                ),
        decreases total - index,
    {
        let descriptor = &descriptors[index];
        proof {
            if descriptors_defect(all, index + 1) is Some {
                lemma_descriptors_stay(all, index + 1, total);
            }
        }
        if repeats_dependency(descriptors, index) {
            return Err(
                CatalogError::new(
                    join3(
                        "duplicate runtime dependency descriptor `",
                        descriptor.id().as_str(),
                        "`",
                    ),
                ),
            );
        }
        match validate_descriptor(descriptor) {
            Ok(()) => {},
            Err(error) => {
                return Err(error);
            },
        }
        let owning = match descriptor {
            RuntimeDependencyDescriptor::Compose { migration, .. } => migration.is_some(),
            RuntimeDependencyDescriptor::External { .. } => false,
        };
        assert(owning == owns_migrations(all[index as int]));
        if owning {
            match owner {
                Some(at) => {
                    assert(owns_migrations(all[at as int]) && owns_migrations(all[index as int]));
                    several = true;
                },
                None => {
                    owner = Some(index);
                },
            }
        }
        index += 1;
    }
    if several {
        return Err(
            CatalogError::new(
                "runtime dependency registry defines multiple Compose migration owners".to_owned(),
            ),
        );
    }
    Ok(())
}

} // verus!
