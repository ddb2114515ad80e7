//! What a valid module catalog holds.

use vstd::prelude::*;
use vstd::string::*;
use vstd::utf8::*;

use crate::configuration_checks::{
    component_matches, configuration_defect, configuration_path_defect, environment_key,
    field_defect, field_paths, fields_defect, has_invalid_component, is_configuration_component,
    is_plain_component, is_secret_path, names_path, secret_check, without_part, without_suffix,
};
use crate::dependency_checks::{
    compose_binding_defect, compose_bindings_defect, compose_names, descriptors_defect,
    external_defect, external_names, is_digest, is_invalid_external, last_occurrence,
    own_descriptor_defect, owns_migrations, registry_defect,
};
use crate::findings::lemma_no_finding;
use crate::module_catalog::{
    catalog_defect, cycles_defect, declared_binding_check, declares_key, dependencies_defect,
    known_conflict_check, known_prerequisite_check, migration_check, module_content_defect,
    module_defect, module_ids, modules_defect, reference_check,
};
use crate::module_checks::{
    composition_defect, crate_defect, crate_names, crates_defect, first_repeated, has_control,
    has_hollow, id_check, is_compose_name, is_environment_name, is_hollow, owned_path_check,
    ownership_defect, region_reference_check, repeats, requirement_ids, unique_defect,
};
use crate::modules::{
    ComposeEnvironmentBinding, CompositionCrate, ConfigurationField, ConfigurationValue,
    ExternalEnvironmentBinding, ModuleCatalog, ModuleDefinition, RuntimeDependencyDescriptor,
    RuntimeDependencyId,
};
use crate::paths::relative_path_defect;
use crate::region::is_region_id;
use crate::selection::collect;
use crate::text::{is_white_space, occurs, occurs_at, split_on, texts, visible_until};

verus! {

// Strings.
/// Whether a string holds nothing but white space.
pub open spec fn is_blank(text: Seq<char>) -> bool {
    forall|i: int| 0 <= i < text.len() ==> is_white_space(#[trigger] text[i])
}

proof fn lemma_visible(text: Seq<char>, count: int)
    requires
        0 <= count <= text.len(),
    ensures
        0 <= visible_until(text, count) <= count,
        visible_until(text, count) > 0 ==> !is_white_space(text[visible_until(text, count) - 1]),
        forall|i: int| visible_until(text, count) <= i < count ==> is_white_space(#[trigger] text[i]),
    decreases count,
{
    if count > 0 && is_white_space(text[count - 1]) {
        lemma_visible(text, count - 1);
    }
}

proof fn lemma_visible_from(text: Seq<char>, from: int, seen: int)
    requires
        0 <= from <= seen < text.len(),
        !is_white_space(text[seen]),
    ensures
        from <= crate::text::visible_from(text, from) <= seen,
    decreases text.len() - from,
{
    if from < seen && is_white_space(text[from]) {
        lemma_visible_from(text, from + 1, seen);
    }
}

/// A string is hollow exactly where it is blank.
pub proof fn lemma_blank(text: Seq<char>)
    ensures
        is_hollow(text) <==> is_blank(text),
{
    let end = visible_until(text, text.len() as int);
    lemma_visible(text, text.len() as int);
    if end > 0 {
        lemma_visible_from(text, 0, end - 1);
        assert(!is_white_space(text[end - 1]));
    }
}

proof fn lemma_blanks(list: Seq<Seq<char>>)
    ensures
        has_hollow(list) <==> exists|i: int| 0 <= i < list.len() && is_blank(#[trigger] list[i]),
{
    assert forall|i: int| 0 <= i < list.len() implies is_hollow(#[trigger] list[i]) == is_blank(
        list[i],
    ) by {
        lemma_blank(list[i]);
    }
    if has_hollow(list) {
        let i = choose|i: int| 0 <= i < list.len() && is_hollow(#[trigger] list[i]);
        assert(is_blank(list[i]));
    }
    if exists|i: int| 0 <= i < list.len() && is_blank(#[trigger] list[i]) {
        let i = choose|i: int| 0 <= i < list.len() && is_blank(#[trigger] list[i]);
        assert(is_hollow(list[i]));
    }
}

/// Whether a string is an identifier: up to 128 letters, digits, hyphens, underscores and dots.
pub open spec fn is_identifier(text: Seq<char>) -> bool {
    0 < text.len() <= 128 && forall|i: int|
        0 <= i < text.len() ==> ('a' <= #[trigger] text[i] && text[i] <= 'z') || ('A' <= text[i]
            && text[i] <= 'Z') || ('0' <= text[i] && text[i] <= '9') || text[i] == '-' || text[i]
            == '_' || text[i] == '.'
}

/// Whether a string is the name of a Compose service or volume.
pub open spec fn is_service_name(text: Seq<char>) -> bool {
    &&& 0 < text.len() <= 63
    &&& text[0] != '-'
    &&& text[text.len() - 1] != '-'
    &&& forall|i: int|
        0 <= i < text.len() ==> ('a' <= #[trigger] text[i] && text[i] <= 'z') || ('0' <= text[i]
            && text[i] <= '9') || text[i] == '-'
}

/// Whether a string is the name of an environment variable.
pub open spec fn is_variable(text: Seq<char>) -> bool {
    &&& 0 < text.len() <= 256
    &&& !('0' <= text[0] && text[0] <= '9')
    &&& forall|i: int|
        0 <= i < text.len() ==> ('A' <= #[trigger] text[i] && text[i] <= 'Z') || ('0' <= text[i]
            && text[i] <= '9') || text[i] == '_'
}

/// Whether a path is relative, with forward slashes, and without empty and dotted components.
pub open spec fn is_relative(path: Seq<char>) -> bool {
    &&& path.len() > 0
    &&& path[0] != '/'
    &&& !path.contains('\\')
    &&& forall|i: int|
        0 <= i < split_on(path, '/').len() ==> (#[trigger] split_on(path, '/')[i]).len() > 0
            && split_on(path, '/')[i] != "."@ && split_on(path, '/')[i] != ".."@
}

proof fn lemma_strings(text: Seq<char>)
    ensures
        is_region_id(text) <==> is_identifier(text),
        is_compose_name(text) <==> is_service_name(text),
        is_environment_name(text) <==> is_variable(text),
        relative_path_defect(text) is None <==> is_relative(text),
{
    if is_service_name(text) {
        assert(('a' <= text[0] && text[0] <= 'z') || ('0' <= text[0] && text[0] <= '9'));
        assert(text.last() == text[text.len() - 1]);
    }
    if is_compose_name(text) {
        assert(text.last() == text[text.len() - 1]);
        assert forall|i: int| 0 <= i < text.len() implies ('a' <= #[trigger] text[i] && text[i]
            <= 'z') || ('0' <= text[i] && text[i] <= '9') || text[i] == '-' by {
            assert(crate::module_checks::is_lower_or_digit(text[i]) || text[i] == '-');
        }
    }
    if is_environment_name(text) {
        assert forall|i: int| 0 <= i < text.len() implies ('A' <= #[trigger] text[i] && text[i]
            <= 'Z') || ('0' <= text[i] && text[i] <= '9') || text[i] == '_' by {
            assert(crate::module_checks::is_upper_or_underscore(text[i]) || ('0' <= text[i]
                && text[i] <= '9'));
        }
    }
    if is_variable(text) {
        assert(('A' <= text[0] && text[0] <= 'Z') || text[0] == '_');
    }
    let parts = split_on(text, '/');
    if crate::paths::has_special_component(text) {
        let i = choose|i: int|
            0 <= i < parts.len() && crate::paths::is_special_component(#[trigger] parts[i]);
        assert(parts[i].len() == 0 || parts[i] == "."@ || parts[i] == ".."@);
    } else {
        assert forall|i: int| 0 <= i < parts.len() implies (#[trigger] parts[i]).len() > 0
            && parts[i] != "."@ && parts[i] != ".."@ by {
            assert(!crate::paths::is_special_component(parts[i]));
        }
    }
}

proof fn lemma_repeated(list: Seq<Seq<char>>, count: int)
    requires
        0 <= count <= list.len(),
    ensures
        first_repeated(list, count) is None <==> forall|i: int, j: int|
            0 <= i < j < count ==> #[trigger] list[i] != #[trigger] list[j],
    decreases count,
{
    if count > 0 {
        lemma_repeated(list, count - 1);
    }
}

proof fn lemma_unique(list: Seq<Seq<char>>, module: Seq<char>, field: Seq<char>)
    ensures
        unique_defect(list, module, field) is None <==> list.no_duplicates(),
{
    lemma_repeated(list, list.len() as int);
}

// Runtime dependencies.
/// Whether an image is pinned by a SHA-256 digest.
pub open spec fn is_pinned(image: Seq<char>) -> bool {
    exists|k: int|
        {
            &&& #[trigger] occurs_at("@sha256:"@, image, k)
            &&& image.len() == k + 72
            &&& forall|i: int|
                k + 8 <= i < image.len() ==> ('0' <= #[trigger] image[i] && image[i] <= '9') || (
                'a' <= image[i] && image[i] <= 'f')
        }
}

proof fn lemma_last(part: Seq<char>, text: Seq<char>, from: int)
    requires
        from >= -1,
    ensures
        -1 <= last_occurrence(part, text, from) <= from,
        last_occurrence(part, text, from) >= 0 ==> occurs_at(
            part,
            text,
            last_occurrence(part, text, from),
        ),
        forall|k: int|
            last_occurrence(part, text, from) < k <= from ==> !#[trigger] occurs_at(part, text, k),
    decreases from + 1,
{
    if from >= 0 && !occurs_at(part, text, from) {
        lemma_last(part, text, from - 1);
    }
}

proof fn lemma_pinned(image: Seq<char>)
    ensures
        is_pinned(image) <==> ({
            let place = last_occurrence("@sha256:"@, image, image.len() as int);
            place >= 0 && is_digest(image.skip(place + 8))
        }),
{
    reveal_strlit("@sha256:");
    let mark = "@sha256:"@;
    assert(mark.len() == 8);
    let place = last_occurrence(mark, image, image.len() as int);
    lemma_last(mark, image, image.len() as int);
    if place >= 0 && is_digest(image.skip(place + 8)) {
        let digest = image.skip(place + 8);
        assert forall|i: int| place + 8 <= i < image.len() implies ('0' <= #[trigger] image[i]
            && image[i] <= '9') || ('a' <= image[i] && image[i] <= 'f') by {
            assert(digest[i - place - 8] == image[i]);
            assert(crate::digest::is_lower_hex(digest[i - place - 8]));
        }
        assert(occurs_at(mark, image, place));
    }
    if is_pinned(image) {
        let k = choose|k: int|
            {
                &&& #[trigger] occurs_at(mark, image, k)
                &&& image.len() == k + 72
                &&& forall|i: int|
                    k + 8 <= i < image.len() ==> ('0' <= #[trigger] image[i] && image[i] <= '9')
                        || ('a' <= image[i] && image[i] <= 'f')
            };
        assert(image.subrange(k, k + 8) == mark);
        assert(place >= k) by {
            if place < k {
                assert(!occurs_at(mark, image, k));
            }
        }
        if place > k {
            assert(image.subrange(place, place + 8)[0] == mark[0]);
            assert(image[place] == '@');
            if place < k + 8 {
                assert(image.subrange(k, k + 8)[place - k] == mark[place - k]);
                assert(mark[place - k] != '@');
            }
        }
        assert(place == k);
        let digest = image.skip(place + 8);
        assert forall|i: int| 0 <= i < 64 implies crate::digest::is_lower_hex(
            #[trigger] digest[i],
        ) by {
            assert(digest[i] == image[place + 8 + i]);
        }
    }
}

/// Whether the environment bindings of a local service are valid: variables of different names,
/// with values that are there and not interpolated, those of the application with its prefix, and
/// secrets for development only.
pub open spec fn bindings_are_valid(
    bindings: Seq<ComposeEnvironmentBinding>,
    application: bool,
) -> bool {
    &&& forall|i: int|
        0 <= i < bindings.len() ==> {
            &&& is_variable((#[trigger] bindings[i]).name@)
            &&& bindings[i].value@.len() > 0
            &&& !occurs("${"@, bindings[i].value@)
            &&& application ==> "OMNIUS__"@.is_prefix_of(bindings[i].name@)
            &&& bindings[i].secret ==> bindings[i].development_only
        }
    &&& forall|i: int, j: int|
        0 <= i < j < bindings.len() ==> (#[trigger] bindings[i]).name@ != (
        #[trigger] bindings[j]).name@
}

proof fn lemma_bindings(
    id: RuntimeDependencyId,
    bindings: Seq<ComposeEnvironmentBinding>,
    application: bool,
    count: int,
)
    requires
        0 <= count <= bindings.len(),
    ensures
        compose_bindings_defect(id, bindings, application, count) is None <==> bindings_are_valid(
            bindings.take(count),
            application,
        ),
    decreases count,
{
    if count > 0 {
        lemma_bindings(id, bindings, application, count - 1);
        let binding = bindings[count - 1];
        let few = bindings.take(count - 1);
        let more = bindings.take(count);
        let names = compose_names(bindings);
        lemma_strings(binding.name@);
        assert(more.drop_last() =~= few);
        assert(more[count - 1] == binding);
        assert(repeats(names, count - 1) <==> exists|j: int|
            0 <= j < count - 1 && (#[trigger] few[j]).name@ == binding.name@) by {
            if repeats(names, count - 1) {
                let j = choose|j: int|
                    0 <= j < count - 1 && #[trigger] names[j] == names[count - 1];
                assert(few[j].name@ == binding.name@);
            }
            if exists|j: int| 0 <= j < count - 1 && (#[trigger] few[j]).name@ == binding.name@ {
                let j = choose|j: int|
                    0 <= j < count - 1 && (#[trigger] few[j]).name@ == binding.name@;
                assert(names[j] == names[count - 1]);
            }
        }
        if bindings_are_valid(more, application) {
            assert forall|i: int| 0 <= i < few.len() implies #[trigger] few[i] == more[i] by {}
            assert forall|j: int| 0 <= j < count - 1 implies (#[trigger] few[j]).name@
                != binding.name@ by {
                assert(more[j].name@ != more[count - 1].name@);
            }
            assert(bindings_are_valid(few, application));
        }
        if bindings_are_valid(few, application) && compose_binding_defect(
            id,
            bindings,
            application,
            count - 1,
        ) is None {
            assert forall|i: int| 0 <= i < more.len() implies {
                &&& is_variable((#[trigger] more[i]).name@)
                &&& more[i].value@.len() > 0
                &&& !occurs("${"@, more[i].value@)
                &&& application ==> "OMNIUS__"@.is_prefix_of(more[i].name@)
                &&& more[i].secret ==> more[i].development_only
            } by {
                if i < few.len() {
                    assert(few[i] == more[i]);
                }
            }
            assert forall|i: int, j: int| 0 <= i < j < more.len() implies (
            #[trigger] more[i]).name@ != (#[trigger] more[j]).name@ by {
                assert(few[i] == more[i]);
                if j < few.len() {
                    assert(few[j] == more[j]);
                }
            }
        }
    }
}

/// Whether a runtime dependency is valid.
pub open spec fn dependency_is_valid(dependency: RuntimeDependencyDescriptor) -> bool {
    match dependency {
        RuntimeDependencyDescriptor::Compose {
            service,
            image,
            volume,
            volume_mount,
            healthcheck,
            service_environment,
            application_environment,
            migration,
            ..
        } => {
            &&& is_service_name(service@)
            &&& is_service_name(volume@)
            &&& volume_mount@.len() > 0 && volume_mount@[0] == '/'
            &&& !has_control(volume_mount@)
            &&& is_pinned(image@)
            &&& healthcheck.test@.len() > 0
            &&& forall|i: int|
                0 <= i < healthcheck.test@.len() ==> !is_blank(
                    #[trigger] texts(healthcheck.test@)[i],
                )
            &&& !is_blank(healthcheck.interval@)
            &&& !is_blank(healthcheck.timeout@)
            &&& healthcheck.retries > 0
            &&& bindings_are_valid(service_environment@, false)
            &&& bindings_are_valid(application_environment@, true)
            &&& migration matches Some(owner) ==> is_identifier(owner.required_module@)
                && owner.command@.len() > 0 && forall|i: int|
                0 <= i < owner.command@.len() ==> !is_blank(#[trigger] texts(owner.command@)[i])
        },
        RuntimeDependencyDescriptor::External { bindings, .. } => {
            &&& bindings@.len() > 0
            &&& forall|i: int|
                0 <= i < bindings@.len() ==> {
                    &&& is_variable((#[trigger] bindings@[i]).name@)
                    &&& !is_blank(bindings@[i].message@)
                    &&& !occurs("${"@, bindings@[i].message@)
                }
            &&& forall|i: int, j: int|
                0 <= i < j < bindings@.len() ==> (#[trigger] bindings@[i]).name@ != (
                #[trigger] bindings@[j]).name@
        },
    }
}

proof fn lemma_external(id: RuntimeDependencyId, bindings: Seq<ExternalEnvironmentBinding>)
    ensures
        external_defect(id, bindings) is None <==> {
            &&& bindings.len() > 0
            &&& forall|i: int|
                0 <= i < bindings.len() ==> {
                    &&& is_variable((#[trigger] bindings[i]).name@)
                    &&& !is_blank(bindings[i].message@)
                    &&& !occurs("${"@, bindings[i].message@)
                }
            &&& forall|i: int, j: int|
                0 <= i < j < bindings.len() ==> (#[trigger] bindings[i]).name@ != (
                #[trigger] bindings[j]).name@
        },
{
    let names = external_names(bindings);
    assert forall|i: int| 0 <= i < bindings.len() implies #[trigger] is_invalid_external(
        bindings,
        i,
    ) == (!is_variable(bindings[i].name@) || is_blank(bindings[i].message@) || occurs(
        "${"@,
        bindings[i].message@,
    ) || exists|j: int| 0 <= j < i && (#[trigger] bindings[j]).name@ == bindings[i].name@) by {
        lemma_strings(bindings[i].name@);
        lemma_blank(bindings[i].message@);
        if repeats(names, i) {
            let j = choose|j: int| 0 <= j < i && #[trigger] names[j] == names[i];
            assert(bindings[j].name@ == bindings[i].name@);
        }
        if exists|j: int| 0 <= j < i && (#[trigger] bindings[j]).name@ == bindings[i].name@ {
            let j = choose|j: int| 0 <= j < i && (#[trigger] bindings[j]).name@ == bindings[i].name@;
            assert(names[j] == names[i]);
        }
    }
    if external_defect(id, bindings) is None {
        assert forall|i: int| 0 <= i < bindings.len() implies {
            &&& is_variable((#[trigger] bindings[i]).name@)
            &&& !is_blank(bindings[i].message@)
            &&& !occurs("${"@, bindings[i].message@)
        } by {
            assert(!is_invalid_external(bindings, i));
        }
        assert forall|i: int, j: int| 0 <= i < j < bindings.len() implies (
        #[trigger] bindings[i]).name@ != (#[trigger] bindings[j]).name@ by {
            assert(!is_invalid_external(bindings, j));
        }
    }
}

proof fn lemma_dependency(dependency: RuntimeDependencyDescriptor)
    ensures
        own_descriptor_defect(dependency) is None <==> dependency_is_valid(dependency),
{
    match dependency {
        RuntimeDependencyDescriptor::Compose {
            id,
            service,
            image,
            volume,
            volume_mount,
            healthcheck,
            service_environment,
            application_environment,
            migration,
        } => {
            lemma_strings(service@);
            lemma_strings(volume@);
            lemma_pinned(image@);
            lemma_blanks(texts(healthcheck.test@));
            lemma_blank(healthcheck.interval@);
            lemma_blank(healthcheck.timeout@);
            let own = service_environment@;
            let given = application_environment@;
            lemma_bindings(id, own, false, own.len() as int);
            lemma_bindings(id, given, true, given.len() as int);
            assert(own.take(own.len() as int) =~= own);
            assert(given.take(given.len() as int) =~= given);
            if let Some(owner) = migration {
                lemma_strings(owner.required_module@);
                lemma_blanks(texts(owner.command@));
            }
        },
        RuntimeDependencyDescriptor::External { id, bindings } => {
            lemma_external(id, bindings@);
        },
    }
}

proof fn lemma_dependencies(descriptors: Seq<RuntimeDependencyDescriptor>, count: int)
    requires
        0 <= count <= descriptors.len(),
    ensures
        descriptors_defect(descriptors, count) is None <==> {
            &&& forall|i: int| 0 <= i < count ==> dependency_is_valid(#[trigger] descriptors[i])
            &&& forall|i: int, j: int|
                0 <= i < j < count ==> (#[trigger] descriptors[i]).dependency_id() != (
                #[trigger] descriptors[j]).dependency_id()
        },
    decreases count,
{
    if count > 0 {
        lemma_dependencies(descriptors, count - 1);
        lemma_dependency(descriptors[count - 1]);
    }
}

/// Whether a registry of runtime dependencies is valid: each once, each valid, and at most one that
/// owns migrations.
pub open spec fn registry_is_valid(list: Seq<RuntimeDependencyDescriptor>) -> bool {
    &&& forall|i: int| 0 <= i < list.len() ==> dependency_is_valid(#[trigger] list[i])
    &&& forall|i: int, j: int|
        0 <= i < j < list.len() ==> (#[trigger] list[i]).dependency_id() != (
        #[trigger] list[j]).dependency_id()
    &&& forall|i: int, j: int|
        0 <= i < j < list.len() ==> !((#[trigger] list[i] matches
            RuntimeDependencyDescriptor::Compose { migration: Some(_), .. }) && (
        #[trigger] list[j] matches RuntimeDependencyDescriptor::Compose {
            migration: Some(_),
            ..
        }))
}

/// A registry has no defect exactly where it is valid.
pub proof fn lemma_valid_registry(list: Seq<RuntimeDependencyDescriptor>)
    ensures
        registry_defect(list) is None <==> registry_is_valid(list),
{
    lemma_dependencies(list, list.len() as int);
    assert forall|i: int| 0 <= i < list.len() implies owns_migrations(#[trigger] list[i]) == (
    list[i] matches RuntimeDependencyDescriptor::Compose { migration: Some(_), .. }) by {}
}

// Configuration.
/// Whether a component of a configuration path is made of lowercase letters, digits and
/// underscores.
pub open spec fn is_key(text: Seq<char>) -> bool {
    text.len() > 0 && forall|i: int|
        0 <= i < text.len() ==> ('a' <= #[trigger] text[i] && text[i] <= 'z') || ('0' <= text[i]
            && text[i] <= '9') || text[i] == '_'
}

/// Whether a configuration path is valid: at most 256 bytes, and at least a table and a field; the
/// path of secrets may hold `*` for a component, and `[]` behind one.
pub open spec fn is_configuration_path(path: Seq<char>, pattern: bool) -> bool {
    let parts = split_on(path, '.');
    &&& encode_utf8(path).len() <= 256
    &&& parts.len() >= 2
    &&& forall|i: int|
        0 <= i < parts.len() ==> if pattern {
            without_suffix(#[trigger] parts[i], "[]"@) == "*"@ || is_key(
                without_suffix(parts[i], "[]"@),
            )
        } else {
            is_key(parts[i])
        }
}

proof fn lemma_configuration_path(path: Seq<char>, pattern: bool)
    ensures
        configuration_path_defect(path, pattern) is None <==> is_configuration_path(path, pattern),
{
    let parts = split_on(path, '.');
    assert forall|part: Seq<char>| #[trigger] is_plain_component(part) == is_key(part) by {}
    if has_invalid_component(path, pattern) {
        let i = choose|i: int|
            0 <= i < parts.len() && !is_configuration_component(#[trigger] parts[i], pattern);
        assert(is_plain_component(parts[i]) == is_key(parts[i]));
        let canonical = without_suffix(parts[i], "[]"@);
        assert(is_plain_component(canonical) == is_key(canonical));
    } else {
        assert forall|i: int| 0 <= i < parts.len() implies if pattern {
            without_suffix(#[trigger] parts[i], "[]"@) == "*"@ || is_key(
                without_suffix(parts[i], "[]"@),
            )
        } else {
            is_key(parts[i])
        } by {
            assert(is_configuration_component(parts[i], pattern));
            assert(is_plain_component(parts[i]) == is_key(parts[i]));
            let canonical = without_suffix(parts[i], "[]"@);
            assert(is_plain_component(canonical) == is_key(canonical));
        }
    }
}

/// Whether a path is one of the secret ones: component by component the same, but for `*` and for
/// `[]` behind a component.
pub open spec fn is_secret(path: Seq<char>, secrets: Seq<Seq<char>>) -> bool {
    exists|k: int|
        {
            let actual = split_on(path, '.');
            let expected = split_on(#[trigger] secrets[k], '.');
            &&& 0 <= k < secrets.len()
            &&& actual.len() == expected.len()
            &&& forall|i: int|
                0 <= i < actual.len() ==> without_suffix(#[trigger] expected[i], "[]"@) == "*"@
                    || without_suffix(actual[i], "[]"@) == without_suffix(expected[i], "[]"@)
        }
}

pub(crate) proof fn lemma_secret(path: Seq<char>, secrets: Seq<Seq<char>>)
    ensures
        is_secret_path(path, secrets) <==> is_secret(path, secrets),
{
    let actual = split_on(path, '.');
    if is_secret_path(path, secrets) {
        let k = choose|k: int| 0 <= k < secrets.len() && names_path(#[trigger] secrets[k], path);
        let expected = split_on(secrets[k], '.');
        assert forall|i: int| 0 <= i < actual.len() implies without_suffix(
            #[trigger] expected[i],
            "[]"@,
        ) == "*"@ || without_suffix(actual[i], "[]"@) == without_suffix(expected[i], "[]"@) by {
            assert(component_matches(actual[i], expected[i]));
        }
    }
    if is_secret(path, secrets) {
        let k = choose|k: int|
            {
                let expected = split_on(#[trigger] secrets[k], '.');
                &&& 0 <= k < secrets.len()
                &&& actual.len() == expected.len()
                &&& forall|i: int|
                    0 <= i < actual.len() ==> without_suffix(#[trigger] expected[i], "[]"@)
                        == "*"@ || without_suffix(actual[i], "[]"@) == without_suffix(
                        expected[i],
                        "[]"@,
                    )
            };
        let expected = split_on(secrets[k], '.');
        assert forall|i: int| 0 <= i < actual.len() implies component_matches(
            #[trigger] actual[i],
            expected[i],
        ) by {
            assert(without_suffix(expected[i], "[]"@) == without_suffix(expected[i], "[]"@));
        }
        assert(names_path(secrets[k], path));
    }
}

/// Whether a configuration field is valid by itself: its default has its type and no placeholder
/// but the name of the service; a required field has a default or a binding to its environment key,
/// not both; an optional one has no binding; a secret one has no default.
pub open spec fn field_is_valid(field: ConfigurationField, secrets: Seq<Seq<char>>) -> bool {
    &&& is_configuration_path(field.path@, false)
    &&& field.reference_default matches Some(value) ==> {
        &&& value.has_type(field.value_type)
        &&& !is_secret(field.path@, secrets)
        &&& field.environment is None
        &&& value matches ConfigurationValue::String(text) ==> {
            let rest = without_part(text@, "{{service-name}}"@);
            !occurs("${"@, text@) && !occurs("{{"@, rest) && !occurs("}}"@, rest)
        }
    }
    &&& field.environment matches Some(key) ==> field.required && key@ == environment_key(
        field.path@,
    )
    &&& field.required ==> field.reference_default is Some || field.environment is Some
}

proof fn lemma_fields(
    module: Seq<char>,
    secrets: Seq<Seq<char>>,
    fields: Seq<ConfigurationField>,
    count: int,
)
    requires
        0 <= count <= fields.len(),
    ensures
        fields_defect(module, secrets, fields, count) is None <==> {
            &&& forall|i: int| 0 <= i < count ==> field_is_valid(#[trigger] fields[i], secrets)
            &&& forall|i: int, j: int|
                0 <= i < j < count ==> (#[trigger] fields[i]).path@ != (#[trigger] fields[j]).path@
        },
    decreases count,
{
    if count > 0 {
        lemma_fields(module, secrets, fields, count - 1);
        let field = fields[count - 1];
        lemma_configuration_path(field.path@, false);
        lemma_secret(field.path@, secrets);
        let paths = field_paths(fields);
        assert(repeats(paths, count - 1) <==> exists|j: int|
            0 <= j < count - 1 && (#[trigger] fields[j]).path@ == field.path@) by {
            if repeats(paths, count - 1) {
                let j = choose|j: int|
                    0 <= j < count - 1 && #[trigger] paths[j] == paths[count - 1];
                assert(fields[j].path@ == field.path@);
            }
            if exists|j: int| 0 <= j < count - 1 && (#[trigger] fields[j]).path@ == field.path@ {
                let j = choose|j: int|
                    0 <= j < count - 1 && (#[trigger] fields[j]).path@ == field.path@;
                assert(paths[j] == paths[count - 1]);
            }
        }
        assert(field_defect(module, secrets, fields, count - 1) is None <==> field_is_valid(
            field,
            secrets,
        ) && !repeats(paths, count - 1));
    }
}

/// Whether the configuration of a module is valid.
pub open spec fn configuration_is_valid(module: ModuleDefinition) -> bool {
    let configuration = module.configuration;
    let secrets = texts(configuration.secret_fields@);
    &&& is_identifier(configuration.prefix@)
    &&& configuration.schema matches Some(schema) ==> is_relative(schema@)
    &&& secrets.no_duplicates()
    &&& forall|i: int| 0 <= i < secrets.len() ==> is_configuration_path(#[trigger] secrets[i], true)
    &&& forall|i: int|
        0 <= i < configuration.fields@.len() ==> field_is_valid(
            #[trigger] configuration.fields@[i],
            secrets,
        )
    &&& forall|i: int, j: int|
        0 <= i < j < configuration.fields@.len() ==> (#[trigger] configuration.fields@[i]).path@
            != (#[trigger] configuration.fields@[j]).path@
}

proof fn lemma_configuration(module: ModuleDefinition)
    ensures
        configuration_defect(module) is None <==> configuration_is_valid(module),
{
    let configuration = module.configuration;
    let secrets = texts(configuration.secret_fields@);
    lemma_strings(configuration.prefix@);
    if let Some(schema) = configuration.schema {
        lemma_strings(schema@);
    }
    lemma_unique(secrets, module.id@, "configuration.secret_fields"@);
    let check = secret_check(module.id@);
    lemma_no_finding(secrets, check);
    assert forall|i: int| 0 <= i < secrets.len() implies (check(#[trigger] secrets[i]) is None
        <==> is_configuration_path(secrets[i], true)) by {
        lemma_configuration_path(secrets[i], true);
    }
    lemma_fields(module.id@, secrets, configuration.fields@, configuration.fields@.len() as int);
}

// Modules.
/// Whether what a module contributes to the composition is valid.
pub open spec fn composition_is_valid(
    module: ModuleDefinition,
    workspace: Seq<Seq<char>>,
) -> bool {
    let crates = module.composition.crates@;
    &&& forall|i: int|
        0 <= i < crates.len() ==> {
            &&& is_identifier((#[trigger] crates[i]).dependency@)
            &&& workspace.contains(crates[i].dependency@)
            &&& texts(crates[i].features@).no_duplicates()
            &&& forall|k: int|
                0 <= k < crates[i].features@.len() ==> is_identifier(
                    #[trigger] texts(crates[i].features@)[k],
                )
        }
    &&& forall|i: int, j: int|
        0 <= i < j < crates.len() ==> (#[trigger] crates[i]).dependency@ != (
        #[trigger] crates[j]).dependency@
    &&& requirement_ids(module.composition.application_requirements@).no_duplicates()
    &&& module.routes@.len() > 0 || module.background_tasks@.len() > 0
        || module.health_checks@.len() > 0 ==> module.composition.registrar
        || module.composition.application_requirements@.len() > 0
}

proof fn lemma_crates(
    module: Seq<char>,
    crates: Seq<CompositionCrate>,
    workspace: Seq<Seq<char>>,
    count: int,
)
    requires
        0 <= count <= crates.len(),
    ensures
        crates_defect(module, crates, workspace, count) is None <==> {
            &&& forall|i: int|
                0 <= i < count ==> {
                    &&& is_identifier((#[trigger] crates[i]).dependency@)
                    &&& workspace.contains(crates[i].dependency@)
                    &&& texts(crates[i].features@).no_duplicates()
                    &&& forall|k: int|
                        0 <= k < crates[i].features@.len() ==> is_identifier(
                            #[trigger] texts(crates[i].features@)[k],
                        )
                }
            &&& forall|i: int, j: int|
                0 <= i < j < count ==> (#[trigger] crates[i]).dependency@ != (
                #[trigger] crates[j]).dependency@
        },
    decreases count,
{
    if count > 0 {
        lemma_crates(module, crates, workspace, count - 1);
        let entry = crates[count - 1];
        lemma_strings(entry.dependency@);
        let names = crate_names(crates);
        assert(repeats(names, count - 1) <==> exists|j: int|
            0 <= j < count - 1 && (#[trigger] crates[j]).dependency@ == entry.dependency@) by {
            if repeats(names, count - 1) {
                let j = choose|j: int|
                    0 <= j < count - 1 && #[trigger] names[j] == names[count - 1];
                assert(crates[j].dependency@ == entry.dependency@);
            }
            if exists|j: int|
                0 <= j < count - 1 && (#[trigger] crates[j]).dependency@ == entry.dependency@ {
                let j = choose|j: int|
                    0 <= j < count - 1 && (#[trigger] crates[j]).dependency@ == entry.dependency@;
                assert(names[j] == names[count - 1]);
            }
        }
        let features = texts(entry.features@);
        lemma_unique(features, module, "composition.crates.features"@);
        lemma_no_finding(features, id_check());
        assert forall|k: int| 0 <= k < features.len() implies (id_check()(
            #[trigger] features[k],
        ) is None <==> is_identifier(features[k])) by {
            lemma_strings(features[k]);
        }
        assert(crate_defect(module, crates, workspace, count - 1) is None <==> {
            &&& is_identifier(entry.dependency@)
            &&& workspace.contains(entry.dependency@)
            &&& features.no_duplicates()
            &&& !repeats(names, count - 1)
            &&& forall|k: int|
                0 <= k < entry.features@.len() ==> is_identifier(#[trigger] features[k])
        });
    }
}

/// Whether what the generator owns for a module is valid.
pub open spec fn ownership_is_valid(module: ModuleDefinition) -> bool {
    let owned = module.generator_ownership;
    &&& texts(owned.kit_owned@).no_duplicates()
    &&& texts(owned.managed_regions@).no_duplicates()
    &&& texts(owned.derived@).no_duplicates()
    &&& forall|i: int|
        0 <= i < owned.kit_owned@.len() ==> is_relative(#[trigger] texts(owned.kit_owned@)[i])
    &&& forall|i: int|
        0 <= i < owned.derived@.len() ==> is_relative(#[trigger] texts(owned.derived@)[i])
    &&& forall|i: int|
        0 <= i < owned.managed_regions@.len() ==> region_reference_check(module.id@)(
            #[trigger] texts(owned.managed_regions@)[i],
        ) is None
}

proof fn lemma_paths(list: Seq<Seq<char>>, module: Seq<char>)
    ensures
        crate::findings::first_finding(list, owned_path_check(module)) is None <==> forall|i: int|
            0 <= i < list.len() ==> is_relative(#[trigger] list[i]),
{
    lemma_no_finding(list, owned_path_check(module));
    assert forall|i: int| 0 <= i < list.len() implies (owned_path_check(module)(
        #[trigger] list[i],
    ) is None <==> is_relative(list[i])) by {
        lemma_strings(list[i]);
    }
}

proof fn lemma_ownership(module: ModuleDefinition)
    ensures
        ownership_defect(module) is None <==> ownership_is_valid(module),
{
    let owned = module.generator_ownership;
    lemma_unique(texts(owned.kit_owned@), module.id@, "generator_ownership.kit_owned"@);
    lemma_unique(
        texts(owned.managed_regions@),
        module.id@,
        "generator_ownership.managed_regions"@,
    );
    lemma_unique(texts(owned.derived@), module.id@, "generator_ownership.derived"@);
    lemma_paths(texts(owned.kit_owned@), module.id@);
    lemma_paths(texts(owned.derived@), module.id@);
    lemma_no_finding(texts(owned.managed_regions@), region_reference_check(module.id@));
}

/// Whether a module is valid beside its references to other modules.
pub open spec fn module_is_valid(
    catalog: ModuleCatalog,
    workspace: Seq<Seq<char>>,
    module: ModuleDefinition,
) -> bool {
    &&& is_identifier(module.id@)
    &&& module.version@.len() > 0
    &&& texts(module.prerequisites@).no_duplicates()
    &&& texts(module.conflicts_with@).no_duplicates()
    &&& !texts(module.prerequisites@).contains(module.id@)
    &&& !texts(module.conflicts_with@).contains(module.id@)
    &&& module.provider_slot matches Some(slot) ==> slot@.len() > 0
    &&& ownership_is_valid(module)
    &&& composition_is_valid(module, workspace)
    &&& configuration_is_valid(module)
    &&& module.runtime_dependencies@.no_duplicates()
    &&& forall|i: int|
        0 <= i < module.runtime_dependencies@.len() ==> exists|k: int|
            0 <= k < catalog.runtime_dependencies@.len() && (
            #[trigger] catalog.runtime_dependencies@[k]).dependency_id() == (
            #[trigger] module.runtime_dependencies@[i])
}

proof fn lemma_found(
    descriptors: Seq<RuntimeDependencyDescriptor>,
    id: RuntimeDependencyId,
    from: int,
)
    requires
        0 <= from <= descriptors.len(),
    ensures
        from <= crate::modules::descriptor_place(descriptors, id, from) <= descriptors.len(),
        crate::modules::descriptor_place(descriptors, id, from) < descriptors.len() <==> exists|
            k: int,
        |
            from <= k < descriptors.len() && (#[trigger] descriptors[k]).dependency_id() == id,
    decreases descriptors.len() - from,
{
    if from < descriptors.len() && descriptors[from].dependency_id() != id {
        lemma_found(descriptors, id, from + 1);
    }
}

proof fn lemma_module_dependencies(catalog: ModuleCatalog, module: ModuleDefinition, count: int)
    requires
        0 <= count <= module.runtime_dependencies@.len(),
    ensures
        dependencies_defect(catalog, module, count) is None <==> {
            &&& forall|i: int, j: int|
                0 <= i < j < count ==> #[trigger] module.runtime_dependencies@[i]
                    != #[trigger] module.runtime_dependencies@[j]
            &&& forall|i: int|
                0 <= i < count ==> exists|k: int|
                    0 <= k < catalog.runtime_dependencies@.len() && (
                    #[trigger] catalog.runtime_dependencies@[k]).dependency_id() == (
                    #[trigger] module.runtime_dependencies@[i])
        },
    decreases count,
{
    if count > 0 {
        lemma_module_dependencies(catalog, module, count - 1);
        lemma_found(
            catalog.runtime_dependencies@,
            module.runtime_dependencies@[count - 1],
            0,
        );
    }
}

proof fn lemma_module(catalog: ModuleCatalog, workspace: Seq<Seq<char>>, at: int)
    requires
        0 <= at < catalog.modules@.len(),
    ensures
        module_defect(catalog, workspace, at) is None <==> module_is_valid(
            catalog,
            workspace,
            catalog.modules@[at],
        ) && forall|j: int| 0 <= j < at ==> (#[trigger] catalog.modules@[j]).id@ != catalog.modules@[at].id@,
{
    let module = catalog.modules@[at];
    let ids = module_ids(catalog.modules@);
    lemma_strings(module.id@);
    assert(repeats(ids, at) <==> exists|j: int|
        0 <= j < at && (#[trigger] catalog.modules@[j]).id@ == module.id@) by {
        if repeats(ids, at) {
            let j = choose|j: int| 0 <= j < at && #[trigger] ids[j] == ids[at];
            assert(catalog.modules@[j].id@ == module.id@);
        }
        if exists|j: int| 0 <= j < at && (#[trigger] catalog.modules@[j]).id@ == module.id@ {
            let j = choose|j: int|
                0 <= j < at && (#[trigger] catalog.modules@[j]).id@ == module.id@;
            assert(ids[j] == ids[at]);
        }
    }
    lemma_unique(texts(module.prerequisites@), module.id@, "requires"@);
    lemma_unique(texts(module.conflicts_with@), module.id@, "conflicts_with"@);
    lemma_ownership(module);
    lemma_configuration(module);
    let crates = module.composition.crates@;
    lemma_crates(module.id@, crates, workspace, crates.len() as int);
    lemma_unique(
        requirement_ids(module.composition.application_requirements@),
        module.id@,
        "composition.application_requirements"@,
    );
    assert(composition_defect(module, workspace) is None <==> composition_is_valid(
        module,
        workspace,
    ));
    lemma_module_dependencies(catalog, module, module.runtime_dependencies@.len() as int);
    assert(module_content_defect(catalog, workspace, module) is None <==> {
        &&& !texts(module.prerequisites@).contains(module.id@)
        &&& !texts(module.conflicts_with@).contains(module.id@)
        &&& module.provider_slot matches Some(slot) ==> slot@.len() > 0
        &&& ownership_is_valid(module)
        &&& composition_is_valid(module, workspace)
        &&& configuration_is_valid(module)
        &&& dependencies_defect(
            catalog,
            module,
            module.runtime_dependencies@.len() as int,
        ) is None
    });
}

proof fn lemma_modules(catalog: ModuleCatalog, workspace: Seq<Seq<char>>, count: int)
    requires
        0 <= count <= catalog.modules@.len(),
    ensures
        modules_defect(catalog, workspace, count) is None <==> {
            &&& forall|i: int|
                0 <= i < count ==> module_is_valid(
                    catalog,
                    workspace,
                    #[trigger] catalog.modules@[i],
                )
            &&& forall|i: int, j: int|
                0 <= i < j < count ==> (#[trigger] catalog.modules@[i]).id@ != (
                #[trigger] catalog.modules@[j]).id@
        },
    decreases count,
{
    if count > 0 {
        lemma_modules(catalog, workspace, count - 1);
        lemma_module(catalog, workspace, count - 1);
    }
}

/// Whether a module refers to known modules only.
pub open spec fn references_are_known(catalog: ModuleCatalog, module: ModuleDefinition) -> bool {
    &&& forall|i: int|
        0 <= i < module.prerequisites@.len() ==> catalog.has_module(
            #[trigger] texts(module.prerequisites@)[i],
        )
    &&& forall|i: int|
        0 <= i < module.conflicts_with@.len() ==> catalog.has_module(
            #[trigger] texts(module.conflicts_with@)[i],
        )
}

proof fn lemma_references(catalog: ModuleCatalog, module: ModuleDefinition)
    ensures
        reference_check(catalog)(module) is None <==> references_are_known(catalog, module),
{
    let needed = texts(module.prerequisites@);
    let excluded = texts(module.conflicts_with@);
    let one = known_prerequisite_check(catalog, module.id@);
    let other = known_conflict_check(catalog, module.id@);
    lemma_no_finding(needed, one);
    lemma_no_finding(excluded, other);
    assert forall|i: int| 0 <= i < needed.len() implies (one(#[trigger] needed[i]) is None
        <==> catalog.has_module(needed[i])) by {}
    assert forall|i: int| 0 <= i < excluded.len() implies (other(#[trigger] excluded[i]) is None
        <==> catalog.has_module(excluded[i])) by {}
}

proof fn lemma_cycles(catalog: ModuleCatalog, count: int)
    requires
        0 <= count <= catalog.modules@.len(),
    ensures
        cycles_defect(catalog, count) is None <==> forall|i: int|
            0 <= i < count ==> collect(
                catalog,
                (#[trigger] catalog.modules@[i]).id@,
                Seq::empty(),
                Set::empty(),
            ) is Ok,
    decreases count,
{
    if count > 0 {
        lemma_cycles(catalog, count - 1);
    }
}

/// Whether a local service sets only configuration that a module declares, and its migration, if it
/// has one, is that of the `migrations` module, which needs the service.
pub open spec fn service_fits(catalog: ModuleCatalog, id: RuntimeDependencyId) -> bool {
    catalog.find_dependency(id) matches Some(
        RuntimeDependencyDescriptor::Compose { application_environment, migration, .. },
    ) ==> {
        &&& forall|i: int|
            0 <= i < application_environment@.len() ==> declares_key(
                catalog,
                (#[trigger] application_environment@[i]).name@,
            )
        &&& migration matches Some(owner) ==> owner.required_module@ == "migrations"@ && (
        catalog.find("migrations"@) matches Some(module) && module.runtime_dependencies@.contains(
            id,
        ))
    }
}

proof fn lemma_service(catalog: ModuleCatalog, id: RuntimeDependencyId)
    ensures
        migration_check(catalog)(id) is None <==> service_fits(catalog, id),
{
    if let Some(
        RuntimeDependencyDescriptor::Compose { application_environment, migration, .. },
    ) = catalog.find_dependency(id) {
        let check = declared_binding_check(catalog, id);
        lemma_no_finding(application_environment@, check);
        assert forall|i: int| 0 <= i < application_environment@.len() implies (check(
            #[trigger] application_environment@[i],
        ) is None <==> declares_key(catalog, application_environment@[i].name@)) by {}
    }
}

// The law.
/// A module catalog has no defect exactly where it is of the known form and version, its registry of
/// runtime dependencies is valid, every module is valid and has an identifier of its own, modules
/// refer to known modules only, local services fit the modules, and the prerequisites of every
/// module can be collected.
pub proof fn lemma_valid_catalog(catalog: ModuleCatalog, workspace: Seq<Seq<char>>)
    ensures
        catalog_defect(catalog, workspace) is None <==> {
            &&& catalog.schema_version == 1
            &&& catalog.bundle_version@.len() > 0
            &&& registry_is_valid(catalog.runtime_dependencies@)
            &&& forall|i: int|
                0 <= i < catalog.modules@.len() ==> module_is_valid(
                    catalog,
                    workspace,
                    #[trigger] catalog.modules@[i],
                )
            &&& forall|i: int, j: int|
                0 <= i < j < catalog.modules@.len() ==> (#[trigger] catalog.modules@[i]).id@ != (
                #[trigger] catalog.modules@[j]).id@
            &&& forall|i: int|
                0 <= i < catalog.modules@.len() ==> references_are_known(
                    catalog,
                    #[trigger] catalog.modules@[i],
                )
            &&& forall|i: int|
                0 <= i < RuntimeDependencyId::every().len() ==> service_fits(
                    catalog,
                    #[trigger] RuntimeDependencyId::every()[i],
                )
            &&& forall|i: int|
                0 <= i < catalog.modules@.len() ==> collect(
                    catalog,
                    (#[trigger] catalog.modules@[i]).id@,
                    Seq::empty(),
                    Set::empty(),
                ) is Ok
        },
{
    lemma_valid_registry(catalog.runtime_dependencies@);
    lemma_modules(catalog, workspace, catalog.modules@.len() as int);
    lemma_cycles(catalog, catalog.modules@.len() as int);
    let references = reference_check(catalog);
    lemma_no_finding(catalog.modules@, references);
    assert forall|i: int| 0 <= i < catalog.modules@.len() implies (references(
        #[trigger] catalog.modules@[i],
    ) is None <==> references_are_known(catalog, catalog.modules@[i])) by {
        lemma_references(catalog, catalog.modules@[i]);
    }
    let services = migration_check(catalog);
    let every = RuntimeDependencyId::every();
    lemma_no_finding(every, services);
    assert forall|i: int| 0 <= i < every.len() implies (services(#[trigger] every[i]) is None
        <==> service_fits(catalog, every[i])) by {
        lemma_service(catalog, every[i]);
    }
}

} // verus!
