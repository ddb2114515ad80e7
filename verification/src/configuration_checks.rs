//! Validation of the configuration contracts of modules.

use vstd::prelude::*;
use vstd::string::*;
use vstd::utf8::encode_utf8;

use crate::findings::{first_finding, lemma_finding_prefix, lemma_finding_step, or_else};
use crate::module_checks::{
    id_defect, lemma_seen_grows, repeats, unique_defect, validate_id, validate_unique_list,
};
use crate::modules::{
    outcome, CatalogError, ConfigurationField, ConfigurationValue, ModuleDefinition,
};
use crate::ordered::{set_add, Sorted, TextSet};
use crate::paths::{relative_path_defect, validate_relative_path};
use crate::text::{
    chars_of, contains_text, holds_at, join4, join5, join6, join7, occurs, same_text, split_on,
    split_text, text_between, text_of, texts, replace_text, text_replaced,
};

verus! {

// Paths.
/// `text` without `suffix`, if it ends with it.
pub open spec fn without_suffix(text: Seq<char>, suffix: Seq<char>) -> Seq<char> {
    if suffix.len() <= text.len() && text.skip(text.len() - suffix.len()) == suffix {
        text.take(text.len() - suffix.len())
    } else {
        text
    }
}

/// Returns `text` without `suffix`, if it ends with it.
pub fn strip_suffix(text: &str, suffix: &str) -> (result: String)
    ensures
        result@ == without_suffix(text@, suffix@),
{
    let chars = chars_of(text);
    let tail = chars_of(suffix);
    if tail.len() <= chars.len() {
        let start: usize = chars.len() - tail.len();
        assert(text@.skip(start as int) =~= text@.subrange(start as int, start + tail@.len()));
        if holds_at(&chars, start, &tail) {
            assert(text@.take(start as int) =~= text@.subrange(0, start as int));
            return text_between(&chars, 0, start);
        }
    }
    text.to_owned()
}

/// Whether a string is made of lowercase letters, digits and underscores, and not empty.
pub open spec fn is_plain_component(component: Seq<char>) -> bool {
    component.len() > 0 && forall|i: int|
        0 <= i < component.len() ==> ('a' <= #[trigger] component[i] && component[i] <= 'z') || (
        '0' <= component[i] && component[i] <= '9') || component[i] == '_'
}

/// Whether a string is a component of a configuration path; where wildcards are allowed, `*`
/// is one, and an array suffix may follow.
pub open spec fn is_configuration_component(component: Seq<char>, wildcard: bool) -> bool {
    if wildcard {
        let canonical = without_suffix(component, "[]"@);
        canonical == "*"@ || is_plain_component(canonical)
    } else {
        is_plain_component(component)
    }
}

/// Whether a component of a configuration path is no such component.
pub open spec fn has_invalid_component(path: Seq<char>, wildcard: bool) -> bool {
    exists|i: int|
        0 <= i < split_on(path, '.').len() && !is_configuration_component(
            #[trigger] split_on(path, '.')[i],
            wildcard,
        )
}

/// What is wrong with a configuration path.
pub open spec fn configuration_path_defect(path: Seq<char>, wildcard: bool) -> Option<Seq<char>> {
    if encode_utf8(path).len() > 256 {
        Some("path exceeds 256 bytes"@)
    } else if has_invalid_component(path, wildcard) {
        Some("path contains an invalid component"@)
    } else if split_on(path, '.').len() < 2 {
        Some("path must contain a table and field"@)
    } else {
        None
    }
}

fn plain_component(component: &str) -> (valid: bool)
    ensures
        valid == is_plain_component(component@),
{
    let chars = chars_of(component);
    if chars.len() == 0 {
        return false;
    }
    let mut index: usize = 0;
    while index < chars.len()
        invariant
            chars@ == component@,
            chars@.len() > 0,
            index <= chars@.len(),
            forall|i: int|
                0 <= i < index ==> ('a' <= #[trigger] component@[i] && component@[i] <= 'z') || (
                '0' <= component@[i] && component@[i] <= '9') || component@[i] == '_',
        decreases chars@.len() - index,
    {
        let character = chars[index];
        if !((character >= 'a' && character <= 'z') || (character >= '0' && character <= '9')
            || character == '_') {
            assert(component@[index as int] == character);
            return false;
        }
        index += 1;
    }
    true
}

/// Returns whether a string is a component of a configuration path.
pub fn valid_configuration_component(component: &str, allow_wildcard: bool) -> (valid: bool)
    ensures
        valid == is_configuration_component(component@, allow_wildcard),
{
    if allow_wildcard {
        let canonical = strip_suffix(component, "[]");
        same_text(canonical.as_str(), "*") || plain_component(canonical.as_str())
    } else {
        plain_component(component)
    }
}

/// Checks a configuration path.
pub fn validate_configuration_path(path: &str, allow_wildcard: bool) -> (result: Result<
    (),
    &'static str,
>)
    ensures
        match result {
            Ok(()) => configuration_path_defect(path@, allow_wildcard) is None,
            Err(message) => configuration_path_defect(path@, allow_wildcard) == Some(message@),
        },
{
    if path.as_bytes().len() > 256 {
        return Err("path exceeds 256 bytes");
    }
    let components = split_text(path, '.');
    let ghost all = split_on(path@, '.');
    let mut index: usize = 0;
    while index < components.len()
        invariant
            all == texts(components@),
            all == split_on(path@, '.'),
            encode_utf8(path@).len() <= 256,
            index <= components@.len(),
            forall|i: int|
                0 <= i < index ==> is_configuration_component(#[trigger] all[i], allow_wildcard),
        decreases components@.len() - index,
    {
        assert(all[index as int] == components@[index as int]@);
        if !valid_configuration_component(components[index].as_str(), allow_wildcard) {
            assert(!is_configuration_component(
                split_on(path@, '.')[index as int],
                allow_wildcard,
            ));
            return Err("path contains an invalid component");
        }
        index += 1;
    }
    assert(all.len() == components@.len());
    if components.len() < 2 {
        return Err("path must contain a table and field");
    }
    Ok(())
}

/// Whether a component of a path is what a secret field names.
pub open spec fn component_matches(actual: Seq<char>, expected: Seq<char>) -> bool {
    without_suffix(expected, "[]"@) == "*"@ || without_suffix(actual, "[]"@) == without_suffix(
        expected,
        "[]"@,
    )
}

/// Whether a secret field names a path.
pub open spec fn names_path(secret: Seq<char>, path: Seq<char>) -> bool {
    let actual = split_on(path, '.');
    let expected = split_on(secret, '.');
    &&& actual.len() == expected.len()
    &&& forall|i: int|
        0 <= i < actual.len() ==> component_matches(#[trigger] actual[i], expected[i])
}

/// Whether one of the secret fields names a path.
pub open spec fn is_secret_path(path: Seq<char>, secrets: Seq<Seq<char>>) -> bool {
    exists|i: int| 0 <= i < secrets.len() && names_path(#[trigger] secrets[i], path)
}

fn secret_names_path(secret: &str, path: &str) -> (found: bool)
    ensures
        found == names_path(secret@, path@),
{
    let actual = split_text(path, '.');
    let expected = split_text(secret, '.');
    let ghost actual_all = split_on(path@, '.');
    let ghost expected_all = split_on(secret@, '.');
    assert(actual_all.len() == actual@.len());
    assert(expected_all.len() == expected@.len());
    if actual.len() != expected.len() {
        return false;
    }
    let mut index: usize = 0;
    while index < actual.len()
        invariant
            actual_all == texts(actual@),
            expected_all == texts(expected@),
            actual_all == split_on(path@, '.'),
            expected_all == split_on(secret@, '.'),
            actual@.len() == expected@.len(),
            index <= actual@.len(),
            forall|i: int|
                0 <= i < index ==> component_matches(#[trigger] actual_all[i], expected_all[i]),
        decreases actual@.len() - index,
    {
        assert(actual_all[index as int] == actual@[index as int]@);
        assert(expected_all[index as int] == expected@[index as int]@);
        let actual_name = strip_suffix(actual[index].as_str(), "[]");
        let expected_name = strip_suffix(expected[index].as_str(), "[]");
        if !same_text(expected_name.as_str(), "*") && !same_text(
            actual_name.as_str(),
            expected_name.as_str(),
        ) {
            assert(!component_matches(
                split_on(path@, '.')[index as int],
                split_on(secret@, '.')[index as int],
            ));
            return false;
        }
        index += 1;
    }
    true
}

/// Returns whether one of the secret fields names a path.
pub fn configuration_path_is_secret(path: &str, secret_fields: &Vec<String>) -> (secret: bool)
    ensures
        secret == is_secret_path(path@, texts(secret_fields@)),
{
    let ghost all = texts(secret_fields@);
    let mut index: usize = 0;
    while index < secret_fields.len()
        invariant
            all == texts(secret_fields@),
            index <= secret_fields@.len(),
            forall|i: int| 0 <= i < index ==> !names_path(#[trigger] all[i], path@),
        decreases secret_fields@.len() - index,
    {
        assert(all[index as int] == secret_fields@[index as int]@);
        if secret_names_path(secret_fields[index].as_str(), path) {
            assert(names_path(all[index as int], path@));
            return true;
        }
        index += 1;
    }
    false
}

// Environment keys.
/// A character with ASCII letters in upper case.
pub open spec fn upper_char(character: char) -> char {
    if 'a' <= character && character <= 'z' {
        (character as u32 - 32) as char
    } else {
        character
    }
}

/// A string with ASCII letters in upper case.
pub open spec fn upper(text: Seq<char>) -> Seq<char> {
    text.map_values(|character: char| upper_char(character))
}

/// The environment key of the first `count` components of a configuration path.
pub open spec fn key_of(components: Seq<Seq<char>>, count: int) -> Seq<char>
    decreases count,
{
    if count <= 0 {
        "OMNIUS"@
    } else {
        key_of(components, count - 1) + "__"@ + upper(components[count - 1])
    }
}

/// The environment key of a configuration path.
pub open spec fn environment_key(path: Seq<char>) -> Seq<char> {
    key_of(split_on(path, '.'), split_on(path, '.').len() as int)
}

fn upper_text(text: &str) -> (result: String)
    ensures
        result@ == upper(text@),
{
    let chars = chars_of(text);
    let mut result: Vec<char> = Vec::new();
    let mut index: usize = 0;
    while index < chars.len()
        invariant
            chars@ == text@,
            index <= chars@.len(),
            result@ == upper(text@).take(index as int),
        decreases chars@.len() - index,
    {
        let character = chars[index];
        if character >= 'a' && character <= 'z' {
            let code: u8 = (character as u32 - 32) as u8;
            result.push(code as char);
        } else {
            result.push(character);
        }
        index += 1;
        assert(result@ =~= upper(text@).take(index as int));
    }
    assert(upper(text@).take(index as int) =~= upper(text@));
    text_of(result.as_slice())
}

/// Returns the environment key of a configuration path.
pub fn hierarchical_environment_key(path: &str) -> (key: String)
    ensures
        key@ == environment_key(path@),
{
    let components = split_text(path, '.');
    let ghost all = split_on(path@, '.');
    let mut key = "OMNIUS".to_owned();
    let mut index: usize = 0;
    while index < components.len()
        invariant
            all == texts(components@),
            index <= components@.len(),
            key@ == key_of(all, index as int),
        decreases components@.len() - index,
    {
        assert(all[index as int] == components@[index as int]@);
        let part = upper_text(components[index].as_str());
        key.append("__");
        key.append(part.as_str());
        index += 1;
    }
    key
}

// Placeholders.
/// `text` without the occurrences of `part`, taken from the left.
pub open spec fn without_part(text: Seq<char>, part: Seq<char>) -> Seq<char> {
    text_replaced(text, part, Seq::empty())
}

/// Whether a default value holds a placeholder other than the service name.
pub open spec fn has_placeholder(value: Seq<char>) -> bool {
    let rest = without_part(value, "{{service-name}}"@);
    occurs("${"@, value) || occurs("{{"@, rest) || occurs("}}"@, rest)
}

/// Returns `text` without the occurrences of `part`, taken from the left.
pub fn remove_part(text: &str, part: &str) -> (result: String)
    ensures
        result@ == without_part(text@, part@),
{
    proof {
        reveal_strlit("");
        assert(""@ =~= Seq::<char>::empty());
    }
    replace_text(text, part, "")
}

/// Returns whether a default value holds a placeholder other than the service name.
pub fn has_unsupported_placeholder(value: &str) -> (found: bool)
    ensures
        found == has_placeholder(value@),
{
    if contains_text(value, "${") {
        return true;
    }
    let rest = remove_part(value, "{{service-name}}");
    contains_text(rest.as_str(), "{{") || contains_text(rest.as_str(), "}}")
}

// Contracts.
/// The check of a secret field of a module.
pub open spec fn secret_check(module: Seq<char>) -> spec_fn(Seq<char>) -> Option<Seq<char>> {
    |secret: Seq<char>|
        match configuration_path_defect(secret, true) {
            Some(message) => Some(
                "module `"@ + module + "` has invalid secret field `"@ + secret + "`: "@ + message,
            ),
            None => None,
        }
}

/// The paths of configuration fields.
pub open spec fn field_paths(fields: Seq<ConfigurationField>) -> Seq<Seq<char>> {
    fields.map_values(|field: ConfigurationField| field.path@)
}

/// What is wrong with the sources of a configuration field.
pub open spec fn field_source_defect(module: Seq<char>, field: ConfigurationField) -> Option<
    Seq<char>,
> {
    if field.reference_default is Some && field.environment is Some {
        Some(
            "module `"@ + module + "` configuration field `"@ + field.path@
                + "` cannot have both a reference default and a required environment binding"@,
        )
    } else if field.required && field.reference_default is None && field.environment is None {
        Some(
            "module `"@ + module + "` required configuration field `"@ + field.path@
                + "` needs a reference default or environment binding"@,
        )
    } else if !field.required && field.environment is Some {
        Some(
            "module `"@ + module + "` optional configuration field `"@ + field.path@
                + "` cannot declare a required environment binding"@,
        )
    } else if field.environment is Some && field.environment->Some_0@ != environment_key(
        field.path@,
    ) {
        Some(
            "module `"@ + module + "` configuration field `"@ + field.path@
                + "` must bind exact environment key `"@ + environment_key(field.path@) + "`"@,
        )
    } else if field.reference_default is Some && (field.reference_default->Some_0 matches
        ConfigurationValue::String(value) && has_placeholder(value@)) {
        Some(
            "module `"@ + module + "` configuration default for `"@ + field.path@
                + "` contains an unsupported placeholder"@,
        )
    } else {
        None
    }
}

/// What is wrong with the configuration field at `at` of a module.
pub open spec fn field_defect(
    module: Seq<char>,
    secrets: Seq<Seq<char>>,
    fields: Seq<ConfigurationField>,
    at: int,
) -> Option<Seq<char>> {
    let field = fields[at];
    if configuration_path_defect(field.path@, false) is Some {
        Some(
            "module `"@ + module + "` has invalid configuration field `"@ + field.path@ + "`: "@
                + configuration_path_defect(field.path@, false)->Some_0,
        )
    } else if repeats(field_paths(fields), at) {
        Some(
            "module `"@ + module + "` has duplicate configuration field `"@ + field.path@ + "`"@,
        )
    } else if field.reference_default is Some && !field.reference_default->Some_0.has_type(
        field.value_type,
    ) {
        Some(
            "module `"@ + module + "` configuration default for `"@ + field.path@
                + "` does not match declared type"@,
        )
    } else if field.reference_default is Some && is_secret_path(field.path@, secrets) {
        Some(
            "module `"@ + module + "` secret configuration field `"@ + field.path@
                + "` cannot have a reference default"@,
        )
    } else {
        field_source_defect(module, field)
    }
}

/// What is wrong with the first `count` configuration fields of a module.
pub open spec fn fields_defect(
    module: Seq<char>,
    secrets: Seq<Seq<char>>,
    fields: Seq<ConfigurationField>,
    count: int,
) -> Option<Seq<char>>
    decreases count,
{
    if count <= 0 {
        None
    } else {
        or_else(
            fields_defect(module, secrets, fields, count - 1),
            field_defect(module, secrets, fields, count - 1),
        )
    }
}

/// What is wrong with the configuration of a module.
pub open spec fn configuration_defect(module: ModuleDefinition) -> Option<Seq<char>> {
    let configuration = module.configuration;
    let secrets = texts(configuration.secret_fields@);
    or_else(
        id_defect(configuration.prefix@),
        or_else(
            match configuration.schema {
                Some(schema) => match relative_path_defect(schema@) {
                    Some(reason) => Some(
                        "module `"@ + module.id@ + "` configuration schema: "@ + reason,
                    ),
                    None => None,
                },
                None => None,
            },
            or_else(
                unique_defect(secrets, module.id@, "configuration.secret_fields"@),
                or_else(
                    first_finding(secrets, secret_check(module.id@)),
                    fields_defect(
                        module.id@,
                        secrets,
                        configuration.fields@,
                        configuration.fields@.len() as int,
                    ),
                ),
            ),
        ),
    )
}

proof fn lemma_fields_defect_stays(
    module: Seq<char>,
    secrets: Seq<Seq<char>>,
    fields: Seq<ConfigurationField>,
    count: int,
    total: int,
)
    requires
        fields_defect(module, secrets, fields, count) is Some,
        count <= total,
    ensures
        fields_defect(module, secrets, fields, total) == fields_defect(
            module,
            secrets,
            fields,
            count,
        ),
    decreases total - count,
{
    if count < total {
        lemma_fields_defect_stays(module, secrets, fields, count, total - 1);
    }
}

fn validate_secret_fields(module: &ModuleDefinition) -> (result: Result<(), CatalogError>)
    ensures
        outcome(result) == first_finding(
            texts(module.configuration.secret_fields@),
            secret_check(module.id@),
        ),
{
    let ghost all = texts(module.configuration.secret_fields@);
    let ghost check = secret_check(module.id@);
    let mut index: usize = 0;
    while index < module.configuration.secret_fields.len()
        invariant
            all == texts(module.configuration.secret_fields@),
            check == secret_check(module.id@),
            index <= all.len(),
            first_finding(all.take(index as int), check) is None,
        decreases all.len() - index,
    {
        let secret = module.configuration.secret_fields[index].as_str();
        assert(all[index as int] == secret@);
        proof {
            lemma_finding_step(all, index as int, check);
        }
        match validate_configuration_path(secret, true) {
            Ok(()) => {},
            Err(message) => {
                proof {
                    lemma_finding_prefix(all, index + 1, check);
                }
                return Err(
                    CatalogError::new(
                        join6(
                            "module `",
                            module.id.as_str(),
                            "` has invalid secret field `",
                            secret,
                            "`: ",
                            message,
                        ),
                    ),
                );
            },
        }
        index += 1;
    }
    assert(all.take(index as int) =~= all);
    Ok(())
}

fn validate_field_sources(module: &str, field: &ConfigurationField) -> (result: Result<
    (),
    CatalogError,
>)
    ensures
        outcome(result) == field_source_defect(module@, *field),
{
    let path = field.path.as_str();
    if field.reference_default.is_some() && field.environment.is_some() {
        return Err(
            CatalogError::new(
                join5(
                    "module `",
                    module,
                    "` configuration field `",
                    path,
                    "` cannot have both a reference default and a required environment binding",
                ),
            ),
        );
    }
    if field.required && field.reference_default.is_none() && field.environment.is_none() {
        return Err(
            CatalogError::new(
                join5(
                    "module `",
                    module,
                    "` required configuration field `",
                    path,
                    "` needs a reference default or environment binding",
                ),
            ),
        );
    }
    if !field.required && field.environment.is_some() {
        return Err(
            CatalogError::new(
                join5(
                    "module `",
                    module,
                    "` optional configuration field `",
                    path,
                    "` cannot declare a required environment binding",
                ),
            ),
        );
    }
    if let Some(environment) = &field.environment {
        let expected = hierarchical_environment_key(path);
        if !same_text(environment.as_str(), expected.as_str()) {
            return Err(
                CatalogError::new(
                    join7(
                        "module `",
                        module,
                        "` configuration field `",
                        path,
                        "` must bind exact environment key `",
                        expected.as_str(),
                        "`",
                    ),
                ),
            );
        }
    }
    if let Some(ConfigurationValue::String(value)) = &field.reference_default {
        if has_unsupported_placeholder(value.as_str()) {
            return Err(
                CatalogError::new(
                    join5(
                        "module `",
                        module,
                        "` configuration default for `",
                        path,
                        "` contains an unsupported placeholder",
                    ),
                ),
            );
        }
    }
    Ok(())
}

/// Checks the configuration contract of a module.
pub fn validate_configuration(module: &ModuleDefinition) -> (result: Result<(), CatalogError>)
    ensures
        outcome(result) == configuration_defect(*module),
{
    let id = module.id.as_str();
    match validate_id(module.configuration.prefix.as_str()) {
        Ok(()) => {},
        Err(error) => {
            return Err(error);
        },
    }
    if let Some(schema) = &module.configuration.schema {
        match validate_relative_path(schema.as_str()) {
            Ok(()) => {},
            Err(reason) => {
                return Err(
                    CatalogError::new(join4("module `", id, "` configuration schema: ", reason)),
                );
            },
        }
    }
    match validate_unique_list(
        &module.configuration.secret_fields,
        id,
        "configuration.secret_fields",
    ) {
        Ok(()) => {},
        Err(error) => {
            return Err(error);
        },
    }
    match validate_secret_fields(module) {
        Ok(()) => {},
        Err(error) => {
            return Err(error);
        },
    }
    validate_fields(module)
}

fn validate_fields(module: &ModuleDefinition) -> (result: Result<(), CatalogError>)
    ensures
        outcome(result) == fields_defect(
            module.id@,
            texts(module.configuration.secret_fields@),
            module.configuration.fields@,
            module.configuration.fields@.len() as int,
        ),
{
    let id = module.id.as_str();
    let ghost fields = module.configuration.fields@;
    let ghost secrets = texts(module.configuration.secret_fields@);
    let ghost paths = field_paths(fields);
    let ghost total = fields.len() as int;
    let mut seen: TextSet = Sorted::new();
    let mut index: usize = 0;
    while index < module.configuration.fields.len()
        invariant
            id@ == module.id@,
            fields == module.configuration.fields@,
            secrets == texts(module.configuration.secret_fields@),
            paths == field_paths(fields),
            total == fields.len(),
            index <= total,
            fields_defect(module.id@, secrets, fields, index as int) is None,
            forall|value: Seq<char>| #[trigger]
                seen@.contains(value) <==> exists|j: int|
                    0 <= j < index && #[trigger] paths[j] == value,
        decreases total - index,
    {
        let field = &module.configuration.fields[index];
        let path = field.path.as_str();
        proof {
            if field_defect(module.id@, secrets, fields, index as int) is Some {
                lemma_fields_defect_stays(module.id@, secrets, fields, index + 1, total);
            }
            assert(paths[index as int] == path@);
        }
        match validate_configuration_path(path, false) {
            Ok(()) => {},
            Err(message) => {
                return Err(
                    CatalogError::new(
                        join6(
                            "module `",
                            id,
                            "` has invalid configuration field `",
                            path,
                            "`: ",
                            message,
                        ),
                    ),
                );
            },
        }
        let ghost before = seen@;
        let added = set_add(&mut seen, path);
        proof {
            lemma_seen_grows(before, seen@, paths, index as int);
        }
        if !added {
            return Err(
                CatalogError::new(
                    join5("module `", id, "` has duplicate configuration field `", path, "`"),
                ),
            );
        }
        if let Some(value) = &field.reference_default {
            if !value.matches(field.value_type) {
                return Err(
                    CatalogError::new(
                        join5(
                            "module `",
                            id,
                            "` configuration default for `",
                            path,
                            "` does not match declared type",
                        ),
                    ),
                );
            }
            if configuration_path_is_secret(path, &module.configuration.secret_fields) {
                return Err(
                    CatalogError::new(
                        join5(
                            "module `",
                            id,
                            "` secret configuration field `",
                            path,
                            "` cannot have a reference default",
                        ),
                    ),
                );
            }
        }
        match validate_field_sources(id, field) {
            Ok(()) => {},
            Err(error) => {
                return Err(error);
            },
        }
        index += 1;
    }
    Ok(())
}

} // verus!
