//! Validation of module descriptors and runtime dependency descriptors.

use vstd::prelude::*;
use vstd::string::*;

use crate::findings::{
    first_finding, lemma_finding_prefix, lemma_finding_step, or_else,
};
use crate::modules::{
    outcome, CatalogError, CompositionCrate, ModuleDefinition,
};
use crate::ordered::{set_add, set_holds, Sorted, TextSet};
use crate::paths::{relative_path_defect, validate_relative_path};
use crate::region::{is_region_id, valid_id};
use crate::requirements::ApplicationRequirement;
use crate::text::{
    chars_of, contains_char, join3, join4, join5, same_text, split_on, split_text, text_between,
    texts, trim_text, trimmed,
};

verus! {

// Names.
/// What is wrong with a module or region identifier.
pub open spec fn id_defect(value: Seq<char>) -> Option<Seq<char>> {
    if is_region_id(value) {
        None
    } else {
        Some("invalid module or region id `"@ + value + "`"@)
    }
}

/// Checks a module or region identifier.
pub fn validate_id(value: &str) -> (result: Result<(), CatalogError>)
    ensures
        outcome(result) == id_defect(value@),
{
    if valid_id(value) {
        Ok(())
    } else {
        Err(CatalogError::new(join3("invalid module or region id `", value, "`")))
    }
}

/// Whether a character is an ASCII control character.
pub open spec fn is_control(character: char) -> bool {
    (character as u32) < 32 || character as u32 == 127
}

/// Whether a string holds an ASCII control character.
pub open spec fn has_control(text: Seq<char>) -> bool {
    exists|i: int| 0 <= i < text.len() && is_control(#[trigger] text[i])
}

/// Returns whether a string holds an ASCII control character.
pub fn contains_control(text: &str) -> (found: bool)
    ensures
        found == has_control(text@),
{
    let chars = chars_of(text);
    let mut index: usize = 0;
    while index < chars.len()
        invariant
            chars@ == text@,
            index <= chars@.len(),
            forall|i: int| 0 <= i < index ==> !is_control(#[trigger] text@[i]),
        decreases chars@.len() - index,
    {
        let code: u32 = chars[index] as u32;
        if code < 32 || code == 127 {
            assert(is_control(text@[index as int]));
            return true;
        }
        index += 1;
    }
    false
}

/// Whether a character is a lowercase letter or a digit.
pub open spec fn is_lower_or_digit(character: char) -> bool {
    ('a' <= character && character <= 'z') || ('0' <= character && character <= '9')
}

/// Whether a string is a Compose service or volume name.
pub open spec fn is_compose_name(value: Seq<char>) -> bool {
    &&& 0 < value.len() <= 63
    &&& is_lower_or_digit(value[0])
    &&& is_lower_or_digit(value.last())
    &&& forall|i: int|
        0 <= i < value.len() ==> is_lower_or_digit(#[trigger] value[i]) || value[i] == '-'
}

fn lower_or_digit(character: char) -> (result: bool)
    ensures
        result == is_lower_or_digit(character),
{
    (character >= 'a' && character <= 'z') || (character >= '0' && character <= '9')
}

/// Returns whether a string is a Compose service or volume name.
pub fn valid_compose_name(value: &str) -> (valid: bool)
    ensures
        valid == is_compose_name(value@),
{
    let chars = chars_of(value);
    if chars.len() == 0 || chars.len() > 63 || !lower_or_digit(chars[0]) || !lower_or_digit(
        chars[chars.len() - 1],
    ) {
        return false;
    }
    let mut index: usize = 0;
    while index < chars.len()
        invariant
            chars@ == value@,
            0 < chars@.len() <= 63,
            is_lower_or_digit(value@[0]),
            is_lower_or_digit(value@.last()),
            index <= chars@.len(),
            forall|i: int|
                0 <= i < index ==> is_lower_or_digit(#[trigger] value@[i]) || value@[i] == '-',
        decreases chars@.len() - index,
    {
        if !lower_or_digit(chars[index]) && chars[index] != '-' {
            assert(!(is_lower_or_digit(value@[index as int]) || value@[index as int] == '-'));
            return false;
        }
        index += 1;
    }
    true
}

/// Whether a character is an uppercase letter or an underscore.
pub open spec fn is_upper_or_underscore(character: char) -> bool {
    ('A' <= character && character <= 'Z') || character == '_'
}

/// Whether a string is an environment variable name.
pub open spec fn is_environment_name(value: Seq<char>) -> bool {
    &&& 0 < value.len() <= 256
    &&& is_upper_or_underscore(value[0])
    &&& forall|i: int|
        0 <= i < value.len() ==> is_upper_or_underscore(#[trigger] value[i]) || ('0' <= value[i]
            && value[i] <= '9')
}

/// Returns whether a string is an environment variable name.
pub fn valid_environment_name(value: &str) -> (valid: bool)
    ensures
        valid == is_environment_name(value@),
{
    let chars = chars_of(value);
    if chars.len() == 0 || chars.len() > 256 {
        return false;
    }
    if !((chars[0] >= 'A' && chars[0] <= 'Z') || chars[0] == '_') {
        return false;
    }
    let mut index: usize = 0;
    while index < chars.len()
        invariant
            chars@ == value@,
            0 < chars@.len() <= 256,
            is_upper_or_underscore(value@[0]),
            index <= chars@.len(),
            forall|i: int|
                0 <= i < index ==> is_upper_or_underscore(#[trigger] value@[i]) || ('0' <= value@[i]
                    && value@[i] <= '9'),
        decreases chars@.len() - index,
    {
        let character = chars[index];
        if !((character >= 'A' && character <= 'Z') || character == '_' || (character >= '0'
            && character <= '9')) {
            assert(!(is_upper_or_underscore(value@[index as int]) || ('0' <= value@[index as int]
                && value@[index as int] <= '9')));
            return false;
        }
        index += 1;
    }
    true
}

/// Whether a string is nothing but white space.
pub open spec fn is_hollow(text: Seq<char>) -> bool {
    trimmed(text).len() == 0
}

pub(crate) fn hollow(text: &str) -> (result: bool)
    ensures
        result == is_hollow(text@),
{
    trim_text(text).is_empty()
}

/// Whether one of the strings is nothing but white space.
pub open spec fn has_hollow(list: Seq<Seq<char>>) -> bool {
    exists|i: int| 0 <= i < list.len() && is_hollow(#[trigger] list[i])
}

pub(crate) fn any_hollow(list: &Vec<String>) -> (found: bool)
    ensures
        found == has_hollow(texts(list@)),
{
    let ghost all = texts(list@);
    let mut index: usize = 0;
    while index < list.len()
        invariant
            all == texts(list@),
            index <= list@.len(),
            forall|i: int| 0 <= i < index ==> !is_hollow(#[trigger] all[i]),
        decreases list@.len() - index,
    {
        assert(all[index as int] == list@[index as int]@);
        if hollow(list[index].as_str()) {
            assert(is_hollow(all[index as int]));
            return true;
        }
        index += 1;
    }
    false
}

// Lists.
/// Whether the string at `at` stands earlier in the list.
pub open spec fn repeats(list: Seq<Seq<char>>, at: int) -> bool {
    exists|j: int| 0 <= j < at && #[trigger] list[j] == list[at]
}

/// The first of the first `count` strings that stands earlier in the list.
pub open spec fn first_repeated(list: Seq<Seq<char>>, count: int) -> Option<Seq<char>>
    decreases count,
{
    if count <= 0 {
        None
    } else {
        or_else(
            first_repeated(list, count - 1),
            if repeats(list, count - 1) {
                Some(list[count - 1])
            } else {
                None
            },
        )
    }
}

/// What is wrong with a list that may not repeat anything.
pub open spec fn unique_defect(
    list: Seq<Seq<char>>,
    module: Seq<char>,
    field: Seq<char>,
) -> Option<Seq<char>> {
    match first_repeated(list, list.len() as int) {
        Some(value) => Some("module `"@ + module + "` has duplicate `"@ + value + "` in "@ + field),
        None => None,
    }
}

proof fn lemma_first_repeated_stays(list: Seq<Seq<char>>, count: int, total: int)
    requires
        first_repeated(list, count) is Some,
        count <= total,
    ensures
        first_repeated(list, total) == first_repeated(list, count),
    decreases total - count,
{
    if count < total {
        lemma_first_repeated_stays(list, count, total - 1);
    }
}

/// A list without a first repetition repeats nothing.
pub proof fn lemma_no_repetition(list: Seq<Seq<char>>, count: int)
    requires
        0 <= count <= list.len(),
        first_repeated(list, count) is None,
    ensures
        forall|i: int, j: int| 0 <= i < j < count ==> #[trigger] list[i] != #[trigger] list[j],
    decreases count,
{
    if count > 0 {
        lemma_no_repetition(list, count - 1);
        assert forall|i: int, j: int| 0 <= i < j < count implies #[trigger] list[i]
            != #[trigger] list[j] by {
            if j == count - 1 {
                assert(!repeats(list, j));
            }
        }
    }
}

/// Extends a set of the strings seen so far by the one at `index`.
pub proof fn lemma_seen_grows(
    before: Seq<Seq<char>>,
    after: Seq<Seq<char>>,
    list: Seq<Seq<char>>,
    index: int,
)
    requires
        0 <= index < list.len(),
        forall|value: Seq<char>| #[trigger]
            before.contains(value) <==> exists|j: int|
                0 <= j < index && #[trigger] list[j] == value,
        forall|value: Seq<char>| #[trigger]
            after.contains(value) <==> before.contains(value) || value == list[index],
    ensures
        forall|value: Seq<char>| #[trigger]
            after.contains(value) <==> exists|j: int|
                0 <= j < index + 1 && #[trigger] list[j] == value,
        before.contains(list[index]) <==> repeats(list, index),
{
    assert forall|value: Seq<char>| #[trigger]
        after.contains(value) <==> exists|j: int|
            0 <= j < index + 1 && #[trigger] list[j] == value by {
        assert(before.contains(value) <==> exists|j: int|
            0 <= j < index && #[trigger] list[j] == value);
        if value == list[index] {
            assert(list[index] == value);
        }
    }
}

/// Checks that a list of strings repeats nothing.
pub fn validate_unique_list(values: &Vec<String>, module: &str, field: &str) -> (result: Result<
    (),
    CatalogError,
>)
    ensures
        outcome(result) == unique_defect(texts(values@), module@, field@),
{
    let ghost all = texts(values@);
    let mut seen: TextSet = Sorted::new();
    let mut index: usize = 0;
    while index < values.len()
        invariant
            all == texts(values@),
            index <= values@.len(),
            first_repeated(all, index as int) is None,
            forall|value: Seq<char>| #[trigger]
                seen@.contains(value) <==> exists|j: int|
                    0 <= j < index && #[trigger] all[j] == value,
        decreases values@.len() - index,
    {
        let value = values[index].as_str();
        let ghost before = seen@;
        assert(all[index as int] == value@);
        let added = set_add(&mut seen, value);
        proof {
            lemma_seen_grows(before, seen@, all, index as int);
        }
        if !added {
            proof {
                lemma_first_repeated_stays(all, index + 1, all.len() as int);
            }
            return Err(
                CatalogError::new(
                    crate::text::join6(
                        "module `",
                        module,
                        "` has duplicate `",
                        value,
                        "` in ",
                        field,
                    ),
                ),
            );
        }
        index += 1;
    }
    Ok(())
}

// Ownership.
/// The last place before `end` at which `text` holds `character`, or -1.
pub open spec fn last_place(text: Seq<char>, character: char, end: int) -> int
    decreases end,
{
    if end <= 0 {
        -1
    } else if text[end - 1] == character {
        end - 1
    } else {
        last_place(text, character, end - 1)
    }
}

/// `text` with every `character` turned into `other`.
pub open spec fn char_replaced(text: Seq<char>, character: char, other: Seq<char>) -> Seq<char>
    decreases text.len(),
{
    if text.len() == 0 {
        Seq::empty()
    } else {
        char_replaced(text.drop_last(), character, other) + (if text.last() == character {
            other
        } else {
            seq![text.last()]
        })
    }
}

/// Whether a path component has a wildcard beside other characters.
pub open spec fn is_partial_wildcard(component: Seq<char>) -> bool {
    component.contains('*') && component != "*"@
}

/// Whether a managed path pattern is supported: at most one component is a wildcard, and no
/// other component holds one.
pub open spec fn is_supported_pattern(path: Seq<char>) -> bool {
    let components = split_on(path, '/');
    &&& forall|i: int, j: int|
        0 <= i < j < components.len() ==> !(#[trigger] components[i] == "*"@
            && #[trigger] components[j] == "*"@)
    &&& forall|i: int|
        0 <= i < components.len() ==> !is_partial_wildcard(#[trigger] components[i])
}

/// The check of an owned path of a module.
pub open spec fn owned_path_check(module: Seq<char>) -> spec_fn(Seq<char>) -> Option<Seq<char>> {
    |path: Seq<char>|
        match relative_path_defect(path) {
            Some(reason) => Some("module `"@ + module + "` ownership: "@ + reason),
            None => None,
        }
}

/// The check of a managed-region declaration of a module: a path pattern and an identifier
/// behind a number sign, or a description without one.
pub open spec fn region_reference_check(module: Seq<char>) -> spec_fn(Seq<char>) -> Option<
    Seq<char>,
> {
    |reference: Seq<char>|
        {
            let place = last_place(reference, '#', reference.len() as int);
            if place < 0 {
                if is_hollow(reference) || has_control(reference) {
                    Some(
                        "module `"@ + module + "` has invalid operational ownership declaration `"@
                            + reference + "`"@,
                    )
                } else {
                    None
                }
            } else {
                let path = reference.take(place);
                if !is_supported_pattern(path) {
                    Some(
                        "module `"@ + module + "` has unsupported managed path pattern `"@ + path
                            + "`"@,
                    )
                } else {
                    or_else(
                        owned_path_check(module)(char_replaced(path, '*', "placeholder"@)),
                        id_defect(reference.skip(place + 1)),
                    )
                }
            }
        }
}

/// What is wrong with what a module owns.
pub open spec fn ownership_defect(module: ModuleDefinition) -> Option<Seq<char>> {
    let owned = module.generator_ownership;
    or_else(
        unique_defect(texts(owned.kit_owned@), module.id@, "generator_ownership.kit_owned"@),
        or_else(
            unique_defect(
                texts(owned.managed_regions@),
                module.id@,
                "generator_ownership.managed_regions"@,
            ),
            or_else(
                unique_defect(texts(owned.derived@), module.id@, "generator_ownership.derived"@),
                or_else(
                    first_finding(texts(owned.kit_owned@), owned_path_check(module.id@)),
                    or_else(
                        first_finding(texts(owned.derived@), owned_path_check(module.id@)),
                        first_finding(
                            texts(owned.managed_regions@),
                            region_reference_check(module.id@),
                        ),
                    ),
                ),
            ),
        ),
    )
}

fn validate_owned_path(path: &str, module: &str) -> (result: Result<(), CatalogError>)
    ensures
        outcome(result) == owned_path_check(module@)(path@),
{
    match validate_relative_path(path) {
        Ok(()) => Ok(()),
        Err(reason) => Err(
            CatalogError::new(join4("module `", module, "` ownership: ", reason)),
        ),
    }
}

fn validate_owned_paths(paths: &Vec<String>, module: &str) -> (result: Result<(), CatalogError>)
    ensures
        outcome(result) == first_finding(texts(paths@), owned_path_check(module@)),
{
    let ghost all = texts(paths@);
    let ghost check = owned_path_check(module@);
    let mut index: usize = 0;
    while index < paths.len()
        invariant
            all == texts(paths@),
            check == owned_path_check(module@),
            index <= paths@.len(),
            first_finding(all.take(index as int), check) is None,
        decreases paths@.len() - index,
    {
        assert(all[index as int] == paths@[index as int]@);
        proof {
            lemma_finding_step(all, index as int, check);
        }
        match validate_owned_path(paths[index].as_str(), module) {
            Ok(()) => {},
            Err(error) => {
                proof {
                    lemma_finding_prefix(all, index + 1, check);
                }
                return Err(error);
            },
        }
        index += 1;
    }
    assert(all.take(index as int) =~= all);
    Ok(())
}

fn replace_char(text: &str, character: char, other: &str) -> (result: String)
    ensures
        result@ == char_replaced(text@, character, other@),
{
    let chars = chars_of(text);
    let mut result = String::new();
    let mut index: usize = 0;
    assert(result@ =~= char_replaced(text@.take(0), character, other@));
    while index < chars.len()
        invariant
            chars@ == text@,
            index <= chars@.len(),
            result@ == char_replaced(text@.take(index as int), character, other@),
        decreases chars@.len() - index,
    {
        assert(text@.take(index + 1).drop_last() =~= text@.take(index as int));
        assert(text@.take(index + 1).last() == chars@[index as int]);
        if chars[index] == character {
            result.append(other);
        } else {
            let ghost before = result@;
            result.push(chars[index]);
            assert(result@ =~= before + seq![chars@[index as int]]);
        }
        index += 1;
    }
    assert(text@.take(index as int) =~= text@);
    result
}

fn supported_pattern(path: &str) -> (supported: bool)
    ensures
        supported == is_supported_pattern(path@),
{
    let components = split_text(path, '/');
    let ghost all = split_on(path@, '/');
    let mut wildcard: Option<usize> = None;
    let mut index: usize = 0;
    while index < components.len()
        invariant
            all == texts(components@),
            all == split_on(path@, '/'),
            index <= components@.len(),
            match wildcard {
                Some(at) => at < index && all[at as int] == "*"@ && forall|i: int|
                    0 <= i < index && #[trigger] all[i] == "*"@ ==> i == at,
                None => forall|i: int| 0 <= i < index ==> #[trigger] all[i] != "*"@,
            },
            forall|i: int| 0 <= i < index ==> !is_partial_wildcard(#[trigger] all[i]),
        decreases components@.len() - index,
    {
        let component = components[index].as_str();
        assert(all[index as int] == component@);
        if same_text(component, "*") {
            match wildcard {
                Some(at) => {
                    assert(split_on(path@, '/')[at as int] == "*"@);
                    assert(split_on(path@, '/')[index as int] == "*"@);
                    return false;
                },
                None => {
                    wildcard = Some(index);
                },
            }
        } else if contains_char(component, '*') {
            assert(is_partial_wildcard(split_on(path@, '/')[index as int]));
            return false;
        }
        index += 1;
    }
    true
}

fn validate_region_reference(reference: &str, module: &str) -> (result: Result<(), CatalogError>)
    ensures
        outcome(result) == region_reference_check(module@)(reference@),
{
    let chars = chars_of(reference);
    let mut end: usize = chars.len();
    while end > 0 && chars[end - 1] != '#'
        invariant
            chars@ == reference@,
            end <= chars@.len(),
            last_place(reference@, '#', reference@.len() as int) == last_place(
                reference@,
                '#',
                end as int,
            ),
        decreases end,
    {
        end -= 1;
    }
    if end == 0 {
        if hollow(reference) || contains_control(reference) {
            return Err(
                CatalogError::new(
                    join5(
                        "module `",
                        module,
                        "` has invalid operational ownership declaration `",
                        reference,
                        "`",
                    ),
                ),
            );
        }
        return Ok(());
    }
    let path = text_between(&chars, 0, end - 1);
    let id = text_between(&chars, end, chars.len());
    assert(reference@.take(end - 1) =~= reference@.subrange(0, end - 1));
    assert(reference@.skip(end as int) =~= reference@.subrange(
        end as int,
        reference@.len() as int,
    ));
    if !supported_pattern(path.as_str()) {
        return Err(
            CatalogError::new(
                join5(
                    "module `",
                    module,
                    "` has unsupported managed path pattern `",
                    path.as_str(),
                    "`",
                ),
            ),
        );
    }
    let wildcard_free = replace_char(path.as_str(), '*', "placeholder");
    match validate_owned_path(wildcard_free.as_str(), module) {
        Ok(()) => {},
        Err(error) => {
            return Err(error);
        },
    }
    validate_id(id.as_str())
}

/// Checks what a module owns.
pub fn validate_ownership(module: &ModuleDefinition) -> (result: Result<(), CatalogError>)
    ensures
        outcome(result) == ownership_defect(*module),
{
    let id = module.id.as_str();
    match validate_unique_list(
        &module.generator_ownership.kit_owned,
        id,
        "generator_ownership.kit_owned",
    ) {
        Ok(()) => {},
        Err(error) => {
            return Err(error);
        },
    }
    match validate_unique_list(
        &module.generator_ownership.managed_regions,
        id,
        "generator_ownership.managed_regions",
    ) {
        Ok(()) => {},
        Err(error) => {
            return Err(error);
        },
    }
    match validate_unique_list(
        &module.generator_ownership.derived,
        id,
        "generator_ownership.derived",
    ) {
        Ok(()) => {},
        Err(error) => {
            return Err(error);
        },
    }
    match validate_owned_paths(&module.generator_ownership.kit_owned, id) {
        Ok(()) => {},
        Err(error) => {
            return Err(error);
        },
    }
    match validate_owned_paths(&module.generator_ownership.derived, id) {
        Ok(()) => {},
        Err(error) => {
            return Err(error);
        },
    }
    let ghost all = texts(module.generator_ownership.managed_regions@);
    let ghost check = region_reference_check(module.id@);
    let mut index: usize = 0;
    while index < module.generator_ownership.managed_regions.len()
        invariant
            all == texts(module.generator_ownership.managed_regions@),
            check == region_reference_check(module.id@),
            id@ == module.id@,
            index <= all.len(),
            first_finding(all.take(index as int), check) is None,
            ownership_defect(*module) == first_finding(all, check),
        decreases all.len() - index,
    {
        let reference = module.generator_ownership.managed_regions[index].as_str();
        assert(all[index as int] == reference@);
        proof {
            lemma_finding_step(all, index as int, check);
        }
        match validate_region_reference(reference, id) {
            Ok(()) => {},
            Err(error) => {
                proof {
                    lemma_finding_prefix(all, index + 1, check);
                }
                return Err(error);
            },
        }
        index += 1;
    }
    assert(all.take(index as int) =~= all);
    Ok(())
}

// Composition.
/// The identifiers of requirements.
pub open spec fn requirement_ids(list: Seq<ApplicationRequirement>) -> Seq<Seq<char>> {
    list.map_values(|requirement: ApplicationRequirement| requirement.id())
}

/// The names of composition dependencies.
pub open spec fn crate_names(crates: Seq<CompositionCrate>) -> Seq<Seq<char>> {
    crates.map_values(|entry: CompositionCrate| entry.dependency@)
}

/// The check of a feature name.
pub open spec fn id_check() -> spec_fn(Seq<char>) -> Option<Seq<char>> {
    |value: Seq<char>| id_defect(value)
}

/// What is wrong with the composition dependency at `at` of a module.
pub open spec fn crate_defect(
    module: Seq<char>,
    crates: Seq<CompositionCrate>,
    workspace: Seq<Seq<char>>,
    at: int,
) -> Option<Seq<char>> {
    let entry = crates[at];
    or_else(
        id_defect(entry.dependency@),
        if !workspace.contains(entry.dependency@) {
            Some(
                "module `"@ + module + "` references unknown workspace dependency `"@
                    + entry.dependency@ + "`"@,
            )
        } else if repeats(crate_names(crates), at) {
            Some(
                "module `"@ + module + "` has duplicate composition dependency `"@
                    + entry.dependency@ + "`"@,
            )
        } else {
            or_else(
                unique_defect(texts(entry.features@), module, "composition.crates.features"@),
                first_finding(texts(entry.features@), id_check()),
            )
        },
    )
}

/// What is wrong with the first `count` composition dependencies of a module.
pub open spec fn crates_defect(
    module: Seq<char>,
    crates: Seq<CompositionCrate>,
    workspace: Seq<Seq<char>>,
    count: int,
) -> Option<Seq<char>>
    decreases count,
{
    if count <= 0 {
        None
    } else {
        or_else(
            crates_defect(module, crates, workspace, count - 1),
            crate_defect(module, crates, workspace, count - 1),
        )
    }
}

/// What is wrong with the composition of a module.
pub open spec fn composition_defect(
    module: ModuleDefinition,
    workspace: Seq<Seq<char>>,
) -> Option<Seq<char>> {
    let composition = module.composition;
    or_else(
        crates_defect(
            module.id@,
            composition.crates@,
            workspace,
            composition.crates@.len() as int,
        ),
        or_else(
            unique_defect(
                requirement_ids(composition.application_requirements@),
                module.id@,
                "composition.application_requirements"@,
            ),
            if (module.routes@.len() > 0 || module.background_tasks@.len() > 0
                || module.health_checks@.len() > 0) && !composition.registrar
                && composition.application_requirements@.len() == 0 {
                Some(
                    "module `"@ + module.id@
                        + "` declares a route, task, or health contract without a registrar or application requirement"@,
                )
            } else {
                None
            },
        ),
    )
}

proof fn lemma_crates_defect_stays(
    module: Seq<char>,
    crates: Seq<CompositionCrate>,
    workspace: Seq<Seq<char>>,
    count: int,
    total: int,
)
    requires
        crates_defect(module, crates, workspace, count) is Some,
        count <= total,
    ensures
        crates_defect(module, crates, workspace, total) == crates_defect(
            module,
            crates,
            workspace,
            count,
        ),
    decreases total - count,
{
    if count < total {
        lemma_crates_defect_stays(module, crates, workspace, count, total - 1);
    }
}

fn validate_ids(values: &Vec<String>) -> (result: Result<(), CatalogError>)
    ensures
        outcome(result) == first_finding(texts(values@), id_check()),
{
    let ghost all = texts(values@);
    let ghost check = id_check();
    let mut index: usize = 0;
    while index < values.len()
        invariant
            all == texts(values@),
            check == id_check(),
            index <= values@.len(),
            first_finding(all.take(index as int), check) is None,
        decreases values@.len() - index,
    {
        assert(all[index as int] == values@[index as int]@);
        proof {
            lemma_finding_step(all, index as int, check);
        }
        match validate_id(values[index].as_str()) {
            Ok(()) => {},
            Err(error) => {
                proof {
                    lemma_finding_prefix(all, index + 1, check);
                }
                return Err(error);
            },
        }
        index += 1;
    }
    assert(all.take(index as int) =~= all);
    Ok(())
}

/// Checks the composition of a module against the dependencies of the workspace.
pub fn validate_composition(module: &ModuleDefinition, workspace_dependencies: &TextSet) -> (result:
    Result<(), CatalogError>)
    ensures
        outcome(result) == composition_defect(*module, workspace_dependencies@),
{
    let ghost crates = module.composition.crates@;
    let ghost names = crate_names(crates);
    let ghost total = crates.len() as int;
    let mut seen: TextSet = Sorted::new();
    let mut index: usize = 0;
    while index < module.composition.crates.len()
        invariant
            crates == module.composition.crates@,
            names == crate_names(crates),
            total == crates.len(),
            index <= total,
            crates_defect(module.id@, crates, workspace_dependencies@, index as int) is None,
            forall|value: Seq<char>| #[trigger]
                seen@.contains(value) <==> exists|j: int|
                    0 <= j < index && #[trigger] names[j] == value,
        decreases total - index,
    {
        let entry = &module.composition.crates[index];
        let ghost workspace = workspace_dependencies@;
        proof {
            if crate_defect(module.id@, crates, workspace, index as int) is Some {
                lemma_crates_defect_stays(module.id@, crates, workspace, index + 1, total);
            }
            assert(names[index as int] == entry.dependency@);
        }
        match validate_id(entry.dependency.as_str()) {
            Ok(()) => {},
            Err(error) => {
                return Err(error);
            },
        }
        if !set_holds(workspace_dependencies, entry.dependency.as_str()) {
            return Err(
                CatalogError::new(
                    join5(
                        "module `",
                        module.id.as_str(),
                        "` references unknown workspace dependency `",
                        entry.dependency.as_str(),
                        "`",
                    ),
                ),
            );
        }
        let ghost before = seen@;
        let added = set_add(&mut seen, entry.dependency.as_str());
        proof {
            lemma_seen_grows(before, seen@, names, index as int);
        }
        if !added {
            return Err(
                CatalogError::new(
                    join5(
                        "module `",
                        module.id.as_str(),
                        "` has duplicate composition dependency `",
                        entry.dependency.as_str(),
                        "`",
                    ),
                ),
            );
        }
        match validate_unique_list(
            &entry.features,
            module.id.as_str(),
            "composition.crates.features",
        ) {
            Ok(()) => {},
            Err(error) => {
                return Err(error);
            },
        }
        match validate_ids(&entry.features) {
            Ok(()) => {},
            Err(error) => {
                return Err(error);
            },
        }
        index += 1;
    }
    match validate_unique_requirements(
        &module.composition.application_requirements,
        module.id.as_str(),
    ) {
        Ok(()) => {},
        Err(error) => {
            return Err(error);
        },
    }
    let declares_runtime_contract = module.routes.len() > 0 || module.background_tasks.len() > 0
        || module.health_checks.len() > 0;
    if declares_runtime_contract && !module.composition.registrar
        && module.composition.application_requirements.len() == 0 {
        return Err(
            CatalogError::new(
                join3(
                    "module `",
                    module.id.as_str(),
                    "` declares a route, task, or health contract without a registrar or application requirement",
                ),
            ),
        );
    }
    Ok(())
}

fn validate_unique_requirements(list: &Vec<ApplicationRequirement>, module: &str) -> (result: Result<
    (),
    CatalogError,
>)
    ensures
        outcome(result) == unique_defect(
            requirement_ids(list@),
            module@,
            "composition.application_requirements"@,
        ),
{
    let mut ids: Vec<String> = Vec::new();
    let mut index: usize = 0;
    while index < list.len()
        invariant
            index <= list@.len(),
            ids@.len() == index,
            forall|i: int| 0 <= i < index ==> (#[trigger] ids@[i])@ == list@[i].id(),
        decreases list@.len() - index,
    {
        ids.push(list[index].as_str().to_owned());
        index += 1;
    }
    assert(texts(ids@) =~= requirement_ids(list@));
    validate_unique_list(&ids, module, "composition.application_requirements")
}

} // verus!
