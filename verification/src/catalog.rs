//! Profile catalogs: named selections of modules that can extend each other.

use vstd::prelude::*;
use vstd::string::*;

use crate::findings::or_else;
use crate::module_checks::{hollow, is_hollow, lemma_seen_grows, repeats};
use crate::modules::{ModuleCatalog, RuntimeDependencyId};
use crate::ordered::{
    codes, codes_of, is_sorted_listing, lemma_listing_exists, models, set_add, sort_unique,
    sorted_listing, Sorted, TextSet,
};
use crate::selection::{lemma_pairs, pair_check, selection_defect};
use crate::sorting::{ranked, sort_ranked, Ranked};
use crate::text::{
    chars_of, clone_optional_text, clone_texts, decimal, decimal_text, holds_text, join2, join3,
    join4, join5, join6, join_texts, joined, optional_view, same_text, texts,
};

verus! {

/// The service-kit release represented by the base profile catalog.
pub const KIT_VERSION: &'static str = "0.1.0";

/// Version of the form of profile catalogs.
pub const PROFILE_SCHEMA_VERSION: u32 = 1;

/// Version of the form of profile catalog extensions.
pub const PROFILE_EXTENSION_SCHEMA_VERSION: &'static str = "1.0.0";

/// Number of profiles of the base catalog.
pub const BASE_PROFILE_COUNT: usize = 10;

/// A typed entry in the authoritative base profile catalog.
#[derive(Debug, PartialEq, Eq)]
pub struct ProfileDefinition {
    /// Stable profile identifier.
    pub id: String,
    /// Human-readable purpose.
    pub description: String,
    /// Parent profile whose modules are inherited first.
    pub extends: Option<String>,
    /// Modules declared directly by this profile, in catalog order.
    pub modules: Vec<String>,
}

/// The value of a profile definition.
pub struct ProfileModel {
    /// Profile identifier.
    pub id: Seq<char>,
    /// Purpose.
    pub description: Seq<char>,
    /// Identifier of the parent profile.
    pub extends: Option<Seq<char>>,
    /// Modules declared directly.
    pub modules: Seq<Seq<char>>,
}

/// One selected provider for a mutually exclusive module capability.
#[derive(Debug, PartialEq, Eq, PartialOrd, Ord)]
pub struct ProviderSelection {
    /// Stable provider capability slot.
    pub slot: String,
    /// Selected module occupying the slot.
    pub module: String,
}

/// A base profile catalog document.
#[derive(Debug, PartialEq, Eq)]
pub struct BaseProfiles {
    /// Catalog serialization version.
    pub schema_version: u32,
    /// Version of the bundle.
    pub bundle_version: String,
    /// Profiles.
    pub profiles: Vec<ProfileDefinition>,
}

/// A profile catalog extension document.
#[derive(Debug, PartialEq, Eq)]
pub struct ProfileCatalogExtension {
    /// Extension serialization version.
    pub schema_version: String,
    /// Version of the extension.
    pub extension_version: String,
    /// Version of the bundle that is extended.
    pub base_bundle_version: String,
    /// Further profiles.
    pub profiles: Vec<ProfileDefinition>,
}

/// Strict authoritative profile catalog.
#[derive(Debug, PartialEq, Eq)]
pub struct ProfileCatalog {
    bundle_version: String,
    profiles: Vec<ProfileDefinition>,
}

/// A profile with inheritance flattened and catalog constraints checked.
#[derive(Debug, PartialEq, Eq)]
pub struct ResolvedProfile {
    definition: ProfileDefinition,
    modules: Vec<String>,
    providers: Vec<ProviderSelection>,
    external_services: Vec<String>,
}

/// Failure to load or resolve a profile catalog, by its values.
pub enum ProfileFailure {
    /// A supplied identifier was not canonical lowercase kebab case.
    InvalidName,
    /// No catalog entry has the supplied canonical identifier.
    UnknownProfile(Seq<char>),
    /// The catalog could not be decoded.
    Decode(Seq<char>),
    /// Catalog versions or contents are incompatible.
    InvalidCatalog(Seq<char>),
    /// The module catalog rejected the resolved selection.
    Modules(Seq<char>),
}

/// Failure to load or resolve the authoritative base profile catalog.
#[derive(Debug, PartialEq, Eq)]
pub enum ProfileError {
    /// A supplied identifier was not canonical lowercase kebab case.
    InvalidName,
    /// No catalog entry has the supplied canonical identifier.
    UnknownProfile(String),
    /// The strict YAML catalog could not be decoded.
    Decode(String),
    /// Catalog versions or contents are incompatible.
    InvalidCatalog(String),
    /// The module catalog rejected the resolved selection.
    Modules(String),
}

impl ProfileError {
    /// The failure that this error reports.
    pub open spec fn failure(self) -> ProfileFailure {
        match self {
            ProfileError::InvalidName => ProfileFailure::InvalidName,
            ProfileError::UnknownProfile(profile) => ProfileFailure::UnknownProfile(profile@),
            ProfileError::Decode(message) => ProfileFailure::Decode(message@),
            ProfileError::InvalidCatalog(message) => ProfileFailure::InvalidCatalog(message@),
            ProfileError::Modules(message) => ProfileFailure::Modules(message@),
        }
    }

    /// The diagnostic text.
    pub open spec fn text(self) -> Seq<char> {
        match self {
            ProfileError::InvalidName =>
                "profile name must use lowercase ASCII letters, digits, and internal hyphens"@,
            ProfileError::UnknownProfile(profile) => "unknown base profile: "@ + profile@,
            ProfileError::Decode(message) => message@,
            ProfileError::InvalidCatalog(message) => message@,
            ProfileError::Modules(message) => message@,
        }
    }

    /// Returns the diagnostic text.
    pub fn message(&self) -> (text: String)
        ensures
            text@ == self.text(),
    {
        match self {
            ProfileError::InvalidName =>
                "profile name must use lowercase ASCII letters, digits, and internal hyphens".to_owned(),
            ProfileError::UnknownProfile(profile) => join2(
                "unknown base profile: ",
                profile.as_str(),
            ),
            ProfileError::Decode(message) => message.clone(),
            ProfileError::InvalidCatalog(message) => message.clone(),
            ProfileError::Modules(message) => message.clone(),
        }
    }
}

/// What a fallible profile check finds.
pub open spec fn outcome<T>(result: Result<T, ProfileError>) -> Option<ProfileFailure> {
    match result {
        Ok(_) => None,
        Err(error) => Some(error.failure()),
    }
}

// Names.
/// Whether a string is lowercase kebab case that begins with a letter and does not end with a
/// hyphen.
pub open spec fn is_name(value: Seq<char>) -> bool {
    &&& value.len() > 0
    &&& 'a' <= value[0] && value[0] <= 'z'
    &&& value.last() != '-'
    &&& forall|i: int|
        0 <= i < value.len() ==> ('a' <= #[trigger] value[i] && value[i] <= 'z') || ('0' <= value[i]
            && value[i] <= '9') || value[i] == '-'
}

/// Returns whether a string is lowercase kebab case.
pub fn valid_name(value: &str) -> (valid: bool)
    ensures
        valid == is_name(value@),
{
    let chars = chars_of(value);
    if chars.len() == 0 || !(chars[0] >= 'a' && chars[0] <= 'z') || chars[chars.len() - 1] == '-' {
        return false;
    }
    let mut index: usize = 0;
    while index < chars.len()
        invariant
            chars@ == value@,
            chars@.len() > 0,
            'a' <= value@[0] && value@[0] <= 'z',
            value@.last() != '-',
            index <= chars@.len(),
            forall|i: int|
                0 <= i < index ==> ('a' <= #[trigger] value@[i] && value@[i] <= 'z') || ('0'
                    <= value@[i] && value@[i] <= '9') || value@[i] == '-',
        decreases chars@.len() - index,
    {
        let character = chars[index];
        if !((character >= 'a' && character <= 'z') || (character >= '0' && character <= '9')
            || character == '-') {
            assert(value@[index as int] == character);
            return false;
        }
        index += 1;
    }
    true
}

// Shape.
/// What is wrong with the first `count` direct modules of a profile.
pub open spec fn direct_modules_failure(profile: ProfileDefinition, count: int) -> Option<
    ProfileFailure,
>
    decreases count,
{
    if count <= 0 {
        None
    } else {
        let list = texts(profile.modules@);
        let module = list[count - 1];
        or_else(
            direct_modules_failure(profile, count - 1),
            if !is_name(module) {
                Some(
                    ProfileFailure::InvalidCatalog(
                        "profile `"@ + profile.id@ + "` contains invalid module id `"@ + module
                            + "`"@,
                    ),
                )
            } else if repeats(list, count - 1) {
                Some(
                    ProfileFailure::InvalidCatalog(
                        "profile `"@ + profile.id@ + "` repeats direct module `"@ + module + "`"@,
                    ),
                )
            } else {
                None
            },
        )
    }
}

/// What is wrong with a profile by itself.
pub open spec fn shape_failure(profile: ProfileDefinition) -> Option<ProfileFailure> {
    if !is_name(profile.id@) {
        Some(ProfileFailure::InvalidCatalog("invalid profile id `"@ + profile.id@ + "`"@))
    } else if is_hollow(profile.description@) {
        Some(
            ProfileFailure::InvalidCatalog(
                "profile `"@ + profile.id@ + "` has an empty description"@,
            ),
        )
    } else if profile.modules@.len() == 0 {
        Some(
            ProfileFailure::InvalidCatalog("profile `"@ + profile.id@ + "` declares no modules"@),
        )
    } else {
        direct_modules_failure(profile, profile.modules@.len() as int)
    }
}

proof fn lemma_direct_modules_stay(profile: ProfileDefinition, count: int, total: int)
    requires
        direct_modules_failure(profile, count) is Some,
        count <= total,
    ensures
        direct_modules_failure(profile, total) == direct_modules_failure(profile, count),
    decreases total - count,
{
    if count < total {
        lemma_direct_modules_stay(profile, count, total - 1);
    }
}

/// Checks a profile by itself.
pub fn validate_profile_shape(profile: &ProfileDefinition) -> (result: Result<(), ProfileError>)
    ensures
        outcome(result) == shape_failure(*profile),
{
    let id = profile.id.as_str();
    if !valid_name(id) {
        return Err(ProfileError::InvalidCatalog(join3("invalid profile id `", id, "`")));
    }
    if hollow(profile.description.as_str()) {
        return Err(
            ProfileError::InvalidCatalog(join3("profile `", id, "` has an empty description")),
        );
    }
    if profile.modules.len() == 0 {
        return Err(
            ProfileError::InvalidCatalog(join3("profile `", id, "` declares no modules")),
        );
    }
    let ghost list = texts(profile.modules@);
    let ghost total = list.len() as int;
    let mut direct: TextSet = Sorted::new();
    let mut index: usize = 0;
    while index < profile.modules.len()
        invariant
            id@ == profile.id@,
            list == texts(profile.modules@),
            total == list.len(),
            index <= total,
            shape_failure(*profile) == direct_modules_failure(*profile, total),
            direct_modules_failure(*profile, index as int) is None,
            forall|value: Seq<char>| #[trigger]
                direct@.contains(value) <==> exists|j: int|
                    0 <= j < index && #[trigger] list[j] == value,
        decreases total - index,
    {
        let module = profile.modules[index].as_str();
        proof {
            assert(list[index as int] == module@);
            if direct_modules_failure(*profile, index + 1) is Some {
                lemma_direct_modules_stay(*profile, index + 1, total);
            }
        }
        if !valid_name(module) {
            return Err(
                ProfileError::InvalidCatalog(
                    join5("profile `", id, "` contains invalid module id `", module, "`"),
                ),
            );
        }
        let ghost before = direct@;
        let added = set_add(&mut direct, module);
        proof {
            lemma_seen_grows(before, direct@, list, index as int);
        }
        if !added {
            return Err(
                ProfileError::InvalidCatalog(
                    join5("profile `", id, "` repeats direct module `", module, "`"),
                ),
            );
        }
        index += 1;
    }
    Ok(())
}

// Inheritance.
/// The last profile with identifier `id` among the first `count`.
pub open spec fn last_profile(
    profiles: Seq<ProfileDefinition>,
    id: Seq<char>,
    count: int,
) -> Option<ProfileDefinition>
    decreases count,
{
    if count <= 0 {
        None
    } else if profiles[count - 1].id@ == id {
        Some(profiles[count - 1])
    } else {
        last_profile(profiles, id, count - 1)
    }
}

/// The modules `inherited` followed by the first `count` direct modules of a profile.
pub open spec fn with_direct(
    inherited: Seq<Seq<char>>,
    profile: ProfileDefinition,
    count: int,
) -> Result<Seq<Seq<char>>, ProfileFailure>
    decreases count,
{
    if count <= 0 {
        Ok(inherited)
    } else {
        match with_direct(inherited, profile, count - 1) {
            Err(failure) => Err(failure),
            Ok(list) => {
                let module = profile.modules@[count - 1]@;
                if list.contains(module) {
                    Err(
                        ProfileFailure::InvalidCatalog(
                            "profile `"@ + profile.id@ + "` repeats inherited module `"@ + module
                                + "`"@,
                        ),
                    )
                } else {
                    Ok(list.push(module))
                }
            },
        }
    }
}

/// The diagnostic of an inheritance cycle.
pub open spec fn inheritance_cycle(inheritance: Seq<Seq<char>>, id: Seq<char>) -> ProfileFailure {
    ProfileFailure::InvalidCatalog(
        "profile inheritance cycle: "@ + joined(inheritance.push(id), " -> "@),
    )
}

/// The modules of a profile, inherited ones first, when the profiles of `inheritance` extend it.
pub open spec fn flattened(
    profiles: Seq<ProfileDefinition>,
    profile: ProfileDefinition,
    inheritance: Seq<Seq<char>>,
) -> Result<Seq<Seq<char>>, ProfileFailure>
    decreases profiles.len() + 1 - inheritance.len(),
{
    if inheritance.contains(profile.id@) || inheritance.len() > profiles.len() {
        Err(inheritance_cycle(inheritance, profile.id@))
    } else {
        let inherited = match profile.extends {
            None => Ok(Seq::empty()),
            Some(parent) => match last_profile(profiles, parent@, profiles.len() as int) {
                None => Err(
                    ProfileFailure::InvalidCatalog(
                        "profile `"@ + profile.id@ + "` extends unknown profile `"@ + parent@
                            + "`"@,
                    ),
                ),
                Some(definition) => flattened(
                    profiles,
                    definition,
                    inheritance.push(profile.id@),
                ),
            },
        };
        match inherited {
            Err(failure) => Err(failure),
            Ok(list) => with_direct(list, profile, profile.modules@.len() as int),
        }
    }
}

/// Whether the profiles of `inheritance` are known and different.
pub open spec fn is_lineage(profiles: Seq<ProfileDefinition>, inheritance: Seq<Seq<char>>) -> bool {
    &&& inheritance.no_duplicates()
    &&& forall|i: int|
        0 <= i < inheritance.len() ==> exists|j: int|
            0 <= j < profiles.len() && (#[trigger] profiles[j]).id@ == #[trigger] inheritance[i]
}

pub(crate) proof fn lemma_lineage_bound(profiles: Seq<ProfileDefinition>, inheritance: Seq<Seq<char>>)
    requires
        is_lineage(profiles, inheritance),
    ensures
        inheritance.len() <= profiles.len(),
{
    let names = profiles.map_values(|profile: ProfileDefinition| profile.id@);
    inheritance.unique_seq_to_set();
    assert(inheritance.to_set().subset_of(names.to_set())) by {
        assert forall|id: Seq<char>| inheritance.to_set().contains(
            id,
        ) implies names.to_set().contains(id) by {
            let k = choose|k: int| 0 <= k < inheritance.len() && inheritance[k] == id;
            assert(inheritance[k] == id);
            let j = choose|j: int|
                0 <= j < profiles.len() && (#[trigger] profiles[j]).id@ == inheritance[k];
            assert(names[j] == id);
        }
    }
    vstd::set_lib::lemma_len_subset(inheritance.to_set(), names.to_set());
    names.lemma_cardinality_of_set();
}

pub(crate) proof fn lemma_last_profile(profiles: Seq<ProfileDefinition>, id: Seq<char>, count: int)
    requires
        0 <= count <= profiles.len(),
    ensures
        last_profile(profiles, id, count) matches Some(profile) ==> profile.id@ == id && exists|
            j: int,
        |
            0 <= j < profiles.len() && #[trigger] profiles[j] == profile,
    decreases count,
{
    if count > 0 {
        if profiles[count - 1].id@ == id {
            assert(profiles[count - 1] == last_profile(profiles, id, count)->Some_0);
        } else {
            lemma_last_profile(profiles, id, count - 1);
        }
    }
}

pub(crate) proof fn lemma_lineage_grows(
    profiles: Seq<ProfileDefinition>,
    inheritance: Seq<Seq<char>>,
    place: int,
)
    requires
        is_lineage(profiles, inheritance),
        0 <= place < profiles.len(),
        !inheritance.contains(profiles[place].id@),
    ensures
        is_lineage(profiles, inheritance.push(profiles[place].id@)),
{
    let longer = inheritance.push(profiles[place].id@);
    assert(longer.no_duplicates()) by {
        assert forall|i: int, j: int| 0 <= i < longer.len() && 0 <= j < longer.len() && i
            != j implies longer[i] != longer[j] by {
            if i == inheritance.len() {
                assert(inheritance.contains(inheritance[j]));
            } else if j == inheritance.len() {
                assert(inheritance.contains(inheritance[i]));
            }
        }
    }
    assert forall|i: int| 0 <= i < longer.len() implies exists|j: int|
        0 <= j < profiles.len() && (#[trigger] profiles[j]).id@ == #[trigger] longer[i] by {
        if i < inheritance.len() {
            assert(longer[i] == inheritance[i]);
        } else {
            assert(profiles[place].id@ == longer[i]);
        }
    }
}

fn find_last<'a>(profiles: &'a Vec<ProfileDefinition>, id: &str) -> (found: Option<
    &'a ProfileDefinition,
>)
    ensures
        match found {
            Some(profile) => last_profile(profiles@, id@, profiles@.len() as int) == Some(*profile),
            None => last_profile(profiles@, id@, profiles@.len() as int) is None,
        },
{
    let mut count: usize = profiles.len();
    while count > 0
        invariant
            count <= profiles@.len(),
            last_profile(profiles@, id@, profiles@.len() as int) == last_profile(
                profiles@,
                id@,
                count as int,
            ),
        decreases count,
    {
        if same_text(profiles[count - 1].id.as_str(), id) {
            return Some(&profiles[count - 1]);
        }
        count -= 1;
    }
    None
}

fn flatten(
    profiles: &Vec<ProfileDefinition>,
    profile: &ProfileDefinition,
    inheritance: &Vec<String>,
) -> (result: Result<Vec<String>, ProfileError>)
    requires
        is_lineage(profiles@, texts(inheritance@)),
        exists|j: int| 0 <= j < profiles@.len() && #[trigger] profiles@[j] == *profile,
    ensures
        match result {
            Ok(list) => flattened(profiles@, *profile, texts(inheritance@)) == Ok::<
                Seq<Seq<char>>,
                ProfileFailure,
            >(texts(list@)),
            Err(error) => flattened(profiles@, *profile, texts(inheritance@)) == Err::<
                Seq<Seq<char>>,
                ProfileFailure,
            >(error.failure()),
        },
    decreases profiles@.len() + 1 - inheritance@.len(),
{
    let ghost lineage = texts(inheritance@);
    proof {
        lemma_lineage_bound(profiles@, lineage);
    }
    let mut chain = clone_texts(inheritance);
    chain.push(profile.id.clone());
    assert(texts(chain@) =~= lineage.push(profile.id@));
    if holds_text(inheritance, profile.id.as_str()) {
        let path = join_texts(&chain, " -> ");
        return Err(
            ProfileError::InvalidCatalog(join2("profile inheritance cycle: ", path.as_str())),
        );
    }
    let mut list: Vec<String> = match &profile.extends {
        None => Vec::new(),
        Some(parent) => match find_last(profiles, parent.as_str()) {
            None => {
                return Err(
                    ProfileError::InvalidCatalog(
                        join5(
                            "profile `",
                            profile.id.as_str(),
                            "` extends unknown profile `",
                            parent.as_str(),
                            "`",
                        ),
                    ),
                );
            },
            Some(definition) => {
                proof {
                    let place = choose|j: int|
                        0 <= j < profiles@.len() && #[trigger] profiles@[j] == *profile;
                    lemma_lineage_grows(profiles@, lineage, place);
                    lemma_last_profile(profiles@, parent@, profiles@.len() as int);
                }
                match flatten(profiles, definition, &chain) {
                    Ok(list) => list,
                    Err(error) => {
                        return Err(error);
                    },
                }
            },
        },
    };
    let ghost inherited = texts(list@);
    let ghost total = profile.modules@.len() as int;
    proof {
        if profile.extends is None {
            assert(inherited =~= Seq::<Seq<char>>::empty());
        }
    }
    let mut index: usize = 0;
    while index < profile.modules.len()
        invariant
            lineage == texts(inheritance@),
            total == profile.modules@.len(),
            index <= total,
            flattened(profiles@, *profile, lineage) == with_direct(inherited, *profile, total),
            with_direct(inherited, *profile, index as int) == Ok::<
                Seq<Seq<char>>,
                ProfileFailure,
            >(texts(list@)),
        decreases total - index,
    {
        let module = profile.modules[index].as_str();
        if holds_text(&list, module) {
            proof {
                lemma_with_direct_error(inherited, *profile, index + 1, total);
            }
            return Err(
                ProfileError::InvalidCatalog(
                    join5(
                        "profile `",
                        profile.id.as_str(),
                        "` repeats inherited module `",
                        module,
                        "`",
                    ),
                ),
            );
        }
        let ghost before = texts(list@);
        list.push(profile.modules[index].clone());
        assert(texts(list@) =~= before.push(module@));
        index += 1;
    }
    Ok(list)
}

proof fn lemma_with_direct_error(
    inherited: Seq<Seq<char>>,
    profile: ProfileDefinition,
    count: int,
    total: int,
)
    requires
        with_direct(inherited, profile, count) is Err,
        0 <= count <= total,
    ensures
        with_direct(inherited, profile, total) == with_direct(inherited, profile, count),
    decreases total - count,
{
    if count < total {
        lemma_with_direct_error(inherited, profile, count, total - 1);
    }
}

/// A flattened profile repeats no module.
pub proof fn lemma_flattened_distinct(
    profiles: Seq<ProfileDefinition>,
    profile: ProfileDefinition,
    inheritance: Seq<Seq<char>>,
)
    ensures
        flattened(profiles, profile, inheritance) matches Ok(list) ==> list.no_duplicates(),
    decreases profiles.len() + 1 - inheritance.len(),
{
    if !inheritance.contains(profile.id@) && inheritance.len() <= profiles.len() {
        if let Some(parent) = profile.extends {
            if let Some(definition) = last_profile(profiles, parent@, profiles.len() as int) {
                lemma_flattened_distinct(profiles, definition, inheritance.push(profile.id@));
                if let Ok(list) = flattened(profiles, definition, inheritance.push(profile.id@)) {
                    lemma_with_direct_distinct(list, profile, profile.modules@.len() as int);
                }
            }
        } else {
            lemma_with_direct_distinct(
                Seq::<Seq<char>>::empty(),
                profile,
                profile.modules@.len() as int,
            );
        }
    }
}

proof fn lemma_with_direct_distinct(
    inherited: Seq<Seq<char>>,
    profile: ProfileDefinition,
    count: int,
)
    requires
        inherited.no_duplicates(),
    ensures
        with_direct(inherited, profile, count) matches Ok(list) ==> list.no_duplicates(),
    decreases count,
{
    if count > 0 {
        lemma_with_direct_distinct(inherited, profile, count - 1);
        if let Ok(list) = with_direct(inherited, profile, count - 1) {
            let module = profile.modules@[count - 1]@;
            let longer = list.push(module);
            if !list.contains(module) {
                assert forall|i: int, j: int| 0 <= i < longer.len() && 0 <= j < longer.len() && i
                    != j implies longer[i] != longer[j] by {
                    if i == list.len() {
                        assert(list.contains(list[j]));
                    } else if j == list.len() {
                        assert(list.contains(list[i]));
                    }
                }
            }
        }
    }
}

// Resolution.
/// The value of a resolved profile.
pub struct ResolvedModel {
    /// The definition of the profile.
    pub definition: ProfileModel,
    /// Inherited modules followed by directly declared modules.
    pub modules: Seq<Seq<char>>,
    /// Provider slots and the modules that fill them, in module order.
    pub providers: Seq<(Seq<char>, Seq<char>)>,
    /// External services in first-module, first-declaration order.
    pub services: Seq<Seq<char>>,
}

/// The values of providers.
pub open spec fn provider_values(providers: Seq<ProviderSelection>) -> Seq<
    (Seq<char>, Seq<char>),
> {
    providers.map_values(|provider: ProviderSelection| (provider.slot@, provider.module@))
}

/// The providers among the first `count` modules.
pub open spec fn providers_of(
    catalog: ModuleCatalog,
    list: Seq<Seq<char>>,
    count: int,
) -> Seq<(Seq<char>, Seq<char>)>
    decreases count,
{
    if count <= 0 {
        Seq::empty()
    } else {
        let before = providers_of(catalog, list, count - 1);
        match catalog.find(list[count - 1]) {
            Some(module) => match module.provider_slot {
                Some(slot) => before.push((slot@, list[count - 1])),
                None => before,
            },
            None => before,
        }
    }
}

/// The services `known` with the first `count` runtime dependencies of a module.
pub open spec fn with_services(
    known: Seq<Seq<char>>,
    dependencies: Seq<RuntimeDependencyId>,
    count: int,
) -> Seq<Seq<char>>
    decreases count,
{
    if count <= 0 {
        known
    } else {
        let before = with_services(known, dependencies, count - 1);
        let service = dependencies[count - 1].text();
        if before.contains(service) {
            before
        } else {
            before.push(service)
        }
    }
}

/// The external services of the first `count` modules.
pub open spec fn services_of(
    catalog: ModuleCatalog,
    list: Seq<Seq<char>>,
    count: int,
) -> Seq<Seq<char>>
    decreases count,
{
    if count <= 0 {
        Seq::empty()
    } else {
        let before = services_of(catalog, list, count - 1);
        match catalog.find(list[count - 1]) {
            Some(module) => with_services(
                before,
                module.runtime_dependencies@,
                module.runtime_dependencies@.len() as int,
            ),
            None => before,
        }
    }
}

/// The place of the first profile with identifier `id` from place `from` on.
pub open spec fn profile_place(
    profiles: Seq<ProfileDefinition>,
    id: Seq<char>,
    from: int,
) -> int
    decreases profiles.len() - from,
{
    if from < 0 || from >= profiles.len() || profiles[from].id@ == id {
        from
    } else {
        profile_place(profiles, id, from + 1)
    }
}

/// What resolving the profile `id` gives.
pub open spec fn resolved(
    profiles: Seq<ProfileDefinition>,
    catalog: ModuleCatalog,
    id: Seq<char>,
) -> Result<ResolvedModel, ProfileFailure> {
    let place = profile_place(profiles, id, 0);
    if !is_name(id) {
        Err(ProfileFailure::InvalidName)
    } else if place >= profiles.len() {
        Err(ProfileFailure::UnknownProfile(id))
    } else {
        match flattened(profiles, profiles[place], Seq::empty()) {
            Err(failure) => Err(failure),
            Ok(list) => match selection_defect(catalog, sorted_listing::<String>(list)) {
                Some(message) => Err(ProfileFailure::Modules(message)),
                None => Ok(
                    ResolvedModel {
                        definition: profiles[place]@,
                        modules: list,
                        providers: providers_of(catalog, list, list.len() as int),
                        services: services_of(catalog, list, list.len() as int),
                    },
                ),
            },
        }
    }
}

impl ResolvedProfile {
    /// The value of this profile.
    pub closed spec fn view(&self) -> ResolvedModel {
        ResolvedModel {
            definition: self.definition@,
            modules: texts(self.modules@),
            providers: provider_values(self.providers@),
            services: texts(self.external_services@),
        }
    }

    /// Returns the selected profile definition.
    pub fn definition(&self) -> (definition: &ProfileDefinition)
        ensures
            definition@ == self@.definition,
    {
        &self.definition
    }

    /// Returns inherited modules followed by directly declared modules.
    pub fn modules(&self) -> (modules: &Vec<String>)
        ensures
            texts(modules@) == self@.modules,
    {
        &self.modules
    }

    /// Returns provider slots in resolved module order.
    pub fn providers(&self) -> (providers: &Vec<ProviderSelection>)
        ensures
            provider_values(providers@) == self@.providers,
    {
        &self.providers
    }

    /// Returns declared external services in first-module, first-declaration order.
    pub fn external_services(&self) -> (services: &Vec<String>)
        ensures
            texts(services@) == self@.services,
    {
        &self.external_services
    }
}

fn add_services(services: &mut Vec<String>, dependencies: &Vec<RuntimeDependencyId>)
    ensures
        texts(final(services)@) == with_services(
            texts(old(services)@),
            dependencies@,
            dependencies@.len() as int,
        ),
{
    let ghost known = texts(services@);
    let mut index: usize = 0;
    while index < dependencies.len()
        invariant
            known == texts(old(services)@),
            index <= dependencies@.len(),
            texts(services@) == with_services(known, dependencies@, index as int),
        decreases dependencies@.len() - index,
    {
        let service = dependencies[index].as_str();
        if !holds_text(services, service) {
            let ghost before = texts(services@);
            services.push(service.to_owned());
            assert(texts(services@) =~= before.push(service@));
        }
        index += 1;
    }
}

impl ProfileDefinition {
    /// The value of this definition.
    pub open spec fn view(&self) -> ProfileModel {
        ProfileModel {
            id: self.id@,
            description: self.description@,
            extends: optional_view(self.extends),
            modules: texts(self.modules@),
        }
    }

    /// Returns a profile of the same contents.
    pub fn duplicate(&self) -> (copy: Self)
        ensures
            copy@ == self@,
    {
        ProfileDefinition {
            id: self.id.clone(),
            description: self.description.clone(),
            extends: clone_optional_text(&self.extends),
            modules: clone_texts(&self.modules),
        }
    }
}

impl Ranked for ProfileDefinition {
    open spec fn rank(&self) -> Seq<u32> {
        codes(self.id@)
    }

    fn rank_codes(&self) -> (codes: Vec<u32>) {
        codes_of(self.id.as_str())
    }
}

// Catalogs.
/// What is wrong with the shapes of the first `count` profiles.
pub open spec fn shapes_failure(profiles: Seq<ProfileDefinition>, count: int) -> Option<
    ProfileFailure,
>
    decreases count,
{
    if count <= 0 {
        None
    } else {
        or_else(
            shapes_failure(profiles, count - 1),
            or_else(
                shape_failure(profiles[count - 1]),
                if repeats(profile_ids(profiles), count - 1) {
                    Some(
                        ProfileFailure::InvalidCatalog(
                            "duplicate profile id `"@ + profiles[count - 1].id@ + "`"@,
                        ),
                    )
                } else {
                    None
                },
            ),
        )
    }
}

/// The identifiers of profiles.
pub open spec fn profile_ids(profiles: Seq<ProfileDefinition>) -> Seq<Seq<char>> {
    profiles.map_values(|profile: ProfileDefinition| profile.id@)
}

/// What keeps the first `count` profiles from being resolved.
pub open spec fn resolution_failure(
    profiles: Seq<ProfileDefinition>,
    catalog: ModuleCatalog,
    count: int,
) -> Option<ProfileFailure>
    decreases count,
{
    if count <= 0 {
        None
    } else {
        or_else(
            resolution_failure(profiles, catalog, count - 1),
            match resolved(profiles, catalog, profiles[count - 1].id@) {
                Ok(_) => None,
                Err(failure) => Some(failure),
            },
        )
    }
}

/// What is wrong with the profiles of a catalog.
pub open spec fn profiles_failure(
    profiles: Seq<ProfileDefinition>,
    catalog: ModuleCatalog,
) -> Option<ProfileFailure> {
    or_else(
        shapes_failure(profiles, profiles.len() as int),
        resolution_failure(profiles, catalog, profiles.len() as int),
    )
}

/// What is wrong with a profile catalog document; a base catalog has exactly the expected number
/// of profiles, an overlay at least as many as the base.
pub open spec fn document_failure(
    document: BaseProfiles,
    catalog: ModuleCatalog,
    expected_count: Option<usize>,
) -> Option<ProfileFailure> {
    if document.schema_version != PROFILE_SCHEMA_VERSION {
        Some(
            ProfileFailure::InvalidCatalog(
                "unsupported profile schema "@ + decimal(document.schema_version as nat)
                    + "; expected "@ + decimal(PROFILE_SCHEMA_VERSION as nat),
            ),
        )
    } else if document.bundle_version@ != KIT_VERSION@ || document.bundle_version@
        != catalog.bundle_version@ {
        Some(
            ProfileFailure::InvalidCatalog(
                "profile bundle "@ + document.bundle_version@
                    + " does not match kit/module bundle "@ + KIT_VERSION@ + "/"@
                    + catalog.bundle_version@,
            ),
        )
    } else if expected_count is Some && document.profiles@.len() != expected_count->Some_0 {
        Some(
            ProfileFailure::InvalidCatalog(
                "base profile catalog must contain exactly "@ + decimal(
                    expected_count->Some_0 as nat,
                ) + " profiles; found "@ + decimal(document.profiles@.len()),
            ),
        )
    } else if expected_count is None && document.profiles@.len() < BASE_PROFILE_COUNT {
        Some(
            ProfileFailure::InvalidCatalog(
                "profile overlay must retain all "@ + decimal(BASE_PROFILE_COUNT as nat)
                    + " base profiles; found "@ + decimal(document.profiles@.len()),
            ),
        )
    } else {
        profiles_failure(document.profiles@, catalog)
    }
}

/// What keeps an extension from fitting a profile catalog.
pub open spec fn extension_failure(
    catalog: ProfileCatalog,
    extension: ProfileCatalogExtension,
    modules: ModuleCatalog,
) -> Option<ProfileFailure> {
    if extension.schema_version@ != PROFILE_EXTENSION_SCHEMA_VERSION@ {
        Some(
            ProfileFailure::InvalidCatalog(
                "unsupported web profile schema "@ + extension.schema_version@ + "; expected "@
                    + PROFILE_EXTENSION_SCHEMA_VERSION@,
            ),
        )
    } else if extension.extension_version@.len() == 0 {
        Some(
            ProfileFailure::InvalidCatalog("web profile catalog extension_version is empty"@),
        )
    } else if extension.base_bundle_version@ != catalog.version() {
        Some(
            ProfileFailure::InvalidCatalog(
                "web profile catalog requires base bundle "@ + extension.base_bundle_version@
                    + "; bundled base is "@ + catalog.version(),
            ),
        )
    } else {
        profiles_failure(
            catalog.declarations() + ranked(
                extension.profiles@,
                extension.profiles@.len() as int,
            ),
            modules,
        )
    }
}

proof fn lemma_shapes_stay(profiles: Seq<ProfileDefinition>, count: int, total: int)
    requires
        shapes_failure(profiles, count) is Some,
        count <= total,
    ensures
        shapes_failure(profiles, total) == shapes_failure(profiles, count),
    decreases total - count,
{
    if count < total {
        lemma_shapes_stay(profiles, count, total - 1);
    }
}

proof fn lemma_resolutions_stay(
    profiles: Seq<ProfileDefinition>,
    catalog: ModuleCatalog,
    count: int,
    total: int,
)
    requires
        resolution_failure(profiles, catalog, count) is Some,
        count <= total,
    ensures
        resolution_failure(profiles, catalog, total) == resolution_failure(
            profiles,
            catalog,
            count,
        ),
    decreases total - count,
{
    if count < total {
        lemma_resolutions_stay(profiles, catalog, count, total - 1);
    }
}

pub(crate) proof fn lemma_place(profiles: Seq<ProfileDefinition>, id: Seq<char>, from: int)
    requires
        0 <= from <= profiles.len(),
    ensures
        from <= profile_place(profiles, id, from) <= profiles.len(),
        profile_place(profiles, id, from) < profiles.len() ==> profiles[profile_place(
            profiles,
            id,
            from,
        )].id@ == id,
        forall|j: int|
            from <= j < profile_place(profiles, id, from) ==> (#[trigger] profiles[j]).id@ != id,
    decreases profiles.len() - from,
{
    if from < profiles.len() && profiles[from].id@ != id {
        lemma_place(profiles, id, from + 1);
    }
}

/// The providers of different modules that can be selected together fill different slots.
proof fn lemma_providers(
    catalog: ModuleCatalog,
    list: Seq<Seq<char>>,
    selected: Seq<Seq<char>>,
    count: int,
)
    requires
        list.no_duplicates(),
        0 <= count <= list.len(),
        is_sorted_listing::<String>(selected, list),
        selection_defect(catalog, selected) is None,
    ensures
        forall|k: int|
            0 <= k < providers_of(catalog, list, count).len() ==> provides(
                catalog,
                list.take(count),
                #[trigger] providers_of(catalog, list, count)[k],
            ),
        forall|j: int, k: int|
            0 <= j < k < providers_of(catalog, list, count).len() ==> (
            #[trigger] providers_of(catalog, list, count)[j]).0 != (
            #[trigger] providers_of(catalog, list, count)[k]).0,
    decreases count,
{
    if count > 0 {
        lemma_providers(catalog, list, selected, count - 1);
        let before = providers_of(catalog, list, count - 1);
        let now = providers_of(catalog, list, count);
        let few = list.take(count - 1);
        let more = list.take(count);
        let id = list[count - 1];
        assert(more[count - 1] == id);
        assert forall|k: int| 0 <= k < now.len() implies provides(
            catalog,
            more,
            #[trigger] now[k],
        ) by {
            if k < before.len() {
                assert(provides(catalog, few, before[k]));
                let m = choose|m: int| 0 <= m < few.len() && few[m] == before[k].1;
                assert(more[m] == before[k].1);
            }
        }
        assert forall|j: int, k: int| 0 <= j < k < now.len() implies (#[trigger] now[j]).0 != (
        #[trigger] now[k]).0 by {
            if k == before.len() {
                assert(provides(catalog, few, before[j]));
                let m = choose|m: int| 0 <= m < few.len() && few[m] == before[j].1;
                assert(list[m] == before[j].1);
                assert(list[m] != id);
                assert(list.contains(list[m]) && list.contains(id));
                assert(selected.contains(list[m]) && selected.contains(id));
                let left = choose|p: int| 0 <= p < selected.len() && selected[p] == list[m];
                let right = choose|p: int| 0 <= p < selected.len() && selected[p] == id;
                lemma_pairs(catalog, selected, selected.len() as int);
                if left < right {
                    assert(pair_check(catalog, selected[left])(selected[right]) is None);
                } else {
                    assert(pair_check(catalog, selected[right])(selected[left]) is None);
                }
            }
        }
    }
}

/// Whether one of the modules of `list` fills the slot of a provider.
spec fn provides(
    catalog: ModuleCatalog,
    list: Seq<Seq<char>>,
    provider: (Seq<char>, Seq<char>),
) -> bool {
    list.contains(provider.1) && (catalog.find(provider.1) matches Some(module) && optional_view(
        module.provider_slot,
    ) == Some(provider.0))
}

/// A resolved profile carries the identifier that was asked for and the definition that the
/// catalog declares for it, lists no module twice, and ends with the modules that the definition
/// declares directly. No two of its providers fill the same slot.
pub proof fn lemma_resolved_definition(
    profiles: Seq<ProfileDefinition>,
    catalog: ModuleCatalog,
    id: Seq<char>,
)
    ensures
        resolved(profiles, catalog, id) matches Ok(model) ==> {
            &&& model.definition.id == id
            &&& exists|j: int| 0 <= j < profiles.len() && #[trigger] profiles[j]@ == model.definition
            &&& model.modules.no_duplicates()
            &&& model.definition.modules.is_suffix_of(model.modules)
            &&& forall|j: int, k: int|
                0 <= j < k < model.providers.len() ==> (#[trigger] model.providers[j]).0 != (
                #[trigger] model.providers[k]).0
        },
{
    if let Ok(model) = resolved(profiles, catalog, id) {
        lemma_place(profiles, id, 0);
        let place = profile_place(profiles, id, 0);
        let profile = profiles[place];
        assert(profiles[place]@ == model.definition);
        lemma_flattened_distinct(profiles, profile, Seq::empty());
        lemma_listing_exists::<String>(model.modules);
        lemma_providers(
            catalog,
            model.modules,
            sorted_listing::<String>(model.modules),
            model.modules.len() as int,
        );
        let count = profile.modules@.len() as int;
        match profile.extends {
            None => {
                lemma_with_direct(Seq::empty(), profile, count);
            },
            Some(parent) => {
                let definition = last_profile(profiles, parent@, profiles.len() as int)->Some_0;
                let chain = Seq::<Seq<char>>::empty().push(id);
                lemma_with_direct(
                    flattened(profiles, definition, chain)->Ok_0,
                    profile,
                    count,
                );
            },
        }
    }
}

pub(crate) proof fn lemma_with_direct(inherited: Seq<Seq<char>>, profile: ProfileDefinition, count: int)
    requires
        0 <= count <= profile.modules@.len(),
    ensures
        with_direct(inherited, profile, count) matches Ok(list) ==> list == inherited + texts(
            profile.modules@,
        ).take(count),
        with_direct(inherited, profile, profile.modules@.len() as int) matches Ok(list) ==> count
            == profile.modules@.len() ==> list == inherited + profile@.modules
            && profile@.modules.is_suffix_of(list),
    decreases count,
{
    let direct = texts(profile.modules@);
    if count > 0 {
        lemma_with_direct(inherited, profile, count - 1);
        if let Ok(list) = with_direct(inherited, profile, count) {
            assert(list =~= inherited + direct.take(count));
        }
    } else {
        assert(inherited + direct.take(0) =~= inherited);
    }
    if count == profile.modules@.len() {
        assert(direct.take(count) =~= direct);
        if let Ok(list) = with_direct(inherited, profile, count) {
            assert(list.subrange(list.len() - direct.len(), list.len() as int) =~= direct);
        }
    }
}

/// Flattening that succeeds below some profiles gives the same below fewer.
proof fn lemma_flattened_below(
    profiles: Seq<ProfileDefinition>,
    profile: ProfileDefinition,
    many: Seq<Seq<char>>,
    few: Seq<Seq<char>>,
)
    requires
        flattened(profiles, profile, many) is Ok,
        few.len() <= many.len(),
        forall|id: Seq<char>| #[trigger] few.contains(id) ==> many.contains(id),
    ensures
        flattened(profiles, profile, few) == flattened(profiles, profile, many),
    decreases profiles.len() + 1 - many.len(),
{
    if let Some(parent) = profile.extends {
        let definition = last_profile(profiles, parent@, profiles.len() as int)->Some_0;
        let more = many.push(profile.id@);
        let fewer = few.push(profile.id@);
        assert forall|id: Seq<char>| #[trigger] fewer.contains(id) implies more.contains(id) by {
            if id == profile.id@ {
                assert(more[many.len() as int] == id);
            } else {
                let k = choose|k: int| 0 <= k < fewer.len() && fewer[k] == id;
                assert(few[k] == id);
                assert(few.contains(id));
                let m = choose|m: int| 0 <= m < many.len() && many[m] == id;
                assert(more[m] == id);
            }
        }
        lemma_flattened_below(profiles, definition, more, fewer);
    }
}

proof fn lemma_shapes_distinct(profiles: Seq<ProfileDefinition>, count: int)
    requires
        0 <= count <= profiles.len(),
        shapes_failure(profiles, count) is None,
    ensures
        forall|i: int, j: int|
            0 <= i < j < count ==> (#[trigger] profiles[i]).id@ != (#[trigger] profiles[j]).id@,
        forall|i: int| 0 <= i < count ==> shape_failure(#[trigger] profiles[i]) is None,
    decreases count,
{
    if count > 0 {
        lemma_shapes_distinct(profiles, count - 1);
        let ids = profile_ids(profiles);
        assert forall|i: int| 0 <= i < count - 1 implies (#[trigger] profiles[i]).id@ != profiles[count
            - 1].id@ by {
            assert(ids[i] == profiles[i].id@);
            assert(ids[count - 1] == profiles[count - 1].id@);
        }
    }
}

proof fn lemma_resolutions(
    profiles: Seq<ProfileDefinition>,
    catalog: ModuleCatalog,
    count: int,
    at: int,
)
    requires
        0 <= at < count <= profiles.len(),
        resolution_failure(profiles, catalog, count) is None,
    ensures
        resolved(profiles, catalog, profiles[at].id@) is Ok,
    decreases count,
{
    if at < count - 1 {
        lemma_resolutions(profiles, catalog, count - 1, at);
    }
}

/// In a valid catalog a profile without a parent lists the modules that its definition declares;
/// one with a parent lists the modules of the parent, which can be resolved too, followed by its
/// own.
pub proof fn lemma_inherited_first(
    profiles: Seq<ProfileDefinition>,
    catalog: ModuleCatalog,
    id: Seq<char>,
)
    requires
        profiles_failure(profiles, catalog) is None,
    ensures
        resolved(profiles, catalog, id) matches Ok(model) ==> match model.definition.extends {
            None => model.modules == model.definition.modules,
            Some(parent) => match resolved(profiles, catalog, parent) {
                Ok(above) => model.modules == above.modules + model.definition.modules,
                Err(_) => false,
            },
        },
{
    if let Ok(model) = resolved(profiles, catalog, id) {
        let total = profiles.len() as int;
        lemma_place(profiles, id, 0);
        let profile = profiles[profile_place(profiles, id, 0)];
        let count = profile.modules@.len() as int;
        let none = Seq::<Seq<char>>::empty();
        match profile.extends {
            None => {
                lemma_with_direct(none, profile, count);
                assert(none + profile@.modules =~= profile@.modules);
            },
            Some(parent) => {
                let definition = last_profile(profiles, parent@, total)->Some_0;
                let chain = none.push(id);
                lemma_with_direct(flattened(profiles, definition, chain)->Ok_0, profile, count);
                lemma_last_profile(profiles, parent@, total);
                let at = choose|j: int| 0 <= j < total && #[trigger] profiles[j] == definition;
                lemma_shapes_distinct(profiles, total);
                lemma_place(profiles, parent@, 0);
                assert(profile_place(profiles, parent@, 0) == at) by {
                    let first = profile_place(profiles, parent@, 0);
                    if first > at {
                        assert(profiles[at].id@ != parent@);
                    } else if first < at {
                        assert(profiles[first].id@ != profiles[at].id@);
                    }
                }
                lemma_resolutions(profiles, catalog, total, at);
                assert forall|name: Seq<char>| #[trigger] none.contains(
                    name,
                ) implies chain.contains(name) by {}
                lemma_flattened_below(profiles, definition, chain, none);
            },
        }
    }
}

impl ProfileCatalog {
    /// The profiles of this catalog.
    pub closed spec fn declarations(&self) -> Seq<ProfileDefinition> {
        self.profiles@
    }

    /// The version of the bundle.
    pub closed spec fn version(&self) -> Seq<char> {
        self.bundle_version@
    }

    /// Loads a base profile catalog document.
    pub fn from_base(document: BaseProfiles, modules: &ModuleCatalog) -> (result: Result<
        Self,
        ProfileError,
    >)
        ensures
            outcome(result) == document_failure(document, *modules, Some(BASE_PROFILE_COUNT)),
            result matches Ok(catalog) ==> catalog.declarations() == document.profiles@
                && catalog.version() == document.bundle_version@,
    {
        Self::decode(document, modules, Some(BASE_PROFILE_COUNT))
    }

    /// Loads a deterministic base-plus-extension profile overlay document.
    pub fn from_overlay(document: BaseProfiles, modules: &ModuleCatalog) -> (result: Result<
        Self,
        ProfileError,
    >)
        ensures
            outcome(result) == document_failure(document, *modules, None),
            result matches Ok(catalog) ==> catalog.declarations() == document.profiles@
                && catalog.version() == document.bundle_version@,
    {
        Self::decode(document, modules, None)
    }

    /// Checks a profile catalog document and takes it over.
    pub fn decode(
        document: BaseProfiles,
        modules: &ModuleCatalog,
        expected_count: Option<usize>,
    ) -> (result: Result<Self, ProfileError>)
        ensures
            outcome(result) == document_failure(document, *modules, expected_count),
            result matches Ok(catalog) ==> catalog.declarations() == document.profiles@
                && catalog.version() == document.bundle_version@,
    {
        if document.schema_version != PROFILE_SCHEMA_VERSION {
            let found = decimal_text(document.schema_version as u64);
            let expected = decimal_text(PROFILE_SCHEMA_VERSION as u64);
            return Err(
                ProfileError::InvalidCatalog(
                    join4(
                        "unsupported profile schema ",
                        found.as_str(),
                        "; expected ",
                        expected.as_str(),
                    ),
                ),
            );
        }
        if !same_text(document.bundle_version.as_str(), KIT_VERSION) || !same_text(
            document.bundle_version.as_str(),
            modules.bundle_version.as_str(),
        ) {
            return Err(
                ProfileError::InvalidCatalog(
                    join6(
                        "profile bundle ",
                        document.bundle_version.as_str(),
                        " does not match kit/module bundle ",
                        KIT_VERSION,
                        "/",
                        modules.bundle_version.as_str(),
                    ),
                ),
            );
        }
        let found_count: usize = document.profiles.len();
        match expected_count {
            Some(expected) => {
                if found_count != expected {
                    let wanted = decimal_text(expected as u64);
                    let found = decimal_text(found_count as u64);
                    return Err(
                        ProfileError::InvalidCatalog(
                            join4(
                                "base profile catalog must contain exactly ",
                                wanted.as_str(),
                                " profiles; found ",
                                found.as_str(),
                            ),
                        ),
                    );
                }
            },
            None => {
                if found_count < BASE_PROFILE_COUNT {
                    let wanted = decimal_text(BASE_PROFILE_COUNT as u64);
                    let found = decimal_text(found_count as u64);
                    return Err(
                        ProfileError::InvalidCatalog(
                            join4(
                                "profile overlay must retain all ",
                                wanted.as_str(),
                                " base profiles; found ",
                                found.as_str(),
                            ),
                        ),
                    );
                }
            },
        }
        let catalog = ProfileCatalog {
            bundle_version: document.bundle_version,
            profiles: document.profiles,
        };
        match catalog.validate(modules) {
            Ok(()) => Ok(catalog),
            Err(error) => Err(error),
        }
    }

    /// Extends this catalog by the profiles of an extension, in the order of their identifiers.
    pub fn extended(self, extension: ProfileCatalogExtension, modules: &ModuleCatalog) -> (result:
        Result<Self, ProfileError>)
        ensures
            outcome(result) == extension_failure(self, extension, *modules),
            result matches Ok(catalog) ==> {
                &&& catalog.version() == self.version()
                &&& catalog.declarations() == self.declarations() + ranked(
                    extension.profiles@,
                    extension.profiles@.len() as int,
                )
            },
    {
        if !same_text(extension.schema_version.as_str(), PROFILE_EXTENSION_SCHEMA_VERSION) {
            return Err(
                ProfileError::InvalidCatalog(
                    join4(
                        "unsupported web profile schema ",
                        extension.schema_version.as_str(),
                        "; expected ",
                        PROFILE_EXTENSION_SCHEMA_VERSION,
                    ),
                ),
            );
        }
        if extension.extension_version.as_str().is_empty() {
            return Err(
                ProfileError::InvalidCatalog(
                    "web profile catalog extension_version is empty".to_owned(),
                ),
            );
        }
        if !same_text(extension.base_bundle_version.as_str(), self.bundle_version.as_str()) {
            return Err(
                ProfileError::InvalidCatalog(
                    join4(
                        "web profile catalog requires base bundle ",
                        extension.base_bundle_version.as_str(),
                        "; bundled base is ",
                        self.bundle_version.as_str(),
                    ),
                ),
            );
        }
        let mut profiles = self.profiles;
        let mut more = sort_ranked(extension.profiles);
        profiles.append(&mut more);
        let catalog = ProfileCatalog { bundle_version: self.bundle_version, profiles };
        match catalog.validate(modules) {
            Ok(()) => Ok(catalog),
            Err(error) => Err(error),
        }
    }

    /// Returns the shared base bundle version.
    pub fn bundle_version(&self) -> (version: &str)
        ensures
            version@ == self.version(),
    {
        self.bundle_version.as_str()
    }

    /// Returns all declarations in authoritative order.
    pub fn profiles(&self) -> (profiles: &Vec<ProfileDefinition>)
        ensures
            profiles@ == self.declarations(),
    {
        &self.profiles
    }

    /// Resolves one profile against this catalog and a module catalog.
    pub fn resolve(&self, profile: &str, modules: &ModuleCatalog) -> (result: Result<
        ResolvedProfile,
        ProfileError,
    >)
        ensures
            match result {
                Ok(found) => resolved(self.declarations(), *modules, profile@) == Ok::<
                    ResolvedModel,
                    ProfileFailure,
                >(found@),
                Err(error) => resolved(self.declarations(), *modules, profile@) == Err::<
                    ResolvedModel,
                    ProfileFailure,
                >(error.failure()),
            },
    {
        if !valid_name(profile) {
            return Err(ProfileError::InvalidName);
        }
        let ghost all = self.profiles@;
        let mut place: usize = 0;
        while place < self.profiles.len() && !same_text(
            self.profiles[place].id.as_str(),
            profile,
        )
            invariant
                all == self.profiles@,
                place <= all.len(),
                profile_place(all, profile@, 0) == profile_place(all, profile@, place as int),
            decreases all.len() - place,
        {
            place += 1;
        }
        if place >= self.profiles.len() {
            return Err(ProfileError::UnknownProfile(profile.to_owned()));
        }
        let definition = &self.profiles[place];
        assert(profile_place(all, profile@, 0) == place);
        let inheritance: Vec<String> = Vec::new();
        assert(texts(inheritance@) =~= Seq::<Seq<char>>::empty());
        assert(all[place as int] == *definition);
        let list = match flatten(&self.profiles, definition, &inheritance) {
            Ok(list) => list,
            Err(error) => {
                return Err(error);
            },
        };
        let ghost values = texts(list@);
        let copies = clone_texts(&list);
        assert(models(copies@) =~= values);
        let selected = sort_unique(copies);
        match modules.validate_selection(&selected) {
            Ok(()) => {},
            Err(error) => {
                return Err(ProfileError::Modules(error.message().to_owned()));
            },
        }
        let mut providers: Vec<ProviderSelection> = Vec::new();
        let mut external_services: Vec<String> = Vec::new();
        let mut index: usize = 0;
        assert(provider_values(providers@) =~= Seq::<(Seq<char>, Seq<char>)>::empty());
        assert(texts(external_services@) =~= Seq::<Seq<char>>::empty());
        while index < list.len()
            invariant
                values == texts(list@),
                index <= values.len(),
                provider_values(providers@) == providers_of(*modules, values, index as int),
                texts(external_services@) == services_of(*modules, values, index as int),
            decreases values.len() - index,
        {
            let id = list[index].as_str();
            assert(values[index as int] == id@);
            if let Some(module) = modules.module(id) {
                if let Some(slot) = &module.provider_slot {
                    let ghost before = provider_values(providers@);
                    providers.push(
                        ProviderSelection { slot: slot.clone(), module: list[index].clone() },
                    );
                    assert(provider_values(providers@) =~= before.push((slot@, id@)));
                }
                add_services(&mut external_services, &module.runtime_dependencies);
            }
            index += 1;
        }
        Ok(
            ResolvedProfile {
                definition: definition.duplicate(),
                modules: list,
                providers,
                external_services,
            },
        )
    }

    /// Checks every profile, and that every profile can be resolved.
    pub fn validate(&self, modules: &ModuleCatalog) -> (result: Result<(), ProfileError>)
        ensures
            outcome(result) == profiles_failure(self.declarations(), *modules),
    {
        let ghost all = self.profiles@;
        let ghost ids = profile_ids(all);
        let ghost total = all.len() as int;
        let mut seen: TextSet = Sorted::new();
        let mut index: usize = 0;
        while index < self.profiles.len()
            invariant
                all == self.profiles@,
                ids == profile_ids(all),
                total == all.len(),
                index <= total,
                shapes_failure(all, index as int) is None,
                forall|value: Seq<char>| #[trigger]
                    seen@.contains(value) <==> exists|j: int|
                        0 <= j < index && #[trigger] ids[j] == value,
            decreases total - index,
        {
            let profile = &self.profiles[index];
            proof {
                assert(ids[index as int] == profile.id@);
                if shapes_failure(all, index + 1) is Some {
                    lemma_shapes_stay(all, index + 1, total);
                }
            }
            match validate_profile_shape(profile) {
                Ok(()) => {},
                Err(error) => {
                    return Err(error);
                },
            }
            let ghost before = seen@;
            let added = set_add(&mut seen, profile.id.as_str());
            proof {
                lemma_seen_grows(before, seen@, ids, index as int);
            }
            if !added {
                return Err(
                    ProfileError::InvalidCatalog(
                        join3("duplicate profile id `", profile.id.as_str(), "`"),
                    ),
                );
            }
            index += 1;
        }
        let mut index: usize = 0;
        while index < self.profiles.len()
            invariant
                all == self.profiles@,
                total == all.len(),
                index <= total,
                shapes_failure(all, total) is None,
                resolution_failure(all, *modules, index as int) is None,
            decreases total - index,
        {
            proof {
                if resolution_failure(all, *modules, index + 1) is Some {
                    lemma_resolutions_stay(all, *modules, index + 1, total);
                }
            }
            match self.resolve(self.profiles[index].id.as_str(), modules) {
                Ok(_) => {},
                Err(error) => {
                    return Err(error);
                },
            }
            index += 1;
        }
        Ok(())
    }
}

/// Resolves one canonical profile from a catalog.
pub fn resolve_profile(catalog: &ProfileCatalog, profile: &str, modules: &ModuleCatalog) -> (result:
    Result<ResolvedProfile, ProfileError>)
    ensures
        match result {
            Ok(found) => resolved(catalog.declarations(), *modules, profile@) == Ok::<
                ResolvedModel,
                ProfileFailure,
            >(found@),
            Err(error) => resolved(catalog.declarations(), *modules, profile@) == Err::<
                ResolvedModel,
                ProfileFailure,
            >(error.failure()),
        },
{
    catalog.resolve(profile, modules)
}

} // verus!
