//! What a valid catalog of profiles holds, and what resolving a profile gives.

use vstd::prelude::*;
use vstd::string::*;

use crate::catalog::{
    direct_modules_failure, document_failure, flattened, is_lineage, is_name, last_profile,
    lemma_last_profile, lemma_lineage_bound, lemma_lineage_grows, lemma_place, lemma_with_direct,
    profile_ids, profile_place, profiles_failure, providers_of, resolution_failure, resolved,
    services_of, shape_failure, shapes_failure, with_direct, with_services, BaseProfiles,
    ProfileDefinition, ProfileFailure,
};
use crate::catalog_laws::{is_blank, lemma_blank};
use crate::module_checks::repeats;
use crate::modules::{ModuleCatalog, RuntimeDependencyId};
use crate::ordered::sorted_listing;
use crate::selection_laws::{lemma_valid_selection, selection_is_valid};
use crate::text::{optional_view, texts};

verus! {

// Shapes.
/// Whether a string is lowercase kebab case: letters, digits and hyphens, a letter first, and no
/// hyphen last.
pub open spec fn is_kebab(text: Seq<char>) -> bool {
    &&& text.len() > 0
    &&& 'a' <= text[0] && text[0] <= 'z'
    &&& text[text.len() - 1] != '-'
    &&& forall|i: int|
        0 <= i < text.len() ==> {
            let character = #[trigger] text[i];
            ||| 'a' <= character && character <= 'z'
            ||| '0' <= character && character <= '9'
            ||| character == '-'
        }
}

/// Whether a profile is right by itself: named, described, and with at least one module, each named
/// and listed once.
pub open spec fn profile_is_valid(profile: ProfileDefinition) -> bool {
    let modules = texts(profile.modules@);
    &&& is_kebab(profile.id@)
    &&& !is_blank(profile.description@)
    &&& modules.len() > 0
    &&& forall|i: int| 0 <= i < modules.len() ==> is_kebab(#[trigger] modules[i])
    &&& forall|i: int, j: int|
        0 <= i < j < modules.len() ==> #[trigger] modules[i] != #[trigger] modules[j]
}

/// Whether profiles are right by themselves and have different names.
pub open spec fn profiles_are_named(profiles: Seq<ProfileDefinition>) -> bool {
    &&& forall|i: int| 0 <= i < profiles.len() ==> profile_is_valid(#[trigger] profiles[i])
    &&& forall|i: int, j: int|
        0 <= i < j < profiles.len() ==> (#[trigger] profiles[i]).id@ != (
        #[trigger] profiles[j]).id@
}

proof fn lemma_direct(profile: ProfileDefinition, count: int)
    requires
        0 <= count <= profile.modules@.len(),
    ensures
        direct_modules_failure(profile, count) is None <==> {
            let modules = texts(profile.modules@);
            &&& forall|i: int| 0 <= i < count ==> is_kebab(#[trigger] modules[i])
            &&& forall|i: int, j: int|
                0 <= i < j < count ==> #[trigger] modules[i] != #[trigger] modules[j]
        },
    decreases count,
{
    if count > 0 {
        lemma_direct(profile, count - 1);
        let modules = texts(profile.modules@);
        assert(is_name(modules[count - 1]) <==> is_kebab(modules[count - 1]));
        assert(repeats(modules, count - 1) <==> exists|j: int|
            0 <= j < count - 1 && #[trigger] modules[j] == modules[count - 1]);
    }
}

/// A profile is accepted by itself if and only if it is right by itself.
pub proof fn lemma_profile_shape(profile: ProfileDefinition)
    ensures
        shape_failure(profile) is None <==> profile_is_valid(profile),
{
    lemma_direct(profile, profile.modules@.len() as int);
    lemma_blank(profile.description@);
    assert(is_name(profile.id@) <==> is_kebab(profile.id@));
}

proof fn lemma_shapes(profiles: Seq<ProfileDefinition>, count: int)
    requires
        0 <= count <= profiles.len(),
    ensures
        shapes_failure(profiles, count) is None <==> {
            &&& forall|i: int| 0 <= i < count ==> profile_is_valid(#[trigger] profiles[i])
            &&& forall|i: int, j: int|
                0 <= i < j < count ==> (#[trigger] profiles[i]).id@ != (#[trigger] profiles[j]).id@
        },
    decreases count,
{
    if count > 0 {
        lemma_shapes(profiles, count - 1);
        lemma_profile_shape(profiles[count - 1]);
        let ids = profile_ids(profiles);
        assert forall|i: int| 0 <= i < profiles.len() implies #[trigger] ids[i]
            == profiles[i].id@ by {}
        assert(repeats(ids, count - 1) <==> exists|j: int|
            0 <= j < count - 1 && (#[trigger] profiles[j]).id@ == profiles[count - 1].id@) by {
            if repeats(ids, count - 1) {
                let j = choose|j: int| 0 <= j < count - 1 && #[trigger] ids[j] == ids[count - 1];
                assert(profiles[j].id@ == profiles[count - 1].id@);
            }
            if exists|j: int|
                0 <= j < count - 1 && (#[trigger] profiles[j]).id@ == profiles[count - 1].id@ {
                let j = choose|j: int|
                    0 <= j < count - 1 && (#[trigger] profiles[j]).id@ == profiles[count - 1].id@;
                assert(ids[j] == ids[count - 1]);
            }
        }
    }
}

// Inheritance.
/// Whether profiles of a catalog form a line in which each extends the next, and the last extends
/// none; none stands in it twice.
pub open spec fn is_line(profiles: Seq<ProfileDefinition>, line: Seq<ProfileDefinition>) -> bool {
    &&& line.len() > 0
    &&& forall|i: int| 0 <= i < line.len() ==> profiles.contains(#[trigger] line[i])
    &&& forall|i: int, j: int|
        0 <= i < line.len() && j == i + 1 ==> if j < line.len() {
            optional_view((#[trigger] line[i]).extends) == Some((#[trigger] line[j]).id@)
        } else {
            line[i].extends is None
        }
    &&& forall|i: int, j: int|
        0 <= i < j < line.len() ==> (#[trigger] line[i]).id@ != (#[trigger] line[j]).id@
}

/// The modules of a line of profiles, those of the last one first.
pub open spec fn line_modules(line: Seq<ProfileDefinition>) -> Seq<Seq<char>>
    decreases line.len(),
{
    if line.len() == 0 {
        Seq::empty()
    } else {
        line_modules(line.drop_first()) + texts(line[0].modules@)
    }
}

proof fn lemma_line_grows(
    profiles: Seq<ProfileDefinition>,
    profile: ProfileDefinition,
    line: Seq<ProfileDefinition>,
)
    requires
        is_line(profiles, line),
        profiles.contains(profile),
        optional_view(profile.extends) == Some(line[0].id@),
        forall|i: int| 0 <= i < line.len() ==> (#[trigger] line[i]).id@ != profile.id@,
    ensures
        is_line(profiles, seq![profile] + line),
{
    let longer = seq![profile] + line;
    assert forall|i: int| 0 <= i < longer.len() implies profiles.contains(
        #[trigger] longer[i],
    ) by {
        if i > 0 {
            assert(longer[i] == line[i - 1]);
        }
    }
    assert forall|i: int, j: int| 0 <= i < longer.len() && j == i + 1 implies if j < longer.len() {
        optional_view((#[trigger] longer[i]).extends) == Some((#[trigger] longer[j]).id@)
    } else {
        longer[i].extends is None
    } by {
        if i > 0 {
            assert(longer[i] == line[i - 1]);
            if j < longer.len() {
                assert(longer[j] == line[j - 1]);
            }
            assert(0 <= i - 1 < line.len() && j - 1 == (i - 1) + 1);
            let a = line[i - 1];
            let b = line[j - 1];
        }
    }
    assert forall|i: int, j: int| 0 <= i < j < longer.len() implies (#[trigger] longer[i]).id@ != (
    #[trigger] longer[j]).id@ by {
        assert(longer[j] == line[j - 1]);
        if i > 0 {
            assert(longer[i] == line[i - 1]);
        }
    }
}

proof fn lemma_flattened_line(
    profiles: Seq<ProfileDefinition>,
    profile: ProfileDefinition,
    inheritance: Seq<Seq<char>>,
) -> (line: Seq<ProfileDefinition>)
    requires
        flattened(profiles, profile, inheritance) is Ok,
        profiles.contains(profile),
    ensures
        is_line(profiles, line),
        line[0] == profile,
        flattened(profiles, profile, inheritance)->Ok_0 == line_modules(line),
        forall|i: int| 0 <= i < line.len() ==> !inheritance.contains((#[trigger] line[i]).id@),
    decreases profiles.len() + 1 - inheritance.len(),
{
    let count = profile.modules@.len() as int;
    match profile.extends {
        None => {
            let line = seq![profile];
            lemma_with_direct(Seq::empty(), profile, count);
            assert(line.drop_first() =~= Seq::<ProfileDefinition>::empty());
            assert(line_modules(line.drop_first()) =~= Seq::<Seq<char>>::empty());
            assert(flattened(profiles, profile, inheritance)->Ok_0 =~= line_modules(line));
            line
        },
        Some(parent) => {
            lemma_last_profile(profiles, parent@, profiles.len() as int);
            let definition = last_profile(profiles, parent@, profiles.len() as int)->Some_0;
            let deeper = inheritance.push(profile.id@);
            let rest = lemma_flattened_line(profiles, definition, deeper);
            let inherited = flattened(profiles, definition, deeper)->Ok_0;
            lemma_with_direct(inherited, profile, count);
            let line = seq![profile] + rest;
            assert(deeper[inheritance.len() as int] == profile.id@);
            assert forall|i: int| 0 <= i < rest.len() implies (#[trigger] rest[i]).id@
                != profile.id@ && !inheritance.contains(rest[i].id@) by {
                assert(!deeper.contains(rest[i].id@));
                assert(deeper.contains(profile.id@));
                if inheritance.contains(rest[i].id@) {
                    let k = choose|k: int|
                        0 <= k < inheritance.len() && inheritance[k] == rest[i].id@;
                    assert(deeper[k] == rest[i].id@);
                }
            }
            lemma_line_grows(profiles, profile, rest);
            assert(line.drop_first() =~= rest);
            assert forall|i: int| 0 <= i < line.len() implies !inheritance.contains(
                (#[trigger] line[i]).id@,
            ) by {
                if i > 0 {
                    assert(line[i] == rest[i - 1]);
                }
            }
            line
        },
    }
}

proof fn lemma_all_direct(inherited: Seq<Seq<char>>, profile: ProfileDefinition, count: int)
    requires
        0 <= count <= profile.modules@.len(),
        (inherited + texts(profile.modules@)).no_duplicates(),
    ensures
        with_direct(inherited, profile, count) is Ok,
    decreases count,
{
    if count > 0 {
        lemma_all_direct(inherited, profile, count - 1);
        lemma_with_direct(inherited, profile, count - 1);
        let direct = texts(profile.modules@);
        let all = inherited + direct;
        let before = with_direct(inherited, profile, count - 1)->Ok_0;
        let place = inherited.len() + count - 1;
        assert(all[place] == direct[count - 1]);
        if before.contains(direct[count - 1]) {
            let k = choose|k: int| 0 <= k < before.len() && before[k] == direct[count - 1];
            assert(all[k] == before[k]);
        }
    }
}

proof fn lemma_named_profile(profiles: Seq<ProfileDefinition>, profile: ProfileDefinition, count: int)
    requires
        profiles_are_named(profiles),
        0 <= count <= profiles.len(),
        exists|k: int| 0 <= k < count && profiles[k] == profile,
    ensures
        last_profile(profiles, profile.id@, count) == Some(profile),
    decreases count,
{
    let k = choose|k: int| 0 <= k < count && profiles[k] == profile;
    if k < count - 1 {
        assert(profiles[k].id@ != profiles[count - 1].id@);
        lemma_named_profile(profiles, profile, count - 1);
    }
}

proof fn lemma_line_flattens(
    profiles: Seq<ProfileDefinition>,
    line: Seq<ProfileDefinition>,
    inheritance: Seq<Seq<char>>,
)
    requires
        profiles_are_named(profiles),
        is_line(profiles, line),
        is_lineage(profiles, inheritance),
        line_modules(line).no_duplicates(),
        forall|i: int| 0 <= i < line.len() ==> !inheritance.contains((#[trigger] line[i]).id@),
    ensures
        flattened(profiles, line[0], inheritance) == Ok::<Seq<Seq<char>>, ProfileFailure>(
            line_modules(line),
        ),
    decreases line.len(),
{
    let profile = line[0];
    let rest = line.drop_first();
    let below = line_modules(rest);
    let count = profile.modules@.len() as int;
    assert(line_modules(line) == below + texts(profile.modules@));
    assert(!inheritance.contains(line[0].id@));
    lemma_lineage_bound(profiles, inheritance);
    lemma_all_direct(below, profile, count);
    lemma_with_direct(below, profile, count);
    if line.len() == 1 {
        assert(line[0].extends is None) by {
            assert(0 <= 0 < line.len() && 1 == 0 + 1);
            let next = line[1];
        }
        assert(below =~= Seq::<Seq<char>>::empty());
    } else {
        assert(optional_view(line[0].extends) == Some(line[1].id@));
        let place = choose|k: int| 0 <= k < profiles.len() && profiles[k] == line[1];
        assert(profiles.contains(line[1]));
        lemma_named_profile(profiles, line[1], profiles.len() as int);
        assert(profiles.contains(line[0]));
        let own = choose|k: int| 0 <= k < profiles.len() && profiles[k] == line[0];
        lemma_lineage_grows(profiles, inheritance, own);
        let deeper = inheritance.push(profile.id@);
        assert forall|i: int| 0 <= i < rest.len() implies !deeper.contains(
            (#[trigger] rest[i]).id@,
        ) by {
            assert(rest[i] == line[i + 1]);
            assert(line[0].id@ != line[i + 1].id@);
            if deeper.contains(rest[i].id@) {
                let k = choose|k: int| 0 <= k < deeper.len() && deeper[k] == rest[i].id@;
                if k < inheritance.len() {
                    assert(inheritance[k] == rest[i].id@);
                    assert(inheritance.contains(line[i + 1].id@));
                }
            }
        }
        assert(is_line(profiles, rest)) by {
            assert forall|i: int| 0 <= i < rest.len() implies profiles.contains(
                #[trigger] rest[i],
            ) by {
                assert(rest[i] == line[i + 1]);
            }
            assert forall|i: int, j: int| 0 <= i < rest.len() && j == i + 1 implies if j
                < rest.len() {
                optional_view((#[trigger] rest[i]).extends) == Some((#[trigger] rest[j]).id@)
            } else {
                rest[i].extends is None
            } by {
                assert(rest[i] == line[i + 1]);
                let next = line[j + 1];
                if j < rest.len() {
                    assert(rest[j] == line[j + 1]);
                }
            }
            assert forall|i: int, j: int| 0 <= i < j < rest.len() implies (
            #[trigger] rest[i]).id@ != (#[trigger] rest[j]).id@ by {
                assert(rest[i] == line[i + 1] && rest[j] == line[j + 1]);
            }
        }
        assert(below.no_duplicates()) by {
            let all = line_modules(line);
            assert forall|i: int, j: int|
                0 <= i < below.len() && 0 <= j < below.len() && i != j implies below[i]
                != below[j] by {
                assert(all[i] == below[i] && all[j] == below[j]);
            }
        }
        lemma_line_flattens(profiles, rest, deeper);
    }
}

/// Whether a profile can be resolved: it heads a line, no module stands in the line twice, and the
/// modules of the line are a valid selection.
pub open spec fn is_resolvable(
    profiles: Seq<ProfileDefinition>,
    catalog: ModuleCatalog,
    profile: ProfileDefinition,
) -> bool {
    exists|line: Seq<ProfileDefinition>|
        {
            &&& #[trigger] is_line(profiles, line)
            &&& line[0] == profile
            &&& line_modules(line).no_duplicates()
            &&& selection_is_valid(catalog, sorted_listing::<String>(line_modules(line)))
        }
}

/// In a catalog of profiles that are right by themselves, resolving a name succeeds if and only if
/// a profile has it that can be resolved.
pub proof fn lemma_resolvable(
    profiles: Seq<ProfileDefinition>,
    catalog: ModuleCatalog,
    id: Seq<char>,
)
    requires
        profiles_are_named(profiles),
    ensures
        resolved(profiles, catalog, id) is Ok <==> exists|k: int|
            0 <= k < profiles.len() && (#[trigger] profiles[k]).id@ == id && is_resolvable(
                profiles,
                catalog,
                profiles[k],
            ),
{
    lemma_place(profiles, id, 0);
    let place = profile_place(profiles, id, 0);
    let none = Seq::<Seq<char>>::empty();
    if resolved(profiles, catalog, id) is Ok {
        let profile = profiles[place];
        assert(profiles.contains(profile));
        let line = lemma_flattened_line(profiles, profile, none);
        crate::catalog::lemma_flattened_distinct(profiles, profile, none);
        lemma_valid_selection(catalog, sorted_listing::<String>(line_modules(line)));
        assert(is_line(profiles, line));
        assert(is_resolvable(profiles, catalog, profiles[place]));
    }
    if exists|k: int|
        0 <= k < profiles.len() && (#[trigger] profiles[k]).id@ == id && is_resolvable(
            profiles,
            catalog,
            profiles[k],
        ) {
        let k = choose|k: int|
            0 <= k < profiles.len() && (#[trigger] profiles[k]).id@ == id && is_resolvable(
                profiles,
                catalog,
                profiles[k],
            );
        if k < place || place < k {
            assert(profiles[k].id@ == profiles[place].id@);
            assert(false);
        }
        let profile = profiles[k];
        let line = choose|line: Seq<ProfileDefinition>|
            {
                &&& #[trigger] is_line(profiles, line)
                &&& line[0] == profile
                &&& line_modules(line).no_duplicates()
                &&& selection_is_valid(catalog, sorted_listing::<String>(line_modules(line)))
            };
        assert(is_lineage(profiles, none));
        lemma_line_flattens(profiles, line, none);
        lemma_valid_selection(catalog, sorted_listing::<String>(line_modules(line)));
        assert(profile_is_valid(profiles[k]));
        assert(is_name(id) <==> is_kebab(id));
    }
}

proof fn lemma_resolutions(profiles: Seq<ProfileDefinition>, catalog: ModuleCatalog, count: int)
    requires
        0 <= count <= profiles.len(),
    ensures
        resolution_failure(profiles, catalog, count) is None <==> forall|i: int|
            0 <= i < count ==> resolved(profiles, catalog, (#[trigger] profiles[i]).id@) is Ok,
    decreases count,
{
    if count > 0 {
        lemma_resolutions(profiles, catalog, count - 1);
        assert(resolved(profiles, catalog, profiles[count - 1].id@) is Ok || resolved(
            profiles,
            catalog,
            profiles[count - 1].id@,
        ) is Err);
    }
}

/// Whether profiles form a valid catalog.
pub open spec fn profiles_are_valid(
    profiles: Seq<ProfileDefinition>,
    catalog: ModuleCatalog,
) -> bool {
    &&& profiles_are_named(profiles)
    &&& forall|i: int|
        0 <= i < profiles.len() ==> is_resolvable(profiles, catalog, #[trigger] profiles[i])
}

/// Profiles are accepted if and only if each is right by itself, their names differ, and each can
/// be resolved.
pub proof fn lemma_valid_profiles(profiles: Seq<ProfileDefinition>, catalog: ModuleCatalog)
    ensures
        profiles_failure(profiles, catalog) is None <==> profiles_are_valid(profiles, catalog),
{
    lemma_shapes(profiles, profiles.len() as int);
    lemma_resolutions(profiles, catalog, profiles.len() as int);
    if profiles_are_named(profiles) {
        assert forall|i: int| 0 <= i < profiles.len() implies (resolved(
            profiles,
            catalog,
            (#[trigger] profiles[i]).id@,
        ) is Ok <==> is_resolvable(profiles, catalog, profiles[i])) by {
            lemma_resolvable(profiles, catalog, profiles[i].id@);
            if resolved(profiles, catalog, profiles[i].id@) is Ok {
                let k = choose|k: int|
                    0 <= k < profiles.len() && (#[trigger] profiles[k]).id@ == profiles[i].id@
                        && is_resolvable(profiles, catalog, profiles[k]);
                if k < i || i < k {
                    assert(false);
                }
            }
        }
    }
}

/// A catalog document is accepted if and only if it has the schema and the bundle version of the
/// library and of the module catalog, ten profiles, or at least ten in an overlay, and they are
/// valid.
pub proof fn lemma_valid_document(
    document: BaseProfiles,
    catalog: ModuleCatalog,
    overlay: bool,
)
    ensures
        document_failure(
            document,
            catalog,
            if overlay {
                None
            } else {
                Some(10usize)
            },
        ) is None <==> {
            &&& document.schema_version == 1
            &&& document.bundle_version@ == "0.1.0"@
            &&& catalog.bundle_version@ == "0.1.0"@
            &&& if overlay {
                document.profiles@.len() >= 10
            } else {
                document.profiles@.len() == 10
            }
            &&& profiles_are_valid(document.profiles@, catalog)
        },
{
    lemma_valid_profiles(document.profiles@, catalog);
}

// Contents.
proof fn lemma_providers_listed(catalog: ModuleCatalog, list: Seq<Seq<char>>, count: int)
    requires
        0 <= count <= list.len(),
    ensures
        forall|pair: (Seq<char>, Seq<char>)| #[trigger]
            providers_of(catalog, list, count).contains(pair) <==> exists|i: int|
                0 <= i < count && #[trigger] list[i] == pair.1 && fills_slot(catalog, list[i], pair.0),
    decreases count,
{
    if count > 0 {
        lemma_providers_listed(catalog, list, count - 1);
        let before = providers_of(catalog, list, count - 1);
        let now = providers_of(catalog, list, count);
        let id = list[count - 1];
        assert forall|pair: (Seq<char>, Seq<char>)| #[trigger] now.contains(pair) <==> exists|
            i: int,
        |
            0 <= i < count && #[trigger] list[i] == pair.1 && fills_slot(
                catalog,
                list[i],
                pair.0,
            ) by {
            assert(before.contains(pair) <==> exists|i: int|
                0 <= i < count - 1 && #[trigger] list[i] == pair.1 && fills_slot(
                    catalog,
                    list[i],
                    pair.0,
                ));
            if now != before {
                let own = (catalog.find(id)->Some_0.provider_slot->Some_0@, id);
                assert(now == before.push(own));
                if now.contains(pair) {
                    let k = choose|k: int| 0 <= k < now.len() && now[k] == pair;
                    if k < before.len() {
                        assert(before[k] == pair);
                    } else {
                        assert(list[count - 1] == pair.1);
                    }
                }
                if before.contains(pair) {
                    let k = choose|k: int| 0 <= k < before.len() && before[k] == pair;
                    assert(now[k] == pair);
                }
                assert(now[before.len() as int] == own);
                assert(now.contains(own));
            }
        }
    }
}

/// Whether a module fills a provider slot.
pub open spec fn fills_slot(catalog: ModuleCatalog, id: Seq<char>, slot: Seq<char>) -> bool {
    catalog.find(id) matches Some(module) && optional_view(module.provider_slot) == Some(slot)
}

/// Whether a module runs on a service.
pub open spec fn runs_on(catalog: ModuleCatalog, id: Seq<char>, service: Seq<char>) -> bool {
    catalog.find(id) matches Some(module) && exists|k: int|
        0 <= k < module.runtime_dependencies@.len() && (
        #[trigger] module.runtime_dependencies@[k]).text() == service
}

proof fn lemma_with_services(
    known: Seq<Seq<char>>,
    dependencies: Seq<RuntimeDependencyId>,
    count: int,
)
    requires
        0 <= count <= dependencies.len(),
        known.no_duplicates(),
    ensures
        with_services(known, dependencies, count).no_duplicates(),
        forall|service: Seq<char>| #[trigger]
            with_services(known, dependencies, count).contains(service) <==> known.contains(service)
                || exists|k: int| 0 <= k < count && (#[trigger] dependencies[k]).text() == service,
    decreases count,
{
    if count > 0 {
        lemma_with_services(known, dependencies, count - 1);
        let before = with_services(known, dependencies, count - 1);
        let now = with_services(known, dependencies, count);
        let own = dependencies[count - 1].text();
        assert forall|service: Seq<char>| #[trigger] now.contains(service) <==> known.contains(
            service,
        ) || exists|k: int| 0 <= k < count && (#[trigger] dependencies[k]).text() == service by {
            assert(before.contains(service) <==> known.contains(service) || exists|k: int|
                0 <= k < count - 1 && (#[trigger] dependencies[k]).text() == service);
            if now != before {
                if now.contains(service) {
                    let k = choose|k: int| 0 <= k < now.len() && now[k] == service;
                    if k < before.len() {
                        assert(before[k] == service);
                    }
                }
                if before.contains(service) {
                    let k = choose|k: int| 0 <= k < before.len() && before[k] == service;
                    assert(now[k] == service);
                }
                assert(now[before.len() as int] == own);
            }
            assert(dependencies[count - 1].text() == own);
        }
    }
}

proof fn lemma_services_listed(catalog: ModuleCatalog, list: Seq<Seq<char>>, count: int)
    requires
        0 <= count <= list.len(),
    ensures
        services_of(catalog, list, count).no_duplicates(),
        forall|service: Seq<char>| #[trigger]
            services_of(catalog, list, count).contains(service) <==> exists|i: int|
                0 <= i < count && runs_on(catalog, #[trigger] list[i], service),
    decreases count,
{
    if count > 0 {
        lemma_services_listed(catalog, list, count - 1);
        let before = services_of(catalog, list, count - 1);
        if let Some(module) = catalog.find(list[count - 1]) {
            lemma_with_services(
                before,
                module.runtime_dependencies@,
                module.runtime_dependencies@.len() as int,
            );
        }
        let now = services_of(catalog, list, count);
        assert forall|service: Seq<char>| #[trigger] now.contains(service) <==> exists|i: int|
            0 <= i < count && runs_on(catalog, #[trigger] list[i], service) by {
            assert(before.contains(service) <==> exists|i: int|
                0 <= i < count - 1 && runs_on(catalog, #[trigger] list[i], service));
            assert(now.contains(service) <==> before.contains(service) || runs_on(
                catalog,
                list[count - 1],
                service,
            ));
        }
    }
}

/// A resolved profile names the provider of every slot that one of its modules fills, and every
/// service that one of its modules runs on, each once; it names no others. Its modules are a valid
/// selection.
pub proof fn lemma_resolved_contents(
    profiles: Seq<ProfileDefinition>,
    catalog: ModuleCatalog,
    id: Seq<char>,
)
    ensures
        resolved(profiles, catalog, id) matches Ok(model) ==> {
            &&& selection_is_valid(catalog, sorted_listing::<String>(model.modules))
            &&& forall|slot: Seq<char>, module: Seq<char>| #[trigger]
                model.providers.contains((slot, module)) <==> model.modules.contains(module)
                    && fills_slot(catalog, module, slot)
            &&& model.services.no_duplicates()
            &&& forall|service: Seq<char>| #[trigger]
                model.services.contains(service) <==> exists|i: int|
                    0 <= i < model.modules.len() && runs_on(
                        catalog,
                        #[trigger] model.modules[i],
                        service,
                    )
        },
{
    if let Ok(model) = resolved(profiles, catalog, id) {
        let count = model.modules.len() as int;
        lemma_valid_selection(catalog, sorted_listing::<String>(model.modules));
        lemma_providers_listed(catalog, model.modules, count);
        lemma_services_listed(catalog, model.modules, count);
        assert forall|slot: Seq<char>, module: Seq<char>| #[trigger]
            model.providers.contains((slot, module)) <==> model.modules.contains(module)
                && fills_slot(catalog, module, slot) by {
            let pair = (slot, module);
            assert(model.providers.contains(pair) <==> exists|i: int|
                0 <= i < count && #[trigger] model.modules[i] == pair.1 && fills_slot(
                    catalog,
                    model.modules[i],
                    pair.0,
                ));
            if model.modules.contains(module) {
                let i = choose|i: int| 0 <= i < count && model.modules[i] == module;
                assert(model.modules[i] == pair.1);
            }
        }
    }
}

} // verus!
