//! What the Compose file holds of the selected modules.

use vstd::prelude::*;
use vstd::string::*;

use crate::compose::{
    application_entries, application_environment, application_fragments,
    block_fragments, block_rank, block_volumes, compose_file, compose_fragments, contradiction,
    contradicts, dependency_entries, dependency_fragments, environment_lines, external_entries,
    fragment_text, fragments_text, joined_blocks, json_string, lasting_entries, local_entries,
    local_services, migration_environment, migration_fragments, migration_owner, owned_migration,
    plain, quoted, quoted_list, service_blocks, text_rank, volume_lines, volumes_text,
    waiting_lines, waiting_text, BlockModel, EntryModel, EnvironmentEntry, FragmentModel,
};
use crate::modules::{
    ComposeEnvironmentBinding, ComposeHealthcheck, ModuleCatalog, RuntimeDependencyDescriptor,
};
use crate::ordered::{ascending, lemma_listing_exists, sorted_listing};
use crate::plan_laws::lemma_arranged_in_order;
use crate::rendering::dependencies_of;
use crate::request_laws::{lemma_needed, needs};
use crate::sorting::arranged;
use crate::text::{decimal, texts};

verus! {

// The document.
/// Lines one after the other.
pub open spec fn lines(list: Seq<Seq<char>>) -> Seq<char> {
    list.flatten()
}

/// The lines of environment variables.
pub open spec fn variables(environment: Seq<(Seq<char>, Seq<char>)>) -> Seq<char> {
    lines(
        environment.map_values(
            |entry: (Seq<char>, Seq<char>)|
                "      "@ + entry.0 + ": "@ + json_string(entry.1) + "\n"@,
        ),
    )
}

/// The line of a service that another one waits for.
pub open spec fn wait_line(service: Seq<char>) -> Seq<char> {
    "      "@ + service + ":\n        condition: service_healthy\n"@
}

/// What a Compose file says, part by part.
pub struct ComposeModel {
    /// Environment of the application.
    pub environment: Seq<(Seq<char>, Seq<char>)>,
    /// Services that the application waits for.
    pub waits: Seq<Seq<char>>,
    /// Service that is migrated, the command, and the environment of that.
    pub migration: Option<(Seq<char>, Seq<Seq<char>>, Seq<(Seq<char>, Seq<char>)>)>,
    /// Names and blocks of services.
    pub services: Seq<(Seq<char>, Seq<char>)>,
    /// Volumes.
    pub volumes: Seq<Seq<char>>,
}

/// What the application waits for: the services, and the migration where there is one.
pub open spec fn waits_written(file: ComposeModel) -> Seq<char> {
    if file.waits.len() == 0 {
        Seq::empty()
    } else {
        "    depends_on:\n"@ + lines(file.waits.map_values(|service: Seq<char>| wait_line(service)))
            + (if file.migration is Some {
            "      migrate:\n        condition: service_completed_successfully\n"@
        } else {
            Seq::empty()
        })
    }
}

/// The block of the application.
pub open spec fn application_written(file: ComposeModel) -> Seq<char> {
    "services:\n  app:\n"@ + "    build:\n      context: ..\n      dockerfile: ops/Dockerfile\n"@
        + "    environment:\n"@ + variables(file.environment) + waits_written(file)
        + "    ports:\n    - \"127.0.0.1:3000:3000\"\n    read_only: true\n    tmpfs:\n    - /tmp:size=16m,mode=1777\n    security_opt:\n    - no-new-privileges:true\n"@
}

/// Quoted strings with commas between them.
pub open spec fn quoted_strings(list: Seq<Seq<char>>) -> Seq<char>
    decreases list.len(),
{
    if list.len() == 0 {
        Seq::empty()
    } else if list.len() == 1 {
        json_string(list[0])
    } else {
        quoted_strings(list.drop_last()) + ", "@ + json_string(list.last())
    }
}

/// The block of the migration.
pub open spec fn migration_written(file: ComposeModel) -> Seq<char> {
    match file.migration {
        None => Seq::empty(),
        Some((service, command, environment)) => "  migrate:\n"@
            + "    build:\n      context: ..\n      dockerfile: ops/Dockerfile\n"@ + "    command: ["@
            + quoted_strings(command) + "]\n    environment:\n"@ + variables(environment) + (
        "    depends_on:\n"@ + wait_line(service))
            + "    restart: \"no\"\n    read_only: true\n    tmpfs:\n    - /tmp:size=16m,mode=1777\n    security_opt:\n    - no-new-privileges:true\n"@,
    }
}

/// The declaration of volumes.
pub open spec fn volumes_written(file: ComposeModel) -> Seq<char> {
    if file.volumes.len() == 0 {
        Seq::empty()
    } else {
        "volumes:\n"@ + lines(file.volumes.map_values(|volume: Seq<char>| "  "@ + volume + ":\n"@))
    }
}

/// The whole file.
pub open spec fn file_written(file: ComposeModel) -> Seq<char> {
    application_written(file) + migration_written(file) + lines(
        file.services.map_values(|service: (Seq<char>, Seq<char>)| service.1),
    ) + volumes_written(file)
}

/// The block of a local service.
pub open spec fn service_written(
    service: Seq<char>,
    image: Seq<char>,
    volume: Seq<char>,
    volume_mount: Seq<char>,
    healthcheck: ComposeHealthcheck,
    environment: Seq<(Seq<char>, Seq<char>)>,
) -> Seq<char> {
    "  "@ + service + ":\n    image: "@ + image + "\n"@ + "    environment:\n"@ + variables(
        environment,
    ) + "    volumes:\n    - "@ + json_string(volume + ":"@ + volume_mount)
        + "\n    healthcheck:\n      test: ["@ + quoted_strings(texts(healthcheck.test@))
        + "]\n      interval: "@ + healthcheck.interval@ + "\n      timeout: "@
        + healthcheck.timeout@ + "\n      retries: "@ + decimal(healthcheck.retries as nat) + "\n"@
}

/// Whether a list is the environment of bindings: in order, and with the last value of each name.
pub open spec fn is_environment_of(
    environment: Seq<(Seq<char>, Seq<char>)>,
    bindings: Seq<ComposeEnvironmentBinding>,
) -> bool {
    &&& ascending::<EnvironmentEntry>(environment)
    &&& forall|name: Seq<char>, value: Seq<char>| #[trigger]
        environment.contains((name, value)) <==> exists|i: int|
            {
                &&& 0 <= i < bindings.len()
                &&& (#[trigger] bindings[i]).name@ == name
                &&& bindings[i].value@ == value
                &&& forall|j: int| i < j < bindings.len() ==> (#[trigger] bindings[j]).name@ != name
            }
}

/// Whether a block is that of a dependency that is run as a local service.
pub open spec fn is_block_of(
    block: (Seq<char>, Seq<char>),
    dependency: RuntimeDependencyDescriptor,
) -> bool {
    dependency matches RuntimeDependencyDescriptor::Compose {
        service,
        image,
        volume,
        volume_mount,
        healthcheck,
        service_environment,
        ..
    } && block.0 == service@ && exists|environment: Seq<(Seq<char>, Seq<char>)>|
        #[trigger] is_environment_of(environment, service_environment@) && block.1
            == service_written(
            service@,
            image@,
            volume@,
            volume_mount@,
            *healthcheck,
            environment,
        )
}

/// Whether a dependency is run as a local service of this name.
pub open spec fn runs_service(
    dependency: RuntimeDependencyDescriptor,
    name: Seq<char>,
) -> bool {
    dependency matches RuntimeDependencyDescriptor::Compose { service, .. } && service@ == name
}

/// Whether a selected module supplies the migration of a dependency.
pub open spec fn is_migrated(
    dependency: RuntimeDependencyDescriptor,
    selected: Seq<Seq<char>>,
) -> bool {
    dependency matches RuntimeDependencyDescriptor::Compose { migration: Some(migration), .. }
        && selected.contains(migration.required_module@)
}

/// Whether a dependency gives the application a variable: a local service its bindings, the one
/// that runs migrations at startup only where there is a migration; an external one a required
/// variable of the same name with the diagnostic.
pub open spec fn gives(
    dependency: RuntimeDependencyDescriptor,
    migrates: bool,
    name: Seq<char>,
    value: Seq<char>,
) -> bool {
    match dependency {
        RuntimeDependencyDescriptor::Compose { application_environment, .. } => {
            &&& name == "OMNIUS__MIGRATIONS__RUN_ON_STARTUP"@ ==> migrates
            &&& exists|i: int|
                0 <= i < application_environment@.len() && (
                #[trigger] application_environment@[i]).name@ == name
                    && application_environment@[i].value@ == value
        },
        RuntimeDependencyDescriptor::External { bindings, .. } => exists|i: int|
            0 <= i < bindings@.len() && (#[trigger] bindings@[i]).name@ == name && value == "${"@
                + name + ":?"@ + bindings@[i].message@ + "}"@,
    }
}

// Fragments.
spec fn total(list: Seq<FragmentModel>) -> Seq<char> {
    fragments_text(list, list.len() as int)
}

proof fn lemma_prefix_text(left: Seq<FragmentModel>, right: Seq<FragmentModel>, count: int)
    requires
        0 <= count <= left.len(),
        left.len() <= right.len(),
        forall|i: int| 0 <= i < count ==> left[i] == right[i],
    ensures
        fragments_text(left, count) == fragments_text(right, count),
    decreases count,
{
    if count > 0 {
        lemma_prefix_text(left, right, count - 1);
    }
}

proof fn lemma_total(left: Seq<FragmentModel>, right: Seq<FragmentModel>)
    ensures
        total(left + right) == total(left) + total(right),
    decreases right.len(),
{
    let all = left + right;
    if right.len() == 0 {
        assert(all =~= left);
        assert(total(left) + total(right) =~= total(left));
    } else {
        let fewer = right.drop_last();
        lemma_total(left, fewer);
        lemma_prefix_text(left + fewer, all, all.len() - 1);
        lemma_prefix_text(fewer, right, right.len() - 1);
        assert(all[all.len() - 1] == right.last());
        assert(total(all) == total(left + fewer) + fragment_text(right.last()));
        assert(total(right) == total(fewer) + fragment_text(right.last()));
        assert(total(all) =~= total(left) + total(right));
    }
}

proof fn lemma_plain(text: Seq<char>)
    ensures
        total(plain(text)) == text,
        total(quoted(text)) == json_string(text),
{
    reveal_with_fuel(fragments_text, 2);
    assert(Seq::<char>::empty() + text =~= text);
    assert(Seq::<char>::empty() + json_string(text) =~= json_string(text));
}

proof fn lemma_variables(environment: Seq<EntryModel>, count: int)
    requires
        0 <= count <= environment.len(),
    ensures
        total(environment_lines(environment, count)) == variables(environment.take(count)),
    decreases count,
{
    let line = |entry: (Seq<char>, Seq<char>)|
        "      "@ + entry.0 + ": "@ + json_string(entry.1) + "\n"@;
    if count > 0 {
        lemma_variables(environment, count - 1);
        let before = environment_lines(environment, count - 1);
        let entry = environment[count - 1];
        let head = plain("      "@ + entry.0 + ": "@);
        lemma_plain("      "@ + entry.0 + ": "@);
        lemma_plain(entry.1);
        lemma_plain("\n"@);
        lemma_total(before, head);
        lemma_total(before + head, quoted(entry.1));
        lemma_total(before + head + quoted(entry.1), plain("\n"@));
        let few = environment.take(count - 1).map_values(line);
        let more = environment.take(count).map_values(line);
        assert(more =~= few.push(line(entry)));
        few.lemma_flatten_push(line(entry));
        assert(total(environment_lines(environment, count)) =~= variables(environment.take(count)));
    } else {
        assert(environment.take(0).map_values(line) =~= Seq::<Seq<char>>::empty());
    }
}

proof fn lemma_quoted_strings(list: Seq<Seq<char>>, count: int)
    requires
        0 <= count <= list.len(),
    ensures
        total(quoted_list(list, count)) == quoted_strings(list.take(count)),
    decreases count,
{
    if count > 0 {
        lemma_quoted_strings(list, count - 1);
        let before = quoted_list(list, count - 1);
        let comma = if count > 1 {
            plain(", "@)
        } else {
            Seq::empty()
        };
        lemma_plain(", "@);
        lemma_plain(list[count - 1]);
        lemma_total(before, comma);
        lemma_total(before + comma, quoted(list[count - 1]));
        let few = list.take(count - 1);
        let more = list.take(count);
        assert(more.drop_last() =~= few);
        assert(more.last() == list[count - 1]);
        if count == 1 {
            assert(few =~= Seq::<Seq<char>>::empty());
            assert(total(Seq::<FragmentModel>::empty()) =~= Seq::<char>::empty());
        }
        assert(total(quoted_list(list, count)) =~= quoted_strings(more));
    } else {
        assert(list.take(0) =~= Seq::<Seq<char>>::empty());
    }
}

proof fn lemma_waiting_lines(services: Seq<Seq<char>>, count: int)
    requires
        0 <= count <= services.len(),
    ensures
        waiting_lines(services, count) == lines(
            services.take(count).map_values(|service: Seq<char>| wait_line(service)),
        ),
    decreases count,
{
    let line = |service: Seq<char>| wait_line(service);
    if count > 0 {
        lemma_waiting_lines(services, count - 1);
        let few = services.take(count - 1).map_values(line);
        let more = services.take(count).map_values(line);
        assert(more =~= few.push(wait_line(services[count - 1])));
        few.lemma_flatten_push(wait_line(services[count - 1]));
        assert(waiting_lines(services, count) =~= lines(more));
    } else {
        assert(services.take(0).map_values(line) =~= Seq::<Seq<char>>::empty());
    }
}

proof fn lemma_volume_lines(volumes: Seq<Seq<char>>, count: int)
    requires
        0 <= count <= volumes.len(),
    ensures
        volume_lines(volumes, count) == lines(
            volumes.take(count).map_values(|volume: Seq<char>| "  "@ + volume + ":\n"@),
        ),
    decreases count,
{
    let line = |volume: Seq<char>| "  "@ + volume + ":\n"@;
    if count > 0 {
        lemma_volume_lines(volumes, count - 1);
        let few = volumes.take(count - 1).map_values(line);
        let more = volumes.take(count).map_values(line);
        assert(more =~= few.push(line(volumes[count - 1])));
        few.lemma_flatten_push(line(volumes[count - 1]));
        assert(volume_lines(volumes, count) =~= lines(more));
    } else {
        assert(volumes.take(0).map_values(line) =~= Seq::<Seq<char>>::empty());
    }
}

// Members.
pub(crate) proof fn lemma_arranged_members<M>(list: Seq<M>, rank_of: spec_fn(M) -> Seq<u32>)
    ensures
        arranged(list, rank_of, list.len() as int).len() == list.len(),
        forall|item: M| #[trigger]
            arranged(list, rank_of, list.len() as int).contains(item) <==> list.contains(item),
{
    lemma_arranged_in_order(list, rank_of, list.len() as int);
    assert(list.take(list.len() as int) =~= list);
    let sorted = arranged(list, rank_of, list.len() as int);
    sorted.to_multiset_ensures();
    list.to_multiset_ensures();
    assert forall|item: M| #[trigger] sorted.contains(item) <==> list.contains(item) by {
        assert(sorted.to_multiset().count(item) > 0 <==> sorted.contains(item));
        assert(list.to_multiset().count(item) > 0 <==> list.contains(item));
    }
}

proof fn lemma_services(dependencies: Seq<RuntimeDependencyDescriptor>, count: int)
    requires
        0 <= count <= dependencies.len(),
    ensures
        forall|name: Seq<char>| #[trigger]
            local_services(dependencies, count).contains(name) <==> exists|i: int|
                0 <= i < count && runs_service(#[trigger] dependencies[i], name),
    decreases count,
{
    let now = local_services(dependencies, count);
    if count > 0 {
        lemma_services(dependencies, count - 1);
        let before = local_services(dependencies, count - 1);
        assert forall|name: Seq<char>| #[trigger] now.contains(name) <==> exists|i: int|
            0 <= i < count && runs_service(#[trigger] dependencies[i], name) by {
            assert(before.contains(name) <==> exists|i: int|
                0 <= i < count - 1 && runs_service(#[trigger] dependencies[i], name));
            if let RuntimeDependencyDescriptor::Compose { service, .. } = dependencies[count - 1] {
                assert(now == before.push(service@));
                if before.contains(name) {
                    let k = choose|k: int| 0 <= k < before.len() && before[k] == name;
                    assert(now[k] == name);
                }
                if now.contains(name) && name != service@ {
                    let k = choose|k: int| 0 <= k < now.len() && now[k] == name;
                    assert(before[k] == name);
                }
                assert(now[before.len() as int] == service@);
                assert(runs_service(dependencies[count - 1], service@));
            }
        }
    }
}

proof fn lemma_lasting(bindings: Seq<ComposeEnvironmentBinding>, count: int)
    requires
        0 <= count <= bindings.len(),
    ensures
        forall|name: Seq<char>, value: Seq<char>| #[trigger]
            lasting_entries(bindings, count).contains((name, value)) <==> exists|i: int|
                {
                    &&& 0 <= i < count
                    &&& (#[trigger] bindings[i]).name@ == name
                    &&& bindings[i].value@ == value
                    &&& forall|j: int|
                        i < j < bindings.len() ==> (#[trigger] bindings[j]).name@ != name
                },
    decreases count,
{
    let now = lasting_entries(bindings, count);
    if count > 0 {
        lemma_lasting(bindings, count - 1);
        let before = lasting_entries(bindings, count - 1);
        let last = bindings[count - 1];
        assert forall|name: Seq<char>, value: Seq<char>| #[trigger] now.contains((name, value))
            <==> exists|i: int|
            {
                &&& 0 <= i < count
                &&& (#[trigger] bindings[i]).name@ == name
                &&& bindings[i].value@ == value
                &&& forall|j: int| i < j < bindings.len() ==> (#[trigger] bindings[j]).name@ != name
            } by {
            assert(before.contains((name, value)) <==> exists|i: int|
                {
                    &&& 0 <= i < count - 1
                    &&& (#[trigger] bindings[i]).name@ == name
                    &&& bindings[i].value@ == value
                    &&& forall|j: int|
                        i < j < bindings.len() ==> (#[trigger] bindings[j]).name@ != name
                });
            if now != before {
                let entry = (last.name@, last.value@);
                assert(now == before.push(entry));
                if before.contains((name, value)) {
                    let k = choose|k: int| 0 <= k < before.len() && before[k] == (name, value);
                    assert(now[k] == (name, value));
                }
                if now.contains((name, value)) && (name, value) != entry {
                    let k = choose|k: int| 0 <= k < now.len() && now[k] == (name, value);
                    assert(before[k] == (name, value));
                }
                assert(now[before.len() as int] == entry);
            }
        }
    }
}

proof fn lemma_block(
    service: Seq<char>,
    image: Seq<char>,
    volume: Seq<char>,
    mount: Seq<char>,
    healthcheck: ComposeHealthcheck,
    bindings: Seq<ComposeEnvironmentBinding>,
)
    ensures
        exists|environment: Seq<(Seq<char>, Seq<char>)>|
            #[trigger] is_environment_of(environment, bindings) && total(
                block_fragments(service, image, volume, mount, healthcheck, bindings),
            ) == service_written(service, image, volume, mount, healthcheck, environment),
{
    let entries = lasting_entries(bindings, bindings.len() as int);
    let environment = sorted_listing::<EnvironmentEntry>(entries);
    lemma_lasting(bindings, bindings.len() as int);
    lemma_listing_exists::<EnvironmentEntry>(entries);
    assert forall|name: Seq<char>, value: Seq<char>| #[trigger]
        environment.contains((name, value)) <==> exists|i: int|
            {
                &&& 0 <= i < bindings.len()
                &&& (#[trigger] bindings[i]).name@ == name
                &&& bindings[i].value@ == value
                &&& forall|j: int| i < j < bindings.len() ==> (#[trigger] bindings[j]).name@ != name
            } by {
        assert(environment.contains((name, value)) <==> entries.contains((name, value)));
    }
    assert(is_environment_of(environment, bindings));
    let a = plain("  "@ + service + ":\n    image: "@ + image + "\n"@);
    let b = plain("    environment:\n"@);
    let c = environment_lines(environment, environment.len() as int);
    let d = plain("    volumes:\n    - "@);
    let e = quoted(volume + ":"@ + mount);
    let f = plain("\n    healthcheck:\n      test: ["@);
    let test = texts(healthcheck.test@);
    let g = quoted_list(test, test.len() as int);
    let h = plain(
        "]\n      interval: "@ + healthcheck.interval@ + "\n      timeout: "@
            + healthcheck.timeout@ + "\n      retries: "@ + decimal(healthcheck.retries as nat)
            + "\n"@,
    );
    lemma_plain("  "@ + service + ":\n    image: "@ + image + "\n"@);
    lemma_plain("    environment:\n"@);
    lemma_variables(environment, environment.len() as int);
    assert(environment.take(environment.len() as int) =~= environment);
    lemma_plain("    volumes:\n    - "@);
    lemma_plain(volume + ":"@ + mount);
    lemma_plain("\n    healthcheck:\n      test: ["@);
    lemma_quoted_strings(test, test.len() as int);
    assert(test.take(test.len() as int) =~= test);
    lemma_plain(
        "]\n      interval: "@ + healthcheck.interval@ + "\n      timeout: "@
            + healthcheck.timeout@ + "\n      retries: "@ + decimal(healthcheck.retries as nat)
            + "\n"@,
    );
    lemma_total(a, b);
    lemma_total(a + b, c);
    lemma_total(a + b + c, d);
    lemma_total(a + b + c + d, e);
    lemma_total(a + b + c + d + e, f);
    lemma_total(a + b + c + d + e + f, g);
    lemma_total(a + b + c + d + e + f + g, h);
    assert(total(block_fragments(service, image, volume, mount, healthcheck, bindings))
        =~= service_written(service, image, volume, mount, healthcheck, environment));
}

/// The name and the text of a block.
spec fn block_text() -> spec_fn(BlockModel) -> (Seq<char>, Seq<char>) {
    |block: BlockModel| (block.service, total(block.list))
}

proof fn lemma_joined(blocks: Seq<BlockModel>, count: int)
    requires
        0 <= count <= blocks.len(),
    ensures
        total(joined_blocks(blocks, count)) == lines(
            blocks.take(count).map_values(block_text()).map_values(
                |service: (Seq<char>, Seq<char>)| service.1,
            ),
        ),
    decreases count,
{
    let second = |service: (Seq<char>, Seq<char>)| service.1;
    if count > 0 {
        lemma_joined(blocks, count - 1);
        lemma_total(joined_blocks(blocks, count - 1), blocks[count - 1].list);
        let few = blocks.take(count - 1).map_values(block_text()).map_values(second);
        let more = blocks.take(count).map_values(block_text()).map_values(second);
        assert(more =~= few.push(total(blocks[count - 1].list)));
        few.lemma_flatten_push(total(blocks[count - 1].list));
    } else {
        assert(blocks.take(0).map_values(block_text()).map_values(second) =~= Seq::<
            Seq<char>,
        >::empty());
    }
}

proof fn lemma_blocks(dependencies: Seq<RuntimeDependencyDescriptor>, count: int)
    requires
        0 <= count <= dependencies.len(),
    ensures
        forall|k: int|
            0 <= k < service_blocks(dependencies, count).len() ==> made_from(
                #[trigger] service_blocks(dependencies, count)[k],
                dependencies,
                count,
            ),
        forall|i: int|
            0 <= i < count && dependencies[i] is Compose ==> made_for(
                #[trigger] dependencies[i],
                service_blocks(dependencies, count),
            ),
    decreases count,
{
    let now = service_blocks(dependencies, count);
    if count > 0 {
        lemma_blocks(dependencies, count - 1);
        let before = service_blocks(dependencies, count - 1);
        assert forall|k: int| 0 <= k < now.len() implies made_from(
            #[trigger] now[k],
            dependencies,
            count,
        ) by {
            if k < before.len() {
                assert(made_from(before[k], dependencies, count - 1));
                let i = choose|i: int|
                    0 <= i < count - 1 && is_made(before[k], #[trigger] dependencies[i]);
                assert(is_made(now[k], dependencies[i]));
            } else {
                assert(is_made(now[k], dependencies[count - 1]));
            }
        }
        assert forall|i: int| 0 <= i < count && dependencies[i] is Compose implies made_for(
            #[trigger] dependencies[i],
            now,
        ) by {
            if i < count - 1 {
                assert(made_for(dependencies[i], before));
                let k = choose|k: int|
                    0 <= k < before.len() && is_made(#[trigger] before[k], dependencies[i]);
                assert(is_made(now[k], dependencies[i]));
            } else {
                assert(is_made(now[before.len() as int], dependencies[i]));
            }
        }
    }
}

spec fn is_made(block: BlockModel, dependency: RuntimeDependencyDescriptor) -> bool {
    dependency matches RuntimeDependencyDescriptor::Compose {
        service,
        image,
        volume,
        volume_mount,
        healthcheck,
        service_environment,
        ..
    } && block == (BlockModel {
        service: service@,
        list: block_fragments(
            service@,
            image@,
            volume@,
            volume_mount@,
            *healthcheck,
            service_environment@,
        ),
        volume: volume@,
    })
}

spec fn made_from(
    block: BlockModel,
    dependencies: Seq<RuntimeDependencyDescriptor>,
    count: int,
) -> bool {
    exists|i: int| 0 <= i < count && is_made(block, #[trigger] dependencies[i])
}

spec fn made_for(dependency: RuntimeDependencyDescriptor, blocks: Seq<BlockModel>) -> bool {
    exists|k: int| 0 <= k < blocks.len() && is_made(#[trigger] blocks[k], dependency)
}

proof fn lemma_made_block(block: BlockModel, dependency: RuntimeDependencyDescriptor)
    requires
        is_made(block, dependency),
    ensures
        is_block_of((block.service, total(block.list)), dependency),
        dependency matches RuntimeDependencyDescriptor::Compose { volume, .. } && volume@
            == block.volume,
{
    if let RuntimeDependencyDescriptor::Compose {
        service,
        image,
        volume,
        volume_mount,
        healthcheck,
        service_environment,
        ..
    } = dependency {
        lemma_block(service@, image@, volume@, volume_mount@, *healthcheck, service_environment@);
    }
}

// The environment.
proof fn lemma_local_entries(
    bindings: Seq<ComposeEnvironmentBinding>,
    migrates: bool,
    count: int,
)
    requires
        0 <= count <= bindings.len(),
    ensures
        forall|name: Seq<char>, value: Seq<char>| #[trigger]
            local_entries(bindings, migrates, count).contains((name, value)) <==> (name
                == "OMNIUS__MIGRATIONS__RUN_ON_STARTUP"@ ==> migrates) && exists|i: int|
                0 <= i < count && (#[trigger] bindings[i]).name@ == name && bindings[i].value@
                    == value,
    decreases count,
{
    let now = local_entries(bindings, migrates, count);
    if count > 0 {
        lemma_local_entries(bindings, migrates, count - 1);
        let before = local_entries(bindings, migrates, count - 1);
        let last = bindings[count - 1];
        let entry = (last.name@, last.value@);
        assert forall|name: Seq<char>, value: Seq<char>| #[trigger] now.contains((name, value))
            <==> (name == "OMNIUS__MIGRATIONS__RUN_ON_STARTUP"@ ==> migrates) && exists|i: int|
            0 <= i < count && (#[trigger] bindings[i]).name@ == name && bindings[i].value@
                == value by {
            assert(before.contains((name, value)) <==> (name
                == "OMNIUS__MIGRATIONS__RUN_ON_STARTUP"@ ==> migrates) && exists|i: int|
                0 <= i < count - 1 && (#[trigger] bindings[i]).name@ == name && bindings[i].value@
                    == value);
            if now != before {
                assert(now == before.push(entry));
                if before.contains((name, value)) {
                    let k = choose|k: int| 0 <= k < before.len() && before[k] == (name, value);
                    assert(now[k] == (name, value));
                }
                if now.contains((name, value)) && (name, value) != entry {
                    let k = choose|k: int| 0 <= k < now.len() && now[k] == (name, value);
                    assert(before[k] == (name, value));
                }
                assert(now[before.len() as int] == entry);
            }
        }
    }
}

proof fn lemma_given(
    dependency: RuntimeDependencyDescriptor,
    migrates: bool,
    name: Seq<char>,
    value: Seq<char>,
)
    ensures
        dependency_entries(dependency, migrates).contains((name, value)) <==> gives(
            dependency,
            migrates,
            name,
            value,
        ),
{
    match dependency {
        RuntimeDependencyDescriptor::Compose { application_environment, .. } => {
            lemma_local_entries(
                application_environment@,
                migrates,
                application_environment@.len() as int,
            );
        },
        RuntimeDependencyDescriptor::External { bindings, .. } => {
            let entries = external_entries(bindings@);
            if entries.contains((name, value)) {
                let k = choose|k: int| 0 <= k < entries.len() && entries[k] == (name, value);
                assert(bindings@[k].name@ == name);
            }
            if gives(dependency, migrates, name, value) {
                let k = choose|i: int|
                    0 <= i < bindings@.len() && (#[trigger] bindings@[i]).name@ == name && value
                        == "${"@ + name + ":?"@ + bindings@[i].message@ + "}"@;
                assert(entries[k] == (name, value));
            }
        },
    }
}

proof fn lemma_application_entries(
    dependencies: Seq<RuntimeDependencyDescriptor>,
    migrates: bool,
    count: int,
    name: Seq<char>,
    value: Seq<char>,
)
    requires
        0 <= count <= dependencies.len(),
    ensures
        application_entries(dependencies, migrates, count).contains((name, value)) <==> (name
            == "OMNIUS__SERVER__LISTEN_ADDRESS"@ && value == "0.0.0.0:3000"@) || exists|i: int|
            0 <= i < count && gives(#[trigger] dependencies[i], migrates, name, value),
    decreases count,
{
    let now = application_entries(dependencies, migrates, count);
    if count > 0 {
        lemma_application_entries(dependencies, migrates, count - 1, name, value);
        lemma_given(dependencies[count - 1], migrates, name, value);
        let before = application_entries(dependencies, migrates, count - 1);
        let more = dependency_entries(dependencies[count - 1], migrates);
        assert(now == before + more);
        if now.contains((name, value)) {
            let k = choose|k: int| 0 <= k < now.len() && now[k] == (name, value);
            if k < before.len() {
                assert(before[k] == (name, value));
            } else {
                assert(more[k - before.len()] == (name, value));
            }
        }
        if before.contains((name, value)) {
            let k = choose|k: int| 0 <= k < before.len() && before[k] == (name, value);
            assert(now[k] == (name, value));
        }
        if more.contains((name, value)) {
            let k = choose|k: int| 0 <= k < more.len() && more[k] == (name, value);
            assert(now[before.len() + k] == (name, value));
        }
    } else {
        assert(now[0] == ("OMNIUS__SERVER__LISTEN_ADDRESS"@, "0.0.0.0:3000"@));
    }
}

proof fn lemma_consistent(entries: Seq<EntryModel>, at: int)
    requires
        0 <= at <= entries.len(),
        contradiction(entries, at) is None,
    ensures
        forall|i: int, j: int|
            0 <= i < j < entries.len() && at <= j && (#[trigger] entries[i]).0 == (
            #[trigger] entries[j]).0 ==> entries[i].1 == entries[j].1,
    decreases entries.len() - at,
{
    if at < entries.len() {
        lemma_consistent(entries, at + 1);
        assert(!contradicts(entries, at));
    }
}

proof fn lemma_migration_environment(environment: Seq<EntryModel>, count: int)
    requires
        0 <= count <= environment.len(),
    ensures
        forall|entry: EntryModel| #[trigger]
            migration_environment(environment, count).contains(entry) <==> environment.take(
                count,
            ).contains(entry) && entry.0 != "OMNIUS__SERVER__LISTEN_ADDRESS"@,
    decreases count,
{
    let now = migration_environment(environment, count);
    if count > 0 {
        lemma_migration_environment(environment, count - 1);
        let before = migration_environment(environment, count - 1);
        let few = environment.take(count - 1);
        let more = environment.take(count);
        let last = environment[count - 1];
        assert forall|entry: EntryModel| #[trigger] now.contains(entry) <==> more.contains(entry)
            && entry.0 != "OMNIUS__SERVER__LISTEN_ADDRESS"@ by {
            assert(before.contains(entry) <==> few.contains(entry) && entry.0
                != "OMNIUS__SERVER__LISTEN_ADDRESS"@);
            if more.contains(entry) {
                let k = choose|k: int| 0 <= k < more.len() && more[k] == entry;
                if k < few.len() {
                    assert(few[k] == entry);
                }
            }
            if few.contains(entry) {
                let k = choose|k: int| 0 <= k < few.len() && few[k] == entry;
                assert(more[k] == entry);
            }
            assert(more[count - 1] == last);
            if now != before {
                if before.contains(entry) {
                    let k = choose|k: int| 0 <= k < before.len() && before[k] == entry;
                    assert(now[k] == entry);
                }
                if now.contains(entry) && entry != last {
                    let k = choose|k: int| 0 <= k < now.len() && now[k] == entry;
                    assert(before[k] == entry);
                }
                assert(now[before.len() as int] == last);
            }
        }
    } else {
        assert(environment.take(0) =~= Seq::<EntryModel>::empty());
    }
}

proof fn lemma_owner(
    dependencies: Seq<RuntimeDependencyDescriptor>,
    selected: Seq<Seq<char>>,
    at: int,
)
    requires
        0 <= at <= dependencies.len(),
    ensures
        match migration_owner(dependencies, selected, at) {
            None => forall|i: int|
                at <= i < dependencies.len() ==> !is_migrated(#[trigger] dependencies[i], selected),
            Some(owner) => exists|i: int| at <= i < dependencies.len() && is_first_migrated(
                dependencies,
                selected,
                at,
                i,
            ) && #[trigger] owned_migration(dependencies[i], selected) == Some(owner),
        },
    decreases dependencies.len() - at,
{
    if at < dependencies.len() {
        if owned_migration(dependencies[at], selected) is Some {
            assert(is_first_migrated(dependencies, selected, at, at));
            assert(owned_migration(dependencies[at], selected) == migration_owner(
                dependencies,
                selected,
                at,
            ));
        } else {
            lemma_owner(dependencies, selected, at + 1);
            assert(!is_migrated(dependencies[at], selected));
            if let Some(owner) = migration_owner(dependencies, selected, at + 1) {
                let i = choose|i: int| at + 1 <= i < dependencies.len() && is_first_migrated(
                    dependencies,
                    selected,
                    at + 1,
                    i,
                ) && #[trigger] owned_migration(dependencies[i], selected) == Some(owner);
                assert(is_first_migrated(dependencies, selected, at, i));
                assert(owned_migration(dependencies[i], selected) == Some(owner));
            }
        }
    }
}

/// Whether the dependency at `at` is the first one, from `from` on, whose migration is supplied.
pub open spec fn is_first_migrated(
    dependencies: Seq<RuntimeDependencyDescriptor>,
    selected: Seq<Seq<char>>,
    from: int,
    at: int,
) -> bool {
    &&& from <= at < dependencies.len()
    &&& is_migrated(dependencies[at], selected)
    &&& forall|j: int| from <= j < at ==> !is_migrated(#[trigger] dependencies[j], selected)
}

// The law.
/// Whether a runtime dependency that a selected module needs has a property.
pub open spec fn some_needed(
    catalog: ModuleCatalog,
    selected: Seq<Seq<char>>,
    property: spec_fn(RuntimeDependencyDescriptor) -> bool,
) -> bool {
    exists|i: int|
        0 <= i < catalog.runtime_dependencies@.len() && needs(
            catalog,
            selected,
            #[trigger] catalog.runtime_dependencies@[i],
        ) && property(catalog.runtime_dependencies@[i])
}

proof fn lemma_some_needed(
    catalog: ModuleCatalog,
    selected: Seq<Seq<char>>,
    property: spec_fn(RuntimeDependencyDescriptor) -> bool,
)
    requires
        dependencies_of(catalog, selected) is Ok,
    ensures
        some_needed(catalog, selected, property) <==> exists|i: int|
            0 <= i < dependencies_of(catalog, selected)->Ok_0.len() && property(
                #[trigger] dependencies_of(catalog, selected)->Ok_0[i],
            ),
{
    let list = dependencies_of(catalog, selected)->Ok_0;
    let all = catalog.runtime_dependencies@;
    lemma_needed(catalog, selected, all.len() as int);
    if some_needed(catalog, selected, property) {
        let i = choose|i: int|
            0 <= i < all.len() && needs(catalog, selected, #[trigger] all[i]) && property(all[i]);
        assert(list.contains(all[i]));
        let k = choose|k: int| 0 <= k < list.len() && list[k] == all[i];
        assert(property(list[k]));
    }
    if exists|i: int| 0 <= i < list.len() && property(#[trigger] list[i]) {
        let k = choose|i: int| 0 <= i < list.len() && property(#[trigger] list[i]);
        assert(list.contains(list[k]));
        let i = choose|i: int|
            0 <= i < all.len() && (#[trigger] all[i]) == list[k] && needs(
                catalog,
                selected,
                list[k],
            );
        assert(needs(catalog, selected, all[i]) && property(all[i]));
    }
}

/// The file of the parts that are rendered.
spec fn model_of(
    dependencies: Seq<RuntimeDependencyDescriptor>,
    selected: Seq<Seq<char>>,
    retained: Seq<Seq<char>>,
) -> ComposeModel {
    let owner = migration_owner(dependencies, selected, 0);
    let environment = application_environment(dependencies, owner is Some)->Ok_0;
    let services = local_services(dependencies, dependencies.len() as int);
    let blocks = service_blocks(dependencies, dependencies.len() as int);
    let ordered = arranged(blocks, block_rank(), blocks.len() as int);
    ComposeModel {
        environment,
        waits: arranged(services, text_rank(), services.len() as int),
        migration: match owner {
            Some((service, command)) => Some(
                (service, command, migration_environment(environment, environment.len() as int)),
            ),
            None => None,
        },
        services: ordered.map_values(block_text()),
        volumes: sorted_listing::<String>(retained + block_volumes(ordered)),
    }
}

proof fn lemma_application_text(
    dependencies: Seq<RuntimeDependencyDescriptor>,
    selected: Seq<Seq<char>>,
    retained: Seq<Seq<char>>,
)
    requires
        application_environment(
            dependencies,
            migration_owner(dependencies, selected, 0) is Some,
        ) is Ok,
    ensures
        ({
            let file = model_of(dependencies, selected, retained);
            total(
                application_fragments(dependencies, file.environment, file.migration is Some),
            ) == application_written(file)
        }),
{
    let file = model_of(dependencies, selected, retained);
    let environment = file.environment;
    let services = local_services(dependencies, dependencies.len() as int);
    lemma_arranged_members(services, text_rank());
    lemma_waiting_lines(file.waits, services.len() as int);
    assert(file.waits.take(services.len() as int) =~= file.waits);
    reveal_strlit("");
    assert(""@ =~= Seq::<char>::empty());
    assert(waiting_text(dependencies, file.migration is Some) =~= waits_written(file));
    let a = plain("services:\n  app:\n"@);
    let build = "    build:\n      context: ..\n      dockerfile: ops/Dockerfile\n"@;
    let b = plain(build);
    let c = plain("    environment:\n"@);
    let d = environment_lines(environment, environment.len() as int);
    let e = plain(waits_written(file));
    let end = "    ports:\n    - \"127.0.0.1:3000:3000\"\n    read_only: true\n    tmpfs:\n    - /tmp:size=16m,mode=1777\n    security_opt:\n    - no-new-privileges:true\n"@;
    let f = plain(end);
    lemma_plain("services:\n  app:\n"@);
    lemma_plain(build);
    lemma_plain("    environment:\n"@);
    lemma_variables(environment, environment.len() as int);
    assert(environment.take(environment.len() as int) =~= environment);
    lemma_plain(waits_written(file));
    lemma_plain(end);
    lemma_total(a, b);
    lemma_total(a + b, c);
    lemma_total(a + b + c, d);
    lemma_total(a + b + c + d, e);
    lemma_total(a + b + c + d + e, f);
}

proof fn lemma_migration_text(
    dependencies: Seq<RuntimeDependencyDescriptor>,
    selected: Seq<Seq<char>>,
    retained: Seq<Seq<char>>,
)
    ensures
        ({
            let file = model_of(dependencies, selected, retained);
            let owner = migration_owner(dependencies, selected, 0);
            total(migration_fragments(owner, file.environment)) == migration_written(file)
        }),
{
    let file = model_of(dependencies, selected, retained);
    if let Some((service, command)) = migration_owner(dependencies, selected, 0) {
        let kept = migration_environment(file.environment, file.environment.len() as int);
        let build = "    build:\n      context: ..\n      dockerfile: ops/Dockerfile\n"@;
        let a = plain("  migrate:\n"@);
        let b = plain(build);
        let c = plain("    command: ["@);
        let d = quoted_list(command, command.len() as int);
        let e = plain("]\n    environment:\n"@);
        let f = environment_lines(kept, kept.len() as int);
        let wait = "    depends_on:\n      "@ + service
            + ":\n        condition: service_healthy\n"@;
        let g = plain(wait);
        let end = "    restart: \"no\"\n    read_only: true\n    tmpfs:\n    - /tmp:size=16m,mode=1777\n    security_opt:\n    - no-new-privileges:true\n"@;
        let h = plain(end);
        lemma_plain("  migrate:\n"@);
        lemma_plain(build);
        lemma_plain("    command: ["@);
        lemma_quoted_strings(command, command.len() as int);
        assert(command.take(command.len() as int) =~= command);
        lemma_plain("]\n    environment:\n"@);
        lemma_variables(kept, kept.len() as int);
        assert(kept.take(kept.len() as int) =~= kept);
        lemma_plain(wait);
        lemma_plain(end);
        lemma_total(a, b);
        lemma_total(a + b, c);
        lemma_total(a + b + c, d);
        lemma_total(a + b + c + d, e);
        lemma_total(a + b + c + d + e, f);
        lemma_total(a + b + c + d + e + f, g);
        lemma_total(a + b + c + d + e + f + g, h);
        reveal_strlit("    depends_on:\n      ");
        reveal_strlit("    depends_on:\n");
        reveal_strlit("      ");
        assert("    depends_on:\n      "@ =~= "    depends_on:\n"@ + "      "@);
        assert(wait =~= "    depends_on:\n"@ + wait_line(service));
    }
}

proof fn lemma_services_text(
    dependencies: Seq<RuntimeDependencyDescriptor>,
    selected: Seq<Seq<char>>,
    retained: Seq<Seq<char>>,
)
    ensures
        ({
            let file = model_of(dependencies, selected, retained);
            total(dependency_fragments(dependencies, retained)) == lines(
                file.services.map_values(|service: (Seq<char>, Seq<char>)| service.1),
            ) + volumes_written(file)
        }),
{
    let file = model_of(dependencies, selected, retained);
    let blocks = service_blocks(dependencies, dependencies.len() as int);
    let ordered = arranged(blocks, block_rank(), blocks.len() as int);
    lemma_joined(ordered, ordered.len() as int);
    assert(ordered.take(ordered.len() as int) =~= ordered);
    lemma_volume_lines(file.volumes, file.volumes.len() as int);
    assert(file.volumes.take(file.volumes.len() as int) =~= file.volumes);
    lemma_plain(volumes_text(file.volumes));
    lemma_total(
        joined_blocks(ordered, ordered.len() as int),
        plain(volumes_text(file.volumes)),
    );
    assert(volumes_text(file.volumes) =~= volumes_written(file));
}

proof fn lemma_file_text(
    dependencies: Seq<RuntimeDependencyDescriptor>,
    selected: Seq<Seq<char>>,
    retained: Seq<Seq<char>>,
)
    requires
        compose_fragments(dependencies, selected, retained) is Ok,
    ensures
        total(compose_fragments(dependencies, selected, retained)->Ok_0) == file_written(
            model_of(dependencies, selected, retained),
        ),
{
    let file = model_of(dependencies, selected, retained);
    let owner = migration_owner(dependencies, selected, 0);
    let a = application_fragments(dependencies, file.environment, owner is Some);
    let b = migration_fragments(owner, file.environment);
    let c = dependency_fragments(dependencies, retained);
    lemma_application_text(dependencies, selected, retained);
    lemma_migration_text(dependencies, selected, retained);
    lemma_services_text(dependencies, selected, retained);
    lemma_total(a, b);
    lemma_total(a + b, c);
    assert(file_written(file) =~= total(a) + total(b) + total(c));
}

proof fn lemma_environment_members(
    dependencies: Seq<RuntimeDependencyDescriptor>,
    migrates: bool,
)
    requires
        application_environment(dependencies, migrates) is Ok,
    ensures
        ({
            let environment = application_environment(dependencies, migrates)->Ok_0;
            &&& ascending::<EnvironmentEntry>(environment)
            &&& forall|name: Seq<char>, value: Seq<char>| #[trigger]
                environment.contains((name, value)) <==> (name == "OMNIUS__SERVER__LISTEN_ADDRESS"@
                    && value == "0.0.0.0:3000"@) || exists|i: int|
                    0 <= i < dependencies.len() && gives(
                        #[trigger] dependencies[i],
                        migrates,
                        name,
                        value,
                    )
            &&& forall|name: Seq<char>, one: Seq<char>, other: Seq<char>|
                #[trigger] environment.contains((name, one)) && #[trigger] environment.contains(
                    (name, other),
                ) ==> one == other
        }),
{
    let environment = application_environment(dependencies, migrates)->Ok_0;
    let entries = application_entries(dependencies, migrates, dependencies.len() as int);
    lemma_listing_exists::<EnvironmentEntry>(entries);
    lemma_consistent(entries, 0);
    assert forall|name: Seq<char>, value: Seq<char>| #[trigger] environment.contains((name, value))
        <==> (name == "OMNIUS__SERVER__LISTEN_ADDRESS"@ && value == "0.0.0.0:3000"@) || exists|
        i: int,
    |
        0 <= i < dependencies.len() && gives(#[trigger] dependencies[i], migrates, name, value) by {
        assert(environment.contains((name, value)) <==> entries.contains((name, value)));
        lemma_application_entries(
            dependencies,
            migrates,
            dependencies.len() as int,
            name,
            value,
        );
    }
    assert forall|name: Seq<char>, one: Seq<char>, other: Seq<char>|
        #[trigger] environment.contains((name, one)) && #[trigger] environment.contains(
            (name, other),
        ) implies one == other by {
        assert(entries.contains((name, one)) && entries.contains((name, other)));
        let i = choose|i: int| 0 <= i < entries.len() && entries[i] == (name, one);
        let j = choose|j: int| 0 <= j < entries.len() && entries[j] == (name, other);
        if i < j {
            assert(entries[i].0 == entries[j].0);
        } else if j < i {
            assert(entries[j].0 == entries[i].0);
        }
    }
}

/// The Compose file of a selection. The application waits for exactly those services that a needed
/// dependency runs, each until it is healthy, and for nothing where there is none; whether or not
/// there is a migration. There is a migration exactly where a selected module supplies that of a
/// needed service; the application then waits for it too, and it has the same environment but for
/// the address. Every needed service has its block, and there is no other one. The volumes are those
/// of the needed services and those that are retained.
pub proof fn lemma_compose_file(
    catalog: ModuleCatalog,
    selected: Seq<Seq<char>>,
    retained: Seq<Seq<char>>,
) -> (file: ComposeModel)
    ensures
        compose_file(catalog, selected, retained) matches Ok(text) ==> {
            let migrates = some_needed(
                catalog,
                selected,
                |dependency: RuntimeDependencyDescriptor| is_migrated(dependency, selected),
            );
            &&& text == file_written(file)
            &&& forall|name: Seq<char>| #[trigger]
                file.waits.contains(name) <==> some_needed(
                    catalog,
                    selected,
                    |dependency: RuntimeDependencyDescriptor| runs_service(dependency, name),
                )
            &&& file.waits.len() > 0 <==> some_needed(
                catalog,
                selected,
                |dependency: RuntimeDependencyDescriptor| dependency is Compose,
            )
            &&& file.migration is Some <==> migrates
            &&& ascending::<EnvironmentEntry>(file.environment)
            &&& forall|name: Seq<char>, value: Seq<char>| #[trigger]
                file.environment.contains((name, value)) <==> (name
                    == "OMNIUS__SERVER__LISTEN_ADDRESS"@ && value == "0.0.0.0:3000"@)
                    || some_needed(
                    catalog,
                    selected,
                    |dependency: RuntimeDependencyDescriptor|
                        gives(dependency, migrates, name, value),
                )
            &&& forall|name: Seq<char>, one: Seq<char>, other: Seq<char>|
                #[trigger] file.environment.contains((name, one))
                    && #[trigger] file.environment.contains((name, other)) ==> one == other
            &&& file.migration matches Some((service, command, environment)) ==> {
                &&& some_needed(
                    catalog,
                    selected,
                    |dependency: RuntimeDependencyDescriptor|
                        is_migrated(dependency, selected) && (dependency matches
                            RuntimeDependencyDescriptor::Compose {
                            service: own,
                            migration: Some(migration),
                            ..
                        } && own@ == service && texts(migration.command@) == command),
                )
                &&& forall|entry: (Seq<char>, Seq<char>)| #[trigger]
                    environment.contains(entry) <==> file.environment.contains(entry) && entry.0
                        != "OMNIUS__SERVER__LISTEN_ADDRESS"@
            }
            &&& forall|k: int|
                0 <= k < file.services.len() ==> some_needed(
                    catalog,
                    selected,
                    |dependency: RuntimeDependencyDescriptor|
                        is_block_of(#[trigger] file.services[k], dependency),
                )
            &&& forall|i: int|
                0 <= i < catalog.runtime_dependencies@.len() && needs(
                    catalog,
                    selected,
                    #[trigger] catalog.runtime_dependencies@[i],
                ) && catalog.runtime_dependencies@[i] is Compose ==> exists|k: int|
                    0 <= k < file.services.len() && is_block_of(
                        #[trigger] file.services[k],
                        catalog.runtime_dependencies@[i],
                    )
            &&& ascending::<String>(file.volumes)
            &&& forall|volume: Seq<char>| #[trigger]
                file.volumes.contains(volume) <==> retained.contains(volume) || some_needed(
                    catalog,
                    selected,
                    |dependency: RuntimeDependencyDescriptor|
                        dependency matches RuntimeDependencyDescriptor::Compose { volume: own, .. }
                            && own@ == volume,
                )
        },
{
    let dependencies = dependencies_of(catalog, selected)->Ok_0;
    let file = model_of(dependencies, selected, retained);
    if compose_file(catalog, selected, retained) is Ok {
        lemma_file_text(dependencies, selected, retained);
        lemma_waits(catalog, selected, retained);
        lemma_migrates(catalog, selected, retained);
        lemma_environment(catalog, selected, retained);
        lemma_service_list(catalog, selected, retained);
        lemma_volume_list(catalog, selected, retained);
    }
    file
}

proof fn lemma_waits(catalog: ModuleCatalog, selected: Seq<Seq<char>>, retained: Seq<Seq<char>>)
    requires
        dependencies_of(catalog, selected) is Ok,
    ensures
        ({
            let file = model_of(dependencies_of(catalog, selected)->Ok_0, selected, retained);
            &&& forall|name: Seq<char>| #[trigger]
                file.waits.contains(name) <==> some_needed(
                    catalog,
                    selected,
                    |dependency: RuntimeDependencyDescriptor| runs_service(dependency, name),
                )
            &&& file.waits.len() > 0 <==> some_needed(
                catalog,
                selected,
                |dependency: RuntimeDependencyDescriptor| dependency is Compose,
            )
        }),
{
    let dependencies = dependencies_of(catalog, selected)->Ok_0;
    let file = model_of(dependencies, selected, retained);
    let services = local_services(dependencies, dependencies.len() as int);
    lemma_arranged_members(services, text_rank());
    lemma_services(dependencies, dependencies.len() as int);
    assert forall|name: Seq<char>| #[trigger] file.waits.contains(name) <==> some_needed(
        catalog,
        selected,
        |dependency: RuntimeDependencyDescriptor| runs_service(dependency, name),
    ) by {
        let property = |dependency: RuntimeDependencyDescriptor| runs_service(dependency, name);
        lemma_some_needed(catalog, selected, property);
        assert(file.waits.contains(name) <==> services.contains(name));
        if services.contains(name) {
            let i = choose|i: int|
                0 <= i < dependencies.len() && runs_service(#[trigger] dependencies[i], name);
            assert(property(dependencies[i]));
        }
    }
    let local = |dependency: RuntimeDependencyDescriptor| dependency is Compose;
    lemma_some_needed(catalog, selected, local);
    if file.waits.len() > 0 {
        let name = services[0];
        assert(services.contains(name));
        let i = choose|i: int|
            0 <= i < dependencies.len() && runs_service(#[trigger] dependencies[i], name);
        assert(local(dependencies[i]));
    }
    if some_needed(catalog, selected, local) {
        let i = choose|i: int| 0 <= i < dependencies.len() && local(#[trigger] dependencies[i]);
        if let RuntimeDependencyDescriptor::Compose { service, .. } = dependencies[i] {
            assert(runs_service(dependencies[i], service@));
            assert(services.contains(service@));
        }
    }
}

proof fn lemma_migrates(catalog: ModuleCatalog, selected: Seq<Seq<char>>, retained: Seq<Seq<char>>)
    requires
        dependencies_of(catalog, selected) is Ok,
    ensures
        ({
            let file = model_of(dependencies_of(catalog, selected)->Ok_0, selected, retained);
            &&& file.migration is Some <==> some_needed(
                catalog,
                selected,
                |dependency: RuntimeDependencyDescriptor| is_migrated(dependency, selected),
            )
            &&& file.migration matches Some((service, command, environment)) ==> {
                &&& some_needed(
                    catalog,
                    selected,
                    |dependency: RuntimeDependencyDescriptor|
                        is_migrated(dependency, selected) && (dependency matches
                            RuntimeDependencyDescriptor::Compose {
                            service: own,
                            migration: Some(migration),
                            ..
                        } && own@ == service && texts(migration.command@) == command),
                )
                &&& forall|entry: (Seq<char>, Seq<char>)| #[trigger]
                    environment.contains(entry) <==> file.environment.contains(entry) && entry.0
                        != "OMNIUS__SERVER__LISTEN_ADDRESS"@
            }
        }),
{
    let dependencies = dependencies_of(catalog, selected)->Ok_0;
    let file = model_of(dependencies, selected, retained);
    lemma_owner(dependencies, selected, 0);
    let migrated = |dependency: RuntimeDependencyDescriptor| is_migrated(dependency, selected);
    lemma_some_needed(catalog, selected, migrated);
    lemma_migration_environment(file.environment, file.environment.len() as int);
    assert(file.environment.take(file.environment.len() as int) =~= file.environment);
    if let Some((service, command)) = migration_owner(dependencies, selected, 0) {
        let owned = |dependency: RuntimeDependencyDescriptor|
            is_migrated(dependency, selected) && (dependency matches
                RuntimeDependencyDescriptor::Compose {
                service: own,
                migration: Some(migration),
                ..
            } && own@ == service && texts(migration.command@) == command);
        lemma_some_needed(catalog, selected, owned);
        let i = choose|i: int| 0 <= i < dependencies.len() && is_first_migrated(
            dependencies,
            selected,
            0,
            i,
        ) && #[trigger] owned_migration(dependencies[i], selected) == Some((service, command));
        assert(migrated(dependencies[i]));
        assert(owned(dependencies[i]));
    } else {
        assert forall|i: int| 0 <= i < dependencies.len() implies !migrated(
            #[trigger] dependencies[i],
        ) by {
            assert(!is_migrated(dependencies[i], selected));
        }
    }
}

proof fn lemma_environment(
    catalog: ModuleCatalog,
    selected: Seq<Seq<char>>,
    retained: Seq<Seq<char>>,
)
    requires
        compose_file(catalog, selected, retained) is Ok,
    ensures
        ({
            let file = model_of(dependencies_of(catalog, selected)->Ok_0, selected, retained);
            let migrates = file.migration is Some;
            &&& ascending::<EnvironmentEntry>(file.environment)
            &&& forall|name: Seq<char>, value: Seq<char>| #[trigger]
                file.environment.contains((name, value)) <==> (name
                    == "OMNIUS__SERVER__LISTEN_ADDRESS"@ && value == "0.0.0.0:3000"@)
                    || some_needed(
                    catalog,
                    selected,
                    |dependency: RuntimeDependencyDescriptor|
                        gives(dependency, migrates, name, value),
                )
            &&& forall|name: Seq<char>, one: Seq<char>, other: Seq<char>|
                #[trigger] file.environment.contains((name, one))
                    && #[trigger] file.environment.contains((name, other)) ==> one == other
        }),
{
    let dependencies = dependencies_of(catalog, selected)->Ok_0;
    let file = model_of(dependencies, selected, retained);
    let migrates = file.migration is Some;
    lemma_environment_members(dependencies, migrates);
    assert forall|name: Seq<char>, value: Seq<char>| #[trigger]
        file.environment.contains((name, value)) <==> (name == "OMNIUS__SERVER__LISTEN_ADDRESS"@
            && value == "0.0.0.0:3000"@) || some_needed(
            catalog,
            selected,
            |dependency: RuntimeDependencyDescriptor| gives(dependency, migrates, name, value),
        ) by {
        let property = |dependency: RuntimeDependencyDescriptor|
            gives(dependency, migrates, name, value);
        lemma_some_needed(catalog, selected, property);
        if exists|i: int|
            0 <= i < dependencies.len() && gives(
                #[trigger] dependencies[i],
                migrates,
                name,
                value,
            ) {
            let i = choose|i: int|
                0 <= i < dependencies.len() && gives(
                    #[trigger] dependencies[i],
                    migrates,
                    name,
                    value,
                );
            assert(property(dependencies[i]));
        }
    }
}

proof fn lemma_service_list(
    catalog: ModuleCatalog,
    selected: Seq<Seq<char>>,
    retained: Seq<Seq<char>>,
)
    requires
        dependencies_of(catalog, selected) is Ok,
    ensures
        ({
            let file = model_of(dependencies_of(catalog, selected)->Ok_0, selected, retained);
            &&& forall|k: int|
                0 <= k < file.services.len() ==> some_needed(
                    catalog,
                    selected,
                    |dependency: RuntimeDependencyDescriptor|
                        is_block_of(#[trigger] file.services[k], dependency),
                )
            &&& forall|i: int|
                0 <= i < catalog.runtime_dependencies@.len() && needs(
                    catalog,
                    selected,
                    #[trigger] catalog.runtime_dependencies@[i],
                ) && catalog.runtime_dependencies@[i] is Compose ==> exists|k: int|
                    0 <= k < file.services.len() && is_block_of(
                        #[trigger] file.services[k],
                        catalog.runtime_dependencies@[i],
                    )
        }),
{
    let dependencies = dependencies_of(catalog, selected)->Ok_0;
    let file = model_of(dependencies, selected, retained);
    let blocks = service_blocks(dependencies, dependencies.len() as int);
    let ordered = arranged(blocks, block_rank(), blocks.len() as int);
    lemma_blocks(dependencies, dependencies.len() as int);
    lemma_arranged_members(blocks, block_rank());
    assert forall|k: int| 0 <= k < file.services.len() implies some_needed(
        catalog,
        selected,
        |dependency: RuntimeDependencyDescriptor| is_block_of(#[trigger] file.services[k], dependency),
    ) by {
        let text = file.services[k];
        let property = |dependency: RuntimeDependencyDescriptor| is_block_of(text, dependency);
        lemma_some_needed(catalog, selected, property);
        assert(ordered.contains(ordered[k]));
        assert(blocks.contains(ordered[k]));
        let m = choose|m: int| 0 <= m < blocks.len() && blocks[m] == ordered[k];
        assert(made_from(blocks[m], dependencies, dependencies.len() as int));
        let i = choose|i: int|
            0 <= i < dependencies.len() && is_made(blocks[m], #[trigger] dependencies[i]);
        lemma_made_block(blocks[m], dependencies[i]);
        assert(property(dependencies[i]));
    }
    let all = catalog.runtime_dependencies@;
    assert forall|i: int|
        0 <= i < all.len() && needs(catalog, selected, #[trigger] all[i]) && all[i] is Compose implies exists|
        k: int,
    |
        0 <= k < file.services.len() && is_block_of(#[trigger] file.services[k], all[i]) by {
        let item = all[i];
        let property = |dependency: RuntimeDependencyDescriptor| dependency == item;
        lemma_some_needed(catalog, selected, property);
        assert(property(all[i]));
        assert(some_needed(catalog, selected, property));
        let d = choose|d: int| 0 <= d < dependencies.len() && property(#[trigger] dependencies[d]);
        assert(made_for(dependencies[d], blocks));
        let m = choose|m: int| 0 <= m < blocks.len() && is_made(#[trigger] blocks[m], item);
        assert(blocks.contains(blocks[m]));
        assert(ordered.contains(blocks[m]));
        let k = choose|k: int| 0 <= k < ordered.len() && ordered[k] == blocks[m];
        lemma_made_block(blocks[m], item);
        assert(file.services[k] == (blocks[m].service, total(blocks[m].list)));
    }
}

proof fn lemma_volume_list(
    catalog: ModuleCatalog,
    selected: Seq<Seq<char>>,
    retained: Seq<Seq<char>>,
)
    requires
        dependencies_of(catalog, selected) is Ok,
    ensures
        ({
            let file = model_of(dependencies_of(catalog, selected)->Ok_0, selected, retained);
            &&& ascending::<String>(file.volumes)
            &&& forall|volume: Seq<char>| #[trigger]
                file.volumes.contains(volume) <==> retained.contains(volume) || some_needed(
                    catalog,
                    selected,
                    |dependency: RuntimeDependencyDescriptor|
                        dependency matches RuntimeDependencyDescriptor::Compose { volume: own, .. }
                            && own@ == volume,
                )
        }),
{
    let dependencies = dependencies_of(catalog, selected)->Ok_0;
    let file = model_of(dependencies, selected, retained);
    let blocks = service_blocks(dependencies, dependencies.len() as int);
    let ordered = arranged(blocks, block_rank(), blocks.len() as int);
    let own_volumes = block_volumes(ordered);
    let all = retained + own_volumes;
    lemma_blocks(dependencies, dependencies.len() as int);
    lemma_arranged_members(blocks, block_rank());
    lemma_listing_exists::<String>(all);
    assert forall|volume: Seq<char>| #[trigger] file.volumes.contains(volume)
        <==> retained.contains(volume) || some_needed(
        catalog,
        selected,
        |dependency: RuntimeDependencyDescriptor|
            dependency matches RuntimeDependencyDescriptor::Compose { volume: own, .. } && own@
                == volume,
    ) by {
        let property = |dependency: RuntimeDependencyDescriptor|
            dependency matches RuntimeDependencyDescriptor::Compose { volume: own, .. } && own@
                == volume;
        lemma_some_needed(catalog, selected, property);
        assert(file.volumes.contains(volume) <==> all.contains(volume));
        if all.contains(volume) {
            let k = choose|k: int| 0 <= k < all.len() && all[k] == volume;
            if k < retained.len() {
                assert(retained[k] == volume);
            } else {
                let block = ordered[k - retained.len()];
                assert(own_volumes[k - retained.len()] == volume);
                assert(ordered.contains(block));
                assert(blocks.contains(block));
                let m = choose|m: int| 0 <= m < blocks.len() && blocks[m] == block;
                assert(made_from(blocks[m], dependencies, dependencies.len() as int));
                let i = choose|i: int|
                    0 <= i < dependencies.len() && is_made(block, #[trigger] dependencies[i]);
                lemma_made_block(block, dependencies[i]);
                assert(property(dependencies[i]));
            }
        }
        if retained.contains(volume) {
            let k = choose|k: int| 0 <= k < retained.len() && retained[k] == volume;
            assert(all[k] == volume);
        }
        if some_needed(catalog, selected, property) {
            let d = choose|d: int|
                0 <= d < dependencies.len() && property(#[trigger] dependencies[d]);
            assert(made_for(dependencies[d], blocks));
            let m = choose|m: int|
                0 <= m < blocks.len() && is_made(#[trigger] blocks[m], dependencies[d]);
            lemma_made_block(blocks[m], dependencies[d]);
            assert(blocks.contains(blocks[m]));
            assert(ordered.contains(blocks[m]));
            let k = choose|k: int| 0 <= k < ordered.len() && ordered[k] == blocks[m];
            assert(own_volumes[k] == volume);
            assert(all[retained.len() + k] == volume);
        }
    }
}

} // verus!
