//! The Compose file of the selected runtime dependencies.

use vstd::prelude::*;
use vstd::string::*;

use crate::cargo_graph::{lemma_text_key_split, push_text_key, text_key};
use crate::digest::hex;
use crate::management::{ManagerError, ManagerFailure};
use crate::module_resolution::descriptors_of;
use crate::modules::{
    ComposeEnvironmentBinding, ComposeHealthcheck, ExternalEnvironmentBinding, ModuleCatalog,
    RuntimeDependencyDescriptor,
};
use crate::ordered::{
    codes, codes_of, models, set_holds, sort_unique, sorted_listing, Distinct, Keyed, Sorted,
    TextSet,
};
use crate::rendering::{dependencies_of, renders};
use crate::sorting::{arranged, lemma_arranged, sort_ranked, Ranked};
use crate::text::{clone_texts, decimal, decimal_text, join2, join3, join5, same_text, texts};

verus! {

// Fragments.
/// A part of the file: text as it is, or a string to be quoted.
#[derive(Debug, PartialEq, Eq)]
pub enum Fragment {
    /// Text as it is.
    Plain(String),
    /// A string to be quoted.
    Quoted(String),
}

/// The value of a fragment.
pub enum FragmentModel {
    /// Text as it is.
    Plain(Seq<char>),
    /// A string to be quoted.
    Quoted(Seq<char>),
}

impl Fragment {
    /// The value of this fragment.
    pub open spec fn view(&self) -> FragmentModel {
        match *self {
            Fragment::Plain(text) => FragmentModel::Plain(text@),
            Fragment::Quoted(text) => FragmentModel::Quoted(text@),
        }
    }
}

/// The values of fragments.
pub open spec fn fragments(list: Seq<Fragment>) -> Seq<FragmentModel> {
    list.map_values(|fragment: Fragment| fragment@)
}

/// The text that stands for a character inside a JSON string.
pub open spec fn json_character(character: char) -> Seq<char> {
    if character == '"' {
        seq!['\\', '"']
    } else if character == '\\' {
        seq!['\\', '\\']
    } else if character == '\u{8}' {
        seq!['\\', 'b']
    } else if character == '\t' {
        seq!['\\', 't']
    } else if character == '\n' {
        seq!['\\', 'n']
    } else if character == '\u{c}' {
        seq!['\\', 'f']
    } else if character == '\r' {
        seq!['\\', 'r']
    } else if character <= '\u{1f}' {
        seq!['\\', 'u', '0', '0'] + hex(seq![character as u8])
    } else {
        seq![character]
    }
}

/// The characters of a JSON string that stand for `text`.
pub open spec fn json_characters(text: Seq<char>) -> Seq<char> {
    text.map_values(|character: char| json_character(character)).flatten()
}

/// A string as a JSON document: between quotes, with quotes, backslashes and control characters
/// escaped.
pub open spec fn json_string(text: Seq<char>) -> Seq<char> {
    seq!['"'] + json_characters(text) + seq!['"']
}

/// Calls `serde_json::to_string` on a `str`, which writes to memory and does not fail: it puts the
/// string between quotes, escapes the quote, the backslash and the characters before the space,
/// and leaves every other character as it is.
#[verifier::external_body]
fn encode_json_string(text: &str) -> (result: Result<String, String>)
    ensures
        result is Ok,
        result matches Ok(encoded) ==> encoded@ == json_string(text@),
{
    serde_json::to_string(text).map_err(|error| error.to_string())
}

/// The text of a fragment.
pub open spec fn fragment_text(fragment: FragmentModel) -> Seq<char> {
    match fragment {
        FragmentModel::Plain(text) => text,
        FragmentModel::Quoted(text) => json_string(text),
    }
}

/// The text of the first `count` fragments.
pub open spec fn fragments_text(list: Seq<FragmentModel>, count: int) -> Seq<char>
    decreases count,
{
    if count <= 0 {
        Seq::empty()
    } else {
        fragments_text(list, count - 1) + fragment_text(list[count - 1])
    }
}

fn render_fragments(list: &Vec<Fragment>) -> (result: Result<String, ManagerError>)
    ensures
        renders(result, Ok(fragments_text(fragments(list@), list@.len() as int))),
{
    let ghost all = fragments(list@);
    let mut output = String::new();
    let mut index: usize = 0;
    while index < list.len()
        invariant
            all == fragments(list@),
            index <= list@.len(),
            fragments_text(all, index as int) == output@,
        decreases list@.len() - index,
    {
        assert(all[index as int] == list@[index as int]@);
        match &list[index] {
            Fragment::Plain(text) => {
                output.append(text.as_str());
            },
            Fragment::Quoted(text) => match encode_json_string(text.as_str()) {
                Ok(encoded) => {
                    output.append(encoded.as_str());
                },
                Err(message) => {
                    return Err(
                        ManagerError::InvalidProject(
                            join2("cannot encode Compose scalar: ", message.as_str()),
                        ),
                    );
                },
            },
        }
        index += 1;
    }
    Ok(output)
}

/// One fragment of plain text.
pub open spec fn plain(text: Seq<char>) -> Seq<FragmentModel> {
    seq![FragmentModel::Plain(text)]
}

/// One quoted string.
pub open spec fn quoted(text: Seq<char>) -> Seq<FragmentModel> {
    seq![FragmentModel::Quoted(text)]
}

fn push_plain(list: &mut Vec<Fragment>, text: &str)
    ensures
        fragments(final(list)@) == fragments(old(list)@) + plain(text@),
{
    let ghost before = fragments(list@);
    list.push(Fragment::Plain(text.to_owned()));
    assert(fragments(list@) =~= before + plain(text@));
}

fn push_quoted(list: &mut Vec<Fragment>, text: &str)
    ensures
        fragments(final(list)@) == fragments(old(list)@) + quoted(text@),
{
    let ghost before = fragments(list@);
    list.push(Fragment::Quoted(text.to_owned()));
    assert(fragments(list@) =~= before + quoted(text@));
}

fn push_all(list: &mut Vec<Fragment>, more: Vec<Fragment>)
    ensures
        fragments(final(list)@) == fragments(old(list)@) + fragments(more@),
{
    let ghost before = fragments(list@);
    let ghost added = fragments(more@);
    let mut rest = more;
    list.append(&mut rest);
    assert(fragments(list@) =~= before + added);
}

fn no_fragments() -> (list: Vec<Fragment>)
    ensures
        fragments(list@) == Seq::<FragmentModel>::empty(),
{
    let list: Vec<Fragment> = Vec::new();
    assert(fragments(list@) =~= Seq::<FragmentModel>::empty());
    list
}

proof fn lemma_first(list: Seq<FragmentModel>)
    ensures
        Seq::<FragmentModel>::empty() + list == list,
{
    assert(Seq::<FragmentModel>::empty() + list =~= list);
}

// Environments.
/// A variable of an environment and its value.
#[derive(Debug, PartialEq, Eq)]
pub struct EnvironmentEntry {
    /// Name.
    pub name: String,
    /// Value.
    pub value: String,
}

/// The value of an environment variable: name and value.
pub type EntryModel = (Seq<char>, Seq<char>);

impl Keyed for EnvironmentEntry {
    type Model = EntryModel;

    open spec fn model(&self) -> EntryModel {
        (self.name@, self.value@)
    }

    open spec fn key(model: EntryModel) -> Seq<u32> {
        text_key(model.0) + text_key(model.1)
    }

    fn key_codes(&self) -> (result: Vec<u32>) {
        let mut key: Vec<u32> = Vec::new();
        push_text_key(&mut key, self.name.as_str());
        push_text_key(&mut key, self.value.as_str());
        assert(key@ =~= text_key(self.name@) + text_key(self.value@));
        key
    }

    fn duplicate(&self) -> (copy: Self) {
        EnvironmentEntry { name: self.name.clone(), value: self.value.clone() }
    }
}

impl Distinct for EnvironmentEntry {
    proof fn key_injective(left: EntryModel, right: EntryModel) {
        lemma_text_key_split(left.0, text_key(left.1), right.0, text_key(right.1));
        let none = Seq::<u32>::empty();
        assert(text_key(left.1) + none =~= text_key(left.1));
        assert(text_key(right.1) + none =~= text_key(right.1));
        lemma_text_key_split(left.1, none, right.1, none);
    }
}

/// The variables that the first `count` bindings of a local service give the application; the
/// one that runs migrations at startup only where there is a migration to run.
pub open spec fn local_entries(
    bindings: Seq<ComposeEnvironmentBinding>,
    has_owner: bool,
    count: int,
) -> Seq<EntryModel>
    decreases count,
{
    if count <= 0 {
        Seq::empty()
    } else {
        let binding = bindings[count - 1];
        let before = local_entries(bindings, has_owner, count - 1);
        if binding.name@ == "OMNIUS__MIGRATIONS__RUN_ON_STARTUP"@ && !has_owner {
            before
        } else {
            before.push((binding.name@, binding.value@))
        }
    }
}

/// The value of an external binding: required, with its diagnostic.
pub open spec fn external_value(binding: ExternalEnvironmentBinding) -> Seq<char> {
    "${"@ + binding.name@ + ":?"@ + binding.message@ + "}"@
}

/// The variables that external bindings give the application.
pub open spec fn external_entries(bindings: Seq<ExternalEnvironmentBinding>) -> Seq<EntryModel> {
    bindings.map_values(
        |binding: ExternalEnvironmentBinding| (binding.name@, external_value(binding)),
    )
}

/// The variables that a dependency gives the application.
pub open spec fn dependency_entries(
    dependency: RuntimeDependencyDescriptor,
    has_owner: bool,
) -> Seq<EntryModel> {
    match dependency {
        RuntimeDependencyDescriptor::Compose { application_environment, .. } => local_entries(
            application_environment@,
            has_owner,
            application_environment@.len() as int,
        ),
        RuntimeDependencyDescriptor::External { bindings, .. } => external_entries(bindings@),
    }
}

/// The variables that the first `count` dependencies give the application.
pub open spec fn application_entries(
    dependencies: Seq<RuntimeDependencyDescriptor>,
    has_owner: bool,
    count: int,
) -> Seq<EntryModel>
    decreases count,
{
    if count <= 0 {
        seq![("OMNIUS__SERVER__LISTEN_ADDRESS"@, "0.0.0.0:3000"@)]
    } else {
        application_entries(dependencies, has_owner, count - 1) + dependency_entries(
            dependencies[count - 1],
            has_owner,
        )
    }
}

/// Whether a variable at a place has another value at an earlier place.
pub open spec fn contradicts(entries: Seq<EntryModel>, at: int) -> bool {
    exists|i: int|
        0 <= i < at && (#[trigger] entries[i]).0 == entries[at].0 && entries[i].1 != entries[at].1
}

/// The name of the first variable, from place `at` on, that contradicts an earlier value.
pub open spec fn contradiction(entries: Seq<EntryModel>, at: int) -> Option<Seq<char>>
    decreases entries.len() - at,
{
    if at < 0 || at >= entries.len() {
        None
    } else if contradicts(entries, at) {
        Some(entries[at].0)
    } else {
        contradiction(entries, at + 1)
    }
}

/// The environment of the application, in the order of names.
pub open spec fn application_environment(
    dependencies: Seq<RuntimeDependencyDescriptor>,
    has_owner: bool,
) -> Result<Seq<EntryModel>, ManagerFailure> {
    let entries = application_entries(dependencies, has_owner, dependencies.len() as int);
    match contradiction(entries, 0) {
        Some(name) => Err(
            ManagerFailure::InvalidProject(
                "runtime dependencies define conflicting Compose binding `"@ + name + "`"@,
            ),
        ),
        None => Ok(sorted_listing::<EnvironmentEntry>(entries)),
    }
}

/// The lines of the first `count` variables.
pub open spec fn environment_lines(environment: Seq<EntryModel>, count: int) -> Seq<FragmentModel>
    decreases count,
{
    if count <= 0 {
        Seq::empty()
    } else {
        environment_lines(environment, count - 1) + plain(
            "      "@ + environment[count - 1].0 + ": "@,
        ) + quoted(environment[count - 1].1) + plain("\n"@)
    }
}

fn push_local_entries(
    entries: &mut Vec<EnvironmentEntry>,
    bindings: &Vec<ComposeEnvironmentBinding>,
    has_owner: bool,
)
    ensures
        models(final(entries)@) == models(old(entries)@) + local_entries(
            bindings@,
            has_owner,
            bindings@.len() as int,
        ),
{
    let ghost before = models(entries@);
    let mut index: usize = 0;
    assert(before + Seq::<EntryModel>::empty() =~= before);
    while index < bindings.len()
        invariant
            index <= bindings@.len(),
            models(entries@) == before + local_entries(bindings@, has_owner, index as int),
        decreases bindings@.len() - index,
    {
        let binding = &bindings[index];
        if !(same_text(binding.name.as_str(), "OMNIUS__MIGRATIONS__RUN_ON_STARTUP") && !has_owner) {
            let ghost here = models(entries@);
            entries.push(
                EnvironmentEntry { name: binding.name.clone(), value: binding.value.clone() },
            );
            assert(models(entries@) =~= here.push((binding.name@, binding.value@)));
            assert(before + local_entries(bindings@, has_owner, index + 1) =~= here.push(
                (binding.name@, binding.value@),
            ));
        }
        index += 1;
    }
}

fn push_external_entries(
    entries: &mut Vec<EnvironmentEntry>,
    bindings: &Vec<ExternalEnvironmentBinding>,
)
    ensures
        models(final(entries)@) == models(old(entries)@) + external_entries(bindings@),
{
    let ghost before = models(entries@);
    let ghost all = external_entries(bindings@);
    let mut index: usize = 0;
    assert(before + all.take(0) =~= before);
    while index < bindings.len()
        invariant
            all == external_entries(bindings@),
            index <= bindings@.len(),
            models(entries@) == before + all.take(index as int),
        decreases bindings@.len() - index,
    {
        let binding = &bindings[index];
        let ghost here = models(entries@);
        let value = join5("${", binding.name.as_str(), ":?", binding.message.as_str(), "}");
        let ghost shown = value@;
        entries.push(EnvironmentEntry { name: binding.name.clone(), value });
        assert(models(entries@) =~= here.push((binding.name@, shown)));
        assert(all[index as int] == (binding.name@, shown));
        assert(before + all.take(index + 1) =~= here.push((binding.name@, shown)));
        index += 1;
    }
    assert(all.take(index as int) =~= all);
}

fn find_contradiction(entries: &Vec<EnvironmentEntry>) -> (found: Option<String>)
    ensures
        match found {
            Some(name) => contradiction(models(entries@), 0) == Some(name@),
            None => contradiction(models(entries@), 0) is None,
        },
{
    let ghost all = models(entries@);
    let mut index: usize = 0;
    while index < entries.len()
        invariant
            all == models(entries@),
            index <= entries@.len(),
            contradiction(all, 0) == contradiction(all, index as int),
        decreases entries@.len() - index,
    {
        let mut earlier: usize = 0;
        while earlier < index
            invariant
                all == models(entries@),
                earlier <= index,
                index < entries@.len(),
                contradiction(all, 0) == contradiction(all, index as int),
                forall|i: int|
                    0 <= i < earlier ==> !((#[trigger] all[i]).0 == all[index as int].0 && all[i].1
                        != all[index as int].1),
            decreases index - earlier,
        {
            assert(all[earlier as int] == entries@[earlier as int].model());
            assert(all[index as int] == entries@[index as int].model());
            if same_text(entries[earlier].name.as_str(), entries[index].name.as_str())
                && !same_text(entries[earlier].value.as_str(), entries[index].value.as_str()) {
                assert(contradicts(all, index as int));
                return Some(entries[index].name.clone());
            }
            earlier += 1;
        }
        assert(!contradicts(all, index as int));
        index += 1;
    }
    None
}

fn compose_application_environment(
    dependencies: &Vec<&RuntimeDependencyDescriptor>,
    has_owner: bool,
) -> (result: Result<Sorted<EnvironmentEntry>, ManagerError>)
    ensures
        match result {
            Ok(environment) => application_environment(
                descriptors_of(dependencies@),
                has_owner,
            ) == Ok::<Seq<EntryModel>, ManagerFailure>(environment@),
            Err(error) => application_environment(
                descriptors_of(dependencies@),
                has_owner,
            ) == Err::<Seq<EntryModel>, ManagerFailure>(error.failure()),
        },
{
    let ghost list = descriptors_of(dependencies@);
    let mut entries: Vec<EnvironmentEntry> = Vec::new();
    entries.push(
        EnvironmentEntry {
            name: "OMNIUS__SERVER__LISTEN_ADDRESS".to_owned(),
            value: "0.0.0.0:3000".to_owned(),
        },
    );
    assert(models(entries@) =~= application_entries(list, has_owner, 0));
    let mut index: usize = 0;
    while index < dependencies.len()
        invariant
            list == descriptors_of(dependencies@),
            index <= dependencies@.len(),
            models(entries@) == application_entries(list, has_owner, index as int),
        decreases dependencies@.len() - index,
    {
        assert(list[index as int] == *dependencies@[index as int]);
        match dependencies[index] {
            RuntimeDependencyDescriptor::Compose { application_environment, .. } => {
                push_local_entries(&mut entries, application_environment, has_owner);
            },
            RuntimeDependencyDescriptor::External { bindings, .. } => {
                push_external_entries(&mut entries, bindings);
            },
        }
        index += 1;
    }
    if let Some(name) = find_contradiction(&entries) {
        return Err(
            ManagerError::InvalidProject(
                join3(
                    "runtime dependencies define conflicting Compose binding `",
                    name.as_str(),
                    "`",
                ),
            ),
        );
    }
    Ok(sort_unique(entries))
}

fn environment_fragments(environment: &Sorted<EnvironmentEntry>) -> (list: Vec<Fragment>)
    ensures
        fragments(list@) == environment_lines(environment@, environment@.len() as int),
{
    let mut list = no_fragments();
    let mut index: usize = 0;
    while index < environment.len()
        invariant
            index <= environment@.len(),
            fragments(list@) == environment_lines(environment@, index as int),
        decreases environment@.len() - index,
    {
        let entry = environment.at(index);
        let start = join3("      ", entry.name.as_str(), ": ");
        push_plain(&mut list, start.as_str());
        push_quoted(&mut list, entry.value.as_str());
        push_plain(&mut list, "\n");
        index += 1;
    }
    list
}

// The application.
/// How a generated container is built.
pub open spec fn build_text() -> Seq<char> {
    "    build:\n      context: ..\n      dockerfile: ops/Dockerfile\n"@
}

/// The services that the first `count` dependencies run, in their order.
pub open spec fn local_services(dependencies: Seq<RuntimeDependencyDescriptor>, count: int) -> Seq<
    Seq<char>,
>
    decreases count,
{
    if count <= 0 {
        Seq::empty()
    } else {
        match dependencies[count - 1] {
            RuntimeDependencyDescriptor::Compose { service, .. } => local_services(
                dependencies,
                count - 1,
            ).push(service@),
            RuntimeDependencyDescriptor::External { .. } => local_services(dependencies, count - 1),
        }
    }
}

/// The rank of a string.
pub open spec fn text_rank() -> spec_fn(Seq<char>) -> Seq<u32> {
    |text: Seq<char>| codes(text)
}

/// The lines of the first `count` services that the application waits for.
pub open spec fn waiting_lines(services: Seq<Seq<char>>, count: int) -> Seq<char>
    decreases count,
{
    if count <= 0 {
        Seq::empty()
    } else {
        waiting_lines(services, count - 1) + "      "@ + services[count - 1]
            + ":\n        condition: service_healthy\n"@
    }
}

/// What the application waits for.
pub open spec fn waiting_text(
    dependencies: Seq<RuntimeDependencyDescriptor>,
    has_owner: bool,
) -> Seq<char> {
    let services = local_services(dependencies, dependencies.len() as int);
    if services.len() == 0 {
        Seq::empty()
    } else {
        "    depends_on:\n"@ + waiting_lines(
            arranged(services, text_rank(), services.len() as int),
            services.len() as int,
        ) + (if has_owner {
            "      migrate:\n        condition: service_completed_successfully\n"@
        } else {
            ""@
        })
    }
}

/// The service of the application.
pub open spec fn application_fragments(
    dependencies: Seq<RuntimeDependencyDescriptor>,
    environment: Seq<EntryModel>,
    has_owner: bool,
) -> Seq<FragmentModel> {
    plain("services:\n  app:\n"@) + plain(build_text()) + plain("    environment:\n"@)
        + environment_lines(environment, environment.len() as int) + plain(
        waiting_text(dependencies, has_owner),
    ) + plain(
        "    ports:\n    - \"127.0.0.1:3000:3000\"\n    read_only: true\n    tmpfs:\n    - /tmp:size=16m,mode=1777\n    security_opt:\n    - no-new-privileges:true\n"@,
    )
}

impl Ranked for String {
    open spec fn rank(&self) -> Seq<u32> {
        codes(self@)
    }

    fn rank_codes(&self) -> (codes: Vec<u32>) {
        codes_of(self.as_str())
    }
}

fn collect_services(dependencies: &Vec<&RuntimeDependencyDescriptor>) -> (services: Vec<String>)
    ensures
        texts(services@) == local_services(
            descriptors_of(dependencies@),
            dependencies@.len() as int,
        ),
{
    let ghost list = descriptors_of(dependencies@);
    let mut services: Vec<String> = Vec::new();
    assert(texts(services@) =~= Seq::<Seq<char>>::empty());
    let mut index: usize = 0;
    while index < dependencies.len()
        invariant
            list == descriptors_of(dependencies@),
            index <= dependencies@.len(),
            texts(services@) == local_services(list, index as int),
        decreases dependencies@.len() - index,
    {
        assert(list[index as int] == *dependencies@[index as int]);
        match dependencies[index] {
            RuntimeDependencyDescriptor::Compose { service, .. } => {
                let ghost before = texts(services@);
                services.push(service.clone());
                assert(texts(services@) =~= before.push(service@));
            },
            RuntimeDependencyDescriptor::External { .. } => {},
        }
        index += 1;
    }
    services
}

fn waiting(dependencies: &Vec<&RuntimeDependencyDescriptor>, has_owner: bool) -> (text: String)
    ensures
        text@ == waiting_text(descriptors_of(dependencies@), has_owner),
{
    let services = collect_services(dependencies);
    let ghost list = texts(services@);
    if services.len() == 0 {
        let text = String::new();
        assert(text@ =~= Seq::<char>::empty());
        return text;
    }
    let ghost unsorted = services@;
    let sorted = sort_ranked(services);
    let ghost ordered = texts(sorted@);
    proof {
        let view = |text: String| text@;
        lemma_arranged(unsorted, view, text_rank(), unsorted.len() as int);
        crate::sorting::lemma_ranked(unsorted, unsorted.len() as int);
        assert(ordered == arranged(list, text_rank(), list.len() as int));
    }
    let mut lines = String::new();
    let mut index: usize = 0;
    while index < sorted.len()
        invariant
            ordered == texts(sorted@),
            index <= sorted@.len(),
            lines@ == waiting_lines(ordered, index as int),
        decreases sorted@.len() - index,
    {
        assert(ordered[index as int] == sorted@[index as int]@);
        lines.append("      ");
        lines.append(sorted[index].as_str());
        lines.append(":\n        condition: service_healthy\n");
        index += 1;
    }
    let last = if has_owner {
        "      migrate:\n        condition: service_completed_successfully\n"
    } else {
        ""
    };
    join3("    depends_on:\n", lines.as_str(), last)
}

fn build_application(
    dependencies: &Vec<&RuntimeDependencyDescriptor>,
    environment: &Sorted<EnvironmentEntry>,
    has_owner: bool,
) -> (list: Vec<Fragment>)
    ensures
        fragments(list@) == application_fragments(
            descriptors_of(dependencies@),
            environment@,
            has_owner,
        ),
{
    let mut list = no_fragments();
    push_plain(&mut list, "services:\n  app:\n");
    proof {
        lemma_first(plain("services:\n  app:\n"@));
    }
    push_plain(&mut list, "    build:\n      context: ..\n      dockerfile: ops/Dockerfile\n");
    push_plain(&mut list, "    environment:\n");
    push_all(&mut list, environment_fragments(environment));
    let wait = waiting(dependencies, has_owner);
    push_plain(&mut list, wait.as_str());
    push_plain(
        &mut list,
        "    ports:\n    - \"127.0.0.1:3000:3000\"\n    read_only: true\n    tmpfs:\n    - /tmp:size=16m,mode=1777\n    security_opt:\n    - no-new-privileges:true\n",
    );
    list
}

// Migration.
/// The quoted strings of a list, with commas between them.
pub open spec fn quoted_list(list: Seq<Seq<char>>, count: int) -> Seq<FragmentModel>
    decreases count,
{
    if count <= 0 {
        Seq::empty()
    } else {
        quoted_list(list, count - 1) + (if count > 1 {
            plain(", "@)
        } else {
            Seq::empty()
        }) + quoted(list[count - 1])
    }
}

/// The service of the first dependency, from place `at` on, whose migration a selected module
/// supplies, and the command of that migration.
pub open spec fn migration_owner(
    dependencies: Seq<RuntimeDependencyDescriptor>,
    selected: Seq<Seq<char>>,
    at: int,
) -> Option<(Seq<char>, Seq<Seq<char>>)>
    decreases dependencies.len() - at,
{
    if at < 0 || at >= dependencies.len() {
        None
    } else {
        match owned_migration(dependencies[at], selected) {
            Some(owner) => Some(owner),
            None => migration_owner(dependencies, selected, at + 1),
        }
    }
}

/// The service of a dependency whose migration a selected module supplies, and its command.
pub open spec fn owned_migration(
    dependency: RuntimeDependencyDescriptor,
    selected: Seq<Seq<char>>,
) -> Option<(Seq<char>, Seq<Seq<char>>)> {
    match dependency {
        RuntimeDependencyDescriptor::Compose { service, migration, .. } => match migration {
            Some(migration) => if selected.contains(migration.required_module@) {
                Some((service@, texts(migration.command@)))
            } else {
                None
            },
            None => None,
        },
        RuntimeDependencyDescriptor::External { .. } => None,
    }
}

/// The environment of the migration: that of the application, without the address.
pub open spec fn migration_environment(environment: Seq<EntryModel>, count: int) -> Seq<EntryModel>
    decreases count,
{
    if count <= 0 {
        Seq::empty()
    } else {
        let before = migration_environment(environment, count - 1);
        if environment[count - 1].0 != "OMNIUS__SERVER__LISTEN_ADDRESS"@ {
            before.push(environment[count - 1])
        } else {
            before
        }
    }
}

/// The service that runs the migration.
pub open spec fn migration_fragments(
    owner: Option<(Seq<char>, Seq<Seq<char>>)>,
    environment: Seq<EntryModel>,
) -> Seq<FragmentModel> {
    match owner {
        None => Seq::empty(),
        Some((service, command)) => {
            let kept = migration_environment(environment, environment.len() as int);
            plain("  migrate:\n"@) + plain(build_text()) + plain("    command: ["@) + quoted_list(
                command,
                command.len() as int,
            ) + plain("]\n    environment:\n"@) + environment_lines(kept, kept.len() as int) + plain(
                "    depends_on:\n      "@ + service + ":\n        condition: service_healthy\n"@,
            ) + plain(
                "    restart: \"no\"\n    read_only: true\n    tmpfs:\n    - /tmp:size=16m,mode=1777\n    security_opt:\n    - no-new-privileges:true\n"@,
            )
        },
    }
}

fn quoted_fragments(texts_list: &Vec<String>) -> (list: Vec<Fragment>)
    ensures
        fragments(list@) == quoted_list(texts(texts_list@), texts_list@.len() as int),
{
    let ghost all = texts(texts_list@);
    let mut list = no_fragments();
    let mut index: usize = 0;
    while index < texts_list.len()
        invariant
            all == texts(texts_list@),
            index <= texts_list@.len(),
            fragments(list@) == quoted_list(all, index as int),
        decreases texts_list@.len() - index,
    {
        assert(all[index as int] == texts_list@[index as int]@);
        if index > 0 {
            push_plain(&mut list, ", ");
        } else {
            assert(fragments(list@) + Seq::<FragmentModel>::empty() =~= fragments(list@));
        }
        push_quoted(&mut list, texts_list[index].as_str());
        index += 1;
    }
    list
}

fn find_migration_owner<'a>(
    dependencies: &Vec<&'a RuntimeDependencyDescriptor>,
    selected: &TextSet,
) -> (owner: Option<(&'a str, &'a Vec<String>)>)
    ensures
        match owner {
            Some(found) => migration_owner(descriptors_of(dependencies@), selected@, 0) == Some(
                (found.0@, texts(found.1@)),
            ),
            None => migration_owner(descriptors_of(dependencies@), selected@, 0) is None,
        },
{
    let ghost list = descriptors_of(dependencies@);
    let mut index: usize = 0;
    while index < dependencies.len()
        invariant
            list == descriptors_of(dependencies@),
            index <= dependencies@.len(),
            migration_owner(list, selected@, 0) == migration_owner(list, selected@, index as int),
        decreases dependencies@.len() - index,
    {
        assert(list[index as int] == *dependencies@[index as int]);
        let dependency: &'a RuntimeDependencyDescriptor = dependencies[index];
        if let RuntimeDependencyDescriptor::Compose { service, migration, .. } = dependency {
            if let Some(migration) = migration {
                if set_holds(selected, migration.required_module.as_str()) {
                    return Some((service.as_str(), &migration.command));
                }
            }
        }
        index += 1;
    }
    None
}

fn without_address(environment: &Sorted<EnvironmentEntry>) -> (list: Vec<Fragment>)
    ensures
        ({
            let kept = migration_environment(environment@, environment@.len() as int);
            fragments(list@) == environment_lines(kept, kept.len() as int)
        }),
{
    let mut list = no_fragments();
    let ghost mut kept = Seq::<EntryModel>::empty();
    let mut index: usize = 0;
    while index < environment.len()
        invariant
            index <= environment@.len(),
            kept == migration_environment(environment@, index as int),
            fragments(list@) == environment_lines(kept, kept.len() as int),
        decreases environment@.len() - index,
    {
        let entry = environment.at(index);
        if !same_text(entry.name.as_str(), "OMNIUS__SERVER__LISTEN_ADDRESS") {
            let start = join3("      ", entry.name.as_str(), ": ");
            push_plain(&mut list, start.as_str());
            push_quoted(&mut list, entry.value.as_str());
            push_plain(&mut list, "\n");
            proof {
                let more = kept.push(environment@[index as int]);
                lemma_lines_prefix(kept, more, kept.len() as int);
                kept = more;
            }
        }
        index += 1;
    }
    list
}

proof fn lemma_lines_prefix(left: Seq<EntryModel>, right: Seq<EntryModel>, count: int)
    requires
        0 <= count <= left.len(),
        count <= right.len(),
        forall|i: int| 0 <= i < count ==> left[i] == right[i],
    ensures
        environment_lines(left, count) == environment_lines(right, count),
    decreases count,
{
    if count > 0 {
        lemma_lines_prefix(left, right, count - 1);
    }
}

fn build_migration(
    owner: Option<(&str, &Vec<String>)>,
    environment: &Sorted<EnvironmentEntry>,
) -> (list: Vec<Fragment>)
    ensures
        fragments(list@) == migration_fragments(
            (match owner {
                Some(found) => Some((found.0@, texts(found.1@))),
                None => None,
            }),
            environment@,
        ),
{
    let mut list = no_fragments();
    let (service, command) = match owner {
        Some(found) => found,
        None => {
            return list;
        },
    };
    push_plain(&mut list, "  migrate:\n");
    proof {
        lemma_first(plain("  migrate:\n"@));
    }
    push_plain(&mut list, "    build:\n      context: ..\n      dockerfile: ops/Dockerfile\n");
    push_plain(&mut list, "    command: [");
    push_all(&mut list, quoted_fragments(command));
    push_plain(&mut list, "]\n    environment:\n");
    push_all(&mut list, without_address(environment));
    let wait = join3(
        "    depends_on:\n      ",
        service,
        ":\n        condition: service_healthy\n",
    );
    push_plain(&mut list, wait.as_str());
    push_plain(
        &mut list,
        "    restart: \"no\"\n    read_only: true\n    tmpfs:\n    - /tmp:size=16m,mode=1777\n    security_opt:\n    - no-new-privileges:true\n",
    );
    list
}

// Local services.
/// A local service: its name, its part of the file, and its volume.
#[derive(Debug, PartialEq, Eq)]
pub struct ServiceBlock {
    /// Service name.
    pub service: String,
    /// Its part of the file.
    pub list: Vec<Fragment>,
    /// Volume.
    pub volume: String,
}

/// The value of a local service.
pub struct BlockModel {
    /// Service name.
    pub service: Seq<char>,
    /// Its part of the file.
    pub list: Seq<FragmentModel>,
    /// Volume.
    pub volume: Seq<char>,
}

impl ServiceBlock {
    /// The value of this service.
    pub open spec fn view(&self) -> BlockModel {
        BlockModel {
            service: self.service@,
            list: fragments(self.list@),
            volume: self.volume@,
        }
    }
}

impl Ranked for ServiceBlock {
    open spec fn rank(&self) -> Seq<u32> {
        codes(self.service@)
    }

    fn rank_codes(&self) -> (codes: Vec<u32>) {
        codes_of(self.service.as_str())
    }
}

/// The rank of a local service: its name.
pub open spec fn block_rank() -> spec_fn(BlockModel) -> Seq<u32> {
    |block: BlockModel| codes(block.service)
}

/// Whether a later binding has the name of the one at a place.
pub open spec fn is_overridden(bindings: Seq<ComposeEnvironmentBinding>, at: int) -> bool {
    exists|i: int| at < i < bindings.len() && (#[trigger] bindings[i]).name@ == bindings[at].name@
}

/// The variables of the first `count` bindings that no later one overrides.
pub open spec fn lasting_entries(bindings: Seq<ComposeEnvironmentBinding>, count: int) -> Seq<
    EntryModel,
>
    decreases count,
{
    if count <= 0 {
        Seq::empty()
    } else if is_overridden(bindings, count - 1) {
        lasting_entries(bindings, count - 1)
    } else {
        lasting_entries(bindings, count - 1).push(
            (bindings[count - 1].name@, bindings[count - 1].value@),
        )
    }
}

/// The part of the file of a local service.
pub open spec fn block_fragments(
    service: Seq<char>,
    image: Seq<char>,
    volume: Seq<char>,
    volume_mount: Seq<char>,
    healthcheck: ComposeHealthcheck,
    bindings: Seq<ComposeEnvironmentBinding>,
) -> Seq<FragmentModel> {
    let environment = sorted_listing::<EnvironmentEntry>(
        lasting_entries(bindings, bindings.len() as int),
    );
    plain("  "@ + service + ":\n    image: "@ + image + "\n"@) + plain("    environment:\n"@)
        + environment_lines(environment, environment.len() as int) + plain("    volumes:\n    - "@)
        + quoted(volume + ":"@ + volume_mount) + plain("\n    healthcheck:\n      test: ["@)
        + quoted_list(texts(healthcheck.test@), healthcheck.test@.len() as int) + plain(
        "]\n      interval: "@ + healthcheck.interval@ + "\n      timeout: "@
            + healthcheck.timeout@ + "\n      retries: "@ + decimal(healthcheck.retries as nat)
            + "\n"@,
    )
}

/// The local services of the first `count` dependencies, in their order.
pub open spec fn service_blocks(dependencies: Seq<RuntimeDependencyDescriptor>, count: int) -> Seq<
    BlockModel,
>
    decreases count,
{
    if count <= 0 {
        Seq::empty()
    } else {
        let before = service_blocks(dependencies, count - 1);
        match dependencies[count - 1] {
            RuntimeDependencyDescriptor::Compose {
                service,
                image,
                volume,
                volume_mount,
                healthcheck,
                service_environment,
                ..
            } => before.push(
                BlockModel {
                    service: service@,
                    list: block_fragments(
                        service@,
                        image@,
                        volume@,
                        volume_mount@,
                        *healthcheck,
                        service_environment@,
                    ),
                    volume: volume@,
                },
            ),
            RuntimeDependencyDescriptor::External { .. } => before,
        }
    }
}

/// The parts of the file of the first `count` local services.
pub open spec fn joined_blocks(blocks: Seq<BlockModel>, count: int) -> Seq<FragmentModel>
    decreases count,
{
    if count <= 0 {
        Seq::empty()
    } else {
        joined_blocks(blocks, count - 1) + blocks[count - 1].list
    }
}

/// The volumes of local services.
pub open spec fn block_volumes(blocks: Seq<BlockModel>) -> Seq<Seq<char>> {
    blocks.map_values(|block: BlockModel| block.volume)
}

/// The lines of the first `count` volumes.
pub open spec fn volume_lines(volumes: Seq<Seq<char>>, count: int) -> Seq<char>
    decreases count,
{
    if count <= 0 {
        Seq::empty()
    } else {
        volume_lines(volumes, count - 1) + "  "@ + volumes[count - 1] + ":\n"@
    }
}

/// The declaration of volumes.
pub open spec fn volumes_text(volumes: Seq<Seq<char>>) -> Seq<char> {
    if volumes.len() == 0 {
        Seq::empty()
    } else {
        "volumes:\n"@ + volume_lines(volumes, volumes.len() as int)
    }
}

/// The local services and all volumes, those that are retained among them.
pub open spec fn dependency_fragments(
    dependencies: Seq<RuntimeDependencyDescriptor>,
    retained: Seq<Seq<char>>,
) -> Seq<FragmentModel> {
    let blocks = service_blocks(dependencies, dependencies.len() as int);
    let ordered = arranged(blocks, block_rank(), blocks.len() as int);
    joined_blocks(ordered, ordered.len() as int) + plain(
        volumes_text(sorted_listing::<String>(retained + block_volumes(ordered))),
    )
}

fn overridden(bindings: &Vec<ComposeEnvironmentBinding>, at: usize) -> (found: bool)
    requires
        at < bindings@.len(),
    ensures
        found == is_overridden(bindings@, at as int),
{
    let length: usize = bindings.len();
    assert(at < length);
    let mut index: usize = at + 1;
    while index < bindings.len()
        invariant
            at < index <= bindings@.len(),
            forall|i: int|
                at < i < index ==> (#[trigger] bindings@[i]).name@ != bindings@[at as int].name@,
        decreases bindings@.len() - index,
    {
        if same_text(bindings[index].name.as_str(), bindings[at].name.as_str()) {
            assert(bindings@[index as int].name@ == bindings@[at as int].name@);
            return true;
        }
        index += 1;
    }
    false
}

fn service_environment_entries(bindings: &Vec<ComposeEnvironmentBinding>) -> (environment: Sorted<
    EnvironmentEntry,
>)
    ensures
        environment@ == sorted_listing::<EnvironmentEntry>(
            lasting_entries(bindings@, bindings@.len() as int),
        ),
{
    let mut entries: Vec<EnvironmentEntry> = Vec::new();
    assert(models(entries@) =~= Seq::<EntryModel>::empty());
    let mut index: usize = 0;
    while index < bindings.len()
        invariant
            index <= bindings@.len(),
            models(entries@) == lasting_entries(bindings@, index as int),
        decreases bindings@.len() - index,
    {
        if !overridden(bindings, index) {
            let ghost before = models(entries@);
            let name = bindings[index].name.clone();
            let value = bindings[index].value.clone();
            let ghost entry = (name@, value@);
            entries.push(EnvironmentEntry { name, value });
            assert(models(entries@) =~= before.push(entry));
        }
        index += 1;
    }
    sort_unique(entries)
}

fn build_block(
    service: &str,
    image: &str,
    volume: &str,
    volume_mount: &str,
    healthcheck: &ComposeHealthcheck,
    bindings: &Vec<ComposeEnvironmentBinding>,
) -> (list: Vec<Fragment>)
    ensures
        fragments(list@) == block_fragments(
            service@,
            image@,
            volume@,
            volume_mount@,
            *healthcheck,
            bindings@,
        ),
{
    let mut list = no_fragments();
    let head = join5("  ", service, ":\n    image: ", image, "\n");
    push_plain(&mut list, head.as_str());
    proof {
        lemma_first(plain(head@));
    }
    push_plain(&mut list, "    environment:\n");
    let environment = service_environment_entries(bindings);
    push_all(&mut list, environment_fragments(&environment));
    push_plain(&mut list, "    volumes:\n    - ");
    let mount = join3(volume, ":", volume_mount);
    push_quoted(&mut list, mount.as_str());
    push_plain(&mut list, "\n    healthcheck:\n      test: [");
    push_all(&mut list, quoted_fragments(&healthcheck.test));
    let retries = decimal_text(healthcheck.retries as u64);
    let mut limits = "]\n      interval: ".to_owned();
    limits.append(healthcheck.interval.as_str());
    limits.append("\n      timeout: ");
    limits.append(healthcheck.timeout.as_str());
    limits.append("\n      retries: ");
    limits.append(retries.as_str());
    limits.append("\n");
    push_plain(&mut list, limits.as_str());
    list
}

/// The values of local services.
pub open spec fn block_models(blocks: Seq<ServiceBlock>) -> Seq<BlockModel> {
    blocks.map_values(|block: ServiceBlock| block@)
}

fn build_blocks(dependencies: &Vec<&RuntimeDependencyDescriptor>) -> (blocks: Vec<ServiceBlock>)
    ensures
        block_models(blocks@) == service_blocks(
            descriptors_of(dependencies@),
            dependencies@.len() as int,
        ),
{
    let ghost list = descriptors_of(dependencies@);
    let mut blocks: Vec<ServiceBlock> = Vec::new();
    assert(block_models(blocks@) =~= Seq::<BlockModel>::empty());
    let mut index: usize = 0;
    while index < dependencies.len()
        invariant
            list == descriptors_of(dependencies@),
            index <= dependencies@.len(),
            block_models(blocks@) == service_blocks(list, index as int),
        decreases dependencies@.len() - index,
    {
        assert(list[index as int] == *dependencies@[index as int]);
        match dependencies[index] {
            RuntimeDependencyDescriptor::Compose {
                service,
                image,
                volume,
                volume_mount,
                healthcheck,
                service_environment,
                ..
            } => {
                let ghost before = block_models(blocks@);
                let block = ServiceBlock {
                    service: service.clone(),
                    list: build_block(
                        service.as_str(),
                        image.as_str(),
                        volume.as_str(),
                        volume_mount.as_str(),
                        healthcheck,
                        service_environment,
                    ),
                    volume: volume.clone(),
                };
                let ghost value = block@;
                blocks.push(block);
                assert(block_models(blocks@) =~= before.push(value));
            },
            RuntimeDependencyDescriptor::External { .. } => {},
        }
        index += 1;
    }
    blocks
}

fn declare_volumes(volumes: &TextSet) -> (text: String)
    ensures
        text@ == volumes_text(volumes@),
{
    if volumes.len() == 0 {
        let text = String::new();
        assert(text@ =~= Seq::<char>::empty());
        return text;
    }
    let mut lines = String::new();
    let mut index: usize = 0;
    while index < volumes.len()
        invariant
            index <= volumes@.len(),
            lines@ == volume_lines(volumes@, index as int),
        decreases volumes@.len() - index,
    {
        lines.append("  ");
        lines.append(volumes.at(index).as_str());
        lines.append(":\n");
        index += 1;
    }
    join2("volumes:\n", lines.as_str())
}

fn build_dependencies(
    dependencies: &Vec<&RuntimeDependencyDescriptor>,
    retained_volumes: &Vec<String>,
) -> (list: Vec<Fragment>)
    ensures
        fragments(list@) == dependency_fragments(
            descriptors_of(dependencies@),
            texts(retained_volumes@),
        ),
{
    let blocks = build_blocks(dependencies);
    let ghost unsorted = blocks@;
    let mut sorted = sort_ranked(blocks);
    let ghost ordered = block_models(sorted@);
    proof {
        let view = |block: ServiceBlock| block@;
        lemma_arranged(unsorted, view, block_rank(), unsorted.len() as int);
        crate::sorting::lemma_ranked(unsorted, unsorted.len() as int);
        assert(block_models(unsorted) == unsorted.map_values(view));
        assert(ordered == arranged(block_models(unsorted), block_rank(), unsorted.len() as int));
    }
    let mut volumes = clone_texts(retained_volumes);
    let mut list = no_fragments();
    let ghost retained = texts(retained_volumes@);
    let ghost total = ordered.len();
    let ghost mut count = 0int;
    assert(retained + block_volumes(ordered).take(0) =~= retained);
    assert(ordered.skip(0) =~= ordered);
    while sorted.len() > 0
        invariant
            total == ordered.len(),
            0 <= count <= total,
            block_models(sorted@) == ordered.skip(count),
            texts(volumes@) == retained + block_volumes(ordered).take(count),
            fragments(list@) == joined_blocks(ordered, count),
        decreases sorted@.len(),
    {
        let ghost before_sorted = sorted@;
        let block = sorted.remove(0);
        proof {
            assert(block_models(before_sorted).len() == before_sorted.len());
            assert(ordered.skip(count).len() > 0);
            assert(ordered.skip(count)[0] == ordered[count]);
            assert(block@ == ordered[count]);
            assert(block_models(sorted@) =~= block_models(before_sorted).skip(1));
            assert(ordered.skip(count).skip(1) =~= ordered.skip(count + 1));
        }
        let ghost before = texts(volumes@);
        let ghost volume = block.volume@;
        volumes.push(block.volume);
        proof {
            assert(texts(volumes@) =~= before.push(volume));
            assert(retained + block_volumes(ordered).take(count + 1) =~= before.push(volume));
        }
        push_all(&mut list, block.list);
        proof {
            count = count + 1;
        }
    }
    proof {
        assert(ordered.skip(count).len() == 0);
        assert(count == total);
        assert(block_volumes(ordered).take(count) =~= block_volumes(ordered));
        assert(models(volumes@) =~= texts(volumes@));
    }
    let all = sort_unique(volumes);
    let declared = declare_volumes(&all);
    push_plain(&mut list, declared.as_str());
    list
}

// The file.
/// The parts of the Compose file.
pub open spec fn compose_fragments(
    dependencies: Seq<RuntimeDependencyDescriptor>,
    selected: Seq<Seq<char>>,
    retained: Seq<Seq<char>>,
) -> Result<Seq<FragmentModel>, ManagerFailure> {
    let owner = migration_owner(dependencies, selected, 0);
    match application_environment(dependencies, owner is Some) {
        Err(failure) => Err(failure),
        Ok(environment) => Ok(
            application_fragments(dependencies, environment, owner is Some) + migration_fragments(
                owner,
                environment,
            ) + dependency_fragments(dependencies, retained),
        ),
    }
}

/// The Compose file of the selected modules, given the quoted form of strings.
pub open spec fn compose_file(
    catalog: ModuleCatalog,
    selected: Seq<Seq<char>>,
    retained: Seq<Seq<char>>,
) -> Result<Seq<char>, ManagerFailure> {
    match dependencies_of(catalog, selected) {
        Err(failure) => Err(failure),
        Ok(dependencies) => match compose_fragments(dependencies, selected, retained) {
            Err(failure) => Err(failure),
            Ok(list) => Ok(fragments_text(list, list.len() as int)),
        },
    }
}

/// Lists the parts of the Compose file of the selected modules.
pub fn compose_parts(
    catalog: &ModuleCatalog,
    selected: &TextSet,
    retained_volumes: &Vec<String>,
) -> (result: Result<Vec<Fragment>, ManagerError>)
    ensures
        ({
            let owed = match dependencies_of(*catalog, selected@) {
                Err(failure) => Err(failure),
                Ok(dependencies) => compose_fragments(
                    dependencies,
                    selected@,
                    texts(retained_volumes@),
                ),
            };
            match result {
                Ok(list) => owed == Ok::<Seq<FragmentModel>, ManagerFailure>(fragments(list@)),
                Err(error) => owed == Err::<Seq<FragmentModel>, ManagerFailure>(error.failure()),
            }
        }),
{
    let dependencies = match catalog.selected_runtime_dependencies(selected) {
        Ok(dependencies) => dependencies,
        Err(error) => {
            return Err(ManagerError::Catalog(error));
        },
    };
    let owner = find_migration_owner(&dependencies, selected);
    let has_owner = owner.is_some();
    let environment = match compose_application_environment(&dependencies, has_owner) {
        Ok(environment) => environment,
        Err(error) => {
            return Err(error);
        },
    };
    let mut list = build_application(&dependencies, &environment, has_owner);
    push_all(&mut list, build_migration(owner, &environment));
    push_all(&mut list, build_dependencies(&dependencies, retained_volumes));
    Ok(list)
}

/// Renders the Compose file of the selected modules.
pub fn render_compose(
    catalog: &ModuleCatalog,
    selected: &TextSet,
    retained_volumes: &Vec<String>,
) -> (result: Result<String, ManagerError>)
    ensures
        renders(
            result,
            compose_file(*catalog, selected@, texts(retained_volumes@)),
        ),
{
    let list = match compose_parts(catalog, selected, retained_volumes) {
        Ok(list) => list,
        Err(error) => {
            return Err(error);
        },
    };
    assert(fragments(list@).len() == list@.len());
    render_fragments(&list)
}

} // verus!
