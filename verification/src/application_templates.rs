//! Templates of files that modules hand to the application.

use vstd::prelude::*;
use vstd::string::*;

use crate::cargo_graph::{lemma_text_key_split, push_text_key, text_key};
use crate::findings::or_else;
use crate::modules::{ModuleCatalog, ModuleDefinition};
use crate::ordered::{
    difference, is_difference, lemma_ascending_extensional, lemma_holds_value,
    lemma_listing_exists, set_add, sorted_listing, Distinct, Keyed, Sorted, TextSet,
};
use crate::paths::{name_of, relative_path_defect, split_parent_name, validate_relative_path};
use crate::text::{chars_of, join3, join5, same_text, starts_with};

verus! {

/// One template: the module that declares it, the path of its file and the file's contents.
#[derive(Debug, PartialEq, Eq)]
pub struct ApplicationTemplateDescriptor {
    /// Module that declares the template.
    pub module: String,
    /// Project-relative path of the file.
    pub path: String,
    /// Contents of the file.
    pub source: String,
}

/// A module and the path of one of its templates.
#[derive(Debug, PartialEq, Eq)]
pub struct TemplateId {
    /// Module identifier.
    pub module: String,
    /// Project-relative path.
    pub path: String,
}

impl Keyed for TemplateId {
    type Model = (Seq<char>, Seq<char>);

    open spec fn model(&self) -> (Seq<char>, Seq<char>) {
        (self.module@, self.path@)
    }

    open spec fn key(model: (Seq<char>, Seq<char>)) -> Seq<u32> {
        text_key(model.0) + text_key(model.1)
    }

    fn key_codes(&self) -> (result: Vec<u32>) {
        let mut key: Vec<u32> = Vec::new();
        push_text_key(&mut key, self.module.as_str());
        push_text_key(&mut key, self.path.as_str());
        assert(key@ =~= text_key(self.module@) + text_key(self.path@));
        key
    }

    fn duplicate(&self) -> (copy: Self) {
        TemplateId { module: self.module.clone(), path: self.path.clone() }
    }
}

impl Distinct for TemplateId {
    proof fn key_injective(left: (Seq<char>, Seq<char>), right: (Seq<char>, Seq<char>)) {
        lemma_text_key_split(left.0, text_key(left.1), right.0, text_key(right.1));
        let none = Seq::<u32>::empty();
        assert(text_key(left.1) + none =~= text_key(left.1));
        assert(text_key(right.1) + none =~= text_key(right.1));
        lemma_text_key_split(left.1, none, right.1, none);
    }
}

// Paths.
/// The place of the last full stop among the first `count` characters, or -1.
pub open spec fn last_stop(name: Seq<char>, count: int) -> int
    decreases count,
{
    if count <= 0 {
        -1
    } else if name[count - 1] == '.' {
        count - 1
    } else {
        last_stop(name, count - 1)
    }
}

/// The extension of a file name: what follows the last full stop, unless nothing precedes it.
pub open spec fn extension_of(name: Seq<char>) -> Option<Seq<char>> {
    let stop = last_stop(name, name.len() as int);
    if stop <= 0 {
        None
    } else {
        Some(name.skip(stop + 1))
    }
}

/// Whether an extension is `sql`, in letters of either case.
pub open spec fn is_sql(extension: Seq<char>) -> bool {
    &&& extension.len() == 3
    &&& extension[0] == 's' || extension[0] == 'S'
    &&& extension[1] == 'q' || extension[1] == 'Q'
    &&& extension[2] == 'l' || extension[2] == 'L'
}

/// Whether a path lies in a part of the project that templates must not touch.
pub open spec fn crosses_boundary(path: Seq<char>) -> bool {
    ||| path == ".sqlx"@
    ||| ".sqlx/"@.is_prefix_of(path)
    ||| "crates/"@.is_prefix_of(path)
    ||| "migrations/"@.is_prefix_of(path)
    ||| "specs/"@.is_prefix_of(path)
    ||| "templates/"@.is_prefix_of(path)
    ||| is_sql_name(name_of(path))
}

/// Why a path cannot be that of a template.
pub open spec fn template_path_defect(path: Seq<char>) -> Option<Seq<char>> {
    match relative_path_defect(path) {
        Some(reason) => Some(reason),
        None => if crosses_boundary(path) {
            Some(
                "application template path `"@ + path
                    + "` crosses the thin application boundary"@,
            )
        } else {
            None
        },
    }
}

/// Whether a file name has the extension `sql`, in letters of either case.
pub open spec fn is_sql_name(name: Seq<char>) -> bool {
    extension_of(name) matches Some(extension) && is_sql(extension)
}

/// Returns whether a file name has the extension `sql`, in letters of either case.
pub fn has_sql_name(name: &str) -> (found: bool)
    ensures
        found == is_sql_name(name@),
{
    let chars = chars_of(name);
    let length: usize = chars.len();
    let mut count: usize = length;
    while count > 0 && chars[count - 1] != '.'
        invariant
            chars@ == name@,
            length == chars@.len(),
            count <= length,
            last_stop(name@, length as int) == last_stop(name@, count as int),
        decreases count,
    {
        count -= 1;
    }
    if count <= 1 {
        return false;
    }
    assert(last_stop(name@, length as int) == count - 1);
    let ghost extension = name@.skip(count as int);
    if length - count != 3 {
        return false;
    }
    assert(extension[0] == chars@[count as int]);
    assert(extension[1] == chars@[count + 1]);
    assert(extension[2] == chars@[count + 2]);
    (chars[count] == 's' || chars[count] == 'S') && (chars[count + 1] == 'q' || chars[count + 1]
        == 'Q') && (chars[count + 2] == 'l' || chars[count + 2] == 'L')
}

/// Checks that a path can be that of a template.
pub fn validate_application_template_path(path: &str) -> (result: Result<(), String>)
    ensures
        match result {
            Ok(()) => template_path_defect(path@) is None,
            Err(message) => template_path_defect(path@) == Some(message@),
        },
{
    match validate_relative_path(path) {
        Ok(()) => {},
        Err(reason) => {
            return Err(reason.to_owned());
        },
    }
    let parts = split_parent_name(path);
    let forbidden = same_text(path, ".sqlx") || starts_with(path, ".sqlx/") || starts_with(
        path,
        "crates/",
    ) || starts_with(path, "migrations/") || starts_with(path, "specs/") || starts_with(
        path,
        "templates/",
    ) || has_sql_name(parts.1.as_str());
    if forbidden {
        return Err(
            join3(
                "application template path `",
                path,
                "` crosses the thin application boundary",
            ),
        );
    }
    Ok(())
}

// Lookup.
/// The place, from `at` on, of the first template of a module with a path.
pub open spec fn template_place(
    descriptors: Seq<ApplicationTemplateDescriptor>,
    module: Seq<char>,
    path: Seq<char>,
    at: int,
) -> int
    decreases descriptors.len() - at,
{
    if at < 0 || at >= descriptors.len() || (descriptors[at].module@ == module
        && descriptors[at].path@ == path) {
        at
    } else {
        template_place(descriptors, module, path, at + 1)
    }
}

/// Finds the first template of a module with a path.
pub fn application_template<'a>(
    descriptors: &'a Vec<ApplicationTemplateDescriptor>,
    module: &str,
    path: &str,
) -> (found: Option<&'a ApplicationTemplateDescriptor>)
    ensures
        ({
            let place = template_place(descriptors@, module@, path@, 0);
            match found {
                Some(descriptor) => place < descriptors@.len() && *descriptor
                    == descriptors@[place] && descriptor.module@ == module@ && descriptor.path@
                    == path@,
                None => place == descriptors@.len(),
            }
        }),
{
    let mut index: usize = 0;
    while index < descriptors.len()
        invariant
            index <= descriptors@.len(),
            template_place(descriptors@, module@, path@, 0) == template_place(
                descriptors@,
                module@,
                path@,
                index as int,
            ),
        decreases descriptors@.len() - index,
    {
        if same_text(descriptors[index].module.as_str(), module) && same_text(
            descriptors[index].path.as_str(),
            path,
        ) {
            return Some(&descriptors[index]);
        }
        index += 1;
    }
    None
}

// Catalog.
/// The identities of templates.
pub open spec fn embedded_ids(descriptors: Seq<ApplicationTemplateDescriptor>) -> Seq<
    (Seq<char>, Seq<char>),
> {
    descriptors.map_values(
        |descriptor: ApplicationTemplateDescriptor| (descriptor.module@, descriptor.path@),
    )
}

/// The identities of the templates that the first `count` modules declare.
pub open spec fn declared_ids(modules: Seq<ModuleDefinition>, count: int) -> Seq<
    (Seq<char>, Seq<char>),
>
    decreases count,
{
    if count <= 0 {
        Seq::empty()
    } else {
        declared_ids(modules, count - 1) + module_ids(modules[count - 1])
    }
}

/// The identities of the templates that a module declares.
pub open spec fn module_ids(module: ModuleDefinition) -> Seq<(Seq<char>, Seq<char>)> {
    module.application_templates@.map_values(|path: String| (module.id@, path@))
}

/// What is wrong with the first `count` embedded templates.
pub open spec fn embedded_defect(ids: Seq<(Seq<char>, Seq<char>)>, count: int) -> Option<
    Seq<char>,
>
    decreases count,
{
    if count <= 0 {
        None
    } else {
        let id = ids[count - 1];
        let earlier = ids.take(count - 1);
        or_else(
            embedded_defect(ids, count - 1),
            or_else(
                template_path_defect(id.1),
                if earlier.contains(id) {
                    Some(
                        "duplicate embedded application template `"@ + id.1 + "` for module `"@
                            + id.0 + "`"@,
                    )
                } else if exists|i: int|
                    0 <= i < earlier.len() && (#[trigger] earlier[i]).1 == id.1 {
                    Some(
                        "application template `"@ + id.1
                            + "` is assigned to more than one module"@,
                    )
                } else {
                    None
                },
            ),
        )
    }
}

/// What is wrong with the first `count` declared templates.
pub open spec fn declared_defect(ids: Seq<(Seq<char>, Seq<char>)>, count: int) -> Option<
    Seq<char>,
>
    decreases count,
{
    if count <= 0 {
        None
    } else {
        let id = ids[count - 1];
        or_else(
            declared_defect(ids, count - 1),
            or_else(
                template_path_defect(id.1),
                if ids.take(count - 1).contains(id) {
                    Some(
                        "module `"@ + id.0 + "` declares application template `"@ + id.1
                            + "` more than once"@,
                    )
                } else {
                    None
                },
            ),
        )
    }
}

/// Those of `left` that are not in `right`, in order.
pub open spec fn only_in(left: Seq<(Seq<char>, Seq<char>)>, right: Seq<(Seq<char>, Seq<char>)>) -> Seq<
    (Seq<char>, Seq<char>),
> {
    sorted_listing::<TemplateId>(left.filter(|id: (Seq<char>, Seq<char>)| !right.contains(id)))
}

/// What is wrong with a catalog's templates; a missing one is named in the order of modules and
/// paths.
pub open spec fn template_catalog_defect(
    descriptors: Seq<ApplicationTemplateDescriptor>,
    modules: Seq<ModuleDefinition>,
) -> Option<Seq<char>> {
    let embedded = embedded_ids(descriptors);
    let declared = declared_ids(modules, modules.len() as int);
    let unknown = only_in(declared, embedded);
    let unused = only_in(embedded, declared);
    or_else(
        embedded_defect(embedded, embedded.len() as int),
        or_else(
            declared_defect(declared, declared.len() as int),
            if unknown.len() > 0 {
                Some(
                    "module `"@ + unknown[0].0 + "` declares application template `"@
                        + unknown[0].1 + "` without embedded bytes"@,
                )
            } else if unused.len() > 0 {
                Some(
                    "embedded application template `"@ + unused[0].1
                        + "` is not declared by module `"@ + unused[0].0 + "`"@,
                )
            } else {
                None
            },
        ),
    )
}

proof fn lemma_embedded_stays(ids: Seq<(Seq<char>, Seq<char>)>, count: int, total: int)
    requires
        embedded_defect(ids, count) is Some,
        count <= total,
    ensures
        embedded_defect(ids, total) == embedded_defect(ids, count),
    decreases total - count,
{
    if count < total {
        lemma_embedded_stays(ids, count, total - 1);
    }
}

proof fn lemma_declared_stays(ids: Seq<(Seq<char>, Seq<char>)>, count: int, total: int)
    requires
        declared_defect(ids, count) is Some,
        count <= total,
    ensures
        declared_defect(ids, total) == declared_defect(ids, count),
    decreases total - count,
{
    if count < total {
        lemma_declared_stays(ids, count, total - 1);
    }
}

/// What two lists of declarations have in common at their beginning is judged alike.
proof fn lemma_declared_prefix(
    ids: Seq<(Seq<char>, Seq<char>)>,
    more: Seq<(Seq<char>, Seq<char>)>,
    count: int,
)
    requires
        0 <= count <= ids.len(),
        count <= more.len(),
        ids.take(count) == more.take(count),
    ensures
        declared_defect(ids, count) == declared_defect(more, count),
    decreases count,
{
    if count > 0 {
        assert(ids.take(count - 1) =~= ids.take(count).take(count - 1));
        assert(more.take(count - 1) =~= more.take(count).take(count - 1));
        assert(ids[count - 1] == ids.take(count)[count - 1]);
        assert(more[count - 1] == more.take(count)[count - 1]);
        lemma_declared_prefix(ids, more, count - 1);
    }
}

proof fn lemma_declared_grow(modules: Seq<ModuleDefinition>, count: int, total: int)
    requires
        0 <= count <= total <= modules.len(),
    ensures
        declared_ids(modules, count).is_prefix_of(declared_ids(modules, total)),
    decreases total - count,
{
    if count < total {
        lemma_declared_grow(modules, count, total - 1);
        let shorter = declared_ids(modules, total - 1);
        assert(shorter.is_prefix_of(shorter + module_ids(modules[total - 1])));
        assert(declared_ids(modules, count) =~= declared_ids(modules, total).subrange(
            0,
            declared_ids(modules, count).len() as int,
        ));
    } else {
        assert(declared_ids(modules, count) =~= declared_ids(modules, total).subrange(
            0,
            declared_ids(modules, count).len() as int,
        ));
    }
}

proof fn lemma_taken(ids: Seq<(Seq<char>, Seq<char>)>, at: int)
    requires
        0 <= at < ids.len(),
    ensures
        forall|value: (Seq<char>, Seq<char>)| #[trigger]
            ids.take(at + 1).contains(value) <==> ids.take(at).contains(value) || value == ids[at],
{
    let more = ids.take(at + 1);
    let seen = ids.take(at);
    assert(more =~= seen.push(ids[at]));
    assert forall|value: (Seq<char>, Seq<char>)| #[trigger]
        more.contains(value) <==> seen.contains(value) || value == ids[at] by {
        if seen.contains(value) {
            let k = choose|k: int| 0 <= k < seen.len() && seen[k] == value;
            assert(more[k] == value);
        }
        if value == ids[at] {
            assert(more[at] == value);
        }
        if more.contains(value) {
            let k = choose|k: int| 0 <= k < more.len() && more[k] == value;
            if k < at {
                assert(seen[k] == value);
            }
        }
    }
}

/// The listing of those of `left` that are not in `right` holds exactly them.
proof fn lemma_only_in(left: Seq<(Seq<char>, Seq<char>)>, right: Seq<(Seq<char>, Seq<char>)>)
    ensures
        is_difference::<TemplateId>(only_in(left, right), left, right),
{
    let keeps = |id: (Seq<char>, Seq<char>)| !right.contains(id);
    let kept = left.filter(keeps);
    lemma_listing_exists::<TemplateId>(kept);
    assert forall|value: (Seq<char>, Seq<char>)| #[trigger]
        only_in(left, right).contains(value) <==> left.contains(value) && !right.contains(value) by {
        assert(only_in(left, right).contains(value) <==> kept.contains(value));
        if kept.contains(value) {
            left.lemma_filter_contains_rev(keeps, value);
            let k = choose|k: int| 0 <= k < kept.len() && kept[k] == value;
            left.lemma_filter_pred(keeps, k);
        }
        if left.contains(value) && !right.contains(value) {
            let k = choose|k: int| 0 <= k < left.len() && left[k] == value;
            left.lemma_filter_contains(keeps, k);
        }
    }
}

fn add_id(set: &mut Sorted<TemplateId>, module: &str, path: &str) -> (added: bool)
    ensures
        added == !old(set)@.contains((module@, path@)),
        forall|value: (Seq<char>, Seq<char>)| #[trigger]
            final(set)@.contains(value) <==> old(set)@.contains(value) || value == (
                module@,
                path@,
            ),
{
    proof {
        lemma_holds_value::<TemplateId>(set@, (module@, path@));
    }
    let id = TemplateId { module: module.to_owned(), path: path.to_owned() };
    assert(id.model() == (module@, path@));
    set.insert(id)
}

fn first_missing(
    left: &Sorted<TemplateId>,
    right: &Sorted<TemplateId>,
    Ghost(left_ids): Ghost<Seq<(Seq<char>, Seq<char>)>>,
    Ghost(right_ids): Ghost<Seq<(Seq<char>, Seq<char>)>>,
) -> (found: Option<TemplateId>)
    requires
        forall|value: (Seq<char>, Seq<char>)| #[trigger]
            left@.contains(value) <==> left_ids.contains(value),
        forall|value: (Seq<char>, Seq<char>)| #[trigger]
            right@.contains(value) <==> right_ids.contains(value),
    ensures
        ({
            let rest = only_in(left_ids, right_ids);
            match found {
                Some(id) => rest.len() > 0 && id.model() == rest[0],
                None => rest.len() == 0,
            }
        }),
{
    let rest = difference(left, right);
    proof {
        assert forall|value: (Seq<char>, Seq<char>)| #[trigger]
            rest@.contains(value) <==> left_ids.contains(value) && !right_ids.contains(value) by {
            assert(rest@.contains(value) <==> left@.contains(value) && !right@.contains(value));
        }
        let other = only_in(left_ids, right_ids);
        lemma_only_in(left_ids, right_ids);
        assert forall|value: (Seq<char>, Seq<char>)| #[trigger]
            rest@.contains(value) <==> other.contains(value) by {
            assert(other.contains(value) <==> left_ids.contains(value) && !right_ids.contains(
                value,
            ));
        }
        lemma_ascending_extensional::<TemplateId>(rest@, other);
    }
    if rest.len() > 0 {
        Some(rest.at(0).duplicate())
    } else {
        None
    }
}

fn collect_embedded(descriptors: &Vec<ApplicationTemplateDescriptor>) -> (result: Result<
    Sorted<TemplateId>,
    String,
>)
    ensures
        ({
            let ids = embedded_ids(descriptors@);
            match result {
                Ok(set) => {
                    &&& embedded_defect(ids, ids.len() as int) is None
                    &&& forall|value: (Seq<char>, Seq<char>)| #[trigger]
                        set@.contains(value) <==> ids.contains(value)
                },
                Err(message) => embedded_defect(ids, ids.len() as int) == Some(message@),
            }
        }),
{
    let ghost ids = embedded_ids(descriptors@);
    let ghost total = ids.len() as int;
    let mut embedded: Sorted<TemplateId> = Sorted::new();
    let mut embedded_paths: TextSet = Sorted::new();
    let mut index: usize = 0;
    while index < descriptors.len()
        invariant
            ids == embedded_ids(descriptors@),
            total == ids.len(),
            index <= total,
            embedded_defect(ids, index as int) is None,
            forall|value: (Seq<char>, Seq<char>)| #[trigger]
                embedded@.contains(value) <==> ids.take(index as int).contains(value),
            forall|path: Seq<char>| #[trigger]
                embedded_paths@.contains(path) <==> exists|i: int|
                    0 <= i < index && (#[trigger] ids[i]).1 == path,
        decreases total - index,
    {
        let module = descriptors[index].module.as_str();
        let path = descriptors[index].path.as_str();
        let ghost earlier = ids.take(index as int);
        let ghost known = embedded@;
        let ghost paths = embedded_paths@;
        proof {
            assert(ids[index as int] == (module@, path@));
            lemma_taken(ids, index as int);
            if embedded_defect(ids, index + 1) is Some {
                lemma_embedded_stays(ids, index + 1, total);
            }
            assert(ids.take(index + 1 - 1) == earlier);
            assert((exists|i: int| 0 <= i < earlier.len() && (#[trigger] earlier[i]).1 == path@)
                <==> exists|i: int| 0 <= i < index && (#[trigger] ids[i]).1 == path@) by {
                if exists|i: int| 0 <= i < index && (#[trigger] ids[i]).1 == path@ {
                    let i = choose|i: int| 0 <= i < index && (#[trigger] ids[i]).1 == path@;
                    assert(earlier[i].1 == path@);
                }
                if exists|i: int| 0 <= i < earlier.len() && (#[trigger] earlier[i]).1 == path@ {
                    let i = choose|i: int|
                        0 <= i < earlier.len() && (#[trigger] earlier[i]).1 == path@;
                    assert(ids[i].1 == path@);
                }
            }
        }
        match validate_application_template_path(path) {
            Ok(()) => {},
            Err(message) => {
                return Err(message);
            },
        }
        assert(known.contains((module@, path@)) <==> earlier.contains((module@, path@)));
        if !add_id(&mut embedded, module, path) {
            return Err(
                join5(
                    "duplicate embedded application template `",
                    path,
                    "` for module `",
                    module,
                    "`",
                ),
            );
        }
        if !set_add(&mut embedded_paths, path) {
            return Err(
                join3(
                    "application template `",
                    path,
                    "` is assigned to more than one module",
                ),
            );
        }
        proof {
            assert forall|value: (Seq<char>, Seq<char>)| #[trigger]
                embedded@.contains(value) <==> ids.take(index + 1).contains(value) by {
                assert(known.contains(value) <==> earlier.contains(value));
            }
            assert forall|other: Seq<char>| #[trigger]
                embedded_paths@.contains(other) <==> exists|i: int|
                    0 <= i < index + 1 && (#[trigger] ids[i]).1 == other by {
                assert(paths.contains(other) <==> exists|i: int|
                    0 <= i < index && (#[trigger] ids[i]).1 == other);
                if other == path@ {
                    assert(ids[index as int].1 == other);
                }
            }
        }
        index += 1;
    }
    assert(ids.take(index as int) =~= ids);
    Ok(embedded)
}

fn add_declared(
    module: &ModuleDefinition,
    declared: &mut Sorted<TemplateId>,
    Ghost(earlier): Ghost<Seq<(Seq<char>, Seq<char>)>>,
) -> (result: Result<(), String>)
    requires
        declared_defect(earlier, earlier.len() as int) is None,
        forall|value: (Seq<char>, Seq<char>)| #[trigger]
            old(declared)@.contains(value) <==> earlier.contains(value),
    ensures
        ({
            let ids = earlier + module_ids(*module);
            match result {
                Ok(()) => {
                    &&& declared_defect(ids, ids.len() as int) is None
                    &&& forall|value: (Seq<char>, Seq<char>)| #[trigger]
                        final(declared)@.contains(value) <==> ids.contains(value)
                },
                Err(message) => declared_defect(ids, ids.len() as int) == Some(message@),
            }
        }),
{
    let ghost ids = earlier + module_ids(*module);
    let ghost total = ids.len() as int;
    let ghost start = earlier.len() as int;
    proof {
        assert(ids.take(start) =~= earlier);
        assert(earlier.take(start) =~= earlier);
        lemma_declared_prefix(earlier, ids, start);
    }
    let mut index: usize = 0;
    while index < module.application_templates.len()
        invariant
            ids == earlier + module_ids(*module),
            total == ids.len(),
            start == earlier.len(),
            index <= module.application_templates@.len(),
            declared_defect(ids, start + index) is None,
            forall|value: (Seq<char>, Seq<char>)| #[trigger]
                declared@.contains(value) <==> ids.take(start + index).contains(value),
        decreases module.application_templates@.len() - index,
    {
        let path = module.application_templates[index].as_str();
        let ghost at = start + index;
        let ghost known = declared@;
        proof {
            assert(ids[at] == module_ids(*module)[index as int]);
            assert(ids[at] == (module.id@, path@));
            lemma_taken(ids, at);
            if declared_defect(ids, at + 1) is Some {
                lemma_declared_stays(ids, at + 1, total);
            }
            assert(ids.take(at + 1 - 1) == ids.take(at));
        }
        match validate_application_template_path(path) {
            Ok(()) => {},
            Err(message) => {
                return Err(message);
            },
        }
        assert(known.contains((module.id@, path@)) <==> ids.take(at).contains((module.id@, path@)));
        if !add_id(declared, module.id.as_str(), path) {
            return Err(
                join5(
                    "module `",
                    module.id.as_str(),
                    "` declares application template `",
                    path,
                    "` more than once",
                ),
            );
        }
        proof {
            assert forall|value: (Seq<char>, Seq<char>)| #[trigger]
                declared@.contains(value) <==> ids.take(at + 1).contains(value) by {
                assert(known.contains(value) <==> ids.take(at).contains(value));
            }
        }
        index += 1;
    }
    assert(ids.take(start + index) =~= ids);
    Ok(())
}

/// Checks that the embedded templates are exactly those that a catalog's modules declare.
pub fn validate_application_template_catalog(
    descriptors: &Vec<ApplicationTemplateDescriptor>,
    catalog: &ModuleCatalog,
) -> (result: Result<(), String>)
    ensures
        match result {
            Ok(()) => template_catalog_defect(descriptors@, catalog.modules@) is None,
            Err(message) => template_catalog_defect(descriptors@, catalog.modules@) == Some(
                message@,
            ),
        },
{
    let embedded = match collect_embedded(descriptors) {
        Ok(embedded) => embedded,
        Err(message) => {
            return Err(message);
        },
    };
    let ghost modules = catalog.modules@;
    let ghost total = modules.len() as int;
    let ghost all = declared_ids(modules, total);
    let mut declared: Sorted<TemplateId> = Sorted::new();
    let mut index: usize = 0;
    while index < catalog.modules.len()
        invariant
            modules == catalog.modules@,
            total == modules.len(),
            all == declared_ids(modules, total),
            index <= total,
            embedded_defect(embedded_ids(descriptors@), descriptors@.len() as int) is None,
            declared_defect(
                declared_ids(modules, index as int),
                declared_ids(modules, index as int).len() as int,
            ) is None,
            forall|value: (Seq<char>, Seq<char>)| #[trigger]
                declared@.contains(value) <==> declared_ids(modules, index as int).contains(value),
        decreases total - index,
    {
        let ghost earlier = declared_ids(modules, index as int);
        match add_declared(&catalog.modules[index], &mut declared, Ghost(earlier)) {
            Ok(()) => {},
            Err(message) => {
                proof {
                    let ids = declared_ids(modules, index + 1);
                    let length = ids.len() as int;
                    lemma_declared_grow(modules, index + 1, total);
                    assert(ids.take(length) =~= all.take(length));
                    lemma_declared_prefix(ids, all, length);
                    lemma_declared_stays(all, length, all.len() as int);
                }
                return Err(message);
            },
        }
        index += 1;
    }
    let ghost embedded_list = embedded_ids(descriptors@);
    if let Some(id) = first_missing(&declared, &embedded, Ghost(all), Ghost(embedded_list)) {
        return Err(
            join5(
                "module `",
                id.module.as_str(),
                "` declares application template `",
                id.path.as_str(),
                "` without embedded bytes",
            ),
        );
    }
    if let Some(id) = first_missing(&embedded, &declared, Ghost(embedded_list), Ghost(all)) {
        return Err(
            join5(
                "embedded application template `",
                id.path.as_str(),
                "` is not declared by module `",
                id.module.as_str(),
                "`",
            ),
        );
    }
    Ok(())
}

/// A catalog whose templates pass the check has for every declared template its contents, and
/// every embedded template is declared.
pub proof fn lemma_templates_match(
    descriptors: Seq<ApplicationTemplateDescriptor>,
    modules: Seq<ModuleDefinition>,
)
    requires
        template_catalog_defect(descriptors, modules) is None,
    ensures
        forall|id: (Seq<char>, Seq<char>)| #[trigger]
            declared_ids(modules, modules.len() as int).contains(id) <==> embedded_ids(
                descriptors,
            ).contains(id),
{
    let declared = declared_ids(modules, modules.len() as int);
    let embedded = embedded_ids(descriptors);
    lemma_only_in(declared, embedded);
    lemma_only_in(embedded, declared);
    assert forall|id: (Seq<char>, Seq<char>)| #[trigger]
        declared.contains(id) <==> embedded.contains(id) by {
        if declared.contains(id) && !embedded.contains(id) {
            assert(only_in(declared, embedded).contains(id));
        }
        if embedded.contains(id) && !declared.contains(id) {
            assert(only_in(embedded, declared).contains(id));
        }
    }
}

} // verus!
