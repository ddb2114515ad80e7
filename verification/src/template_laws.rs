//! What a valid catalog of application templates holds.

use vstd::prelude::*;
use vstd::string::*;

use crate::application_templates::{
    declared_defect, declared_ids, embedded_defect, embedded_ids, extension_of, is_sql_name,
    last_stop, lemma_templates_match, module_ids, template_catalog_defect, template_path_defect,
    ApplicationTemplateDescriptor,
};
use crate::journal_laws::{is_portable, lemma_portable};
use crate::modules::ModuleDefinition;
use crate::paths::name_of;

verus! {

/// Whether a file name ends with a full stop and `sql` in letters of either case, behind at least
/// one character.
pub open spec fn is_sql_file(name: Seq<char>) -> bool {
    let end = name.len();
    &&& end > 4
    &&& name[end - 4] == '.'
    &&& name[end - 3] == 's' || name[end - 3] == 'S'
    &&& name[end - 2] == 'q' || name[end - 2] == 'Q'
    &&& name[end - 1] == 'l' || name[end - 1] == 'L'
}

proof fn lemma_stop(name: Seq<char>, count: int)
    requires
        0 <= count <= name.len(),
    ensures
        -1 <= last_stop(name, count) < count,
        last_stop(name, count) >= 0 ==> name[last_stop(name, count)] == '.',
        forall|i: int| last_stop(name, count) < i < count ==> #[trigger] name[i] != '.',
    decreases count,
{
    if count > 0 && name[count - 1] != '.' {
        lemma_stop(name, count - 1);
    }
}

pub(crate) proof fn lemma_sql_file(name: Seq<char>)
    ensures
        is_sql_name(name) <==> is_sql_file(name),
{
    lemma_stop(name, name.len() as int);
    let stop = last_stop(name, name.len() as int);
    if is_sql_name(name) {
        let extension = extension_of(name)->Some_0;
        assert(extension.len() == name.len() - stop - 1);
        assert(extension[0] == name[stop + 1] && extension[1] == name[stop + 2] && extension[2]
            == name[stop + 3]);
    }
    if is_sql_file(name) {
        let end = name.len() as int;
        assert(stop == end - 4) by {
            if stop < end - 4 {
                assert(name[end - 4] != '.');
            }
        }
        let extension = name.skip(stop + 1);
        assert(extension[0] == name[end - 3] && extension[1] == name[end - 2] && extension[2]
            == name[end - 1]);
    }
}

/// Whether a path can be that of a template: portable, outside the parts of a project that belong
/// to the framework or to the database, and no SQL.
pub open spec fn is_template_path(path: Seq<char>) -> bool {
    &&& is_portable(path)
    &&& path != ".sqlx"@
    &&& !".sqlx/"@.is_prefix_of(path)
    &&& !"crates/"@.is_prefix_of(path)
    &&& !"migrations/"@.is_prefix_of(path)
    &&& !"specs/"@.is_prefix_of(path)
    &&& !"templates/"@.is_prefix_of(path)
    &&& !is_sql_file(name_of(path))
}

/// A path is accepted for a template if and only if it can be one's.
pub proof fn lemma_template_path(path: Seq<char>)
    ensures
        template_path_defect(path) is None <==> is_template_path(path),
{
    lemma_portable(path);
    lemma_sql_file(name_of(path));
}

proof fn lemma_embedded(ids: Seq<(Seq<char>, Seq<char>)>, count: int)
    requires
        0 <= count <= ids.len(),
    ensures
        embedded_defect(ids, count) is None <==> {
            &&& forall|i: int| 0 <= i < count ==> is_template_path((#[trigger] ids[i]).1)
            &&& forall|i: int, j: int|
                0 <= i < j < count ==> (#[trigger] ids[i]).1 != (#[trigger] ids[j]).1
        },
    decreases count,
{
    if count > 0 {
        lemma_embedded(ids, count - 1);
        let id = ids[count - 1];
        let earlier = ids.take(count - 1);
        lemma_template_path(id.1);
        assert((exists|i: int| 0 <= i < earlier.len() && (#[trigger] earlier[i]).1 == id.1)
            <==> exists|i: int| 0 <= i < count - 1 && (#[trigger] ids[i]).1 == id.1) by {
            if exists|i: int| 0 <= i < count - 1 && (#[trigger] ids[i]).1 == id.1 {
                let i = choose|i: int| 0 <= i < count - 1 && (#[trigger] ids[i]).1 == id.1;
                assert(earlier[i] == ids[i]);
            }
            if exists|i: int| 0 <= i < earlier.len() && (#[trigger] earlier[i]).1 == id.1 {
                let i = choose|i: int| 0 <= i < earlier.len() && (#[trigger] earlier[i]).1 == id.1;
                assert(earlier[i] == ids[i]);
            }
        }
        if earlier.contains(id) {
            let k = choose|k: int| 0 <= k < earlier.len() && earlier[k] == id;
            assert(earlier[k].1 == id.1);
        }
    }
}

proof fn lemma_declared(ids: Seq<(Seq<char>, Seq<char>)>, count: int)
    requires
        0 <= count <= ids.len(),
    ensures
        declared_defect(ids, count) is None <==> {
            &&& forall|i: int| 0 <= i < count ==> is_template_path((#[trigger] ids[i]).1)
            &&& forall|i: int, j: int|
                0 <= i < j < count ==> #[trigger] ids[i] != #[trigger] ids[j]
        },
    decreases count,
{
    if count > 0 {
        lemma_declared(ids, count - 1);
        let id = ids[count - 1];
        let earlier = ids.take(count - 1);
        lemma_template_path(id.1);
        assert(earlier.contains(id) <==> exists|i: int|
            0 <= i < count - 1 && #[trigger] ids[i] == id) by {
            if earlier.contains(id) {
                let k = choose|k: int| 0 <= k < earlier.len() && earlier[k] == id;
                assert(ids[k] == id);
            }
            if exists|i: int| 0 <= i < count - 1 && #[trigger] ids[i] == id {
                let i = choose|i: int| 0 <= i < count - 1 && #[trigger] ids[i] == id;
                assert(earlier[i] == id);
            }
        }
    }
}

/// Whether a module declares a template.
pub open spec fn declares_template(
    modules: Seq<ModuleDefinition>,
    id: Seq<char>,
    path: Seq<char>,
) -> bool {
    exists|i: int, j: int|
        #![trigger modules[i].application_templates@[j]]
        0 <= i < modules.len() && 0 <= j < modules[i].application_templates@.len()
            && modules[i].id@ == id && modules[i].application_templates@[j]@ == path
}

/// Whether a template is embedded for a module.
pub open spec fn embeds(
    descriptors: Seq<ApplicationTemplateDescriptor>,
    id: Seq<char>,
    path: Seq<char>,
) -> bool {
    exists|k: int|
        0 <= k < descriptors.len() && (#[trigger] descriptors[k]).module@ == id
            && descriptors[k].path@ == path
}

/// Where the templates of a catalog are accepted, every template that a module declares is embedded
/// once, under a path that no other template has; nothing else is embedded, and every path can be a
/// template's.
pub proof fn lemma_valid_templates(
    descriptors: Seq<ApplicationTemplateDescriptor>,
    modules: Seq<ModuleDefinition>,
)
    requires
        template_catalog_defect(descriptors, modules) is None,
    ensures
        forall|i: int|
            0 <= i < descriptors.len() ==> is_template_path((#[trigger] descriptors[i]).path@)
                && declares_template(modules, descriptors[i].module@, descriptors[i].path@),
        forall|i: int, j: int|
            0 <= i < j < descriptors.len() ==> (#[trigger] descriptors[i]).path@ != (
            #[trigger] descriptors[j]).path@,
        forall|i: int, j: int|
            #![trigger modules[i].application_templates@[j]]
            0 <= i < modules.len() && 0 <= j < modules[i].application_templates@.len() ==> embeds(
                descriptors,
                modules[i].id@,
                modules[i].application_templates@[j]@,
            ),
{
    let embedded = embedded_ids(descriptors);
    let declared = declared_ids(modules, modules.len() as int);
    lemma_embedded(embedded, embedded.len() as int);
    lemma_declared(declared, declared.len() as int);
    lemma_templates_match(descriptors, modules);
    lemma_declared_ids(modules, modules.len() as int);
    assert forall|i: int| 0 <= i < descriptors.len() implies is_template_path(
        (#[trigger] descriptors[i]).path@,
    ) && declares_template(modules, descriptors[i].module@, descriptors[i].path@) by {
        assert(is_template_path(embedded[i].1));
        assert(embedded.contains(embedded[i]));
        assert(declared.contains(embedded[i]));
    }
    assert forall|i: int, j: int| 0 <= i < j < descriptors.len() implies (
    #[trigger] descriptors[i]).path@ != (#[trigger] descriptors[j]).path@ by {
        assert(embedded[i].1 != embedded[j].1);
    }
    assert forall|i: int, j: int|
        #![trigger modules[i].application_templates@[j]]
        0 <= i < modules.len() && 0 <= j < modules[i].application_templates@.len() implies embeds(
        descriptors,
        modules[i].id@,
        modules[i].application_templates@[j]@,
    ) by {
        let id = (modules[i].id@, modules[i].application_templates@[j]@);
        assert(declares_template(modules, id.0, id.1));
        assert(declared.contains(id));
        assert(embedded.contains(id));
        let k = choose|k: int| 0 <= k < embedded.len() && embedded[k] == id;
        assert(descriptors[k].module@ == modules[i].id@);
    }
}

proof fn lemma_declared_ids(modules: Seq<ModuleDefinition>, count: int)
    requires
        0 <= count <= modules.len(),
    ensures
        forall|id: (Seq<char>, Seq<char>)| #[trigger]
            declared_ids(modules, count).contains(id) <==> exists|i: int, j: int|
                #![trigger modules[i].application_templates@[j]]
                0 <= i < count && 0 <= j < modules[i].application_templates@.len()
                    && modules[i].id@ == id.0 && modules[i].application_templates@[j]@ == id.1,
    decreases count,
{
    if count > 0 {
        lemma_declared_ids(modules, count - 1);
        let before = declared_ids(modules, count - 1);
        let own = module_ids(modules[count - 1]);
        let now = declared_ids(modules, count);
        assert(now == before + own);
        assert forall|id: (Seq<char>, Seq<char>)| #[trigger] now.contains(id) <==> exists|
            i: int,
            j: int,
        |
            #![trigger modules[i].application_templates@[j]]
            0 <= i < count && 0 <= j < modules[i].application_templates@.len() && modules[i].id@
                == id.0 && modules[i].application_templates@[j]@ == id.1 by {
            if now.contains(id) {
                let k = choose|k: int| 0 <= k < now.len() && now[k] == id;
                if k < before.len() {
                    assert(before[k] == id);
                    assert(before.contains(id));
                } else {
                    let j = k - before.len();
                    assert(own[j] == id);
                    assert(modules[count - 1].application_templates@[j]@ == id.1);
                }
            }
            if exists|i: int, j: int|
                #![trigger modules[i].application_templates@[j]]
                0 <= i < count && 0 <= j < modules[i].application_templates@.len() && modules[i].id@
                    == id.0 && modules[i].application_templates@[j]@ == id.1 {
                let (i, j) = choose|i: int, j: int|
                    #![trigger modules[i].application_templates@[j]]
                    0 <= i < count && 0 <= j < modules[i].application_templates@.len()
                        && modules[i].id@ == id.0 && modules[i].application_templates@[j]@ == id.1;
                if i < count - 1 {
                    assert(before.contains(id));
                    let k = choose|k: int| 0 <= k < before.len() && before[k] == id;
                    assert(now[k] == id);
                } else {
                    assert(own[j] == id);
                    assert(now[before.len() + j] == id);
                }
            }
        }
    }
}

} // verus!
