//! What extending a module catalog does to its runtime dependencies.

use vstd::prelude::*;
use vstd::string::*;

use crate::catalog_extension::{
    binding_values, contradicts, extension_defect, external_values, is_known, merge_conflict, merged,
    same_descriptor,
};
use crate::modules::{
    descriptor_place, ComposeEnvironmentBinding, ExternalEnvironmentBinding, ModuleCatalog,
    ModuleCatalogExtension, RuntimeDependencyDescriptor,
};
use crate::text::{optional_view, texts};

verus! {

/// Whether two bindings of a Compose service say the same.
pub open spec fn binds_alike(
    left: ComposeEnvironmentBinding,
    right: ComposeEnvironmentBinding,
) -> bool {
    &&& left.name@ == right.name@
    &&& left.value@ == right.value@
    &&& left.secret == right.secret
    &&& left.development_only == right.development_only
}

/// Whether two lists of bindings of a Compose service say the same, in the same order.
pub open spec fn bind_alike(
    left: Seq<ComposeEnvironmentBinding>,
    right: Seq<ComposeEnvironmentBinding>,
) -> bool {
    &&& left.len() == right.len()
    &&& forall|i: int| 0 <= i < left.len() ==> binds_alike(#[trigger] left[i], right[i])
}

/// Whether two lists of bindings of an external service say the same, in the same order.
pub open spec fn name_alike(
    left: Seq<ExternalEnvironmentBinding>,
    right: Seq<ExternalEnvironmentBinding>,
) -> bool {
    &&& left.len() == right.len()
    &&& forall|i: int|
        0 <= i < left.len() ==> (#[trigger] left[i]).name@ == right[i].name@ && left[i].message@
            == right[i].message@ && left[i].credential == right[i].credential
}

/// Descriptors that count as the same agree in all that they say.
pub proof fn lemma_same_descriptor(
    left: RuntimeDependencyDescriptor,
    right: RuntimeDependencyDescriptor,
)
    requires
        same_descriptor(left, right),
    ensures
        left.dependency_id() == right.dependency_id(),
        left is Compose <==> right is Compose,
        left is Compose ==> {
            &&& left->service@ == right->service@
            &&& left->image@ == right->image@
            &&& left->volume@ == right->volume@
            &&& left->volume_mount@ == right->volume_mount@
            &&& texts(left->healthcheck.test@) == texts(right->healthcheck.test@)
            &&& left->healthcheck.interval@ == right->healthcheck.interval@
            &&& left->healthcheck.timeout@ == right->healthcheck.timeout@
            &&& left->healthcheck.retries == right->healthcheck.retries
            &&& bind_alike(left->service_environment@, right->service_environment@)
            &&& bind_alike(left->application_environment@, right->application_environment@)
            &&& left->migration is Some <==> right->migration is Some
            &&& left->migration is Some ==> left->migration->Some_0.required_module@
                == right->migration->Some_0.required_module@ && texts(
                left->migration->Some_0.command@,
            ) == texts(right->migration->Some_0.command@)
        },
        left is External ==> name_alike(left->bindings@, right->bindings@),
{
    if left is Compose {
        lemma_bind_alike(left->service_environment@, right->service_environment@);
        lemma_bind_alike(left->application_environment@, right->application_environment@);
    } else {
        let a = external_values(left->bindings@);
        let b = external_values(right->bindings@);
        assert(a.len() == left->bindings@.len() && b.len() == right->bindings@.len());
        assert forall|i: int| 0 <= i < left->bindings@.len() implies (
        #[trigger] left->bindings@[i]).name@ == right->bindings@[i].name@
            && left->bindings@[i].message@ == right->bindings@[i].message@
            && left->bindings@[i].credential == right->bindings@[i].credential by {
            assert(a[i] == b[i]);
        }
    }
}

proof fn lemma_bind_alike(
    left: Seq<ComposeEnvironmentBinding>,
    right: Seq<ComposeEnvironmentBinding>,
)
    requires
        binding_values(left) == binding_values(
            right,
        ),
    ensures
        bind_alike(left, right),
{
    let a = binding_values(left);
    let b = binding_values(right);
    assert(a.len() == left.len() && b.len() == right.len());
    assert forall|i: int| 0 <= i < left.len() implies binds_alike(#[trigger] left[i], right[i]) by {
        assert(a[i] == b[i]);
    }
}

/// Whether descriptors describe a dependency as a descriptor does: the first that describes it says
/// the same.
pub open spec fn describes(
    descriptors: Seq<RuntimeDependencyDescriptor>,
    descriptor: RuntimeDependencyDescriptor,
) -> bool {
    exists|k: int|
        0 <= k < descriptors.len() && (#[trigger] descriptors[k]).dependency_id()
            == descriptor.dependency_id() && (descriptors[k] == descriptor || same_descriptor(
            descriptors[k],
            descriptor,
        ))
}

proof fn lemma_place(
    descriptors: Seq<RuntimeDependencyDescriptor>,
    descriptor: RuntimeDependencyDescriptor,
    at: int,
)
    requires
        0 <= at <= descriptors.len(),
    ensures
        ({
            let place = descriptor_place(descriptors, descriptor.dependency_id(), at);
            &&& at <= place <= descriptors.len()
            &&& place < descriptors.len() ==> descriptors[place].dependency_id()
                == descriptor.dependency_id()
            &&& forall|i: int|
                at <= i < place ==> (#[trigger] descriptors[i]).dependency_id()
                    != descriptor.dependency_id()
        }),
    decreases descriptors.len() - at,
{
    if at < descriptors.len() && descriptors[at].dependency_id() != descriptor.dependency_id() {
        lemma_place(descriptors, descriptor, at + 1);
    }
}

/// Where nothing contradicts, extending keeps every known descriptor in place, describes every
/// dependency of the extension as the extension does, takes nothing from elsewhere, and describes
/// no dependency twice where none was before.
pub proof fn lemma_merged_descriptors(
    known: Seq<RuntimeDependencyDescriptor>,
    list: Seq<RuntimeDependencyDescriptor>,
    count: int,
)
    requires
        0 <= count <= list.len(),
        merge_conflict(known, list, count) is None,
    ensures
        ({
            let all = merged(known, list, count);
            &&& known.is_prefix_of(all)
            &&& forall|i: int| 0 <= i < count ==> describes(all, #[trigger] list[i])
            &&& forall|k: int|
                known.len() <= k < all.len() ==> exists|i: int|
                    0 <= i < count && #[trigger] list[i] == #[trigger] all[k]
            &&& (forall|i: int, j: int|
                0 <= i < j < known.len() ==> (#[trigger] known[i]).dependency_id() != (
                #[trigger] known[j]).dependency_id()) ==> forall|i: int, j: int|
                0 <= i < j < all.len() ==> (#[trigger] all[i]).dependency_id() != (
                #[trigger] all[j]).dependency_id()
        }),
    decreases count,
{
    if count > 0 {
        lemma_merged_descriptors(known, list, count - 1);
        let before = merged(known, list, count - 1);
        let all = merged(known, list, count);
        let last = list[count - 1];
        lemma_place(before, last, 0);
        let place = descriptor_place(before, last.dependency_id(), 0);
        assert(!contradicts(before, last));
        assert forall|i: int| 0 <= i < count implies describes(all, #[trigger] list[i]) by {
            if i < count - 1 {
                let k = choose|k: int|
                    0 <= k < before.len() && (#[trigger] before[k]).dependency_id()
                        == list[i].dependency_id() && (before[k] == list[i] || same_descriptor(
                        before[k],
                        list[i],
                    ));
                assert(all[k] == before[k]);
            } else if is_known(before, last) {
                assert(same_descriptor(all[place], last));
            } else {
                assert(all[before.len() as int] == last);
            }
        }
        assert forall|k: int| known.len() <= k < all.len() implies exists|i: int|
            0 <= i < count && #[trigger] list[i] == #[trigger] all[k] by {
            if k < before.len() {
                assert(all[k] == before[k]);
                let i = choose|i: int| 0 <= i < count - 1 && #[trigger] list[i] == before[k];
                assert(list[i] == all[k]);
            } else {
                assert(list[count - 1] == all[k]);
            }
        }
        if forall|i: int, j: int|
            0 <= i < j < known.len() ==> (#[trigger] known[i]).dependency_id() != (
            #[trigger] known[j]).dependency_id() {
            assert forall|i: int, j: int| 0 <= i < j < all.len() implies (
            #[trigger] all[i]).dependency_id() != (#[trigger] all[j]).dependency_id() by {
                if j < before.len() {
                    assert(before[i].dependency_id() != before[j].dependency_id());
                } else {
                    assert(before[i].dependency_id() != last.dependency_id());
                }
            }
        }
    }
}

/// An extension fits a catalog if and only if it has the schema of the library and a version, was
/// made for the bundle of the catalog, and, where it builds on the web extension, for that one.
pub proof fn lemma_fitting_extension(
    catalog: ModuleCatalog,
    label: Seq<char>,
    extension: ModuleCatalogExtension,
    required_web: Option<Seq<char>>,
)
    ensures
        extension_defect(catalog, label, extension, required_web) is None <==> {
            &&& extension.schema_version@ == "1.0.0"@
            &&& extension.extension_version@.len() > 0
            &&& extension.base_bundle_version@ == catalog.bundle_version@
            &&& required_web is Some ==> optional_view(extension.web_extension_version)
                == required_web
        },
{
}

} // verus!
