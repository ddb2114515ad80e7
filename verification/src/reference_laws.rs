//! What the reference configuration holds of the selected modules.

use vstd::prelude::*;
use vstd::string::*;

use crate::modules::{ConfigurationField, ModuleCatalog, ModuleDefinition, ValueModel};
use crate::ordered::{codes, lemma_precedes_irreflexive};
use crate::reference_config::{
    field_value, has_key, is_plain_table, is_plain_toml, key_place, keys_in_order, lemma_key_place,
    lemma_with_entry_plain, lemma_with_value_plain, reference_document, reference_table,
    reference_value, table_under, with_entry, with_fields, with_value, TomlModel,
};
use crate::removal_laws::{agree, declares, lemma_declarations, lemma_declared};
use crate::selection::{declared, declared_by, selection_defect, DeclaredModel};
use crate::text::{split_on, text_replaced};

verus! {

// Reading.
/// The value under a key of a table.
pub open spec fn value_under(entries: Seq<(Seq<char>, TomlModel)>, key: Seq<char>) -> Option<
    TomlModel,
> {
    if exists|i: int| 0 <= i < entries.len() && (#[trigger] entries[i]).0 == key {
        Some(entries[choose|i: int| 0 <= i < entries.len() && (#[trigger] entries[i]).0 == key].1)
    } else {
        None
    }
}

/// The value at the end of a path of keys.
pub open spec fn value_at(entries: Seq<(Seq<char>, TomlModel)>, path: Seq<Seq<char>>) -> Option<
    TomlModel,
>
    decreases path.len(),
{
    if path.len() == 0 {
        None
    } else if path.len() == 1 {
        value_under(entries, path[0])
    } else {
        match value_under(entries, path[0]) {
            Some(TomlModel::Table(table)) => value_at(table, path.drop_first()),
            _ => None,
        }
    }
}

proof fn lemma_under(entries: Seq<(Seq<char>, TomlModel)>, at: int)
    requires
        keys_in_order(entries),
        0 <= at < entries.len(),
    ensures
        value_under(entries, entries[at].0) == Some(entries[at].1),
{
    let key = entries[at].0;
    let i = choose|i: int| 0 <= i < entries.len() && (#[trigger] entries[i]).0 == key;
    lemma_precedes_irreflexive(codes(key));
    if i < at {
        assert(crate::ordered::precedes(codes(entries[i].0), codes(entries[at].0)));
    } else if at < i {
        assert(crate::ordered::precedes(codes(entries[at].0), codes(entries[i].0)));
    }
}

proof fn lemma_has_key(entries: Seq<(Seq<char>, TomlModel)>, key: Seq<char>)
    requires
        keys_in_order(entries),
    ensures
        has_key(entries, key) <==> value_under(entries, key) is Some,
        has_key(entries, key) ==> value_under(entries, key) == Some(
            entries[key_place(entries, key, 0)].1,
        ),
{
    let place = key_place(entries, key, 0);
    lemma_key_place(entries, key, 0);
    if has_key(entries, key) {
        lemma_under(entries, place);
    }
    if exists|i: int| 0 <= i < entries.len() && (#[trigger] entries[i]).0 == key {
        let i = choose|i: int| 0 <= i < entries.len() && (#[trigger] entries[i]).0 == key;
        lemma_precedes_irreflexive(codes(key));
        if i < place {
            assert(crate::ordered::precedes(codes(entries[i].0), codes(key)));
        } else if place < i {
            assert(crate::ordered::precedes(codes(entries[place].0), codes(entries[i].0)));
        }
    }
}

proof fn lemma_put(
    entries: Seq<(Seq<char>, TomlModel)>,
    key: Seq<char>,
    value: TomlModel,
    other: Seq<char>,
)
    requires
        is_plain_table(entries),
        is_plain_toml(value),
    ensures
        value_under(with_entry(entries, key, value), key) == Some(value),
        other != key ==> value_under(with_entry(entries, key, value), other) == value_under(
            entries,
            other,
        ),
{
    let place = key_place(entries, key, 0);
    let more = with_entry(entries, key, value);
    lemma_key_place(entries, key, 0);
    lemma_with_entry_plain(entries, key, value);
    assert(keys_in_order(more));
    assert(more[place] == (key, value));
    lemma_under(more, place);
    if other != key {
        if value_under(entries, other) is Some {
            let i = choose|i: int| 0 <= i < entries.len() && (#[trigger] entries[i]).0 == other;
            lemma_under(entries, i);
            if has_key(entries, key) {
                assert(more[i] == entries[i]);
                lemma_under(more, i);
            } else if i < place {
                assert(more[i] == entries[i]);
                lemma_under(more, i);
            } else {
                assert(more[i + 1] == entries[i]);
                lemma_under(more, i + 1);
            }
        } else if value_under(more, other) is Some {
            let i = choose|i: int| 0 <= i < more.len() && (#[trigger] more[i]).0 == other;
            if has_key(entries, key) {
                assert(entries[i].0 == other);
            } else if i < place {
                assert(entries[i].0 == other);
            } else {
                assert(entries[i - 1].0 == other);
            }
        }
    }
}

proof fn lemma_value_put(
    entries: Seq<(Seq<char>, TomlModel)>,
    path: Seq<Seq<char>>,
    at: int,
    value: Option<TomlModel>,
    other: Seq<Seq<char>>,
)
    requires
        is_plain_table(entries),
        value matches Some(found) ==> is_plain_toml(found) && !(found is Table),
        with_value(entries, path, at, value) is Ok,
        0 <= at < path.len(),
    ensures
        ({
            let more = with_value(entries, path, at, value)->Ok_0;
            let rest = path.skip(at);
            &&& value matches Some(found) ==> value_at(more, rest) == Some(found)
            &&& (!rest.is_prefix_of(other) || value is None) && (value_at(
                entries,
                other,
            ) matches Some(found) && !(found is Table)) ==> value_at(more, other) == value_at(
                entries,
                other,
            )
            &&& (value_at(more, other) matches Some(found) && !(found is Table)) ==> (value_at(
                entries,
                other,
            ) == value_at(more, other) || (other == rest && value == value_at(more, other)))
        }),
    decreases path.len() - at,
{
    let more = with_value(entries, path, at, value)->Ok_0;
    let rest = path.skip(at);
    let key = path[at];
    assert(rest[0] == key);
    if at == path.len() - 1 {
        assert(rest.len() == 1);
        if let Some(found) = value {
            lemma_put(entries, key, found, key);
            if other.len() > 0 {
                lemma_put(entries, key, found, other[0]);
                if other[0] == key {
                    assert(rest.is_prefix_of(other));
                    if other.len() == 1 {
                        assert(other =~= rest);
                    }
                }
            }
        }
    } else {
        let table = table_under(entries, key)->Ok_0;
        lemma_has_key(entries, key);
        if has_key(entries, key) {
            lemma_key_place(entries, key, 0);
            assert(is_plain_toml(entries[key_place(entries, key, 0)].1));
        }
        let deeper = with_value(table, path, at + 1, value)->Ok_0;
        lemma_with_value_plain(table, path, at + 1, value);
        let tail = if other.len() > 0 {
            other.drop_first()
        } else {
            other
        };
        lemma_value_put(table, path, at + 1, value, tail);
        lemma_put(entries, key, TomlModel::Table(deeper), key);
        assert(rest.drop_first() =~= path.skip(at + 1));
        if other.len() > 0 {
            lemma_put(entries, key, TomlModel::Table(deeper), other[0]);
            if other[0] == key {
                if path.skip(at + 1).is_prefix_of(tail) {
                    assert(rest.is_prefix_of(other)) by {
                        assert forall|i: int| 0 <= i < rest.len() implies rest[i] == other[i] by {
                            if i > 0 {
                                assert(path.skip(at + 1)[i - 1] == tail[i - 1]);
                            }
                        }
                        assert(rest =~= other.subrange(0, rest.len() as int));
                    }
                }
                if rest.is_prefix_of(other) {
                    assert(path.skip(at + 1).is_prefix_of(tail)) by {
                        let end = path.skip(at + 1);
                        assert forall|i: int| 0 <= i < end.len() implies end[i] == tail[i] by {
                            assert(rest[i + 1] == other[i + 1]);
                        }
                        assert(end =~= tail.subrange(0, end.len() as int));
                    }
                }
                if tail == path.skip(at + 1) {
                    assert(other =~= rest) by {
                        assert forall|i: int| 0 <= i < rest.len() implies rest[i] == other[i] by {
                            if i > 0 {
                                assert(rest[i] == tail[i - 1]);
                            }
                        }
                    }
                }
                if other == rest {
                    assert(tail =~= path.skip(at + 1));
                }
                if other.len() > 1 {
                    assert(value_at(more, other) == value_at(deeper, tail));
                    if has_key(entries, key) {
                        assert(value_at(entries, other) == value_at(table, tail));
                    } else {
                        assert(value_at(entries, other) is None);
                        assert(value_at(table, tail) is None) by {
                            assert(table =~= Seq::<(Seq<char>, TomlModel)>::empty());
                        }
                    }
                }
            }
        }
    }
}

// Fields.
/// The TOML form of a reference default: a truth value, an integer and the items of an array as
/// they are, a string with the name of the service in place of the placeholder.
pub open spec fn default_written(value: ValueModel, service: Seq<char>, written: TomlModel) -> bool {
    match value {
        ValueModel::Text(text) => written == TomlModel::Text(
            text_replaced(text, "{{service-name}}"@, service),
        ),
        ValueModel::Integer(number) => written == TomlModel::Integer(number),
        ValueModel::Boolean(flag) => written == TomlModel::Flag(flag),
        ValueModel::Texts(list) => written matches TomlModel::List(items) && items.len()
            == list.len() && forall|i: int|
            0 <= i < list.len() ==> #[trigger] items[i] == TomlModel::Text(list[i]),
        ValueModel::Integers(list) => written matches TomlModel::List(items) && items.len()
            == list.len() && forall|i: int|
            0 <= i < list.len() ==> #[trigger] items[i] == TomlModel::Integer(list[i]),
    }
}

proof fn lemma_default(value: ValueModel, service: Seq<char>)
    ensures
        default_written(value, service, reference_value(value, service)),
        is_plain_toml(reference_value(value, service)),
        !(reference_value(value, service) is Table),
{
    reveal_with_fuel(is_plain_toml, 2);
    let written = reference_value(value, service);
    match value {
        ValueModel::Texts(list) => {
            assert forall|i: int| 0 <= i < written->List_0.len() implies is_plain_toml(
                #[trigger] written->List_0[i],
            ) by {
                assert(written->List_0[i] == TomlModel::Text(list[i]));
            }
        },
        ValueModel::Integers(list) => {
            assert forall|i: int| 0 <= i < written->List_0.len() implies is_plain_toml(
                #[trigger] written->List_0[i],
            ) by {
                assert(written->List_0[i] == TomlModel::Integer(list[i]));
            }
        },
        _ => {},
    }
}

/// The keys of a field's path.
pub open spec fn keys_of(field: ConfigurationField) -> Seq<Seq<char>> {
    split_on(field.path@, '.')
}

/// Whether the reference default of a field stands at its path.
pub open spec fn stands(
    entries: Seq<(Seq<char>, TomlModel)>,
    field: ConfigurationField,
    service: Seq<char>,
) -> bool {
    field.reference_default matches Some(value) ==> (value_at(
        entries,
        keys_of(field),
    ) matches Some(written) && !(written is Table) && written == reference_value(value@, service))
}

proof fn lemma_keys(field: ConfigurationField)
    ensures
        keys_of(field).len() > 0,
{
    crate::text::lemma_split_join(field.path@, '.');
}

/// Whether a field does not stand in the way of another: its path does not lead along the other's,
/// or it is the same path with the same default.
spec fn gives_way(field: ConfigurationField, other: ConfigurationField) -> bool {
    &&& keys_of(field).is_prefix_of(keys_of(other)) ==> field.path@ == other.path@
    &&& field.path@ == other.path@ ==> field@ == other@
}

proof fn lemma_fields(
    entries: Seq<(Seq<char>, TomlModel)>,
    fields: Seq<ConfigurationField>,
    service: Seq<char>,
    count: int,
)
    requires
        is_plain_table(entries),
        0 <= count <= fields.len(),
        with_fields(entries, fields, service, count) is Ok,
    ensures
        is_plain_table(with_fields(entries, fields, service, count)->Ok_0),
        forall|other: ConfigurationField|
            (forall|i: int| 0 <= i < count ==> gives_way(#[trigger] fields[i], other)) && (stands(
                entries,
                other,
                service,
            ) || exists|i: int| 0 <= i < count && #[trigger] fields[i] == other) ==> #[trigger] stands(
                with_fields(entries, fields, service, count)->Ok_0,
                other,
                service,
            ),
        forall|path: Seq<Seq<char>>|
            #![trigger value_at(with_fields(entries, fields, service, count)->Ok_0, path)]
            (value_at(with_fields(entries, fields, service, count)->Ok_0, path) matches Some(found)
                && !(found is Table)) ==> (value_at(entries, path) == value_at(
                with_fields(entries, fields, service, count)->Ok_0,
                path,
            ) || exists|i: int|
                0 <= i < count && is_default_at(
                    #[trigger] fields[i],
                    path,
                    service,
                    value_at(with_fields(entries, fields, service, count)->Ok_0, path)->Some_0,
                )),
    decreases count,
{
    if count > 0 {
        lemma_fields(entries, fields, service, count - 1);
        let before = with_fields(entries, fields, service, count - 1)->Ok_0;
        let more = with_fields(entries, fields, service, count)->Ok_0;
        let field = fields[count - 1];
        let path = keys_of(field);
        let value = field_value(field, service);
        if let Some(found) = field.reference_default {
            lemma_default(found@, service);
        }
        lemma_keys(field);
        lemma_with_value_plain(before, path, 0, value);
        assert(path.skip(0) =~= path);
        assert forall|other: ConfigurationField|
            (forall|i: int| 0 <= i < count ==> gives_way(#[trigger] fields[i], other)) && (stands(
                entries,
                other,
                service,
            ) || exists|i: int| 0 <= i < count && #[trigger] fields[i] == other) implies #[trigger] stands(
            more,
            other,
            service,
        ) by {
            lemma_value_put(before, path, 0, value, keys_of(other));
            assert(gives_way(field, other));
            assert(forall|i: int| 0 <= i < count - 1 ==> gives_way(#[trigger] fields[i], other));
            if field.path@ == other.path@ {
                assert(field@ == other@);
                lemma_same_default(field, other, service);
            } else {
                assert(stands(before, other, service)) by {
                    if !stands(entries, other, service) {
                        let i = choose|i: int| 0 <= i < count && #[trigger] fields[i] == other;
                        assert(i < count - 1);
                    }
                }
            }
        }
        assert forall|way: Seq<Seq<char>>|
            #![trigger value_at(more, way)]
            (value_at(more, way) matches Some(found) && !(found is Table)) implies value_at(
            entries,
            way,
        ) == value_at(more, way) || exists|i: int|
            0 <= i < count && is_default_at(
                #[trigger] fields[i],
                way,
                service,
                value_at(more, way)->Some_0,
            ) by {
            let found = value_at(more, way)->Some_0;
            lemma_value_put(before, path, 0, value, way);
            if value_at(before, way) == Some(found) {
                if value_at(entries, way) != Some(found) {
                    let i = choose|i: int|
                        0 <= i < count - 1 && is_default_at(
                            #[trigger] fields[i],
                            way,
                            service,
                            found,
                        );
                    assert(is_default_at(fields[i], way, service, found));
                }
            } else {
                assert(is_default_at(fields[count - 1], way, service, found));
            }
        }
    }
}

/// Whether the reference default of a field is what stands at a path.
pub open spec fn is_default_at(
    field: ConfigurationField,
    path: Seq<Seq<char>>,
    service: Seq<char>,
    found: TomlModel,
) -> bool {
    keys_of(field) == path && (field.reference_default matches Some(value) && found
        == reference_value(value@, service))
}

proof fn lemma_same_default(
    left: ConfigurationField,
    right: ConfigurationField,
    service: Seq<char>,
)
    requires
        left@ == right@,
    ensures
        field_value(left, service) == field_value(right, service),
        keys_of(left) == keys_of(right),
{
}

// Modules.
/// Whether one of the first `count` selected modules declares a field.
pub open spec fn is_declared(
    catalog: ModuleCatalog,
    selected: Seq<Seq<char>>,
    count: int,
    field: ConfigurationField,
) -> bool {
    exists|k: int|
        0 <= k < count && (catalog.find(#[trigger] selected[k]) matches Some(module)
            && module.configuration.fields@.contains(field))
}

proof fn lemma_tables(
    catalog: ModuleCatalog,
    selected: Seq<Seq<char>>,
    service: Seq<char>,
    count: int,
)
    requires
        0 <= count <= selected.len(),
        reference_table(catalog, selected, service, count) is Ok,
    ensures
        is_plain_table(reference_table(catalog, selected, service, count)->Ok_0),
        forall|other: ConfigurationField|
            is_declared(catalog, selected, count, other) && (forall|field: ConfigurationField|
                is_declared(catalog, selected, count, field) ==> #[trigger] gives_way(
                    field,
                    other,
                )) ==> #[trigger] stands(
                reference_table(catalog, selected, service, count)->Ok_0,
                other,
                service,
            ),
        forall|path: Seq<Seq<char>>|
            #![trigger value_at(reference_table(catalog, selected, service, count)->Ok_0, path)]
            (value_at(reference_table(catalog, selected, service, count)->Ok_0, path) matches Some(
                found,
            ) && !(found is Table)) ==> exists|field: ConfigurationField| #[trigger]
                is_default_at(
                    field,
                    path,
                    service,
                    value_at(
                        reference_table(catalog, selected, service, count)->Ok_0,
                        path,
                    )->Some_0,
                ) && is_declared(catalog, selected, count, field),
    decreases count,
{
    let now = reference_table(catalog, selected, service, count)->Ok_0;
    if count > 0 {
        lemma_tables(catalog, selected, service, count - 1);
        let before = reference_table(catalog, selected, service, count - 1)->Ok_0;
        let module = catalog.find(selected[count - 1])->Some_0;
        let fields = module.configuration.fields@;
        lemma_fields(before, fields, service, fields.len() as int);
        assert forall|field: ConfigurationField|
            is_declared(catalog, selected, count - 1, field) implies #[trigger] is_declared(
            catalog,
            selected,
            count,
            field,
        ) by {
            let k = choose|k: int|
                0 <= k < count - 1 && (catalog.find(#[trigger] selected[k]) matches Some(module)
                    && module.configuration.fields@.contains(field));
            assert(catalog.find(selected[k]) is Some);
        }
        assert forall|i: int| 0 <= i < fields.len() implies is_declared(
            catalog,
            selected,
            count,
            #[trigger] fields[i],
        ) by {
            assert(fields.contains(fields[i]));
            assert(catalog.find(selected[count - 1]) is Some);
        }
        assert forall|other: ConfigurationField|
            is_declared(catalog, selected, count, other) && (forall|field: ConfigurationField|
                is_declared(catalog, selected, count, field) ==> #[trigger] gives_way(
                    field,
                    other,
                )) implies #[trigger] stands(now, other, service) by {
            assert forall|i: int| 0 <= i < fields.len() implies gives_way(
                #[trigger] fields[i],
                other,
            ) by {
                assert(is_declared(catalog, selected, count, fields[i]));
            }
            let k = choose|k: int|
                0 <= k < count && (catalog.find(#[trigger] selected[k]) matches Some(module)
                    && module.configuration.fields@.contains(other));
            if k == count - 1 {
                let i = choose|i: int| 0 <= i < fields.len() && fields[i] == other;
                assert(fields[i] == other);
            } else {
                assert(catalog.find(selected[k]) is Some);
                assert(is_declared(catalog, selected, count - 1, other));
                assert(stands(before, other, service));
            }
            assert(stands(now, other, service));
        }
        assert forall|path: Seq<Seq<char>>|
            #![trigger value_at(now, path)]
            (value_at(now, path) matches Some(found) && !(found is Table)) implies exists|
            field: ConfigurationField,
        | #[trigger] is_default_at(field, path, service, value_at(now, path)->Some_0)
            && is_declared(catalog, selected, count, field) by {
            let found = value_at(now, path)->Some_0;
            if value_at(before, path) == Some(found) {
                let field = choose|field: ConfigurationField| #[trigger]
                    is_default_at(field, path, service, found) && is_declared(
                        catalog,
                        selected,
                        count - 1,
                        field,
                    );
                assert(is_declared(catalog, selected, count, field));
            } else {
                let i = choose|i: int|
                    0 <= i < fields.len() && is_default_at(
                        #[trigger] fields[i],
                        path,
                        service,
                        found,
                    );
                assert(is_declared(catalog, selected, count, fields[i]));
            }
        }
    } else {
        reveal_with_fuel(is_plain_toml, 2);
        assert forall|path: Seq<Seq<char>>| value_at(now, path) is None by {
            if path.len() > 0 {
                assert(value_under(now, path[0]) is None);
            }
        }
    }
}

proof fn lemma_declared_fields(module: ModuleDefinition, count: int, at: int)
    requires
        0 <= at < count <= module.configuration.fields@.len(),
    ensures
        exists|item: DeclaredModel| #[trigger]
            declared_by(module, count).contains(item) && item.field
                == module.configuration.fields@[at]@,
    decreases count,
{
    let now = declared_by(module, count);
    let before = declared_by(module, count - 1);
    if at < count - 1 {
        lemma_declared_fields(module, count - 1, at);
        let item = choose|item: DeclaredModel| #[trigger]
            before.contains(item) && item.field == module.configuration.fields@[at]@;
        let k = choose|k: int| 0 <= k < before.len() && before[k] == item;
        assert(now[k] == item);
        assert(now.contains(item));
    } else {
        assert(now.contains(now[before.len() as int]));
    }
}

proof fn lemma_field_declared(
    catalog: ModuleCatalog,
    selected: Seq<Seq<char>>,
    field: ConfigurationField,
) -> (item: DeclaredModel)
    requires
        is_declared(catalog, selected, selected.len() as int, field),
    ensures
        declared(catalog, selected, selected.len() as int).contains(item),
        item.field == field@,
{
    let total = selected.len() as int;
    let k = choose|k: int|
        0 <= k < total && (catalog.find(#[trigger] selected[k]) matches Some(module)
            && module.configuration.fields@.contains(field));
    let module = catalog.find(selected[k])->Some_0;
    let fields = module.configuration.fields@;
    let at = choose|i: int| 0 <= i < fields.len() && fields[i] == field;
    lemma_declared_fields(module, fields.len() as int, at);
    let item = choose|item: DeclaredModel| #[trigger]
        declared_by(module, fields.len() as int).contains(item) && item.field == fields[at]@;
    lemma_declared(catalog, selected, total);
    assert(declares(catalog, selected[k], item));
    item
}

/// Fields of one path that selected modules declare are the same.
proof fn lemma_one_declaration(
    catalog: ModuleCatalog,
    selected: Seq<Seq<char>>,
    left: ConfigurationField,
    right: ConfigurationField,
)
    requires
        selection_defect(catalog, selected) is None,
        is_declared(catalog, selected, selected.len() as int, left),
        is_declared(catalog, selected, selected.len() as int, right),
        left.path@ == right.path@,
    ensures
        left@ == right@,
{
    let all = declared(catalog, selected, selected.len() as int);
    let one = lemma_field_declared(catalog, selected, left);
    let other = lemma_field_declared(catalog, selected, right);
    lemma_declarations(all, all.len() as int);
    let i = choose|i: int| 0 <= i < all.len() && all[i] == one;
    let j = choose|j: int| 0 <= j < all.len() && all[j] == other;
    if i < j {
        assert(agree(all[i], all[j]));
    } else if j < i {
        assert(agree(all[j], all[i]));
    }
}

// The law.
/// The reference configuration is a TOML document behind a comment. For every field with a
/// reference default that a selected module declares, that default is the value at the field's path
/// in the document, unless the path of another field ends on the way there. Beside tables, the
/// document holds nothing but such defaults.
pub proof fn lemma_reference_configuration(
    catalog: ModuleCatalog,
    selected: Seq<Seq<char>>,
    service: Seq<char>,
    written: spec_fn(TomlModel) -> Result<Seq<char>, Seq<char>>,
) -> (entries: Seq<(Seq<char>, TomlModel)>)
    ensures
        reference_document(catalog, selected, service, written) matches Ok(text) ==> {
            &&& written(TomlModel::Table(entries)) matches Ok(document) && text
                == "# Generated safe runtime configuration. Secrets are supplied through the process environment.\n"@
                + document
            &&& forall|field: ConfigurationField|
                #![trigger keys_of(field)]
                is_declared(catalog, selected, selected.len() as int, field) && (forall|
                    other: ConfigurationField,
                |
                    is_declared(catalog, selected, selected.len() as int, other) && (
                    #[trigger] keys_of(other)).is_prefix_of(keys_of(field)) ==> other.path@
                        == field.path@) ==> (field.reference_default matches Some(value)
                    ==> (value_at(entries, keys_of(field)) matches Some(found)
                    && default_written(value@, service, found)))
            &&& forall|path: Seq<Seq<char>>|
                #![trigger value_at(entries, path)]
                (value_at(entries, path) matches Some(found) && !(found is Table)) ==> exists|
                    field: ConfigurationField,
                |
                    is_declared(catalog, selected, selected.len() as int, field) && #[trigger] keys_of(
                        field,
                    ) == path && (field.reference_default matches Some(value) && default_written(
                        value@,
                        service,
                        value_at(entries, path)->Some_0,
                    ))
        },
{
    let total = selected.len() as int;
    let entries = reference_table(catalog, selected, service, total)->Ok_0;
    if reference_document(catalog, selected, service, written) is Ok {
        lemma_tables(catalog, selected, service, total);
        assert forall|field: ConfigurationField|
            #![trigger keys_of(field)]
            is_declared(catalog, selected, total, field) && (forall|other: ConfigurationField|
                is_declared(catalog, selected, total, other) && (
                #[trigger] keys_of(other)).is_prefix_of(keys_of(field)) ==> other.path@
                    == field.path@) implies (field.reference_default matches Some(value)
            ==> (value_at(entries, keys_of(field)) matches Some(found) && default_written(
            value@,
            service,
            found,
        ))) by {
            assert forall|other: ConfigurationField|
                is_declared(catalog, selected, total, other) implies #[trigger] gives_way(
                other,
                field,
            ) by {
                let way = keys_of(other);
                if other.path@ == field.path@ {
                    lemma_one_declaration(catalog, selected, other, field);
                }
            }
            assert(stands(entries, field, service));
            if let Some(value) = field.reference_default {
                lemma_default(value@, service);
            }
        }
        assert forall|path: Seq<Seq<char>>|
            #![trigger value_at(entries, path)]
            (value_at(entries, path) matches Some(found) && !(found is Table)) implies exists|
            field: ConfigurationField,
        |
            is_declared(catalog, selected, total, field) && #[trigger] keys_of(field) == path && (
            field.reference_default matches Some(value) && default_written(
                value@,
                service,
                value_at(entries, path)->Some_0,
            )) by {
            let found = value_at(entries, path)->Some_0;
            let field = choose|field: ConfigurationField| #[trigger]
                is_default_at(field, path, service, found) && is_declared(
                    catalog,
                    selected,
                    total,
                    field,
                );
            lemma_default(field.reference_default->Some_0@, service);
            assert(keys_of(field) == path);
        }
    }
    entries
}

} // verus!
