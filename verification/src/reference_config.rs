//! The reference configuration of the selected modules.

use vstd::prelude::*;
use vstd::string::*;

use crate::management::{ManagerError, ManagerFailure};
use crate::modules::{ConfigurationField, ConfigurationValue, ModuleCatalog, ValueModel};
use crate::ordered::{
    codes, codes_of, lemma_codes_injective, lemma_precedes_total, lemma_precedes_transitive, precedes,
    relate, Relation, TextSet,
};
use crate::rendering::{renders, required_module, unknown_selected};
use crate::selection::selection_defect;
use crate::text::{join2, join3, replace_text, same_text, split_on, split_text, text_replaced, texts};
use crate::toml_text::{toml_contents, TomlEntry, TomlValue};

verus! {

/// The value of a TOML value; a table as pairs of key and value.
pub enum TomlModel {
    /// A string.
    Text(Seq<char>),
    /// An integer.
    Integer(i64),
    /// A truth value.
    Flag(bool),
    /// An array.
    List(Seq<TomlModel>),
    /// A table.
    Table(Seq<(Seq<char>, TomlModel)>),
    /// A floating-point number or a date.
    Other,
}

/// The value of a TOML value.
pub open spec fn toml_model(value: TomlValue) -> TomlModel
    decreases value,
{
    match value {
        TomlValue::Text(text) => TomlModel::Text(text@),
        TomlValue::Integer(number) => TomlModel::Integer(number),
        TomlValue::Flag(flag) => TomlModel::Flag(flag),
        TomlValue::List(items) => TomlModel::List(
            Seq::new(
                items@.len(),
                |i: int|
                    if 0 <= i < items@.len() {
                        toml_model(items@[i])
                    } else {
                        TomlModel::Other
                    },
            ),
        ),
        TomlValue::Table(entries) => TomlModel::Table(
            Seq::new(
                entries@.len(),
                |i: int|
                    if 0 <= i < entries@.len() {
                        (entries@[i].key@, toml_model(entries@[i].value))
                    } else {
                        (Seq::empty(), TomlModel::Other)
                    },
            ),
        ),
        TomlValue::Other => TomlModel::Other,
    }
}

/// Whether a value holds no floating-point number and no date, and every table its keys in order
/// and once.
pub open spec fn is_plain_toml(value: TomlModel) -> bool
    decreases value,
{
    match value {
        TomlModel::List(items) => forall|i: int|
            0 <= i < items.len() ==> is_plain_toml(#[trigger] items[i]),
        TomlModel::Table(entries) => {
            &&& keys_in_order(entries)
            &&& forall|i: int| 0 <= i < entries.len() ==> is_plain_toml((#[trigger] entries[i]).1)
        },
        TomlModel::Other => false,
        _ => true,
    }
}

/// Whether each key of a table stands before the later ones.
pub open spec fn keys_in_order(entries: Seq<(Seq<char>, TomlModel)>) -> bool {
    forall|i: int, j: int|
        0 <= i < j < entries.len() ==> precedes(
            codes((#[trigger] entries[i]).0),
            codes((#[trigger] entries[j]).0),
        )
}

/// The values of entries.
pub open spec fn entry_models(entries: Seq<TomlEntry>) -> Seq<(Seq<char>, TomlModel)> {
    entries.map_values(|entry: TomlEntry| (entry.key@, toml_model(entry.value)))
}

proof fn lemma_table_model(value: TomlValue)
    ensures
        value matches TomlValue::Table(entries) ==> toml_model(value) == TomlModel::Table(
            entry_models(entries@),
        ),
{
    if let TomlValue::Table(entries) = value {
        assert(toml_model(value)->Table_0 =~= entry_models(entries@));
    }
}

// Writing.
/// The TOML document of a table, or why it cannot be written.
pub uninterp spec fn toml_written(document: TomlModel) -> Result<Seq<char>, Seq<char>>;

/// Builds a `toml::Value`, variant by variant; a `toml::Table` holds the entries in the order of
/// their keys.
#[verifier::external_body]
fn put_together(value: TomlValue) -> (built: toml::Value)
    requires
        is_plain_toml(toml_model(value)),
    ensures
        toml_contents(built) == value,
{
    match value {
        TomlValue::Text(text) => toml::Value::String(text),
        TomlValue::Integer(number) => toml::Value::Integer(number),
        TomlValue::Flag(flag) => toml::Value::Boolean(flag),
        TomlValue::List(items) => toml::Value::Array(items.into_iter().map(put_together).collect()),
        TomlValue::Table(entries) => toml::Value::Table(
            entries.into_iter().map(|entry| (entry.key, put_together(entry.value))).collect(),
        ),
        TomlValue::Other => toml::Value::Table(toml::Table::new()),
    }
}

/// Calls `toml::to_string`. For a value without floating-point numbers and dates, what it returns
/// and the text of its error depend on the contents of the value alone.
#[verifier::external_body]
fn write_document(value: &toml::Value) -> (result: Result<String, String>)
    requires
        is_plain_toml(toml_model(toml_contents(*value))),
    ensures
        match result {
            Ok(text) => toml_written(toml_model(toml_contents(*value))) == Ok::<
                Seq<char>,
                Seq<char>,
            >(text@),
            Err(message) => toml_written(toml_model(toml_contents(*value))) == Err::<
                Seq<char>,
                Seq<char>,
            >(message@),
        },
{
    toml::to_string(value).map_err(|error| error.to_string())
}

// Insertion.
/// The place, from `at` on, of the first key that does not stand before `key`.
pub open spec fn key_place(entries: Seq<(Seq<char>, TomlModel)>, key: Seq<char>, at: int) -> int
    decreases entries.len() - at,
{
    if at >= entries.len() || !precedes(codes(entries[at].0), codes(key)) {
        at
    } else {
        key_place(entries, key, at + 1)
    }
}

/// Whether a table has a key.
pub open spec fn has_key(entries: Seq<(Seq<char>, TomlModel)>, key: Seq<char>) -> bool {
    let place = key_place(entries, key, 0);
    place < entries.len() && entries[place].0 == key
}

/// A table with a value put under a key, in place of the one that is there.
pub open spec fn with_entry(
    entries: Seq<(Seq<char>, TomlModel)>,
    key: Seq<char>,
    value: TomlModel,
) -> Seq<(Seq<char>, TomlModel)> {
    let place = key_place(entries, key, 0);
    if has_key(entries, key) {
        entries.update(place, (key, value))
    } else {
        entries.insert(place, (key, value))
    }
}

/// The table under a key, the empty one where there is none, or the failure that something else
/// is there.
pub open spec fn table_under(entries: Seq<(Seq<char>, TomlModel)>, key: Seq<char>) -> Result<
    Seq<(Seq<char>, TomlModel)>,
    ManagerFailure,
> {
    if !has_key(entries, key) {
        Ok(Seq::empty())
    } else {
        match entries[key_place(entries, key, 0)].1 {
            TomlModel::Table(table) => Ok(table),
            _ => Err(
                ManagerFailure::InvalidProject(
                    "configuration field `"@ + key + "` conflicts with a table"@,
                ),
            ),
        }
    }
}

/// A table with a value put at the end of a path of keys from place `at` on; where there is no
/// value, only the tables on the way are there.
pub open spec fn with_value(
    entries: Seq<(Seq<char>, TomlModel)>,
    path: Seq<Seq<char>>,
    at: int,
    value: Option<TomlModel>,
) -> Result<Seq<(Seq<char>, TomlModel)>, ManagerFailure>
    decreases path.len() - at,
{
    if at < 0 || at >= path.len() {
        Err(ManagerFailure::InvalidProject("configuration field path is empty"@))
    } else if at == path.len() - 1 {
        match value {
            Some(value) => Ok(with_entry(entries, path[at], value)),
            None => Ok(entries),
        }
    } else {
        match table_under(entries, path[at]) {
            Err(failure) => Err(failure),
            Ok(table) => match with_value(table, path, at + 1, value) {
                Err(failure) => Err(failure),
                Ok(more) => Ok(with_entry(entries, path[at], TomlModel::Table(more))),
            },
        }
    }
}

/// Whether the entries of a table are in order and plain.
pub open spec fn is_plain_table(entries: Seq<(Seq<char>, TomlModel)>) -> bool {
    is_plain_toml(TomlModel::Table(entries))
}

pub(crate) proof fn lemma_key_place(entries: Seq<(Seq<char>, TomlModel)>, key: Seq<char>, at: int)
    requires
        0 <= at <= entries.len(),
    ensures
        at <= key_place(entries, key, at) <= entries.len(),
        forall|i: int|
            at <= i < key_place(entries, key, at) ==> precedes(
                codes((#[trigger] entries[i]).0),
                codes(key),
            ),
        key_place(entries, key, at) < entries.len() ==> !precedes(
            codes(entries[key_place(entries, key, at)].0),
            codes(key),
        ),
    decreases entries.len() - at,
{
    if at < entries.len() && precedes(codes(entries[at].0), codes(key)) {
        lemma_key_place(entries, key, at + 1);
    }
}

pub(crate) proof fn lemma_with_entry_plain(
    entries: Seq<(Seq<char>, TomlModel)>,
    key: Seq<char>,
    value: TomlModel,
)
    requires
        is_plain_table(entries),
        is_plain_toml(value),
    ensures
        is_plain_table(with_entry(entries, key, value)),
{
    let place = key_place(entries, key, 0);
    let more = with_entry(entries, key, value);
    lemma_key_place(entries, key, 0);
    assert(keys_in_order(entries));
    if has_key(entries, key) {
        assert forall|i: int, j: int| 0 <= i < j < more.len() implies precedes(
            codes((#[trigger] more[i]).0),
            codes((#[trigger] more[j]).0),
        ) by {
            assert(more[i].0 == entries[i].0);
            assert(more[j].0 == entries[j].0);
            assert(precedes(codes(entries[i].0), codes(entries[j].0)));
        }
        assert forall|i: int| 0 <= i < more.len() implies is_plain_toml((#[trigger] more[i]).1) by {
            if i != place {
                assert(is_plain_toml(entries[i].1));
            }
        }
    } else {
        if place < entries.len() {
            lemma_precedes_total(codes(entries[place].0), codes(key));
            if codes(entries[place].0) == codes(key) {
                lemma_codes_injective(entries[place].0, key);
            }
        }
        assert forall|i: int, j: int| 0 <= i < j < more.len() implies precedes(
            codes((#[trigger] more[i]).0),
            codes((#[trigger] more[j]).0),
        ) by {
            if j < place {
                assert(more[i] == entries[i] && more[j] == entries[j]);
            } else if j == place {
                assert(more[i] == entries[i]);
            } else if i < place {
                assert(more[i] == entries[i] && more[j] == entries[j - 1]);
            } else if i == place {
                assert(more[j] == entries[j - 1]);
                if j - 1 > place {
                    lemma_precedes_transitive(
                        codes(key),
                        codes(entries[place].0),
                        codes(entries[j - 1].0),
                    );
                }
            } else {
                assert(more[i] == entries[i - 1] && more[j] == entries[j - 1]);
            }
        }
        assert forall|i: int| 0 <= i < more.len() implies is_plain_toml((#[trigger] more[i]).1) by {
            if i < place {
                assert(more[i] == entries[i]);
                assert(is_plain_toml(entries[i].1));
            } else if i > place {
                assert(more[i] == entries[i - 1]);
                assert(is_plain_toml(entries[i - 1].1));
            }
        }
    }
}

/// Putting a plain value into a plain table gives a plain table.
pub proof fn lemma_with_value_plain(
    entries: Seq<(Seq<char>, TomlModel)>,
    path: Seq<Seq<char>>,
    at: int,
    value: Option<TomlModel>,
)
    requires
        is_plain_table(entries),
        value matches Some(found) ==> is_plain_toml(found),
    ensures
        with_value(entries, path, at, value) matches Ok(more) ==> is_plain_table(more),
    decreases path.len() - at,
{
    if 0 <= at < path.len() {
        if at == path.len() - 1 {
            if let Some(found) = value {
                lemma_with_entry_plain(entries, path[at], found);
            }
        } else if let Ok(table) = table_under(entries, path[at]) {
            if has_key(entries, path[at]) {
                lemma_key_place(entries, path[at], 0);
                assert(is_plain_toml(entries[key_place(entries, path[at], 0)].1));
            }
            lemma_with_value_plain(table, path, at + 1, value);
            if let Ok(more) = with_value(table, path, at + 1, value) {
                lemma_with_entry_plain(entries, path[at], TomlModel::Table(more));
            }
        }
    }
}

fn find_key_place(entries: &Vec<TomlEntry>, key: &str) -> (place: usize)
    ensures
        place == key_place(entry_models(entries@), key@, 0),
        place <= entries@.len(),
{
    let ghost all = entry_models(entries@);
    let wanted = codes_of(key);
    let mut index: usize = 0;
    while index < entries.len()
        invariant
            all == entry_models(entries@),
            wanted@ == codes(key@),
            index <= entries@.len(),
            key_place(all, key@, 0) == key_place(all, key@, index as int),
        decreases entries@.len() - index,
    {
        let found = codes_of(entries[index].key.as_str());
        assert(all[index as int].0 == entries@[index as int].key@);
        if let Relation::Before = relate(&found, &wanted) {
            index += 1;
        } else {
            return index;
        }
    }
    index
}

fn put_entry(entries: &mut Vec<TomlEntry>, key: &str, value: TomlValue)
    ensures
        entry_models(final(entries)@) == with_entry(
            entry_models(old(entries)@),
            key@,
            toml_model(value),
        ),
{
    let ghost before = entry_models(entries@);
    let ghost model = toml_model(value);
    let place = find_key_place(entries, key);
    let entry = TomlEntry { key: key.to_owned(), value };
    if place < entries.len() && same_text(entries[place].key.as_str(), key) {
        assert(before[place as int].0 == entries@[place as int].key@);
        entries.set(place, entry);
        assert(entry_models(entries@) =~= before.update(place as int, (key@, model)));
    } else {
        if place < entries.len() {
            assert(before[place as int].0 == entries@[place as int].key@);
        }
        entries.insert(place, entry);
        assert(entry_models(entries@) =~= before.insert(place as int, (key@, model)));
    }
}

/// Takes the table under a key out of a table.
fn take_table(entries: &mut Vec<TomlEntry>, key: &str) -> (result: Result<
    Vec<TomlEntry>,
    ManagerError,
>)
    ensures
        match result {
            Ok(table) => table_under(entry_models(old(entries)@), key@) == Ok::<
                Seq<(Seq<char>, TomlModel)>,
                ManagerFailure,
            >(entry_models(table@)) && with_taken(
                entry_models(old(entries)@),
                entry_models(final(entries)@),
                key@,
            ),
            Err(error) => table_under(entry_models(old(entries)@), key@) == Err::<
                Seq<(Seq<char>, TomlModel)>,
                ManagerFailure,
            >(error.failure()),
        },
{
    let ghost before = entry_models(entries@);
    let place = find_key_place(entries, key);
    if place < entries.len() && same_text(entries[place].key.as_str(), key) {
        assert(before[place as int].0 == entries@[place as int].key@);
        let entry = entries.remove(place);
        let ghost value = entry.value;
        match entry.value {
            TomlValue::Table(table) => {
                proof {
                    lemma_table_model(value);
                }
                let empty: Vec<TomlEntry> = Vec::new();
                entries.insert(
                    place,
                    TomlEntry { key: key.to_owned(), value: TomlValue::Table(empty) },
                );
                proof {
                    assert(entry_models(entries@) =~= before.update(
                        place as int,
                        entry_models(entries@)[place as int],
                    ));
                }
                Ok(table)
            },
            _ => Err(
                ManagerError::InvalidProject(
                    join3("configuration field `", key, "` conflicts with a table"),
                ),
            ),
        }
    } else {
        if place < entries.len() {
            assert(before[place as int].0 == entries@[place as int].key@);
        }
        let table: Vec<TomlEntry> = Vec::new();
        assert(entry_models(table@) =~= Seq::<(Seq<char>, TomlModel)>::empty());
        Ok(table)
    }
}

/// Whether two tables differ at most in what stands under a key.
pub open spec fn with_taken(
    before: Seq<(Seq<char>, TomlModel)>,
    after: Seq<(Seq<char>, TomlModel)>,
    key: Seq<char>,
) -> bool {
    if has_key(before, key) {
        exists|value: TomlModel|
            after == #[trigger] before.update(key_place(before, key, 0), (key, value))
    } else {
        after == before
    }
}

proof fn lemma_same_key_places(
    left: Seq<(Seq<char>, TomlModel)>,
    right: Seq<(Seq<char>, TomlModel)>,
    key: Seq<char>,
    at: int,
)
    requires
        left.len() == right.len(),
        0 <= at <= left.len(),
        forall|i: int| 0 <= i < left.len() ==> (#[trigger] left[i]).0 == right[i].0,
    ensures
        key_place(left, key, at) == key_place(right, key, at),
    decreases left.len() - at,
{
    if at < left.len() {
        assert(left[at].0 == right[at].0);
        if precedes(codes(left[at].0), codes(key)) {
            lemma_same_key_places(left, right, key, at + 1);
        }
    }
}

proof fn lemma_taken(
    before: Seq<(Seq<char>, TomlModel)>,
    after: Seq<(Seq<char>, TomlModel)>,
    key: Seq<char>,
    value: TomlModel,
)
    requires
        with_taken(before, after, key),
    ensures
        with_entry(after, key, value) == with_entry(before, key, value),
{
    if has_key(before, key) {
        let place = key_place(before, key, 0);
        lemma_key_place(before, key, 0);
        let taken = choose|taken: TomlModel|
            after == #[trigger] before.update(key_place(before, key, 0), (key, taken));
        assert forall|i: int| 0 <= i < after.len() implies (#[trigger] after[i]).0
            == before[i].0 by {
            if i == place {
                assert(before[place].0 == key);
            }
        }
        lemma_same_key_places(after, before, key, 0);
        assert(after.update(place, (key, value)) =~= before.update(place, (key, value)));
    }
}

/// Puts a value at the end of a path of keys from place `at` on.
fn insert_reference_value(
    entries: &mut Vec<TomlEntry>,
    path: &Vec<String>,
    at: usize,
    value: Option<TomlValue>,
) -> (result: Result<(), ManagerError>)
    ensures
        ({
            let owed = with_value(
                entry_models(old(entries)@),
                texts(path@),
                at as int,
                (match value {
                    Some(found) => Some(toml_model(found)),
                    None => None,
                }),
            );
            match result {
                Ok(()) => owed == Ok::<Seq<(Seq<char>, TomlModel)>, ManagerFailure>(
                    entry_models(final(entries)@),
                ),
                Err(error) => owed == Err::<Seq<(Seq<char>, TomlModel)>, ManagerFailure>(
                    error.failure(),
                ),
            }
        }),
    decreases path@.len() - at,
{
    let ghost all = texts(path@);
    let ghost before = entry_models(entries@);
    if at >= path.len() {
        return Err(
            ManagerError::InvalidProject("configuration field path is empty".to_owned()),
        );
    }
    let component = path[at].as_str();
    assert(all[at as int] == component@);
    if at == path.len() - 1 {
        if let Some(found) = value {
            put_entry(entries, component, found);
        }
        return Ok(());
    }
    let mut table = match take_table(entries, component) {
        Ok(table) => table,
        Err(error) => {
            return Err(error);
        },
    };
    match insert_reference_value(&mut table, path, at + 1, value) {
        Ok(()) => {},
        Err(error) => {
            return Err(error);
        },
    }
    let nested = TomlValue::Table(table);
    proof {
        lemma_table_model(nested);
        lemma_taken(before, entry_models(entries@), component@, toml_model(nested));
    }
    put_entry(entries, component, nested);
    Ok(())
}

// The document.
/// The TOML value of a configuration value; the name of the service stands for its placeholder.
pub open spec fn reference_value(value: ValueModel, service: Seq<char>) -> TomlModel {
    match value {
        ValueModel::Text(text) => TomlModel::Text(
            text_replaced(text, "{{service-name}}"@, service),
        ),
        ValueModel::Integer(number) => TomlModel::Integer(number),
        ValueModel::Boolean(flag) => TomlModel::Flag(flag),
        ValueModel::Texts(list) => TomlModel::List(
            list.map_values(|text: Seq<char>| TomlModel::Text(text)),
        ),
        ValueModel::Integers(list) => TomlModel::List(
            list.map_values(|number: i64| TomlModel::Integer(number)),
        ),
    }
}

/// The table with the reference values of the first `count` fields.
pub open spec fn with_fields(
    entries: Seq<(Seq<char>, TomlModel)>,
    fields: Seq<ConfigurationField>,
    service: Seq<char>,
    count: int,
) -> Result<Seq<(Seq<char>, TomlModel)>, ManagerFailure>
    decreases count,
{
    if count <= 0 {
        Ok(entries)
    } else {
        match with_fields(entries, fields, service, count - 1) {
            Err(failure) => Err(failure),
            Ok(before) => with_value(
                before,
                split_on(fields[count - 1].path@, '.'),
                0,
                field_value(fields[count - 1], service),
            ),
        }
    }
}

/// The reference value of a field.
pub open spec fn field_value(field: ConfigurationField, service: Seq<char>) -> Option<TomlModel> {
    match field.reference_default {
        Some(value) => Some(reference_value(value@, service)),
        None => None,
    }
}

/// The table with the reference values of the first `count` selected modules.
pub open spec fn reference_table(
    catalog: ModuleCatalog,
    selected: Seq<Seq<char>>,
    service: Seq<char>,
    count: int,
) -> Result<Seq<(Seq<char>, TomlModel)>, ManagerFailure>
    decreases count,
{
    if count <= 0 {
        Ok(Seq::empty())
    } else {
        match reference_table(catalog, selected, service, count - 1) {
            Err(failure) => Err(failure),
            Ok(entries) => match catalog.find(selected[count - 1]) {
                None => Err(unknown_selected(selected[count - 1])),
                Some(module) => with_fields(
                    entries,
                    module.configuration.fields@,
                    service,
                    module.configuration.fields@.len() as int,
                ),
            },
        }
    }
}

/// The reference configuration, given the written form of documents.
pub open spec fn reference_document(
    catalog: ModuleCatalog,
    selected: Seq<Seq<char>>,
    service: Seq<char>,
    written: spec_fn(TomlModel) -> Result<Seq<char>, Seq<char>>,
) -> Result<Seq<char>, ManagerFailure> {
    match selection_defect(catalog, selected) {
        Some(message) => Err(ManagerFailure::Catalog(message)),
        None => match reference_table(catalog, selected, service, selected.len() as int) {
            Err(failure) => Err(failure),
            Ok(entries) => match written(TomlModel::Table(entries)) {
                Err(message) => Err(
                    ManagerFailure::InvalidProject(
                        "cannot render reference configuration: "@ + message,
                    ),
                ),
                Ok(text) => Ok(
                    "# Generated safe runtime configuration. Secrets are supplied through the process environment.\n"@
                        + text,
                ),
            },
        },
    }
}

/// The written form of TOML documents.
pub open spec fn toml_writing() -> spec_fn(TomlModel) -> Result<Seq<char>, Seq<char>> {
    |document: TomlModel| toml_written(document)
}

fn reference_toml_value(value: &ConfigurationValue, service_name: &str) -> (result: TomlValue)
    ensures
        toml_model(result) == reference_value(value@, service_name@),
        is_plain_toml(toml_model(result)),
{
    match value {
        ConfigurationValue::String(text) => TomlValue::Text(
            replace_text(text.as_str(), "{{service-name}}", service_name),
        ),
        ConfigurationValue::Integer(number) => TomlValue::Integer(*number),
        ConfigurationValue::Boolean(flag) => TomlValue::Flag(*flag),
        ConfigurationValue::StringArray(list) => {
            let mut items: Vec<TomlValue> = Vec::new();
            let mut index: usize = 0;
            while index < list.len()
                invariant
                    index <= list@.len(),
                    items@.len() == index,
                    forall|i: int|
                        0 <= i < index ==> toml_model(#[trigger] items@[i]) == TomlModel::Text(
                            list@[i]@,
                        ),
                decreases list@.len() - index,
            {
                items.push(TomlValue::Text(list[index].clone()));
                index += 1;
            }
            let result = TomlValue::List(items);
            proof {
                assert(toml_model(result)->List_0 =~= texts(list@).map_values(
                    |text: Seq<char>| TomlModel::Text(text),
                ));
                assert forall|i: int| 0 <= i < list@.len() implies is_plain_toml(
                    #[trigger] toml_model(result)->List_0[i],
                ) by {
                    assert(toml_model(result)->List_0[i] == TomlModel::Text(list@[i]@));
                }
            }
            result
        },
        ConfigurationValue::IntegerArray(list) => {
            let mut items: Vec<TomlValue> = Vec::new();
            let mut index: usize = 0;
            while index < list.len()
                invariant
                    index <= list@.len(),
                    items@.len() == index,
                    forall|i: int|
                        0 <= i < index ==> toml_model(#[trigger] items@[i]) == TomlModel::Integer(
                            list@[i],
                        ),
                decreases list@.len() - index,
            {
                items.push(TomlValue::Integer(list[index]));
                index += 1;
            }
            let result = TomlValue::List(items);
            proof {
                assert(toml_model(result)->List_0 =~= list@.map_values(
                    |number: i64| TomlModel::Integer(number),
                ));
                assert forall|i: int| 0 <= i < list@.len() implies is_plain_toml(
                    #[trigger] toml_model(result)->List_0[i],
                ) by {
                    assert(toml_model(result)->List_0[i] == TomlModel::Integer(list@[i]));
                }
            }
            result
        },
    }
}

proof fn lemma_fields_fail(
    entries: Seq<(Seq<char>, TomlModel)>,
    fields: Seq<ConfigurationField>,
    service: Seq<char>,
    count: int,
    total: int,
)
    requires
        with_fields(entries, fields, service, count) is Err,
        count <= total,
    ensures
        with_fields(entries, fields, service, total) == with_fields(
            entries,
            fields,
            service,
            count,
        ),
    decreases total - count,
{
    if count < total {
        lemma_fields_fail(entries, fields, service, count, total - 1);
    }
}

proof fn lemma_reference_table_fail(
    catalog: ModuleCatalog,
    selected: Seq<Seq<char>>,
    service: Seq<char>,
    count: int,
    total: int,
)
    requires
        reference_table(catalog, selected, service, count) is Err,
        count <= total,
    ensures
        reference_table(catalog, selected, service, total) == reference_table(
            catalog,
            selected,
            service,
            count,
        ),
    decreases total - count,
{
    if count < total {
        lemma_reference_table_fail(catalog, selected, service, count, total - 1);
    }
}

fn insert_fields(
    entries: &mut Vec<TomlEntry>,
    fields: &Vec<ConfigurationField>,
    service_name: &str,
) -> (result: Result<(), ManagerError>)
    requires
        is_plain_table(entry_models(old(entries)@)),
    ensures
        ({
            let owed = with_fields(
                entry_models(old(entries)@),
                fields@,
                service_name@,
                fields@.len() as int,
            );
            match result {
                Ok(()) => owed == Ok::<Seq<(Seq<char>, TomlModel)>, ManagerFailure>(
                    entry_models(final(entries)@),
                ) && is_plain_table(entry_models(final(entries)@)),
                Err(error) => owed == Err::<Seq<(Seq<char>, TomlModel)>, ManagerFailure>(
                    error.failure(),
                ),
            }
        }),
{
    let ghost before = entry_models(entries@);
    let ghost total = fields@.len() as int;
    let mut index: usize = 0;
    while index < fields.len()
        invariant
            before == entry_models(old(entries)@),
            total == fields@.len(),
            index <= total,
            is_plain_table(entry_models(entries@)),
            with_fields(before, fields@, service_name@, index as int) == Ok::<
                Seq<(Seq<char>, TomlModel)>,
                ManagerFailure,
            >(entry_models(entries@)),
        decreases total - index,
    {
        let field = &fields[index];
        let path = split_text(field.path.as_str(), '.');
        let value = match &field.reference_default {
            Some(value) => Some(reference_toml_value(value, service_name)),
            None => None,
        };
        let ghost model = field_value(*field, service_name@);
        proof {
            lemma_with_value_plain(entry_models(entries@), texts(path@), 0, model);
            if with_fields(before, fields@, service_name@, index + 1) is Err {
                lemma_fields_fail(before, fields@, service_name@, index + 1, total);
            }
        }
        match insert_reference_value(entries, &path, 0, value) {
            Ok(()) => {},
            Err(error) => {
                return Err(error);
            },
        }
        index += 1;
    }
    Ok(())
}

/// Builds the table of the reference values of the selected modules.
pub fn build_reference_table(catalog: &ModuleCatalog, selected: &TextSet, service_name: &str) -> (result:
    Result<Vec<TomlEntry>, ManagerError>)
    ensures
        ({
            let owed = reference_table(
                *catalog,
                selected@,
                service_name@,
                selected@.len() as int,
            );
            match result {
                Ok(entries) => owed == Ok::<Seq<(Seq<char>, TomlModel)>, ManagerFailure>(
                    entry_models(entries@),
                ) && is_plain_table(entry_models(entries@)),
                Err(error) => owed == Err::<Seq<(Seq<char>, TomlModel)>, ManagerFailure>(
                    error.failure(),
                ),
            }
        }),
{
    let mut entries: Vec<TomlEntry> = Vec::new();
    assert(entry_models(entries@) =~= Seq::<(Seq<char>, TomlModel)>::empty());
    let mut index: usize = 0;
    while index < selected.len()
        invariant
            index <= selected@.len(),
            is_plain_table(entry_models(entries@)),
            reference_table(*catalog, selected@, service_name@, index as int) == Ok::<
                Seq<(Seq<char>, TomlModel)>,
                ManagerFailure,
            >(entry_models(entries@)),
        decreases selected@.len() - index,
    {
        let id = selected.at(index).as_str();
        assert(selected@[index as int] == id@);
        proof {
            if reference_table(*catalog, selected@, service_name@, index + 1) is Err {
                lemma_reference_table_fail(
                    *catalog,
                    selected@,
                    service_name@,
                    index + 1,
                    selected@.len() as int,
                );
            }
        }
        let module = match required_module(catalog, id) {
            Ok(module) => module,
            Err(error) => {
                return Err(error);
            },
        };
        match insert_fields(&mut entries, &module.configuration.fields, service_name) {
            Ok(()) => {},
            Err(error) => {
                return Err(error);
            },
        }
        index += 1;
    }
    Ok(entries)
}

/// Renders the reference configuration of the selected modules.
pub fn render_reference_config(
    catalog: &ModuleCatalog,
    selected: &TextSet,
    service_name: &str,
) -> (result: Result<String, ManagerError>)
    ensures
        renders(
            result,
            reference_document(*catalog, selected@, service_name@, toml_writing()),
        ),
{
    match catalog.validate_selection(selected) {
        Ok(()) => {},
        Err(error) => {
            return Err(ManagerError::Catalog(error));
        },
    }
    let entries = match build_reference_table(catalog, selected, service_name) {
        Ok(entries) => entries,
        Err(error) => {
            return Err(error);
        },
    };
    let document = TomlValue::Table(entries);
    proof {
        lemma_table_model(document);
    }
    let built = put_together(document);
    match write_document(&built) {
        Ok(rendered) => Ok(
            join2(
                "# Generated safe runtime configuration. Secrets are supplied through the process environment.\n",
                rendered.as_str(),
            ),
        ),
        Err(message) => Err(
            ManagerError::InvalidProject(
                join2("cannot render reference configuration: ", message.as_str()),
            ),
        ),
    }
}

} // verus!
