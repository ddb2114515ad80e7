//! TOML documents as plain values.

use vstd::prelude::*;
use vstd::string::*;

use crate::modules::CatalogError;
use crate::ordered::{Sorted, TextSet, set_add};
use crate::text::{join2, same_text};

verus! {

/// A TOML value. Floating-point numbers and dates are not told apart.
#[derive(Debug)]
pub enum TomlValue {
    /// A string.
    Text(String),
    /// An integer.
    Integer(i64),
    /// A truth value.
    Flag(bool),
    /// An array.
    List(Vec<TomlValue>),
    /// A table, as its entries in the order of their keys.
    Table(Vec<TomlEntry>),
    /// A floating-point number or a date.
    Other,
}

/// An entry of a TOML table.
#[derive(Debug)]
pub struct TomlEntry {
    /// Key.
    pub key: String,
    /// Value.
    pub value: TomlValue,
}

/// `toml::Value`, opaque here.
#[verifier::external_type_specification]
#[verifier::external_body]
pub struct ExTomlValue(toml::Value);

/// What a `toml::Value` holds; a table as its entries in the order of their keys.
pub uninterp spec fn toml_contents(value: toml::Value) -> TomlValue;

/// What the document `source` holds, or why it is not a TOML document.
pub uninterp spec fn toml_parsed(source: Seq<char>) -> Result<TomlValue, Seq<char>>;

/// Calls `toml::from_str` for a `toml::Value`. What it returns, and the text of its error, depend
/// on `source` alone.
#[verifier::external_body]
fn parse_value(source: &str) -> (result: Result<toml::Value, String>)
    ensures
        match result {
            Ok(value) => toml_parsed(source@) == Ok::<TomlValue, Seq<char>>(toml_contents(value)),
            Err(message) => toml_parsed(source@) == Err::<TomlValue, Seq<char>>(message@),
        },
{
    toml::from_str::<toml::Value>(source).map_err(|error| error.to_string())
}

/// Takes a `toml::Value` apart, variant by variant; the entries of a `toml::Table` come in the
/// order of their keys, and no key comes twice.
#[verifier::external_body]
fn take_apart(value: toml::Value) -> (contents: TomlValue)
    ensures
        contents == toml_contents(value),
{
    match value {
        toml::Value::String(text) => TomlValue::Text(text),
        toml::Value::Integer(number) => TomlValue::Integer(number),
        toml::Value::Boolean(flag) => TomlValue::Flag(flag),
        toml::Value::Array(items) => TomlValue::List(items.into_iter().map(take_apart).collect()),
        toml::Value::Table(table) => TomlValue::Table(
            table.into_iter().map(|(key, value)| TomlEntry { key, value: take_apart(value) }).collect(),
        ),
        toml::Value::Float(_) => TomlValue::Other,
        toml::Value::Datetime(_) => TomlValue::Other,
    }
}

/// Reads a TOML document.
pub fn read_toml(source: &str) -> (result: Result<TomlValue, String>)
    ensures
        match result {
            Ok(value) => toml_parsed(source@) == Ok::<TomlValue, Seq<char>>(value),
            Err(message) => toml_parsed(source@) == Err::<TomlValue, Seq<char>>(message@),
        },
{
    match parse_value(source) {
        Ok(value) => Ok(take_apart(value)),
        Err(message) => Err(message),
    }
}

/// The place, from `at` on, of the first entry with a key.
pub open spec fn entry_place(entries: Seq<TomlEntry>, key: Seq<char>, at: int) -> int
    decreases entries.len() - at,
{
    if at < 0 || at >= entries.len() || entries[at].key@ == key {
        at
    } else {
        entry_place(entries, key, at + 1)
    }
}

/// The value of a key in a table.
pub open spec fn entry_of(entries: Seq<TomlEntry>, key: Seq<char>) -> Option<TomlValue> {
    let place = entry_place(entries, key, 0);
    if place < entries.len() {
        Some(entries[place].value)
    } else {
        None
    }
}

impl TomlValue {
    /// The value of a key, where this is a table.
    pub open spec fn entry(self, key: Seq<char>) -> Option<TomlValue> {
        match self {
            TomlValue::Table(entries) => entry_of(entries@, key),
            _ => None,
        }
    }

    /// The characters of a string.
    pub open spec fn text(self) -> Option<Seq<char>> {
        match self {
            TomlValue::Text(text) => Some(text@),
            _ => None,
        }
    }

    /// The entries of a table.
    pub open spec fn entries(self) -> Option<Seq<TomlEntry>> {
        match self {
            TomlValue::Table(entries) => Some(entries@),
            _ => None,
        }
    }

    /// The items of an array.
    pub open spec fn items(self) -> Option<Seq<TomlValue>> {
        match self {
            TomlValue::List(items) => Some(items@),
            _ => None,
        }
    }

    /// Returns the value of a key, where this is a table.
    pub fn get(&self, key: &str) -> (found: Option<&TomlValue>)
        ensures
            match found {
                Some(value) => self.entry(key@) == Some(*value),
                None => self.entry(key@) is None,
            },
    {
        match self {
            TomlValue::Table(entries) => find_entry(entries, key),
            _ => None,
        }
    }

    /// Returns the entries of a table.
    pub fn as_table(&self) -> (found: Option<&Vec<TomlEntry>>)
        ensures
            match found {
                Some(entries) => self.entries() == Some(entries@),
                None => self.entries() is None,
            },
    {
        match self {
            TomlValue::Table(entries) => Some(entries),
            _ => None,
        }
    }

    /// Returns the items of an array.
    pub fn as_list(&self) -> (found: Option<&Vec<TomlValue>>)
        ensures
            match found {
                Some(items) => self.items() == Some(items@),
                None => self.items() is None,
            },
    {
        match self {
            TomlValue::List(items) => Some(items),
            _ => None,
        }
    }

    /// Returns the string that this value is.
    pub fn as_text(&self) -> (found: Option<&str>)
        ensures
            match found {
                Some(text) => self.text() == Some(text@),
                None => self.text() is None,
            },
    {
        match self {
            TomlValue::Text(text) => Some(text.as_str()),
            _ => None,
        }
    }

    /// Returns whether this value is the truth value `flag`.
    pub fn is_flag(&self, flag: bool) -> (result: bool)
        ensures
            result == (*self == TomlValue::Flag(flag)),
    {
        match self {
            TomlValue::Flag(value) => *value == flag,
            _ => false,
        }
    }

    /// Returns whether this value is the string `text`.
    pub fn is_text(&self, text: &str) -> (result: bool)
        ensures
            result == (self.text() == Some(text@)),
    {
        match self {
            TomlValue::Text(value) => same_text(value.as_str(), text),
            _ => false,
        }
    }
}

/// Finds the value of a key in a table.
pub fn find_entry<'a>(entries: &'a Vec<TomlEntry>, key: &str) -> (found: Option<&'a TomlValue>)
    ensures
        match found {
            Some(value) => entry_of(entries@, key@) == Some(*value),
            None => entry_of(entries@, key@) is None,
        },
{
    let mut index: usize = 0;
    while index < entries.len()
        invariant
            index <= entries@.len(),
            entry_place(entries@, key@, 0) == entry_place(entries@, key@, index as int),
        decreases entries@.len() - index,
    {
        if same_text(entries[index].key.as_str(), key) {
            return Some(&entries[index].value);
        }
        index += 1;
    }
    None
}

/// The value at the end of a path of keys.
pub open spec fn nested(value: Option<TomlValue>, key: Seq<char>) -> Option<TomlValue> {
    match value {
        Some(value) => value.entry(key),
        None => None,
    }
}

/// Returns the value of a key of an optional value.
pub fn get_nested<'a>(value: Option<&'a TomlValue>, key: &str) -> (found: Option<&'a TomlValue>)
    ensures
        ({
            let outer = match value {
                Some(value) => Some(*value),
                None => None,
            };
            match found {
                Some(value) => nested(outer, key@) == Some(*value),
                None => nested(outer, key@) is None,
            }
        }),
{
    match value {
        Some(value) => value.get(key),
        None => None,
    }
}

/// The table of dependencies of a workspace manifest.
pub open spec fn workspace_dependencies(manifest: TomlValue) -> Option<Seq<TomlEntry>> {
    match nested(manifest.entry("workspace"@), "dependencies"@) {
        Some(value) => value.entries(),
        None => None,
    }
}

/// Returns the names of the dependencies that a workspace manifest declares.
pub fn workspace_dependency_keys(source: &str) -> (result: Result<TextSet, CatalogError>)
    ensures
        match toml_parsed(source@) {
            Err(message) => result matches Err(error) && error.text()
                == "invalid workspace manifest: "@ + message,
            Ok(manifest) => declared_keys(manifest, result),
        },
{
    let manifest = match read_toml(source) {
        Ok(manifest) => manifest,
        Err(message) => {
            return Err(CatalogError::new(join2("invalid workspace manifest: ", message.as_str())));
        },
    };
    workspace_keys(&manifest)
}

/// Whether `result` holds the keys of a manifest's workspace dependencies, or tells that there
/// are none.
pub open spec fn declared_keys(manifest: TomlValue, result: Result<TextSet, CatalogError>) -> bool {
    match workspace_dependencies(manifest) {
        None => result matches Err(error) && error.text()
            == "workspace manifest lacks workspace.dependencies"@,
        Some(entries) => result matches Ok(keys) && forall|key: Seq<char>| #[trigger]
            keys@.contains(key) <==> exists|i: int|
                0 <= i < entries.len() && (#[trigger] entries[i]).key@ == key,
    }
}

/// Returns the names of the dependencies of a parsed workspace manifest.
pub fn workspace_keys(manifest: &TomlValue) -> (result: Result<TextSet, CatalogError>)
    ensures
        declared_keys(*manifest, result),
{
    let dependencies = match get_nested(manifest.get("workspace"), "dependencies") {
        Some(value) => value.as_table(),
        None => None,
    };
    let entries = match dependencies {
        Some(entries) => entries,
        None => {
            return Err(
                CatalogError::new("workspace manifest lacks workspace.dependencies".to_owned()),
            );
        },
    };
    let mut keys: TextSet = Sorted::new();
    let mut index: usize = 0;
    while index < entries.len()
        invariant
            index <= entries@.len(),
            forall|key: Seq<char>| #[trigger]
                keys@.contains(key) <==> exists|i: int|
                    0 <= i < index && (#[trigger] entries@[i]).key@ == key,
        decreases entries@.len() - index,
    {
        let ghost before = keys@;
        set_add(&mut keys, entries[index].key.as_str());
        proof {
            assert forall|key: Seq<char>| #[trigger]
                keys@.contains(key) <==> exists|i: int|
                    0 <= i < index + 1 && (#[trigger] entries@[i]).key@ == key by {
                assert(before.contains(key) <==> exists|i: int|
                    0 <= i < index && (#[trigger] entries@[i]).key@ == key);
                if key == entries@[index as int].key@ {
                    assert(entries@[index as int].key@ == key);
                }
            }
        }
        index += 1;
    }
    Ok(keys)
}

} // verus!
