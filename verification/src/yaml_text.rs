//! YAML documents as plain values.

use vstd::prelude::*;
use vstd::string::*;

use crate::text::same_text;

verus! {

/// A YAML value, without its tag. Numbers, truth values and nulls are not told apart.
#[derive(Debug)]
pub enum YamlValue {
    /// A string.
    Text(String),
    /// A sequence.
    List(Vec<YamlValue>),
    /// A mapping.
    Mapping(Vec<YamlEntry>),
    /// A number, a truth value or a null.
    Other,
}

/// An entry of a YAML mapping.
#[derive(Debug)]
pub struct YamlEntry {
    /// Key, where it is an untagged string.
    pub key: Option<String>,
    /// Value.
    pub value: YamlValue,
}

/// `serde_yaml::Value`, opaque here.
#[verifier::external_type_specification]
#[verifier::external_body]
pub struct ExYamlValue(serde_yaml::Value);

/// What a `serde_yaml::Value` holds, without its tags; a mapping as its entries.
pub uninterp spec fn yaml_contents(value: serde_yaml::Value) -> YamlValue;

/// What the document `source` holds, or why it is not a YAML document.
pub uninterp spec fn yaml_parsed(source: Seq<char>) -> Result<YamlValue, Seq<char>>;

/// Calls `serde_yaml::from_str` for a `serde_yaml::Value`. What it returns, and the text of its
/// error, depend on `source` alone.
#[verifier::external_body]
fn parse_value(source: &str) -> (result: Result<serde_yaml::Value, String>)
    ensures
        match result {
            Ok(value) => yaml_parsed(source@) == Ok::<YamlValue, Seq<char>>(yaml_contents(value)),
            Err(message) => yaml_parsed(source@) == Err::<YamlValue, Seq<char>>(message@),
        },
{
    serde_yaml::from_str::<serde_yaml::Value>(source).map_err(|error| error.to_string())
}

/// Takes a `serde_yaml::Value` apart, variant by variant; a tagged value as the value behind its
/// tag.
#[verifier::external_body]
fn take_apart(value: serde_yaml::Value) -> (contents: YamlValue)
    ensures
        contents == yaml_contents(value),
{
    match value {
        serde_yaml::Value::String(text) => YamlValue::Text(text),
        serde_yaml::Value::Sequence(items) => YamlValue::List(items.into_iter().map(take_apart).collect()),
        serde_yaml::Value::Mapping(entries) => YamlValue::Mapping(
            entries.into_iter().map(|(key, value)| YamlEntry {
                key: match key { serde_yaml::Value::String(text) => Some(text), _ => None },
                value: take_apart(value),
            }).collect(),
        ),
        serde_yaml::Value::Tagged(tagged) => take_apart(tagged.value),
        serde_yaml::Value::Null => YamlValue::Other,
        serde_yaml::Value::Bool(_) => YamlValue::Other,
        serde_yaml::Value::Number(_) => YamlValue::Other,
    }
}

/// Reads a YAML document.
pub fn read_yaml(source: &str) -> (result: Result<YamlValue, String>)
    ensures
        match result {
            Ok(value) => yaml_parsed(source@) == Ok::<YamlValue, Seq<char>>(value),
            Err(message) => yaml_parsed(source@) == Err::<YamlValue, Seq<char>>(message@),
        },
{
    match parse_value(source) {
        Ok(value) => Ok(take_apart(value)),
        Err(message) => Err(message),
    }
}

/// Whether an entry has a key.
pub open spec fn entry_has(entry: YamlEntry, key: Seq<char>) -> bool {
    entry.key matches Some(text) && text@ == key
}

/// The place, from `at` on, of the first entry with a key.
pub open spec fn yaml_place(entries: Seq<YamlEntry>, key: Seq<char>, at: int) -> int
    decreases entries.len() - at,
{
    if at < 0 || at >= entries.len() || entry_has(entries[at], key) {
        at
    } else {
        yaml_place(entries, key, at + 1)
    }
}

impl YamlValue {
    /// The value of a key, where this is a mapping.
    pub open spec fn entry(self, key: Seq<char>) -> Option<YamlValue> {
        match self {
            YamlValue::Mapping(entries) => {
                let place = yaml_place(entries@, key, 0);
                if place < entries@.len() {
                    Some(entries@[place].value)
                } else {
                    None
                }
            },
            _ => None,
        }
    }

    /// The items of a sequence.
    pub open spec fn items(self) -> Option<Seq<YamlValue>> {
        match self {
            YamlValue::List(items) => Some(items@),
            _ => None,
        }
    }

    /// The characters of a string.
    pub open spec fn text(self) -> Option<Seq<char>> {
        match self {
            YamlValue::Text(text) => Some(text@),
            _ => None,
        }
    }

    /// Returns the value of a key, where this is a mapping.
    pub fn get(&self, key: &str) -> (found: Option<&YamlValue>)
        ensures
            match found {
                Some(value) => self.entry(key@) == Some(*value),
                None => self.entry(key@) is None,
            },
    {
        let entries = match self {
            YamlValue::Mapping(entries) => entries,
            _ => {
                return None;
            },
        };
        let mut index: usize = 0;
        while index < entries.len()
            invariant
                *self == YamlValue::Mapping(*entries),
                index <= entries@.len(),
                yaml_place(entries@, key@, 0) == yaml_place(entries@, key@, index as int),
            decreases entries@.len() - index,
        {
            if let Some(text) = &entries[index].key {
                if same_text(text.as_str(), key) {
                    return Some(&entries[index].value);
                }
            }
            index += 1;
        }
        None
    }

    /// Returns the items of a sequence.
    pub fn as_list(&self) -> (found: Option<&Vec<YamlValue>>)
        ensures
            match found {
                Some(items) => self.items() == Some(items@),
                None => self.items() is None,
            },
    {
        match self {
            YamlValue::List(items) => Some(items),
            _ => None,
        }
    }

    /// Returns the string that this value is.
    pub fn as_text(&self) -> (found: Option<&str>)
        ensures
            match found {
                Some(text) => self.text() == Some(text@),
                None => self.text() is None,
            },
    {
        match self {
            YamlValue::Text(text) => Some(text.as_str()),
            _ => None,
        }
    }

    /// Returns whether this is a mapping.
    pub fn is_mapping(&self) -> (result: bool)
        ensures
            result == (self is Mapping),
    {
        match self {
            YamlValue::Mapping(_) => true,
            _ => false,
        }
    }
}

} // verus!
