//! Values of TOML documents (such as crate manifests), and reading the entries of their
//! tables.

use vstd::prelude::*;

use crate::assoc::{find_key, lookup, pairs_view};

verus! {

/// A TOML value. A table holds its entries in key order, each key once; a float is held as
/// the bits of its `f64`, a date and time as its text.
pub enum TomlValue {
    String(String),
    Integer(i64),
    Float(u64),
    Boolean(bool),
    Datetime(String),
    Array(Vec<TomlValue>),
    Table(Vec<(String, TomlValue)>),
}

#[verifier::external_type_specification]
#[verifier::external_body]
pub struct ExTomlValue(toml::Value);

/// What `toml`'s parser (`str::parse::<toml::Value>`) makes of a text, in the library's form:
/// `None` where the text is not valid TOML.
pub uninterp spec fn toml_parse(data: Seq<char>) -> Option<TomlValue>;

/// The library's form of a parsed `toml::Value`, variant by variant: a float by its bits,
/// a date and time by its text (`Display`), a table's entries in the map's (key) order.
#[verifier::external_body]
fn from_toml(v: &toml::Value) -> TomlValue {
    match v {
        toml::Value::String(s) => TomlValue::String(s.clone()),
        toml::Value::Integer(i) => TomlValue::Integer(*i),
        toml::Value::Float(f) => TomlValue::Float(f.to_bits()),
        toml::Value::Boolean(b) => TomlValue::Boolean(*b),
        toml::Value::Datetime(d) => TomlValue::Datetime(d.to_string()),
        toml::Value::Array(a) => TomlValue::Array(a.iter().map(from_toml).collect()),
        toml::Value::Table(t) => TomlValue::Table(t.iter().map(|(k, x)| (k.clone(), from_toml(x))).collect()),
    }
}

/// `str::parse::<toml::Value>` (the `toml` crate's parser), its result in the library's
/// form. The parse depends on the text alone; what it gives is named, not stated.
#[verifier::external_body]
fn parse_toml(data: &str) -> (r: Option<TomlValue>)
    ensures
        r == toml_parse(data@),
{
    match data.parse::<toml::Value>() {
        Ok(v) => Some(from_toml(&v)),
        Err(_) => None,
    }
}

/// The value a TOML text holds; `None` where it is not valid TOML.
pub fn toml_value_from_string(data: &str) -> (r: Option<TomlValue>)
    ensures
        r == toml_parse(data@),
{
    parse_toml(data)
}

/// Why an entry could not be read out of a value.
#[derive(PartialEq, Eq, Structural, Clone, Copy, Debug)]
pub enum TableError {
    /// The value is not a table.
    NotTable,
    /// The table has no entry under the key.
    MissingKey,
}

/// Why a value could not be read out of a table of a document.
#[derive(PartialEq, Eq, Structural, Clone, Copy, Debug)]
pub enum LookupError {
    /// The document has no table of that name.
    NoTable,
    /// The table has no entry under the key.
    NoKey,
}

/// The entry of `v` under `key`: none where `v` is not a table or has no such entry.
pub open spec fn entry(v: TomlValue, key: Seq<char>) -> Option<TomlValue> {
    match v {
        TomlValue::Table(t) => lookup(pairs_view(t@), key),
        _ => None,
    }
}

/// The entry of `value` under `key`; an error where `value` is not a table, or has no entry
/// under `key`.
pub fn get_value_in_table<'a>(value: &'a TomlValue, key: &str) -> (r: Result<&'a TomlValue, TableError>)
    ensures
        !(value is Table) ==> r == Err::<&TomlValue, TableError>(TableError::NotTable),
        value is Table ==> (r is Err <==> entry(*value, key@) is None),
        value is Table && r is Err ==> r->Err_0 == TableError::MissingKey,
        r matches Ok(v) ==> entry(*value, key@) == Some(*v),
{
    match value {
        TomlValue::Table(table) => match find_key(table, key) {
            Some(i) => Ok(&table[i].1),
            None => Err(TableError::MissingKey),
        },
        _ => Err(TableError::NotTable),
    }
}

/// The value under `key` in the table `table_name` of the document `value`; an error where
/// there is no such table, or no such entry in it.
pub fn get_toml_value<'a>(value: &'a TomlValue, table_name: &str, key: &str) -> (r: Result<
    &'a TomlValue,
    LookupError,
>)
    ensures
        entry(*value, table_name@) is None ==> r == Err::<&TomlValue, LookupError>(
            LookupError::NoTable,
        ),
        entry(*value, table_name@) matches Some(t) ==> (entry(t, key@) is None ==> r == Err::<
            &TomlValue,
            LookupError,
        >(LookupError::NoKey)),
        entry(*value, table_name@) matches Some(t) ==> (entry(t, key@) matches Some(v) ==> (r matches Ok(
            x,
        ) && *x == v)),
{
    match get_value_in_table(value, table_name) {
        Ok(table) => match get_value_in_table(table, key) {
            Err(_) => Err(LookupError::NoKey),
            Ok(v) => Ok(v),
        },
        Err(_) => Err(LookupError::NoTable),
    }
}

} // verus!
