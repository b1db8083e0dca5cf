//! The TOML side of configuration: parsing a document with the `toml`
//! crate and reading its top-level entries as plain values.

use vstd::prelude::*;

verus! {

#[verifier::external_type_specification]
#[verifier::external_body]
#[verifier::reject_recursive_types(K)]
#[verifier::reject_recursive_types(V)]
pub struct ExTomlMap<K, V>(toml::map::Map<K, V>);

#[verifier::external_type_specification]
#[verifier::external_body]
pub struct ExTomlValue(toml::Value);

/// The kind of a TOML value, as configuration reads it: strings and
/// integers carry their contents; every other kind is just "other".
#[derive(Debug)]
pub enum TomlKind {
    String(String),
    Integer(i64),
    Other,
}

/// A TOML value together with its rendering in TOML syntax (the text that
/// warnings quote).
#[derive(Debug)]
pub struct TomlItem {
    pub kind: TomlKind,
    pub rendered: String,
}

pub enum TomlKindModel {
    String(Seq<char>),
    Integer(i64),
    Other,
}

pub struct TomlItemModel {
    pub kind: TomlKindModel,
    pub rendered: Seq<char>,
}

impl View for TomlItem {
    type V = TomlItemModel;

    open spec fn view(&self) -> TomlItemModel {
        TomlItemModel {
            kind: match self.kind {
                TomlKind::String(s) => TomlKindModel::String(s@),
                TomlKind::Integer(i) => TomlKindModel::Integer(i),
                TomlKind::Other => TomlKindModel::Other,
            },
            rendered: self.rendered@,
        }
    }
}

/// What a TOML table holds at its top level: each key with its value,
/// classified and rendered.
pub uninterp spec fn toml_entries(table: toml::map::Map<String, toml::Value>) -> Map<Seq<char>, TomlItemModel>;

/// The top-level entries of the TOML document `contents`, or, when it is
/// not valid TOML, the text of the error that toml reports for it.
pub uninterp spec fn toml_document(contents: Seq<char>) -> Result<Map<Seq<char>, TomlItemModel>, Seq<char>>;

/// Parses a TOML document through toml's `FromStr for Table`
/// (`toml::from_str`), handing an error back as its `Display` text.
/// Claimed: it succeeds exactly when the document is valid TOML; the table
/// then holds the document's top-level entries, and the error text
/// otherwise; both depend on `contents` alone.
#[verifier::external_body]
pub(crate) fn parse_toml_table(contents: &str) -> (r: Result<toml::map::Map<String, toml::Value>, String>)
    ensures
        r is Ok <==> toml_document(contents@) is Ok,
        r matches Ok(table) ==> toml_entries(table) == toml_document(contents@)->Ok_0,
        r matches Err(text) ==> text@ == toml_document(contents@)->Err_0,
{
    match contents.parse::<toml::Table>() {
        Ok(table) => Ok(table),
        Err(error) => Err(error.to_string()),
    }
}

/// Looks `key` up with toml's `Map::get` and hands the value back as a
/// [`TomlItem`]: its kind (moving the string or integer out) and its
/// rendering through `Display for toml::Value`. Claimed: the result is the
/// table's entry for `key`, if it has one.
#[verifier::external_body]
pub(crate) fn toml_lookup(table: &toml::map::Map<String, toml::Value>, key: &str) -> (r: Option<TomlItem>)
    ensures
        r is Some <==> toml_entries(*table).contains_key(key@),
        r matches Some(item) ==> item@ == toml_entries(*table)[key@],
{
    match table.get(key) {
        None => None,
        Some(value) => {
            let kind = match value {
                toml::Value::String(s) => TomlKind::String(s.clone()),
                toml::Value::Integer(i) => TomlKind::Integer(*i),
                _ => TomlKind::Other,
            };
            Some(TomlItem { kind, rendered: value.to_string() })
        },
    }
}

} // verus!
