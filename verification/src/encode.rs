//! Writing a sequence of records as JSON, YAML or TOML text.
//!
//! The text itself is the work of the encoder crates. This module fixes what
//! is handed to them: for JSON and YAML the bare sequence of records, for
//! TOML a document whose single field holds that sequence.

use vstd::prelude::*;
use crate::error::{ConvertError, EncodingError};
use crate::opts::OutputFormat;
use crate::record::Record;

verus! {

#[verifier::external_type_specification]
#[verifier::external_body]
pub struct ExJsonError(serde_json::Error);

#[verifier::external_type_specification]
#[verifier::external_body]
pub struct ExYamlError(serde_yaml::Error);

#[verifier::external_type_specification]
#[verifier::external_body]
pub struct ExTomlError(toml::ser::Error);

/// The pretty-printed JSON text of an array with one object per record, each
/// object holding the record's fields in order as string members; `None`
/// where the encoder fails.
pub uninterp spec fn json_text(records: Seq<Seq<(Seq<char>, Seq<char>)>>) -> Option<Seq<char>>;

/// The YAML text of a sequence with one mapping per record, each mapping
/// holding the record's fields in order as string entries; `None` where the
/// encoder fails.
pub uninterp spec fn yaml_text(records: Seq<Seq<(Seq<char>, Seq<char>)>>) -> Option<Seq<char>>;

/// The pretty-printed TOML text of a document with the one field `field`,
/// an array with one table per record, each table holding the record's
/// fields in order as string values; `None` where the encoder fails.
pub uninterp spec fn toml_text(field: Seq<char>, records: Seq<Seq<(Seq<char>, Seq<char>)>>) -> Option<
    Seq<char>,
>;

/// The name of the field under which a TOML document holds the records.
pub const TOML_FIELD: &'static str = "data";

/// The models of a list of records.
pub open spec fn record_views(records: Seq<Record>) -> Seq<Seq<(Seq<char>, Seq<char>)>> {
    Seq::new(records.len(), |i: int| records[i]@)
}

/// The text of `records` in `format`, or `None` where its encoder fails.
pub open spec fn encoded(format: OutputFormat, records: Seq<Seq<(Seq<char>, Seq<char>)>>) -> Option<
    Seq<char>,
> {
    match format {
        OutputFormat::Json => json_text(records),
        OutputFormat::Yaml => yaml_text(records),
        OutputFormat::Toml => toml_text(TOML_FIELD@, records),
    }
}

/// Calls `serde_json::to_string_pretty` on a vector of `serde_json::Value`
/// that holds one `Object` per record, built from the record's fields in
/// order with each value as a `String`. No key occurs twice in a record, so
/// each field becomes one member. The contract names the outcome: the text,
/// or the failure, is a function of the records alone.
#[verifier::external_body]
fn json_pretty(records: &Vec<Record>) -> (out: Result<String, serde_json::Error>)
    ensures
        match out {
            Ok(text) => json_text(record_views(records@)) == Some(text@),
            Err(_) => json_text(record_views(records@)) is None,
        },
{
    let values: Vec<serde_json::Value> = records.iter().map(
        |record|
            serde_json::Value::Object(
                record.fields().iter().map(
                    |(key, value)| (key.clone(), serde_json::Value::String(value.clone())),
                ).collect(),
            ),
    ).collect();
    serde_json::to_string_pretty(&values)
}

/// Calls `serde_yaml::to_string` on a vector of `serde_yaml::Value` that
/// holds one `Mapping` per record, built from the record's fields in order
/// with each key and value as a `String`. No key occurs twice in a record,
/// so each field becomes one entry. The contract names the outcome: the
/// text, or the failure, is a function of the records alone.
#[verifier::external_body]
fn yaml_string(records: &Vec<Record>) -> (out: Result<String, serde_yaml::Error>)
    ensures
        match out {
            Ok(text) => yaml_text(record_views(records@)) == Some(text@),
            Err(_) => yaml_text(record_views(records@)) is None,
        },
{
    let values: Vec<serde_yaml::Value> = records.iter().map(
        |record|
            serde_yaml::Value::Mapping(
                record.fields().iter().map(
                    |(key, value)|
                        (
                            serde_yaml::Value::String(key.clone()),
                            serde_yaml::Value::String(value.clone()),
                        ),
                ).collect(),
            ),
    ).collect();
    serde_yaml::to_string(&values)
}

/// Calls `toml::to_string_pretty` on a `toml::Table` whose one entry, under
/// `field`, is an `Array` that holds one `Table` per record, built from the
/// record's fields in order with each value as a `String`. No key occurs
/// twice in a record, so each field becomes one entry. The contract names
/// the outcome: the text, or the failure, is a function of the field name
/// and the records alone.
#[verifier::external_body]
fn toml_pretty(field: &str, records: &Vec<Record>) -> (out: Result<String, toml::ser::Error>)
    ensures
        match out {
            Ok(text) => toml_text(field@, record_views(records@)) == Some(text@),
            Err(_) => toml_text(field@, record_views(records@)) is None,
        },
{
    let tables: Vec<toml::Value> = records.iter().map(
        |record|
            toml::Value::Table(
                record.fields().iter().map(
                    |(key, value)| (key.clone(), toml::Value::String(value.clone())),
                ).collect(),
            ),
    ).collect();
    let document: toml::Table = [(field.to_string(), toml::Value::Array(tables))].into_iter().collect();
    toml::to_string_pretty(&document)
}

/// Writes `records` in `format`. JSON and YAML get the bare sequence of
/// records; TOML gets it as the field [`TOML_FIELD`] of a document.
pub fn encode(records: &Vec<Record>, format: OutputFormat) -> (result: Result<String, ConvertError>)
    ensures
        match result {
            Ok(text) => encoded(format, record_views(records@)) == Some(text@),
            Err(error) => encoded(format, record_views(records@)) is None && match format {
                OutputFormat::Json => error matches ConvertError::Encoding(EncodingError::Json(_)),
                OutputFormat::Yaml => error matches ConvertError::Encoding(EncodingError::Yaml(_)),
                OutputFormat::Toml => error matches ConvertError::Encoding(EncodingError::Toml(_)),
            },
        },
{
    match format {
        OutputFormat::Json => match json_pretty(records) {
            Ok(text) => Ok(text),
            Err(cause) => Err(ConvertError::Encoding(EncodingError::Json(cause))),
        },
        OutputFormat::Yaml => match yaml_string(records) {
            Ok(text) => Ok(text),
            Err(cause) => Err(ConvertError::Encoding(EncodingError::Yaml(cause))),
        },
        OutputFormat::Toml => match toml_pretty(TOML_FIELD, records) {
            Ok(text) => Ok(text),
            Err(cause) => Err(ConvertError::Encoding(EncodingError::Toml(cause))),
        },
    }
}

} // verus!
