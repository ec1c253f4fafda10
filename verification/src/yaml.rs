//! The boundary to `serde_yaml`: the declarations and calls whose contracts are
//! taken on trust.
//!
//! Two calls cross it, [`parse_entries`] and [`render_entries`]. What they
//! return is given a name and nothing else is said of it. The other functions
//! move values between `serde_yaml`'s tree and [`ConfigValue`] for those two
//! calls and claim nothing of what they return.

use crate::store::{entries_map, keys_distinct};
use crate::value::{tags_ok, ConfigValue, Doc, Num};
use vstd::prelude::*;

verus! {

/// `serde_yaml::Number`, declared so that a float can be carried through the
/// store unchanged. Nothing in this crate looks inside one.
#[verifier::external_type_specification]
#[verifier::external_body]
pub struct ExYamlNumber(serde_yaml::Number);

/// `serde_yaml::Value`, the parser's own tree. It only passes through the
/// converters below.
#[verifier::external_type_specification]
#[verifier::external_body]
pub struct ExYamlValue(serde_yaml::Value);

/// `serde_yaml::Error`, what the parser and the writer report.
#[verifier::external_type_specification]
#[verifier::external_body]
pub struct ExYamlError(serde_yaml::Error);

/// `Clone::clone` of `serde_yaml::Number`: the type is a plain number, and the
/// copy is the same number.
pub assume_specification[ <serde_yaml::Number as Clone>::clone ](n: &serde_yaml::Number) -> (r:
    serde_yaml::Number)
    ensures
        r == *n,
;

/// What `serde_yaml::from_str` reads out of `text` when asked for a map from
/// string keys to values; `None` where it reports an error.
pub uninterp spec fn yaml_document(text: Seq<char>) -> Option<Map<Seq<char>, Doc>>;

/// The text that `serde_yaml::to_string` writes for a map from string keys to
/// values, keys in ascending order; `None` where it reports an error.
pub uninterp spec fn yaml_text(entries: Map<Seq<char>, Doc>) -> Option<Seq<char>>;

/// Moves a `serde_yaml::Number` into a [`Num`]: `Number::as_u64` and
/// `Number::as_i64` tell the integers apart, anything else is kept whole.
#[verifier::external_body]
fn number_from_yaml(n: serde_yaml::Number) -> Num {
    match (n.as_u64(), n.as_i64()) {
        (Some(u), _) => Num::PosInt(u),
        (_, Some(i)) => Num::NegInt(i),
        _ => Num::Float(n),
    }
}

/// Moves a `serde_yaml::Value` into a [`ConfigValue`], variant by variant. A
/// tag is kept in the form that `Tag`'s `Display` gives it, with its leading
/// `!`.
#[verifier::external_body]
fn value_from_yaml(v: serde_yaml::Value) -> ConfigValue {
    match v {
        serde_yaml::Value::Null => ConfigValue::Null,
        serde_yaml::Value::Bool(b) => ConfigValue::Bool(b),
        serde_yaml::Value::Number(n) => ConfigValue::Number(number_from_yaml(n)),
        serde_yaml::Value::String(s) => ConfigValue::String(s),
        serde_yaml::Value::Sequence(items) => ConfigValue::Sequence(
            items.into_iter().map(value_from_yaml).collect(),
        ),
        serde_yaml::Value::Mapping(m) => ConfigValue::Mapping(
            m.into_iter().map(|(k, x)| (value_from_yaml(k), value_from_yaml(x))).collect(),
        ),
        serde_yaml::Value::Tagged(t) => {
            ConfigValue::Tagged(t.tag.to_string(), Box::new(value_from_yaml(t.value)))
        },
    }
}

/// Moves a [`Num`] into a `serde_yaml::Number`: an integer through
/// `Number::from`, anything else as it was kept.
#[verifier::external_body]
fn number_to_yaml(n: &Num) -> serde_yaml::Number {
    match n {
        Num::PosInt(u) => serde_yaml::Number::from(*u),
        Num::NegInt(i) => serde_yaml::Number::from(*i),
        Num::Float(x) => x.clone(),
    }
}

/// Puts `inner` under the tag `tag`, with `serde_yaml::value::Tag::new`. That
/// function panics on an empty string, which the `requires` leaves out.
#[verifier::external_body]
fn tagged_yaml(tag: &str, inner: serde_yaml::Value) -> serde_yaml::Value
    requires
        tag@.len() > 0,
{
    let tag = serde_yaml::value::Tag::new(tag);
    serde_yaml::Value::Tagged(Box::new(serde_yaml::value::TaggedValue { tag, value: inner }))
}

/// Moves a [`ConfigValue`] into a `serde_yaml::Value`, variant by variant. The
/// `requires` is that of [`tagged_yaml`], for every tag inside.
#[verifier::external_body]
fn value_to_yaml(v: &ConfigValue) -> serde_yaml::Value
    requires
        tags_ok(v@),
{
    match v {
        ConfigValue::Null => serde_yaml::Value::Null,
        ConfigValue::Bool(b) => serde_yaml::Value::Bool(*b),
        ConfigValue::Number(n) => serde_yaml::Value::Number(number_to_yaml(n)),
        ConfigValue::String(s) => serde_yaml::Value::String(s.clone()),
        ConfigValue::Sequence(items) => items.iter().map(value_to_yaml).collect(),
        ConfigValue::Mapping(pairs) => serde_yaml::Value::Mapping(
            pairs.iter().map(|(k, x)| (value_to_yaml(k), value_to_yaml(x))).collect(),
        ),
        ConfigValue::Tagged(tag, inner) => tagged_yaml(tag, value_to_yaml(inner)),
    }
}

/// `serde_yaml::from_str`, asked for a `BTreeMap` from string keys to values.
/// The entries come back in ascending key order, each key once. As a map they
/// are what [`yaml_document`] names, and an error is reported exactly where
/// that is `None`.
#[verifier::external_body]
pub(crate) fn parse_entries(text: &str) -> (r: Result<
    Vec<(String, ConfigValue)>,
    serde_yaml::Error,
>)
    ensures
        match r {
            Ok(entries) => keys_distinct(entries@) && yaml_document(text@) == Some(
                entries_map(entries@),
            ),
            Err(_) => yaml_document(text@) is None,
        },
{
    let parsed: std::collections::BTreeMap<String, serde_yaml::Value> = serde_yaml::from_str(text)?;
    Ok(parsed.into_iter().map(|(k, v)| (k, value_from_yaml(v))).collect())
}

/// `serde_yaml::to_string` on the entries as a `BTreeMap` from string keys to
/// values. The text is what [`yaml_text`] names for that map, and an error is
/// reported exactly where that is `None`.
#[verifier::external_body]
pub(crate) fn render_entries(entries: &Vec<(String, ConfigValue)>) -> (r: Result<
    String,
    serde_yaml::Error,
>)
    requires
        keys_distinct(entries@),
        forall|i: int| 0 <= i < entries.len() ==> tags_ok((#[trigger] entries[i]).1@),
    ensures
        match r {
            Ok(text) => yaml_text(entries_map(entries@)) == Some(text@),
            Err(_) => yaml_text(entries_map(entries@)) is None,
        },
{
    let doc: std::collections::BTreeMap<&str, serde_yaml::Value> = entries.iter().map(
        |(k, v)| (k.as_str(), value_to_yaml(v)),
    ).collect();
    serde_yaml::to_string(&doc)
}

} // verus!
