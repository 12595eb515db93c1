//! YAML front-matter values.
//!
//! YAML text is parsed by `yaml_serde`; the parsed value is copied node for node into the
//! library's own [`YamlNode`] tree, which the front-matter rules then read.

use vstd::prelude::*;

verus! {

#[verifier::external_type_specification]
#[verifier::external_body]
pub struct ExYamlValue(yaml_serde::Value);

/// A YAML value held as plain data.
#[derive(Debug)]
pub enum YamlNode {
    /// `null`, `~`, or an empty scalar.
    Null,
    /// A boolean scalar.
    Bool(bool),
    /// A numeric scalar in its canonical decimal spelling.
    Number(String),
    /// A string scalar.
    Text(String),
    /// A sequence.
    List(Vec<YamlNode>),
    /// A mapping, in document order.
    Mapping(Vec<(YamlNode, YamlNode)>),
}

/// What `yaml_serde::from_str::<yaml_serde::Value>` reads from YAML text, copied node for node:
/// `None` when it rejects the text.
pub uninterp spec fn yaml_node(text: Seq<char>) -> Option<YamlNode>;

/// Copies a parsed `yaml_serde::Value` into a [`YamlNode`], variant for variant: numbers by
/// their `Display` text, mappings in insertion order, and a tagged value as the value inside.
#[verifier::external_body]
fn copy_yaml(value: &yaml_serde::Value) -> (r: YamlNode) {
    match value {
        yaml_serde::Value::Null => YamlNode::Null,
        yaml_serde::Value::Bool(b) => YamlNode::Bool(*b),
        yaml_serde::Value::Number(n) => YamlNode::Number(n.to_string()),
        yaml_serde::Value::String(s) => YamlNode::Text(s.clone()),
        yaml_serde::Value::Sequence(items) => YamlNode::List(items.iter().map(copy_yaml).collect()),
        yaml_serde::Value::Mapping(map) => YamlNode::Mapping(map.iter().map(|(k, v)| (copy_yaml(k), copy_yaml(v))).collect()),
        yaml_serde::Value::Tagged(tagged) => copy_yaml(&tagged.value),
    }
}

/// Parses YAML text with `yaml_serde::from_str::<yaml_serde::Value>` and copies the value (see
/// [`copy_yaml`]). The copy is what [`yaml_node`] names for the text, and a rejection carries
/// the `Display` text of the `yaml_serde` error. `yaml_serde` refuses values nested more than
/// 128 levels, so the copy is bounded.
#[verifier::external_body]
pub(crate) fn parse_yaml_node(text: &str) -> (r: Result<YamlNode, String>)
    ensures
        match r {
            Ok(n) => yaml_node(text@) == Some(n),
            Err(_) => yaml_node(text@) is None,
        },
{
    match yaml_serde::from_str::<yaml_serde::Value>(text) {
        Ok(value) => Ok(copy_yaml(&value)),
        Err(error) => Err(error.to_string()),
    }
}

/// Text of a string scalar, as a string field reads it. `None` for every other node: a string
/// field does not take a number, a boolean, null, a sequence or a mapping.
pub open spec fn scalar_text(node: YamlNode) -> Option<Seq<char>> {
    match node {
        YamlNode::Text(s) => Some(s@),
        _ => None,
    }
}

/// Executable form of [`scalar_text`].
pub fn scalar_string(node: &YamlNode) -> (r: Option<String>)
    ensures
        match r {
            Some(s) => scalar_text(*node) == Some(s@),
            None => scalar_text(*node) is None,
        },
{
    match node {
        YamlNode::Text(s) => Some(s.clone()),
        _ => None,
    }
}

} // verus!
