//! Reading the text of a variable as a tree.
//!
//! The text of a variable is a YAML document, and `serde_yaml` reads it. What
//! it makes of a text is not proved here: the two functions that touch its
//! trees only give their results a name, so that the contracts of the overlay
//! can say which tree replaces a node.

use vstd::prelude::*;
use crate::tree::{Node, Tree};

verus! {

/// The tree type of `serde_yaml`. Verified code never looks inside one.
#[verifier::external_type_specification]
#[verifier::external_body]
pub struct ExYamlValue(serde_yaml::Value);

/// What `serde_yaml::from_str` makes of a text when it is asked for a
/// `serde_yaml::Value`: the tree of the document, or the message of the
/// error that it reports.
pub uninterp spec fn parsed(text: Seq<char>) -> Result<Node, Seq<char>>;

/// The nodes that a tree of `serde_yaml` holds.
pub uninterp spec fn document_tree(document: serde_yaml::Value) -> Node;

/// Reads a text with `serde_yaml::from_str` as a `serde_yaml::Value`.
///
/// The contract only names the result: the same text is always read as the
/// same tree, or refused with the same message.
#[verifier::external_body]
fn read_document(text: &str) -> (read: Result<serde_yaml::Value, String>)
    ensures
        match read {
            Ok(document) => parsed(text@) == Ok::<Node, Seq<char>>(document_tree(document)),
            Err(message) => parsed(text@) == Err::<Node, Seq<char>>(message@),
        },
{
    match serde_yaml::from_str::<serde_yaml::Value>(text) {
        Ok(document) => Ok(document),
        Err(error) => Err(error.to_string()),
    }
}

/// Rebuilds a tree of `serde_yaml` node by node: each variant becomes the
/// variant of the same name, a number its canonical text, a tag its text.
///
/// The contract only names the result: the tree holds the nodes of the
/// document.
#[verifier::external_body]
fn from_yaml(document: serde_yaml::Value) -> (tree: Tree)
    ensures
        tree@ == document_tree(document),
{
    match document {
        serde_yaml::Value::Null => Tree::Null,
        serde_yaml::Value::Bool(b) => Tree::Bool(b),
        serde_yaml::Value::Number(n) => Tree::Number(n.to_string()),
        serde_yaml::Value::String(s) => Tree::String(s),
        serde_yaml::Value::Sequence(s) => Tree::Sequence(s.into_iter().map(from_yaml).collect()),
        serde_yaml::Value::Mapping(m) => Tree::Mapping(
            m.into_iter().map(|(k, v)| (from_yaml(k), from_yaml(v))).collect(),
        ),
        serde_yaml::Value::Tagged(t) => Tree::Tagged(
            t.tag.to_string(),
            Box::new(from_yaml(t.value)),
        ),
    }
}

/// Reads the text of a variable as a tree. A text that is no document is
/// refused with the reader's message.
pub fn parse(text: &str) -> (fragment: Result<Tree, String>)
    ensures
        match fragment {
            Ok(tree) => parsed(text@) == Ok::<Node, Seq<char>>(tree@),
            Err(message) => parsed(text@) == Err::<Node, Seq<char>>(message@),
        },
{
    match read_document(text) {
        Ok(document) => Ok(from_yaml(document)),
        Err(message) => Err(message),
    }
}

} // verus!
