use crate::codec::{describe, lift, lifted, read_yaml, yaml_tree};
use crate::value::{Doc, Node};
use vstd::prelude::*;

verus! {

/// Why a text could not be read as a document.
#[derive(Debug)]
pub struct ParseError {
    /// What the reader said of the text.
    pub message: String,
}

impl ParseError {
    /// The message, for display.
    pub fn to_string(&self) -> (message: String)
        ensures
            message@ == self.message@,
    {
        self.message.clone()
    }
}

/// The document that a YAML text holds, where it is well-formed.
pub open spec fn parsed(text: Seq<char>) -> Option<Doc> {
    match yaml_tree(text) {
        Some(tree) => Some(lifted(tree)),
        None => None,
    }
}

/// Reads a YAML text as a document. A text that is not well-formed is
/// refused.
pub fn parse_yaml(content: &str) -> (read: Result<Node, ParseError>)
    ensures
        match read {
            Ok(value) => parsed(content@) == Some(value@),
            Err(_) => parsed(content@) is None,
        },
{
    match read_yaml(content) {
        Ok(tree) => Ok(lift(&tree)),
        Err(error) => Err(ParseError { message: describe(&error) }),
    }
}

} // verus!
