use crate::text::decimal;
use crate::value::{Doc, Node, Num, NumView, NumberKind};
use vstd::prelude::*;

verus! {

#[verifier::external_type_specification]
#[verifier::external_body]
pub struct ExJsonTree(serde_json::Value);

#[verifier::external_type_specification]
#[verifier::external_body]
pub struct ExJsonNumber(serde_json::Number);

#[verifier::external_type_specification]
#[verifier::external_body]
pub struct ExYamlError(serde_yaml::Error);

/// The tree that `serde_yaml` reads from a text, where it reads one.
pub uninterp spec fn yaml_tree(text: Seq<char>) -> Option<serde_json::Value>;

/// The document that a `serde_json` tree holds.
pub uninterp spec fn lifted(tree: serde_json::Value) -> Doc;

/// The `serde_json` tree that holds a document.
pub uninterp spec fn lowered(doc: Doc) -> serde_json::Value;

/// The compact JSON text of a `serde_json` tree.
pub uninterp spec fn compact_json(tree: serde_json::Value) -> Seq<char>;

/// The parts of a `serde_json::Number`, as a [`Num`] holds them.
pub uninterp spec fn number_parts(n: serde_json::Number) -> NumView;

/// The `serde_json::Number` made of an unsigned integer.
pub uninterp spec fn counted(n: u64) -> serde_json::Number;

/// The SHA-256 digest of the UTF-8 bytes of a text, in lower-case hexadecimal.
pub uninterp spec fn sha256_hex(text: Seq<char>) -> Seq<char>;

/// Calls `serde_yaml::from_str` for a `serde_json::Value`. The contract claims
/// that whether a tree is read, and which, depends on the text alone.
#[verifier::external_body]
pub(crate) fn read_yaml(text: &str) -> (read: Result<serde_json::Value, serde_yaml::Error>)
    ensures
        match read {
            Ok(tree) => yaml_tree(text@) == Some(tree),
            Err(_) => yaml_tree(text@) is None,
        },
{
    serde_yaml::from_str::<serde_json::Value>(text)
}

/// Calls `to_string` on a `serde_yaml::Error`, which gives its message.
/// Nothing is claimed of the message.
#[verifier::external_body]
pub(crate) fn describe(error: &serde_yaml::Error) -> (message: String) {
    error.to_string()
}

/// Reads the parts of a `serde_json::Number`: `is_f64` and `is_u64` tell how it
/// was written, `as_f64` gives its value, of which the bit pattern and the
/// `Display` text are kept, and `to_string` gives its JSON text. The contract
/// claims that the parts depend on the number alone.
#[verifier::external_body]
pub(crate) fn lift_number(n: &serde_json::Number) -> (number: Num)
    ensures
        number@ == number_parts(*n),
{
    let value = n.as_f64();
    Num {
        kind: if n.is_f64() {
            NumberKind::Float
        } else if n.is_u64() {
            NumberKind::PosInt
        } else {
            NumberKind::NegInt
        },
        bits: value.map(|x| x.to_bits()).unwrap_or_default(),
        shown: value.map(|x| x.to_string()).unwrap_or_default(),
        json: n.to_string(),
    }
}

/// Calls `serde_json::Number::from` on an unsigned integer. The contract
/// claims that the number depends on the integer alone, that it counts as a
/// non-negative integer, and that its JSON text is the integer in decimal
/// notation.
#[verifier::external_body]
pub(crate) fn json_count(n: u64) -> (made: serde_json::Number)
    ensures
        made == counted(n),
        number_parts(made).kind == NumberKind::PosInt,
        number_parts(made).json == decimal(n as nat),
{
    serde_json::Number::from(n)
}

/// Copies a `serde_json::Value` into a [`Node`], variant by variant, with a
/// mapping's entries in the order in which `serde_json` walks them. The
/// contract claims that the document depends on the tree alone.
#[verifier::external_body]
pub(crate) fn lift(tree: &serde_json::Value) -> (value: Node)
    ensures
        value@ == lifted(*tree),
{
    match tree {
        serde_json::Value::Null => Node::Null,
        serde_json::Value::Bool(b) => Node::Bool(*b),
        serde_json::Value::Number(n) => Node::Number(lift_number(n)),
        serde_json::Value::String(s) => Node::String(s.clone()),
        serde_json::Value::Array(items) => Node::Sequence(items.iter().map(lift).collect()),
        serde_json::Value::Object(entries) => Node::Mapping(
            entries.iter().map(|(k, v)| (k.clone(), lift(v))).collect(),
        ),
    }
}

/// Copies a [`Node`] into a `serde_json::Value`, variant by variant. A number
/// is read back from its JSON text by `serde_json::from_str`, which reads a
/// text that `serde_json` wrote back to the number it was written from, and
/// becomes null where that text is no JSON number. The contract claims that
/// the tree depends on the document alone.
#[verifier::external_body]
pub(crate) fn lower(value: &Node) -> (tree: serde_json::Value)
    ensures
        tree == lowered(value@),
{
    match value {
        Node::Null => serde_json::Value::Null,
        Node::Bool(b) => serde_json::Value::Bool(*b),
        Node::Number(n) => serde_json::from_str(&n.json).map(serde_json::Value::Number)
            .unwrap_or(serde_json::Value::Null),
        Node::String(s) => serde_json::Value::String(s.clone()),
        Node::Sequence(items) => serde_json::Value::Array(items.iter().map(lower).collect()),
        Node::Mapping(entries) => serde_json::Value::Object(
            entries.iter().map(|(k, v)| (k.clone(), lower(v))).collect(),
        ),
    }
}

/// Calls `serde_json::to_string` on a tree. The contract claims that the text
/// depends on the tree alone.
#[verifier::external_body]
pub(crate) fn render(tree: &serde_json::Value) -> (text: String)
    ensures
        text@ == compact_json(*tree),
{
    serde_json::to_string(tree).unwrap_or_default()
}

/// Feeds the bytes of a text to `sha2::Sha256` and prints the digest in
/// lower-case hexadecimal. The contract claims that the result depends on the
/// text alone.
#[verifier::external_body]
pub(crate) fn digest(text: &str) -> (hex: String)
    ensures
        hex@ == sha256_hex(text@),
{
    let mut hasher = <sha2::Sha256 as sha2::Digest>::new();
    sha2::Digest::update(&mut hasher, text.as_bytes());
    format!("{:x}", sha2::Digest::finalize(hasher))
}

/// The parts of the number that stands for a count.
pub open spec fn count_number(n: u64) -> NumView {
    number_parts(counted(n))
}

/// Makes the number that stands for a count.
pub fn number_of(n: u64) -> (number: Num)
    ensures
        number@ == count_number(n),
        number@.kind == NumberKind::PosInt,
        number@.json == decimal(n as nat),
{
    let made = json_count(n);
    lift_number(&made)
}

/// The compact JSON text of a document. That of a number is its own JSON
/// notation.
pub open spec fn json_text(doc: Doc) -> Seq<char> {
    match doc {
        Doc::Number(n) => n.json,
        _ => compact_json(lowered(doc)),
    }
}

/// Writes a value as compact JSON.
pub fn to_json(value: &Node) -> (text: String)
    ensures
        text@ == json_text(value@),
{
    match value {
        Node::Number(n) => n.json.clone(),
        _ => {
            let tree = lower(value);
            render(&tree)
        },
    }
}

} // verus!
