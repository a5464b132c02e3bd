use crate::codec::{digest, json_text, sha256_hex, to_json};
use crate::value::{Doc, Node};
use vstd::prelude::*;
use vstd::string::StringExecFns;

verus! {

/// The plan hash of a document: `sha256:` and the SHA-256 digest of the
/// document's compact JSON text.
pub open spec fn plan_hash_of(doc: Doc) -> Seq<char> {
    "sha256:"@ + sha256_hex(json_text(doc))
}

/// Computes the plan hash of a document.
pub fn plan_hash(spec: &Node) -> (hash: String)
    ensures
        hash@ == plan_hash_of(spec@),
{
    let canonical = to_json(spec);
    let mut hash = String::from_str("sha256:");
    hash.append(digest(canonical.as_str()).as_str());
    hash
}

} // verus!
