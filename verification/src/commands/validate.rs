use crate::text::texts;
use crate::validator::schema::{schema_findings, validate_schema};
use crate::validator::semantics::{semantic_findings, validate_semantics};
use crate::value::{Doc, Node};
use vstd::prelude::*;

verus! {

/// How the validation of a document ended.
#[derive(Debug)]
pub enum Verdict {
    /// The structure is wrong; these are all structural findings. The
    /// semantic checks were not run.
    SchemaErrors(Vec<String>),
    /// The structure is right, and these are all semantic findings.
    SemanticErrors(Vec<String>),
    /// Nothing was found.
    Valid,
}

/// The mathematical model of a [`Verdict`].
pub enum VerdictView {
    SchemaErrors(Seq<Seq<char>>),
    SemanticErrors(Seq<Seq<char>>),
    Valid,
}

impl View for Verdict {
    type V = VerdictView;

    open spec fn view(&self) -> VerdictView {
        match self {
            Verdict::SchemaErrors(errors) => VerdictView::SchemaErrors(texts(errors@)),
            Verdict::SemanticErrors(errors) => VerdictView::SemanticErrors(texts(errors@)),
            Verdict::Valid => VerdictView::Valid,
        }
    }
}

/// The verdict on a document: its structural findings where there are any,
/// else its semantic findings where there are any, else that it is valid.
pub open spec fn verdict_of(doc: Doc) -> VerdictView {
    if schema_findings(doc).len() > 0 {
        VerdictView::SchemaErrors(schema_findings(doc))
    } else if semantic_findings(doc).len() > 0 {
        VerdictView::SemanticErrors(semantic_findings(doc))
    } else {
        VerdictView::Valid
    }
}

/// Validates a document in two stages: the structure first, and the
/// semantic rules only where the structure is right.
pub fn check(spec: &Node) -> (verdict: Verdict)
    ensures
        verdict@ == verdict_of(spec@),
{
    let schema_errors = validate_schema(spec);
    if schema_errors.len() > 0 {
        return Verdict::SchemaErrors(schema_errors);
    }
    let semantic_errors = validate_semantics(spec);
    if semantic_errors.len() > 0 {
        return Verdict::SemanticErrors(semantic_errors);
    }
    Verdict::Valid
}

/// What a validator finds depends on the document alone: two runs on the
/// same document report the same findings in the same order.
pub proof fn lemma_validation_repeatable(
    doc: Doc,
    first: Seq<String>,
    second: Seq<String>,
)
    requires
        texts(first) == schema_findings(doc) && texts(second) == schema_findings(doc) || texts(
            first,
        ) == semantic_findings(doc) && texts(second) == semantic_findings(doc),
    ensures
        first.len() == second.len(),
        forall|i: int| 0 <= i < first.len() ==> first[i]@ == second[i]@,
{
    assert(texts(first).len() == first.len());
    assert(texts(second).len() == second.len());
    assert forall|i: int| 0 <= i < first.len() implies first[i]@ == second[i]@ by {
        assert(texts(first)[i] == first[i]@);
        assert(texts(second)[i] == second[i]@);
    }
}

} // verus!
