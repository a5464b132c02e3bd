use crate::validator::semantics::{
    all_reference_findings, available_fields, duplicate_findings, duplicates_upto, name_of,
    ordering_findings, reference_findings, references_upto, repeats_name, semantic_findings,
    threshold_findings, threshold_rank,
};
use crate::value::{rank, Doc, ONE_BITS};
use vstd::prelude::*;

verus! {

/// Whether the field that a rule refers to is one of the available fields.
/// A rule that refers to no field by a string resolves, and so does every
/// rule while no field is available.
pub open spec fn reference_resolves(available: Seq<Seq<char>>, rule: Doc) -> bool {
    rule.get("field"@) matches Some(Doc::Text(field)) ==> available.len() == 0
        || available.contains(field)
}

/// Whether no two items bear the same name.
pub open spec fn names_unique(items: Seq<Doc>) -> bool {
    forall|i: int, j: int|
        0 <= i < j < items.len() && name_of(items[i]) is Some ==> #[trigger] name_of(items[i])
            != #[trigger] name_of(items[j])
}

/// Whether a set of thresholds is in order: `match` at least `review`, and
/// `review` at least `reject`, with an absent `match` counting as one and an
/// absent `review` or `reject` as zero.
pub open spec fn thresholds_ordered(thresholds: Doc) -> bool {
    threshold_rank(thresholds, "match"@, rank(ONE_BITS)) >= threshold_rank(
        thresholds,
        "review"@,
        0,
    ) >= threshold_rank(thresholds, "reject"@, 0)
}

/// Whether a document keeps the rules that reach across a specification:
/// every field reference resolves, no two rules and no two sources bear the
/// same name, and the thresholds are in order.
pub open spec fn semantics_valid(doc: Doc) -> bool {
    &&& doc.get("rules"@) matches Some(Doc::List(rules)) ==> {
        &&& names_unique(rules)
        &&& forall|i: int|
            0 <= i < rules.len() ==> reference_resolves(
                available_fields(doc),
                #[trigger] rules[i],
            )
    }
    &&& doc.get("sources"@) matches Some(Doc::List(sources)) ==> names_unique(sources)
    &&& doc.get("decision"@) matches Some(decision) ==> (decision.get("thresholds"@) matches Some(
        thresholds,
    ) ==> thresholds_ordered(thresholds))
}

/// The field reference checks of the first `upto` rules find nothing exactly
/// when the reference of each of these rules resolves.
proof fn lemma_references_clean(available: Seq<Seq<char>>, rules: Seq<Doc>, upto: nat)
    requires
        upto <= rules.len(),
    ensures
        references_upto(available, rules, upto).len() == 0 <==> forall|i: int|
            0 <= i < upto ==> reference_resolves(available, #[trigger] rules[i]),
    decreases upto,
{
    if upto > 0 {
        let rule = rules[upto - 1];
        lemma_references_clean(available, rules, (upto - 1) as nat);
        assert(reference_findings(available, rule).len() == 0 <==> reference_resolves(
            available,
            rule,
        ));
        if references_upto(available, rules, upto).len() == 0 {
            assert forall|i: int| 0 <= i < upto implies reference_resolves(
                available,
                #[trigger] rules[i],
            ) by {
                if i == upto - 1 {
                }
            }
        }
        if forall|i: int| 0 <= i < upto ==> reference_resolves(available, #[trigger] rules[i]) {
            assert(reference_resolves(available, rules[upto - 1]));
        }
    }
}

/// There is no finding for a repeated name among the first `upto` items
/// exactly when none of them repeats the name of an earlier item.
proof fn lemma_duplicates_clean(what: Seq<char>, items: Seq<Doc>, upto: nat)
    requires
        upto <= items.len(),
    ensures
        duplicates_upto(what, items, upto).len() == 0 <==> forall|i: int|
            0 <= i < upto ==> !repeats_name(items, i),
    decreases upto,
{
    if upto > 0 {
        lemma_duplicates_clean(what, items, (upto - 1) as nat);
        if duplicates_upto(what, items, upto).len() == 0 {
            assert forall|i: int| 0 <= i < upto implies !repeats_name(items, i) by {
                if i == upto - 1 {
                }
            }
        }
        if forall|i: int| 0 <= i < upto ==> !repeats_name(items, i) {
            assert(!repeats_name(items, upto - 1));
        }
    }
}

/// No item repeats the name of an earlier item exactly when no two items
/// bear the same name.
proof fn lemma_no_repeats_is_unique(items: Seq<Doc>)
    ensures
        (forall|i: int| 0 <= i < items.len() ==> !repeats_name(items, i)) <==> names_unique(
            items,
        ),
{
    if forall|i: int| 0 <= i < items.len() ==> !repeats_name(items, i) {
        assert forall|i: int, j: int|
            0 <= i < j < items.len() && name_of(items[i]) is Some implies #[trigger] name_of(
            items[i],
        ) != #[trigger] name_of(items[j]) by {
            assert(!repeats_name(items, j));
        }
    }
    if names_unique(items) {
        assert forall|i: int| 0 <= i < items.len() implies !repeats_name(items, i) by {
            if repeats_name(items, i) {
                let earlier = choose|earlier: int|
                    0 <= earlier < i && #[trigger] name_of(items[earlier]) == name_of(items[i]);
                assert(name_of(items[earlier]) != name_of(items[i]));
            }
        }
    }
}

/// The ordering check of a set of thresholds finds nothing exactly when they
/// are in order.
proof fn lemma_ordering_clean(thresholds: Doc)
    ensures
        ordering_findings(thresholds).len() == 0 <==> thresholds_ordered(thresholds),
{
}

/// The semantic validator finds nothing in a document exactly when the
/// document keeps the rules that reach across a specification.
pub proof fn lemma_semantic_findings_complete(doc: Doc)
    ensures
        semantic_findings(doc).len() == 0 <==> semantics_valid(doc),
{
    let references = all_reference_findings(doc);
    let rule_names = duplicate_findings(doc, "rules"@, "rule"@);
    let source_names = duplicate_findings(doc, "sources"@, "source"@);
    let thresholds = threshold_findings(doc);
    assert(semantic_findings(doc).len() == references.len() + rule_names.len()
        + source_names.len() + thresholds.len());
    match doc.get("rules"@) {
        Some(Doc::List(rules)) => {
            lemma_references_clean(available_fields(doc), rules, rules.len());
            lemma_duplicates_clean("rule"@, rules, rules.len());
            lemma_no_repeats_is_unique(rules);
        },
        _ => {},
    }
    match doc.get("sources"@) {
        Some(Doc::List(sources)) => {
            lemma_duplicates_clean("source"@, sources, sources.len());
            lemma_no_repeats_is_unique(sources);
        },
        _ => {},
    }
    match doc.get("decision"@) {
        Some(decision) => match decision.get("thresholds"@) {
            Some(found) => lemma_ordering_clean(found),
            None => {},
        },
        None => {},
    }
}

} // verus!
