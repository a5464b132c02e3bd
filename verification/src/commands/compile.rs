use crate::commands::diff::thresholds_of;
use crate::commands::hash::{plan_hash, plan_hash_of};
use crate::codec::{count_number, number_of};
use crate::value::{
    entry_views, lemma_mapping_view, lemma_sequence_view, views, Doc, Node,
};
use vstd::prelude::*;
use vstd::string::StringExecFns;

verus! {

/// A value that may be absent, with null in its place where it is.
pub open spec fn or_null(value: Option<Doc>) -> Doc {
    match value {
        Some(doc) => doc,
        None => Doc::Null,
    }
}

/// The member `inner` of the member `outer` of a document.
pub open spec fn nested(doc: Doc, outer: Seq<char>, inner: Seq<char>) -> Option<Doc> {
    match doc.get(outer) {
        Some(section) => section.get(inner),
        None => None,
    }
}

/// What the plan keeps of a source: its name, system and table.
pub open spec fn source_summary(source: Doc) -> Doc {
    Doc::Table(
        seq![
            ("name"@, or_null(source.get("name"@))),
            ("system"@, or_null(source.get("system"@))),
            ("table"@, or_null(source.get("table"@))),
        ],
    )
}

/// What the plan keeps of the sources: a summary of each, or null where
/// `sources` is absent or no sequence.
pub open spec fn sources_summary(doc: Doc) -> Doc {
    match doc.get("sources"@) {
        Some(Doc::List(sources)) => Doc::List(
            Seq::new(sources.len(), |i: int| source_summary(sources[i])),
        ),
        _ => Doc::Null,
    }
}

/// The number of rules, or null where `rules` is absent or no sequence.
pub open spec fn rule_count(doc: Doc) -> Doc {
    match doc.get("rules"@) {
        Some(Doc::List(rules)) => Doc::Number(count_number(rules.len() as u64)),
        _ => Doc::Null,
    }
}

/// The entries of a plan before it is hashed, in the order of their keys.
pub open spec fn plan_entries(doc: Doc) -> Seq<(Seq<char>, Doc)> {
    seq![
        ("api_version"@, or_null(doc.get("api_version"@))),
        ("blocking_strategy"@, or_null(nested(doc, "blocking"@, "strategy"@))),
        ("entity"@, or_null(nested(doc, "entity"@, "name"@))),
        ("identity_version"@, or_null(doc.get("identity_version"@))),
        ("rule_count"@, rule_count(doc)),
        ("sources"@, sources_summary(doc)),
        ("thresholds"@, or_null(thresholds_of(doc))),
    ]
}

/// The plan of a document: what it keeps of the document, and under
/// `plan_hash` the plan hash of just that.
pub open spec fn plan_of(doc: Doc) -> Doc {
    Doc::Table(
        plan_entries(doc).insert(
            4,
            ("plan_hash"@, Doc::Text(plan_hash_of(Doc::Table(plan_entries(doc))))),
        ),
    )
}

/// The plan as it is written out: the plan of the document, with the plan
/// hash of that whole plan in the place of its `plan_hash`.
pub open spec fn written_plan_of(doc: Doc) -> Doc {
    Doc::Table(
        plan_entries(doc).insert(4, ("plan_hash"@, Doc::Text(plan_hash_of(plan_of(doc))))),
    )
}

fn copy_or_null(value: Option<&Node>) -> (copy: Node)
    ensures
        copy@ == or_null(crate::commands::diff::option_doc(value)),
{
    match value {
        Some(node) => node.duplicate(),
        None => Node::Null,
    }
}

fn member_or_null(doc: &Node, key: &str) -> (copy: Node)
    ensures
        copy@ == or_null(doc@.get(key@)),
{
    copy_or_null(doc.get(key))
}

fn nested_or_null(doc: &Node, outer: &str, inner: &str) -> (copy: Node)
    ensures
        copy@ == or_null(nested(doc@, outer@, inner@)),
{
    match doc.get(outer) {
        Some(section) => copy_or_null(section.get(inner)),
        None => Node::Null,
    }
}

fn entry(key: &str, value: Node) -> (made: (String, Node))
    ensures
        made.0@ == key@,
        made.1 == value,
{
    (String::from_str(key), value)
}

fn summarize_source(source: &Node) -> (summary: Node)
    ensures
        summary@ == source_summary(source@),
{
    let mut entries: Vec<(String, Node)> = Vec::new();
    entries.push(entry("name", member_or_null(source, "name")));
    entries.push(entry("system", member_or_null(source, "system")));
    entries.push(entry("table", member_or_null(source, "table")));
    let summary = Node::Mapping(entries);
    proof {
        lemma_mapping_view(summary);
        assert(entry_views(entries@) =~= source_summary(source@)->Table_0);
    }
    summary
}

fn summarize_sources(doc: &Node) -> (summary: Node)
    ensures
        summary@ == sources_summary(doc@),
{
    if let Some(section) = doc.get("sources") {
        if let Some(sources) = section.as_array() {
            let ghost docs = views(sources@);
            let mut summaries: Vec<Node> = Vec::new();
            let mut i: usize = 0;
            while i < sources.len()
                invariant
                    i <= sources.len(),
                    docs == views(sources@),
                    summaries.len() == i,
                    forall|j: int|
                        0 <= j < i ==> (#[trigger] summaries[j])@ == source_summary(docs[j]),
                decreases sources.len() - i,
            {
                summaries.push(summarize_source(&sources[i]));
                i += 1;
            }
            let summary = Node::Sequence(summaries);
            proof {
                lemma_sequence_view(summary);
                assert(views(summaries@) =~= sources_summary(doc@)->List_0);
            }
            return summary;
        }
    }
    Node::Null
}

fn count_rules(doc: &Node) -> (count: Node)
    ensures
        count@ == rule_count(doc@),
{
    if let Some(section) = doc.get("rules") {
        if let Some(rules) = section.as_array() {
            return Node::Number(number_of(rules.len() as u64));
        }
    }
    Node::Null
}

/// Lowers a document to its plan: the versions, the entity's name, a summary
/// of each source, the number of rules, the blocking strategy and the
/// thresholds, together with the plan hash of these.
pub fn compile_to_ir(spec: &Node) -> (plan: Node)
    ensures
        plan@ == plan_of(spec@),
{
    let mut entries: Vec<(String, Node)> = Vec::new();
    entries.push(entry("api_version", member_or_null(spec, "api_version")));
    entries.push(entry("blocking_strategy", nested_or_null(spec, "blocking", "strategy")));
    entries.push(entry("entity", nested_or_null(spec, "entity", "name")));
    entries.push(entry("identity_version", member_or_null(spec, "identity_version")));
    entries.push(entry("rule_count", count_rules(spec)));
    entries.push(entry("sources", summarize_sources(spec)));
    entries.push(entry("thresholds", nested_or_null(spec, "decision", "thresholds")));
    assert(entry_views(entries@) =~= plan_entries(spec@));
    let body = Node::Mapping(entries);
    proof {
        lemma_mapping_view(body);
    }
    let hash = plan_hash(&body);
    assert(hash@ == plan_hash_of(Doc::Table(plan_entries(spec@))));
    match body {
        Node::Mapping(mut sealed) => {
            sealed.insert(4, entry("plan_hash", Node::String(hash)));
            let plan = Node::Mapping(sealed);
            proof {
                lemma_mapping_view(plan);
                assert(entry_views(sealed@) =~= plan_of(spec@)->Table_0);
            }
            plan
        },
        other => other,
    }
}

/// Lowers a document to the plan that is written out: the plan is hashed
/// once more as a whole, and that hash takes the place of the first.
pub fn compile_plan(spec: &Node) -> (plan: Node)
    ensures
        plan@ == written_plan_of(spec@),
{
    let first = compile_to_ir(spec);
    let hash = plan_hash(&first);
    match first {
        Node::Mapping(mut entries) => {
            let ghost before = entries@;
            let ghost hashed = plan_of(spec@)->Table_0;
            proof {
                lemma_mapping_view(first);
                assert(entry_views(before) == hashed);
                assert(hashed.len() == 8);
            }
            if entries.len() > 4 {
                entries.set(4, entry("plan_hash", Node::String(hash)));
            }
            let plan = Node::Mapping(entries);
            proof {
                lemma_mapping_view(plan);
                let written = written_plan_of(spec@)->Table_0;
                assert(written.len() == 8);
                assert forall|i: int| 0 <= i < 8 implies entry_views(entries@)[i] == written[i] by {
                    if i != 4 {
                        assert(entries@[i] == before[i]);
                        assert(entry_views(before)[i] == hashed[i]);
                    }
                }
                assert(entry_views(entries@) =~= written);
            }
            plan
        },
        other => other,
    }
}

} // verus!
