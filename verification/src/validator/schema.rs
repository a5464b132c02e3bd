use crate::text::{
    begins_with, decimal, push_text, starts_with, texts, to_decimal,
};
use crate::value::{views, Doc, Node};
use vstd::prelude::*;
use vstd::string::StringExecFns;

verus! {

/// The most rules a specification may hold.
pub const MAX_RULES: usize = 50;

/// The most sources a specification may hold.
pub const MAX_SOURCES: usize = 10;

/// The most blocking keys a specification may hold.
pub const MAX_BLOCKING_KEYS: usize = 5;

/// The finding for a top-level field that is not there.
pub open spec fn missing_field(name: Seq<char>) -> Seq<char> {
    "Missing required field: "@ + name
}

/// The finding for an `api_version` that does not begin with `kanoniv/v`.
pub open spec fn bad_api_version(version: Seq<char>) -> Seq<char> {
    "Invalid api_version format: '"@ + version + "'. Expected 'kanoniv/v<N>'"@
}

/// The finding for an entity without a name.
pub open spec fn entity_name_required() -> Seq<char> {
    "entity.name is required"@
}

/// The finding for a section that holds `count` items where `max` are allowed.
pub open spec fn too_many(what: Seq<char>, count: nat, max: nat) -> Seq<char> {
    "Too many "@ + what + ": "@ + decimal(count) + ". Maximum is "@ + decimal(max) + "."@
}

/// The finding for item `index` of `section` that lacks `field`.
pub open spec fn missing_member(section: Seq<char>, index: nat, field: Seq<char>) -> Seq<char> {
    section + "["@ + decimal(index) + "]: missing required field '"@ + field + "'"@
}

/// The finding for rule `index` whose `field` has the value `shown`, which is
/// not between zero and one.
pub open spec fn out_of_range(index: nat, field: Seq<char>, shown: Seq<char>) -> Seq<char> {
    "rules["@ + decimal(index) + "]: "@ + field + " "@ + shown + " must be between 0 and 1"@
}

/// What the presence check of one top-level field finds.
pub open spec fn required_top(doc: Doc, name: Seq<char>) -> Seq<Seq<char>> {
    if doc.get(name) is None {
        seq![missing_field(name)]
    } else {
        Seq::empty()
    }
}

/// What the presence checks of the three required top-level fields find.
pub open spec fn presence_findings(doc: Doc) -> Seq<Seq<char>> {
    required_top(doc, "api_version"@) + required_top(doc, "identity_version"@) + required_top(
        doc,
        "entity"@,
    )
}

/// What the format check of `api_version` finds. A version that is no string
/// is not looked at.
pub open spec fn api_version_findings(doc: Doc) -> Seq<Seq<char>> {
    match doc.get("api_version"@) {
        Some(Doc::Text(version)) => if begins_with(version, "kanoniv/v"@) {
            Seq::empty()
        } else {
            seq![bad_api_version(version)]
        },
        _ => Seq::empty(),
    }
}

/// What the check of the entity finds.
pub open spec fn entity_findings(doc: Doc) -> Seq<Seq<char>> {
    match doc.get("entity"@) {
        Some(entity) => if entity.get("name"@) is None {
            seq![entity_name_required()]
        } else {
            Seq::empty()
        },
        None => Seq::empty(),
    }
}

/// What the size check of a section finds.
pub open spec fn size_findings(what: Seq<char>, count: nat, max: nat) -> Seq<Seq<char>> {
    if count > max {
        seq![too_many(what, count, max)]
    } else {
        Seq::empty()
    }
}

/// What the presence check of one field of an item finds.
pub open spec fn required_member(
    section: Seq<char>,
    index: nat,
    item: Doc,
    field: Seq<char>,
) -> Seq<Seq<char>> {
    if item.get(field) is None {
        seq![missing_member(section, index, field)]
    } else {
        Seq::empty()
    }
}

/// What the range check of one field of a rule finds. A value that is no
/// number is not looked at.
pub open spec fn range_findings(index: nat, rule: Doc, field: Seq<char>) -> Seq<Seq<char>> {
    match rule.get(field) {
        Some(Doc::Number(n)) => if n.in_unit_interval() {
            Seq::empty()
        } else {
            seq![out_of_range(index, field, n.shown)]
        },
        _ => Seq::empty(),
    }
}

/// What the checks of the rule at `index` find.
pub open spec fn rule_findings(index: nat, rule: Doc) -> Seq<Seq<char>> {
    required_member("rules"@, index, rule, "name"@) + required_member(
        "rules"@,
        index,
        rule,
        "type"@,
    ) + range_findings(index, rule, "weight"@) + range_findings(index, rule, "threshold"@)
}

/// What the checks of the first `upto` rules find, rule by rule.
pub open spec fn rules_findings_upto(rules: Seq<Doc>, upto: nat) -> Seq<Seq<char>>
    decreases upto,
{
    if upto == 0 {
        Seq::empty()
    } else {
        rules_findings_upto(rules, (upto - 1) as nat) + rule_findings(
            (upto - 1) as nat,
            rules[upto - 1],
        )
    }
}

/// What the checks of the `rules` section find. A section that is no
/// sequence is not looked at.
pub open spec fn rules_findings(doc: Doc) -> Seq<Seq<char>> {
    match doc.get("rules"@) {
        Some(Doc::List(rules)) => size_findings("rules"@, rules.len(), MAX_RULES as nat)
            + rules_findings_upto(rules, rules.len()),
        _ => Seq::empty(),
    }
}

/// What the checks of the source at `index` find.
pub open spec fn source_findings(index: nat, source: Doc) -> Seq<Seq<char>> {
    required_member("sources"@, index, source, "name"@) + required_member(
        "sources"@,
        index,
        source,
        "system"@,
    ) + required_member("sources"@, index, source, "table"@) + required_member(
        "sources"@,
        index,
        source,
        "id"@,
    ) + required_member("sources"@, index, source, "attributes"@)
}

/// What the checks of the first `upto` sources find, source by source.
pub open spec fn sources_findings_upto(sources: Seq<Doc>, upto: nat) -> Seq<Seq<char>>
    decreases upto,
{
    if upto == 0 {
        Seq::empty()
    } else {
        sources_findings_upto(sources, (upto - 1) as nat) + source_findings(
            (upto - 1) as nat,
            sources[upto - 1],
        )
    }
}

/// What the checks of the `sources` section find. A section that is no
/// sequence is not looked at.
pub open spec fn sources_findings(doc: Doc) -> Seq<Seq<char>> {
    match doc.get("sources"@) {
        Some(Doc::List(sources)) => size_findings(
            "sources"@,
            sources.len(),
            MAX_SOURCES as nat,
        ) + sources_findings_upto(sources, sources.len()),
        _ => Seq::empty(),
    }
}

/// What the size check of `blocking.keys` finds.
pub open spec fn blocking_findings(doc: Doc) -> Seq<Seq<char>> {
    match doc.get("blocking"@) {
        Some(blocking) => match blocking.get("keys"@) {
            Some(Doc::List(keys)) => size_findings(
                "blocking keys"@,
                keys.len(),
                MAX_BLOCKING_KEYS as nat,
            ),
            _ => Seq::empty(),
        },
        None => Seq::empty(),
    }
}

/// Every structural finding of a document, in the order of the checks.
pub open spec fn schema_findings(doc: Doc) -> Seq<Seq<char>> {
    presence_findings(doc) + api_version_findings(doc) + entity_findings(doc) + rules_findings(doc)
        + sources_findings(doc) + blocking_findings(doc)
}

fn check_required_top(doc: &Node, name: &str, errors: &mut Vec<String>)
    ensures
        texts(final(errors)@) == texts(old(errors)@) + required_top(doc@, name@),
{
    if doc.get(name).is_none() {
        let mut message = String::from_str("Missing required field: ");
        message.append(name);
        push_text(errors, message);
    }
    assert(texts(errors@) =~= texts(old(errors)@) + required_top(doc@, name@));
}

fn check_api_version(doc: &Node, errors: &mut Vec<String>)
    ensures
        texts(final(errors)@) == texts(old(errors)@) + api_version_findings(doc@),
{
    if let Some(value) = doc.get("api_version") {
        if let Some(version) = value.as_str() {
            if !starts_with(version, "kanoniv/v") {
                let mut message = String::from_str("Invalid api_version format: '");
                message.append(version);
                message.append("'. Expected 'kanoniv/v<N>'");
                push_text(errors, message);
            }
        }
    }
    assert(texts(errors@) =~= texts(old(errors)@) + api_version_findings(doc@));
}

fn check_entity(doc: &Node, errors: &mut Vec<String>)
    ensures
        texts(final(errors)@) == texts(old(errors)@) + entity_findings(doc@),
{
    if let Some(entity) = doc.get("entity") {
        if entity.get("name").is_none() {
            push_text(errors, String::from_str("entity.name is required"));
        }
    }
    assert(texts(errors@) =~= texts(old(errors)@) + entity_findings(doc@));
}

fn check_size(what: &str, count: usize, max: usize, errors: &mut Vec<String>)
    ensures
        texts(final(errors)@) == texts(old(errors)@) + size_findings(
            what@,
            count as nat,
            max as nat,
        ),
{
    if count > max {
        let mut message = String::from_str("Too many ");
        message.append(what);
        message.append(": ");
        message.append(to_decimal(count as u64).as_str());
        message.append(". Maximum is ");
        message.append(to_decimal(max as u64).as_str());
        message.append(".");
        push_text(errors, message);
    }
    assert(texts(errors@) =~= texts(old(errors)@) + size_findings(
        what@,
        count as nat,
        max as nat,
    ));
}

fn check_required_member(
    item: &Node,
    section: &str,
    index: usize,
    field: &str,
    errors: &mut Vec<String>,
)
    ensures
        texts(final(errors)@) == texts(old(errors)@) + required_member(
            section@,
            index as nat,
            item@,
            field@,
        ),
{
    if item.get(field).is_none() {
        let mut message = String::from_str(section);
        message.append("[");
        message.append(to_decimal(index as u64).as_str());
        message.append("]: missing required field '");
        message.append(field);
        message.append("'");
        push_text(errors, message);
    }
    assert(texts(errors@) =~= texts(old(errors)@) + required_member(
        section@,
        index as nat,
        item@,
        field@,
    ));
}

fn check_unit_range(rule: &Node, index: usize, field: &str, errors: &mut Vec<String>)
    ensures
        texts(final(errors)@) == texts(old(errors)@) + range_findings(
            index as nat,
            rule@,
            field@,
        ),
{
    if let Some(value) = rule.get(field) {
        if let Some(number) = value.as_number() {
            if !number.in_unit_interval() {
                let mut message = String::from_str("rules[");
                message.append(to_decimal(index as u64).as_str());
                message.append("]: ");
                message.append(field);
                message.append(" ");
                message.append(number.shown.as_str());
                message.append(" must be between 0 and 1");
                push_text(errors, message);
            }
        }
    }
    assert(texts(errors@) =~= texts(old(errors)@) + range_findings(index as nat, rule@, field@));
}

fn check_rule(rule: &Node, index: usize, errors: &mut Vec<String>)
    ensures
        texts(final(errors)@) == texts(old(errors)@) + rule_findings(index as nat, rule@),
{
    check_required_member(rule, "rules", index, "name", errors);
    check_required_member(rule, "rules", index, "type", errors);
    check_unit_range(rule, index, "weight", errors);
    check_unit_range(rule, index, "threshold", errors);
    assert(texts(errors@) =~= texts(old(errors)@) + rule_findings(index as nat, rule@));
}

fn check_rules(doc: &Node, errors: &mut Vec<String>)
    ensures
        texts(final(errors)@) == texts(old(errors)@) + rules_findings(doc@),
{
    if let Some(section) = doc.get("rules") {
        if let Some(rules) = section.as_array() {
            check_size("rules", rules.len(), MAX_RULES, errors);
            let ghost start = texts(errors@);
            let ghost docs = views(rules@);
            let mut i: usize = 0;
            while i < rules.len()
                invariant
                    i <= rules.len(),
                    docs == views(rules@),
                    texts(errors@) == start + rules_findings_upto(docs, i as nat),
                decreases rules.len() - i,
            {
                let ghost before = texts(errors@);
                check_rule(&rules[i], i, errors);
                assert(texts(errors@) =~= start + rules_findings_upto(docs, (i + 1) as nat));
                i += 1;
            }
        }
    }
    assert(texts(errors@) =~= texts(old(errors)@) + rules_findings(doc@));
}

fn check_source(source: &Node, index: usize, errors: &mut Vec<String>)
    ensures
        texts(final(errors)@) == texts(old(errors)@) + source_findings(index as nat, source@),
{
    check_required_member(source, "sources", index, "name", errors);
    check_required_member(source, "sources", index, "system", errors);
    check_required_member(source, "sources", index, "table", errors);
    check_required_member(source, "sources", index, "id", errors);
    check_required_member(source, "sources", index, "attributes", errors);
    assert(texts(errors@) =~= texts(old(errors)@) + source_findings(index as nat, source@));
}

fn check_sources(doc: &Node, errors: &mut Vec<String>)
    ensures
        texts(final(errors)@) == texts(old(errors)@) + sources_findings(doc@),
{
    if let Some(section) = doc.get("sources") {
        if let Some(sources) = section.as_array() {
            check_size("sources", sources.len(), MAX_SOURCES, errors);
            let ghost start = texts(errors@);
            let ghost docs = views(sources@);
            let mut i: usize = 0;
            while i < sources.len()
                invariant
                    i <= sources.len(),
                    docs == views(sources@),
                    texts(errors@) == start + sources_findings_upto(docs, i as nat),
                decreases sources.len() - i,
            {
                check_source(&sources[i], i, errors);
                assert(texts(errors@) =~= start + sources_findings_upto(docs, (i + 1) as nat));
                i += 1;
            }
        }
    }
    assert(texts(errors@) =~= texts(old(errors)@) + sources_findings(doc@));
}

fn check_blocking(doc: &Node, errors: &mut Vec<String>)
    ensures
        texts(final(errors)@) == texts(old(errors)@) + blocking_findings(doc@),
{
    if let Some(blocking) = doc.get("blocking") {
        if let Some(section) = blocking.get("keys") {
            if let Some(keys) = section.as_array() {
                check_size("blocking keys", keys.len(), MAX_BLOCKING_KEYS, errors);
            }
        }
    }
    assert(texts(errors@) =~= texts(old(errors)@) + blocking_findings(doc@));
}

/// Checks that a document has the structure of a specification, and reports
/// everything that is wrong with it, in the order of the checks.
pub fn validate_schema(spec: &Node) -> (errors: Vec<String>)
    ensures
        texts(errors@) == schema_findings(spec@),
{
    let mut errors: Vec<String> = Vec::new();
    assert(texts(errors@) =~= Seq::empty());
    check_required_top(spec, "api_version", &mut errors);
    check_required_top(spec, "identity_version", &mut errors);
    check_required_top(spec, "entity", &mut errors);
    check_api_version(spec, &mut errors);
    check_entity(spec, &mut errors);
    check_rules(spec, &mut errors);
    check_sources(spec, &mut errors);
    check_blocking(spec, &mut errors);
    assert(texts(errors@) =~= schema_findings(spec@));
    errors
}

} // verus!
