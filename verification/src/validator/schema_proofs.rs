use crate::text::{
    begins_with, decimal, is_digit, lemma_decimal_delimited, lemma_occurrences_add,
    lemma_occurrences_contains, lemma_same_beginning, occurrences,
};
use crate::validator::schema::{
    api_version_findings, blocking_findings, entity_findings, missing_field, missing_member, out_of_range, presence_findings,
    range_findings, required_member, required_top, rule_findings, rules_findings,
    rules_findings_upto, schema_findings, size_findings, source_findings, sources_findings,
    sources_findings_upto, too_many, MAX_BLOCKING_KEYS, MAX_RULES, MAX_SOURCES,
};
use crate::value::{Doc, NumView};
use vstd::prelude::*;

verus! {

/// Whether a finding begins with the character `c`.
pub open spec fn led_by(finding: Seq<char>, c: char) -> bool {
    finding.len() > 0 && finding[0] == c
}

/// Whether every finding of a list begins with the character `c`.
pub open spec fn all_led_by(findings: Seq<Seq<char>>, c: char) -> bool {
    forall|i: int| 0 <= i < findings.len() ==> led_by(#[trigger] findings[i], c)
}

/// A finding that begins with a character with which no finding of a list
/// begins does not occur in that list.
pub proof fn lemma_absent_by_lead(findings: Seq<Seq<char>>, c: char, item: Seq<char>)
    requires
        all_led_by(findings, c),
        !led_by(item, c),
    ensures
        occurrences(findings, item) == 0,
    decreases findings.len(),
{
    if findings.len() > 0 {
        let rest = findings.drop_last();
        assert forall|i: int| 0 <= i < rest.len() implies led_by(#[trigger] rest[i], c) by {
            assert(rest[i] == findings[i]);
        }
        lemma_absent_by_lead(rest, c, item);
        assert(led_by(findings[findings.len() - 1], c));
    }
}

/// Lists whose findings all begin with `c`, joined, are such a list.
pub proof fn lemma_led_add(a: Seq<Seq<char>>, b: Seq<Seq<char>>, c: char)
    requires
        all_led_by(a, c),
        all_led_by(b, c),
    ensures
        all_led_by(a + b, c),
{
    assert forall|i: int| 0 <= i < (a + b).len() implies led_by(#[trigger] (a + b)[i], c) by {
        if i < a.len() {
            assert((a + b)[i] == a[i]);
        } else {
            assert((a + b)[i] == b[i - a.len()]);
        }
    }
}

/// The findings for missing top-level fields begin with `M`.
pub proof fn lemma_presence_lead(doc: Doc)
    ensures
        all_led_by(presence_findings(doc), 'M'),
{
    reveal_strlit("Missing required field: ");
    lemma_led_add(required_top(doc, "api_version"@), required_top(doc, "identity_version"@), 'M');
    lemma_led_add(
        required_top(doc, "api_version"@) + required_top(doc, "identity_version"@),
        required_top(doc, "entity"@),
        'M',
    );
}

/// The finding for a malformed `api_version` begins with `I`.
pub proof fn lemma_api_version_lead(doc: Doc)
    ensures
        all_led_by(api_version_findings(doc), 'I'),
{
    reveal_strlit("Invalid api_version format: '");
}

/// The finding for an entity without a name begins with `e`.
pub proof fn lemma_entity_lead(doc: Doc)
    ensures
        all_led_by(entity_findings(doc), 'e'),
{
    reveal_strlit("entity.name is required");
}

/// The finding for an oversized section begins with `T`.
pub proof fn lemma_size_lead(what: Seq<char>, count: nat, max: nat)
    ensures
        all_led_by(size_findings(what, count, max), 'T'),
{
    reveal_strlit("Too many ");
}

/// The findings for the rules begin with `r`.
pub proof fn lemma_rules_lead(rules: Seq<Doc>, upto: nat)
    ensures
        all_led_by(rules_findings_upto(rules, upto), 'r'),
    decreases upto,
{
    if upto > 0 {
        reveal_strlit("rules");
        reveal_strlit("rules[");
        let index = (upto - 1) as nat;
        let rule = rules[upto - 1];
        lemma_rules_lead(rules, index);
        let a = required_member("rules"@, index, rule, "name"@);
        let b = required_member("rules"@, index, rule, "type"@);
        let c = range_findings(index, rule, "weight"@);
        let d = range_findings(index, rule, "threshold"@);
        lemma_led_add(a, b, 'r');
        lemma_led_add(a + b, c, 'r');
        lemma_led_add(a + b + c, d, 'r');
        lemma_led_add(rules_findings_upto(rules, index), rule_findings(index, rule), 'r');
    }
}

/// The findings for the sources begin with `s`.
pub proof fn lemma_sources_lead(sources: Seq<Doc>, upto: nat)
    ensures
        all_led_by(sources_findings_upto(sources, upto), 's'),
    decreases upto,
{
    if upto > 0 {
        reveal_strlit("sources");
        let index = (upto - 1) as nat;
        let source = sources[upto - 1];
        lemma_sources_lead(sources, index);
        let a = required_member("sources"@, index, source, "name"@);
        let b = required_member("sources"@, index, source, "system"@);
        let c = required_member("sources"@, index, source, "table"@);
        let d = required_member("sources"@, index, source, "id"@);
        let e = required_member("sources"@, index, source, "attributes"@);
        lemma_led_add(a, b, 's');
        lemma_led_add(a + b, c, 's');
        lemma_led_add(a + b + c, d, 's');
        lemma_led_add(a + b + c + d, e, 's');
        lemma_led_add(sources_findings_upto(sources, index), source_findings(index, source), 's');
    }
}

/// A finding that begins with none of `I`, `e`, `T`, `r` and `s` is found by
/// no check but the presence check of the top-level fields.
pub proof fn lemma_absent_after_presence(doc: Doc, item: Seq<char>)
    requires
        !led_by(item, 'I'),
        !led_by(item, 'e'),
        !led_by(item, 'T'),
        !led_by(item, 'r'),
        !led_by(item, 's'),
    ensures
        occurrences(schema_findings(doc), item) == occurrences(presence_findings(doc), item),
{
    let p = presence_findings(doc);
    let a = api_version_findings(doc);
    let e = entity_findings(doc);
    let r = rules_findings(doc);
    let s = sources_findings(doc);
    let b = blocking_findings(doc);
    lemma_api_version_lead(doc);
    lemma_absent_by_lead(a, 'I', item);
    lemma_entity_lead(doc);
    lemma_absent_by_lead(e, 'e', item);
    lemma_rules_absent(doc, item);
    lemma_sources_absent(doc, item);
    lemma_blocking_absent(doc, item);
    lemma_occurrences_add(p, a, item);
    lemma_occurrences_add(p + a, e, item);
    lemma_occurrences_add(p + a + e, r, item);
    lemma_occurrences_add(p + a + e + r, s, item);
    lemma_occurrences_add(p + a + e + r + s, b, item);
}

/// A finding that begins with neither `T` nor `r` is not among those of the
/// rules section.
pub proof fn lemma_rules_absent(doc: Doc, item: Seq<char>)
    requires
        !led_by(item, 'T'),
        !led_by(item, 'r'),
    ensures
        occurrences(rules_findings(doc), item) == 0,
{
    match doc.get("rules"@) {
        Some(Doc::List(rules)) => {
            let size = size_findings("rules"@, rules.len(), MAX_RULES as nat);
            let each = rules_findings_upto(rules, rules.len());
            lemma_size_lead("rules"@, rules.len(), MAX_RULES as nat);
            lemma_absent_by_lead(size, 'T', item);
            lemma_rules_lead(rules, rules.len());
            lemma_absent_by_lead(each, 'r', item);
            lemma_occurrences_add(size, each, item);
        },
        _ => {},
    }
}

/// A finding that begins with neither `T` nor `s` is not among those of the
/// sources section.
pub proof fn lemma_sources_absent(doc: Doc, item: Seq<char>)
    requires
        !led_by(item, 'T'),
        !led_by(item, 's'),
    ensures
        occurrences(sources_findings(doc), item) == 0,
{
    match doc.get("sources"@) {
        Some(Doc::List(sources)) => {
            let size = size_findings("sources"@, sources.len(), MAX_SOURCES as nat);
            let each = sources_findings_upto(sources, sources.len());
            lemma_size_lead("sources"@, sources.len(), MAX_SOURCES as nat);
            lemma_absent_by_lead(size, 'T', item);
            lemma_sources_lead(sources, sources.len());
            lemma_absent_by_lead(each, 's', item);
            lemma_occurrences_add(size, each, item);
        },
        _ => {},
    }
}

/// A finding that does not begin with `T` is not among those of the blocking
/// section.
pub proof fn lemma_blocking_absent(doc: Doc, item: Seq<char>)
    requires
        !led_by(item, 'T'),
    ensures
        occurrences(blocking_findings(doc), item) == 0,
{
    match doc.get("blocking"@) {
        Some(blocking) => match blocking.get("keys"@) {
            Some(Doc::List(keys)) => {
                lemma_size_lead("blocking keys"@, keys.len(), MAX_BLOCKING_KEYS as nat);
                lemma_absent_by_lead(
                    size_findings("blocking keys"@, keys.len(), MAX_BLOCKING_KEYS as nat),
                    'T',
                    item,
                );
            },
            _ => {},
        },
        None => {},
    }
}

/// In a list of one finding, that finding occurs once and no other occurs.
pub proof fn lemma_occurrences_single(only: Seq<char>, item: Seq<char>)
    ensures
        occurrences(seq![only], item) == if only == item {
            1nat
        } else {
            0nat
        },
{
    assert(seq![only].drop_last() =~= Seq::<Seq<char>>::empty());
    assert(occurrences(Seq::<Seq<char>>::empty(), item) == 0);
    assert(seq![only].last() == only);
}

/// Whether `name` is one of the three fields that every specification must
/// have.
pub open spec fn is_required_top(name: Seq<char>) -> bool {
    name == "api_version"@ || name == "identity_version"@ || name == "entity"@
}

/// How often the presence check of the field `checked` reports `name` as
/// missing: once where they are the same field and the document lacks it.
proof fn lemma_required_top_occurrences(doc: Doc, checked: Seq<char>, name: Seq<char>)
    ensures
        occurrences(required_top(doc, checked), missing_field(name)) == if checked == name
            && doc.get(name) is None {
            1nat
        } else {
            0nat
        },
{
    let found = required_top(doc, checked);
    if doc.get(checked) is None {
        lemma_occurrences_single(missing_field(checked), missing_field(name));
        if missing_field(checked) == missing_field(name) {
            lemma_same_beginning("Missing required field: "@, checked, name);
        }
    }
}

/// Each of the three required top-level fields is reported as missing once
/// where the document lacks it, and not at all where the document has it.
pub proof fn lemma_missing_field_reported(doc: Doc, name: Seq<char>)
    requires
        is_required_top(name),
    ensures
        occurrences(schema_findings(doc), missing_field(name)) == if doc.get(name) is None {
            1nat
        } else {
            0nat
        },
{
    reveal_strlit("Missing required field: ");
    reveal_strlit("api_version");
    reveal_strlit("identity_version");
    reveal_strlit("entity");
    let item = missing_field(name);
    assert(led_by(item, 'M'));
    lemma_absent_after_presence(doc, item);
    let a = required_top(doc, "api_version"@);
    let b = required_top(doc, "identity_version"@);
    let c = required_top(doc, "entity"@);
    lemma_required_top_occurrences(doc, "api_version"@, name);
    lemma_required_top_occurrences(doc, "identity_version"@, name);
    lemma_required_top_occurrences(doc, "entity"@, name);
    lemma_occurrences_add(a, b, item);
    lemma_occurrences_add(a + b, c, item);
    assert("api_version"@.len() == 11 && "identity_version"@.len() == 16 && "entity"@.len() == 6);
}

/// The presence check reports nothing but the three required top-level
/// fields: a finding that begins like its findings names one of them, and the
/// document lacks that field.
pub proof fn lemma_missing_field_findings(doc: Doc, i: int)
    requires
        0 <= i < schema_findings(doc).len(),
        begins_with(schema_findings(doc)[i], "Missing required field: "@),
    ensures
        exists|name: Seq<char>|
            is_required_top(name) && doc.get(name) is None && schema_findings(doc)[i]
                == #[trigger] missing_field(name),
{
    reveal_strlit("Missing required field: ");
    let all = schema_findings(doc);
    let item = all[i];
    assert(item.subrange(0, 24)[0] == item[0]);
    assert(led_by(item, 'M'));
    lemma_occurrences_contains(all, item);
    lemma_absent_after_presence(doc, item);
    let p = presence_findings(doc);
    lemma_occurrences_contains(p, item);
    let k = choose|k: int| 0 <= k < p.len() && p[k] == item;
    let a = required_top(doc, "api_version"@);
    let b = required_top(doc, "identity_version"@);
    let c = required_top(doc, "entity"@);
    if k < a.len() {
        assert(p[k] == a[k]);
        assert(is_required_top("api_version"@));
        assert(item == missing_field("api_version"@));
    } else if k < a.len() + b.len() {
        assert(p[k] == b[k - a.len()]);
        assert(is_required_top("identity_version"@));
        assert(item == missing_field("identity_version"@));
    } else {
        assert(p[k] == c[k - a.len() - b.len()]);
        assert(is_required_top("entity"@));
        assert(item == missing_field("entity"@));
    }
}

/// The text that follows the count in the finding for an oversized section.
pub open spec fn limit_clause(max: nat) -> Seq<char> {
    ". Maximum is "@ + decimal(max) + "."@
}

/// The finding for an oversized section, cut before and after the count.
proof fn lemma_too_many_parts(what: Seq<char>, count: nat, max: nat)
    ensures
        too_many(what, count, max) == ("Too many "@ + what + ": "@) + (decimal(count)
            + limit_clause(max)),
        limit_clause(max).len() > 0,
        !is_digit(limit_clause(max)[0]),
        what.len() > 0 ==> too_many(what, count, max).len() > 9 && too_many(what, count, max)[9]
            == what[0],
{
    reveal_strlit("Too many ");
    reveal_strlit(". Maximum is ");
    assert(too_many(what, count, max) =~= ("Too many "@ + what + ": "@) + (decimal(count)
        + limit_clause(max)));
}

/// How often the size check of a section reports that the rules are too
/// many: once where it checks the rules, they are above the limit and it is
/// their number that the finding gives.
proof fn lemma_size_occurrences(what: Seq<char>, count: nat, max: nat, reported: nat)
    requires
        what == "rules"@ || what == "sources"@ || what == "blocking keys"@,
        what == "rules"@ ==> max == MAX_RULES,
    ensures
        occurrences(
            size_findings(what, count, max),
            too_many("rules"@, reported, MAX_RULES as nat),
        ) == if what == "rules"@ && count > max && reported == count {
            1nat
        } else {
            0nat
        },
{
    reveal_strlit("rules");
    reveal_strlit("sources");
    reveal_strlit("blocking keys");
    let item = too_many("rules"@, reported, MAX_RULES as nat);
    if count > max {
        let found = too_many(what, count, max);
        lemma_occurrences_single(found, item);
        lemma_too_many_parts(what, count, max);
        lemma_too_many_parts("rules"@, reported, MAX_RULES as nat);
        if found == item {
            assert(what[0] == 'r');
            assert(what == "rules"@);
            lemma_same_beginning(
                "Too many "@ + what + ": "@,
                decimal(count) + limit_clause(max),
                decimal(reported) + limit_clause(MAX_RULES as nat),
            );
            lemma_decimal_delimited(
                count,
                reported,
                limit_clause(max),
                limit_clause(MAX_RULES as nat),
            );
        }
    } else {
        assert(occurrences(Seq::<Seq<char>>::empty(), item) == 0);
    }
}

/// The finding that the rules are too many, giving their number, occurs once
/// where a document holds more rules than the limit allows. It does not
/// occur for a document within the limit, nor with any other number.
pub proof fn lemma_rule_limit_reported(doc: Doc, rules: Seq<Doc>, reported: nat)
    requires
        doc.get("rules"@) == Some(Doc::List(rules)),
    ensures
        occurrences(schema_findings(doc), too_many("rules"@, reported, MAX_RULES as nat)) == if
            rules.len() > MAX_RULES && reported == rules.len() {
            1nat
        } else {
            0nat
        },
{
    reveal_strlit("Too many ");
    reveal_strlit("rules");
    reveal_strlit("sources");
    reveal_strlit("blocking keys");
    assert("sources"@ != "rules"@ && "blocking keys"@ != "rules"@) by {
        assert("sources"@[0] == 's' && "blocking keys"@[0] == 'b' && "rules"@[0] == 'r');
    }
    let item = too_many("rules"@, reported, MAX_RULES as nat);
    assert(led_by(item, 'T'));
    let p = presence_findings(doc);
    let a = api_version_findings(doc);
    let e = entity_findings(doc);
    let r = rules_findings(doc);
    let s = sources_findings(doc);
    let b = blocking_findings(doc);
    lemma_presence_lead(doc);
    lemma_absent_by_lead(p, 'M', item);
    lemma_api_version_lead(doc);
    lemma_absent_by_lead(a, 'I', item);
    lemma_entity_lead(doc);
    lemma_absent_by_lead(e, 'e', item);
    let size = size_findings("rules"@, rules.len(), MAX_RULES as nat);
    let each = rules_findings_upto(rules, rules.len());
    lemma_size_occurrences("rules"@, rules.len(), MAX_RULES as nat, reported);
    lemma_rules_lead(rules, rules.len());
    lemma_absent_by_lead(each, 'r', item);
    lemma_occurrences_add(size, each, item);
    match doc.get("sources"@) {
        Some(Doc::List(sources)) => {
            let size = size_findings("sources"@, sources.len(), MAX_SOURCES as nat);
            let each = sources_findings_upto(sources, sources.len());
            lemma_size_occurrences("sources"@, sources.len(), MAX_SOURCES as nat, reported);
            lemma_sources_lead(sources, sources.len());
            lemma_absent_by_lead(each, 's', item);
            lemma_occurrences_add(size, each, item);
        },
        _ => {},
    }
    match doc.get("blocking"@) {
        Some(blocking) => match blocking.get("keys"@) {
            Some(Doc::List(keys)) => {
                lemma_size_occurrences(
                    "blocking keys"@,
                    keys.len(),
                    MAX_BLOCKING_KEYS as nat,
                    reported,
                );
            },
            _ => {},
        },
        None => {},
    }
    lemma_occurrences_add(p, a, item);
    lemma_occurrences_add(p + a, e, item);
    lemma_occurrences_add(p + a + e, r, item);
    lemma_occurrences_add(p + a + e + r, s, item);
    lemma_occurrences_add(p + a + e + r + s, b, item);
}

/// Whether `field` is one of the two fields of a rule that must lie between
/// zero and one.
pub open spec fn is_bounded_field(field: Seq<char>) -> bool {
    field == "weight"@ || field == "threshold"@
}

/// Whether a finding speaks of item `index` of a section with a name of five
/// letters, and goes on with the character `c` after the index.
pub open spec fn tagged(finding: Seq<char>, index: nat, c: char) -> bool {
    let digits = decimal(index);
    let end = 6 + digits.len() as int;
    &&& finding.len() >= end + 4
    &&& finding.subrange(6, end) == digits
    &&& finding[end] == ']'
    &&& finding[end + 3] == c
}

/// A finding speaks of one item only, and goes on in one way only.
proof fn lemma_tag_unique(finding: Seq<char>, j: nat, c: char, k: nat, e: char)
    requires
        tagged(finding, j, c),
        tagged(finding, k, e),
    ensures
        j == k,
        c == e,
{
    let end = finding.len() as int;
    let x = finding.subrange(6 + decimal(j).len() as int, end);
    let y = finding.subrange(6 + decimal(k).len() as int, end);
    assert(decimal(j) + x =~= finding.subrange(6, end));
    assert(decimal(k) + y =~= finding.subrange(6, end));
    lemma_decimal_delimited(j, k, x, y);
}

/// The finding for a rule that lacks a field goes on with `m` after the
/// index.
proof fn lemma_missing_member_tag(index: nat, field: Seq<char>)
    ensures
        tagged(missing_member("rules"@, index, field), index, 'm'),
{
    reveal_strlit("rules");
    reveal_strlit("[");
    reveal_strlit("]: missing required field '");
    let finding = missing_member("rules"@, index, field);
    let digits = decimal(index);
    let rest = "]: missing required field '"@ + field + "'"@;
    assert(finding =~= "rules"@ + "["@ + digits + rest);
    assert(finding.subrange(6, 6 + digits.len() as int) =~= digits);
}

/// The finding for a field of a rule out of range goes on with the field's
/// first letter after the index.
proof fn lemma_out_of_range_tag(index: nat, field: Seq<char>, shown: Seq<char>)
    requires
        field.len() > 0,
    ensures
        tagged(out_of_range(index, field, shown), index, field[0]),
{
    reveal_strlit("rules[");
    reveal_strlit("]: ");
    let finding = out_of_range(index, field, shown);
    let digits = decimal(index);
    let rest = "]: "@ + field + " "@ + shown + " must be between 0 and 1"@;
    assert(finding =~= "rules["@ + digits + rest);
    assert(finding.subrange(6, 6 + digits.len() as int) =~= digits);
}

/// How often the presence check of a field of rule `j` gives a finding that
/// speaks of another item or goes on in another way than with `m`: never.
proof fn lemma_member_occurrences(j: nat, rule: Doc, field: Seq<char>, item: Seq<char>, k: nat, c: char)
    requires
        tagged(item, k, c),
        k != j || c != 'm',
    ensures
        occurrences(required_member("rules"@, j, rule, field), item) == 0,
{
    if rule.get(field) is None {
        lemma_occurrences_single(missing_member("rules"@, j, field), item);
        lemma_missing_member_tag(j, field);
        if missing_member("rules"@, j, field) == item {
            lemma_tag_unique(item, j, 'm', k, c);
        }
    } else {
        assert(occurrences(Seq::<Seq<char>>::empty(), item) == 0);
    }
}

/// How often the range check of `field` of rule `j` gives the finding for
/// `wanted` of rule `k` out of range, where these are different fields or
/// different rules: never.
proof fn lemma_other_range_occurrences(
    j: nat,
    rule: Doc,
    field: Seq<char>,
    k: nat,
    wanted: Seq<char>,
    shown: Seq<char>,
)
    requires
        is_bounded_field(field),
        is_bounded_field(wanted),
        k != j || wanted != field,
    ensures
        occurrences(range_findings(j, rule, field), out_of_range(k, wanted, shown)) == 0,
{
    reveal_strlit("weight");
    reveal_strlit("threshold");
    let item = out_of_range(k, wanted, shown);
    match rule.get(field) {
        Some(Doc::Number(n)) => {
            if n.in_unit_interval() {
                assert(occurrences(Seq::<Seq<char>>::empty(), item) == 0);
            } else {
                lemma_occurrences_single(out_of_range(j, field, n.shown), item);
                lemma_out_of_range_tag(j, field, n.shown);
                lemma_out_of_range_tag(k, wanted, shown);
                if out_of_range(j, field, n.shown) == item {
                    lemma_tag_unique(item, j, field[0], k, wanted[0]);
                }
            }
        },
        _ => {
            assert(occurrences(Seq::<Seq<char>>::empty(), item) == 0);
        },
    }
}

/// How often the checks of rule `j` give the finding for `field` of rule
/// `index` out of range: once for that rule itself, never for another.
proof fn lemma_rule_occurrences(
    j: nat,
    rule: Doc,
    index: nat,
    field: Seq<char>,
    n: NumView,
)
    requires
        is_bounded_field(field),
        j == index ==> rule.get(field) == Some(Doc::Number(n)) && !n.in_unit_interval(),
    ensures
        occurrences(rule_findings(j, rule), out_of_range(index, field, n.shown)) == if j
            == index {
            1nat
        } else {
            0nat
        },
{
    reveal_strlit("weight");
    reveal_strlit("threshold");
    let item = out_of_range(index, field, n.shown);
    let a = required_member("rules"@, j, rule, "name"@);
    let b = required_member("rules"@, j, rule, "type"@);
    let c = range_findings(j, rule, "weight"@);
    let d = range_findings(j, rule, "threshold"@);
    lemma_out_of_range_tag(index, field, n.shown);
    lemma_member_occurrences(j, rule, "name"@, item, index, field[0]);
    lemma_member_occurrences(j, rule, "type"@, item, index, field[0]);
    assert("weight"@ != "threshold"@) by {
        assert("weight"@[0] == 'w' && "threshold"@[0] == 't');
    }
    if j == index && field == "weight"@ {
        lemma_occurrences_single(item, item);
    } else {
        lemma_other_range_occurrences(j, rule, "weight"@, index, field, n.shown);
    }
    if j == index && field == "threshold"@ {
        lemma_occurrences_single(item, item);
    } else {
        lemma_other_range_occurrences(j, rule, "threshold"@, index, field, n.shown);
    }
    lemma_occurrences_add(a, b, item);
    lemma_occurrences_add(a + b, c, item);
    lemma_occurrences_add(a + b + c, d, item);
}

/// How often the checks of the first `upto` rules give the finding for
/// `field` of rule `index` out of range: once as soon as that rule is among
/// them.
proof fn lemma_rules_occurrences(
    rules: Seq<Doc>,
    upto: nat,
    index: nat,
    field: Seq<char>,
    n: NumView,
)
    requires
        upto <= rules.len(),
        index < rules.len(),
        is_bounded_field(field),
        rules[index as int].get(field) == Some(Doc::Number(n)),
        !n.in_unit_interval(),
    ensures
        occurrences(rules_findings_upto(rules, upto), out_of_range(index, field, n.shown)) == if index
            < upto {
            1nat
        } else {
            0nat
        },
    decreases upto,
{
    let item = out_of_range(index, field, n.shown);
    if upto == 0 {
        assert(occurrences(Seq::<Seq<char>>::empty(), item) == 0);
    } else {
        let j = (upto - 1) as nat;
        lemma_rules_occurrences(rules, j, index, field, n);
        lemma_rule_occurrences(j, rules[j as int], index, field, n);
        lemma_occurrences_add(rules_findings_upto(rules, j), rule_findings(j, rules[j as int]), item);
    }
}

/// A weight or threshold of a rule that is a number outside of zero to one is
/// reported by exactly one finding, which gives the rule's index and the
/// number.
pub proof fn lemma_out_of_range_reported_once(
    doc: Doc,
    rules: Seq<Doc>,
    index: nat,
    field: Seq<char>,
    n: NumView,
)
    requires
        doc.get("rules"@) == Some(Doc::List(rules)),
        index < rules.len(),
        is_bounded_field(field),
        rules[index as int].get(field) == Some(Doc::Number(n)),
        !n.in_unit_interval(),
    ensures
        occurrences(schema_findings(doc), out_of_range(index, field, n.shown)) == 1,
{
    reveal_strlit("rules[");
    reveal_strlit("Too many ");
    let item = out_of_range(index, field, n.shown);
    assert(led_by(item, 'r'));
    let p = presence_findings(doc);
    let a = api_version_findings(doc);
    let e = entity_findings(doc);
    let r = rules_findings(doc);
    let s = sources_findings(doc);
    let b = blocking_findings(doc);
    lemma_presence_lead(doc);
    lemma_absent_by_lead(p, 'M', item);
    lemma_api_version_lead(doc);
    lemma_absent_by_lead(a, 'I', item);
    lemma_entity_lead(doc);
    lemma_absent_by_lead(e, 'e', item);
    let size = size_findings("rules"@, rules.len(), MAX_RULES as nat);
    let each = rules_findings_upto(rules, rules.len());
    lemma_size_lead("rules"@, rules.len(), MAX_RULES as nat);
    lemma_absent_by_lead(size, 'T', item);
    lemma_rules_occurrences(rules, rules.len(), index, field, n);
    lemma_occurrences_add(size, each, item);
    lemma_sources_absent(doc, item);
    lemma_blocking_absent(doc, item);
    lemma_occurrences_add(p, a, item);
    lemma_occurrences_add(p + a, e, item);
    lemma_occurrences_add(p + a + e, r, item);
    lemma_occurrences_add(p + a + e + r, s, item);
    lemma_occurrences_add(p + a + e + r + s, b, item);
}

/// Whether a field of a rule, where it is a number, lies between zero and
/// one.
pub open spec fn within_unit(rule: Doc, field: Seq<char>) -> bool {
    match rule.get(field) {
        Some(Doc::Number(n)) => n.in_unit_interval(),
        _ => true,
    }
}

/// Whether a rule has the structure that a specification asks of it: a name,
/// a type, and a weight and a threshold that lie between zero and one where
/// they are numbers.
pub open spec fn rule_well_formed(rule: Doc) -> bool {
    &&& rule.get("name"@) is Some
    &&& rule.get("type"@) is Some
    &&& within_unit(rule, "weight"@)
    &&& within_unit(rule, "threshold"@)
}

/// Whether a source has the structure that a specification asks of it: a
/// name, a system, a table, an id and attributes.
pub open spec fn source_well_formed(source: Doc) -> bool {
    &&& source.get("name"@) is Some
    &&& source.get("system"@) is Some
    &&& source.get("table"@) is Some
    &&& source.get("id"@) is Some
    &&& source.get("attributes"@) is Some
}

/// Whether a document has the structure of a specification: the three
/// required fields, an `api_version` of the right form where it is a string,
/// an entity with a name, at most fifty rules and ten sources, each
/// well-formed, and at most five blocking keys.
pub open spec fn schema_valid(doc: Doc) -> bool {
    &&& doc.get("api_version"@) is Some
    &&& doc.get("identity_version"@) is Some
    &&& doc.get("entity"@) is Some
    &&& doc.get("api_version"@) matches Some(Doc::Text(version)) ==> begins_with(
        version,
        "kanoniv/v"@,
    )
    &&& doc.get("entity"@) matches Some(entity) ==> entity.get("name"@) is Some
    &&& doc.get("rules"@) matches Some(Doc::List(rules)) ==> {
        &&& rules.len() <= MAX_RULES
        &&& forall|i: int| 0 <= i < rules.len() ==> rule_well_formed(#[trigger] rules[i])
    }
    &&& doc.get("sources"@) matches Some(Doc::List(sources)) ==> {
        &&& sources.len() <= MAX_SOURCES
        &&& forall|i: int| 0 <= i < sources.len() ==> source_well_formed(#[trigger] sources[i])
    }
    &&& doc.get("blocking"@) matches Some(blocking) ==> (blocking.get("keys"@) matches Some(
        Doc::List(keys),
    ) ==> keys.len() <= MAX_BLOCKING_KEYS)
}

/// The checks of the first `upto` rules find nothing exactly when each of
/// these rules is well-formed.
proof fn lemma_rules_clean(rules: Seq<Doc>, upto: nat)
    requires
        upto <= rules.len(),
    ensures
        rules_findings_upto(rules, upto).len() == 0 <==> forall|i: int|
            0 <= i < upto ==> rule_well_formed(#[trigger] rules[i]),
    decreases upto,
{
    if upto > 0 {
        let index = (upto - 1) as nat;
        let rule = rules[upto - 1];
        lemma_rules_clean(rules, index);
        assert(rule_findings(index, rule).len() == 0 <==> rule_well_formed(rule));
        if rules_findings_upto(rules, upto).len() == 0 {
            assert forall|i: int| 0 <= i < upto implies rule_well_formed(#[trigger] rules[i]) by {
                if i == upto - 1 {
                }
            }
        }
        if forall|i: int| 0 <= i < upto ==> rule_well_formed(#[trigger] rules[i]) {
            assert(rule_well_formed(rules[upto - 1]));
        }
    }
}

/// The checks of the first `upto` sources find nothing exactly when each of
/// these sources is well-formed.
proof fn lemma_sources_clean(sources: Seq<Doc>, upto: nat)
    requires
        upto <= sources.len(),
    ensures
        sources_findings_upto(sources, upto).len() == 0 <==> forall|i: int|
            0 <= i < upto ==> source_well_formed(#[trigger] sources[i]),
    decreases upto,
{
    if upto > 0 {
        let index = (upto - 1) as nat;
        let source = sources[upto - 1];
        lemma_sources_clean(sources, index);
        assert(source_findings(index, source).len() == 0 <==> source_well_formed(source));
        if sources_findings_upto(sources, upto).len() == 0 {
            assert forall|i: int| 0 <= i < upto implies source_well_formed(
                #[trigger] sources[i],
            ) by {
                if i == upto - 1 {
                }
            }
        }
        if forall|i: int| 0 <= i < upto ==> source_well_formed(#[trigger] sources[i]) {
            assert(source_well_formed(sources[upto - 1]));
        }
    }
}

/// The schema validator finds nothing in a document exactly when the
/// document has the structure of a specification.
pub proof fn lemma_schema_findings_complete(doc: Doc)
    ensures
        schema_findings(doc).len() == 0 <==> schema_valid(doc),
{
    match doc.get("rules"@) {
        Some(Doc::List(rules)) => lemma_rules_clean(rules, rules.len()),
        _ => {},
    }
    match doc.get("sources"@) {
        Some(Doc::List(sources)) => lemma_sources_clean(sources, sources.len()),
        _ => {},
    }
}

} // verus!
