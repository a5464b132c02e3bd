use crate::text::{
    contains, distinct, list_contains, occurs_in, push_text, texts,
};
use crate::value::{rank, rank_of, views, Doc, Node, ONE_BITS};
use vstd::prelude::*;
use vstd::string::StringExecFns;

verus! {

/// The keys of the first `upto` entries of a mapping, in order.
pub open spec fn keys_upto(entries: Seq<(Seq<char>, Doc)>, upto: nat) -> Seq<Seq<char>>
    decreases upto,
{
    if upto == 0 {
        Seq::empty()
    } else {
        keys_upto(entries, (upto - 1) as nat).push(entries[upto - 1].0)
    }
}

/// The attribute names that a source declares, in order. A source without an
/// `attributes` mapping declares none.
pub open spec fn source_attributes(source: Doc) -> Seq<Seq<char>> {
    match source.get("attributes"@) {
        Some(Doc::Table(entries)) => keys_upto(entries, entries.len()),
        _ => Seq::empty(),
    }
}

/// The attribute names that the first `upto` sources declare, source by
/// source.
pub open spec fn attributes_upto(sources: Seq<Doc>, upto: nat) -> Seq<Seq<char>>
    decreases upto,
{
    if upto == 0 {
        Seq::empty()
    } else {
        attributes_upto(sources, (upto - 1) as nat) + source_attributes(sources[upto - 1])
    }
}

/// The fields that rules may refer to: the distinct attribute names of all
/// sources, each at the place where it is first declared.
pub open spec fn available_fields(doc: Doc) -> Seq<Seq<char>> {
    match doc.get("sources"@) {
        Some(Doc::List(sources)) => distinct(attributes_upto(sources, sources.len())),
        _ => Seq::empty(),
    }
}

/// Whether one of two names stands inside the other.
pub open spec fn similar(candidate: Seq<char>, field: Seq<char>) -> bool {
    occurs_in(field, candidate) || occurs_in(candidate, field)
}

/// The hint that follows the finding for an unknown field: it names the
/// first available field that is similar to it, and is empty when none is.
pub open spec fn suggestion(available: Seq<Seq<char>>, field: Seq<char>) -> Seq<char>
    decreases available.len(),
{
    if available.len() == 0 {
        Seq::empty()
    } else if similar(available[0], field) {
        " Did you mean '"@ + available[0] + "'?"@
    } else {
        suggestion(available.drop_first(), field)
    }
}

/// The name by which findings call a rule.
pub open spec fn rule_label(rule: Doc) -> Seq<char> {
    match rule.get("name"@) {
        Some(Doc::Text(name)) => name,
        _ => "unknown"@,
    }
}

/// The finding for a rule that refers to a field that no source declares.
pub open spec fn unknown_field(label: Seq<char>, field: Seq<char>, hint: Seq<char>) -> Seq<char> {
    "Rule '"@ + label + "' references unknown field '"@ + field + "'."@ + hint
}

/// What the check of one rule's field reference finds. Nothing is checked
/// while no field is available, nor for a field that is no string.
pub open spec fn reference_findings(available: Seq<Seq<char>>, rule: Doc) -> Seq<Seq<char>> {
    match rule.get("field"@) {
        Some(Doc::Text(field)) => if available.len() > 0 && !available.contains(field) {
            seq![unknown_field(rule_label(rule), field, suggestion(available, field))]
        } else {
            Seq::empty()
        },
        _ => Seq::empty(),
    }
}

/// What the field reference checks of the first `upto` rules find.
pub open spec fn references_upto(
    available: Seq<Seq<char>>,
    rules: Seq<Doc>,
    upto: nat,
) -> Seq<Seq<char>>
    decreases upto,
{
    if upto == 0 {
        Seq::empty()
    } else {
        references_upto(available, rules, (upto - 1) as nat) + reference_findings(
            available,
            rules[upto - 1],
        )
    }
}

/// What the field reference checks of all rules find.
pub open spec fn all_reference_findings(doc: Doc) -> Seq<Seq<char>> {
    match doc.get("rules"@) {
        Some(Doc::List(rules)) => references_upto(available_fields(doc), rules, rules.len()),
        _ => Seq::empty(),
    }
}

/// The name of an item, where it has one that is a string.
pub open spec fn name_of(item: Doc) -> Option<Seq<char>> {
    match item.get("name"@) {
        Some(Doc::Text(name)) => Some(name),
        _ => None,
    }
}

/// Whether the item at `index` bears a name that an earlier item bears too.
pub open spec fn repeats_name(items: Seq<Doc>, index: int) -> bool {
    &&& name_of(items[index]) is Some
    &&& exists|earlier: int|
        0 <= earlier < index && #[trigger] name_of(items[earlier]) == name_of(items[index])
}

/// The finding for a name that was used before; `what` says of which kind.
pub open spec fn duplicate_name(what: Seq<char>, name: Seq<char>) -> Seq<char> {
    "Duplicate "@ + what + " name: '"@ + name + "'"@
}

/// The findings for repeated names among the first `upto` items: one for each
/// item whose name an earlier item bears.
pub open spec fn duplicates_upto(what: Seq<char>, items: Seq<Doc>, upto: nat) -> Seq<Seq<char>>
    decreases upto,
{
    if upto == 0 {
        Seq::empty()
    } else {
        let before = duplicates_upto(what, items, (upto - 1) as nat);
        if repeats_name(items, upto - 1) {
            before.push(duplicate_name(what, name_of(items[upto - 1])->0))
        } else {
            before
        }
    }
}

/// The findings for repeated names in one section of a document. A section
/// that is no sequence is not looked at.
pub open spec fn duplicate_findings(doc: Doc, section: Seq<char>, what: Seq<char>) -> Seq<
    Seq<char>,
> {
    match doc.get(section) {
        Some(Doc::List(items)) => duplicates_upto(what, items, items.len()),
        _ => Seq::empty(),
    }
}

/// The rank of the threshold `name`, or `otherwise` where it is absent or no
/// number.
pub open spec fn threshold_rank(thresholds: Doc, name: Seq<char>, otherwise: int) -> int {
    match thresholds.get(name) {
        Some(Doc::Number(n)) => rank(n.bits),
        _ => otherwise,
    }
}

/// The finding for a `match` threshold below the `review` threshold.
pub open spec fn match_below_review() -> Seq<char> {
    "Threshold error: 'match' should be >= 'review'"@
}

/// The finding for a `review` threshold below the `reject` threshold.
pub open spec fn review_below_reject() -> Seq<char> {
    "Threshold error: 'review' should be >= 'reject'"@
}

/// What the ordering check of a set of thresholds finds. An absent `match`
/// counts as one, an absent `review` or `reject` as zero.
pub open spec fn ordering_findings(thresholds: Doc) -> Seq<Seq<char>> {
    let matched = threshold_rank(thresholds, "match"@, rank(ONE_BITS));
    let review = threshold_rank(thresholds, "review"@, 0);
    let reject = threshold_rank(thresholds, "reject"@, 0);
    (if matched < review {
        seq![match_below_review()]
    } else {
        Seq::empty()
    }) + (if review < reject {
        seq![review_below_reject()]
    } else {
        Seq::empty()
    })
}

/// What the ordering check of `decision.thresholds` finds.
pub open spec fn threshold_findings(doc: Doc) -> Seq<Seq<char>> {
    match doc.get("decision"@) {
        Some(decision) => match decision.get("thresholds"@) {
            Some(thresholds) => ordering_findings(thresholds),
            None => Seq::empty(),
        },
        None => Seq::empty(),
    }
}

/// Every semantic finding of a document, in the order of the checks.
pub open spec fn semantic_findings(doc: Doc) -> Seq<Seq<char>> {
    all_reference_findings(doc) + duplicate_findings(doc, "rules"@, "rule"@) + duplicate_findings(
        doc,
        "sources"@,
        "source"@,
    ) + threshold_findings(doc)
}

/// Taking one more item into account adds it to the distinct items unless it
/// is among them.
pub proof fn lemma_distinct_push(items: Seq<Seq<char>>, item: Seq<char>)
    ensures
        distinct(items.push(item)) == if distinct(items).contains(item) {
            distinct(items)
        } else {
            distinct(items).push(item)
        },
{
    assert(items.push(item).drop_last() =~= items);
}

/// Skipping candidates that are not similar does not change the hint.
pub proof fn lemma_suggestion_skip(available: Seq<Seq<char>>, field: Seq<char>, n: int)
    requires
        0 <= n <= available.len(),
        forall|j: int| 0 <= j < n ==> !similar(#[trigger] available[j], field),
    ensures
        suggestion(available, field) == suggestion(
            available.subrange(n, available.len() as int),
            field,
        ),
    decreases n,
{
    if n == 0 {
        assert(available.subrange(0, available.len() as int) =~= available);
    } else {
        let rest = available.drop_first();
        assert forall|j: int| 0 <= j < n - 1 implies !similar(#[trigger] rest[j], field) by {
            assert(rest[j] == available[j + 1]);
        }
        assert(!similar(available[0], field));
        lemma_suggestion_skip(rest, field, n - 1);
        assert(rest.subrange(n - 1, rest.len() as int) =~= available.subrange(
            n,
            available.len() as int,
        ));
    }
}

fn collect_fields(doc: &Node) -> (fields: Vec<String>)
    ensures
        texts(fields@) == available_fields(doc@),
{
    let mut fields: Vec<String> = Vec::new();
    assert(texts(fields@) =~= Seq::<Seq<char>>::empty());
    if let Some(section) = doc.get("sources") {
        if let Some(sources) = section.as_array() {
            let ghost docs = views(sources@);
            let mut i: usize = 0;
            while i < sources.len()
                invariant
                    i <= sources.len(),
                    docs == views(sources@),
                    texts(fields@) == distinct(attributes_upto(docs, i as nat)),
                decreases sources.len() - i,
            {
                let ghost declared = attributes_upto(docs, i as nat);
                if let Some(attributes) = sources[i].get("attributes") {
                    if let Some(entries) = attributes.as_object() {
                        let ghost table = attributes@->Table_0;
                        let mut k: usize = 0;
                        assert(declared + keys_upto(table, 0) =~= declared);
                        while k < entries.len()
                            invariant
                                k <= entries.len(),
                                table.len() == entries.len(),
                                forall|j: int|
                                    0 <= j < entries.len() ==> (#[trigger] table[j]).0
                                        == entries[j].0@,
                                texts(fields@) == distinct(
                                    declared + keys_upto(table, k as nat),
                                ),
                            decreases entries.len() - k,
                        {
                            let ghost so_far = declared + keys_upto(table, k as nat);
                            proof {
                                lemma_distinct_push(so_far, entries[k as int].0@);
                                assert(table[k as int].0 == entries[k as int].0@);
                                assert(declared + keys_upto(table, (k + 1) as nat) =~= so_far.push(
                                    entries[k as int].0@,
                                ));
                            }
                            if !list_contains(&fields, entries[k].0.as_str()) {
                                push_text(&mut fields, entries[k].0.clone());
                            }
                            k += 1;
                        }
                    }
                }
                assert(texts(fields@) == distinct(attributes_upto(docs, (i + 1) as nat))) by {
                    assert(docs[i as int] == sources[i as int]@);
                    let added = source_attributes(docs[i as int]);
                    assert(attributes_upto(docs, (i + 1) as nat) == declared + added);
                    if added.len() == 0 {
                        assert(declared + added =~= declared);
                    }
                }
                i += 1;
            }
        }
    }
    fields
}

fn suggest(available: &Vec<String>, field: &str) -> (hint: String)
    ensures
        hint@ == suggestion(texts(available@), field@),
{
    let ghost all = texts(available@);
    let mut i: usize = 0;
    while i < available.len()
        invariant
            i <= available.len(),
            all == texts(available@),
            forall|j: int| 0 <= j < i ==> !similar(#[trigger] all[j], field@),
        decreases available.len() - i,
    {
        let candidate = available[i].as_str();
        if contains(candidate, field) || contains(field, candidate) {
            proof {
                lemma_suggestion_skip(all, field@, i as int);
                assert(all.subrange(i as int, all.len() as int)[0] == all[i as int]);
            }
            let mut hint = String::from_str(" Did you mean '");
            hint.append(candidate);
            hint.append("'?");
            return hint;
        }
        i += 1;
    }
    proof {
        lemma_suggestion_skip(all, field@, i as int);
    }
    String::new()
}

fn label_of(rule: &Node) -> (label: &str)
    ensures
        label@ == rule_label(rule@),
{
    if let Some(name) = rule.get("name") {
        if let Some(text) = name.as_str() {
            return text;
        }
    }
    "unknown"
}

fn check_reference(rule: &Node, available: &Vec<String>, errors: &mut Vec<String>)
    ensures
        texts(final(errors)@) == texts(old(errors)@) + reference_findings(
            texts(available@),
            rule@,
        ),
{
    if let Some(value) = rule.get("field") {
        if let Some(field) = value.as_str() {
            if available.len() > 0 && !list_contains(available, field) {
                let mut message = String::from_str("Rule '");
                message.append(label_of(rule));
                message.append("' references unknown field '");
                message.append(field);
                message.append("'.");
                message.append(suggest(available, field).as_str());
                push_text(errors, message);
            }
        }
    }
    assert(texts(errors@) =~= texts(old(errors)@) + reference_findings(
        texts(available@),
        rule@,
    ));
}

fn check_references(doc: &Node, errors: &mut Vec<String>)
    ensures
        texts(final(errors)@) == texts(old(errors)@) + all_reference_findings(doc@),
{
    let available = collect_fields(doc);
    if let Some(section) = doc.get("rules") {
        if let Some(rules) = section.as_array() {
            let ghost start = texts(errors@);
            let ghost docs = views(rules@);
            let ghost fields = texts(available@);
            assert(start + references_upto(fields, docs, 0) =~= start);
            let mut i: usize = 0;
            while i < rules.len()
                invariant
                    i <= rules.len(),
                    docs == views(rules@),
                    fields == texts(available@),
                    texts(errors@) == start + references_upto(fields, docs, i as nat),
                decreases rules.len() - i,
            {
                check_reference(&rules[i], &available, errors);
                assert(texts(errors@) =~= start + references_upto(fields, docs, (i + 1) as nat));
                i += 1;
            }
        }
    }
    assert(texts(errors@) =~= texts(old(errors)@) + all_reference_findings(doc@));
}

/// The name of an item, where it has one that is a string.
pub fn item_name(item: &Node) -> (name: Option<&str>)
    ensures
        match name {
            Some(text) => name_of(item@) == Some(text@),
            None => name_of(item@) is None,
        },
{
    if let Some(value) = item.get("name") {
        value.as_str()
    } else {
        None
    }
}

fn check_duplicates(doc: &Node, section: &str, what: &str, errors: &mut Vec<String>)
    ensures
        texts(final(errors)@) == texts(old(errors)@) + duplicate_findings(doc@, section@, what@),
{
    if let Some(value) = doc.get(section) {
        if let Some(items) = value.as_array() {
            let ghost start = texts(errors@);
            let ghost docs = views(items@);
            let mut seen: Vec<String> = Vec::new();
            assert(start + duplicates_upto(what@, docs, 0) =~= start);
            let mut i: usize = 0;
            while i < items.len()
                invariant
                    i <= items.len(),
                    docs == views(items@),
                    texts(errors@) == start + duplicates_upto(what@, docs, i as nat),
                    forall|name: Seq<char>| #[trigger]
                        texts(seen@).contains(name) <==> exists|j: int|
                            0 <= j < i && #[trigger] name_of(docs[j]) == Some(name),
                decreases items.len() - i,
            {
                let ghost known = texts(seen@);
                if let Some(name) = item_name(&items[i]) {
                    assert(name_of(docs[i as int]) == Some(name@));
                    let repeated = list_contains(&seen, name);
                    proof {
                        if repeated {
                            let j = choose|j: int|
                                0 <= j < i && #[trigger] name_of(docs[j]) == Some(name@);
                            assert(repeats_name(docs, i as int));
                        } else {
                            assert(!repeats_name(docs, i as int));
                        }
                    }
                    if repeated {
                        let mut message = String::from_str("Duplicate ");
                        message.append(what);
                        message.append(" name: '");
                        message.append(name);
                        message.append("'");
                        push_text(errors, message);
                    } else {
                        push_text(&mut seen, name.to_owned());
                    }
                    assert forall|other: Seq<char>| #[trigger]
                        texts(seen@).contains(other) <==> exists|j: int|
                            0 <= j < i + 1 && #[trigger] name_of(docs[j]) == Some(other) by {
                        if texts(seen@).contains(other) {
                            if known.contains(other) {
                                let j = choose|j: int|
                                    0 <= j < i && #[trigger] name_of(docs[j]) == Some(other);
                                assert(0 <= j < i + 1 && name_of(docs[j]) == Some(other));
                            } else {
                                let at = choose|at: int|
                                    0 <= at < texts(seen@).len() && texts(seen@)[at] == other;
                                assert(other == name@);
                                assert(name_of(docs[i as int]) == Some(other));
                            }
                        }
                        if exists|j: int|
                            0 <= j < i + 1 && #[trigger] name_of(docs[j]) == Some(other) {
                            let j = choose|j: int|
                                0 <= j < i + 1 && #[trigger] name_of(docs[j]) == Some(other);
                            if j < i {
                                assert(known.contains(other));
                                if !repeated {
                                    let at = choose|at: int|
                                        0 <= at < known.len() && known[at] == other;
                                    assert(texts(seen@)[at] == other);
                                }
                            } else {
                                assert(other == name@);
                                if !repeated {
                                    assert(texts(seen@)[known.len() as int] == other);
                                }
                            }
                        }
                    }
                } else {
                    assert(!repeats_name(docs, i as int));
                    assert forall|other: Seq<char>| #[trigger]
                        texts(seen@).contains(other) <==> exists|j: int|
                            0 <= j < i + 1 && #[trigger] name_of(docs[j]) == Some(other) by {
                        if texts(seen@).contains(other) {
                            let j = choose|j: int|
                                0 <= j < i && #[trigger] name_of(docs[j]) == Some(other);
                            assert(0 <= j < i + 1 && name_of(docs[j]) == Some(other));
                        }
                        if exists|j: int|
                            0 <= j < i + 1 && #[trigger] name_of(docs[j]) == Some(other) {
                            let j = choose|j: int|
                                0 <= j < i + 1 && #[trigger] name_of(docs[j]) == Some(other);
                            assert(j < i);
                        }
                    }
                }
                assert(texts(errors@) =~= start + duplicates_upto(what@, docs, (i + 1) as nat));
                i += 1;
            }
        }
    }
    assert(texts(errors@) =~= texts(old(errors)@) + duplicate_findings(doc@, section@, what@));
}

fn threshold_rank_of(thresholds: &Node, name: &str, otherwise: i64) -> (place: i64)
    ensures
        place == threshold_rank(thresholds@, name@, otherwise as int),
{
    if let Some(value) = thresholds.get(name) {
        if let Some(number) = value.as_number() {
            return number.rank();
        }
    }
    otherwise
}

fn check_thresholds(doc: &Node, errors: &mut Vec<String>)
    ensures
        texts(final(errors)@) == texts(old(errors)@) + threshold_findings(doc@),
{
    if let Some(decision) = doc.get("decision") {
        if let Some(thresholds) = decision.get("thresholds") {
            let matched = threshold_rank_of(thresholds, "match", rank_of(ONE_BITS));
            let review = threshold_rank_of(thresholds, "review", 0);
            let reject = threshold_rank_of(thresholds, "reject", 0);
            if matched < review {
                push_text(
                    errors,
                    String::from_str("Threshold error: 'match' should be >= 'review'"),
                );
            }
            if review < reject {
                push_text(
                    errors,
                    String::from_str("Threshold error: 'review' should be >= 'reject'"),
                );
            }
        }
    }
    assert(texts(errors@) =~= texts(old(errors)@) + threshold_findings(doc@));
}

/// Checks the rules that reach across a specification: field references,
/// repeated names and the order of the thresholds. It reports everything that
/// is wrong, in the order of the checks, and skips a check whose subject is
/// not there.
pub fn validate_semantics(spec: &Node) -> (errors: Vec<String>)
    ensures
        texts(errors@) == semantic_findings(spec@),
{
    let mut errors: Vec<String> = Vec::new();
    assert(texts(errors@) =~= Seq::empty());
    check_references(spec, &mut errors);
    check_duplicates(spec, "rules", "rule", &mut errors);
    check_duplicates(spec, "sources", "source", &mut errors);
    check_thresholds(spec, &mut errors);
    assert(texts(errors@) =~= semantic_findings(spec@));
    errors
}

} // verus!
