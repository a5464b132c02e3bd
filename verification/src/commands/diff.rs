use crate::codec::{json_text, to_json};
use crate::parser::{parse_yaml, parsed, ParseError};
use crate::text::{decimal, list_contains, push_text, texts, to_decimal};
use crate::validator::semantics::{item_name, name_of};
use crate::value::{lemma_same_value_reflexive, same_option, views, Doc, Node};
use vstd::prelude::*;
use vstd::string::StringExecFns;

verus! {

/// One changed field of a rule that both documents hold.
#[derive(Debug)]
pub struct RuleChange {
    /// The rule's name.
    pub name: String,
    /// The field that changed.
    pub field: String,
    /// The field's value in the old document, as JSON, or empty where it had
    /// none.
    pub old_value: String,
    /// The field's value in the new document, as JSON, or empty where it has
    /// none.
    pub new_value: String,
}

/// What changed between two documents.
#[derive(Debug)]
pub struct DiffResult {
    /// The names of the rules that only the new document holds, in its order.
    pub rules_added: Vec<String>,
    /// The names of the rules that only the old document holds, in its order.
    pub rules_removed: Vec<String>,
    /// The changes to rules that both documents hold, in the new one's order.
    pub rules_modified: Vec<RuleChange>,
    /// Whether the decision thresholds differ.
    pub thresholds_changed: bool,
    /// One sentence that sums the changes up.
    pub summary: String,
}

/// The mathematical model of a [`RuleChange`].
pub struct ChangeView {
    pub name: Seq<char>,
    pub field: Seq<char>,
    pub old_value: Seq<char>,
    pub new_value: Seq<char>,
}

/// The mathematical model of a [`DiffResult`].
pub struct DiffView {
    pub rules_added: Seq<Seq<char>>,
    pub rules_removed: Seq<Seq<char>>,
    pub rules_modified: Seq<ChangeView>,
    pub thresholds_changed: bool,
    pub summary: Seq<char>,
}

impl View for RuleChange {
    type V = ChangeView;

    open spec fn view(&self) -> ChangeView {
        ChangeView {
            name: self.name@,
            field: self.field@,
            old_value: self.old_value@,
            new_value: self.new_value@,
        }
    }
}

/// The models of a run of changes, in order.
pub open spec fn change_views(changes: Seq<RuleChange>) -> Seq<ChangeView> {
    Seq::new(changes.len(), |i: int| changes[i]@)
}

impl View for DiffResult {
    type V = DiffView;

    open spec fn view(&self) -> DiffView {
        DiffView {
            rules_added: texts(self.rules_added@),
            rules_removed: texts(self.rules_removed@),
            rules_modified: change_views(self.rules_modified@),
            thresholds_changed: self.thresholds_changed,
            summary: self.summary@,
        }
    }
}

impl Default for DiffResult {
    fn default() -> (diff: DiffResult)
        ensures
            diff@ == (DiffView {
                rules_added: Seq::empty(),
                rules_removed: Seq::empty(),
                rules_modified: Seq::empty(),
                thresholds_changed: false,
                summary: Seq::empty(),
            }),
    {
        let diff = DiffResult {
            rules_added: Vec::new(),
            rules_removed: Vec::new(),
            rules_modified: Vec::new(),
            thresholds_changed: false,
            summary: String::new(),
        };
        assert(diff@.rules_added =~= Seq::empty());
        assert(diff@.rules_removed =~= Seq::empty());
        assert(diff@.rules_modified =~= Seq::empty());
        diff
    }
}

/// The rules of a document; none where `rules` is absent or no sequence.
pub open spec fn rules_of(doc: Doc) -> Seq<Doc> {
    match doc.get("rules"@) {
        Some(Doc::List(rules)) => rules,
        _ => Seq::empty(),
    }
}

/// The names of the rules that have one, in the order of the rules.
pub open spec fn rule_names(rules: Seq<Doc>) -> Seq<Seq<char>> {
    rules.filter_map(|rule: Doc| name_of(rule))
}

/// The test for a name that is not among `names`.
pub open spec fn absent_from(names: Seq<Seq<char>>) -> spec_fn(Seq<char>) -> bool {
    |name: Seq<char>| !names.contains(name)
}

/// The names of the rules that only the new document holds.
pub open spec fn added_names(old: Doc, new: Doc) -> Seq<Seq<char>> {
    rule_names(rules_of(new)).filter(absent_from(rule_names(rules_of(old))))
}

/// The names of the rules that only the old document holds.
pub open spec fn removed_names(old: Doc, new: Doc) -> Seq<Seq<char>> {
    rule_names(rules_of(old)).filter(absent_from(rule_names(rules_of(new))))
}

/// The weight of the first rule that bears `name`; nothing where no rule
/// bears it or that rule has no weight.
pub open spec fn named_weight(rules: Seq<Doc>, name: Seq<char>) -> Option<Doc>
    decreases rules.len(),
{
    if rules.len() == 0 {
        None
    } else if name_of(rules[0]) == Some(name) {
        rules[0].get("weight"@)
    } else {
        named_weight(rules.drop_first(), name)
    }
}

/// A value as a change shows it: its JSON text, or nothing where it is absent.
pub open spec fn shown_value(value: Option<Doc>) -> Seq<char> {
    match value {
        Some(doc) => json_text(doc),
        None => Seq::empty(),
    }
}

/// The change of weight of the rule `name` between two lists of rules: none
/// where both weights are equal or both are absent.
pub open spec fn weight_change(old_rules: Seq<Doc>, new_rules: Seq<Doc>, name: Seq<char>) -> Seq<
    ChangeView,
> {
    let before = named_weight(old_rules, name);
    let after = named_weight(new_rules, name);
    if same_option(before, after) {
        Seq::empty()
    } else {
        seq![
            ChangeView {
                name,
                field: "weight"@,
                old_value: shown_value(before),
                new_value: shown_value(after),
            },
        ]
    }
}

/// The changes of weight for the first `upto` names of the new rules: one
/// for each name that the old rules hold too and whose weight differs.
pub open spec fn changes_upto(old_rules: Seq<Doc>, new_rules: Seq<Doc>, upto: nat) -> Seq<
    ChangeView,
>
    decreases upto,
{
    if upto == 0 {
        Seq::empty()
    } else {
        let before = changes_upto(old_rules, new_rules, (upto - 1) as nat);
        let name = rule_names(new_rules)[upto - 1];
        if rule_names(old_rules).contains(name) {
            before + weight_change(old_rules, new_rules, name)
        } else {
            before
        }
    }
}

/// The changes to the rules that both documents hold.
pub open spec fn modified_rules(old: Doc, new: Doc) -> Seq<ChangeView> {
    changes_upto(rules_of(old), rules_of(new), rule_names(rules_of(new)).len())
}

/// The decision thresholds of a document, where it has any.
pub open spec fn thresholds_of(doc: Doc) -> Option<Doc> {
    match doc.get("decision"@) {
        Some(decision) => decision.get("thresholds"@),
        None => None,
    }
}

/// Whether the decision thresholds of two documents differ.
pub open spec fn thresholds_differ(old: Doc, new: Doc) -> bool {
    !same_option(thresholds_of(old), thresholds_of(new))
}

/// The identity version of a document, or `unknown` where it has none that
/// is a string.
pub open spec fn version_of(doc: Doc) -> Seq<char> {
    match doc.get("identity_version"@) {
        Some(Doc::Text(version)) => version,
        _ => "unknown"@,
    }
}

/// How a summary writes a flag.
pub open spec fn flag_text(flag: bool) -> Seq<char> {
    if flag {
        "true"@
    } else {
        "false"@
    }
}

/// The sentence that sums up a comparison.
pub open spec fn summary_text(
    added: nat,
    removed: nat,
    modified: nat,
    changed: bool,
    from: Seq<char>,
    to: Seq<char>,
) -> Seq<char> {
    "Diff: "@ + decimal(added) + " added, "@ + decimal(removed) + " removed, "@ + decimal(
        modified,
    ) + " modified. Thresholds changed: "@ + flag_text(changed) + ". Version: "@ + from
        + " -> "@ + to
}

/// What changed from `old` to `new`.
pub open spec fn diff_of(old: Doc, new: Doc) -> DiffView {
    DiffView {
        rules_added: added_names(old, new),
        rules_removed: removed_names(old, new),
        rules_modified: modified_rules(old, new),
        thresholds_changed: thresholds_differ(old, new),
        summary: summary_text(
            added_names(old, new).len(),
            removed_names(old, new).len(),
            modified_rules(old, new).len(),
            thresholds_differ(old, new),
            version_of(old),
            version_of(new),
        ),
    }
}

/// The model of a value that may be absent.
pub open spec fn option_doc(value: Option<&Node>) -> Option<Doc> {
    match value {
        Some(node) => Some(node@),
        None => None,
    }
}

/// Skipping rules that bear another name does not change the weight found.
pub proof fn lemma_named_weight_skip(rules: Seq<Doc>, name: Seq<char>, n: int)
    requires
        0 <= n <= rules.len(),
        forall|j: int| 0 <= j < n ==> name_of(#[trigger] rules[j]) != Some(name),
    ensures
        named_weight(rules, name) == named_weight(rules.subrange(n, rules.len() as int), name),
    decreases n,
{
    if n == 0 {
        assert(rules.subrange(0, rules.len() as int) =~= rules);
    } else {
        let rest = rules.drop_first();
        assert forall|j: int| 0 <= j < n - 1 implies name_of(#[trigger] rest[j]) != Some(name) by {
            assert(rest[j] == rules[j + 1]);
        }
        assert(name_of(rules[0]) != Some(name));
        lemma_named_weight_skip(rest, name, n - 1);
        assert(rest.subrange(n - 1, rest.len() as int) =~= rules.subrange(n, rules.len() as int));
    }
}

/// No name of a list is absent from a list that holds all its names.
proof fn lemma_none_absent(names: Seq<Seq<char>>, all: Seq<Seq<char>>)
    requires
        forall|i: int| 0 <= i < names.len() ==> all.contains(#[trigger] names[i]),
    ensures
        names.filter(absent_from(all)).len() == 0,
    decreases names.len(),
{
    reveal(Seq::filter);
    if names.len() > 0 {
        let rest = names.drop_last();
        assert forall|i: int| 0 <= i < rest.len() implies all.contains(#[trigger] rest[i]) by {
            assert(rest[i] == names[i]);
        }
        lemma_none_absent(rest, all);
        assert(all.contains(names[names.len() - 1]));
    }
}

/// Between a list of rules and itself no weight has changed.
proof fn lemma_no_self_changes(rules: Seq<Doc>, upto: nat)
    requires
        upto <= rule_names(rules).len(),
    ensures
        changes_upto(rules, rules, upto).len() == 0,
    decreases upto,
{
    if upto > 0 {
        lemma_no_self_changes(rules, (upto - 1) as nat);
        let name = rule_names(rules)[upto - 1];
        match named_weight(rules, name) {
            Some(weight) => lemma_same_value_reflexive(weight),
            None => {},
        }
        assert(changes_upto(rules, rules, (upto - 1) as nat) + weight_change(rules, rules, name)
            =~= Seq::<ChangeView>::empty());
    }
}

/// Comparing a document with itself finds nothing: no rule added, none
/// removed, none modified, and the thresholds unchanged.
pub proof fn lemma_self_diff_is_empty(doc: Doc)
    ensures
        diff_of(doc, doc).rules_added == Seq::<Seq<char>>::empty(),
        diff_of(doc, doc).rules_removed == Seq::<Seq<char>>::empty(),
        diff_of(doc, doc).rules_modified == Seq::<ChangeView>::empty(),
        !diff_of(doc, doc).thresholds_changed,
{
    let names = rule_names(rules_of(doc));
    lemma_none_absent(names, names);
    lemma_no_self_changes(rules_of(doc), names.len());
    match thresholds_of(doc) {
        Some(thresholds) => lemma_same_value_reflexive(thresholds),
        None => {},
    }
    assert(diff_of(doc, doc).rules_added =~= Seq::<Seq<char>>::empty());
    assert(diff_of(doc, doc).rules_removed =~= Seq::<Seq<char>>::empty());
    assert(diff_of(doc, doc).rules_modified =~= Seq::<ChangeView>::empty());
}

fn rules_in<'a>(doc: &'a Node, none: &'a Vec<Node>) -> (rules: &'a Vec<Node>)
    requires
        none@.len() == 0,
    ensures
        views(rules@) == rules_of(doc@),
{
    if let Some(section) = doc.get("rules") {
        if let Some(rules) = section.as_array() {
            return rules;
        }
    }
    assert(views(none@) =~= Seq::<Doc>::empty());
    none
}

fn collect_names(rules: &Vec<Node>) -> (names: Vec<String>)
    ensures
        texts(names@) == rule_names(views(rules@)),
{
    let ghost docs = views(rules@);
    let ghost pick = |rule: Doc| name_of(rule);
    let mut names: Vec<String> = Vec::new();
    assert(texts(names@) =~= docs.take(0).filter_map(pick));
    let mut i: usize = 0;
    while i < rules.len()
        invariant
            i <= rules.len(),
            docs == views(rules@),
            pick == |rule: Doc| name_of(rule),
            texts(names@) == docs.take(i as int).filter_map(pick),
        decreases rules.len() - i,
    {
        proof {
            assert(docs.take(i + 1).drop_last() =~= docs.take(i as int));
            assert(docs.take(i + 1).last() == rules[i as int]@);
        }
        if let Some(name) = item_name(&rules[i]) {
            push_text(&mut names, name.to_owned());
        }
        assert(texts(names@) =~= docs.take(i + 1).filter_map(pick));
        i += 1;
    }
    assert(docs.take(rules.len() as int) =~= docs);
    names
}

fn absent_names(names: &Vec<String>, others: &Vec<String>) -> (absent: Vec<String>)
    ensures
        texts(absent@) == texts(names@).filter(absent_from(texts(others@))),
{
    let ghost all = texts(names@);
    let ghost test = absent_from(texts(others@));
    let mut absent: Vec<String> = Vec::new();
    proof {
        reveal(Seq::filter);
        assert(texts(absent@) =~= all.take(0).filter(test));
    }
    let mut i: usize = 0;
    while i < names.len()
        invariant
            i <= names.len(),
            all == texts(names@),
            test == absent_from(texts(others@)),
            texts(absent@) == all.take(i as int).filter(test),
        decreases names.len() - i,
    {
        proof {
            reveal(Seq::filter);
            assert(all.take(i + 1).drop_last() =~= all.take(i as int));
            assert(all.take(i + 1).last() == names[i as int]@);
        }
        if !list_contains(others, names[i].as_str()) {
            push_text(&mut absent, names[i].clone());
        }
        i += 1;
    }
    assert(all.take(names.len() as int) =~= all);
    absent
}

fn find_weight<'a>(rules: &'a Vec<Node>, name: &str) -> (weight: Option<&'a Node>)
    ensures
        option_doc(weight) == named_weight(views(rules@), name@),
{
    let ghost docs = views(rules@);
    let wanted = name.to_owned();
    let mut i: usize = 0;
    while i < rules.len()
        invariant
            i <= rules.len(),
            docs == views(rules@),
            wanted@ == name@,
            forall|j: int| 0 <= j < i ==> name_of(#[trigger] docs[j]) != Some(name@),
        decreases rules.len() - i,
    {
        if let Some(found) = item_name(&rules[i]) {
            if wanted == found.to_owned() {
                proof {
                    lemma_named_weight_skip(docs, name@, i as int);
                    assert(docs.subrange(i as int, docs.len() as int)[0] == docs[i as int]);
                }
                return rules[i].get("weight");
            }
        }
        i += 1;
    }
    proof {
        lemma_named_weight_skip(docs, name@, i as int);
    }
    None
}

fn same_optional(a: Option<&Node>, b: Option<&Node>) -> (equal: bool)
    ensures
        equal == same_option(option_doc(a), option_doc(b)),
{
    match a {
        Some(x) => match b {
            Some(y) => x.same(y),
            None => false,
        },
        None => b.is_none(),
    }
}

fn show(value: Option<&Node>) -> (text: String)
    ensures
        text@ == shown_value(option_doc(value)),
{
    match value {
        Some(node) => to_json(node),
        None => String::new(),
    }
}

fn collect_changes(old_rules: &Vec<Node>, new_rules: &Vec<Node>) -> (changes: Vec<RuleChange>)
    ensures
        change_views(changes@) == changes_upto(
            views(old_rules@),
            views(new_rules@),
            rule_names(views(new_rules@)).len(),
        ),
{
    let ghost old_docs = views(old_rules@);
    let ghost new_docs = views(new_rules@);
    let old_names = collect_names(old_rules);
    let new_names = collect_names(new_rules);
    let mut changes: Vec<RuleChange> = Vec::new();
    assert(change_views(changes@) =~= changes_upto(old_docs, new_docs, 0));
    let mut i: usize = 0;
    while i < new_names.len()
        invariant
            i <= new_names.len(),
            old_docs == views(old_rules@),
            new_docs == views(new_rules@),
            texts(old_names@) == rule_names(old_docs),
            texts(new_names@) == rule_names(new_docs),
            change_views(changes@) == changes_upto(old_docs, new_docs, i as nat),
        decreases new_names.len() - i,
    {
        let name = new_names[i].as_str();
        assert(name@ == rule_names(new_docs)[i as int]) by {
            assert(texts(new_names@)[i as int] == new_names[i as int]@);
        }
        if list_contains(&old_names, name) {
            let before = find_weight(old_rules, name);
            let after = find_weight(new_rules, name);
            if !same_optional(before, after) {
                let change = RuleChange {
                    name: name.to_owned(),
                    field: String::from_str("weight"),
                    old_value: show(before),
                    new_value: show(after),
                };
                let ghost earlier = change_views(changes@);
                changes.push(change);
                assert(change_views(changes@) =~= earlier + weight_change(
                    old_docs,
                    new_docs,
                    name@,
                ));
            } else {
                assert(change_views(changes@) + weight_change(old_docs, new_docs, name@)
                    =~= change_views(changes@));
            }
        }
        i += 1;
    }
    changes
}

fn thresholds_in(doc: &Node) -> (thresholds: Option<&Node>)
    ensures
        option_doc(thresholds) == thresholds_of(doc@),
{
    match doc.get("decision") {
        Some(decision) => decision.get("thresholds"),
        None => None,
    }
}

fn version_in(doc: &Node) -> (version: &str)
    ensures
        version@ == version_of(doc@),
{
    if let Some(value) = doc.get("identity_version") {
        if let Some(version) = value.as_str() {
            return version;
        }
    }
    "unknown"
}

fn summarize(added: usize, removed: usize, modified: usize, changed: bool, from: &str, to: &str) -> (summary: String)
    ensures
        summary@ == summary_text(added as nat, removed as nat, modified as nat, changed, from@, to@),
{
    let mut summary = String::from_str("Diff: ");
    summary.append(to_decimal(added as u64).as_str());
    summary.append(" added, ");
    summary.append(to_decimal(removed as u64).as_str());
    summary.append(" removed, ");
    summary.append(to_decimal(modified as u64).as_str());
    summary.append(" modified. Thresholds changed: ");
    summary.append(if changed { "true" } else { "false" });
    summary.append(". Version: ");
    summary.append(from);
    summary.append(" -> ");
    summary.append(to);
    assert(summary@ =~= summary_text(
        added as nat,
        removed as nat,
        modified as nat,
        changed,
        from@,
        to@,
    ));
    summary
}

/// Compares two documents: which rules came and went, by name; for the rules
/// that stayed, whether the weight changed; and whether the decision
/// thresholds changed. A section that is absent or of the wrong kind counts
/// as empty. Of a rule only the weight is compared: a change to its type,
/// threshold or field is not reported.
pub fn compute_diff(old: &Node, new: &Node) -> (diff: DiffResult)
    ensures
        diff@ == diff_of(old@, new@),
{
    let none: Vec<Node> = Vec::new();
    let old_rules = rules_in(old, &none);
    let new_rules = rules_in(new, &none);
    let old_names = collect_names(old_rules);
    let new_names = collect_names(new_rules);
    let rules_added = absent_names(&new_names, &old_names);
    let rules_removed = absent_names(&old_names, &new_names);
    let rules_modified = collect_changes(old_rules, new_rules);
    let thresholds_changed = !same_optional(thresholds_in(old), thresholds_in(new));
    let summary = summarize(
        rules_added.len(),
        rules_removed.len(),
        rules_modified.len(),
        thresholds_changed,
        version_in(old),
        version_in(new),
    );
    DiffResult { rules_added, rules_removed, rules_modified, thresholds_changed, summary }
}

/// Reads two YAML texts and compares the documents they hold. A text that
/// is not well-formed is refused, the old one first.
pub fn diff_yaml(old: &str, new: &str) -> (outcome: Result<DiffResult, ParseError>)
    ensures
        match outcome {
            Ok(diff) => parsed(old@) is Some && parsed(new@) is Some && diff@ == diff_of(
                parsed(old@)->0,
                parsed(new@)->0,
            ),
            Err(_) => parsed(old@) is None || parsed(new@) is None,
        },
{
    let before = match parse_yaml(old) {
        Ok(doc) => doc,
        Err(error) => {
            return Err(error);
        },
    };
    let after = match parse_yaml(new) {
        Ok(doc) => doc,
        Err(error) => {
            return Err(error);
        },
    };
    Ok(compute_diff(&before, &after))
}

} // verus!
