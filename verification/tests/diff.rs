use kanoniv::{compute_diff, diff_yaml, parse_yaml, DiffResult, Node, Num, NumberKind, RuleChange};

fn diff_text(text: &str) -> Node {
    Node::String(text.to_string())
}

fn diff_float(value: f64) -> Node {
    Node::Number(Num {
        kind: NumberKind::Float,
        bits: value.to_bits(),
        shown: format!("{}", value),
        json: serde_json::Number::from_f64(value).unwrap().to_string(),
    })
}

fn diff_map(entries: Vec<(&str, Node)>) -> Node {
    Node::Mapping(entries.into_iter().map(|(k, v)| (k.to_string(), v)).collect())
}

fn diff_rules(rules: Vec<Node>) -> Node {
    diff_map(vec![("rules", Node::Sequence(rules))])
}

fn diff_weighted(name: &str, weight: f64) -> Node {
    diff_map(vec![("name", diff_text(name)), ("weight", diff_float(weight))])
}

fn diff_changes(diff: &DiffResult) -> Vec<(String, String, String, String)> {
    diff.rules_modified
        .iter()
        .map(|c: &RuleChange| {
            (c.name.clone(), c.field.clone(), c.old_value.clone(), c.new_value.clone())
        })
        .collect()
}

const FULL: &str = "\
api_version: kanoniv/v1
identity_version: v7
entity:
  name: customer
rules:
  - name: r1
    type: exact
    weight: 0.5
  - name: r2
    type: fuzzy
    threshold: 0.8
decision:
  thresholds:
    match: 0.9
    review: 0.5
";

#[test]
fn a_changed_weight_is_one_modification() {
    let old = diff_rules(vec![diff_weighted("r1", 0.5)]);
    let new = diff_rules(vec![diff_weighted("r1", 0.9)]);
    let diff = compute_diff(&old, &new);
    assert_eq!(
        diff_changes(&diff),
        vec![("r1".to_string(), "weight".to_string(), "0.5".to_string(), "0.9".to_string())]
    );
    assert!(diff.rules_added.is_empty());
    assert!(diff.rules_removed.is_empty());
    assert!(!diff.thresholds_changed);
}

#[test]
fn a_changed_type_alone_is_no_modification() {
    let old = diff_rules(vec![diff_map(vec![
        ("name", diff_text("r1")),
        ("type", diff_text("exact")),
        ("weight", diff_float(0.5)),
    ])]);
    let new = diff_rules(vec![diff_map(vec![
        ("name", diff_text("r1")),
        ("type", diff_text("fuzzy")),
        ("weight", diff_float(0.5)),
    ])]);
    let diff = compute_diff(&old, &new);
    assert!(diff.rules_modified.is_empty());
    assert_eq!(
        diff.summary,
        "Diff: 0 added, 0 removed, 0 modified. Thresholds changed: false. Version: unknown -> unknown"
    );
}

#[test]
fn a_document_does_not_differ_from_itself() {
    let doc = parse_yaml(FULL).unwrap();
    let diff = compute_diff(&doc, &doc);
    assert!(diff.rules_added.is_empty());
    assert!(diff.rules_removed.is_empty());
    assert!(diff.rules_modified.is_empty());
    assert!(!diff.thresholds_changed);
    assert_eq!(
        diff.summary,
        "Diff: 0 added, 0 removed, 0 modified. Thresholds changed: false. Version: v7 -> v7"
    );
}

#[test]
fn a_document_without_thresholds_does_not_differ_from_itself() {
    for doc in [Node::Null, diff_map(vec![]), diff_rules(vec![diff_weighted("r1", 0.5)])] {
        let diff = compute_diff(&doc, &doc);
        assert!(!diff.thresholds_changed);
        assert!(diff.rules_added.is_empty() && diff.rules_removed.is_empty());
        assert!(diff.rules_modified.is_empty());
    }
}

#[test]
fn rules_come_and_go_by_name_in_the_order_of_their_document() {
    let old = diff_rules(vec![
        diff_weighted("gone_b", 0.1),
        diff_weighted("kept", 0.2),
        diff_weighted("gone_a", 0.3),
    ]);
    let new = diff_rules(vec![
        diff_weighted("new_z", 0.1),
        diff_weighted("kept", 0.2),
        diff_weighted("new_a", 0.3),
    ]);
    let diff = compute_diff(&old, &new);
    assert_eq!(diff.rules_added, vec!["new_z".to_string(), "new_a".to_string()]);
    assert_eq!(diff.rules_removed, vec!["gone_b".to_string(), "gone_a".to_string()]);
    assert!(diff.rules_modified.is_empty());
}

#[test]
fn the_summary_counts_every_kind_of_change() {
    let old = diff_map(vec![
        ("identity_version", diff_text("v1")),
        ("rules", Node::Sequence(vec![diff_weighted("a", 0.5), diff_weighted("b", 0.5)])),
        ("decision", diff_map(vec![("thresholds", diff_map(vec![("match", diff_float(0.9))]))])),
    ]);
    let new = diff_map(vec![
        ("identity_version", diff_text("v2")),
        (
            "rules",
            Node::Sequence(vec![
                diff_weighted("a", 0.75),
                diff_weighted("c", 0.5),
                diff_weighted("d", 0.5),
            ]),
        ),
        ("decision", diff_map(vec![("thresholds", diff_map(vec![("match", diff_float(0.8))]))])),
    ]);
    let diff = compute_diff(&old, &new);
    assert_eq!(
        diff.summary,
        "Diff: 2 added, 1 removed, 1 modified. Thresholds changed: true. Version: v1 -> v2"
    );
    assert!(diff.thresholds_changed);
}

#[test]
fn a_weight_that_comes_or_goes_is_shown_as_empty() {
    let old = diff_rules(vec![diff_map(vec![("name", diff_text("r1"))])]);
    let new = diff_rules(vec![diff_weighted("r1", 0.25)]);
    assert_eq!(
        diff_changes(&compute_diff(&old, &new)),
        vec![("r1".to_string(), "weight".to_string(), "".to_string(), "0.25".to_string())]
    );
    assert_eq!(
        diff_changes(&compute_diff(&new, &old)),
        vec![("r1".to_string(), "weight".to_string(), "0.25".to_string(), "".to_string())]
    );
}

#[test]
fn weights_of_any_kind_are_shown_as_json() {
    let old = diff_rules(vec![diff_map(vec![
        ("name", diff_text("r1")),
        ("weight", diff_text("hi \"there\"")),
    ])]);
    let new = diff_rules(vec![diff_map(vec![
        ("name", diff_text("r1")),
        (
            "weight",
            diff_map(vec![
                ("z", Node::Sequence(vec![Node::Null, Node::Bool(true), diff_float(1.5)])),
                ("a", diff_text("x")),
            ]),
        ),
    ])]);
    assert_eq!(
        diff_changes(&compute_diff(&old, &new)),
        vec![(
            "r1".to_string(),
            "weight".to_string(),
            "\"hi \\\"there\\\"\"".to_string(),
            "{\"a\":\"x\",\"z\":[null,true,1.5]}".to_string()
        )]
    );
}

#[test]
fn weights_are_compared_as_written() {
    let old = parse_yaml("rules:\n  - {name: r1, weight: 1}\n  - {name: r2, weight: 0.0}\n").unwrap();
    let new = parse_yaml("rules:\n  - {name: r1, weight: 1.0}\n  - {name: r2, weight: -0.0}\n").unwrap();
    assert_eq!(
        diff_changes(&compute_diff(&old, &new)),
        vec![("r1".to_string(), "weight".to_string(), "1".to_string(), "1.0".to_string())]
    );
}

#[test]
fn the_first_rule_of_a_name_stands_for_the_name() {
    let old = diff_rules(vec![diff_weighted("r1", 0.5), diff_weighted("r1", 0.7)]);
    let new = diff_rules(vec![diff_weighted("r1", 0.7), diff_weighted("r1", 0.5)]);
    assert_eq!(
        diff_changes(&compute_diff(&old, &new)),
        vec![
            ("r1".to_string(), "weight".to_string(), "0.5".to_string(), "0.7".to_string()),
            ("r1".to_string(), "weight".to_string(), "0.5".to_string(), "0.7".to_string()),
        ]
    );
}

#[test]
fn rules_without_a_name_are_passed_over() {
    let old = diff_rules(vec![diff_map(vec![("weight", diff_float(0.5))])]);
    let new = diff_rules(vec![
        diff_map(vec![("weight", diff_float(0.9))]),
        diff_map(vec![("name", diff_float(1.0))]),
    ]);
    let diff = compute_diff(&old, &new);
    assert!(diff.rules_added.is_empty());
    assert!(diff.rules_removed.is_empty());
    assert!(diff.rules_modified.is_empty());
}

#[test]
fn an_absent_rules_section_counts_as_empty() {
    let none = diff_map(vec![]);
    let wrong = diff_map(vec![("rules", diff_text("none"))]);
    let some = diff_rules(vec![diff_weighted("r1", 0.5)]);
    assert_eq!(compute_diff(&none, &some).rules_added, vec!["r1".to_string()]);
    assert_eq!(compute_diff(&wrong, &some).rules_added, vec!["r1".to_string()]);
    assert_eq!(compute_diff(&some, &none).rules_removed, vec!["r1".to_string()]);
    assert_eq!(compute_diff(&some, &wrong).rules_removed, vec!["r1".to_string()]);
}

#[test]
fn thresholds_change_when_they_come_go_or_differ() {
    let with = |value: f64| {
        diff_map(vec![(
            "decision",
            diff_map(vec![("thresholds", diff_map(vec![("match", diff_float(value))]))]),
        )])
    };
    assert!(!compute_diff(&with(0.5), &with(0.5)).thresholds_changed);
    assert!(compute_diff(&with(0.5), &with(0.6)).thresholds_changed);
    assert!(compute_diff(&with(0.5), &diff_map(vec![])).thresholds_changed);
    assert!(compute_diff(&diff_map(vec![]), &with(0.5)).thresholds_changed);
    assert!(!compute_diff(&diff_map(vec![]), &Node::Null).thresholds_changed);
    let empty_decision = diff_map(vec![("decision", diff_map(vec![]))]);
    assert!(!compute_diff(&empty_decision, &diff_map(vec![])).thresholds_changed);
}

#[test]
fn a_version_that_is_no_string_is_unknown() {
    let old = diff_map(vec![("identity_version", diff_float(1.0))]);
    let new = diff_map(vec![("identity_version", diff_text("2.0"))]);
    assert_eq!(
        compute_diff(&old, &new).summary,
        "Diff: 0 added, 0 removed, 0 modified. Thresholds changed: false. Version: unknown -> 2.0"
    );
}

#[test]
fn the_summary_writes_counts_in_decimal() {
    let names: Vec<Node> = (0..123).map(|i| diff_weighted(&format!("r{}", i), 0.5)).collect();
    let diff = compute_diff(&diff_map(vec![]), &diff_rules(names));
    assert_eq!(diff.rules_added.len(), 123);
    assert_eq!(
        diff.summary,
        "Diff: 123 added, 0 removed, 0 modified. Thresholds changed: false. Version: unknown -> unknown"
    );
}

#[test]
fn two_texts_are_read_and_compared() {
    let new = FULL.replace("weight: 0.5", "weight: 0.75").replace("v7", "v8");
    let diff = diff_yaml(FULL, &new).unwrap();
    assert_eq!(
        diff_changes(&diff),
        vec![("r1".to_string(), "weight".to_string(), "0.5".to_string(), "0.75".to_string())]
    );
    assert_eq!(
        diff.summary,
        "Diff: 0 added, 0 removed, 1 modified. Thresholds changed: false. Version: v7 -> v8"
    );
}

#[test]
fn a_malformed_text_is_not_compared() {
    assert!(diff_yaml("a: [", FULL).is_err());
    assert!(diff_yaml(FULL, "a: [").is_err());
}

#[test]
fn the_default_result_is_empty() {
    let diff = DiffResult::default();
    assert!(diff.rules_added.is_empty());
    assert!(diff.rules_removed.is_empty());
    assert!(diff.rules_modified.is_empty());
    assert!(!diff.thresholds_changed);
    assert_eq!(diff.summary, "");
}
