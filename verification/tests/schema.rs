use kanoniv::{parse_yaml, validate_schema, Node, Num, NumberKind};

fn schema_text(text: &str) -> Node {
    Node::String(text.to_string())
}

fn schema_float(value: f64) -> Node {
    Node::Number(Num {
        kind: NumberKind::Float,
        bits: value.to_bits(),
        shown: format!("{}", value),
        json: serde_json::Number::from_f64(value).unwrap().to_string(),
    })
}

fn schema_map(entries: Vec<(&str, Node)>) -> Node {
    Node::Mapping(entries.into_iter().map(|(k, v)| (k.to_string(), v)).collect())
}

fn schema_head() -> Vec<(&'static str, Node)> {
    vec![
        ("api_version", schema_text("kanoniv/v1")),
        ("identity_version", schema_text("1.0")),
        ("entity", schema_map(vec![("name", schema_text("customer"))])),
    ]
}

fn schema_rule(index: usize) -> Node {
    schema_map(vec![
        ("name", schema_text(&format!("rule_{}", index))),
        ("type", schema_text("exact")),
    ])
}

fn schema_with_rules(count: usize) -> Node {
    let mut entries = schema_head();
    entries.push(("rules", Node::Sequence((0..count).map(schema_rule).collect())));
    schema_map(entries)
}

#[test]
fn empty_mapping_lacks_the_three_required_fields() {
    let errors = validate_schema(&schema_map(vec![]));
    assert_eq!(
        errors,
        vec![
            "Missing required field: api_version".to_string(),
            "Missing required field: identity_version".to_string(),
            "Missing required field: entity".to_string(),
        ]
    );
}

#[test]
fn each_missing_required_field_is_reported_alone() {
    for missing in ["api_version", "identity_version", "entity"] {
        let entries: Vec<(&str, Node)> =
            schema_head().into_iter().filter(|(k, _)| *k != missing).collect();
        let errors = validate_schema(&schema_map(entries));
        assert_eq!(errors, vec![format!("Missing required field: {}", missing)]);
    }
}

#[test]
fn a_scalar_document_lacks_everything() {
    let errors = validate_schema(&Node::Null);
    assert_eq!(errors.len(), 3);
    let errors = validate_schema(&schema_text("just text"));
    assert_eq!(errors.len(), 3);
}

#[test]
fn a_null_member_counts_as_present() {
    let doc = schema_map(vec![
        ("api_version", Node::Null),
        ("identity_version", Node::Null),
        ("entity", schema_map(vec![("name", Node::Null)])),
    ]);
    assert!(validate_schema(&doc).is_empty());
}

#[test]
fn api_version_must_begin_with_the_prefix() {
    let mut entries = schema_head();
    entries[0] = ("api_version", schema_text("v1"));
    let errors = validate_schema(&schema_map(entries));
    assert_eq!(
        errors,
        vec!["Invalid api_version format: 'v1'. Expected 'kanoniv/v<N>'".to_string()]
    );
}

#[test]
fn api_version_prefix_alone_is_accepted() {
    let mut entries = schema_head();
    entries[0] = ("api_version", schema_text("kanoniv/v"));
    assert!(validate_schema(&schema_map(entries)).is_empty());
    let mut entries = schema_head();
    entries[0] = ("api_version", schema_text("kanoniv/"));
    assert_eq!(validate_schema(&schema_map(entries)).len(), 1);
}

#[test]
fn api_version_that_is_no_string_is_not_checked() {
    let mut entries = schema_head();
    entries[0] = ("api_version", schema_float(2.0));
    assert!(validate_schema(&schema_map(entries)).is_empty());
}

#[test]
fn entity_needs_a_name() {
    let mut entries = schema_head();
    entries[2] = ("entity", schema_map(vec![]));
    assert_eq!(validate_schema(&schema_map(entries)), vec!["entity.name is required".to_string()]);
    let mut entries = schema_head();
    entries[2] = ("entity", schema_text("customer"));
    assert_eq!(validate_schema(&schema_map(entries)), vec!["entity.name is required".to_string()]);
}

#[test]
fn fifty_rules_are_allowed_and_fifty_one_are_not() {
    assert!(validate_schema(&schema_with_rules(50)).is_empty());
    assert_eq!(
        validate_schema(&schema_with_rules(51)),
        vec!["Too many rules: 51. Maximum is 50.".to_string()]
    );
}

#[test]
fn rules_lack_name_and_type_by_index() {
    let mut entries = schema_head();
    entries.push((
        "rules",
        Node::Sequence(vec![
            schema_rule(0),
            schema_map(vec![("type", schema_text("exact"))]),
            schema_map(vec![]),
        ]),
    ));
    assert_eq!(
        validate_schema(&schema_map(entries)),
        vec![
            "rules[1]: missing required field 'name'".to_string(),
            "rules[2]: missing required field 'name'".to_string(),
            "rules[2]: missing required field 'type'".to_string(),
        ]
    );
}

#[test]
fn weight_and_threshold_out_of_range_are_each_reported_once() {
    let mut entries = schema_head();
    entries.push((
        "rules",
        Node::Sequence(vec![
            schema_map(vec![
                ("name", schema_text("a")),
                ("type", schema_text("exact")),
                ("weight", schema_float(1.5)),
                ("threshold", schema_float(-0.25)),
            ]),
            schema_map(vec![
                ("name", schema_text("b")),
                ("type", schema_text("exact")),
                ("weight", schema_float(0.0)),
                ("threshold", schema_float(1.0)),
            ]),
        ]),
    ));
    let errors = validate_schema(&schema_map(entries));
    assert_eq!(
        errors,
        vec![
            "rules[0]: weight 1.5 must be between 0 and 1".to_string(),
            "rules[0]: threshold -0.25 must be between 0 and 1".to_string(),
        ]
    );
}

#[test]
fn range_check_reads_numbers_as_the_parser_gives_them() {
    let text = "\
api_version: kanoniv/v1
identity_version: v1
entity: {name: customer}
rules:
  - {name: a, type: exact, weight: 2}
  - {name: b, type: exact, weight: -1}
  - {name: c, type: exact, weight: 1}
  - {name: d, type: exact, weight: 0}
  - {name: e, type: exact, weight: -0.0}
  - {name: f, type: exact, weight: 1.0000000000000002}
  - {name: g, type: exact, weight: \"3\"}
  - {name: h, type: exact, threshold: 1e-320}
  - {name: i, type: exact, threshold: 2.0}
  - {name: j, type: exact, threshold: 1e21}
";
    let spec = parse_yaml(text).unwrap();
    assert_eq!(
        validate_schema(&spec),
        vec![
            "rules[0]: weight 2 must be between 0 and 1".to_string(),
            "rules[1]: weight -1 must be between 0 and 1".to_string(),
            "rules[5]: weight 1.0000000000000002 must be between 0 and 1".to_string(),
            "rules[8]: threshold 2 must be between 0 and 1".to_string(),
            "rules[9]: threshold 1000000000000000000000 must be between 0 and 1".to_string(),
        ]
    );
}

#[test]
fn rule_index_is_written_in_decimal() {
    let mut rules: Vec<Node> = (0..12).map(schema_rule).collect();
    rules[10] = schema_map(vec![("name", schema_text("x"))]);
    let mut entries = schema_head();
    entries.push(("rules", Node::Sequence(rules)));
    assert_eq!(
        validate_schema(&schema_map(entries)),
        vec!["rules[10]: missing required field 'type'".to_string()]
    );
}

#[test]
fn sources_lack_each_field_by_index() {
    let mut entries = schema_head();
    entries.push((
        "sources",
        Node::Sequence(vec![schema_map(vec![("name", schema_text("crm"))]), Node::Null]),
    ));
    assert_eq!(
        validate_schema(&schema_map(entries)),
        vec![
            "sources[0]: missing required field 'system'".to_string(),
            "sources[0]: missing required field 'table'".to_string(),
            "sources[0]: missing required field 'id'".to_string(),
            "sources[0]: missing required field 'attributes'".to_string(),
            "sources[1]: missing required field 'name'".to_string(),
            "sources[1]: missing required field 'system'".to_string(),
            "sources[1]: missing required field 'table'".to_string(),
            "sources[1]: missing required field 'id'".to_string(),
            "sources[1]: missing required field 'attributes'".to_string(),
        ]
    );
}

#[test]
fn ten_sources_are_allowed_and_eleven_are_not() {
    let source = || {
        schema_map(vec![
            ("name", schema_text("s")),
            ("system", schema_text("s")),
            ("table", schema_text("t")),
            ("id", schema_text("id")),
            ("attributes", schema_map(vec![])),
        ])
    };
    let mut entries = schema_head();
    entries.push(("sources", Node::Sequence((0..10).map(|_| source()).collect())));
    assert!(validate_schema(&schema_map(entries)).is_empty());
    let mut entries = schema_head();
    entries.push(("sources", Node::Sequence((0..11).map(|_| source()).collect())));
    assert_eq!(
        validate_schema(&schema_map(entries)),
        vec!["Too many sources: 11. Maximum is 10.".to_string()]
    );
}

#[test]
fn five_blocking_keys_are_allowed_and_six_are_not() {
    let keys = |n: usize| Node::Sequence((0..n).map(|_| schema_text("k")).collect());
    let mut entries = schema_head();
    entries.push(("blocking", schema_map(vec![("keys", keys(5))])));
    assert!(validate_schema(&schema_map(entries)).is_empty());
    let mut entries = schema_head();
    entries.push(("blocking", schema_map(vec![("keys", keys(6))])));
    assert_eq!(
        validate_schema(&schema_map(entries)),
        vec!["Too many blocking keys: 6. Maximum is 5.".to_string()]
    );
}

#[test]
fn sections_of_the_wrong_kind_and_unknown_fields_are_ignored() {
    let mut entries = schema_head();
    entries.push(("rules", schema_text("none")));
    entries.push(("sources", schema_map(vec![])));
    entries.push(("blocking", schema_map(vec![("keys", schema_text("k"))])));
    entries.push(("extra", Node::Bool(true)));
    assert!(validate_schema(&schema_map(entries)).is_empty());
}

#[test]
fn findings_come_in_the_order_of_the_checks() {
    let doc = schema_map(vec![
        ("api_version", schema_text("wrong")),
        ("entity", schema_map(vec![])),
        ("blocking", schema_map(vec![("keys", Node::Sequence((0..6).map(|_| Node::Null).collect()))])),
        ("sources", Node::Sequence(vec![schema_map(vec![
            ("name", Node::Null), ("system", Node::Null), ("table", Node::Null), ("id", Node::Null),
        ])])),
        ("rules", Node::Sequence(vec![schema_map(vec![("name", Node::Null)])])),
    ]);
    assert_eq!(
        validate_schema(&doc),
        vec![
            "Missing required field: identity_version".to_string(),
            "Invalid api_version format: 'wrong'. Expected 'kanoniv/v<N>'".to_string(),
            "entity.name is required".to_string(),
            "rules[0]: missing required field 'type'".to_string(),
            "sources[0]: missing required field 'attributes'".to_string(),
            "Too many blocking keys: 6. Maximum is 5.".to_string(),
        ]
    );
}

#[test]
fn validating_twice_gives_the_same_findings() {
    let doc = schema_with_rules(51);
    assert_eq!(validate_schema(&doc), validate_schema(&doc));
    let doc = schema_map(vec![("rules", Node::Sequence(vec![Node::Null, Node::Null]))]);
    assert_eq!(validate_schema(&doc), validate_schema(&doc));
}
