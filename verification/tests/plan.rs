use kanoniv::commands::compile::compile_to_ir;
use kanoniv::codec::to_json;
use kanoniv::{parse_yaml, plan_hash, Node, Num, NumberKind};
use sha2::{Digest, Sha256};

fn plan_text(text: &str) -> Node {
    Node::String(text.to_string())
}

fn plan_float(value: f64) -> Node {
    Node::Number(Num {
        kind: NumberKind::Float,
        bits: value.to_bits(),
        shown: format!("{}", value),
        json: serde_json::Number::from_f64(value).unwrap().to_string(),
    })
}

fn plan_map(entries: Vec<(&str, Node)>) -> Node {
    Node::Mapping(entries.into_iter().map(|(k, v)| (k.to_string(), v)).collect())
}

fn plan_member<'a>(node: &'a Node, key: &str) -> &'a Node {
    node.get(key).unwrap()
}

fn plan_sha(text: &str) -> String {
    format!("sha256:{:x}", Sha256::digest(text.as_bytes()))
}

const SPEC: &str = "\
api_version: kanoniv/v1
identity_version: v3
entity:
  name: customer
  key: id
sources:
  - name: crm
    system: salesforce
    table: contacts
    id: contact_id
    attributes: {email: string}
  - name: erp
    table: clients
rules:
  - {name: r1, type: exact}
  - {name: r2, type: fuzzy}
  - {name: r3, type: fuzzy}
blocking:
  strategy: sorted_neighbourhood
  keys: [zip]
decision:
  thresholds:
    match: 0.9
    review: 0.5
";

const SPEC_BODY: &str = "{\"api_version\":\"kanoniv/v1\",\"blocking_strategy\":\"sorted_neighbourhood\",\"entity\":\"customer\",\"identity_version\":\"v3\",\"rule_count\":3,\"sources\":[{\"name\":\"crm\",\"system\":\"salesforce\",\"table\":\"contacts\"},{\"name\":\"erp\",\"system\":null,\"table\":\"clients\"}],\"thresholds\":{\"match\":0.9,\"review\":0.5}}";

#[test]
fn the_plan_hash_of_a_text_is_its_digest() {
    assert_eq!(
        plan_hash(&plan_text("abc")),
        plan_sha("\"abc\"")
    );
    assert_eq!(
        plan_sha("abc"),
        "sha256:ba7816bf8f01cfea414140de5dae2223b00361a396177a9cb410ff61f20015ad"
    );
}

#[test]
fn the_plan_hash_of_a_known_text() {
    assert_eq!(
        plan_hash(&Node::Null),
        "sha256:74234e98afe7498fb5daf1f36ac2d78acc339464f950703b8c019892f982b90b"
    );
}

#[test]
fn the_plan_hash_does_not_depend_on_the_order_of_keys() {
    let a = plan_map(vec![("b", plan_float(1.5)), ("a", Node::Bool(false))]);
    let b = plan_map(vec![("a", Node::Bool(false)), ("b", plan_float(1.5))]);
    assert_eq!(plan_hash(&a), plan_hash(&b));
    assert_eq!(plan_hash(&a), plan_sha("{\"a\":false,\"b\":1.5}"));
}

#[test]
fn a_document_is_written_as_compact_json() {
    let spec = parse_yaml(SPEC).unwrap();
    assert_eq!(
        to_json(&spec),
        "{\"api_version\":\"kanoniv/v1\",\"blocking\":{\"keys\":[\"zip\"],\"strategy\":\"sorted_neighbourhood\"},\"decision\":{\"thresholds\":{\"match\":0.9,\"review\":0.5}},\"entity\":{\"key\":\"id\",\"name\":\"customer\"},\"identity_version\":\"v3\",\"rules\":[{\"name\":\"r1\",\"type\":\"exact\"},{\"name\":\"r2\",\"type\":\"fuzzy\"},{\"name\":\"r3\",\"type\":\"fuzzy\"}],\"sources\":[{\"attributes\":{\"email\":\"string\"},\"id\":\"contact_id\",\"name\":\"crm\",\"system\":\"salesforce\",\"table\":\"contacts\"},{\"name\":\"erp\",\"table\":\"clients\"}]}"
    );
}

#[test]
fn scalars_are_written_as_json() {
    assert_eq!(to_json(&Node::Null), "null");
    assert_eq!(to_json(&Node::Bool(true)), "true");
    assert_eq!(to_json(&plan_float(0.5)), "0.5");
    assert_eq!(to_json(&plan_text("a\nb")), "\"a\\nb\"");
    assert_eq!(to_json(&Node::Sequence(vec![])), "[]");
    assert_eq!(to_json(&plan_map(vec![])), "{}");
}

#[test]
fn numbers_inside_a_value_keep_their_notation() {
    let text = "[1, -1, 1.0, 0.1, -0.0, 1.5e-7, 18446744073709551615, 0.30000000000000004, 5e-324]";
    let parsed = parse_yaml(text).unwrap();
    assert_eq!(
        to_json(&parsed),
        "[1,-1,1.0,0.1,-0.0,1.5e-7,18446744073709551615,0.30000000000000004,5e-324]"
    );
}

#[test]
fn a_value_is_written_as_the_tree_it_was_read_from() {
    let text = "\
a: [1e300, 123456789.12345679, -1.1193133179981887e-17, 1.7976931348623157e308]
b: {c: [2.2250738585072014e-308, 4.9e-324, 0.1, 1e21, 1e-7]}
";
    let tree: serde_json::Value = serde_yaml::from_str(text).unwrap();
    assert_eq!(to_json(&parse_yaml(text).unwrap()), serde_json::to_string(&tree).unwrap());
}

#[test]
fn written_numbers_are_the_numbers_that_were_read() {
    let mut state: u64 = 0x9E37_79B9_7F4A_7C15;
    let mut checked = 0;
    while checked < 20000 {
        state = state.wrapping_mul(6364136223846793005).wrapping_add(1442695040888963407);
        let value = f64::from_bits(state);
        if !value.is_finite() {
            continue;
        }
        let expected = serde_json::to_string(&serde_json::Value::from(value)).unwrap();
        let node = Node::Sequence(vec![plan_float(value)]);
        assert_eq!(to_json(&node), format!("[{}]", expected));
        checked += 1;
    }
}

#[test]
fn a_number_whose_text_is_no_number_is_written_as_null() {
    let broken = Node::Number(Num {
        kind: NumberKind::Float,
        bits: 0,
        shown: "0".to_string(),
        json: "zero".to_string(),
    });
    assert_eq!(to_json(&Node::Sequence(vec![broken])), "[null]");
}

#[test]
fn the_plan_keeps_what_downstream_needs() {
    let spec = parse_yaml(SPEC).unwrap();
    let plan = compile_to_ir(&spec);
    let keys: Vec<&str> = plan.as_object().unwrap().iter().map(|(k, _)| k.as_str()).collect();
    assert_eq!(
        keys,
        vec![
            "api_version",
            "blocking_strategy",
            "entity",
            "identity_version",
            "plan_hash",
            "rule_count",
            "sources",
            "thresholds",
        ]
    );
    assert_eq!(plan_member(&plan, "api_version").as_str(), Some("kanoniv/v1"));
    assert_eq!(plan_member(&plan, "blocking_strategy").as_str(), Some("sorted_neighbourhood"));
    assert_eq!(plan_member(&plan, "entity").as_str(), Some("customer"));
    assert_eq!(plan_member(&plan, "identity_version").as_str(), Some("v3"));
    let count = plan_member(&plan, "rule_count").as_number().unwrap();
    assert_eq!(count.kind, NumberKind::PosInt);
    assert_eq!(count.json, "3");
    assert_eq!(count.shown, "3");
    assert_eq!(count.bits, 3.0f64.to_bits());
    assert_eq!(plan_member(&plan, "sources").as_array().unwrap().len(), 2);
    assert_eq!(plan_member(&plan, "plan_hash").as_str(), Some(plan_sha(SPEC_BODY).as_str()));
}

#[test]
fn the_plan_is_written_with_its_hash_among_its_keys() {
    let spec = parse_yaml(SPEC).unwrap();
    let plan = compile_to_ir(&spec);
    let expected = SPEC_BODY.replace(
        ",\"rule_count\"",
        &format!(",\"plan_hash\":\"{}\",\"rule_count\"", plan_sha(SPEC_BODY)),
    );
    assert_eq!(to_json(&plan), expected);
}

#[test]
fn the_plan_of_an_empty_document_is_all_null() {
    let plan = compile_to_ir(&plan_map(vec![]));
    let body = "{\"api_version\":null,\"blocking_strategy\":null,\"entity\":null,\"identity_version\":null,\"rule_count\":null,\"sources\":null,\"thresholds\":null}";
    assert_eq!(plan_member(&plan, "plan_hash").as_str(), Some(plan_sha(body).as_str()));
    for key in ["api_version", "blocking_strategy", "entity", "identity_version", "rule_count", "sources", "thresholds"] {
        assert!(matches!(plan_member(&plan, key), Node::Null));
    }
}

#[test]
fn the_plan_takes_sections_of_the_wrong_kind_as_absent() {
    let spec = plan_map(vec![
        ("rules", plan_text("none")),
        ("sources", plan_map(vec![])),
        ("entity", plan_text("customer")),
        ("blocking", Node::Sequence(vec![])),
    ]);
    let plan = compile_to_ir(&spec);
    for key in ["rule_count", "sources", "entity", "blocking_strategy"] {
        assert!(matches!(plan_member(&plan, key), Node::Null));
    }
}

#[test]
fn compiling_twice_gives_the_same_plan() {
    let spec = parse_yaml(SPEC).unwrap();
    assert!(compile_to_ir(&spec).same(&compile_to_ir(&spec)));
}

#[test]
fn the_written_plan_carries_the_hash_of_the_hashed_plan() {
    let spec = parse_yaml(SPEC).unwrap();
    let hashed = compile_to_ir(&spec);
    let written = kanoniv::compile_plan(&spec);
    assert_eq!(
        plan_member(&written, "plan_hash").as_str(),
        Some(plan_sha(&to_json(&hashed)).as_str())
    );
    let keys = |plan: &Node| -> Vec<String> {
        plan.as_object().unwrap().iter().map(|(k, _)| k.clone()).collect()
    };
    assert_eq!(keys(&written), keys(&hashed));
    for key in ["api_version", "blocking_strategy", "entity", "identity_version", "rule_count", "sources", "thresholds"] {
        assert!(plan_member(&written, key).same(plan_member(&hashed, key)));
    }
}
