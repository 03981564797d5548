use matchplan::interpreter::ExecutionPlanInterpreter;
use matchplan::json::JsonValue;
use matchplan::path::DocPath;
use matchplan::plan::ExecutionPlanNode;
use matchplan::resolver::{BytesResolver, HttpRequest, HttpRequestValueResolver, ValueResolver};
use matchplan::context::PlanMatchingContext;
use matchplan::value::{NodeResult, NodeValue};

fn str_value(s: &str) -> ExecutionPlanNode {
    ExecutionPlanNode::value_node(NodeValue::STRING(s.to_string()))
}

#[test]
fn http_request_resolve_failures() {
    let resolver = HttpRequestValueResolver { request: HttpRequest::default() };
    let context = PlanMatchingContext::default();

    let path = DocPath::root();
    let err = resolver.resolve(&path, &context).unwrap_err();
    assert_eq!(err, "$ is not valid for a HTTP request");

    let path = DocPath::root().join_field("blah");
    let err = resolver.resolve(&path, &context).unwrap_err();
    assert_eq!(err, "$.blah is not valid for a HTTP request");
}

#[test]
fn http_request_resolve_values() {
    let resolver = HttpRequestValueResolver { request: HttpRequest::default() };
    let context = PlanMatchingContext::default();

    let path = DocPath::root().join_field("method");
    let v = resolver.resolve(&path, &context).unwrap();
    assert_eq!(v, NodeValue::STRING("GET".to_string()));

    let path = DocPath::root().join_field("path");
    let v = resolver.resolve(&path, &context).unwrap();
    assert_eq!(v, NodeValue::STRING("/".to_string()));
}

#[test]
fn result_algebra_on_values() {
    let err = NodeResult::ERROR("boom".to_string());
    let val = NodeResult::VALUE(NodeValue::BOOL(true));
    assert_eq!(err.and(&Some(val.clone())), err);
    assert_eq!(NodeResult::OK.and(&Some(val.clone())), val);
    let a = NodeValue::BOOL(true);
    let b = NodeValue::BOOL(false);
    assert_eq!(
        NodeResult::VALUE(a.clone()).and(&Some(NodeResult::VALUE(b.clone()))),
        NodeResult::VALUE(a.and(&b))
    );
}

#[test]
fn match_equality_on_strings() {
    let mut node = ExecutionPlanNode::action("match:equality");
    node.add(str_value("test"));
    node.add(str_value("test"));
    node.add(ExecutionPlanNode::value_node(NodeValue::NULL));

    let context = PlanMatchingContext::default();
    let mut interpreter = ExecutionPlanInterpreter::new_with_context(&context);
    let resolver = BytesResolver { bytes: vec![] };
    let path = vec!["$".to_string()];
    let result = interpreter.walk_tree(&path, &node, &resolver).unwrap();
    assert_eq!(result.result, Some(NodeResult::VALUE(NodeValue::BOOL(true))));

    let mut node = ExecutionPlanNode::action("match:equality");
    node.add(str_value("b"));
    node.add(str_value("c"));
    node.add(ExecutionPlanNode::value_node(NodeValue::NULL));
    let mut interpreter = ExecutionPlanInterpreter::new_with_context(&context);
    let result = interpreter.walk_tree(&path, &node, &resolver).unwrap();
    assert_eq!(
        result.result,
        Some(NodeResult::ERROR("Expected 'c' to be equal to 'b'".to_string()))
    );
}

#[test]
fn match_regex_on_request_path() {
    // Expected path under a regex rule, resolved from the actual request.
    let build = |actual: &str| {
        let mut node = ExecutionPlanNode::action("match:regex");
        node.add(str_value("/test"));
        node.add(ExecutionPlanNode::resolve_value(
            &DocPath::root().join_field("path"),
        ));
        node.add(ExecutionPlanNode::value_node(NodeValue::JSON(JsonValue::Object(vec![(
            "regex".to_string(),
            JsonValue::Str("\\/test[0-9]+".to_string()),
        )]))));
        let request = HttpRequest {
            path: actual.to_string(),
            ..HttpRequest::default()
        };
        (node, HttpRequestValueResolver { request })
    };

    let context = PlanMatchingContext::default();
    let path = vec!["$".to_string()];

    let (node, resolver) = build("/test12345");
    let mut interpreter = ExecutionPlanInterpreter::new_with_context(&context);
    let result = interpreter.walk_tree(&path, &node, &resolver).unwrap();
    assert_eq!(result.result, Some(NodeResult::VALUE(NodeValue::BOOL(true))));

    let (node, resolver) = build("/test12345X");
    let mut interpreter = ExecutionPlanInterpreter::new_with_context(&context);
    let result = interpreter.walk_tree(&path, &node, &resolver).unwrap();
    assert_eq!(
        result.result,
        Some(NodeResult::ERROR(
            "Expected '/test12345X' to match '\\/test[0-9]+'".to_string()
        ))
    );
}

#[test]
fn json_parse_action_on_body() {
    // tee(json:parse($.body), match:equality(json literal, current, NULL))
    let mut parse = ExecutionPlanNode::action("json:parse");
    parse.add(ExecutionPlanNode::resolve_value(
        &DocPath::root().join_field("body"),
    ));
    let mut matcher = ExecutionPlanNode::action("match:equality");
    matcher.add(ExecutionPlanNode::value_node(NodeValue::NAMESPACED(
        "json".to_string(),
        "null".to_string(),
    )));
    matcher.add(ExecutionPlanNode::resolve_current_value(&DocPath::root()));
    matcher.add(ExecutionPlanNode::value_node(NodeValue::NULL));
    let mut node = ExecutionPlanNode::action("tee");
    node.add(parse);
    node.add(matcher);

    let context = PlanMatchingContext::default();
    let path = vec!["$".to_string()];
    let resolver = BytesResolver { bytes: b"null".to_vec() };
    let mut interpreter = ExecutionPlanInterpreter::new_with_context(&context);
    let result = interpreter.walk_tree(&path, &node, &resolver).unwrap();
    assert_eq!(result.result, Some(NodeResult::VALUE(NodeValue::BOOL(true))));

    // A mismatching actual document gives the JSON mismatch message.
    let resolver = BytesResolver { bytes: b"true".to_vec() };
    let mut interpreter = ExecutionPlanInterpreter::new_with_context(&context);
    let result = interpreter.walk_tree(&path, &node, &resolver).unwrap();
    assert_eq!(
        result.result,
        Some(NodeResult::VALUE(NodeValue::BOOL(false)))
    );
}

#[test]
fn for_each_visits_every_item() {
    // for-each over a three-element array: the check runs once per item,
    // and an early failure does not stop later items.
    let mut first = ExecutionPlanNode::action("json:parse");
    first.add(ExecutionPlanNode::resolve_value(
        &DocPath::root().join_field("body"),
    ));
    let mut node = ExecutionPlanNode::action("for-each");
    node.add(first);
    node.add(ExecutionPlanNode::action("apply"));

    let context = PlanMatchingContext::default();
    let path = vec!["$".to_string()];
    let resolver = BytesResolver { bytes: b"[1,2,3]".to_vec() };
    let mut interpreter = ExecutionPlanInterpreter::new_with_context(&context);
    let result = interpreter.walk_tree(&path, &node, &resolver).unwrap();
    // one walked first child plus one node per item
    assert_eq!(result.children.len(), 4);
}

#[test]
fn pretty_form_of_executed_check() {
    let mut node = ExecutionPlanNode::action("check:exists");
    node.add(ExecutionPlanNode::value_node(NodeValue::NULL));
    let context = PlanMatchingContext::default();
    let path = vec!["$".to_string()];
    let resolver = BytesResolver { bytes: vec![] };
    let mut interpreter = ExecutionPlanInterpreter::new_with_context(&context);
    let result = interpreter.walk_tree(&path, &node, &resolver).unwrap();
    let mut buffer = String::new();
    result.pretty_form(&mut buffer, 2);
    assert_eq!(
        buffer,
        "  %check:exists (\n    NULL => NULL\n  ) => BOOL(false)"
    );
}

#[test]
fn expect_empty_reports_content() {
    let mut node = ExecutionPlanNode::action("expect:empty");
    node.add(str_value("abc"));
    let context = PlanMatchingContext::default();
    let path = vec!["$".to_string()];
    let resolver = BytesResolver { bytes: vec![] };
    let mut interpreter = ExecutionPlanInterpreter::new_with_context(&context);
    let result = interpreter.walk_tree(&path, &node, &resolver).unwrap();
    assert_eq!(
        result.result,
        Some(NodeResult::ERROR("Expected 'abc' to be empty".to_string()))
    );
}

#[test]
fn not_empty_element_rule_passes_on_children() {
    // A non-empty element satisfies the not-empty rule; an empty one fails.
    let parent = matchplan::xml::XmlElement {
        name: "a".to_string(),
        namespace: None,
        attrs: vec![],
        children: vec![matchplan::xml::XmlNode::Text("x".to_string())],
        rendered: "<a>x</a>".to_string(),
    };
    let empty = matchplan::xml::XmlElement {
        name: "b".to_string(),
        namespace: None,
        attrs: vec![],
        children: vec![],
        rendered: "<b/>".to_string(),
    };
    let rule = matchplan::rules::MatchingRule::NotEmpty;
    assert!(matchplan::matching::match_element(&parent, &parent, &rule, false).is_ok());
    assert_eq!(
        matchplan::matching::match_element(&parent, &empty, &rule, false).unwrap_err(),
        "Expected 'b' to have at least one child"
    );
}

#[test]
fn unknown_namespace_is_an_error_result_not_a_failure() {
    // A bad namespaced literal is recorded as an ERROR result at the value
    // node; the walk itself completes.
    let node = ExecutionPlanNode::value_node(NodeValue::NAMESPACED(
        "yaml".to_string(),
        "x: 1".to_string(),
    ));
    let context = PlanMatchingContext::default();
    let resolver = BytesResolver { bytes: vec![] };
    let path = vec!["$".to_string()];
    let mut interpreter = ExecutionPlanInterpreter::new_with_context(&context);
    let result = interpreter.walk_tree(&path, &node, &resolver).unwrap();
    assert_eq!(
        result.result,
        Some(NodeResult::ERROR("'yaml' is not a known namespace".to_string()))
    );
}
