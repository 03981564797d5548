use matchplan::builders::{JsonPlanBuilder, PlainTextBuilder, XMLPlanBuilder};
use matchplan::context::{MatchingConfiguration, PlanMatchingContext};
use matchplan::interpreter::ExecutionPlanInterpreter;
use matchplan::path::DocPath;
use matchplan::resolver::BytesResolver;
use matchplan::rules::{MatchingRule, RuleList, RuleLogic};
use matchplan::value::{NodeResult, NodeValue};

fn pretty(node: &matchplan::plan::ExecutionPlanNode) -> String {
    let mut buffer = String::new();
    node.pretty_form(&mut buffer, 0);
    buffer
}

fn rule_context(path: DocPath, rules: Vec<MatchingRule>) -> PlanMatchingContext {
    PlanMatchingContext {
        matching_rules: vec![(
            path,
            RuleList { rules, rule_logic: RuleLogic::And, cascaded: false },
        )],
        config: MatchingConfiguration::default(),
    }
}

#[test]
fn json_plan_builder_with_null() {
    let builder = JsonPlanBuilder::new();
    let context = PlanMatchingContext::default();
    let node = builder.build_plan(b"null", &context).unwrap();
    assert_eq!(
        r#"%tee (
  %json:parse (
    $.body
  ),
  :$ (
    %match:equality (
      json:null,
      ~>$,
      NULL
    )
  )
)"#,
        pretty(&node)
    );
}

#[test]
fn json_plan_builder_with_boolean() {
    let builder = JsonPlanBuilder::new();
    let context = PlanMatchingContext::default();
    let node = builder.build_plan(b"true", &context).unwrap();
    assert_eq!(
        r#"%tee (
  %json:parse (
    $.body
  ),
  :$ (
    %match:equality (
      json:true,
      ~>$,
      NULL
    )
  )
)"#,
        pretty(&node)
    );
}

#[test]
fn json_plan_builder_with_string() {
    let builder = JsonPlanBuilder::new();
    let context = PlanMatchingContext::default();
    let node = builder
        .build_plan(b"\"I am a string!\"", &context)
        .unwrap();
    assert_eq!(
        r#"%tee (
  %json:parse (
    $.body
  ),
  :$ (
    %match:equality (
      json:"I am a string!",
      ~>$,
      NULL
    )
  )
)"#,
        pretty(&node)
    );
}

#[test]
fn json_plan_builder_with_int() {
    let builder = JsonPlanBuilder::new();
    let context = PlanMatchingContext::default();
    let node = builder.build_plan(b"1000", &context).unwrap();
    assert_eq!(
        r#"%tee (
  %json:parse (
    $.body
  ),
  :$ (
    %match:equality (
      json:1000,
      ~>$,
      NULL
    )
  )
)"#,
        pretty(&node)
    );
}

#[test]
fn json_plan_builder_with_float() {
    let builder = JsonPlanBuilder::new();
    let context = PlanMatchingContext::default();
    let node = builder.build_plan(b"1000.3", &context).unwrap();
    assert_eq!(
        r#"%tee (
  %json:parse (
    $.body
  ),
  :$ (
    %match:equality (
      json:1000.3,
      ~>$,
      NULL
    )
  )
)"#,
        pretty(&node)
    );
}

#[test]
fn json_plan_builder_with_empty_array() {
    let builder = JsonPlanBuilder::new();
    let context = PlanMatchingContext::default();
    let node = builder.build_plan(b"[]", &context).unwrap();
    assert_eq!(
        r#"%tee (
  %json:parse (
    $.body
  ),
  :$ (
    %json:expect:empty (
      'ARRAY',
      ~>$
    )
  )
)"#,
        pretty(&node)
    );
}

#[test]
fn json_plan_builder_with_array() {
    let builder = JsonPlanBuilder::new();
    let context = PlanMatchingContext::default();
    let node = builder.build_plan(b"[100,200,300]", &context).unwrap();
    assert_eq!(
        r#"%tee (
  %json:parse (
    $.body
  ),
  :$ (
    %json:match:length (
      'ARRAY',
      UINT(3),
      ~>$
    ),
    :$[0] (
      %if (
        %check:exists (
          ~>$[0]
        ),
        %match:equality (
          json:100,
          ~>$[0],
          NULL
        )
      )
    ),
    :$[1] (
      %if (
        %check:exists (
          ~>$[1]
        ),
        %match:equality (
          json:200,
          ~>$[1],
          NULL
        )
      )
    ),
    :$[2] (
      %if (
        %check:exists (
          ~>$[2]
        ),
        %match:equality (
          json:300,
          ~>$[2],
          NULL
        )
      )
    )
  )
)"#,
        pretty(&node)
    );
}

#[test]
fn json_plan_builder_with_empty_object() {
    let builder = JsonPlanBuilder::new();
    let context = PlanMatchingContext::default();
    let node = builder.build_plan(b"{}", &context).unwrap();
    assert_eq!(
        r#"%tee (
  %json:parse (
    $.body
  ),
  :$ (
    %json:expect:empty (
      'OBJECT',
      ~>$
    )
  )
)"#,
        pretty(&node)
    );
}

#[test]
fn json_plan_builder_with_object() {
    let builder = JsonPlanBuilder::new();
    let context = PlanMatchingContext::default();
    let node = builder
        .build_plan(b"{\"a\":100,\"b\":200,\"c\":300}", &context)
        .unwrap();
    assert_eq!(
        r#"%tee (
  %json:parse (
    $.body
  ),
  :$ (
    %json:expect:entries (
      'OBJECT',
      ['a', 'b', 'c'],
      ~>$
    ),
    %expect:only-entries (
      ['a', 'b', 'c'],
      ~>$
    ),
    :$.a (
      %match:equality (
        json:100,
        ~>$.a,
        NULL
      )
    ),
    :$.b (
      %match:equality (
        json:200,
        ~>$.b,
        NULL
      )
    ),
    :$.c (
      %match:equality (
        json:300,
        ~>$.c,
        NULL
      )
    )
  )
)"#,
        pretty(&node)
    );
}

#[test]
fn json_plan_builder_with_object_with_matching_rule() {
    let builder = JsonPlanBuilder::new();
    let context = rule_context(
        DocPath::root().join_field("a"),
        vec![MatchingRule::Regex("^[0-9]+$".to_string())],
    );
    let node = builder
        .build_plan(b"{\"a\":100,\"b\":200,\"c\":300}", &context)
        .unwrap();
    assert_eq!(
        r#"%tee (
  %json:parse (
    $.body
  ),
  :$ (
    %json:expect:entries (
      'OBJECT',
      ['a', 'b', 'c'],
      ~>$
    ),
    %expect:only-entries (
      ['a', 'b', 'c'],
      ~>$
    ),
    :$.a (
      #{'a must match the regular expression /^[0-9]+$/'},
      %match:regex (
        json:100,
        ~>$.a,
        json:{"regex":"^[0-9]+$"}
      )
    ),
    :$.b (
      %match:equality (
        json:200,
        ~>$.b,
        NULL
      )
    ),
    :$.c (
      %match:equality (
        json:300,
        ~>$.c,
        NULL
      )
    )
  )
)"#,
        pretty(&node)
    );
}

#[test]
fn json_plan_builder_with_array_and_type_matcher() {
    let builder = JsonPlanBuilder::new();
    let context = rule_context(
        DocPath::root().join_field("item"),
        vec![MatchingRule::MinType(2)],
    );
    let node = builder
        .build_plan(
            b"{\"item\":[{\"a\":100},{\"a\":200},{\"a\":300}]}",
            &context,
        )
        .unwrap();
    assert_eq!(
        r#"%tee (
  %json:parse (
    $.body
  ),
  :$ (
    %json:expect:entries (
      'OBJECT',
      ['item'],
      ~>$
    ),
    %expect:only-entries (
      ['item'],
      ~>$
    ),
    :$.item (
      #{'item must match by type and have at least 2 items'},
      %match:min-type (
        json:[{"a":100},{"a":200},{"a":300}],
        ~>$.item,
        json:{"min":2}
      ),
      %for-each (
        ~>$.item,
        :$.item[*] (
          %json:expect:entries (
            'OBJECT',
            ['a'],
            ~>$.item[*]
          ),
          %expect:only-entries (
            ['a'],
            ~>$.item[*]
          ),
          :$.item[*].a (
            #{'a must match by type'},
            %match:type (
              json:100,
              ~>$.item[*].a,
              json:{}
            )
          )
        )
      )
    )
  )
)"#,
        pretty(&node)
    );
}

#[test]
fn xml_plan_builder_with_very_simple_xml() {
    let builder = XMLPlanBuilder::new();
    let context = PlanMatchingContext::default();
    let xml = r#"<?xml version="1.0" encoding="UTF-8"?> <blah/>"#;
    let node = builder.build_plan(xml.as_bytes(), &context).unwrap();
    assert_eq!(
        r#"%tee (
  %xml:parse (
    $.body
  ),
  :$ (
    %if (
      %check:exists (
        ~>$.blah
      ),
      :$.blah (
        :#text (
          %expect:empty (
            %to-string (
              ~>$.blah['#text']
            )
          )
        ),
        %expect:empty (
          ~>$.blah
        )
      ),
      %error (
        'Was expecting an XML element /blah but it was missing'
      )
    )
  )
)"#,
        pretty(&node)
    );
}

#[test]
fn xml_plan_builder_with_allowed_unexpected_values() {
    let builder = XMLPlanBuilder::new();
    let context = PlanMatchingContext {
        matching_rules: vec![],
        config: MatchingConfiguration { allow_unexpected_entries: true },
    };
    let xml = r#"<?xml version="1.0" encoding="UTF-8"?> <blah/>"#;
    let node = builder.build_plan(xml.as_bytes(), &context).unwrap();
    assert_eq!(
        r#"%tee (
  %xml:parse (
    $.body
  ),
  :$ (
    %if (
      %check:exists (
        ~>$.blah
      ),
      :$.blah (
        :#text (
          %expect:empty (
            %to-string (
              ~>$.blah['#text']
            )
          )
        )
      ),
      %error (
        'Was expecting an XML element /blah but it was missing'
      )
    )
  )
)"#,
        pretty(&node)
    );
}

#[test]
fn plain_text_builder_builds_equality_check() {
    let builder = PlainTextBuilder::new();
    let context = PlanMatchingContext::default();
    let node = builder.build_plan(b"hello", &context).unwrap();
    assert_eq!(
        r#"%match:equality (
  'hello',
  %convert:UTF8 (
    $.body
  ),
  NULL
)"#,
        pretty(&node)
    );
}

#[test]
fn empty_object_matches_empty_object() {
    // Expected JSON {} against actual {}: the whole verdict is true.
    let builder = JsonPlanBuilder::new();
    let context = PlanMatchingContext::default();
    let node = builder.build_plan(b"{}", &context).unwrap();
    let resolver = BytesResolver { bytes: b"{}".to_vec() };
    let mut interpreter = ExecutionPlanInterpreter::new_with_context(&context);
    let path = vec!["$".to_string()];
    let result = interpreter.walk_tree(&path, &node, &resolver).unwrap();
    assert_eq!(result.result, Some(NodeResult::VALUE(NodeValue::BOOL(true))));
}

#[test]
fn mismatched_object_reports_each_difference() {
    // Expected {"a":100,"b":200.1} against actual {"b":"22"}: the verdict is
    // false, both leaves fail with exact messages, and the missing key is
    // named.
    let builder = JsonPlanBuilder::new();
    let context = PlanMatchingContext::default();
    let node = builder
        .build_plan(b"{\"a\":100,\"b\":200.1}", &context)
        .unwrap();
    let resolver = BytesResolver { bytes: b"{\"b\":\"22\"}".to_vec() };
    let mut interpreter = ExecutionPlanInterpreter::new_with_context(&context);
    let path = vec!["$".to_string()];
    let result = interpreter.walk_tree(&path, &node, &resolver).unwrap();
    assert_eq!(
        result.result,
        Some(NodeResult::VALUE(NodeValue::BOOL(false)))
    );
    let text = pretty(&result);
    assert!(text.contains("ERROR(Expected null (Null) to be equal to 100 (Integer))"));
    assert!(text.contains("ERROR(Expected '22' (String) to be equal to 200.1 (Decimal))"));
    assert!(text
        .contains("The following expected entries were missing from the actual Object: a"));
}

#[test]
fn mismatched_xml_root_reports_missing_element() {
    // Expected <blah/> against actual <bar/>: the verdict is false with the
    // missing-element message.
    let builder = XMLPlanBuilder::new();
    let context = PlanMatchingContext::default();
    let node = builder.build_plan(b"<blah/>", &context).unwrap();
    let resolver = BytesResolver { bytes: b"<bar/>".to_vec() };
    let mut interpreter = ExecutionPlanInterpreter::new_with_context(&context);
    let path = vec!["$".to_string()];
    let result = interpreter.walk_tree(&path, &node, &resolver).unwrap();
    assert_eq!(
        result.result,
        Some(NodeResult::VALUE(NodeValue::BOOL(false)))
    );
    let text = pretty(&result);
    assert!(text.contains("ERROR(Was expecting an XML element /blah but it was missing)"));
}
