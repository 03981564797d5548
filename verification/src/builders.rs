//! Plan builders: pure functions turning an expected body into an executable
//! plan tree, selected by content type. Building fails only when the expected
//! content itself cannot be parsed; matching-rule decisions are baked into
//! the tree at build time.

use vstd::prelude::*;

verus! {

use crate::context::{best_entry, ContextV, PlanMatchingContext};
use crate::foreign::{parsed_json, parsed_xml, utf8_lossy_of};
use crate::json::{json_text, JsonV, JsonValue};
use crate::path::{DocPath, PathTokV};
use crate::plan::{ContainerLabelV, ExecutionPlanNode, NodeV, PlanTypeV};
use crate::rules::{RuleList, RuleListV, RuleLogic, RuleV, rules_description};
use crate::strutil::dec_seq;
use crate::value::{NodeValue, NodeValV};
use crate::xml::XmlElement;
use vstd::string::StrSliceExecFns;

/// An action node, in specification form.
pub open spec fn act(name: Seq<char>, children: Seq<NodeV>) -> NodeV {
    NodeV { node_type: PlanTypeV::Action(name), result: None, children }
}

/// A container node labelled by a path, in specification form.
pub open spec fn cont(path: Seq<PathTokV>, children: Seq<NodeV>) -> NodeV {
    NodeV {
        node_type: PlanTypeV::Container(ContainerLabelV::Path(path)),
        result: None,
        children,
    }
}

/// A literal value node, in specification form.
pub open spec fn val(v: NodeValV) -> NodeV {
    NodeV { node_type: PlanTypeV::Value(v), result: None, children: Seq::empty() }
}

/// A resolve node, in specification form.
pub open spec fn rsv(path: Seq<PathTokV>) -> NodeV {
    NodeV { node_type: PlanTypeV::Resolve(path), result: None, children: Seq::empty() }
}

/// A current-value resolve node, in specification form.
pub open spec fn rcur(path: Seq<PathTokV>) -> NodeV {
    NodeV { node_type: PlanTypeV::ResolveCurrent(path), result: None, children: Seq::empty() }
}

/// An annotation node, in specification form.
pub open spec fn ann(text: Seq<char>) -> NodeV {
    NodeV { node_type: PlanTypeV::Annotation(text), result: None, children: Seq::empty() }
}

/// The rules selected for a path: the best-weighted entry, marked cascaded
/// when found at a strictly shorter path; no rules otherwise.
pub open spec fn select_spec(ctx: ContextV, doc: Seq<PathTokV>) -> RuleListV {
    match best_entry(ctx.matching_rules, doc, ctx.matching_rules.len() as int) {
        Some(b) => RuleListV {
            rules: ctx.matching_rules[b].1.rules,
            rule_logic: ctx.matching_rules[b].1.rule_logic,
            cascaded: ctx.matching_rules[b].0.len() < doc.len(),
        },
        None => RuleListV { rules: Seq::empty(), rule_logic: RuleLogic::And, cascaded: false },
    }
}

/// Whether any rule applies at a path.
pub open spec fn defined_spec(ctx: ContextV, doc: Seq<PathTokV>) -> bool {
    best_entry(ctx.matching_rules, doc, ctx.matching_rules.len() as int) is Some
}

/// The `match:<suffix>` an applied rule compiles to: size-bounded type rules
/// keep their bounds only in collection position.
pub open spec fn rule_suffix(r: RuleV, for_collection: bool) -> Seq<char> {
    match r {
        RuleV::Equality => "equality"@,
        RuleV::Regex(_) => "regex"@,
        RuleV::Type => "type"@,
        RuleV::MinType(_) => if for_collection {
            "min-type"@
        } else {
            "type"@
        },
        RuleV::MaxType(_) => if for_collection {
            "max-type"@
        } else {
            "type"@
        },
        RuleV::MinMaxType(_, _) => if for_collection {
            "minmax-type"@
        } else {
            "type"@
        },
        RuleV::Number => "number"@,
        RuleV::Integer => "integer"@,
        RuleV::Decimal => "decimal"@,
        RuleV::Boolean => "boolean"@,
        RuleV::Include(_) => "include"@,
        RuleV::NotEmpty => "not-empty"@,
        RuleV::Values => "values"@,
        RuleV::EachKey => "each-key"@,
        RuleV::EachValue => "each-value"@,
    }
}

/// The JSON parameters an applied rule carries.
pub open spec fn rule_params(r: RuleV, for_collection: bool) -> JsonV {
    match r {
        RuleV::Regex(re) => JsonV::Object(seq![("regex"@, JsonV::Str(re))]),
        RuleV::MinType(n) => if for_collection {
            JsonV::Object(seq![("min"@, JsonV::Number(dec_seq(n as nat), true))])
        } else {
            JsonV::Object(Seq::empty())
        },
        RuleV::MaxType(n) => if for_collection {
            JsonV::Object(seq![("max"@, JsonV::Number(dec_seq(n as nat), true))])
        } else {
            JsonV::Object(Seq::empty())
        },
        RuleV::MinMaxType(a, b) => if for_collection {
            JsonV::Object(
                seq![
                    ("min"@, JsonV::Number(dec_seq(a as nat), true)),
                    ("max"@, JsonV::Number(dec_seq(b as nat), true)),
                ],
            )
        } else {
            JsonV::Object(Seq::empty())
        },
        RuleV::Include(s) => JsonV::Object(seq![("value"@, JsonV::Str(s))]),
        _ => JsonV::Object(Seq::empty()),
    }
}

/// One `match:<rule>` action over expected, actual and the rule parameters.
pub open spec fn match_rule_node(r: RuleV, expected: NodeV, actual: NodeV, for_collection: bool) -> NodeV {
    act(
        "match:"@ + rule_suffix(r, for_collection),
        seq![expected, actual, val(NodeValV::Json(rule_params(r, for_collection)))],
    )
}

/// The `match:<rule>` children of a combined rule node.
pub open spec fn rule_nodes(
    rules: Seq<RuleV>,
    expected: NodeV,
    actual: NodeV,
    for_collection: bool,
    k: int,
) -> Seq<NodeV>
    decreases k,
{
    if k <= 0 || k > rules.len() {
        Seq::empty()
    } else {
        rule_nodes(rules, expected, actual, for_collection, k - 1).push(
            match_rule_node(rules[k - 1], expected, actual, for_collection),
        )
    }
}

/// The subtree an applied rule list compiles to: a single `match:<rule>`,
/// or `and`/`or` over one per rule.
pub open spec fn build_rule_spec(
    rl: RuleListV,
    expected: NodeV,
    actual: NodeV,
    for_collection: bool,
) -> NodeV {
    if rl.rules.len() == 1 {
        match_rule_node(rl.rules[0], expected, actual, for_collection)
    } else {
        act(
            if rl.rule_logic is And {
                "and"@
            } else {
                "or"@
            },
            rule_nodes(rl.rules, expected, actual, for_collection, rl.rules.len() as int),
        )
    }
}

/// The last field name of a path, or nothing.
pub open spec fn last_field_text(path: Seq<PathTokV>) -> Seq<char> {
    if path.len() > 0 && path.last() is Field {
        path.last()->Field_0
    } else {
        Seq::empty()
    }
}

/// Whether one of the rules addresses a map's entries as a whole.
pub open spec fn has_map_rule(rules: Seq<RuleV>) -> bool {
    exists|i: int|
        0 <= i < rules.len() && (rules[i] is Values || rules[i] is EachKey || rules[i]
            is EachValue)
}

/// The body path `$.body`.
pub open spec fn body_path() -> Seq<PathTokV> {
    seq![PathTokV::Root, PathTokV::Field("body"@)]
}

/// The root path `$`.
pub open spec fn root_path() -> Seq<PathTokV> {
    seq![PathTokV::Root]
}

/// The plan a plain-text expectation compiles to: one equality check of the
/// UTF-8 decoded body.
pub open spec fn text_plan_spec(content: Seq<u8>) -> NodeV {
    act(
        "match:equality"@,
        seq![
            val(NodeValV::Str(utf8_lossy_of(content))),
            act("convert:UTF8"@, seq![rsv(body_path())]),
            val(NodeValV::Null),
        ],
    )
}

/// The plan a JSON expectation compiles to: parse the body once, then check
/// the parsed document against the expected structure.
pub open spec fn json_plan_spec(j: JsonV, ctx: ContextV) -> NodeV {
    act(
        "tee"@,
        seq![
            act("json:parse"@, seq![rsv(body_path())]),
            cont(root_path(), json_items(ctx, j, root_path())),
        ],
    )
}

/// The checks one expected JSON value compiles to at a path.
pub open spec fn json_items(ctx: ContextV, j: JsonV, path: Seq<PathTokV>) -> Seq<NodeV>
    decreases j, 2int, 0int,
{
    match j {
        JsonV::Array(items) => if defined_spec(ctx, path) {
            let matchers = select_spec(ctx, path);
            let head = seq![
                ann(
                    last_field_text(path) + " "@ + rules_description(
                        matchers.rules,
                        matchers.rule_logic,
                        true,
                    ),
                ),
                build_rule_spec(matchers, val(NodeValV::Json(j)), rcur(path), true),
            ];
            if items.len() > 0 {
                let item_path = path.push(PathTokV::StarIndex);
                head + seq![
                    act(
                        "for-each"@,
                        seq![
                            rcur(path),
                            cont(item_path, template_items(ctx, items[0], item_path, true, 0)),
                        ],
                    ),
                ]
            } else {
                head
            }
        } else if items.len() == 0 {
            seq![
                act(
                    "json:expect:empty"@,
                    seq![val(NodeValV::Str("ARRAY"@)), rcur(path)],
                ),
            ]
        } else {
            seq![
                act(
                    "json:match:length"@,
                    seq![
                        val(NodeValV::Str("ARRAY"@)),
                        val(NodeValV::UInt(items.len() as int)),
                        rcur(path),
                    ],
                ),
            ] + indexed_items(ctx, items, path, items.len() as int)
        },
        JsonV::Object(fields) => {
            let rules = select_spec(ctx, path);
            if rules.rules.len() > 0 && has_map_rule(rules.rules) {
                seq![
                    ann(rules_description(rules.rules, rules.rule_logic, true)),
                    build_rule_spec(rules, val(NodeValV::Json(j)), rcur(path), true),
                ]
            } else {
                let keys = NodeValV::SList(fields.map(|i: int, f: (Seq<char>, JsonV)| f.0));
                let head = if fields.len() == 0 {
                    seq![
                        act(
                            "json:expect:empty"@,
                            seq![val(NodeValV::Str("OBJECT"@)), rcur(path)],
                        ),
                    ]
                } else {
                    seq![
                        act(
                            "json:expect:entries"@,
                            seq![val(NodeValV::Str("OBJECT"@)), val(keys), rcur(path)],
                        ),
                    ] + (if !ctx.config.allow_unexpected_entries {
                        seq![
                            act("expect:only-entries"@, seq![val(keys), rcur(path)]),
                        ]
                    } else {
                        seq![
                            act(
                                "json:expect:not-empty"@,
                                seq![val(NodeValV::Str("OBJECT"@)), rcur(path)],
                            ),
                        ]
                    })
                };
                head + object_members(ctx, fields, path, fields.len() as int)
            }
        },
        scalar => scalar_items(ctx, scalar, path),
    }
}

/// The checks one scalar expected value compiles to.
pub open spec fn scalar_items(ctx: ContextV, j: JsonV, path: Seq<PathTokV>) -> Seq<NodeV> {
    if defined_spec(ctx, path) {
        let matchers = select_spec(ctx, path);
        seq![
            ann(
                last_field_text(path) + " "@ + rules_description(
                    matchers.rules,
                    matchers.rule_logic,
                    false,
                ),
            ),
            build_rule_spec(matchers, val(NodeValV::Json(j)), rcur(path), false),
        ]
    } else {
        seq![literal_equality(j, path)]
    }
}

/// A literal equality check of one embedded JSON value.
pub open spec fn literal_equality(j: JsonV, path: Seq<PathTokV>) -> NodeV {
    act(
        "match:equality"@,
        seq![
            val(NodeValV::Namespaced("json"@, json_text(j))),
            rcur(path),
            val(NodeValV::Null),
        ],
    )
}

/// The guarded check of one array item: the item must exist, and then match
/// its rule or the literal value. The annotation names the wildcard or the
/// concrete index.
pub open spec fn item_presence(
    ctx: ContextV,
    j: JsonV,
    item_path: Seq<PathTokV>,
    star: bool,
    index: int,
) -> NodeV {
    let tail = if defined_spec(ctx, item_path) {
        let matchers = select_spec(ctx, item_path);
        seq![
            ann(
                (if star {
                    "[*] "@
                } else {
                    "["@ + dec_seq(index as nat) + "] "@
                }) + rules_description(matchers.rules, matchers.rule_logic, false),
            ),
            build_rule_spec(matchers, val(NodeValV::Json(j)), rcur(item_path), false),
        ]
    } else {
        seq![literal_equality(j, item_path)]
    };
    act(
        "if"@,
        seq![act("check:exists"@, seq![rcur(item_path)])] + tail,
    )
}

/// What the for-each template for one array item compiles to: structured
/// items recurse, scalars get a guarded check.
pub open spec fn template_items(
    ctx: ContextV,
    j: JsonV,
    item_path: Seq<PathTokV>,
    star: bool,
    index: int,
) -> Seq<NodeV>
    decreases j, 3int, 0int,
{
    match j {
        JsonV::Array(_) => json_items(ctx, j, item_path),
        JsonV::Object(_) => json_items(ctx, j, item_path),
        scalar => seq![item_presence(ctx, scalar, item_path, star, index)],
    }
}

/// The per-index containers of a literal array.
pub open spec fn indexed_items(
    ctx: ContextV,
    items: Seq<JsonV>,
    path: Seq<PathTokV>,
    k: int,
) -> Seq<NodeV>
    decreases items, 1int, k,
{
    if k <= 0 || k > items.len() {
        Seq::empty()
    } else {
        let item_path = path.push(PathTokV::Index(k - 1));
        indexed_items(ctx, items, path, k - 1).push(
            cont(item_path, template_items(ctx, items[k - 1], item_path, false, k - 1)),
        )
    }
}

/// The per-member containers of an expected object.
pub open spec fn object_members(
    ctx: ContextV,
    fields: Seq<(Seq<char>, JsonV)>,
    path: Seq<PathTokV>,
    k: int,
) -> Seq<NodeV>
    decreases fields, 1int, k,
{
    if k <= 0 || k > fields.len() {
        Seq::empty()
    } else {
        let member_path = path.push(PathTokV::Field(fields[k - 1].0));
        object_members(ctx, fields, path, k - 1).push(
            cont(member_path, json_items(ctx, fields[k - 1].1, member_path)),
        )
    }
}


/// Whether a content type is textual (`text/*`).
pub open spec fn is_text_type(ct: Seq<char>) -> bool {
    ct.len() >= 5 && ct.take(5) == "text/"@
}

/// Whether a content type carries JSON (`json` occurs in it).
pub open spec fn is_json_type(ct: Seq<char>) -> bool {
    crate::matching::contains_sub(ct, "json"@)
}

/// Whether a content type carries XML (`xml` occurs in it).
pub open spec fn is_xml_type(ct: Seq<char>) -> bool {
    crate::matching::contains_sub(ct, "xml"@)
}

/// Plan builder for plain text. This just sets up an equality matcher.
#[derive(Debug, PartialEq)]
pub struct PlainTextBuilder;

impl PlainTextBuilder {
    /// Create a new instance.
    pub fn new() -> (r: Self) {
        PlainTextBuilder
    }

    /// If this builder supports the given content type.
    pub fn supports_type(&self, content_type: &str) -> (r: bool)
        ensures
            r == is_text_type(content_type@),
    {
        if content_type.unicode_len() < 5 {
            return false;
        }
        let head = content_type.substring_char(0, 5);
        proof {
            assert(head@ =~= content_type@.take(5));
        }
        crate::strutil::str_eq(head, "text/")
    }

    /// Build the plan for the expected body.
    pub fn build_plan(&self, content: &[u8], context: &PlanMatchingContext) -> (r: Result<
        ExecutionPlanNode,
        String,
    >)
        ensures
            r matches Ok(n) && n@ == text_plan_spec(content@),
    {
        let text = crate::foreign::utf8_lossy(content);
        let bp = DocPath::root().join_field("body");
        proof {
            assert(bp@ == body_path());
        }
        let mut child = ExecutionPlanNode::action("convert:UTF8");
        child.add(ExecutionPlanNode::resolve_value(&bp));
        proof {
            assert(child@.children =~~= seq![rsv(body_path())]);
            assert(child@ =~~= act("convert:UTF8"@, seq![rsv(body_path())]));
        }
        let mut node = ExecutionPlanNode::action("match:equality");
        node.add(ExecutionPlanNode::value_node(NodeValue::STRING(text)));
        node.add(child);
        node.add(ExecutionPlanNode::value_node(NodeValue::NULL));
        proof {
            assert(node@.children.len() == 3);
            assert(node@.children[0] =~~= val(NodeValV::Str(utf8_lossy_of(content@))));
            assert(node@.children[1] =~~= act("convert:UTF8"@, seq![rsv(body_path())]));
            assert(node@.children[2] =~~= val(NodeValV::Null));
            assert(node@.children =~~= text_plan_spec(content@).children);
            assert(node@ == text_plan_spec(content@));
        }
        Ok(node)
    }
}

/// Plan builder for JSON bodies.
#[derive(Debug, PartialEq)]
pub struct JsonPlanBuilder;

impl JsonPlanBuilder {
    /// Create a new instance.
    pub fn new() -> (r: Self) {
        JsonPlanBuilder
    }

    /// If this builder supports the given content type.
    pub fn supports_type(&self, content_type: &str) -> (r: bool)
        ensures
            r == is_json_type(content_type@),
    {
        crate::matching::str_contains(content_type, "json")
    }

    /// Build the plan for the expected body: parse it once, then compile the
    /// structural checks.
    pub fn build_plan(&self, content: &[u8], context: &PlanMatchingContext) -> (r: Result<
        ExecutionPlanNode,
        String,
    >)
        ensures
            match r {
                Ok(n) => parsed_json(content@) matches Ok(j) && n@ == json_plan_spec(
                    j,
                    context@,
                ),
                Err(m) => parsed_json(content@) matches Err(e) && m@ == e,
            },
    {
        match crate::foreign::parse_json(content) {
            Err(m) => Err(m),
            Ok(expected) => {
                let bp = DocPath::root().join_field("body");
                proof {
                    assert(bp@ == body_path());
                }
                let mut parse = ExecutionPlanNode::action("json:parse");
                parse.add(ExecutionPlanNode::resolve_value(&bp));
                proof {
                    assert(parse@.children =~~= seq![rsv(body_path())]);
                    assert(parse@ =~~= act("json:parse"@, seq![rsv(body_path())]));
                }
                let root = DocPath::root();
                proof {
                    assert(root@ == root_path());
                }
                let items = json_items_exec(context, &expected, &root);
                let mut root_node = ExecutionPlanNode::container(&root);
                add_all(&mut root_node, items);
                proof {
                    assert(root_node@ =~~= cont(
                        root_path(),
                        json_items(context@, expected@, root_path()),
                    ));
                }
                let mut node = ExecutionPlanNode::action("tee");
                node.add(parse);
                node.add(root_node);
                proof {
                    assert(node@.children =~~= json_plan_spec(expected@, context@).children);
                    assert(node@ =~~= json_plan_spec(expected@, context@));
                }
                Ok(node)
            },
        }
    }
}

/// Appends a list of children to a node.
#[verifier::loop_isolation(false)]
pub fn add_all(node: &mut ExecutionPlanNode, children: Vec<ExecutionPlanNode>)
    ensures
        final(node)@ == (NodeV {
            node_type: old(node)@.node_type,
            result: old(node)@.result,
            children: old(node)@.children + crate::plan::pn_seq(children@),
        }),
{
    broadcast use crate::plan::lemma_pn_seq;

    let ghost cv = crate::plan::pn_seq(children@);
    let mut i: usize = 0;
    proof {
        assert(node@.children =~= old(node)@.children + cv.take(0));
    }
    while i < children.len()
        invariant
            i <= children.len(),
            node@.node_type == old(node)@.node_type,
            node@.result == old(node)@.result,
            node@.children =~= old(node)@.children + cv.take(i as int),
        decreases children.len() - i,
    {
        let c = children[i].clone();
        proof {
            crate::plan::lemma_pn_seq(children@);
            assert(c@ == cv[i as int]);
        }
        node.add(c);
        proof {
            assert(node@.children =~= old(node)@.children + cv.take(i + 1));
        }
        i = i + 1;
    }
    proof {
        assert(cv.take(children@.len() as int) =~= cv);
        assert(node@.children =~= old(node)@.children + cv);
    }
}

/// One `match:<rule>` action node.
fn match_rule_node_exec(
    rule: &RuleList,
    idx: usize,
    expected: ExecutionPlanNode,
    actual: ExecutionPlanNode,
    for_collection: bool,
) -> (r: ExecutionPlanNode)
    requires
        idx < rule.rules@.len(),
    ensures
        r@ == match_rule_node(rule@.rules[idx as int], expected@, actual@, for_collection),
{
    broadcast use crate::json::lemma_jv_fields;

    let rl = &rule.rules[idx];
    let suffix: &str = match rl {
        crate::rules::MatchingRule::Equality => "equality",
        crate::rules::MatchingRule::Regex(_) => "regex",
        crate::rules::MatchingRule::Type => "type",
        crate::rules::MatchingRule::MinType(_) => if for_collection {
            "min-type"
        } else {
            "type"
        },
        crate::rules::MatchingRule::MaxType(_) => if for_collection {
            "max-type"
        } else {
            "type"
        },
        crate::rules::MatchingRule::MinMaxType(_, _) => if for_collection {
            "minmax-type"
        } else {
            "type"
        },
        crate::rules::MatchingRule::Number => "number",
        crate::rules::MatchingRule::Integer => "integer",
        crate::rules::MatchingRule::Decimal => "decimal",
        crate::rules::MatchingRule::Boolean => "boolean",
        crate::rules::MatchingRule::Include(_) => "include",
        crate::rules::MatchingRule::NotEmpty => "not-empty",
        crate::rules::MatchingRule::Values => "values",
        crate::rules::MatchingRule::EachKey => "each-key",
        crate::rules::MatchingRule::EachValue => "each-value",
    };
    let mut name: Vec<char> = Vec::new();
    crate::strutil::push_str(&mut name, "match:");
    crate::strutil::push_str(&mut name, suffix);
    proof {
        assert(name@ =~= "match:"@ + rule_suffix(rule@.rules[idx as int], for_collection));
    }
    let params: JsonValue = match rl {
        crate::rules::MatchingRule::Regex(re) => {
            let fields: Vec<(String, JsonValue)> = vec![
                (String::from_str("regex"), JsonValue::Str(re.clone())),
            ];
            proof {
                assert(crate::json::jv_fields(fields@) =~= seq![("regex"@, JsonV::Str(re@))]);
            }
            JsonValue::Object(fields)
        },
        crate::rules::MatchingRule::MinType(n) => {
            if for_collection {
                let mut t: Vec<char> = Vec::new();
                crate::strutil::push_dec(&mut t, *n);
                let fields: Vec<(String, JsonValue)> = vec![
                    (
                        String::from_str("min"),
                        JsonValue::Number {
                            text: crate::strutil::chars_to_string(&t),
                            integer: true,
                        },
                    ),
                ];
                proof {
                    assert(crate::json::jv_fields(fields@) =~= seq![
                        ("min"@, JsonV::Number(dec_seq(*n as nat), true)),
                    ]);
                }
                JsonValue::Object(fields)
            } else {
                empty_object()
            }
        },
        crate::rules::MatchingRule::MaxType(n) => {
            if for_collection {
                let mut t: Vec<char> = Vec::new();
                crate::strutil::push_dec(&mut t, *n);
                let fields: Vec<(String, JsonValue)> = vec![
                    (
                        String::from_str("max"),
                        JsonValue::Number {
                            text: crate::strutil::chars_to_string(&t),
                            integer: true,
                        },
                    ),
                ];
                proof {
                    assert(crate::json::jv_fields(fields@) =~= seq![
                        ("max"@, JsonV::Number(dec_seq(*n as nat), true)),
                    ]);
                }
                JsonValue::Object(fields)
            } else {
                empty_object()
            }
        },
        crate::rules::MatchingRule::MinMaxType(a, b) => {
            if for_collection {
                let mut ta: Vec<char> = Vec::new();
                crate::strutil::push_dec(&mut ta, *a);
                let mut tb: Vec<char> = Vec::new();
                crate::strutil::push_dec(&mut tb, *b);
                let fields: Vec<(String, JsonValue)> = vec![
                    (
                        String::from_str("min"),
                        JsonValue::Number {
                            text: crate::strutil::chars_to_string(&ta),
                            integer: true,
                        },
                    ),
                    (
                        String::from_str("max"),
                        JsonValue::Number {
                            text: crate::strutil::chars_to_string(&tb),
                            integer: true,
                        },
                    ),
                ];
                proof {
                    assert(crate::json::jv_fields(fields@) =~= seq![
                        ("min"@, JsonV::Number(dec_seq(*a as nat), true)),
                        ("max"@, JsonV::Number(dec_seq(*b as nat), true)),
                    ]);
                }
                JsonValue::Object(fields)
            } else {
                empty_object()
            }
        },
        crate::rules::MatchingRule::Include(sv) => {
            let fields: Vec<(String, JsonValue)> = vec![
                (String::from_str("value"), JsonValue::Str(sv.clone())),
            ];
            proof {
                assert(crate::json::jv_fields(fields@) =~= seq![("value"@, JsonV::Str(sv@))]);
            }
            JsonValue::Object(fields)
        },
        _ => empty_object(),
    };
    proof {
        assert(params@ == rule_params(rule@.rules[idx as int], for_collection));
    }
    let mut node = ExecutionPlanNode {
        node_type: crate::plan::PlanNodeType::ACTION(crate::strutil::chars_to_string(&name)),
        result: None,
        children: Vec::new(),
    };
    proof {
        assert(crate::plan::pn_seq(node.children@) =~= Seq::<NodeV>::empty());
    }
    node.add(expected);
    node.add(actual);
    node.add(ExecutionPlanNode::value_node(NodeValue::JSON(params)));
    proof {
        assert(node@.children =~~= match_rule_node(
            rule@.rules[idx as int],
            expected@,
            actual@,
            for_collection,
        ).children);
        assert(node@ == match_rule_node(
            rule@.rules[idx as int],
            expected@,
            actual@,
            for_collection,
        ));
    }
    node
}

/// An empty JSON object literal.
fn empty_object() -> (r: JsonValue)
    ensures
        r@ == JsonV::Object(Seq::<(Seq<char>, JsonV)>::empty()),
{
    let fields: Vec<(String, JsonValue)> = Vec::new();
    proof {
        assert(crate::json::jv_fields(fields@) =~= Seq::<(Seq<char>, JsonV)>::empty());
    }
    JsonValue::Object(fields)
}

/// The subtree an applied rule list compiles to.
#[verifier::loop_isolation(false)]
pub fn build_rule_node(
    rule: &RuleList,
    expected: ExecutionPlanNode,
    actual: ExecutionPlanNode,
    for_collection: bool,
) -> (r: ExecutionPlanNode)
    ensures
        r@ == build_rule_spec(rule@, expected@, actual@, for_collection),
{
    broadcast use crate::plan::lemma_pn_seq;

    if rule.rules.len() == 1 {
        match_rule_node_exec(rule, 0, expected, actual, for_collection)
    } else {
        let logic: &str = match rule.rule_logic {
            RuleLogic::And => "and",
            RuleLogic::Or => "or",
        };
        let mut node = ExecutionPlanNode::action(logic);
        let ghost ev = expected@;
        let ghost av = actual@;
        let mut i: usize = 0;
        proof {
            assert(rule_nodes(rule@.rules, ev, av, for_collection, 0) =~~= Seq::<NodeV>::empty());
            assert(node@.children =~~= rule_nodes(rule@.rules, ev, av, for_collection, 0));
        }
        while i < rule.rules.len()
            invariant
                i <= rule.rules@.len(),
                node@.node_type == PlanTypeV::Action(
                    if rule@.rule_logic is And {
                        "and"@
                    } else {
                        "or"@
                    },
                ),
                node@.result is None,
                node@.children =~= rule_nodes(
                    rule@.rules,
                    ev,
                    av,
                    for_collection,
                    i as int,
                ),
            decreases rule.rules@.len() - i,
        {
            let e2 = expected.clone();
            let a2 = actual.clone();
            let child = match_rule_node_exec(rule, i, e2, a2, for_collection);
            node.add(child);
            proof {
                assert(node@.children =~~= rule_nodes(
                    rule@.rules,
                    ev,
                    av,
                    for_collection,
                    i + 1,
                ));
            }
            i = i + 1;
        }
        proof {
            assert(node@ == build_rule_spec(rule@, ev, av, for_collection));
        }
        node
    }
}


/// The annotation text `<last field> <description>`.
fn annotation_text(path: &DocPath, rule: &RuleList, for_collection: bool) -> (r: String)
    ensures
        r@ == last_field_text(path@) + " "@ + rules_description(
            rule@.rules,
            rule@.rule_logic,
            for_collection,
        ),
{
    let mut text: Vec<char> = Vec::new();
    match path.last_field() {
        Some(f) => {
            let f2 = f.clone();
            crate::strutil::push_str(&mut text, f2.as_str());
        },
        None => (),
    }
    crate::strutil::push_str(&mut text, " ");
    let desc = rule.generate_description(for_collection);
    crate::strutil::push_str(&mut text, desc.as_str());
    proof {
        assert(text@ =~= last_field_text(path@) + " "@ + rules_description(
            rule@.rules,
            rule@.rule_logic,
            for_collection,
        ));
    }
    crate::strutil::chars_to_string(&text)
}

/// A literal equality check of one embedded JSON value.
fn literal_equality_exec(j: &JsonValue, path: &DocPath) -> (r: ExecutionPlanNode)
    ensures
        r@ == literal_equality(j@, path@),
{
    let mut t: Vec<char> = Vec::new();
    crate::json::push_json_text(&mut t, j);
    let mut node = ExecutionPlanNode::action("match:equality");
    node.add(ExecutionPlanNode::value_node(NodeValue::NAMESPACED(
        String::from_str("json"),
        crate::strutil::chars_to_string(&t),
    )));
    node.add(ExecutionPlanNode::resolve_current_value(path));
    node.add(ExecutionPlanNode::value_node(NodeValue::NULL));
    proof {
        assert(node@.children =~~= literal_equality(j@, path@).children);
        assert(node@ == literal_equality(j@, path@));
    }
    node
}

/// The guarded check of one array item.
fn item_presence_exec(
    context: &PlanMatchingContext,
    j: &JsonValue,
    item_path: &DocPath,
    star: bool,
    index: usize,
) -> (r: ExecutionPlanNode)
    ensures
        r@ == item_presence(context@, j@, item_path@, star, index as int),
{
    let mut check = ExecutionPlanNode::action("check:exists");
    check.add(ExecutionPlanNode::resolve_current_value(item_path));
    let mut node = ExecutionPlanNode::action("if");
    node.add(check);
    if context.matcher_is_defined(item_path) {
        let matchers = context.select_best_matcher(item_path);
        let mut text: Vec<char> = Vec::new();
        if star {
            crate::strutil::push_str(&mut text, "[*] ");
        } else {
            crate::strutil::push_str(&mut text, "[");
            crate::strutil::push_dec(&mut text, index as u64);
            crate::strutil::push_str(&mut text, "] ");
        }
        let desc = matchers.generate_description(false);
        crate::strutil::push_str(&mut text, desc.as_str());
        proof {
            if star {
                assert(text@ =~= "[*] "@ + rules_description(
                    matchers@.rules,
                    matchers@.rule_logic,
                    false,
                ));
            } else {
                assert(text@ =~= ("["@ + dec_seq(index as nat) + "] "@) + rules_description(
                    matchers@.rules,
                    matchers@.rule_logic,
                    false,
                ));
            }
        }
        let ann_string = crate::strutil::chars_to_string(&text);
        node.add(ExecutionPlanNode::annotation(ann_string.as_str()));
        let rn = build_rule_node(
            &matchers,
            ExecutionPlanNode::value_node(NodeValue::JSON(j.clone())),
            ExecutionPlanNode::resolve_current_value(item_path),
            false,
        );
        node.add(rn);
        proof {
            assert(node@.children =~~= item_presence(
                context@,
                j@,
                item_path@,
                star,
                index as int,
            ).children);
            assert(node@ == item_presence(context@, j@, item_path@, star, index as int));
        }
    } else {
        let eq = literal_equality_exec(j, item_path);
        node.add(eq);
        proof {
            assert(node@.children =~~= item_presence(
                context@,
                j@,
                item_path@,
                star,
                index as int,
            ).children);
            assert(node@ == item_presence(context@, j@, item_path@, star, index as int));
        }
    }
    node
}

/// What the for-each template for one array item compiles to.
fn template_items_exec(
    context: &PlanMatchingContext,
    j: &JsonValue,
    item_path: &DocPath,
    star: bool,
    index: usize,
) -> (r: Vec<ExecutionPlanNode>)
    ensures
        crate::plan::pn_seq(r@) == template_items(context@, j@, item_path@, star, index as int),
    decreases j, 3int, 0int,
{
    broadcast use crate::plan::lemma_pn_seq;

    match j {
        JsonValue::Array(_) => json_items_exec(context, j, item_path),
        JsonValue::Object(_) => json_items_exec(context, j, item_path),
        _ => {
            let node = item_presence_exec(context, j, item_path, star, index);
            let ghost nv2 = node@;
            let mut out: Vec<ExecutionPlanNode> = Vec::new();
            out.push(node);
            proof {
                assert(crate::plan::pn_seq(out@) =~= seq![nv2]);
            }
            out
        },
    }
}

/// The checks one expected JSON value compiles to at a path.
#[verifier::loop_isolation(false)]
#[verifier::rlimit(100)]
pub fn json_items_exec(
    context: &PlanMatchingContext,
    j: &JsonValue,
    path: &DocPath,
) -> (r: Vec<ExecutionPlanNode>)
    ensures
        crate::plan::pn_seq(r@) == json_items(context@, j@, path@),
    decreases j, 2int, 0int,
{
    broadcast use crate::plan::lemma_pn_seq, crate::json::lemma_jv_seq,
        crate::json::lemma_jv_fields;

    let mut out: Vec<ExecutionPlanNode> = Vec::new();
    match j {
        JsonValue::Array(items) => {
            if context.matcher_is_defined(path) {
                let matchers = context.select_best_matcher(path);
                let text = annotation_text(path, &matchers, true);
                let ann_node = ExecutionPlanNode::annotation(text.as_str());
                let rn = build_rule_node(
                    &matchers,
                    ExecutionPlanNode::value_node(NodeValue::JSON(j.clone())),
                    ExecutionPlanNode::resolve_current_value(path),
                    true,
                );
                let ghost av2 = ann_node@;
                let ghost rv2 = rn@;
                out.push(ann_node);
                out.push(rn);
                proof {
                    assert(matchers@ =~~= select_spec(context@, path@));
                    assert(av2 =~~= ann(
                        last_field_text(path@) + " "@ + rules_description(
                            select_spec(context@, path@).rules,
                            select_spec(context@, path@).rule_logic,
                            true,
                        ),
                    ));
                    assert(rv2 =~~= build_rule_spec(
                        select_spec(context@, path@),
                        val(NodeValV::Json(j@)),
                        rcur(path@),
                        true,
                    ));
                    assert(crate::plan::pn_seq(out@) =~= seq![av2, rv2]);
                }
                if items.len() > 0 {
                    let item_path = path.join("[*]");
                    proof {
                        assert(item_path@ == path@.push(PathTokV::StarIndex));
                        assert(decreases_to!(*j => items@[0]));
                    }
                    let template = template_items_exec(
                        context,
                        &items[0],
                        &item_path,
                        true,
                        0,
                    );
                    let mut cont_node = ExecutionPlanNode::container(&item_path);
                    add_all(&mut cont_node, template);
                    let mut fe = ExecutionPlanNode::action("for-each");
                    fe.add(ExecutionPlanNode::resolve_current_value(path));
                    fe.add(cont_node);
                    let ghost fv2 = fe@;
                    out.push(fe);
                    proof {
                        crate::json::lemma_jv_seq(items@);
                        assert(crate::json::jv_seq(items@)[0] == crate::json::jv(items@[0]));
                        assert(fv2.children =~~= seq![
                            rcur(path@),
                            cont(
                                path@.push(PathTokV::StarIndex),
                                template_items(
                                    context@,
                                    crate::json::jv_seq(items@)[0],
                                    path@.push(PathTokV::StarIndex),
                                    true,
                                    0,
                                ),
                            ),
                        ]);
                        assert(fv2 =~~= act(
                            "for-each"@,
                            seq![
                                rcur(path@),
                                cont(
                                    path@.push(PathTokV::StarIndex),
                                    template_items(
                                        context@,
                                        crate::json::jv_seq(items@)[0],
                                        path@.push(PathTokV::StarIndex),
                                        true,
                                        0,
                                    ),
                                ),
                            ],
                        ));
                        assert(crate::plan::pn_seq(out@) =~= seq![av2, rv2, fv2]);
                        assert(crate::plan::pn_seq(out@) =~~= json_items(context@, j@, path@));
                    }
                } else {
                    proof {
                        assert(crate::plan::pn_seq(out@) =~~= json_items(context@, j@, path@));
                    }
                }
            } else if items.len() == 0 {
                let mut n = ExecutionPlanNode::action("json:expect:empty");
                n.add(ExecutionPlanNode::value_node(NodeValue::STRING(
                    String::from_str("ARRAY"),
                )));
                n.add(ExecutionPlanNode::resolve_current_value(path));
                let ghost nv2 = n@;
                out.push(n);
                proof {
                    assert(nv2.children =~~= json_items(context@, j@, path@)[0].children);
                    assert(crate::plan::pn_seq(out@) =~~= json_items(context@, j@, path@));
                }
            } else {
                let mut n = ExecutionPlanNode::action("json:match:length");
                n.add(ExecutionPlanNode::value_node(NodeValue::STRING(
                    String::from_str("ARRAY"),
                )));
                n.add(ExecutionPlanNode::value_node(NodeValue::UINT(items.len() as u64)));
                n.add(ExecutionPlanNode::resolve_current_value(path));
                let ghost nv2 = n@;
                out.push(n);
                proof {
                    assert(crate::json::jv_seq(items@).len() == items@.len());
                    assert(nv2.children =~= act(
                        "json:match:length"@,
                        seq![
                            val(NodeValV::Str("ARRAY"@)),
                            val(NodeValV::UInt(items@.len() as int)),
                            rcur(path@),
                        ],
                    ).children);
                    assert(crate::plan::pn_seq(out@) =~= seq![nv2]);
                }
                let ghost target = indexed_items(
                    context@,
                    crate::json::jv_seq(items@),
                    path@,
                    items@.len() as int,
                );
                let mut i: usize = 0;
                let mut indexed: Vec<ExecutionPlanNode> = Vec::new();
                proof {
                    assert(crate::plan::pn_seq(indexed@) =~~= indexed_items(
                        context@,
                        crate::json::jv_seq(items@),
                        path@,
                        0,
                    ));
                }
                while i < items.len()
                    invariant
                        i <= items.len(),
                        crate::plan::pn_seq(indexed@) =~= indexed_items(
                            context@,
                            crate::json::jv_seq(items@),
                            path@,
                            i as int,
                        ),
                    decreases items.len() - i,
                {
                    let item_path = path.join_index(i);
                    proof {
                        assert(item_path@ == path@.push(PathTokV::Index(i as int)));
                        assert(decreases_to!(*j => items@[i as int]));
                        assert(crate::json::jv_seq(items@)[i as int] == crate::json::jv(
                            items@[i as int],
                        ));
                    }
                    let template = template_items_exec(context, &items[i], &item_path, false, i);
                    let mut cont_node = ExecutionPlanNode::container(&item_path);
                    add_all(&mut cont_node, template);
                    let ghost cv2 = cont_node@;
                    indexed = crate::interpreter::push_node(indexed, cont_node);
                    proof {
                        assert(crate::plan::pn_seq(indexed@) =~~= indexed_items(
                            context@,
                            crate::json::jv_seq(items@),
                            path@,
                            i + 1,
                        ));
                    }
                    i = i + 1;
                }
                out = crate::interpreter::concat_nodes(out, indexed);
                proof {
                    assert(crate::plan::pn_seq(out@) =~~= json_items(context@, j@, path@));
                }
            }
        },
        JsonValue::Object(fields) => {
            let rules = context.select_best_matcher(path);
            let applies = if rules.is_empty() {
                false
            } else {
                has_map_rule_exec(&rules)
            };
            if applies {
                let text = rules.generate_description(true);
                let ann_node = ExecutionPlanNode::annotation(text.as_str());
                let rn = build_rule_node(
                    &rules,
                    ExecutionPlanNode::value_node(NodeValue::JSON(j.clone())),
                    ExecutionPlanNode::resolve_current_value(path),
                    true,
                );
                let ghost av2 = ann_node@;
                let ghost rv2 = rn@;
                out.push(ann_node);
                out.push(rn);
                proof {
                    assert(crate::plan::pn_seq(out@) =~= seq![av2, rv2]);
                    assert(crate::plan::pn_seq(out@) =~~= json_items(context@, j@, path@));
                }
            } else {
                if fields.len() == 0 {
                    let mut n = ExecutionPlanNode::action("json:expect:empty");
                    n.add(ExecutionPlanNode::value_node(NodeValue::STRING(
                        String::from_str("OBJECT"),
                    )));
                    n.add(ExecutionPlanNode::resolve_current_value(path));
                    let ghost nv2 = n@;
                    out.push(n);
                    proof {
                        assert(nv2.children =~~= seq![
                            val(NodeValV::Str("OBJECT"@)),
                            rcur(path@),
                        ]);
                        assert(nv2 =~~= act(
                            "json:expect:empty"@,
                            seq![val(NodeValV::Str("OBJECT"@)), rcur(path@)],
                        ));
                        assert(crate::plan::pn_seq(out@) =~= seq![nv2]);
                    }
                } else {
                    let ghost keysv = crate::json::jv_fields(fields@).map(
                        |i: int, f: (Seq<char>, JsonV)| f.0,
                    );
                    let mut keys: Vec<String> = Vec::new();
                    let mut k: usize = 0;
                    proof {
                        assert(crate::value::sl_view(keys@) =~= keysv.take(0));
                    }
                    while k < fields.len()
                        invariant
                            k <= fields.len(),
                            keysv == crate::json::jv_fields(fields@).map(
                                |m: int, f: (Seq<char>, JsonV)| f.0,
                            ),
                            keysv.len() == fields@.len(),
                            crate::value::sl_view(keys@) =~= keysv.take(k as int),
                        decreases fields.len() - k,
                    {
                        keys.push(fields[k].0.clone());
                        proof {
                            assert(crate::value::sl_view(keys@) =~= keysv.take(k + 1));
                        }
                        k = k + 1;
                    }
                    proof {
                        assert(keysv.take(fields@.len() as int) =~= keysv);
                    }
                    let keys2 = crate::value::clone_slist(&keys);
                    let mut n = ExecutionPlanNode::action("json:expect:entries");
                    n.add(ExecutionPlanNode::value_node(NodeValue::STRING(
                        String::from_str("OBJECT"),
                    )));
                    n.add(ExecutionPlanNode::value_node(NodeValue::SLIST(keys)));
                    n.add(ExecutionPlanNode::resolve_current_value(path));
                    let ghost nv2 = n@;
                    out.push(n);
                    proof {
                        assert(nv2.children =~~= seq![
                            val(NodeValV::Str("OBJECT"@)),
                            val(
                                NodeValV::SList(
                                    crate::json::jv_fields(fields@).map(
                                        |i: int, f: (Seq<char>, JsonV)| f.0,
                                    ),
                                ),
                            ),
                            rcur(path@),
                        ]);
                        assert(nv2 =~~= act(
                            "json:expect:entries"@,
                            seq![
                                val(NodeValV::Str("OBJECT"@)),
                                val(
                                    NodeValV::SList(
                                        crate::json::jv_fields(fields@).map(
                                            |i: int, f: (Seq<char>, JsonV)| f.0,
                                        ),
                                    ),
                                ),
                                rcur(path@),
                            ],
                        ));
                        assert(crate::plan::pn_seq(out@) =~= seq![nv2]);
                    }
                    if !context.config.allow_unexpected_entries {
                        let mut n2 = ExecutionPlanNode::action("expect:only-entries");
                        n2.add(ExecutionPlanNode::value_node(NodeValue::SLIST(keys2)));
                        n2.add(ExecutionPlanNode::resolve_current_value(path));
                        let ghost n2v = n2@;
                        out.push(n2);
                        proof {
                            assert(n2v.children =~~= seq![
                                val(
                                    NodeValV::SList(
                                        crate::json::jv_fields(fields@).map(
                                            |i: int, f: (Seq<char>, JsonV)| f.0,
                                        ),
                                    ),
                                ),
                                rcur(path@),
                            ]);
                            assert(n2v =~~= act(
                                "expect:only-entries"@,
                                seq![
                                    val(
                                        NodeValV::SList(
                                            crate::json::jv_fields(fields@).map(
                                                |i: int, f: (Seq<char>, JsonV)| f.0,
                                            ),
                                        ),
                                    ),
                                    rcur(path@),
                                ],
                            ));
                            assert(crate::plan::pn_seq(out@) =~= seq![nv2, n2v]);
                        }
                    } else {
                        let mut n2 = ExecutionPlanNode::action("json:expect:not-empty");
                        n2.add(ExecutionPlanNode::value_node(NodeValue::STRING(
                            String::from_str("OBJECT"),
                        )));
                        n2.add(ExecutionPlanNode::resolve_current_value(path));
                        let ghost n2v = n2@;
                        out.push(n2);
                        proof {
                            assert(n2v.children =~~= seq![
                                val(NodeValV::Str("OBJECT"@)),
                                rcur(path@),
                            ]);
                            assert(n2v =~~= act(
                                "json:expect:not-empty"@,
                                seq![val(NodeValV::Str("OBJECT"@)), rcur(path@)],
                            ));
                            assert(crate::plan::pn_seq(out@) =~= seq![nv2, n2v]);
                        }
                    }
                }
                let ghost head = crate::plan::pn_seq(out@);
                let ghost target = object_members(
                    context@,
                    crate::json::jv_fields(fields@),
                    path@,
                    fields@.len() as int,
                );
                let mut members: Vec<ExecutionPlanNode> = Vec::new();
                let mut k: usize = 0;
                proof {
                    assert(crate::plan::pn_seq(members@) =~~= object_members(
                        context@,
                        crate::json::jv_fields(fields@),
                        path@,
                        0,
                    ));
                }
                while k < fields.len()
                    invariant
                        k <= fields.len(),
                        crate::plan::pn_seq(members@) =~= object_members(
                            context@,
                            crate::json::jv_fields(fields@),
                            path@,
                            k as int,
                        ),
                    decreases fields.len() - k,
                {
                    let key = fields[k].0.clone();
                    let member_path = path.join_field(key.as_str());
                    proof {
                        assert(member_path@ == path@.push(
                            PathTokV::Field(fields@[k as int].0@),
                        ));
                        assert(decreases_to!(*j => fields@[k as int].1));
                        assert(crate::json::jv_fields(fields@)[k as int] == (
                            fields@[k as int].0@,
                            crate::json::jv(fields@[k as int].1),
                        ));
                    }
                    let inner = json_items_exec(context, &fields[k].1, &member_path);
                    let mut cont_node = ExecutionPlanNode::container(&member_path);
                    add_all(&mut cont_node, inner);
                    members = crate::interpreter::push_node(members, cont_node);
                    proof {
                        assert(crate::plan::pn_seq(members@) =~~= object_members(
                            context@,
                            crate::json::jv_fields(fields@),
                            path@,
                            k + 1,
                        ));
                    }
                    k = k + 1;
                }
                out = crate::interpreter::concat_nodes(out, members);
                proof {
                    crate::json::lemma_jv_fields(fields@);
                    assert(crate::plan::pn_seq(out@) =~~= json_items(context@, j@, path@));
                }
            }
        },
        _ => {
            if context.matcher_is_defined(path) {
                let matchers = context.select_best_matcher(path);
                let text = annotation_text(path, &matchers, false);
                let ann_node = ExecutionPlanNode::annotation(text.as_str());
                let rn = build_rule_node(
                    &matchers,
                    ExecutionPlanNode::value_node(NodeValue::JSON(j.clone())),
                    ExecutionPlanNode::resolve_current_value(path),
                    false,
                );
                let ghost av2 = ann_node@;
                let ghost rv2 = rn@;
                out.push(ann_node);
                out.push(rn);
                proof {
                    assert(crate::plan::pn_seq(out@) =~= seq![av2, rv2]);
                    assert(crate::plan::pn_seq(out@) =~~= json_items(context@, j@, path@));
                }
            } else {
                let eq = literal_equality_exec(j, path);
                let ghost ev2 = eq@;
                out.push(eq);
                proof {
                    assert(crate::plan::pn_seq(out@) =~= seq![ev2]);
                    assert(crate::plan::pn_seq(out@) =~~= json_items(context@, j@, path@));
                }
            }
        },
    }
    out
}

/// Whether one of the selected rules addresses the map's entries as a whole.
fn has_map_rule_exec(rules: &RuleList) -> (r: bool)
    ensures
        r == has_map_rule(rules@.rules),
{
    let mut i: usize = 0;
    while i < rules.rules.len()
        invariant
            i <= rules.rules@.len(),
            forall|k: int|
                0 <= k < i ==> !(rules@.rules[k] is Values || rules@.rules[k] is EachKey
                    || rules@.rules[k] is EachValue),
        decreases rules.rules@.len() - i,
    {
        match &rules.rules[i] {
            crate::rules::MatchingRule::Values => {
                proof {
                    assert(rules@.rules[i as int] is Values);
                }
                return true;
            },
            crate::rules::MatchingRule::EachKey => {
                proof {
                    assert(rules@.rules[i as int] is EachKey);
                }
                return true;
            },
            crate::rules::MatchingRule::EachValue => {
                proof {
                    assert(rules@.rules[i as int] is EachValue);
                }
                return true;
            },
            _ => (),
        }
        i = i + 1;
    }
    proof {
        if has_map_rule(rules@.rules) {
            let w = choose|k: int|
                0 <= k < rules@.rules.len() && (rules@.rules[k] is Values || #[trigger]
                rules@.rules[k] is EachKey || rules@.rules[k] is EachValue);
            assert(false);
        }
    }
    false
}


/// A container node with a plain text label, in specification form.
pub open spec fn contl(label: Seq<char>, children: Seq<NodeV>) -> NodeV {
    NodeV {
        node_type: PlanTypeV::Container(ContainerLabelV::Text(label)),
        result: None,
        children,
    }
}

/// A splat node, in specification form.
pub open spec fn splat(children: Seq<NodeV>) -> NodeV {
    NodeV { node_type: PlanTypeV::Splat, result: None, children }
}

/// The rules of a list without the type-family rules.
pub open spec fn drop_type_rules(rl: RuleListV) -> RuleListV {
    RuleListV {
        rules: rl.rules.filter(|r: RuleV| !crate::context::is_type_rule(r)),
        rule_logic: rl.rule_logic,
        cascaded: rl.cascaded,
    }
}

/// The rules of a list restricted to size-bounded type rules.
pub open spec fn keep_length_rules(rl: RuleListV) -> RuleListV {
    RuleListV {
        rules: rl.rules.filter(
            |r: RuleV| r is MinType || r is MaxType || r is MinMaxType,
        ),
        rule_logic: rl.rule_logic,
        cascaded: rl.cascaded,
    }
}

/// Whether a type-family rule applies at a path.
pub open spec fn type_defined_spec(ctx: ContextV, doc: Seq<PathTokV>) -> bool {
    defined_spec(ctx, doc) && exists|i: int|
        0 <= i < select_spec(ctx, doc).rules.len() && crate::context::is_type_rule(
            #[trigger] select_spec(ctx, doc).rules[i],
        )
}

/// Whether `path` ends `.name[*]` for the given element name.
pub open spec fn ends_star_of(path: Seq<PathTokV>, name: Seq<char>) -> bool {
    path.len() >= 2 && path.last() is StarIndex && path[path.len() - 2] == PathTokV::Field(name)
}

/// The path an expected element is checked at.
pub open spec fn element_path_spec(
    e: crate::xml::XmlElemV,
    index: Option<int>,
    path: Seq<PathTokV>,
) -> Seq<PathTokV> {
    let name = crate::xml::qualified_name(e);
    if ends_star_of(path, name) {
        path
    } else {
        match index {
            Some(i) => path.push(PathTokV::Field(name)).push(PathTokV::Index(i)),
            None => path.push(PathTokV::Field(name)),
        }
    }
}

/// The plan an XML expectation compiles to.
pub open spec fn xml_plan_spec(e: crate::xml::XmlElemV, ctx: ContextV, fuel: nat) -> NodeV {
    act(
        "tee"@,
        seq![
            act("xml:parse"@, seq![rsv(body_path())]),
            cont(root_path(), seq![xml_element_spec(ctx, e, None, root_path(), fuel)]),
        ],
    )
}

/// The guarded subtree one expected element compiles to: the element must be
/// present, and then its attributes, text and children are each checked. A
/// `fuel` budget bounds the recursion; an exhausted budget compiles to an
/// unconditional error.
pub open spec fn xml_element_spec(
    ctx: ContextV,
    e: crate::xml::XmlElemV,
    index: Option<int>,
    path: Seq<PathTokV>,
    fuel: nat,
) -> NodeV
    decreases fuel, 4int, 0int,
{
    if fuel == 0 {
        act(
            "error"@,
            seq![val(NodeValV::Str("The expected XML document is nested too deeply"@))],
        )
    } else {
        let ep = element_path_spec(e, index, path);
        let attrs_part: Seq<NodeV> = if e.attrs.len() > 0 {
            seq![contl("attributes"@, xml_attr_items(ctx, e, ep))]
        } else {
            Seq::empty()
        };
        let item = cont(
            ep,
            attrs_part + seq![contl("#text"@, xml_text_items(ctx, e, ep))] + xml_children_items(
                ctx,
                e,
                ep,
                (fuel - 1) as nat,
            ),
        );
        act(
            "if"@,
            seq![
                act("check:exists"@, seq![rcur(ep)]),
                item,
                act(
                    "error"@,
                    seq![
                        val(
                            NodeValV::Str(
                                "Was expecting an XML element "@ + crate::path::pointer_text(ep)
                                    + " but it was missing"@,
                            ),
                        ),
                    ],
                ),
            ],
        )
    }
}

/// The attribute checks of one expected element.
pub open spec fn xml_attr_items(
    ctx: ContextV,
    e: crate::xml::XmlElemV,
    ep: Seq<PathTokV>,
) -> Seq<NodeV> {
    let keys = e.attrs.map(|i: int, a: (Seq<char>, Seq<char>)| a.0);
    attr_item_nodes(ctx, e.attrs, ep, e.attrs.len() as int) + seq![
        act(
            "expect:entries"@,
            seq![
                val(NodeValV::SList(keys)),
                act("xml:attributes"@, seq![rcur(ep)]),
                act(
                    "join"@,
                    seq![
                        val(
                            NodeValV::Str("The following expected attributes were missing: "@),
                        ),
                        act(
                            "join-with"@,
                            seq![
                                val(NodeValV::Str(", "@)),
                                splat(seq![act("apply"@, Seq::empty())]),
                            ],
                        ),
                    ],
                ),
            ],
        ),
    ] + (if !ctx.config.allow_unexpected_entries {
        seq![
            act(
                "expect:only-entries"@,
                seq![
                    val(NodeValV::SList(keys)),
                    act("xml:attributes"@, seq![rcur(ep)]),
                ],
            ),
        ]
    } else {
        Seq::empty()
    })
}

/// The per-attribute check containers.
pub open spec fn attr_item_nodes(
    ctx: ContextV,
    attrs: Seq<(Seq<char>, Seq<char>)>,
    ep: Seq<PathTokV>,
    k: int,
) -> Seq<NodeV>
    decreases k,
{
    if k <= 0 || k > attrs.len() {
        Seq::empty()
    } else {
        attr_item_nodes(ctx, attrs, ep, k - 1).push(
            attr_item_node(ctx, attrs[k - 1].0, attrs[k - 1].1, ep),
        )
    }
}

/// One attribute's check container.
pub open spec fn attr_item_node(
    ctx: ContextV,
    key: Seq<char>,
    value: Seq<char>,
    ep: Seq<PathTokV>,
) -> NodeV {
    let p = ep.push(PathTokV::Field("@"@ + key));
    let matchers = select_spec(ctx, p);
    if defined_spec(ctx, p) && matchers.rules.len() > 0 {
        cont(
            p,
            seq![
                ann(
                    "@"@ + key + " "@ + rules_description(
                        matchers.rules,
                        matchers.rule_logic,
                        true,
                    ),
                ),
                act(
                    "if"@,
                    seq![
                        act("check:exists"@, seq![rcur(p)]),
                        build_rule_spec(
                            matchers,
                            val(NodeValV::Str(value)),
                            act("xml:value"@, seq![rcur(p)]),
                            false,
                        ),
                    ],
                ),
            ],
        )
    } else {
        cont(
            p,
            seq![
                ann("@"@ + key + "="@ + crate::value::quoted(value)),
                act(
                    "if"@,
                    seq![
                        act("check:exists"@, seq![rcur(p)]),
                        act(
                            "match:equality"@,
                            seq![
                                val(NodeValV::Str(value)),
                                act("xml:value"@, seq![rcur(p)]),
                                val(NodeValV::Null),
                            ],
                        ),
                    ],
                ),
            ],
        )
    }
}

/// The text check of one expected element.
pub open spec fn xml_text_items(
    ctx: ContextV,
    e: crate::xml::XmlElemV,
    ep: Seq<PathTokV>,
) -> Seq<NodeV> {
    let p = ep.push(PathTokV::Field("#text"@));
    let matchers = drop_type_rules(select_spec(ctx, p));
    let texts = crate::xml::text_children(e.children);
    let joined = crate::xml::concat_texts(texts);
    if defined_spec(ctx, p) && matchers.rules.len() > 0 {
        seq![
            ann(
                last_field_text(p) + " "@ + rules_description(
                    matchers.rules,
                    matchers.rule_logic,
                    false,
                ),
            ),
            build_rule_spec(
                matchers,
                val(NodeValV::Str(joined)),
                act("to-string"@, seq![rcur(p)]),
                false,
            ),
        ]
    } else if texts.len() == 0 {
        seq![act("expect:empty"@, seq![act("to-string"@, seq![rcur(p)])])]
    } else {
        seq![
            act(
                "match:equality"@,
                seq![
                    val(NodeValV::Str(joined)),
                    act("to-string"@, seq![rcur(p)]),
                    val(NodeValV::Null),
                ],
            ),
        ]
    }
}

/// The child-element checks of one expected element: same-named children are
/// grouped; each group is either counted and checked per index, or, under a
/// size-bounded type rule, checked once as a group and for-each'd from its
/// first element.
pub open spec fn xml_children_items(
    ctx: ContextV,
    e: crate::xml::XmlElemV,
    ep: Seq<PathTokV>,
    fuel: nat,
) -> Seq<NodeV>
    decreases fuel, 3int, 0int,
{
    let kids = crate::xml::elem_children(e.children);
    let groups = crate::xml::group_spec(kids);
    let head: Seq<NodeV> = if !ctx.config.allow_unexpected_entries {
        if kids.len() == 0 {
            seq![act("expect:empty"@, seq![rcur(ep)])]
        } else {
            seq![
                act(
                    "expect:only-entries"@,
                    seq![
                        val(
                            NodeValV::SList(
                                groups.map(|i: int, g: (Seq<char>, Seq<crate::xml::XmlElemV>)| g.0),
                            ),
                        ),
                        rcur(ep),
                    ],
                ),
            ]
        }
    } else {
        Seq::empty()
    };
    head + group_items(ctx, groups, ep, groups.len() as int, fuel)
}

/// The checks of the child groups up to `k`.
pub open spec fn group_items(
    ctx: ContextV,
    groups: Seq<(Seq<char>, Seq<crate::xml::XmlElemV>)>,
    ep: Seq<PathTokV>,
    k: int,
    fuel: nat,
) -> Seq<NodeV>
    decreases fuel, 2int, k,
{
    if k <= 0 || k > groups.len() {
        Seq::empty()
    } else {
        group_items(ctx, groups, ep, k - 1, fuel) + one_group_items(
            ctx,
            groups[k - 1].0,
            groups[k - 1].1,
            ep,
            fuel,
        )
    }
}

/// The checks of one same-named child group.
pub open spec fn one_group_items(
    ctx: ContextV,
    name: Seq<char>,
    elems: Seq<crate::xml::XmlElemV>,
    ep: Seq<PathTokV>,
    fuel: nat,
) -> Seq<NodeV>
    decreases fuel, 1int, 0int,
{
    let p = ep.push(PathTokV::Field(name));
    if fuel == 0 {
        Seq::empty()
    } else if !type_defined_spec(ctx, p) {
        let count = act(
            "expect:count"@,
            seq![
                val(NodeValV::UInt(elems.len() as int)),
                rcur(p),
                act(
                    "join"@,
                    seq![
                        val(
                            NodeValV::Str(
                                "Expected "@ + crate::strutil::dec_seq(elems.len()) + " <"@
                                    + name + "> child element"@ + (if elems.len() > 1 {
                                    "s"@
                                } else {
                                    ""@
                                }) + " but there were "@,
                            ),
                        ),
                        act("length"@, seq![rcur(p)]),
                    ],
                ),
            ],
        );
        seq![count] + group_elems(ctx, elems, ep, elems.len() as int, fuel)
    } else {
        let rules = keep_length_rules(select_spec(ctx, p));
        let head: Seq<NodeV> = if rules.rules.len() > 0 && elems.len() > 0 {
            seq![
                ann(
                    last_field_text(ep) + " "@ + rules_description(
                        rules.rules,
                        rules.rule_logic,
                        true,
                    ),
                ),
                build_rule_spec(
                    rules,
                    val(NodeValV::Xml(crate::xml::XmlValV::Element(elems[0]))),
                    rcur(ep),
                    true,
                ),
            ]
        } else {
            Seq::empty()
        };
        if elems.len() > 0 {
            head + seq![
                act(
                    "for-each"@,
                    seq![
                        rcur(p),
                        xml_element_spec(
                            ctx,
                            elems[0],
                            Some(0),
                            p.push(PathTokV::StarIndex),
                            (fuel - 1) as nat,
                        ),
                    ],
                ),
            ]
        } else {
            head
        }
    }
}

/// The per-index element checks of one literal child group.
pub open spec fn group_elems(
    ctx: ContextV,
    elems: Seq<crate::xml::XmlElemV>,
    ep: Seq<PathTokV>,
    k: int,
    fuel: nat,
) -> Seq<NodeV>
    decreases fuel, 0int, k,
{
    if k <= 0 || k > elems.len() {
        Seq::empty()
    } else if fuel == 0 {
        Seq::empty()
    } else {
        group_elems(ctx, elems, ep, k - 1, fuel).push(
            xml_element_spec(ctx, elems[k - 1], Some(k - 1), ep, (fuel - 1) as nat),
        )
    }
}


/// An index option, in specification form.
pub open spec fn opt_int(i: Option<usize>) -> Option<int> {
    match i {
        Some(v) => Some(v as int),
        None => None,
    }
}

/// Restricts or trims a rule list: keeps only size-bounded type rules, or
/// drops the whole type family.
#[verifier::loop_isolation(false)]
fn filter_rules(rl: &RuleList, keep_length: bool) -> (r: RuleList)
    ensures
        r@ =~~= (if keep_length {
            keep_length_rules(rl@)
        } else {
            drop_type_rules(rl@)
        }),
{
    let mut rules: Vec<crate::rules::MatchingRule> = Vec::new();
    let ghost rv = rl@.rules;
    let mut i: usize = 0;
    proof {
        reveal_with_fuel(Seq::filter, 2);
        assert(rv.take(0) =~= Seq::<RuleV>::empty());
        assert(rv.take(0).filter(|r2: RuleV| crate::context::is_type_rule(r2)) =~= Seq::<
            RuleV,
        >::empty());
        assert(rules@.map(|k: int, m: crate::rules::MatchingRule| m@) =~= rv.take(0).filter(
            |r2: RuleV| !crate::context::is_type_rule(r2),
        ));
        assert(rules@.map(|k: int, m: crate::rules::MatchingRule| m@) =~= rv.take(0).filter(
            |r2: RuleV| r2 is MinType || r2 is MaxType || r2 is MinMaxType,
        ));
    }
    while i < rl.rules.len()
        invariant
            i <= rl.rules@.len(),
            rv == rl@.rules,
            keep_length ==> rules@.map(|k: int, m: crate::rules::MatchingRule| m@) =~= rv.take(
                i as int,
            ).filter(|r2: RuleV| r2 is MinType || r2 is MaxType || r2 is MinMaxType),
            !keep_length ==> rules@.map(|k: int, m: crate::rules::MatchingRule| m@) =~= rv.take(
                i as int,
            ).filter(|r2: RuleV| !crate::context::is_type_rule(r2)),
        decreases rl.rules@.len() - i,
    {
        let keep = if keep_length {
            rl.rules[i].is_length_type_matcher()
        } else {
            !rl.rules[i].is_type_matcher()
        };
        if keep {
            rules.push(rl.rules[i].clone());
        }
        proof {
            reveal_with_fuel(Seq::filter, 2);
            assert(rv.take(i + 1).drop_last() =~= rv.take(i as int));
            assert(rv.take(i + 1).last() == rv[i as int]);
            if keep_length {
                assert(rules@.map(|k: int, m: crate::rules::MatchingRule| m@) =~= rv.take(
                    i + 1,
                ).filter(|r2: RuleV| r2 is MinType || r2 is MaxType || r2 is MinMaxType));
            } else {
                assert(rules@.map(|k: int, m: crate::rules::MatchingRule| m@) =~= rv.take(
                    i + 1,
                ).filter(|r2: RuleV| !crate::context::is_type_rule(r2)));
            }
        }
        i = i + 1;
    }
    proof {
        assert(rv.take(rl.rules@.len() as int) =~= rv);
    }
    RuleList { rules, rule_logic: rl.rule_logic, cascaded: rl.cascaded }
}

/// Plan builder for XML bodies.
#[derive(Debug, PartialEq)]
pub struct XMLPlanBuilder;

impl XMLPlanBuilder {
    /// Create a new instance.
    pub fn new() -> (r: Self) {
        XMLPlanBuilder
    }

    /// If this builder supports the given content type.
    pub fn supports_type(&self, content_type: &str) -> (r: bool)
        ensures
            r == is_xml_type(content_type@),
    {
        crate::matching::str_contains(content_type, "xml")
    }

    /// Build the plan for the expected body: parse it once, then compile the
    /// element checks.
    pub fn build_plan(&self, content: &[u8], context: &PlanMatchingContext) -> (r: Result<
        ExecutionPlanNode,
        String,
    >)
        ensures
            match r {
                Ok(n) => parsed_xml(content@) matches Ok(e) && n@ == xml_plan_spec(
                    e,
                    context@,
                    u64::MAX as nat,
                ),
                Err(m) => parsed_xml(content@) matches Err(e) && m@ == e,
            },
    {
        match crate::foreign::parse_xml(content) {
            Err(m) => Err(m),
            Ok(root_el) => {
                let bp = DocPath::root().join_field("body");
                proof {
                    assert(bp@ == body_path());
                }
                let mut parse = ExecutionPlanNode::action("xml:parse");
                parse.add(ExecutionPlanNode::resolve_value(&bp));
                proof {
                    assert(parse@.children =~~= seq![rsv(body_path())]);
                    assert(parse@ =~~= act("xml:parse"@, seq![rsv(body_path())]));
                }
                let root = DocPath::root();
                proof {
                    assert(root@ == root_path());
                }
                let elem = xml_element_exec(context, &root_el, None, &root, u64::MAX);
                let mut root_node = ExecutionPlanNode::container(&root);
                root_node.add(elem);
                proof {
                    assert(root_node@.children =~~= seq![
                        xml_element_spec(context@, root_el@, None, root_path(), u64::MAX as nat),
                    ]);
                    assert(root_node@ =~~= cont(
                        root_path(),
                        seq![
                            xml_element_spec(
                                context@,
                                root_el@,
                                None,
                                root_path(),
                                u64::MAX as nat,
                            ),
                        ],
                    ));
                }
                let mut node = ExecutionPlanNode::action("tee");
                node.add(parse);
                node.add(root_node);
                proof {
                    assert(node@.children =~~= xml_plan_spec(
                        root_el@,
                        context@,
                        u64::MAX as nat,
                    ).children);
                    assert(node@ =~~= xml_plan_spec(root_el@, context@, u64::MAX as nat));
                }
                Ok(node)
            },
        }
    }
}

/// The guarded subtree one expected element compiles to.
#[verifier::loop_isolation(false)]
#[verifier::rlimit(100)]
fn xml_element_exec(
    context: &PlanMatchingContext,
    e: &XmlElement,
    index: Option<usize>,
    path: &DocPath,
    fuel: u64,
) -> (r: ExecutionPlanNode)
    ensures
        r@ =~~= xml_element_spec(context@, e@, opt_int(index), path@, fuel as nat),
    decreases fuel, 4int, 0int,
{
    broadcast use crate::plan::lemma_pn_seq;

    if fuel == 0 {
        let mut node = ExecutionPlanNode::action("error");
        node.add(ExecutionPlanNode::value_node(NodeValue::STRING(String::from_str(
            "The expected XML document is nested too deeply",
        ))));
        proof {
            assert(node@.children =~~= seq![
                val(NodeValV::Str("The expected XML document is nested too deeply"@)),
            ]);
        }
        return node;
    }
    let name = crate::xml::name(e);
    let ep: DocPath = if path.ends_with_star_index_of(name.as_str()) {
        path.clone()
    } else {
        match index {
            Some(i) => path.join_field(name.as_str()).join_index(i),
            None => path.join_field(name.as_str()),
        }
    };
    proof {
        assert(ep@ == element_path_spec(e@, opt_int(index), path@));
    }
    let mut item = ExecutionPlanNode::container(&ep);
    if e.attrs.len() > 0 {
        let attr_items = xml_attrs_exec(context, e, &ep);
        let mut attrs_node = ExecutionPlanNode::container_label("attributes");
        add_all(&mut attrs_node, attr_items);
        proof {
            assert(attrs_node@ =~~= contl("attributes"@, xml_attr_items(context@, e@, ep@)));
        }
        item.add(attrs_node);
    }
    let text_items = xml_text_exec(context, e, &ep);
    let mut text_node = ExecutionPlanNode::container_label("#text");
    add_all(&mut text_node, text_items);
    proof {
        assert(text_node@ =~~= contl("#text"@, xml_text_items(context@, e@, ep@)));
    }
    item.add(text_node);
    let child_items = xml_children_exec(context, e, &ep, fuel - 1);
    add_all(&mut item, child_items);
    proof {
        if e@.attrs.len() > 0 {
            assert(item@.children =~~= seq![
                contl("attributes"@, xml_attr_items(context@, e@, ep@)),
                contl("#text"@, xml_text_items(context@, e@, ep@)),
            ] + xml_children_items(context@, e@, ep@, (fuel - 1) as nat));
        } else {
            assert(item@.children =~~= seq![
                contl("#text"@, xml_text_items(context@, e@, ep@)),
            ] + xml_children_items(context@, e@, ep@, (fuel - 1) as nat));
        }
    }
    let mut check = ExecutionPlanNode::action("check:exists");
    check.add(ExecutionPlanNode::resolve_current_value(&ep));
    let mut msg: Vec<char> = Vec::new();
    crate::strutil::push_str(&mut msg, "Was expecting an XML element ");
    let ptr = ep.as_json_pointer();
    crate::strutil::push_str(&mut msg, ptr.as_str());
    crate::strutil::push_str(&mut msg, " but it was missing");
    proof {
        assert(msg@ =~= "Was expecting an XML element "@ + crate::path::pointer_text(ep@)
            + " but it was missing"@);
    }
    let mut err = ExecutionPlanNode::action("error");
    err.add(ExecutionPlanNode::value_node(NodeValue::STRING(
        crate::strutil::chars_to_string(&msg),
    )));
    proof {
        assert(check@ =~~= act("check:exists"@, seq![rcur(ep@)]));
        assert(err@.children =~~= seq![
            val(
                NodeValV::Str(
                    "Was expecting an XML element "@ + crate::path::pointer_text(ep@)
                        + " but it was missing"@,
                ),
            ),
        ]);
        assert(item@.node_type == PlanTypeV::Container(ContainerLabelV::Path(ep@)));
        assert(item@.result is None);
        assert(item@.children =~~= (if e@.attrs.len() > 0 {
            seq![contl("attributes"@, xml_attr_items(context@, e@, ep@))]
        } else {
            Seq::<NodeV>::empty()
        }) + seq![contl("#text"@, xml_text_items(context@, e@, ep@))] + xml_children_items(
            context@,
            e@,
            ep@,
            (fuel - 1) as nat,
        ));
        assert(item@ =~~= cont(
            ep@,
            (if e@.attrs.len() > 0 {
                seq![contl("attributes"@, xml_attr_items(context@, e@, ep@))]
            } else {
                Seq::<NodeV>::empty()
            }) + seq![contl("#text"@, xml_text_items(context@, e@, ep@))]
                + xml_children_items(context@, e@, ep@, (fuel - 1) as nat),
        ));
    }
    let mut node = ExecutionPlanNode::action("if");
    node.add(check);
    node.add(item);
    node.add(err);
    proof {
        assert(node@.children =~~= xml_element_spec(
            context@,
            e@,
            opt_int(index),
            path@,
            fuel as nat,
        ).children);
        assert(node@ =~~= xml_element_spec(context@, e@, opt_int(index), path@, fuel as nat));
    }
    node
}

/// The attribute checks of one expected element.
#[verifier::loop_isolation(false)]
#[verifier::rlimit(100)]
fn xml_attrs_exec(
    context: &PlanMatchingContext,
    e: &XmlElement,
    ep: &DocPath,
) -> (r: Vec<ExecutionPlanNode>)
    ensures
        crate::plan::pn_seq(r@) =~~= xml_attr_items(context@, e@, ep@),
{
    broadcast use crate::plan::lemma_pn_seq;

    let mut out: Vec<ExecutionPlanNode> = Vec::new();
    let ghost av = e@.attrs;
    let mut i: usize = 0;
    proof {
        assert(crate::plan::pn_seq(out@) =~~= attr_item_nodes(context@, av, ep@, 0));
    }
    while i < e.attrs.len()
        invariant
            i <= e.attrs@.len(),
            av == e@.attrs,
            av.len() == e.attrs@.len(),
            crate::plan::pn_seq(out@) =~~= attr_item_nodes(context@, av, ep@, i as int),
        decreases e.attrs@.len() - i,
    {
        let key = e.attrs[i].0.clone();
        let value = e.attrs[i].1.clone();
        let node = one_attr_exec(context, &key, &value, ep);
        let ghost nv2 = node@;
        out = crate::interpreter::push_node(out, node);
        proof {
            assert(av[i as int] == (e.attrs@[i as int].0@, e.attrs@[i as int].1@));
            assert(nv2 =~~= attr_item_node(context@, av[i as int].0, av[i as int].1, ep@));
            assert(crate::plan::pn_seq(out@) =~~= attr_item_nodes(
                context@,
                av,
                ep@,
                i + 1,
            ));
        }
        i = i + 1;
    }
    let mut keys: Vec<String> = Vec::new();
    let ghost keysv = av.map(|k: int, a: (Seq<char>, Seq<char>)| a.0);
    let mut k: usize = 0;
    proof {
        assert(crate::value::sl_view(keys@) =~= keysv.take(0));
    }
    while k < e.attrs.len()
        invariant
            k <= e.attrs@.len(),
            av == e@.attrs,
            keysv == av.map(|m: int, a: (Seq<char>, Seq<char>)| a.0),
            keysv.len() == e.attrs@.len(),
            crate::value::sl_view(keys@) =~= keysv.take(k as int),
        decreases e.attrs@.len() - k,
    {
        keys.push(e.attrs[k].0.clone());
        proof {
            assert(crate::value::sl_view(keys@) =~= keysv.take(k + 1));
        }
        k = k + 1;
    }
    proof {
        assert(keysv.take(e.attrs@.len() as int) =~= keysv);
    }
    let keys2 = crate::value::clone_slist(&keys);
    let mut joiner = ExecutionPlanNode::action("join-with");
    joiner.add(ExecutionPlanNode::value_node(NodeValue::STRING(String::from_str(", "))));
    let mut sp = ExecutionPlanNode::splat();
    sp.add(ExecutionPlanNode::action("apply"));
    joiner.add(sp);
    proof {
        assert(sp@ =~~= splat(seq![act("apply"@, Seq::empty())]));
        assert(joiner@.children =~~= seq![
            val(NodeValV::Str(", "@)),
            splat(seq![act("apply"@, Seq::empty())]),
        ]);
        assert(joiner@ =~~= act(
            "join-with"@,
            seq![
                val(NodeValV::Str(", "@)),
                splat(seq![act("apply"@, Seq::empty())]),
            ],
        ));
    }
    let mut join = ExecutionPlanNode::action("join");
    join.add(ExecutionPlanNode::value_node(NodeValue::STRING(String::from_str(
        "The following expected attributes were missing: ",
    ))));
    join.add(joiner);
    proof {
        assert(join@.children =~~= seq![
            val(NodeValV::Str("The following expected attributes were missing: "@)),
            act(
                "join-with"@,
                seq![
                    val(NodeValV::Str(", "@)),
                    splat(seq![act("apply"@, Seq::empty())]),
                ],
            ),
        ]);
        assert(join@ =~~= act(
            "join"@,
            seq![
                val(NodeValV::Str("The following expected attributes were missing: "@)),
                act(
                    "join-with"@,
                    seq![
                        val(NodeValV::Str(", "@)),
                        splat(seq![act("apply"@, Seq::empty())]),
                    ],
                ),
            ],
        ));
    }
    let mut xa = ExecutionPlanNode::action("xml:attributes");
    xa.add(ExecutionPlanNode::resolve_current_value(ep));
    proof {
        assert(xa@ =~~= act("xml:attributes"@, seq![rcur(ep@)]));
    }
    let mut entries = ExecutionPlanNode::action("expect:entries");
    entries.add(ExecutionPlanNode::value_node(NodeValue::SLIST(keys)));
    entries.add(xa);
    entries.add(join);
    let ghost ev2 = entries@;
    out = crate::interpreter::push_node(out, entries);
    proof {
        assert(ev2.children =~~= seq![
            val(NodeValV::SList(keysv)),
            act("xml:attributes"@, seq![rcur(ep@)]),
            act(
                "join"@,
                seq![
                    val(NodeValV::Str("The following expected attributes were missing: "@)),
                    act(
                        "join-with"@,
                        seq![
                            val(NodeValV::Str(", "@)),
                            splat(seq![act("apply"@, Seq::empty())]),
                        ],
                    ),
                ],
            ),
        ]);
        assert(crate::plan::pn_seq(out@) =~~= attr_item_nodes(
            context@,
            av,
            ep@,
            av.len() as int,
        ).push(ev2));
    }
    if !context.config.allow_unexpected_entries {
        let mut xa2 = ExecutionPlanNode::action("xml:attributes");
        xa2.add(ExecutionPlanNode::resolve_current_value(ep));
        proof {
            assert(xa2@ =~~= act("xml:attributes"@, seq![rcur(ep@)]));
        }
        let mut only = ExecutionPlanNode::action("expect:only-entries");
        only.add(ExecutionPlanNode::value_node(NodeValue::SLIST(keys2)));
        only.add(xa2);
        let ghost ov2 = only@;
        out = crate::interpreter::push_node(out, only);
        proof {
            assert(ov2.children =~~= seq![
                val(NodeValV::SList(keysv)),
                act("xml:attributes"@, seq![rcur(ep@)]),
            ]);
            assert(crate::plan::pn_seq(out@) =~~= xml_attr_items(context@, e@, ep@));
        }
    } else {
        proof {
            assert(crate::plan::pn_seq(out@) =~~= xml_attr_items(context@, e@, ep@));
        }
    }
    out
}

/// One attribute's check container.
#[verifier::rlimit(100)]
fn one_attr_exec(
    context: &PlanMatchingContext,
    key: &String,
    value: &String,
    ep: &DocPath,
) -> (r: ExecutionPlanNode)
    ensures
        r@ =~~= attr_item_node(context@, key@, value@, ep@),
{
    let mut fname: Vec<char> = Vec::new();
    crate::strutil::push_str(&mut fname, "@");
    crate::strutil::push_str(&mut fname, key.as_str());
    let fstring = crate::strutil::chars_to_string(&fname);
    let p = ep.join_field(fstring.as_str());
    proof {
        assert(fstring@ =~= "@"@ + key@);
        assert(p@ == ep@.push(PathTokV::Field("@"@ + key@)));
    }
    let mut check = ExecutionPlanNode::action("check:exists");
    check.add(ExecutionPlanNode::resolve_current_value(&p));
    let defined = context.matcher_is_defined(&p);
    let matchers = context.select_best_matcher(&p);
    let use_rules = defined && matchers.rules.len() > 0;
    let mut node = ExecutionPlanNode::container(&p);
    if use_rules {
        proof {
            assert(matchers@ =~~= select_spec(context@, p@));
        }
        let mut text: Vec<char> = Vec::new();
        crate::strutil::push_str(&mut text, "@");
        crate::strutil::push_str(&mut text, key.as_str());
        crate::strutil::push_str(&mut text, " ");
        let desc = matchers.generate_description(true);
        crate::strutil::push_str(&mut text, desc.as_str());
        proof {
            assert(text@ =~= "@"@ + key@ + " "@ + rules_description(
                select_spec(context@, p@).rules,
                select_spec(context@, p@).rule_logic,
                true,
            ));
        }
        let ts = crate::strutil::chars_to_string(&text);
        node.add(ExecutionPlanNode::annotation(ts.as_str()));
        let mut xv = ExecutionPlanNode::action("xml:value");
        xv.add(ExecutionPlanNode::resolve_current_value(&p));
        proof {
            assert(xv@ =~~= act("xml:value"@, seq![rcur(p@)]));
        }
        let rn = build_rule_node(
            &matchers,
            ExecutionPlanNode::value_node(NodeValue::STRING(value.clone())),
            xv,
            false,
        );
        let mut pc = ExecutionPlanNode::action("if");
        pc.add(check);
        pc.add(rn);
        proof {
            assert(pc@.children =~~= seq![
                act("check:exists"@, seq![rcur(p@)]),
                build_rule_spec(
                    select_spec(context@, p@),
                    val(NodeValV::Str(value@)),
                    act("xml:value"@, seq![rcur(p@)]),
                    false,
                ),
            ]);
        }
        node.add(pc);
        proof {
            assert(node@.children =~~= attr_item_node(context@, key@, value@, ep@).children);
            assert(node@ =~~= attr_item_node(context@, key@, value@, ep@));
        }
    } else {
        let mut text: Vec<char> = Vec::new();
        crate::strutil::push_str(&mut text, "@");
        crate::strutil::push_str(&mut text, key.as_str());
        crate::strutil::push_str(&mut text, "=");
        crate::value::push_quoted(&mut text, value.as_str());
        proof {
            assert(text@ =~= "@"@ + key@ + "="@ + crate::value::quoted(value@));
        }
        let ts = crate::strutil::chars_to_string(&text);
        node.add(ExecutionPlanNode::annotation(ts.as_str()));
        let mut xv = ExecutionPlanNode::action("xml:value");
        xv.add(ExecutionPlanNode::resolve_current_value(&p));
        proof {
            assert(xv@ =~~= act("xml:value"@, seq![rcur(p@)]));
        }
        let mut eq = ExecutionPlanNode::action("match:equality");
        eq.add(ExecutionPlanNode::value_node(NodeValue::STRING(value.clone())));
        eq.add(xv);
        eq.add(ExecutionPlanNode::value_node(NodeValue::NULL));
        proof {
            assert(eq@.children =~~= seq![
                val(NodeValV::Str(value@)),
                act("xml:value"@, seq![rcur(p@)]),
                val(NodeValV::Null),
            ]);
        }
        let mut pc = ExecutionPlanNode::action("if");
        pc.add(check);
        pc.add(eq);
        proof {
            assert(pc@.children =~~= seq![
                act("check:exists"@, seq![rcur(p@)]),
                act(
                    "match:equality"@,
                    seq![
                        val(NodeValV::Str(value@)),
                        act("xml:value"@, seq![rcur(p@)]),
                        val(NodeValV::Null),
                    ],
                ),
            ]);
        }
        node.add(pc);
        proof {
            assert(node@.children =~~= attr_item_node(context@, key@, value@, ep@).children);
            assert(node@ =~~= attr_item_node(context@, key@, value@, ep@));
        }
    }
    node
}

/// The text check of one expected element.
#[verifier::loop_isolation(false)]
#[verifier::rlimit(100)]
fn xml_text_exec(
    context: &PlanMatchingContext,
    e: &XmlElement,
    ep: &DocPath,
) -> (r: Vec<ExecutionPlanNode>)
    ensures
        crate::plan::pn_seq(r@) =~~= xml_text_items(context@, e@, ep@),
{
    broadcast use crate::plan::lemma_pn_seq, crate::xml::lemma_xn_seq;

    let p = ep.join_field("#text");
    proof {
        assert(p@ == ep@.push(PathTokV::Field("#text"@)));
    }
    let texts = crate::xml::text_nodes(e);
    let ghost tv = crate::xml::text_children(e@.children);
    let mut joined: Vec<char> = Vec::new();
    let mut k: usize = 0;
    proof {
        assert(crate::xml::concat_texts(tv.take(0)) =~= Seq::<char>::empty());
        assert(joined@ =~= crate::xml::concat_texts(tv.take(0)));
    }
    while k < texts.len()
        invariant
            k <= texts.len(),
            tv == crate::xml::text_children(e@.children),
            tv =~= texts@.map(|m: int, t: String| t@),
            joined@ == crate::xml::concat_texts(tv.take(k as int)),
        decreases texts.len() - k,
    {
        crate::strutil::push_str(&mut joined, texts[k].as_str());
        proof {
            assert(tv.take(k + 1).drop_last() =~= tv.take(k as int));
            assert(tv.take(k + 1).last() == tv[k as int]);
            assert(joined@ =~= crate::xml::concat_texts(tv.take(k + 1)));
        }
        k = k + 1;
    }
    proof {
        assert(tv.take(texts@.len() as int) =~= tv);
    }
    let joined_s = crate::strutil::chars_to_string(&joined);
    let defined = context.matcher_is_defined(&p);
    let selected = context.select_best_matcher(&p);
    let matchers = filter_rules(&selected, false);
    let mut out: Vec<ExecutionPlanNode> = Vec::new();
    let mut ts = ExecutionPlanNode::action("to-string");
    ts.add(ExecutionPlanNode::resolve_current_value(&p));
    proof {
        assert(ts@ =~~= act("to-string"@, seq![rcur(p@)]));
    }
    if defined && matchers.rules.len() > 0 {
        proof {
            assert(selected@ =~~= select_spec(context@, p@));
            assert(matchers@ =~~= drop_type_rules(select_spec(context@, p@)));
        }
        let mut text: Vec<char> = Vec::new();
        match p.last_field() {
            Some(f) => {
                let f2 = f.clone();
                crate::strutil::push_str(&mut text, f2.as_str());
            },
            None => (),
        }
        crate::strutil::push_str(&mut text, " ");
        let desc = matchers.generate_description(false);
        crate::strutil::push_str(&mut text, desc.as_str());
        proof {
            assert(text@ =~= last_field_text(p@) + " "@ + rules_description(
                matchers@.rules,
                matchers@.rule_logic,
                false,
            ));
        }
        let anns = crate::strutil::chars_to_string(&text);
        let ann_node = ExecutionPlanNode::annotation(anns.as_str());
        let rn = build_rule_node(
            &matchers,
            ExecutionPlanNode::value_node(NodeValue::STRING(joined_s)),
            ts,
            false,
        );
        let ghost av2 = ann_node@;
        let ghost rv2 = rn@;
        out.push(ann_node);
        out.push(rn);
        proof {
            assert(crate::plan::pn_seq(out@) =~= seq![av2, rv2]);
            assert(crate::plan::pn_seq(out@) =~~= xml_text_items(context@, e@, ep@));
        }
    } else if texts.len() == 0 {
        let mut n = ExecutionPlanNode::action("expect:empty");
        n.add(ts);
        let ghost nv2 = n@;
        out.push(n);
        proof {
            assert(tv.len() == 0);
            assert(crate::plan::pn_seq(out@) =~= seq![nv2]);
            assert(crate::plan::pn_seq(out@) =~~= xml_text_items(context@, e@, ep@));
        }
    } else {
        let mut n = ExecutionPlanNode::action("match:equality");
        n.add(ExecutionPlanNode::value_node(NodeValue::STRING(joined_s)));
        n.add(ts);
        n.add(ExecutionPlanNode::value_node(NodeValue::NULL));
        let ghost nv2 = n@;
        out.push(n);
        proof {
            assert(tv.len() == texts@.len());
            assert(nv2.children =~~= seq![
                val(NodeValV::Str(crate::xml::concat_texts(tv))),
                act("to-string"@, seq![rcur(p@)]),
                val(NodeValV::Null),
            ]);
            assert(crate::plan::pn_seq(out@) =~= seq![nv2]);
            assert(crate::plan::pn_seq(out@) =~~= xml_text_items(context@, e@, ep@));
        }
    }
    out
}

/// The child-element checks of one expected element.
#[verifier::loop_isolation(false)]
#[verifier::rlimit(100)]
fn xml_children_exec(
    context: &PlanMatchingContext,
    e: &XmlElement,
    ep: &DocPath,
    fuel: u64,
) -> (r: Vec<ExecutionPlanNode>)
    ensures
        crate::plan::pn_seq(r@) =~~= xml_children_items(context@, e@, ep@, fuel as nat),
    decreases fuel, 3int, 0int,
{
    broadcast use crate::plan::lemma_pn_seq;

    let groups = crate::xml::group_children(e);
    let ghost gv = crate::xml::group_spec(crate::xml::elem_children(e@.children));
    proof {
        assert(groups@.map(
            |i: int, g: crate::xml::ChildGroup| (g.name@, g.elements@.map(
                |k: int, c: XmlElement| c@,
            )),
        ) == gv);
    }
    let mut out: Vec<ExecutionPlanNode> = Vec::new();
    if !context.config.allow_unexpected_entries {
        if !crate::xml::has_child_elements(e) {
            let mut n = ExecutionPlanNode::action("expect:empty");
            n.add(ExecutionPlanNode::resolve_current_value(ep));
            let ghost nv2 = n@;
            out.push(n);
            proof {
                assert(crate::plan::pn_seq(out@) =~= seq![nv2]);
                assert(nv2 =~~= act("expect:empty"@, seq![rcur(ep@)]));
            }
        } else {
            let mut names: Vec<String> = Vec::new();
            let ghost namesv = gv.map(
                |i: int, g: (Seq<char>, Seq<crate::xml::XmlElemV>)| g.0,
            );
            let mut k: usize = 0;
            proof {
                assert(crate::value::sl_view(names@) =~= namesv.take(0));
            }
            while k < groups.len()
                invariant
                    k <= groups@.len(),
                    gv == crate::xml::group_spec(crate::xml::elem_children(e@.children)),
                    groups@.map(
                        |i: int, g: crate::xml::ChildGroup| (g.name@, g.elements@.map(
                            |m: int, c: XmlElement| c@,
                        )),
                    ) == gv,
                    namesv == gv.map(
                        |i: int, g: (Seq<char>, Seq<crate::xml::XmlElemV>)| g.0,
                    ),
                    namesv.len() == groups@.len(),
                    crate::value::sl_view(names@) =~= namesv.take(k as int),
                decreases groups@.len() - k,
            {
                names.push(groups[k].name.clone());
                proof {
                    assert(crate::value::sl_view(names@) =~= namesv.take(k + 1));
                }
                k = k + 1;
            }
            proof {
                assert(namesv.take(groups@.len() as int) =~= namesv);
            }
            let mut n = ExecutionPlanNode::action("expect:only-entries");
            n.add(ExecutionPlanNode::value_node(NodeValue::SLIST(names)));
            n.add(ExecutionPlanNode::resolve_current_value(ep));
            let ghost nv2 = n@;
            out.push(n);
            proof {
                assert(crate::plan::pn_seq(out@) =~= seq![nv2]);
                assert(crate::xml::elem_children(e@.children).len() > 0);
                assert(nv2.children =~~= seq![val(NodeValV::SList(namesv)), rcur(ep@)]);
                assert(nv2 =~~= act(
                    "expect:only-entries"@,
                    seq![val(NodeValV::SList(namesv)), rcur(ep@)],
                ));
            }
        }
    }
    let ghost head = crate::plan::pn_seq(out@);
    let mut gi: usize = 0;
    let mut tail: Vec<ExecutionPlanNode> = Vec::new();
    proof {
        assert(crate::plan::pn_seq(tail@) =~~= group_items(context@, gv, ep@, 0, fuel as nat));
    }
    while gi < groups.len()
        invariant
            gi <= groups@.len(),
            gv == crate::xml::group_spec(crate::xml::elem_children(e@.children)),
            groups@.map(
                |i: int, g: crate::xml::ChildGroup| (g.name@, g.elements@.map(
                    |m: int, c: XmlElement| c@,
                )),
            ) == gv,
            gv.len() == groups@.len(),
            crate::plan::pn_seq(tail@) =~~= group_items(
                context@,
                gv,
                ep@,
                gi as int,
                fuel as nat,
            ),
        decreases groups@.len() - gi,
    {
        let ones = one_group_exec(context, &groups[gi].name, &groups[gi].elements, ep, fuel);
        proof {
            assert(gv[gi as int] == (groups@[gi as int].name@, groups@[gi as int].elements@.map(
                |m: int, c: XmlElement| c@,
            )));
        }
        tail = crate::interpreter::concat_nodes(tail, ones);
        proof {
            assert(crate::plan::pn_seq(tail@) =~~= group_items(
                context@,
                gv,
                ep@,
                gi + 1,
                fuel as nat,
            ));
        }
        gi = gi + 1;
    }
    out = crate::interpreter::concat_nodes(out, tail);
    proof {
        assert(crate::plan::pn_seq(out@) =~~= xml_children_items(
            context@,
            e@,
            ep@,
            fuel as nat,
        ));
    }
    out
}

/// The checks of one same-named child group.
#[verifier::loop_isolation(false)]
#[verifier::rlimit(100)]
fn one_group_exec(
    context: &PlanMatchingContext,
    name: &String,
    elems: &Vec<XmlElement>,
    ep: &DocPath,
    fuel: u64,
) -> (r: Vec<ExecutionPlanNode>)
    ensures
        crate::plan::pn_seq(r@) =~~= one_group_items(
            context@,
            name@,
            elems@.map(|i: int, c: XmlElement| c@),
            ep@,
            fuel as nat,
        ),
    decreases fuel, 2int, 0int,
{
    broadcast use crate::plan::lemma_pn_seq;

    let ghost ev = elems@.map(|i: int, c: XmlElement| c@);
    let mut out: Vec<ExecutionPlanNode> = Vec::new();
    if fuel == 0 {
        proof {
            assert(crate::plan::pn_seq(out@) =~~= one_group_items(
                context@,
                name@,
                ev,
                ep@,
                0,
            ));
        }
        return out;
    }
    let p = ep.join_field(name.as_str());
    proof {
        assert(p@ == ep@.push(PathTokV::Field(name@)));
    }
    let type_defined = context.type_matcher_defined(&p);
    proof {
        assert(type_defined == type_defined_spec(context@, p@));
    }
    if !type_defined {
        let mut msg: Vec<char> = Vec::new();
        crate::strutil::push_str(&mut msg, "Expected ");
        crate::strutil::push_dec(&mut msg, elems.len() as u64);
        crate::strutil::push_str(&mut msg, " <");
        crate::strutil::push_str(&mut msg, name.as_str());
        crate::strutil::push_str(&mut msg, "> child element");
        proof {
            assert(ev.len() == elems@.len());
            assert(msg@ =~= "Expected "@ + crate::strutil::dec_seq(ev.len()) + " <"@ + name@
                + "> child element"@);
        }
        if elems.len() > 1 {
            crate::strutil::push_str(&mut msg, "s");
            proof {
                assert(ev.len() == elems@.len());
                assert(ev.len() > 1);
                assert((if ev.len() > 1 {
                    "s"@
                } else {
                    ""@
                }) == "s"@);
                assert(msg@ =~= ("Expected "@ + crate::strutil::dec_seq(ev.len()) + " <"@
                    + name@ + "> child element"@) + "s"@);
                assert(msg@ =~= "Expected "@ + crate::strutil::dec_seq(ev.len()) + " <"@
                    + name@ + "> child element"@ + (if ev.len() > 1 {
                    "s"@
                } else {
                    ""@
                }));
            }
        } else {
            proof {
                reveal_strlit("");
                assert(ev.len() == elems@.len());
                assert(!(ev.len() > 1));
                assert(""@.len() == 0);
                assert(msg@ =~= "Expected "@ + crate::strutil::dec_seq(ev.len()) + " <"@
                    + name@ + "> child element"@ + (if ev.len() > 1 {
                    "s"@
                } else {
                    ""@
                }));
            }
        }
        crate::strutil::push_str(&mut msg, " but there were ");
        proof {
            assert(msg@ =~= "Expected "@ + crate::strutil::dec_seq(ev.len()) + " <"@ + name@
                + "> child element"@ + (if ev.len() > 1 {
                "s"@
            } else {
                ""@
            }) + " but there were "@);
        }
        let mut len_node = ExecutionPlanNode::action("length");
        len_node.add(ExecutionPlanNode::resolve_current_value(&p));
        proof {
            assert(len_node@ =~~= act("length"@, seq![rcur(p@)]));
        }
        let ghost msgv = msg@;
        let mut join = ExecutionPlanNode::action("join");
        join.add(ExecutionPlanNode::value_node(NodeValue::STRING(
            crate::strutil::chars_to_string(&msg),
        )));
        join.add(len_node);
        proof {
            assert(join@.children =~~= seq![
                val(NodeValV::Str(msgv)),
                act("length"@, seq![rcur(p@)]),
            ]);
        }
        let mut count = ExecutionPlanNode::action("expect:count");
        count.add(ExecutionPlanNode::value_node(NodeValue::UINT(elems.len() as u64)));
        count.add(ExecutionPlanNode::resolve_current_value(&p));
        count.add(join);
        let ghost cv2 = count@;
        out.push(count);
        proof {
            assert(cv2.children =~~= seq![
                val(NodeValV::UInt(ev.len() as int)),
                rcur(p@),
                act(
                    "join"@,
                    seq![val(NodeValV::Str(msgv)), act("length"@, seq![rcur(p@)])],
                ),
            ]);
            assert(crate::plan::pn_seq(out@) =~= seq![cv2]);
        }
        let mut members: Vec<ExecutionPlanNode> = Vec::new();
        let mut i: usize = 0;
        proof {
            assert(crate::plan::pn_seq(members@) =~~= group_elems(
                context@,
                ev,
                ep@,
                0,
                fuel as nat,
            ));
        }
        while i < elems.len()
            invariant
                i <= elems@.len(),
                fuel > 0,
                ev == elems@.map(|m: int, c: XmlElement| c@),
                ev.len() == elems@.len(),
                crate::plan::pn_seq(members@) =~~= group_elems(
                    context@,
                    ev,
                    ep@,
                    i as int,
                    fuel as nat,
                ),
            decreases elems@.len() - i,
        {
            let child = xml_element_exec(context, &elems[i], Some(i), ep, fuel - 1);
            proof {
                assert(ev[i as int] == elems@[i as int]@);
            }
            members = crate::interpreter::push_node(members, child);
            proof {
                assert(crate::plan::pn_seq(members@) =~~= group_elems(
                    context@,
                    ev,
                    ep@,
                    i + 1,
                    fuel as nat,
                ));
            }
            i = i + 1;
        }
        out = crate::interpreter::concat_nodes(out, members);
        proof {
            assert(crate::plan::pn_seq(out@) =~~= seq![cv2] + group_elems(
                context@,
                ev,
                ep@,
                ev.len() as int,
                fuel as nat,
            ));
            assert(cv2 =~~= act(
                "expect:count"@,
                seq![
                    val(NodeValV::UInt(ev.len() as int)),
                    rcur(p@),
                    act(
                        "join"@,
                        seq![val(NodeValV::Str(msgv)), act("length"@, seq![rcur(p@)])],
                    ),
                ],
            ));
            assert(crate::plan::pn_seq(out@) =~~= one_group_items(
                context@,
                name@,
                ev,
                ep@,
                fuel as nat,
            ));
        }
    } else {
        let selected = context.select_best_matcher(&p);
        let rules = filter_rules(&selected, true);
        proof {
            assert(selected@ =~~= select_spec(context@, p@));
            assert(rules@ =~~= keep_length_rules(select_spec(context@, p@)));
        }
        if rules.rules.len() > 0 && elems.len() > 0 {
            let mut text: Vec<char> = Vec::new();
            match ep.last_field() {
                Some(f) => {
                    let f2 = f.clone();
                    crate::strutil::push_str(&mut text, f2.as_str());
                },
                None => (),
            }
            crate::strutil::push_str(&mut text, " ");
            let desc = rules.generate_description(true);
            crate::strutil::push_str(&mut text, desc.as_str());
            proof {
                assert(text@ =~= last_field_text(ep@) + " "@ + rules_description(
                    rules@.rules,
                    rules@.rule_logic,
                    true,
                ));
            }
            let anns = crate::strutil::chars_to_string(&text);
            let ann_node = ExecutionPlanNode::annotation(anns.as_str());
            let rn = build_rule_node(
                &rules,
                ExecutionPlanNode::value_node(
                    NodeValue::XML(crate::xml::XmlValue::Element(elems[0].clone())),
                ),
                ExecutionPlanNode::resolve_current_value(ep),
                true,
            );
            let ghost av2 = ann_node@;
            let ghost rv2 = rn@;
            out.push(ann_node);
            out.push(rn);
            proof {
                assert(ev[0] == elems@[0]@);
                assert(crate::plan::pn_seq(out@) =~= seq![av2, rv2]);
            }
        }
        if elems.len() > 0 {
            let star = p.join("[*]");
            proof {
                assert(star@ == p@.push(PathTokV::StarIndex));
            }
            let child = xml_element_exec(context, &elems[0], Some(0), &star, fuel - 1);
            let mut fe = ExecutionPlanNode::action("for-each");
            fe.add(ExecutionPlanNode::resolve_current_value(&p));
            fe.add(child);
            let ghost fv2 = fe@;
            out.push(fe);
            proof {
                assert(ev[0] == elems@[0]@);
                assert(fv2.children =~~= seq![
                    rcur(p@),
                    xml_element_spec(
                        context@,
                        ev[0],
                        Some(0),
                        p@.push(PathTokV::StarIndex),
                        (fuel - 1) as nat,
                    ),
                ]);
                assert(crate::plan::pn_seq(out@) =~~= one_group_items(
                    context@,
                    name@,
                    ev,
                    ep@,
                    fuel as nat,
                ));
            }
        } else {
            proof {
                assert(crate::plan::pn_seq(out@) =~~= one_group_items(
                    context@,
                    name@,
                    ev,
                    ep@,
                    fuel as nat,
                ));
            }
        }
    }
    out
}

} // verus!
