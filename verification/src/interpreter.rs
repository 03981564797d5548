//! The plan interpreter: walks a compiled plan tree against a value
//! resolver, producing a structurally annotated copy of the tree with every
//! node's outcome recorded. The whole walk is specified by a recursive
//! specification function; the interpreter provably computes it.

use vstd::prelude::*;

verus! {

use crate::context::PlanMatchingContext;
use crate::foreign::{parsed_json, parsed_xml, unescaped_of, utf8_lossy_of, upper_of, lower_of};
use crate::json::{JsonValue, JsonV, json_text, jv_seq};
use crate::matching::match_node_spec;
use crate::path::{DocPath, PathTokV, PathToken, path_text};
use crate::plan::{
    ContainerLabel, ContainerLabelV, ExecutionPlanNode, NodeV, PlanNodeType, PlanTypeV, pn,
    pn_seq, lemma_pn_seq,
};
use crate::resolver::ValueResolver;
use crate::strutil::{dec_seq, push_dec, push_str, str_eq};
use crate::value::{
    NodeResult, NodeResV, NodeValue, NodeValV, nv, nr, nv_seq, res_and, res_truthy, sl_view,
    to_list_spec, truthy_spec, value_text, value_type_name,
};
use crate::xml::{XmlElement, XmlElemV, XmlValue, XmlValV, XmlNodeV, qualified_name};
use vstd::string::StrSliceExecFns;

/// The view of one optional outcome.
pub open spec fn opt_view(o: Option<NodeResult>) -> Option<NodeResV> {
    match o {
        Some(r) => Some(nr(r)),
        None => None,
    }
}

/// The view of the interpreter's value stack.
pub open spec fn stack_view(s: Seq<Option<NodeResult>>) -> Seq<Option<NodeResV>> {
    s.map(
        |i: int, o: Option<NodeResult>| match o {
            Some(r) => Some(nr(r)),
            None => None,
        },
    )
}

/// A stack of optional outcomes, in specification form.
pub type StackV = Seq<Option<NodeResV>>;

/// The top of the stack, flattened.
pub open spec fn stack_top(s: StackV) -> Option<NodeResV> {
    if s.len() == 0 {
        None
    } else {
        match s.last() {
            Some(r) => Some(r),
            None => None,
        }
    }
}

/// One step of document-path resolution over a list of XML values: `Field`
/// steps into elements, an index picks from the current match list, the
/// wildcard index keeps it.
pub open spec fn xml_list_step(vals: Seq<XmlValV>, tok: PathTokV) -> Seq<XmlValV>
    decreases vals.len(),
{
    match tok {
        PathTokV::Index(i) => if 0 <= i < vals.len() {
            seq![vals[i]]
        } else {
            Seq::empty()
        },
        PathTokV::StarIndex => vals,
        _ => if vals.len() == 0 {
            Seq::empty()
        } else {
            crate::xml::xml_step_one(vals[0], tok) + xml_list_step(vals.skip(1), tok)
        },
    }
}

/// Resolution of a token list over a list of XML values.
pub open spec fn xml_resolve_seq(vals: Seq<XmlValV>, toks: Seq<PathTokV>) -> Seq<XmlValV>
    decreases toks.len(),
{
    if toks.len() == 0 {
        vals
    } else {
        xml_resolve_seq(xml_list_step(vals, toks[0]), toks.skip(1))
    }
}

/// XML resolution of a whole path against a root element: the first field
/// step addresses the root element itself by name.
pub open spec fn xml_resolve_root(root: XmlElemV, toks: Seq<PathTokV>) -> Seq<XmlValV> {
    if toks.len() >= 2 {
        match toks[1] {
            PathTokV::Field(f) => if f == "#text"@ || (f.len() > 0 && f[0] == '@') {
                xml_resolve_seq(
                    crate::xml::xml_step_one(XmlValV::Element(root), PathTokV::Field(f)),
                    toks.skip(2),
                )
            } else if f == qualified_name(root) {
                xml_resolve_seq(seq![XmlValV::Element(root)], toks.skip(2))
            } else {
                Seq::empty()
            },
            _ => xml_resolve_seq(seq![XmlValV::Element(root)], toks.skip(1)),
        }
    } else {
        seq![XmlValV::Element(root)]
    }
}

/// Applies one token to a list of XML values.
#[verifier::loop_isolation(false)]
fn xml_step_values(vals: &Vec<XmlValue>, tok: &PathToken) -> (r: Vec<XmlValue>)
    ensures
        r@.map(|i: int, v: XmlValue| v@) == xml_list_step(
            vals@.map(|i: int, v: XmlValue| v@),
            tok@,
        ),
{
    let ghost vv = vals@.map(|i: int, v: XmlValue| v@);
    let mut out: Vec<XmlValue> = Vec::new();
    match tok {
        PathToken::Index(i) => {
            if *i < vals.len() {
                out.push(vals[*i].clone());
            }
            proof {
                assert(out@.map(|k: int, v: XmlValue| v@) =~= xml_list_step(vv, tok@));
            }
            out
        },
        PathToken::StarIndex => {
            let mut k: usize = 0;
            proof {
                assert(out@.map(|m: int, v: XmlValue| v@) =~= vv.take(0));
            }
            while k < vals.len()
                invariant
                    k <= vals.len(),
                    out@.map(|m: int, v: XmlValue| v@) =~= vv.take(k as int),
                decreases vals.len() - k,
            {
                out.push(vals[k].clone());
                proof {
                    assert(out@.map(|m: int, v: XmlValue| v@) =~= vv.take(k + 1));
                }
                k = k + 1;
            }
            proof {
                assert(vv.take(vals@.len() as int) =~= vv);
                assert(out@.map(|m: int, v: XmlValue| v@) =~= xml_list_step(vv, tok@));
            }
            out
        },
        _ => {
            let mut k: usize = 0;
            proof {
                assert(out@.map(|m: int, v: XmlValue| v@) =~= xml_steps_prefix(vv, tok@, 0));
            }
            while k < vals.len()
                invariant
                    k <= vals.len(),
                    out@.map(|m: int, v: XmlValue| v@) =~= xml_steps_prefix(vv, tok@, k as int),
                decreases vals.len() - k,
            {
                xml_step_one_into(&vals[k], tok, &mut out);
                proof {
                    lemma_xml_steps_prefix_snoc(vv, tok@, k as int);
                }
                k = k + 1;
            }
            proof {
                lemma_xml_steps_prefix_all(vv, tok@, vals@.len() as int);
            }
            out
        },
    }
}

/// The flattened steps of the first `k` values under a non-index token.
pub open spec fn xml_steps_prefix(vals: Seq<XmlValV>, tok: PathTokV, k: int) -> Seq<XmlValV>
    decreases k,
{
    if k <= 0 || k > vals.len() {
        Seq::empty()
    } else {
        xml_steps_prefix(vals, tok, k - 1) + crate::xml::xml_step_one(vals[k - 1], tok)
    }
}

proof fn lemma_xml_steps_prefix_snoc(vals: Seq<XmlValV>, tok: PathTokV, k: int)
    requires
        0 <= k < vals.len(),
    ensures
        xml_steps_prefix(vals, tok, k + 1) == xml_steps_prefix(vals, tok, k)
            + crate::xml::xml_step_one(vals[k], tok),
{
}

proof fn lemma_xml_steps_prefix_all(vals: Seq<XmlValV>, tok: PathTokV, n: int)
    requires
        n == vals.len(),
        !(tok is Index),
        !(tok is StarIndex),
    ensures
        xml_steps_prefix(vals, tok, n) == xml_list_step(vals, tok),
    decreases n,
{
    if n > 0 {
        assert forall|j: int| 0 <= j < n - 1 implies #[trigger] vals.skip(1)[j] == vals[j
            + 1] by {}
        lemma_xml_steps_prefix_all(vals.skip(1), tok, n - 1);
        assert(xml_steps_prefix(vals.skip(1), tok, n - 1) =~= xml_list_step(vals.skip(1), tok));
        lemma_xml_steps_prefix_shift(vals, tok, n - 1);
        assert(xml_steps_prefix(vals, tok, n) =~= crate::xml::xml_step_one(vals[0], tok)
            + xml_steps_prefix(vals.skip(1), tok, n - 1));
    } else {
        assert(xml_steps_prefix(vals, tok, 0) =~= Seq::<XmlValV>::empty());
        assert(xml_list_step(vals, tok) =~= Seq::<XmlValV>::empty());
    }
}

proof fn lemma_xml_steps_prefix_shift(vals: Seq<XmlValV>, tok: PathTokV, k: int)
    requires
        0 <= k <= vals.len() - 1,
    ensures
        xml_steps_prefix(vals, tok, k + 1) == crate::xml::xml_step_one(vals[0], tok)
            + xml_steps_prefix(vals.skip(1), tok, k),
    decreases k,
{
    if k == 0 {
        assert(xml_steps_prefix(vals, tok, 0) =~= Seq::<XmlValV>::empty());
        assert(xml_steps_prefix(vals, tok, 1) =~= crate::xml::xml_step_one(vals[0], tok));
        assert(xml_steps_prefix(vals, tok, 1) =~= crate::xml::xml_step_one(vals[0], tok)
            + xml_steps_prefix(vals.skip(1), tok, 0));
    } else {
        lemma_xml_steps_prefix_shift(vals, tok, k - 1);
        assert(vals.skip(1)[k - 1] == vals[k]);
        assert(xml_steps_prefix(vals, tok, k + 1) =~= crate::xml::xml_step_one(vals[0], tok)
            + xml_steps_prefix(vals.skip(1), tok, k));
    }
}

/// Applies one non-index token to one XML value, appending the results.
#[verifier::loop_isolation(false)]
fn xml_step_one_into(v: &XmlValue, tok: &PathToken, out: &mut Vec<XmlValue>)
    requires
        !(tok@ is Index),
        !(tok@ is StarIndex),
    ensures
        final(out)@.map(|i: int, x: XmlValue| x@) == old(out)@.map(|i: int, x: XmlValue| x@)
            + crate::xml::xml_step_one(v@, tok@),
{
    broadcast use crate::xml::lemma_xn_seq;

    let ghost base = out@.map(|i: int, x: XmlValue| x@);
    match (v, tok) {
        (XmlValue::Element(e), PathToken::Field(f)) => {
            if str_eq(f.as_str(), "#text") {
                let texts = crate::xml::text_nodes(e);
                if texts.len() == 0 {
                    proof {
                        assert(out@.map(|i: int, x: XmlValue| x@) =~= base
                            + crate::xml::xml_step_one(v@, tok@));
                    }
                } else {
                    let mut buf: Vec<char> = Vec::new();
                    let ghost tv = crate::xml::text_children(e@.children);
                    let mut k: usize = 0;
                    proof {
                        assert(crate::xml::concat_texts(tv.take(0)) =~= Seq::<char>::empty());
                        assert(buf@ =~= crate::xml::concat_texts(tv.take(0)));
                    }
                    while k < texts.len()
                        invariant
                            k <= texts.len(),
                            tv == crate::xml::text_children(e@.children),
                            tv =~= texts@.map(|m: int, t: String| t@),
                            buf@ == crate::xml::concat_texts(tv.take(k as int)),
                        decreases texts.len() - k,
                    {
                        push_str(&mut buf, texts[k].as_str());
                        proof {
                            assert(tv.take(k + 1).drop_last() =~= tv.take(k as int));
                            assert(tv.take(k + 1).last() == tv[k as int]);
                            assert(buf@ =~= crate::xml::concat_texts(tv.take(k + 1)));
                        }
                        k = k + 1;
                    }
                    proof {
                        assert(tv.take(texts@.len() as int) =~= tv);
                    }
                    let text = crate::strutil::chars_to_string(&buf);
                    out.push(XmlValue::Text(text));
                    proof {
                        assert(out@.map(|i: int, x: XmlValue| x@) =~= base
                            + crate::xml::xml_step_one(v@, tok@));
                    }
                }
            } else if f.as_str().unicode_len() > 0 && f.as_str().get_char(0) == '@' {
                let name = f.as_str().substring_char(1, f.as_str().unicode_len());
                proof {
                    assert(name@ =~= f@.skip(1));
                }
                match lookup_attr(&e.attrs, name) {
                    Some(val) => {
                        out.push(XmlValue::Attribute(String::from_str(name), val));
                        proof {
                            assert(out@.map(|i: int, x: XmlValue| x@) =~= base
                                + crate::xml::xml_step_one(v@, tok@));
                        }
                    },
                    None => {
                        proof {
                            assert(out@.map(|i: int, x: XmlValue| x@) =~= base
                                + crate::xml::xml_step_one(v@, tok@));
                        }
                    },
                }
            } else {
                let kids = crate::xml::child_elements(e);
                let ghost kv = crate::xml::elem_children(e@.children);
                let ghost target = kv.filter(|c: XmlElemV| qualified_name(c) == f@).map(
                    |i: int, c: XmlElemV| XmlValV::Element(c),
                );
                let mut k: usize = 0;
                proof {
                    assert(kv.take(0) =~= Seq::<XmlElemV>::empty());
                    reveal_with_fuel(Seq::filter, 2);
                    assert(kv.take(0).filter(|c: XmlElemV| qualified_name(c) == f@) =~= Seq::<
                        XmlElemV,
                    >::empty());
                    assert(out@.map(|i: int, x: XmlValue| x@) =~= base + kv.take(0).filter(
                        |c: XmlElemV| qualified_name(c) == f@,
                    ).map(|i: int, c: XmlElemV| XmlValV::Element(c)));
                }
                while k < kids.len()
                    invariant
                        k <= kids.len(),
                        kv == crate::xml::elem_children(e@.children),
                        kv =~= kids@.map(|m: int, c: XmlElement| c@),
                        out@.map(|i: int, x: XmlValue| x@) =~= base + kv.take(k as int).filter(
                            |c: XmlElemV| qualified_name(c) == f@,
                        ).map(|i: int, c: XmlElemV| XmlValV::Element(c)),
                    decreases kids.len() - k,
                {
                    let qn = crate::xml::name(&kids[k]);
                    let ghost pre = out@;
                    if str_eq(qn.as_str(), f.as_str()) {
                        let c = kids[k].clone();
                        proof {
                            assert(c@ == kv[k as int]);
                        }
                        out.push(XmlValue::Element(c));
                        proof {
                            assert(out@ =~= pre.push(out@.last()));
                            assert(out@.last()@ == XmlValV::Element(kv[k as int]));
                            assert(out@.map(|i: int, x: XmlValue| x@) =~= pre.map(
                                |i: int, x: XmlValue| x@,
                            ).push(XmlValV::Element(kv[k as int])));
                        }
                    }
                    proof {
                        reveal_with_fuel(Seq::filter, 2);
                        assert(kv.take(k + 1).drop_last() =~= kv.take(k as int));
                        assert(kv.take(k + 1).last() == kv[k as int]);
                        if qualified_name(kv[k as int]) == f@ {
                            assert(kv.take(k + 1).filter(|c: XmlElemV| qualified_name(c) == f@)
                                =~= kv.take(k as int).filter(
                                |c: XmlElemV| qualified_name(c) == f@,
                            ).push(kv[k as int]));
                        } else {
                            assert(kv.take(k + 1).filter(|c: XmlElemV| qualified_name(c) == f@)
                                =~= kv.take(k as int).filter(
                                |c: XmlElemV| qualified_name(c) == f@,
                            ));
                        }
                        assert(out@.map(|i: int, x: XmlValue| x@) =~= base + kv.take(
                            k + 1,
                        ).filter(|c: XmlElemV| qualified_name(c) == f@).map(
                            |i: int, c: XmlElemV| XmlValV::Element(c),
                        ));
                    }
                    k = k + 1;
                }
                proof {
                    assert(kv.take(kids@.len() as int) =~= kv);
                    assert(out@.map(|i: int, x: XmlValue| x@) =~= base + crate::xml::xml_step_one(
                        v@,
                        tok@,
                    ));
                }
            }
        },
        _ => {
            proof {
                assert(out@.map(|i: int, x: XmlValue| x@) =~= base + crate::xml::xml_step_one(
                    v@,
                    tok@,
                ));
            }
        },
    }
}

/// First-match attribute lookup.
#[verifier::loop_isolation(false)]
fn lookup_attr(attrs: &Vec<(String, String)>, name: &str) -> (r: Option<String>)
    ensures
        match r {
            Some(val) => crate::xml::attr_lookup(crate::xml::xa_view(attrs@), name@) == Some(
                val@,
            ),
            None => crate::xml::attr_lookup(crate::xml::xa_view(attrs@), name@) is None,
        },
{
    let ghost av = crate::xml::xa_view(attrs@);
    let mut i: usize = 0;
    while i < attrs.len()
        invariant
            i <= attrs.len(),
            forall|j: int| 0 <= j < i ==> av[j].0 != name@,
        decreases attrs.len() - i,
    {
        if str_eq(attrs[i].0.as_str(), name) {
            proof {
                lemma_attr_lookup_prefix(av, name@, i as int);
                assert(av.skip(i as int)[0] == av[i as int]);
            }
            return Some(attrs[i].1.clone());
        }
        i = i + 1;
    }
    proof {
        lemma_attr_lookup_prefix(av, name@, attrs@.len() as int);
        assert(av.skip(attrs@.len() as int).len() == 0);
    }
    None
}

proof fn lemma_attr_lookup_prefix(av: Seq<(Seq<char>, Seq<char>)>, name: Seq<char>, i: int)
    requires
        0 <= i <= av.len(),
        forall|k: int| 0 <= k < i ==> av[k].0 != name,
    ensures
        crate::xml::attr_lookup(av, name) == crate::xml::attr_lookup(av.skip(i), name),
    decreases i,
{
    if i > 0 {
        assert(av[0].0 != name);
        assert forall|k: int| 0 <= k < i - 1 implies #[trigger] av.skip(1)[k].0 != name by {
            assert(av.skip(1)[k] == av[k + 1]);
        }
        lemma_attr_lookup_prefix(av.skip(1), name, i - 1);
        assert(av.skip(1).skip(i - 1) =~= av.skip(i));
    } else {
        assert(av.skip(0) =~= av);
    }
}


/// The message every walk reports when the recursion budget is exhausted.
pub open spec fn depth_msg() -> Seq<char> {
    "Plan tree is too deep to execute"@
}

/// Resolution of a path against the interpreter's current stack value.
pub open spec fn rsv_spec(st: StackV, p: Seq<PathTokV>) -> Result<NodeValV, Seq<char>> {
    match stack_top(st) {
        None => Err(
            "Can not resolve '"@ + path_text(p)
                + "', current value stack is either empty or contains an empty value"@,
        ),
        Some(top) => match top {
            NodeResV::Value(v) => match v {
                NodeValV::Null => Err(
                    "Can not resolve '"@ + path_text(p)
                        + "', current stack value does not contain a value (is NULL)"@,
                ),
                NodeValV::Json(j) => if p.len() == 1 && p[0] is Root {
                    Ok(NodeValV::Json(j))
                } else {
                    let vals = crate::json::json_resolve_seq(seq![j], p);
                    if vals.len() == 0 {
                        Ok(NodeValV::Null)
                    } else if vals.len() == 1 {
                        Ok(NodeValV::Json(vals[0]))
                    } else {
                        Ok(NodeValV::Json(JsonV::Array(vals)))
                    }
                },
                NodeValV::Xml(x) => if p.len() == 1 && p[0] is Root {
                    Ok(NodeValV::Xml(x))
                } else {
                    match x {
                        XmlValV::Element(e) => {
                            let vals = xml_resolve_root(e, p);
                            if vals.len() == 0 {
                                Ok(NodeValV::Null)
                            } else if vals.len() == 1 {
                                Ok(NodeValV::Xml(vals[0]))
                            } else {
                                Ok(
                                    NodeValV::List(
                                        vals.map(|i: int, xv: XmlValV| NodeValV::Xml(xv)),
                                    ),
                                )
                            }
                        },
                        _ => Err(
                            "Can not resolve '"@ + path_text(p)
                                + "', current stack value does not contain a value that is resolvable"@,
                        ),
                    }
                },
                _ => Err(
                    "Can not resolve '"@ + path_text(p)
                        + "', current stack value does not contain a value that is resolvable"@,
                ),
            },
            _ => Err(
                "Can not resolve '"@ + path_text(p)
                    + "', current stack value does not contain a value"@,
            ),
        },
    }
}

/// What a literal value node evaluates to: namespaced literals are parsed,
/// anything else stands for itself.
pub open spec fn value_node_spec(n: NodeV, v: NodeValV) -> NodeV {
    match v {
        NodeValV::Namespaced(ns, val) => if ns == "json"@ {
            match parsed_json(vstd::utf8::encode_utf8(val)) {
                Ok(j) => executed(n, NodeResV::Value(NodeValV::Json(j))),
                Err(m) => executed(n, NodeResV::Error(m)),
            }
        } else if ns == "xml"@ {
            let text = match unescaped_of(val) {
                Some(t) => t,
                None => val,
            };
            match parsed_xml(vstd::utf8::encode_utf8(text)) {
                Ok(e) => executed(n, NodeResV::Value(NodeValV::Xml(XmlValV::Element(e)))),
                Err(m) => executed(n, NodeResV::Error("Failed to parse XML value: "@ + m)),
            }
        } else {
            executed(n, NodeResV::Error("'"@ + ns + "' is not a known namespace"@))
        },
        other => executed(n, NodeResV::Value(other)),
    }
}

/// A copy of a node with a result and no children.
pub open spec fn executed(n: NodeV, r: NodeResV) -> NodeV {
    NodeV { node_type: n.node_type, result: Some(r), children: Seq::empty() }
}

/// A copy of a node with a result, children kept.
pub open spec fn with_result(n: NodeV, r: NodeResV) -> NodeV {
    NodeV { node_type: n.node_type, result: Some(r), children: n.children }
}

/// A copy of a node with a result and the given children.
pub open spec fn rebuilt(n: NodeV, r: NodeResV, children: Seq<NodeV>) -> NodeV {
    NodeV { node_type: n.node_type, result: Some(r), children }
}

/// The recorded outcome of an executed node, `Ok` when none is recorded.
pub open spec fn recorded(n: NodeV) -> NodeResV {
    match n.result {
        Some(r) => r,
        None => NodeResV::Okay,
    }
}

/// What a splat node's execution expands one child result into.
pub open spec fn splat_expand(c: NodeV) -> Seq<NodeV> {
    match c.result {
        Some(NodeResV::Value(NodeValV::MMap(m))) => m.map(
            |i: int, e: (Seq<char>, Seq<Seq<char>>)| with_result(
                c,
                NodeResV::Value(NodeValV::Entry(e.0, Box::new(NodeValV::SList(e.1)))),
            ),
        ),
        Some(NodeResV::Value(NodeValV::SList(l))) => l.map(
            |i: int, s: Seq<char>| with_result(c, NodeResV::Value(NodeValV::Str(s))),
        ),
        _ => seq![c],
    }
}

/// The walk of one plan node: the new stack and the annotated copy, or a
/// propagated failure.
pub open spec fn wspec<R: ValueResolver>(r: &R, st: StackV, n: NodeV, fuel: nat) -> (
    StackV,
    Result<NodeV, Seq<char>>,
)
    decreases fuel, 3int, 0int,
{
    match n.node_type {
        PlanTypeV::Empty => (st, Ok(n)),
        PlanTypeV::Annotation(_) => (st, Ok(n)),
        PlanTypeV::Value(v) => (st, Ok(value_node_spec(n, v))),
        PlanTypeV::Resolve(p) => (
            st,
            Ok(
                match r.resolve_spec(p) {
                    Ok(v) => executed(n, NodeResV::Value(v)),
                    Err(m) => executed(n, NodeResV::Error(m)),
                },
            ),
        ),
        PlanTypeV::ResolveCurrent(p) => (
            st,
            Ok(
                match rsv_spec(st, p) {
                    Ok(v) => executed(n, NodeResV::Value(v)),
                    Err(m) => executed(n, NodeResV::Error(m)),
                },
            ),
        ),
        PlanTypeV::Container(_) => {
            let (st2, rr) = wqueue(r, st, n.children, NodeResV::Okay, fuel);
            (
                st2,
                match rr {
                    Ok((rs, status)) => Ok(
                        rebuilt(
                            n,
                            NodeResV::Value(NodeValV::Bool(res_truthy(status))),
                            rs,
                        ),
                    ),
                    Err(m) => Err(m),
                },
            )
        },
        PlanTypeV::Pipeline => {
            let (st2, rr) = wpipe(r, st.push(None), n.children, fuel);
            match rr {
                Ok(rs) => {
                    let v = stack_top(st2);
                    let st3 = if st2.len() > 0 {
                        st2.drop_last()
                    } else {
                        st2
                    };
                    match v {
                        Some(val) => (st3, Ok(rebuilt(n, val, rs))),
                        None => (
                            st3,
                            Ok(
                                rebuilt(
                                    n,
                                    NodeResV::Error("Value from stack is empty"@),
                                    rs,
                                ),
                            ),
                        ),
                    }
                },
                Err(m) => (st2, Err(m)),
            }
        },
        PlanTypeV::Splat => {
            let (st2, rr) = wsplat(r, st, n.children, fuel);
            (
                st2,
                match rr {
                    Ok(rs) => Ok(rebuilt(n, NodeResV::Okay, rs)),
                    Err(m) => Err(m),
                },
            )
        },
        PlanTypeV::Action(name) => {
            let (st2, nd) = waction(r, st, n, name, fuel);
            (st2, Ok(nd))
        },
    }
}

/// The walk of a container's work queue, folding outcomes and splicing
/// splat expansions to the front.
pub open spec fn wqueue<R: ValueResolver>(
    r: &R,
    st: StackV,
    queue: Seq<NodeV>,
    status: NodeResV,
    fuel: nat,
) -> (StackV, Result<(Seq<NodeV>, NodeResV), Seq<char>>)
    decreases fuel, 1int, 0int,
{
    if queue.len() == 0 {
        (st, Ok((Seq::empty(), status)))
    } else if fuel == 0 {
        (st, Err(depth_msg()))
    } else {
        let (st1, res) = wspec(r, st, queue[0], (fuel - 1) as nat);
        match res {
            Err(m) => (st1, Err(m)),
            Ok(c) => {
                let status2 = res_and(status, Some(recorded(c)));
                let rest = if c.node_type is Splat {
                    c.children + queue.skip(1)
                } else {
                    queue.skip(1)
                };
                let (st2, rr) = wqueue(r, st1, rest, status2, (fuel - 1) as nat);
                match rr {
                    Err(m) => (st2, Err(m)),
                    Ok((rs, stf)) => (st2, Ok((seq![c] + rs, stf))),
                }
            },
        }
    }
}

/// The walk of a pipeline's work queue: each child's outcome replaces the
/// stack top; splat expansions are spliced to the front.
pub open spec fn wpipe<R: ValueResolver>(
    r: &R,
    st: StackV,
    queue: Seq<NodeV>,
    fuel: nat,
) -> (StackV, Result<Seq<NodeV>, Seq<char>>)
    decreases fuel, 1int, 0int,
{
    if queue.len() == 0 {
        (st, Ok(Seq::empty()))
    } else if fuel == 0 {
        (st, Err(depth_msg()))
    } else {
        let (st1, res) = wspec(r, st, queue[0], (fuel - 1) as nat);
        match res {
            Err(m) => (st1, Err(m)),
            Ok(c) => {
                let st1b = update_top(st1, c.result);
                let rest = if c.node_type is Splat {
                    c.children + queue.skip(1)
                } else {
                    queue.skip(1)
                };
                let (st2, rr) = wpipe(r, st1b, rest, (fuel - 1) as nat);
                match rr {
                    Err(m) => (st2, Err(m)),
                    Ok(rs) => (st2, Ok(seq![c] + rs)),
                }
            },
        }
    }
}

/// Replacing the top of the stack, or pushing when it is empty.
pub open spec fn update_top(st: StackV, v: Option<NodeResV>) -> StackV {
    if st.len() > 0 {
        st.update(st.len() - 1, v)
    } else {
        st.push(v)
    }
}

/// The walk of a splat node's children: each child's result is expanded
/// into its contained values.
pub open spec fn wsplat<R: ValueResolver>(
    r: &R,
    st: StackV,
    children: Seq<NodeV>,
    fuel: nat,
) -> (StackV, Result<Seq<NodeV>, Seq<char>>)
    decreases fuel, 1int, 0int,
{
    if children.len() == 0 {
        (st, Ok(Seq::empty()))
    } else if fuel == 0 {
        (st, Err(depth_msg()))
    } else {
        let (st1, res) = wspec(r, st, children[0], (fuel - 1) as nat);
        match res {
            Err(m) => (st1, Err(m)),
            Ok(c) => {
                let (st2, rr) = wsplat(r, st1, children.skip(1), (fuel - 1) as nat);
                match rr {
                    Err(m) => (st2, Err(m)),
                    Ok(rs) => (st2, Ok(splat_expand(c) + rs)),
                }
            },
        }
    }
}


/// A copy of a node recording a failure, children kept.
pub open spec fn err_node(n: NodeV, m: Seq<char>) -> NodeV {
    with_result(n, NodeResV::Error(m))
}

/// Walking the single argument of an action, after checking arity.
pub open spec fn aval1<R: ValueResolver>(
    r: &R,
    st: StackV,
    n: NodeV,
    name: Seq<char>,
    fuel: nat,
) -> (StackV, Result<NodeV, Seq<char>>)
    decreases fuel, 1int, 0int,
{
    if n.children.len() > 1 {
        (
            st,
            Err(name + " takes only one argument, got "@ + dec_seq(n.children.len())),
        )
    } else if n.children.len() == 0 {
        (st, Err(name + " requires one argument, got none"@))
    } else if fuel == 0 {
        (st, Err(depth_msg()))
    } else {
        wspec(r, st, n.children[0], (fuel - 1) as nat)
    }
}

/// Walking exactly two arguments of an action.
pub open spec fn aval2<R: ValueResolver>(
    r: &R,
    st: StackV,
    n: NodeV,
    name: Seq<char>,
    fuel: nat,
) -> (StackV, Result<(NodeV, NodeV), Seq<char>>)
    decreases fuel, 1int, 0int,
{
    if n.children.len() != 2 {
        (
            st,
            Err(
                "Action '"@ + name + "' requires two arguments, got "@ + dec_seq(
                    n.children.len(),
                ),
            ),
        )
    } else if fuel == 0 {
        (st, Err(depth_msg()))
    } else {
        let (st1, r1) = wspec(r, st, n.children[0], (fuel - 1) as nat);
        match r1 {
            Err(m) => (st1, Err(m)),
            Ok(a) => {
                let (st2, r2) = wspec(r, st1, n.children[1], (fuel - 1) as nat);
                match r2 {
                    Err(m) => (st2, Err(m)),
                    Ok(b) => (st2, Ok((a, b))),
                }
            },
        }
    }
}

/// Walking exactly three arguments of an action.
pub open spec fn aval3<R: ValueResolver>(
    r: &R,
    st: StackV,
    n: NodeV,
    name: Seq<char>,
    fuel: nat,
) -> (StackV, Result<(NodeV, NodeV, NodeV), Seq<char>>)
    decreases fuel, 1int, 0int,
{
    if n.children.len() != 3 {
        (
            st,
            Err(
                "Action '"@ + name + "' requires three arguments, got "@ + dec_seq(
                    n.children.len(),
                ),
            ),
        )
    } else if fuel == 0 {
        (st, Err(depth_msg()))
    } else {
        let (st1, r1) = wspec(r, st, n.children[0], (fuel - 1) as nat);
        match r1 {
            Err(m) => (st1, Err(m)),
            Ok(a) => {
                let (st2, r2) = wspec(r, st1, n.children[1], (fuel - 1) as nat);
                match r2 {
                    Err(m) => (st2, Err(m)),
                    Ok(b) => {
                        let (st3, r3) = wspec(r, st2, n.children[2], (fuel - 1) as nat);
                        match r3 {
                            Err(m) => (st3, Err(m)),
                            Ok(c) => (st3, Ok((a, b, c))),
                        }
                    },
                }
            },
        }
    }
}

/// Walking the first `required` arguments of an action; later arguments are
/// handed back unwalked.
pub open spec fn avaln<R: ValueResolver>(
    r: &R,
    st: StackV,
    n: NodeV,
    name: Seq<char>,
    required: int,
    optional: int,
    fuel: nat,
) -> (StackV, Result<(Seq<NodeV>, Seq<NodeV>), Seq<char>>)
    decreases fuel, 1int, 0int,
{
    if n.children.len() < required {
        (
            st,
            Err(
                name + " requires "@ + dec_seq(required as nat) + " arguments, got "@ + dec_seq(
                    n.children.len(),
                ),
            ),
        )
    } else if n.children.len() > required + optional {
        (
            st,
            Err(
                name + " supports at most "@ + dec_seq(optional as nat) + " arguments, got "@
                    + dec_seq(n.children.len()),
            ),
        )
    } else {
        let (st2, rr) = walk_list(r, st, n.children.take(required), fuel);
        match rr {
            Err(m) => (st2, Err(m)),
            Ok(ws) => (st2, Ok((ws, n.children.skip(required)))),
        }
    }
}

/// Walking a list of nodes in order, stopping at the first failure.
pub open spec fn walk_list<R: ValueResolver>(
    r: &R,
    st: StackV,
    nodes: Seq<NodeV>,
    fuel: nat,
) -> (StackV, Result<Seq<NodeV>, Seq<char>>)
    decreases fuel, 0int, nodes.len(),
{
    if nodes.len() == 0 {
        (st, Ok(Seq::empty()))
    } else if fuel == 0 {
        (st, Err(depth_msg()))
    } else {
        let (st1, r1) = wspec(r, st, nodes[0], (fuel - 1) as nat);
        match r1 {
            Err(m) => (st1, Err(m)),
            Ok(c) => {
                let (st2, rr) = walk_list(r, st1, nodes.skip(1), fuel);
                match rr {
                    Err(m) => (st2, Err(m)),
                    Ok(rest) => (st2, Ok(seq![c] + rest)),
                }
            },
        }
    }
}

/// Evaluating an action's children to values: recorded outcomes are reused
/// without walking, splat expansions are spliced to the front of the queue,
/// the first failure aborts with the children walked so far.
pub open spec fn aevalc<R: ValueResolver>(
    r: &R,
    st: StackV,
    queue: Seq<NodeV>,
    fuel: nat,
) -> (StackV, Result<(Seq<NodeV>, Seq<NodeValV>), (Seq<NodeV>, Seq<char>)>)
    decreases fuel, 1int, 0int,
{
    if queue.len() == 0 {
        (st, Ok((Seq::empty(), Seq::empty())))
    } else if fuel == 0 {
        (st, Err((Seq::empty(), depth_msg())))
    } else {
        match queue[0].result {
            Some(v) => match v {
                NodeResV::Error(e) => (st, Err((Seq::empty(), e))),
                NodeResV::Okay => aevalc(r, st, queue.skip(1), (fuel - 1) as nat),
                NodeResV::Value(val) => {
                    let (st2, rr) = aevalc(r, st, queue.skip(1), (fuel - 1) as nat);
                    (
                        st2,
                        match rr {
                            Ok((cs, vs)) => Ok((cs, seq![val] + vs)),
                            Err(e) => Err(e),
                        },
                    )
                },
            },
            None => {
                let (st1, res) = wspec(r, st, queue[0], (fuel - 1) as nat);
                match res {
                    Err(m) => (st1, Err((Seq::empty(), m))),
                    Ok(c) => if c.node_type is Splat {
                        let (st2, rr) = aevalc(
                            r,
                            st1,
                            c.children + queue.skip(1),
                            (fuel - 1) as nat,
                        );
                        (
                            st2,
                            match rr {
                                Ok((cs, vs)) => Ok((seq![c] + cs, vs)),
                                Err((cs, m)) => Err((seq![c] + cs, m)),
                            },
                        )
                    } else {
                        match recorded(c) {
                            NodeResV::Error(e) => (st1, Err((seq![c], e))),
                            NodeResV::Okay => {
                                let (st2, rr) = aevalc(
                                    r,
                                    st1,
                                    queue.skip(1),
                                    (fuel - 1) as nat,
                                );
                                (
                                    st2,
                                    match rr {
                                        Ok((cs, vs)) => Ok((seq![c] + cs, vs)),
                                        Err((cs, m)) => Err((seq![c] + cs, m)),
                                    },
                                )
                            },
                            NodeResV::Value(val) => {
                                let (st2, rr) = aevalc(
                                    r,
                                    st1,
                                    queue.skip(1),
                                    (fuel - 1) as nat,
                                );
                                (
                                    st2,
                                    match rr {
                                        Ok((cs, vs)) => Ok((seq![c] + cs, seq![val] + vs)),
                                        Err((cs, m)) => Err((seq![c] + cs, m)),
                                    },
                                )
                            },
                        }
                    },
                }
            },
        }
    }
}


/// The value carried by an outcome, `NULL` when it carries none.
pub open spec fn value_of(r: NodeResV) -> NodeValV {
    match r {
        NodeResV::Value(v) => v,
        _ => NodeValV::Null,
    }
}

/// Whether an outcome carries a value.
pub open spec fn has_value(r: NodeResV) -> bool {
    r is Value
}

/// The string carried by an outcome, empty when it carries none.
pub open spec fn string_of(r: NodeResV) -> Seq<char> {
    match r {
        NodeResV::Value(NodeValV::Str(s)) => s,
        _ => Seq::empty(),
    }
}

/// The byte length of a piece of text, as `str::len` reports it.
pub open spec fn byte_len(s: Seq<char>) -> nat {
    vstd::utf8::encode_utf8(s).len()
}

/// The `check:exists` verdict for one resolved outcome.
pub open spec fn exists_spec(r: NodeResV) -> bool {
    match r {
        NodeResV::Value(v) => !(v is Null),
        _ => false,
    }
}

/// The `convert:UTF8` result for one value.
pub open spec fn convert_utf8_spec(r: NodeResV) -> NodeResV {
    if !has_value(r) {
        NodeResV::Value(NodeValV::Str(Seq::empty()))
    } else {
        match value_of(r) {
            NodeValV::Null => NodeResV::Value(NodeValV::Str(Seq::empty())),
            NodeValV::Str(s) => NodeResV::Value(NodeValV::Str(s)),
            NodeValV::BArray(b) => NodeResV::Value(NodeValV::Str(utf8_lossy_of(b))),
            other => NodeResV::Error(
                "convert:UTF8 can not be used with "@ + value_type_name(other),
            ),
        }
    }
}

/// The `json:parse` result for one value.
pub open spec fn json_parse_spec(r: NodeResV) -> NodeResV {
    if !has_value(r) {
        NodeResV::Value(NodeValV::Null)
    } else {
        match value_of(r) {
            NodeValV::Null => NodeResV::Value(NodeValV::Null),
            NodeValV::Str(s) => match parsed_json(vstd::utf8::encode_utf8(s)) {
                Ok(j) => NodeResV::Value(NodeValV::Json(j)),
                Err(m) => NodeResV::Error("json parse error - "@ + m),
            },
            NodeValV::BArray(b) => match parsed_json(b) {
                Ok(j) => NodeResV::Value(NodeValV::Json(j)),
                Err(m) => NodeResV::Error("json parse error - "@ + m),
            },
            other => NodeResV::Error(
                "json:parse can not be used with "@ + value_type_name(other),
            ),
        }
    }
}

/// The `xml:parse` result for one value.
pub open spec fn xml_parse_spec(r: NodeResV) -> NodeResV {
    if !has_value(r) {
        NodeResV::Value(NodeValV::Null)
    } else {
        match value_of(r) {
            NodeValV::Null => NodeResV::Value(NodeValV::Null),
            NodeValV::Str(s) => match parsed_xml(vstd::utf8::encode_utf8(s)) {
                Ok(e) => NodeResV::Value(NodeValV::Xml(XmlValV::Element(e))),
                Err(m) => NodeResV::Error("XML parse error - "@ + m),
            },
            NodeValV::BArray(b) => match parsed_xml(b) {
                Ok(e) => NodeResV::Value(NodeValV::Xml(XmlValV::Element(e))),
                Err(m) => NodeResV::Error("XML parse error - "@ + m),
            },
            other => NodeResV::Error(
                "xml:parse can not be used with "@ + value_type_name(other),
            ),
        }
    }
}

/// The `xml:tag-name` result for one value.
pub open spec fn xml_tag_name_spec(r: NodeResV) -> NodeResV {
    if !has_value(r) {
        NodeResV::Value(NodeValV::Null)
    } else {
        match value_of(r) {
            NodeValV::Xml(x) => match x {
                XmlValV::Element(e) => NodeResV::Value(NodeValV::Str(e.name)),
                other => NodeResV::Error(
                    "xml:tag-name can not be used with "@ + value_text(NodeValV::Xml(other)),
                ),
            },
            other => NodeResV::Error(
                "xml:tag-name can not be used with "@ + value_type_name(other),
            ),
        }
    }
}

/// The `xml:value` result for one value.
pub open spec fn xml_value_spec(r: NodeResV) -> NodeResV {
    if !has_value(r) {
        NodeResV::Value(NodeValV::Null)
    } else {
        match value_of(r) {
            NodeValV::Xml(x) => match x {
                XmlValV::Attribute(_, v) => NodeResV::Value(NodeValV::Str(v)),
                other => NodeResV::Error(
                    "xml:value can not be used with "@ + value_text(NodeValV::Xml(other)),
                ),
            },
            other => NodeResV::Error(
                "xml:value can not be used with "@ + value_type_name(other),
            ),
        }
    }
}

/// The `xml:attributes` result for one value.
pub open spec fn xml_attributes_spec(r: NodeResV) -> NodeResV {
    if !has_value(r) {
        NodeResV::Value(NodeValV::Null)
    } else {
        match value_of(r) {
            NodeValV::Xml(x) => match x {
                XmlValV::Attribute(nm, v) => NodeResV::Value(
                    NodeValV::Entry(nm, Box::new(NodeValV::Str(v))),
                ),
                XmlValV::Element(e) => NodeResV::Value(
                    NodeValV::MMap(
                        e.attrs.map(|i: int, a: (Seq<char>, Seq<char>)| (a.0, seq![a.1])),
                    ),
                ),
                other => NodeResV::Error(
                    "xml:attributes can not be used with "@ + value_text(NodeValV::Xml(other)),
                ),
            },
            other => NodeResV::Error(
                "xml:attributes can not be used with "@ + value_type_name(other),
            ),
        }
    }
}

/// The case change of one value.
pub open spec fn case_spec(v: NodeValV, upper: bool) -> NodeValV {
    match v {
        NodeValV::Str(s) => NodeValV::Str(if upper { upper_of(s) } else { lower_of(s) }),
        NodeValV::SList(l) => NodeValV::SList(
            l.map(|i: int, s: Seq<char>| if upper { upper_of(s) } else { lower_of(s) }),
        ),
        NodeValV::Json(j) => match j {
            JsonV::Str(s) => NodeValV::Str(if upper { upper_of(s) } else { lower_of(s) }),
            other => NodeValV::Str(json_text(other)),
        },
        other => other,
    }
}

/// The `to-string` form of one value.
pub open spec fn to_string_spec(v: NodeValV) -> NodeValV {
    match v {
        NodeValV::Null => NodeValV::Str(Seq::empty()),
        NodeValV::Str(s) => NodeValV::Str(s),
        NodeValV::SList(l) => NodeValV::SList(l),
        NodeValV::Json(j) => match j {
            JsonV::Str(s) => NodeValV::Str(s),
            other => NodeValV::Str(json_text(other)),
        },
        NodeValV::Xml(x) => match x {
            XmlValV::Element(e) => NodeValV::Str(e.rendered),
            XmlValV::Text(t) => NodeValV::Str(t),
            XmlValV::Attribute(nm, v2) => NodeValV::Str("@"@ + nm + "='"@ + v2 + "'"@),
        },
        other => NodeValV::Str(value_text(other)),
    }
}

/// A list of per-value results collapses to the single result when there is
/// exactly one.
pub open spec fn single_or_list(results: Seq<NodeValV>) -> NodeValV {
    if results.len() == 1 {
        results[0]
    } else {
        NodeValV::List(results)
    }
}

/// The `length` result for one value.
pub open spec fn length_spec(v: NodeValV) -> NodeResV {
    match v {
        NodeValV::Null => NodeResV::Value(NodeValV::UInt(0)),
        NodeValV::Str(s) => NodeResV::Value(NodeValV::UInt(byte_len(s) as int)),
        NodeValV::MMap(m) => NodeResV::Value(NodeValV::UInt(m.len() as int)),
        NodeValV::SList(l) => NodeResV::Value(NodeValV::UInt(l.len() as int)),
        NodeValV::BArray(b) => NodeResV::Value(NodeValV::UInt(b.len() as int)),
        NodeValV::Json(j) => match j {
            JsonV::Str(s) => NodeResV::Value(NodeValV::UInt(byte_len(s) as int)),
            JsonV::Array(a) => NodeResV::Value(NodeValV::UInt(a.len() as int)),
            JsonV::Object(o) => NodeResV::Value(NodeValV::UInt(o.len() as int)),
            other => NodeResV::Error(
                "'length' can't be used with a "@ + crate::json::json_type_name(other)
                    + " value"@,
            ),
        },
        NodeValV::List(l) => NodeResV::Value(NodeValV::UInt(l.len() as int)),
        NodeValV::Xml(x) => match x {
            XmlValV::Element(_) => NodeResV::Value(NodeValV::UInt(1)),
            XmlValV::Text(t) => NodeResV::Value(NodeValV::UInt(byte_len(t) as int)),
            XmlValV::Attribute(_, _) => NodeResV::Value(NodeValV::UInt(1)),
        },
        other => NodeResV::Error(
            "'length' can't be used with a "@ + value_type_name(other) + " value"@,
        ),
    }
}

/// The `expect:empty` verdict for one value.
pub open spec fn expect_empty_spec(r: NodeResV) -> Result<NodeResV, Seq<char>> {
    if !has_value(r) {
        Ok(NodeResV::Value(NodeValV::Bool(true)))
    } else {
        match value_of(r) {
            NodeValV::Null => Ok(NodeResV::Value(NodeValV::Bool(true))),
            NodeValV::Str(s) => if s.len() == 0 {
                Ok(NodeResV::Value(NodeValV::Bool(true)))
            } else {
                Err("Expected "@ + value_text(NodeValV::Str(s)) + " to be empty"@)
            },
            NodeValV::Bool(b) => Ok(NodeResV::Value(NodeValV::Bool(b))),
            NodeValV::MMap(m) => if m.len() == 0 {
                Ok(NodeResV::Value(NodeValV::Bool(true)))
            } else {
                Err("Expected "@ + value_text(NodeValV::MMap(m)) + " to be empty"@)
            },
            NodeValV::SList(l) => if l.len() == 0 {
                Ok(NodeResV::Value(NodeValV::Bool(true)))
            } else {
                Err("Expected "@ + value_text(NodeValV::SList(l)) + " to be empty"@)
            },
            NodeValV::BArray(b) => if b.len() == 0 {
                Ok(NodeResV::Value(NodeValV::Bool(true)))
            } else {
                Err("Expected byte array ("@ + dec_seq(b.len()) + " bytes) to be empty"@)
            },
            NodeValV::Namespaced(_, _) => Err(
                "expect:empty is not implemented for namespaced values"@,
            ),
            NodeValV::UInt(u) => if u == 0 {
                Ok(NodeResV::Value(NodeValV::Bool(true)))
            } else {
                Err("Expected "@ + value_text(NodeValV::UInt(u)) + " to be empty"@)
            },
            NodeValV::Json(j) => match j {
                JsonV::Null => Ok(NodeResV::Value(NodeValV::Bool(true))),
                JsonV::Str(s) => if s.len() == 0 {
                    Ok(NodeResV::Value(NodeValV::Bool(true)))
                } else {
                    Err("Expected JSON String ("@ + json_text(JsonV::Str(s)) + ") to be empty"@)
                },
                JsonV::Array(a) => if a.len() == 0 {
                    Ok(NodeResV::Value(NodeValV::Bool(true)))
                } else {
                    Err(
                        "Expected JSON Array ("@ + json_text(JsonV::Array(a)) + ") to be empty"@,
                    )
                },
                JsonV::Object(o) => if o.len() == 0 {
                    Ok(NodeResV::Value(NodeValV::Bool(true)))
                } else {
                    Err(
                        "Expected JSON Object ("@ + json_text(JsonV::Object(o))
                            + ") to be empty"@,
                    )
                },
                other => Err("Expected json ("@ + json_text(other) + ") to be empty"@),
            },
            NodeValV::Entry(_, _) => Ok(NodeResV::Value(NodeValV::Bool(false))),
            NodeValV::List(l) => if l.len() == 0 {
                Ok(NodeResV::Value(NodeValV::Bool(true)))
            } else {
                Err("Expected "@ + value_text(NodeValV::List(l)) + " to be empty"@)
            },
            NodeValV::Xml(x) => match x {
                XmlValV::Element(e) => if crate::xml::elem_children(e.children).len() == 0 {
                    Ok(NodeResV::Value(NodeValV::Bool(true)))
                } else {
                    Err("Expected "@ + e.rendered + " to be empty"@)
                },
                XmlValV::Text(t) => if t.len() == 0 {
                    Ok(NodeResV::Value(NodeValV::Bool(true)))
                } else {
                    Err("Expected "@ + value_text(NodeValV::Xml(XmlValV::Text(t)))
                        + " to be empty"@)
                },
                XmlValV::Attribute(nm, v2) => if v2.len() == 0 {
                    Ok(NodeResV::Value(NodeValV::Bool(true)))
                } else {
                    Err("Expected "@ + nm + "="@ + v2 + " to be empty"@)
                },
            },
        }
    }
}


/// The keys a value offers to the entry checks, when it offers any.
pub open spec fn entry_keys(v: NodeValV) -> Option<Seq<Seq<char>>> {
    match v {
        NodeValV::MMap(m) => Some(m.map(|i: int, e: (Seq<char>, Seq<Seq<char>>)| e.0)),
        NodeValV::SList(l) => Some(l),
        NodeValV::Str(s) => Some(seq![s]),
        NodeValV::Json(j) => match j {
            JsonV::Object(o) => Some(o.map(|i: int, f: (Seq<char>, JsonV)| f.0)),
            JsonV::Array(a) => Some(a.map(|i: int, x: JsonV| json_text(x))),
            _ => None,
        },
        NodeValV::Xml(x) => match x {
            XmlValV::Element(e) => Some(
                crate::xml::elem_children(e.children).map(|i: int, c: XmlElemV| c.name),
            ),
            _ => None,
        },
        _ => None,
    }
}

/// The members of `a` that do not occur in `b`, in order.
pub open spec fn keys_diff(a: Seq<Seq<char>>, b: Seq<Seq<char>>) -> Seq<Seq<char>> {
    a.filter(|k: Seq<char>| !b.contains(k))
}

/// The verdict of `expect:entries` / `expect:only-entries`.
pub open spec fn check_diff_spec(only: bool, expected: Seq<Seq<char>>, actual: Seq<Seq<char>>) -> Result<
    (),
    (Seq<char>, Seq<Seq<char>>),
> {
    if only {
        let diff = keys_diff(actual, expected);
        if diff.len() == 0 {
            Ok(())
        } else {
            Err(
                (
                    "The following unexpected entries were received: "@ + value_text(
                        NodeValV::SList(diff),
                    ),
                    diff,
                ),
            )
        }
    } else {
        let diff = keys_diff(expected, actual);
        if diff.len() == 0 {
            Ok(())
        } else {
            Err(
                (
                    "The following expected entries were missing: "@ + value_text(
                        NodeValV::SList(diff),
                    ),
                    diff,
                ),
            )
        }
    }
}

/// The verdict of `expect:count` for one counted value.
pub open spec fn expect_count_spec(expected: int, v: NodeValV) -> Result<(), Seq<char>> {
    match v {
        NodeValV::MMap(m) => if m.len() == expected {
            Ok(())
        } else {
            Err(
                "Expected "@ + dec_seq(expected as nat) + " map entries but there were "@
                    + dec_seq(m.len()),
            )
        },
        NodeValV::SList(l) => if l.len() == expected {
            Ok(())
        } else {
            Err(
                "Expected "@ + dec_seq(expected as nat) + " items but there were "@ + dec_seq(
                    l.len(),
                ),
            )
        },
        NodeValV::Str(s) => if byte_len(s) == expected {
            Ok(())
        } else {
            Err(
                "Expected a string with a length of "@ + dec_seq(expected as nat)
                    + " but it was "@ + dec_seq(byte_len(s)),
            )
        },
        NodeValV::List(l) => if l.len() == expected {
            Ok(())
        } else {
            Err(
                "Expected "@ + dec_seq(expected as nat) + " items but there were "@ + dec_seq(
                    l.len(),
                ),
            )
        },
        NodeValV::Json(j) => match j {
            JsonV::Object(o) => if o.len() == expected {
                Ok(())
            } else {
                Err(
                    "Expected "@ + dec_seq(expected as nat)
                        + " object entries but there were "@ + dec_seq(o.len()),
                )
            },
            JsonV::Array(a) => if a.len() == expected {
                Ok(())
            } else {
                Err(
                    "Expected "@ + dec_seq(expected as nat) + " array items but there were "@
                        + dec_seq(a.len()),
                )
            },
            other => Err(
                "'expect:count' can't be used with a "@ + crate::json::json_type_name(other)
                    + " value"@,
            ),
        },
        NodeValV::Xml(x) => match x {
            XmlValV::Element(_) => if expected == 1 {
                Ok(())
            } else {
                Err("Expected "@ + dec_seq(expected as nat) + " elements but there were 1"@)
            },
            other => Err(
                "'expect:count' can't be used with a "@ + value_type_name(NodeValV::Xml(other))
                    + " value"@,
            ),
        },
        other => Err(
            "'expect:count' can't be used with a "@ + value_type_name(other) + " value"@,
        ),
    }
}

/// The strings one value contributes to `join` and `error`.
pub open spec fn join_strings(v: NodeValV) -> Seq<Seq<char>> {
    match v {
        NodeValV::Str(s) => seq![s],
        NodeValV::Bool(b) => seq![if b { "true"@ } else { "false"@ }],
        NodeValV::MMap(m) => seq![value_text(NodeValV::MMap(m))],
        NodeValV::SList(l) => l,
        NodeValV::BArray(b) => seq![value_text(NodeValV::BArray(b))],
        NodeValV::Namespaced(ns, val) => seq![ns + ":"@ + val],
        NodeValV::UInt(u) => seq![dec_seq(u as nat)],
        NodeValV::Json(j) => seq![json_text(j)],
        _ => Seq::empty(),
    }
}

/// All strings a value list contributes, in order.
pub open spec fn join_strings_all(vals: Seq<NodeValV>) -> Seq<Seq<char>>
    decreases vals,
{
    if vals.len() == 0 {
        Seq::empty()
    } else {
        join_strings_all(vals.drop_last()) + join_strings(vals.last())
    }
}

/// Concatenation of strings with a separator between them.
pub open spec fn join_with_sep(strs: Seq<Seq<char>>, sep: Seq<char>) -> Seq<char>
    decreases strs,
{
    if strs.len() == 0 {
        Seq::empty()
    } else if strs.len() == 1 {
        strs.last()
    } else {
        join_with_sep(strs.drop_last(), sep) + sep + strs.last()
    }
}

/// The `json:*` helpers: the type-name check.
pub open spec fn json_check_type_spec(t: Seq<char>, j: JsonV) -> Result<(), Seq<char>> {
    if t == "NULL"@ {
        if j is Null {
            Ok(())
        } else {
            Err("Was expecting a JSON "@ + "NULL"@ + " but got a "@ + crate::json::json_type_name(j))
        }
    } else if t == "BOOL"@ {
        if j is Bool {
            Ok(())
        } else {
            Err("Was expecting a JSON "@ + "Bool"@ + " but got a "@ + crate::json::json_type_name(j))
        }
    } else if t == "NUMBER"@ {
        if j is Number {
            Ok(())
        } else {
            Err("Was expecting a JSON "@ + "Number"@ + " but got a "@ + crate::json::json_type_name(j))
        }
    } else if t == "STRING"@ {
        if j is Str {
            Ok(())
        } else {
            Err("Was expecting a JSON "@ + "String"@ + " but got a "@ + crate::json::json_type_name(j))
        }
    } else if t == "ARRAY"@ {
        if j is Array {
            Ok(())
        } else {
            Err("Was expecting a JSON "@ + "Array"@ + " but got a "@ + crate::json::json_type_name(j))
        }
    } else if t == "OBJECT"@ {
        if j is Object {
            Ok(())
        } else {
            Err("Was expecting a JSON "@ + "Object"@ + " but got a "@ + crate::json::json_type_name(j))
        }
    } else {
        Err("'"@ + t + "' is not a valid JSON type"@)
    }
}

/// The `json:match:length` length check.
pub open spec fn json_check_length_spec(len: int, j: JsonV) -> Result<(), Seq<char>> {
    match j {
        JsonV::Array(a) => if a.len() == len {
            Ok(())
        } else {
            Err(
                "Was expecting a length of "@ + dec_seq(len as nat)
                    + ", but actual length is "@ + dec_seq(a.len()),
            )
        },
        JsonV::Object(o) => if o.len() == len {
            Ok(())
        } else {
            Err(
                "Was expecting a length of "@ + dec_seq(len as nat)
                    + ", but actual length is "@ + dec_seq(o.len()),
            )
        },
        _ => Ok(()),
    }
}

/// The `json:expect:empty` verdict on a checked JSON value.
pub open spec fn json_empty_spec(j: JsonV) -> Result<(), Seq<char>> {
    match j {
        JsonV::Null => Ok(()),
        JsonV::Str(s) => if s.len() == 0 {
            Ok(())
        } else {
            Err("Expected JSON String ("@ + json_text(j) + ") to be empty"@)
        },
        JsonV::Array(a) => if a.len() == 0 {
            Ok(())
        } else {
            Err("Expected JSON Array ("@ + json_text(j) + ") to be empty"@)
        },
        JsonV::Object(o) => if o.len() == 0 {
            Ok(())
        } else {
            Err("Expected JSON Object ("@ + json_text(j) + ") to be empty"@)
        },
        _ => Err("Expected json ("@ + json_text(j) + ") to be empty"@),
    }
}

/// The transformed copy of a node used by `for-each`: the first wildcard
/// index in container labels and current-value paths becomes concrete.
pub open spec fn inject_spec(n: NodeV, index: int) -> NodeV
    decreases n, 1int,
{
    match n.node_type {
        PlanTypeV::Container(l) => NodeV {
            node_type: PlanTypeV::Container(
                match l {
                    ContainerLabelV::Path(p) => ContainerLabelV::Path(
                        crate::path::inject_index_spec(p, index),
                    ),
                    other => other,
                },
            ),
            result: n.result,
            children: inject_seq(n.children, index),
        },
        PlanTypeV::Action(_) => NodeV {
            node_type: n.node_type,
            result: n.result,
            children: inject_seq(n.children, index),
        },
        PlanTypeV::Pipeline => NodeV {
            node_type: n.node_type,
            result: n.result,
            children: inject_seq(n.children, index),
        },
        PlanTypeV::Splat => NodeV {
            node_type: n.node_type,
            result: n.result,
            children: inject_seq(n.children, index),
        },
        PlanTypeV::ResolveCurrent(p) => NodeV {
            node_type: PlanTypeV::ResolveCurrent(crate::path::inject_index_spec(p, index)),
            result: n.result,
            children: Seq::empty(),
        },
        _ => n,
    }
}

/// The injections of a child list.
pub open spec fn inject_seq(cs: Seq<NodeV>, index: int) -> Seq<NodeV>
    decreases cs, 0int,
{
    if cs.len() == 0 {
        Seq::empty()
    } else {
        inject_seq(cs.drop_last(), index).push(inject_spec(cs.last(), index))
    }
}


/// Walking one node with the fuel guard the action layer uses.
pub open spec fn wguard<R: ValueResolver>(r: &R, st: StackV, n: NodeV, fuel: nat) -> (
    StackV,
    Result<NodeV, Seq<char>>,
)
    decreases fuel, 1int, 1int,
{
    if fuel == 0 {
        (st, Err(depth_msg()))
    } else {
        wspec(r, st, n, (fuel - 1) as nat)
    }
}

/// The action layer: dispatch by name over one action node.
pub open spec fn waction<R: ValueResolver>(
    r: &R,
    st: StackV,
    n: NodeV,
    name: Seq<char>,
    fuel: nat,
) -> (StackV, NodeV)
    decreases fuel, 2int, 1int,
{
    if name.len() >= 6 && name.take(6) == "match:"@ {
        amatch(r, st, n, name, name.skip(6), fuel)
    } else if name == "upper-case"@ {
        acase(r, st, n, fuel, true)
    } else if name == "lower-case"@ {
        acase(r, st, n, fuel, false)
    } else if name == "to-string"@ {
        ato_string(r, st, n, fuel)
    } else if name == "length"@ {
        alength(r, st, n, name, fuel)
    } else if name == "expect:empty"@ {
        aexpect_empty(r, st, n, name, fuel)
    } else if name == "convert:UTF8"@ {
        aone_value(r, st, n, name, fuel, 0)
    } else if name == "if"@ {
        aif(r, st, n, fuel)
    } else if name == "and"@ {
        aand_or(r, st, n, fuel, true)
    } else if name == "or"@ {
        aand_or(r, st, n, fuel, false)
    } else if name == "tee"@ {
        atee(r, st, n, fuel)
    } else if name == "apply"@ {
        (st, aapply(st, n))
    } else if name == "push"@ {
        apush(st, n)
    } else if name == "pop"@ {
        apop(st, n)
    } else if name == "json:parse"@ {
        aone_value(r, st, n, name, fuel, 1)
    } else if name == "xml:parse"@ {
        aone_value(r, st, n, name, fuel, 2)
    } else if name == "xml:tag-name"@ {
        aone_value(r, st, n, name, fuel, 3)
    } else if name == "xml:value"@ {
        aone_value(r, st, n, name, fuel, 4)
    } else if name == "xml:attributes"@ {
        aone_value(r, st, n, name, fuel, 5)
    } else if name == "json:expect:empty"@ {
        ajson_expect_empty(r, st, n, name, fuel)
    } else if name == "json:match:length"@ {
        ajson_match_length(r, st, n, name, fuel)
    } else if name == "json:expect:entries"@ {
        ajson_expect_entries(r, st, n, name, fuel)
    } else if name == "check:exists"@ {
        acheck_exists(r, st, n, name, fuel)
    } else if name == "expect:entries"@ {
        acheck_entries(r, st, n, name, fuel, false)
    } else if name == "expect:only-entries"@ {
        acheck_entries(r, st, n, name, fuel, true)
    } else if name == "expect:count"@ {
        aexpect_count(r, st, n, name, fuel)
    } else if name == "join"@ {
        ajoin(r, st, n, fuel, false, false)
    } else if name == "join-with"@ {
        ajoin(r, st, n, fuel, true, false)
    } else if name == "error"@ {
        ajoin(r, st, n, fuel, false, true)
    } else if name == "header:parse"@ {
        aheader_parse(r, st, n, name, fuel)
    } else if name == "for-each"@ {
        afor_each(r, st, n, fuel)
    } else {
        (st, err_node(n, "'"@ + name + "' is not a valid action"@))
    }
}

/// The stack-peeking action `apply`.
pub open spec fn aapply(st: StackV, n: NodeV) -> NodeV {
    if st.len() > 0 {
        NodeV { node_type: n.node_type, result: st.last(), children: n.children }
    } else {
        err_node(n, "No value to apply (stack is empty)"@)
    }
}

/// The stack-duplicating action `push`.
pub open spec fn apush(st: StackV, n: NodeV) -> (StackV, NodeV) {
    if st.len() > 0 {
        (
            st.push(st.last()),
            NodeV { node_type: n.node_type, result: st.last(), children: n.children },
        )
    } else {
        (st, err_node(n, "No value to push (value is empty)"@))
    }
}

/// The stack-discarding action `pop`.
pub open spec fn apop(st: StackV, n: NodeV) -> (StackV, NodeV) {
    if st.len() > 0 {
        let st2 = st.drop_last();
        (
            st2,
            NodeV { node_type: n.node_type, result: stack_top(st2), children: n.children },
        )
    } else {
        (st, err_node(n, "No value to pop (stack is empty)"@))
    }
}

/// The single-argument value transformers, selected by `kind`:
/// `convert:UTF8`, `json:parse`, `xml:parse`, `xml:tag-name`, `xml:value`,
/// `xml:attributes`.
pub open spec fn aone_value<R: ValueResolver>(
    r: &R,
    st: StackV,
    n: NodeV,
    name: Seq<char>,
    fuel: nat,
    kind: int,
) -> (StackV, NodeV)
    decreases fuel, 2int, 0int,
{
    let (st1, rr) = aval1(r, st, n, name, fuel);
    match rr {
        Err(m) => (st1, err_node(n, m)),
        Ok(w) => {
            let res = if kind == 0 {
                convert_utf8_spec(recorded(w))
            } else if kind == 1 {
                json_parse_spec(recorded(w))
            } else if kind == 2 {
                xml_parse_spec(recorded(w))
            } else if kind == 3 {
                xml_tag_name_spec(recorded(w))
            } else if kind == 4 {
                xml_value_spec(recorded(w))
            } else {
                xml_attributes_spec(recorded(w))
            };
            (st1, rebuilt(n, res, seq![w]))
        },
    }
}

/// The `check:exists` action.
pub open spec fn acheck_exists<R: ValueResolver>(
    r: &R,
    st: StackV,
    n: NodeV,
    name: Seq<char>,
    fuel: nat,
) -> (StackV, NodeV)
    decreases fuel, 2int, 0int,
{
    let (st1, rr) = aval1(r, st, n, name, fuel);
    match rr {
        Err(m) => (st1, err_node(n, m)),
        Ok(w) => (
            st1,
            rebuilt(
                n,
                NodeResV::Value(NodeValV::Bool(exists_spec(recorded(w)))),
                seq![w],
            ),
        ),
    }
}

/// The `length` action.
pub open spec fn alength<R: ValueResolver>(
    r: &R,
    st: StackV,
    n: NodeV,
    name: Seq<char>,
    fuel: nat,
) -> (StackV, NodeV)
    decreases fuel, 2int, 0int,
{
    let (st1, rr) = aval1(r, st, n, name, fuel);
    match rr {
        Err(m) => (st1, err_node(n, m)),
        Ok(w) => (st1, rebuilt(n, length_spec(value_of(recorded(w))), seq![w])),
    }
}

/// The case-changing actions.
pub open spec fn acase<R: ValueResolver>(r: &R, st: StackV, n: NodeV, fuel: nat, upper: bool) -> (
    StackV,
    NodeV,
)
    decreases fuel, 2int, 0int,
{
    let (st1, rr) = aevalc(r, st, n.children, fuel);
    match rr {
        Err((cs, m)) => (st1, rebuilt(n, NodeResV::Error(m), cs)),
        Ok((cs, vals)) => (
            st1,
            rebuilt(
                n,
                NodeResV::Value(
                    single_or_list(vals.map(|i: int, v: NodeValV| case_spec(v, upper))),
                ),
                cs,
            ),
        ),
    }
}

/// The `to-string` action.
pub open spec fn ato_string<R: ValueResolver>(r: &R, st: StackV, n: NodeV, fuel: nat) -> (
    StackV,
    NodeV,
)
    decreases fuel, 2int, 0int,
{
    let (st1, rr) = aevalc(r, st, n.children, fuel);
    match rr {
        Err((cs, m)) => (st1, rebuilt(n, NodeResV::Error(m), cs)),
        Ok((cs, vals)) => (
            st1,
            rebuilt(
                n,
                NodeResV::Value(single_or_list(vals.map(|i: int, v: NodeValV| to_string_spec(v)))),
                cs,
            ),
        ),
    }
}

/// The boolean folding actions `and` and `or`.
pub open spec fn aand_or<R: ValueResolver>(r: &R, st: StackV, n: NodeV, fuel: nat, is_and: bool) -> (
    StackV,
    NodeV,
)
    decreases fuel, 2int, 0int,
{
    let (st1, rr) = aevalc(r, st, n.children, fuel);
    match rr {
        Err((cs, m)) => (st1, rebuilt(n, NodeResV::Error(m), cs)),
        Ok((cs, vals)) => (
            st1,
            rebuilt(n, NodeResV::Value(fold_bool(vals, is_and)), cs),
        ),
    }
}

/// Folding values with the value algebra, starting from `NULL`.
pub open spec fn fold_bool(vals: Seq<NodeValV>, is_and: bool) -> NodeValV
    decreases vals,
{
    if vals.len() == 0 {
        NodeValV::Null
    } else if is_and {
        crate::value::and_spec(fold_bool(vals.drop_last(), is_and), vals.last())
    } else {
        crate::value::or_spec(fold_bool(vals.drop_last(), is_and), vals.last())
    }
}

/// The text-joining actions `join`, `join-with` and `error`.
pub open spec fn ajoin<R: ValueResolver>(
    r: &R,
    st: StackV,
    n: NodeV,
    fuel: nat,
    with_sep: bool,
    as_error: bool,
) -> (StackV, NodeV)
    decreases fuel, 2int, 0int,
{
    let (st1, rr) = aevalc(r, st, n.children, fuel);
    match rr {
        Err((cs, m)) => (st1, rebuilt(n, NodeResV::Error(m), cs)),
        Ok((cs, vals)) => {
            let strs = join_strings_all(vals);
            let text = if with_sep && strs.len() > 0 {
                join_with_sep(strs.skip(1), strs[0])
            } else {
                join_with_sep(strs, Seq::empty())
            };
            (
                st1,
                rebuilt(
                    n,
                    if as_error {
                        NodeResV::Error(text)
                    } else {
                        NodeResV::Value(NodeValV::Str(text))
                    },
                    cs,
                ),
            )
        },
    }
}

/// Walking the optional custom-message argument; a failure there keeps the
/// original message.
pub open spec fn aopt_message<R: ValueResolver>(
    r: &R,
    st: StackV,
    orig: Seq<char>,
    opt: NodeV,
    fuel: nat,
) -> (StackV, Result<(Seq<char>, NodeV), ()>)
    decreases fuel, 1int, 2int,
{
    let (st1, rr) = wguard(r, st, opt, fuel);
    match rr {
        Ok(w2) => (st1, Ok((string_of(recorded(w2)), w2))),
        Err(_) => (st1, Err(())),
    }
}

/// The `expect:empty` action.
pub open spec fn aexpect_empty<R: ValueResolver>(
    r: &R,
    st: StackV,
    n: NodeV,
    name: Seq<char>,
    fuel: nat,
) -> (StackV, NodeV)
    decreases fuel, 2int, 0int,
{
    let (st1, rr) = avaln(r, st, n, name, 1, 1, fuel);
    match rr {
        Err(m) => (st1, err_node(n, m)),
        Ok((vals, opt)) => {
            let first = recorded(vals[0]);
            match first {
                NodeResV::Error(e) => (st1, rebuilt(n, NodeResV::Error(e), vals + opt)),
                _ => match expect_empty_spec(first) {
                    Ok(res) => (st1, rebuilt(n, res, vals + opt)),
                    Err(err) => if opt.len() > 0 {
                        let (st2, mr) = aopt_message(r, st1, err, opt[0], fuel);
                        match mr {
                            Ok((message, w2)) => (
                                st2,
                                rebuilt(n, NodeResV::Error(message), vals + seq![w2]),
                            ),
                            Err(_) => (st2, rebuilt(n, NodeResV::Error(err), vals + opt)),
                        }
                    } else {
                        (st1, rebuilt(n, NodeResV::Error(err), vals + opt))
                    },
                },
            }
        },
    }
}

/// The `expect:count` action.
pub open spec fn aexpect_count<R: ValueResolver>(
    r: &R,
    st: StackV,
    n: NodeV,
    name: Seq<char>,
    fuel: nat,
) -> (StackV, NodeV)
    decreases fuel, 2int, 0int,
{
    let (st1, rr) = avaln(r, st, n, name, 2, 1, fuel);
    match rr {
        Err(m) => (st1, err_node(n, m)),
        Ok((vals, opt)) => {
            let expected = match value_of(recorded(vals[0])) {
                NodeValV::UInt(u) => u,
                _ => 0,
            };
            let second = value_of(recorded(vals[1]));
            match expect_count_spec(expected, second) {
                Ok(_) => (st1, rebuilt(n, NodeResV::Okay, vals + opt)),
                Err(err) => if opt.len() > 0 {
                    let (st2, mr) = aopt_message(r, st1, err, opt[0], fuel);
                    match mr {
                        Ok((message, w2)) => (
                            st2,
                            rebuilt(n, NodeResV::Error(message), vals + seq![w2]),
                        ),
                        Err(_) => (st2, rebuilt(n, NodeResV::Error(err), vals + opt)),
                    }
                } else {
                    (st1, rebuilt(n, NodeResV::Error(err), vals + opt))
                },
            }
        },
    }
}

/// The `expect:entries` / `expect:only-entries` action.
pub open spec fn acheck_entries<R: ValueResolver>(
    r: &R,
    st: StackV,
    n: NodeV,
    name: Seq<char>,
    fuel: nat,
    only: bool,
) -> (StackV, NodeV)
    decreases fuel, 2int, 0int,
{
    let (st1, rr) = avaln(r, st, n, name, 2, 1, fuel);
    match rr {
        Err(m) => (st1, err_node(n, m)),
        Ok((vals, opt)) => {
            let expected = match value_of(recorded(vals[0])) {
                NodeValV::SList(l) => l,
                _ => Seq::empty(),
            };
            let second = value_of(recorded(vals[1]));
            match entry_keys(second) {
                None => {
                    let err = "'"@ + name + "' can't be used with a "@ + value_type_name(second)
                        + " value"@;
                    (st1, rebuilt(n, NodeResV::Error(err), vals + opt))
                },
                Some(actual) => match check_diff_spec(only, expected, actual) {
                    Ok(_) => (st1, rebuilt(n, NodeResV::Okay, vals + opt)),
                    Err((err, diff)) => if opt.len() > 0 {
                        let st_p = st1.push(Some(NodeResV::Value(NodeValV::SList(diff))));
                        let (st2, mr) = aopt_message(r, st_p, err, opt[0], fuel);
                        let st3 = if st2.len() > 0 {
                            st2.drop_last()
                        } else {
                            st2
                        };
                        match mr {
                            Ok((message, w2)) => (
                                st3,
                                rebuilt(n, NodeResV::Error(message), vals + seq![w2]),
                            ),
                            Err(_) => (st3, rebuilt(n, NodeResV::Error(err), vals + opt)),
                        }
                    } else {
                        (st1, rebuilt(n, NodeResV::Error(err), vals + opt))
                    },
                },
            }
        },
    }
}

/// The `json:expect:empty` action.
pub open spec fn ajson_expect_empty<R: ValueResolver>(
    r: &R,
    st: StackV,
    n: NodeV,
    name: Seq<char>,
    fuel: nat,
) -> (StackV, NodeV)
    decreases fuel, 2int, 0int,
{
    let (st1, rr) = aval2(r, st, n, name, fuel);
    match rr {
        Err(m) => (st1, err_node(n, m)),
        Ok((a, b)) => {
            let cs = seq![a, b];
            match string_result(recorded(a)) {
                Err(e) => (st1, rebuilt(n, NodeResV::Error(e), cs)),
                Ok(t) => match json_value_result(recorded(b)) {
                    Err(e) => (st1, rebuilt(n, NodeResV::Error(e), cs)),
                    Ok(j) => match json_check_type_spec(t, j) {
                        Err(e) => (st1, rebuilt(n, NodeResV::Error(e), cs)),
                        Ok(_) => match json_empty_spec(j) {
                            Ok(_) => (
                                st1,
                                rebuilt(
                                    n,
                                    NodeResV::Value(NodeValV::Bool(true)),
                                    cs,
                                ),
                            ),
                            Err(e) => (st1, rebuilt(n, NodeResV::Error(e), cs)),
                        },
                    },
                },
            }
        },
    }
}

/// The first argument of the `json:*` assertions, as a string.
pub open spec fn string_result(r: NodeResV) -> Result<Seq<char>, Seq<char>> {
    match r {
        NodeResV::Value(NodeValV::Str(s)) => Ok(s),
        other => Err("'"@ + crate::value::res_text(other) + "' is not a valid JSON type"@),
    }
}

/// A JSON argument of the `json:*` assertions.
pub open spec fn json_value_result(r: NodeResV) -> Result<JsonV, Seq<char>> {
    match r {
        NodeResV::Value(v) => match v {
            NodeValV::Json(j) => Ok(j),
            other => Err("Was expecting a JSON value, but got "@ + value_text(other)),
        },
        other => Err(
            "Was expecting a JSON value, but got "@ + crate::value::res_text(other),
        ),
    }
}

/// The `json:match:length` action.
pub open spec fn ajson_match_length<R: ValueResolver>(
    r: &R,
    st: StackV,
    n: NodeV,
    name: Seq<char>,
    fuel: nat,
) -> (StackV, NodeV)
    decreases fuel, 2int, 0int,
{
    let (st1, rr) = aval3(r, st, n, name, fuel);
    match rr {
        Err(m) => (st1, err_node(n, m)),
        Ok((a, b, c)) => {
            let cs = seq![a, b, c];
            match string_result(recorded(a)) {
                Err(e) => (st1, rebuilt(n, NodeResV::Error(e), cs)),
                Ok(t) => match recorded(b) {
                    NodeResV::Value(NodeValV::UInt(len)) => match json_value_result(
                        recorded(c),
                    ) {
                        Err(e) => (st1, rebuilt(n, NodeResV::Error(e), cs)),
                        Ok(j) => match json_check_type_spec(t, j) {
                            Err(e) => (st1, rebuilt(n, NodeResV::Error(e), cs)),
                            Ok(_) => match json_check_length_spec(len, j) {
                                Err(e) => (st1, rebuilt(n, NodeResV::Error(e), cs)),
                                Ok(_) => (
                                    st1,
                                    rebuilt(
                                        n,
                                        NodeResV::Value(NodeValV::Bool(true)),
                                        cs,
                                    ),
                                ),
                            },
                        },
                    },
                    other => (
                        st1,
                        rebuilt(
                            n,
                            NodeResV::Error(
                                "'"@ + crate::value::res_text(other)
                                    + "' is not a valid number"@,
                            ),
                            cs,
                        ),
                    ),
                },
            }
        },
    }
}

/// The `json:expect:entries` action.
pub open spec fn ajson_expect_entries<R: ValueResolver>(
    r: &R,
    st: StackV,
    n: NodeV,
    name: Seq<char>,
    fuel: nat,
) -> (StackV, NodeV)
    decreases fuel, 2int, 0int,
{
    let (st1, rr) = aval3(r, st, n, name, fuel);
    match rr {
        Err(m) => (st1, err_node(n, m)),
        Ok((a, b, c)) => {
            let cs = seq![a, b, c];
            match string_result(recorded(a)) {
                Err(e) => (st1, rebuilt(n, NodeResV::Error(e), cs)),
                Ok(t) => match recorded(b) {
                    NodeResV::Value(NodeValV::SList(keys)) => match json_value_result(
                        recorded(c),
                    ) {
                        Err(e) => (st1, rebuilt(n, NodeResV::Error(e), cs)),
                        Ok(j) => match json_check_type_spec(t, j) {
                            Err(e) => (st1, rebuilt(n, NodeResV::Error(e), cs)),
                            Ok(_) => match j {
                                JsonV::Object(fields) => {
                                    let actual = fields.map(
                                        |i: int, f: (Seq<char>, JsonV)| f.0,
                                    );
                                    let diff = keys_diff(keys, actual);
                                    if diff.len() == 0 {
                                        (
                                            st1,
                                            rebuilt(
                                                n,
                                                NodeResV::Value(NodeValV::Bool(true)),
                                                cs,
                                            ),
                                        )
                                    } else {
                                        (
                                            st1,
                                            rebuilt(
                                                n,
                                                NodeResV::Error(
                                                    "The following expected entries were missing from the actual Object: "@
                                                        + join_with_sep(diff, ", "@),
                                                ),
                                                cs,
                                            ),
                                        )
                                    }
                                },
                                other => (
                                    st1,
                                    rebuilt(
                                        n,
                                        NodeResV::Error(
                                            "Was expecting a JSON Object, but got "@ + json_text(
                                                other,
                                            ),
                                        ),
                                        cs,
                                    ),
                                ),
                            },
                        },
                    },
                    other => (
                        st1,
                        rebuilt(
                            n,
                            NodeResV::Error(
                                "'"@ + crate::value::res_text(other)
                                    + "' is not a list of Strings"@,
                            ),
                            cs,
                        ),
                    ),
                },
            }
        },
    }
}

/// The `header:parse` action.
pub open spec fn aheader_parse<R: ValueResolver>(
    r: &R,
    st: StackV,
    n: NodeV,
    name: Seq<char>,
    fuel: nat,
) -> (StackV, NodeV)
    decreases fuel, 2int, 0int,
{
    let (st1, rr) = aval1(r, st, n, name, fuel);
    match rr {
        Err(m) => (st1, err_node(n, m)),
        Ok(w) => (
            st1,
            rebuilt(
                n,
                NodeResV::Value(NodeValV::Json(header_parse_spec(string_of(recorded(w))))),
                seq![w],
            ),
        ),
    }
}

/// The parsed form of a header value: the part before the first `;`, and
/// the `key=value` parameters after it.
pub open spec fn header_parse_spec(s: Seq<char>) -> JsonV {
    let parts = split_nonempty(s, ';');
    let value = if parts.len() > 0 {
        parts[0]
    } else {
        Seq::empty()
    };
    let params = if parts.len() > 0 {
        header_params(parts.skip(1))
    } else {
        Seq::empty()
    };
    JsonV::Object(
        seq![
            ("parameters"@, JsonV::Object(params)),
            ("value"@, JsonV::Str(value)),
        ],
    )
}

/// The `key=value` parameters among the trailing header parts.
pub open spec fn header_params(parts: Seq<Seq<char>>) -> Seq<(Seq<char>, JsonV)>
    decreases parts,
{
    if parts.len() == 0 {
        Seq::empty()
    } else {
        let rest = header_params(parts.drop_last());
        match eq_split(parts.last()) {
            Some((k, v)) => rest.push((trim_spaces(k), JsonV::Str(trim_spaces(v)))),
            None => rest,
        }
    }
}

/// Splitting a `key=value` pair at its first `=`.
pub open spec fn eq_split(p: Seq<char>) -> Option<(Seq<char>, Seq<char>)>
    decreases p.len(),
{
    if p.len() == 0 {
        None
    } else if p[0] == '=' {
        Some((Seq::empty(), p.skip(1)))
    } else {
        match eq_split(p.skip(1)) {
            Some((a, b)) => Some((seq![p[0]] + a, b)),
            None => None,
        }
    }
}

/// Splitting on a separator, dropping empty parts, trimming spaces.
pub open spec fn split_nonempty(s: Seq<char>, sep: char) -> Seq<Seq<char>> {
    split_scan(s, sep, Seq::empty())
}

/// The scanner behind `split_nonempty`: `cur` is the part read so far.
pub open spec fn split_scan(s: Seq<char>, sep: char, cur: Seq<char>) -> Seq<Seq<char>>
    decreases s.len(),
{
    if s.len() == 0 {
        flush_part(cur)
    } else if s[0] == sep {
        flush_part(cur) + split_scan(s.skip(1), sep, Seq::empty())
    } else {
        split_scan(s.skip(1), sep, cur.push(s[0]))
    }
}

/// A finished part: kept when nonempty after trimming.
pub open spec fn flush_part(cur: Seq<char>) -> Seq<Seq<char>> {
    let t = trim_spaces(cur);
    if t.len() == 0 {
        Seq::empty()
    } else {
        seq![t]
    }
}

/// Text with leading and trailing spaces and tabs removed.
pub open spec fn trim_spaces(s: Seq<char>) -> Seq<char>
    decreases s.len(),
{
    if s.len() == 0 {
        Seq::empty()
    } else if s[0] == ' ' || s[0] == '\t' {
        trim_spaces(s.skip(1))
    } else if s.last() == ' ' || s.last() == '\t' {
        trim_spaces(s.drop_last())
    } else {
        s
    }
}


/// The `match:<rule>` action.
pub open spec fn amatch<R: ValueResolver>(
    r: &R,
    st: StackV,
    n: NodeV,
    name: Seq<char>,
    matcher: Seq<char>,
    fuel: nat,
) -> (StackV, NodeV)
    decreases fuel, 2int, 0int,
{
    let (st1, rr) = avaln(r, st, n, name, 3, 1, fuel);
    match rr {
        Err(m) => (st1, with_result(n, NodeResV::Error(m))),
        Ok((args, opt)) => {
            match value_or_error_spec(recorded(args[0])) {
                Err(e) => (st1, rebuilt(n, NodeResV::Error(e), args + opt)),
                Ok(expected) => match value_or_error_spec(recorded(args[1])) {
                    Err(e) => (st1, rebuilt(n, NodeResV::Error(e), args + opt)),
                    Ok(actual) => match value_or_error_spec(recorded(args[2])) {
                        Err(e) => (st1, rebuilt(n, NodeResV::Error(e), args + opt)),
                        Ok(pv) => {
                            let params = match pv {
                                NodeValV::Json(j) => j,
                                _ => JsonV::Null,
                            };
                            match crate::rules::create_spec(matcher, params) {
                                Err(e) => (st1, with_result(n, NodeResV::Error(e))),
                                Ok(rule) => if !crate::rules::rule_fits(rule) {
                                    (
                                        st1,
                                        with_result(
                                            n,
                                            NodeResV::Error(crate::rules::rule_overflow_msg(rule)),
                                        ),
                                    )
                                } else {
                                    match match_node_spec(expected, actual, rule, false) {
                                        Ok(_) => (
                                            st1,
                                            rebuilt(
                                                n,
                                                NodeResV::Value(NodeValV::Bool(true)),
                                                args + opt,
                                            ),
                                        ),
                                        Err(err) => if opt.len() > 0 {
                                            let st_p = st1.push(
                                                Some(NodeResV::Error(err)),
                                            );
                                            let (st2, mr) = aopt_message(
                                                r,
                                                st_p,
                                                err,
                                                opt[0],
                                                fuel,
                                            );
                                            match mr {
                                                Ok((message, w2)) => (
                                                    st2,
                                                    rebuilt(
                                                        n,
                                                        NodeResV::Error(message),
                                                        args + seq![w2],
                                                    ),
                                                ),
                                                Err(_) => (
                                                    st2,
                                                    rebuilt(
                                                        n,
                                                        NodeResV::Error(err),
                                                        args + opt,
                                                    ),
                                                ),
                                            }
                                        } else {
                                            (
                                                st1,
                                                rebuilt(
                                                    n,
                                                    NodeResV::Error(err),
                                                    args + opt,
                                                ),
                                            )
                                        },
                                    }
                                },
                            }
                        },
                    },
                },
            }
        },
    }
}

/// An outcome's value, or the error the original walk reported for it.
pub open spec fn value_or_error_spec(r: NodeResV) -> Result<NodeValV, Seq<char>> {
    match r {
        NodeResV::Value(v) => Ok(v),
        NodeResV::Error(m) => Err(m),
        NodeResV::Okay => Err("The node does not have a value"@),
    }
}

/// The `if` action.
pub open spec fn aif<R: ValueResolver>(r: &R, st: StackV, n: NodeV, fuel: nat) -> (StackV, NodeV)
    decreases fuel, 2int, 0int,
{
    if n.children.len() == 0 {
        (st, err_node(n, "'if' action requires at least one argument"@))
    } else {
        let (st1, rr) = wguard(r, st, n.children[0], fuel);
        match rr {
            Err(e) => (st1, with_result(n, NodeResV::Error(e))),
            Ok(first) => {
                let cond = recorded(first);
                let base = n.children.update(0, first);
                if !res_truthy(cond) {
                    if n.children.len() > 2 {
                        let (st2, rr2) = wguard(r, st1, n.children[2], fuel);
                        match rr2 {
                            Ok(else_node) => (
                                st2,
                                NodeV {
                                    node_type: n.node_type,
                                    result: else_node.result,
                                    children: base.update(2, else_node),
                                },
                            ),
                            Err(e) => (
                                st2,
                                rebuilt(n, NodeResV::Error(e), base),
                            ),
                        }
                    } else {
                        (
                            st1,
                            rebuilt(n, NodeResV::Value(NodeValV::Bool(false)), base),
                        )
                    }
                } else if n.children.len() > 1 {
                    let (st2, rr2) = wguard(r, st1, n.children[1], fuel);
                    match rr2 {
                        Ok(second) => (
                            st2,
                            rebuilt(
                                n,
                                NodeResV::Value(
                                    NodeValV::Bool(res_truthy(recorded(second))),
                                ),
                                seq![first, second] + n.children.skip(2),
                            ),
                        ),
                        Err(_) => (
                            st2,
                            rebuilt(
                                n,
                                NodeResV::Value(NodeValV::Bool(false)),
                                seq![first, n.children[1]] + n.children.skip(2),
                            ),
                        ),
                    }
                } else {
                    (
                        st1,
                        rebuilt(n, cond, seq![first] + n.children.skip(1)),
                    )
                }
            },
        }
    }
}

/// The `tee` action.
pub open spec fn atee<R: ValueResolver>(r: &R, st: StackV, n: NodeV, fuel: nat) -> (StackV, NodeV)
    decreases fuel, 2int, 0int,
{
    if n.children.len() == 0 {
        (st, with_result(n, NodeResV::Okay))
    } else {
        let (st1, rr) = wguard(r, st, n.children[0], fuel);
        match rr {
            Err(e) => (st1, with_result(n, NodeResV::Error(e))),
            Ok(first) => {
                let fr = recorded(first);
                if fr is Error {
                    (
                        st1,
                        rebuilt(n, fr, seq![first] + n.children.skip(1)),
                    )
                } else {
                    let st_p = st1.push(first.result);
                    let (st2, rs, folded) = atee_rest(
                        r,
                        st_p,
                        n.children.skip(1),
                        NodeResV::Okay,
                        fuel,
                    );
                    let st3 = if st2.len() > 0 {
                        st2.drop_last()
                    } else {
                        st2
                    };
                    (
                        st3,
                        rebuilt(
                            n,
                            NodeResV::Value(NodeValV::Bool(res_truthy(folded))),
                            seq![first] + rs,
                        ),
                    )
                }
            },
        }
    }
}

/// Walking the remaining children of `tee`: a failure becomes an error node
/// and the fold continues.
pub open spec fn atee_rest<R: ValueResolver>(
    r: &R,
    st: StackV,
    cs: Seq<NodeV>,
    folded: NodeResV,
    fuel: nat,
) -> (StackV, Seq<NodeV>, NodeResV)
    decreases fuel, 1int, cs.len(),
{
    if cs.len() == 0 {
        (st, Seq::empty(), folded)
    } else if fuel == 0 {
        let folded2 = res_and(folded, Some(NodeResV::Error(depth_msg())));
        let (st2, rs, f3) = atee_rest(
            r,
            st,
            cs.skip(1),
            folded2,
            fuel,
        );
        (st2, seq![with_result(cs[0], NodeResV::Error(depth_msg()))] + rs, f3)
    } else {
        let (st1, rr) = wspec(r, st, cs[0], (fuel - 1) as nat);
        match rr {
            Ok(v) => {
                let folded2 = res_and(folded, match v.result {
                    Some(x) => Some(x),
                    None => None,
                });
                let (st2, rs, f3) = atee_rest(r, st1, cs.skip(1), folded2, fuel);
                (st2, seq![v] + rs, f3)
            },
            Err(e) => {
                let folded2 = res_and(folded, Some(NodeResV::Error(e)));
                let (st2, rs, f3) = atee_rest(r, st1, cs.skip(1), folded2, fuel);
                (st2, seq![with_result(cs[0], NodeResV::Error(e))] + rs, f3)
            },
        }
    }
}

/// The `for-each` action.
pub open spec fn afor_each<R: ValueResolver>(r: &R, st: StackV, n: NodeV, fuel: nat) -> (
    StackV,
    NodeV,
)
    decreases fuel, 2int, 0int,
{
    if n.children.len() == 0 {
        (st, with_result(n, NodeResV::Okay))
    } else {
        let (st1, rr) = wguard(r, st, n.children[0], fuel);
        match rr {
            Err(e) => (st1, with_result(n, NodeResV::Error(e))),
            Ok(first) => {
                let fr = recorded(first);
                if fr is Error {
                    (
                        st1,
                        rebuilt(n, fr, seq![first] + n.children.skip(1)),
                    )
                } else {
                    let items = to_list_spec(value_of(fr));
                    let (st2, rs, folded) = afor_items(
                        r,
                        st1,
                        n.children.skip(1),
                        items.len() as int,
                        0,
                        NodeResV::Okay,
                        fuel,
                    );
                    (
                        st2,
                        rebuilt(
                            n,
                            NodeResV::Value(NodeValV::Bool(res_truthy(folded))),
                            seq![first] + rs,
                        ),
                    )
                }
            },
        }
    }
}

/// The iterations of `for-each`: for each index below `count`, every
/// template child is injected with the index and walked.
pub open spec fn afor_items<R: ValueResolver>(
    r: &R,
    st: StackV,
    templates: Seq<NodeV>,
    count: int,
    index: int,
    folded: NodeResV,
    fuel: nat,
) -> (StackV, Seq<NodeV>, NodeResV)
    decreases fuel, 1int, count - index,
{
    if index >= count {
        (st, Seq::empty(), folded)
    } else {
        let (st1, rs1, f1) = afor_one(r, st, templates, templates.len() as int, 0, index, folded, fuel);
        let (st2, rs2, f2) = afor_items(r, st1, templates, count, index + 1, f1, fuel);
        (st2, rs1 + rs2, f2)
    }
}

/// One iteration of `for-each`: the template children from `k` on, injected
/// with `index` and walked.
pub open spec fn afor_one<R: ValueResolver>(
    r: &R,
    st: StackV,
    templates: Seq<NodeV>,
    count: int,
    k: int,
    index: int,
    folded: NodeResV,
    fuel: nat,
) -> (StackV, Seq<NodeV>, NodeResV)
    decreases fuel, 0int, count - k,
{
    if k >= count || k >= templates.len() {
        (st, Seq::empty(), folded)
    } else {
        let injected = inject_spec(templates[k], index);
        let (st1, one) = if fuel == 0 {
            (st, Err::<NodeV, Seq<char>>(depth_msg()))
        } else {
            let (s, rr) = wspec(r, st, injected, (fuel - 1) as nat);
            (s, rr)
        };
        match one {
            Ok(v) => {
                let folded2 = res_and(folded, match v.result {
                    Some(x) => Some(x),
                    None => None,
                });
                let (st2, rs, f3) = afor_one(r, st1, templates, count, k + 1, index, folded2, fuel);
                (st2, seq![v] + rs, f3)
            },
            Err(e) => {
                let folded2 = res_and(folded, Some(NodeResV::Error(e)));
                let (st2, rs, f3) = afor_one(r, st1, templates, count, k + 1, index, folded2, fuel);
                (st2, seq![with_result(injected, NodeResV::Error(e))] + rs, f3)
            },
        }
    }
}


/// Main interpreter for the matching plan AST.
#[derive(Debug)]
pub struct ExecutionPlanInterpreter {
    /// Stack of intermediate values (used by the pipeline and apply action)
    pub value_stack: Vec<Option<NodeResult>>,
    /// Context to use to execute the plan
    pub context: PlanMatchingContext,
}

/// Clones a node list.
#[verifier::loop_isolation(false)]
pub fn clone_nodes(nodes: &Vec<ExecutionPlanNode>) -> (r: Vec<ExecutionPlanNode>)
    ensures
        pn_seq(r@) == pn_seq(nodes@),
{
    broadcast use lemma_pn_seq;

    let mut out: Vec<ExecutionPlanNode> = Vec::new();
    let mut i: usize = 0;
    while i < nodes.len()
        invariant
            i <= nodes.len(),
            out@.len() == i,
            forall|j: int| 0 <= j < i ==> pn(out@[j]) == pn(nodes@[j]),
        decreases nodes.len() - i,
    {
        let c = nodes[i].clone();
        out.push(c);
        i = i + 1;
    }
    proof {
        assert(pn_seq(out@) =~= pn_seq(nodes@));
    }
    out
}

/// Concatenates two node lists.
#[verifier::loop_isolation(false)]
pub fn concat_nodes(a: Vec<ExecutionPlanNode>, b: Vec<ExecutionPlanNode>) -> (r: Vec<
    ExecutionPlanNode,
>)
    ensures
        pn_seq(r@) == pn_seq(a@) + pn_seq(b@),
{
    broadcast use lemma_pn_seq;

    let ghost av = pn_seq(a@);
    let ghost bv = pn_seq(b@);
    let mut out = a;
    let mut i: usize = 0;
    proof {
        assert(pn_seq(out@) =~= av + bv.take(0));
    }
    while i < b.len()
        invariant
            i <= b.len(),
            pn_seq(out@) =~= av + bv.take(i as int),
        decreases b.len() - i,
    {
        let c = b[i].clone();
        proof {
            lemma_pn_seq(b@);
            assert(pn(c) == bv[i as int]);
        }
        let ghost cv = pn(c);
        out = push_node(out, c);
        proof {
            assert(pn_seq(out@) =~= av + bv.take(i + 1));
        }
        i = i + 1;
    }
    proof {
        assert(bv.take(b@.len() as int) =~= bv);
    }
    out
}

/// Appends one node, returning the grown list.
pub fn push_node(mut v: Vec<ExecutionPlanNode>, n: ExecutionPlanNode) -> (r: Vec<
    ExecutionPlanNode,
>)
    ensures
        pn_seq(r@) == pn_seq(v@).push(n@),
{
    broadcast use lemma_pn_seq;

    let ghost pre = v@;
    let ghost nv2 = n@;
    v.push(n);
    proof {
        assert(v@ =~= pre.push(v@.last()));
        lemma_pn_seq(v@);
        lemma_pn_seq(pre);
        assert(pn_seq(v@) =~= pn_seq(pre).push(nv2));
    }
    v
}

impl ExecutionPlanInterpreter {
    /// Creates a new interpreter.
    pub fn new() -> (r: Self)
        ensures
            stack_view(r.value_stack@) =~= Seq::<Option<NodeResV>>::empty(),
            r.context@.matching_rules.len() == 0,
            !r.context@.config.allow_unexpected_entries,
    {
        let r = ExecutionPlanInterpreter {
            value_stack: Vec::new(),
            context: PlanMatchingContext::default(),
        };
        proof {
            assert(stack_view(r.value_stack@) =~= Seq::<Option<NodeResV>>::empty());
        }
        r
    }

    /// Creates a new interpreter with a given test context.
    pub fn new_with_context(context: &PlanMatchingContext) -> (r: Self)
        ensures
            stack_view(r.value_stack@) =~= Seq::<Option<NodeResV>>::empty(),
            r.context@ == context@,
    {
        let r = ExecutionPlanInterpreter {
            value_stack: Vec::new(),
            context: context.clone(),
        };
        proof {
            assert(stack_view(r.value_stack@) =~= Seq::<Option<NodeResV>>::empty());
        }
        r
    }

    /// Push a result value onto the value stack.
    pub fn push_result(&mut self, value: Option<NodeResult>)
        ensures
            stack_view(final(self).value_stack@) == stack_view(old(self).value_stack@).push(
                opt_view(value),
            ),
            final(self).context == old(self).context,
    {
        let ghost pre = self.value_stack@;
        let ghost vv = opt_view(value);
        self.value_stack.push(value);
        proof {
            assert(stack_view(self.value_stack@) =~= stack_view(pre).push(vv));
        }
    }

    /// Replace the top value of the stack with the new value.
    pub fn update_result(&mut self, value: Option<NodeResult>)
        ensures
            stack_view(final(self).value_stack@) == update_top(
                stack_view(old(self).value_stack@),
                opt_view(value),
            ),
            final(self).context == old(self).context,
    {
        let ghost pre = self.value_stack@;
        let ghost vv = opt_view(value);
        let n = self.value_stack.len();
        if n > 0 {
            self.value_stack.set(n - 1, value);
            proof {
                assert(stack_view(self.value_stack@) =~= update_top(stack_view(pre), vv));
            }
        } else {
            self.value_stack.push(value);
            proof {
                assert(stack_view(self.value_stack@) =~= update_top(stack_view(pre), vv));
            }
        }
    }

    /// Remove and return the top of the stack.
    pub fn pop_result(&mut self) -> (r: Option<NodeResult>)
        ensures
            stack_view(final(self).value_stack@) == (if stack_view(
                old(self).value_stack@,
            ).len() > 0 {
                stack_view(old(self).value_stack@).drop_last()
            } else {
                stack_view(old(self).value_stack@)
            }),
            (match r {
                Some(v) => Some(v@),
                None => None,
            }) == stack_top(stack_view(old(self).value_stack@)),
            final(self).context == old(self).context,
    {
        let ghost pre = self.value_stack@;
        match self.value_stack.pop() {
            Some(top) => {
                proof {
                    assert(stack_view(self.value_stack@) =~= stack_view(pre).drop_last());
                }
                match top {
                    Some(v) => Some(v),
                    None => None,
                }
            },
            None => None,
        }
    }

    /// Return the current stack value.
    pub fn stack_value(&self) -> (r: Option<NodeResult>)
        ensures
            (match r {
                Some(v) => Some(v@),
                None => None,
            }) == stack_top(stack_view(self.value_stack@)),
    {
        if self.value_stack.len() == 0 {
            None
        } else {
            match &self.value_stack[self.value_stack.len() - 1] {
                Some(v) => Some(v.clone()),
                None => None,
            }
        }
    }

    /// Resolves a path against the current stack value.
    #[verifier::loop_isolation(false)]
    pub fn resolve_stack_value(&self, path: &DocPath) -> (r: Result<NodeValue, String>)
        ensures
            match r {
                Ok(v) => rsv_spec(stack_view(self.value_stack@), path@) == Ok::<
                    NodeValV,
                    Seq<char>,
                >(v@),
                Err(m) => rsv_spec(stack_view(self.value_stack@), path@) == Err::<
                    NodeValV,
                    Seq<char>,
                >(m@),
            },
    {
        broadcast use crate::value::lemma_nv_seq, crate::json::lemma_jv_seq;

        let top = self.stack_value();
        match top {
            None => {
                let t = path.to_string();
                let mut out: Vec<char> = Vec::new();
                push_str(&mut out, "Can not resolve '");
                push_str(&mut out, t.as_str());
                push_str(
                    &mut out,
                    "', current value stack is either empty or contains an empty value",
                );
                Err(crate::strutil::chars_to_string(&out))
            },
            Some(NodeResult::VALUE(v)) => match v {
                NodeValue::NULL => {
                    let t = path.to_string();
                    let mut out: Vec<char> = Vec::new();
                    push_str(&mut out, "Can not resolve '");
                    push_str(&mut out, t.as_str());
                    push_str(
                        &mut out,
                        "', current stack value does not contain a value (is NULL)",
                    );
                    Err(crate::strutil::chars_to_string(&out))
                },
                NodeValue::JSON(j) => {
                    if path.is_root() {
                        Ok(NodeValue::JSON(j))
                    } else {
                        let toks = path.tokens();
                        let vals = crate::json::json_resolve(&j, toks.as_slice());
                        proof {
                            assert(toks@.map(|i: int, t: PathToken| t@) == path@);
                        }
                        if vals.len() == 0 {
                            Ok(NodeValue::NULL)
                        } else if vals.len() == 1 {
                            let only = vals[0].clone();
                            proof {
                                assert(jv_seq(vals@)[0] == crate::json::jv(vals@[0]));
                            }
                            Ok(NodeValue::JSON(only))
                        } else {
                            proof {
                                assert(jv_seq(vals@) == crate::json::json_resolve_seq(
                                    seq![crate::json::jv(j)],
                                    path@,
                                ));
                            }
                            Ok(NodeValue::JSON(JsonValue::Array(vals)))
                        }
                    }
                },
                NodeValue::XML(x) => {
                    if path.is_root() {
                        Ok(NodeValue::XML(x))
                    } else {
                        match x {
                            XmlValue::Element(e) => {
                                let vals = xml_resolve(&e, path);
                                if vals.len() == 0 {
                                    Ok(NodeValue::NULL)
                                } else if vals.len() == 1 {
                                    let mut vs = vals;
                                    let only = vs.remove(0);
                                    proof {
                                        assert(vs@ =~= Seq::<XmlValue>::empty());
                                    }
                                    Ok(NodeValue::XML(only))
                                } else {
                                    let mut items: Vec<NodeValue> = Vec::new();
                                    let ghost vv = vals@.map(|i: int, xv: XmlValue| xv@);
                                    let mut k: usize = 0;
                                    proof {
                                        assert(nv_seq(items@) =~= vv.map(
                                            |i: int, xv: XmlValV| NodeValV::Xml(xv),
                                        ).take(0));
                                    }
                                    while k < vals.len()
                                        invariant
                                            k <= vals.len(),
                                            vv == vals@.map(|i: int, xv: XmlValue| xv@),
                                            nv_seq(items@) =~= vv.map(
                                                |i: int, xv: XmlValV| NodeValV::Xml(xv),
                                            ).take(k as int),
                                        decreases vals.len() - k,
                                    {
                                        let item = NodeValue::XML(vals[k].clone());
                                        let ghost pre = items@;
                                        items.push(item);
                                        proof {
                                            assert(items@ =~= pre.push(items@.last()));
                                            crate::value::lemma_nv_seq(items@);
                                            crate::value::lemma_nv_seq(pre);
                                            assert(nv(items@.last()) == NodeValV::Xml(
                                                vv[k as int],
                                            ));
                                            assert(nv_seq(items@) =~= vv.map(
                                                |i: int, xv: XmlValV| NodeValV::Xml(xv),
                                            ).take(k + 1));
                                        }
                                        k = k + 1;
                                    }
                                    proof {
                                        let mv = vv.map(|i: int, xv: XmlValV| NodeValV::Xml(xv));
                                        assert(mv.take(vals@.len() as int) =~= mv);
                                    }
                                    Ok(NodeValue::LIST(items))
                                }
                            },
                            other => {
                                let t = path.to_string();
                                let mut out: Vec<char> = Vec::new();
                                push_str(&mut out, "Can not resolve '");
                                push_str(&mut out, t.as_str());
                                push_str(
                                    &mut out,
                                    "', current stack value does not contain a value that is resolvable",
                                );
                                Err(crate::strutil::chars_to_string(&out))
                            },
                        }
                    }
                },
                other => {
                    let t = path.to_string();
                    let mut out: Vec<char> = Vec::new();
                    push_str(&mut out, "Can not resolve '");
                    push_str(&mut out, t.as_str());
                    push_str(
                        &mut out,
                        "', current stack value does not contain a value that is resolvable",
                    );
                    Err(crate::strutil::chars_to_string(&out))
                },
            },
            Some(_) => {
                let t = path.to_string();
                let mut out: Vec<char> = Vec::new();
                push_str(&mut out, "Can not resolve '");
                push_str(&mut out, t.as_str());
                push_str(&mut out, "', current stack value does not contain a value");
                Err(crate::strutil::chars_to_string(&out))
            },
        }
    }
}

/// Resolves a path against a root element.
#[verifier::loop_isolation(false)]
pub fn xml_resolve(root: &XmlElement, path: &DocPath) -> (r: Vec<XmlValue>)
    ensures
        r@.map(|i: int, v: XmlValue| v@) == xml_resolve_root(root@, path@),
{
    let toks = path.tokens();
    proof {
        assert(toks@.map(|i: int, t: PathToken| t@) == path@);
    }
    let mut vals: Vec<XmlValue> = Vec::new();
    let mut start: usize = 0;
    if toks.len() >= 2 {
        match &toks[1] {
            PathToken::Field(f) => {
                let is_text = str_eq(f.as_str(), "#text");
                let is_attr = f.as_str().unicode_len() > 0 && f.as_str().get_char(0) == '@';
                if is_text || is_attr {
                    let root_val = XmlValue::Element(root.clone());
                    let mut seeds: Vec<XmlValue> = Vec::new();
                    seeds.push(root_val);
                    proof {
                        assert(seeds@.map(|i: int, v: XmlValue| v@) =~= seq![
                            XmlValV::Element(root@),
                        ]);
                    }
                    vals = xml_step_values(&seeds, &toks[1]);
                    proof {
                        assert(seq![XmlValV::Element(root@)].skip(1) =~= Seq::<
                            XmlValV,
                        >::empty());
                        assert(xml_list_step(Seq::<XmlValV>::empty(), path@[1]) =~= Seq::<
                            XmlValV,
                        >::empty());
                        assert(xml_list_step(seq![XmlValV::Element(root@)], path@[1])
                            =~= crate::xml::xml_step_one(
                            XmlValV::Element(root@),
                            path@[1],
                        ) + Seq::<XmlValV>::empty());
                        assert(vals@.map(|i: int, v: XmlValue| v@)
                            =~= crate::xml::xml_step_one(XmlValV::Element(root@), path@[1]));
                    }
                    start = 2;
                } else {
                    let qn = crate::xml::name(root);
                    if str_eq(f.as_str(), qn.as_str()) {
                        vals.push(XmlValue::Element(root.clone()));
                        proof {
                            assert(vals@.map(|i: int, v: XmlValue| v@) =~= seq![
                                XmlValV::Element(root@),
                            ]);
                        }
                        start = 2;
                    } else {
                        proof {
                            assert(vals@.map(|i: int, v: XmlValue| v@) =~= Seq::<
                                XmlValV,
                            >::empty());
                            lemma_xml_resolve_empty(path@.skip(2));
                        }
                        start = 2;
                    }
                }
            },
            _ => {
                vals.push(XmlValue::Element(root.clone()));
                proof {
                    assert(vals@.map(|i: int, v: XmlValue| v@) =~= seq![
                        XmlValV::Element(root@),
                    ]);
                }
                start = 1;
            },
        }
    } else {
        vals.push(XmlValue::Element(root.clone()));
        proof {
            assert(vals@.map(|i: int, v: XmlValue| v@) =~= seq![XmlValV::Element(root@)]);
        }
        return vals;
    }
    let ghost target = xml_resolve_root(root@, path@);
    let mut t: usize = start;
    proof {
        assert(path@.skip(t as int).skip(0) =~= path@.skip(t as int));
    }
    while t < toks.len()
        invariant
            start <= t <= toks@.len(),
            xml_resolve_seq(vals@.map(|i: int, v: XmlValue| v@), path@.skip(t as int))
                == target,
        decreases toks@.len() - t,
    {
        let next = xml_step_values(&vals, &toks[t]);
        proof {
            assert(path@.skip(t as int)[0] == path@[t as int]);
            assert(path@.skip(t as int).skip(1) =~= path@.skip(t + 1));
        }
        vals = next;
        t = t + 1;
    }
    proof {
        assert(path@.skip(toks@.len() as int).len() == 0);
    }
    vals
}

/// When the root's name does not match, no tokens can resolve anything.
proof fn lemma_xml_resolve_empty(toks: Seq<PathTokV>)
    ensures
        xml_resolve_seq(Seq::<XmlValV>::empty(), toks) == Seq::<XmlValV>::empty(),
    decreases toks.len(),
{
    if toks.len() > 0 {
        assert(xml_list_step(Seq::<XmlValV>::empty(), toks[0]) =~= Seq::<XmlValV>::empty());
        lemma_xml_resolve_empty(toks.skip(1));
    }
}


impl ExecutionPlanInterpreter {
    /// Walks the tree from a given node, executing all visited nodes.
    pub fn walk_tree<R: ValueResolver>(
        &mut self,
        path: &Vec<String>,
        node: &ExecutionPlanNode,
        value_resolver: &R,
    ) -> (r: Result<ExecutionPlanNode, String>)
        ensures
            ({
                let (s2, res) = wspec(
                    value_resolver,
                    stack_view(old(self).value_stack@),
                    node@,
                    u64::MAX as nat,
                );
                stack_view(final(self).value_stack@) == s2 && final(self).context == old(
                    self,
                ).context && match r {
                    Ok(nn) => res == Ok::<NodeV, Seq<char>>(nn@),
                    Err(m) => res == Err::<NodeV, Seq<char>>(m@),
                }
            }),
    {
        self.walk_rec(node, value_resolver, u64::MAX)
    }

    /// Walks one node with an explicit recursion budget.
    #[verifier::rlimit(100)]
    pub fn walk_rec<R: ValueResolver>(
        &mut self,
        node: &ExecutionPlanNode,
        value_resolver: &R,
        fuel: u64,
    ) -> (r: Result<ExecutionPlanNode, String>)
        ensures
            ({
                let (s2, res) = wspec(
                    value_resolver,
                    stack_view(old(self).value_stack@),
                    node@,
                    fuel as nat,
                );
                stack_view(final(self).value_stack@) == s2 && final(self).context == old(
                    self,
                ).context && match r {
                    Ok(nn) => res == Ok::<NodeV, Seq<char>>(nn@),
                    Err(m) => res == Err::<NodeV, Seq<char>>(m@),
                }
            }),
        decreases fuel, 3int, 0int,
    {
        broadcast use lemma_pn_seq;

        match &node.node_type {
            PlanNodeType::EMPTY => Ok(node.clone()),
            PlanNodeType::ANNOTATION(_) => Ok(node.clone()),
            PlanNodeType::VALUE(v) => Ok(self.eval_value_node(node, v)),
            PlanNodeType::RESOLVE(p) => {
                match value_resolver.resolve(p, &self.context) {
                    Ok(val) => Ok(
                        ExecutionPlanNode {
                            node_type: node.node_type.clone(),
                            result: Some(NodeResult::VALUE(val)),
                            children: Vec::new(),
                        },
                    ),
                    Err(err) => Ok(
                        ExecutionPlanNode {
                            node_type: node.node_type.clone(),
                            result: Some(NodeResult::ERROR(err)),
                            children: Vec::new(),
                        },
                    ),
                }
            },
            PlanNodeType::RESOLVE_CURRENT(p) => {
                match self.resolve_stack_value(p) {
                    Ok(val) => Ok(
                        ExecutionPlanNode {
                            node_type: node.node_type.clone(),
                            result: Some(NodeResult::VALUE(val)),
                            children: Vec::new(),
                        },
                    ),
                    Err(err) => Ok(
                        ExecutionPlanNode {
                            node_type: node.node_type.clone(),
                            result: Some(NodeResult::ERROR(err)),
                            children: Vec::new(),
                        },
                    ),
                }
            },
            PlanNodeType::CONTAINER(_) => {
                let queue = clone_nodes(&node.children);
                match self.walk_queue(queue, value_resolver, NodeResult::OK, fuel) {
                    Ok((rs, status)) => Ok(
                        ExecutionPlanNode {
                            node_type: node.node_type.clone(),
                            result: Some(status.truthy()),
                            children: rs,
                        },
                    ),
                    Err(m) => Err(m),
                }
            },
            PlanNodeType::PIPELINE => {
                self.push_result(None);
                let queue = clone_nodes(&node.children);
                match self.walk_pipe(queue, value_resolver, fuel) {
                    Ok(rs) => {
                        let v = self.pop_result();
                        match v {
                            Some(value) => Ok(
                                ExecutionPlanNode {
                                    node_type: node.node_type.clone(),
                                    result: Some(value),
                                    children: rs,
                                },
                            ),
                            None => Ok(
                                ExecutionPlanNode {
                                    node_type: node.node_type.clone(),
                                    result: Some(
                                        NodeResult::ERROR(
                                            String::from_str("Value from stack is empty"),
                                        ),
                                    ),
                                    children: rs,
                                },
                            ),
                        }
                    },
                    Err(m) => Err(m),
                }
            },
            PlanNodeType::SPLAT => {
                let queue = clone_nodes(&node.children);
                match self.walk_splat(queue, value_resolver, fuel) {
                    Ok(rs) => Ok(
                        ExecutionPlanNode {
                            node_type: node.node_type.clone(),
                            result: Some(NodeResult::OK),
                            children: rs,
                        },
                    ),
                    Err(m) => Err(m),
                }
            },
            PlanNodeType::ACTION(a) => {
                let name = a.clone();
                Ok(self.run_action(name.as_str(), value_resolver, node, fuel))
            },
        }
    }

    /// Evaluates a literal value node.
    #[verifier::rlimit(100)]
    fn eval_value_node(&mut self, node: &ExecutionPlanNode, v: &NodeValue) -> (r:
        ExecutionPlanNode)
        ensures
            stack_view(final(self).value_stack@) == stack_view(old(self).value_stack@),
            final(self).context == old(self).context,
            node@.node_type matches PlanTypeV::Value(vv) ==> r@ == value_node_spec(node@, v@),
    {
        match v {
            NodeValue::NAMESPACED(ns, val) => {
                if str_eq(ns.as_str(), "json") {
                    match crate::foreign::parse_json(val.as_str().as_bytes()) {
                        Ok(j) => ExecutionPlanNode {
                            node_type: node.node_type.clone(),
                            result: Some(NodeResult::VALUE(NodeValue::JSON(j))),
                            children: Vec::new(),
                        },
                        Err(m) => ExecutionPlanNode {
                            node_type: node.node_type.clone(),
                            result: Some(NodeResult::ERROR(m)),
                            children: Vec::new(),
                        },
                    }
                } else if str_eq(ns.as_str(), "xml") {
                    let text = match crate::foreign::unescape_text(val.as_str()) {
                        Some(t) => t,
                        None => val.clone(),
                    };
                    match crate::foreign::parse_xml(text.as_str().as_bytes()) {
                        Ok(e) => ExecutionPlanNode {
                            node_type: node.node_type.clone(),
                            result: Some(
                                NodeResult::VALUE(NodeValue::XML(XmlValue::Element(e))),
                            ),
                            children: Vec::new(),
                        },
                        Err(m) => {
                            let mut out: Vec<char> = Vec::new();
                            push_str(&mut out, "Failed to parse XML value: ");
                            push_str(&mut out, m.as_str());
                            ExecutionPlanNode {
                                node_type: node.node_type.clone(),
                                result: Some(
                                    NodeResult::ERROR(crate::strutil::chars_to_string(&out)),
                                ),
                                children: Vec::new(),
                            }
                        },
                    }
                } else {
                    let mut out: Vec<char> = Vec::new();
                    push_str(&mut out, "'");
                    push_str(&mut out, ns.as_str());
                    push_str(&mut out, "' is not a known namespace");
                    proof {
                        assert(out@ =~= "'"@ + ns@ + "' is not a known namespace"@);
                    }
                    ExecutionPlanNode {
                        node_type: node.node_type.clone(),
                        result: Some(NodeResult::ERROR(crate::strutil::chars_to_string(&out))),
                        children: Vec::new(),
                    }
                }
            },
            other => ExecutionPlanNode {
                node_type: node.node_type.clone(),
                result: Some(NodeResult::VALUE(other.clone())),
                children: Vec::new(),
            },
        }
    }

    /// Walks a container's work queue.
    fn walk_queue<R: ValueResolver>(
        &mut self,
        queue: Vec<ExecutionPlanNode>,
        value_resolver: &R,
        status: NodeResult,
        fuel: u64,
    ) -> (r: Result<(Vec<ExecutionPlanNode>, NodeResult), String>)
        ensures
            ({
                let (s2, res) = wqueue(
                    value_resolver,
                    stack_view(old(self).value_stack@),
                    pn_seq(queue@),
                    status@,
                    fuel as nat,
                );
                stack_view(final(self).value_stack@) == s2 && final(self).context == old(
                    self,
                ).context && match r {
                    Ok((rs, stf)) => res == Ok::<(Seq<NodeV>, NodeResV), Seq<char>>(
                        (pn_seq(rs@), stf@),
                    ),
                    Err(m) => res == Err::<(Seq<NodeV>, NodeResV), Seq<char>>(m@),
                }
            }),
        decreases fuel, 1int, 0int,
    {
        broadcast use lemma_pn_seq;

        if queue.len() == 0 {
            proof {
                assert(pn_seq(queue@).len() == 0);
            }
            Ok((Vec::new(), status))
        } else if fuel == 0 {
            Err(String::from_str("Plan tree is too deep to execute"))
        } else {
            let ghost original = queue@;
            let mut q = queue;
            let first = q.remove(0);
            proof {
                lemma_pn_seq(q@);
                lemma_pn_seq(original);
                assert(q@ =~= original.skip(1));
                assert(first@ == pn(original[0]));
                assert(pn_seq(q@) =~= pn_seq(original).skip(1));
                assert(pn_seq(original)[0] == first@);
            }
            match self.walk_rec(&first, value_resolver, fuel - 1) {
                Err(m) => Err(m),
                Ok(c) => {
                    let rec = match c.value() {
                        Some(v) => v,
                        None => NodeResult::OK,
                    };
                    let status2 = status.and(&Some(rec));
                    let rest = if c.is_splat() {
                        concat_nodes(clone_nodes(&c.children), q)
                    } else {
                        q
                    };
                    match self.walk_queue(rest, value_resolver, status2, fuel - 1) {
                        Err(m) => Err(m),
                        Ok((rs, stf)) => {
                            let mut rs2: Vec<ExecutionPlanNode> = Vec::new();
                            let ghost cv = c@;
                            rs2.push(c);
                            let out = concat_nodes(rs2, rs);
                            proof {
                                assert(pn_seq(out@) =~= seq![cv] + pn_seq(rs@));
                            }
                            Ok((out, stf))
                        },
                    }
                },
            }
        }
    }

    /// Walks a pipeline's work queue.
    fn walk_pipe<R: ValueResolver>(
        &mut self,
        queue: Vec<ExecutionPlanNode>,
        value_resolver: &R,
        fuel: u64,
    ) -> (r: Result<Vec<ExecutionPlanNode>, String>)
        ensures
            ({
                let (s2, res) = wpipe(
                    value_resolver,
                    stack_view(old(self).value_stack@),
                    pn_seq(queue@),
                    fuel as nat,
                );
                stack_view(final(self).value_stack@) == s2 && final(self).context == old(
                    self,
                ).context && match r {
                    Ok(rs) => res == Ok::<Seq<NodeV>, Seq<char>>(pn_seq(rs@)),
                    Err(m) => res == Err::<Seq<NodeV>, Seq<char>>(m@),
                }
            }),
        decreases fuel, 1int, 0int,
    {
        broadcast use lemma_pn_seq;

        if queue.len() == 0 {
            proof {
                assert(pn_seq(queue@).len() == 0);
            }
            Ok(Vec::new())
        } else if fuel == 0 {
            Err(String::from_str("Plan tree is too deep to execute"))
        } else {
            let ghost original = queue@;
            let mut q = queue;
            let first = q.remove(0);
            proof {
                lemma_pn_seq(q@);
                lemma_pn_seq(original);
                assert(q@ =~= original.skip(1));
                assert(first@ == pn(original[0]));
                assert(pn_seq(q@) =~= pn_seq(original).skip(1));
                assert(pn_seq(original)[0] == first@);
            }
            match self.walk_rec(&first, value_resolver, fuel - 1) {
                Err(m) => Err(m),
                Ok(c) => {
                    let updated = match &c.result {
                        Some(v) => Some(v.clone()),
                        None => None,
                    };
                    self.update_result(updated);
                    let rest = if c.is_splat() {
                        concat_nodes(clone_nodes(&c.children), q)
                    } else {
                        q
                    };
                    match self.walk_pipe(rest, value_resolver, fuel - 1) {
                        Err(m) => Err(m),
                        Ok(rs) => {
                            let mut rs2: Vec<ExecutionPlanNode> = Vec::new();
                            let ghost cv = c@;
                            rs2.push(c);
                            let out = concat_nodes(rs2, rs);
                            proof {
                                assert(pn_seq(out@) =~= seq![cv] + pn_seq(rs@));
                            }
                            Ok(out)
                        },
                    }
                },
            }
        }
    }

    /// Walks a splat node's children, expanding each result.
    fn walk_splat<R: ValueResolver>(
        &mut self,
        queue: Vec<ExecutionPlanNode>,
        value_resolver: &R,
        fuel: u64,
    ) -> (r: Result<Vec<ExecutionPlanNode>, String>)
        ensures
            ({
                let (s2, res) = wsplat(
                    value_resolver,
                    stack_view(old(self).value_stack@),
                    pn_seq(queue@),
                    fuel as nat,
                );
                stack_view(final(self).value_stack@) == s2 && final(self).context == old(
                    self,
                ).context && match r {
                    Ok(rs) => res == Ok::<Seq<NodeV>, Seq<char>>(pn_seq(rs@)),
                    Err(m) => res == Err::<Seq<NodeV>, Seq<char>>(m@),
                }
            }),
        decreases fuel, 1int, 0int,
    {
        broadcast use lemma_pn_seq;

        if queue.len() == 0 {
            proof {
                assert(pn_seq(queue@).len() == 0);
            }
            Ok(Vec::new())
        } else if fuel == 0 {
            Err(String::from_str("Plan tree is too deep to execute"))
        } else {
            let ghost original = queue@;
            let mut q = queue;
            let first = q.remove(0);
            proof {
                lemma_pn_seq(q@);
                lemma_pn_seq(original);
                assert(q@ =~= original.skip(1));
                assert(first@ == pn(original[0]));
                assert(pn_seq(q@) =~= pn_seq(original).skip(1));
                assert(pn_seq(original)[0] == first@);
            }
            match self.walk_rec(&first, value_resolver, fuel - 1) {
                Err(m) => Err(m),
                Ok(c) => {
                    let expanded = expand_splat_result(&c);
                    match self.walk_splat(q, value_resolver, fuel - 1) {
                        Err(m) => Err(m),
                        Ok(rs) => Ok(concat_nodes(expanded, rs)),
                    }
                },
            }
        }
    }
}

/// Expands one walked splat child into its contained values.
#[verifier::loop_isolation(false)]
fn expand_splat_result(c: &ExecutionPlanNode) -> (r: Vec<ExecutionPlanNode>)
    ensures
        pn_seq(r@) == splat_expand(c@),
{
    broadcast use lemma_pn_seq;

    let mut out: Vec<ExecutionPlanNode> = Vec::new();
    match &c.result {
        Some(NodeResult::VALUE(NodeValue::MMAP(m))) => {
            let ghost mv = crate::value::mm_view(m@);
            let ghost target = splat_expand(c@);
            let mut i: usize = 0;
            proof {
                assert(pn_seq(out@) =~= target.take(0));
            }
            while i < m.len()
                invariant
                    i <= m.len(),
                    mv == crate::value::mm_view(m@),
                    target == splat_expand(c@),
                    target.len() == m@.len(),
                    pn_seq(out@) =~= target.take(i as int),
                decreases m.len() - i,
            {
                let k = m[i].0.clone();
                let vs = crate::value::clone_slist(&m[i].1);
                let ghost vsv = crate::value::sl_view(vs@);
                let inner = NodeValue::SLIST(vs);
                proof {
                    assert(nv(inner) == NodeValV::SList(vsv));
                }
                let entry_val = NodeValue::ENTRY(k, Box::new(inner));
                proof {
                    assert(nv(entry_val) == NodeValV::Entry(
                        m@[i as int].0@,
                        Box::new(NodeValV::SList(vsv)),
                    ));
                    assert(mv[i as int] == (m@[i as int].0@, crate::value::sl_view(
                        m@[i as int].1@,
                    )));
                    assert(vsv == mv[i as int].1);
                }
                let item = c.clone_with_value(entry_val);
                proof {
                    assert(item@ == target[i as int]);
                }
                let ghost iv = item@;
                let ghost pre = out@;
                out.push(item);
                proof {
                    assert(out@ =~= pre.push(out@.last()));
                    lemma_pn_seq(out@);
                    lemma_pn_seq(pre);
                    assert(pn(out@.last()) == iv);
                    assert(pn_seq(out@) =~= target.take(i + 1));
                }
                i = i + 1;
            }
            proof {
                assert(target.take(m@.len() as int) =~= target);
            }
            out
        },
        Some(NodeResult::VALUE(NodeValue::SLIST(l))) => {
            let ghost target = splat_expand(c@);
            let mut i: usize = 0;
            proof {
                assert(pn_seq(out@) =~= target.take(0));
            }
            while i < l.len()
                invariant
                    i <= l.len(),
                    target == splat_expand(c@),
                    target.len() == l@.len(),
                    pn_seq(out@) =~= target.take(i as int),
                decreases l.len() - i,
            {
                let item = c.clone_with_value(NodeValue::STRING(l[i].clone()));
                proof {
                    assert(item@ == target[i as int]);
                }
                let ghost iv = item@;
                let ghost pre = out@;
                out.push(item);
                proof {
                    assert(out@ =~= pre.push(out@.last()));
                    lemma_pn_seq(out@);
                    lemma_pn_seq(pre);
                    assert(pn(out@.last()) == iv);
                    assert(pn_seq(out@) =~= target.take(i + 1));
                }
                i = i + 1;
            }
            proof {
                assert(target.take(l@.len() as int) =~= target);
            }
            out
        },
        _ => {
            let cc = c.clone();
            let ghost ccv = cc@;
            out.push(cc);
            proof {
                assert(pn_seq(out@) =~= seq![ccv]);
                assert(pn_seq(out@) =~= splat_expand(c@));
            }
            out
        },
    }
}


impl ExecutionPlanInterpreter {
    /// Walks an action's single argument, after checking arity.
    fn validate_one_arg<R: ValueResolver>(
        &mut self,
        node: &ExecutionPlanNode,
        name: &str,
        value_resolver: &R,
        fuel: u64,
    ) -> (r: Result<ExecutionPlanNode, String>)
        ensures
            ({
                let (s2, res) = aval1(
                    value_resolver,
                    stack_view(old(self).value_stack@),
                    node@,
                    name@,
                    fuel as nat,
                );
                stack_view(final(self).value_stack@) == s2 && final(self).context == old(
                    self,
                ).context && match r {
                    Ok(w) => res == Ok::<NodeV, Seq<char>>(w@),
                    Err(m) => res == Err::<NodeV, Seq<char>>(m@),
                }
            }),
        decreases fuel, 1int, 0int,
    {
        broadcast use lemma_pn_seq;

        proof {
            lemma_pn_seq(node.children@);
            assert(node@.children == pn_seq(node.children@));
            assert(node@.children.len() == node.children@.len());
        }
        if node.children.len() > 1 {
            let mut out: Vec<char> = Vec::new();
            push_str(&mut out, name);
            push_str(&mut out, " takes only one argument, got ");
            push_dec(&mut out, node.children.len() as u64);
            proof {
                assert(out@ =~= name@ + " takes only one argument, got "@ + dec_seq(
                    node@.children.len(),
                ));
            }
            Err(crate::strutil::chars_to_string(&out))
        } else if node.children.len() == 0 {
            let mut out: Vec<char> = Vec::new();
            push_str(&mut out, name);
            push_str(&mut out, " requires one argument, got none");
            proof {
                assert(out@ =~= name@ + " requires one argument, got none"@);
            }
            Err(crate::strutil::chars_to_string(&out))
        } else if fuel == 0 {
            Err(String::from_str("Plan tree is too deep to execute"))
        } else {
            self.walk_rec(&node.children[0], value_resolver, fuel - 1)
        }
    }

    /// Walks exactly two arguments of an action.
    fn validate_two_args<R: ValueResolver>(
        &mut self,
        node: &ExecutionPlanNode,
        name: &str,
        value_resolver: &R,
        fuel: u64,
    ) -> (r: Result<(ExecutionPlanNode, ExecutionPlanNode), String>)
        ensures
            ({
                let (s2, res) = aval2(
                    value_resolver,
                    stack_view(old(self).value_stack@),
                    node@,
                    name@,
                    fuel as nat,
                );
                stack_view(final(self).value_stack@) == s2 && final(self).context == old(
                    self,
                ).context && match r {
                    Ok((a, b)) => res == Ok::<(NodeV, NodeV), Seq<char>>((a@, b@)),
                    Err(m) => res == Err::<(NodeV, NodeV), Seq<char>>(m@),
                }
            }),
        decreases fuel, 1int, 0int,
    {
        broadcast use lemma_pn_seq;

        proof {
            lemma_pn_seq(node.children@);
            assert(node@.children == pn_seq(node.children@));
            assert(node@.children.len() == node.children@.len());
        }
        if node.children.len() != 2 {
            let mut out: Vec<char> = Vec::new();
            push_str(&mut out, "Action '");
            push_str(&mut out, name);
            push_str(&mut out, "' requires two arguments, got ");
            push_dec(&mut out, node.children.len() as u64);
            proof {
                assert(out@ =~= "Action '"@ + name@ + "' requires two arguments, got "@
                    + dec_seq(node@.children.len()));
            }
            Err(crate::strutil::chars_to_string(&out))
        } else if fuel == 0 {
            Err(String::from_str("Plan tree is too deep to execute"))
        } else {
            match self.walk_rec(&node.children[0], value_resolver, fuel - 1) {
                Err(m) => Err(m),
                Ok(a) => match self.walk_rec(&node.children[1], value_resolver, fuel - 1) {
                    Err(m) => Err(m),
                    Ok(b) => Ok((a, b)),
                },
            }
        }
    }

    /// Walks exactly three arguments of an action.
    #[verifier::rlimit(100)]
    fn validate_three_args<R: ValueResolver>(
        &mut self,
        node: &ExecutionPlanNode,
        name: &str,
        value_resolver: &R,
        fuel: u64,
    ) -> (r: Result<(ExecutionPlanNode, ExecutionPlanNode, ExecutionPlanNode), String>)
        ensures
            ({
                let (s2, res) = aval3(
                    value_resolver,
                    stack_view(old(self).value_stack@),
                    node@,
                    name@,
                    fuel as nat,
                );
                stack_view(final(self).value_stack@) == s2 && final(self).context == old(
                    self,
                ).context && match r {
                    Ok((a, b, c)) => res == Ok::<(NodeV, NodeV, NodeV), Seq<char>>(
                        (a@, b@, c@),
                    ),
                    Err(m) => res == Err::<(NodeV, NodeV, NodeV), Seq<char>>(m@),
                }
            }),
        decreases fuel, 1int, 0int,
    {
        broadcast use lemma_pn_seq;

        proof {
            lemma_pn_seq(node.children@);
            assert(node@.children == pn_seq(node.children@));
            assert(node@.children.len() == node.children@.len());
        }
        if node.children.len() != 3 {
            let mut out: Vec<char> = Vec::new();
            push_str(&mut out, "Action '");
            push_str(&mut out, name);
            push_str(&mut out, "' requires three arguments, got ");
            push_dec(&mut out, node.children.len() as u64);
            proof {
                assert(out@ =~= "Action '"@ + name@ + "' requires three arguments, got "@
                    + dec_seq(node@.children.len()));
            }
            Err(crate::strutil::chars_to_string(&out))
        } else if fuel == 0 {
            Err(String::from_str("Plan tree is too deep to execute"))
        } else {
            match self.walk_rec(&node.children[0], value_resolver, fuel - 1) {
                Err(m) => Err(m),
                Ok(a) => match self.walk_rec(&node.children[1], value_resolver, fuel - 1) {
                    Err(m) => Err(m),
                    Ok(b) => match self.walk_rec(
                        &node.children[2],
                        value_resolver,
                        fuel - 1,
                    ) {
                        Err(m) => Err(m),
                        Ok(c) => Ok((a, b, c)),
                    },
                },
            }
        }
    }

    /// Walks a list of nodes in order, stopping at the first failure.
    fn walk_node_list<R: ValueResolver>(
        &mut self,
        nodes: Vec<ExecutionPlanNode>,
        value_resolver: &R,
        fuel: u64,
    ) -> (r: Result<Vec<ExecutionPlanNode>, String>)
        ensures
            ({
                let (s2, res) = walk_list(
                    value_resolver,
                    stack_view(old(self).value_stack@),
                    pn_seq(nodes@),
                    fuel as nat,
                );
                stack_view(final(self).value_stack@) == s2 && final(self).context == old(
                    self,
                ).context && match r {
                    Ok(ws) => res == Ok::<Seq<NodeV>, Seq<char>>(pn_seq(ws@)),
                    Err(m) => res == Err::<Seq<NodeV>, Seq<char>>(m@),
                }
            }),
        decreases fuel, 0int, nodes@.len(),
    {
        broadcast use lemma_pn_seq;

        if nodes.len() == 0 {
            proof {
                assert(pn_seq(nodes@).len() == 0);
            }
            Ok(Vec::new())
        } else if fuel == 0 {
            Err(String::from_str("Plan tree is too deep to execute"))
        } else {
            let ghost original = nodes@;
            let mut q = nodes;
            let first = q.remove(0);
            proof {
                lemma_pn_seq(q@);
                lemma_pn_seq(original);
                assert(q@ =~= original.skip(1));
                assert(first@ == pn(original[0]));
                assert(pn_seq(q@) =~= pn_seq(original).skip(1));
                assert(pn_seq(original)[0] == first@);
            }
            match self.walk_rec(&first, value_resolver, fuel - 1) {
                Err(m) => Err(m),
                Ok(c) => match self.walk_node_list(q, value_resolver, fuel) {
                    Err(m) => Err(m),
                    Ok(rest) => {
                        let mut rs2: Vec<ExecutionPlanNode> = Vec::new();
                        let ghost cv = c@;
                        rs2.push(c);
                        let out = concat_nodes(rs2, rest);
                        proof {
                            assert(pn_seq(out@) =~= seq![cv] + pn_seq(rest@));
                        }
                        Ok(out)
                    },
                },
            }
        }
    }

    /// Walks the first `required` arguments of an action.
    #[verifier::rlimit(100)]
    fn validate_args<R: ValueResolver>(
        &mut self,
        required: usize,
        optional: usize,
        node: &ExecutionPlanNode,
        name: &str,
        value_resolver: &R,
        fuel: u64,
    ) -> (r: Result<(Vec<ExecutionPlanNode>, Vec<ExecutionPlanNode>), String>)
        requires
            required + optional <= usize::MAX,
        ensures
            ({
                let (s2, res) = avaln(
                    value_resolver,
                    stack_view(old(self).value_stack@),
                    node@,
                    name@,
                    required as int,
                    optional as int,
                    fuel as nat,
                );
                stack_view(final(self).value_stack@) == s2 && final(self).context == old(
                    self,
                ).context && match r {
                    Ok((ws, opt)) => res == Ok::<(Seq<NodeV>, Seq<NodeV>), Seq<char>>(
                        (pn_seq(ws@), pn_seq(opt@)),
                    ),
                    Err(m) => res == Err::<(Seq<NodeV>, Seq<NodeV>), Seq<char>>(m@),
                }
            }),
        decreases fuel, 1int, 0int,
    {
        broadcast use lemma_pn_seq;

        proof {
            lemma_pn_seq(node.children@);
            assert(node@.children == pn_seq(node.children@));
            assert(node@.children.len() == node.children@.len());
        }
        if node.children.len() < required {
            let mut out: Vec<char> = Vec::new();
            push_str(&mut out, name);
            push_str(&mut out, " requires ");
            push_dec(&mut out, required as u64);
            push_str(&mut out, " arguments, got ");
            push_dec(&mut out, node.children.len() as u64);
            proof {
                assert(out@ =~= name@ + " requires "@ + dec_seq(required as nat)
                    + " arguments, got "@ + dec_seq(node@.children.len()));
            }
            Err(crate::strutil::chars_to_string(&out))
        } else if node.children.len() > required + optional {
            let mut out: Vec<char> = Vec::new();
            push_str(&mut out, name);
            push_str(&mut out, " supports at most ");
            push_dec(&mut out, optional as u64);
            push_str(&mut out, " arguments, got ");
            push_dec(&mut out, node.children.len() as u64);
            proof {
                assert(out@ =~= name@ + " supports at most "@ + dec_seq(optional as nat)
                    + " arguments, got "@ + dec_seq(node@.children.len()));
            }
            Err(crate::strutil::chars_to_string(&out))
        } else {
            let mut head: Vec<ExecutionPlanNode> = Vec::new();
            let mut i: usize = 0;
            proof {
                assert(pn_seq(head@) =~= pn_seq(node.children@).take(0));
                assert(node@.children.take(0) =~= pn_seq(node.children@).take(0));
            }
            while i < required
                invariant
                    i <= required <= node.children@.len(),
                    pn_seq(head@) =~= node@.children.take(i as int),
                decreases required - i,
            {
                let c = node.children[i].clone();
                proof {
                    lemma_pn_seq(node.children@);
                    assert(pn(c) == node@.children[i as int]);
                }
                head = push_node(head, c);
                proof {
                    assert(pn_seq(head@) =~= node@.children.take(i + 1));
                }
                i = i + 1;
            }
            let mut tail: Vec<ExecutionPlanNode> = Vec::new();
            let mut j: usize = required;
            proof {
                assert(pn_seq(tail@) =~= node@.children.skip(required as int).take(0));
            }
            while j < node.children.len()
                invariant
                    required <= j <= node.children@.len(),
                    pn_seq(tail@) =~= node@.children.skip(required as int).take(
                        j - required,
                    ),
                decreases node.children@.len() - j,
            {
                let c = node.children[j].clone();
                proof {
                    lemma_pn_seq(node.children@);
                    assert(pn(c) == node@.children[j as int]);
                    assert(node@.children.skip(required as int)[j - required]
                        == node@.children[j as int]);
                }
                tail = push_node(tail, c);
                proof {
                    assert(pn_seq(tail@) =~= node@.children.skip(required as int).take(
                        j - required + 1,
                    ));
                }
                j = j + 1;
            }
            proof {
                assert(node@.children.skip(required as int).take(
                    node.children@.len() - required,
                ) =~= node@.children.skip(required as int));
            }
            match self.walk_node_list(head, value_resolver, fuel) {
                Err(m) => Err(m),
                Ok(ws) => Ok((ws, tail)),
            }
        }
    }

    /// Evaluates an action's children to values.
    fn evaluate_children<R: ValueResolver>(
        &mut self,
        queue: Vec<ExecutionPlanNode>,
        value_resolver: &R,
        fuel: u64,
    ) -> (r: Result<
        (Vec<ExecutionPlanNode>, Vec<NodeValue>),
        (Vec<ExecutionPlanNode>, String),
    >)
        ensures
            ({
                let (s2, res) = aevalc(
                    value_resolver,
                    stack_view(old(self).value_stack@),
                    pn_seq(queue@),
                    fuel as nat,
                );
                stack_view(final(self).value_stack@) == s2 && final(self).context == old(
                    self,
                ).context && match r {
                    Ok((cs, vs)) => res == Ok::<
                        (Seq<NodeV>, Seq<NodeValV>),
                        (Seq<NodeV>, Seq<char>),
                    >((pn_seq(cs@), nv_seq(vs@))),
                    Err((cs, m)) => res == Err::<
                        (Seq<NodeV>, Seq<NodeValV>),
                        (Seq<NodeV>, Seq<char>),
                    >((pn_seq(cs@), m@)),
                }
            }),
        decreases fuel, 1int, 0int,
    {
        broadcast use lemma_pn_seq, crate::value::lemma_nv_seq;

        if queue.len() == 0 {
            proof {
                assert(pn_seq(queue@).len() == 0);
                assert(nv_seq(Seq::<NodeValue>::empty()).len() == 0);
            }
            let e1: Vec<ExecutionPlanNode> = Vec::new();
            let e2: Vec<NodeValue> = Vec::new();
            proof {
                assert(pn_seq(e1@) =~= Seq::<NodeV>::empty());
                assert(nv_seq(e2@) =~= Seq::<NodeValV>::empty());
            }
            Ok((e1, e2))
        } else if fuel == 0 {
            let e1: Vec<ExecutionPlanNode> = Vec::new();
            proof {
                assert(pn_seq(e1@) =~= Seq::<NodeV>::empty());
            }
            Err((e1, String::from_str("Plan tree is too deep to execute")))
        } else {
            let ghost original = queue@;
            let mut q = queue;
            let first = q.remove(0);
            proof {
                lemma_pn_seq(q@);
                lemma_pn_seq(original);
                assert(q@ =~= original.skip(1));
                assert(first@ == pn(original[0]));
                assert(pn_seq(q@) =~= pn_seq(original).skip(1));
                assert(pn_seq(original)[0] == first@);
            }
            match first.value() {
                Some(v) => match v {
                    NodeResult::ERROR(e) => {
                        let e1: Vec<ExecutionPlanNode> = Vec::new();
                        proof {
                            assert(pn_seq(e1@) =~= Seq::<NodeV>::empty());
                        }
                        Err((e1, e))
                    },
                    NodeResult::OK => self.evaluate_children(q, value_resolver, fuel - 1),
                    NodeResult::VALUE(val) => {
                        let ghost valv = val@;
                        match self.evaluate_children(q, value_resolver, fuel - 1) {
                            Ok((cs, vs)) => {
                                let mut vs2: Vec<NodeValue> = Vec::new();
                                vs2.push(val);
                                let out_vs = concat_values(vs2, vs);
                                proof {
                                    assert(nv_seq(out_vs@) =~= seq![valv] + nv_seq(vs@));
                                }
                                Ok((cs, out_vs))
                            },
                            Err(e) => Err(e),
                        }
                    },
                },
                None => {
                    match self.walk_rec(&first, value_resolver, fuel - 1) {
                        Err(m) => {
                            let e1: Vec<ExecutionPlanNode> = Vec::new();
                            proof {
                                assert(pn_seq(e1@) =~= Seq::<NodeV>::empty());
                            }
                            Err((e1, m))
                        },
                        Ok(c) => {
                            if c.is_splat() {
                                let spliced = concat_nodes(clone_nodes(&c.children), q);
                                let ghost cv = c@;
                                match self.evaluate_children(
                                    spliced,
                                    value_resolver,
                                    fuel - 1,
                                ) {
                                    Ok((cs, vs)) => {
                                        let mut cs2: Vec<ExecutionPlanNode> = Vec::new();
                                        cs2.push(c);
                                        let out_cs = concat_nodes(cs2, cs);
                                        proof {
                                            assert(pn_seq(out_cs@) =~= seq![cv] + pn_seq(
                                                cs@,
                                            ));
                                        }
                                        Ok((out_cs, vs))
                                    },
                                    Err((cs, m)) => {
                                        let mut cs2: Vec<ExecutionPlanNode> = Vec::new();
                                        cs2.push(c);
                                        let out_cs = concat_nodes(cs2, cs);
                                        proof {
                                            assert(pn_seq(out_cs@) =~= seq![cv] + pn_seq(
                                                cs@,
                                            ));
                                        }
                                        Err((out_cs, m))
                                    },
                                }
                            } else {
                                let rec = match c.value() {
                                    Some(v) => v,
                                    None => NodeResult::OK,
                                };
                                let ghost cv = c@;
                                match rec {
                                    NodeResult::ERROR(e) => {
                                        let mut cs2: Vec<ExecutionPlanNode> = Vec::new();
                                        cs2.push(c);
                                        proof {
                                            assert(pn_seq(cs2@) =~= seq![cv]);
                                        }
                                        Err((cs2, e))
                                    },
                                    NodeResult::OK => {
                                        match self.evaluate_children(
                                            q,
                                            value_resolver,
                                            fuel - 1,
                                        ) {
                                            Ok((cs, vs)) => {
                                                let mut cs2: Vec<ExecutionPlanNode> =
                                                    Vec::new();
                                                cs2.push(c);
                                                let out_cs = concat_nodes(cs2, cs);
                                                proof {
                                                    assert(pn_seq(out_cs@) =~= seq![cv]
                                                        + pn_seq(cs@));
                                                }
                                                Ok((out_cs, vs))
                                            },
                                            Err((cs, m)) => {
                                                let mut cs2: Vec<ExecutionPlanNode> =
                                                    Vec::new();
                                                cs2.push(c);
                                                let out_cs = concat_nodes(cs2, cs);
                                                proof {
                                                    assert(pn_seq(out_cs@) =~= seq![cv]
                                                        + pn_seq(cs@));
                                                }
                                                Err((out_cs, m))
                                            },
                                        }
                                    },
                                    NodeResult::VALUE(val) => {
                                        let ghost valv = val@;
                                        match self.evaluate_children(
                                            q,
                                            value_resolver,
                                            fuel - 1,
                                        ) {
                                            Ok((cs, vs)) => {
                                                let mut cs2: Vec<ExecutionPlanNode> =
                                                    Vec::new();
                                                cs2.push(c);
                                                let out_cs = concat_nodes(cs2, cs);
                                                let mut vs2: Vec<NodeValue> = Vec::new();
                                                vs2.push(val);
                                                let out_vs = concat_values(vs2, vs);
                                                proof {
                                                    assert(pn_seq(out_cs@) =~= seq![cv]
                                                        + pn_seq(cs@));
                                                    assert(nv_seq(out_vs@) =~= seq![valv]
                                                        + nv_seq(vs@));
                                                }
                                                Ok((out_cs, out_vs))
                                            },
                                            Err((cs, m)) => {
                                                let mut cs2: Vec<ExecutionPlanNode> =
                                                    Vec::new();
                                                cs2.push(c);
                                                let out_cs = concat_nodes(cs2, cs);
                                                proof {
                                                    assert(pn_seq(out_cs@) =~= seq![cv]
                                                        + pn_seq(cs@));
                                                }
                                                Err((out_cs, m))
                                            },
                                        }
                                    },
                                }
                            }
                        },
                    }
                },
            }
        }
    }
}


/// Appends one value, returning the grown list.
pub fn push_value(mut v: Vec<NodeValue>, x: NodeValue) -> (r: Vec<NodeValue>)
    ensures
        nv_seq(r@) == nv_seq(v@).push(x@),
{
    broadcast use crate::value::lemma_nv_seq;

    let ghost pre = v@;
    let ghost xv = x@;
    v.push(x);
    proof {
        assert(v@ =~= pre.push(v@.last()));
        crate::value::lemma_nv_seq(v@);
        crate::value::lemma_nv_seq(pre);
        assert(nv_seq(v@) =~= nv_seq(pre).push(xv));
    }
    v
}

/// Appends one string, returning the grown list.
pub fn push_string(mut v: Vec<String>, x: String) -> (r: Vec<String>)
    ensures
        crate::value::sl_view(r@) == crate::value::sl_view(v@).push(x@),
{
    let ghost pre = v@;
    let ghost xv = x@;
    v.push(x);
    proof {
        assert(v@ =~= pre.push(v@.last()));
        assert(crate::value::sl_view(v@) =~= crate::value::sl_view(pre).push(xv));
    }
    v
}

/// Concatenates two value lists.
#[verifier::loop_isolation(false)]
pub fn concat_values(a: Vec<NodeValue>, b: Vec<NodeValue>) -> (r: Vec<NodeValue>)
    ensures
        nv_seq(r@) == nv_seq(a@) + nv_seq(b@),
{
    broadcast use crate::value::lemma_nv_seq;

    let ghost av = nv_seq(a@);
    let ghost bv = nv_seq(b@);
    let mut out = a;
    let mut i: usize = 0;
    proof {
        assert(nv_seq(out@) =~= av + bv.take(0));
    }
    while i < b.len()
        invariant
            i <= b.len(),
            nv_seq(out@) =~= av + bv.take(i as int),
        decreases b.len() - i,
    {
        let c = b[i].clone();
        proof {
            crate::value::lemma_nv_seq(b@);
            assert(nv(c) == bv[i as int]);
        }
        out = push_value(out, c);
        proof {
            assert(nv_seq(out@) =~= av + bv.take(i + 1));
        }
        i = i + 1;
    }
    proof {
        assert(bv.take(b@.len() as int) =~= bv);
    }
    out
}


impl ExecutionPlanInterpreter {
    /// The stack-peeking action `apply`.
    fn execute_apply(&mut self, node: &ExecutionPlanNode) -> (r: ExecutionPlanNode)
        ensures
            stack_view(final(self).value_stack@) == stack_view(old(self).value_stack@),
            final(self).context == old(self).context,
            r@ == aapply(stack_view(old(self).value_stack@), node@),
    {
        broadcast use lemma_pn_seq;

        if self.value_stack.len() > 0 {
            let top = match &self.value_stack[self.value_stack.len() - 1] {
                Some(v) => Some(v.clone()),
                None => None,
            };
            ExecutionPlanNode {
                node_type: node.node_type.clone(),
                result: top,
                children: clone_nodes(&node.children),
            }
        } else {
            ExecutionPlanNode {
                node_type: node.node_type.clone(),
                result: Some(
                    NodeResult::ERROR(String::from_str("No value to apply (stack is empty)")),
                ),
                children: clone_nodes(&node.children),
            }
        }
    }

    /// The stack-duplicating action `push`.
    fn execute_push(&mut self, node: &ExecutionPlanNode) -> (r: ExecutionPlanNode)
        ensures
            ({
                let (s2, nd) = apush(stack_view(old(self).value_stack@), node@);
                stack_view(final(self).value_stack@) == s2 && final(self).context == old(
                    self,
                ).context && r@ == nd
            }),
    {
        broadcast use lemma_pn_seq;

        if self.value_stack.len() > 0 {
            let top = match &self.value_stack[self.value_stack.len() - 1] {
                Some(v) => Some(v.clone()),
                None => None,
            };
            let top2 = match &top {
                Some(v) => Some(v.clone()),
                None => None,
            };
            self.push_result(top2);
            ExecutionPlanNode {
                node_type: node.node_type.clone(),
                result: top,
                children: clone_nodes(&node.children),
            }
        } else {
            ExecutionPlanNode {
                node_type: node.node_type.clone(),
                result: Some(
                    NodeResult::ERROR(String::from_str("No value to push (value is empty)")),
                ),
                children: clone_nodes(&node.children),
            }
        }
    }

    /// The stack-discarding action `pop`.
    fn execute_pop(&mut self, node: &ExecutionPlanNode) -> (r: ExecutionPlanNode)
        ensures
            ({
                let (s2, nd) = apop(stack_view(old(self).value_stack@), node@);
                stack_view(final(self).value_stack@) == s2 && final(self).context == old(
                    self,
                ).context && r@ == nd
            }),
    {
        broadcast use lemma_pn_seq;

        if self.value_stack.len() > 0 {
            let popped = self.value_stack.pop();
            proof {
                assert(stack_view(self.value_stack@) =~= stack_view(
                    old(self).value_stack@,
                ).drop_last());
            }
            let top = if self.value_stack.len() > 0 {
                match &self.value_stack[self.value_stack.len() - 1] {
                    Some(v) => Some(v.clone()),
                    None => None,
                }
            } else {
                None
            };
            ExecutionPlanNode {
                node_type: node.node_type.clone(),
                result: top,
                children: clone_nodes(&node.children),
            }
        } else {
            ExecutionPlanNode {
                node_type: node.node_type.clone(),
                result: Some(
                    NodeResult::ERROR(String::from_str("No value to pop (stack is empty)")),
                ),
                children: clone_nodes(&node.children),
            }
        }
    }

    /// A single-argument transformer action, selected by `kind` as in
    /// `aone_value`.
    fn execute_one_value<R: ValueResolver>(
        &mut self,
        node: &ExecutionPlanNode,
        name: &str,
        value_resolver: &R,
        fuel: u64,
        kind: u8,
    ) -> (r: ExecutionPlanNode)
        requires
            kind <= 5,
        ensures
            ({
                let (s2, nd) = aone_value(
                    value_resolver,
                    stack_view(old(self).value_stack@),
                    node@,
                    name@,
                    fuel as nat,
                    kind as int,
                );
                stack_view(final(self).value_stack@) == s2 && final(self).context == old(
                    self,
                ).context && r@ == nd
            }),
        decreases fuel, 2int, 0int,
    {
        broadcast use lemma_pn_seq, crate::value::lemma_nv_seq;

        match self.validate_one_arg(node, name, value_resolver, fuel) {
            Err(m) => ExecutionPlanNode {
                node_type: node.node_type.clone(),
                result: Some(NodeResult::ERROR(m)),
                children: clone_nodes(&node.children),
            },
            Ok(w) => {
                let rec = match w.value() {
                    Some(v) => v,
                    None => NodeResult::OK,
                };
                let res: NodeResult = if kind == 0 {
                    self.conv_utf8_result(rec)
                } else if kind == 1 {
                    self.json_parse_result(rec)
                } else if kind == 2 {
                    self.xml_parse_result(rec)
                } else if kind == 3 {
                    self.xml_tag_name_result(rec)
                } else if kind == 4 {
                    self.xml_value_result(rec)
                } else {
                    self.xml_attributes_result(rec)
                };
                let mut cs: Vec<ExecutionPlanNode> = Vec::new();
                let ghost wv = w@;
                cs.push(w);
                proof {
                    assert(pn_seq(cs@) =~= seq![wv]);
                }
                ExecutionPlanNode {
                    node_type: node.node_type.clone(),
                    result: Some(res),
                    children: cs,
                }
            },
        }
    }

    /// The `convert:UTF8` result for one outcome.
    fn conv_utf8_result(&self, rec: NodeResult) -> (r: NodeResult)
        ensures
            r@ == convert_utf8_spec(rec@),
    {
        match rec {
            NodeResult::VALUE(v) => match v {
                NodeValue::NULL => NodeResult::VALUE(NodeValue::STRING(String::new())),
                NodeValue::STRING(s) => NodeResult::VALUE(NodeValue::STRING(s)),
                NodeValue::BARRAY(b) => NodeResult::VALUE(
                    NodeValue::STRING(crate::foreign::utf8_lossy(b.as_slice())),
                ),
                other => {
                    let mut out: Vec<char> = Vec::new();
                    push_str(&mut out, "convert:UTF8 can not be used with ");
                    push_str(&mut out, other.value_type());
                    NodeResult::ERROR(crate::strutil::chars_to_string(&out))
                },
            },
            _ => NodeResult::VALUE(NodeValue::STRING(String::new())),
        }
    }

    /// The `json:parse` result for one outcome.
    fn json_parse_result(&self, rec: NodeResult) -> (r: NodeResult)
        ensures
            r@ == json_parse_spec(rec@),
    {
        match rec {
            NodeResult::VALUE(v) => match v {
                NodeValue::NULL => NodeResult::VALUE(NodeValue::NULL),
                NodeValue::STRING(s) => match crate::foreign::parse_json(
                    s.as_str().as_bytes(),
                ) {
                    Ok(j) => NodeResult::VALUE(NodeValue::JSON(j)),
                    Err(m) => {
                        let mut out: Vec<char> = Vec::new();
                        push_str(&mut out, "json parse error - ");
                        push_str(&mut out, m.as_str());
                        NodeResult::ERROR(crate::strutil::chars_to_string(&out))
                    },
                },
                NodeValue::BARRAY(b) => match crate::foreign::parse_json(b.as_slice()) {
                    Ok(j) => NodeResult::VALUE(NodeValue::JSON(j)),
                    Err(m) => {
                        let mut out: Vec<char> = Vec::new();
                        push_str(&mut out, "json parse error - ");
                        push_str(&mut out, m.as_str());
                        NodeResult::ERROR(crate::strutil::chars_to_string(&out))
                    },
                },
                other => {
                    let mut out: Vec<char> = Vec::new();
                    push_str(&mut out, "json:parse can not be used with ");
                    push_str(&mut out, other.value_type());
                    NodeResult::ERROR(crate::strutil::chars_to_string(&out))
                },
            },
            _ => NodeResult::VALUE(NodeValue::NULL),
        }
    }

    /// The `xml:parse` result for one outcome.
    fn xml_parse_result(&self, rec: NodeResult) -> (r: NodeResult)
        ensures
            r@ == xml_parse_spec(rec@),
    {
        match rec {
            NodeResult::VALUE(v) => match v {
                NodeValue::NULL => NodeResult::VALUE(NodeValue::NULL),
                NodeValue::STRING(s) => match crate::foreign::parse_xml(
                    s.as_str().as_bytes(),
                ) {
                    Ok(e) => NodeResult::VALUE(NodeValue::XML(XmlValue::Element(e))),
                    Err(m) => {
                        let mut out: Vec<char> = Vec::new();
                        push_str(&mut out, "XML parse error - ");
                        push_str(&mut out, m.as_str());
                        NodeResult::ERROR(crate::strutil::chars_to_string(&out))
                    },
                },
                NodeValue::BARRAY(b) => match crate::foreign::parse_xml(b.as_slice()) {
                    Ok(e) => NodeResult::VALUE(NodeValue::XML(XmlValue::Element(e))),
                    Err(m) => {
                        let mut out: Vec<char> = Vec::new();
                        push_str(&mut out, "XML parse error - ");
                        push_str(&mut out, m.as_str());
                        NodeResult::ERROR(crate::strutil::chars_to_string(&out))
                    },
                },
                other => {
                    let mut out: Vec<char> = Vec::new();
                    push_str(&mut out, "xml:parse can not be used with ");
                    push_str(&mut out, other.value_type());
                    NodeResult::ERROR(crate::strutil::chars_to_string(&out))
                },
            },
            _ => NodeResult::VALUE(NodeValue::NULL),
        }
    }

    /// The `xml:tag-name` result for one outcome.
    fn xml_tag_name_result(&self, rec: NodeResult) -> (r: NodeResult)
        ensures
            r@ == xml_tag_name_spec(rec@),
    {
        match rec {
            NodeResult::VALUE(v) => match v {
                NodeValue::XML(x) => match x {
                    XmlValue::Element(e) => NodeResult::VALUE(NodeValue::STRING(e.name)),
                    other => {
                        let mut out: Vec<char> = Vec::new();
                        push_str(&mut out, "xml:tag-name can not be used with ");
                        crate::value::push_value_text(&mut out, &NodeValue::XML(other));
                        NodeResult::ERROR(crate::strutil::chars_to_string(&out))
                    },
                },
                other => {
                    let mut out: Vec<char> = Vec::new();
                    push_str(&mut out, "xml:tag-name can not be used with ");
                    push_str(&mut out, other.value_type());
                    NodeResult::ERROR(crate::strutil::chars_to_string(&out))
                },
            },
            _ => NodeResult::VALUE(NodeValue::NULL),
        }
    }

    /// The `xml:value` result for one outcome.
    fn xml_value_result(&self, rec: NodeResult) -> (r: NodeResult)
        ensures
            r@ == xml_value_spec(rec@),
    {
        match rec {
            NodeResult::VALUE(v) => match v {
                NodeValue::XML(x) => match x {
                    XmlValue::Attribute(_, val) => NodeResult::VALUE(NodeValue::STRING(val)),
                    other => {
                        let mut out: Vec<char> = Vec::new();
                        push_str(&mut out, "xml:value can not be used with ");
                        crate::value::push_value_text(&mut out, &NodeValue::XML(other));
                        NodeResult::ERROR(crate::strutil::chars_to_string(&out))
                    },
                },
                other => {
                    let mut out: Vec<char> = Vec::new();
                    push_str(&mut out, "xml:value can not be used with ");
                    push_str(&mut out, other.value_type());
                    NodeResult::ERROR(crate::strutil::chars_to_string(&out))
                },
            },
            _ => NodeResult::VALUE(NodeValue::NULL),
        }
    }

    /// The `xml:attributes` result for one outcome.
    #[verifier::loop_isolation(false)]
    #[verifier::rlimit(100)]
    fn xml_attributes_result(&self, rec: NodeResult) -> (r: NodeResult)
        ensures
            r@ == xml_attributes_spec(rec@),
    {
        match rec {
            NodeResult::VALUE(v) => match v {
                NodeValue::XML(x) => match x {
                    XmlValue::Attribute(nm, val) => {
                        let ghost nmv = nm@;
                        let ghost valv = val@;
                        let inner = NodeValue::STRING(val);
                        proof {
                            assert(nv(inner) == NodeValV::Str(valv));
                        }
                        let ev = NodeValue::ENTRY(nm, Box::new(inner));
                        proof {
                            assert(nv(ev) == NodeValV::Entry(nmv, Box::new(NodeValV::Str(valv))));
                        }
                        NodeResult::VALUE(ev)
                    },
                    XmlValue::Element(e) => {
                        let ghost target = e@.attrs.map(
                            |i: int, a: (Seq<char>, Seq<char>)| (a.0, seq![a.1]),
                        );
                        let mut m: Vec<(String, Vec<String>)> = Vec::new();
                        let mut i: usize = 0;
                        proof {
                            assert(crate::value::mm_view(m@) =~= target.take(0));
                        }
                        while i < e.attrs.len()
                            invariant
                                i <= e.attrs.len(),
                                target == e@.attrs.map(
                                    |k: int, a: (Seq<char>, Seq<char>)| (a.0, seq![a.1]),
                                ),
                                target.len() == e.attrs@.len(),
                                crate::value::mm_view(m@) =~= target.take(i as int),
                            decreases e.attrs.len() - i,
                        {
                            let k = e.attrs[i].0.clone();
                            let mut vs: Vec<String> = Vec::new();
                            vs.push(e.attrs[i].1.clone());
                            proof {
                                assert(crate::value::sl_view(vs@) =~= seq![
                                    e.attrs@[i as int].1@,
                                ]);
                            }
                            m.push((k, vs));
                            proof {
                                assert(crate::value::mm_view(m@) =~= target.take(i + 1));
                            }
                            i = i + 1;
                        }
                        proof {
                            assert(target.take(e.attrs@.len() as int) =~= target);
                        }
                        NodeResult::VALUE(NodeValue::MMAP(m))
                    },
                    other => {
                        let mut out: Vec<char> = Vec::new();
                        push_str(&mut out, "xml:attributes can not be used with ");
                        crate::value::push_value_text(&mut out, &NodeValue::XML(other));
                        NodeResult::ERROR(crate::strutil::chars_to_string(&out))
                    },
                },
                other => {
                    let mut out: Vec<char> = Vec::new();
                    push_str(&mut out, "xml:attributes can not be used with ");
                    push_str(&mut out, other.value_type());
                    NodeResult::ERROR(crate::strutil::chars_to_string(&out))
                },
            },
            _ => NodeResult::VALUE(NodeValue::NULL),
        }
    }

    /// The `check:exists` action.
    fn execute_check_exists<R: ValueResolver>(
        &mut self,
        node: &ExecutionPlanNode,
        name: &str,
        value_resolver: &R,
        fuel: u64,
    ) -> (r: ExecutionPlanNode)
        ensures
            ({
                let (s2, nd) = acheck_exists(
                    value_resolver,
                    stack_view(old(self).value_stack@),
                    node@,
                    name@,
                    fuel as nat,
                );
                stack_view(final(self).value_stack@) == s2 && final(self).context == old(
                    self,
                ).context && r@ == nd
            }),
        decreases fuel, 2int, 0int,
    {
        broadcast use lemma_pn_seq;

        match self.validate_one_arg(node, name, value_resolver, fuel) {
            Err(m) => ExecutionPlanNode {
                node_type: node.node_type.clone(),
                result: Some(NodeResult::ERROR(m)),
                children: clone_nodes(&node.children),
            },
            Ok(w) => {
                let rec = match w.value() {
                    Some(v) => v,
                    None => NodeResult::OK,
                };
                let b = match rec {
                    NodeResult::VALUE(v) => !matches!(v, NodeValue::NULL),
                    _ => false,
                };
                let mut cs: Vec<ExecutionPlanNode> = Vec::new();
                let ghost wv = w@;
                cs.push(w);
                proof {
                    assert(pn_seq(cs@) =~= seq![wv]);
                }
                ExecutionPlanNode {
                    node_type: node.node_type.clone(),
                    result: Some(NodeResult::VALUE(NodeValue::BOOL(b))),
                    children: cs,
                }
            },
        }
    }

    /// The `length` action.
    fn execute_length<R: ValueResolver>(
        &mut self,
        node: &ExecutionPlanNode,
        name: &str,
        value_resolver: &R,
        fuel: u64,
    ) -> (r: ExecutionPlanNode)
        ensures
            ({
                let (s2, nd) = alength(
                    value_resolver,
                    stack_view(old(self).value_stack@),
                    node@,
                    name@,
                    fuel as nat,
                );
                stack_view(final(self).value_stack@) == s2 && final(self).context == old(
                    self,
                ).context && r@ == nd
            }),
        decreases fuel, 2int, 0int,
    {
        broadcast use lemma_pn_seq;

        match self.validate_one_arg(node, name, value_resolver, fuel) {
            Err(m) => ExecutionPlanNode {
                node_type: node.node_type.clone(),
                result: Some(NodeResult::ERROR(m)),
                children: clone_nodes(&node.children),
            },
            Ok(w) => {
                let rec = match w.value() {
                    Some(v) => v,
                    None => NodeResult::OK,
                };
                let val = match rec {
                    NodeResult::VALUE(v) => v,
                    _ => NodeValue::NULL,
                };
                let res = self.length_result(&val);
                let mut cs: Vec<ExecutionPlanNode> = Vec::new();
                let ghost wv = w@;
                cs.push(w);
                proof {
                    assert(pn_seq(cs@) =~= seq![wv]);
                }
                ExecutionPlanNode {
                    node_type: node.node_type.clone(),
                    result: Some(res),
                    children: cs,
                }
            },
        }
    }

    /// The `length` result for one value.
    #[verifier::rlimit(100)]
    fn length_result(&self, v: &NodeValue) -> (r: NodeResult)
        ensures
            r@ == length_spec(v@),
    {
        broadcast use crate::value::lemma_nv_seq, crate::json::lemma_jv_seq,
            crate::json::lemma_jv_fields;

        match v {
            NodeValue::NULL => NodeResult::VALUE(NodeValue::UINT(0)),
            NodeValue::STRING(s) => {
                let bs = s.as_str().as_bytes();
                proof {
                    assert(bs@ == vstd::utf8::encode_utf8(s@));
                    assert(bs@.len() == byte_len(s@));
                }
                NodeResult::VALUE(NodeValue::UINT(bs.len() as u64))
            },
            NodeValue::MMAP(m) => {
                proof {
                    assert(v@ == NodeValV::MMap(crate::value::mm_view(m@)));
                    assert(crate::value::mm_view(m@).len() == m@.len());
                }
                NodeResult::VALUE(NodeValue::UINT(m.len() as u64))
            },
            NodeValue::SLIST(l) => {
                proof {
                    assert(v@ == NodeValV::SList(crate::value::sl_view(l@)));
                    assert(crate::value::sl_view(l@).len() == l@.len());
                }
                NodeResult::VALUE(NodeValue::UINT(l.len() as u64))
            },
            NodeValue::BARRAY(b) => NodeResult::VALUE(NodeValue::UINT(b.len() as u64)),
            NodeValue::JSON(j) => match j {
                JsonValue::Str(s) => {
                    let bs = s.as_str().as_bytes();
                    proof {
                        assert(bs@ == vstd::utf8::encode_utf8(s@));
                        assert(bs@.len() == byte_len(s@));
                    }
                    NodeResult::VALUE(NodeValue::UINT(bs.len() as u64))
                },
                JsonValue::Array(a) => {
                    proof {
                        crate::json::lemma_jv_seq(a@);
                        assert(j@ == JsonV::Array(crate::json::jv_seq(a@)));
                        assert(v@ == NodeValV::Json(j@));
                    }
                    NodeResult::VALUE(NodeValue::UINT(a.len() as u64))
                },
                JsonValue::Object(o) => {
                    proof {
                        crate::json::lemma_jv_fields(o@);
                        assert(j@ == JsonV::Object(crate::json::jv_fields(o@)));
                        assert(v@ == NodeValV::Json(j@));
                    }
                    NodeResult::VALUE(NodeValue::UINT(o.len() as u64))
                },
                other => {
                    let mut out: Vec<char> = Vec::new();
                    push_str(&mut out, "'length' can't be used with a ");
                    crate::json::push_json_type_name(&mut out, other);
                    push_str(&mut out, " value");
                    NodeResult::ERROR(crate::strutil::chars_to_string(&out))
                },
            },
            NodeValue::LIST(l) => {
                proof {
                    crate::value::lemma_nv_seq(l@);
                    assert(v@ == NodeValV::List(nv_seq(l@)));
                    assert(nv_seq(l@).len() == l@.len());
                }
                NodeResult::VALUE(NodeValue::UINT(l.len() as u64))
            },
            NodeValue::XML(x) => match x {
                XmlValue::Element(_) => NodeResult::VALUE(NodeValue::UINT(1)),
                XmlValue::Text(t) => {
                    let bs = t.as_str().as_bytes();
                    proof {
                        assert(bs@ == vstd::utf8::encode_utf8(t@));
                        assert(bs@.len() == byte_len(t@));
                    }
                    NodeResult::VALUE(NodeValue::UINT(bs.len() as u64))
                },
                XmlValue::Attribute(_, _) => NodeResult::VALUE(NodeValue::UINT(1)),
            },
            other => {
                let mut out: Vec<char> = Vec::new();
                push_str(&mut out, "'length' can't be used with a ");
                push_str(&mut out, other.value_type());
                push_str(&mut out, " value");
                NodeResult::ERROR(crate::strutil::chars_to_string(&out))
            },
        }
    }
}


impl ExecutionPlanInterpreter {
    /// The case-changing and `to-string` actions: `mode` 0 is upper-case,
    /// 1 lower-case, 2 to-string.
    #[verifier::rlimit(100)]
    fn execute_value_map<R: ValueResolver>(
        &mut self,
        node: &ExecutionPlanNode,
        value_resolver: &R,
        fuel: u64,
        mode: u8,
    ) -> (r: ExecutionPlanNode)
        requires
            mode <= 2,
        ensures
            ({
                let (s2, nd) = if mode == 2 {
                    ato_string(
                        value_resolver,
                        stack_view(old(self).value_stack@),
                        node@,
                        fuel as nat,
                    )
                } else {
                    acase(
                        value_resolver,
                        stack_view(old(self).value_stack@),
                        node@,
                        fuel as nat,
                        mode == 0,
                    )
                };
                stack_view(final(self).value_stack@) == s2 && final(self).context == old(
                    self,
                ).context && r@ == nd
            }),
        decreases fuel, 2int, 0int,
    {
        broadcast use lemma_pn_seq, crate::value::lemma_nv_seq;

        let queue = clone_nodes(&node.children);
        match self.evaluate_children(queue, value_resolver, fuel) {
            Err((cs, m)) => ExecutionPlanNode {
                node_type: node.node_type.clone(),
                result: Some(NodeResult::ERROR(m)),
                children: cs,
            },
            Ok((cs, vals)) => {
                let ghost vv = nv_seq(vals@);
                let mut results: Vec<NodeValue> = Vec::new();
                let ghost target = if mode == 2 {
                    vv.map(|i: int, v: NodeValV| to_string_spec(v))
                } else {
                    vv.map(|i: int, v: NodeValV| case_spec(v, mode == 0))
                };
                let mut i: usize = 0;
                proof {
                    assert(nv_seq(results@) =~= target.take(0));
                }
                while i < vals.len()
                    invariant
                        i <= vals.len(),
                        vv == nv_seq(vals@),
                        target == (if mode == 2 {
                            vv.map(|k: int, v: NodeValV| to_string_spec(v))
                        } else {
                            vv.map(|k: int, v: NodeValV| case_spec(v, mode == 0))
                        }),
                        target.len() == vals@.len(),
                        nv_seq(results@) =~= target.take(i as int),
                    decreases vals.len() - i,
                {
                    let item = if mode == 2 {
                        self.to_string_value(&vals[i])
                    } else {
                        self.case_value(&vals[i], mode == 0)
                    };
                    proof {
                        crate::value::lemma_nv_seq(vals@);
                        assert(item@ == target[i as int]);
                    }
                    let ghost iv = item@;
                    let ghost pre = results@;
                    results.push(item);
                    proof {
                        assert(results@ =~= pre.push(results@.last()));
                        crate::value::lemma_nv_seq(results@);
                        crate::value::lemma_nv_seq(pre);
                        assert(nv(results@.last()) == iv);
                        assert(nv_seq(results@) =~= target.take(i + 1));
                    }
                    i = i + 1;
                }
                proof {
                    assert(target.take(vals@.len() as int) =~= target);
                }
                let res = if results.len() == 1 {
                    let mut rs = results;
                    let only = rs.remove(0);
                    proof {
                        assert(nv(only) == target[0]);
                    }
                    only
                } else {
                    NodeValue::LIST(results)
                };
                ExecutionPlanNode {
                    node_type: node.node_type.clone(),
                    result: Some(NodeResult::VALUE(res)),
                    children: cs,
                }
            },
        }
    }

    /// One value's case change.
    #[verifier::loop_isolation(false)]
    fn case_value(&self, v: &NodeValue, upper: bool) -> (r: NodeValue)
        ensures
            r@ == case_spec(v@, upper),
    {
        broadcast use crate::value::lemma_nv_seq, crate::json::lemma_jv_seq;

        match v {
            NodeValue::STRING(s) => NodeValue::STRING(
                if upper {
                    crate::foreign::to_upper(s.as_str())
                } else {
                    crate::foreign::to_lower(s.as_str())
                },
            ),
            NodeValue::SLIST(l) => {
                let ghost target = crate::value::sl_view(l@).map(
                    |i: int, t: Seq<char>| if upper { upper_of(t) } else { lower_of(t) },
                );
                let mut out: Vec<String> = Vec::new();
                let mut i: usize = 0;
                proof {
                    assert(crate::value::sl_view(out@) =~= target.take(0));
                }
                while i < l.len()
                    invariant
                        i <= l.len(),
                        target == crate::value::sl_view(l@).map(
                            |k: int, t: Seq<char>| if upper { upper_of(t) } else { lower_of(t) },
                        ),
                        target.len() == l@.len(),
                        crate::value::sl_view(out@) =~= target.take(i as int),
                    decreases l.len() - i,
                {
                    let t = if upper {
                        crate::foreign::to_upper(l[i].as_str())
                    } else {
                        crate::foreign::to_lower(l[i].as_str())
                    };
                    out.push(t);
                    proof {
                        assert(crate::value::sl_view(out@) =~= target.take(i + 1));
                    }
                    i = i + 1;
                }
                proof {
                    assert(target.take(l@.len() as int) =~= target);
                }
                NodeValue::SLIST(out)
            },
            NodeValue::JSON(j) => match j {
                JsonValue::Str(s) => NodeValue::STRING(
                    if upper {
                        crate::foreign::to_upper(s.as_str())
                    } else {
                        crate::foreign::to_lower(s.as_str())
                    },
                ),
                other => {
                    let mut out: Vec<char> = Vec::new();
                    crate::json::push_json_text(&mut out, other);
                    NodeValue::STRING(crate::strutil::chars_to_string(&out))
                },
            },
            other => other.clone(),
        }
    }

    /// One value's `to-string` form.
    fn to_string_value(&self, v: &NodeValue) -> (r: NodeValue)
        ensures
            r@ == to_string_spec(v@),
    {
        broadcast use crate::value::lemma_nv_seq;

        match v {
            NodeValue::NULL => NodeValue::STRING(String::new()),
            NodeValue::STRING(s) => NodeValue::STRING(s.clone()),
            NodeValue::SLIST(l) => NodeValue::SLIST(crate::value::clone_slist(l)),
            NodeValue::JSON(j) => match j {
                JsonValue::Str(s) => NodeValue::STRING(s.clone()),
                other => {
                    let mut out: Vec<char> = Vec::new();
                    crate::json::push_json_text(&mut out, other);
                    NodeValue::STRING(crate::strutil::chars_to_string(&out))
                },
            },
            NodeValue::XML(x) => match x {
                XmlValue::Element(e) => NodeValue::STRING(e.rendered.clone()),
                XmlValue::Text(t) => NodeValue::STRING(t.clone()),
                XmlValue::Attribute(nm, val) => {
                    let mut out: Vec<char> = Vec::new();
                    push_str(&mut out, "@");
                    push_str(&mut out, nm.as_str());
                    push_str(&mut out, "='");
                    push_str(&mut out, val.as_str());
                    push_str(&mut out, "'");
                    proof {
                        assert(out@ =~= "@"@ + nm@ + "='"@ + val@ + "'"@);
                    }
                    NodeValue::STRING(crate::strutil::chars_to_string(&out))
                },
            },
            other => NodeValue::STRING(crate::value::value_str_form(other)),
        }
    }

    /// The boolean folding actions `and` and `or`.
    fn execute_and_or<R: ValueResolver>(
        &mut self,
        node: &ExecutionPlanNode,
        value_resolver: &R,
        fuel: u64,
        is_and: bool,
    ) -> (r: ExecutionPlanNode)
        ensures
            ({
                let (s2, nd) = aand_or(
                    value_resolver,
                    stack_view(old(self).value_stack@),
                    node@,
                    fuel as nat,
                    is_and,
                );
                stack_view(final(self).value_stack@) == s2 && final(self).context == old(
                    self,
                ).context && r@ == nd
            }),
        decreases fuel, 2int, 0int,
    {
        broadcast use lemma_pn_seq, crate::value::lemma_nv_seq;

        let queue = clone_nodes(&node.children);
        match self.evaluate_children(queue, value_resolver, fuel) {
            Err((cs, m)) => ExecutionPlanNode {
                node_type: node.node_type.clone(),
                result: Some(NodeResult::ERROR(m)),
                children: cs,
            },
            Ok((cs, vals)) => {
                let ghost vv = nv_seq(vals@);
                let mut acc = NodeValue::NULL;
                let mut i: usize = 0;
                proof {
                    assert(vv.take(0) =~= Seq::<NodeValV>::empty());
                    assert(acc@ == fold_bool(vv.take(0), is_and));
                }
                while i < vals.len()
                    invariant
                        i <= vals.len(),
                        vv == nv_seq(vals@),
                        vv.len() == vals@.len(),
                        acc@ == fold_bool(vv.take(i as int), is_and),
                    decreases vals.len() - i,
                {
                    let next = if is_and {
                        acc.and(&vals[i])
                    } else {
                        acc.or(&vals[i])
                    };
                    acc = next;
                    proof {
                        crate::value::lemma_nv_seq(vals@);
                        assert(vv.take(i + 1).drop_last() =~= vv.take(i as int));
                        assert(vv.take(i + 1).last() == vv[i as int]);
                        assert(acc@ == fold_bool(vv.take(i + 1), is_and));
                    }
                    i = i + 1;
                }
                proof {
                    assert(vv.take(vals@.len() as int) =~= vv);
                }
                ExecutionPlanNode {
                    node_type: node.node_type.clone(),
                    result: Some(NodeResult::VALUE(acc)),
                    children: cs,
                }
            },
        }
    }

    /// The text-joining actions `join`, `join-with` and `error`.
    #[verifier::rlimit(100)]
    fn execute_join<R: ValueResolver>(
        &mut self,
        node: &ExecutionPlanNode,
        value_resolver: &R,
        fuel: u64,
        with_sep: bool,
        as_error: bool,
    ) -> (r: ExecutionPlanNode)
        ensures
            ({
                let (s2, nd) = ajoin(
                    value_resolver,
                    stack_view(old(self).value_stack@),
                    node@,
                    fuel as nat,
                    with_sep,
                    as_error,
                );
                stack_view(final(self).value_stack@) == s2 && final(self).context == old(
                    self,
                ).context && r@ == nd
            }),
        decreases fuel, 2int, 0int,
    {
        broadcast use lemma_pn_seq, crate::value::lemma_nv_seq;

        let queue = clone_nodes(&node.children);
        match self.evaluate_children(queue, value_resolver, fuel) {
            Err((cs, m)) => ExecutionPlanNode {
                node_type: node.node_type.clone(),
                result: Some(NodeResult::ERROR(m)),
                children: cs,
            },
            Ok((cs, vals)) => {
                let ghost vv = nv_seq(vals@);
                let mut strs: Vec<String> = Vec::new();
                let mut i: usize = 0;
                proof {
                    assert(vv.take(0) =~= Seq::<NodeValV>::empty());
                    assert(join_strings_all(vv.take(0)) =~= Seq::<Seq<char>>::empty());
                    assert(crate::value::sl_view(strs@) =~= join_strings_all(vv.take(0)));
                }
                while i < vals.len()
                    invariant
                        i <= vals.len(),
                        vv == nv_seq(vals@),
                        vv.len() == vals@.len(),
                        crate::value::sl_view(strs@) =~= join_strings_all(vv.take(i as int)),
                    decreases vals.len() - i,
                {
                    self.push_join_strings(&vals[i], &mut strs);
                    proof {
                        crate::value::lemma_nv_seq(vals@);
                        assert(vv.take(i + 1).drop_last() =~= vv.take(i as int));
                        assert(vv.take(i + 1).last() == vv[i as int]);
                        assert(crate::value::sl_view(strs@) =~= join_strings_all(vv.take(
                            i + 1,
                        )));
                    }
                    i = i + 1;
                }
                proof {
                    assert(vv.take(vals@.len() as int) =~= vv);
                }
                let ghost all = join_strings_all(vv);
                let mut out: Vec<char> = Vec::new();
                if with_sep && strs.len() > 0 {
                    let sep = strs[0].clone();
                    let mut k: usize = 1;
                    proof {
                        assert(crate::value::sl_view(strs@).skip(1).take(0) =~= Seq::<
                            Seq<char>,
                        >::empty());
                        assert(join_with_sep(all.skip(1).take(0), sep@) =~= Seq::<
                            char,
                        >::empty());
                        assert(out@ =~= join_with_sep(all.skip(1).take(0), sep@));
                    }
                    while k < strs.len()
                        invariant
                            1 <= k <= strs@.len(),
                            with_sep,
                            strs@.len() > 0,
                            all == crate::value::sl_view(strs@),
                            sep@ == all[0],
                            out@ =~= join_with_sep(all.skip(1).take(k - 1), sep@),
                        decreases strs@.len() - k,
                    {
                        if k > 1 {
                            push_str(&mut out, sep.as_str());
                        }
                        push_str(&mut out, strs[k].as_str());
                        proof {
                            assert(all.skip(1).take(k as int).drop_last() =~= all.skip(
                                1,
                            ).take(k - 1));
                            assert(all.skip(1).take(k as int).last() == all[k as int]);
                            assert(out@ =~= join_with_sep(all.skip(1).take(k as int), sep@));
                        }
                        k = k + 1;
                    }
                    proof {
                        assert(all.skip(1).take(strs@.len() - 1) =~= all.skip(1));
                    }
                } else {
                    let mut k: usize = 0;
                    proof {
                        assert(join_with_sep(all.take(0), Seq::<char>::empty()) =~= Seq::<
                            char,
                        >::empty());
                        assert(out@ =~= join_with_sep(all.take(0), Seq::<char>::empty()));
                    }
                    while k < strs.len()
                        invariant
                            k <= strs@.len(),
                            all == crate::value::sl_view(strs@),
                            out@ =~= join_with_sep(all.take(k as int), Seq::<char>::empty()),
                        decreases strs@.len() - k,
                    {
                        push_str(&mut out, strs[k].as_str());
                        proof {
                            assert(all.take(k + 1).drop_last() =~= all.take(k as int));
                            assert(all.take(k + 1).last() == all[k as int]);
                            assert(out@ =~= join_with_sep(
                                all.take(k + 1),
                                Seq::<char>::empty(),
                            ));
                        }
                        k = k + 1;
                    }
                    proof {
                        assert(all.take(strs@.len() as int) =~= all);
                    }
                }
                let text = crate::strutil::chars_to_string(&out);
                ExecutionPlanNode {
                    node_type: node.node_type.clone(),
                    result: Some(
                        if as_error {
                            NodeResult::ERROR(text)
                        } else {
                            NodeResult::VALUE(NodeValue::STRING(text))
                        },
                    ),
                    children: cs,
                }
            },
        }
    }

    /// Appends the strings one value contributes to `join`.
    #[verifier::loop_isolation(false)]
    fn push_join_strings(&self, v: &NodeValue, strs: &mut Vec<String>)
        ensures
            crate::value::sl_view(final(strs)@) == crate::value::sl_view(old(strs)@)
                + join_strings(v@),
    {
        broadcast use crate::value::lemma_nv_seq;

        let ghost base = crate::value::sl_view(strs@);
        match v {
            NodeValue::STRING(s) => {
                strs.push(s.clone());
                proof {
                    assert(crate::value::sl_view(strs@) =~= base + join_strings(v@));
                }
            },
            NodeValue::BOOL(b) => {
                strs.push(
                    if *b {
                        String::from_str("true")
                    } else {
                        String::from_str("false")
                    },
                );
                proof {
                    assert(crate::value::sl_view(strs@) =~= base + join_strings(v@));
                }
            },
            NodeValue::MMAP(_) => {
                strs.push(crate::value::value_str_form(v));
                proof {
                    assert(crate::value::sl_view(strs@) =~= base + join_strings(v@));
                }
            },
            NodeValue::SLIST(l) => {
                let mut i: usize = 0;
                let ghost lv = crate::value::sl_view(l@);
                proof {
                    assert(crate::value::sl_view(strs@) =~= base + lv.take(0));
                }
                while i < l.len()
                    invariant
                        i <= l.len(),
                        lv == crate::value::sl_view(l@),
                        crate::value::sl_view(strs@) =~= base + lv.take(i as int),
                    decreases l.len() - i,
                {
                    let ghost pre = strs@;
                    strs.push(l[i].clone());
                    proof {
                        assert(strs@ =~= pre.push(strs@.last()));
                        assert(strs@.last()@ == lv[i as int]);
                        assert(crate::value::sl_view(strs@) =~= crate::value::sl_view(
                            pre,
                        ).push(lv[i as int]));
                        assert(crate::value::sl_view(strs@) =~= base + lv.take(i + 1));
                    }
                    i = i + 1;
                }
                proof {
                    assert(lv.take(l@.len() as int) =~= lv);
                    assert(crate::value::sl_view(strs@) =~= base + join_strings(v@));
                }
            },
            NodeValue::BARRAY(_) => {
                strs.push(crate::value::value_str_form(v));
                proof {
                    assert(crate::value::sl_view(strs@) =~= base + join_strings(v@));
                }
            },
            NodeValue::NAMESPACED(ns, val) => {
                let mut out: Vec<char> = Vec::new();
                push_str(&mut out, ns.as_str());
                push_str(&mut out, ":");
                push_str(&mut out, val.as_str());
                strs.push(crate::strutil::chars_to_string(&out));
                proof {
                    assert(crate::value::sl_view(strs@) =~= base + join_strings(v@));
                }
            },
            NodeValue::UINT(u) => {
                let mut out: Vec<char> = Vec::new();
                push_dec(&mut out, *u);
                strs.push(crate::strutil::chars_to_string(&out));
                proof {
                    assert(crate::value::sl_view(strs@) =~= base + join_strings(v@));
                }
            },
            NodeValue::JSON(j) => {
                let mut out: Vec<char> = Vec::new();
                crate::json::push_json_text(&mut out, j);
                strs.push(crate::strutil::chars_to_string(&out));
                proof {
                    assert(crate::value::sl_view(strs@) =~= base + join_strings(v@));
                }
            },
            _ => {
                proof {
                    assert(crate::value::sl_view(strs@) =~= base + join_strings(v@));
                }
            },
        }
    }
}


impl ExecutionPlanInterpreter {
    /// Walks the optional custom-message argument.
    fn opt_message<R: ValueResolver>(
        &mut self,
        opt: &ExecutionPlanNode,
        value_resolver: &R,
        fuel: u64,
    ) -> (r: Result<(String, ExecutionPlanNode), ()>)
        ensures
            ({
                let (s2, mr) = aopt_message(
                    value_resolver,
                    stack_view(old(self).value_stack@),
                    Seq::<char>::empty(),
                    opt@,
                    fuel as nat,
                );
                stack_view(final(self).value_stack@) == s2 && final(self).context == old(
                    self,
                ).context && match r {
                    Ok((msg, w2)) => mr == Ok::<(Seq<char>, NodeV), ()>((msg@, w2@)),
                    Err(_) => mr is Err,
                }
            }),
        decreases fuel, 1int, 2int,
    {
        if fuel == 0 {
            Err(())
        } else {
            match self.walk_rec(opt, value_resolver, fuel - 1) {
                Ok(w2) => {
                    let msg = match w2.value() {
                        Some(NodeResult::VALUE(NodeValue::STRING(s))) => s,
                        _ => String::new(),
                    };
                    proof {
                        assert(msg@ == string_of(recorded(w2@)));
                    }
                    Ok((msg, w2))
                },
                Err(_) => Err(()),
            }
        }
    }

    /// The `expect:empty` action.
    #[verifier::rlimit(100)]
    fn execute_expect_empty<R: ValueResolver>(
        &mut self,
        node: &ExecutionPlanNode,
        name: &str,
        value_resolver: &R,
        fuel: u64,
    ) -> (r: ExecutionPlanNode)
        ensures
            ({
                let (s2, nd) = aexpect_empty(
                    value_resolver,
                    stack_view(old(self).value_stack@),
                    node@,
                    name@,
                    fuel as nat,
                );
                stack_view(final(self).value_stack@) == s2 && final(self).context == old(
                    self,
                ).context && r@ == nd
            }),
        decreases fuel, 2int, 0int,
    {
        broadcast use lemma_pn_seq;

        match self.validate_args(1, 1, node, name, value_resolver, fuel) {
            Err(m) => ExecutionPlanNode {
                node_type: node.node_type.clone(),
                result: Some(NodeResult::ERROR(m)),
                children: clone_nodes(&node.children),
            },
            Ok((vals, opt)) => {
                let first = match vals[0].value() {
                    Some(v) => v,
                    None => NodeResult::OK,
                };
                proof {
                    lemma_pn_seq(vals@);
                    assert(first@ == recorded(pn_seq(vals@)[0]));
                }
                match &first {
                    NodeResult::ERROR(e) => {
                        let res = NodeResult::ERROR(e.clone());
                        ExecutionPlanNode {
                            node_type: node.node_type.clone(),
                            result: Some(res),
                            children: concat_nodes(vals, opt),
                        }
                    },
                    _ => match self.expect_empty_result(&first) {
                        Ok(res) => ExecutionPlanNode {
                            node_type: node.node_type.clone(),
                            result: Some(res),
                            children: concat_nodes(vals, opt),
                        },
                        Err(err) => {
                            if opt.len() > 0 {
                                match self.opt_message(&opt[0], value_resolver, fuel) {
                                    Ok((message, w2)) => {
                                        let mut w2v: Vec<ExecutionPlanNode> = Vec::new();
                                        let ghost w2g = w2@;
                                        w2v.push(w2);
                                        proof {
                                            assert(pn_seq(w2v@) =~= seq![w2g]);
                                        }
                                        ExecutionPlanNode {
                                            node_type: node.node_type.clone(),
                                            result: Some(NodeResult::ERROR(message)),
                                            children: concat_nodes(vals, w2v),
                                        }
                                    },
                                    Err(_) => ExecutionPlanNode {
                                        node_type: node.node_type.clone(),
                                        result: Some(NodeResult::ERROR(err)),
                                        children: concat_nodes(vals, opt),
                                    },
                                }
                            } else {
                                ExecutionPlanNode {
                                    node_type: node.node_type.clone(),
                                    result: Some(NodeResult::ERROR(err)),
                                    children: concat_nodes(vals, opt),
                                }
                            }
                        },
                    },
                }
            },
        }
    }

    /// The `expect:empty` verdict for one outcome.
    #[verifier::rlimit(100)]
    fn expect_empty_result(&self, first: &NodeResult) -> (r: Result<NodeResult, String>)
        ensures
            match r {
                Ok(res) => expect_empty_spec(first@) == Ok::<NodeResV, Seq<char>>(res@),
                Err(m) => expect_empty_spec(first@) == Err::<NodeResV, Seq<char>>(m@),
            },
    {
        broadcast use crate::value::lemma_nv_seq, crate::json::lemma_jv_seq,
            crate::json::lemma_jv_fields, crate::xml::lemma_xn_seq;

        let val = match first {
            NodeResult::VALUE(v) => v,
            _ => {
                return Ok(NodeResult::VALUE(NodeValue::BOOL(true)));
            },
        };
        match val {
            NodeValue::NULL => Ok(NodeResult::VALUE(NodeValue::BOOL(true))),
            NodeValue::STRING(s) => {
                if s.as_str().unicode_len() == 0 {
                    Ok(NodeResult::VALUE(NodeValue::BOOL(true)))
                } else {
                    let mut out: Vec<char> = Vec::new();
                    push_str(&mut out, "Expected ");
                    crate::value::push_value_text(&mut out, val);
                    push_str(&mut out, " to be empty");
                    Err(crate::strutil::chars_to_string(&out))
                }
            },
            NodeValue::BOOL(b) => Ok(NodeResult::VALUE(NodeValue::BOOL(*b))),
            NodeValue::MMAP(m) => {
                proof {
                    assert(crate::value::mm_view(m@).len() == m@.len());
                }
                if m.len() == 0 {
                    Ok(NodeResult::VALUE(NodeValue::BOOL(true)))
                } else {
                    let mut out: Vec<char> = Vec::new();
                    push_str(&mut out, "Expected ");
                    crate::value::push_value_text(&mut out, val);
                    push_str(&mut out, " to be empty");
                    Err(crate::strutil::chars_to_string(&out))
                }
            },
            NodeValue::SLIST(l) => {
                proof {
                    assert(crate::value::sl_view(l@).len() == l@.len());
                }
                if l.len() == 0 {
                    Ok(NodeResult::VALUE(NodeValue::BOOL(true)))
                } else {
                    let mut out: Vec<char> = Vec::new();
                    push_str(&mut out, "Expected ");
                    crate::value::push_value_text(&mut out, val);
                    push_str(&mut out, " to be empty");
                    Err(crate::strutil::chars_to_string(&out))
                }
            },
            NodeValue::BARRAY(b) => {
                if b.len() == 0 {
                    Ok(NodeResult::VALUE(NodeValue::BOOL(true)))
                } else {
                    let mut out: Vec<char> = Vec::new();
                    push_str(&mut out, "Expected byte array (");
                    push_dec(&mut out, b.len() as u64);
                    push_str(&mut out, " bytes) to be empty");
                    proof {
                        assert(out@ =~= "Expected byte array ("@ + dec_seq(b@.len())
                            + " bytes) to be empty"@);
                    }
                    Err(crate::strutil::chars_to_string(&out))
                }
            },
            NodeValue::NAMESPACED(_, _) => Err(
                String::from_str("expect:empty is not implemented for namespaced values"),
            ),
            NodeValue::UINT(u) => {
                if *u == 0 {
                    Ok(NodeResult::VALUE(NodeValue::BOOL(true)))
                } else {
                    let mut out: Vec<char> = Vec::new();
                    push_str(&mut out, "Expected ");
                    crate::value::push_value_text(&mut out, val);
                    push_str(&mut out, " to be empty");
                    Err(crate::strutil::chars_to_string(&out))
                }
            },
            NodeValue::JSON(j) => match j {
                JsonValue::Null => Ok(NodeResult::VALUE(NodeValue::BOOL(true))),
                JsonValue::Str(sj) => {
                    if sj.as_str().unicode_len() == 0 {
                        Ok(NodeResult::VALUE(NodeValue::BOOL(true)))
                    } else {
                        let mut out: Vec<char> = Vec::new();
                        push_str(&mut out, "Expected JSON String (");
                        crate::json::push_json_text(&mut out, j);
                        push_str(&mut out, ") to be empty");
                        Err(crate::strutil::chars_to_string(&out))
                    }
                },
                JsonValue::Array(a) => {
                    if a.len() == 0 {
                        Ok(NodeResult::VALUE(NodeValue::BOOL(true)))
                    } else {
                        let mut out: Vec<char> = Vec::new();
                        push_str(&mut out, "Expected JSON Array (");
                        crate::json::push_json_text(&mut out, j);
                        push_str(&mut out, ") to be empty");
                        Err(crate::strutil::chars_to_string(&out))
                    }
                },
                JsonValue::Object(o) => {
                    if o.len() == 0 {
                        Ok(NodeResult::VALUE(NodeValue::BOOL(true)))
                    } else {
                        let mut out: Vec<char> = Vec::new();
                        push_str(&mut out, "Expected JSON Object (");
                        crate::json::push_json_text(&mut out, j);
                        push_str(&mut out, ") to be empty");
                        Err(crate::strutil::chars_to_string(&out))
                    }
                },
                other => {
                    let mut out: Vec<char> = Vec::new();
                    push_str(&mut out, "Expected json (");
                    crate::json::push_json_text(&mut out, other);
                    push_str(&mut out, ") to be empty");
                    Err(crate::strutil::chars_to_string(&out))
                },
            },
            NodeValue::ENTRY(_, _) => Ok(NodeResult::VALUE(NodeValue::BOOL(false))),
            NodeValue::LIST(l) => {
                proof {
                    assert(nv_seq(l@).len() == l@.len());
                }
                if l.len() == 0 {
                    Ok(NodeResult::VALUE(NodeValue::BOOL(true)))
                } else {
                    let mut out: Vec<char> = Vec::new();
                    push_str(&mut out, "Expected ");
                    crate::value::push_value_text(&mut out, val);
                    push_str(&mut out, " to be empty");
                    Err(crate::strutil::chars_to_string(&out))
                }
            },
            NodeValue::XML(x) => match x {
                XmlValue::Element(e) => {
                    if !crate::xml::has_child_elements(e) {
                        Ok(NodeResult::VALUE(NodeValue::BOOL(true)))
                    } else {
                        let mut out: Vec<char> = Vec::new();
                        push_str(&mut out, "Expected ");
                        push_str(&mut out, e.rendered.as_str());
                        push_str(&mut out, " to be empty");
                        proof {
                            assert(out@ =~= "Expected "@ + e@.rendered + " to be empty"@);
                        }
                        Err(crate::strutil::chars_to_string(&out))
                    }
                },
                XmlValue::Text(t) => {
                    if t.as_str().unicode_len() == 0 {
                        Ok(NodeResult::VALUE(NodeValue::BOOL(true)))
                    } else {
                        let mut out: Vec<char> = Vec::new();
                        push_str(&mut out, "Expected ");
                        crate::value::push_value_text(&mut out, val);
                        push_str(&mut out, " to be empty");
                        Err(crate::strutil::chars_to_string(&out))
                    }
                },
                XmlValue::Attribute(nm, v2) => {
                    if v2.as_str().unicode_len() == 0 {
                        Ok(NodeResult::VALUE(NodeValue::BOOL(true)))
                    } else {
                        let mut out: Vec<char> = Vec::new();
                        push_str(&mut out, "Expected ");
                        push_str(&mut out, nm.as_str());
                        push_str(&mut out, "=");
                        push_str(&mut out, v2.as_str());
                        push_str(&mut out, " to be empty");
                        proof {
                            assert(out@ =~= "Expected "@ + nm@ + "="@ + v2@
                                + " to be empty"@);
                        }
                        Err(crate::strutil::chars_to_string(&out))
                    }
                },
            },
        }
    }
}


/// Collects the keys a value offers to the entry checks.
#[verifier::loop_isolation(false)]
fn entry_keys_exec(v: &NodeValue) -> (r: Option<Vec<String>>)
    ensures
        match r {
            Some(keys) => entry_keys(v@) == Some(crate::value::sl_view(keys@)),
            None => entry_keys(v@) is None,
        },
{
    broadcast use crate::value::lemma_nv_seq, crate::json::lemma_jv_seq,
        crate::json::lemma_jv_fields, crate::xml::lemma_xn_seq;

    match v {
        NodeValue::MMAP(m) => {
            let ghost target = crate::value::mm_view(m@).map(
                |i: int, e: (Seq<char>, Seq<Seq<char>>)| e.0,
            );
            let mut out: Vec<String> = Vec::new();
            let mut i: usize = 0;
            proof {
                assert(crate::value::sl_view(out@) =~= target.take(0));
            }
            while i < m.len()
                invariant
                    i <= m.len(),
                    target == crate::value::mm_view(m@).map(
                        |k: int, e: (Seq<char>, Seq<Seq<char>>)| e.0,
                    ),
                    target.len() == m@.len(),
                    crate::value::sl_view(out@) =~= target.take(i as int),
                decreases m.len() - i,
            {
                out.push(m[i].0.clone());
                proof {
                    assert(crate::value::sl_view(out@) =~= target.take(i + 1));
                }
                i = i + 1;
            }
            proof {
                assert(target.take(m@.len() as int) =~= target);
            }
            Some(out)
        },
        NodeValue::SLIST(l) => Some(crate::value::clone_slist(l)),
        NodeValue::STRING(s) => {
            let mut out: Vec<String> = Vec::new();
            out.push(s.clone());
            proof {
                assert(crate::value::sl_view(out@) =~= seq![s@]);
            }
            Some(out)
        },
        NodeValue::JSON(j) => match j {
            JsonValue::Object(fields) => {
                let ghost target = crate::json::jv_fields(fields@).map(
                    |i: int, f: (Seq<char>, JsonV)| f.0,
                );
                let mut out: Vec<String> = Vec::new();
                let mut i: usize = 0;
                proof {
                    assert(crate::value::sl_view(out@) =~= target.take(0));
                }
                while i < fields.len()
                    invariant
                        i <= fields.len(),
                        target == crate::json::jv_fields(fields@).map(
                            |k: int, f: (Seq<char>, JsonV)| f.0,
                        ),
                        target.len() == fields@.len(),
                        crate::value::sl_view(out@) =~= target.take(i as int),
                    decreases fields.len() - i,
                {
                    out.push(fields[i].0.clone());
                    proof {
                        assert(crate::value::sl_view(out@) =~= target.take(i + 1));
                    }
                    i = i + 1;
                }
                proof {
                    assert(target.take(fields@.len() as int) =~= target);
                }
                Some(out)
            },
            JsonValue::Array(items) => {
                let ghost target = crate::json::jv_seq(items@).map(
                    |i: int, x: JsonV| json_text(x),
                );
                let mut out: Vec<String> = Vec::new();
                let mut i: usize = 0;
                proof {
                    assert(crate::value::sl_view(out@) =~= target.take(0));
                }
                while i < items.len()
                    invariant
                        i <= items.len(),
                        target == crate::json::jv_seq(items@).map(
                            |k: int, x: JsonV| json_text(x),
                        ),
                        target.len() == items@.len(),
                        crate::value::sl_view(out@) =~= target.take(i as int),
                    decreases items.len() - i,
                {
                    let mut buf: Vec<char> = Vec::new();
                    crate::json::push_json_text(&mut buf, &items[i]);
                    out.push(crate::strutil::chars_to_string(&buf));
                    proof {
                        assert(crate::value::sl_view(out@) =~= target.take(i + 1));
                    }
                    i = i + 1;
                }
                proof {
                    assert(target.take(items@.len() as int) =~= target);
                }
                Some(out)
            },
            _ => None,
        },
        NodeValue::XML(x) => match x {
            XmlValue::Element(e) => {
                let kids = crate::xml::child_elements(e);
                let ghost target = crate::xml::elem_children(e@.children).map(
                    |i: int, c: XmlElemV| c.name,
                );
                let mut out: Vec<String> = Vec::new();
                let mut i: usize = 0;
                proof {
                    assert(crate::value::sl_view(out@) =~= target.take(0));
                }
                while i < kids.len()
                    invariant
                        i <= kids.len(),
                        crate::xml::elem_children(e@.children) =~= kids@.map(
                            |k: int, c: XmlElement| c@,
                        ),
                        target == crate::xml::elem_children(e@.children).map(
                            |k: int, c: XmlElemV| c.name,
                        ),
                        target.len() == kids@.len(),
                        crate::value::sl_view(out@) =~= target.take(i as int),
                    decreases kids.len() - i,
                {
                    out.push(kids[i].name.clone());
                    proof {
                        assert(crate::value::sl_view(out@) =~= target.take(i + 1));
                    }
                    i = i + 1;
                }
                proof {
                    assert(target.take(kids@.len() as int) =~= target);
                }
                Some(out)
            },
            _ => None,
        },
        _ => None,
    }
}

/// Whether a string list contains a given string.
#[verifier::loop_isolation(false)]
fn slist_contains(l: &Vec<String>, key: &str) -> (r: bool)
    ensures
        r == crate::value::sl_view(l@).contains(key@),
{
    let mut i: usize = 0;
    while i < l.len()
        invariant
            i <= l.len(),
            forall|j: int| 0 <= j < i ==> crate::value::sl_view(l@)[j] != key@,
        decreases l.len() - i,
    {
        if str_eq(l[i].as_str(), key) {
            proof {
                assert(crate::value::sl_view(l@)[i as int] == key@);
            }
            return true;
        }
        i = i + 1;
    }
    proof {
        if crate::value::sl_view(l@).contains(key@) {
            let w = choose|j: int|
                0 <= j < crate::value::sl_view(l@).len() && crate::value::sl_view(l@)[j]
                    == key@;
            assert(false);
        }
    }
    false
}

/// The members of `a` not occurring in `b`.
#[verifier::loop_isolation(false)]
fn slist_diff(a: &Vec<String>, b: &Vec<String>) -> (r: Vec<String>)
    ensures
        crate::value::sl_view(r@) == keys_diff(crate::value::sl_view(a@), crate::value::sl_view(b@)),
{
    let ghost av = crate::value::sl_view(a@);
    let ghost bv = crate::value::sl_view(b@);
    let mut out: Vec<String> = Vec::new();
    let mut i: usize = 0;
    proof {
        reveal_with_fuel(Seq::filter, 2);
        assert(av.take(0) =~= Seq::<Seq<char>>::empty());
        assert(av.take(0).filter(|k: Seq<char>| !bv.contains(k)) =~= Seq::<Seq<char>>::empty());
        assert(crate::value::sl_view(out@) =~= av.take(0).filter(
            |k: Seq<char>| !bv.contains(k),
        ));
    }
    while i < a.len()
        invariant
            i <= a.len(),
            crate::value::sl_view(out@) =~= av.take(i as int).filter(
                |k: Seq<char>| !bv.contains(k),
            ),
        decreases a.len() - i,
    {
        let is_in = slist_contains(b, a[i].as_str());
        if !is_in {
            out.push(a[i].clone());
        }
        proof {
            reveal_with_fuel(Seq::filter, 2);
            assert(av.take(i + 1).drop_last() =~= av.take(i as int));
            assert(av.take(i + 1).last() == av[i as int]);
            if !bv.contains(av[i as int]) {
                assert(av.take(i + 1).filter(|k: Seq<char>| !bv.contains(k)) =~= av.take(
                    i as int,
                ).filter(|k: Seq<char>| !bv.contains(k)).push(av[i as int]));
            } else {
                assert(av.take(i + 1).filter(|k: Seq<char>| !bv.contains(k)) =~= av.take(
                    i as int,
                ).filter(|k: Seq<char>| !bv.contains(k)));
            }
            assert(crate::value::sl_view(out@) =~= av.take(i + 1).filter(
                |k: Seq<char>| !bv.contains(k),
            ));
        }
        i = i + 1;
    }
    proof {
        assert(av.take(a@.len() as int) =~= av);
    }
    out
}

impl ExecutionPlanInterpreter {
    /// The `expect:entries` / `expect:only-entries` action.
    #[verifier::rlimit(100)]
    fn execute_check_entries<R: ValueResolver>(
        &mut self,
        node: &ExecutionPlanNode,
        name: &str,
        value_resolver: &R,
        fuel: u64,
        only: bool,
    ) -> (r: ExecutionPlanNode)
        ensures
            ({
                let (s2, nd) = acheck_entries(
                    value_resolver,
                    stack_view(old(self).value_stack@),
                    node@,
                    name@,
                    fuel as nat,
                    only,
                );
                stack_view(final(self).value_stack@) == s2 && final(self).context == old(
                    self,
                ).context && r@ == nd
            }),
        decreases fuel, 2int, 0int,
    {
        broadcast use lemma_pn_seq, crate::value::lemma_nv_seq;

        match self.validate_args(2, 1, node, name, value_resolver, fuel) {
            Err(m) => ExecutionPlanNode {
                node_type: node.node_type.clone(),
                result: Some(NodeResult::ERROR(m)),
                children: clone_nodes(&node.children),
            },
            Ok((vals, opt)) => {
                let expected: Vec<String> = match vals[0].value() {
                    Some(NodeResult::VALUE(NodeValue::SLIST(l))) => l,
                    _ => Vec::new(),
                };
                proof {
                    lemma_pn_seq(vals@);
                    if !(recorded(pn_seq(vals@)[0]) matches NodeResV::Value(NodeValV::SList(_))) {
                        assert(crate::value::sl_view(expected@) =~= Seq::<Seq<char>>::empty());
                    }
                }
                let second = match vals[1].value() {
                    Some(NodeResult::VALUE(v)) => v,
                    _ => NodeValue::NULL,
                };
                proof {
                    assert(second@ == value_of(recorded(pn_seq(vals@)[1])));
                }
                match entry_keys_exec(&second) {
                    None => {
                        let mut out: Vec<char> = Vec::new();
                        push_str(&mut out, "'");
                        push_str(&mut out, name);
                        push_str(&mut out, "' can't be used with a ");
                        push_str(&mut out, second.value_type());
                        push_str(&mut out, " value");
                        proof {
                            assert(out@ =~= "'"@ + name@ + "' can't be used with a "@
                                + value_type_name(second@) + " value"@);
                        }
                        ExecutionPlanNode {
                            node_type: node.node_type.clone(),
                            result: Some(
                                NodeResult::ERROR(crate::strutil::chars_to_string(&out)),
                            ),
                            children: concat_nodes(vals, opt),
                        }
                    },
                    Some(actual) => {
                        let diff = if only {
                            slist_diff(&actual, &expected)
                        } else {
                            slist_diff(&expected, &actual)
                        };
                        if diff.len() == 0 {
                            proof {
                                assert(crate::value::sl_view(diff@).len() == 0);
                            }
                            ExecutionPlanNode {
                                node_type: node.node_type.clone(),
                                result: Some(NodeResult::OK),
                                children: concat_nodes(vals, opt),
                            }
                        } else {
                            proof {
                                assert(crate::value::sl_view(diff@).len() == diff@.len());
                            }
                            let mut out: Vec<char> = Vec::new();
                            if only {
                                push_str(
                                    &mut out,
                                    "The following unexpected entries were received: ",
                                );
                            } else {
                                push_str(
                                    &mut out,
                                    "The following expected entries were missing: ",
                                );
                            }
                            crate::value::push_value_text(
                                &mut out,
                                &NodeValue::SLIST(crate::value::clone_slist(&diff)),
                            );
                            let err = crate::strutil::chars_to_string(&out);
                            if opt.len() > 0 {
                                self.push_result(
                                    Some(
                                        NodeResult::VALUE(
                                            NodeValue::SLIST(
                                                crate::value::clone_slist(&diff),
                                            ),
                                        ),
                                    ),
                                );
                                let mr = self.opt_message(&opt[0], value_resolver, fuel);
                                let popped = self.pop_result();
                                match mr {
                                    Ok((message, w2)) => {
                                        let mut w2v: Vec<ExecutionPlanNode> = Vec::new();
                                        let ghost w2g = w2@;
                                        w2v.push(w2);
                                        proof {
                                            assert(pn_seq(w2v@) =~= seq![w2g]);
                                        }
                                        ExecutionPlanNode {
                                            node_type: node.node_type.clone(),
                                            result: Some(NodeResult::ERROR(message)),
                                            children: concat_nodes(vals, w2v),
                                        }
                                    },
                                    Err(_) => ExecutionPlanNode {
                                        node_type: node.node_type.clone(),
                                        result: Some(NodeResult::ERROR(err)),
                                        children: concat_nodes(vals, opt),
                                    },
                                }
                            } else {
                                ExecutionPlanNode {
                                    node_type: node.node_type.clone(),
                                    result: Some(NodeResult::ERROR(err)),
                                    children: concat_nodes(vals, opt),
                                }
                            }
                        }
                    },
                }
            },
        }
    }

    /// The `expect:count` action.
    #[verifier::rlimit(100)]
    fn execute_expect_count<R: ValueResolver>(
        &mut self,
        node: &ExecutionPlanNode,
        name: &str,
        value_resolver: &R,
        fuel: u64,
    ) -> (r: ExecutionPlanNode)
        ensures
            ({
                let (s2, nd) = aexpect_count(
                    value_resolver,
                    stack_view(old(self).value_stack@),
                    node@,
                    name@,
                    fuel as nat,
                );
                stack_view(final(self).value_stack@) == s2 && final(self).context == old(
                    self,
                ).context && r@ == nd
            }),
        decreases fuel, 2int, 0int,
    {
        broadcast use lemma_pn_seq;

        match self.validate_args(2, 1, node, name, value_resolver, fuel) {
            Err(m) => ExecutionPlanNode {
                node_type: node.node_type.clone(),
                result: Some(NodeResult::ERROR(m)),
                children: clone_nodes(&node.children),
            },
            Ok((vals, opt)) => {
                let expected: u64 = match vals[0].value() {
                    Some(NodeResult::VALUE(NodeValue::UINT(u))) => u,
                    _ => 0,
                };
                proof {
                    lemma_pn_seq(vals@);
                }
                let second = match vals[1].value() {
                    Some(NodeResult::VALUE(v)) => v,
                    _ => NodeValue::NULL,
                };
                proof {
                    assert(second@ == value_of(recorded(pn_seq(vals@)[1])));
                }
                match self.count_result(expected, &second) {
                    Ok(_) => ExecutionPlanNode {
                        node_type: node.node_type.clone(),
                        result: Some(NodeResult::OK),
                        children: concat_nodes(vals, opt),
                    },
                    Err(err) => {
                        if opt.len() > 0 {
                            match self.opt_message(&opt[0], value_resolver, fuel) {
                                Ok((message, w2)) => {
                                    let mut w2v: Vec<ExecutionPlanNode> = Vec::new();
                                    let ghost w2g = w2@;
                                    w2v.push(w2);
                                    proof {
                                        assert(pn_seq(w2v@) =~= seq![w2g]);
                                    }
                                    ExecutionPlanNode {
                                        node_type: node.node_type.clone(),
                                        result: Some(NodeResult::ERROR(message)),
                                        children: concat_nodes(vals, w2v),
                                    }
                                },
                                Err(_) => ExecutionPlanNode {
                                    node_type: node.node_type.clone(),
                                    result: Some(NodeResult::ERROR(err)),
                                    children: concat_nodes(vals, opt),
                                },
                            }
                        } else {
                            ExecutionPlanNode {
                                node_type: node.node_type.clone(),
                                result: Some(NodeResult::ERROR(err)),
                                children: concat_nodes(vals, opt),
                            }
                        }
                    },
                }
            },
        }
    }

    /// The `expect:count` verdict for one counted value.
    #[verifier::rlimit(100)]
    fn count_result(&self, expected: u64, v: &NodeValue) -> (r: Result<(), String>)
        ensures
            match r {
                Ok(_) => expect_count_spec(expected as int, v@) is Ok,
                Err(m) => expect_count_spec(expected as int, v@) matches Err(e) && e == m@,
            },
    {
        broadcast use crate::value::lemma_nv_seq, crate::json::lemma_jv_seq,
            crate::json::lemma_jv_fields;

        match v {
            NodeValue::MMAP(m) => {
                proof {
                    assert(v@ == NodeValV::MMap(crate::value::mm_view(m@)));
                    assert(crate::value::mm_view(m@).len() == m@.len());
                }
                if (m.len() as u64) == expected {
                    Ok(())
                } else {
                    let mut out: Vec<char> = Vec::new();
                    push_str(&mut out, "Expected ");
                    push_dec(&mut out, expected);
                    push_str(&mut out, " map entries but there were ");
                    push_dec(&mut out, m.len() as u64);
                    Err(crate::strutil::chars_to_string(&out))
                }
            },
            NodeValue::SLIST(l) => {
                proof {
                    assert(v@ == NodeValV::SList(crate::value::sl_view(l@)));
                    assert(crate::value::sl_view(l@).len() == l@.len());
                }
                if (l.len() as u64) == expected {
                    Ok(())
                } else {
                    let mut out: Vec<char> = Vec::new();
                    push_str(&mut out, "Expected ");
                    push_dec(&mut out, expected);
                    push_str(&mut out, " items but there were ");
                    push_dec(&mut out, l.len() as u64);
                    Err(crate::strutil::chars_to_string(&out))
                }
            },
            NodeValue::STRING(sv) => {
                let bs = sv.as_str().as_bytes();
                proof {
                    assert(bs@ == vstd::utf8::encode_utf8(sv@));
                    assert(bs@.len() == byte_len(sv@));
                }
                let blen = bs.len();
                if (blen as u64) == expected {
                    Ok(())
                } else {
                    let mut out: Vec<char> = Vec::new();
                    push_str(&mut out, "Expected a string with a length of ");
                    push_dec(&mut out, expected);
                    push_str(&mut out, " but it was ");
                    push_dec(&mut out, blen as u64);
                    Err(crate::strutil::chars_to_string(&out))
                }
            },
            NodeValue::LIST(l) => {
                proof {
                    crate::value::lemma_nv_seq(l@);
                    assert(v@ == NodeValV::List(nv_seq(l@)));
                    assert(nv_seq(l@).len() == l@.len());
                }
                if (l.len() as u64) == expected {
                    Ok(())
                } else {
                    let mut out: Vec<char> = Vec::new();
                    push_str(&mut out, "Expected ");
                    push_dec(&mut out, expected);
                    push_str(&mut out, " items but there were ");
                    push_dec(&mut out, l.len() as u64);
                    Err(crate::strutil::chars_to_string(&out))
                }
            },
            NodeValue::JSON(j) => match j {
                JsonValue::Object(o) => {
                    proof {
                        crate::json::lemma_jv_fields(o@);
                        assert(j@ == JsonV::Object(crate::json::jv_fields(o@)));
                        assert(v@ == NodeValV::Json(j@));
                    }
                    if (o.len() as u64) == expected {
                        Ok(())
                    } else {
                        let mut out: Vec<char> = Vec::new();
                        push_str(&mut out, "Expected ");
                        push_dec(&mut out, expected);
                        push_str(&mut out, " object entries but there were ");
                        push_dec(&mut out, o.len() as u64);
                        Err(crate::strutil::chars_to_string(&out))
                    }
                },
                JsonValue::Array(a) => {
                    proof {
                        crate::json::lemma_jv_seq(a@);
                        assert(j@ == JsonV::Array(crate::json::jv_seq(a@)));
                        assert(v@ == NodeValV::Json(j@));
                    }
                    if (a.len() as u64) == expected {
                        Ok(())
                    } else {
                        let mut out: Vec<char> = Vec::new();
                        push_str(&mut out, "Expected ");
                        push_dec(&mut out, expected);
                        push_str(&mut out, " array items but there were ");
                        push_dec(&mut out, a.len() as u64);
                        Err(crate::strutil::chars_to_string(&out))
                    }
                },
                other => {
                    let mut out: Vec<char> = Vec::new();
                    push_str(&mut out, "'expect:count' can't be used with a ");
                    crate::json::push_json_type_name(&mut out, other);
                    push_str(&mut out, " value");
                    Err(crate::strutil::chars_to_string(&out))
                },
            },
            NodeValue::XML(x) => match x {
                XmlValue::Element(_) => {
                    if expected == 1 {
                        Ok(())
                    } else {
                        let mut out: Vec<char> = Vec::new();
                        push_str(&mut out, "Expected ");
                        push_dec(&mut out, expected);
                        push_str(&mut out, " elements but there were 1");
                        Err(crate::strutil::chars_to_string(&out))
                    }
                },
                other => {
                    let ov = NodeValue::XML(other.clone());
                    let mut out: Vec<char> = Vec::new();
                    push_str(&mut out, "'expect:count' can't be used with a ");
                    push_str(&mut out, ov.value_type());
                    push_str(&mut out, " value");
                    Err(crate::strutil::chars_to_string(&out))
                },
            },
            other => {
                let mut out: Vec<char> = Vec::new();
                push_str(&mut out, "'expect:count' can't be used with a ");
                push_str(&mut out, other.value_type());
                push_str(&mut out, " value");
                Err(crate::strutil::chars_to_string(&out))
            },
        }
    }
}


impl ExecutionPlanInterpreter {
    /// The `json:expect:empty` action.
    #[verifier::rlimit(100)]
    fn execute_json_expect_empty<R: ValueResolver>(
        &mut self,
        node: &ExecutionPlanNode,
        name: &str,
        value_resolver: &R,
        fuel: u64,
    ) -> (r: ExecutionPlanNode)
        ensures
            ({
                let (s2, nd) = ajson_expect_empty(
                    value_resolver,
                    stack_view(old(self).value_stack@),
                    node@,
                    name@,
                    fuel as nat,
                );
                stack_view(final(self).value_stack@) == s2 && final(self).context == old(
                    self,
                ).context && r@ == nd
            }),
        decreases fuel, 2int, 0int,
    {
        broadcast use lemma_pn_seq;

        match self.validate_two_args(node, name, value_resolver, fuel) {
            Err(m) => ExecutionPlanNode {
                node_type: node.node_type.clone(),
                result: Some(NodeResult::ERROR(m)),
                children: clone_nodes(&node.children),
            },
            Ok((a, b)) => {
                let ghost av = a@;
                let ghost bv = b@;
                let ra = match a.value() {
                    Some(v) => v,
                    None => NodeResult::OK,
                };
                let rb = match b.value() {
                    Some(v) => v,
                    None => NodeResult::OK,
                };
                let mut cs: Vec<ExecutionPlanNode> = Vec::new();
                cs.push(a);
                cs.push(b);
                proof {
                    assert(pn_seq(cs@) =~= seq![av, bv]);
                }
                let res: NodeResult = match self.string_arg(&ra) {
                    Err(e) => NodeResult::ERROR(e),
                    Ok(t) => match self.json_arg(&rb) {
                        Err(e) => NodeResult::ERROR(e),
                        Ok(j) => match self.check_json_type(t.as_str(), &j) {
                            Err(e) => NodeResult::ERROR(e),
                            Ok(_) => match self.json_empty_check(&j) {
                                Ok(_) => NodeResult::VALUE(NodeValue::BOOL(true)),
                                Err(e) => NodeResult::ERROR(e),
                            },
                        },
                    },
                };
                ExecutionPlanNode {
                    node_type: node.node_type.clone(),
                    result: Some(res),
                    children: cs,
                }
            },
        }
    }

    /// The first argument of the `json:*` assertions, as a string.
    fn string_arg(&self, r: &NodeResult) -> (res: Result<String, String>)
        ensures
            match res {
                Ok(t) => string_result(r@) == Ok::<Seq<char>, Seq<char>>(t@),
                Err(m) => string_result(r@) == Err::<Seq<char>, Seq<char>>(m@),
            },
    {
        match r {
            NodeResult::VALUE(NodeValue::STRING(s)) => Ok(s.clone()),
            other => {
                let rt = other.str_form();
                let mut out: Vec<char> = Vec::new();
                push_str(&mut out, "'");
                push_str(&mut out, rt.as_str());
                push_str(&mut out, "' is not a valid JSON type");
                proof {
                    assert(out@ =~= "'"@ + crate::value::res_text(other@)
                        + "' is not a valid JSON type"@);
                }
                Err(crate::strutil::chars_to_string(&out))
            },
        }
    }

    /// A JSON argument of the `json:*` assertions.
    fn json_arg(&self, r: &NodeResult) -> (res: Result<JsonValue, String>)
        ensures
            match res {
                Ok(j) => json_value_result(r@) == Ok::<JsonV, Seq<char>>(j@),
                Err(m) => json_value_result(r@) == Err::<JsonV, Seq<char>>(m@),
            },
    {
        match r {
            NodeResult::VALUE(v) => match v {
                NodeValue::JSON(j) => Ok(j.clone()),
                other => {
                    let mut out: Vec<char> = Vec::new();
                    push_str(&mut out, "Was expecting a JSON value, but got ");
                    crate::value::push_value_text(&mut out, other);
                    Err(crate::strutil::chars_to_string(&out))
                },
            },
            other => {
                let rt = other.str_form();
                let mut out: Vec<char> = Vec::new();
                push_str(&mut out, "Was expecting a JSON value, but got ");
                push_str(&mut out, rt.as_str());
                Err(crate::strutil::chars_to_string(&out))
            },
        }
    }

    /// The `json:*` type-name check.
    #[verifier::rlimit(100)]
    fn check_json_type(&self, t: &str, j: &JsonValue) -> (res: Result<(), String>)
        ensures
            match res {
                Ok(_) => json_check_type_spec(t@, j@) is Ok,
                Err(m) => json_check_type_spec(t@, j@) matches Err(e) && e == m@,
            },
    {
        let kind: u8 = if str_eq(t, "NULL") {
            0
        } else if str_eq(t, "BOOL") {
            1
        } else if str_eq(t, "NUMBER") {
            2
        } else if str_eq(t, "STRING") {
            3
        } else if str_eq(t, "ARRAY") {
            4
        } else if str_eq(t, "OBJECT") {
            5
        } else {
            6
        };
        if kind == 6 {
            let mut out: Vec<char> = Vec::new();
            push_str(&mut out, "'");
            push_str(&mut out, t);
            push_str(&mut out, "' is not a valid JSON type");
            proof {
                assert(out@ =~= "'"@ + t@ + "' is not a valid JSON type"@);
            }
            return Err(crate::strutil::chars_to_string(&out));
        }
        let ok = match (kind, j) {
            (0, JsonValue::Null) => true,
            (1, JsonValue::Bool(_)) => true,
            (2, JsonValue::Number { .. }) => true,
            (3, JsonValue::Str(_)) => true,
            (4, JsonValue::Array(_)) => true,
            (5, JsonValue::Object(_)) => true,
            _ => false,
        };
        if ok {
            Ok(())
        } else {
            let word: &str = if kind == 0 {
                "NULL"
            } else if kind == 1 {
                "Bool"
            } else if kind == 2 {
                "Number"
            } else if kind == 3 {
                "String"
            } else if kind == 4 {
                "Array"
            } else {
                "Object"
            };
            let mut out: Vec<char> = Vec::new();
            push_str(&mut out, "Was expecting a JSON ");
            push_str(&mut out, word);
            push_str(&mut out, " but got a ");
            crate::json::push_json_type_name(&mut out, j);
            proof {
                assert(out@ =~= "Was expecting a JSON "@ + word@ + " but got a "@
                    + crate::json::json_type_name(j@));
            }
            Err(crate::strutil::chars_to_string(&out))
        }
    }

    /// The `json:expect:empty` emptiness check.
    fn json_empty_check(&self, j: &JsonValue) -> (res: Result<(), String>)
        ensures
            match res {
                Ok(_) => json_empty_spec(j@) is Ok,
                Err(m) => json_empty_spec(j@) matches Err(e) && e == m@,
            },
    {
        broadcast use crate::json::lemma_jv_seq, crate::json::lemma_jv_fields;

        match j {
            JsonValue::Null => Ok(()),
            JsonValue::Str(s) => {
                if s.as_str().unicode_len() == 0 {
                    Ok(())
                } else {
                    let mut out: Vec<char> = Vec::new();
                    push_str(&mut out, "Expected JSON String (");
                    crate::json::push_json_text(&mut out, j);
                    push_str(&mut out, ") to be empty");
                    Err(crate::strutil::chars_to_string(&out))
                }
            },
            JsonValue::Array(a) => {
                if a.len() == 0 {
                    Ok(())
                } else {
                    let mut out: Vec<char> = Vec::new();
                    push_str(&mut out, "Expected JSON Array (");
                    crate::json::push_json_text(&mut out, j);
                    push_str(&mut out, ") to be empty");
                    Err(crate::strutil::chars_to_string(&out))
                }
            },
            JsonValue::Object(o) => {
                if o.len() == 0 {
                    Ok(())
                } else {
                    let mut out: Vec<char> = Vec::new();
                    push_str(&mut out, "Expected JSON Object (");
                    crate::json::push_json_text(&mut out, j);
                    push_str(&mut out, ") to be empty");
                    Err(crate::strutil::chars_to_string(&out))
                }
            },
            other => {
                let mut out: Vec<char> = Vec::new();
                push_str(&mut out, "Expected json (");
                crate::json::push_json_text(&mut out, other);
                push_str(&mut out, ") to be empty");
                Err(crate::strutil::chars_to_string(&out))
            },
        }
    }

    /// The `json:match:length` action.
    #[verifier::rlimit(100)]
    fn execute_json_match_length<R: ValueResolver>(
        &mut self,
        node: &ExecutionPlanNode,
        name: &str,
        value_resolver: &R,
        fuel: u64,
    ) -> (r: ExecutionPlanNode)
        ensures
            ({
                let (s2, nd) = ajson_match_length(
                    value_resolver,
                    stack_view(old(self).value_stack@),
                    node@,
                    name@,
                    fuel as nat,
                );
                stack_view(final(self).value_stack@) == s2 && final(self).context == old(
                    self,
                ).context && r@ == nd
            }),
        decreases fuel, 2int, 0int,
    {
        broadcast use lemma_pn_seq, crate::json::lemma_jv_seq, crate::json::lemma_jv_fields;

        match self.validate_three_args(node, name, value_resolver, fuel) {
            Err(m) => ExecutionPlanNode {
                node_type: node.node_type.clone(),
                result: Some(NodeResult::ERROR(m)),
                children: clone_nodes(&node.children),
            },
            Ok((a, b, c)) => {
                let ghost av = a@;
                let ghost bv = b@;
                let ghost cv = c@;
                let ra = match a.value() {
                    Some(v) => v,
                    None => NodeResult::OK,
                };
                let rb = match b.value() {
                    Some(v) => v,
                    None => NodeResult::OK,
                };
                let rc = match c.value() {
                    Some(v) => v,
                    None => NodeResult::OK,
                };
                let mut cs: Vec<ExecutionPlanNode> = Vec::new();
                cs.push(a);
                cs.push(b);
                cs.push(c);
                proof {
                    assert(pn_seq(cs@) =~= seq![av, bv, cv]);
                }
                let res: NodeResult = match self.string_arg(&ra) {
                    Err(e) => NodeResult::ERROR(e),
                    Ok(t) => match &rb {
                        NodeResult::VALUE(NodeValue::UINT(len)) => {
                            match self.json_arg(&rc) {
                                Err(e) => NodeResult::ERROR(e),
                                Ok(j) => match self.check_json_type(t.as_str(), &j) {
                                    Err(e) => NodeResult::ERROR(e),
                                    Ok(_) => match self.json_length_check(*len, &j) {
                                        Err(e) => NodeResult::ERROR(e),
                                        Ok(_) => NodeResult::VALUE(NodeValue::BOOL(true)),
                                    },
                                },
                            }
                        },
                        other => {
                            let rt = other.str_form();
                            let mut out: Vec<char> = Vec::new();
                            push_str(&mut out, "'");
                            push_str(&mut out, rt.as_str());
                            push_str(&mut out, "' is not a valid number");
                            proof {
                                assert(out@ =~= "'"@ + crate::value::res_text(other@)
                                    + "' is not a valid number"@);
                            }
                            NodeResult::ERROR(crate::strutil::chars_to_string(&out))
                        },
                    },
                };
                ExecutionPlanNode {
                    node_type: node.node_type.clone(),
                    result: Some(res),
                    children: cs,
                }
            },
        }
    }

    /// The `json:match:length` length check.
    #[verifier::rlimit(100)]
    fn json_length_check(&self, len: u64, j: &JsonValue) -> (res: Result<(), String>)
        ensures
            match res {
                Ok(_) => json_check_length_spec(len as int, j@) is Ok,
                Err(m) => json_check_length_spec(len as int, j@) matches Err(e) && e == m@,
            },
    {
        broadcast use crate::json::lemma_jv_seq, crate::json::lemma_jv_fields;

        match j {
            JsonValue::Array(a) => {
                proof {
                    crate::json::lemma_jv_seq(a@);
                    assert(j@ == JsonV::Array(crate::json::jv_seq(a@)));
                }
                if (a.len() as u64) == len {
                    Ok(())
                } else {
                    let mut out: Vec<char> = Vec::new();
                    push_str(&mut out, "Was expecting a length of ");
                    push_dec(&mut out, len);
                    push_str(&mut out, ", but actual length is ");
                    push_dec(&mut out, a.len() as u64);
                    proof {
                        assert(out@ =~= "Was expecting a length of "@ + dec_seq(len as nat)
                            + ", but actual length is "@ + dec_seq(a@.len() as nat));
                    }
                    Err(crate::strutil::chars_to_string(&out))
                }
            },
            JsonValue::Object(o) => {
                proof {
                    crate::json::lemma_jv_fields(o@);
                    assert(j@ == JsonV::Object(crate::json::jv_fields(o@)));
                }
                if (o.len() as u64) == len {
                    Ok(())
                } else {
                    let mut out: Vec<char> = Vec::new();
                    push_str(&mut out, "Was expecting a length of ");
                    push_dec(&mut out, len);
                    push_str(&mut out, ", but actual length is ");
                    push_dec(&mut out, o.len() as u64);
                    proof {
                        assert(out@ =~= "Was expecting a length of "@ + dec_seq(len as nat)
                            + ", but actual length is "@ + dec_seq(o@.len() as nat));
                    }
                    Err(crate::strutil::chars_to_string(&out))
                }
            },
            _ => Ok(()),
        }
    }

    /// The `json:expect:entries` action.
    #[verifier::rlimit(100)]
    fn execute_json_expect_entries<R: ValueResolver>(
        &mut self,
        node: &ExecutionPlanNode,
        name: &str,
        value_resolver: &R,
        fuel: u64,
    ) -> (r: ExecutionPlanNode)
        ensures
            ({
                let (s2, nd) = ajson_expect_entries(
                    value_resolver,
                    stack_view(old(self).value_stack@),
                    node@,
                    name@,
                    fuel as nat,
                );
                stack_view(final(self).value_stack@) == s2 && final(self).context == old(
                    self,
                ).context && r@ == nd
            }),
        decreases fuel, 2int, 0int,
    {
        broadcast use lemma_pn_seq, crate::json::lemma_jv_fields, crate::value::lemma_nv_seq;

        match self.validate_three_args(node, name, value_resolver, fuel) {
            Err(m) => ExecutionPlanNode {
                node_type: node.node_type.clone(),
                result: Some(NodeResult::ERROR(m)),
                children: clone_nodes(&node.children),
            },
            Ok((a, b, c)) => {
                let ghost av = a@;
                let ghost bv = b@;
                let ghost cv = c@;
                let ra = match a.value() {
                    Some(v) => v,
                    None => NodeResult::OK,
                };
                let rb = match b.value() {
                    Some(v) => v,
                    None => NodeResult::OK,
                };
                let rc = match c.value() {
                    Some(v) => v,
                    None => NodeResult::OK,
                };
                let mut cs: Vec<ExecutionPlanNode> = Vec::new();
                cs.push(a);
                cs.push(b);
                cs.push(c);
                proof {
                    assert(pn_seq(cs@) =~= seq![av, bv, cv]);
                }
                let res: NodeResult = match self.string_arg(&ra) {
                    Err(e) => NodeResult::ERROR(e),
                    Ok(t) => match rb {
                        NodeResult::VALUE(NodeValue::SLIST(keys)) => {
                            match self.json_arg(&rc) {
                                Err(e) => NodeResult::ERROR(e),
                                Ok(j) => match self.check_json_type(t.as_str(), &j) {
                                    Err(e) => NodeResult::ERROR(e),
                                    Ok(_) => match &j {
                                        JsonValue::Object(fields) => {
                                            let actual = match entry_keys_exec(
                                                &NodeValue::JSON(j.clone()),
                                            ) {
                                                Some(ks) => ks,
                                                None => Vec::new(),
                                            };
                                            let diff = slist_diff(&keys, &actual);
                                            if diff.len() == 0 {
                                                proof {
                                                    assert(crate::value::sl_view(
                                                        diff@,
                                                    ).len() == 0);
                                                }
                                                NodeResult::VALUE(NodeValue::BOOL(true))
                                            } else {
                                                proof {
                                                    assert(crate::value::sl_view(
                                                        diff@,
                                                    ).len() == diff@.len());
                                                }
                                                let mut out: Vec<char> = Vec::new();
                                                push_str(
                                                    &mut out,
                                                    "The following expected entries were missing from the actual Object: ",
                                                );
                                                let mut k: usize = 0;
                                                let ghost dv = crate::value::sl_view(diff@);
                                                proof {
                                                    assert(join_with_sep(dv.take(0), ", "@)
                                                        =~= Seq::<char>::empty());
                                                    assert(out@
                                                        =~= "The following expected entries were missing from the actual Object: "@
                                                        + join_with_sep(dv.take(0), ", "@));
                                                }
                                                while k < diff.len()
                                                    invariant
                                                        k <= diff@.len(),
                                                        dv == crate::value::sl_view(diff@),
                                                        out@
                                                            =~= "The following expected entries were missing from the actual Object: "@
                                                            + join_with_sep(
                                                            dv.take(k as int),
                                                            ", "@,
                                                        ),
                                                    decreases diff@.len() - k,
                                                {
                                                    if k > 0 {
                                                        push_str(&mut out, ", ");
                                                    }
                                                    push_str(&mut out, diff[k].as_str());
                                                    proof {
                                                        assert(dv.take(k + 1).drop_last()
                                                            =~= dv.take(k as int));
                                                        assert(dv.take(k + 1).last()
                                                            == dv[k as int]);
                                                        assert(out@
                                                            =~= "The following expected entries were missing from the actual Object: "@
                                                            + join_with_sep(
                                                            dv.take(k + 1),
                                                            ", "@,
                                                        ));
                                                    }
                                                    k = k + 1;
                                                }
                                                proof {
                                                    assert(dv.take(diff@.len() as int)
                                                        =~= dv);
                                                }
                                                NodeResult::ERROR(
                                                    crate::strutil::chars_to_string(&out),
                                                )
                                            }
                                        },
                                        other => {
                                            let mut out: Vec<char> = Vec::new();
                                            push_str(
                                                &mut out,
                                                "Was expecting a JSON Object, but got ",
                                            );
                                            crate::json::push_json_text(&mut out, other);
                                            NodeResult::ERROR(
                                                crate::strutil::chars_to_string(&out),
                                            )
                                        },
                                    },
                                },
                            }
                        },
                        other => {
                            let rt = other.str_form();
                            let mut out: Vec<char> = Vec::new();
                            push_str(&mut out, "'");
                            push_str(&mut out, rt.as_str());
                            push_str(&mut out, "' is not a list of Strings");
                            proof {
                                assert(out@ =~= "'"@ + crate::value::res_text(other@)
                                    + "' is not a list of Strings"@);
                            }
                            NodeResult::ERROR(crate::strutil::chars_to_string(&out))
                        },
                    },
                };
                ExecutionPlanNode {
                    node_type: node.node_type.clone(),
                    result: Some(res),
                    children: cs,
                }
            },
        }
    }
}


/// The injected copy of a node used by `for-each`.
#[verifier::loop_isolation(false)]
pub fn inject_index(node: &ExecutionPlanNode, index: usize) -> (r: ExecutionPlanNode)
    ensures
        r@ == inject_spec(node@, index as int),
    decreases node,
{
    broadcast use lemma_pn_seq;

    match &node.node_type {
        PlanNodeType::CONTAINER(l) => {
            let label = match l {
                ContainerLabel::Path(p) => ContainerLabel::Path(p.inject_index(index)),
                ContainerLabel::Text(t) => ContainerLabel::Text(t.clone()),
            };
            let children = inject_children(node, index);
            let result = match &node.result {
                Some(v) => Some(v.clone()),
                None => None,
            };
            ExecutionPlanNode { node_type: PlanNodeType::CONTAINER(label), result, children }
        },
        PlanNodeType::ACTION(a) => {
            let children = inject_children(node, index);
            let result = match &node.result {
                Some(v) => Some(v.clone()),
                None => None,
            };
            ExecutionPlanNode { node_type: PlanNodeType::ACTION(a.clone()), result, children }
        },
        PlanNodeType::PIPELINE => {
            let children = inject_children(node, index);
            let result = match &node.result {
                Some(v) => Some(v.clone()),
                None => None,
            };
            ExecutionPlanNode { node_type: PlanNodeType::PIPELINE, result, children }
        },
        PlanNodeType::SPLAT => {
            let children = inject_children(node, index);
            let result = match &node.result {
                Some(v) => Some(v.clone()),
                None => None,
            };
            ExecutionPlanNode { node_type: PlanNodeType::SPLAT, result, children }
        },
        PlanNodeType::RESOLVE_CURRENT(p) => {
            let result = match &node.result {
                Some(v) => Some(v.clone()),
                None => None,
            };
            let r2 = ExecutionPlanNode {
                node_type: PlanNodeType::RESOLVE_CURRENT(p.inject_index(index)),
                result,
                children: Vec::new(),
            };
            proof {
                assert(pn_seq(r2.children@) =~= Seq::<NodeV>::empty());
            }
            r2
        },
        _ => node.clone(),
    }
}

/// The injected copies of a node's children.
#[verifier::loop_isolation(false)]
fn inject_children(node: &ExecutionPlanNode, index: usize) -> (r: Vec<ExecutionPlanNode>)
    ensures
        pn_seq(r@) == inject_seq(node@.children, index as int),
    decreases node, 0int,
{
    broadcast use lemma_pn_seq;

    let mut out: Vec<ExecutionPlanNode> = Vec::new();
    let ghost cv = pn_seq(node.children@);
    let mut i: usize = 0;
    proof {
        assert(cv.take(0) =~= Seq::<NodeV>::empty());
        assert(inject_seq(cv.take(0), index as int) =~= Seq::<NodeV>::empty());
        assert(pn_seq(out@) =~= inject_seq(cv.take(0), index as int));
    }
    while i < node.children.len()
        invariant
            i <= node.children.len(),
            pn_seq(out@) =~= inject_seq(cv.take(i as int), index as int),
        decreases node.children.len() - i,
    {
        proof {
            assert(decreases_to!(*node => node.children@[i as int]));
        }
        let c = inject_index(&node.children[i], index);
        proof {
            lemma_pn_seq(node.children@);
            assert(c@ == inject_spec(cv[i as int], index as int));
        }
        out = push_node(out, c);
        proof {
            assert(cv.take(i + 1).drop_last() =~= cv.take(i as int));
            assert(cv.take(i + 1).last() == cv[i as int]);
            assert(pn_seq(out@) =~= inject_seq(cv.take(i + 1), index as int));
        }
        i = i + 1;
    }
    proof {
        assert(cv.take(node.children@.len() as int) =~= cv);
    }
    out
}

impl ExecutionPlanInterpreter {
    /// The `match:<rule>` action.
    #[verifier::rlimit(100)]
    fn execute_match<R: ValueResolver>(
        &mut self,
        node: &ExecutionPlanNode,
        name: &str,
        matcher: &str,
        value_resolver: &R,
        fuel: u64,
    ) -> (r: ExecutionPlanNode)
        ensures
            ({
                let (s2, nd) = amatch(
                    value_resolver,
                    stack_view(old(self).value_stack@),
                    node@,
                    name@,
                    matcher@,
                    fuel as nat,
                );
                stack_view(final(self).value_stack@) == s2 && final(self).context == old(
                    self,
                ).context && r@ == nd
            }),
        decreases fuel, 2int, 0int,
    {
        broadcast use lemma_pn_seq;

        match self.validate_args(3, 1, node, name, value_resolver, fuel) {
            Err(m) => node.clone_with_result(NodeResult::ERROR(m)),
            Ok((args, opt)) => {
                let ra = match args[0].value() {
                    Some(v) => v,
                    None => NodeResult::OK,
                };
                let rb = match args[1].value() {
                    Some(v) => v,
                    None => NodeResult::OK,
                };
                let rc = match args[2].value() {
                    Some(v) => v,
                    None => NodeResult::OK,
                };
                proof {
                    lemma_pn_seq(args@);
                    assert(ra@ == recorded(pn_seq(args@)[0]));
                    assert(rb@ == recorded(pn_seq(args@)[1]));
                    assert(rc@ == recorded(pn_seq(args@)[2]));
                }
                match ra.value_or_error() {
                    Err(e) => ExecutionPlanNode {
                        node_type: node.node_type.clone(),
                        result: Some(NodeResult::ERROR(e)),
                        children: concat_nodes(args, opt),
                    },
                    Ok(expected) => match rb.value_or_error() {
                        Err(e) => ExecutionPlanNode {
                            node_type: node.node_type.clone(),
                            result: Some(NodeResult::ERROR(e)),
                            children: concat_nodes(args, opt),
                        },
                        Ok(actual) => match rc.value_or_error() {
                            Err(e) => ExecutionPlanNode {
                                node_type: node.node_type.clone(),
                                result: Some(NodeResult::ERROR(e)),
                                children: concat_nodes(args, opt),
                            },
                            Ok(pv) => {
                                let params = match pv.as_json() {
                                    Some(j) => j,
                                    None => JsonValue::Null,
                                };
                                match crate::rules::MatchingRule::create(matcher, &params) {
                                    Err(e) => node.clone_with_result(NodeResult::ERROR(e)),
                                    Ok(rule) => {
                                        proof {
                                            assert(crate::rules::rule_fits(rule@));
                                        }
                                        match crate::matching::match_node_values(
                                            &expected,
                                            &actual,
                                            &rule,
                                            false,
                                        ) {
                                            Ok(_) => ExecutionPlanNode {
                                                node_type: node.node_type.clone(),
                                                result: Some(
                                                    NodeResult::VALUE(NodeValue::BOOL(true)),
                                                ),
                                                children: concat_nodes(args, opt),
                                            },
                                            Err(err) => {
                                                if opt.len() > 0 {
                                                    self.push_result(
                                                        Some(
                                                            NodeResult::ERROR(err.clone()),
                                                        ),
                                                    );
                                                    match self.opt_message(
                                                        &opt[0],
                                                        value_resolver,
                                                        fuel,
                                                    ) {
                                                        Ok((message, w2)) => {
                                                            let mut w2v: Vec<
                                                                ExecutionPlanNode,
                                                            > = Vec::new();
                                                            let ghost w2g = w2@;
                                                            w2v.push(w2);
                                                            proof {
                                                                assert(pn_seq(w2v@) =~= seq![
                                                                    w2g,
                                                                ]);
                                                            }
                                                            ExecutionPlanNode {
                                                                node_type:
                                                                    node.node_type.clone(),
                                                                result: Some(
                                                                    NodeResult::ERROR(message),
                                                                ),
                                                                children: concat_nodes(
                                                                    args,
                                                                    w2v,
                                                                ),
                                                            }
                                                        },
                                                        Err(_) => ExecutionPlanNode {
                                                            node_type: node.node_type.clone(),
                                                            result: Some(
                                                                NodeResult::ERROR(err),
                                                            ),
                                                            children: concat_nodes(args, opt),
                                                        },
                                                    }
                                                } else {
                                                    ExecutionPlanNode {
                                                        node_type: node.node_type.clone(),
                                                        result: Some(NodeResult::ERROR(err)),
                                                        children: concat_nodes(args, opt),
                                                    }
                                                }
                                            },
                                        }
                                    },
                                }
                            },
                        },
                    },
                }
            },
        }
    }

    /// The `if` action.
    #[verifier::rlimit(100)]
    fn execute_if<R: ValueResolver>(
        &mut self,
        node: &ExecutionPlanNode,
        value_resolver: &R,
        fuel: u64,
    ) -> (r: ExecutionPlanNode)
        ensures
            ({
                let (s2, nd) = aif(
                    value_resolver,
                    stack_view(old(self).value_stack@),
                    node@,
                    fuel as nat,
                );
                stack_view(final(self).value_stack@) == s2 && final(self).context == old(
                    self,
                ).context && r@ == nd
            }),
        decreases fuel, 2int, 0int,
    {
        broadcast use lemma_pn_seq;

        proof {
            lemma_pn_seq(node.children@);
            assert(node@.children == pn_seq(node.children@));
            assert(node@.children.len() == node.children@.len());
        }
        if node.children.len() == 0 {
            return ExecutionPlanNode {
                node_type: node.node_type.clone(),
                result: Some(
                    NodeResult::ERROR(
                        String::from_str("'if' action requires at least one argument"),
                    ),
                ),
                children: clone_nodes(&node.children),
            };
        }
        if fuel == 0 {
            return ExecutionPlanNode {
                node_type: node.node_type.clone(),
                result: Some(
                    NodeResult::ERROR(String::from_str("Plan tree is too deep to execute")),
                ),
                children: clone_nodes(&node.children),
            };
        }
        match self.walk_rec(&node.children[0], value_resolver, fuel - 1) {
            Err(e) => ExecutionPlanNode {
                node_type: node.node_type.clone(),
                result: Some(NodeResult::ERROR(e)),
                children: clone_nodes(&node.children),
            },
            Ok(first) => {
                let cond = match first.value() {
                    Some(v) => v,
                    None => NodeResult::OK,
                };
                let truthy = cond.is_truthy();
                let mut base = clone_nodes(&node.children);
                let ghost fv = first@;
                base.set(0, first);
                proof {
                    lemma_pn_seq(base@);
                    lemma_pn_seq(node.children@);
                    assert(pn_seq(base@) =~= node@.children.update(0, fv));
                }
                if !truthy {
                    if node.children.len() > 2 {
                        if fuel == 0 {
                            let r2 = ExecutionPlanNode {
                                node_type: node.node_type.clone(),
                                result: Some(
                                    NodeResult::ERROR(
                                        String::from_str("Plan tree is too deep to execute"),
                                    ),
                                ),
                                children: base,
                            };
                            return r2;
                        }
                        match self.walk_rec(&node.children[2], value_resolver, fuel - 1) {
                            Ok(else_node) => {
                                let result = match &else_node.result {
                                    Some(v) => Some(v.clone()),
                                    None => None,
                                };
                                let ghost ev = else_node@;
                                base.set(2, else_node);
                                proof {
                                    lemma_pn_seq(base@);
                                    assert(pn_seq(base@) =~= node@.children.update(
                                        0,
                                        fv,
                                    ).update(2, ev));
                                }
                                ExecutionPlanNode {
                                    node_type: node.node_type.clone(),
                                    result,
                                    children: base,
                                }
                            },
                            Err(e) => ExecutionPlanNode {
                                node_type: node.node_type.clone(),
                                result: Some(NodeResult::ERROR(e)),
                                children: base,
                            },
                        }
                    } else {
                        ExecutionPlanNode {
                            node_type: node.node_type.clone(),
                            result: Some(NodeResult::VALUE(NodeValue::BOOL(false))),
                            children: base,
                        }
                    }
                } else if node.children.len() > 1 {
                    let ghost fv2 = pn_seq(base@)[0];
                    if fuel == 0 {
                        let mut cs: Vec<ExecutionPlanNode> = Vec::new();
                        let mut bb = base;
                        let f0 = bb.remove(0);
                        let c1 = node.children[1].clone();
                        let ghost c1v = c1@;
                        cs.push(f0);
                        cs.push(c1);
                        proof {
                            assert(pn_seq(cs@) =~= seq![fv, c1v]);
                        }
                        let tail = self.skip_children(node, 2);
                        let r2 = ExecutionPlanNode {
                            node_type: node.node_type.clone(),
                            result: Some(NodeResult::VALUE(NodeValue::BOOL(false))),
                            children: concat_nodes(cs, tail),
                        };
                        return r2;
                    }
                    match self.walk_rec(&node.children[1], value_resolver, fuel - 1) {
                        Ok(second) => {
                            let sres = match second.value() {
                                Some(v) => v,
                                None => NodeResult::OK,
                            };
                            let st = sres.is_truthy();
                            let mut cs: Vec<ExecutionPlanNode> = Vec::new();
                            let mut bb = base;
                            let f0 = bb.remove(0);
                            let ghost sv = second@;
                            cs.push(f0);
                            cs.push(second);
                            proof {
                                assert(pn_seq(cs@) =~= seq![fv, sv]);
                            }
                            let tail = self.skip_children(node, 2);
                            ExecutionPlanNode {
                                node_type: node.node_type.clone(),
                                result: Some(NodeResult::VALUE(NodeValue::BOOL(st))),
                                children: concat_nodes(cs, tail),
                            }
                        },
                        Err(_) => {
                            let mut cs: Vec<ExecutionPlanNode> = Vec::new();
                            let mut bb = base;
                            let f0 = bb.remove(0);
                            let c1 = node.children[1].clone();
                            let ghost c1v = c1@;
                            cs.push(f0);
                            cs.push(c1);
                            proof {
                                assert(pn_seq(cs@) =~= seq![fv, c1v]);
                            }
                            let tail = self.skip_children(node, 2);
                            ExecutionPlanNode {
                                node_type: node.node_type.clone(),
                                result: Some(NodeResult::VALUE(NodeValue::BOOL(false))),
                                children: concat_nodes(cs, tail),
                            }
                        },
                    }
                } else {
                    let mut cs: Vec<ExecutionPlanNode> = Vec::new();
                    let mut bb = base;
                    let f0 = bb.remove(0);
                    cs.push(f0);
                    proof {
                        assert(pn_seq(cs@) =~= seq![fv]);
                    }
                    let tail = self.skip_children(node, 1);
                    ExecutionPlanNode {
                        node_type: node.node_type.clone(),
                        result: Some(cond),
                        children: concat_nodes(cs, tail),
                    }
                }
            },
        }
    }

    /// Clones the children of a node from an index on.
    #[verifier::loop_isolation(false)]
    fn skip_children(&self, node: &ExecutionPlanNode, from: usize) -> (r: Vec<
        ExecutionPlanNode,
    >)
        requires
            from <= node.children@.len(),
        ensures
            pn_seq(r@) == node@.children.skip(from as int),
    {
        broadcast use lemma_pn_seq;

        let mut out: Vec<ExecutionPlanNode> = Vec::new();
        let mut i: usize = from;
        proof {
            assert(pn_seq(out@) =~= node@.children.skip(from as int).take(0));
        }
        while i < node.children.len()
            invariant
                from <= i <= node.children@.len(),
                pn_seq(out@) =~= node@.children.skip(from as int).take(i - from),
            decreases node.children@.len() - i,
        {
            let c = node.children[i].clone();
            proof {
                lemma_pn_seq(node.children@);
                assert(pn(c) == node@.children[i as int]);
                assert(node@.children.skip(from as int)[i - from] == node@.children[i as int]);
            }
            out = push_node(out, c);
            proof {
                assert(pn_seq(out@) =~= node@.children.skip(from as int).take(i - from + 1));
            }
            i = i + 1;
        }
        proof {
            lemma_pn_seq(node.children@);
            assert(node@.children.len() == node.children@.len());
            assert(node@.children.skip(from as int).take(node.children@.len() - from)
                =~= node@.children.skip(from as int));
        }
        out
    }

    /// The `tee` action.
    fn execute_tee<R: ValueResolver>(
        &mut self,
        node: &ExecutionPlanNode,
        value_resolver: &R,
        fuel: u64,
    ) -> (r: ExecutionPlanNode)
        ensures
            ({
                let (s2, nd) = atee(
                    value_resolver,
                    stack_view(old(self).value_stack@),
                    node@,
                    fuel as nat,
                );
                stack_view(final(self).value_stack@) == s2 && final(self).context == old(
                    self,
                ).context && r@ == nd
            }),
        decreases fuel, 2int, 0int,
    {
        broadcast use lemma_pn_seq;

        proof {
            lemma_pn_seq(node.children@);
            assert(node@.children == pn_seq(node.children@));
            assert(node@.children.len() == node.children@.len());
        }
        if node.children.len() == 0 {
            return node.clone_with_result(NodeResult::OK);
        }
        if fuel == 0 {
            return node.clone_with_result(
                NodeResult::ERROR(String::from_str("Plan tree is too deep to execute")),
            );
        }
        match self.walk_rec(&node.children[0], value_resolver, fuel - 1) {
            Err(e) => node.clone_with_result(NodeResult::ERROR(e)),
            Ok(first) => {
                let fr = match first.value() {
                    Some(v) => v,
                    None => NodeResult::OK,
                };
                if fr.is_err() {
                    let mut cs: Vec<ExecutionPlanNode> = Vec::new();
                    let ghost fv = first@;
                    cs.push(first);
                    proof {
                        assert(pn_seq(cs@) =~= seq![fv]);
                    }
                    let tail = self.skip_children(node, 1);
                    ExecutionPlanNode {
                        node_type: node.node_type.clone(),
                        result: Some(fr),
                        children: concat_nodes(cs, tail),
                    }
                } else {
                    let pushed = match &first.result {
                        Some(v) => Some(v.clone()),
                        None => None,
                    };
                    self.push_result(pushed);
                    let rest = self.skip_children(node, 1);
                    let (rs, folded) = self.tee_rest(rest, value_resolver, NodeResult::OK, fuel);
                    let popped = self.pop_result();
                    let mut cs: Vec<ExecutionPlanNode> = Vec::new();
                    let ghost fv = first@;
                    cs.push(first);
                    proof {
                        assert(pn_seq(cs@) =~= seq![fv]);
                    }
                    ExecutionPlanNode {
                        node_type: node.node_type.clone(),
                        result: Some(folded.truthy()),
                        children: concat_nodes(cs, rs),
                    }
                }
            },
        }
    }

    /// Walks the remaining children of `tee`.
    fn tee_rest<R: ValueResolver>(
        &mut self,
        cs: Vec<ExecutionPlanNode>,
        value_resolver: &R,
        folded: NodeResult,
        fuel: u64,
    ) -> (r: (Vec<ExecutionPlanNode>, NodeResult))
        ensures
            ({
                let (s2, rs, f3) = atee_rest(
                    value_resolver,
                    stack_view(old(self).value_stack@),
                    pn_seq(cs@),
                    folded@,
                    fuel as nat,
                );
                stack_view(final(self).value_stack@) == s2 && final(self).context == old(
                    self,
                ).context && pn_seq(r.0@) == rs && r.1@ == f3
            }),
        decreases fuel, 1int, cs@.len(),
    {
        broadcast use lemma_pn_seq;

        if cs.len() == 0 {
            proof {
                assert(pn_seq(cs@).len() == 0);
            }
            let e: Vec<ExecutionPlanNode> = Vec::new();
            proof {
                assert(pn_seq(e@) =~= Seq::<NodeV>::empty());
            }
            return (e, folded);
        }
        let ghost original = cs@;
        let mut q = cs;
        let first = q.remove(0);
        proof {
            lemma_pn_seq(q@);
            lemma_pn_seq(original);
            assert(q@ =~= original.skip(1));
            assert(first@ == pn(original[0]));
            assert(pn_seq(q@) =~= pn_seq(original).skip(1));
            assert(pn_seq(original)[0] == first@);
        }
        if fuel == 0 {
            let err = NodeResult::ERROR(String::from_str("Plan tree is too deep to execute"));
            let folded2 = folded.and(&Some(err.clone()));
            let (rs, f3) = self.tee_rest(q, value_resolver, folded2, fuel);
            let marked = first.clone_with_result(err);
            let mut out: Vec<ExecutionPlanNode> = Vec::new();
            let ghost mv2 = marked@;
            out.push(marked);
            proof {
                assert(pn_seq(out@) =~= seq![mv2]);
            }
            (concat_nodes(out, rs), f3)
        } else {
            match self.walk_rec(&first, value_resolver, fuel - 1) {
                Ok(v) => {
                    let vres = match &v.result {
                        Some(x) => Some(x.clone()),
                        None => None,
                    };
                    let folded2 = folded.and(&vres);
                    let (rs, f3) = self.tee_rest(q, value_resolver, folded2, fuel);
                    let mut out: Vec<ExecutionPlanNode> = Vec::new();
                    let ghost vv2 = v@;
                    out.push(v);
                    proof {
                        assert(pn_seq(out@) =~= seq![vv2]);
                    }
                    (concat_nodes(out, rs), f3)
                },
                Err(e) => {
                    let err = NodeResult::ERROR(e);
                    let folded2 = folded.and(&Some(err.clone()));
                    let (rs, f3) = self.tee_rest(q, value_resolver, folded2, fuel);
                    let marked = first.clone_with_result(err);
                    let mut out: Vec<ExecutionPlanNode> = Vec::new();
                    let ghost mv2 = marked@;
                    out.push(marked);
                    proof {
                        assert(pn_seq(out@) =~= seq![mv2]);
                    }
                    (concat_nodes(out, rs), f3)
                },
            }
        }
    }

    /// The `for-each` action.
    pub fn execute_for_each<R: ValueResolver>(
        &mut self,
        node: &ExecutionPlanNode,
        value_resolver: &R,
        fuel: u64,
    ) -> (r: ExecutionPlanNode)
        ensures
            ({
                let (s2, nd) = afor_each(
                    value_resolver,
                    stack_view(old(self).value_stack@),
                    node@,
                    fuel as nat,
                );
                stack_view(final(self).value_stack@) == s2 && final(self).context == old(
                    self,
                ).context && r@ == nd
            }),
        decreases fuel, 2int, 0int,
    {
        broadcast use lemma_pn_seq, crate::value::lemma_nv_seq;

        if node.children.len() == 0 {
            return node.clone_with_result(NodeResult::OK);
        }
        if fuel == 0 {
            return node.clone_with_result(
                NodeResult::ERROR(String::from_str("Plan tree is too deep to execute")),
            );
        }
        let walked = self.walk_rec(&node.children[0], value_resolver, fuel - 1);
        let ghost st1 = stack_view(self.value_stack@);
        match walked {
            Err(e) => node.clone_with_result(NodeResult::ERROR(e)),
            Ok(first) => {
                let fr = match first.value() {
                    Some(v) => v,
                    None => NodeResult::OK,
                };
                proof {
                    assert(fr@ == recorded(first@));
                }
                if fr.is_err() {
                    let mut cs: Vec<ExecutionPlanNode> = Vec::new();
                    let ghost fv = first@;
                    cs.push(first);
                    proof {
                        assert(pn_seq(cs@) =~= seq![fv]);
                    }
                    let tail = self.skip_children(node, 1);
                    ExecutionPlanNode {
                        node_type: node.node_type.clone(),
                        result: Some(fr),
                        children: concat_nodes(cs, tail),
                    }
                } else {
                    let val = match &fr {
                        NodeResult::VALUE(v) => v.clone(),
                        _ => NodeValue::NULL,
                    };
                    let items = val.to_list();
                    proof {
                        crate::value::lemma_nv_seq(items@);
                        assert(val@ == value_of(fr@));
                        assert(nv_seq(items@) == to_list_spec(value_of(fr@)));
                        assert(items@.len() == to_list_spec(value_of(fr@)).len());
                    }
                    let templates = self.skip_children(node, 1);
                    let (rs, folded) = self.for_items(
                        &templates,
                        items.len(),
                        0,
                        NodeResult::OK,
                        value_resolver,
                        fuel,
                    );
                    proof {
                        let (s2g, rsg, fg) = afor_items(
                            value_resolver,
                            st1,
                            node@.children.skip(1),
                            to_list_spec(value_of(fr@)).len() as int,
                            0,
                            NodeResV::Okay,
                            fuel as nat,
                        );
                        assert(pn_seq(templates@) == node@.children.skip(1));
                        assert(stack_view(self.value_stack@) == s2g);
                        assert(pn_seq(rs@) == rsg);
                        assert(folded@ == fg);
                    }
                    let mut cs: Vec<ExecutionPlanNode> = Vec::new();
                    let ghost fv = first@;
                    cs.push(first);
                    proof {
                        assert(pn_seq(cs@) =~= seq![fv]);
                        lemma_pn_seq(node.children@);
                        assert(node@.children[0] == pn(node.children@[0]));
                        let (s2g2, ndg) = afor_each(
                            value_resolver,
                            stack_view(old(self).value_stack@),
                            node@,
                            fuel as nat,
                        );
                        assert(s2g2 == stack_view(self.value_stack@));
                        assert(ndg.node_type == node@.node_type);
                        assert(ndg.result == Some(
                            NodeResV::Value(NodeValV::Bool(res_truthy(folded@))),
                        ));
                        assert(ndg.children == seq![fv] + pn_seq(rs@));
                    }
                    ExecutionPlanNode {
                        node_type: node.node_type.clone(),
                        result: Some(folded.truthy()),
                        children: concat_nodes(cs, rs),
                    }
                }
            },
        }
    }

    /// The iterations of `for-each`.
    fn for_items<R: ValueResolver>(
        &mut self,
        templates: &Vec<ExecutionPlanNode>,
        count: usize,
        index: usize,
        folded: NodeResult,
        value_resolver: &R,
        fuel: u64,
    ) -> (r: (Vec<ExecutionPlanNode>, NodeResult))
        requires
            index <= count,
        ensures
            ({
                let (s2, rs, f3) = afor_items(
                    value_resolver,
                    stack_view(old(self).value_stack@),
                    pn_seq(templates@),
                    count as int,
                    index as int,
                    folded@,
                    fuel as nat,
                );
                stack_view(final(self).value_stack@) == s2 && final(self).context == old(
                    self,
                ).context && pn_seq(r.0@) == rs && r.1@ == f3
            }),
        decreases fuel, 1int, count - index,
    {
        broadcast use lemma_pn_seq;

        if index >= count {
            let e: Vec<ExecutionPlanNode> = Vec::new();
            proof {
                assert(pn_seq(e@) =~= Seq::<NodeV>::empty());
            }
            (e, folded)
        } else {
            let (rs1, f1) = self.for_one(
                templates,
                templates.len(),
                0,
                index,
                folded,
                value_resolver,
                fuel,
            );
            let (rs2, f2) = self.for_items(
                templates,
                count,
                index + 1,
                f1,
                value_resolver,
                fuel,
            );
            (concat_nodes(rs1, rs2), f2)
        }
    }

    /// One iteration of `for-each`.
    fn for_one<R: ValueResolver>(
        &mut self,
        templates: &Vec<ExecutionPlanNode>,
        count: usize,
        k: usize,
        index: usize,
        folded: NodeResult,
        value_resolver: &R,
        fuel: u64,
    ) -> (r: (Vec<ExecutionPlanNode>, NodeResult))
        ensures
            ({
                let (s2, rs, f3) = afor_one(
                    value_resolver,
                    stack_view(old(self).value_stack@),
                    pn_seq(templates@),
                    count as int,
                    k as int,
                    index as int,
                    folded@,
                    fuel as nat,
                );
                stack_view(final(self).value_stack@) == s2 && final(self).context == old(
                    self,
                ).context && pn_seq(r.0@) == rs && r.1@ == f3
            }),
        decreases fuel, 0int, count - k,
    {
        broadcast use lemma_pn_seq;

        if k >= count || k >= templates.len() {
            proof {
                assert(pn_seq(templates@).len() == templates@.len());
            }
            let e: Vec<ExecutionPlanNode> = Vec::new();
            proof {
                assert(pn_seq(e@) =~= Seq::<NodeV>::empty());
            }
            (e, folded)
        } else {
            let injected = inject_index(&templates[k], index);
            proof {
                lemma_pn_seq(templates@);
                assert(injected@ == inject_spec(pn_seq(templates@)[k as int], index as int));
            }
            let one: Result<ExecutionPlanNode, String> = if fuel == 0 {
                Err(String::from_str("Plan tree is too deep to execute"))
            } else {
                self.walk_rec(&injected, value_resolver, fuel - 1)
            };
            match one {
                Ok(v) => {
                    let vres = match &v.result {
                        Some(x) => Some(x.clone()),
                        None => None,
                    };
                    let folded2 = folded.and(&vres);
                    let (rs, f3) = self.for_one(
                        templates,
                        count,
                        k + 1,
                        index,
                        folded2,
                        value_resolver,
                        fuel,
                    );
                    let mut out: Vec<ExecutionPlanNode> = Vec::new();
                    let ghost vv2 = v@;
                    out.push(v);
                    proof {
                        assert(pn_seq(out@) =~= seq![vv2]);
                    }
                    (concat_nodes(out, rs), f3)
                },
                Err(e) => {
                    let err = NodeResult::ERROR(e);
                    let folded2 = folded.and(&Some(err.clone()));
                    let (rs, f3) = self.for_one(
                        templates,
                        count,
                        k + 1,
                        index,
                        folded2,
                        value_resolver,
                        fuel,
                    );
                    let marked = injected.clone_with_result(err);
                    let mut out: Vec<ExecutionPlanNode> = Vec::new();
                    let ghost mv2 = marked@;
                    out.push(marked);
                    proof {
                        assert(pn_seq(out@) =~= seq![mv2]);
                    }
                    (concat_nodes(out, rs), f3)
                },
            }
        }
    }
}


/// Text with leading and trailing spaces and tabs removed.
fn trim_chars(v: Vec<char>) -> (r: Vec<char>)
    ensures
        r@ == trim_spaces(v@),
    decreases v@.len(),
{
    if v.len() == 0 {
        v
    } else if v[0] == ' ' || v[0] == '\t' {
        let mut w = v;
        let ghost pre = w@;
        let dropped = w.remove(0);
        proof {
            assert(w@ =~= pre.skip(1));
        }
        trim_chars(w)
    } else if v[v.len() - 1] == ' ' || v[v.len() - 1] == '\t' {
        let mut w = v;
        let ghost pre = w@;
        let dropped = w.pop();
        proof {
            assert(w@ =~= pre.drop_last());
        }
        trim_chars(w)
    } else {
        v
    }
}

/// Splits text on a separator, dropping empty parts, trimming spaces.
#[verifier::loop_isolation(false)]
fn split_rec(s: &str, sep: char, cur: Vec<char>) -> (r: Vec<String>)
    ensures
        crate::value::sl_view(r@) == split_scan(s@, sep, cur@),
    decreases s@.len(),
{
    broadcast use crate::value::lemma_nv_seq;

    let len = s.unicode_len();
    if len == 0 {
        let t = trim_chars(cur);
        if t.len() == 0 {
            let e: Vec<String> = Vec::new();
            proof {
                assert(crate::value::sl_view(e@) =~= flush_part(cur@));
            }
            e
        } else {
            let mut out: Vec<String> = Vec::new();
            let ghost tv = t@;
            out.push(crate::strutil::chars_to_string(&t));
            proof {
                assert(crate::value::sl_view(out@) =~= seq![tv]);
                assert(crate::value::sl_view(out@) =~= flush_part(cur@));
            }
            out
        }
    } else {
        let c = s.get_char(0);
        let rest = s.substring_char(1, len);
        proof {
            assert(rest@ =~= s@.skip(1));
        }
        if c == sep {
            let t = trim_chars(cur);
            let empty_cur: Vec<char> = Vec::new();
            proof {
                assert(empty_cur@ =~= Seq::<char>::empty());
            }
            let tail = split_rec(rest, sep, empty_cur);
            if t.len() == 0 {
                proof {
                    assert(flush_part(cur@).len() == 0);
                    assert(flush_part(cur@) + split_scan(s@.skip(1), sep, Seq::empty())
                        =~= split_scan(s@.skip(1), sep, Seq::empty()));
                }
                tail
            } else {
                let mut out: Vec<String> = Vec::new();
                let ghost tv = t@;
                out.push(crate::strutil::chars_to_string(&t));
                proof {
                    assert(crate::value::sl_view(out@) =~= seq![tv]);
                    assert(crate::value::sl_view(out@) =~= flush_part(cur@));
                }
                concat_strings(out, tail)
            }
        } else {
            let mut cur2 = cur;
            cur2.push(c);
            proof {
                assert(cur2@ =~= cur@.push(s@[0]));
            }
            split_rec(rest, sep, cur2)
        }
    }
}

/// Concatenates two string lists.
#[verifier::loop_isolation(false)]
fn concat_strings(a: Vec<String>, b: Vec<String>) -> (r: Vec<String>)
    ensures
        crate::value::sl_view(r@) == crate::value::sl_view(a@) + crate::value::sl_view(b@),
{
    let ghost av = crate::value::sl_view(a@);
    let ghost bv = crate::value::sl_view(b@);
    let mut out = a;
    let mut i: usize = 0;
    proof {
        assert(crate::value::sl_view(out@) =~= av + bv.take(0));
    }
    while i < b.len()
        invariant
            i <= b.len(),
            crate::value::sl_view(out@) =~= av + bv.take(i as int),
        decreases b.len() - i,
    {
        out = push_string(out, b[i].clone());
        proof {
            assert(crate::value::sl_view(out@) =~= av + bv.take(i + 1));
        }
        i = i + 1;
    }
    proof {
        assert(bv.take(b@.len() as int) =~= bv);
    }
    out
}

/// Splits a `key=value` pair at its first `=`.
fn eq_split_exec(p: &str) -> (r: Option<(Vec<char>, Vec<char>)>)
    ensures
        match r {
            Some((k, v)) => eq_split(p@) == Some((k@, v@)),
            None => eq_split(p@) is None,
        },
    decreases p@.len(),
{
    let len = p.unicode_len();
    if len == 0 {
        None
    } else {
        let c = p.get_char(0);
        if c == '=' {
            let rest = p.substring_char(1, len);
            proof {
                assert(rest@ =~= p@.skip(1));
            }
            let mut v: Vec<char> = Vec::new();
            push_str(&mut v, rest);
            let k: Vec<char> = Vec::new();
            proof {
                assert(k@ =~= Seq::<char>::empty());
                assert(v@ =~= p@.skip(1));
            }
            Some((k, v))
        } else {
            let rest = p.substring_char(1, len);
            proof {
                assert(rest@ =~= p@.skip(1));
            }
            match eq_split_exec(rest) {
                Some((a, b)) => {
                    let mut k: Vec<char> = Vec::new();
                    k.push(c);
                    let ghost av2 = a@;
                    let k2 = concat_chars(k, a);
                    proof {
                        assert(k2@ =~= seq![p@[0]] + av2);
                    }
                    Some((k2, b))
                },
                None => None,
            }
        }
    }
}

/// Concatenates two character buffers.
#[verifier::loop_isolation(false)]
fn concat_chars(a: Vec<char>, b: Vec<char>) -> (r: Vec<char>)
    ensures
        r@ == a@ + b@,
{
    let mut out = a;
    let ghost av = out@;
    let mut i: usize = 0;
    proof {
        assert(out@ =~= av + b@.take(0));
    }
    while i < b.len()
        invariant
            i <= b.len(),
            out@ =~= av + b@.take(i as int),
        decreases b.len() - i,
    {
        out.push(b[i]);
        proof {
            assert(out@ =~= av + b@.take(i + 1));
        }
        i = i + 1;
    }
    proof {
        assert(b@.take(b@.len() as int) =~= b@);
    }
    out
}

impl ExecutionPlanInterpreter {
    /// The `header:parse` action.
    #[verifier::rlimit(100)]
    fn execute_header_parse<R: ValueResolver>(
        &mut self,
        node: &ExecutionPlanNode,
        name: &str,
        value_resolver: &R,
        fuel: u64,
    ) -> (r: ExecutionPlanNode)
        ensures
            ({
                let (s2, nd) = aheader_parse(
                    value_resolver,
                    stack_view(old(self).value_stack@),
                    node@,
                    name@,
                    fuel as nat,
                );
                stack_view(final(self).value_stack@) == s2 && final(self).context == old(
                    self,
                ).context && r@ == nd
            }),
        decreases fuel, 2int, 0int,
    {
        broadcast use lemma_pn_seq, crate::json::lemma_jv_fields;

        match self.validate_one_arg(node, name, value_resolver, fuel) {
            Err(m) => ExecutionPlanNode {
                node_type: node.node_type.clone(),
                result: Some(NodeResult::ERROR(m)),
                children: clone_nodes(&node.children),
            },
            Ok(w) => {
                let sv = match w.value() {
                    Some(NodeResult::VALUE(NodeValue::STRING(t))) => t,
                    _ => String::new(),
                };
                proof {
                    assert(sv@ == string_of(recorded(w@)));
                }
                let empty_cur: Vec<char> = Vec::new();
                proof {
                    assert(empty_cur@ =~= Seq::<char>::empty());
                }
                let parts = split_rec(sv.as_str(), ';', empty_cur);
                let ghost pv = crate::value::sl_view(parts@);
                let value: String = if parts.len() > 0 {
                    parts[0].clone()
                } else {
                    String::new()
                };
                let mut params: Vec<(String, JsonValue)> = Vec::new();
                if parts.len() > 0 {
                    let ghost tailv = pv.skip(1);
                    let mut k: usize = 1;
                    proof {
                        assert(tailv.take(0) =~= Seq::<Seq<char>>::empty());
                        assert(header_params(tailv.take(0)) =~= Seq::<
                            (Seq<char>, JsonV),
                        >::empty());
                        assert(crate::json::jv_fields(params@) =~= header_params(
                            tailv.take(0),
                        ));
                    }
                    while k < parts.len()
                        invariant
                            1 <= k <= parts@.len(),
                            parts@.len() > 0,
                            pv == crate::value::sl_view(parts@),
                            tailv == pv.skip(1),
                            crate::json::jv_fields(params@) =~= header_params(
                                tailv.take(k - 1),
                            ),
                        decreases parts@.len() - k,
                    {
                        match eq_split_exec(parts[k].as_str()) {
                            Some((kc, vc)) => {
                                let kt = trim_chars(kc);
                                let vt = trim_chars(vc);
                                let key = crate::strutil::chars_to_string(&kt);
                                let val = crate::strutil::chars_to_string(&vt);
                                let ghost keyv = key@;
                                let ghost valv = val@;
                                let ghost pre = params@;
                                params.push((key, JsonValue::Str(val)));
                                proof {
                                    assert(params@ =~= pre.push(params@.last()));
                                    crate::json::lemma_jv_fields(params@);
                                    crate::json::lemma_jv_fields(pre);
                                    assert(tailv.take(k as int).drop_last() =~= tailv.take(
                                        k - 1,
                                    ));
                                    assert(tailv.take(k as int).last() == tailv[k - 1]);
                                    assert(tailv[k - 1] == pv[k as int]);
                                    assert(crate::json::jv_fields(params@) =~= header_params(
                                        tailv.take(k as int),
                                    ));
                                }
                            },
                            None => {
                                proof {
                                    assert(tailv.take(k as int).drop_last() =~= tailv.take(
                                        k - 1,
                                    ));
                                    assert(tailv.take(k as int).last() == tailv[k - 1]);
                                    assert(tailv[k - 1] == pv[k as int]);
                                    assert(crate::json::jv_fields(params@) =~= header_params(
                                        tailv.take(k as int),
                                    ));
                                }
                            },
                        }
                        k = k + 1;
                    }
                    proof {
                        assert(tailv.take(parts@.len() - 1) =~= tailv);
                    }
                } else {
                    proof {
                        assert(crate::json::jv_fields(params@) =~= Seq::<
                            (Seq<char>, JsonV),
                        >::empty());
                    }
                }
                let mut fields: Vec<(String, JsonValue)> = Vec::new();
                fields.push((String::from_str("parameters"), JsonValue::Object(params)));
                fields.push((String::from_str("value"), JsonValue::Str(value)));
                let j = JsonValue::Object(fields);
                proof {
                    assert(j@ == NodeValV::Json(header_parse_spec(sv@))->Json_0) by {
                        assert(crate::json::jv_fields(fields@) =~= header_parse_spec(
                            sv@,
                        )->Object_0);
                    }
                }
                let mut cs: Vec<ExecutionPlanNode> = Vec::new();
                let ghost wv = w@;
                cs.push(w);
                proof {
                    assert(pn_seq(cs@) =~= seq![wv]);
                }
                ExecutionPlanNode {
                    node_type: node.node_type.clone(),
                    result: Some(NodeResult::VALUE(NodeValue::JSON(j))),
                    children: cs,
                }
            },
        }
    }

    /// Executes one named action against a node, with a recursion budget.
    #[verifier::rlimit(100)]
    fn run_action<R: ValueResolver>(
        &mut self,
        action: &str,
        value_resolver: &R,
        node: &ExecutionPlanNode,
        fuel: u64,
    ) -> (r: ExecutionPlanNode)
        ensures
            ({
                let (s2, nd) = waction(
                    value_resolver,
                    stack_view(old(self).value_stack@),
                    node@,
                    action@,
                    fuel as nat,
                );
                stack_view(final(self).value_stack@) == s2 && final(self).context == old(
                    self,
                ).context && r@ == nd
            }),
        decreases fuel, 2int, 1int,
    {
        broadcast use lemma_pn_seq;

        let alen = action.unicode_len();
        if alen >= 6 {
            let prefix = action.substring_char(0, 6);
            proof {
                assert(prefix@ =~= action@.take(6));
            }
            if str_eq(prefix, "match:") {
                let matcher = action.substring_char(6, alen);
                proof {
                    assert(matcher@ =~= action@.skip(6));
                }
                return self.execute_match(node, action, matcher, value_resolver, fuel);
            }
        }
        if str_eq(action, "upper-case") {
            self.execute_value_map(node, value_resolver, fuel, 0)
        } else if str_eq(action, "lower-case") {
            self.execute_value_map(node, value_resolver, fuel, 1)
        } else if str_eq(action, "to-string") {
            self.execute_value_map(node, value_resolver, fuel, 2)
        } else if str_eq(action, "length") {
            self.execute_length(node, action, value_resolver, fuel)
        } else if str_eq(action, "expect:empty") {
            self.execute_expect_empty(node, action, value_resolver, fuel)
        } else if str_eq(action, "convert:UTF8") {
            self.execute_one_value(node, action, value_resolver, fuel, 0)
        } else if str_eq(action, "if") {
            self.execute_if(node, value_resolver, fuel)
        } else if str_eq(action, "and") {
            self.execute_and_or(node, value_resolver, fuel, true)
        } else if str_eq(action, "or") {
            self.execute_and_or(node, value_resolver, fuel, false)
        } else if str_eq(action, "tee") {
            self.execute_tee(node, value_resolver, fuel)
        } else if str_eq(action, "apply") {
            self.execute_apply(node)
        } else if str_eq(action, "push") {
            self.execute_push(node)
        } else if str_eq(action, "pop") {
            self.execute_pop(node)
        } else if str_eq(action, "json:parse") {
            self.execute_one_value(node, action, value_resolver, fuel, 1)
        } else if str_eq(action, "xml:parse") {
            self.execute_one_value(node, action, value_resolver, fuel, 2)
        } else if str_eq(action, "xml:tag-name") {
            self.execute_one_value(node, action, value_resolver, fuel, 3)
        } else if str_eq(action, "xml:value") {
            self.execute_one_value(node, action, value_resolver, fuel, 4)
        } else if str_eq(action, "xml:attributes") {
            self.execute_one_value(node, action, value_resolver, fuel, 5)
        } else if str_eq(action, "json:expect:empty") {
            self.execute_json_expect_empty(node, action, value_resolver, fuel)
        } else if str_eq(action, "json:match:length") {
            self.execute_json_match_length(node, action, value_resolver, fuel)
        } else if str_eq(action, "json:expect:entries") {
            self.execute_json_expect_entries(node, action, value_resolver, fuel)
        } else if str_eq(action, "check:exists") {
            self.execute_check_exists(node, action, value_resolver, fuel)
        } else if str_eq(action, "expect:entries") {
            self.execute_check_entries(node, action, value_resolver, fuel, false)
        } else if str_eq(action, "expect:only-entries") {
            self.execute_check_entries(node, action, value_resolver, fuel, true)
        } else if str_eq(action, "expect:count") {
            self.execute_expect_count(node, action, value_resolver, fuel)
        } else if str_eq(action, "join") {
            self.execute_join(node, value_resolver, fuel, false, false)
        } else if str_eq(action, "join-with") {
            self.execute_join(node, value_resolver, fuel, true, false)
        } else if str_eq(action, "error") {
            self.execute_join(node, value_resolver, fuel, false, true)
        } else if str_eq(action, "header:parse") {
            self.execute_header_parse(node, action, value_resolver, fuel)
        } else if str_eq(action, "for-each") {
            self.execute_for_each(node, value_resolver, fuel)
        } else {
            let mut out: Vec<char> = Vec::new();
            push_str(&mut out, "'");
            push_str(&mut out, action);
            push_str(&mut out, "' is not a valid action");
            proof {
                assert(out@ =~= "'"@ + action@ + "' is not a valid action"@);
            }
            ExecutionPlanNode {
                node_type: node.node_type.clone(),
                result: Some(NodeResult::ERROR(crate::strutil::chars_to_string(&out))),
                children: clone_nodes(&node.children),
            }
        }
    }

    /// Executes one named action against a node.
    pub fn execute_action<R: ValueResolver>(
        &mut self,
        action: &str,
        value_resolver: &R,
        node: &ExecutionPlanNode,
        path: &Vec<String>,
    ) -> (r: ExecutionPlanNode)
        ensures
            ({
                let (s2, nd) = waction(
                    value_resolver,
                    stack_view(old(self).value_stack@),
                    node@,
                    action@,
                    u64::MAX as nat,
                );
                stack_view(final(self).value_stack@) == s2 && final(self).context == old(
                    self,
                ).context && r@ == nd
            }),
    {
        self.run_action(action, value_resolver, node, u64::MAX)
    }
}

} // verus!
