//! The interpreter's runtime value and result types: a tagged union of the
//! plain values a plan can manipulate, and the tri-state outcome every
//! executed node carries. The `and`/`or`/`truthy` algebra and the canonical
//! text forms live here.

use vstd::prelude::*;

verus! {

use crate::foreign::{base64_of, escaped_of};
use crate::json::{JsonValue, JsonV, json_text, push_json_text};
use crate::strutil::{dec_seq, push_dec, push_str};
use crate::xml::{XmlValue, XmlValV};

/// A runtime value in the plan interpreter.
#[derive(Debug, PartialEq)]
pub enum NodeValue {
    NULL,
    STRING(String),
    BOOL(bool),
    /// A multi-valued string map (query parameters, headers, attributes)
    MMAP(Vec<(String, Vec<String>)>),
    /// A list of strings
    SLIST(Vec<String>),
    /// A byte array
    BARRAY(Vec<u8>),
    /// A lazily-parsed literal with a namespace tag (`json`, `xml`)
    NAMESPACED(String, String),
    /// An unsigned integer
    UINT(u64),
    /// A parsed JSON document
    JSON(JsonValue),
    /// A key/value entry
    ENTRY(String, Box<NodeValue>),
    /// A heterogeneous list
    LIST(Vec<NodeValue>),
    /// A resolved XML value
    XML(XmlValue),
}

/// Specification-level form of a runtime value.
#[verifier::ext_equal]
pub enum NodeValV {
    Null,
    Str(Seq<char>),
    Bool(bool),
    MMap(Seq<(Seq<char>, Seq<Seq<char>>)>),
    SList(Seq<Seq<char>>),
    BArray(Seq<u8>),
    Namespaced(Seq<char>, Seq<char>),
    UInt(int),
    Json(JsonV),
    Entry(Seq<char>, Box<NodeValV>),
    List(Seq<NodeValV>),
    Xml(XmlValV),
}

/// The view of a string list.
pub open spec fn sl_view(s: Seq<String>) -> Seq<Seq<char>> {
    s.map(|i: int, t: String| t@)
}

/// The view of a multi-valued string map.
pub open spec fn mm_view(s: Seq<(String, Vec<String>)>) -> Seq<(Seq<char>, Seq<Seq<char>>)> {
    s.map(|i: int, e: (String, Vec<String>)| (e.0@, sl_view(e.1@)))
}

/// The view of a runtime value.
pub open spec fn nv(v: NodeValue) -> NodeValV
    decreases v,
{
    match v {
        NodeValue::NULL => NodeValV::Null,
        NodeValue::STRING(s) => NodeValV::Str(s@),
        NodeValue::BOOL(b) => NodeValV::Bool(b),
        NodeValue::MMAP(m) => NodeValV::MMap(mm_view(m@)),
        NodeValue::SLIST(l) => NodeValV::SList(sl_view(l@)),
        NodeValue::BARRAY(b) => NodeValV::BArray(b@),
        NodeValue::NAMESPACED(ns, val) => NodeValV::Namespaced(ns@, val@),
        NodeValue::UINT(u) => NodeValV::UInt(u as int),
        NodeValue::JSON(j) => NodeValV::Json(crate::json::jv(j)),
        NodeValue::ENTRY(k, v2) => NodeValV::Entry(k@, Box::new(nv(*v2))),
        NodeValue::LIST(items) => NodeValV::List(nv_seq(items@)),
        NodeValue::XML(x) => NodeValV::Xml(x@),
    }
}

/// The views of a value list.
pub open spec fn nv_seq(s: Seq<NodeValue>) -> Seq<NodeValV>
    decreases s,
{
    if s.len() == 0 {
        Seq::empty()
    } else {
        nv_seq(s.drop_last()).push(nv(s.last()))
    }
}

pub broadcast proof fn lemma_nv_seq(s: Seq<NodeValue>)
    ensures
        (#[trigger] nv_seq(s)).len() == s.len(),
        forall|i: int| 0 <= i < s.len() ==> nv_seq(s)[i] == nv(s[i]),
    decreases s.len(),
{
    if s.len() > 0 {
        lemma_nv_seq(s.drop_last());
    }
}

impl View for NodeValue {
    type V = NodeValV;

    open spec fn view(&self) -> NodeValV {
        nv(*self)
    }
}

impl Default for NodeValue {
    /// The default runtime value is `NULL`.
    fn default() -> (r: Self)
        ensures
            r@ == NodeValV::Null,
    {
        NodeValue::NULL
    }
}

/// Clones a string list.
pub fn clone_slist(l: &Vec<String>) -> (r: Vec<String>)
    ensures
        sl_view(r@) == sl_view(l@),
{
    let mut out: Vec<String> = Vec::new();
    let mut i: usize = 0;
    while i < l.len()
        invariant
            i <= l.len(),
            out@.len() == i,
            forall|j: int| 0 <= j < i ==> out@[j]@ == l@[j]@,
        decreases l.len() - i,
    {
        out.push(l[i].clone());
        i = i + 1;
    }
    proof {
        assert(sl_view(out@) =~= sl_view(l@));
    }
    out
}

impl Clone for NodeValue {
    #[verifier::loop_isolation(false)]
    fn clone(&self) -> (res: Self)
        ensures
            res@ == self@,
        decreases self,
    {
        broadcast use lemma_nv_seq;

        match self {
            NodeValue::NULL => NodeValue::NULL,
            NodeValue::STRING(s) => NodeValue::STRING(s.clone()),
            NodeValue::BOOL(b) => NodeValue::BOOL(*b),
            NodeValue::MMAP(m) => {
                let mut out: Vec<(String, Vec<String>)> = Vec::new();
                let mut i: usize = 0;
                while i < m.len()
                    invariant
                        i <= m.len(),
                        out@.len() == i,
                        forall|j: int|
                            0 <= j < i ==> out@[j].0@ == m@[j].0@ && sl_view(out@[j].1@)
                                == sl_view(m@[j].1@),
                    decreases m.len() - i,
                {
                    let k = m[i].0.clone();
                    let vs = clone_slist(&m[i].1);
                    out.push((k, vs));
                    i = i + 1;
                }
                let r = NodeValue::MMAP(out);
                proof {
                    assert(mm_view(out@) =~= mm_view(m@));
                }
                r
            },
            NodeValue::SLIST(l) => NodeValue::SLIST(clone_slist(l)),
            NodeValue::BARRAY(b) => {
                let mut out: Vec<u8> = Vec::new();
                let mut i: usize = 0;
                while i < b.len()
                    invariant
                        i <= b.len(),
                        out@ == b@.take(i as int),
                    decreases b.len() - i,
                {
                    out.push(b[i]);
                    proof {
                        assert(out@ =~= b@.take(i + 1));
                    }
                    i = i + 1;
                }
                proof {
                    assert(b@.take(b@.len() as int) =~= b@);
                }
                NodeValue::BARRAY(out)
            },
            NodeValue::NAMESPACED(ns, val) => NodeValue::NAMESPACED(ns.clone(), val.clone()),
            NodeValue::UINT(u) => NodeValue::UINT(*u),
            NodeValue::JSON(j) => NodeValue::JSON(j.clone()),
            NodeValue::ENTRY(k, v2) => {
                proof {
                    assert(decreases_to!(*self => **v2));
                }
                NodeValue::ENTRY(k.clone(), Box::new((**v2).clone()))
            },
            NodeValue::LIST(items) => {
                let mut out: Vec<NodeValue> = Vec::new();
                let mut i: usize = 0;
                while i < items.len()
                    invariant
                        i <= items.len(),
                        out@.len() == i,
                        forall|j: int| 0 <= j < i ==> nv(out@[j]) == nv(items@[j]),
                    decreases items.len() - i,
                {
                    proof {
                        assert(decreases_to!(*self => items@[i as int]));
                    }
                    let c = items[i].clone();
                    out.push(c);
                    i = i + 1;
                }
                let r = NodeValue::LIST(out);
                proof {
                    assert(nv_seq(out@) =~= nv_seq(items@));
                }
                r
            },
            NodeValue::XML(x) => NodeValue::XML(x.clone()),
        }
    }
}

/// Whether a value counts as true in boolean positions.
pub open spec fn truthy_spec(v: NodeValV) -> bool {
    match v {
        NodeValV::Null => false,
        NodeValV::Str(s) => s.len() > 0,
        NodeValV::Bool(b) => b,
        NodeValV::MMap(m) => m.len() > 0,
        NodeValV::SList(l) => l.len() > 0,
        NodeValV::BArray(b) => b.len() > 0,
        NodeValV::Namespaced(_, _) => false,
        NodeValV::UInt(u) => u > 0,
        NodeValV::Json(j) => match j {
            JsonV::Null => false,
            JsonV::Bool(b) => b,
            _ => true,
        },
        NodeValV::Entry(_, _) => true,
        NodeValV::List(l) => l.len() > 0,
        NodeValV::Xml(_) => true,
    }
}

/// The conjunction of two values: an absent (`NULL`) side yields the other,
/// otherwise both must be truthy.
pub open spec fn and_spec(a: NodeValV, b: NodeValV) -> NodeValV {
    match (a, b) {
        (NodeValV::Null, other) => other,
        (me, NodeValV::Null) => me,
        (me, other) => NodeValV::Bool(truthy_spec(me) && truthy_spec(other)),
    }
}

/// The disjunction of two values: an absent (`NULL`) side yields the other,
/// otherwise one side must be truthy.
pub open spec fn or_spec(a: NodeValV, b: NodeValV) -> NodeValV {
    match (a, b) {
        (NodeValV::Null, other) => other,
        (me, NodeValV::Null) => me,
        (me, other) => NodeValV::Bool(truthy_spec(me) || truthy_spec(other)),
    }
}

impl NodeValue {
    /// Whether this value counts as true in boolean positions.
    pub fn truthy(&self) -> (r: bool)
        ensures
            r == truthy_spec(self@),
    {
        match self {
            NodeValue::NULL => false,
            NodeValue::STRING(s) => s.as_str().unicode_len() > 0,
            NodeValue::BOOL(b) => *b,
            NodeValue::MMAP(m) => m.len() > 0,
            NodeValue::SLIST(l) => l.len() > 0,
            NodeValue::BARRAY(b) => b.len() > 0,
            NodeValue::NAMESPACED(_, _) => false,
            NodeValue::UINT(u) => *u > 0,
            NodeValue::JSON(j) => match j {
                JsonValue::Null => false,
                JsonValue::Bool(b) => *b,
                _ => true,
            },
            NodeValue::ENTRY(_, _) => true,
            NodeValue::LIST(l) => {
                proof {
                    lemma_nv_seq(l@);
                }
                l.len() > 0
            },
            NodeValue::XML(_) => true,
        }
    }

    /// Combines two values conjunctively.
    pub fn and(&self, other: &NodeValue) -> (r: NodeValue)
        ensures
            r@ == and_spec(self@, other@),
    {
        match (self, other) {
            (NodeValue::NULL, _) => other.clone(),
            (_, NodeValue::NULL) => self.clone(),
            (_, _) => NodeValue::BOOL(self.truthy() && other.truthy()),
        }
    }

    /// Combines two values disjunctively.
    pub fn or(&self, other: &NodeValue) -> (r: NodeValue)
        ensures
            r@ == or_spec(self@, other@),
    {
        match (self, other) {
            (NodeValue::NULL, _) => other.clone(),
            (_, NodeValue::NULL) => self.clone(),
            (_, _) => NodeValue::BOOL(self.truthy() || other.truthy()),
        }
    }
}

/// The quoted rendering of a string: unchanged text is wrapped in single
/// quotes, text the escaper had to quote keeps the escaper's form.
pub open spec fn quoted(s: Seq<char>) -> Seq<char> {
    if escaped_of(s) == s {
        "'"@ + s + "'"@
    } else {
        escaped_of(s)
    }
}

/// Appends the quoted rendering of `s`.
pub fn push_quoted(out: &mut Vec<char>, s: &str)
    ensures
        final(out)@ == old(out)@ + quoted(s@),
{
    let e = crate::foreign::escape_text(s);
    if crate::strutil::str_eq(e.as_str(), s) {
        push_str(out, "'");
        push_str(out, s);
        push_str(out, "'");
        assert(out@ =~= old(out)@ + quoted(s@));
    } else {
        push_str(out, e.as_str());
    }
}

/// The canonical text of a string list: quoted items, comma separated, in
/// square brackets.
pub open spec fn slist_text(l: Seq<Seq<char>>) -> Seq<char>
    decreases l,
{
    if l.len() == 0 {
        Seq::empty()
    } else if l.len() == 1 {
        quoted(l.last())
    } else {
        slist_text(l.drop_last()) + ", "@ + quoted(l.last())
    }
}

/// The canonical text of one map entry.
pub open spec fn mmap_entry_text(e: (Seq<char>, Seq<Seq<char>>)) -> Seq<char> {
    quoted(e.0) + ": "@ + (if e.1.len() == 1 {
        quoted(e.1[0])
    } else {
        "["@ + slist_text(e.1) + "]"@
    })
}

/// The canonical text of a map body.
pub open spec fn mmap_text(m: Seq<(Seq<char>, Seq<Seq<char>>)>) -> Seq<char>
    decreases m,
{
    if m.len() == 0 {
        Seq::empty()
    } else if m.len() == 1 {
        mmap_entry_text(m.last())
    } else {
        mmap_text(m.drop_last()) + ", "@ + mmap_entry_text(m.last())
    }
}

/// The canonical text form of a runtime value, as plans and diagnostics
/// print it.
pub open spec fn value_text(v: NodeValV) -> Seq<char>
    decreases v,
{
    match v {
        NodeValV::Null => "NULL"@,
        NodeValV::Str(s) => quoted(s),
        NodeValV::Bool(b) => if b { "BOOL(true)"@ } else { "BOOL(false)"@ },
        NodeValV::MMap(m) => "{"@ + mmap_text(m) + "}"@,
        NodeValV::SList(l) => "["@ + slist_text(l) + "]"@,
        NodeValV::BArray(b) => "BYTES("@ + dec_seq(b.len()) + ", "@ + base64_of(b) + ")"@,
        NodeValV::Namespaced(ns, val) => ns + ":"@ + val,
        NodeValV::UInt(u) => "UINT("@ + dec_seq(u as nat) + ")"@,
        NodeValV::Json(j) => "json:"@ + json_text(j),
        NodeValV::Entry(k, boxed) => "entry("@ + quoted(k) + ", "@ + value_text(*boxed) + ")"@,
        NodeValV::List(items) => "["@ + list_text(items) + "]"@,
        NodeValV::Xml(x) => match x {
            XmlValV::Element(e) => "xml:"@ + escaped_of(e.rendered),
            XmlValV::Text(t) => "xml:text:"@ + escaped_of(t),
            XmlValV::Attribute(n, val) => "xml:attribute:"@ + n + "="@ + escaped_of(val),
        },
    }
}

/// The canonical text of a heterogeneous list body.
pub open spec fn list_text(items: Seq<NodeValV>) -> Seq<char>
    decreases items,
{
    if items.len() == 0 {
        Seq::empty()
    } else if items.len() == 1 {
        value_text(items.last())
    } else {
        list_text(items.drop_last()) + ", "@ + value_text(items.last())
    }
}

/// Appends the canonical text of a string list body.
#[verifier::loop_isolation(false)]
pub fn push_slist_text(out: &mut Vec<char>, l: &Vec<String>)
    ensures
        final(out)@ == old(out)@ + slist_text(sl_view(l@)),
{
    let ghost lv = sl_view(l@);
    let mut i: usize = 0;
    proof {
        assert(slist_text(lv.take(0)) =~= Seq::<char>::empty());
        assert(out@ =~= old(out)@ + slist_text(lv.take(0)));
    }
    while i < l.len()
        invariant
            i <= l.len(),
            out@ == old(out)@ + slist_text(lv.take(i as int)),
        decreases l.len() - i,
    {
        if i > 0 {
            push_str(out, ", ");
        }
        push_quoted(out, l[i].as_str());
        proof {
            assert(lv.take(i + 1).drop_last() =~= lv.take(i as int));
            assert(lv.take(i + 1).last() == lv[i as int]);
            assert(out@ =~= old(out)@ + slist_text(lv.take(i + 1)));
        }
        i = i + 1;
    }
    proof {
        assert(lv.take(l@.len() as int) =~= lv);
    }
}

/// Appends the canonical text of a multi-valued map.
#[verifier::loop_isolation(false)]
pub fn push_mmap_text(out: &mut Vec<char>, m: &Vec<(String, Vec<String>)>)
    ensures
        final(out)@ == old(out)@ + "{"@ + mmap_text(mm_view(m@)) + "}"@,
{
    push_str(out, "{");
    let ghost mv = mm_view(m@);
    let mut i: usize = 0;
    proof {
        assert(mmap_text(mv.take(0)) =~= Seq::<char>::empty());
        assert(out@ =~= old(out)@ + "{"@ + mmap_text(mv.take(0)));
    }
    while i < m.len()
        invariant
            i <= m.len(),
            out@ == old(out)@ + "{"@ + mmap_text(mv.take(i as int)),
        decreases m.len() - i,
    {
        if i > 0 {
            push_str(out, ", ");
        }
        push_quoted(out, m[i].0.as_str());
        push_str(out, ": ");
        if m[i].1.len() == 1 {
            push_quoted(out, m[i].1[0].as_str());
        } else {
            push_str(out, "[");
            push_slist_text(out, &m[i].1);
            push_str(out, "]");
        }
        proof {
            assert(mv.take(i + 1).drop_last() =~= mv.take(i as int));
            assert(mv.take(i + 1).last() == mv[i as int]);
            assert(mv[i as int].1 =~= sl_view(m@[i as int].1@));
            assert(out@ =~= old(out)@ + "{"@ + mmap_text(mv.take(i + 1)));
        }
        i = i + 1;
    }
    push_str(out, "}");
    proof {
        assert(mv.take(m@.len() as int) =~= mv);
        assert(out@ =~= old(out)@ + "{"@ + mmap_text(mv) + "}"@);
    }
}

/// Appends the canonical text form of `v`.
#[verifier::loop_isolation(false)]
#[verifier::rlimit(100)]
pub fn push_value_text(out: &mut Vec<char>, v: &NodeValue)
    ensures
        final(out)@ == old(out)@ + value_text(v@),
    decreases v,
{
    broadcast use lemma_nv_seq;

    match v {
        NodeValue::NULL => push_str(out, "NULL"),
        NodeValue::STRING(s) => push_quoted(out, s.as_str()),
        NodeValue::BOOL(b) => {
            if *b {
                push_str(out, "BOOL(true)");
            } else {
                push_str(out, "BOOL(false)");
            }
        },
        NodeValue::MMAP(m) => {
            push_mmap_text(out, m);
            assert(out@ =~= old(out)@ + value_text(v@));
        },
        NodeValue::SLIST(l) => {
            push_str(out, "[");
            push_slist_text(out, l);
            push_str(out, "]");
            assert(out@ =~= old(out)@ + value_text(v@));
        },
        NodeValue::BARRAY(b) => {
            push_str(out, "BYTES(");
            push_dec(out, b.len() as u64);
            push_str(out, ", ");
            let enc = crate::foreign::base64_encode(b.as_slice());
            push_str(out, enc.as_str());
            push_str(out, ")");
            assert(out@ =~= old(out)@ + value_text(v@));
        },
        NodeValue::NAMESPACED(ns, val) => {
            push_str(out, ns.as_str());
            push_str(out, ":");
            push_str(out, val.as_str());
            assert(out@ =~= old(out)@ + value_text(v@));
        },
        NodeValue::UINT(u) => {
            push_str(out, "UINT(");
            push_dec(out, *u);
            push_str(out, ")");
            assert(out@ =~= old(out)@ + value_text(v@));
        },
        NodeValue::JSON(j) => {
            push_str(out, "json:");
            push_json_text(out, j);
            assert(out@ =~= old(out)@ + value_text(v@));
        },
        NodeValue::ENTRY(k, boxed) => {
            push_str(out, "entry(");
            push_quoted(out, k.as_str());
            push_str(out, ", ");
            proof {
                assert(decreases_to!(*v => **boxed));
            }
            push_value_text(out, boxed);
            push_str(out, ")");
            assert(out@ =~= old(out)@ + value_text(v@));
        },
        NodeValue::LIST(items) => {
            push_str(out, "[");
            let ghost iv = nv_seq(items@);
            let mut i: usize = 0;
            proof {
                assert(list_text(iv.take(0)) =~= Seq::<char>::empty());
                assert(out@ =~= old(out)@ + "["@ + list_text(iv.take(0)));
            }
            while i < items.len()
                invariant
                    i <= items.len(),
                    out@ == old(out)@ + "["@ + list_text(iv.take(i as int)),
                decreases items.len() - i,
            {
                if i > 0 {
                    push_str(out, ", ");
                }
                proof {
                    assert(decreases_to!(*v => items@[i as int]));
                }
                push_value_text(out, &items[i]);
                proof {
                    assert(iv.take(i + 1).drop_last() =~= iv.take(i as int));
                    assert(iv.take(i + 1).last() == iv[i as int]);
                    assert(out@ =~= old(out)@ + "["@ + list_text(iv.take(i + 1)));
                }
                i = i + 1;
            }
            push_str(out, "]");
            proof {
                assert(iv.take(items@.len() as int) =~= iv);
                assert(out@ =~= old(out)@ + value_text(v@));
            }
        },
        NodeValue::XML(x) => {
            match x {
                XmlValue::Element(e) => {
                    push_str(out, "xml:");
                    let esc = crate::foreign::escape_text(e.rendered.as_str());
                    push_str(out, esc.as_str());
                },
                XmlValue::Text(t) => {
                    push_str(out, "xml:text:");
                    let esc = crate::foreign::escape_text(t.as_str());
                    push_str(out, esc.as_str());
                },
                XmlValue::Attribute(n, val) => {
                    push_str(out, "xml:attribute:");
                    push_str(out, n.as_str());
                    push_str(out, "=");
                    let esc = crate::foreign::escape_text(val.as_str());
                    push_str(out, esc.as_str());
                },
            }
            assert(out@ =~= old(out)@ + value_text(v@));
        },
    }
}

/// The canonical text form of `v` as a `String`.
pub fn value_str_form(v: &NodeValue) -> (r: String)
    ensures
        r@ == value_text(v@),
{
    let mut out: Vec<char> = Vec::new();
    push_value_text(&mut out, v);
    crate::strutil::chars_to_string(&out)
}

/// The outcome an executed plan node carries.
#[derive(Debug, PartialEq)]
pub enum NodeResult {
    /// The node ran and asserted nothing
    OK,
    /// The node produced a value
    VALUE(NodeValue),
    /// The node failed with a message
    ERROR(String),
}

/// Specification-level form of a node outcome.
#[verifier::ext_equal]
pub enum NodeResV {
    Okay,
    Value(NodeValV),
    Error(Seq<char>),
}

/// The view of a node outcome.
pub open spec fn nr(r: NodeResult) -> NodeResV {
    match r {
        NodeResult::OK => NodeResV::Okay,
        NodeResult::VALUE(v) => NodeResV::Value(nv(v)),
        NodeResult::ERROR(m) => NodeResV::Error(m@),
    }
}

impl View for NodeResult {
    type V = NodeResV;

    open spec fn view(&self) -> NodeResV {
        nr(*self)
    }
}

impl Clone for NodeResult {
    fn clone(&self) -> (res: Self)
        ensures
            res@ == self@,
    {
        match self {
            NodeResult::OK => NodeResult::OK,
            NodeResult::VALUE(v) => NodeResult::VALUE(v.clone()),
            NodeResult::ERROR(m) => NodeResult::ERROR(m.clone()),
        }
    }
}

impl Default for NodeResult {
    /// The default outcome is `OK`.
    fn default() -> (r: Self)
        ensures
            r@ == NodeResV::Okay,
    {
        NodeResult::OK
    }
}

/// Whether an outcome counts as true: `OK` does, an error does not, a value
/// counts by its own truthiness.
pub open spec fn res_truthy(r: NodeResV) -> bool {
    match r {
        NodeResV::Okay => true,
        NodeResV::Value(v) => truthy_spec(v),
        NodeResV::Error(_) => false,
    }
}

/// Folding two outcomes conjunctively: errors dominate, then values.
pub open spec fn res_and(a: NodeResV, b: Option<NodeResV>) -> NodeResV {
    match b {
        None => a,
        Some(other) => match (a, other) {
            (NodeResV::Error(e), _) => NodeResV::Error(e),
            (_, NodeResV::Error(e)) => NodeResV::Error(e),
            (NodeResV::Okay, NodeResV::Okay) => NodeResV::Okay,
            (NodeResV::Okay, NodeResV::Value(v)) => NodeResV::Value(v),
            (NodeResV::Value(v), NodeResV::Okay) => NodeResV::Value(v),
            (NodeResV::Value(v1), NodeResV::Value(v2)) => NodeResV::Value(and_spec(v1, v2)),
        },
    }
}

/// The text form of an outcome.
pub open spec fn res_text(r: NodeResV) -> Seq<char> {
    match r {
        NodeResV::Okay => "OK"@,
        NodeResV::Value(v) => value_text(v),
        NodeResV::Error(m) => "ERROR("@ + m + ")"@,
    }
}

impl NodeResult {
    /// Folds this outcome with an optional second one, conjunctively.
    pub fn and(&self, option: &Option<NodeResult>) -> (r: NodeResult)
        ensures
            r@ == res_and(self@, match option {
                Some(o) => Some(o@),
                None => None,
            }),
    {
        match option {
            None => self.clone(),
            Some(other) => match (self, other) {
                (NodeResult::ERROR(e), _) => NodeResult::ERROR(e.clone()),
                (_, NodeResult::ERROR(e)) => NodeResult::ERROR(e.clone()),
                (NodeResult::OK, NodeResult::OK) => NodeResult::OK,
                (NodeResult::OK, NodeResult::VALUE(v)) => NodeResult::VALUE(v.clone()),
                (NodeResult::VALUE(v), NodeResult::OK) => NodeResult::VALUE(v.clone()),
                (NodeResult::VALUE(v1), NodeResult::VALUE(v2)) => NodeResult::VALUE(v1.and(v2)),
            },
        }
    }

    /// Whether this outcome counts as true.
    pub fn is_truthy(&self) -> (r: bool)
        ensures
            r == res_truthy(self@),
    {
        match self {
            NodeResult::OK => true,
            NodeResult::VALUE(v) => v.truthy(),
            NodeResult::ERROR(_) => false,
        }
    }

    /// This outcome reduced to a boolean value.
    pub fn truthy(&self) -> (r: NodeResult)
        ensures
            r@ == NodeResV::Value(NodeValV::Bool(res_truthy(self@))),
    {
        NodeResult::VALUE(NodeValue::BOOL(self.is_truthy()))
    }

    /// Whether this outcome is an error.
    pub fn is_err(&self) -> (r: bool)
        ensures
            r == (self@ is Error),
    {
        matches!(self, NodeResult::ERROR(_))
    }

    /// The value carried, if any.
    pub fn as_value(&self) -> (r: Option<NodeValue>)
        ensures
            match r {
                Some(v) => self@ == NodeResV::Value(v@),
                None => !(self@ is Value),
            },
    {
        match self {
            NodeResult::VALUE(v) => Some(v.clone()),
            _ => None,
        }
    }

    /// The value carried, or the error carried, as a `Result`.
    pub fn value_or_error(&self) -> (r: Result<NodeValue, String>)
        ensures
            match r {
                Ok(v) => self@ == NodeResV::Value(v@),
                Err(m) => (self@ is Error && self@ == NodeResV::Error(m@)) || (self@ is Okay
                    && m@ == "The node does not have a value"@),
            },
    {
        match self {
            NodeResult::VALUE(v) => Ok(v.clone()),
            NodeResult::ERROR(m) => Err(m.clone()),
            NodeResult::OK => Err(String::from_str("The node does not have a value")),
        }
    }

    /// The string carried, if this outcome is a string value.
    pub fn as_string(&self) -> (r: Option<String>)
        ensures
            match r {
                Some(s) => self@ == NodeResV::Value(NodeValV::Str(s@)),
                None => !(self@ matches NodeResV::Value(NodeValV::Str(_))),
            },
    {
        match self {
            NodeResult::VALUE(NodeValue::STRING(s)) => Some(s.clone()),
            _ => None,
        }
    }

    /// The text form of this outcome.
    pub fn str_form(&self) -> (r: String)
        ensures
            r@ == res_text(self@),
    {
        match self {
            NodeResult::OK => String::from_str("OK"),
            NodeResult::VALUE(v) => value_str_form(v),
            NodeResult::ERROR(m) => {
                let mut out: Vec<char> = Vec::new();
                push_str(&mut out, "ERROR(");
                push_str(&mut out, m.as_str());
                push_str(&mut out, ")");
                crate::strutil::chars_to_string(&out)
            },
        }
    }
}

impl NodeValue {
    /// The string carried, if this is a string.
    pub fn as_string(&self) -> (r: Option<String>)
        ensures
            match r {
                Some(s) => self@ == NodeValV::Str(s@),
                None => !(self@ is Str),
            },
    {
        match self {
            NodeValue::STRING(s) => Some(s.clone()),
            _ => None,
        }
    }

    /// The string list carried, if this is one.
    pub fn as_slist(&self) -> (r: Option<Vec<String>>)
        ensures
            match r {
                Some(l) => self@ == NodeValV::SList(sl_view(l@)),
                None => !(self@ is SList),
            },
    {
        match self {
            NodeValue::SLIST(l) => Some(clone_slist(l)),
            _ => None,
        }
    }

    /// The unsigned integer carried, if this is one.
    pub fn as_uint(&self) -> (r: Option<u64>)
        ensures
            match r {
                Some(u) => self@ == NodeValV::UInt(u as int),
                None => !(self@ is UInt),
            },
    {
        match self {
            NodeValue::UINT(u) => Some(*u),
            _ => None,
        }
    }

    /// The number carried, if this is numeric.
    pub fn as_number(&self) -> (r: Option<u64>)
        ensures
            match r {
                Some(u) => self@ == NodeValV::UInt(u as int),
                None => !(self@ is UInt),
            },
    {
        match self {
            NodeValue::UINT(u) => Some(*u),
            _ => None,
        }
    }

    /// The JSON document carried, if this is one.
    pub fn as_json(&self) -> (r: Option<JsonValue>)
        ensures
            match r {
                Some(j) => self@ == NodeValV::Json(j@),
                None => !(self@ is Json),
            },
    {
        match self {
            NodeValue::JSON(j) => Some(j.clone()),
            _ => None,
        }
    }

    /// The name of this value's kind, for diagnostics.
    pub fn value_type(&self) -> (r: &'static str)
        ensures
            r@ == value_type_name(self@),
    {
        match self {
            NodeValue::NULL => "NULL",
            NodeValue::STRING(_) => "STRING",
            NodeValue::BOOL(_) => "BOOL",
            NodeValue::MMAP(_) => "MMAP",
            NodeValue::SLIST(_) => "SLIST",
            NodeValue::BARRAY(_) => "BARRAY",
            NodeValue::NAMESPACED(_, _) => "NAMESPACED",
            NodeValue::UINT(_) => "UINT",
            NodeValue::JSON(_) => "JSON",
            NodeValue::ENTRY(_, _) => "ENTRY",
            NodeValue::LIST(_) => "LIST",
            NodeValue::XML(_) => "XML",
        }
    }
}

/// The name of a value's kind.
pub open spec fn value_type_name(v: NodeValV) -> Seq<char> {
    match v {
        NodeValV::Null => "NULL"@,
        NodeValV::Str(_) => "STRING"@,
        NodeValV::Bool(_) => "BOOL"@,
        NodeValV::MMap(_) => "MMAP"@,
        NodeValV::SList(_) => "SLIST"@,
        NodeValV::BArray(_) => "BARRAY"@,
        NodeValV::Namespaced(_, _) => "NAMESPACED"@,
        NodeValV::UInt(_) => "UINT"@,
        NodeValV::Json(_) => "JSON"@,
        NodeValV::Entry(_, _) => "ENTRY"@,
        NodeValV::List(_) => "LIST"@,
        NodeValV::Xml(_) => "XML"@,
    }
}

/// What a value iterates to in `for-each`: maps iterate their entries, lists
/// their items, JSON arrays and objects their members; an absent value
/// iterates to nothing and any other single value to itself.
pub open spec fn to_list_spec(v: NodeValV) -> Seq<NodeValV> {
    match v {
        NodeValV::Null => Seq::empty(),
        NodeValV::MMap(m) => m.map(
            |i: int, e: (Seq<char>, Seq<Seq<char>>)| NodeValV::Entry(
                e.0,
                Box::new(NodeValV::SList(e.1)),
            ),
        ),
        NodeValV::SList(l) => l.map(|i: int, s: Seq<char>| NodeValV::Str(s)),
        NodeValV::List(items) => items,
        NodeValV::Json(j) => match j {
            JsonV::Array(items) => items.map(|i: int, x: JsonV| NodeValV::Json(x)),
            JsonV::Object(fields) => fields.map(
                |i: int, f: (Seq<char>, JsonV)| NodeValV::Entry(
                    f.0,
                    Box::new(NodeValV::Json(f.1)),
                ),
            ),
            other => seq![NodeValV::Json(other)],
        },
        other => seq![other],
    }
}

impl NodeValue {
    /// The list of items this value iterates to in `for-each`.
    #[verifier::loop_isolation(false)]
    #[verifier::rlimit(60)]
    pub fn to_list(&self) -> (r: Vec<NodeValue>)
        ensures
            nv_seq(r@) == to_list_spec(self@),
    {
        broadcast use lemma_nv_seq, crate::json::lemma_jv_seq, crate::json::lemma_jv_fields;

        proof {
            reveal_with_fuel(nv, 4);
            reveal_with_fuel(crate::json::jv, 3);
        }

        let mut out: Vec<NodeValue> = Vec::new();
        match self {
            NodeValue::NULL => {
                proof {
                    assert(nv_seq(out@) =~= to_list_spec(self@));
                }
            },
            NodeValue::MMAP(m) => {
                let ghost mv = mm_view(m@);
                let ghost target = to_list_spec(self@);
                let mut i: usize = 0;
                proof {
                    assert(nv_seq(out@) =~= target.take(0));
                }
                while i < m.len()
                    invariant
                        i <= m.len(),
                        nv_seq(out@) == to_list_spec(self@).take(i as int),
                    decreases m.len() - i,
                {
                    let k = m[i].0.clone();
                    let vs = clone_slist(&m[i].1);
                    let item = NodeValue::ENTRY(k, Box::new(NodeValue::SLIST(vs)));
                    let ghost pre = out@;
                    out.push(item);
                    proof {
                        assert(out@ =~= pre.push(item));
                        lemma_nv_seq(out@);
                        lemma_nv_seq(pre);
                        reveal_with_fuel(nv, 4);
                        reveal_with_fuel(crate::json::jv, 3);
                        assert(nv(item) == to_list_spec(self@)[i as int]);
                        assert(nv_seq(out@) =~= to_list_spec(self@).take(i + 1));
                    }
                    i = i + 1;
                }
                proof {
                    assert(to_list_spec(self@).take(m@.len() as int) =~= to_list_spec(self@));
                }
            },
            NodeValue::SLIST(l) => {
                let mut i: usize = 0;
                proof {
                    assert(nv_seq(out@) =~= to_list_spec(self@).take(0));
                }
                while i < l.len()
                    invariant
                        i <= l.len(),
                        nv_seq(out@) == to_list_spec(self@).take(i as int),
                    decreases l.len() - i,
                {
                    let item = NodeValue::STRING(l[i].clone());
                    let ghost pre = out@;
                    out.push(item);
                    proof {
                        assert(out@ =~= pre.push(item));
                        lemma_nv_seq(out@);
                        lemma_nv_seq(pre);
                        reveal_with_fuel(nv, 4);
                        reveal_with_fuel(crate::json::jv, 3);
                        assert(nv(item) == to_list_spec(self@)[i as int]);
                        assert(nv_seq(out@) =~= to_list_spec(self@).take(i + 1));
                    }
                    i = i + 1;
                }
                proof {
                    assert(to_list_spec(self@).take(l@.len() as int) =~= to_list_spec(self@));
                }
            },
            NodeValue::LIST(items) => {
                let mut i: usize = 0;
                proof {
                    lemma_nv_seq(items@);
                    assert(self@ == NodeValV::List(nv_seq(items@)));
                    assert(to_list_spec(self@) == nv_seq(items@));
                    assert(nv_seq(out@) =~= to_list_spec(self@).take(0));
                }
                while i < items.len()
                    invariant
                        i <= items.len(),
                        nv_seq(out@) == to_list_spec(self@).take(i as int),
                    decreases items.len() - i,
                {
                    let item = items[i].clone();
                    let ghost pre = out@;
                    out.push(item);
                    proof {
                        assert(out@ =~= pre.push(item));
                        lemma_nv_seq(out@);
                        lemma_nv_seq(pre);
                        lemma_nv_seq(items@);
                        assert(to_list_spec(self@) == nv_seq(items@));
                        assert(nv(item) == to_list_spec(self@)[i as int]);
                        assert(nv_seq(out@) =~= to_list_spec(self@).take(i + 1));
                    }
                    i = i + 1;
                }
                proof {
                    lemma_nv_seq(items@);
                    assert(to_list_spec(self@) == nv_seq(items@));
                    assert(to_list_spec(self@).take(items@.len() as int) =~= to_list_spec(
                        self@,
                    ));
                }
            },
            NodeValue::JSON(j) => {
                match j {
                    JsonValue::Array(items) => {
                        let mut i: usize = 0;
                        proof {
                            assert(crate::json::jv(*j) == JsonV::Array(crate::json::jv_seq(
                                items@,
                            )));
                            assert(self@ == NodeValV::Json(crate::json::jv(*j)));
                            assert(to_list_spec(self@) == crate::json::jv_seq(items@).map(
                                |k: int, x: JsonV| NodeValV::Json(x),
                            ));
                            assert(nv_seq(out@) =~= to_list_spec(self@).take(0));
                        }
                        while i < items.len()
                            invariant
                                i <= items.len(),
                                nv_seq(out@) == to_list_spec(self@).take(i as int),
                            decreases items.len() - i,
                        {
                            let item = NodeValue::JSON(items[i].clone());
                            let ghost pre = out@;
                            out.push(item);
                            proof {
                                assert(out@ =~= pre.push(item));
                                lemma_nv_seq(out@);
                                lemma_nv_seq(pre);
                                assert(nv(item) == to_list_spec(self@)[i as int]);
                                assert(nv_seq(out@) =~= to_list_spec(self@).take(i + 1));
                            }
                            i = i + 1;
                        }
                        proof {
                            assert(to_list_spec(self@).take(items@.len() as int)
                                =~= to_list_spec(self@));
                        }
                    },
                    JsonValue::Object(fields) => {
                        let mut i: usize = 0;
                        proof {
                            assert(crate::json::jv(*j) == JsonV::Object(crate::json::jv_fields(
                                fields@,
                            )));
                            assert(self@ == NodeValV::Json(crate::json::jv(*j)));
                            assert(to_list_spec(self@) == crate::json::jv_fields(fields@).map(
                                |k: int, f: (Seq<char>, JsonV)| NodeValV::Entry(
                                    f.0,
                                    Box::new(NodeValV::Json(f.1)),
                                ),
                            ));
                            assert(nv_seq(out@) =~= to_list_spec(self@).take(0));
                        }
                        while i < fields.len()
                            invariant
                                i <= fields.len(),
                                nv_seq(out@) == to_list_spec(self@).take(i as int),
                            decreases fields.len() - i,
                        {
                            let item = NodeValue::ENTRY(
                                fields[i].0.clone(),
                                Box::new(NodeValue::JSON(fields[i].1.clone())),
                            );
                            let ghost pre = out@;
                            out.push(item);
                            proof {
                                assert(out@ =~= pre.push(item));
                                lemma_nv_seq(out@);
                                lemma_nv_seq(pre);
                                assert(nv(item) == to_list_spec(self@)[i as int]);
                                assert(nv_seq(out@) =~= to_list_spec(self@).take(i + 1));
                            }
                            i = i + 1;
                        }
                        proof {
                            assert(to_list_spec(self@).take(fields@.len() as int)
                                =~= to_list_spec(self@));
                        }
                    },
                    _ => {
                        out.push(self.clone());
                        proof {
                            assert(nv_seq(out@) =~= to_list_spec(self@));
                        }
                    },
                }
            },
            _ => {
                out.push(self.clone());
                proof {
                    assert(nv_seq(out@) =~= to_list_spec(self@));
                }
            },
        }
        out
    }
}

} // verus!
