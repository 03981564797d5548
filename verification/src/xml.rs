//! The library's model of a parsed XML document. Each element keeps, besides
//! its name, attributes and children, the canonical text the parser's
//! serializer writes for it, so that diagnostics can show the element exactly
//! as the parser would.

use vstd::prelude::*;

verus! {

use crate::path::{PathToken, PathTokV};
use crate::strutil::{push_str, str_eq, str_lex_le, lex_le};

/// A parsed XML element.
#[derive(Debug, PartialEq)]
pub struct XmlElement {
    /// The element's local name
    pub name: String,
    /// The element's namespace, if one is declared
    pub namespace: Option<String>,
    /// The attributes, sorted by name
    pub attrs: Vec<(String, String)>,
    /// Child nodes in document order
    pub children: Vec<XmlNode>,
    /// The canonical serialized form of this element
    pub rendered: String,
}

/// A child node of an element.
#[derive(Debug, PartialEq)]
pub enum XmlNode {
    Element(XmlElement),
    Text(String),
    Comment(String),
}

/// A value resolved out of an XML document: an element, a text node, or an
/// attribute with its name and value.
#[derive(Debug, PartialEq)]
pub enum XmlValue {
    Element(XmlElement),
    Text(String),
    Attribute(String, String),
}

/// Specification-level form of an element.
#[verifier::ext_equal]
pub struct XmlElemV {
    pub name: Seq<char>,
    pub namespace: Option<Seq<char>>,
    pub attrs: Seq<(Seq<char>, Seq<char>)>,
    pub children: Seq<XmlNodeV>,
    pub rendered: Seq<char>,
}

#[verifier::ext_equal]
pub enum XmlNodeV {
    Element(XmlElemV),
    Text(Seq<char>),
    Comment(Seq<char>),
}

#[verifier::ext_equal]
pub enum XmlValV {
    Element(XmlElemV),
    Text(Seq<char>),
    Attribute(Seq<char>, Seq<char>),
}

/// The views of an attribute list.
pub open spec fn xa_view(s: Seq<(String, String)>) -> Seq<(Seq<char>, Seq<char>)> {
    s.map(|i: int, a: (String, String)| (a.0@, a.1@))
}

/// The view of an element.
pub open spec fn xe_view(e: XmlElement) -> XmlElemV
    decreases e,
{
    XmlElemV {
        name: e.name@,
        namespace: match e.namespace {
            Some(ns) => Some(ns@),
            None => None,
        },
        attrs: xa_view(e.attrs@),
        children: xn_seq(e.children@),
        rendered: e.rendered@,
    }
}

/// The view of a child node.
pub open spec fn xn_view(n: XmlNode) -> XmlNodeV
    decreases n,
{
    match n {
        XmlNode::Element(e) => XmlNodeV::Element(xe_view(e)),
        XmlNode::Text(t) => XmlNodeV::Text(t@),
        XmlNode::Comment(t) => XmlNodeV::Comment(t@),
    }
}

/// The views of a child list.
pub open spec fn xn_seq(s: Seq<XmlNode>) -> Seq<XmlNodeV>
    decreases s,
{
    if s.len() == 0 {
        Seq::empty()
    } else {
        xn_seq(s.drop_last()).push(xn_view(s.last()))
    }
}

pub broadcast proof fn lemma_xn_seq(s: Seq<XmlNode>)
    ensures
        (#[trigger] xn_seq(s)).len() == s.len(),
        forall|i: int| 0 <= i < s.len() ==> xn_seq(s)[i] == xn_view(s[i]),
    decreases s.len(),
{
    if s.len() > 0 {
        lemma_xn_seq(s.drop_last());
    }
}

impl View for XmlElement {
    type V = XmlElemV;

    open spec fn view(&self) -> XmlElemV {
        xe_view(*self)
    }
}

impl View for XmlNode {
    type V = XmlNodeV;

    open spec fn view(&self) -> XmlNodeV {
        xn_view(*self)
    }
}

impl View for XmlValue {
    type V = XmlValV;

    open spec fn view(&self) -> XmlValV {
        match self {
            XmlValue::Element(e) => XmlValV::Element(xe_view(*e)),
            XmlValue::Text(t) => XmlValV::Text(t@),
            XmlValue::Attribute(n, v) => XmlValV::Attribute(n@, v@),
        }
    }
}

impl Clone for XmlElement {
    #[verifier::loop_isolation(false)]
    fn clone(&self) -> (res: Self)
        ensures
            res@ == self@,
        decreases self,
    {
        broadcast use lemma_xn_seq;

        let name = self.name.clone();
        let namespace = match &self.namespace {
            Some(ns) => Some(ns.clone()),
            None => None,
        };
        let mut attrs: Vec<(String, String)> = Vec::new();
        let mut i: usize = 0;
        while i < self.attrs.len()
            invariant
                i <= self.attrs.len(),
                attrs@.len() == i,
                forall|j: int|
                    0 <= j < i ==> attrs@[j].0@ == self.attrs@[j].0@ && attrs@[j].1@
                        == self.attrs@[j].1@,
            decreases self.attrs.len() - i,
        {
            attrs.push((self.attrs[i].0.clone(), self.attrs[i].1.clone()));
            i = i + 1;
        }
        let mut children: Vec<XmlNode> = Vec::new();
        let mut i: usize = 0;
        while i < self.children.len()
            invariant
                i <= self.children.len(),
                children@.len() == i,
                forall|j: int| 0 <= j < i ==> xn_view(children@[j]) == xn_view(self.children@[j]),
            decreases self.children.len() - i,
        {
            proof {
                assert(decreases_to!(*self => self.children@[i as int]));
            }
            let c = self.children[i].clone();
            children.push(c);
            i = i + 1;
        }
        let rendered = self.rendered.clone();
        let res = XmlElement { name, namespace, attrs, children, rendered };
        proof {
            assert(xa_view(res.attrs@) =~= xa_view(self.attrs@));
            assert(xn_seq(res.children@) =~= xn_seq(self.children@));
        }
        res
    }
}

impl Clone for XmlNode {
    fn clone(&self) -> (res: Self)
        ensures
            res@ == self@,
        decreases self,
    {
        match self {
            XmlNode::Element(e) => {
                proof {
                    assert(decreases_to!(*self => *e));
                }
                XmlNode::Element(e.clone())
            },
            XmlNode::Text(t) => XmlNode::Text(t.clone()),
            XmlNode::Comment(t) => XmlNode::Comment(t.clone()),
        }
    }
}

impl Clone for XmlValue {
    fn clone(&self) -> (res: Self)
        ensures
            res@ == self@,
    {
        match self {
            XmlValue::Element(e) => XmlValue::Element(e.clone()),
            XmlValue::Text(t) => XmlValue::Text(t.clone()),
            XmlValue::Attribute(n, v) => XmlValue::Attribute(n.clone(), v.clone()),
        }
    }
}

impl XmlValue {
    /// Returns the value if it is an XML element
    pub fn as_element(&self) -> (r: Option<XmlElement>)
        ensures
            match r {
                Some(e) => self@ == XmlValV::Element(e@),
                None => !(self@ is Element),
            },
    {
        match self {
            XmlValue::Element(element) => Some(element.clone()),
            _ => None,
        }
    }

    /// Returns the value if it is XML text
    pub fn as_text(&self) -> (r: Option<String>)
        ensures
            match r {
                Some(t) => self@ == XmlValV::Text(t@),
                None => !(self@ is Text),
            },
    {
        match self {
            XmlValue::Text(text) => Some(text.clone()),
            _ => None,
        }
    }

    /// Returns the value if it is an XML attribute
    pub fn as_attribute(&self) -> (r: Option<(String, String)>)
        ensures
            match r {
                Some(a) => self@ == XmlValV::Attribute(a.0@, a.1@),
                None => !(self@ is Attribute),
            },
    {
        match self {
            XmlValue::Attribute(name, value) => Some((name.clone(), value.clone())),
            _ => None,
        }
    }
}

/// The name an element is addressed by: its namespace and a colon prefixed
/// to the local name when a namespace is declared.
pub open spec fn qualified_name(e: XmlElemV) -> Seq<char> {
    match e.namespace {
        Some(ns) => ns + ":"@ + e.name,
        None => e.name,
    }
}

/// The name an element is addressed by in plans and diagnostics.
pub fn name(element: &XmlElement) -> (r: String)
    ensures
        r@ == qualified_name(element@),
{
    let mut out: Vec<char> = Vec::new();
    match &element.namespace {
        Some(ns) => {
            push_str(&mut out, ns.as_str());
            push_str(&mut out, ":");
            push_str(&mut out, element.name.as_str());
        },
        None => push_str(&mut out, element.name.as_str()),
    }
    crate::strutil::chars_to_string(&out)
}

/// The indices of the element children, in order.
pub open spec fn elem_children(children: Seq<XmlNodeV>) -> Seq<XmlElemV>
    decreases children,
{
    if children.len() == 0 {
        Seq::empty()
    } else {
        let rest = elem_children(children.drop_last());
        match children.last() {
            XmlNodeV::Element(e) => rest.push(e),
            _ => rest,
        }
    }
}

/// The contents of the text children, in order.
pub open spec fn text_children(children: Seq<XmlNodeV>) -> Seq<Seq<char>>
    decreases children,
{
    if children.len() == 0 {
        Seq::empty()
    } else {
        let rest = text_children(children.drop_last());
        match children.last() {
            XmlNodeV::Text(t) => rest.push(t),
            _ => rest,
        }
    }
}

/// Collects the element children of `e`.
#[verifier::loop_isolation(false)]
pub fn child_elements(e: &XmlElement) -> (r: Vec<XmlElement>)
    ensures
        elem_children(e@.children) == r@.map(|i: int, c: XmlElement| c@),
{
    broadcast use lemma_xn_seq;

    let mut out: Vec<XmlElement> = Vec::new();
    let mut i: usize = 0;
    proof {
        assert(xn_seq(e.children@).take(0) =~= Seq::<XmlNodeV>::empty());
        assert(elem_children(xn_seq(e.children@).take(0)) =~= Seq::<XmlElemV>::empty());
        assert(out@.map(|k: int, c: XmlElement| c@) =~= Seq::<XmlElemV>::empty());
    }
    while i < e.children.len()
        invariant
            i <= e.children.len(),
            out@.map(|k: int, c: XmlElement| c@) == elem_children(
                xn_seq(e.children@).take(i as int),
            ),
        decreases e.children.len() - i,
    {
        let ghost cv = xn_seq(e.children@);
        if let XmlNode::Element(child) = &e.children[i] {
            let c = child.clone();
            out.push(c);
        }
        proof {
            assert(cv.take(i + 1).drop_last() =~= cv.take(i as int));
            assert(cv.take(i + 1).last() == cv[i as int]);
            assert(cv[i as int] == xn_view(e.children@[i as int]));
            assert(out@.map(|k: int, c: XmlElement| c@) =~= elem_children(cv.take(i + 1)));
        }
        i = i + 1;
    }
    proof {
        assert(xn_seq(e.children@).take(e.children@.len() as int) =~= xn_seq(e.children@));
    }
    out
}

/// Collects the text children of `e`.
#[verifier::loop_isolation(false)]
pub fn text_nodes(e: &XmlElement) -> (r: Vec<String>)
    ensures
        text_children(e@.children) == r@.map(|i: int, t: String| t@),
{
    broadcast use lemma_xn_seq;

    let mut out: Vec<String> = Vec::new();
    let mut i: usize = 0;
    proof {
        assert(xn_seq(e.children@).take(0) =~= Seq::<XmlNodeV>::empty());
        assert(text_children(xn_seq(e.children@).take(0)) =~= Seq::<Seq<char>>::empty());
        assert(out@.map(|k: int, t: String| t@) =~= Seq::<Seq<char>>::empty());
    }
    while i < e.children.len()
        invariant
            i <= e.children.len(),
            out@.map(|k: int, t: String| t@) == text_children(
                xn_seq(e.children@).take(i as int),
            ),
        decreases e.children.len() - i,
    {
        let ghost cv = xn_seq(e.children@);
        if let XmlNode::Text(t) = &e.children[i] {
            out.push(t.clone());
        }
        proof {
            assert(cv.take(i + 1).drop_last() =~= cv.take(i as int));
            assert(cv.take(i + 1).last() == cv[i as int]);
            assert(cv[i as int] == xn_view(e.children@[i as int]));
            assert(out@.map(|k: int, t: String| t@) =~= text_children(cv.take(i + 1)));
        }
        i = i + 1;
    }
    proof {
        assert(xn_seq(e.children@).take(e.children@.len() as int) =~= xn_seq(e.children@));
    }
    out
}

/// Whether `e` has any element children.
pub fn has_child_elements(e: &XmlElement) -> (r: bool)
    ensures
        r == (elem_children(e@.children).len() > 0),
{
    broadcast use lemma_xn_seq;

    let ghost cv = xn_seq(e.children@);
    let mut i: usize = 0;
    proof {
        lemma_elem_children_prefix(cv, 0);
    }
    #[verifier::loop_isolation(false)]
    while i < e.children.len()
        invariant
            i <= e.children.len(),
            elem_children(cv.take(i as int)).len() == 0,
        decreases e.children.len() - i,
    {
        if matches!(&e.children[i], XmlNode::Element(_)) {
            proof {
                lemma_elem_children_grow(cv, i as int);
            }
            return true;
        }
        proof {
            assert(cv.take(i + 1).drop_last() =~= cv.take(i as int));
            assert(cv.take(i + 1).last() == cv[i as int]);
            assert(cv[i as int] == xn_view(e.children@[i as int]));
        }
        i = i + 1;
    }
    proof {
        assert(cv.take(e.children@.len() as int) =~= cv);
    }
    false
}

proof fn lemma_elem_children_prefix(cv: Seq<XmlNodeV>, i: int)
    requires
        0 <= i <= cv.len(),
    ensures
        elem_children(cv.take(i)).len() <= elem_children(cv).len(),
    decreases cv.len() - i,
{
    if i < cv.len() {
        assert(cv.take(i + 1).drop_last() =~= cv.take(i));
        assert(cv.take(i + 1).last() == cv[i]);
        lemma_elem_children_prefix(cv, i + 1);
        assert(cv.take(cv.len() as int) =~= cv);
    } else {
        assert(cv.take(i) =~= cv);
    }
}

proof fn lemma_elem_children_grow(cv: Seq<XmlNodeV>, i: int)
    requires
        0 <= i < cv.len(),
        cv[i] is Element,
    ensures
        elem_children(cv).len() > 0,
    decreases cv.len(),
{
    if cv.len() > 0 {
        if i == cv.len() - 1 {
            assert(cv.last() == cv[i]);
        } else {
            assert(cv.drop_last()[i] == cv[i]);
            lemma_elem_children_grow(cv.drop_last(), i);
        }
    }
}

/// One group of same-named child elements.
pub struct ChildGroup {
    /// The shared element name
    pub name: String,
    /// The children carrying it, in document order
    pub elements: Vec<XmlElement>,
}

/// Specification form of grouping: fold over the element children, putting
/// each into the group of its name, groups ordered by first occurrence.
pub open spec fn group_spec(elems: Seq<XmlElemV>) -> Seq<(Seq<char>, Seq<XmlElemV>)>
    decreases elems,
{
    if elems.len() == 0 {
        Seq::empty()
    } else {
        group_add(group_spec(elems.drop_last()), elems.last())
    }
}

/// Adds one element to its group, appending a new group if none exists.
pub open spec fn group_add(
    groups: Seq<(Seq<char>, Seq<XmlElemV>)>,
    e: XmlElemV,
) -> Seq<(Seq<char>, Seq<XmlElemV>)>
    decreases groups.len(),
{
    if groups.len() == 0 {
        seq![(qualified_name(e), seq![e])]
    } else if groups[0].0 == qualified_name(e) {
        seq![(groups[0].0, groups[0].1.push(e))] + groups.skip(1)
    } else {
        seq![groups[0]] + group_add(groups.skip(1), e)
    }
}

/// Groups the element children of `e` by qualified name, preserving the
/// order in which names first occur.
#[verifier::loop_isolation(false)]
pub fn group_children(e: &XmlElement) -> (r: Vec<ChildGroup>)
    ensures
        r@.map(|i: int, g: ChildGroup| (g.name@, g.elements@.map(|k: int, c: XmlElement| c@)))
            == group_spec(elem_children(e@.children)),
{
    let elems = child_elements(e);
    let ghost ev = elems@.map(|k: int, c: XmlElement| c@);
    let mut groups: Vec<ChildGroup> = Vec::new();
    let mut i: usize = 0;
    proof {
        assert(ev.take(0) =~= Seq::<XmlElemV>::empty());
        assert(group_spec(ev.take(0)) =~= Seq::<(Seq<char>, Seq<XmlElemV>)>::empty());
        assert(groups@.map(
            |k: int, g: ChildGroup| (g.name@, g.elements@.map(|m: int, c: XmlElement| c@)),
        ) =~= Seq::<(Seq<char>, Seq<XmlElemV>)>::empty());
    }
    while i < elems.len()
        invariant
            i <= elems.len(),
            ev == elems@.map(|k: int, c: XmlElement| c@),
            groups@.map(
                |k: int, g: ChildGroup| (g.name@, g.elements@.map(|m: int, c: XmlElement| c@)),
            ) == group_spec(ev.take(i as int)),
        decreases elems.len() - i,
    {
        let qn = name(&elems[i]);
        let c = elems[i].clone();
        insert_grouped(&mut groups, qn, c, 0);
        proof {
            assert(ev.take(i + 1).drop_last() =~= ev.take(i as int));
            assert(ev.take(i + 1).last() == ev[i as int]);
        }
        i = i + 1;
    }
    proof {
        assert(ev.take(elems@.len() as int) =~= ev);
    }
    groups
}

/// Inserts `e` into the group named `qn`, scanning from `from`.
#[verifier::loop_isolation(false)]
fn insert_grouped(groups: &mut Vec<ChildGroup>, qn: String, e: XmlElement, from: usize)
    requires
        from <= old(groups)@.len(),
        qualified_name(e@) == qn@,
        forall|j: int| 0 <= j < from ==> old(groups)@[j].name@ != qn@,
    ensures
        final(groups)@.map(
            |k: int, g: ChildGroup| (g.name@, g.elements@.map(|m: int, c: XmlElement| c@)),
        ) == group_add(
            old(groups)@.map(
                |k: int, g: ChildGroup| (g.name@, g.elements@.map(|m: int, c: XmlElement| c@)),
            ),
            e@,
        ),
    decreases old(groups)@.len() - from,
{
    let ghost gv = groups@.map(
        |k: int, g: ChildGroup| (g.name@, g.elements@.map(|m: int, c: XmlElement| c@)),
    );
    proof {
        lemma_group_add_skip(gv, e@, from as int);
    }
    if from < groups.len() {
        if str_eq(groups[from].name.as_str(), qn.as_str()) {
            let mut g = groups.remove(from);
            g.elements.push(e);
            groups.insert(from, g);
            proof {
                assert(groups@.map(
                    |k: int, g: ChildGroup| (g.name@, g.elements@.map(
                        |m: int, c: XmlElement| c@,
                    )),
                ) =~~= group_add(gv, e@));
            }
        } else {
            insert_grouped(groups, qn, e, from + 1);
        }
    } else {
        let g = ChildGroup { name: qn, elements: vec![e] };
        groups.push(g);
        proof {
            assert(groups@.map(
                |k: int, g: ChildGroup| (g.name@, g.elements@.map(|m: int, c: XmlElement| c@)),
            ) =~~= group_add(gv, e@));
        }
    }
}

/// Unfolds `group_add` past a prefix of groups whose names do not match.
proof fn lemma_group_add_skip(gv: Seq<(Seq<char>, Seq<XmlElemV>)>, e: XmlElemV, from: int)
    requires
        0 <= from <= gv.len(),
        forall|j: int| 0 <= j < from ==> gv[j].0 != qualified_name(e),
    ensures
        group_add(gv, e) == gv.take(from) + group_add(gv.skip(from), e),
    decreases from,
{
    if from == 0 {
        assert(gv.skip(0) =~= gv);
        assert(gv.take(0) + group_add(gv.skip(0), e) =~= group_add(gv, e));
    } else {
        assert(gv[0].0 != qualified_name(e));
        assert(gv.len() > 0);
        assert forall|j: int| 0 <= j < from - 1 implies #[trigger] gv.skip(1)[j].0
            != qualified_name(e) by {
            assert(gv.skip(1)[j] == gv[j + 1]);
        }
        lemma_group_add_skip(gv.skip(1), e, from - 1);
        assert(gv.skip(1).skip(from - 1) =~= gv.skip(from));
        assert(gv.skip(1).take(from - 1) =~= gv.take(from).skip(1));
        assert(group_add(gv, e) =~= gv.take(from) + group_add(gv.skip(from), e));
    }
}

/// Sorted insertion position: attributes are kept sorted by name.
pub open spec fn attrs_sorted(s: Seq<(Seq<char>, Seq<char>)>) -> bool {
    forall|i: int, j: int| 0 <= i < j < s.len() ==> lex_le(s[i].0, s[j].0)
}

/// The canonical form of an attribute list: the same pairs, sorted by name
/// with an insertion sort that keeps equal names in order.
pub open spec fn sort_attrs(s: Seq<(Seq<char>, Seq<char>)>) -> Seq<(Seq<char>, Seq<char>)>
    decreases s,
{
    if s.len() == 0 {
        Seq::empty()
    } else {
        insert_attr(sort_attrs(s.drop_last()), s.last())
    }
}

/// Inserts one attribute after every entry whose name precedes or equals it.
pub open spec fn insert_attr(
    s: Seq<(Seq<char>, Seq<char>)>,
    a: (Seq<char>, Seq<char>),
) -> Seq<(Seq<char>, Seq<char>)>
    decreases s.len(),
{
    if s.len() == 0 {
        seq![a]
    } else if lex_le(s[0].0, a.0) {
        seq![s[0]] + insert_attr(s.skip(1), a)
    } else {
        seq![a] + s
    }
}

/// Sorts an attribute list by name.
#[verifier::loop_isolation(false)]
pub fn canonical_attrs(attrs: &Vec<(String, String)>) -> (r: Vec<(String, String)>)
    ensures
        xa_view(r@) == sort_attrs(xa_view(attrs@)),
{
    let mut out: Vec<(String, String)> = Vec::new();
    let mut i: usize = 0;
    proof {
        assert(xa_view(attrs@).take(0) =~= Seq::<(Seq<char>, Seq<char>)>::empty());
        assert(sort_attrs(xa_view(attrs@).take(0)) =~= Seq::<(Seq<char>, Seq<char>)>::empty());
        assert(xa_view(out@) =~= Seq::<(Seq<char>, Seq<char>)>::empty());
    }
    while i < attrs.len()
        invariant
            i <= attrs.len(),
            xa_view(out@) == sort_attrs(xa_view(attrs@).take(i as int)),
        decreases attrs.len() - i,
    {
        let a = (attrs[i].0.clone(), attrs[i].1.clone());
        insert_attr_at(&mut out, a, 0);
        proof {
            let av = xa_view(attrs@);
            assert(av.take(i + 1).drop_last() =~= av.take(i as int));
            assert(av.take(i + 1).last() == av[i as int]);
        }
        i = i + 1;
    }
    proof {
        assert(xa_view(attrs@).take(attrs@.len() as int) =~= xa_view(attrs@));
    }
    out
}

/// Inserts one attribute into a list, scanning from `from`.
#[verifier::loop_isolation(false)]
fn insert_attr_at(out: &mut Vec<(String, String)>, a: (String, String), from: usize)
    requires
        from <= old(out)@.len(),
        forall|j: int| 0 <= j < from ==> lex_le(old(out)@[j].0@, a.0@),
    ensures
        xa_view(final(out)@) == insert_attr(xa_view(old(out)@), (a.0@, a.1@)),
    decreases old(out)@.len() - from,
{
    let ghost ov = xa_view(out@);
    proof {
        lemma_insert_attr_skip(ov, (a.0@, a.1@), from as int);
    }
    if from < out.len() {
        if str_lex_le(out[from].0.as_str(), a.0.as_str()) {
            insert_attr_at(out, a, from + 1);
        } else {
            out.insert(from, a);
            proof {
                assert(xa_view(out@) =~= insert_attr(ov, (a.0@, a.1@)));
            }
        }
    } else {
        out.push(a);
        proof {
            assert(xa_view(out@) =~= insert_attr(ov, (a.0@, a.1@)));
        }
    }
}

proof fn lemma_insert_attr_skip(s: Seq<(Seq<char>, Seq<char>)>, a: (Seq<char>, Seq<char>), from: int)
    requires
        0 <= from <= s.len(),
        forall|j: int| 0 <= j < from ==> lex_le(s[j].0, a.0),
    ensures
        insert_attr(s, a) == s.take(from) + insert_attr(s.skip(from), a),
    decreases from,
{
    if from == 0 {
        assert(s.skip(0) =~= s);
        assert(s.take(0) + insert_attr(s.skip(0), a) =~= insert_attr(s, a));
    } else {
        assert(lex_le(s[0].0, a.0));
        assert forall|j: int| 0 <= j < from - 1 implies lex_le(#[trigger] s.skip(1)[j].0, a.0) by {
            assert(s.skip(1)[j] == s[j + 1]);
        }
        lemma_insert_attr_skip(s.skip(1), a, from - 1);
        assert(s.skip(1).skip(from - 1) =~= s.skip(from));
        assert(s.skip(1).take(from - 1) =~= s.take(from).skip(1));
        assert(insert_attr(s, a) =~= s.take(from) + insert_attr(s.skip(from), a));
    }
}

/// One step of document-path resolution below an element: what one token
/// selects from a list of current values.
pub open spec fn xml_step_one(v: XmlValV, tok: PathTokV) -> Seq<XmlValV> {
    match tok {
        PathTokV::Field(f) => match v {
            XmlValV::Element(e) => if f == "#text"@ {
                let texts = text_children(e.children);
                if texts.len() == 0 {
                    Seq::empty()
                } else {
                    seq![XmlValV::Text(concat_texts(texts))]
                }
            } else if f.len() > 0 && f[0] == '@' {
                match attr_lookup(e.attrs, f.skip(1)) {
                    Some(val) => seq![XmlValV::Attribute(f.skip(1), val)],
                    None => Seq::empty(),
                }
            } else {
                elem_children(e.children).filter(|c: XmlElemV| qualified_name(c) == f).map(
                    |i: int, c: XmlElemV| XmlValV::Element(c),
                )
            },
            _ => Seq::empty(),
        },
        _ => Seq::empty(),
    }
}

/// The concatenation of a list of text contents.
pub open spec fn concat_texts(texts: Seq<Seq<char>>) -> Seq<char>
    decreases texts,
{
    if texts.len() == 0 {
        Seq::empty()
    } else {
        concat_texts(texts.drop_last()) + texts.last()
    }
}

/// First-match lookup of an attribute by name.
pub open spec fn attr_lookup(attrs: Seq<(Seq<char>, Seq<char>)>, name: Seq<char>) -> Option<
    Seq<char>,
>
    decreases attrs.len(),
{
    if attrs.len() == 0 {
        None
    } else if attrs[0].0 == name {
        Some(attrs[0].1)
    } else {
        attr_lookup(attrs.skip(1), name)
    }
}


/// The canonical form of an element: attributes sorted by name, recursively.
pub open spec fn canon_elem(e: XmlElemV) -> XmlElemV
    decreases e,
{
    XmlElemV {
        name: e.name,
        namespace: e.namespace,
        attrs: sort_attrs(e.attrs),
        children: canon_nodes(e.children),
        rendered: e.rendered,
    }
}

/// The canonical forms of a child list.
pub open spec fn canon_nodes(s: Seq<XmlNodeV>) -> Seq<XmlNodeV>
    decreases s,
{
    if s.len() == 0 {
        Seq::empty()
    } else {
        canon_nodes(s.drop_last()).push(
            match s.last() {
                XmlNodeV::Element(e) => XmlNodeV::Element(canon_elem(e)),
                other => other,
            },
        )
    }
}

/// Puts an element into canonical form.
#[verifier::loop_isolation(false)]
pub fn canonicalize(e: &XmlElement) -> (r: XmlElement)
    ensures
        r@ == canon_elem(e@),
    decreases e,
{
    broadcast use lemma_xn_seq;

    let name = e.name.clone();
    let namespace = match &e.namespace {
        Some(ns) => Some(ns.clone()),
        None => None,
    };
    let attrs = canonical_attrs(&e.attrs);
    let mut children: Vec<XmlNode> = Vec::new();
    let ghost cv = xn_seq(e.children@);
    let mut i: usize = 0;
    proof {
        assert(cv.take(0) =~= Seq::<XmlNodeV>::empty());
        assert(canon_nodes(cv.take(0)) =~= Seq::<XmlNodeV>::empty());
        assert(xn_seq(children@) =~= Seq::<XmlNodeV>::empty());
    }
    while i < e.children.len()
        invariant
            i <= e.children.len(),
            xn_seq(children@) == canon_nodes(cv.take(i as int)),
        decreases e.children.len() - i,
    {
        let c = match &e.children[i] {
            XmlNode::Element(child) => {
                proof {
                    assert(decreases_to!(*e => e.children@[i as int]));
                    assert(decreases_to!(e.children@[i as int] => *child));
                }
                XmlNode::Element(canonicalize(child))
            },
            XmlNode::Text(t) => XmlNode::Text(t.clone()),
            XmlNode::Comment(t) => XmlNode::Comment(t.clone()),
        };
        let ghost pre = children@;
        children.push(c);
        proof {
            assert(children@ =~= pre.push(c));
            lemma_xn_seq(children@);
            lemma_xn_seq(pre);
            assert(cv.take(i + 1).drop_last() =~= cv.take(i as int));
            assert(cv.take(i + 1).last() == cv[i as int]);
            assert(cv[i as int] == xn_view(e.children@[i as int]));
            assert(xn_seq(children@) =~= canon_nodes(cv.take(i + 1)));
        }
        i = i + 1;
    }
    let rendered = e.rendered.clone();
    let r = XmlElement { name, namespace, attrs, children, rendered };
    proof {
        assert(cv.take(e.children@.len() as int) =~= cv);
    }
    r
}

} // verus!
