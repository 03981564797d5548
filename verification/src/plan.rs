//! The plan AST: the node kinds of the little tree-structured program a
//! matching expectation compiles to, and its canonical pretty-printed form,
//! which is the stable diagnostic contract of the engine.

use vstd::prelude::*;

verus! {

use crate::foreign::escaped_of;
use crate::path::{DocPath, PathTokV, path_text};
use crate::strutil::push_str;
use vstd::string::StringExecFns;
use crate::value::{
    NodeResult, NodeResV, NodeValue, NodeValV, nv, nr, res_text, value_text, push_value_text,
};

/// The label of a container node: a document path, or plain text.
#[derive(Debug, PartialEq)]
pub enum ContainerLabel {
    Path(DocPath),
    Text(String),
}

/// Specification-level container label.
#[verifier::ext_equal]
pub enum ContainerLabelV {
    Path(Seq<PathTokV>),
    Text(Seq<char>),
}

impl View for ContainerLabel {
    type V = ContainerLabelV;

    open spec fn view(&self) -> ContainerLabelV {
        match self {
            ContainerLabel::Path(p) => ContainerLabelV::Path(p@),
            ContainerLabel::Text(t) => ContainerLabelV::Text(t@),
        }
    }
}

impl Clone for ContainerLabel {
    fn clone(&self) -> (res: Self)
        ensures
            res@ == self@,
    {
        match self {
            ContainerLabel::Path(p) => ContainerLabel::Path(p.clone()),
            ContainerLabel::Text(t) => ContainerLabel::Text(t.clone()),
        }
    }
}

/// The text a container label renders to.
pub open spec fn label_text(l: ContainerLabelV) -> Seq<char> {
    match l {
        ContainerLabelV::Path(p) => path_text(p),
        ContainerLabelV::Text(t) => t,
    }
}

/// The kind of a plan node.
#[derive(Debug, PartialEq)]
pub enum PlanNodeType {
    /// No operation
    EMPTY,
    /// A labelled grouping node folding its children's outcomes
    CONTAINER(ContainerLabel),
    /// A named operation
    ACTION(String),
    /// A literal value
    VALUE(NodeValue),
    /// Reads the external document at an absolute path
    RESOLVE(DocPath),
    /// Sequences its children, each seeing the previous child's result
    PIPELINE,
    /// Reads the interpreter's current value at a path
    RESOLVE_CURRENT(DocPath),
    /// Executes its children, then stands for their flattened value list
    SPLAT,
    /// A non-executable annotation
    ANNOTATION(String),
}

/// Specification-level node kind.
#[verifier::ext_equal]
pub enum PlanTypeV {
    Empty,
    Container(ContainerLabelV),
    Action(Seq<char>),
    Value(NodeValV),
    Resolve(Seq<PathTokV>),
    Pipeline,
    ResolveCurrent(Seq<PathTokV>),
    Splat,
    Annotation(Seq<char>),
}

impl View for PlanNodeType {
    type V = PlanTypeV;

    open spec fn view(&self) -> PlanTypeV {
        match self {
            PlanNodeType::EMPTY => PlanTypeV::Empty,
            PlanNodeType::CONTAINER(l) => PlanTypeV::Container(l@),
            PlanNodeType::ACTION(a) => PlanTypeV::Action(a@),
            PlanNodeType::VALUE(v) => PlanTypeV::Value(nv(*v)),
            PlanNodeType::RESOLVE(p) => PlanTypeV::Resolve(p@),
            PlanNodeType::PIPELINE => PlanTypeV::Pipeline,
            PlanNodeType::RESOLVE_CURRENT(p) => PlanTypeV::ResolveCurrent(p@),
            PlanNodeType::SPLAT => PlanTypeV::Splat,
            PlanNodeType::ANNOTATION(t) => PlanTypeV::Annotation(t@),
        }
    }
}

impl Clone for PlanNodeType {
    fn clone(&self) -> (res: Self)
        ensures
            res@ == self@,
    {
        match self {
            PlanNodeType::EMPTY => PlanNodeType::EMPTY,
            PlanNodeType::CONTAINER(l) => PlanNodeType::CONTAINER(l.clone()),
            PlanNodeType::ACTION(a) => PlanNodeType::ACTION(a.clone()),
            PlanNodeType::VALUE(v) => PlanNodeType::VALUE(v.clone()),
            PlanNodeType::RESOLVE(p) => PlanNodeType::RESOLVE(p.clone()),
            PlanNodeType::PIPELINE => PlanNodeType::PIPELINE,
            PlanNodeType::RESOLVE_CURRENT(p) => PlanNodeType::RESOLVE_CURRENT(p.clone()),
            PlanNodeType::SPLAT => PlanNodeType::SPLAT,
            PlanNodeType::ANNOTATION(t) => PlanNodeType::ANNOTATION(t.clone()),
        }
    }
}

/// One node of an execution plan: its kind, its outcome once executed, and
/// its children.
#[derive(Debug, PartialEq)]
pub struct ExecutionPlanNode {
    pub node_type: PlanNodeType,
    pub result: Option<NodeResult>,
    pub children: Vec<ExecutionPlanNode>,
}

/// Specification-level plan node.
#[verifier::ext_equal]
pub struct NodeV {
    pub node_type: PlanTypeV,
    pub result: Option<NodeResV>,
    pub children: Seq<NodeV>,
}

/// The view of a plan node.
pub open spec fn pn(n: ExecutionPlanNode) -> NodeV
    decreases n,
{
    NodeV {
        node_type: n.node_type@,
        result: match n.result {
            Some(r) => Some(nr(r)),
            None => None,
        },
        children: pn_seq(n.children@),
    }
}

/// The views of a node list.
pub open spec fn pn_seq(s: Seq<ExecutionPlanNode>) -> Seq<NodeV>
    decreases s,
{
    if s.len() == 0 {
        Seq::empty()
    } else {
        pn_seq(s.drop_last()).push(pn(s.last()))
    }
}

pub broadcast proof fn lemma_pn_seq(s: Seq<ExecutionPlanNode>)
    ensures
        (#[trigger] pn_seq(s)).len() == s.len(),
        forall|i: int| 0 <= i < s.len() ==> pn_seq(s)[i] == pn(s[i]),
    decreases s.len(),
{
    if s.len() > 0 {
        lemma_pn_seq(s.drop_last());
    }
}

impl View for ExecutionPlanNode {
    type V = NodeV;

    open spec fn view(&self) -> NodeV {
        pn(*self)
    }
}

impl Clone for ExecutionPlanNode {
    #[verifier::loop_isolation(false)]
    fn clone(&self) -> (res: Self)
        ensures
            res@ == self@,
        decreases self,
    {
        broadcast use lemma_pn_seq;

        let node_type = self.node_type.clone();
        let result = match &self.result {
            Some(r) => Some(r.clone()),
            None => None,
        };
        let mut children: Vec<ExecutionPlanNode> = Vec::new();
        let mut i: usize = 0;
        while i < self.children.len()
            invariant
                i <= self.children.len(),
                children@.len() == i,
                forall|j: int| 0 <= j < i ==> pn(children@[j]) == pn(self.children@[j]),
            decreases self.children.len() - i,
        {
            proof {
                assert(decreases_to!(*self => self.children@[i as int]));
            }
            let c = self.children[i].clone();
            children.push(c);
            i = i + 1;
        }
        let res = ExecutionPlanNode { node_type, result, children };
        proof {
            assert(pn_seq(res.children@) =~= pn_seq(self.children@));
        }
        res
    }
}

impl ExecutionPlanNode {
    /// An action node with the given name.
    pub fn action(name: &str) -> (r: ExecutionPlanNode)
        ensures
            r@ == (NodeV {
                node_type: PlanTypeV::Action(name@),
                result: None,
                children: Seq::empty(),
            }),
    {
        let r = ExecutionPlanNode {
            node_type: PlanNodeType::ACTION(String::from_str(name)),
            result: None,
            children: Vec::new(),
        };
        proof {
            assert(pn_seq(r.children@) =~= Seq::<NodeV>::empty());
        }
        r
    }

    /// A container node labelled by a document path.
    pub fn container(path: &DocPath) -> (r: ExecutionPlanNode)
        ensures
            r@ == (NodeV {
                node_type: PlanTypeV::Container(ContainerLabelV::Path(path@)),
                result: None,
                children: Seq::empty(),
            }),
    {
        let r = ExecutionPlanNode {
            node_type: PlanNodeType::CONTAINER(ContainerLabel::Path(path.clone())),
            result: None,
            children: Vec::new(),
        };
        proof {
            assert(pn_seq(r.children@) =~= Seq::<NodeV>::empty());
        }
        r
    }

    /// A container node with a plain text label.
    pub fn container_label(label: &str) -> (r: ExecutionPlanNode)
        ensures
            r@ == (NodeV {
                node_type: PlanTypeV::Container(ContainerLabelV::Text(label@)),
                result: None,
                children: Seq::empty(),
            }),
    {
        let r = ExecutionPlanNode {
            node_type: PlanNodeType::CONTAINER(ContainerLabel::Text(String::from_str(label))),
            result: None,
            children: Vec::new(),
        };
        proof {
            assert(pn_seq(r.children@) =~= Seq::<NodeV>::empty());
        }
        r
    }

    /// A literal value node.
    pub fn value_node(value: NodeValue) -> (r: ExecutionPlanNode)
        ensures
            r@ == (NodeV {
                node_type: PlanTypeV::Value(nv(value)),
                result: None,
                children: Seq::empty(),
            }),
    {
        let r = ExecutionPlanNode {
            node_type: PlanNodeType::VALUE(value),
            result: None,
            children: Vec::new(),
        };
        proof {
            assert(pn_seq(r.children@) =~= Seq::<NodeV>::empty());
        }
        r
    }

    /// A node resolving a path in the external document.
    pub fn resolve_value(path: &DocPath) -> (r: ExecutionPlanNode)
        ensures
            r@ == (NodeV {
                node_type: PlanTypeV::Resolve(path@),
                result: None,
                children: Seq::empty(),
            }),
    {
        let r = ExecutionPlanNode {
            node_type: PlanNodeType::RESOLVE(path.clone()),
            result: None,
            children: Vec::new(),
        };
        proof {
            assert(pn_seq(r.children@) =~= Seq::<NodeV>::empty());
        }
        r
    }

    /// A node resolving a path in the interpreter's current value.
    pub fn resolve_current_value(path: &DocPath) -> (r: ExecutionPlanNode)
        ensures
            r@ == (NodeV {
                node_type: PlanTypeV::ResolveCurrent(path@),
                result: None,
                children: Seq::empty(),
            }),
    {
        let r = ExecutionPlanNode {
            node_type: PlanNodeType::RESOLVE_CURRENT(path.clone()),
            result: None,
            children: Vec::new(),
        };
        proof {
            assert(pn_seq(r.children@) =~= Seq::<NodeV>::empty());
        }
        r
    }

    /// An annotation node.
    pub fn annotation(text: &str) -> (r: ExecutionPlanNode)
        ensures
            r@ == (NodeV {
                node_type: PlanTypeV::Annotation(text@),
                result: None,
                children: Seq::empty(),
            }),
    {
        let r = ExecutionPlanNode {
            node_type: PlanNodeType::ANNOTATION(String::from_str(text)),
            result: None,
            children: Vec::new(),
        };
        proof {
            assert(pn_seq(r.children@) =~= Seq::<NodeV>::empty());
        }
        r
    }

    /// A splat node.
    pub fn splat() -> (r: ExecutionPlanNode)
        ensures
            r@ == (NodeV { node_type: PlanTypeV::Splat, result: None, children: Seq::empty() }),
    {
        let r = ExecutionPlanNode {
            node_type: PlanNodeType::SPLAT,
            result: None,
            children: Vec::new(),
        };
        proof {
            assert(pn_seq(r.children@) =~= Seq::<NodeV>::empty());
        }
        r
    }

    /// Appends one child.
    pub fn add(&mut self, child: ExecutionPlanNode)
        ensures
            final(self)@ == (NodeV {
                node_type: old(self)@.node_type,
                result: old(self)@.result,
                children: old(self)@.children.push(child@),
            }),
    {
        broadcast use lemma_pn_seq;

        let ghost pre = self.children@;
        self.children.push(child);
        proof {
            assert(self.children@ =~= pre.push(self.children@[pre.len() as int]));
            lemma_pn_seq(self.children@);
            lemma_pn_seq(pre);
            assert(pn_seq(self.children@) =~= pn_seq(pre).push(
                pn(self.children@[pre.len() as int]),
            ));
        }
    }

    /// Whether this node is a splat node.
    pub fn is_splat(&self) -> (r: bool)
        ensures
            r == (self@.node_type is Splat),
    {
        matches!(self.node_type, PlanNodeType::SPLAT)
    }

    /// The recorded outcome, if the node has been executed.
    pub fn value(&self) -> (r: Option<NodeResult>)
        ensures
            match r {
                Some(v) => self@.result == Some(v@),
                None => self@.result is None,
            },
    {
        match &self.result {
            Some(v) => Some(v.clone()),
            None => None,
        }
    }

    /// A copy of this node with the given outcome.
    pub fn clone_with_result(&self, result: NodeResult) -> (r: ExecutionPlanNode)
        ensures
            r@ == (NodeV {
                node_type: self@.node_type,
                result: Some(result@),
                children: self@.children,
            }),
    {
        let mut r = self.clone();
        r.result = Some(result);
        r
    }

    /// A copy of this node carrying the given value as its outcome.
    pub fn clone_with_value(&self, value: NodeValue) -> (r: ExecutionPlanNode)
        ensures
            r@ == (NodeV {
                node_type: self@.node_type,
                result: Some(NodeResV::Value(value@)),
                children: self@.children,
            }),
    {
        let mut r = self.clone();
        r.result = Some(NodeResult::VALUE(value));
        r
    }
}

/// The height of a plan node: one more than its tallest child.
pub open spec fn node_height(n: NodeV) -> nat
    decreases n, 1int, 0int,
{
    1 + nodes_height(n.children)
}

/// The tallest height among a list of nodes.
pub open spec fn nodes_height(cs: Seq<NodeV>) -> nat
    decreases cs, 0int, 0int,
{
    if cs.len() == 0 {
        0
    } else if node_height(cs.last()) > nodes_height(cs.drop_last()) {
        node_height(cs.last())
    } else {
        nodes_height(cs.drop_last())
    }
}

pub broadcast proof fn lemma_nodes_height(cs: Seq<NodeV>)
    ensures
        forall|i: int| 0 <= i < cs.len() ==> node_height(cs[i]) <= #[trigger] nodes_height(cs),
    decreases cs.len(),
{
    if cs.len() > 0 {
        lemma_nodes_height(cs.drop_last());
        assert(forall|i: int|
            0 <= i < cs.len() - 1 ==> cs.drop_last()[i] == #[trigger] cs[i]);
    }
}

/// A run of `n` spaces.
pub open spec fn spaces(n: nat) -> Seq<char>
    decreases n,
{
    if n == 0 {
        Seq::empty()
    } else {
        spaces((n - 1) as nat) + " "@
    }
}

/// Appends `n` spaces.
pub fn push_spaces(out: &mut Vec<char>, n: usize)
    ensures
        final(out)@ == old(out)@ + spaces(n as nat),
    decreases n,
{
    if n > 0 {
        push_spaces(out, n - 1);
        push_str(out, " ");
    } else {
        assert(out@ =~= old(out)@ + spaces(0));
    }
}

/// The ` => result` suffix of an executed node.
pub open spec fn suffix_text(result: Option<NodeResV>) -> Seq<char> {
    match result {
        Some(r) => " => "@ + res_text(r),
        None => Seq::empty(),
    }
}

/// Whether a node kind renders a parenthesised child block.
pub open spec fn is_bodied(t: PlanTypeV) -> bool {
    t is Container || t is Action || t is Pipeline || t is Splat
}

/// The leading text of a node, before any child block or suffix.
pub open spec fn head_text(t: PlanTypeV) -> Seq<char> {
    match t {
        PlanTypeV::Empty => Seq::empty(),
        PlanTypeV::Container(l) => ":"@ + label_text(l),
        PlanTypeV::Action(a) => "%"@ + a,
        PlanTypeV::Pipeline => "->"@,
        PlanTypeV::Splat => "**"@,
        PlanTypeV::Value(v) => value_text(v),
        PlanTypeV::Resolve(p) => path_text(p),
        PlanTypeV::ResolveCurrent(p) => "~>"@ + path_text(p),
        PlanTypeV::Annotation(t2) => "#{"@ + escaped_of(t2) + "}"@,
    }
}

/// The canonical pretty-printed text of a node at an indentation depth.
pub open spec fn node_text(n: NodeV, indent: nat) -> Seq<char>
    decreases n, 1int, 0int,
{
    spaces(indent) + head_text(n.node_type) + (if is_bodied(n.node_type) {
        body_text(n, indent)
    } else {
        suffix_text(n.result)
    })
}

/// The parenthesised child block of a container-like node.
pub open spec fn body_text(n: NodeV, indent: nat) -> Seq<char>
    decreases n, 0int, 1int,
{
    if n.children.len() == 0 {
        " ()"@ + suffix_text(n.result)
    } else {
        " (\n"@ + children_text(n.children, n.children.len() as int, indent + 2) + "\n"@ + spaces(
            indent,
        ) + ")"@ + suffix_text(n.result)
    }
}

/// The first `k` children, pretty-printed and comma separated.
pub open spec fn children_text(cs: Seq<NodeV>, k: int, indent: nat) -> Seq<char>
    decreases cs, 0int, 0int, k,
{
    if k <= 0 || k > cs.len() {
        Seq::empty()
    } else if k == 1 {
        node_text(cs[0], indent)
    } else {
        children_text(cs, k - 1, indent) + ",\n"@ + node_text(cs[k - 1], indent)
    }
}

/// Appends the leading text of a node.
fn push_head_text(out: &mut Vec<char>, node: &ExecutionPlanNode)
    ensures
        final(out)@ == old(out)@ + head_text(node@.node_type),
{
    match &node.node_type {
        PlanNodeType::EMPTY => (),
        PlanNodeType::CONTAINER(l) => {
            push_str(out, ":");
            match l {
                ContainerLabel::Path(p) => {
                    let t = p.to_string();
                    push_str(out, t.as_str());
                },
                ContainerLabel::Text(t) => push_str(out, t.as_str()),
            }
            assert(out@ =~= old(out)@ + head_text(node@.node_type));
        },
        PlanNodeType::ACTION(a) => {
            push_str(out, "%");
            push_str(out, a.as_str());
            assert(out@ =~= old(out)@ + head_text(node@.node_type));
        },
        PlanNodeType::PIPELINE => push_str(out, "->"),
        PlanNodeType::SPLAT => push_str(out, "**"),
        PlanNodeType::VALUE(v) => push_value_text(out, v),
        PlanNodeType::RESOLVE(p) => {
            let t = p.to_string();
            push_str(out, t.as_str());
        },
        PlanNodeType::RESOLVE_CURRENT(p) => {
            push_str(out, "~>");
            let t = p.to_string();
            push_str(out, t.as_str());
            assert(out@ =~= old(out)@ + head_text(node@.node_type));
        },
        PlanNodeType::ANNOTATION(t) => {
            push_str(out, "#{");
            let esc = crate::foreign::escape_text(t.as_str());
            push_str(out, esc.as_str());
            push_str(out, "}");
            assert(out@ =~= old(out)@ + head_text(node@.node_type));
        },
    }
}

/// Appends the ` => result` suffix of a node, if it has one.
fn push_suffix_text(out: &mut Vec<char>, node: &ExecutionPlanNode)
    ensures
        final(out)@ == old(out)@ + suffix_text(node@.result),
{
    match &node.result {
        Some(r) => {
            push_str(out, " => ");
            let t = r.str_form();
            push_str(out, t.as_str());
            assert(out@ =~= old(out)@ + suffix_text(node@.result));
        },
        None => (),
    }
}

/// Appends the canonical pretty-printed text of `node` at `indent`.
#[verifier::loop_isolation(false)]
#[verifier::rlimit(100)]
pub fn push_node_text(out: &mut Vec<char>, node: &ExecutionPlanNode, indent: usize)
    requires
        indent + 2 * node_height(node@) <= usize::MAX,
    ensures
        final(out)@ == old(out)@ + node_text(node@, indent as nat),
    decreases node,
{
    broadcast use lemma_pn_seq, lemma_nodes_height;

    push_spaces(out, indent);
    push_head_text(out, node);
    let has_body = match &node.node_type {
        PlanNodeType::CONTAINER(_) => true,
        PlanNodeType::ACTION(_) => true,
        PlanNodeType::PIPELINE => true,
        PlanNodeType::SPLAT => true,
        _ => false,
    };
    if has_body {
        if node.children.len() == 0 {
            push_str(out, " ()");
            push_suffix_text(out, node);
        } else {
            push_str(out, " (\n");
            let ghost cv = pn_seq(node.children@);
            let mut i: usize = 0;
            let ghost mid = out@;
            proof {
                assert(children_text(cv, 0, (indent + 2) as nat) =~= Seq::<char>::empty());
                assert(out@ =~= mid + children_text(cv, 0, (indent + 2) as nat));
            }
            while i < node.children.len()
                invariant
                    i <= node.children.len(),
                    out@ == mid + children_text(cv, i as int, (indent + 2) as nat),
                decreases node.children.len() - i,
            {
                if i > 0 {
                    push_str(out, ",\n");
                }
                proof {
                    assert(decreases_to!(*node => node.children@[i as int]));
                    assert(cv[i as int] == pn(node.children@[i as int]));
                    assert(node_height(cv[i as int]) <= nodes_height(cv));
                    assert(node_height(node@) == 1 + nodes_height(cv));
                }
                push_node_text(out, &node.children[i], indent + 2);
                proof {
                    assert(out@ =~= mid + children_text(cv, i + 1, (indent + 2) as nat));
                }
                i = i + 1;
            }
            push_str(out, "\n");
            push_spaces(out, indent);
            push_str(out, ")");
            push_suffix_text(out, node);
        }
    } else {
        push_suffix_text(out, node);
    }
    proof {
        assert(out@ =~= old(out)@ + node_text(node@, indent as nat));
    }
}

impl ExecutionPlanNode {
    /// Writes the canonical pretty-printed form of this node into `buffer`.
    pub fn pretty_form(&self, buffer: &mut String, indent: usize)
        requires
            indent + 2 * node_height(self@) <= usize::MAX,
        ensures
            final(buffer)@ == old(buffer)@ + node_text(self@, indent as nat),
    {
        let mut out: Vec<char> = Vec::new();
        push_node_text(&mut out, self, indent);
        let s = crate::strutil::chars_to_string(&out);
        buffer.append(s.as_str());
    }
}

/// A compiled expectation: one named root node.
#[derive(Debug, PartialEq)]
pub struct ExecutionPlan {
    /// The compiled plan tree
    pub plan_root: ExecutionPlanNode,
}

impl ExecutionPlan {
    /// The canonical pretty-printed form of the whole plan.
    pub fn pretty_form(&self) -> (r: String)
        requires
            2 * node_height(self.plan_root@) <= usize::MAX,
        ensures
            r@ == node_text(self.plan_root@, 0),
    {
        let mut buffer = String::new();
        self.plan_root.pretty_form(&mut buffer, 0);
        buffer
    }
}

} // verus!
