//! The symbolic expression graph of a generic constant, and views into it.
use crate::context::{lookup, ConstContext, GraphTable};
use crate::mir::{BinOp, CastKind, UnOp};
use crate::ty::{
    view_args, ArgView, Const, ConstKind, ConstKindView, ConstView, GenericArg, Ty, Unevaluated,
    UnevaluatedView,
};
use vstd::prelude::*;
use vstd::slice::slice_subrange;

verus! {

/// Identity of a node inside one graph: its position in the node sequence.
pub type NodeId = usize;

/// One node of an expression graph. Operands are named by position.
#[derive(Debug, PartialEq)]
pub enum Node {
    Leaf(Const),
    Binop(BinOp, NodeId, NodeId),
    UnaryOp(UnOp, NodeId),
    /// The callee, then the arguments in order.
    FunctionCall(NodeId, Vec<NodeId>),
    Cast(CastKind, NodeId, Ty),
}

/// Mathematical view of a [`Node`].
pub enum NodeView {
    Leaf(ConstView),
    Binop(BinOp, NodeId, NodeId),
    UnaryOp(UnOp, NodeId),
    FunctionCall(NodeId, Seq<NodeId>),
    Cast(CastKind, NodeId, Ty),
}

impl View for Node {
    type V = NodeView;

    open spec fn view(&self) -> NodeView {
        match *self {
            Node::Leaf(c) => NodeView::Leaf(c@),
            Node::Binop(op, l, r) => NodeView::Binop(op, l, r),
            Node::UnaryOp(op, v) => NodeView::UnaryOp(op, v),
            Node::FunctionCall(f, args) => NodeView::FunctionCall(f, args@),
            Node::Cast(kind, v, ty) => NodeView::Cast(kind, v, ty),
        }
    }
}

impl Clone for Node {
    fn clone(&self) -> (r: Self)
        ensures
            r@ == self@,
    {
        match self {
            Node::Leaf(c) => Node::Leaf(c.clone()),
            Node::Binop(op, l, r) => Node::Binop(*op, *l, *r),
            Node::UnaryOp(op, v) => Node::UnaryOp(*op, *v),
            Node::FunctionCall(f, args) => {
                let mut copy: Vec<NodeId> = Vec::new();
                let mut i: usize = 0;
                while i < args.len()
                    invariant
                        i <= args.len(),
                        copy@ == args@.subrange(0, i as int),
                    decreases args.len() - i,
                {
                    copy.push(args[i]);
                    assert(copy@ =~= args@.subrange(0, i + 1));
                    i += 1;
                }
                assert(copy@ =~= args@);
                Node::FunctionCall(*f, copy)
            },
            Node::Cast(kind, v, ty) => Node::Cast(*kind, *v, *ty),
        }
    }
}

impl Node {
    /// Whether every operand of the node is a position before `bound`.
    pub fn refers_below(&self, bound: usize) -> (r: bool)
        ensures
            r == operands_below(self@, bound as int),
    {
        let node = self;
        match node {
            Node::Leaf(_) => true,
            Node::Binop(_, l, r) => {
                assert(operands(node@)[0] == *l && operands(node@)[1] == *r);
                *l < bound && *r < bound
            },
            Node::UnaryOp(_, v) => {
                assert(operands(node@)[0] == *v);
                *v < bound
            },
            Node::FunctionCall(f, args) => {
                assert(operands(node@)[0] == *f);
                if *f >= bound {
                    return false;
                }
                let mut i: usize = 0;
                while i < args.len()
                    invariant
                        i <= args.len(),
                        *f < bound,
                        node@ == self@,
                        node@ == NodeView::FunctionCall(*f, args@),
                        forall|k: int| 0 <= k < i ==> args@[k] < bound,
                    decreases args.len() - i,
                {
                    if args[i] >= bound {
                        assert(operands(node@)[i + 1] == args@[i as int]);
                        return false;
                    }
                    i += 1;
                }
                assert forall|k: int| 0 <= k < operands(node@).len() implies (#[trigger] operands(
                    node@,
                )[k]) < bound by {
                    if k > 0 {
                        assert(operands(node@)[k] == args@[k - 1]);
                    }
                }
                true
            },
            Node::Cast(_, v, _) => {
                assert(operands(node@)[0] == *v);
                *v < bound
            },
        }
    }
}

/// The views of the nodes, in order.
pub open spec fn view_nodes(nodes: Seq<Node>) -> Seq<NodeView> {
    Seq::new(nodes.len(), |i: int| nodes[i]@)
}

/// The operands of a node, in the order in which a walk visits them.
pub open spec fn operands(n: NodeView) -> Seq<NodeId> {
    match n {
        NodeView::Leaf(_) => Seq::empty(),
        NodeView::Binop(_, l, r) => seq![l, r],
        NodeView::UnaryOp(_, v) => seq![v],
        NodeView::FunctionCall(f, args) => seq![f] + args,
        NodeView::Cast(_, v, _) => seq![v],
    }
}

/// Every operand of `n` is a position before `bound`.
pub open spec fn operands_below(n: NodeView, bound: int) -> bool {
    forall|k: int| 0 <= k < operands(n).len() ==> (#[trigger] operands(n)[k]) < bound
}

/// A sequence of nodes is a graph when each node refers to earlier nodes only.
/// Such a sequence has no cycle, and so has each of its prefixes.
pub open spec fn graph_wf(g: Seq<NodeView>) -> bool {
    forall|i: int| 0 <= i < g.len() ==> operands_below(#[trigger] g[i], i)
}

/// A constant could not be shown to be evaluatable.
#[derive(Clone, Copy, Debug, PartialEq, Eq, Structural)]
pub enum NotConstEvaluatable {
    /// An error was reported on the way.
    Error(ErrorReported),
    /// The constant still mentions an inference placeholder.
    MentionsInfer,
    /// The constant still mentions a generic parameter.
    MentionsParam,
}

/// Witness that an error was handed to the diagnostics already.
#[derive(Clone, Copy, Debug, PartialEq, Eq, Structural)]
pub struct ErrorReported;

/// A view into an expression graph: the nodes up to and including the root
/// of the view, and the substitution under which they are read.
#[derive(Clone, Copy, Debug)]
pub struct AbstractConst<'a> {
    pub inner: &'a [Node],
    pub substs: &'a Vec<GenericArg>,
}

/// Mathematical view of an [`AbstractConst`].
pub struct AbstractConstView {
    pub inner: Seq<NodeView>,
    pub substs: Seq<ArgView>,
}

impl AbstractConstView {
    /// A view is well formed when it has a root and its nodes form a graph.
    pub open spec fn wf(self) -> bool {
        self.inner.len() > 0 && graph_wf(self.inner)
    }

    /// The last node.
    pub open spec fn root(self) -> NodeView {
        self.inner.last()
    }

    /// The view rooted at `node`, under the same substitution.
    pub open spec fn subtree(self, node: int) -> AbstractConstView {
        AbstractConstView { inner: self.inner.subrange(0, node + 1), substs: self.substs }
    }

    /// The view of the graph of `uv`'s definition under `uv`'s arguments, if
    /// the table holds a graph for it; the table's error, if it holds one.
    pub open spec fn new(table: GraphTable, uv: UnevaluatedView) -> Result<
        Option<AbstractConstView>,
        ErrorReported,
    > {
        match lookup(table, uv.def) {
            Err(_) => Err(ErrorReported),
            Ok(None) => Ok(None),
            Ok(Some(g)) => Ok(Some(AbstractConstView { inner: g, substs: uv.substs })),
        }
    }

    /// The view that a constant stands for: that of its definition where it
    /// is a use of one, an error for the error constant, nothing otherwise.
    pub open spec fn from_const(table: GraphTable, ct: ConstView) -> Result<
        Option<AbstractConstView>,
        ErrorReported,
    > {
        match ct.val {
            ConstKindView::Unevaluated(uv) => Self::new(table, uv),
            ConstKindView::Error => Err(ErrorReported),
            _ => Ok(None),
        }
    }
}

/// Every view rooted inside a well-formed view is well formed.
pub proof fn lemma_subtree_wf(v: AbstractConstView, node: int)
    requires
        v.wf(),
        0 <= node < v.inner.len(),
    ensures
        v.subtree(node).wf(),
        v.subtree(node).inner.len() == node + 1,
        v.subtree(node).root() == v.inner[node],
{
    let w = v.subtree(node);
    assert forall|i: int| 0 <= i < w.inner.len() implies operands_below(#[trigger] w.inner[i], i) by {
        assert(w.inner[i] == v.inner[i]);
    }
}

/// The operands of the root of a well-formed view lie inside the view.
pub proof fn lemma_root_operands(v: AbstractConstView, k: int)
    requires
        v.wf(),
        0 <= k < operands(v.root()).len(),
    ensures
        0 <= operands(v.root())[k] < v.inner.len() - 1,
{
    assert(operands_below(v.inner[v.inner.len() - 1], v.inner.len() - 1));
}

impl<'a> View for AbstractConst<'a> {
    type V = AbstractConstView;

    open spec fn view(&self) -> AbstractConstView {
        AbstractConstView { inner: view_nodes(self.inner@), substs: view_args(self.substs@) }
    }
}

impl<'a> AbstractConst<'a> {
    /// Whether the view has a root and its nodes refer backwards only. The
    /// other operations on views are for well-formed views.
    pub fn is_well_formed(self) -> (r: bool)
        ensures
            r == self@.wf(),
    {
        if self.inner.len() == 0 {
            return false;
        }
        let mut i: usize = 0;
        while i < self.inner.len()
            invariant
                i <= self.inner@.len(),
                forall|j: int| 0 <= j < i ==> operands_below(#[trigger] self@.inner[j], j),
            decreases self.inner@.len() - i,
        {
            if !self.inner[i].refers_below(i) {
                assert(!operands_below(self@.inner[i as int], i as int));
                return false;
            }
            i += 1;
        }
        true
    }

    /// The view of the graph of `uv`'s definition, read under `uv`'s
    /// arguments. `Ok(None)` where the definition has no graph, `Err` where
    /// building its graph failed.
    pub fn new(ctx: &'a ConstContext, uv: &'a Unevaluated) -> (r: Result<
        Option<AbstractConst<'a>>,
        ErrorReported,
    >)
        requires
            ctx.wf(),
        ensures
            r matches Ok(Some(ct)) ==> ct@.wf(),
            AbstractConstView::new(ctx.table(), uv@) == (match r {
                Ok(Some(ct)) => Ok(Some(ct@)),
                Ok(None) => Ok(None),
                Err(e) => Err(e),
            }),
    {
        match ctx.mir_abstract_const(uv.def) {
            Err(_) => Err(ErrorReported),
            Ok(None) => Ok(None),
            Ok(Some(inner)) => Ok(Some(AbstractConst { inner, substs: &uv.substs })),
        }
    }

    /// The view that the constant `ct` stands for.
    pub fn from_const(ctx: &'a ConstContext, ct: &'a Const) -> (r: Result<
        Option<AbstractConst<'a>>,
        ErrorReported,
    >)
        requires
            ctx.wf(),
        ensures
            r matches Ok(Some(v)) ==> v@.wf(),
            AbstractConstView::from_const(ctx.table(), ct@) == (match r {
                Ok(Some(v)) => Ok(Some(v@)),
                Ok(None) => Ok(None),
                Err(e) => Err(e),
            }),
    {
        match &ct.val {
            ConstKind::Unevaluated(uv) => AbstractConst::new(ctx, uv),
            ConstKind::Error => Err(ErrorReported),
            _ => Ok(None),
        }
    }

    /// The view rooted at `node`.
    pub fn subtree(self, node: NodeId) -> (r: AbstractConst<'a>)
        requires
            self@.wf(),
            node < self@.inner.len(),
        ensures
            r@ == self@.subtree(node as int),
            r@.wf(),
            r.substs == self.substs,
    {
        let len = self.inner.len();
        let r = AbstractConst { inner: slice_subrange(self.inner, 0, node + 1), substs: self.substs };
        proof {
            assert(r@.inner =~= self@.inner.subrange(0, node + 1));
            lemma_subtree_wf(self@, node as int);
        }
        r
    }

    /// The node at the root of the view.
    pub fn root(self) -> (r: &'a Node)
        requires
            self@.wf(),
        ensures
            r@ == self@.root(),
    {
        &self.inner[self.inner.len() - 1]
    }
}

} // verus!
