//! Why every node of a graph that was built is in use.
//!
//! The builder marks a node as used when a later node takes it as an operand
//! or when an accepted assertion tests the local that holds it, and it
//! refuses a body that leaves a node unused. So every node of a built graph
//! is the root, an operand of a later node, or was kept by an assertion; and
//! a graph in which no node was kept by an assertion alone can be reached
//! from its root in full.
use crate::abstract_const::{graph_wf, operands, operands_below, NodeId, NodeView};
use crate::builder::{
    build_outcome, initial_state, mark_used, work_nodes_wf, BuilderView, WorkNodeView,
};
use crate::mir::{
    BasicBlock, BinOp, Body, ConstantKind, Local, Operand, Place, Rvalue, Span, Statement,
    StatementKind, Terminator, TerminatorKind, START_BLOCK,
};
use vstd::prelude::*;

verus! {

/// Node `i` can be reached from the root, the last node, along the edges
/// from a node to its operands.
pub open spec fn reachable(g: Seq<NodeView>, i: int) -> bool
    decreases g.len() - i,
{
    0 <= i < g.len() && (i == g.len() - 1 || exists|j: int|
        i < j < g.len() && operands(#[trigger] g[j]).contains(i as usize) && reachable(g, j))
}

/// Some later node of the graph takes node `i` as an operand.
pub open spec fn is_operand_of_later(g: Seq<NodeView>, i: int) -> bool {
    exists|j: int| i < j < g.len() && operands(#[trigger] g[j]).contains(i as usize)
}

/// Some later node takes node `i` as an operand.
pub open spec fn has_user(nodes: Seq<WorkNodeView>, i: int) -> bool {
    exists|j: int| i < j < nodes.len() && operands((#[trigger] nodes[j]).node).contains(i as usize)
}

/// The nodes `t` come from the nodes `s` by steps of the builder: the nodes
/// of `s` are still there, and whatever is newly marked as used has a later
/// node that uses it or is one of `kept`.
pub open spec fn extends(s: Seq<WorkNodeView>, t: Seq<WorkNodeView>, kept: Set<NodeId>) -> bool {
    &&& s.len() <= t.len()
    &&& forall|i: int| 0 <= i < s.len() ==> (#[trigger] t[i]).node == s[i].node
    &&& work_nodes_wf(s) ==> work_nodes_wf(t)
    &&& forall|i: int|
        0 <= i < t.len() && (#[trigger] t[i]).used ==> (i < s.len() && s[i].used) || has_user(t, i)
            || kept.contains(i as usize)
}

proof fn lemma_has_user_stays(s: Seq<WorkNodeView>, t: Seq<WorkNodeView>, i: int)
    requires
        0 <= i,
        s.len() <= t.len(),
        forall|k: int| 0 <= k < s.len() ==> (#[trigger] t[k]).node == s[k].node,
        has_user(s, i),
    ensures
        has_user(t, i),
{
    let j = choose|j: int| i < j < s.len() && operands((#[trigger] s[j]).node).contains(i as usize);
    assert(t[j].node == s[j].node);
}

proof fn lemma_extends_trans(
    s: Seq<WorkNodeView>,
    t: Seq<WorkNodeView>,
    u: Seq<WorkNodeView>,
    a: Set<NodeId>,
    b: Set<NodeId>,
)
    requires
        extends(s, t, a),
        extends(t, u, b),
    ensures
        extends(s, u, a.union(b)),
{
    assert forall|i: int| 0 <= i < s.len() implies (#[trigger] u[i]).node == s[i].node by {
        assert(t[i].node == s[i].node);
    }
    assert forall|i: int| 0 <= i < u.len() && (#[trigger] u[i]).used implies (i < s.len()
        && s[i].used) || has_user(u, i) || a.union(b).contains(i as usize) by {
        if i < t.len() && t[i].used {
            if has_user(t, i) {
                lemma_has_user_stays(t, u, i);
            }
        }
    }
}

proof fn lemma_add_node(s: BuilderView, node: NodeView, span: Span)
    requires
        operands_below(node, s.nodes.len() as int),
    ensures
        extends(s.nodes, s.add_node(node, span).0.nodes, Set::empty()),
{
    let t = s.add_node(node, span).0.nodes;
    let n = s.nodes.len() as int;
    assert(t[n].node == node);
    assert forall|i: int| 0 <= i < t.len() && (#[trigger] t[i]).used implies (i < s.nodes.len()
        && s.nodes[i].used) || has_user(t, i) by {
        if !s.nodes[i].used {
            assert(operands(t[n].node).contains(i as usize));
        }
    }
    if work_nodes_wf(s.nodes) {
        assert forall|i: int| 0 <= i < t.len() implies operands_below((#[trigger] t[i]).node, i) by {
            if i < n {
                assert(t[i].node == s.nodes[i].node);
            }
        }
    }
}

proof fn lemma_operand_to_node(s: BuilderView, span: Span, op: Operand)
    ensures
        extends(s.nodes, s.operand_to_node(span, op).0.nodes, Set::empty()),
        s.operand_to_node(span, op).0.locals == s.locals,
        s.operand_to_node(span, op).0.checked_op_locals == s.checked_op_locals,
{
    match op {
        Operand::Constant(ConstantKind::Ty(ct)) => {
            assert(operands(NodeView::Leaf(ct@)) =~= Seq::empty());
            lemma_add_node(s, NodeView::Leaf(ct@), span);
        },
        _ => {},
    }
}

proof fn lemma_operands_to_nodes(s: BuilderView, span: Span, ops: Seq<Operand>)
    ensures
        extends(s.nodes, s.operands_to_nodes(span, ops).0.nodes, Set::empty()),
        s.operands_to_nodes(span, ops).0.locals == s.locals,
        s.operands_to_nodes(span, ops).0.checked_op_locals == s.checked_op_locals,
    decreases ops.len(),
{
    if ops.len() > 0 {
        lemma_operands_to_nodes(s, span, ops.drop_last());
        let (m, r) = s.operands_to_nodes(span, ops.drop_last());
        if r is Ok {
            lemma_operand_to_node(m, span, ops.last());
            lemma_two(s.nodes, m.nodes, m.operand_to_node(span, ops.last()).0.nodes);
        }
    }
}

proof fn lemma_assign_node(s: BuilderView, span: Span, local: Local, node: NodeView)
    ensures
        extends(s.nodes, s.assign_node(span, local, node).0.nodes, Set::empty()),
{
    if operands_below(node, s.nodes.len() as int) {
        lemma_add_node(s, node, span);
    }
}

proof fn lemma_two(s: Seq<WorkNodeView>, m: Seq<WorkNodeView>, t: Seq<WorkNodeView>)
    requires
        extends(s, m, Set::empty()),
        extends(m, t, Set::empty()),
    ensures
        extends(s, t, Set::empty()),
{
    lemma_extends_trans(s, m, t, Set::empty(), Set::empty());
    assert(Set::<NodeId>::empty().union(Set::empty()) =~= Set::empty());
}

proof fn lemma_binary(
    s: BuilderView,
    span: Span,
    local: Local,
    op: BinOp,
    lhs: Operand,
    rhs: Operand,
    checked: bool,
)
    ensures
        extends(s.nodes, s.binary(span, local, op, lhs, rhs, checked).0.nodes, Set::empty()),
{
    lemma_operand_to_node(s, span, lhs);
    let (s1, l) = s.operand_to_node(span, lhs);
    if let Ok(l) = l {
        lemma_operand_to_node(s1, span, rhs);
        let (s2, r) = s1.operand_to_node(span, rhs);
        lemma_two(s.nodes, s1.nodes, s2.nodes);
        if let Ok(r) = r {
            lemma_assign_node(s2, span, local, NodeView::Binop(op, l, r));
            let (s3, _) = s2.assign_node(span, local, NodeView::Binop(op, l, r));
            lemma_two(s.nodes, s2.nodes, s3.nodes);
        }
    }
}

proof fn lemma_unary(
    s: BuilderView,
    span: Span,
    local: Local,
    operand: Operand,
    node: spec_fn(NodeId) -> NodeView,
)
    ensures
        extends(s.nodes, s.unary(span, local, operand, node).0.nodes, Set::empty()),
{
    lemma_operand_to_node(s, span, operand);
    let (s1, v) = s.operand_to_node(span, operand);
    if let Ok(v) = v {
        lemma_assign_node(s1, span, local, node(v));
        lemma_two(s.nodes, s1.nodes, s1.assign_node(span, local, node(v)).0.nodes);
    }
}

proof fn lemma_assign(s: BuilderView, span: Span, local: Local, rvalue: Rvalue)
    ensures
        extends(s.nodes, s.assign(span, local, rvalue).0.nodes, Set::empty()),
{
    match rvalue {
        Rvalue::Use(operand) => {
            lemma_operand_to_node(s, span, operand);
        },
        Rvalue::BinaryOp(op, lhs, rhs) => {
            lemma_binary(s, span, local, op, lhs, rhs, false);
        },
        Rvalue::CheckedBinaryOp(op, lhs, rhs) => {
            lemma_binary(s, span, local, op, lhs, rhs, true);
        },
        Rvalue::UnaryOp(op, operand) => {
            lemma_unary(s, span, local, operand, |v: NodeId| NodeView::UnaryOp(op, v));
        },
        Rvalue::Cast(kind, operand, ty) => {
            lemma_unary(s, span, local, operand, |v: NodeId| NodeView::Cast(kind, v, ty));
        },
        _ => {},
    }
}

proof fn lemma_statement(s: BuilderView, stmt: Statement)
    ensures
        extends(s.nodes, s.statement(stmt).0.nodes, Set::empty()),
{
    match stmt.kind {
        StatementKind::Assign(place, rvalue) => {
            match s.place_to_local(stmt.span, place) {
                Ok(local) => {
                    lemma_assign(s, stmt.span, local, rvalue);
                },
                Err(_) => {},
            }
        },
        _ => {},
    }
}

proof fn lemma_statements(s: BuilderView, stmts: Seq<Statement>)
    ensures
        extends(s.nodes, s.statements(stmts).0.nodes, Set::empty()),
    decreases stmts.len(),
{
    if stmts.len() > 0 {
        lemma_statements(s, stmts.drop_last());
        let (m, r) = s.statements(stmts.drop_last());
        if r is Ok {
            lemma_statement(m, stmts.last());
            lemma_two(s.nodes, m.nodes, m.statement(stmts.last()).0.nodes);
        }
    }
}

/// The node that an accepted assertion on a bare local keeps, if the
/// terminator is such an assertion.
pub open spec fn kept_by(s: BuilderView, term: Terminator) -> Set<NodeId> {
    match term.kind {
        TerminatorKind::Assert { cond, expected, target, cleanup } => match cond {
            Operand::Copy(p) | Operand::Move(p) => if !expected && p.spec_as_local() is Some
                && p.local < s.locals.len() {
                set![s.locals[p.local as int]]
            } else {
                Set::empty()
            },
            Operand::Constant(_) => Set::empty(),
        },
        _ => Set::empty(),
    }
}

proof fn lemma_call(
    s: BuilderView,
    span: Span,
    fn_span: Span,
    func: Operand,
    args: Seq<Operand>,
    place: Place,
)
    ensures
        extends(s.nodes, s.call(span, fn_span, func, args, place).0.nodes, Set::empty()),
{
    if let Ok(local) = s.place_to_local(fn_span, place) {
        lemma_operand_to_node(s, fn_span, func);
        let (s1, f) = s.operand_to_node(fn_span, func);
        if let Ok(f) = f {
            lemma_operands_to_nodes(s1, span, args);
            let (s2, ids) = s1.operands_to_nodes(span, args);
            lemma_two(s.nodes, s1.nodes, s2.nodes);
            if let Ok(ids) = ids {
                lemma_assign_node(s2, fn_span, local, NodeView::FunctionCall(f, ids));
                let (s3, _) = s2.assign_node(fn_span, local, NodeView::FunctionCall(f, ids));
                lemma_two(s.nodes, s2.nodes, s3.nodes);
            }
        }
    }
}

proof fn lemma_terminator(s: BuilderView, term: Terminator)
    ensures
        extends(s.nodes, s.terminator(term).0.nodes, kept_by(s, term)),
{
    match term.kind {
        TerminatorKind::Call { func, args, destination, cleanup, from_hir_call, fn_span } => {
            if from_hir_call && destination is Some && cleanup is None {
                lemma_call(s, term.span, fn_span, func, args@, destination->Some_0.0);
            }
        },
        TerminatorKind::Assert { cond, expected, target, cleanup } => {
            match cond {
                Operand::Copy(p) | Operand::Move(p) => {
                    if !expected {
                        let (t, r) = s.assertion(term.span, p);
                        if r is Ok && p.spec_as_local() is Some {
                            let id = s.locals[p.local as int];
                            assert(t.nodes == mark_used(s.nodes, seq![id]));
                            assert forall|i: int|
                                0 <= i < t.nodes.len() && (#[trigger] t.nodes[i]).used
                                    && !s.nodes[i].used implies kept_by(s, term).contains(
                                i as usize,
                            ) by {
                                assert(seq![id].contains(i as usize));
                                assert(seq![id][0] == id);
                            }
                        }
                    }
                },
                _ => {},
            }
        },
        _ => {},
    }
}

/// The nodes that accepted assertions on bare locals keep along the path
/// that starts at `block`.
pub open spec fn kept_on_walk(s: BuilderView, body: &Body, block: BasicBlock, fuel: nat) -> Set<
    NodeId,
>
    decreases fuel,
{
    if block >= body.basic_blocks@.len() || fuel == 0 {
        Set::empty()
    } else {
        let data = body.basic_blocks@[block as int];
        let (m, done) = s.statements(data.statements@);
        match done {
            Err(_) => Set::empty(),
            Ok(_) => {
                let (t, r) = m.terminator(data.terminator);
                match r {
                    Ok(Some(next)) => kept_by(m, data.terminator).union(
                        kept_on_walk(t, body, next, (fuel - 1) as nat),
                    ),
                    _ => kept_by(m, data.terminator),
                }
            },
        }
    }
}

/// The nodes of the graph of `body` that accepted assertions on bare locals
/// keep.
pub open spec fn kept_by_assertions(body: &Body) -> Set<NodeId> {
    kept_on_walk(initial_state(body), body, START_BLOCK, body.basic_blocks@.len())
}

proof fn lemma_walk(s: BuilderView, body: &Body, block: BasicBlock, fuel: nat)
    ensures
        extends(s.nodes, s.walk(body, block, fuel).0.nodes, kept_on_walk(s, body, block, fuel)),
    decreases fuel,
{
    reveal(BuilderView::block);
    if block < body.basic_blocks@.len() && fuel > 0 {
        let data = body.basic_blocks@[block as int];
        lemma_statements(s, data.statements@);
        let (m, done) = s.statements(data.statements@);
        if done is Ok {
            lemma_terminator(m, data.terminator);
            let (t, r) = m.terminator(data.terminator);
            let kept = kept_by(m, data.terminator);
            lemma_extends_trans(s.nodes, m.nodes, t.nodes, Set::empty(), kept);
            assert(Set::<NodeId>::empty().union(kept) =~= kept);
            if let Ok(Some(next)) = r {
                lemma_walk(t, body, next, (fuel - 1) as nat);
                lemma_extends_trans(
                    s.nodes,
                    t.nodes,
                    t.walk(body, next, (fuel - 1) as nat).0.nodes,
                    kept,
                    kept_on_walk(t, body, next, (fuel - 1) as nat),
                );
            }
        }
    }
}

/// In a graph that was built, each node refers to earlier nodes only, and
/// each node is the root, an operand of a later node, or was kept by an
/// assertion.
pub proof fn lemma_every_node_in_use(body: &Body)
    ensures
        build_outcome(body) matches Ok(Some(g)) ==> {
            &&& g.len() > 0
            &&& graph_wf(g)
            &&& forall|i: int|
                0 <= i < g.len() - 1 ==> #[trigger] is_operand_of_later(g, i)
                    || kept_by_assertions(body).contains(i as usize)
        },
{
    let s = initial_state(body);
    let fuel = body.basic_blocks@.len();
    lemma_walk(s, body, START_BLOCK, fuel);
    match build_outcome(body) {
        Ok(Some(g)) => {
            let t = s.walk(body, START_BLOCK, fuel).0;
            let root = t.locals[0];
            let done = mark_used(t.nodes, seq![root]);
            let kept = kept_by_assertions(body);
            assert(work_nodes_wf(s.nodes));
            assert(!exists|i: int|
                (BuilderView { nodes: done, ..t }).first_unused(i));
            assert forall|i: int| 0 <= i < g.len() implies operands_below(#[trigger] g[i], i) by {
                assert(g[i] == done[i].node);
                assert(done[i].node == t.nodes[i].node);
            }
            assert forall|i: int| 0 <= i < g.len() - 1 implies #[trigger] is_operand_of_later(g, i)
                || kept.contains(i as usize) by {
                if !done[i].used {
                    lemma_first_unused(BuilderView { nodes: done, ..t }, i);
                }
                assert(done[i].used);
                assert(seq![root][0] == root);
                assert(!seq![root].contains(i as usize));
                assert(t.nodes[i].used);
                if has_user(t.nodes, i) {
                    let j = choose|j: int|
                        i < j < t.nodes.len() && operands((#[trigger] t.nodes[j]).node).contains(
                            i as usize,
                        );
                    assert(g[j] == done[j].node);
                }
            }
        },
        _ => {},
    }
}

/// Where some node is unused, some node is the first unused one.
proof fn lemma_first_unused(s: BuilderView, i: int)
    requires
        0 <= i < s.nodes.len(),
        !s.nodes[i].used,
    ensures
        exists|k: int| s.first_unused(k),
    decreases i,
{
    if exists|j: int| 0 <= j < i && !(#[trigger] s.nodes[j]).used {
        let j = choose|j: int| 0 <= j < i && !(#[trigger] s.nodes[j]).used;
        lemma_first_unused(s, j);
    } else {
        assert(s.first_unused(i));
    }
}

/// Every node of a graph that was built can be reached from the root,
/// provided that each node that an assertion kept can.
pub proof fn lemma_every_node_reachable(body: &Body, i: int)
    requires
        build_outcome(body) matches Ok(Some(g)) && 0 <= i < g.len(),
        forall|k: int|
            kept_by_assertions(body).contains(k as usize) && 0 <= k < build_outcome(
                body,
            )->Ok_0->Some_0.len() ==> reachable(build_outcome(body)->Ok_0->Some_0, k),
    ensures
        reachable(build_outcome(body)->Ok_0->Some_0, i),
    decreases build_outcome(body)->Ok_0->Some_0.len() - i,
{
    let g = build_outcome(body)->Ok_0->Some_0;
    lemma_every_node_in_use(body);
    if i < g.len() - 1 && !kept_by_assertions(body).contains(i as usize) {
        assert(is_operand_of_later(g, i));
        let j = choose|j: int| i < j < g.len() && operands(#[trigger] g[j]).contains(i as usize);
        lemma_every_node_reachable(body, j);
    }
}

/// Every node of a graph that was built can be reached from the root when
/// no assertion on a bare local was met on the way.
pub proof fn lemma_every_node_reachable_without_assertions(body: &Body, i: int)
    requires
        build_outcome(body) matches Ok(Some(g)) && 0 <= i < g.len(),
        kept_by_assertions(body) == Set::<NodeId>::empty(),
    ensures
        reachable(build_outcome(body)->Ok_0->Some_0, i),
{
    lemma_every_node_reachable(body, i);
}

} // verus!
