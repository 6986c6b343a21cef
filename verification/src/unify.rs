//! Structural equality of two views, each read under its own substitution.
//!
//! The comparison is syntactic: it looks through uses of constant
//! definitions, and otherwise asks for the same operator over operands that
//! unify, position by position. It rewrites nothing.
use crate::abstract_const::{
    lemma_root_operands, lemma_subtree_wf, operands, AbstractConst, AbstractConstView,
    ErrorReported, Node, NodeId, NodeView,
};
use crate::context::{table_wf, ConstContext, GraphTable};
use crate::mir::BinOp;
use crate::ty::{
    subst_const, unevaluated_eq, ConstKind, ConstKindView, ConstView, Ty, Unevaluated,
    UnevaluatedView,
};
use vstd::prelude::*;

verus! {

/// Whether two leaf constants unify, each after its substitution: never with
/// different types; an error constant with anything; otherwise only two of
/// the same kind, and then the same parameter, the same value, the same
/// inference placeholder, or the same use of a definition.
pub open spec fn leaves_unify(x: ConstView, y: ConstView) -> bool {
    if x.ty != y.ty {
        false
    } else if x.val is Error || y.val is Error {
        true
    } else {
        match (x.val, y.val) {
            (ConstKindView::Param(p), ConstKindView::Param(q)) => p == q,
            (ConstKindView::Value(v), ConstKindView::Value(w)) => v == w,
            (ConstKindView::Infer(i), ConstKindView::Infer(j)) => i == j,
            (ConstKindView::Unevaluated(u), ConstKindView::Unevaluated(w)) => u == w,
            _ => false,
        }
    }
}

/// What the root of `v` expands to. Only a root leaf that is, after the
/// substitution, a use of a definition expands: to the view of the
/// definition's graph, to nothing where the definition has no graph, or to
/// an error where building its graph failed. Every other root, the error
/// constant included, expands to nothing and is left to the comparison of
/// the roots.
pub open spec fn root_expansion(table: GraphTable, v: AbstractConstView) -> Result<
    Option<AbstractConstView>,
    ErrorReported,
> {
    if v.inner.len() > 0 && v.root() is Leaf {
        match subst_const(v.root()->Leaf_0, v.substs).val {
            ConstKindView::Unevaluated(uv) => AbstractConstView::new(table, uv),
            _ => Ok(None),
        }
    } else {
        Ok(None)
    }
}

/// Whether the views `a` and `b` unify, when at most `da` uses of
/// definitions may be looked through on the side of `a`, one inside the
/// other, and at most `db` on the side of `b`.
///
/// First `a` is replaced by what its root leaf stands for, as long as it
/// stands for a view and `da` allows; then `b` likewise; then the roots are
/// compared. A use of a definition whose graph failed to build makes the
/// views unify, so that the failure, which was reported, is not reported
/// again. Where `da` or `db` runs out, the use that would be looked through
/// next is compared as it stands: it then unifies only with the same use of
/// the same definition.
pub open spec fn unify(
    table: GraphTable,
    a: AbstractConstView,
    b: AbstractConstView,
    da: nat,
    db: nat,
) -> bool
    decreases da, db, a.inner.len(), 3nat,
{
    match root_expansion(table, a) {
        Err(_) => true,
        Ok(Some(w)) => if da > 0 {
            unify(table, w, b, (da - 1) as nat, db)
        } else {
            unify_right(table, a, b, da, db)
        },
        Ok(None) => unify_right(table, a, b, da, db),
    }
}

/// [`unify`] once the side of `a` is expanded.
pub open spec fn unify_right(
    table: GraphTable,
    a: AbstractConstView,
    b: AbstractConstView,
    da: nat,
    db: nat,
) -> bool
    decreases da, db, a.inner.len(), 2nat,
{
    match root_expansion(table, b) {
        Err(_) => true,
        Ok(Some(w)) => if db > 0 {
            unify_right(table, a, w, da, (db - 1) as nat)
        } else {
            unify_roots(table, a, b, da, db)
        },
        Ok(None) => unify_roots(table, a, b, da, db),
    }
}

/// [`unify`] once both sides are expanded: the roots must be of the same
/// kind, with the same operator, cast kind and target type, and with operands
/// that unify position by position.
pub open spec fn unify_roots(
    table: GraphTable,
    a: AbstractConstView,
    b: AbstractConstView,
    da: nat,
    db: nat,
) -> bool
    decreases da, db, a.inner.len(), 1nat,
{
    if a.inner.len() == 0 || b.inner.len() == 0 {
        false
    } else {
        match (a.root(), b.root()) {
            (NodeView::Leaf(x), NodeView::Leaf(y)) => leaves_unify(
                subst_const(x, a.substs),
                subst_const(y, b.substs),
            ),
            (NodeView::Binop(a_op, al, ar), NodeView::Binop(b_op, bl, br)) => {
                &&& a_op == b_op
                &&& unify_at(table, a, b, al, bl, da, db)
                &&& unify_at(table, a, b, ar, br, da, db)
            },
            (NodeView::UnaryOp(a_op, av), NodeView::UnaryOp(b_op, bv)) => {
                &&& a_op == b_op
                &&& unify_at(table, a, b, av, bv, da, db)
            },
            (NodeView::FunctionCall(a_f, a_args), NodeView::FunctionCall(b_f, b_args)) => {
                &&& a_args.len() == b_args.len()
                &&& unify_at(table, a, b, a_f, b_f, da, db)
                &&& forall|k: int|
                    0 <= k < a_args.len() ==> unify_at(
                        table,
                        a,
                        b,
                        #[trigger] a_args[k],
                        b_args[k],
                        da,
                        db,
                    )
            },
            (NodeView::Cast(a_kind, a_operand, a_ty), NodeView::Cast(b_kind, b_operand, b_ty)) => {
                &&& a_ty == b_ty
                &&& a_kind == b_kind
                &&& unify_at(table, a, b, a_operand, b_operand, da, db)
            },
            _ => false,
        }
    }
}

/// Whether the view of `a` rooted at `x` and the view of `b` rooted at `y`
/// unify; `x` and `y` are operands of the roots.
pub open spec fn unify_at(
    table: GraphTable,
    a: AbstractConstView,
    b: AbstractConstView,
    x: NodeId,
    y: NodeId,
    da: nat,
    db: nat,
) -> bool
    decreases da, db, a.inner.len(), 0nat,
{
    if x < a.inner.len() - 1 && y < b.inner.len() - 1 {
        unify(table, a.subtree(x as int), b.subtree(y as int), da, db)
    } else {
        false
    }
}

/// Whether two uses of definitions unify: both must have a graph, and the
/// views of the two graphs must unify. An error on the way makes them unify.
pub open spec fn unify_abstract_consts(
    table: GraphTable,
    limit: nat,
    a: UnevaluatedView,
    b: UnevaluatedView,
) -> bool {
    match AbstractConstView::new(table, a) {
        Err(_) => true,
        Ok(None) => false,
        Ok(Some(av)) => match AbstractConstView::new(table, b) {
            Err(_) => true,
            Ok(None) => false,
            Ok(Some(bv)) => unify(table, av, bv, limit, limit),
        },
    }
}

fn unify_leaves(a: AbstractConst<'_>, b: AbstractConst<'_>) -> (r: bool)
    requires
        a@.wf(),
        b@.wf(),
        a@.root() is Leaf,
        b@.root() is Leaf,
    ensures
        r == leaves_unify(
            subst_const(a@.root()->Leaf_0, a@.substs),
            subst_const(b@.root()->Leaf_0, b@.substs),
        ),
{
    match (a.root(), b.root()) {
        (Node::Leaf(a_ct), Node::Leaf(b_ct)) => {
            let a_ct = a_ct.subst(a.substs);
            let b_ct = b_ct.subst(b.substs);
            if a_ct.ty != b_ct.ty {
                return false;
            }
            match (&a_ct.val, &b_ct.val) {
                // An error unifies with everything, which keeps the number
                // of reported errors down.
                (ConstKind::Error, _) => true,
                (_, ConstKind::Error) => true,
                (ConstKind::Param(a_param), ConstKind::Param(b_param)) => *a_param == *b_param,
                (ConstKind::Value(a_val), ConstKind::Value(b_val)) => *a_val == *b_val,
                // Two inference placeholders unify only when they are the
                // same: otherwise comparing two independent unknowns would
                // make them equal.
                (ConstKind::Infer(a_val), ConstKind::Infer(b_val)) => *a_val == *b_val,
                // Generic constants written in place were expanded before,
                // so these are uses of other definitions, which are compared
                // as they stand.
                (ConstKind::Unevaluated(a_uv), ConstKind::Unevaluated(b_uv)) => unevaluated_eq(
                    a_uv,
                    b_uv,
                ),
                _ => false,
            }
        },
        _ => false,
    }
}

fn unify_roots_exec(
    ctx: &ConstContext,
    a: AbstractConst<'_>,
    b: AbstractConst<'_>,
    da: usize,
    db: usize,
) -> (r: bool)
    requires
        ctx.wf(),
        a@.wf(),
        b@.wf(),
    ensures
        r == unify_roots(ctx.table(), a@, b@, da as nat, db as nat),
    decreases da, db, a@.inner.len(), 1nat,
{
    let ghost table = ctx.table();
    match (a.root(), b.root()) {
        (Node::Leaf(_), Node::Leaf(_)) => unify_leaves(a, b),
        (Node::Binop(a_op, al, ar), Node::Binop(b_op, bl, br)) => {
            proof {
                lemma_root_operands(a@, 0);
                lemma_root_operands(a@, 1);
                lemma_root_operands(b@, 0);
                lemma_root_operands(b@, 1);
            }
            *a_op == *b_op && unify_left(ctx, a.subtree(*al), b.subtree(*bl), da, db) && unify_left(
                ctx,
                a.subtree(*ar),
                b.subtree(*br),
                da,
                db,
            )
        },
        (Node::UnaryOp(a_op, av), Node::UnaryOp(b_op, bv)) => {
            proof {
                lemma_root_operands(a@, 0);
                lemma_root_operands(b@, 0);
            }
            *a_op == *b_op && unify_left(ctx, a.subtree(*av), b.subtree(*bv), da, db)
        },
        (Node::FunctionCall(a_f, a_args), Node::FunctionCall(b_f, b_args)) => {
            if a_args.len() != b_args.len() {
                return false;
            }
            proof {
                lemma_root_operands(a@, 0);
                lemma_root_operands(b@, 0);
            }
            if !unify_left(ctx, a.subtree(*a_f), b.subtree(*b_f), da, db) {
                return false;
            }
            let mut k: usize = 0;
            while k < a_args.len()
                invariant
                    k <= a_args.len(),
                    a_args.len() == b_args.len(),
                    ctx.wf(),
                    table == ctx.table(),
                    a@.wf(),
                    b@.wf(),
                    a@.root() == NodeView::FunctionCall(*a_f, a_args@),
                    b@.root() == NodeView::FunctionCall(*b_f, b_args@),
                    forall|j: int|
                        0 <= j < k ==> unify_at(
                            table,
                            a@,
                            b@,
                            #[trigger] a_args@[j],
                            b_args@[j],
                            da as nat,
                            db as nat,
                        ),
                decreases a_args.len() - k,
            {
                proof {
                    lemma_root_operands(a@, k + 1);
                    lemma_root_operands(b@, k + 1);
                    assert(operands(a@.root())[k + 1] == a_args@[k as int]);
                    assert(operands(b@.root())[k + 1] == b_args@[k as int]);
                }
                if !unify_left(ctx, a.subtree(a_args[k]), b.subtree(b_args[k]), da, db) {
                    return false;
                }
                k += 1;
            }
            true
        },
        (Node::Cast(a_kind, a_operand, a_ty), Node::Cast(b_kind, b_operand, b_ty)) => {
            proof {
                lemma_root_operands(a@, 0);
                lemma_root_operands(b@, 0);
            }
            *a_ty == *b_ty && *a_kind == *b_kind && unify_left(
                ctx,
                a.subtree(*a_operand),
                b.subtree(*b_operand),
                da,
                db,
            )
        },
        _ => false,
    }
}

fn unify_right_exec(
    ctx: &ConstContext,
    a: AbstractConst<'_>,
    b: AbstractConst<'_>,
    da: usize,
    db: usize,
) -> (r: bool)
    requires
        ctx.wf(),
        a@.wf(),
        b@.wf(),
    ensures
        r == unify_right(ctx.table(), a@, b@, da as nat, db as nat),
    decreases da, db, a@.inner.len(), 2nat,
{
    if let Node::Leaf(b_ct) = b.root() {
        let b_ct = b_ct.subst(b.substs);
        if let ConstKind::Unevaluated(b_uv) = &b_ct.val {
            match AbstractConst::new(ctx, b_uv) {
                Ok(Some(b_act)) => {
                    if db > 0 {
                        return unify_right_exec(ctx, a, b_act, da, db - 1);
                    }
                },
                Ok(None) => {},
                Err(_) => {
                    return true;
                },
            }
        }
    }
    unify_roots_exec(ctx, a, b, da, db)
}

fn unify_left(
    ctx: &ConstContext,
    a: AbstractConst<'_>,
    b: AbstractConst<'_>,
    da: usize,
    db: usize,
) -> (r: bool)
    requires
        ctx.wf(),
        a@.wf(),
        b@.wf(),
    ensures
        r == unify(ctx.table(), a@, b@, da as nat, db as nat),
    decreases da, db, a@.inner.len(), 3nat,
{
    // Generics are substituted again and again: a parameter may stand for a
    // use of a definition whose graph is a parameter that stands for another.
    if let Node::Leaf(a_ct) = a.root() {
        let a_ct = a_ct.subst(a.substs);
        if let ConstKind::Unevaluated(a_uv) = &a_ct.val {
            match AbstractConst::new(ctx, a_uv) {
                Ok(Some(a_act)) => {
                    if da > 0 {
                        return unify_left(ctx, a_act, b, da - 1, db);
                    }
                },
                Ok(None) => {},
                Err(_) => {
                    return true;
                },
            }
        }
    }
    unify_right_exec(ctx, a, b, da, db)
}

/// Tries to unify two views by structural equality. Each side may look
/// through as many uses of definitions, one inside the other, as the
/// context's recursion limit allows.
pub fn try_unify(ctx: &ConstContext, a: AbstractConst<'_>, b: AbstractConst<'_>) -> (r: bool)
    requires
        ctx.wf(),
        a@.wf(),
        b@.wf(),
    ensures
        r == unify(
            ctx.table(),
            a@,
            b@,
            ctx.recursion_limit() as nat,
            ctx.recursion_limit() as nat,
        ),
{
    unify_left(ctx, a, b, ctx.recursion_limit(), ctx.recursion_limit())
}

/// Tries to unify two uses of constant definitions. Where building a graph
/// failed the two count as unified.
pub fn try_unify_abstract_consts(ctx: &ConstContext, pair: (&Unevaluated, &Unevaluated)) -> (r:
    bool)
    requires
        ctx.wf(),
    ensures
        r == unify_abstract_consts(
            ctx.table(),
            ctx.recursion_limit() as nat,
            pair.0@,
            pair.1@,
        ),
{
    let (a, b) = pair;
    match AbstractConst::new(ctx, a) {
        Err(_) => true,
        Ok(None) => false,
        Ok(Some(a)) => match AbstractConst::new(ctx, b) {
            Err(_) => true,
            Ok(None) => false,
            Ok(Some(b)) => try_unify(ctx, a, b),
        },
    }
}

/// The view that `v` ends up as when its root leaf is replaced by what it
/// stands for, as long as it stands for a view and `depth` allows, together
/// with what is left of `depth`; `None` where an error is met on the way.
pub open spec fn expand(table: GraphTable, v: AbstractConstView, depth: nat) -> Option<
    (AbstractConstView, nat),
>
    decreases depth,
{
    match root_expansion(table, v) {
        Err(_) => None,
        Ok(Some(w)) => if depth > 0 {
            expand(table, w, (depth - 1) as nat)
        } else {
            Some((v, depth))
        },
        Ok(None) => Some((v, depth)),
    }
}

/// Expanding uses no more depth than there is, changes nothing where it uses
/// none, and leads from a well-formed view to a well-formed view.
pub proof fn lemma_expand(table: GraphTable, v: AbstractConstView, depth: nat)
    requires
        table_wf(table),
        v.wf(),
    ensures
        expand(table, v, depth) matches Some((w, left)) ==> {
            &&& left <= depth
            &&& w.wf()
            &&& left == depth ==> w == v
        },
    decreases depth,
{
    match root_expansion(table, v) {
        Ok(Some(w)) => {
            if depth > 0 {
                let uv = subst_const(v.root()->Leaf_0, v.substs).val->Unevaluated_0;
                assert(table[uv.def.index as int] is Ok);
                lemma_expand(table, w, (depth - 1) as nat);
            }
        },
        _ => {},
    }
}

/// Two views unify when expanding either meets an error, and otherwise when
/// the roots of the two expanded views unify.
pub proof fn lemma_unify_expands(
    table: GraphTable,
    a: AbstractConstView,
    b: AbstractConstView,
    da: nat,
    db: nat,
)
    ensures
        unify(table, a, b, da, db) == (match expand(table, a, da) {
            None => true,
            Some((a2, da2)) => match expand(table, b, db) {
                None => true,
                Some((b2, db2)) => unify_roots(table, a2, b2, da2, db2),
            },
        }),
    decreases da, db,
{
    match root_expansion(table, a) {
        Ok(Some(w)) => {
            if da > 0 {
                lemma_unify_expands(table, w, b, (da - 1) as nat, db);
            } else {
                lemma_unify_right_expands(table, a, b, da, db);
            }
        },
        Ok(None) => {
            lemma_unify_right_expands(table, a, b, da, db);
        },
        Err(_) => {},
    }
}

proof fn lemma_unify_right_expands(
    table: GraphTable,
    a: AbstractConstView,
    b: AbstractConstView,
    da: nat,
    db: nat,
)
    ensures
        unify_right(table, a, b, da, db) == (match expand(table, b, db) {
            None => true,
            Some((b2, db2)) => unify_roots(table, a, b2, da, db2),
        }),
    decreases db,
{
    match root_expansion(table, b) {
        Ok(Some(w)) => {
            if db > 0 {
                lemma_unify_right_expands(table, a, w, da, (db - 1) as nat);
            }
        },
        _ => {},
    }
}

/// Every leaf constant unifies with itself.
pub proof fn lemma_leaves_unify_reflexive(x: ConstView)
    ensures
        leaves_unify(x, x),
{
}

/// Every well-formed view unifies with itself under the same substitution,
/// whatever the substitution holds.
pub proof fn lemma_unify_reflexive(table: GraphTable, a: AbstractConstView, depth: nat)
    requires
        table_wf(table),
        a.wf(),
    ensures
        unify(table, a, a, depth, depth),
    decreases depth, a.inner.len(),
{
    lemma_unify_expands(table, a, a, depth, depth);
    lemma_expand(table, a, depth);
    match expand(table, a, depth) {
        None => {},
        Some((w, left)) => {
            assert forall|k: int| 0 <= k < operands(w.root()).len() implies unify_at(
                table,
                w,
                w,
                #[trigger] operands(w.root())[k],
                operands(w.root())[k],
                left,
                left,
            ) by {
                lemma_root_operands(w, k);
                lemma_subtree_wf(w, operands(w.root())[k] as int);
                lemma_unify_reflexive(table, w.subtree(operands(w.root())[k] as int), left);
            }
            match w.root() {
                NodeView::Leaf(x) => {
                    lemma_leaves_unify_reflexive(subst_const(x, w.substs));
                },
                NodeView::Binop(_, l, r) => {
                    assert(operands(w.root())[0] == l && operands(w.root())[1] == r);
                },
                NodeView::UnaryOp(_, v) => {
                    assert(operands(w.root())[0] == v);
                },
                NodeView::FunctionCall(f, args) => {
                    assert(operands(w.root())[0] == f);
                    assert forall|k: int| 0 <= k < args.len() implies unify_at(
                        table,
                        w,
                        w,
                        #[trigger] args[k],
                        args[k],
                        left,
                        left,
                    ) by {
                        assert(operands(w.root())[k + 1] == args[k]);
                    }
                },
                NodeView::Cast(_, v, _) => {
                    assert(operands(w.root())[0] == v);
                },
            }
        },
    }
}

/// The sum of a parameter and a value does not unify with the sum of the
/// value and the parameter, although the two evaluate alike: operands are
/// compared position by position, and nothing is rewritten.
pub proof fn lemma_operands_are_not_exchanged(
    table: GraphTable,
    ty: Ty,
    param: usize,
    value: u128,
    da: nat,
    db: nat,
)
    ensures
        !unify(
            table,
            AbstractConstView {
                inner: seq![
                    NodeView::Leaf(ConstView { ty, val: ConstKindView::Param(param) }),
                    NodeView::Leaf(ConstView { ty, val: ConstKindView::Value(value) }),
                    NodeView::Binop(BinOp::Add, 0, 1),
                ],
                substs: Seq::empty(),
            },
            AbstractConstView {
                inner: seq![
                    NodeView::Leaf(ConstView { ty, val: ConstKindView::Value(value) }),
                    NodeView::Leaf(ConstView { ty, val: ConstKindView::Param(param) }),
                    NodeView::Binop(BinOp::Add, 0, 1),
                ],
                substs: Seq::empty(),
            },
            da,
            db,
        ),
{
    let n = ConstView { ty, val: ConstKindView::Param(param) };
    let one = ConstView { ty, val: ConstKindView::Value(value) };
    let a = AbstractConstView {
        inner: seq![NodeView::Leaf(n), NodeView::Leaf(one), NodeView::Binop(BinOp::Add, 0, 1)],
        substs: Seq::empty(),
    };
    let b = AbstractConstView {
        inner: seq![NodeView::Leaf(one), NodeView::Leaf(n), NodeView::Binop(BinOp::Add, 0, 1)],
        substs: Seq::empty(),
    };
    assert(a.root() == NodeView::Binop(BinOp::Add, 0, 1));
    assert(b.root() == NodeView::Binop(BinOp::Add, 0, 1));
    assert(unify(table, a, b, da, db) == unify_right(table, a, b, da, db));
    assert(unify_right(table, a, b, da, db) == unify_roots(table, a, b, da, db));
    let al = a.subtree(0);
    let bl = b.subtree(0);
    assert(al.inner =~= seq![NodeView::Leaf(n)]);
    assert(bl.inner =~= seq![NodeView::Leaf(one)]);
    assert(al.root() == NodeView::Leaf(n));
    assert(bl.root() == NodeView::Leaf(one));
    assert(subst_const(n, al.substs).val == n.val);
    assert(subst_const(one, bl.substs).val == one.val);
    assert(root_expansion(table, al) is Ok && root_expansion(table, al)->Ok_0 is None);
    assert(root_expansion(table, bl) is Ok && root_expansion(table, bl)->Ok_0 is None);
    assert(unify(table, al, bl, da, db) == unify_right(table, al, bl, da, db));
    assert(unify_right(table, al, bl, da, db) == unify_roots(table, al, bl, da, db));
    assert(!unify_roots(table, al, bl, da, db));
    assert(unify_at(table, a, b, 0, 0, da, db) == unify(table, al, bl, da, db));
}

/// The depth is enough for the comparison of `a` and `b`: wherever the
/// comparison meets a use of a definition that has a graph, on either side
/// and at any operand, it still has depth left to look through it.
pub open spec fn depth_suffices(
    table: GraphTable,
    a: AbstractConstView,
    b: AbstractConstView,
    da: nat,
    db: nat,
) -> bool
    decreases da, db, a.inner.len(), 3nat,
{
    match root_expansion(table, a) {
        Err(_) => true,
        Ok(Some(w)) => da > 0 && depth_suffices(table, w, b, (da - 1) as nat, db),
        Ok(None) => depth_suffices_right(table, a, b, da, db),
    }
}

/// [`depth_suffices`] once the side of `a` is expanded.
pub open spec fn depth_suffices_right(
    table: GraphTable,
    a: AbstractConstView,
    b: AbstractConstView,
    da: nat,
    db: nat,
) -> bool
    decreases da, db, a.inner.len(), 2nat,
{
    match root_expansion(table, b) {
        Err(_) => true,
        Ok(Some(w)) => db > 0 && depth_suffices_right(table, a, w, da, (db - 1) as nat),
        Ok(None) => depth_suffices_roots(table, a, b, da, db),
    }
}

/// [`depth_suffices`] once both sides are expanded: the depth is enough at
/// each pair of operands that the comparison may look at.
pub open spec fn depth_suffices_roots(
    table: GraphTable,
    a: AbstractConstView,
    b: AbstractConstView,
    da: nat,
    db: nat,
) -> bool
    decreases da, db, a.inner.len(), 1nat,
{
    if a.inner.len() == 0 || b.inner.len() == 0 {
        true
    } else {
        match (a.root(), b.root()) {
            (NodeView::Binop(_, al, ar), NodeView::Binop(_, bl, br)) => {
                &&& depth_suffices_at(table, a, b, al, bl, da, db)
                &&& depth_suffices_at(table, a, b, ar, br, da, db)
            },
            (NodeView::UnaryOp(_, av), NodeView::UnaryOp(_, bv)) => depth_suffices_at(
                table,
                a,
                b,
                av,
                bv,
                da,
                db,
            ),
            (NodeView::FunctionCall(a_f, a_args), NodeView::FunctionCall(b_f, b_args)) => {
                a_args.len() == b_args.len() ==> {
                    &&& depth_suffices_at(table, a, b, a_f, b_f, da, db)
                    &&& forall|k: int|
                        0 <= k < a_args.len() ==> depth_suffices_at(
                            table,
                            a,
                            b,
                            #[trigger] a_args[k],
                            b_args[k],
                            da,
                            db,
                        )
                }
            },
            (NodeView::Cast(_, a_operand, _), NodeView::Cast(_, b_operand, _)) => depth_suffices_at(
                table,
                a,
                b,
                a_operand,
                b_operand,
                da,
                db,
            ),
            _ => true,
        }
    }
}

/// [`depth_suffices`] for the views rooted at the operands `x` and `y`.
pub open spec fn depth_suffices_at(
    table: GraphTable,
    a: AbstractConstView,
    b: AbstractConstView,
    x: NodeId,
    y: NodeId,
    da: nat,
    db: nat,
) -> bool
    decreases da, db, a.inner.len(), 0nat,
{
    if x < a.inner.len() - 1 && y < b.inner.len() - 1 {
        depth_suffices(table, a.subtree(x as int), b.subtree(y as int), da, db)
    } else {
        true
    }
}

/// Where the depth is enough, more depth changes nothing: the result of the
/// comparison depends on the recursion limit only while the limit is
/// smaller than the nesting of the definitions that are compared.
pub proof fn lemma_more_depth_changes_nothing(
    table: GraphTable,
    a: AbstractConstView,
    b: AbstractConstView,
    da: nat,
    db: nat,
    more_a: nat,
    more_b: nat,
)
    requires
        depth_suffices(table, a, b, da, db),
    ensures
        unify(table, a, b, da + more_a, db + more_b) == unify(table, a, b, da, db),
    decreases da, db, a.inner.len(), 3nat,
{
    match root_expansion(table, a) {
        Err(_) => {},
        Ok(Some(w)) => {
            lemma_more_depth_changes_nothing(table, w, b, (da - 1) as nat, db, more_a, more_b);
            assert(((da - 1) as nat) + more_a == (da + more_a - 1) as nat);
        },
        Ok(None) => {
            lemma_more_depth_right(table, a, b, da, db, more_a, more_b);
        },
    }
}

proof fn lemma_more_depth_right(
    table: GraphTable,
    a: AbstractConstView,
    b: AbstractConstView,
    da: nat,
    db: nat,
    more_a: nat,
    more_b: nat,
)
    requires
        depth_suffices_right(table, a, b, da, db),
    ensures
        unify_right(table, a, b, da + more_a, db + more_b) == unify_right(table, a, b, da, db),
    decreases da, db, a.inner.len(), 2nat,
{
    match root_expansion(table, b) {
        Err(_) => {},
        Ok(Some(w)) => {
            lemma_more_depth_right(table, a, w, da, (db - 1) as nat, more_a, more_b);
            assert(((db - 1) as nat) + more_b == (db + more_b - 1) as nat);
        },
        Ok(None) => {
            lemma_more_depth_roots(table, a, b, da, db, more_a, more_b);
        },
    }
}

proof fn lemma_more_depth_roots(
    table: GraphTable,
    a: AbstractConstView,
    b: AbstractConstView,
    da: nat,
    db: nat,
    more_a: nat,
    more_b: nat,
)
    requires
        depth_suffices_roots(table, a, b, da, db),
    ensures
        unify_roots(table, a, b, da + more_a, db + more_b) == unify_roots(table, a, b, da, db),
    decreases da, db, a.inner.len(), 1nat,
{
    if a.inner.len() > 0 && b.inner.len() > 0 {
        match (a.root(), b.root()) {
            (NodeView::Binop(_, al, ar), NodeView::Binop(_, bl, br)) => {
                lemma_more_depth_at(table, a, b, al, bl, da, db, more_a, more_b);
                lemma_more_depth_at(table, a, b, ar, br, da, db, more_a, more_b);
            },
            (NodeView::UnaryOp(_, av), NodeView::UnaryOp(_, bv)) => {
                lemma_more_depth_at(table, a, b, av, bv, da, db, more_a, more_b);
            },
            (NodeView::FunctionCall(a_f, a_args), NodeView::FunctionCall(b_f, b_args)) => {
                if a_args.len() == b_args.len() {
                    lemma_more_depth_at(table, a, b, a_f, b_f, da, db, more_a, more_b);
                    assert forall|k: int| 0 <= k < a_args.len() implies unify_at(
                        table,
                        a,
                        b,
                        #[trigger] a_args[k],
                        b_args[k],
                        da + more_a,
                        db + more_b,
                    ) == unify_at(table, a, b, a_args[k], b_args[k], da, db) by {
                        lemma_more_depth_at(
                            table,
                            a,
                            b,
                            a_args[k],
                            b_args[k],
                            da,
                            db,
                            more_a,
                            more_b,
                        );
                    }
                }
            },
            (NodeView::Cast(_, a_operand, _), NodeView::Cast(_, b_operand, _)) => {
                lemma_more_depth_at(table, a, b, a_operand, b_operand, da, db, more_a, more_b);
            },
            _ => {},
        }
    }
}

proof fn lemma_more_depth_at(
    table: GraphTable,
    a: AbstractConstView,
    b: AbstractConstView,
    x: NodeId,
    y: NodeId,
    da: nat,
    db: nat,
    more_a: nat,
    more_b: nat,
)
    requires
        depth_suffices_at(table, a, b, x, y, da, db),
    ensures
        unify_at(table, a, b, x, y, da + more_a, db + more_b) == unify_at(table, a, b, x, y, da, db),
    decreases da, db, a.inner.len(), 0nat,
{
    if x < a.inner.len() - 1 && y < b.inner.len() - 1 {
        lemma_more_depth_changes_nothing(
            table,
            a.subtree(x as int),
            b.subtree(y as int),
            da,
            db,
            more_a,
            more_b,
        );
    }
}

/// Two views that both end in a leaf do not unify when the two leaves,
/// each after its substitution, are of different types, whatever the leaves
/// are otherwise; the error constant is no exception. A leaf that is a use
/// of a definition counts here when the table has no graph for it.
pub proof fn lemma_leaves_of_different_types_do_not_unify(
    table: GraphTable,
    a: AbstractConstView,
    b: AbstractConstView,
    da: nat,
    db: nat,
)
    requires
        a.inner.len() > 0,
        b.inner.len() > 0,
        a.root() is Leaf,
        b.root() is Leaf,
        root_expansion(table, a) is Ok && root_expansion(table, a)->Ok_0 is None,
        root_expansion(table, b) is Ok && root_expansion(table, b)->Ok_0 is None,
        subst_const(a.root()->Leaf_0, a.substs).ty != subst_const(b.root()->Leaf_0, b.substs).ty,
    ensures
        !unify(table, a, b, da, db),
{
    assert(unify(table, a, b, da, db) == unify_right(table, a, b, da, db));
    assert(unify_right(table, a, b, da, db) == unify_roots(table, a, b, da, db));
}

/// A view that ends in a leaf which is no use of a definition does not
/// unify with a view that ends in an operation; the error constant is no
/// exception.
pub proof fn lemma_leaf_does_not_unify_with_an_operation(
    table: GraphTable,
    a: AbstractConstView,
    b: AbstractConstView,
    da: nat,
    db: nat,
)
    requires
        a.inner.len() > 0,
        b.inner.len() > 0,
        a.root() is Leaf,
        !(subst_const(a.root()->Leaf_0, a.substs).val is Unevaluated),
        !(b.root() is Leaf),
    ensures
        !unify(table, a, b, da, db),
        !unify(table, b, a, da, db),
{
    assert(unify(table, a, b, da, db) == unify_right(table, a, b, da, db));
    assert(unify_right(table, a, b, da, db) == unify_roots(table, a, b, da, db));
    assert(unify(table, b, a, da, db) == unify_right(table, b, a, da, db));
    assert(unify_right(table, b, a, da, db) == unify_roots(table, b, a, da, db));
}

/// Two views whose roots are different inference placeholders do not unify:
/// two unknowns are never taken to be equal.
pub proof fn lemma_distinct_placeholders_do_not_unify(
    table: GraphTable,
    a: AbstractConstView,
    b: AbstractConstView,
    da: nat,
    db: nat,
)
    requires
        a.inner.len() > 0,
        b.inner.len() > 0,
        a.root() matches NodeView::Leaf(x) && x.val is Infer,
        b.root() matches NodeView::Leaf(y) && y.val is Infer,
        a.root()->Leaf_0.val->Infer_0 != b.root()->Leaf_0.val->Infer_0,
    ensures
        !unify(table, a, b, da, db),
{
    let x = subst_const(a.root()->Leaf_0, a.substs);
    let y = subst_const(b.root()->Leaf_0, b.substs);
    assert(x.val == a.root()->Leaf_0.val);
    assert(y.val == b.root()->Leaf_0.val);
    assert(root_expansion(table, a) is Ok && root_expansion(table, a)->Ok_0 is None);
    assert(root_expansion(table, b) is Ok && root_expansion(table, b)->Ok_0 is None);
    assert(unify(table, a, b, da, db) == unify_right(table, a, b, da, db));
    assert(unify_right(table, a, b, da, db) == unify_roots(table, a, b, da, db));
    assert(unify_roots(table, a, b, da, db) == leaves_unify(x, y));
}

} // verus!
