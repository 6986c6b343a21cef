//! Checking that a constant used in a type can be evaluated.
//!
//! A concrete constant is simply evaluated. A generic one is first held
//! against the constants that the environment already assumes to be
//! evaluatable: it is accepted when its graph unifies with the graph of one
//! of them, or with a part of it.
use crate::abstract_const::{
    AbstractConst, AbstractConstView, ErrorReported, Node, NodeView, NotConstEvaluatable,
};
use crate::context::{table_wf, ConstContext, DefKind, Definition, GraphTable};
use crate::mir::Span;
use crate::ty::{
    args_have_infer, args_have_param, const_has_infer, const_has_param, subst_const, DefId,
    Unevaluated, UnevaluatedView,
};
use crate::reachability::reachable;
use crate::unify::{lemma_unify_reflexive, try_unify, unify};
use crate::walk::{lemma_reachable_is_visited, may_return, visits, walk_abstract_const};
use std::ops::ControlFlow;
use vstd::prelude::*;

verus! {

/// A bound that the environment assumes to hold.
#[derive(Debug, Clone, PartialEq)]
pub enum Predicate {
    /// The constant can be evaluated.
    ConstEvaluatable(Unevaluated),
    /// A bound of any other kind.
    Other,
}

/// Mathematical view of a [`Predicate`].
pub enum PredicateView {
    ConstEvaluatable(UnevaluatedView),
    Other,
}

impl View for Predicate {
    type V = PredicateView;

    open spec fn view(&self) -> PredicateView {
        match *self {
            Predicate::ConstEvaluatable(uv) => PredicateView::ConstEvaluatable(uv@),
            Predicate::Other => PredicateView::Other,
        }
    }
}

/// The views of the bounds, in order.
pub open spec fn view_predicates(bounds: Seq<Predicate>) -> Seq<PredicateView> {
    Seq::new(bounds.len(), |i: int| bounds[i]@)
}

/// The environment in which a constant is used.
#[derive(Debug, Clone, PartialEq)]
pub struct ParamEnv {
    pub caller_bounds: Vec<Predicate>,
}

/// Why the evaluation of a constant gave no value.
#[derive(Clone, Copy, Debug, PartialEq, Eq, Structural)]
pub enum ErrorHandled {
    /// An error was reported.
    Reported(ErrorReported),
    /// Only a lint was emitted.
    Linted,
    /// The constant still depends on something generic.
    TooGeneric,
}

/// What the check hands to the diagnostics.
#[derive(Clone, Copy, Debug, PartialEq, Eq, Structural)]
pub enum Diagnostic {
    /// A warning that is to become an error: a constant that depends on
    /// generic parameters was used in a type and could be evaluated all the
    /// same.
    ConstEvaluatableUnchecked { def: DefId, span: Span },
    /// An error that must have been reported by the time compilation ends.
    DelayedBug { span: Span },
}

impl Diagnostic {
    /// The text of the diagnostic.
    pub fn message(self) -> (r: &'static str)
        ensures
            r@ == (match self {
                Diagnostic::ConstEvaluatableUnchecked { .. } =>
                    "cannot use constants which depend on generic parameters in types"@,
                Diagnostic::DelayedBug { .. } => "constant in type had error reported as lint"@,
            }),
    {
        match self {
            Diagnostic::ConstEvaluatableUnchecked { .. } => {
                "cannot use constants which depend on generic parameters in types"
            },
            Diagnostic::DelayedBug { .. } => "constant in type had error reported as lint",
        }
    }
}

/// What keeps a graph from being evaluated, if anything does.
#[derive(Clone, Copy, Debug, PartialEq, Eq, Structural)]
pub enum FailureKind {
    /// The graph mentions an inference placeholder.
    MentionsInfer,
    /// The graph mentions a generic parameter, and no inference placeholder.
    MentionsParam,
    /// The graph is concrete enough to be evaluated.
    Concrete,
}

/// The fact `fact` discharges the query: the query unifies with the fact or
/// with some view inside it.
pub open spec fn discharges(
    table: GraphTable,
    limit: nat,
    query: AbstractConstView,
    fact: AbstractConstView,
) -> bool {
    exists|k: int|
        0 <= k < visits(fact).len() && unify(table, query, #[trigger] visits(fact)[k], limit, limit)
}

/// Whether one of the bounds discharges the query; the error of the first
/// bound whose graph failed to build, if the search gets that far.
pub open spec fn search_bounds(
    table: GraphTable,
    limit: nat,
    query: AbstractConstView,
    bounds: Seq<PredicateView>,
) -> Result<bool, ErrorReported>
    decreases bounds.len(),
{
    if bounds.len() == 0 {
        Ok(false)
    } else {
        match bounds[0] {
            PredicateView::ConstEvaluatable(uv) => match AbstractConstView::new(table, uv) {
                Err(e) => Err(e),
                Ok(Some(fact)) => if discharges(table, limit, query, fact) {
                    Ok(true)
                } else {
                    search_bounds(table, limit, query, bounds.skip(1))
                },
                Ok(None) => search_bounds(table, limit, query, bounds.skip(1)),
            },
            PredicateView::Other => search_bounds(table, limit, query, bounds.skip(1)),
        }
    }
}

/// The root of the view is a leaf whose constant mentions an inference
/// placeholder after the substitution.
pub open spec fn root_mentions_infer(v: AbstractConstView) -> bool {
    v.inner.len() > 0 && match v.root() {
        NodeView::Leaf(leaf) => const_has_infer(subst_const(leaf, v.substs)),
        _ => false,
    }
}

/// The root of the view is a leaf whose constant mentions a generic
/// parameter after the substitution.
pub open spec fn root_mentions_param(v: AbstractConstView) -> bool {
    v.inner.len() > 0 && match v.root() {
        NodeView::Leaf(leaf) => const_has_param(subst_const(leaf, v.substs)),
        _ => false,
    }
}

/// A walk of the view meets a root that mentions an inference placeholder.
pub open spec fn mentions_infer(ct: AbstractConstView) -> bool {
    exists|k: int| 0 <= k < visits(ct).len() && root_mentions_infer(#[trigger] visits(ct)[k])
}

/// A walk of the view meets a root that mentions a generic parameter.
pub open spec fn mentions_param(ct: AbstractConstView) -> bool {
    exists|k: int| 0 <= k < visits(ct).len() && root_mentions_param(#[trigger] visits(ct)[k])
}

/// An inference placeholder anywhere in the graph counts before a generic
/// parameter.
pub open spec fn failure_kind(ct: AbstractConstView) -> FailureKind {
    if mentions_infer(ct) {
        FailureKind::MentionsInfer
    } else if mentions_param(ct) {
        FailureKind::MentionsParam
    } else {
        FailureKind::Concrete
    }
}

/// What is known of the constant `uv` before it is evaluated: the verdict,
/// or `None` where only evaluation can tell.
///
/// A constant without a graph is left to evaluation. A constant with a graph
/// is evaluatable when a bound discharges it; else it is not evaluatable
/// while its graph mentions an inference placeholder or a generic parameter;
/// else it is left to evaluation.
pub open spec fn abstract_verdict(
    table: GraphTable,
    generic_const_exprs: bool,
    limit: nat,
    uv: UnevaluatedView,
    bounds: Seq<PredicateView>,
) -> Option<Result<(), NotConstEvaluatable>> {
    if !generic_const_exprs {
        None
    } else {
        match AbstractConstView::new(table, uv) {
            Err(e) => Some(Err(NotConstEvaluatable::Error(e))),
            Ok(None) => None,
            Ok(Some(ct)) => match search_bounds(table, limit, ct, bounds) {
                Err(e) => Some(Err(NotConstEvaluatable::Error(e))),
                Ok(true) => Some(Ok(())),
                Ok(false) => match failure_kind(ct) {
                    FailureKind::MentionsInfer => Some(Err(NotConstEvaluatable::MentionsInfer)),
                    FailureKind::MentionsParam => Some(Err(NotConstEvaluatable::MentionsParam)),
                    FailureKind::Concrete => None,
                },
            },
        }
    }
}

/// The warning about a generic constant that could be evaluated is due for
/// `uv`: its arguments mention a generic parameter, and its definition is of
/// this crate and is no constant written in place with a concrete body.
pub open spec fn lint_applies(defs: Seq<Definition>, uv: UnevaluatedView) -> bool {
    &&& args_have_param(uv.substs)
    &&& uv.def.index < defs.len()
    &&& defs[uv.def.index as int].local
    &&& (defs[uv.def.index as int].kind != DefKind::AnonConst
        || defs[uv.def.index as int].body.is_polymorphic)
}

/// The verdict on `uv` once evaluation gave `concrete`, and what goes to the
/// diagnostics with it.
pub open spec fn conclusion(
    defs: Seq<Definition>,
    uv: UnevaluatedView,
    span: Span,
    concrete: Result<u128, ErrorHandled>,
) -> (Result<(), NotConstEvaluatable>, Option<Diagnostic>) {
    match concrete {
        Ok(_) => (
            Ok(()),
            if lint_applies(defs, uv) {
                Some(Diagnostic::ConstEvaluatableUnchecked { def: uv.def, span })
            } else {
                None
            },
        ),
        Err(ErrorHandled::TooGeneric) => (
            Err(
                if args_have_infer(uv.substs) {
                    NotConstEvaluatable::MentionsInfer
                } else {
                    NotConstEvaluatable::MentionsParam
                },
            ),
            None,
        ),
        Err(ErrorHandled::Linted) => (
            Err(NotConstEvaluatable::Error(ErrorReported)),
            Some(Diagnostic::DelayedBug { span }),
        ),
        Err(ErrorHandled::Reported(e)) => (Err(NotConstEvaluatable::Error(e)), None),
    }
}

/// Whether the query unifies with the fact or with a view inside it.
pub fn fact_discharges(ctx: &ConstContext, ct: AbstractConst<'_>, b_ct: AbstractConst<'_>) -> (r:
    bool)
    requires
        ctx.wf(),
        ct@.wf(),
        b_ct@.wf(),
    ensures
        r == discharges(
            ctx.table(),
            ctx.recursion_limit() as nat,
            ct@,
            b_ct@,
        ),
{
    let ghost table = ctx.table();
    let ghost limit = ctx.recursion_limit() as nat;
    let ghost query = ct@;
    // Every view inside the fact is tried, so that `N + 1` is evaluatable
    // where only `(N + 1) * 2` is known to be.
    let visit = |sub: AbstractConst<'_>| -> (o: ControlFlow<()>)
        requires
            sub@.wf(),
        ensures
            o == (if unify(
                ctx.table(),
                ct@,
                sub@,
                ctx.recursion_limit() as nat,
                ctx.recursion_limit() as nat,
            ) {
                ControlFlow::<(), ()>::Break(())
            } else {
                ControlFlow::<(), ()>::Continue(())
            }),
        {
            match try_unify(ctx, ct, sub) {
                true => ControlFlow::Break(()),
                false => ControlFlow::Continue(()),
            }
        };
    let result = walk_abstract_const(b_ct, visit);
    let ghost vs = visits(b_ct@);
    match result {
        ControlFlow::Break(_) => {
            proof {
                let k = choose|k: int|
                    {
                        &&& 0 <= k < vs.len()
                        &&& may_return(visit, #[trigger] vs[k], result)
                    };
                assert(unify(table, query, vs[k], limit, limit));
            }
            true
        },
        ControlFlow::Continue(_) => {
            proof {
                assert forall|k: int| 0 <= k < vs.len() implies !unify(
                    table,
                    query,
                    #[trigger] vs[k],
                    limit,
                    limit,
                ) by {
                    assert(may_return(visit, vs[k], ControlFlow::Continue(())));
                }
            }
            false
        },
    }
}

fn search_caller_bounds(ctx: &ConstContext, ct: AbstractConst<'_>, bounds: &Vec<Predicate>) -> (r:
    Result<bool, ErrorReported>)
    requires
        ctx.wf(),
        ct@.wf(),
    ensures
        r == search_bounds(
            ctx.table(),
            ctx.recursion_limit() as nat,
            ct@,
            view_predicates(bounds@),
        ),
{
    let ghost all = view_predicates(bounds@);
    let mut i: usize = 0;
    assert(all.skip(0) =~= all);
    while i < bounds.len()
        invariant
            i <= bounds.len(),
            ctx.wf(),
            ct@.wf(),
            all == view_predicates(bounds@),
            search_bounds(ctx.table(), ctx.recursion_limit() as nat, ct@, all) == search_bounds(
                ctx.table(),
                ctx.recursion_limit() as nat,
                ct@,
                all.skip(i as int),
            ),
        decreases bounds.len() - i,
    {
        proof {
            assert(all.skip(i as int)[0] == bounds@[i as int]@);
            assert(all.skip(i as int).skip(1) =~= all.skip(i + 1));
        }
        match &bounds[i] {
            Predicate::ConstEvaluatable(uv) => {
                match AbstractConst::new(ctx, uv) {
                    Err(e) => {
                        return Err(e);
                    },
                    Ok(Some(b_ct)) => {
                        if fact_discharges(ctx, ct, b_ct) {
                            return Ok(true);
                        }
                    },
                    Ok(None) => {},
                }
            },
            Predicate::Other => {},
        }
        i += 1;
    }
    Ok(false)
}

fn root_has_infer(node: AbstractConst<'_>) -> (r: bool)
    requires
        node@.wf(),
    ensures
        r == root_mentions_infer(node@),
{
    match node.root() {
        Node::Leaf(leaf) => leaf.subst(node.substs).has_infer(),
        Node::Binop(_, _, _)
        | Node::UnaryOp(_, _)
        | Node::FunctionCall(_, _)
        | Node::Cast(_, _, _) => false,
    }
}

fn root_has_param(node: AbstractConst<'_>) -> (r: bool)
    requires
        node@.wf(),
    ensures
        r == root_mentions_param(node@),
{
    match node.root() {
        Node::Leaf(leaf) => leaf.subst(node.substs).has_param(),
        Node::Binop(_, _, _)
        | Node::UnaryOp(_, _)
        | Node::FunctionCall(_, _)
        | Node::Cast(_, _, _) => false,
    }
}

/// Tells what keeps the graph from being evaluated.
pub fn classify(ct: AbstractConst<'_>) -> (r: FailureKind)
    requires
        ct@.wf(),
    ensures
        r == failure_kind(ct@),
{
    let ghost vs = visits(ct@);
    let find_infer = |node: AbstractConst<'_>| -> (o: ControlFlow<()>)
        requires
            node@.wf(),
        ensures
            o == (if root_mentions_infer(node@) {
                ControlFlow::<(), ()>::Break(())
            } else {
                ControlFlow::<(), ()>::Continue(())
            }),
        {
            if root_has_infer(node) {
                ControlFlow::Break(())
            } else {
                ControlFlow::Continue(())
            }
        };
    let infer = walk_abstract_const(ct, find_infer);
    match infer {
        ControlFlow::Break(_) => {
            proof {
                let k = choose|k: int|
                    {
                        &&& 0 <= k < vs.len()
                        &&& may_return(find_infer, #[trigger] vs[k], infer)
                    };
                assert(root_mentions_infer(vs[k]));
            }
            return FailureKind::MentionsInfer;
        },
        ControlFlow::Continue(_) => {
            proof {
                assert forall|k: int| 0 <= k < vs.len() implies !root_mentions_infer(
                    #[trigger] vs[k],
                ) by {
                    assert(may_return(find_infer, vs[k], ControlFlow::Continue(())));
                }
            }
        },
    }
    let find_param = |node: AbstractConst<'_>| -> (o: ControlFlow<()>)
        requires
            node@.wf(),
        ensures
            o == (if root_mentions_param(node@) {
                ControlFlow::<(), ()>::Break(())
            } else {
                ControlFlow::<(), ()>::Continue(())
            }),
        {
            if root_has_param(node) {
                ControlFlow::Break(())
            } else {
                ControlFlow::Continue(())
            }
        };
    let param = walk_abstract_const(ct, find_param);
    match param {
        ControlFlow::Break(_) => {
            proof {
                let k = choose|k: int|
                    {
                        &&& 0 <= k < vs.len()
                        &&& may_return(find_param, #[trigger] vs[k], param)
                    };
                assert(root_mentions_param(vs[k]));
            }
            FailureKind::MentionsParam
        },
        ControlFlow::Continue(_) => {
            proof {
                assert forall|k: int| 0 <= k < vs.len() implies !root_mentions_param(
                    #[trigger] vs[k],
                ) by {
                    assert(may_return(find_param, vs[k], ControlFlow::Continue(())));
                }
            }
            FailureKind::Concrete
        },
    }
}

/// Decides what can be decided of `uv` without evaluating it.
pub fn check_abstract(ctx: &ConstContext, uv: &Unevaluated, param_env: &ParamEnv) -> (r: Option<
    Result<(), NotConstEvaluatable>,
>)
    requires
        ctx.wf(),
    ensures
        r == abstract_verdict(
            ctx.table(),
            ctx.generic_const_exprs(),
            ctx.recursion_limit() as nat,
            uv@,
            view_predicates(param_env.caller_bounds@),
        ),
{
    if !ctx.generic_const_exprs() {
        return None;
    }
    match AbstractConst::new(ctx, uv) {
        Err(e) => Some(Err(NotConstEvaluatable::Error(e))),
        // A concrete constant is simply evaluated.
        Ok(None) => None,
        // A generic constant.
        Ok(Some(ct)) => {
            match search_caller_bounds(ctx, ct, &param_env.caller_bounds) {
                Err(e) => {
                    return Some(Err(NotConstEvaluatable::Error(e)));
                },
                Ok(true) => {
                    return Some(Ok(()));
                },
                Ok(false) => {},
            }
            // No bound discharges the constant.
            match classify(ct) {
                FailureKind::MentionsInfer => Some(Err(NotConstEvaluatable::MentionsInfer)),
                FailureKind::MentionsParam => Some(Err(NotConstEvaluatable::MentionsParam)),
                // The arguments are concrete enough: the constant is
                // evaluated like one that has no graph.
                FailureKind::Concrete => None,
            }
        },
    }
}

/// Draws the verdict on `uv` from what evaluating it gave.
///
/// A constant that could be evaluated although its arguments mention a
/// generic parameter is accepted, with a warning and never with an error.
pub fn conclude(
    ctx: &ConstContext,
    uv: &Unevaluated,
    span: Span,
    concrete: Result<u128, ErrorHandled>,
) -> (r: (Result<(), NotConstEvaluatable>, Option<Diagnostic>))
    ensures
        r == conclusion(ctx.spec_defs(), uv@, span, concrete),
        concrete is Ok ==> r.0 is Ok && !(r.1 matches Some(Diagnostic::DelayedBug { .. })),
{
    match concrete {
        Ok(_) => {
            let mut lint: Option<Diagnostic> = None;
            if uv.has_param_types_or_consts() {
                match ctx.definition(uv.def) {
                    Some(def) => {
                        if def.local {
                            let due = match def.kind {
                                DefKind::AnonConst => def.body.is_polymorphic,
                                _ => true,
                            };
                            if due {
                                lint = Some(
                                    Diagnostic::ConstEvaluatableUnchecked { def: uv.def, span },
                                );
                            }
                        }
                    },
                    None => {},
                }
            }
            (Ok(()), lint)
        },
        Err(ErrorHandled::TooGeneric) => {
            if uv.has_infer_types_or_consts() {
                (Err(NotConstEvaluatable::MentionsInfer), None)
            } else {
                (Err(NotConstEvaluatable::MentionsParam), None)
            }
        },
        Err(ErrorHandled::Linted) => (
            Err(NotConstEvaluatable::Error(ErrorReported)),
            Some(Diagnostic::DelayedBug { span }),
        ),
        Err(ErrorHandled::Reported(e)) => (Err(NotConstEvaluatable::Error(e)), None),
    }
}

/// Checks whether the constant `uv` can be evaluated. `const_eval_resolve`
/// evaluates it; it is called only where the graph of `uv` and the bounds of
/// the environment leave the question open.
pub fn is_const_evaluatable<E>(
    ctx: &ConstContext,
    uv: &Unevaluated,
    param_env: &ParamEnv,
    span: Span,
    const_eval_resolve: E,
) -> (r: (Result<(), NotConstEvaluatable>, Option<Diagnostic>)) where
    E: FnOnce(&ParamEnv, &Unevaluated, Span) -> Result<u128, ErrorHandled>,

    requires
        ctx.wf(),
        call_requires(const_eval_resolve, (param_env, uv, span)),
    ensures
        match abstract_verdict(
            ctx.table(),
            ctx.generic_const_exprs(),
            ctx.recursion_limit() as nat,
            uv@,
            view_predicates(param_env.caller_bounds@),
        ) {
            Some(verdict) => r == (verdict, None::<Diagnostic>),
            None => exists|concrete: Result<u128, ErrorHandled>|
                {
                    &&& call_ensures(const_eval_resolve, (param_env, uv, span), concrete)
                    &&& r == conclusion(ctx.spec_defs(), uv@, span, concrete)
                },
        },
{
    match check_abstract(ctx, uv, param_env) {
        Some(verdict) => (verdict, None),
        None => {
            let concrete = const_eval_resolve(param_env, uv, span);
            conclude(ctx, uv, span, concrete)
        },
    }
}

/// Where the warning is due, a constant that was evaluated to a value is
/// evaluatable, and the warning is the one diagnostic that comes with it.
/// The warning is due where the arguments mention a generic parameter and
/// the definition is of this crate and is a named constant or has a body
/// that depends on a generic parameter.
pub proof fn lemma_evaluated_generic_constant_is_accepted_with_a_warning(
    defs: Seq<Definition>,
    uv: UnevaluatedView,
    span: Span,
    value: u128,
)
    requires
        lint_applies(defs, uv),
    ensures
        conclusion(defs, uv, span, Ok(value)) == (
            Ok::<(), NotConstEvaluatable>(()),
            Some(Diagnostic::ConstEvaluatableUnchecked { def: uv.def, span }),
        ),
{
}

/// A fact discharges a query that is the fact itself.
pub proof fn lemma_fact_discharges_itself(table: GraphTable, limit: nat, fact: AbstractConstView)
    requires
        table_wf(table),
        fact.wf(),
    ensures
        discharges(table, limit, fact, fact),
{
    lemma_unify_reflexive(table, fact, limit);
    assert(visits(fact)[0] == fact);
}

/// A fact discharges a query that unifies with the view at any node of the
/// fact that can be reached from the root of the fact. In the graph of a
/// definition these are all nodes but those that only an assertion keeps.
pub proof fn lemma_fact_discharges_through_any_reachable_node(
    table: GraphTable,
    limit: nat,
    query: AbstractConstView,
    fact: AbstractConstView,
    node: int,
)
    requires
        fact.wf(),
        fact.inner.len() <= usize::MAX,
        reachable(fact.inner, node),
        unify(table, query, fact.subtree(node), limit, limit),
    ensures
        discharges(table, limit, query, fact),
{
    lemma_reachable_is_visited(fact, node);
    let k = choose|k: int| 0 <= k < visits(fact).len() && visits(fact)[k] == fact.subtree(node);
    assert(unify(table, query, visits(fact)[k], limit, limit));
}

/// The search through the bounds succeeds when some bound discharges the
/// query and the graph of no earlier bound failed to build.
pub proof fn lemma_search_finds_discharging_bound(
    table: GraphTable,
    limit: nat,
    query: AbstractConstView,
    bounds: Seq<PredicateView>,
    k: int,
)
    requires
        0 <= k < bounds.len(),
        bounds[k] matches PredicateView::ConstEvaluatable(f) && AbstractConstView::new(table, f)
            matches Ok(Some(fact)) && discharges(table, limit, query, fact),
        forall|j: int|
            0 <= j < k ==> ((#[trigger] bounds[j]) matches PredicateView::ConstEvaluatable(g)
                ==> AbstractConstView::new(table, g) is Ok),
    ensures
        search_bounds(table, limit, query, bounds) == Ok::<bool, ErrorReported>(true),
    decreases k,
{
    if k > 0 {
        let rest = bounds.skip(1);
        assert(rest[k - 1] == bounds[k]);
        assert forall|j: int| 0 <= j < k - 1 implies ((#[trigger] rest[j])
            matches PredicateView::ConstEvaluatable(g) ==> AbstractConstView::new(table, g)
            is Ok) by {
            assert(rest[j] == bounds[j + 1]);
        }
        assert(bounds[0] matches PredicateView::ConstEvaluatable(g) ==> AbstractConstView::new(
            table,
            g,
        ) is Ok);
        lemma_search_finds_discharging_bound(table, limit, query, rest, k - 1);
    }
}

/// A constant with a graph is evaluatable, without being evaluated, when
/// its graph unifies with the graph of a bound or with a view inside it,
/// and the graph of no earlier bound failed to build.
pub proof fn lemma_discharged_constant_is_evaluatable(
    table: GraphTable,
    limit: nat,
    uv: UnevaluatedView,
    bounds: Seq<PredicateView>,
    k: int,
)
    requires
        AbstractConstView::new(table, uv) matches Ok(Some(_)),
        0 <= k < bounds.len(),
        bounds[k] matches PredicateView::ConstEvaluatable(f) && AbstractConstView::new(table, f)
            matches Ok(Some(fact)) && discharges(
            table,
            limit,
            AbstractConstView::new(table, uv)->Ok_0->Some_0,
            fact,
        ),
        forall|j: int|
            0 <= j < k ==> ((#[trigger] bounds[j]) matches PredicateView::ConstEvaluatable(g)
                ==> AbstractConstView::new(table, g) is Ok),
    ensures
        abstract_verdict(table, true, limit, uv, bounds) == Some(
            Ok::<(), NotConstEvaluatable>(()),
        ),
{
    lemma_search_finds_discharging_bound(
        table,
        limit,
        AbstractConstView::new(table, uv)->Ok_0->Some_0,
        bounds,
        k,
    );
}

} // verus!
