//! A walk over the views inside a view: the view itself first, then what
//! lies under each operand of its root, operand by operand.
use crate::abstract_const::{
    lemma_root_operands, lemma_subtree_wf, operands, AbstractConst, AbstractConstView, Node,
    NodeId,
};
use crate::reachability::reachable;
use std::ops::ControlFlow;
use vstd::prelude::*;

verus! {

/// The views that a walk of `v` visits, in the order of the visits. A node
/// that is an operand of several nodes is visited once for each.
pub open spec fn visits(v: AbstractConstView) -> Seq<AbstractConstView>
    decreases v.inner.len(), 0nat,
{
    if v.inner.len() > 0 {
        seq![v] + visits_under(v, operands(v.root()))
    } else {
        seq![v]
    }
}

/// The views that a walk visits under the operands `ops` of the root of `v`.
pub open spec fn visits_under(v: AbstractConstView, ops: Seq<NodeId>) -> Seq<AbstractConstView>
    decreases v.inner.len() - 1, ops.len() + 1,
{
    if ops.len() == 0 {
        Seq::empty()
    } else if ops.last() < v.inner.len() - 1 {
        visits_under(v, ops.drop_last()) + visits(v.subtree(ops.last() as int))
    } else {
        visits_under(v, ops.drop_last())
    }
}

/// The visitor `f` may return `out` when it is shown the view `v`.
pub open spec fn may_return<'a, R, F: Fn(AbstractConst<'a>) -> ControlFlow<R>>(
    f: F,
    v: AbstractConstView,
    out: ControlFlow<R>,
) -> bool {
    exists|c: AbstractConst<'a>| c@ == v && call_ensures(f, (c,), out)
}

/// `out` is what a walk over the views `vs` with the visitor `f` may give:
/// the first break that the visitor returns, after it let every earlier view
/// pass, or no break when it let every view pass.
pub open spec fn walk_outcome<'a, R, F: Fn(AbstractConst<'a>) -> ControlFlow<R>>(
    f: F,
    vs: Seq<AbstractConstView>,
    out: ControlFlow<R>,
) -> bool {
    match out {
        ControlFlow::Continue(_) => forall|j: int|
            0 <= j < vs.len() ==> may_return(f, #[trigger] vs[j], ControlFlow::Continue(())),
        ControlFlow::Break(_) => exists|k: int|
            {
                &&& 0 <= k < vs.len()
                &&& may_return(f, #[trigger] vs[k], out)
                &&& forall|j: int|
                    0 <= j < k ==> may_return(f, #[trigger] vs[j], ControlFlow::Continue(()))
            },
    }
}

proof fn lemma_outcome_passed<'a, R, F: Fn(AbstractConst<'a>) -> ControlFlow<R>>(
    f: F,
    a: Seq<AbstractConstView>,
    b: Seq<AbstractConstView>,
    out: ControlFlow<R>,
)
    requires
        walk_outcome(f, a, ControlFlow::<R, ()>::Continue(())),
        walk_outcome(f, b, out),
    ensures
        walk_outcome(f, a + b, out),
{
    let ab = a + b;
    match out {
        ControlFlow::Continue(_) => {
            assert forall|j: int| 0 <= j < ab.len() implies may_return(
                f,
                #[trigger] ab[j],
                ControlFlow::Continue(()),
            ) by {
                if j < a.len() {
                    assert(ab[j] == a[j]);
                } else {
                    assert(ab[j] == b[j - a.len()]);
                }
            }
        },
        ControlFlow::Break(_) => {
            let k = choose|k: int|
                {
                    &&& 0 <= k < b.len()
                    &&& may_return(f, #[trigger] b[k], out)
                    &&& forall|j: int|
                        0 <= j < k ==> may_return(f, #[trigger] b[j], ControlFlow::Continue(()))
                };
            let m = a.len() + k;
            assert(ab[m] == b[k]);
            assert forall|j: int| 0 <= j < m implies may_return(
                f,
                #[trigger] ab[j],
                ControlFlow::Continue(()),
            ) by {
                if j < a.len() {
                    assert(ab[j] == a[j]);
                } else {
                    assert(ab[j] == b[j - a.len()]);
                }
            }
        },
    }
}

proof fn lemma_outcome_broke<'a, R, F: Fn(AbstractConst<'a>) -> ControlFlow<R>>(
    f: F,
    a: Seq<AbstractConstView>,
    b: Seq<AbstractConstView>,
    out: ControlFlow<R>,
)
    requires
        out is Break,
        walk_outcome(f, a, out),
    ensures
        walk_outcome(f, a + b, out),
{
    let ab = a + b;
    let k = choose|k: int|
        {
            &&& 0 <= k < a.len()
            &&& may_return(f, #[trigger] a[k], out)
            &&& forall|j: int|
                0 <= j < k ==> may_return(f, #[trigger] a[j], ControlFlow::Continue(()))
        };
    assert(ab[k] == a[k]);
    assert forall|j: int| 0 <= j < k implies may_return(
        f,
        #[trigger] ab[j],
        ControlFlow::Continue(()),
    ) by {
        assert(ab[j] == a[j]);
    }
}

/// The views under the first `n + 1` operands are those under the first `n`
/// followed by those of the view at operand `n`.
proof fn lemma_visits_under_step(v: AbstractConstView, ops: Seq<NodeId>, n: int)
    requires
        v.wf(),
        0 <= n < ops.len(),
        ops[n] < v.inner.len() - 1,
    ensures
        visits_under(v, ops.subrange(0, n + 1)) == visits_under(v, ops.subrange(0, n)) + visits(
            v.subtree(ops[n] as int),
        ),
{
    let longer = ops.subrange(0, n + 1);
    assert(longer.drop_last() =~= ops.subrange(0, n));
    assert(longer.last() == ops[n]);
}

fn recurse<'a, R, F>(ct: AbstractConst<'a>, f: &F) -> (r: ControlFlow<R>) where
    F: Fn(AbstractConst<'a>) -> ControlFlow<R>,

    requires
        ct@.wf(),
        forall|c: AbstractConst<'a>|
            c@.wf() && visits(ct@).contains(c@) ==> call_requires(*f, (c,)),
    ensures
        walk_outcome(*f, visits(ct@), r),
    decreases ct@.inner.len(),
{
    let ghost here = seq![ct@];
    assert(visits(ct@)[0] == ct@);
    proof {
        lemma_visits_include_all(ct@);
    }
    let shown = f(ct);
    proof {
        assert(may_return(*f, ct@, shown));
        assert(here[0] == ct@);
        assert(may_return(*f, here[0], shown));
        if let ControlFlow::Continue(unit) = shown {
            assert(unit == ());
            assert(shown == ControlFlow::<R, ()>::Continue(()));
        }
        assert(walk_outcome(*f, here, shown));
    }
    match shown {
        ControlFlow::Break(b) => {
            proof {
                lemma_outcome_broke(*f, here, visits_under(ct@, operands(ct@.root())), shown);
            }
            return ControlFlow::Break(b);
        },
        ControlFlow::Continue(_) => {},
    }
    let root = ct.root();
    let ghost ops = operands(root@);
    assert(ops.subrange(0, 0) =~= Seq::<NodeId>::empty());
    match root {
        Node::Leaf(_) => {
            assert(visits(ct@) =~= here);
            ControlFlow::Continue(())
        },
        Node::Binop(_, l, r) => {
            proof {
                lemma_root_operands(ct@, 0);
                lemma_root_operands(ct@, 1);
                lemma_visits_under_step(ct@, ops, 0);
                lemma_visits_under_step(ct@, ops, 1);
                assert(ops.subrange(0, 2) =~= ops);
            }
            let left = recurse(ct.subtree(*l), f);
            match left {
                ControlFlow::Break(b) => {
                    proof {
                        lemma_outcome_passed(*f, here, visits(ct@.subtree(*l as int)), left);
                        lemma_outcome_broke(
                            *f,
                            here + visits(ct@.subtree(*l as int)),
                            visits(ct@.subtree(*r as int)),
                            left,
                        );
                        assert(visits(ct@) =~= here + visits(ct@.subtree(*l as int)) + visits(
                            ct@.subtree(*r as int),
                        ));
                    }
                    return ControlFlow::Break(b);
                },
                ControlFlow::Continue(_) => {},
            }
            let right = recurse(ct.subtree(*r), f);
            proof {
                lemma_outcome_passed(*f, here, visits(ct@.subtree(*l as int)), left);
                lemma_outcome_passed(
                    *f,
                    here + visits(ct@.subtree(*l as int)),
                    visits(ct@.subtree(*r as int)),
                    right,
                );
                assert(visits(ct@) =~= here + visits(ct@.subtree(*l as int)) + visits(
                    ct@.subtree(*r as int),
                ));
            }
            right
        },
        Node::UnaryOp(_, v) => {
            proof {
                lemma_root_operands(ct@, 0);
                lemma_visits_under_step(ct@, ops, 0);
                assert(ops.subrange(0, 1) =~= ops);
            }
            let under = recurse(ct.subtree(*v), f);
            proof {
                lemma_outcome_passed(*f, here, visits(ct@.subtree(*v as int)), under);
                assert(visits(ct@) =~= here + visits(ct@.subtree(*v as int)));
            }
            under
        },
        Node::FunctionCall(func, args) => {
            proof {
                lemma_root_operands(ct@, 0);
                lemma_visits_under_step(ct@, ops, 0);
            }
            let callee = recurse(ct.subtree(*func), f);
            proof {
                lemma_outcome_passed(*f, here, visits(ct@.subtree(*func as int)), callee);
                assert(here + visits(ct@.subtree(*func as int)) =~= here + visits_under(
                    ct@,
                    ops.subrange(0, 1),
                ));
            }
            match callee {
                ControlFlow::Break(b) => {
                    proof {
                        lemma_visits_split(ct@, ops, 1);
                        lemma_outcome_broke(
                            *f,
                            here + visits_under(ct@, ops.subrange(0, 1)),
                            visits_rest(ct@, ops, 1),
                            callee,
                        );
                        assert(visits(ct@) =~= here + visits_under(ct@, ops.subrange(0, 1))
                            + visits_rest(ct@, ops, 1));
                    }
                    return ControlFlow::Break(b);
                },
                ControlFlow::Continue(_) => {},
            }
            let mut i: usize = 0;
            while i < args.len()
                invariant
                    i <= args.len(),
                    ct@.wf(),
                    root@ == ct@.root(),
                    root@ == Node::FunctionCall(*func, *args)@,
                    ops == operands(root@),
                    forall|c: AbstractConst<'a>|
                        c@.wf() && visits(ct@).contains(c@) ==> call_requires(*f, (c,)),
                    forall|k: int, x: AbstractConstView|
                        0 <= k < ops.len() && #[trigger] visits(
                            ct@.subtree(ops[k] as int),
                        ).contains(x) ==> visits(ct@).contains(x),
                    walk_outcome(
                        *f,
                        here + visits_under(ct@, ops.subrange(0, i + 1)),
                        ControlFlow::<R, ()>::Continue(()),
                    ),
                    here == seq![ct@],
                decreases args.len() - i,
            {
                proof {
                    lemma_root_operands(ct@, i + 1);
                    assert(ops[i + 1] == args@[i as int]);
                    lemma_visits_under_step(ct@, ops, i + 1);
                }
                let under = recurse(ct.subtree(args[i]), f);
                proof {
                    lemma_outcome_passed(
                        *f,
                        here + visits_under(ct@, ops.subrange(0, i + 1)),
                        visits(ct@.subtree(args@[i as int] as int)),
                        under,
                    );
                    assert(here + visits_under(ct@, ops.subrange(0, i + 1)) + visits(
                        ct@.subtree(args@[i as int] as int),
                    ) =~= here + visits_under(ct@, ops.subrange(0, i + 2)));
                }
                match under {
                    ControlFlow::Break(b) => {
                        proof {
                            lemma_visits_split(ct@, ops, i + 2);
                            lemma_outcome_broke(
                                *f,
                                here + visits_under(ct@, ops.subrange(0, i + 2)),
                                visits_rest(ct@, ops, i + 2),
                                under,
                            );
                            assert(visits(ct@) =~= here + visits_under(
                                ct@,
                                ops.subrange(0, i + 2),
                            ) + visits_rest(ct@, ops, i + 2));
                        }
                        return ControlFlow::Break(b);
                    },
                    ControlFlow::Continue(_) => {},
                }
                i += 1;
            }
            assert(ops.subrange(0, i + 1) =~= ops);
            ControlFlow::Continue(())
        },
        Node::Cast(_, operand, _) => {
            proof {
                lemma_root_operands(ct@, 0);
                lemma_visits_under_step(ct@, ops, 0);
                assert(ops.subrange(0, 1) =~= ops);
            }
            let under = recurse(ct.subtree(*operand), f);
            proof {
                lemma_outcome_passed(*f, here, visits(ct@.subtree(*operand as int)), under);
                assert(visits(ct@) =~= here + visits(ct@.subtree(*operand as int)));
            }
            under
        },
    }
}

/// A walk of `v` visits whatever a walk of the view at an operand of its
/// root visits.
proof fn lemma_visits_include(v: AbstractConstView, k: int, x: AbstractConstView)
    requires
        v.wf(),
        0 <= k < operands(v.root()).len(),
        visits(v.subtree(operands(v.root())[k] as int)).contains(x),
    ensures
        visits(v).contains(x),
{
    let ops = operands(v.root());
    let under = visits(v.subtree(ops[k] as int));
    lemma_root_operands(v, k);
    lemma_visits_split(v, ops, k + 1);
    lemma_visits_under_step(v, ops, k);
    let before = visits_under(v, ops.subrange(0, k));
    let after = visits_rest(v, ops, k + 1);
    assert(visits(v) =~= seq![v] + (before + under + after));
    let i = choose|i: int| 0 <= i < under.len() && under[i] == x;
    assert(visits(v)[1 + before.len() + i] == x);
}

proof fn lemma_visits_include_all(v: AbstractConstView)
    requires
        v.wf(),
    ensures
        forall|k: int, x: AbstractConstView|
            0 <= k < operands(v.root()).len() && #[trigger] visits(
                v.subtree(operands(v.root())[k] as int),
            ).contains(x) ==> visits(v).contains(x),
{
    assert forall|k: int, x: AbstractConstView|
        0 <= k < operands(v.root()).len() && #[trigger] visits(
            v.subtree(operands(v.root())[k] as int),
        ).contains(x) implies visits(v).contains(x) by {
        lemma_visits_include(v, k, x);
    }
}

/// Whatever a walk visits under some operands, it visits in the walk of the
/// view at one of them.
proof fn lemma_visited_under_one(v: AbstractConstView, ops: Seq<NodeId>, x: AbstractConstView)
    requires
        visits_under(v, ops).contains(x),
    ensures
        exists|k: int|
            0 <= k < ops.len() && ops[k] < v.inner.len() - 1 && #[trigger] visits(
                v.subtree(ops[k] as int),
            ).contains(x),
    decreases ops.len(),
{
    if ops.len() > 0 {
        let before = visits_under(v, ops.drop_last());
        let i = choose|i: int| 0 <= i < visits_under(v, ops).len() && visits_under(v, ops)[i] == x;
        if i < before.len() {
            assert(before[i] == x);
            lemma_visited_under_one(v, ops.drop_last(), x);
            let k = choose|k: int|
                0 <= k < ops.drop_last().len() && ops.drop_last()[k] < v.inner.len() - 1
                    && #[trigger] visits(v.subtree(ops.drop_last()[k] as int)).contains(x);
            assert(ops[k] == ops.drop_last()[k]);
            assert(visits(v.subtree(ops[k] as int)).contains(x));
        } else {
            let last = visits(v.subtree(ops.last() as int));
            assert(last[i - before.len()] == x);
            assert(visits(v.subtree(ops[ops.len() - 1] as int)).contains(x));
        }
    }
}

/// A walk visits whatever the walk of a view that it visits visits.
pub proof fn lemma_visits_of_visited(v: AbstractConstView, x: AbstractConstView, y: AbstractConstView)
    requires
        v.wf(),
        visits(v).contains(x),
        visits(x).contains(y),
    ensures
        visits(v).contains(y),
    decreases v.inner.len(),
{
    if x != v {
        let ops = operands(v.root());
        let i = choose|i: int| 0 <= i < visits(v).len() && visits(v)[i] == x;
        assert(visits_under(v, ops)[i - 1] == x);
        lemma_visited_under_one(v, ops, x);
        let k = choose|k: int|
            0 <= k < ops.len() && ops[k] < v.inner.len() - 1 && #[trigger] visits(
                v.subtree(ops[k] as int),
            ).contains(x);
        lemma_subtree_wf(v, ops[k] as int);
        lemma_visits_of_visited(v.subtree(ops[k] as int), x, y);
        lemma_visits_include(v, k, y);
    }
}

/// A walk visits the view at every node that can be reached from the root
/// along the edges from a node to its operands.
pub proof fn lemma_reachable_is_visited(v: AbstractConstView, i: int)
    requires
        v.wf(),
        v.inner.len() <= usize::MAX,
        reachable(v.inner, i),
    ensures
        visits(v).contains(v.subtree(i)),
    decreases v.inner.len() - i,
{
    assert(visits(v)[0] == v);
    if i == v.inner.len() - 1 {
        assert(v.subtree(i).inner =~= v.inner);
        assert(v.subtree(i) == v);
    } else {
        let j = choose|j: int|
            i < j < v.inner.len() && operands(#[trigger] v.inner[j]).contains(i as usize)
                && reachable(v.inner, j);
        lemma_reachable_is_visited(v, j);
        let w = v.subtree(j);
        lemma_subtree_wf(v, j);
        let k = choose|k: int| 0 <= k < operands(w.root()).len() && operands(w.root())[k] == i as usize;
        assert(w.subtree(i).inner =~= v.subtree(i).inner);
        assert(w.subtree(i) == v.subtree(i));
        assert(visits(w.subtree(i))[0] == w.subtree(i));
        assert(visits(w.subtree(i)).contains(w.subtree(i)));
        assert(operands(w.root())[k] as int == i);
        lemma_visits_include(w, k, w.subtree(i));
        lemma_visits_of_visited(v, w, v.subtree(i));
    }
}

/// The views that a walk visits under the operands of the root of `v` from
/// position `n` on.
pub open spec fn visits_rest(v: AbstractConstView, ops: Seq<NodeId>, n: int) -> Seq<
    AbstractConstView,
>
    decreases ops.len() - n,
{
    if n >= ops.len() || n < 0 {
        Seq::empty()
    } else if ops[n] < v.inner.len() - 1 {
        visits(v.subtree(ops[n] as int)) + visits_rest(v, ops, n + 1)
    } else {
        visits_rest(v, ops, n + 1)
    }
}

/// The views under all operands are those under the first `n` followed by
/// those under the rest.
proof fn lemma_visits_split(v: AbstractConstView, ops: Seq<NodeId>, n: int)
    requires
        0 <= n <= ops.len(),
    ensures
        visits_under(v, ops) == visits_under(v, ops.subrange(0, n)) + visits_rest(v, ops, n),
    decreases ops.len() - n,
{
    if n == ops.len() {
        assert(ops.subrange(0, n) =~= ops);
        assert(visits_under(v, ops) + Seq::empty() =~= visits_under(v, ops));
    } else {
        lemma_visits_split(v, ops, n + 1);
        let longer = ops.subrange(0, n + 1);
        assert(longer.drop_last() =~= ops.subrange(0, n));
        assert(longer.last() == ops[n]);
        if ops[n] < v.inner.len() - 1 {
            assert(visits_under(v, ops.subrange(0, n)) + visits(v.subtree(ops[n] as int))
                + visits_rest(v, ops, n + 1) =~= visits_under(v, ops.subrange(0, n)) + (visits(
                v.subtree(ops[n] as int),
            ) + visits_rest(v, ops, n + 1)));
        }
    }
}

/// Walks the view `ct`: shows `f` the view itself, then walks what lies
/// under each operand of its root, from left to right (for a call, the
/// callee and then the arguments). Stops at the first break that `f` returns
/// and hands it on.
pub fn walk_abstract_const<'a, R, F>(ct: AbstractConst<'a>, f: F) -> (r: ControlFlow<R>) where
    F: Fn(AbstractConst<'a>) -> ControlFlow<R>,

    requires
        ct@.wf(),
        forall|c: AbstractConst<'a>| c@.wf() && visits(ct@).contains(c@) ==> call_requires(f, (c,)),
    ensures
        walk_outcome(f, visits(ct@), r),
{
    recurse(ct, &f)
}

} // verus!
