use const_evaluatable::abstract_const::{AbstractConst, Node};
use const_evaluatable::builder::BuildErrorKind;
use const_evaluatable::context::{ConstContext, DefKind, Definition};
use const_evaluatable::evaluatable::fact_discharges;
use const_evaluatable::mir::{
    BasicBlockData, BinOp, Body, ConstantKind, Operand, Place, Rvalue, Span, Statement,
    StatementKind, Terminator, TerminatorKind,
};
use const_evaluatable::ty::{Const, ConstKind, DefId, GenericArg, Ty, Unevaluated};
use const_evaluatable::unify::try_unify;

const USIZE: Ty = Ty::Concrete(0);

fn here(n: u32) -> Span {
    Span { lo: n, hi: n }
}

fn single(c: Const, terminator: TerminatorKind, span: u32) -> Definition {
    Definition {
        kind: DefKind::AnonConst,
        local: true,
        body: Body {
            basic_blocks: vec![BasicBlockData {
                statements: vec![Statement {
                    span: here(span + 1),
                    kind: StatementKind::Assign(
                        Place { local: 0, projection: vec![] },
                        Rvalue::Use(Operand::Constant(ConstantKind::Ty(c))),
                    ),
                }],
                terminator: Terminator { span: here(span + 2), kind: terminator },
            }],
            local_count: 1,
            span: here(span),
            is_polymorphic: true,
        },
    }
}

fn n() -> Const {
    Const { ty: USIZE, val: ConstKind::Param(0) }
}

#[test]
fn failed_builds_are_listed_once_each_in_order() {
    let ctx = ConstContext::new(
        true,
        4,
        vec![
            single(n(), TerminatorKind::Return, 10),
            single(n(), TerminatorKind::Unreachable, 20),
            single(n(), TerminatorKind::Goto { target: 0 }, 30),
            single(n(), TerminatorKind::Return, 40),
            single(n(), TerminatorKind::Abort, 50),
        ],
    );
    let errors = ctx.build_errors();
    assert_eq!(errors.len(), 3);
    assert_eq!(errors[0].0, DefId { index: 1 });
    assert_eq!(errors[0].1.kind, BuildErrorKind::UnsupportedTerminator);
    assert_eq!(errors[0].1.span, here(20));
    assert_eq!(errors[0].1.label_span, here(22));
    assert_eq!(errors[1].0, DefId { index: 2 });
    assert_eq!(errors[1].1.kind, BuildErrorKind::CyclicCfg);
    assert_eq!(errors[1].1.label_span, here(30));
    assert_eq!(errors[2].0, DefId { index: 4 });
    assert_eq!(errors[2].1, ctx.mir_abstract_const(DefId { index: 4 }).unwrap_err());
}

#[test]
fn no_failed_builds_without_failures_or_without_graphs() {
    let good = vec![single(n(), TerminatorKind::Return, 10)];
    assert!(ConstContext::new(true, 4, good).build_errors().is_empty());
    let bad = vec![single(n(), TerminatorKind::Unreachable, 10)];
    assert!(ConstContext::new(false, 4, bad).build_errors().is_empty());
    assert!(ConstContext::new(true, 4, vec![]).build_errors().is_empty());
}

#[test]
fn fact_discharges_through_a_node_deep_under_its_root() {
    let ctx = ConstContext::new(true, 4, vec![]);
    let none = vec![];
    // ((N + 1) * 2) - N
    let fact = vec![
        Node::Leaf(n()),
        Node::Leaf(Const { ty: USIZE, val: ConstKind::Value(1) }),
        Node::Binop(BinOp::Add, 0, 1),
        Node::Leaf(Const { ty: USIZE, val: ConstKind::Value(2) }),
        Node::Binop(BinOp::Mul, 2, 3),
        Node::Binop(BinOp::Sub, 4, 0),
    ];
    let fact = AbstractConst { inner: &fact, substs: &none };
    for node in 0..6 {
        let query = fact.subtree(node);
        assert!(try_unify(&ctx, query, fact.subtree(node)));
        assert!(fact_discharges(&ctx, query, fact));
    }
}

#[test]
fn fact_does_not_discharge_through_a_node_that_is_not_under_its_root() {
    let ctx = ConstContext::new(true, 4, vec![]);
    let none = vec![];
    // the comparison `M == 0` is kept for an assertion only; the root is `N / M`
    let m = Const { ty: USIZE, val: ConstKind::Param(1) };
    let fact = vec![
        Node::Leaf(m.clone()),
        Node::Leaf(Const { ty: USIZE, val: ConstKind::Value(0) }),
        Node::Binop(BinOp::Eq, 0, 1),
        Node::Leaf(n()),
        Node::Leaf(m),
        Node::Binop(BinOp::Div, 3, 4),
    ];
    let fact = AbstractConst { inner: &fact, substs: &none };
    assert!(!fact_discharges(&ctx, fact.subtree(2), fact));
    assert!(!fact_discharges(&ctx, fact.subtree(1), fact));
    assert!(fact_discharges(&ctx, fact.subtree(0), fact));
    assert!(fact_discharges(&ctx, fact.subtree(3), fact));
}

#[test]
fn larger_limit_changes_nothing_once_the_limit_suffices() {
    // definition 0 is the leaf `P0`; definition k + 1 is a use of definition k
    let mut defs = vec![single(n(), TerminatorKind::Return, 0)];
    for k in 0..3 {
        let inner = Const {
            ty: USIZE,
            val: ConstKind::Unevaluated(Unevaluated {
                def: DefId { index: k },
                substs: vec![GenericArg::Const(n())],
                promoted: None,
            }),
        };
        defs.push(single(inner, TerminatorKind::Return, 10));
    }
    let none = vec![];
    let outer = vec![Node::Leaf(Const {
        ty: USIZE,
        val: ConstKind::Unevaluated(Unevaluated {
            def: DefId { index: 3 },
            substs: vec![GenericArg::Const(n())],
            promoted: None,
        }),
    })];
    let plain = vec![Node::Leaf(n())];
    for (limit, expected) in [(0, false), (3, false), (4, true), (5, true), (50, true)] {
        let ctx = ConstContext::new(true, limit, defs.clone());
        let a = AbstractConst { inner: &outer, substs: &none };
        let b = AbstractConst { inner: &plain, substs: &none };
        assert_eq!(try_unify(&ctx, a, b), expected);
        assert_eq!(try_unify(&ctx, b, a), expected);
    }
}
