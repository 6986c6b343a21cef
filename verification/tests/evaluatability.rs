use const_evaluatable::abstract_const::{AbstractConst, ErrorReported, Node, NotConstEvaluatable};
use const_evaluatable::context::{ConstContext, DefKind, Definition};
use const_evaluatable::evaluatable::{
    check_abstract, classify, conclude, fact_discharges, is_const_evaluatable, Diagnostic,
    ErrorHandled, FailureKind, ParamEnv, Predicate,
};
use const_evaluatable::mir::{
    BasicBlockData, BinOp, Body, CastKind, ConstantKind, Operand, Place, ProjectionElem, Rvalue,
    Span, Statement, StatementKind, Terminator, TerminatorKind,
};
use const_evaluatable::ty::{Const, ConstKind, DefId, GenericArg, Ty, Unevaluated};
use const_evaluatable::walk::walk_abstract_const;
use std::cell::RefCell;
use std::ops::ControlFlow;

const USIZE: Ty = Ty::Concrete(0);

fn sp(n: u32) -> Span {
    Span { lo: n, hi: n + 1 }
}

fn local(l: usize) -> Place {
    Place { local: l, projection: vec![] }
}

fn field(l: usize, f: usize) -> Place {
    Place { local: l, projection: vec![ProjectionElem::Field(f, USIZE)] }
}

fn param(i: usize) -> Const {
    Const { ty: USIZE, val: ConstKind::Param(i) }
}

fn value(v: u128) -> Const {
    Const { ty: USIZE, val: ConstKind::Value(v) }
}

fn constant(c: Const) -> Operand {
    Operand::Constant(ConstantKind::Ty(c))
}

fn assign(place: Place, rvalue: Rvalue) -> Statement {
    Statement { span: sp(1), kind: StatementKind::Assign(place, rvalue) }
}

fn overflow_check(l: usize, target: usize) -> Terminator {
    Terminator {
        span: sp(2),
        kind: TerminatorKind::Assert {
            cond: Operand::Move(field(l, 1)),
            expected: false,
            target,
            cleanup: None,
        },
    }
}

fn ret() -> Terminator {
    Terminator { span: sp(3), kind: TerminatorKind::Return }
}

fn anon(basic_blocks: Vec<BasicBlockData>, local_count: usize) -> Definition {
    Definition {
        kind: DefKind::AnonConst,
        local: true,
        body: Body { basic_blocks, local_count, span: sp(0), is_polymorphic: true },
    }
}

/// `P0 + 1`
fn n_plus_one() -> Definition {
    anon(
        vec![
            BasicBlockData {
                statements: vec![assign(
                    local(1),
                    Rvalue::CheckedBinaryOp(BinOp::Add, constant(param(0)), constant(value(1))),
                )],
                terminator: overflow_check(1, 1),
            },
            BasicBlockData {
                statements: vec![assign(local(0), Rvalue::Use(Operand::Move(field(1, 0))))],
                terminator: ret(),
            },
        ],
        2,
    )
}

/// `(P0 + 1) * 2`
fn n_plus_one_times_two() -> Definition {
    anon(
        vec![
            BasicBlockData {
                statements: vec![assign(
                    local(1),
                    Rvalue::CheckedBinaryOp(BinOp::Add, constant(param(0)), constant(value(1))),
                )],
                terminator: overflow_check(1, 1),
            },
            BasicBlockData {
                statements: vec![assign(
                    local(2),
                    Rvalue::CheckedBinaryOp(
                        BinOp::Mul,
                        Operand::Move(field(1, 0)),
                        constant(value(2)),
                    ),
                )],
                terminator: overflow_check(2, 2),
            },
            BasicBlockData {
                statements: vec![assign(local(0), Rvalue::Use(Operand::Move(field(2, 0))))],
                terminator: ret(),
            },
        ],
        3,
    )
}

/// The single leaf `c`.
fn leaf(c: Const) -> Definition {
    anon(
        vec![BasicBlockData {
            statements: vec![assign(local(0), Rvalue::Use(constant(c)))],
            terminator: ret(),
        }],
        1,
    )
}

fn broken() -> Definition {
    let mut d = leaf(param(0));
    d.body.basic_blocks[0].terminator.kind = TerminatorKind::Unreachable;
    d
}

fn uv(def: usize, substs: Vec<GenericArg>) -> Unevaluated {
    Unevaluated { def: DefId { index: def }, substs, promoted: None }
}

fn n() -> Vec<GenericArg> {
    vec![GenericArg::Const(param(0))]
}

fn env(bounds: Vec<Predicate>) -> ParamEnv {
    ParamEnv { caller_bounds: bounds }
}

fn never(_: &ParamEnv, _: &Unevaluated, _: Span) -> Result<u128, ErrorHandled> {
    panic!("the constant must not be evaluated")
}

#[test]
fn fact_about_a_larger_expression_discharges_a_part_of_it() {
    let ctx = ConstContext::new(true, 8, vec![n_plus_one(), n_plus_one_times_two()]);
    let query = uv(0, n());
    let env = env(vec![Predicate::Other, Predicate::ConstEvaluatable(uv(1, n()))]);
    assert_eq!(is_const_evaluatable(&ctx, &query, &env, sp(9), never), (Ok(()), None));
    assert_eq!(check_abstract(&ctx, &query, &env), Some(Ok(())));
}

#[test]
fn fact_about_a_part_does_not_discharge_the_whole() {
    let ctx = ConstContext::new(true, 8, vec![n_plus_one(), n_plus_one_times_two()]);
    let query = uv(1, n());
    let env = env(vec![Predicate::ConstEvaluatable(uv(0, n()))]);
    assert_eq!(
        is_const_evaluatable(&ctx, &query, &env, sp(9), never),
        (Err(NotConstEvaluatable::MentionsParam), None)
    );
}

#[test]
fn fact_under_another_substitution_does_not_discharge() {
    let ctx = ConstContext::new(true, 8, vec![n_plus_one(), n_plus_one_times_two()]);
    let query = uv(0, n());
    let m = vec![GenericArg::Const(param(1))];
    let env = env(vec![Predicate::ConstEvaluatable(uv(1, m))]);
    assert_eq!(check_abstract(&ctx, &query, &env), Some(Err(NotConstEvaluatable::MentionsParam)));
}

#[test]
fn exact_fact_discharges() {
    let ctx = ConstContext::new(true, 8, vec![n_plus_one()]);
    let env = env(vec![Predicate::ConstEvaluatable(uv(0, n()))]);
    assert_eq!(check_abstract(&ctx, &uv(0, n()), &env), Some(Ok(())));
}

#[test]
fn discharge_searches_every_view_of_the_fact() {
    let ctx = ConstContext::new(true, 8, vec![]);
    let substs = vec![];
    let fact = vec![
        Node::Leaf(param(0)),
        Node::Leaf(value(1)),
        Node::Binop(BinOp::Add, 0, 1),
        Node::Leaf(value(2)),
        Node::Binop(BinOp::Mul, 2, 3),
    ];
    let fact = AbstractConst { inner: &fact, substs: &substs };
    for (g, expected) in [
        (vec![Node::Leaf(param(0))], true),
        (vec![Node::Leaf(value(1))], true),
        (vec![Node::Leaf(value(2))], true),
        (vec![Node::Leaf(value(3))], false),
        (vec![Node::Leaf(param(0)), Node::Leaf(value(1)), Node::Binop(BinOp::Add, 0, 1)], true),
        (vec![Node::Leaf(value(1)), Node::Leaf(param(0)), Node::Binop(BinOp::Add, 0, 1)], false),
        (vec![Node::Leaf(value(1)), Node::Leaf(value(2)), Node::Binop(BinOp::Mul, 0, 1)], false),
    ] {
        let query = AbstractConst { inner: &g, substs: &substs };
        assert_eq!(fact_discharges(&ctx, query, fact), expected);
    }
}

#[test]
fn undischarged_generic_constant_mentions_its_parameter() {
    let ctx = ConstContext::new(true, 8, vec![n_plus_one()]);
    assert_eq!(
        is_const_evaluatable(&ctx, &uv(0, n()), &env(vec![]), sp(9), never),
        (Err(NotConstEvaluatable::MentionsParam), None)
    );
}

#[test]
fn inference_placeholder_counts_before_a_parameter() {
    // (P0 + 1) * 2 read under [?0]: the leaf is a placeholder
    let ctx = ConstContext::new(true, 8, vec![n_plus_one_times_two(), leaf(param(1))]);
    let placeholder = vec![GenericArg::Const(Const { ty: USIZE, val: ConstKind::Infer(0) })];
    assert_eq!(
        is_const_evaluatable(&ctx, &uv(0, placeholder), &env(vec![]), sp(9), never),
        (Err(NotConstEvaluatable::MentionsInfer), None)
    );
    let g = vec![
        Node::Leaf(param(0)),
        Node::Leaf(Const { ty: USIZE, val: ConstKind::Infer(0) }),
        Node::Binop(BinOp::Add, 0, 1),
    ];
    let none = vec![];
    assert_eq!(classify(AbstractConst { inner: &g, substs: &none }), FailureKind::MentionsInfer);
    let g = vec![
        Node::Leaf(Const { ty: USIZE, val: ConstKind::Infer(0) }),
        Node::Leaf(param(0)),
        Node::Binop(BinOp::Add, 0, 1),
    ];
    assert_eq!(classify(AbstractConst { inner: &g, substs: &none }), FailureKind::MentionsInfer);
}

#[test]
fn classification_reads_the_leaves_after_substitution() {
    let none = vec![];
    let concrete = vec![GenericArg::Const(value(4)), GenericArg::Type(Ty::Concrete(7))];
    let leaf = vec![Node::Leaf(param(0))];
    assert_eq!(classify(AbstractConst { inner: &leaf, substs: &none }), FailureKind::MentionsParam);
    assert_eq!(classify(AbstractConst { inner: &leaf, substs: &concrete }), FailureKind::Concrete);
    // the type of a leaf is part of the leaf
    let typed = vec![Node::Leaf(Const { ty: Ty::Param(1), val: ConstKind::Value(1) })];
    assert_eq!(classify(AbstractConst { inner: &typed, substs: &none }), FailureKind::MentionsParam);
    assert_eq!(classify(AbstractConst { inner: &typed, substs: &concrete }), FailureKind::Concrete);
    let to_infer = vec![GenericArg::Const(value(4)), GenericArg::Type(Ty::Infer(7))];
    assert_eq!(
        classify(AbstractConst { inner: &typed, substs: &to_infer }),
        FailureKind::MentionsInfer
    );
    // the target type of a cast is not
    let cast = vec![Node::Leaf(value(1)), Node::Cast(CastKind::Misc, 0, Ty::Param(1))];
    assert_eq!(classify(AbstractConst { inner: &cast, substs: &none }), FailureKind::Concrete);
    assert_eq!(classify(AbstractConst { inner: &cast, substs: &to_infer }), FailureKind::Concrete);
    let cast = vec![Node::Leaf(param(0)), Node::Cast(CastKind::Misc, 0, Ty::Concrete(1))];
    assert_eq!(classify(AbstractConst { inner: &cast, substs: &none }), FailureKind::MentionsParam);
    // a node that is not under the root does not count
    let dead = vec![Node::Leaf(param(0)), Node::Leaf(value(1))];
    assert_eq!(classify(AbstractConst { inner: &dead, substs: &none }), FailureKind::Concrete);
}

#[test]
fn concrete_arguments_leave_the_verdict_to_evaluation() {
    let ctx = ConstContext::new(true, 8, vec![n_plus_one()]);
    let three = vec![GenericArg::Const(value(3))];
    assert_eq!(check_abstract(&ctx, &uv(0, three.clone()), &env(vec![])), None);
    let calls = RefCell::new(0);
    let r = is_const_evaluatable(&ctx, &uv(0, three.clone()), &env(vec![]), sp(9), |_, u, s| {
        *calls.borrow_mut() += 1;
        assert_eq!(u, &uv(0, three.clone()));
        assert_eq!(s, sp(9));
        Ok(4)
    });
    assert_eq!(r, (Ok(()), None));
    assert_eq!(*calls.borrow(), 1);
}

#[test]
fn evaluation_errors_are_handed_on() {
    let ctx = ConstContext::new(true, 8, vec![n_plus_one()]);
    let three = vec![GenericArg::Const(value(3))];
    let r = is_const_evaluatable(&ctx, &uv(0, three), &env(vec![]), sp(9), |_, _, _| {
        Err(ErrorHandled::Reported(ErrorReported))
    });
    assert_eq!(r, (Err(NotConstEvaluatable::Error(ErrorReported)), None));
}

#[test]
fn definition_without_a_graph_is_evaluated() {
    let mut named = n_plus_one();
    named.kind = DefKind::Const;
    let ctx = ConstContext::new(true, 8, vec![named]);
    assert_eq!(check_abstract(&ctx, &uv(0, n()), &env(vec![])), None);
    assert_eq!(check_abstract(&ctx, &uv(42, n()), &env(vec![])), None);
    let r = is_const_evaluatable(&ctx, &uv(42, vec![]), &env(vec![]), sp(9), |_, _, _| Ok(1));
    assert_eq!(r, (Ok(()), None));
}

#[test]
fn without_generic_const_exprs_everything_is_evaluated() {
    let ctx = ConstContext::new(false, 8, vec![n_plus_one(), broken()]);
    assert_eq!(check_abstract(&ctx, &uv(0, n()), &env(vec![])), None);
    assert_eq!(check_abstract(&ctx, &uv(1, n()), &env(vec![])), None);
    let r = is_const_evaluatable(&ctx, &uv(0, n()), &env(vec![]), sp(9), |_, _, _| {
        Err(ErrorHandled::TooGeneric)
    });
    assert_eq!(r, (Err(NotConstEvaluatable::MentionsParam), None));
}

#[test]
fn failed_build_of_the_query_is_an_error() {
    let ctx = ConstContext::new(true, 8, vec![broken()]);
    assert_eq!(
        is_const_evaluatable(&ctx, &uv(0, n()), &env(vec![]), sp(9), never),
        (Err(NotConstEvaluatable::Error(ErrorReported)), None)
    );
}

#[test]
fn failed_build_of_a_fact_is_an_error_unless_an_earlier_fact_discharges() {
    let ctx = ConstContext::new(true, 8, vec![n_plus_one(), broken()]);
    let bad_first = env(vec![
        Predicate::ConstEvaluatable(uv(1, n())),
        Predicate::ConstEvaluatable(uv(0, n())),
    ]);
    assert_eq!(
        check_abstract(&ctx, &uv(0, n()), &bad_first),
        Some(Err(NotConstEvaluatable::Error(ErrorReported)))
    );
    let good_first = env(vec![
        Predicate::ConstEvaluatable(uv(0, n())),
        Predicate::ConstEvaluatable(uv(1, n())),
    ]);
    assert_eq!(check_abstract(&ctx, &uv(0, n()), &good_first), Some(Ok(())));
}

#[test]
fn facts_without_a_graph_are_passed_over() {
    let ctx = ConstContext::new(true, 8, vec![n_plus_one()]);
    let e = env(vec![
        Predicate::ConstEvaluatable(uv(17, n())),
        Predicate::Other,
        Predicate::ConstEvaluatable(uv(0, n())),
    ]);
    assert_eq!(check_abstract(&ctx, &uv(0, n()), &e), Some(Ok(())));
}

fn named_const(local: bool) -> Definition {
    let mut d = n_plus_one();
    d.kind = DefKind::Const;
    d.local = local;
    d
}

#[test]
fn evaluated_generic_constant_is_accepted_with_one_warning() {
    let ctx = ConstContext::new(true, 8, vec![named_const(true)]);
    let u = uv(0, n());
    let expected = Diagnostic::ConstEvaluatableUnchecked { def: DefId { index: 0 }, span: sp(9) };
    assert_eq!(conclude(&ctx, &u, sp(9), Ok(5)), (Ok(()), Some(expected)));
    assert_eq!(
        is_const_evaluatable(&ctx, &u, &env(vec![]), sp(9), |_, _, _| Ok(5)),
        (Ok(()), Some(expected))
    );
    assert_eq!(
        expected.message(),
        "cannot use constants which depend on generic parameters in types"
    );
}

#[test]
fn no_warning_for_concrete_arguments_or_foreign_definitions() {
    let ctx = ConstContext::new(true, 8, vec![named_const(true), named_const(false)]);
    let three = vec![GenericArg::Const(value(3))];
    assert_eq!(conclude(&ctx, &uv(0, three), sp(9), Ok(5)), (Ok(()), None));
    assert_eq!(conclude(&ctx, &uv(1, n()), sp(9), Ok(5)), (Ok(()), None));
    assert_eq!(conclude(&ctx, &uv(77, n()), sp(9), Ok(5)), (Ok(()), None));
}

#[test]
fn warning_for_a_constant_written_in_place_depends_on_its_body() {
    let mut concrete_body = n_plus_one();
    concrete_body.body.is_polymorphic = false;
    let ctx = ConstContext::new(false, 8, vec![n_plus_one(), concrete_body]);
    let lint = |def| Some(Diagnostic::ConstEvaluatableUnchecked { def: DefId { index: def }, span: sp(9) });
    assert_eq!(conclude(&ctx, &uv(0, n()), sp(9), Ok(5)), (Ok(()), lint(0)));
    assert_eq!(conclude(&ctx, &uv(1, n()), sp(9), Ok(5)), (Ok(()), None));
}

#[test]
fn too_generic_evaluation_names_what_is_mentioned() {
    let ctx = ConstContext::new(true, 8, vec![named_const(true)]);
    let too_generic = Err(ErrorHandled::TooGeneric);
    assert_eq!(
        conclude(&ctx, &uv(0, n()), sp(9), too_generic),
        (Err(NotConstEvaluatable::MentionsParam), None)
    );
    let placeholder = vec![
        GenericArg::Const(param(0)),
        GenericArg::Const(Const { ty: USIZE, val: ConstKind::Infer(0) }),
    ];
    assert_eq!(
        conclude(&ctx, &uv(0, placeholder), sp(9), too_generic),
        (Err(NotConstEvaluatable::MentionsInfer), None)
    );
    assert_eq!(
        conclude(&ctx, &uv(0, vec![]), sp(9), too_generic),
        (Err(NotConstEvaluatable::MentionsParam), None)
    );
}

#[test]
fn linted_evaluation_is_an_error_with_a_delayed_bug() {
    let ctx = ConstContext::new(true, 8, vec![named_const(true)]);
    let bug = Diagnostic::DelayedBug { span: sp(9) };
    assert_eq!(
        conclude(&ctx, &uv(0, n()), sp(9), Err(ErrorHandled::Linted)),
        (Err(NotConstEvaluatable::Error(ErrorReported)), Some(bug))
    );
    assert_eq!(bug.message(), "constant in type had error reported as lint");
    assert_eq!(
        conclude(&ctx, &uv(0, n()), sp(9), Err(ErrorHandled::Reported(ErrorReported))),
        (Err(NotConstEvaluatable::Error(ErrorReported)), None)
    );
}

fn roots(ct: AbstractConst<'_>) -> Vec<usize> {
    let seen = RefCell::new(Vec::new());
    let r: ControlFlow<()> = walk_abstract_const(ct, |v: AbstractConst<'_>| {
        seen.borrow_mut().push(v.inner.len() - 1);
        ControlFlow::Continue(())
    });
    assert_eq!(r, ControlFlow::Continue(()));
    seen.into_inner()
}

#[test]
fn walk_visits_in_preorder_left_to_right() {
    let none = vec![];
    let g = vec![
        Node::Leaf(param(0)),
        Node::Leaf(value(1)),
        Node::Binop(BinOp::Add, 0, 1),
        Node::Leaf(value(2)),
        Node::Binop(BinOp::Mul, 2, 3),
    ];
    assert_eq!(roots(AbstractConst { inner: &g, substs: &none }), vec![4, 2, 0, 1, 3]);
    let call = vec![
        Node::Leaf(param(0)),
        Node::Leaf(value(1)),
        Node::Leaf(value(2)),
        Node::Cast(CastKind::Misc, 2, USIZE),
        Node::FunctionCall(1, vec![3, 0, 3]),
    ];
    assert_eq!(roots(AbstractConst { inner: &call, substs: &none }), vec![4, 1, 3, 2, 0, 3, 2]);
    let single = vec![Node::Leaf(param(0))];
    assert_eq!(roots(AbstractConst { inner: &single, substs: &none }), vec![0]);
}

#[test]
fn walk_stops_at_the_first_break() {
    let none = vec![];
    let g = vec![
        Node::Leaf(param(0)),
        Node::Leaf(value(1)),
        Node::Binop(BinOp::Add, 0, 1),
        Node::Leaf(value(2)),
        Node::Binop(BinOp::Mul, 2, 3),
    ];
    let seen = RefCell::new(Vec::new());
    let r = walk_abstract_const(AbstractConst { inner: &g, substs: &none }, |v: AbstractConst<'_>| {
        let root = v.inner.len() - 1;
        seen.borrow_mut().push(root);
        if let Node::Leaf(_) = v.root() {
            ControlFlow::Break(root)
        } else {
            ControlFlow::Continue(())
        }
    });
    assert_eq!(r, ControlFlow::Break(0));
    assert_eq!(seen.into_inner(), vec![4, 2, 0]);
}

#[test]
fn walk_hands_the_substitution_on() {
    let substs = vec![GenericArg::Const(value(5))];
    let g = vec![Node::Leaf(param(0)), Node::Cast(CastKind::Misc, 0, USIZE)];
    let r: ControlFlow<()> = walk_abstract_const(
        AbstractConst { inner: &g, substs: &substs },
        |v: AbstractConst<'_>| {
            assert_eq!(v.substs, &substs);
            ControlFlow::Continue(())
        },
    );
    assert_eq!(r, ControlFlow::Continue(()));
}
