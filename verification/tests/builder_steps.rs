use const_evaluatable::abstract_const::Node;
use const_evaluatable::builder::{AbstractConstBuilder, BuildErrorKind, BuilderBug};
use const_evaluatable::mir::{
    AggregateKind, BasicBlockData, BinOp, Body, ConstantKind, Operand, Place, ProjectionElem,
    Rvalue, Span, Statement, StatementKind, Terminator, TerminatorKind, UnOp,
};
use const_evaluatable::ty::{Const, ConstKind, Ty};

const USIZE: Ty = Ty::Concrete(0);

fn at(n: u32) -> Span {
    Span { lo: n, hi: n + 1 }
}

fn bare(l: usize) -> Place {
    Place { local: l, projection: vec![] }
}

fn deref(l: usize) -> Place {
    Place { local: l, projection: vec![ProjectionElem::Deref] }
}

fn leaf(v: u128) -> Const {
    Const { ty: USIZE, val: ConstKind::Value(v) }
}

fn lit(v: u128) -> Operand {
    Operand::Constant(ConstantKind::Ty(leaf(v)))
}

fn empty_body(local_count: usize) -> Body {
    Body {
        basic_blocks: vec![BasicBlockData {
            statements: vec![],
            terminator: Terminator { span: at(0), kind: TerminatorKind::Return },
        }],
        local_count,
        span: at(500),
        is_polymorphic: true,
    }
}

fn set(span: u32, place: Place, rvalue: Rvalue) -> Statement {
    Statement { span: at(span), kind: StatementKind::Assign(place, rvalue) }
}

/// What can be seen of a builder: each node with its mark, the locals, the
/// flags of the locals.
fn state(b: &AbstractConstBuilder<'_>) -> (Vec<(Node, Span, bool)>, Vec<usize>, Vec<bool>) {
    (
        b.nodes.iter().map(|n| (n.node.clone(), n.span, n.used)).collect(),
        b.locals.clone(),
        b.checked_op_locals.clone(),
    )
}

/// A builder in which local 1 holds the leaf `7`.
fn started(body: &Body) -> AbstractConstBuilder<'_> {
    let mut b = AbstractConstBuilder::new(body).unwrap().unwrap();
    assert_eq!(b.build_statement(&set(1, bare(1), Rvalue::Use(lit(7)))), Ok(()));
    b
}

#[test]
fn new_builder_holds_no_node() {
    let body = empty_body(3);
    let b = AbstractConstBuilder::new(&body).unwrap().unwrap();
    assert_eq!(state(&b), (vec![], vec![usize::MAX; 3], vec![false; 3]));
}

#[test]
fn use_of_a_constant_appends_an_unused_leaf() {
    let body = empty_body(3);
    let b = started(&body);
    assert_eq!(
        state(&b),
        (
            vec![(Node::Leaf(leaf(7)), at(1), false)],
            vec![usize::MAX, 0, usize::MAX],
            vec![false; 3]
        )
    );
}

#[test]
fn unsupported_rvalue_leaves_the_builder_as_it_was() {
    let body = empty_body(3);
    for rvalue in [
        Rvalue::Ref(bare(1)),
        Rvalue::Len(bare(1)),
        Rvalue::Discriminant(bare(1)),
        Rvalue::AddressOf(bare(1)),
        Rvalue::Repeat(lit(1)),
        Rvalue::NullaryOp(USIZE),
        Rvalue::Aggregate(AggregateKind::Tuple, vec![lit(1)]),
        Rvalue::BinaryOp(BinOp::Offset, lit(1), lit(2)),
        Rvalue::CheckedBinaryOp(BinOp::Offset, lit(1), lit(2)),
    ] {
        let mut b = started(&body);
        let before = state(&b);
        let err = b.build_statement(&set(9, bare(1), rvalue)).unwrap_err();
        assert_eq!(err.kind, BuildErrorKind::UnsupportedRvalue);
        assert_eq!(err.label_span, at(9));
        assert_eq!(err.span, at(500));
        assert_eq!(state(&b), before);
    }
}

#[test]
fn unsupported_statement_and_refused_destination_leave_the_builder_as_it_was() {
    let body = empty_body(3);
    let mut b = started(&body);
    let before = state(&b);
    let nop = Statement { span: at(9), kind: StatementKind::Retag };
    assert_eq!(b.build_statement(&nop).unwrap_err().kind, BuildErrorKind::UnsupportedStatement);
    assert_eq!(state(&b), before);
    let err = b.build_statement(&set(9, deref(1), Rvalue::Use(lit(1)))).unwrap_err();
    assert_eq!(err.kind, BuildErrorKind::UnsupportedProjection);
    assert_eq!(state(&b), before);
    let err = b.build_statement(&set(9, bare(8), Rvalue::Use(lit(1)))).unwrap_err();
    assert_eq!(err.kind, BuildErrorKind::Bug(BuilderBug::LocalOutOfRange));
    assert_eq!(state(&b), before);
}

#[test]
fn refused_operand_appends_no_node() {
    let body = empty_body(3);
    let mut b = started(&body);
    let before = state(&b);
    let err = b.operand_to_node(at(9), &Operand::Copy(deref(1))).unwrap_err();
    assert_eq!(err.kind, BuildErrorKind::UnsupportedProjection);
    assert_eq!(state(&b), before);
    let err = b.operand_to_node(at(9), &Operand::Constant(ConstantKind::Val)).unwrap_err();
    assert_eq!(err.kind, BuildErrorKind::UnsupportedConstant);
    assert_eq!(state(&b), before);
    assert_eq!(b.operand_to_node(at(9), &Operand::Move(bare(1))), Ok(0));
    assert_eq!(state(&b), before);
    assert_eq!(b.operand_to_node(at(9), &lit(3)), Ok(1));
    assert_eq!(b.nodes.len(), 2);
    assert_eq!(b.locals, before.1);
}

#[test]
fn refused_second_operand_keeps_the_first_and_the_destination() {
    let body = empty_body(3);
    let mut b = started(&body);
    let err = b
        .build_statement(&set(
            9,
            bare(1),
            Rvalue::CheckedBinaryOp(BinOp::Add, lit(3), Operand::Copy(deref(2))),
        ))
        .unwrap_err();
    assert_eq!(err.kind, BuildErrorKind::UnsupportedProjection);
    assert_eq!(
        state(&b),
        (
            vec![(Node::Leaf(leaf(7)), at(1), false), (Node::Leaf(leaf(3)), at(9), false)],
            vec![usize::MAX, 0, usize::MAX],
            vec![false; 3]
        )
    );
}

#[test]
fn operation_on_a_local_without_a_node_marks_nothing() {
    let body = empty_body(3);
    let mut b = started(&body);
    let before = state(&b);
    let err = b
        .build_statement(&set(9, bare(0), Rvalue::UnaryOp(UnOp::Neg, Operand::Copy(bare(2)))))
        .unwrap_err();
    assert_eq!(err.kind, BuildErrorKind::Bug(BuilderBug::DanglingOperand));
    assert_eq!(state(&b), before);
}

#[test]
fn binary_operation_marks_its_operands_and_holds_the_new_node() {
    let body = empty_body(3);
    let mut b = started(&body);
    let plain = Rvalue::BinaryOp(BinOp::Add, Operand::Copy(bare(1)), lit(3));
    assert_eq!(b.build_statement(&set(9, bare(2), plain)), Ok(()));
    assert_eq!(
        state(&b),
        (
            vec![
                (Node::Leaf(leaf(7)), at(1), true),
                (Node::Leaf(leaf(3)), at(9), true),
                (Node::Binop(BinOp::Add, 0, 1), at(9), false),
            ],
            vec![usize::MAX, 0, 2],
            vec![false; 3]
        )
    );
    let checked = Rvalue::CheckedBinaryOp(BinOp::Mul, Operand::Copy(bare(2)), lit(2));
    assert_eq!(b.build_statement(&set(10, bare(0), checked)), Ok(()));
    assert_eq!(b.nodes.len(), 5);
    assert_eq!(b.nodes[4].node, Node::Binop(BinOp::Mul, 2, 3));
    assert!(b.nodes[2].used);
    assert_eq!(b.locals, vec![4, 0, 2]);
    assert_eq!(b.checked_op_locals, vec![true, false, false]);
}

fn call(cleanup: Option<usize>, from_hir_call: bool, dest: Option<(Place, usize)>) -> Terminator {
    Terminator {
        span: at(20),
        kind: TerminatorKind::Call {
            func: lit(1),
            args: vec![lit(2)],
            destination: dest,
            cleanup,
            from_hir_call,
            fn_span: at(21),
        },
    }
}

#[test]
fn unsupported_terminator_leaves_the_builder_as_it_was() {
    let body = empty_body(3);
    for kind in [
        TerminatorKind::SwitchInt { targets: vec![0] },
        TerminatorKind::Unreachable,
        TerminatorKind::Resume,
        TerminatorKind::Abort,
        TerminatorKind::Drop { target: 0, unwind: None },
        TerminatorKind::Assert {
            cond: Operand::Copy(bare(1)),
            expected: true,
            target: 0,
            cleanup: None,
        },
        call(Some(0), true, Some((bare(2), 0))).kind,
        call(None, false, Some((bare(2), 0))).kind,
        call(None, true, None).kind,
    ] {
        let mut b = started(&body);
        let before = state(&b);
        let err = b.build_terminator(&Terminator { span: at(20), kind }).unwrap_err();
        assert_eq!(err.kind, BuildErrorKind::UnsupportedTerminator);
        assert_eq!(err.label_span, at(20));
        assert_eq!(state(&b), before);
    }
}

#[test]
fn refused_assertion_leaves_the_builder_as_it_was() {
    let body = empty_body(3);
    let mut b = started(&body);
    let before = state(&b);
    for cond in [Operand::Copy(deref(1)), lit(0), Operand::Copy(bare(2)), Operand::Copy(bare(9))] {
        let t = Terminator {
            span: at(20),
            kind: TerminatorKind::Assert { cond, expected: false, target: 0, cleanup: None },
        };
        assert!(b.build_terminator(&t).is_err());
        assert_eq!(state(&b), before);
    }
}

#[test]
fn accepted_call_holds_a_node_over_callee_and_arguments() {
    let body = empty_body(3);
    let mut b = started(&body);
    assert_eq!(b.build_terminator(&call(None, true, Some((bare(2), 4)))), Ok(Some(4)));
    assert_eq!(
        state(&b),
        (
            vec![
                (Node::Leaf(leaf(7)), at(1), false),
                (Node::Leaf(leaf(1)), at(21), true),
                (Node::Leaf(leaf(2)), at(20), true),
                (Node::FunctionCall(1, vec![2]), at(21), false),
            ],
            vec![usize::MAX, 0, 3],
            vec![false; 3]
        )
    );
}

#[test]
fn call_to_a_refused_destination_appends_nothing() {
    let body = empty_body(3);
    let mut b = started(&body);
    let before = state(&b);
    let err = b.build_terminator(&call(None, true, Some((deref(2), 4)))).unwrap_err();
    assert_eq!(err.kind, BuildErrorKind::UnsupportedProjection);
    assert_eq!(err.label_span, at(21));
    assert_eq!(state(&b), before);
}

#[test]
fn assertion_on_a_bare_local_marks_its_node() {
    let body = empty_body(3);
    let mut b = started(&body);
    let t = Terminator {
        span: at(20),
        kind: TerminatorKind::Assert {
            cond: Operand::Move(bare(1)),
            expected: false,
            target: 6,
            cleanup: None,
        },
    };
    assert_eq!(b.build_terminator(&t), Ok(Some(6)));
    assert_eq!(
        state(&b),
        (vec![(Node::Leaf(leaf(7)), at(1), true)], vec![usize::MAX, 0, usize::MAX], vec![false; 3])
    );
}
