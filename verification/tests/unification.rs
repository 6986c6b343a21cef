use const_evaluatable::abstract_const::{AbstractConst, ErrorReported, Node};
use const_evaluatable::context::{ConstContext, DefKind, Definition};
use const_evaluatable::mir::{
    BasicBlockData, BinOp, Body, CastKind, ConstantKind, Operand, Place, ProjectionElem, Rvalue,
    Span, Statement, StatementKind, Terminator, TerminatorKind, UnOp,
};
use const_evaluatable::ty::{Const, ConstKind, DefId, GenericArg, Ty, Unevaluated};
use const_evaluatable::unify::{try_unify, try_unify_abstract_consts};

const USIZE: Ty = Ty::Concrete(0);
const U8: Ty = Ty::Concrete(1);

fn param(i: usize) -> Const {
    Const { ty: USIZE, val: ConstKind::Param(i) }
}

fn value(v: u128) -> Const {
    Const { ty: USIZE, val: ConstKind::Value(v) }
}

fn infer(i: u32) -> Const {
    Const { ty: USIZE, val: ConstKind::Infer(i) }
}

fn uv(def: usize, substs: Vec<GenericArg>) -> Unevaluated {
    Unevaluated { def: DefId { index: def }, substs, promoted: None }
}

fn use_of(def: usize, substs: Vec<GenericArg>) -> Const {
    Const { ty: USIZE, val: ConstKind::Unevaluated(uv(def, substs)) }
}

fn empty_ctx() -> ConstContext {
    ConstContext::new(true, 8, vec![])
}

fn view<'a>(inner: &'a [Node], substs: &'a Vec<GenericArg>) -> AbstractConst<'a> {
    AbstractConst { inner, substs }
}

fn sp(n: u32) -> Span {
    Span { lo: n, hi: n + 1 }
}

/// A definition whose graph is the single leaf `c`.
fn leaf_def(c: Const) -> Definition {
    Definition {
        kind: DefKind::AnonConst,
        local: true,
        body: Body {
            basic_blocks: vec![BasicBlockData {
                statements: vec![Statement {
                    span: sp(1),
                    kind: StatementKind::Assign(
                        Place { local: 0, projection: vec![] },
                        Rvalue::Use(Operand::Constant(ConstantKind::Ty(c))),
                    ),
                }],
                terminator: Terminator { span: sp(2), kind: TerminatorKind::Return },
            }],
            local_count: 1,
            span: sp(0),
            is_polymorphic: true,
        },
    }
}

/// A definition whose body the builder rejects.
fn broken_def() -> Definition {
    let mut d = leaf_def(param(0));
    d.body.basic_blocks[0].terminator.kind = TerminatorKind::Unreachable;
    d
}

#[test]
fn graph_unifies_with_itself() {
    let ctx = empty_ctx();
    let g = vec![
        Node::Leaf(param(0)),
        Node::Leaf(value(1)),
        Node::Binop(BinOp::Add, 0, 1),
        Node::UnaryOp(UnOp::Neg, 2),
        Node::Cast(CastKind::Misc, 3, U8),
        Node::Leaf(use_of(5, vec![GenericArg::Const(param(0))])),
        Node::FunctionCall(5, vec![4, 0]),
    ];
    let substs = vec![GenericArg::Const(infer(3))];
    assert!(try_unify(&ctx, view(&g, &substs), view(&g, &substs)));
}

#[test]
fn operand_order_matters() {
    let ctx = empty_ctx();
    let a = vec![Node::Leaf(param(0)), Node::Leaf(value(1)), Node::Binop(BinOp::Add, 0, 1)];
    let b = vec![Node::Leaf(value(1)), Node::Leaf(param(0)), Node::Binop(BinOp::Add, 0, 1)];
    let substs = vec![];
    assert!(!try_unify(&ctx, view(&a, &substs), view(&b, &substs)));
    assert!(!try_unify(&ctx, view(&b, &substs), view(&a, &substs)));
    assert!(try_unify(&ctx, view(&a, &substs), view(&a, &substs)));
}

#[test]
fn distinct_placeholders_never_unify() {
    let ctx = empty_ctx();
    let a = vec![Node::Leaf(infer(0))];
    let b = vec![Node::Leaf(infer(1))];
    let substs = vec![];
    assert!(!try_unify(&ctx, view(&a, &substs), view(&b, &substs)));
    assert!(try_unify(&ctx, view(&a, &substs), view(&a, &substs)));
}

#[test]
fn placeholders_reached_by_substitution_stay_distinct() {
    let ctx = empty_ctx();
    let g = vec![Node::Leaf(param(0))];
    let sa = vec![GenericArg::Const(infer(0))];
    let sb = vec![GenericArg::Const(infer(1))];
    assert!(!try_unify(&ctx, view(&g, &sa), view(&g, &sb)));
    assert!(try_unify(&ctx, view(&g, &sa), view(&g, &sa)));
}

#[test]
fn leaves_of_different_types_do_not_unify() {
    let ctx = empty_ctx();
    let a = vec![Node::Leaf(Const { ty: USIZE, val: ConstKind::Value(1) })];
    let b = vec![Node::Leaf(Const { ty: U8, val: ConstKind::Value(1) })];
    let substs = vec![];
    assert!(!try_unify(&ctx, view(&a, &substs), view(&b, &substs)));
}

#[test]
fn values_unify_when_equal() {
    let ctx = empty_ctx();
    let one = vec![Node::Leaf(value(1))];
    let two = vec![Node::Leaf(value(2))];
    let substs = vec![];
    assert!(try_unify(&ctx, view(&one, &substs), view(&one, &substs)));
    assert!(!try_unify(&ctx, view(&one, &substs), view(&two, &substs)));
}

#[test]
fn parameters_unify_by_identity_after_substitution() {
    let ctx = empty_ctx();
    let n = vec![Node::Leaf(param(0))];
    let m = vec![Node::Leaf(param(1))];
    let none = vec![];
    assert!(!try_unify(&ctx, view(&n, &none), view(&m, &none)));
    // N under [7] against the value 7
    let seven = vec![Node::Leaf(value(7))];
    let to_seven = vec![GenericArg::Const(value(7))];
    assert!(try_unify(&ctx, view(&n, &to_seven), view(&seven, &none)));
    // M under [_, N] against N
    let to_n = vec![GenericArg::Const(value(0)), GenericArg::Const(param(0))];
    assert!(try_unify(&ctx, view(&m, &to_n), view(&n, &none)));
}

#[test]
fn mixed_leaf_kinds_do_not_unify() {
    let ctx = empty_ctx();
    let substs = vec![];
    let p = vec![Node::Leaf(param(0))];
    let v = vec![Node::Leaf(value(0))];
    let i = vec![Node::Leaf(infer(0))];
    let u = vec![Node::Leaf(use_of(3, vec![]))];
    assert!(!try_unify(&ctx, view(&p, &substs), view(&v, &substs)));
    assert!(!try_unify(&ctx, view(&v, &substs), view(&i, &substs)));
    assert!(!try_unify(&ctx, view(&i, &substs), view(&u, &substs)));
    assert!(!try_unify(&ctx, view(&u, &substs), view(&p, &substs)));
}

#[test]
fn opaque_uses_unify_when_definition_and_arguments_agree() {
    let ctx = empty_ctx();
    let substs = vec![];
    let a = vec![Node::Leaf(use_of(3, vec![GenericArg::Type(Ty::Param(0))]))];
    let b = vec![Node::Leaf(use_of(3, vec![GenericArg::Type(Ty::Param(1))]))];
    let c = vec![Node::Leaf(use_of(4, vec![GenericArg::Type(Ty::Param(0))]))];
    assert!(try_unify(&ctx, view(&a, &substs), view(&a, &substs)));
    assert!(!try_unify(&ctx, view(&a, &substs), view(&b, &substs)));
    assert!(!try_unify(&ctx, view(&a, &substs), view(&c, &substs)));
    // the arguments are compared after the substitution of each side
    let swap = vec![GenericArg::Type(Ty::Param(1)), GenericArg::Type(Ty::Param(0))];
    assert!(try_unify(&ctx, view(&a, &swap), view(&b, &substs)));
}

#[test]
fn error_leaf_unifies_with_every_leaf_of_its_type() {
    let ctx = empty_ctx();
    let substs = vec![];
    let e = vec![Node::Leaf(Const { ty: USIZE, val: ConstKind::Error })];
    for other in [value(1), param(0), infer(2), use_of(3, vec![]), Const { ty: USIZE, val: ConstKind::Error }] {
        let v = vec![Node::Leaf(other)];
        assert!(try_unify(&ctx, view(&e, &substs), view(&v, &substs)));
        assert!(try_unify(&ctx, view(&v, &substs), view(&e, &substs)));
    }
}

#[test]
fn error_leaf_of_another_type_does_not_unify() {
    let ctx = empty_ctx();
    let substs = vec![];
    let e = vec![Node::Leaf(Const { ty: USIZE, val: ConstKind::Error })];
    let v = vec![Node::Leaf(Const { ty: U8, val: ConstKind::Value(1) })];
    let f = vec![Node::Leaf(Const { ty: U8, val: ConstKind::Error })];
    assert!(!try_unify(&ctx, view(&e, &substs), view(&v, &substs)));
    assert!(!try_unify(&ctx, view(&v, &substs), view(&e, &substs)));
    assert!(!try_unify(&ctx, view(&e, &substs), view(&f, &substs)));
}

#[test]
fn error_leaf_does_not_unify_with_an_operation() {
    let ctx = empty_ctx();
    let substs = vec![];
    let e = vec![Node::Leaf(Const { ty: USIZE, val: ConstKind::Error })];
    let sum = vec![Node::Leaf(param(0)), Node::Leaf(value(1)), Node::Binop(BinOp::Add, 0, 1)];
    assert!(!try_unify(&ctx, view(&e, &substs), view(&sum, &substs)));
    assert!(!try_unify(&ctx, view(&sum, &substs), view(&e, &substs)));
}

#[test]
fn error_reached_by_substitution_is_compared_like_any_leaf() {
    let ctx = empty_ctx();
    let none = vec![];
    let n = vec![Node::Leaf(param(0))];
    let to_error = vec![GenericArg::Const(Const { ty: USIZE, val: ConstKind::Error })];
    let to_error_u8 = vec![GenericArg::Const(Const { ty: U8, val: ConstKind::Error })];
    let v = vec![Node::Leaf(value(1))];
    assert!(try_unify(&ctx, view(&n, &to_error), view(&v, &none)));
    assert!(!try_unify(&ctx, view(&n, &to_error_u8), view(&v, &none)));
}

#[test]
fn different_node_kinds_do_not_unify() {
    let ctx = empty_ctx();
    let substs = vec![];
    let neg = vec![Node::Leaf(param(0)), Node::UnaryOp(UnOp::Neg, 0)];
    let not = vec![Node::Leaf(param(0)), Node::UnaryOp(UnOp::Not, 0)];
    let cast = vec![Node::Leaf(param(0)), Node::Cast(CastKind::Misc, 0, U8)];
    let cast_other = vec![Node::Leaf(param(0)), Node::Cast(CastKind::Misc, 0, USIZE)];
    assert!(try_unify(&ctx, view(&neg, &substs), view(&neg, &substs)));
    assert!(!try_unify(&ctx, view(&neg, &substs), view(&not, &substs)));
    assert!(!try_unify(&ctx, view(&neg, &substs), view(&cast, &substs)));
    assert!(try_unify(&ctx, view(&cast, &substs), view(&cast, &substs)));
    assert!(!try_unify(&ctx, view(&cast, &substs), view(&cast_other, &substs)));
}

#[test]
fn operators_must_agree() {
    let ctx = empty_ctx();
    let substs = vec![];
    let add = vec![Node::Leaf(param(0)), Node::Leaf(value(1)), Node::Binop(BinOp::Add, 0, 1)];
    let sub = vec![Node::Leaf(param(0)), Node::Leaf(value(1)), Node::Binop(BinOp::Sub, 0, 1)];
    assert!(!try_unify(&ctx, view(&add, &substs), view(&sub, &substs)));
}

#[test]
fn calls_unify_argument_by_argument() {
    let ctx = empty_ctx();
    let substs = vec![];
    let f = use_of(9, vec![]);
    let two = vec![
        Node::Leaf(f.clone()),
        Node::Leaf(param(0)),
        Node::Leaf(value(1)),
        Node::FunctionCall(0, vec![1, 2]),
    ];
    let swapped = vec![
        Node::Leaf(f.clone()),
        Node::Leaf(param(0)),
        Node::Leaf(value(1)),
        Node::FunctionCall(0, vec![2, 1]),
    ];
    let one = vec![Node::Leaf(f.clone()), Node::Leaf(param(0)), Node::FunctionCall(0, vec![1])];
    let other_callee = vec![
        Node::Leaf(use_of(10, vec![])),
        Node::Leaf(param(0)),
        Node::Leaf(value(1)),
        Node::FunctionCall(0, vec![1, 2]),
    ];
    assert!(try_unify(&ctx, view(&two, &substs), view(&two, &substs)));
    assert!(!try_unify(&ctx, view(&two, &substs), view(&swapped, &substs)));
    assert!(!try_unify(&ctx, view(&two, &substs), view(&one, &substs)));
    assert!(!try_unify(&ctx, view(&two, &substs), view(&other_callee, &substs)));
}

#[test]
fn shared_and_copied_operands_unify() {
    let ctx = empty_ctx();
    let substs = vec![];
    let shared = vec![Node::Leaf(param(0)), Node::Binop(BinOp::Mul, 0, 0)];
    let copied = vec![Node::Leaf(param(0)), Node::Leaf(param(0)), Node::Binop(BinOp::Mul, 0, 1)];
    assert!(try_unify(&ctx, view(&shared, &substs), view(&copied, &substs)));
}

#[test]
fn uses_of_definitions_are_looked_through() {
    // definition 0: the leaf `P0`; definition 1: the leaf `use of 0 under [P0]`
    let ctx = ConstContext::new(
        true,
        8,
        vec![leaf_def(param(0)), leaf_def(use_of(0, vec![GenericArg::Const(param(0))]))],
    );
    let none = vec![];
    // `use of 1 under [N]` against `N`
    let a = vec![Node::Leaf(use_of(1, vec![GenericArg::Const(param(0))]))];
    let n = vec![Node::Leaf(param(0))];
    assert!(try_unify(&ctx, view(&a, &none), view(&n, &none)));
    assert!(try_unify(&ctx, view(&n, &none), view(&a, &none)));
    // a parameter that stands for a use of a definition is looked through as well
    let t = vec![Node::Leaf(param(0))];
    let substs = vec![GenericArg::Const(use_of(1, vec![GenericArg::Const(param(4))]))];
    let p4 = vec![Node::Leaf(param(4))];
    assert!(try_unify(&ctx, view(&t, &substs), view(&p4, &none)));
    let p5 = vec![Node::Leaf(param(5))];
    assert!(!try_unify(&ctx, view(&t, &substs), view(&p5, &none)));
}

#[test]
fn recursion_limit_stops_the_expansion() {
    let defs = vec![leaf_def(param(0)), leaf_def(use_of(0, vec![GenericArg::Const(param(0))]))];
    let none = vec![];
    let a = vec![Node::Leaf(use_of(1, vec![GenericArg::Const(param(0))]))];
    let n = vec![Node::Leaf(param(0))];
    // two uses have to be looked through to reach `N`
    let deep = ConstContext::new(true, 2, defs.clone());
    assert!(try_unify(&deep, view(&a, &none), view(&n, &none)));
    let shallow = ConstContext::new(true, 1, defs.clone());
    assert!(!try_unify(&shallow, view(&a, &none), view(&n, &none)));
    let flat = ConstContext::new(true, 0, defs);
    assert!(!try_unify(&flat, view(&a, &none), view(&n, &none)));
    // a use still unifies with itself
    assert!(try_unify(&flat, view(&a, &none), view(&a, &none)));
}

#[test]
fn definition_that_refers_to_itself_ends() {
    // definition 0: the leaf `use of 0 under [P0]`
    let ctx = ConstContext::new(true, 16, vec![leaf_def(use_of(0, vec![GenericArg::Const(param(0))]))]);
    let none = vec![];
    let a = vec![Node::Leaf(use_of(0, vec![GenericArg::Const(param(0))]))];
    let n = vec![Node::Leaf(param(0))];
    assert!(!try_unify(&ctx, view(&a, &none), view(&n, &none)));
    assert!(try_unify(&ctx, view(&a, &none), view(&a, &none)));
}

#[test]
fn failed_build_counts_as_unified() {
    let ctx = ConstContext::new(true, 8, vec![broken_def(), leaf_def(param(0))]);
    let none = vec![];
    let broken = vec![Node::Leaf(use_of(0, vec![]))];
    let n = vec![Node::Leaf(value(3))];
    assert!(try_unify(&ctx, view(&broken, &none), view(&n, &none)));
    assert!(try_unify(&ctx, view(&n, &none), view(&broken, &none)));
}

#[test]
fn uses_unify_through_their_graphs() {
    let ctx = ConstContext::new(
        true,
        8,
        vec![leaf_def(param(0)), leaf_def(param(1)), broken_def()],
    );
    let n = vec![GenericArg::Const(param(7)), GenericArg::Const(param(8))];
    let m = vec![GenericArg::Const(param(8)), GenericArg::Const(param(7))];
    // def 0 under [N, M] is N; def 1 under [M, N] is N
    assert!(try_unify_abstract_consts(&ctx, (&uv(0, n.clone()), &uv(1, m.clone()))));
    assert!(!try_unify_abstract_consts(&ctx, (&uv(0, n.clone()), &uv(1, n.clone()))));
    // no graph on one side: not unified
    assert!(!try_unify_abstract_consts(&ctx, (&uv(0, n.clone()), &uv(99, n.clone()))));
    assert!(!try_unify_abstract_consts(&ctx, (&uv(99, n.clone()), &uv(99, n.clone()))));
    // a failed build counts as unified
    assert!(try_unify_abstract_consts(&ctx, (&uv(2, n.clone()), &uv(0, n.clone()))));
    assert!(try_unify_abstract_consts(&ctx, (&uv(0, n.clone()), &uv(2, n.clone()))));
    // but only if the search gets that far
    assert!(!try_unify_abstract_consts(&ctx, (&uv(99, n.clone()), &uv(2, n))));
}

#[test]
fn view_of_a_use_follows_the_table() {
    let ctx = ConstContext::new(true, 8, vec![leaf_def(param(0)), broken_def()]);
    let args = vec![GenericArg::Const(value(1))];
    let a = uv(0, args.clone());
    let got = AbstractConst::new(&ctx, &a).unwrap().unwrap();
    assert_eq!(got.inner, &[Node::Leaf(param(0))][..]);
    assert_eq!(got.substs, &args);
    assert_eq!(got.root(), &Node::Leaf(param(0)));
    let b = uv(1, vec![]);
    assert_eq!(AbstractConst::new(&ctx, &b).err(), Some(ErrorReported));
    let c = uv(5, vec![]);
    assert!(AbstractConst::new(&ctx, &c).unwrap().is_none());
    let as_const = use_of(0, args.clone());
    let via = AbstractConst::from_const(&ctx, &as_const).unwrap().unwrap();
    assert_eq!(via.inner, got.inner);
    let err = Const { ty: USIZE, val: ConstKind::Error };
    assert_eq!(AbstractConst::from_const(&ctx, &err).err(), Some(ErrorReported));
    assert!(AbstractConst::from_const(&ctx, &param(0)).unwrap().is_none());
    assert!(AbstractConst::from_const(&ctx, &value(0)).unwrap().is_none());
    assert!(AbstractConst::from_const(&ctx, &infer(0)).unwrap().is_none());
}

#[test]
fn subtree_is_the_prefix_up_to_the_node() {
    let g = vec![Node::Leaf(param(0)), Node::Leaf(value(1)), Node::Binop(BinOp::Add, 0, 1)];
    let substs = vec![GenericArg::Const(value(9))];
    let whole = view(&g, &substs);
    assert_eq!(whole.root(), &Node::Binop(BinOp::Add, 0, 1));
    let left = whole.subtree(0);
    assert_eq!(left.inner.len(), 1);
    assert_eq!(left.root(), &Node::Leaf(param(0)));
    assert_eq!(left.substs, &substs);
    let right = whole.subtree(1);
    assert_eq!(right.inner.len(), 2);
    assert_eq!(right.root(), &Node::Leaf(value(1)));
    assert_eq!(whole.subtree(2).inner.len(), 3);
}

#[test]
fn field_projection_helpers() {
    let bare = Place { local: 3, projection: vec![] };
    assert_eq!(bare.as_local(), Some(3));
    assert_eq!(bare.as_field(), None);
    let f = Place { local: 3, projection: vec![ProjectionElem::Field(1, USIZE)] };
    assert_eq!(f.as_local(), None);
    assert_eq!(f.as_field(), Some(1));
    let deep = Place {
        local: 3,
        projection: vec![ProjectionElem::Field(1, USIZE), ProjectionElem::Field(0, USIZE)],
    };
    assert_eq!(deep.as_local(), None);
    assert_eq!(deep.as_field(), None);
    let deref = Place { local: 3, projection: vec![ProjectionElem::Deref] };
    assert_eq!(deref.as_field(), None);
}
