//! Construction of the expression graph of a generic constant from its body.
//!
//! The builder follows the body from its entry block along the only path it
//! accepts, turns each assignment into a node and rejects whatever it cannot
//! represent. What it computes is defined once, as functions on the
//! mathematical state [`BuilderView`]; the executable builder is proved to
//! compute exactly that.
use crate::abstract_const::{graph_wf, operands, operands_below, view_nodes, Node, NodeId, NodeView};
use crate::context::{BuildOutcome, DefKind, Definition};
use crate::cycles::{cfg_cyclic, is_cfg_cyclic};
use crate::mir::{
    BasicBlock, BasicBlockData, BinOp, Body, ConstantKind, Local, Operand, Place, Rvalue, Span,
    Statement, StatementKind, Terminator, TerminatorKind, UnOp, RETURN_PLACE, START_BLOCK,
};
use crate::ty::{ConstKind, ConstKindView};
use vstd::prelude::*;

verus! {

/// A defect of the body that the builder was given, or of the builder itself.
/// None of these is the fault of the program being compiled.
#[derive(Clone, Copy, Debug, PartialEq, Eq, Structural)]
pub enum BuilderBug {
    /// The node of the return value is not the last node.
    ReturnNotLast,
    /// A leaf refers to a promoted constant.
    PromotedConstant,
    /// An operation reads a local that holds no node.
    DanglingOperand,
    /// A place names a local that the body does not declare.
    LocalOutOfRange,
    /// Control passes to a block that the body does not have.
    BlockOutOfRange,
    /// The path through the body is longer than the body has blocks.
    WalkTooLong,
}

/// Why a body has no expression graph.
#[derive(Clone, Copy, Debug, PartialEq, Eq, Structural)]
pub enum BuildErrorKind {
    CyclicCfg,
    UnsupportedProjection,
    UnsupportedConstant,
    UnsupportedRvalue,
    UnsupportedStatement,
    UnsupportedAssertion,
    UnsupportedTerminator,
    DeadCode,
    /// An internal defect, to be told apart from the errors above.
    Bug(BuilderBug),
}

impl BuildErrorKind {
    /// Whether the error is an internal defect rather than a construct of the
    /// program that the builder does not support.
    pub open spec fn spec_is_bug(self) -> bool {
        self is Bug
    }

    /// Whether the error is an internal defect.
    #[verifier::when_used_as_spec(spec_is_bug)]
    pub fn is_bug(self) -> (r: bool)
        ensures
            r == self.spec_is_bug(),
    {
        match self {
            BuildErrorKind::Bug(_) => true,
            _ => false,
        }
    }

    /// The label that the diagnostic puts at the offending place.
    pub fn message(self) -> (r: &'static str)
        ensures
            r@ == (match self {
                BuildErrorKind::CyclicCfg => "cyclic constant expressions forbidden"@,
                BuildErrorKind::UnsupportedProjection => "unsupported projection"@,
                BuildErrorKind::UnsupportedConstant => "unsupported constant"@,
                BuildErrorKind::UnsupportedRvalue => "unsupported rvalue"@,
                BuildErrorKind::UnsupportedStatement => "unsupported statement"@,
                BuildErrorKind::UnsupportedAssertion => "unsupported assertion"@,
                BuildErrorKind::UnsupportedTerminator => "unsupported terminator"@,
                BuildErrorKind::DeadCode => "dead code"@,
                BuildErrorKind::Bug(_) => "builder invariant violated"@,
            }),
    {
        match self {
            BuildErrorKind::CyclicCfg => "cyclic constant expressions forbidden",
            BuildErrorKind::UnsupportedProjection => "unsupported projection",
            BuildErrorKind::UnsupportedConstant => "unsupported constant",
            BuildErrorKind::UnsupportedRvalue => "unsupported rvalue",
            BuildErrorKind::UnsupportedStatement => "unsupported statement",
            BuildErrorKind::UnsupportedAssertion => "unsupported assertion",
            BuildErrorKind::UnsupportedTerminator => "unsupported terminator",
            BuildErrorKind::DeadCode => "dead code",
            BuildErrorKind::Bug(_) => "builder invariant violated",
        }
    }
}

/// The diagnostic of a failed build: the whole body as the primary place, the
/// offending place with its label.
#[derive(Clone, Copy, Debug, PartialEq, Eq, Structural)]
pub struct BuildError {
    pub span: Span,
    pub label_span: Span,
    pub kind: BuildErrorKind,
}

impl BuildError {
    /// The headline of the diagnostic, at the whole body.
    pub fn title(&self) -> (r: &'static str)
        ensures
            r@ == "overly complex generic constant"@,
    {
        "overly complex generic constant"
    }

    /// The advice that the diagnostic ends with.
    pub fn help(&self) -> (r: &'static str)
        ensures
            r@ == "consider moving this anonymous constant into a `const` function"@,
    {
        "consider moving this anonymous constant into a `const` function"
    }
}

/// A node under construction.
#[derive(Debug)]
pub struct WorkNode {
    pub node: Node,
    pub span: Span,
    /// Whether a later node or an accepted assertion refers to this node.
    pub used: bool,
}

/// Mathematical view of a [`WorkNode`].
pub struct WorkNodeView {
    pub node: NodeView,
    pub span: Span,
    pub used: bool,
}

impl View for WorkNode {
    type V = WorkNodeView;

    open spec fn view(&self) -> WorkNodeView {
        WorkNodeView { node: self.node@, span: self.span, used: self.used }
    }
}

/// The views of the nodes under construction, in order.
pub open spec fn view_work_nodes(nodes: Seq<WorkNode>) -> Seq<WorkNodeView> {
    Seq::new(nodes.len(), |i: int| nodes[i]@)
}

/// The nodes with each node that `ids` names marked as used.
pub open spec fn mark_used(nodes: Seq<WorkNodeView>, ids: Seq<NodeId>) -> Seq<WorkNodeView> {
    Seq::new(
        nodes.len(),
        |i: int|
            WorkNodeView {
                node: nodes[i].node,
                span: nodes[i].span,
                used: nodes[i].used || ids.contains(i as usize),
            },
    )
}

/// The binary operators that a graph may hold: all but pointer offset.
pub open spec fn binop_allowed(op: BinOp) -> bool {
    !(op is Offset)
}

/// The unary operators that a graph may hold.
pub open spec fn unop_allowed(op: UnOp) -> bool {
    op is Not || op is Neg
}

/// The state of a build: the nodes made so far, the node that each local
/// holds, and which locals hold the pair that a checked operation yields.
pub struct BuilderView {
    pub body_span: Span,
    pub nodes: Seq<WorkNodeView>,
    pub locals: Seq<NodeId>,
    pub checked_op_locals: Seq<bool>,
}

impl BuilderView {
    /// The diagnostic for an error at `span`, or at the whole body.
    pub open spec fn error(self, span: Option<Span>, kind: BuildErrorKind) -> BuildError {
        BuildError {
            span: self.body_span,
            label_span: match span {
                Some(s) => s,
                None => self.body_span,
            },
            kind,
        }
    }

    /// The diagnostic for an internal defect met at `span`.
    pub open spec fn bug(self, span: Span, bug: BuilderBug) -> BuildError {
        self.error(Some(span), BuildErrorKind::Bug(bug))
    }

    /// Appends `node`, unused, after marking its operands as used.
    pub open spec fn add_node(self, node: NodeView, span: Span) -> (BuilderView, NodeId) {
        (
            BuilderView {
                nodes: mark_used(self.nodes, operands(node)).push(
                    WorkNodeView { node, span, used: false },
                ),
                ..self
            },
            self.nodes.len() as usize,
        )
    }

    /// The state in which `local` holds the node `id`.
    pub open spec fn set_local(self, local: Local, id: NodeId) -> BuilderView {
        BuilderView { locals: self.locals.update(local as int, id), ..self }
    }

    /// The state in which `local` holds the result of a checked operation.
    pub open spec fn set_checked(self, local: Local) -> BuilderView {
        BuilderView {
            checked_op_locals: self.checked_op_locals.update(local as int, true),
            ..self
        }
    }

    /// Whether `local` holds the result of a checked operation.
    pub open spec fn is_checked(self, local: Local) -> bool {
        local < self.checked_op_locals.len() && self.checked_op_locals[local as int]
    }

    /// The local that a place stands for. Only a bare local is accepted, and
    /// field 0 of a local that holds the result of a checked operation.
    pub open spec fn place_to_local(self, span: Span, p: Place) -> Result<Local, BuildError> {
        match p.spec_as_local() {
            Some(l) => if l < self.locals.len() {
                Ok(l)
            } else {
                Err(self.bug(span, BuilderBug::LocalOutOfRange))
            },
            None => if p.spec_as_field() == Some(0usize) {
                if p.local < self.locals.len() {
                    if self.is_checked(p.local) {
                        Ok(p.local)
                    } else {
                        Err(self.error(Some(span), BuildErrorKind::UnsupportedProjection))
                    }
                } else {
                    Err(self.bug(span, BuilderBug::LocalOutOfRange))
                }
            } else {
                Err(self.error(Some(span), BuildErrorKind::UnsupportedProjection))
            },
        }
    }

    /// The node that an operand stands for: the node its local holds, or a
    /// new leaf for a constant of the type system. The state that comes with
    /// the result is the state after the step, whether it succeeded or not;
    /// a refused operand leaves the state as it was.
    pub open spec fn operand_to_node(self, span: Span, op: Operand) -> (
        BuilderView,
        Result<NodeId, BuildError>,
    ) {
        match op {
            Operand::Copy(p) | Operand::Move(p) => match self.place_to_local(span, p) {
                Ok(l) => (self, Ok(self.locals[l as int])),
                Err(e) => (self, Err(e)),
            },
            Operand::Constant(ConstantKind::Ty(ct)) => {
                let (s, id) = self.add_node(NodeView::Leaf(ct@), span);
                (s, Ok(id))
            },
            Operand::Constant(ConstantKind::Val) => (
                self,
                Err(self.error(Some(span), BuildErrorKind::UnsupportedConstant)),
            ),
        }
    }

    /// The nodes of several operands, taken from left to right up to the
    /// first that is refused.
    pub open spec fn operands_to_nodes(self, span: Span, ops: Seq<Operand>) -> (
        BuilderView,
        Result<Seq<NodeId>, BuildError>,
    )
        decreases ops.len(),
    {
        if ops.len() == 0 {
            (self, Ok(Seq::empty()))
        } else {
            let (s, r) = self.operands_to_nodes(span, ops.drop_last());
            match r {
                Err(e) => (s, Err(e)),
                Ok(ids) => {
                    let (t, id) = s.operand_to_node(span, ops.last());
                    match id {
                        Err(e) => (t, Err(e)),
                        Ok(id) => (t, Ok(ids.push(id))),
                    }
                },
            }
        }
    }

    /// Appends an operation node whose operands must be nodes that exist, and
    /// lets `local` hold it.
    pub open spec fn assign_node(self, span: Span, local: Local, node: NodeView) -> (
        BuilderView,
        Result<(), BuildError>,
    ) {
        if operands_below(node, self.nodes.len() as int) {
            let (s, id) = self.add_node(node, span);
            (s.set_local(local, id), Ok(()))
        } else {
            (self, Err(self.bug(span, BuilderBug::DanglingOperand)))
        }
    }

    /// The assignment of a binary operation to `local`. Every allowed
    /// operator is taken in its plain and in its checked form; after the
    /// checked form `local` holds the result of a checked operation.
    pub open spec fn binary(
        self,
        span: Span,
        local: Local,
        op: BinOp,
        lhs: Operand,
        rhs: Operand,
        checked: bool,
    ) -> (BuilderView, Result<(), BuildError>) {
        let (s1, l) = self.operand_to_node(span, lhs);
        match l {
            Err(e) => (s1, Err(e)),
            Ok(l) => {
                let (s2, r) = s1.operand_to_node(span, rhs);
                match r {
                    Err(e) => (s2, Err(e)),
                    Ok(r) => {
                        let (s3, done) = s2.assign_node(span, local, NodeView::Binop(op, l, r));
                        match done {
                            Err(e) => (s3, Err(e)),
                            Ok(_) => if checked {
                                (s3.set_checked(local), Ok(()))
                            } else {
                                (s3, Ok(()))
                            },
                        }
                    },
                }
            },
        }
    }

    /// The assignment of a unary operation or of a cast, whose node is
    /// `node` once the operand stands for `v`.
    pub open spec fn unary(
        self,
        span: Span,
        local: Local,
        operand: Operand,
        node: spec_fn(NodeId) -> NodeView,
    ) -> (BuilderView, Result<(), BuildError>) {
        let (s, v) = self.operand_to_node(span, operand);
        match v {
            Err(e) => (s, Err(e)),
            Ok(v) => s.assign_node(span, local, node(v)),
        }
    }

    /// The assignment of `rvalue` to `local`. An rvalue of another shape
    /// than the five that are taken is refused and leaves the state as it
    /// was.
    pub open spec fn assign(self, span: Span, local: Local, rvalue: Rvalue) -> (
        BuilderView,
        Result<(), BuildError>,
    ) {
        match rvalue {
            Rvalue::Use(operand) => {
                let (s, id) = self.operand_to_node(span, operand);
                match id {
                    Err(e) => (s, Err(e)),
                    Ok(id) => (s.set_local(local, id), Ok(())),
                }
            },
            Rvalue::BinaryOp(op, lhs, rhs) => if binop_allowed(op) {
                self.binary(span, local, op, lhs, rhs, false)
            } else {
                (self, Err(self.error(Some(span), BuildErrorKind::UnsupportedRvalue)))
            },
            Rvalue::CheckedBinaryOp(op, lhs, rhs) => if binop_allowed(op) {
                self.binary(span, local, op, lhs, rhs, true)
            } else {
                (self, Err(self.error(Some(span), BuildErrorKind::UnsupportedRvalue)))
            },
            Rvalue::UnaryOp(op, operand) => if unop_allowed(op) {
                self.unary(span, local, operand, |v: NodeId| NodeView::UnaryOp(op, v))
            } else {
                (self, Err(self.error(Some(span), BuildErrorKind::UnsupportedRvalue)))
            },
            Rvalue::Cast(kind, operand, ty) => self.unary(
                span,
                local,
                operand,
                |v: NodeId| NodeView::Cast(kind, v, ty),
            ),
            _ => (self, Err(self.error(Some(span), BuildErrorKind::UnsupportedRvalue))),
        }
    }

    /// The effect of one statement. Assignments build nodes; type
    /// ascriptions and storage markers are passed over; nothing else is
    /// accepted. A statement of another kind and an assignment to a place
    /// that is refused leave the state as it was.
    pub open spec fn statement(self, stmt: Statement) -> (BuilderView, Result<(), BuildError>) {
        match stmt.kind {
            StatementKind::Assign(place, rvalue) => match self.place_to_local(stmt.span, place) {
                Err(e) => (self, Err(e)),
                Ok(local) => self.assign(stmt.span, local, rvalue),
            },
            StatementKind::AscribeUserType => (self, Ok(())),
            StatementKind::StorageLive(_) => (self, Ok(())),
            StatementKind::StorageDead(_) => (self, Ok(())),
            _ => (self, Err(self.error(Some(stmt.span), BuildErrorKind::UnsupportedStatement))),
        }
    }

    /// The effect of several statements, one after the other, up to the
    /// first that fails.
    pub open spec fn statements(self, stmts: Seq<Statement>) -> (
        BuilderView,
        Result<(), BuildError>,
    )
        decreases stmts.len(),
    {
        if stmts.len() == 0 {
            (self, Ok(()))
        } else {
            let (s, r) = self.statements(stmts.drop_last());
            match r {
                Err(e) => (s, Err(e)),
                Ok(_) => s.statement(stmts.last()),
            }
        }
    }

    /// The call of a function: a node over the callee and the arguments, held
    /// by the destination.
    pub open spec fn call(
        self,
        span: Span,
        fn_span: Span,
        func: Operand,
        args: Seq<Operand>,
        place: Place,
    ) -> (BuilderView, Result<(), BuildError>) {
        match self.place_to_local(fn_span, place) {
            Err(e) => (self, Err(e)),
            Ok(local) => {
                let (s1, f) = self.operand_to_node(fn_span, func);
                match f {
                    Err(e) => (s1, Err(e)),
                    Ok(f) => {
                        let (s2, ids) = s1.operands_to_nodes(span, args);
                        match ids {
                            Err(e) => (s2, Err(e)),
                            Ok(ids) => s2.assign_node(
                                fn_span,
                                local,
                                NodeView::FunctionCall(f, ids),
                            ),
                        }
                    },
                }
            },
        }
    }

    /// An assertion that the place `p` is false. Accepted on a bare local,
    /// whose node then counts as used, and on field 1 of a local that holds
    /// the result of a checked operation. A refused assertion leaves the
    /// state as it was.
    pub open spec fn assertion(self, span: Span, p: Place) -> (
        BuilderView,
        Result<(), BuildError>,
    ) {
        match p.spec_as_local() {
            Some(l) => if l >= self.locals.len() {
                (self, Err(self.bug(span, BuilderBug::LocalOutOfRange)))
            } else if self.locals[l as int] >= self.nodes.len() {
                (self, Err(self.bug(span, BuilderBug::DanglingOperand)))
            } else {
                (
                    BuilderView {
                        nodes: mark_used(self.nodes, seq![self.locals[l as int]]),
                        ..self
                    },
                    Ok(()),
                )
            },
            None => if p.spec_as_field() == Some(1usize) {
                if p.local < self.locals.len() {
                    if self.is_checked(p.local) {
                        (self, Ok(()))
                    } else {
                        (self, Err(self.error(Some(span), BuildErrorKind::UnsupportedAssertion)))
                    }
                } else {
                    (self, Err(self.bug(span, BuilderBug::LocalOutOfRange)))
                }
            } else {
                (self, Err(self.error(Some(span), BuildErrorKind::UnsupportedAssertion)))
            },
        }
    }

    /// The effect of a terminator, and the block at which the path goes on,
    /// if it does. A terminator of a kind that is not taken leaves the state
    /// as it was.
    pub open spec fn terminator(self, term: Terminator) -> (
        BuilderView,
        Result<Option<BasicBlock>, BuildError>,
    ) {
        match term.kind {
            TerminatorKind::Goto { target } => (self, Ok(Some(target))),
            TerminatorKind::Return => (self, Ok(None)),
            TerminatorKind::Call { func, args, destination, cleanup, from_hir_call, fn_span } => {
                if from_hir_call && destination is Some && cleanup is None {
                    let (s, r) = self.call(term.span, fn_span, func, args@, destination->Some_0.0);
                    match r {
                        Err(e) => (s, Err(e)),
                        Ok(_) => (s, Ok(Some(destination->Some_0.1))),
                    }
                } else {
                    (self, Err(self.error(Some(term.span), BuildErrorKind::UnsupportedTerminator)))
                }
            },
            TerminatorKind::Assert { cond, expected, target, cleanup } => {
                if expected {
                    (self, Err(self.error(Some(term.span), BuildErrorKind::UnsupportedTerminator)))
                } else {
                    match cond {
                        Operand::Constant(_) => (
                            self,
                            Err(self.error(Some(term.span), BuildErrorKind::UnsupportedAssertion)),
                        ),
                        Operand::Copy(p) | Operand::Move(p) => {
                            let (s, r) = self.assertion(term.span, p);
                            match r {
                                Err(e) => (s, Err(e)),
                                Ok(_) => (s, Ok(Some(target))),
                            }
                        },
                    }
                }
            },
            _ => (self, Err(self.error(Some(term.span), BuildErrorKind::UnsupportedTerminator))),
        }
    }

    /// The effect of one block: its statements, then its terminator.
    #[verifier::opaque]
    pub open spec fn block(self, data: BasicBlockData) -> (
        BuilderView,
        Result<Option<BasicBlock>, BuildError>,
    ) {
        let (s, r) = self.statements(data.statements@);
        match r {
            Err(e) => (s, Err(e)),
            Ok(_) => s.terminator(data.terminator),
        }
    }

    /// The effect of the path that starts at `block` and visits at most
    /// `fuel` blocks.
    pub open spec fn walk(self, body: &Body, block: BasicBlock, fuel: nat) -> (
        BuilderView,
        Result<(), BuildError>,
    )
        decreases fuel,
    {
        if block >= body.basic_blocks@.len() {
            (self, Err(self.bug(body.span, BuilderBug::BlockOutOfRange)))
        } else if fuel == 0 {
            (self, Err(self.bug(body.span, BuilderBug::WalkTooLong)))
        } else {
            let (t, r) = self.block(body.basic_blocks@[block as int]);
            match r {
                Err(e) => (t, Err(e)),
                Ok(None) => (t, Ok(())),
                Ok(Some(next)) => t.walk(body, next, (fuel - 1) as nat),
            }
        }
    }

    /// Some leaf refers to a promoted constant.
    pub open spec fn has_promoted(self) -> bool {
        exists|i: int| 0 <= i < self.nodes.len() && is_promoted_leaf((#[trigger] self.nodes[i]).node)
    }

    /// `i` is the first node that is not used.
    pub open spec fn first_unused(self, i: int) -> bool {
        &&& 0 <= i < self.nodes.len()
        &&& !self.nodes[i].used
        &&& forall|j: int| 0 <= j < i ==> (#[trigger] self.nodes[j]).used
    }

    /// The graph, once the path has ended: the node of the return value must
    /// be the last one and counts as used, and no node may be left unused.
    pub open spec fn finish(self) -> Result<Seq<NodeView>, BuildError> {
        if self.locals.len() == 0 || self.nodes.len() == 0 || self.locals[RETURN_PLACE as int]
            != self.nodes.len() - 1 {
            Err(self.bug(self.body_span, BuilderBug::ReturnNotLast))
        } else if self.has_promoted() {
            Err(self.bug(self.body_span, BuilderBug::PromotedConstant))
        } else {
            let done = BuilderView {
                nodes: mark_used(self.nodes, seq![self.locals[RETURN_PLACE as int]]),
                ..self
            };
            if exists|i: int| done.first_unused(i) {
                let i = choose|i: int| done.first_unused(i);
                Err(done.error(Some(done.nodes[i].span), BuildErrorKind::DeadCode))
            } else {
                Ok(Seq::new(done.nodes.len(), |i: int| done.nodes[i].node))
            }
        }
    }
}

/// A leaf that refers to a promoted constant.
pub open spec fn is_promoted_leaf(n: NodeView) -> bool {
    n matches NodeView::Leaf(c) && c.val matches ConstKindView::Unevaluated(uv) && uv.promoted is Some
}

/// The state in which a build starts: no node, no local holds a node, no
/// local holds the result of a checked operation.
pub open spec fn initial_state(body: &Body) -> BuilderView {
    BuilderView {
        body_span: body.span,
        nodes: Seq::empty(),
        locals: Seq::new(body.local_count as nat, |i: int| usize::MAX),
        checked_op_locals: Seq::new(body.local_count as nat, |i: int| false),
    }
}

/// The outcome of building the graph of `body`: no graph for a body that
/// depends on no generic parameter, an error for a body with a cycle, else
/// what the path from the entry block gives.
pub open spec fn build_outcome(body: &Body) -> BuildOutcome {
    if !body.is_polymorphic {
        Ok(None)
    } else if cfg_cyclic(body) {
        Err(initial_state(body).error(None, BuildErrorKind::CyclicCfg))
    } else {
        let (s, r) = initial_state(body).walk(body, START_BLOCK, body.basic_blocks@.len());
        match r {
            Err(e) => Err(e),
            Ok(_) => match s.finish() {
                Err(e) => Err(e),
                Ok(g) => Ok(Some(g)),
            },
        }
    }
}

/// Field 0 of a local can be read exactly when the local holds the result
/// of a checked operation; of any other local it is an unsupported
/// projection.
pub proof fn lemma_field_zero_needs_a_checked_result(s: BuilderView, span: Span, p: Place)
    requires
        p.spec_as_field() == Some(0usize),
        p.local < s.locals.len(),
    ensures
        s.is_checked(p.local) ==> s.place_to_local(span, p) == Ok::<Local, BuildError>(p.local),
        !s.is_checked(p.local) ==> s.place_to_local(span, p) == Err::<Local, BuildError>(
            BuildError {
                span: s.body_span,
                label_span: span,
                kind: BuildErrorKind::UnsupportedProjection,
            },
        ),
{
}

/// The right-hand sides that an assignment may have: a use, a binary
/// operation with an allowed operator in its plain or its checked form, a
/// unary operation with an allowed operator, a cast.
pub open spec fn rvalue_taken(rvalue: Rvalue) -> bool {
    match rvalue {
        Rvalue::Use(_) => true,
        Rvalue::BinaryOp(op, _, _) => binop_allowed(op),
        Rvalue::CheckedBinaryOp(op, _, _) => binop_allowed(op),
        Rvalue::UnaryOp(op, _) => unop_allowed(op),
        Rvalue::Cast(_, _, _) => true,
        _ => false,
    }
}

/// The terminators that the path may pass: a jump, a return, a call that
/// was written as a call, has a destination and has no cleanup block, and
/// an assertion that its condition is false.
pub open spec fn terminator_taken(kind: TerminatorKind) -> bool {
    match kind {
        TerminatorKind::Goto { .. } => true,
        TerminatorKind::Return => true,
        TerminatorKind::Call { destination, cleanup, from_hir_call, .. } => from_hir_call
            && destination is Some && cleanup is None,
        TerminatorKind::Assert { expected, .. } => !expected,
        _ => false,
    }
}

/// An assignment whose right-hand side is not taken fails as an unsupported
/// rvalue at the statement, and nothing is changed: no node is appended and
/// the destination holds what it held.
pub proof fn lemma_unsupported_rvalue_changes_nothing(
    s: BuilderView,
    span: Span,
    local: Local,
    rvalue: Rvalue,
)
    requires
        !rvalue_taken(rvalue),
    ensures
        s.assign(span, local, rvalue) == (
            s,
            Err::<(), BuildError>(
                BuildError {
                    span: s.body_span,
                    label_span: span,
                    kind: BuildErrorKind::UnsupportedRvalue,
                },
            ),
        ),
{
}

/// A statement that fails changes nothing unless it is an assignment whose
/// right-hand side is taken: a statement of a kind that is not taken, an
/// assignment to a place that is refused and an assignment of an
/// unsupported rvalue all leave the state as it was.
pub proof fn lemma_refused_statement_changes_nothing(s: BuilderView, stmt: Statement)
    ensures
        s.statement(stmt).1 is Err && !(stmt.kind matches StatementKind::Assign(_, rvalue)
            && rvalue_taken(rvalue)) ==> s.statement(stmt).0 == s,
{
}

/// A terminator that is not taken fails as an unsupported terminator, and
/// nothing is changed: no node is appended and every local holds what it
/// held.
pub proof fn lemma_unsupported_terminator_changes_nothing(s: BuilderView, term: Terminator)
    requires
        !terminator_taken(term.kind),
    ensures
        s.terminator(term) == (
            s,
            Err::<Option<BasicBlock>, BuildError>(
                BuildError {
                    span: s.body_span,
                    label_span: term.span,
                    kind: BuildErrorKind::UnsupportedTerminator,
                },
            ),
        ),
{
}

/// A binary operation with an allowed operator is taken in its plain form
/// as in its checked form: where both operands stand for nodes that exist,
/// the new node is appended and `local` holds it. Only the checked form
/// makes `local` the result of a checked operation.
pub proof fn lemma_plain_binary_operation_is_taken(
    s: BuilderView,
    span: Span,
    local: Local,
    op: BinOp,
    lhs: Operand,
    rhs: Operand,
)
    requires
        s.operand_to_node(span, lhs).1 is Ok,
        s.operand_to_node(span, lhs).0.operand_to_node(span, rhs).1 is Ok,
        operands_below(
            NodeView::Binop(
                op,
                s.operand_to_node(span, lhs).1->Ok_0,
                s.operand_to_node(span, lhs).0.operand_to_node(span, rhs).1->Ok_0,
            ),
            s.operand_to_node(span, lhs).0.operand_to_node(span, rhs).0.nodes.len() as int,
        ),
    ensures
        ({
            let (s1, l) = s.operand_to_node(span, lhs);
            let (s2, r) = s1.operand_to_node(span, rhs);
            let (s3, id) = s2.add_node(NodeView::Binop(op, l->Ok_0, r->Ok_0), span);
            &&& s.binary(span, local, op, lhs, rhs, false) == (
                s3.set_local(local, id),
                Ok::<(), BuildError>(()),
            )
            &&& s.binary(span, local, op, lhs, rhs, true) == (
                s3.set_local(local, id).set_checked(local),
                Ok::<(), BuildError>(()),
            )
        }),
{
}

/// Every step of the builder keeps the nodes that were there, whether it
/// succeeds or fails: nodes are only appended and marks are only set.
pub proof fn lemma_statement_keeps_nodes(s: BuilderView, stmt: Statement)
    ensures
        nodes_kept(s.nodes, s.statement(stmt).0.nodes),
        work_nodes_wf(s.nodes) ==> work_nodes_wf(s.statement(stmt).0.nodes),
        s.statement(stmt).1 is Err ==> s.statement(stmt).0.locals == s.locals
            && s.statement(stmt).0.checked_op_locals == s.checked_op_locals,
{
    match stmt.kind {
        StatementKind::Assign(place, rvalue) => {
            if let Ok(local) = s.place_to_local(stmt.span, place) {
                lemma_assign_keeps_nodes(s, stmt.span, local, rvalue);
            }
        },
        _ => {},
    }
}

/// See [`lemma_statement_keeps_nodes`].
pub proof fn lemma_terminator_keeps_nodes(s: BuilderView, term: Terminator)
    ensures
        nodes_kept(s.nodes, s.terminator(term).0.nodes),
        work_nodes_wf(s.nodes) ==> work_nodes_wf(s.terminator(term).0.nodes),
        s.terminator(term).1 is Err ==> s.terminator(term).0.locals == s.locals
            && s.terminator(term).0.checked_op_locals == s.checked_op_locals,
{
    match term.kind {
        TerminatorKind::Call { func, args, destination, cleanup, from_hir_call, fn_span } => {
            if from_hir_call && destination is Some && cleanup is None {
                if let Ok(local) = s.place_to_local(fn_span, destination->Some_0.0) {
                    lemma_operand_keeps_nodes(s, fn_span, func);
                    let (s1, f) = s.operand_to_node(fn_span, func);
                    if let Ok(f) = f {
                        lemma_operands_keep_nodes(s1, term.span, args@);
                        let (s2, ids) = s1.operands_to_nodes(term.span, args@);
                        if let Ok(ids) = ids {
                            lemma_assign_node_keeps_nodes(
                                s2,
                                fn_span,
                                local,
                                NodeView::FunctionCall(f, ids),
                            );
                        }
                    }
                }
            }
        },
        _ => {},
    }
}

proof fn lemma_add_node_keeps_nodes(s: BuilderView, node: NodeView, span: Span)
    requires
        operands_below(node, s.nodes.len() as int),
    ensures
        nodes_kept(s.nodes, s.add_node(node, span).0.nodes),
        work_nodes_wf(s.nodes) ==> work_nodes_wf(s.add_node(node, span).0.nodes),
{
    let t = s.add_node(node, span).0.nodes;
    if work_nodes_wf(s.nodes) {
        assert forall|i: int| 0 <= i < t.len() implies operands_below((#[trigger] t[i]).node, i) by {
            if i < s.nodes.len() {
                assert(t[i].node == s.nodes[i].node);
            }
        }
    }
}

proof fn lemma_operand_keeps_nodes(s: BuilderView, span: Span, op: Operand)
    ensures
        nodes_kept(s.nodes, s.operand_to_node(span, op).0.nodes),
        work_nodes_wf(s.nodes) ==> work_nodes_wf(s.operand_to_node(span, op).0.nodes),
        s.operand_to_node(span, op).0.locals == s.locals,
        s.operand_to_node(span, op).0.checked_op_locals == s.checked_op_locals,
        s.operand_to_node(span, op).1 is Err ==> s.operand_to_node(span, op).0 == s,
{
    match op {
        Operand::Constant(ConstantKind::Ty(ct)) => {
            assert(operands(NodeView::Leaf(ct@)) =~= Seq::empty());
            lemma_add_node_keeps_nodes(s, NodeView::Leaf(ct@), span);
        },
        _ => {},
    }
}

proof fn lemma_operands_keep_nodes(s: BuilderView, span: Span, ops: Seq<Operand>)
    ensures
        nodes_kept(s.nodes, s.operands_to_nodes(span, ops).0.nodes),
        work_nodes_wf(s.nodes) ==> work_nodes_wf(s.operands_to_nodes(span, ops).0.nodes),
        s.operands_to_nodes(span, ops).0.locals == s.locals,
        s.operands_to_nodes(span, ops).0.checked_op_locals == s.checked_op_locals,
    decreases ops.len(),
{
    if ops.len() > 0 {
        lemma_operands_keep_nodes(s, span, ops.drop_last());
        let (m, r) = s.operands_to_nodes(span, ops.drop_last());
        if r is Ok {
            lemma_operand_keeps_nodes(m, span, ops.last());
        }
    }
}

proof fn lemma_assign_node_keeps_nodes(s: BuilderView, span: Span, local: Local, node: NodeView)
    ensures
        nodes_kept(s.nodes, s.assign_node(span, local, node).0.nodes),
        work_nodes_wf(s.nodes) ==> work_nodes_wf(s.assign_node(span, local, node).0.nodes),
        s.assign_node(span, local, node).1 is Err ==> s.assign_node(span, local, node).0 == s,
{
    if operands_below(node, s.nodes.len() as int) {
        lemma_add_node_keeps_nodes(s, node, span);
    }
}

proof fn lemma_assign_keeps_nodes(s: BuilderView, span: Span, local: Local, rvalue: Rvalue)
    ensures
        nodes_kept(s.nodes, s.assign(span, local, rvalue).0.nodes),
        work_nodes_wf(s.nodes) ==> work_nodes_wf(s.assign(span, local, rvalue).0.nodes),
        s.assign(span, local, rvalue).1 is Err ==> s.assign(span, local, rvalue).0.locals
            == s.locals && s.assign(span, local, rvalue).0.checked_op_locals
            == s.checked_op_locals,
{
    match rvalue {
        Rvalue::Use(operand) => {
            lemma_operand_keeps_nodes(s, span, operand);
        },
        Rvalue::BinaryOp(op, lhs, rhs) | Rvalue::CheckedBinaryOp(op, lhs, rhs) => {
            lemma_operand_keeps_nodes(s, span, lhs);
            let (s1, l) = s.operand_to_node(span, lhs);
            if let Ok(l) = l {
                lemma_operand_keeps_nodes(s1, span, rhs);
                let (s2, r) = s1.operand_to_node(span, rhs);
                if let Ok(r) = r {
                    lemma_assign_node_keeps_nodes(s2, span, local, NodeView::Binop(op, l, r));
                }
            }
        },
        Rvalue::UnaryOp(op, operand) => {
            lemma_operand_keeps_nodes(s, span, operand);
            let (s1, v) = s.operand_to_node(span, operand);
            if let Ok(v) = v {
                lemma_assign_node_keeps_nodes(s1, span, local, NodeView::UnaryOp(op, v));
            }
        },
        Rvalue::Cast(kind, operand, ty) => {
            lemma_operand_keeps_nodes(s, span, operand);
            let (s1, v) = s.operand_to_node(span, operand);
            if let Ok(v) = v {
                lemma_assign_node_keeps_nodes(s1, span, local, NodeView::Cast(kind, v, ty));
            }
        },
        _ => {},
    }
}

/// A body that depends on a generic parameter and whose control flow has a
/// cycle has no graph: building fails with the error for cycles, at the
/// whole body, whatever else the body holds.
pub proof fn lemma_cyclic_body_is_rejected(body: &Body)
    requires
        body.is_polymorphic,
        cfg_cyclic(body),
    ensures
        build_outcome(body) == Err::<Option<Seq<NodeView>>, BuildError>(
            BuildError { span: body.span, label_span: body.span, kind: BuildErrorKind::CyclicCfg },
        ),
{
}

/// The outcome of building the graph of a definition: only constant
/// expressions written in place have one, and only when graphs of generic
/// constants are asked for.
pub open spec fn abstract_const_of(generic_const_exprs: bool, def: Definition) -> BuildOutcome {
    if generic_const_exprs && def.kind == DefKind::AnonConst {
        build_outcome(&def.body)
    } else {
        Ok(None)
    }
}

/// The builder of one graph.
pub struct AbstractConstBuilder<'a> {
    pub body: &'a Body,
    /// The nodes made so far.
    pub nodes: Vec<WorkNode>,
    /// For each local, the node it holds; `usize::MAX` while it holds none.
    pub locals: Vec<NodeId>,
    /// For each local, whether it holds the result of a checked operation.
    pub checked_op_locals: Vec<bool>,
}

impl<'a> View for AbstractConstBuilder<'a> {
    type V = BuilderView;

    open spec fn view(&self) -> BuilderView {
        BuilderView {
            body_span: self.body.span,
            nodes: view_work_nodes(self.nodes@),
            locals: self.locals@,
            checked_op_locals: self.checked_op_locals@,
        }
    }
}

/// Every node refers to earlier nodes only.
pub open spec fn work_nodes_wf(nodes: Seq<WorkNodeView>) -> bool {
    forall|i: int| 0 <= i < nodes.len() ==> operands_below((#[trigger] nodes[i]).node, i)
}

/// The nodes `after` keep the nodes `before`: each is still at its place,
/// with the same operation and the same place in the source, and is still
/// used if it was. Nodes are only ever appended.
pub open spec fn nodes_kept(before: Seq<WorkNodeView>, after: Seq<WorkNodeView>) -> bool {
    &&& before.len() <= after.len()
    &&& forall|i: int|
        0 <= i < before.len() ==> {
            &&& (#[trigger] after[i]).node == before[i].node
            &&& after[i].span == before[i].span
            &&& before[i].used ==> after[i].used
        }
}

proof fn lemma_mark_used_empty(nodes: Seq<WorkNodeView>)
    ensures
        mark_used(nodes, Seq::empty()) == nodes,
{
    assert(mark_used(nodes, Seq::empty()) =~= nodes);
}

proof fn lemma_mark_used_twice(nodes: Seq<WorkNodeView>, a: Seq<NodeId>, b: Seq<NodeId>)
    ensures
        mark_used(mark_used(nodes, a), b) == mark_used(nodes, a + b),
{
    let l = mark_used(mark_used(nodes, a), b);
    let r = mark_used(nodes, a + b);
    assert forall|i: int| 0 <= i < nodes.len() implies l[i] == r[i] by {
        if a.contains(i as usize) {
            let k = choose|k: int| 0 <= k < a.len() && a[k] == i as usize;
            assert((a + b)[k] == i as usize);
        }
        if b.contains(i as usize) {
            let k = choose|k: int| 0 <= k < b.len() && b[k] == i as usize;
            assert((a + b)[a.len() + k] == i as usize);
        }
        if (a + b).contains(i as usize) {
            let k = choose|k: int| 0 <= k < (a + b).len() && (a + b)[k] == i as usize;
            if k < a.len() {
                assert(a[k] == i as usize);
            } else {
                assert(b[k - a.len()] == i as usize);
            }
        }
    }
    assert(l =~= r);
}

impl<'a> AbstractConstBuilder<'a> {
    /// What holds of a builder between any two of its steps.
    pub open spec fn inv(&self) -> bool {
        &&& self.locals@.len() == self.checked_op_locals@.len()
        &&& work_nodes_wf(self@.nodes)
    }

    /// The diagnostic for an error at `span`, or at the whole body.
    pub fn error(&self, span: Option<Span>, kind: BuildErrorKind) -> (e: BuildError)
        ensures
            e == self@.error(span, kind),
    {
        BuildError {
            span: self.body.span,
            label_span: match span {
                Some(s) => s,
                None => self.body.span,
            },
            kind,
        }
    }

    fn bug(&self, span: Span, bug: BuilderBug) -> (e: BuildError)
        ensures
            e == self@.bug(span, bug),
    {
        self.error(Some(span), BuildErrorKind::Bug(bug))
    }

    /// A builder for `body`, unless the body needs none or cannot have one:
    /// `Ok(None)` for a body that depends on no generic parameter, an error
    /// for a body whose control flow has a cycle. No node exists yet.
    pub fn new(body: &'a Body) -> (r: Result<Option<AbstractConstBuilder<'a>>, BuildError>)
        ensures
            !body.is_polymorphic ==> r == Ok::<Option<AbstractConstBuilder<'a>>, BuildError>(None),
            body.is_polymorphic && cfg_cyclic(body) ==> r == Err::<
                Option<AbstractConstBuilder<'a>>,
                BuildError,
            >(initial_state(body).error(None, BuildErrorKind::CyclicCfg)),
            body.is_polymorphic && !cfg_cyclic(body) ==> (r matches Ok(Some(b)) && b.body == body
                && b@ == initial_state(body) && b.inv()),
    {
        let mut locals: Vec<NodeId> = Vec::new();
        let mut checked_op_locals: Vec<bool> = Vec::new();
        let mut i: usize = 0;
        while i < body.local_count
            invariant
                i <= body.local_count,
                locals@.len() == i,
                checked_op_locals@.len() == i,
                forall|j: int| 0 <= j < i ==> locals@[j] == usize::MAX,
                forall|j: int| 0 <= j < i ==> checked_op_locals@[j] == false,
            decreases body.local_count - i,
        {
            locals.push(usize::MAX);
            checked_op_locals.push(false);
            i += 1;
        }
        let builder = AbstractConstBuilder { body, nodes: Vec::new(), locals, checked_op_locals };
        proof {
            assert(builder@.nodes =~= Seq::empty());
            assert(builder@.locals =~= initial_state(body).locals);
            assert(builder@.checked_op_locals =~= initial_state(body).checked_op_locals);
        }
        // A concrete body is evaluated directly; it needs no graph.
        if !body.is_polymorphic {
            return Ok(None);
        }
        // Only bodies without cycles are accepted, which is what lets the
        // path through the body end.
        if is_cfg_cyclic(body) {
            return Err(builder.error(None, BuildErrorKind::CyclicCfg));
        }
        Ok(Some(builder))
    }

    fn mark(&mut self, id: NodeId)
        requires
            id < old(self).nodes@.len(),
        ensures
            final(self)@ == (BuilderView {
                nodes: mark_used(old(self)@.nodes, seq![id]),
                ..old(self)@
            }),
            final(self).body == old(self).body,
            final(self).nodes@.len() == old(self).nodes@.len(),
            old(self).inv() ==> final(self).inv(),
            nodes_kept(old(self)@.nodes, final(self)@.nodes),
    {
        let len = self.nodes.len();
        self.nodes[id].used = true;
        proof {
            let l = self@.nodes;
            let r = mark_used(old(self)@.nodes, seq![id]);
            let one = seq![id];
            assert(one.len() == 1 && one[0] == id);
            assert forall|i: int| 0 <= i < l.len() implies l[i] == r[i] by {
                if i == id {
                    assert(one.contains(id));
                } else {
                    assert(!one.contains(i as usize));
                }
            }
            assert(l =~= r);
        }
    }

    /// Appends `node`, unused, after marking its operands as used.
    pub fn add_node(&mut self, node: Node, span: Span) -> (id: NodeId)
        requires
            old(self).inv(),
            operands_below(node@, old(self).nodes@.len() as int),
        ensures
            (final(self)@, id) == old(self)@.add_node(node@, span),
            final(self).body == old(self).body,
            final(self).inv(),
            nodes_kept(old(self)@.nodes, final(self)@.nodes),
    {
        let ghost start = self@;
        proof {
            lemma_mark_used_empty(start.nodes);
        }
        match &node {
            Node::Leaf(_) => {},
            Node::Binop(_, lhs, rhs) => {
                assert(operands(node@)[0] == *lhs && operands(node@)[1] == *rhs);
                self.mark(*lhs);
                self.mark(*rhs);
                proof {
                    lemma_mark_used_twice(start.nodes, seq![*lhs], seq![*rhs]);
                    assert(seq![*lhs] + seq![*rhs] =~= operands(node@));
                }
            },
            Node::UnaryOp(_, input) => {
                assert(operands(node@)[0] == *input);
                self.mark(*input);
                assert(seq![*input] =~= operands(node@));
            },
            Node::FunctionCall(func, args) => {
                assert(operands(node@)[0] == *func);
                self.mark(*func);
                let mut i: usize = 0;
                while i < args.len()
                    invariant
                        i <= args.len(),
                        node@ == NodeView::FunctionCall(*func, args@),
                        operands_below(node@, start.nodes.len() as int),
                        self@ == (BuilderView {
                            nodes: mark_used(start.nodes, seq![*func] + args@.subrange(0, i as int)),
                            ..start
                        }),
                        self.body == old(self).body,
                        self.nodes@.len() == start.nodes.len(),
                        self.inv(),
                    decreases args.len() - i,
                {
                    assert(operands(node@)[i + 1] == args@[i as int]);
                    self.mark(args[i]);
                    proof {
                        lemma_mark_used_twice(
                            start.nodes,
                            seq![*func] + args@.subrange(0, i as int),
                            seq![args@[i as int]],
                        );
                        assert(seq![*func] + args@.subrange(0, i as int) + seq![args@[i as int]]
                            =~= seq![*func] + args@.subrange(0, i + 1));
                    }
                    i += 1;
                }
                assert(seq![*func] + args@.subrange(0, i as int) =~= operands(node@));
            },
            Node::Cast(_, operand, _) => {
                assert(operands(node@)[0] == *operand);
                self.mark(*operand);
                assert(seq![*operand] =~= operands(node@));
            },
        }
        assert(self@.nodes == mark_used(start.nodes, operands(node@)));
        // Nodes start as unused.
        let id = self.nodes.len();
        let ghost node_view = node@;
        self.nodes.push(WorkNode { node, span, used: false });
        proof {
            let expected = start.add_node(node_view, span).0;
            assert(self@.nodes =~= expected.nodes);
            assert forall|i: int| 0 <= i < self@.nodes.len() implies operands_below(
                (#[trigger] self@.nodes[i]).node,
                i,
            ) by {
                if i < start.nodes.len() {
                    assert(self@.nodes[i].node == start.nodes[i].node);
                }
            }
        }
        id
    }

    /// The local that a place stands for.
    pub fn place_to_local(&self, span: Span, p: &Place) -> (r: Result<Local, BuildError>)
        requires
            self.inv(),
        ensures
            r == self@.place_to_local(span, *p),
            r matches Ok(l) ==> l < self.locals@.len(),
    {
        // No projection is allowed, with one exception: field 0 of the
        // result of a checked operation, which is its value.
        match p.as_local() {
            Some(l) => {
                if l < self.locals.len() {
                    Ok(l)
                } else {
                    Err(self.bug(span, BuilderBug::LocalOutOfRange))
                }
            },
            None => match p.as_field() {
                Some(0) => {
                    if p.local < self.locals.len() {
                        if self.checked_op_locals[p.local] {
                            Ok(p.local)
                        } else {
                            Err(self.error(Some(span), BuildErrorKind::UnsupportedProjection))
                        }
                    } else {
                        Err(self.bug(span, BuilderBug::LocalOutOfRange))
                    }
                },
                _ => Err(self.error(Some(span), BuildErrorKind::UnsupportedProjection)),
            },
        }
    }

    /// The node that an operand stands for: the node that the local of a
    /// copy or a move holds, without any change to the builder, or a new leaf
    /// for a constant. A refused operand changes nothing.
    pub fn operand_to_node(&mut self, span: Span, op: &Operand) -> (r: Result<NodeId, BuildError>)
        requires
            old(self).inv(),
        ensures
            final(self).body == old(self).body,
            old(self)@.operand_to_node(span, *op) == (final(self)@, r),
            r is Err ==> final(self)@ == old(self)@,
            final(self).inv(),
            nodes_kept(old(self)@.nodes, final(self)@.nodes),
            final(self).locals@ == old(self).locals@,
            final(self).checked_op_locals@ == old(self).checked_op_locals@,
    {
        match op {
            Operand::Copy(p) | Operand::Move(p) => {
                let local = self.place_to_local(span, p)?;
                Ok(self.locals[local])
            },
            Operand::Constant(ct) => match ct {
                ConstantKind::Ty(ct) => {
                    let leaf = Node::Leaf(ct.clone());
                    assert(operands(leaf@) =~= Seq::empty());
                    Ok(self.add_node(leaf, span))
                },
                ConstantKind::Val => Err(self.error(Some(span), BuildErrorKind::UnsupportedConstant)),
            },
        }
    }

    /// The binary operators that a graph may hold.
    pub fn check_binop(op: BinOp) -> (r: bool)
        ensures
            r == binop_allowed(op),
    {
        match op {
            BinOp::Add
            | BinOp::Sub
            | BinOp::Mul
            | BinOp::Div
            | BinOp::Rem
            | BinOp::BitXor
            | BinOp::BitAnd
            | BinOp::BitOr
            | BinOp::Shl
            | BinOp::Shr
            | BinOp::Eq
            | BinOp::Lt
            | BinOp::Le
            | BinOp::Ne
            | BinOp::Ge
            | BinOp::Gt => true,
            BinOp::Offset => false,
        }
    }

    /// The unary operators that a graph may hold. All of them are, but a new
    /// operator has to be allowed here first.
    pub fn check_unop(op: UnOp) -> (r: bool)
        ensures
            r == unop_allowed(op),
    {
        match op {
            UnOp::Not | UnOp::Neg => true,
        }
    }

    fn assign_node(&mut self, span: Span, local: Local, node: Node) -> (r: Result<(), BuildError>)
        requires
            old(self).inv(),
            local < old(self).locals@.len(),
        ensures
            final(self).body == old(self).body,
            old(self)@.assign_node(span, local, node@) == (final(self)@, r),
            final(self).inv(),
            nodes_kept(old(self)@.nodes, final(self)@.nodes),
    {
        if node.refers_below(self.nodes.len()) {
            let id = self.add_node(node, span);
            self.locals[local] = id;
            Ok(())
        } else {
            Err(self.bug(span, BuilderBug::DanglingOperand))
        }
    }

    fn binary(
        &mut self,
        span: Span,
        local: Local,
        op: BinOp,
        lhs: &Operand,
        rhs: &Operand,
        checked: bool,
    ) -> (r: Result<(), BuildError>)
        requires
            old(self).inv(),
            local < old(self).locals@.len(),
        ensures
            final(self).body == old(self).body,
            old(self)@.binary(span, local, op, *lhs, *rhs, checked) == (final(self)@, r),
            final(self).inv(),
            nodes_kept(old(self)@.nodes, final(self)@.nodes),
    {
        let lhs = self.operand_to_node(span, lhs)?;
        let rhs = self.operand_to_node(span, rhs)?;
        self.assign_node(span, local, Node::Binop(op, lhs, rhs))?;
        if checked {
            self.checked_op_locals[local] = true;
        }
        Ok(())
    }

    /// Takes one statement into the graph. Where it fails, the builder holds
    /// what the steps before the failure made: nothing is changed by a
    /// statement that is refused outright, and a failure after an operand
    /// was taken leaves the leaf of that operand appended and every local
    /// as it was.
    pub fn build_statement(&mut self, stmt: &Statement) -> (r: Result<(), BuildError>)
        requires
            old(self).inv(),
        ensures
            final(self).body == old(self).body,
            old(self)@.statement(*stmt) == (final(self)@, r),
            final(self).inv(),
            nodes_kept(old(self)@.nodes, final(self)@.nodes),
            r is Err ==> final(self).locals@ == old(self).locals@,
            r is Err ==> final(self).checked_op_locals@ == old(self).checked_op_locals@,
            r is Err && !(stmt.kind matches StatementKind::Assign(_, rvalue) && rvalue_taken(
                rvalue,
            )) ==> final(self)@ == old(self)@,
    {
        proof {
            lemma_statement_keeps_nodes(old(self)@, *stmt);
            lemma_refused_statement_changes_nothing(old(self)@, *stmt);
        }
        let span = stmt.span;
        match &stmt.kind {
            StatementKind::Assign(place, rvalue) => {
                let local = self.place_to_local(span, place)?;
                match rvalue {
                    Rvalue::Use(operand) => {
                        let id = self.operand_to_node(span, operand)?;
                        self.locals[local] = id;
                        Ok(())
                    },
                    Rvalue::BinaryOp(op, lhs, rhs) => {
                        if Self::check_binop(*op) {
                            self.binary(span, local, *op, lhs, rhs, false)
                        } else {
                            Err(self.error(Some(span), BuildErrorKind::UnsupportedRvalue))
                        }
                    },
                    Rvalue::CheckedBinaryOp(op, lhs, rhs) => {
                        if Self::check_binop(*op) {
                            self.binary(span, local, *op, lhs, rhs, true)
                        } else {
                            Err(self.error(Some(span), BuildErrorKind::UnsupportedRvalue))
                        }
                    },
                    Rvalue::UnaryOp(op, operand) => {
                        if Self::check_unop(*op) {
                            let operand = self.operand_to_node(span, operand)?;
                            self.assign_node(span, local, Node::UnaryOp(*op, operand))
                        } else {
                            Err(self.error(Some(span), BuildErrorKind::UnsupportedRvalue))
                        }
                    },
                    Rvalue::Cast(cast_kind, operand, ty) => {
                        let operand = self.operand_to_node(span, operand)?;
                        self.assign_node(span, local, Node::Cast(*cast_kind, operand, *ty))
                    },
                    _ => Err(self.error(Some(span), BuildErrorKind::UnsupportedRvalue)),
                }
            },
            // These do not bear on the value.
            StatementKind::AscribeUserType
            | StatementKind::StorageLive(_)
            | StatementKind::StorageDead(_) => Ok(()),
            _ => Err(self.error(Some(span), BuildErrorKind::UnsupportedStatement)),
        }
    }

    fn operands_to_nodes(&mut self, span: Span, ops: &Vec<Operand>) -> (r: Result<
        Vec<NodeId>,
        BuildError,
    >)
        requires
            old(self).inv(),
        ensures
            final(self).body == old(self).body,
            old(self)@.operands_to_nodes(span, ops@) == (
                final(self)@,
                match r {
                    Ok(ids) => Ok::<Seq<NodeId>, BuildError>(ids@),
                    Err(e) => Err(e),
                },
            ),
            final(self).inv(),
            nodes_kept(old(self)@.nodes, final(self)@.nodes),
            final(self).locals@ == old(self).locals@,
            final(self).checked_op_locals@ == old(self).checked_op_locals@,
    {
        let mut ids: Vec<NodeId> = Vec::new();
        let mut i: usize = 0;
        assert(ops@.subrange(0, 0) =~= Seq::empty());
        while i < ops.len()
            invariant
                i <= ops.len(),
                self.body == old(self).body,
                self.inv(),
                self.locals@ == old(self).locals@,
                self.checked_op_locals@ == old(self).checked_op_locals@,
                nodes_kept(old(self)@.nodes, self@.nodes),
                old(self)@.operands_to_nodes(span, ops@.subrange(0, i as int)) == (
                    self@,
                    Ok::<Seq<NodeId>, BuildError>(ids@),
                ),
            decreases ops.len() - i,
        {
            let ghost prefix = ops@.subrange(0, i + 1);
            proof {
                assert(prefix.drop_last() =~= ops@.subrange(0, i as int));
                assert(prefix.last() == ops@[i as int]);
            }
            match self.operand_to_node(span, &ops[i]) {
                Ok(id) => {
                    ids.push(id);
                },
                Err(e) => {
                    proof {
                        lemma_operands_to_nodes_fails(old(self)@, span, ops@, i + 1);
                    }
                    return Err(e);
                },
            }
            i += 1;
        }
        assert(ops@.subrange(0, i as int) =~= ops@);
        Ok(ids)
    }

    fn assertion(&mut self, span: Span, p: &Place) -> (r: Result<(), BuildError>)
        requires
            old(self).inv(),
        ensures
            final(self).body == old(self).body,
            old(self)@.assertion(span, *p) == (final(self)@, r),
            final(self).inv(),
            nodes_kept(old(self)@.nodes, final(self)@.nodes),
    {
        match p.as_local() {
            Some(l) => {
                if l >= self.locals.len() {
                    Err(self.bug(span, BuilderBug::LocalOutOfRange))
                } else if self.locals[l] >= self.nodes.len() {
                    Err(self.bug(span, BuilderBug::DanglingOperand))
                } else {
                    // A local that an assertion tests directly counts as
                    // used: division is guarded by such an assertion on its
                    // divisor, not by a checked operation.
                    let id = self.locals[l];
                    self.mark(id);
                    Ok(())
                }
            },
            None => match p.as_field() {
                Some(1) => {
                    // Only the overflow flag of a checked operation may be
                    // asserted on.
                    if p.local < self.locals.len() {
                        if self.checked_op_locals[p.local] {
                            Ok(())
                        } else {
                            Err(self.error(Some(span), BuildErrorKind::UnsupportedAssertion))
                        }
                    } else {
                        Err(self.bug(span, BuilderBug::LocalOutOfRange))
                    }
                },
                _ => Err(self.error(Some(span), BuildErrorKind::UnsupportedAssertion)),
            },
        }
    }

    /// Takes a terminator into the graph. `Ok(Some(block))` where the path
    /// goes on at `block`, `Ok(None)` where it ends. Where it fails, the
    /// builder holds what the steps before the failure made: nothing is
    /// changed by a terminator or an assertion that is refused.
    pub fn build_terminator(&mut self, terminator: &Terminator) -> (r: Result<
        Option<BasicBlock>,
        BuildError,
    >)
        requires
            old(self).inv(),
        ensures
            final(self).body == old(self).body,
            old(self)@.terminator(*terminator) == (final(self)@, r),
            final(self).inv(),
            nodes_kept(old(self)@.nodes, final(self)@.nodes),
            r is Err ==> final(self).locals@ == old(self).locals@,
            r is Err ==> final(self).checked_op_locals@ == old(self).checked_op_locals@,
            r is Err && !(terminator.kind is Call && terminator_taken(terminator.kind))
                ==> final(self)@ == old(self)@,
    {
        proof {
            lemma_terminator_keeps_nodes(old(self)@, *terminator);
        }
        match &terminator.kind {
            TerminatorKind::Goto { target } => Ok(Some(*target)),
            TerminatorKind::Return => Ok(None),
            TerminatorKind::Call {
                func,
                args,
                destination: Some((place, target)),
                // A call that may unwind into a cleanup block is not accepted.
                cleanup: None,
                // Overloaded operators are not accepted.
                from_hir_call: true,
                fn_span,
            } => {
                let local = self.place_to_local(*fn_span, place)?;
                let func = self.operand_to_node(*fn_span, func)?;
                let args = self.operands_to_nodes(terminator.span, args)?;
                self.assign_node(*fn_span, local, Node::FunctionCall(func, args))?;
                Ok(Some(*target))
            },
            TerminatorKind::Assert { cond, expected: false, target, cleanup: _ } => {
                match cond {
                    Operand::Copy(p) | Operand::Move(p) => {
                        self.assertion(terminator.span, p)?;
                        Ok(Some(*target))
                    },
                    Operand::Constant(_) => Err(
                        self.error(Some(terminator.span), BuildErrorKind::UnsupportedAssertion),
                    ),
                }
            },
            _ => Err(self.error(Some(terminator.span), BuildErrorKind::UnsupportedTerminator)),
        }
    }

    fn build_statements(&mut self, stmts: &Vec<Statement>) -> (r: Result<(), BuildError>)
        requires
            old(self).inv(),
        ensures
            final(self).body == old(self).body,
            old(self)@.statements(stmts@) == (final(self)@, r),
            final(self).inv(),
            nodes_kept(old(self)@.nodes, final(self)@.nodes),
    {
        let mut i: usize = 0;
        assert(stmts@.subrange(0, 0) =~= Seq::empty());
        while i < stmts.len()
            invariant
                i <= stmts.len(),
                self.body == old(self).body,
                self.inv(),
                nodes_kept(old(self)@.nodes, self@.nodes),
                old(self)@.statements(stmts@.subrange(0, i as int)) == (
                    self@,
                    Ok::<(), BuildError>(()),
                ),
            decreases stmts.len() - i,
        {
            let ghost prefix = stmts@.subrange(0, i + 1);
            proof {
                assert(prefix.drop_last() =~= stmts@.subrange(0, i as int));
                assert(prefix.last() == stmts@[i as int]);
            }
            match self.build_statement(&stmts[i]) {
                Ok(()) => {},
                Err(e) => {
                    proof {
                        lemma_statements_fails(old(self)@, stmts@, i + 1);
                    }
                    return Err(e);
                },
            }
            i += 1;
        }
        assert(stmts@.subrange(0, i as int) =~= stmts@);
        Ok(())
    }

    fn find_promoted(&self) -> (r: bool)
        ensures
            r == self@.has_promoted(),
    {
        let mut i: usize = 0;
        while i < self.nodes.len()
            invariant
                i <= self.nodes.len(),
                forall|j: int| 0 <= j < i ==> !is_promoted_leaf((#[trigger] self@.nodes[j]).node),
            decreases self.nodes.len() - i,
        {
            let promoted = match &self.nodes[i].node {
                Node::Leaf(c) => match &c.val {
                    ConstKind::Unevaluated(uv) => uv.promoted.is_some(),
                    _ => false,
                },
                _ => false,
            };
            assert(promoted == is_promoted_leaf(self@.nodes[i as int].node));
            if promoted {
                return true;
            }
            i += 1;
        }
        false
    }

    fn build_block(&mut self, data: &BasicBlockData) -> (r: Result<Option<BasicBlock>, BuildError>)
        requires
            old(self).inv(),
        ensures
            final(self).body == old(self).body,
            old(self)@.block(*data) == (final(self)@, r),
            final(self).inv(),
            nodes_kept(old(self)@.nodes, final(self)@.nodes),
    {
        reveal(BuilderView::block);
        self.build_statements(&data.statements)?;
        self.build_terminator(&data.terminator)
    }

    #[verifier::loop_isolation(false)]
    fn finish(self) -> (r: Result<Vec<Node>, BuildError>)
        requires
            self.inv(),
        ensures
            self@.finish() == (match r {
                Ok(nodes) => Ok(view_nodes(nodes@)),
                Err(e) => Err(e),
            }),
            r matches Ok(nodes) ==> nodes@.len() > 0 && graph_wf(view_nodes(nodes@)),
    {
        let mut this = self;
        let ghost walked = this@;
        if this.locals.len() == 0 || this.nodes.len() == 0 || this.locals[RETURN_PLACE]
            != this.nodes.len() - 1 {
            return Err(this.bug(this.body.span, BuilderBug::ReturnNotLast));
        }
        // A graph holds no promoted constant: those need references, which
        // are not allowed.
        if this.find_promoted() {
            return Err(this.bug(this.body.span, BuilderBug::PromotedConstant));
        }
        let root = this.locals[RETURN_PLACE];
        this.mark(root);
        let ghost done = this@;
        let mut i: usize = 0;
        while i < this.nodes.len()
            invariant
                i <= this.nodes.len(),
                this@ == done,
                forall|j: int| 0 <= j < i ==> (#[trigger] done.nodes[j]).used,
            decreases this.nodes.len() - i,
        {
            if !this.nodes[i].used {
                proof {
                    assert(done.first_unused(i as int));
                    let k = choose|k: int| done.first_unused(k);
                    assert(k == i) by {
                        if k < i {
                            assert(done.nodes[k].used);
                        }
                        if i < k {
                            assert(done.nodes[i as int].used);
                        }
                    }
                }
                return Err(this.error(Some(this.nodes[i].span), BuildErrorKind::DeadCode));
            }
            i += 1;
        }
        assert(!exists|k: int| done.first_unused(k));
        let mut out: Vec<Node> = Vec::new();
        let mut k: usize = 0;
        while k < this.nodes.len()
            invariant
                k <= this.nodes.len(),
                this@ == done,
                out@.len() == k,
                forall|j: int| 0 <= j < k ==> (#[trigger] out@[j])@ == done.nodes[j].node,
            decreases this.nodes.len() - k,
        {
            out.push(this.nodes[k].node.clone());
            k += 1;
        }
        proof {
            let g = Seq::new(done.nodes.len(), |i: int| done.nodes[i].node);
            assert(view_nodes(out@) =~= g);
            assert forall|i: int| 0 <= i < g.len() implies operands_below(#[trigger] g[i], i) by {
                assert(operands_below(walked.nodes[i].node, i));
            }
        }
        Ok(out)
    }

    /// Builds the graph by following the body from its entry block, and
    /// gives up at the first operation that is not supported.
    #[verifier::loop_isolation(false)]
    pub fn build(self) -> (r: Result<Vec<Node>, BuildError>)
        requires
            self.inv(),
        ensures
            ({
                let (s, walked) = self@.walk(self.body, START_BLOCK, self.body.basic_blocks@.len());
                match walked {
                    Err(e) => Err(e),
                    Ok(_) => s.finish(),
                }
            }) == (match r {
                Ok(nodes) => Ok(view_nodes(nodes@)),
                Err(e) => Err(e),
            }),
            r matches Ok(nodes) ==> nodes@.len() > 0 && graph_wf(view_nodes(nodes@)),
    {
        let mut this = self;
        let ghost start = this@;
        let body = this.body;
        let mut next: Option<BasicBlock> = Some(START_BLOCK);
        let mut fuel: usize = body.basic_blocks.len();
        // The body has no cycle, so the path ends before it has visited more
        // blocks than the body has.
        while next.is_some()
            invariant
                this.body == body,
                this.inv(),
                start.walk(body, START_BLOCK, body.basic_blocks@.len() as nat) == (match next {
                    Some(block) => this@.walk(body, block, fuel as nat),
                    None => (this@, Ok::<(), BuildError>(())),
                }),
            decreases fuel,
        {
            let block = next.unwrap();
            if block >= body.basic_blocks.len() {
                return Err(this.bug(body.span, BuilderBug::BlockOutOfRange));
            }
            if fuel == 0 {
                return Err(this.bug(body.span, BuilderBug::WalkTooLong));
            }
            next = this.build_block(&body.basic_blocks[block])?;
            fuel = fuel - 1;
        }
        this.finish()
    }
}

/// Once a prefix of the operands fails, so does every longer prefix.
proof fn lemma_operands_to_nodes_fails(s: BuilderView, span: Span, ops: Seq<Operand>, n: int)
    requires
        0 <= n <= ops.len(),
        s.operands_to_nodes(span, ops.subrange(0, n)).1 is Err,
    ensures
        s.operands_to_nodes(span, ops) == s.operands_to_nodes(span, ops.subrange(0, n)),
    decreases ops.len() - n,
{
    if n == ops.len() {
        assert(ops.subrange(0, n) =~= ops);
    } else {
        let longer = ops.subrange(0, n + 1);
        assert(longer.drop_last() =~= ops.subrange(0, n));
        assert(s.operands_to_nodes(span, longer) == s.operands_to_nodes(span, ops.subrange(0, n)));
        lemma_operands_to_nodes_fails(s, span, ops, n + 1);
    }
}

/// Once a prefix of the statements fails, so does every longer prefix.
proof fn lemma_statements_fails(s: BuilderView, stmts: Seq<Statement>, n: int)
    requires
        0 <= n <= stmts.len(),
        s.statements(stmts.subrange(0, n)).1 is Err,
    ensures
        s.statements(stmts) == s.statements(stmts.subrange(0, n)),
    decreases stmts.len() - n,
{
    if n == stmts.len() {
        assert(stmts.subrange(0, n) =~= stmts);
    } else {
        let longer = stmts.subrange(0, n + 1);
        assert(longer.drop_last() =~= stmts.subrange(0, n));
        assert(s.statements(longer) == s.statements(stmts.subrange(0, n)));
        lemma_statements_fails(s, stmts, n + 1);
    }
}

/// Builds the graph of a definition. Only constant expressions written in
/// place have one, and only when graphs of generic constants are asked for.
pub fn mir_abstract_const(generic_const_exprs: bool, def: &Definition) -> (r: Result<
    Option<Vec<Node>>,
    BuildError,
>)
    ensures
        abstract_const_of(generic_const_exprs, *def) == (match r {
            Ok(Some(nodes)) => Ok(Some(view_nodes(nodes@))),
            Ok(None) => Ok(None),
            Err(e) => Err(e),
        }),
        r matches Ok(Some(nodes)) ==> nodes@.len() > 0 && graph_wf(view_nodes(nodes@)),
{
    if generic_const_exprs {
        match def.kind {
            // Associated constants are not looked into: they never unify
            // with anything but themselves.
            DefKind::AnonConst => {},
            _ => {
                return Ok(None);
            },
        }
        match AbstractConstBuilder::new(&def.body)? {
            None => Ok(None),
            Some(builder) => {
                let nodes = builder.build()?;
                Ok(Some(nodes))
            },
        }
    } else {
        Ok(None)
    }
}

} // verus!
