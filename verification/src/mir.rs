//! The control-flow body of a constant definition: basic blocks of simple
//! statements, each block closed by a terminator.
use crate::ty::{Const, DefId, Ty};
use vstd::prelude::*;

verus! {

/// A local variable of a body, by position. Local 0 holds the return value.
pub type Local = usize;

/// A basic block of a body, by position. Block 0 is the entry.
pub type BasicBlock = usize;

/// The local that holds the value a body returns.
pub const RETURN_PLACE: usize = 0;

/// The block at which a body starts.
pub const START_BLOCK: usize = 0;

/// A region of source text.
#[derive(Clone, Copy, Debug, PartialEq, Eq, Hash, Structural)]
pub struct Span {
    pub lo: u32,
    pub hi: u32,
}

/// Binary operators.
#[derive(Clone, Copy, Debug, PartialEq, Eq, Hash, Structural)]
pub enum BinOp {
    Add,
    Sub,
    Mul,
    Div,
    Rem,
    BitXor,
    BitAnd,
    BitOr,
    Shl,
    Shr,
    Eq,
    Lt,
    Le,
    Ne,
    Ge,
    Gt,
    /// Pointer offset.
    Offset,
}

/// Unary operators.
#[derive(Clone, Copy, Debug, PartialEq, Eq, Hash, Structural)]
pub enum UnOp {
    Not,
    Neg,
}

/// Conversions between pointer types.
#[derive(Clone, Copy, Debug, PartialEq, Eq, Hash, Structural)]
pub enum PointerCast {
    ReifyFnPointer,
    UnsafeFnPointer,
    ClosureFnPointer,
    MutToConstPointer,
    ArrayToPointer,
    Unsize,
}

/// The kind of a cast.
#[derive(Clone, Copy, Debug, PartialEq, Eq, Hash, Structural)]
pub enum CastKind {
    Misc,
    Pointer(PointerCast),
}

/// One step from a local to a part of it.
#[derive(Clone, Copy, Debug, PartialEq, Eq, Structural)]
pub enum ProjectionElem {
    Deref,
    /// The field with the given position, and its type.
    Field(usize, Ty),
    Index(Local),
    ConstantIndex { offset: u64, min_length: u64, from_end: bool },
    Subslice { from: u64, to: u64, from_end: bool },
    /// The enum variant with the given position.
    Downcast(usize),
}

/// A local, or a part of it reached by projections.
#[derive(Debug, Clone, PartialEq, Eq)]
pub struct Place {
    pub local: Local,
    pub projection: Vec<ProjectionElem>,
}

impl Place {
    /// The local itself, when the place has no projection.
    pub open spec fn spec_as_local(&self) -> Option<Local> {
        if self.projection@.len() == 0 {
            Some(self.local)
        } else {
            None
        }
    }

    /// The field position, when the place is exactly one field of its local.
    pub open spec fn spec_as_field(&self) -> Option<usize> {
        if self.projection@.len() == 1 && self.projection@[0] is Field {
            Some(self.projection@[0]->Field_0)
        } else {
            None
        }
    }

    /// The local itself, when the place has no projection.
    #[verifier::when_used_as_spec(spec_as_local)]
    pub fn as_local(&self) -> (r: Option<Local>)
        ensures
            r == self.spec_as_local(),
    {
        if self.projection.len() == 0 {
            Some(self.local)
        } else {
            None
        }
    }

    /// The field position, when the place is exactly one field of its local.
    #[verifier::when_used_as_spec(spec_as_field)]
    pub fn as_field(&self) -> (r: Option<usize>)
        ensures
            r == self.spec_as_field(),
    {
        if self.projection.len() == 1 {
            match self.projection[0] {
                ProjectionElem::Field(f, _) => Some(f),
                _ => None,
            }
        } else {
            None
        }
    }
}

/// A constant operand.
#[derive(Debug, Clone, PartialEq)]
pub enum ConstantKind {
    /// A constant of the type system, which may be symbolic.
    Ty(Const),
    /// A value that was already evaluated to memory.
    Val,
}

/// The argument of an operation.
#[derive(Debug, Clone, PartialEq)]
pub enum Operand {
    Copy(Place),
    Move(Place),
    Constant(ConstantKind),
}

/// What an aggregate builds.
#[derive(Clone, Copy, Debug, PartialEq, Eq, Structural)]
pub enum AggregateKind {
    Array,
    Tuple,
    /// A value of the struct or enum with the given definition.
    Adt(DefId),
    Closure,
}

/// The right-hand side of an assignment.
#[derive(Debug, Clone, PartialEq)]
pub enum Rvalue {
    Use(Operand),
    BinaryOp(BinOp, Operand, Operand),
    /// A binary operation that yields the pair of its value and an overflow flag.
    CheckedBinaryOp(BinOp, Operand, Operand),
    UnaryOp(UnOp, Operand),
    Cast(CastKind, Operand, Ty),
    Repeat(Operand),
    Ref(Place),
    AddressOf(Place),
    Len(Place),
    /// An operation without operands, such as the size of the given type.
    NullaryOp(Ty),
    Discriminant(Place),
    Aggregate(AggregateKind, Vec<Operand>),
}

/// What a statement does.
#[derive(Debug, Clone, PartialEq)]
pub enum StatementKind {
    Assign(Place, Rvalue),
    AscribeUserType,
    StorageLive(Local),
    StorageDead(Local),
    FakeRead,
    SetDiscriminant,
    Retag,
    Coverage,
    Nop,
}

/// A statement with its place in the source.
#[derive(Debug, Clone, PartialEq)]
pub struct Statement {
    pub span: Span,
    pub kind: StatementKind,
}

/// How a block ends and where control goes from it.
#[derive(Debug, Clone, PartialEq)]
pub enum TerminatorKind {
    Goto { target: BasicBlock },
    SwitchInt { targets: Vec<BasicBlock> },
    Resume,
    Abort,
    Return,
    Unreachable,
    Drop { target: BasicBlock, unwind: Option<BasicBlock> },
    Call {
        func: Operand,
        args: Vec<Operand>,
        /// Where the result goes and where control continues; `None` for a
        /// call that does not return.
        destination: Option<(Place, BasicBlock)>,
        cleanup: Option<BasicBlock>,
        /// Whether the call was written as a call, not as an overloaded operator.
        from_hir_call: bool,
        fn_span: Span,
    },
    Assert { cond: Operand, expected: bool, target: BasicBlock, cleanup: Option<BasicBlock> },
}

/// A terminator with its place in the source.
#[derive(Debug, Clone, PartialEq)]
pub struct Terminator {
    pub span: Span,
    pub kind: TerminatorKind,
}

/// A basic block: statements that run one after the other, then a terminator.
#[derive(Debug, Clone, PartialEq)]
pub struct BasicBlockData {
    pub statements: Vec<Statement>,
    pub terminator: Terminator,
}

/// The body of a constant definition.
#[derive(Debug, Clone, PartialEq)]
pub struct Body {
    pub basic_blocks: Vec<BasicBlockData>,
    /// How many locals the body declares, the return place included.
    pub local_count: usize,
    pub span: Span,
    /// Whether the body depends on a generic parameter.
    pub is_polymorphic: bool,
}

fn push_some(out: &mut Vec<BasicBlock>, b: Option<BasicBlock>)
    ensures
        final(out)@ == old(out)@ + opt_seq(b),
{
    match b {
        Some(t) => {
            out.push(t);
        },
        None => {
            assert(out@ =~= out@ + opt_seq(b));
        },
    }
}

/// The sequence of nothing or of one block.
pub open spec fn opt_seq(b: Option<BasicBlock>) -> Seq<BasicBlock> {
    match b {
        Some(t) => seq![t],
        None => Seq::empty(),
    }
}

impl TerminatorKind {
    /// The blocks to which control may pass from this terminator.
    pub open spec fn spec_successors(&self) -> Seq<BasicBlock> {
        match *self {
            TerminatorKind::Goto { target } => seq![target],
            TerminatorKind::SwitchInt { targets } => targets@,
            TerminatorKind::Resume => Seq::empty(),
            TerminatorKind::Abort => Seq::empty(),
            TerminatorKind::Return => Seq::empty(),
            TerminatorKind::Unreachable => Seq::empty(),
            TerminatorKind::Drop { target, unwind } => seq![target] + opt_seq(unwind),
            TerminatorKind::Call { destination, cleanup, .. } => (match destination {
                Some((_, t)) => seq![t],
                None => Seq::empty(),
            }) + opt_seq(cleanup),
            TerminatorKind::Assert { target, cleanup, .. } => seq![target] + opt_seq(cleanup),
        }
    }

    /// The blocks to which control may pass from this terminator.
    pub fn successors(&self) -> (r: Vec<BasicBlock>)
        ensures
            r@ == self.spec_successors(),
    {
        let mut out: Vec<BasicBlock> = Vec::new();
        match self {
            TerminatorKind::Goto { target } => {
                out.push(*target);
            },
            TerminatorKind::SwitchInt { targets } => {
                let mut i: usize = 0;
                while i < targets.len()
                    invariant
                        i <= targets.len(),
                        out@ == targets@.subrange(0, i as int),
                    decreases targets.len() - i,
                {
                    out.push(targets[i]);
                    assert(out@ =~= targets@.subrange(0, i + 1));
                    i += 1;
                }
                assert(out@ =~= targets@);
            },
            TerminatorKind::Resume => {},
            TerminatorKind::Abort => {},
            TerminatorKind::Return => {},
            TerminatorKind::Unreachable => {},
            TerminatorKind::Drop { target, unwind } => {
                out.push(*target);
                push_some(&mut out, *unwind);
            },
            TerminatorKind::Call { destination, cleanup, .. } => {
                match destination {
                    Some((_, t)) => {
                        out.push(*t);
                    },
                    None => {},
                }
                push_some(&mut out, *cleanup);
            },
            TerminatorKind::Assert { target, cleanup, .. } => {
                out.push(*target);
                push_some(&mut out, *cleanup);
            },
        }
        assert(out@ =~= self.spec_successors());
        out
    }
}

} // verus!
