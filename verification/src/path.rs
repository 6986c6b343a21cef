//! The path that the builder follows through a body without cycles ends
//! before it has visited more blocks than the body has. The builder counts
//! the blocks it visits so that it ends on every body; this is why a body
//! that passed the check for cycles never exhausts the count.
use crate::builder::{build_outcome, initial_state, BuildErrorKind, BuilderBug, BuilderView};
use crate::cycles::{cfg_cyclic, has_repeat, is_edge, is_walk};
use crate::mir::{
    BasicBlock, Body, Local, Operand, Rvalue, Span, Statement, StatementKind, Terminator,
    TerminatorKind, START_BLOCK,
};
use vstd::prelude::*;
use vstd::set_lib::{lemma_int_range, lemma_len_subset, set_int_range};

verus! {

/// The error of a count that ran out.
pub open spec fn is_walk_too_long(kind: BuildErrorKind) -> bool {
    kind == BuildErrorKind::Bug(BuilderBug::WalkTooLong)
}

/// More blocks in a row than the body has hold some block twice.
proof fn lemma_long_walk_repeats(body: &Body, w: Seq<int>)
    requires
        is_walk(body, w),
        w.len() > body.basic_blocks@.len(),
    ensures
        has_repeat(w),
{
    let n = body.basic_blocks@.len() as int;
    assert forall|i: int| 0 <= i < w.len() implies 0 <= #[trigger] w[i] < n by {
        if i > 0 {
            assert(is_edge(body, w[i - 1], w[i]));
        }
    }
    if !has_repeat(w) {
        assert(w.no_duplicates()) by {
            assert forall|i: int, j: int| 0 <= i < w.len() && 0 <= j < w.len() && i != j implies w[i]
                != w[j] by {
                if i < j {
                    assert(!(0 <= i < j < w.len() && w[i] == w[j]));
                } else {
                    assert(!(0 <= j < i < w.len() && w[j] == w[i]));
                }
            }
        }
        w.unique_seq_to_set();
        lemma_int_range(0, n);
        assert(w.to_set().subset_of(set_int_range(0, n))) by {
            assert forall|x: int| w.to_set().contains(x) implies set_int_range(0, n).contains(x) by {
                let i = choose|i: int| 0 <= i < w.len() && w[i] == x;
                assert(0 <= w[i] < n);
            }
        }
        lemma_len_subset(w.to_set(), set_int_range(0, n));
    }
}

proof fn lemma_operand(s: BuilderView, span: Span, op: Operand)
    ensures
        s.operand_to_node(span, op).1 matches Err(e) ==> !is_walk_too_long(e.kind),
{
}

proof fn lemma_operands(s: BuilderView, span: Span, ops: Seq<Operand>)
    ensures
        s.operands_to_nodes(span, ops).1 matches Err(e) ==> !is_walk_too_long(e.kind),
    decreases ops.len(),
{
    if ops.len() > 0 {
        lemma_operands(s, span, ops.drop_last());
        let (m, r) = s.operands_to_nodes(span, ops.drop_last());
        if r is Ok {
            lemma_operand(m, span, ops.last());
        }
    }
}

proof fn lemma_assign(s: BuilderView, span: Span, local: Local, rvalue: Rvalue)
    ensures
        s.assign(span, local, rvalue).1 matches Err(e) ==> !is_walk_too_long(e.kind),
{
}

proof fn lemma_statement(s: BuilderView, stmt: Statement)
    ensures
        s.statement(stmt).1 matches Err(e) ==> !is_walk_too_long(e.kind),
{
    match stmt.kind {
        StatementKind::Assign(place, rvalue) => {
            match s.place_to_local(stmt.span, place) {
                Ok(local) => {
                    lemma_assign(s, stmt.span, local, rvalue);
                },
                Err(_) => {},
            }
        },
        _ => {},
    }
}

proof fn lemma_statements(s: BuilderView, stmts: Seq<Statement>)
    ensures
        s.statements(stmts).1 matches Err(e) ==> !is_walk_too_long(e.kind),
    decreases stmts.len(),
{
    if stmts.len() > 0 {
        lemma_statements(s, stmts.drop_last());
        let (m, r) = s.statements(stmts.drop_last());
        if r is Ok {
            lemma_statement(m, stmts.last());
        }
    }
}

/// A terminator fails with another error than that of the count, and where
/// the path goes on, it goes on at a block to which control may pass.
proof fn lemma_terminator(s: BuilderView, term: Terminator)
    ensures
        s.terminator(term).1 matches Err(e) ==> !is_walk_too_long(e.kind),
        s.terminator(term).1 matches Ok(Some(next)) ==> term.kind.spec_successors().contains(next),
{
    match term.kind {
        TerminatorKind::Call { func, args, destination, cleanup, from_hir_call, fn_span } => {
            if from_hir_call && destination is Some && cleanup is None {
                let (s1, f) = s.operand_to_node(fn_span, func);
                if f is Ok {
                    lemma_operands(s1, term.span, args@);
                }
                assert(term.kind.spec_successors()[0] == destination->Some_0.1);
            }
        },
        TerminatorKind::Goto { target } => {
            assert(term.kind.spec_successors()[0] == target);
        },
        TerminatorKind::Assert { cond, expected, target, cleanup } => {
            assert(term.kind.spec_successors()[0] == target);
        },
        _ => {},
    }
}

proof fn lemma_walk_fits(
    s: BuilderView,
    body: &Body,
    block: BasicBlock,
    fuel: nat,
    path: Seq<int>,
)
    requires
        !cfg_cyclic(body),
        block < body.basic_blocks@.len() ==> {
            &&& is_walk(body, path)
            &&& path[0] == START_BLOCK
            &&& path.last() == block
            &&& path.len() + fuel == body.basic_blocks@.len() + 1
        },
    ensures
        s.walk(body, block, fuel).1 matches Err(e) ==> !is_walk_too_long(e.kind),
    decreases fuel,
{
    reveal(BuilderView::block);
    if block < body.basic_blocks@.len() {
        if fuel == 0 {
            lemma_long_walk_repeats(body, path);
        } else {
            let data = body.basic_blocks@[block as int];
            lemma_statements(s, data.statements@);
            let (m, done) = s.statements(data.statements@);
            if done is Ok {
                lemma_terminator(m, data.terminator);
                let (t, r) = m.terminator(data.terminator);
                match r {
                    Ok(Some(next)) => {
                        let longer = path.push(next as int);
                        if next < body.basic_blocks@.len() {
                            assert(is_edge(body, block as int, next as int));
                            assert forall|i: int| 0 <= i < longer.len() - 1 implies is_edge(
                                body,
                                #[trigger] longer[i],
                                longer[i + 1],
                            ) by {
                                if i < path.len() - 1 {
                                    assert(is_edge(body, path[i], path[i + 1]));
                                }
                            }
                        }
                        lemma_walk_fits(t, body, next, (fuel - 1) as nat, longer);
                    },
                    _ => {},
                }
            }
        }
    }
}

/// Building the graph of a body without cycles never fails for want of
/// steps: the path through such a body visits each block at most once.
pub proof fn lemma_acyclic_body_is_walked_to_its_end(body: &Body)
    requires
        !cfg_cyclic(body),
    ensures
        build_outcome(body) matches Err(e) ==> !is_walk_too_long(e.kind),
{
    lemma_walk_fits(
        initial_state(body),
        body,
        START_BLOCK,
        body.basic_blocks@.len(),
        seq![START_BLOCK as int],
    );
}

} // verus!
