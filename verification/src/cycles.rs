//! Cycles in the control flow of a body.
//!
//! A depth-first search colours each block: white before the search has
//! reached it, grey while the search is below it, black once everything
//! that control can reach from it was searched. An edge to a grey block closes
//! a cycle; when the search ends without one, no path from the entry block
//! comes back to a block.
use crate::mir::{BasicBlock, Body, START_BLOCK};
use vstd::prelude::*;

verus! {

/// Control may pass from block `u` to block `v`.
pub open spec fn is_edge(body: &Body, u: int, v: int) -> bool {
    &&& 0 <= u < body.basic_blocks@.len()
    &&& 0 <= v < body.basic_blocks@.len()
    &&& body.basic_blocks@[u].terminator.kind.spec_successors().contains(v as usize)
}

/// `w` is a non-empty sequence of blocks in which control may pass from each
/// block to the next.
pub open spec fn is_walk(body: &Body, w: Seq<int>) -> bool {
    &&& w.len() > 0
    &&& 0 <= w[0] < body.basic_blocks@.len()
    &&& forall|i: int| 0 <= i < w.len() - 1 ==> is_edge(body, #[trigger] w[i], w[i + 1])
}

/// Some block occurs twice in `w`.
pub open spec fn has_repeat(w: Seq<int>) -> bool {
    exists|i: int, j: int| 0 <= i < j < w.len() && w[i] == w[j]
}

/// Control that starts at the entry block can come back to a block where it
/// was before.
pub open spec fn cfg_cyclic(body: &Body) -> bool {
    exists|w: Seq<int>| is_walk(body, w) && w[0] == START_BLOCK && has_repeat(w)
}

/// The colour of a block that the search has not reached.
pub const WHITE: u8 = 0;

/// The colour of a block below which the search is at work.
pub const GREY: u8 = 1;

/// The colour of a block that the search is done with.
pub const BLACK: u8 = 2;

/// How many blocks the search has not reached yet.
pub open spec fn count_white(c: Seq<u8>) -> nat
    decreases c.len(),
{
    if c.len() == 0 {
        0
    } else {
        count_white(c.drop_last()) + if c.last() == WHITE {
            1nat
        } else {
            0nat
        }
    }
}

proof fn lemma_count_update(c: Seq<u8>, i: int, x: u8)
    requires
        0 <= i < c.len(),
        x != WHITE,
    ensures
        count_white(c.update(i, x)) == count_white(c) - (if c[i] == WHITE {
            1int
        } else {
            0int
        }),
    decreases c.len(),
{
    let d = c.update(i, x);
    if i == c.len() - 1 {
        assert(d.drop_last() =~= c.drop_last());
    } else {
        lemma_count_update(c.drop_last(), i, x);
        assert(d.drop_last() =~= c.drop_last().update(i, x));
    }
}

/// Every edge from a black block leads to a black block.
pub open spec fn black_closed(body: &Body, c: Seq<u8>) -> bool {
    forall|u: int, v: int|
        0 <= u < c.len() && c[u] == BLACK && #[trigger] is_edge(body, u, v) ==> c[v] == BLACK
}

/// The black blocks are done with: control that leaves one stays among them
/// and never comes back to a block.
pub open spec fn settled(body: &Body, c: Seq<u8>) -> bool {
    &&& c.len() == body.basic_blocks@.len()
    &&& forall|j: int| 0 <= j < c.len() ==> #[trigger] c[j] <= BLACK
    &&& black_closed(body, c)
    &&& forall|w: Seq<int>| #[trigger] is_walk(body, w) && c[w[0]] == BLACK ==> !has_repeat(w)
}

/// A walk that begins at a black block stays among the black blocks.
proof fn lemma_walk_stays_black(body: &Body, c: Seq<u8>, w: Seq<int>, k: int)
    requires
        c.len() == body.basic_blocks@.len(),
        black_closed(body, c),
        is_walk(body, w),
        c[w[0]] == BLACK,
        0 <= k < w.len(),
    ensures
        0 <= w[k] < c.len(),
        c[w[k]] == BLACK,
    decreases k,
{
    if k > 0 {
        lemma_walk_stays_black(body, c, w, k - 1);
        assert(is_edge(body, w[k - 1], w[k]));
    }
}

/// Once every edge from the grey block `u` leads to a black block, `u` can
/// turn black.
proof fn lemma_blacken(body: &Body, c: Seq<u8>, u: int)
    requires
        settled(body, c),
        0 <= u < c.len(),
        c[u] == GREY,
        forall|v: int| #[trigger] is_edge(body, u, v) ==> c[v] == BLACK,
    ensures
        settled(body, c.update(u, BLACK)),
{
    let d = c.update(u, BLACK);
    assert forall|x: int, y: int|
        0 <= x < d.len() && d[x] == BLACK && #[trigger] is_edge(body, x, y) implies d[y]
        == BLACK by {
        if x != u {
            assert(c[x] == BLACK);
        }
    }
    assert forall|w: Seq<int>| #[trigger] is_walk(body, w) && d[w[0]] == BLACK implies !has_repeat(
        w,
    ) by {
        if w[0] != u {
            assert(c[w[0]] == BLACK);
        } else if w.len() > 1 {
            let rest = w.skip(1);
            assert(is_edge(body, w[0], w[1]));
            assert(is_walk(body, rest)) by {
                assert forall|i: int| 0 <= i < rest.len() - 1 implies is_edge(
                    body,
                    #[trigger] rest[i],
                    rest[i + 1],
                ) by {
                    assert(is_edge(body, w[i + 1], w[i + 2]));
                }
            }
            assert(c[rest[0]] == BLACK);
            assert(!has_repeat(rest));
            if has_repeat(w) {
                let (i, j) = choose|i: int, j: int| 0 <= i < j < w.len() && w[i] == w[j];
                if i == 0 {
                    lemma_walk_stays_black(body, c, rest, j - 1);
                    assert(rest[j - 1] == u);
                } else {
                    assert(rest[i - 1] == rest[j - 1]);
                }
            }
        }
    }
}

/// Searches from the white block `u`, which the path `path` from the entry
/// block has reached.
fn visit(body: &Body, u: BasicBlock, color: &mut Vec<u8>, Ghost(path): Ghost<Seq<int>>) -> (found:
    bool)
    requires
        settled(body, old(color)@),
        u < old(color)@.len(),
        old(color)@[u as int] == WHITE,
        is_walk(body, path),
        path[0] == START_BLOCK,
        path.last() == u,
        forall|g: int| 0 <= g < old(color)@.len() && old(color)@[g] == GREY ==> path.contains(g),
    ensures
        final(color)@.len() == old(color)@.len(),
        found ==> cfg_cyclic(body),
        !found ==> settled(body, final(color)@),
        !found ==> final(color)@[u as int] == BLACK,
        !found ==> forall|j: int|
            0 <= j < old(color)@.len() && old(color)@[j] != WHITE ==> final(color)@[j] == old(
                color,
            )@[j],
        !found ==> forall|j: int|
            0 <= j < old(color)@.len() && final(color)@[j] == GREY ==> old(color)@[j] == GREY,
        count_white(final(color)@) <= count_white(old(color)@),
    decreases count_white(old(color)@),
{
    let n = color.len();
    proof {
        lemma_count_update(color@, u as int, GREY);
    }
    color[u] = GREY;
    let succs = body.basic_blocks[u].terminator.kind.successors();
    let mut i: usize = 0;
    while i < succs.len()
        invariant
            i <= succs.len(),
            n == color@.len(),
            n == old(color)@.len(),
            u < n,
            succs@ == body.basic_blocks@[u as int].terminator.kind.spec_successors(),
            settled(body, color@),
            color@[u as int] == GREY,
            old(color)@[u as int] == WHITE,
            is_walk(body, path),
            path[0] == START_BLOCK,
            path.last() == u,
            forall|g: int| 0 <= g < n && color@[g] == GREY ==> path.contains(g),
            forall|k: int| 0 <= k < i && succs@[k] < n ==> color@[succs@[k] as int] == BLACK,
            forall|j: int|
                0 <= j < n && old(color)@[j] != WHITE ==> color@[j] == old(color)@[j],
            forall|j: int| 0 <= j < n && color@[j] == GREY ==> old(color)@[j] == GREY || j == u,
            count_white(color@) < count_white(old(color)@),
        decreases succs.len() - i,
    {
        let v = succs[i];
        if v < n {
            assert(is_edge(body, u as int, v as int));
            let ghost longer = path.push(v as int);
            proof {
                assert forall|k: int| 0 <= k < longer.len() - 1 implies is_edge(
                    body,
                    #[trigger] longer[k],
                    longer[k + 1],
                ) by {
                    if k < path.len() - 1 {
                        assert(is_edge(body, path[k], path[k + 1]));
                    }
                }
            }
            if color[v] == GREY {
                proof {
                    assert(path.contains(v as int));
                    let k = choose|k: int| 0 <= k < path.len() && path[k] == v as int;
                    assert(longer[k] == longer[longer.len() - 1]);
                    assert(has_repeat(longer));
                    assert(is_walk(body, longer) && longer[0] == START_BLOCK);
                }
                return true;
            } else if color[v] == WHITE {
                let ghost before = color@;
                proof {
                    assert forall|g: int|
                        0 <= g < n && before[g] == GREY implies longer.contains(g) by {
                        assert(path.contains(g));
                        let k = choose|k: int| 0 <= k < path.len() && path[k] == g;
                        assert(longer[k] == g);
                    }
                }
                if visit(body, v, color, Ghost(longer)) {
                    return true;
                }
            }
        }
        i += 1;
    }
    let ghost grey = color@;
    proof {
        assert forall|v: int| #[trigger] is_edge(body, u as int, v) implies grey[v] == BLACK by {
            let k = choose|k: int| 0 <= k < succs@.len() && succs@[k] == v as usize;
            assert(succs@[k] < n);
        }
        lemma_blacken(body, grey, u as int);
        lemma_count_update(grey, u as int, BLACK);
    }
    color[u] = BLACK;
    false
}

/// Whether the control flow of the body has a cycle that control can reach
/// from the entry block.
pub fn is_cfg_cyclic(body: &Body) -> (r: bool)
    ensures
        r == cfg_cyclic(body),
{
    let n = body.basic_blocks.len();
    if n == 0 {
        return false;
    }
    let mut color: Vec<u8> = Vec::new();
    let mut i: usize = 0;
    while i < n
        invariant
            i <= n,
            color@.len() == i,
            forall|j: int| 0 <= j < i ==> color@[j] == WHITE,
        decreases n - i,
    {
        color.push(WHITE);
        i += 1;
    }
    let ghost path = seq![START_BLOCK as int];
    let found = visit(body, START_BLOCK, &mut color, Ghost(path));
    proof {
        if !found {
            assert forall|w: Seq<int>|
                is_walk(body, w) && w[0] == START_BLOCK implies !has_repeat(w) by {
                assert(color@[w[0]] == BLACK);
            }
        }
    }
    found
}

} // verus!
