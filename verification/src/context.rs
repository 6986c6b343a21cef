//! The table of constant definitions and of the graphs built from them.
use crate::abstract_const::{graph_wf, view_nodes, Node, NodeView};
use crate::builder::{abstract_const_of, mir_abstract_const, BuildError};
use crate::mir::Body;
use crate::ty::DefId;
use vstd::prelude::*;

verus! {

/// What kind of item a definition is.
#[derive(Clone, Copy, Debug, PartialEq, Eq, Structural)]
pub enum DefKind {
    /// A constant expression written in place, such as an array length.
    AnonConst,
    Const,
    AssocConst,
    Fn,
    AssocFn,
    Static,
}

/// A constant definition.
#[derive(Debug, Clone, PartialEq)]
pub struct Definition {
    pub kind: DefKind,
    /// Whether the definition belongs to the crate that is being compiled.
    pub local: bool,
    pub body: Body,
}

/// What building the graph of a definition gave: no graph, a graph, or an error.
pub type BuildOutcome = Result<Option<Seq<NodeView>>, BuildError>;

/// For each definition, by position, what building its graph gave.
pub type GraphTable = Seq<BuildOutcome>;

/// The table's entry for `def`; no graph for a definition that the table does
/// not know.
pub open spec fn lookup(table: GraphTable, def: DefId) -> BuildOutcome {
    if def.index < table.len() {
        table[def.index as int]
    } else {
        Ok(None)
    }
}

/// Every graph in the table has a root and refers backwards only.
pub open spec fn table_wf(table: GraphTable) -> bool {
    forall|i: int|
        0 <= i < table.len() ==> ((#[trigger] table[i]) matches Ok(Some(g)) ==> g.len() > 0
            && graph_wf(g))
}

/// The view of one stored outcome.
pub open spec fn view_outcome(o: Result<Option<Vec<Node>>, BuildError>) -> BuildOutcome {
    match o {
        Ok(Some(nodes)) => Ok(Some(view_nodes(nodes@))),
        Ok(None) => Ok(None),
        Err(e) => Err(e),
    }
}

/// The definitions of a compilation session with the graph of each, built
/// once when the context is made and only read afterwards.
pub struct ConstContext {
    generic_const_exprs: bool,
    recursion_limit: usize,
    defs: Vec<Definition>,
    abstract_consts: Vec<Result<Option<Vec<Node>>, BuildError>>,
}

impl ConstContext {
    /// Whether graphs of generic constants are built at all.
    pub closed spec fn spec_generic_const_exprs(&self) -> bool {
        self.generic_const_exprs
    }

    /// How many symbolic constants may be expanded, one inside the other,
    /// on each side of a comparison.
    pub closed spec fn spec_recursion_limit(&self) -> usize {
        self.recursion_limit
    }

    /// The definitions, by position.
    pub closed spec fn spec_defs(&self) -> Seq<Definition> {
        self.defs@
    }

    /// The outcome of building each definition's graph, by position.
    pub closed spec fn table(&self) -> GraphTable {
        Seq::new(self.abstract_consts@.len(), |i: int| view_outcome(self.abstract_consts@[i]))
    }

    /// The table holds, for each definition, exactly what building its graph gives.
    pub closed spec fn wf(&self) -> bool {
        &&& self.abstract_consts@.len() == self.defs@.len()
        &&& forall|i: int|
            0 <= i < self.defs@.len() ==> view_outcome(#[trigger] self.abstract_consts@[i])
                == abstract_const_of(self.generic_const_exprs, self.defs@[i])
        &&& forall|i: int|
            0 <= i < self.defs@.len() ==> ((#[trigger] self.abstract_consts@[i]) matches Ok(
                Some(nodes),
            ) ==> nodes@.len() > 0 && graph_wf(view_nodes(nodes@)))
    }

    /// What `wf` says, over the public names.
    pub proof fn lemma_wf(&self)
        requires
            self.wf(),
        ensures
            self.table().len() == self.spec_defs().len(),
            forall|i: int|
                0 <= i < self.spec_defs().len() ==> (#[trigger] self.table()[i])
                    == abstract_const_of(self.spec_generic_const_exprs(), self.spec_defs()[i]),
            table_wf(self.table()),
    {
        assert forall|i: int| 0 <= i < self.table().len() implies ((#[trigger] self.table()[i]) matches Ok(
            Some(g),
        ) ==> g.len() > 0 && graph_wf(g)) by {
            assert(self.table()[i] == view_outcome(self.abstract_consts@[i]));
        }
    }

    /// Builds the graph of every definition and keeps the outcomes.
    ///
    /// `recursion_limit` bounds how many uses of definitions a comparison of
    /// two graphs looks through, one inside the other, on each of its sides;
    /// it is what makes a comparison end where definitions refer to each
    /// other in a circle. Where it runs out, the use that would be looked
    /// through next is compared as it stands, so that it unifies only with
    /// the same use of the same definition; a limit that is too small can
    /// therefore only make fewer graphs unify. A limit that is at least as
    /// large as the nesting of the definitions never runs out, and the
    /// outcome does not depend on it any more.
    pub fn new(generic_const_exprs: bool, recursion_limit: usize, defs: Vec<Definition>) -> (ctx:
        ConstContext)
        ensures
            ctx.wf(),
            ctx.spec_generic_const_exprs() == generic_const_exprs,
            ctx.spec_recursion_limit() == recursion_limit,
            ctx.spec_defs() == defs@,
    {
        let mut abstract_consts: Vec<Result<Option<Vec<Node>>, BuildError>> = Vec::new();
        let mut i: usize = 0;
        while i < defs.len()
            invariant
                i <= defs.len(),
                abstract_consts@.len() == i,
                forall|j: int|
                    0 <= j < i ==> view_outcome(#[trigger] abstract_consts@[j])
                        == abstract_const_of(generic_const_exprs, defs@[j]),
                forall|j: int|
                    0 <= j < i ==> ((#[trigger] abstract_consts@[j]) matches Ok(Some(nodes))
                        ==> nodes@.len() > 0 && graph_wf(view_nodes(nodes@))),
            decreases defs.len() - i,
        {
            let built = mir_abstract_const(generic_const_exprs, &defs[i]);
            abstract_consts.push(built);
            i += 1;
        }
        ConstContext { generic_const_exprs, recursion_limit, defs, abstract_consts }
    }

    /// Whether graphs of generic constants are built at all.
    #[verifier::when_used_as_spec(spec_generic_const_exprs)]
    pub fn generic_const_exprs(&self) -> (r: bool)
        ensures
            r == self.spec_generic_const_exprs(),
    {
        self.generic_const_exprs
    }

    /// How many uses of definitions a comparison may look through, one
    /// inside the other, on each of its sides.
    #[verifier::when_used_as_spec(spec_recursion_limit)]
    pub fn recursion_limit(&self) -> (r: usize)
        ensures
            r == self.spec_recursion_limit(),
    {
        self.recursion_limit
    }

    /// The definition that `def` names, if the context knows it.
    pub fn definition(&self, def: DefId) -> (r: Option<&Definition>)
        ensures
            r == (if def.index < self.spec_defs().len() {
                Some(&self.spec_defs()[def.index as int])
            } else {
                None
            }),
    {
        if def.index < self.defs.len() {
            Some(&self.defs[def.index])
        } else {
            None
        }
    }

    /// The graph that was built for `def`: the nodes, `None` where the
    /// definition has no graph or is not known, or the error that building
    /// it gave.
    pub fn mir_abstract_const(&self, def: DefId) -> (r: Result<Option<&[Node]>, BuildError>)
        requires
            self.wf(),
        ensures
            lookup(self.table(), def) == (match r {
                Ok(Some(nodes)) => Ok(Some(view_nodes(nodes@))),
                Ok(None) => Ok(None),
                Err(e) => Err(e),
            }),
            r matches Ok(Some(nodes)) ==> nodes@.len() > 0 && graph_wf(view_nodes(nodes@)),
    {
        proof {
            self.lemma_wf();
        }
        if def.index < self.abstract_consts.len() {
            assert(self.table()[def.index as int] == view_outcome(
                self.abstract_consts@[def.index as int],
            ));
            match &self.abstract_consts[def.index] {
                Ok(Some(nodes)) => Ok(Some(nodes.as_slice())),
                Ok(None) => Ok(None),
                Err(e) => Err(*e),
            }
        } else {
            Ok(None)
        }
    }

    /// The definitions whose graph failed to build, each with its error, in
    /// the order of the definitions. These are the errors that are due to the
    /// user once, when the context is made: every later verdict that rests on
    /// one of them takes it as reported.
    pub fn build_errors(&self) -> (r: Vec<(DefId, BuildError)>)
        requires
            self.wf(),
        ensures
            r@ == failed_builds(self.table(), self.table().len() as int),
    {
        let mut out: Vec<(DefId, BuildError)> = Vec::new();
        let mut i: usize = 0;
        while i < self.abstract_consts.len()
            invariant
                i <= self.abstract_consts@.len(),
                self.table().len() == self.abstract_consts@.len(),
                out@ == failed_builds(self.table(), i as int),
            decreases self.abstract_consts@.len() - i,
        {
            assert(self.table()[i as int] == view_outcome(self.abstract_consts@[i as int]));
            match &self.abstract_consts[i] {
                Err(e) => {
                    out.push((DefId { index: i }, *e));
                },
                _ => {},
            }
            i += 1;
        }
        out
    }
}

/// The definitions among the first `n` whose entry in the table is an error,
/// each with its error, in order.
pub open spec fn failed_builds(table: GraphTable, n: int) -> Seq<(DefId, BuildError)>
    decreases n,
{
    if n <= 0 {
        Seq::empty()
    } else {
        match table[n - 1] {
            Err(e) => failed_builds(table, n - 1).push((DefId { index: (n - 1) as usize }, e)),
            _ => failed_builds(table, n - 1),
        }
    }
}

} // verus!
