//! Types and constants as they appear inside a symbolic constant expression,
//! together with generic-parameter substitution over them.
//!
//! Every executable value has a mathematical view in which argument lists are
//! sequences; all contracts are stated over these views.
use vstd::prelude::*;
use vstd::std_specs::cmp::PartialEqSpecImpl;

verus! {

/// Identity of a constant definition: its position in the table of definitions.
#[derive(Clone, Copy, Debug, PartialEq, Eq, Hash, Structural)]
pub struct DefId {
    pub index: usize,
}

/// A type, as far as constant expressions need to tell types apart.
#[derive(Clone, Copy, Debug, PartialEq, Eq, Hash, Structural)]
pub enum Ty {
    /// A closed type, named by the number under which it was interned.
    Concrete(u32),
    /// The generic type parameter with the given position.
    Param(usize),
    /// A type inference placeholder.
    Infer(u32),
}

/// One argument of a substitution: a type or a constant.
#[derive(Debug)]
pub enum GenericArg {
    Type(Ty),
    Const(Const),
}

/// A typed constant.
#[derive(Debug)]
pub struct Const {
    pub ty: Ty,
    pub val: ConstKind,
}

/// What a constant is.
#[derive(Debug)]
pub enum ConstKind {
    /// The generic constant parameter with the given position.
    Param(usize),
    /// An inference placeholder.
    Infer(u32),
    /// A fully evaluated value.
    Value(u128),
    /// A reference to another constant definition that was not evaluated yet.
    Unevaluated(Unevaluated),
    /// An error that was already reported.
    Error,
}

/// A use of a constant definition under a substitution.
#[derive(Debug)]
pub struct Unevaluated {
    pub def: DefId,
    pub substs: Vec<GenericArg>,
    pub promoted: Option<u32>,
}

/// Mathematical view of a [`GenericArg`].
pub enum ArgView {
    Type(Ty),
    Const(ConstView),
}

/// Mathematical view of a [`Const`].
pub struct ConstView {
    pub ty: Ty,
    pub val: ConstKindView,
}

/// Mathematical view of a [`ConstKind`].
pub enum ConstKindView {
    Param(usize),
    Infer(u32),
    Value(u128),
    Unevaluated(UnevaluatedView),
    Error,
}

/// Mathematical view of an [`Unevaluated`].
pub struct UnevaluatedView {
    pub def: DefId,
    pub substs: Seq<ArgView>,
    pub promoted: Option<u32>,
}

/// The view of an argument.
pub open spec fn view_arg(a: GenericArg) -> ArgView
    decreases a,
{
    match a {
        GenericArg::Type(t) => ArgView::Type(t),
        GenericArg::Const(c) => ArgView::Const(view_const(c)),
    }
}

/// The views of the arguments, in order.
pub open spec fn view_args(args: Seq<GenericArg>) -> Seq<ArgView>
    decreases args,
{
    if args.len() == 0 {
        Seq::empty()
    } else {
        view_args(args.drop_last()).push(view_arg(args.last()))
    }
}

/// The view of a use of a definition.
pub open spec fn view_unevaluated(uv: Unevaluated) -> UnevaluatedView
    decreases uv,
{
    UnevaluatedView { def: uv.def, substs: view_args(uv.substs@), promoted: uv.promoted }
}

/// The view of a constant.
pub open spec fn view_const(c: Const) -> ConstView
    decreases c,
{
    ConstView {
        ty: c.ty,
        val: match c.val {
            ConstKind::Param(i) => ConstKindView::Param(i),
            ConstKind::Infer(i) => ConstKindView::Infer(i),
            ConstKind::Value(v) => ConstKindView::Value(v),
            ConstKind::Unevaluated(uv) => ConstKindView::Unevaluated(view_unevaluated(uv)),
            ConstKind::Error => ConstKindView::Error,
        },
    }
}

impl View for GenericArg {
    type V = ArgView;

    open spec fn view(&self) -> ArgView {
        view_arg(*self)
    }
}

impl View for Const {
    type V = ConstView;

    open spec fn view(&self) -> ConstView {
        view_const(*self)
    }
}

impl View for Unevaluated {
    type V = UnevaluatedView;

    open spec fn view(&self) -> UnevaluatedView {
        view_unevaluated(*self)
    }
}

/// `view_args` maps `view_arg` over the sequence.
pub proof fn lemma_view_args(args: Seq<GenericArg>)
    ensures
        view_args(args).len() == args.len(),
        forall|j: int|
            #![trigger view_args(args)[j]]
            #![trigger args[j]]
            0 <= j < args.len() ==> view_args(args)[j] == view_arg(args[j]),
    decreases args.len(),
{
    if args.len() > 0 {
        lemma_view_args(args.drop_last());
    }
}

/// Two argument lists with pointwise equal views have equal views.
pub proof fn lemma_view_args_pointwise(a: Seq<GenericArg>, b: Seq<GenericArg>)
    requires
        a.len() == b.len(),
        forall|j: int| 0 <= j < a.len() ==> view_arg(#[trigger] a[j]) == view_arg(b[j]),
    ensures
        view_args(a) == view_args(b),
{
    lemma_view_args(a);
    lemma_view_args(b);
    assert(view_args(a) =~= view_args(b));
}

/// The type `t` after the substitution `s`: a parameter that `s` covers with a
/// type is replaced by it, everything else stays.
pub open spec fn subst_ty(t: Ty, s: Seq<ArgView>) -> Ty {
    match t {
        Ty::Param(i) => if i < s.len() && s[i as int] is Type {
            s[i as int]->Type_0
        } else {
            t
        },
        _ => t,
    }
}

/// The argument `a` after the substitution `s`.
pub open spec fn subst_arg(a: ArgView, s: Seq<ArgView>) -> ArgView
    decreases a,
{
    match a {
        ArgView::Type(t) => ArgView::Type(subst_ty(t, s)),
        ArgView::Const(c) => ArgView::Const(subst_const(c, s)),
    }
}

/// The substitution applied to each argument, in order.
pub open spec fn subst_args(args: Seq<ArgView>, s: Seq<ArgView>) -> Seq<ArgView>
    decreases args,
{
    if args.len() == 0 {
        Seq::empty()
    } else {
        subst_args(args.drop_last(), s).push(subst_arg(args.last(), s))
    }
}

/// The use `uv` after the substitution `s`: the same definition, with the
/// substitution applied to its arguments.
pub open spec fn subst_unevaluated(uv: UnevaluatedView, s: Seq<ArgView>) -> UnevaluatedView
    decreases uv,
{
    UnevaluatedView { def: uv.def, substs: subst_args(uv.substs, s), promoted: uv.promoted }
}

/// The constant `c` after the substitution `s`. A constant parameter that `s`
/// covers with a constant is replaced by that constant as a whole; in every
/// other constant the type and the arguments of a referenced definition are
/// substituted.
pub open spec fn subst_const(c: ConstView, s: Seq<ArgView>) -> ConstView
    decreases c,
{
    match c.val {
        ConstKindView::Param(i) => if i < s.len() && s[i as int] is Const {
            s[i as int]->Const_0
        } else {
            ConstView { ty: subst_ty(c.ty, s), val: c.val }
        },
        ConstKindView::Unevaluated(uv) => ConstView {
            ty: subst_ty(c.ty, s),
            val: ConstKindView::Unevaluated(subst_unevaluated(uv, s)),
        },
        _ => ConstView { ty: subst_ty(c.ty, s), val: c.val },
    }
}

/// `subst_args` maps `subst_arg` over the sequence.
pub proof fn lemma_subst_args(args: Seq<ArgView>, s: Seq<ArgView>)
    ensures
        subst_args(args, s).len() == args.len(),
        forall|j: int|
            #![trigger subst_args(args, s)[j]]
            0 <= j < args.len() ==> subst_args(args, s)[j] == subst_arg(args[j], s),
    decreases args.len(),
{
    if args.len() > 0 {
        lemma_subst_args(args.drop_last(), s);
    }
}

/// The type is an inference placeholder.
pub open spec fn ty_has_infer(t: Ty) -> bool {
    t is Infer
}

/// The type is a generic parameter.
pub open spec fn ty_has_param(t: Ty) -> bool {
    t is Param
}

/// The argument mentions an inference placeholder.
pub open spec fn arg_has_infer(a: ArgView) -> bool
    decreases a,
{
    match a {
        ArgView::Type(t) => ty_has_infer(t),
        ArgView::Const(c) => const_has_infer(c),
    }
}

/// Some argument mentions an inference placeholder.
pub open spec fn args_have_infer(args: Seq<ArgView>) -> bool
    decreases args,
{
    exists|j: int| 0 <= j < args.len() && arg_has_infer(#[trigger] args[j])
}

/// The constant mentions an inference placeholder, of a type or of a constant,
/// at any depth.
pub open spec fn const_has_infer(c: ConstView) -> bool
    decreases c,
{
    ty_has_infer(c.ty) || match c.val {
        ConstKindView::Infer(_) => true,
        ConstKindView::Unevaluated(uv) => args_have_infer(uv.substs),
        _ => false,
    }
}

/// The argument mentions a generic parameter.
pub open spec fn arg_has_param(a: ArgView) -> bool
    decreases a,
{
    match a {
        ArgView::Type(t) => ty_has_param(t),
        ArgView::Const(c) => const_has_param(c),
    }
}

/// Some argument mentions a generic parameter.
pub open spec fn args_have_param(args: Seq<ArgView>) -> bool
    decreases args,
{
    exists|j: int| 0 <= j < args.len() && arg_has_param(#[trigger] args[j])
}

/// The constant mentions a generic parameter, of a type or of a constant, at
/// any depth.
pub open spec fn const_has_param(c: ConstView) -> bool
    decreases c,
{
    ty_has_param(c.ty) || match c.val {
        ConstKindView::Param(_) => true,
        ConstKindView::Unevaluated(uv) => args_have_param(uv.substs),
        _ => false,
    }
}

impl Ty {
    /// Applies a substitution to the type.
    pub fn subst(self, substs: &Vec<GenericArg>) -> (r: Ty)
        ensures
            r == subst_ty(self, view_args(substs@)),
    {
        proof {
            lemma_view_args(substs@);
        }
        match self {
            Ty::Param(i) => {
                if i < substs.len() {
                    match &substs[i] {
                        GenericArg::Type(t) => *t,
                        GenericArg::Const(_) => self,
                    }
                } else {
                    self
                }
            },
            _ => self,
        }
    }

    /// Whether the type is an inference placeholder.
    pub fn has_infer(self) -> (r: bool)
        ensures
            r == ty_has_infer(self),
    {
        match self {
            Ty::Infer(_) => true,
            _ => false,
        }
    }

    /// Whether the type is a generic parameter.
    pub fn has_param(self) -> (r: bool)
        ensures
            r == ty_has_param(self),
    {
        match self {
            Ty::Param(_) => true,
            _ => false,
        }
    }
}

/// Copies an argument list.
pub fn clone_args(args: &Vec<GenericArg>) -> (r: Vec<GenericArg>)
    ensures
        view_args(r@) == view_args(args@),
        r@.len() == args@.len(),
    decreases args,
{
    let mut out: Vec<GenericArg> = Vec::new();
    let mut i: usize = 0;
    while i < args.len()
        invariant
            i <= args.len(),
            out@.len() == i,
            forall|j: int| 0 <= j < i ==> view_arg(#[trigger] out@[j]) == view_arg(args@[j]),
        decreases args.len() - i,
    {
        let a = args[i].clone();
        out.push(a);
        i += 1;
    }
    proof {
        lemma_view_args_pointwise(out@, args@);
    }
    out
}

/// Whether two argument lists are the same, argument by argument.
pub fn args_eq(a: &Vec<GenericArg>, b: &Vec<GenericArg>) -> (r: bool)
    ensures
        r == (view_args(a@) == view_args(b@)),
    decreases a,
{
    proof {
        lemma_view_args(a@);
        lemma_view_args(b@);
    }
    if a.len() != b.len() {
        return false;
    }
    let mut i: usize = 0;
    while i < a.len()
        invariant
            i <= a.len(),
            a.len() == b.len(),
            forall|j: int| 0 <= j < i ==> view_arg(#[trigger] a@[j]) == view_arg(b@[j]),
            forall|j: int|
                #![trigger view_args(a@)[j]]
                0 <= j < a@.len() ==> view_args(a@)[j] == view_arg(a@[j]),
            forall|j: int|
                #![trigger view_args(b@)[j]]
                0 <= j < b@.len() ==> view_args(b@)[j] == view_arg(b@[j]),
        decreases a.len() - i,
    {
        if !arg_eq(&a[i], &b[i]) {
            assert(view_args(a@)[i as int] != view_args(b@)[i as int]);
            return false;
        }
        i += 1;
    }
    proof {
        lemma_view_args_pointwise(a@, b@);
    }
    true
}

/// Whether two arguments are the same.
pub fn arg_eq(a: &GenericArg, b: &GenericArg) -> (r: bool)
    ensures
        r == (a@ == b@),
    decreases a,
{
    match (a, b) {
        (GenericArg::Type(s), GenericArg::Type(t)) => *s == *t,
        (GenericArg::Const(c), GenericArg::Const(d)) => const_eq(c, d),
        _ => false,
    }
}

/// Whether two uses of definitions are the same: the same definition, the
/// same arguments, the same promoted index.
pub fn unevaluated_eq(a: &Unevaluated, b: &Unevaluated) -> (r: bool)
    ensures
        r == (a@ == b@),
    decreases a,
{
    let same_promoted = match (a.promoted, b.promoted) {
        (Some(p), Some(q)) => p == q,
        (None, None) => true,
        _ => false,
    };
    a.def == b.def && same_promoted && args_eq(&a.substs, &b.substs)
}

/// Whether two constants are the same: the same type and the same kind with
/// the same contents.
pub fn const_eq(a: &Const, b: &Const) -> (r: bool)
    ensures
        r == (a@ == b@),
    decreases a,
{
    if a.ty != b.ty {
        return false;
    }
    match (&a.val, &b.val) {
        (ConstKind::Param(i), ConstKind::Param(j)) => *i == *j,
        (ConstKind::Infer(i), ConstKind::Infer(j)) => *i == *j,
        (ConstKind::Value(v), ConstKind::Value(w)) => *v == *w,
        (ConstKind::Unevaluated(u), ConstKind::Unevaluated(w)) => unevaluated_eq(u, w),
        (ConstKind::Error, ConstKind::Error) => true,
        _ => false,
    }
}

/// Applies a substitution to each argument of a list.
pub fn subst_arg_list(args: &Vec<GenericArg>, substs: &Vec<GenericArg>) -> (r: Vec<GenericArg>)
    ensures
        view_args(r@) == subst_args(view_args(args@), view_args(substs@)),
    decreases args,
{
    let mut out: Vec<GenericArg> = Vec::new();
    let mut i: usize = 0;
    proof {
        lemma_view_args(args@);
        lemma_subst_args(view_args(args@), view_args(substs@));
    }
    while i < args.len()
        invariant
            i <= args.len(),
            out@.len() == i,
            forall|j: int|
                0 <= j < i ==> view_arg(#[trigger] out@[j]) == subst_arg(
                    view_arg(args@[j]),
                    view_args(substs@),
                ),
        decreases args.len() - i,
    {
        let a = args[i].subst(substs);
        out.push(a);
        i += 1;
    }
    proof {
        lemma_view_args(out@);
        assert(view_args(out@) =~= subst_args(view_args(args@), view_args(substs@)));
    }
    out
}

/// Whether some argument of the list mentions an inference placeholder.
pub fn arg_list_has_infer(args: &Vec<GenericArg>) -> (r: bool)
    ensures
        r == args_have_infer(view_args(args@)),
    decreases args,
{
    proof {
        lemma_view_args(args@);
    }
    let mut i: usize = 0;
    while i < args.len()
        invariant
            i <= args.len(),
            view_args(args@).len() == args@.len(),
            forall|j: int| 0 <= j < i ==> !arg_has_infer(#[trigger] view_args(args@)[j]),
            forall|j: int|
                #![trigger view_args(args@)[j]]
                0 <= j < args@.len() ==> view_args(args@)[j] == view_arg(args@[j]),
        decreases args.len() - i,
    {
        if args[i].has_infer() {
            assert(arg_has_infer(view_args(args@)[i as int]));
            return true;
        }
        i += 1;
    }
    false
}

/// Whether some argument of the list mentions a generic parameter.
pub fn arg_list_has_param(args: &Vec<GenericArg>) -> (r: bool)
    ensures
        r == args_have_param(view_args(args@)),
    decreases args,
{
    proof {
        lemma_view_args(args@);
    }
    let mut i: usize = 0;
    while i < args.len()
        invariant
            i <= args.len(),
            view_args(args@).len() == args@.len(),
            forall|j: int| 0 <= j < i ==> !arg_has_param(#[trigger] view_args(args@)[j]),
            forall|j: int|
                #![trigger view_args(args@)[j]]
                0 <= j < args@.len() ==> view_args(args@)[j] == view_arg(args@[j]),
        decreases args.len() - i,
    {
        if args[i].has_param() {
            assert(arg_has_param(view_args(args@)[i as int]));
            return true;
        }
        i += 1;
    }
    false
}

impl GenericArg {
    /// Applies a substitution to the argument.
    pub fn subst(&self, substs: &Vec<GenericArg>) -> (r: GenericArg)
        ensures
            r@ == subst_arg(self@, view_args(substs@)),
        decreases self,
    {
        match self {
            GenericArg::Type(t) => GenericArg::Type(t.subst(substs)),
            GenericArg::Const(c) => GenericArg::Const(c.subst(substs)),
        }
    }

    /// Whether the argument mentions an inference placeholder.
    pub fn has_infer(&self) -> (r: bool)
        ensures
            r == arg_has_infer(self@),
        decreases self,
    {
        match self {
            GenericArg::Type(t) => t.has_infer(),
            GenericArg::Const(c) => c.has_infer(),
        }
    }

    /// Whether the argument mentions a generic parameter.
    pub fn has_param(&self) -> (r: bool)
        ensures
            r == arg_has_param(self@),
        decreases self,
    {
        match self {
            GenericArg::Type(t) => t.has_param(),
            GenericArg::Const(c) => c.has_param(),
        }
    }
}

impl Unevaluated {
    /// Applies a substitution to the arguments.
    pub fn subst(&self, substs: &Vec<GenericArg>) -> (r: Unevaluated)
        ensures
            r@ == subst_unevaluated(self@, view_args(substs@)),
        decreases self,
    {
        Unevaluated {
            def: self.def,
            substs: subst_arg_list(&self.substs, substs),
            promoted: self.promoted,
        }
    }

    /// Whether the arguments mention an inference placeholder.
    pub fn has_infer_types_or_consts(&self) -> (r: bool)
        ensures
            r == args_have_infer(self@.substs),
    {
        arg_list_has_infer(&self.substs)
    }

    /// Whether the arguments mention a generic parameter.
    pub fn has_param_types_or_consts(&self) -> (r: bool)
        ensures
            r == args_have_param(self@.substs),
    {
        arg_list_has_param(&self.substs)
    }
}

impl Const {
    /// Applies a substitution to the constant.
    pub fn subst(&self, substs: &Vec<GenericArg>) -> (r: Const)
        ensures
            r@ == subst_const(self@, view_args(substs@)),
        decreases self,
    {
        proof {
            lemma_view_args(substs@);
        }
        match &self.val {
            ConstKind::Param(i) => {
                if *i < substs.len() {
                    match &substs[*i] {
                        GenericArg::Const(c) => c.clone(),
                        GenericArg::Type(_) => Const {
                            ty: self.ty.subst(substs),
                            val: ConstKind::Param(*i),
                        },
                    }
                } else {
                    Const { ty: self.ty.subst(substs), val: ConstKind::Param(*i) }
                }
            },
            ConstKind::Infer(i) => Const { ty: self.ty.subst(substs), val: ConstKind::Infer(*i) },
            ConstKind::Value(v) => Const { ty: self.ty.subst(substs), val: ConstKind::Value(*v) },
            ConstKind::Unevaluated(uv) => Const {
                ty: self.ty.subst(substs),
                val: ConstKind::Unevaluated(uv.subst(substs)),
            },
            ConstKind::Error => Const { ty: self.ty.subst(substs), val: ConstKind::Error },
        }
    }

    /// Whether the constant mentions an inference placeholder.
    pub fn has_infer(&self) -> (r: bool)
        ensures
            r == const_has_infer(self@),
        decreases self,
    {
        if self.ty.has_infer() {
            return true;
        }
        match &self.val {
            ConstKind::Infer(_) => true,
            ConstKind::Unevaluated(uv) => arg_list_has_infer(&uv.substs),
            _ => false,
        }
    }

    /// Whether the constant mentions a generic parameter.
    pub fn has_param(&self) -> (r: bool)
        ensures
            r == const_has_param(self@),
        decreases self,
    {
        if self.ty.has_param() {
            return true;
        }
        match &self.val {
            ConstKind::Param(_) => true,
            ConstKind::Unevaluated(uv) => arg_list_has_param(&uv.substs),
            _ => false,
        }
    }
}

impl Clone for GenericArg {
    fn clone(&self) -> (r: Self)
        ensures
            r@ == self@,
        decreases self,
    {
        match self {
            GenericArg::Type(t) => GenericArg::Type(*t),
            GenericArg::Const(c) => GenericArg::Const(c.clone()),
        }
    }
}

impl Clone for Unevaluated {
    fn clone(&self) -> (r: Self)
        ensures
            r@ == self@,
        decreases self,
    {
        Unevaluated { def: self.def, substs: clone_args(&self.substs), promoted: self.promoted }
    }
}

impl Clone for Const {
    fn clone(&self) -> (r: Self)
        ensures
            r@ == self@,
        decreases self,
    {
        Const {
            ty: self.ty,
            val: match &self.val {
                ConstKind::Param(i) => ConstKind::Param(*i),
                ConstKind::Infer(i) => ConstKind::Infer(*i),
                ConstKind::Value(v) => ConstKind::Value(*v),
                ConstKind::Unevaluated(uv) => ConstKind::Unevaluated(uv.clone()),
                ConstKind::Error => ConstKind::Error,
            },
        }
    }
}

impl PartialEq for GenericArg {
    fn eq(&self, other: &Self) -> (r: bool) {
        arg_eq(self, other)
    }
}

impl PartialEqSpecImpl for GenericArg {
    open spec fn obeys_eq_spec() -> bool {
        true
    }

    open spec fn eq_spec(&self, other: &Self) -> bool {
        self@ == other@
    }
}

impl PartialEq for Unevaluated {
    fn eq(&self, other: &Self) -> (r: bool) {
        unevaluated_eq(self, other)
    }
}

impl PartialEqSpecImpl for Unevaluated {
    open spec fn obeys_eq_spec() -> bool {
        true
    }

    open spec fn eq_spec(&self, other: &Self) -> bool {
        self@ == other@
    }
}

impl PartialEq for Const {
    fn eq(&self, other: &Self) -> (r: bool) {
        const_eq(self, other)
    }
}

impl PartialEqSpecImpl for Const {
    open spec fn obeys_eq_spec() -> bool {
        true
    }

    open spec fn eq_spec(&self, other: &Self) -> bool {
        self@ == other@
    }
}

} // verus!
