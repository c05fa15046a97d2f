//! The symbolic expression intermediate representation.
//!
//! `Ty`, `Param`, `Value`, `Expr` and `FuncDef` form the tree language that
//! the evaluator builds and the emitter lowers. Each type has a ghost view
//! (`TyV`, `ParamV`, ...) in which every `Vec` child list becomes a `Seq`,
//! so that contracts can speak about the trees mathematically.

use vstd::prelude::*;

use crate::mir::BinOp;

verus! {

// ---------------------------------------------------------------------------
// Ghost views of the tree types.
// ---------------------------------------------------------------------------

/// Ghost view of `Ty`.
#[verifier::ext_equal]
pub enum TyV {
    Int(usize),
    Uint(usize),
    Bool,
    Func(Seq<TyV>, Seq<ParamV>),
    Tuple(Seq<TyV>),
    Maybe(Box<TyV>),
}

/// Ghost view of `Param`.
#[verifier::ext_equal]
pub struct ParamV(pub usize, pub TyV);

/// Ghost view of `Value`.
#[verifier::ext_equal]
pub enum ValueV {
    Arg(usize, TyV),
    Const(u128, TyV),
    Function(usize, TyV),
    ConstParam(ParamV),
}

/// Ghost view of `Expr`.
#[verifier::ext_equal]
pub enum ExprV {
    Value(ValueV),
    Apply(Box<ExprV>, Seq<ExprV>),
    BinaryOp(BinOp, Box<ExprV>, Box<ExprV>),
    Switch(Box<ExprV>, Seq<ExprV>, Seq<ExprV>),
    Tuple(Seq<ExprV>),
    Projection(Box<ExprV>, usize),
    Just(Box<ExprV>),
    Nothing(TyV),
    Uninitialized,
}

/// Ghost view of `FuncDef`.
#[verifier::ext_equal]
pub struct FuncDefV {
    pub def_id: usize,
    pub body: ExprV,
    pub ty: TyV,
}

// ---------------------------------------------------------------------------
// The executable tree types.
// ---------------------------------------------------------------------------

/// A type of the expression language.
///
/// `Func` carries the slot types of the function (return type first, then
/// the runtime argument types) and its symbolic parameters. `Maybe` is the
/// optional wrapper that encodes a computation that may panic.
#[derive(Debug)]
pub enum Ty {
    Int(usize),
    Uint(usize),
    Bool,
    Func(Vec<Ty>, Vec<Param>),
    Tuple(Vec<Ty>),
    Maybe(Box<Ty>),
}

/// A compile-time symbolic parameter: its index and its type.
#[derive(Debug)]
pub struct Param(pub usize, pub Ty);

/// A leaf of the expression language.
#[derive(Debug)]
pub enum Value {
    /// A runtime argument, by slot index.
    Arg(usize, Ty),
    /// A literal: raw bits plus the type that fixes their width.
    Const(u128, Ty),
    /// A reference to a function, by its identity token.
    Function(usize, Ty),
    /// A compile-time symbolic parameter.
    ConstParam(Param),
}

/// A symbolic expression tree.
///
/// `Switch` holds the scrutinee, the guarding literals, and one branch per
/// literal plus a final default branch, so the branch list is always one
/// longer than the literal list. `Just`/`Nothing` encode the optional value
/// of a computation that may panic. `Uninitialized` is the placeholder a
/// fresh slot holds; it is never observable in a finished body.
#[derive(Debug)]
pub enum Expr {
    Value(Value),
    Apply(Box<Expr>, Vec<Expr>),
    BinaryOp(BinOp, Box<Expr>, Box<Expr>),
    Switch(Box<Expr>, Vec<Expr>, Vec<Expr>),
    Tuple(Vec<Expr>),
    Projection(Box<Expr>, usize),
    Just(Box<Expr>),
    Nothing(Ty),
    Uninitialized,
}

/// A finished function definition: identity token, closed-form body, and
/// the `Ty::Func` signature.
#[derive(Debug)]
pub struct FuncDef {
    pub def_id: usize,
    pub body: Expr,
    pub ty: Ty,
}

// ---------------------------------------------------------------------------
// View functions.
// ---------------------------------------------------------------------------

pub open spec fn ty_view(t: Ty) -> TyV
    decreases t,
{
    match t {
        Ty::Int(n) => TyV::Int(n),
        Ty::Uint(n) => TyV::Uint(n),
        Ty::Bool => TyV::Bool,
        Ty::Func(args, params) => TyV::Func(tys_view(args@), params_view(params@)),
        Ty::Tuple(fields) => TyV::Tuple(tys_view(fields@)),
        Ty::Maybe(inner) => TyV::Maybe(Box::new(ty_view(*inner))),
    }
}

pub open spec fn tys_view(s: Seq<Ty>) -> Seq<TyV>
    decreases s,
{
    if s.len() == 0 {
        Seq::empty()
    } else {
        tys_view(s.drop_last()).push(ty_view(s.last()))
    }
}

pub open spec fn param_view(p: Param) -> ParamV
    decreases p,
{
    ParamV(p.0, ty_view(p.1))
}

pub open spec fn params_view(s: Seq<Param>) -> Seq<ParamV>
    decreases s,
{
    if s.len() == 0 {
        Seq::empty()
    } else {
        params_view(s.drop_last()).push(param_view(s.last()))
    }
}

pub open spec fn value_view(v: Value) -> ValueV
    decreases v,
{
    match v {
        Value::Arg(n, t) => ValueV::Arg(n, ty_view(t)),
        Value::Const(b, t) => ValueV::Const(b, ty_view(t)),
        Value::Function(d, t) => ValueV::Function(d, ty_view(t)),
        Value::ConstParam(p) => ValueV::ConstParam(param_view(p)),
    }
}

pub open spec fn expr_view(e: Expr) -> ExprV
    decreases e,
{
    match e {
        Expr::Value(v) => ExprV::Value(value_view(v)),
        Expr::Apply(f, args) => ExprV::Apply(Box::new(expr_view(*f)), exprs_view(args@)),
        Expr::BinaryOp(op, a, b) => ExprV::BinaryOp(
            op,
            Box::new(expr_view(*a)),
            Box::new(expr_view(*b)),
        ),
        Expr::Switch(d, vals, branches) => ExprV::Switch(
            Box::new(expr_view(*d)),
            exprs_view(vals@),
            exprs_view(branches@),
        ),
        Expr::Tuple(fields) => ExprV::Tuple(exprs_view(fields@)),
        Expr::Projection(t, i) => ExprV::Projection(Box::new(expr_view(*t)), i),
        Expr::Just(inner) => ExprV::Just(Box::new(expr_view(*inner))),
        Expr::Nothing(t) => ExprV::Nothing(ty_view(t)),
        Expr::Uninitialized => ExprV::Uninitialized,
    }
}

pub open spec fn exprs_view(s: Seq<Expr>) -> Seq<ExprV>
    decreases s,
{
    if s.len() == 0 {
        Seq::empty()
    } else {
        exprs_view(s.drop_last()).push(expr_view(s.last()))
    }
}

impl View for Ty {
    type V = TyV;

    open spec fn view(&self) -> TyV {
        ty_view(*self)
    }
}

impl View for Param {
    type V = ParamV;

    open spec fn view(&self) -> ParamV {
        param_view(*self)
    }
}

impl View for Value {
    type V = ValueV;

    open spec fn view(&self) -> ValueV {
        value_view(*self)
    }
}

impl View for Expr {
    type V = ExprV;

    open spec fn view(&self) -> ExprV {
        expr_view(*self)
    }
}

impl View for FuncDef {
    type V = FuncDefV;

    open spec fn view(&self) -> FuncDefV {
        FuncDefV { def_id: self.def_id, body: expr_view(self.body), ty: ty_view(self.ty) }
    }
}

/// Appending one element extends the sequence view by its element view.
pub proof fn lemma_tys_view_push(s: Seq<Ty>, x: Ty)
    ensures
        tys_view(s.push(x)) == tys_view(s).push(ty_view(x)),
{
    assert(s.push(x).drop_last() =~= s);
    assert(s.push(x).last() == x);
}

pub proof fn lemma_params_view_push(s: Seq<Param>, x: Param)
    ensures
        params_view(s.push(x)) == params_view(s).push(param_view(x)),
{
    assert(s.push(x).drop_last() =~= s);
    assert(s.push(x).last() == x);
}

pub proof fn lemma_exprs_view_push(s: Seq<Expr>, x: Expr)
    ensures
        exprs_view(s.push(x)) == exprs_view(s).push(expr_view(x)),
{
    assert(s.push(x).drop_last() =~= s);
    assert(s.push(x).last() == x);
}

/// The sequence views are pointwise images of their element views.
pub proof fn lemma_tys_view(s: Seq<Ty>)
    ensures
        tys_view(s).len() == s.len(),
        forall|i: int| 0 <= i < s.len() ==> tys_view(s)[i] == ty_view(s[i]),
    decreases s,
{
    if s.len() > 0 {
        lemma_tys_view(s.drop_last());
    }
}

pub proof fn lemma_params_view(s: Seq<Param>)
    ensures
        params_view(s).len() == s.len(),
        forall|i: int| 0 <= i < s.len() ==> params_view(s)[i] == param_view(s[i]),
    decreases s,
{
    if s.len() > 0 {
        lemma_params_view(s.drop_last());
    }
}

pub proof fn lemma_exprs_view(s: Seq<Expr>)
    ensures
        exprs_view(s).len() == s.len(),
        forall|i: int| 0 <= i < s.len() ==> exprs_view(s)[i] == expr_view(s[i]),
    decreases s,
{
    if s.len() > 0 {
        lemma_exprs_view(s.drop_last());
    }
}

// ---------------------------------------------------------------------------
// Bit widths.
// ---------------------------------------------------------------------------

/// The layout width of a type in bits, where one is defined: integers have
/// their declared width, `Bool` occupies eight bits, a tuple is the sum of
/// its fields, and neither a function type nor the optional wrapper has a
/// layout width.
pub open spec fn spec_bits(t: TyV) -> Option<int>
    decreases t,
{
    match t {
        TyV::Int(n) => Some(n as int),
        TyV::Uint(n) => Some(n as int),
        TyV::Bool => Some(8),
        TyV::Func(_, _) => None,
        TyV::Tuple(fields) => spec_bits_sum(fields),
        TyV::Maybe(_) => None,
    }
}

pub open spec fn spec_bits_sum(ts: Seq<TyV>) -> Option<int>
    decreases ts,
{
    if ts.len() == 0 {
        Some(0)
    } else {
        match (spec_bits_sum(ts.drop_last()), spec_bits(ts.last())) {
            (Some(a), Some(b)) => Some(a + b),
            _ => None,
        }
    }
}

/// A defined width is never negative, and a defined sum bounds each of its
/// parts.
pub proof fn lemma_bits_nonneg(t: TyV)
    ensures
        spec_bits(t) matches Some(b) ==> b >= 0,
    decreases t,
{
    match t {
        TyV::Tuple(fields) => lemma_bits_sum_nonneg(fields),
        _ => (),
    }
}

pub proof fn lemma_bits_sum_nonneg(ts: Seq<TyV>)
    ensures
        spec_bits_sum(ts) matches Some(s) ==> s >= 0,
    decreases ts,
{
    if ts.len() > 0 {
        lemma_bits_sum_nonneg(ts.drop_last());
        lemma_bits_nonneg(ts.last());
    }
}

/// If the sum over a whole sequence is defined, so is the sum over every
/// prefix, and no prefix sum exceeds the whole; moreover every element's own
/// width is then defined and bounded by the whole.
pub proof fn lemma_bits_sum_prefix(ts: Seq<TyV>, i: int)
    requires
        0 <= i <= ts.len(),
    ensures
        spec_bits_sum(ts) matches Some(s) ==> (spec_bits_sum(ts.take(i)) matches Some(p) && p
            <= s),
        spec_bits_sum(ts) matches Some(s) ==> (i < ts.len() ==> (spec_bits_sum(ts.take(i))
            matches Some(p) && spec_bits(ts[i]) matches Some(b) && p + b <= s)),
    decreases ts.len() - i,
{
    if spec_bits_sum(ts) is Some {
        if i == ts.len() {
            assert(ts.take(i) =~= ts);
        } else {
            lemma_bits_sum_prefix(ts, i + 1);
            let s1 = ts.take(i + 1);
            assert(s1.drop_last() =~= ts.take(i));
            assert(s1.last() == ts[i]);
            lemma_bits_sum_nonneg(ts.take(i));
            lemma_bits_nonneg(ts[i]);
        }
    }
}

impl Ty {
    /// The layout width of the type in bits, or `None` where the width is
    /// undefined or does not fit in `usize`.
    #[verifier::loop_isolation(false)]
    pub fn bits(&self) -> (r: Option<usize>)
        ensures
            (match spec_bits(self@) {
                Option::None => r is None,
                Option::Some(b) => if b <= usize::MAX {
                    r == Some(b as usize)
                } else {
                    r is None
                },
            }),
        decreases self,
    {
        match self {
            Ty::Int(n) => Some(*n),
            Ty::Uint(n) => Some(*n),
            Ty::Bool => Some(8),
            Ty::Func(_, _) => None,
            Ty::Tuple(fields) => {
                proof {
                    lemma_tys_view(fields@);
                }
                let ghost full = tys_view(fields@);
                let mut total: usize = 0;
                let mut i: usize = 0;
                while i < fields.len()
                    invariant
                        i <= fields@.len(),
                        full == tys_view(fields@),
                        full.len() == fields@.len(),
                        forall|j: int| 0 <= j < fields@.len() ==> full[j] == ty_view(fields@[j]),
                        spec_bits_sum(full.take(i as int)) == Some(total as int),
                    decreases fields@.len() - i,
                {
                    let fb = fields[i].bits();
                    proof {
                        lemma_bits_sum_prefix(full, i as int);
                        lemma_bits_sum_nonneg(full.take(i as int));
                        lemma_bits_nonneg(full[i as int]);
                        assert(full.take(i + 1).drop_last() =~= full.take(i as int));
                        assert(full.take(i + 1).last() == full[i as int]);
                    }
                    match fb {
                        None => {
                            return None;
                        },
                        Some(b) => {
                            if total > usize::MAX - b {
                                return None;
                            }
                            total = total + b;
                        },
                    }
                    i = i + 1;
                }
                proof {
                    assert(full.take(i as int) =~= full);
                }
                Some(total)
            },
            Ty::Maybe(_) => None,
        }
    }

    /// The layout width in whole bytes, where a bit width is defined.
    pub fn bytes(&self) -> (r: Option<usize>)
        ensures
            (match spec_bits(self@) {
                Option::None => r is None,
                Option::Some(b) => if b <= usize::MAX {
                    r == Some((b / 8) as usize)
                } else {
                    r is None
                },
            }),
    {
        proof {
            lemma_bits_nonneg(self@);
        }
        match self.bits() {
            Some(b) => Some(b / 8),
            None => None,
        }
    }

    /// A synonym for [`Ty::bits`].
    pub fn size(&self) -> (r: Option<usize>)
        ensures
            (match spec_bits(self@) {
                Option::None => r is None,
                Option::Some(b) => if b <= usize::MAX {
                    r == Some(b as usize)
                } else {
                    r is None
                },
            }),
    {
        self.bits()
    }
}

// ---------------------------------------------------------------------------
// Deep copies.
//
// The tree types are not `Copy`, and the evaluator must duplicate stored
// expressions when it reads a slot or forks, so each type has an explicit
// copy function whose contract says that the copy has the same view.
// ---------------------------------------------------------------------------

pub fn copy_ty(t: &Ty) -> (r: Ty)
    ensures
        r@ == t@,
    decreases t,
{
    match t {
        Ty::Int(n) => Ty::Int(*n),
        Ty::Uint(n) => Ty::Uint(*n),
        Ty::Bool => Ty::Bool,
        Ty::Func(args, params) => Ty::Func(copy_tys(args), copy_params(params)),
        Ty::Tuple(fields) => Ty::Tuple(copy_tys(fields)),
        Ty::Maybe(inner) => Ty::Maybe(Box::new(copy_ty(&**inner))),
    }
}

#[verifier::loop_isolation(false)]
pub fn copy_tys(v: &Vec<Ty>) -> (r: Vec<Ty>)
    ensures
        tys_view(r@) == tys_view(v@),
    decreases v,
{
    let mut out: Vec<Ty> = Vec::new();
    let mut i: usize = 0;
    while i < v.len()
        invariant
            i <= v@.len(),
            tys_view(out@) == tys_view(v@.take(i as int)),
        decreases v@.len() - i,
    {
        let t = copy_ty(&v[i]);
        let ghost pre = out@;
        out.push(t);
        proof {
            lemma_tys_view_push(pre, t);
            assert(v@.take(i + 1).drop_last() =~= v@.take(i as int));
            assert(v@.take(i + 1).last() == v@[i as int]);
        }
        i = i + 1;
    }
    proof {
        assert(v@.take(v@.len() as int) =~= v@);
    }
    out
}

pub fn copy_param(p: &Param) -> (r: Param)
    ensures
        r@ == p@,
    decreases p,
{
    let Param(index, t) = p;
    Param(*index, copy_ty(t))
}

#[verifier::loop_isolation(false)]
pub fn copy_params(v: &Vec<Param>) -> (r: Vec<Param>)
    ensures
        params_view(r@) == params_view(v@),
    decreases v,
{
    let mut out: Vec<Param> = Vec::new();
    let mut i: usize = 0;
    while i < v.len()
        invariant
            i <= v@.len(),
            params_view(out@) == params_view(v@.take(i as int)),
        decreases v@.len() - i,
    {
        let p = copy_param(&v[i]);
        let ghost pre = out@;
        out.push(p);
        proof {
            lemma_params_view_push(pre, p);
            assert(v@.take(i + 1).drop_last() =~= v@.take(i as int));
            assert(v@.take(i + 1).last() == v@[i as int]);
        }
        i = i + 1;
    }
    proof {
        assert(v@.take(v@.len() as int) =~= v@);
    }
    out
}

pub fn copy_value(v: &Value) -> (r: Value)
    ensures
        r@ == v@,
{
    match v {
        Value::Arg(n, t) => Value::Arg(*n, copy_ty(t)),
        Value::Const(b, t) => Value::Const(*b, copy_ty(t)),
        Value::Function(d, t) => Value::Function(*d, copy_ty(t)),
        Value::ConstParam(p) => Value::ConstParam(copy_param(p)),
    }
}

pub fn copy_expr(e: &Expr) -> (r: Expr)
    ensures
        r@ == e@,
    decreases e,
{
    match e {
        Expr::Value(v) => Expr::Value(copy_value(v)),
        Expr::Apply(f, args) => Expr::Apply(Box::new(copy_expr(&**f)), copy_exprs(args)),
        Expr::BinaryOp(op, a, b) => Expr::BinaryOp(
            *op,
            Box::new(copy_expr(&**a)),
            Box::new(copy_expr(&**b)),
        ),
        Expr::Switch(d, vals, branches) => Expr::Switch(
            Box::new(copy_expr(&**d)),
            copy_exprs(vals),
            copy_exprs(branches),
        ),
        Expr::Tuple(fields) => Expr::Tuple(copy_exprs(fields)),
        Expr::Projection(t, i) => Expr::Projection(Box::new(copy_expr(&**t)), *i),
        Expr::Just(inner) => Expr::Just(Box::new(copy_expr(&**inner))),
        Expr::Nothing(t) => Expr::Nothing(copy_ty(t)),
        Expr::Uninitialized => Expr::Uninitialized,
    }
}

#[verifier::loop_isolation(false)]
pub fn copy_exprs(v: &Vec<Expr>) -> (r: Vec<Expr>)
    ensures
        exprs_view(r@) == exprs_view(v@),
    decreases v,
{
    let mut out: Vec<Expr> = Vec::new();
    let mut i: usize = 0;
    while i < v.len()
        invariant
            i <= v@.len(),
            exprs_view(out@) == exprs_view(v@.take(i as int)),
        decreases v@.len() - i,
    {
        let e = copy_expr(&v[i]);
        let ghost pre = out@;
        out.push(e);
        proof {
            lemma_exprs_view_push(pre, e);
            assert(v@.take(i + 1).drop_last() =~= v@.take(i as int));
            assert(v@.take(i + 1).last() == v@[i as int]);
        }
        i = i + 1;
    }
    proof {
        assert(v@.take(v@.len() as int) =~= v@);
    }
    out
}

// ---------------------------------------------------------------------------
// Types of values and expressions.
// ---------------------------------------------------------------------------

/// The type of a leaf value, at the specification level.
pub open spec fn value_ty_v(v: ValueV) -> TyV {
    match v {
        ValueV::Arg(_, t) => t,
        ValueV::Const(_, t) => t,
        ValueV::Function(_, t) => t,
        ValueV::ConstParam(p) => p.1,
    }
}

/// Anything that carries a type of the expression language.
pub trait Typed {
    /// The carried type, at the specification level.
    spec fn spec_ty(&self) -> TyV;

    /// A copy of the carried type.
    fn ty(&self) -> (r: Ty)
        ensures
            r@ == self.spec_ty(),
    ;
}

impl Typed for Param {
    open spec fn spec_ty(&self) -> TyV {
        ty_view(self.1)
    }

    fn ty(&self) -> (r: Ty) {
        copy_ty(&self.1)
    }
}

impl Typed for Value {
    open spec fn spec_ty(&self) -> TyV {
        value_ty_v(value_view(*self))
    }

    fn ty(&self) -> (r: Ty) {
        match self {
            Value::Arg(_, t) => copy_ty(t),
            Value::Const(_, t) => copy_ty(t),
            Value::Function(_, t) => copy_ty(t),
            Value::ConstParam(p) => copy_ty(&p.1),
        }
    }
}

/// The type of an expression, where one is determined: the type of a leaf,
/// the first slot type of an applied function, `Bool` for a comparison and
/// the left operand's type for arithmetic, the type of a switch's first
/// branch, the tuple of the fields' types, the type of the projected field
/// expression, the optional wrapper around a `Just`, and the carried type of
/// a `Nothing`. `Uninitialized` and malformed nodes have no type.
pub open spec fn expr_ty_v(e: ExprV) -> Option<TyV>
    decreases e,
{
    match e {
        ExprV::Value(v) => Some(value_ty_v(v)),
        ExprV::Apply(f, _) => match expr_ty_v(*f) {
            Some(TyV::Func(args, _)) => if args.len() > 0 {
                Some(args[0])
            } else {
                None
            },
            _ => None,
        },
        ExprV::BinaryOp(op, a, _) => if op.is_comparison() {
            Some(TyV::Bool)
        } else {
            expr_ty_v(*a)
        },
        ExprV::Switch(_, _, branches) => if branches.len() > 0 {
            expr_ty_v(branches[0])
        } else {
            None
        },
        ExprV::Tuple(fields) => match exprs_tys_v(fields) {
            Some(ts) => Some(TyV::Tuple(ts)),
            None => None,
        },
        ExprV::Projection(t, i) => match *t {
            ExprV::Tuple(fields) => if i < fields.len() {
                expr_ty_v(fields[i as int])
            } else {
                None
            },
            _ => None,
        },
        ExprV::Just(inner) => match expr_ty_v(*inner) {
            Some(t) => Some(TyV::Maybe(Box::new(t))),
            None => None,
        },
        ExprV::Nothing(t) => Some(t),
        ExprV::Uninitialized => None,
    }
}

/// The types of a list of expressions, defined only when each one has a
/// type.
pub open spec fn exprs_tys_v(es: Seq<ExprV>) -> Option<Seq<TyV>>
    decreases es,
{
    if es.len() == 0 {
        Some(Seq::empty())
    } else {
        match (exprs_tys_v(es.drop_last()), expr_ty_v(es.last())) {
            (Some(ts), Some(t)) => Some(ts.push(t)),
            _ => None,
        }
    }
}

pub open spec fn opt_ty_view(r: Option<Ty>) -> Option<TyV> {
    match r {
        Some(t) => Some(ty_view(t)),
        None => None,
    }
}

impl Expr {
    /// The type of the expression, or `None` where no type is determined.
    #[verifier::loop_isolation(false)]
    pub fn ty(&self) -> (r: Option<Ty>)
        ensures
            opt_ty_view(r) == expr_ty_v(self@),
        decreases self,
    {
        match self {
            Expr::Value(v) => Some(v.ty()),
            Expr::Apply(f, _) => match f.ty() {
                Some(Ty::Func(args, _)) => {
                    proof {
                        lemma_tys_view(args@);
                    }
                    if args.len() > 0 {
                        Some(copy_ty(&args[0]))
                    } else {
                        None
                    }
                },
                _ => None,
            },
            Expr::BinaryOp(op, a, _) => {
                if op.is_comparison_op() {
                    Some(Ty::Bool)
                } else {
                    a.ty()
                }
            },
            Expr::Switch(_, _, branches) => {
                proof {
                    lemma_exprs_view(branches@);
                }
                if branches.len() > 0 {
                    branches[0].ty()
                } else {
                    None
                }
            },
            Expr::Tuple(fields) => {
                proof {
                    lemma_exprs_view(fields@);
                }
                let ghost full = exprs_view(fields@);
                let mut out: Vec<Ty> = Vec::new();
                let mut i: usize = 0;
                while i < fields.len()
                    invariant
                        i <= fields@.len(),
                        exprs_tys_v(full.take(i as int)) == Some(tys_view(out@)),
                    decreases fields@.len() - i,
                {
                    match fields[i].ty() {
                        Some(t) => {
                            let ghost pre = out@;
                            out.push(t);
                            proof {
                                lemma_tys_view_push(pre, t);
                                assert(full.take(i + 1).drop_last() =~= full.take(i as int));
                                assert(full.take(i + 1).last() == full[i as int]);
                            }
                        },
                        None => {
                            proof {
                                lemma_exprs_tys_v_none(full, i as int);
                            }
                            return None;
                        },
                    }
                    i = i + 1;
                }
                proof {
                    assert(full.take(fields@.len() as int) =~= full);
                }
                Some(Ty::Tuple(out))
            },
            Expr::Projection(t, i) => {
                proof {
                    reveal_with_fuel(expr_view, 2);
                }
                match &**t {
                    Expr::Tuple(fields) => {
                        proof {
                            lemma_exprs_view(fields@);
                        }
                        if *i < fields.len() {
                            fields[*i].ty()
                        } else {
                            None
                        }
                    },
                    _ => None,
                }
            },
            Expr::Just(inner) => match inner.ty() {
                Some(t) => Some(Ty::Maybe(Box::new(t))),
                None => None,
            },
            Expr::Nothing(t) => Some(copy_ty(t)),
            Expr::Uninitialized => None,
        }
    }
}

/// If one element of a list has no type, the list of types is undefined.
pub proof fn lemma_exprs_tys_v_none(es: Seq<ExprV>, i: int)
    requires
        0 <= i < es.len(),
        expr_ty_v(es[i]) is None,
    ensures
        exprs_tys_v(es) is None,
    decreases es,
{
    if es.len() > 0 {
        if i == es.len() - 1 {
            assert(es.last() == es[i]);
        } else {
            lemma_exprs_tys_v_none(es.drop_last(), i);
        }
    }
}

// ---------------------------------------------------------------------------
// Deep equality.
// ---------------------------------------------------------------------------

pub fn ty_eq(a: &Ty, b: &Ty) -> (r: bool)
    ensures
        r == (a@ == b@),
    decreases a,
{
    match (a, b) {
        (Ty::Int(x), Ty::Int(y)) => x == y,
        (Ty::Uint(x), Ty::Uint(y)) => x == y,
        (Ty::Bool, Ty::Bool) => true,
        (Ty::Func(a1, p1), Ty::Func(a2, p2)) => tys_eq(a1, a2) && params_eq(p1, p2),
        (Ty::Tuple(f1), Ty::Tuple(f2)) => tys_eq(f1, f2),
        (Ty::Maybe(i1), Ty::Maybe(i2)) => ty_eq(&**i1, &**i2),
        _ => false,
    }
}

#[verifier::loop_isolation(false)]
pub fn tys_eq(a: &Vec<Ty>, b: &Vec<Ty>) -> (r: bool)
    ensures
        r == (tys_view(a@) == tys_view(b@)),
    decreases a,
{
    proof {
        lemma_tys_view(a@);
        lemma_tys_view(b@);
    }
    if a.len() != b.len() {
        return false;
    }
    let mut i: usize = 0;
    while i < a.len()
        invariant
            i <= a@.len(),
            a@.len() == b@.len(),
            forall|j: int| 0 <= j < i ==> tys_view(a@)[j] == tys_view(b@)[j],
        decreases a@.len() - i,
    {
        if !ty_eq(&a[i], &b[i]) {
            proof {
                if tys_view(a@) == tys_view(b@) {
                    assert(tys_view(a@)[i as int] == tys_view(b@)[i as int]);
                }
            }
            return false;
        }
        i = i + 1;
    }
    proof {
        assert(tys_view(a@) =~= tys_view(b@));
    }
    true
}

pub fn param_eq(a: &Param, b: &Param) -> (r: bool)
    ensures
        r == (a@ == b@),
    decreases a,
{
    a.0 == b.0 && ty_eq(&a.1, &b.1)
}

#[verifier::loop_isolation(false)]
pub fn params_eq(a: &Vec<Param>, b: &Vec<Param>) -> (r: bool)
    ensures
        r == (params_view(a@) == params_view(b@)),
    decreases a,
{
    proof {
        lemma_params_view(a@);
        lemma_params_view(b@);
    }
    if a.len() != b.len() {
        return false;
    }
    let mut i: usize = 0;
    while i < a.len()
        invariant
            i <= a@.len(),
            a@.len() == b@.len(),
            forall|j: int| 0 <= j < i ==> params_view(a@)[j] == params_view(b@)[j],
        decreases a@.len() - i,
    {
        if !param_eq(&a[i], &b[i]) {
            proof {
                if params_view(a@) == params_view(b@) {
                    assert(params_view(a@)[i as int] == params_view(b@)[i as int]);
                }
            }
            return false;
        }
        i = i + 1;
    }
    proof {
        assert(params_view(a@) =~= params_view(b@));
    }
    true
}

pub fn value_eq(a: &Value, b: &Value) -> (r: bool)
    ensures
        r == (a@ == b@),
{
    match (a, b) {
        (Value::Arg(n1, t1), Value::Arg(n2, t2)) => n1 == n2 && ty_eq(t1, t2),
        (Value::Const(b1, t1), Value::Const(b2, t2)) => b1 == b2 && ty_eq(t1, t2),
        (Value::Function(d1, t1), Value::Function(d2, t2)) => d1 == d2 && ty_eq(t1, t2),
        (Value::ConstParam(p1), Value::ConstParam(p2)) => param_eq(p1, p2),
        _ => false,
    }
}

pub fn expr_eq(a: &Expr, b: &Expr) -> (r: bool)
    ensures
        r == (a@ == b@),
    decreases a,
{
    match (a, b) {
        (Expr::Value(v1), Expr::Value(v2)) => value_eq(v1, v2),
        (Expr::Apply(f1, a1), Expr::Apply(f2, a2)) => expr_eq(&**f1, &**f2) && exprs_eq(a1, a2),
        (Expr::BinaryOp(o1, x1, y1), Expr::BinaryOp(o2, x2, y2)) => *o1 == *o2 && expr_eq(
            &**x1,
            &**x2,
        ) && expr_eq(&**y1, &**y2),
        (Expr::Switch(d1, v1, b1), Expr::Switch(d2, v2, b2)) => expr_eq(&**d1, &**d2) && exprs_eq(
            v1,
            v2,
        ) && exprs_eq(b1, b2),
        (Expr::Tuple(f1), Expr::Tuple(f2)) => exprs_eq(f1, f2),
        (Expr::Projection(t1, i1), Expr::Projection(t2, i2)) => *i1 == *i2 && expr_eq(
            &**t1,
            &**t2,
        ),
        (Expr::Just(e1), Expr::Just(e2)) => expr_eq(&**e1, &**e2),
        (Expr::Nothing(t1), Expr::Nothing(t2)) => ty_eq(t1, t2),
        (Expr::Uninitialized, Expr::Uninitialized) => true,
        _ => false,
    }
}

#[verifier::loop_isolation(false)]
pub fn exprs_eq(a: &Vec<Expr>, b: &Vec<Expr>) -> (r: bool)
    ensures
        r == (exprs_view(a@) == exprs_view(b@)),
    decreases a,
{
    proof {
        lemma_exprs_view(a@);
        lemma_exprs_view(b@);
    }
    if a.len() != b.len() {
        return false;
    }
    let mut i: usize = 0;
    while i < a.len()
        invariant
            i <= a@.len(),
            a@.len() == b@.len(),
            forall|j: int| 0 <= j < i ==> exprs_view(a@)[j] == exprs_view(b@)[j],
        decreases a@.len() - i,
    {
        if !expr_eq(&a[i], &b[i]) {
            proof {
                if exprs_view(a@) == exprs_view(b@) {
                    assert(exprs_view(a@)[i as int] == exprs_view(b@)[i as int]);
                }
            }
            return false;
        }
        i = i + 1;
    }
    proof {
        assert(exprs_view(a@) =~= exprs_view(b@));
    }
    true
}

// ---------------------------------------------------------------------------
// Occurrence and substitution.
// ---------------------------------------------------------------------------

/// Does `t` occur anywhere inside `e`, the whole of `e` included?
pub open spec fn contains_v(e: ExprV, t: ExprV) -> bool
    decreases e,
{
    e == t || match e {
        ExprV::Apply(f, args) => contains_v(*f, t) || contains_any(args, t),
        ExprV::BinaryOp(_, a, b) => contains_v(*a, t) || contains_v(*b, t),
        ExprV::Switch(d, vals, branches) => contains_v(*d, t) || contains_any(vals, t)
            || contains_any(branches, t),
        ExprV::Tuple(fields) => contains_any(fields, t),
        ExprV::Projection(inner, _) => contains_v(*inner, t),
        ExprV::Just(inner) => contains_v(*inner, t),
        _ => false,
    }
}

pub open spec fn contains_any(es: Seq<ExprV>, t: ExprV) -> bool
    decreases es,
{
    es.len() > 0 && (contains_v(es.last(), t) || contains_any(es.drop_last(), t))
}

/// A list contains `t` exactly when one of its elements does.
pub proof fn lemma_contains_any_index(es: Seq<ExprV>, t: ExprV)
    ensures
        contains_any(es, t) == (exists|i: int| 0 <= i < es.len() && contains_v(es[i], t)),
    decreases es,
{
    if es.len() > 0 {
        let pre = es.drop_last();
        lemma_contains_any_index(pre, t);
        if contains_any(es, t) {
            if contains_v(es.last(), t) {
                assert(0 <= es.len() - 1 < es.len() && contains_v(es[es.len() - 1], t));
            } else {
                let i = choose|i: int| 0 <= i < pre.len() && contains_v(pre[i], t);
                assert(es[i] == pre[i]);
                assert(0 <= i < es.len() && contains_v(es[i], t));
            }
        }
        if exists|i: int| 0 <= i < es.len() && contains_v(es[i], t) {
            let i = choose|i: int| 0 <= i < es.len() && contains_v(es[i], t);
            if i == es.len() - 1 {
                assert(contains_v(es.last(), t));
            } else {
                assert(pre[i] == es[i]);
                assert(0 <= i < pre.len() && contains_v(pre[i], t));
            }
        }
    }
}

/// `e` with every occurrence of `t` replaced by `s`; an occurrence is
/// replaced whole, so nothing inside a replaced subtree is rewritten again.
pub open spec fn replace_v(e: ExprV, t: ExprV, s: ExprV) -> ExprV
    decreases e,
{
    if e == t {
        s
    } else {
        match e {
            ExprV::Apply(f, args) => ExprV::Apply(
                Box::new(replace_v(*f, t, s)),
                replace_seq(args, t, s),
            ),
            ExprV::BinaryOp(op, a, b) => ExprV::BinaryOp(
                op,
                Box::new(replace_v(*a, t, s)),
                Box::new(replace_v(*b, t, s)),
            ),
            ExprV::Switch(d, vals, branches) => ExprV::Switch(
                Box::new(replace_v(*d, t, s)),
                replace_seq(vals, t, s),
                replace_seq(branches, t, s),
            ),
            ExprV::Tuple(fields) => ExprV::Tuple(replace_seq(fields, t, s)),
            ExprV::Projection(inner, i) => ExprV::Projection(Box::new(replace_v(*inner, t, s)), i),
            ExprV::Just(inner) => ExprV::Just(Box::new(replace_v(*inner, t, s))),
            other => other,
        }
    }
}

pub open spec fn replace_seq(es: Seq<ExprV>, t: ExprV, s: ExprV) -> Seq<ExprV>
    decreases es,
{
    if es.len() == 0 {
        Seq::empty()
    } else {
        replace_seq(es.drop_last(), t, s).push(replace_v(es.last(), t, s))
    }
}

pub proof fn lemma_replace_seq_push(es: Seq<ExprV>, x: ExprV, t: ExprV, s: ExprV)
    ensures
        replace_seq(es.push(x), t, s) == replace_seq(es, t, s).push(replace_v(x, t, s)),
{
    assert(es.push(x).drop_last() =~= es);
    assert(es.push(x).last() == x);
}

impl Expr {
    /// Does `target` occur anywhere inside this expression?
    pub fn contains(&self, target: &Expr) -> (r: bool)
        ensures
            r == contains_v(self@, target@),
        decreases self,
    {
        if expr_eq(self, target) {
            return true;
        }
        match self {
            Expr::Apply(f, args) => f.contains(target) || exprs_contain(args, target),
            Expr::BinaryOp(_, a, b) => a.contains(target) || b.contains(target),
            Expr::Switch(d, vals, branches) => d.contains(target) || exprs_contain(vals, target)
                || exprs_contain(branches, target),
            Expr::Tuple(fields) => exprs_contain(fields, target),
            Expr::Projection(inner, _) => inner.contains(target),
            Expr::Just(inner) => inner.contains(target),
            _ => false,
        }
    }

    /// A copy of this expression with every occurrence of `target` replaced
    /// by `substitution`.
    pub fn replace(&self, target: &Expr, substitution: &Expr) -> (r: Expr)
        ensures
            r@ == replace_v(self@, target@, substitution@),
        decreases self,
    {
        if expr_eq(self, target) {
            return copy_expr(substitution);
        }
        match self {
            Expr::Value(v) => Expr::Value(copy_value(v)),
            Expr::Apply(f, args) => Expr::Apply(
                Box::new(f.replace(target, substitution)),
                replace_all(args, target, substitution),
            ),
            Expr::BinaryOp(op, a, b) => Expr::BinaryOp(
                *op,
                Box::new(a.replace(target, substitution)),
                Box::new(b.replace(target, substitution)),
            ),
            Expr::Switch(d, vals, branches) => Expr::Switch(
                Box::new(d.replace(target, substitution)),
                replace_all(vals, target, substitution),
                replace_all(branches, target, substitution),
            ),
            Expr::Tuple(fields) => Expr::Tuple(replace_all(fields, target, substitution)),
            Expr::Projection(inner, i) => Expr::Projection(
                Box::new(inner.replace(target, substitution)),
                *i,
            ),
            Expr::Just(inner) => Expr::Just(Box::new(inner.replace(target, substitution))),
            Expr::Nothing(t) => Expr::Nothing(copy_ty(t)),
            Expr::Uninitialized => Expr::Uninitialized,
        }
    }
}

#[verifier::loop_isolation(false)]
fn exprs_contain(es: &Vec<Expr>, target: &Expr) -> (r: bool)
    ensures
        r == contains_any(exprs_view(es@), target@),
    decreases es,
{
    proof {
        lemma_exprs_view(es@);
        lemma_contains_any_index(exprs_view(es@), target@);
    }
    let mut i: usize = 0;
    while i < es.len()
        invariant
            i <= es@.len(),
            forall|j: int| 0 <= j < i ==> !contains_v(exprs_view(es@)[j], target@),
        decreases es@.len() - i,
    {
        if es[i].contains(target) {
            proof {
                assert(contains_v(exprs_view(es@)[i as int], target@));
            }
            return true;
        }
        i = i + 1;
    }
    false
}

#[verifier::loop_isolation(false)]
fn replace_all(es: &Vec<Expr>, target: &Expr, substitution: &Expr) -> (r: Vec<Expr>)
    ensures
        exprs_view(r@) == replace_seq(exprs_view(es@), target@, substitution@),
    decreases es,
{
    let mut out: Vec<Expr> = Vec::new();
    let mut i: usize = 0;
    while i < es.len()
        invariant
            i <= es@.len(),
            exprs_view(out@) == replace_seq(
                exprs_view(es@.take(i as int)),
                target@,
                substitution@,
            ),
        decreases es@.len() - i,
    {
        let e = es[i].replace(target, substitution);
        let ghost pre = out@;
        out.push(e);
        proof {
            lemma_exprs_view_push(pre, e);
            assert(es@.take(i + 1).drop_last() =~= es@.take(i as int));
            assert(es@.take(i + 1).last() == es@[i as int]);
            lemma_replace_seq_push(
                exprs_view(es@.take(i as int)),
                expr_view(es@[i as int]),
                target@,
                substitution@,
            );
        }
        i = i + 1;
    }
    proof {
        assert(es@.take(es@.len() as int) =~= es@);
    }
    out
}

// ---------------------------------------------------------------------------
// Recursion detection.
// ---------------------------------------------------------------------------

/// A definition is recursive when its body applies a function value that
/// carries its own identity and signature.
pub open spec fn spec_is_recursive(fd: FuncDefV) -> bool {
    contains_v(fd.body, ExprV::Value(ValueV::Function(fd.def_id, fd.ty)))
}

impl FuncDef {
    /// Does the body call this definition itself?
    pub fn is_recursive(&self) -> (r: bool)
        ensures
            r == spec_is_recursive(self@),
    {
        let probe = Expr::Value(Value::Function(self.def_id, copy_ty(&self.ty)));
        self.body.contains(&probe)
    }
}


/// Occurrence is transitive: what occurs inside an occurring subtree
/// occurs in the whole.
pub proof fn lemma_contains_trans(e: ExprV, x: ExprV, y: ExprV)
    requires
        contains_v(e, x),
        contains_v(x, y),
    ensures
        contains_v(e, y),
    decreases e,
{
    if e == x {
    } else {
        match e {
            ExprV::Apply(f, args) => {
                if contains_v(*f, x) {
                    lemma_contains_trans(*f, x, y);
                } else {
                    lemma_contains_any_trans(args, x, y);
                }
            },
            ExprV::BinaryOp(_, a, b) => {
                if contains_v(*a, x) {
                    lemma_contains_trans(*a, x, y);
                } else {
                    lemma_contains_trans(*b, x, y);
                }
            },
            ExprV::Switch(d, vals, branches) => {
                if contains_v(*d, x) {
                    lemma_contains_trans(*d, x, y);
                } else if contains_any(vals, x) {
                    lemma_contains_any_trans(vals, x, y);
                } else {
                    lemma_contains_any_trans(branches, x, y);
                }
            },
            ExprV::Tuple(fields) => {
                lemma_contains_any_trans(fields, x, y);
            },
            ExprV::Projection(inner, _) => {
                lemma_contains_trans(*inner, x, y);
            },
            ExprV::Just(inner) => {
                lemma_contains_trans(*inner, x, y);
            },
            _ => {},
        }
    }
}

pub proof fn lemma_contains_any_trans(es: Seq<ExprV>, x: ExprV, y: ExprV)
    requires
        contains_any(es, x),
        contains_v(x, y),
    ensures
        contains_any(es, y),
    decreases es,
{
    if contains_v(es.last(), x) {
        lemma_contains_trans(es.last(), x, y);
    } else {
        lemma_contains_any_trans(es.drop_last(), x, y);
    }
}

} // verus!
