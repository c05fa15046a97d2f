//! Lowering of types, values, expressions and definitions to solver text.
//!
//! Every rendering function is specified exactly: the executable emitter
//! returns precisely the character sequence its spec function describes.
//! A definition whose body calls itself is emitted with the solver's
//! recursive-definition form, which [`lemma_recursive_definition_form`]
//! pins down.

use vstd::prelude::*;
use vstd::string::StringExecFns;

use crate::mir::BinOp;
use crate::sir::expr_ty_v;
use crate::sir::expr_view;
use crate::sir::exprs_view;
use crate::sir::spec_is_recursive;
use crate::sir::ty_view;
use crate::sir::Expr;
use crate::sir::ExprV;
use crate::sir::FuncDef;
use crate::sir::FuncDefV;
use crate::sir::Param;
use crate::sir::ParamV;
use crate::sir::Ty;
use crate::sir::TyV;
use crate::sir::Value;
use crate::sir::ValueV;

verus! {

// ---------------------------------------------------------------------------
// Decimal rendering.
// ---------------------------------------------------------------------------

pub open spec fn dec_digit(d: int) -> char {
    if d == 0 {
        '0'
    } else if d == 1 {
        '1'
    } else if d == 2 {
        '2'
    } else if d == 3 {
        '3'
    } else if d == 4 {
        '4'
    } else if d == 5 {
        '5'
    } else if d == 6 {
        '6'
    } else if d == 7 {
        '7'
    } else if d == 8 {
        '8'
    } else {
        '9'
    }
}

/// The decimal digits of a number, most significant first.
pub open spec fn dec_str(n: int) -> Seq<char>
    decreases n,
    when n >= 0
{
    if n < 10 {
        seq![dec_digit(n)]
    } else {
        dec_str(n / 10).push(dec_digit(n % 10))
    }
}

/// One decimal digit as text.
fn digit_str(d: u128) -> (r: &'static str)
    requires
        d < 10,
    ensures
        r@ == seq![dec_digit(d as int)],
{
    proof {
        reveal_strlit("0");
        reveal_strlit("1");
        reveal_strlit("2");
        reveal_strlit("3");
        reveal_strlit("4");
        reveal_strlit("5");
        reveal_strlit("6");
        reveal_strlit("7");
        reveal_strlit("8");
        reveal_strlit("9");
    }
    if d == 0 {
        "0"
    } else if d == 1 {
        "1"
    } else if d == 2 {
        "2"
    } else if d == 3 {
        "3"
    } else if d == 4 {
        "4"
    } else if d == 5 {
        "5"
    } else if d == 6 {
        "6"
    } else if d == 7 {
        "7"
    } else if d == 8 {
        "8"
    } else {
        "9"
    }
}

/// Render a number in decimal.
pub fn u128_dec(n: u128) -> (r: String)
    ensures
        r@ == dec_str(n as int),
    decreases n,
{
    if n < 10 {
        let r = digit_str(n).to_owned();
        proof {
            assert(r@ =~= dec_str(n as int));
        }
        r
    } else {
        let mut s = u128_dec(n / 10);
        s.append(digit_str(n % 10));
        proof {
            assert(s@ =~= dec_str(n as int));
        }
        s
    }
}

/// Render a slot or parameter index in decimal.
pub fn usize_dec(n: usize) -> (r: String)
    ensures
        r@ == dec_str(n as int),
{
    u128_dec(n as u128)
}

// ---------------------------------------------------------------------------
// Assembly helpers over already rendered pieces.
// ---------------------------------------------------------------------------

pub open spec fn strs_view(s: Seq<String>) -> Seq<Seq<char>>
    decreases s,
{
    if s.len() == 0 {
        Seq::empty()
    } else {
        strs_view(s.drop_last()).push(s.last()@)
    }
}

pub proof fn lemma_strs_view(s: Seq<String>)
    ensures
        strs_view(s).len() == s.len(),
        forall|i: int| 0 <= i < s.len() ==> strs_view(s)[i] == s[i]@,
    decreases s,
{
    if s.len() > 0 {
        lemma_strs_view(s.drop_last());
    }
}

/// The pieces joined by single spaces; empty pieces lists join to nothing.
pub open spec fn join_space(xs: Seq<Seq<char>>) -> Seq<char>
    decreases xs,
{
    if xs.len() == 0 {
        Seq::empty()
    } else if xs.len() == 1 {
        xs[0]
    } else {
        xs[0] + " "@ + join_space(xs.drop_first())
    }
}

/// Exec join of rendered pieces with single spaces.
#[verifier::loop_isolation(false)]
pub fn join_space_exec(xs: &Vec<String>) -> (r: String)
    ensures
        r@ == join_space(strs_view(xs@)),
    decreases xs@.len(),
{
    proof {
        lemma_strs_view(xs@);
    }
    let mut out = String::new();
    let mut i: usize = 0;
    while i < xs.len()
        invariant
            i <= xs@.len(),
            out@ == join_space_prefix(strs_view(xs@), i as int),
        decreases xs@.len() - i,
    {
        if i > 0 {
            out.append(" ");
        }
        out.append(xs[i].as_str());
        proof {
            reveal_strlit(" ");
            assert(out@ =~= join_space_prefix(strs_view(xs@), i + 1));
        }
        i = i + 1;
    }
    proof {
        lemma_join_space_prefix(strs_view(xs@));
    }
    out
}

/// The join of the first `i` pieces.
pub open spec fn join_space_prefix(xs: Seq<Seq<char>>, i: int) -> Seq<char>
    decreases i,
    when 0 <= i <= xs.len()
{
    if i <= 0 {
        Seq::empty()
    } else if i == 1 {
        xs[0]
    } else {
        join_space_prefix(xs, i - 1) + " "@ + xs[i - 1]
    }
}

/// The whole-prefix join equals the recursive join.
pub proof fn lemma_join_space_prefix(xs: Seq<Seq<char>>)
    ensures
        join_space_prefix(xs, xs.len() as int) == join_space(xs),
    decreases xs.len(),
{
    if xs.len() > 1 {
        let rest = xs.drop_first();
        lemma_join_space_prefix(rest);
        assert forall|j: int| 1 <= j <= rest.len() implies join_space_prefix(xs, j + 1) == xs[0]
            + " "@ + join_space_prefix(rest, j) by {
            lemma_join_space_prefix_shift(xs, j);
        }
        assert(join_space_prefix(xs, xs.len() as int) == xs[0] + " "@ + join_space(rest));
    }
}

proof fn lemma_join_space_prefix_shift(xs: Seq<Seq<char>>, j: int)
    requires
        xs.len() >= 2,
        1 <= j <= xs.len() - 1,
    ensures
        join_space_prefix(xs, j + 1) == xs[0] + " "@ + join_space_prefix(xs.drop_first(), j),
    decreases j,
{
    let rest = xs.drop_first();
    if j == 1 {
        assert(join_space_prefix(xs, 2) == join_space_prefix(xs, 1) + " "@ + xs[1]);
        assert(join_space_prefix(rest, 1) == rest[0]);
        assert(rest[0] == xs[1]);
    } else {
        lemma_join_space_prefix_shift(xs, j - 1);
        assert(rest[j - 1] == xs[j]);
        assert((xs[0] + " "@ + join_space_prefix(rest, j - 1)) + " "@ + xs[j] =~= xs[0] + " "@
            + (join_space_prefix(rest, j - 1) + " "@ + rest[j - 1]));
    }
}

// ---------------------------------------------------------------------------
// Rendering, at the specification level.
// ---------------------------------------------------------------------------

/// Right-nested pair sort over rendered field sorts; no fields name the
/// unit sort.
pub open spec fn ty_nest(xs: Seq<Seq<char>>) -> Seq<char>
    decreases xs,
{
    if xs.len() == 0 {
        "Unit"@
    } else if xs.len() == 1 {
        xs[0]
    } else {
        "(Tuple "@ + xs[0] + " "@ + ty_nest(xs.drop_first()) + ")"@
    }
}

/// Right-nested pair constructor over rendered field expressions.
pub open spec fn expr_nest(xs: Seq<Seq<char>>) -> Seq<char>
    decreases xs,
{
    if xs.len() == 0 {
        "unit"@
    } else if xs.len() == 1 {
        xs[0]
    } else {
        "(tuple "@ + xs[0] + " "@ + expr_nest(xs.drop_first()) + ")"@
    }
}

/// The sort a type denotes: `Bool`, a fixed-width bitvector, a right-
/// nested pair sort, or the optional sum sort. Function types denote no
/// sort.
pub open spec fn smt_ty(t: TyV) -> Seq<char>
    decreases t, 0int,
{
    match t {
        TyV::Bool => "Bool"@,
        TyV::Int(n) => "(_ BitVec "@ + dec_str(n as int) + ")"@,
        TyV::Uint(n) => "(_ BitVec "@ + dec_str(n as int) + ")"@,
        TyV::Tuple(fields) => ty_nest(smt_tys(fields)),
        TyV::Maybe(inner) => "(Maybe "@ + smt_ty(*inner) + ")"@,
        TyV::Func(_, _) => Seq::empty(),
    }
}

pub open spec fn smt_tys(ts: Seq<TyV>) -> Seq<Seq<char>>
    decreases ts, 0int,
{
    if ts.len() == 0 {
        Seq::empty()
    } else {
        smt_tys(ts.drop_last()).push(smt_ty(ts.last()))
    }
}

pub proof fn lemma_smt_tys(ts: Seq<TyV>)
    ensures
        smt_tys(ts).len() == ts.len(),
        forall|i: int| 0 <= i < ts.len() ==> smt_tys(ts)[i] == smt_ty(ts[i]),
    decreases ts,
{
    if ts.len() > 0 {
        lemma_smt_tys(ts.drop_last());
    }
}

/// The operator token, keyed on the left operand's type: generic equality
/// over booleans, signed bitvector operators over signed integers, and
/// unsigned ones over unsigned integers.
pub open spec fn smt_op_token(op: BinOp, lhs: TyV) -> Seq<char> {
    match lhs {
        TyV::Bool => match op {
            BinOp::Eq => "="@,
            BinOp::Ne => "!="@,
            _ => Seq::empty(),
        },
        TyV::Int(_) => match op {
            BinOp::Add => "bvadd"@,
            BinOp::Sub => "bvsub"@,
            BinOp::Mul => "bvmul"@,
            BinOp::Div => "bvsdiv"@,
            BinOp::Rem => "bvsrem"@,
            BinOp::Eq => "="@,
            BinOp::Lt => "bvslt"@,
            BinOp::Le => "bvsle"@,
            BinOp::Ne => "!="@,
            BinOp::Ge => "bvsge"@,
            BinOp::Gt => "bvsgt"@,
        },
        TyV::Uint(_) => match op {
            BinOp::Add => "bvadd"@,
            BinOp::Sub => "bvsub"@,
            BinOp::Mul => "bvmul"@,
            BinOp::Div => "bvudiv"@,
            BinOp::Rem => "bvurem"@,
            BinOp::Eq => "="@,
            BinOp::Lt => "bvult"@,
            BinOp::Le => "bvule"@,
            BinOp::Ne => "!="@,
            BinOp::Ge => "bvuge"@,
            BinOp::Gt => "bvugt"@,
        },
        _ => Seq::empty(),
    }
}

/// The solver-level name of a function identity.
pub open spec fn func_name(d: int) -> Seq<char> {
    "func_"@ + dec_str(d)
}

/// A leaf value: an argument or parameter by name, a boolean literal, or
/// a bitvector literal of the declared width.
pub open spec fn smt_value(v: ValueV) -> Seq<char> {
    match v {
        ValueV::Arg(n, _) => "x"@ + dec_str(n as int),
        ValueV::Const(b, t) => match t {
            TyV::Bool => if b != 0 {
                "true"@
            } else {
                "false"@
            },
            TyV::Int(n) => "(_ bv"@ + dec_str(b as int) + " "@ + dec_str(n as int) + ")"@,
            TyV::Uint(n) => "(_ bv"@ + dec_str(b as int) + " "@ + dec_str(n as int) + ")"@,
            _ => Seq::empty(),
        },
        ValueV::Function(d, _) => func_name(d as int),
        ValueV::ConstParam(p) => "p"@ + dec_str(p.0 as int),
    }
}

/// The nested if-then-else chain of a general switch: compare the
/// discriminant against each case literal in order, falling through to
/// the default branch.
pub open spec fn ite_chain(v: Seq<char>, cs: Seq<Seq<char>>, bs: Seq<Seq<char>>, i: int) -> Seq<
    char,
>
    decreases cs.len() - i,
    when 0 <= i <= cs.len()
{
    if i >= cs.len() {
        bs.last()
    } else {
        "(ite (= "@ + v + " "@ + cs[i] + ") "@ + bs[i] + " "@ + ite_chain(v, cs, bs, i + 1)
            + ")"@
    }
}

/// The rendering of an expression.
pub open spec fn smt_expr(e: ExprV) -> Seq<char>
    decreases e, 0int,
{
    match e {
        ExprV::Value(v) => smt_value(v),
        ExprV::BinaryOp(op, a, b) => {
            let tok = match expr_ty_v(*a) {
                Some(t) => smt_op_token(op, t),
                None => Seq::empty(),
            };
            "("@ + tok + " "@ + smt_expr(*a) + " "@ + smt_expr(*b) + ")"@
        },
        ExprV::Apply(fc, args) => "("@ + smt_expr(*fc) + " "@ + join_space(smt_exprs(args))
            + ")"@,
        ExprV::Switch(val, cs, bs) => if expr_ty_v(*val) == Some(TyV::Bool) && cs.len() == 1
            && bs.len() == 2 {
            "(ite "@ + smt_expr(*val) + " "@ + smt_expr(bs[1]) + " "@ + smt_expr(bs[0]) + ")"@
        } else {
            ite_chain(smt_expr(*val), smt_exprs(cs), smt_exprs(bs), 0)
        },
        ExprV::Tuple(fields) => expr_nest(smt_exprs(fields)),
        ExprV::Projection(t, i) => if i == 0 {
            "(first "@ + smt_expr(*t) + ")"@
        } else if i == 1 {
            "(second "@ + smt_expr(*t) + ")"@
        } else {
            Seq::empty()
        },
        ExprV::Just(inner) => "(just "@ + smt_expr(*inner) + ")"@,
        ExprV::Nothing(_) => "nothing"@,
        ExprV::Uninitialized => Seq::empty(),
    }
}

pub open spec fn smt_exprs(es: Seq<ExprV>) -> Seq<Seq<char>>
    decreases es, 0int,
{
    if es.len() == 0 {
        Seq::empty()
    } else {
        smt_exprs(es.drop_last()).push(smt_expr(es.last()))
    }
}

pub proof fn lemma_smt_exprs(es: Seq<ExprV>)
    ensures
        smt_exprs(es).len() == es.len(),
        forall|i: int| 0 <= i < es.len() ==> smt_exprs(es)[i] == smt_expr(es[i]),
    decreases es,
{
    if es.len() > 0 {
        lemma_smt_exprs(es.drop_last());
    }
}

/// The declaration of runtime argument `i`.
pub open spec fn arg_decl(i: int, t: TyV) -> Seq<char> {
    "(x"@ + dec_str(i) + " "@ + smt_ty(t) + ")"@
}

/// The declaration of a symbolic parameter.
pub open spec fn param_decl(p: ParamV) -> Seq<char> {
    "(p"@ + dec_str(p.0 as int) + " "@ + smt_ty(p.1) + ")"@
}

/// The declarations of the runtime arguments `1..i`, in order.
pub open spec fn arg_decls_upto(args: Seq<TyV>, i: int) -> Seq<Seq<char>>
    decreases i,
    when i <= args.len()
{
    if i <= 1 {
        Seq::empty()
    } else {
        arg_decls_upto(args, i - 1).push(arg_decl(i - 1, args[i - 1]))
    }
}

pub open spec fn param_decls(ps: Seq<ParamV>) -> Seq<Seq<char>>
    decreases ps,
{
    if ps.len() == 0 {
        Seq::empty()
    } else {
        param_decls(ps.drop_last()).push(param_decl(ps.last()))
    }
}

pub proof fn lemma_param_decls(ps: Seq<ParamV>)
    ensures
        param_decls(ps).len() == ps.len(),
        forall|i: int| 0 <= i < ps.len() ==> param_decls(ps)[i] == param_decl(ps[i]),
    decreases ps,
{
    if ps.len() > 0 {
        lemma_param_decls(ps.drop_last());
    }
}

/// The definition keyword: the solver's recursive form for a definition
/// whose body calls itself, the plain form otherwise.
pub open spec fn def_token(fd: FuncDefV) -> Seq<char> {
    if spec_is_recursive(fd) {
        "define-fun-rec"@
    } else {
        "define-fun"@
    }
}

/// The rendering of a whole definition: keyword, name, the declared
/// runtime arguments followed by the symbolic parameters, the return sort
/// taken from slot 0, and the body.
pub open spec fn smt_funcdef(fd: FuncDefV) -> Seq<char> {
    match fd.ty {
        TyV::Func(args, params) => "("@ + def_token(fd) + " "@ + func_name(fd.def_id as int)
            + " ("@ + join_space(arg_decls_upto(args, args.len() as int) + param_decls(params))
            + ") "@ + (if args.len() > 0 {
            smt_ty(args[0])
        } else {
            Seq::empty()
        }) + " "@ + smt_expr(fd.body) + ")"@,
        _ => Seq::empty(),
    }
}

// ---------------------------------------------------------------------------
// What the emitter accepts.
// ---------------------------------------------------------------------------

/// A type that denotes a sort: anything without a function type inside.
pub open spec fn wf_sort(t: TyV) -> bool
    decreases t, 0int,
{
    match t {
        TyV::Int(_) => true,
        TyV::Uint(_) => true,
        TyV::Bool => true,
        TyV::Tuple(fields) => wf_sorts(fields),
        TyV::Maybe(inner) => wf_sort(*inner),
        TyV::Func(_, _) => false,
    }
}

pub open spec fn wf_sorts(ts: Seq<TyV>) -> bool
    decreases ts, 0int,
{
    ts.len() == 0 || (wf_sorts(ts.drop_last()) && wf_sort(ts.last()))
}

pub proof fn lemma_wf_sorts(ts: Seq<TyV>)
    requires
        wf_sorts(ts),
    ensures
        forall|i: int| 0 <= i < ts.len() ==> wf_sort(ts[i]),
    decreases ts,
{
    if ts.len() > 0 {
        lemma_wf_sorts(ts.drop_last());
        assert forall|i: int| 0 <= i < ts.len() implies wf_sort(ts[i]) by {
            if i < ts.len() - 1 {
                assert(ts.drop_last()[i] == ts[i]);
                assert(wf_sort(ts.drop_last()[i]));
            } else {
                assert(ts[i] == ts.last());
            }
        }
    }
}

/// The operator table has a token for this operand type.
pub open spec fn wf_op(op: BinOp, t: TyV) -> bool {
    match t {
        TyV::Bool => op == BinOp::Eq || op == BinOp::Ne,
        TyV::Int(_) => true,
        TyV::Uint(_) => true,
        _ => false,
    }
}

/// An expression the emitter can render: literals have primitive types,
/// operators have tokens, switches carry one more branch than guards, and
/// projections reach only the two fields of a pair.
pub open spec fn wf_smt_expr(e: ExprV) -> bool
    decreases e, 0int,
{
    match e {
        ExprV::Value(v) => match v {
            ValueV::Const(_, t) => t is Int || t is Uint || t is Bool,
            _ => true,
        },
        ExprV::BinaryOp(op, a, b) => wf_smt_expr(*a) && wf_smt_expr(*b) && (match expr_ty_v(*a) {
            Some(t) => wf_op(op, t),
            None => false,
        }),
        ExprV::Apply(fc, args) => wf_smt_expr(*fc) && wf_smt_exprs(args),
        ExprV::Switch(val, cs, bs) => wf_smt_expr(*val) && wf_smt_exprs(cs) && wf_smt_exprs(bs)
            && bs.len() == cs.len() + 1,
        ExprV::Tuple(fields) => wf_smt_exprs(fields),
        ExprV::Projection(t, i) => wf_smt_expr(*t) && i < 2,
        ExprV::Just(inner) => wf_smt_expr(*inner),
        ExprV::Nothing(_) => true,
        ExprV::Uninitialized => false,
    }
}

pub open spec fn wf_smt_exprs(es: Seq<ExprV>) -> bool
    decreases es, 0int,
{
    es.len() == 0 || (wf_smt_exprs(es.drop_last()) && wf_smt_expr(es.last()))
}

pub proof fn lemma_wf_smt_exprs(es: Seq<ExprV>)
    requires
        wf_smt_exprs(es),
    ensures
        forall|i: int| 0 <= i < es.len() ==> wf_smt_expr(es[i]),
    decreases es,
{
    if es.len() > 0 {
        lemma_wf_smt_exprs(es.drop_last());
        assert forall|i: int| 0 <= i < es.len() implies wf_smt_expr(es[i]) by {
            if i < es.len() - 1 {
                assert(es.drop_last()[i] == es[i]);
                assert(wf_smt_expr(es.drop_last()[i]));
            } else {
                assert(es[i] == es.last());
            }
        }
    }
}

pub open spec fn wf_param_sorts(ps: Seq<ParamV>) -> bool
    decreases ps,
{
    ps.len() == 0 || (wf_param_sorts(ps.drop_last()) && wf_sort(ps.last().1))
}

pub proof fn lemma_wf_param_sorts(ps: Seq<ParamV>)
    requires
        wf_param_sorts(ps),
    ensures
        forall|i: int| 0 <= i < ps.len() ==> wf_sort(ps[i].1),
    decreases ps,
{
    if ps.len() > 0 {
        lemma_wf_param_sorts(ps.drop_last());
        assert forall|i: int| 0 <= i < ps.len() implies wf_sort(ps[i].1) by {
            if i < ps.len() - 1 {
                assert(ps.drop_last()[i] == ps[i]);
                assert(wf_sort(ps.drop_last()[i].1));
            } else {
                assert(ps[i] == ps.last());
            }
        }
    }
}

/// A definition the emitter can render: a function signature with at
/// least the return slot, every slot and parameter type a sort, and a
/// renderable body.
pub open spec fn wf_smt_funcdef(fd: FuncDefV) -> bool {
    match fd.ty {
        TyV::Func(args, params) => args.len() >= 1 && wf_sorts(args) && wf_param_sorts(params)
            && wf_smt_expr(fd.body),
        _ => false,
    }
}

// ---------------------------------------------------------------------------
// The executable emitter.
// ---------------------------------------------------------------------------

/// A value the emitter can render: literals must have primitive types.
pub open spec fn wf_smt_value(v: ValueV) -> bool {
    match v {
        ValueV::Const(_, t) => t is Int || t is Uint || t is Bool,
        _ => true,
    }
}

/// Anything that lowers to solver text.
pub trait ToSmtlib {
    /// When the rendering is defined.
    spec fn smt_wf(&self) -> bool;

    /// The exact text of the rendering.
    spec fn smt_spec(&self) -> Seq<char>;

    /// Render to solver text.
    fn to_smtlib(&self) -> (r: String)
        requires
            self.smt_wf(),
        ensures
            r@ == self.smt_spec(),
    ;
}

/// The operator token for `op` at the left operand type `t`.
fn binop_token(op: &BinOp, t: &Ty) -> (r: &'static str)
    ensures
        r@ == smt_op_token(*op, t@),
{
    proof {
        reveal_strlit("");
        assert(""@ =~= Seq::<char>::empty());
    }
    match t {
        Ty::Bool => match op {
            BinOp::Eq => "=",
            BinOp::Ne => "!=",
            _ => "",
        },
        Ty::Int(_) => match op {
            BinOp::Add => "bvadd",
            BinOp::Sub => "bvsub",
            BinOp::Mul => "bvmul",
            BinOp::Div => "bvsdiv",
            BinOp::Rem => "bvsrem",
            BinOp::Eq => "=",
            BinOp::Lt => "bvslt",
            BinOp::Le => "bvsle",
            BinOp::Ne => "!=",
            BinOp::Ge => "bvsge",
            BinOp::Gt => "bvsgt",
        },
        Ty::Uint(_) => match op {
            BinOp::Add => "bvadd",
            BinOp::Sub => "bvsub",
            BinOp::Mul => "bvmul",
            BinOp::Div => "bvudiv",
            BinOp::Rem => "bvurem",
            BinOp::Eq => "=",
            BinOp::Lt => "bvult",
            BinOp::Le => "bvule",
            BinOp::Ne => "!=",
            BinOp::Ge => "bvuge",
            BinOp::Gt => "bvugt",
        },
        _ => "",
    }
}

/// Assemble the right-nested pair sort over `pieces[i..]`.
fn nest_ty_from(pieces: &Vec<String>, i: usize) -> (r: String)
    requires
        i <= pieces@.len(),
    ensures
        r@ == ty_nest(strs_view(pieces@).subrange(i as int, pieces@.len() as int)),
    decreases pieces@.len() - i,
{
    proof {
        lemma_strs_view(pieces@);
    }
    let ghost suffix = strs_view(pieces@).subrange(i as int, pieces@.len() as int);
    if i == pieces.len() {
        proof {
            assert(suffix =~= Seq::<Seq<char>>::empty());
        }
        "Unit".to_owned()
    } else if i + 1 == pieces.len() {
        let r = pieces[i].clone();
        proof {
            assert(suffix[0] == pieces@[i as int]@);
        }
        r
    } else {
        let rest = nest_ty_from(pieces, i + 1);
        let mut out = "(Tuple ".to_owned();
        out.append(pieces[i].as_str());
        out.append(" ");
        out.append(rest.as_str());
        out.append(")");
        proof {
            assert(suffix.drop_first() =~= strs_view(pieces@).subrange(
                i + 1,
                pieces@.len() as int,
            ));
            assert(suffix[0] == pieces@[i as int]@);
            assert(out@ =~= ty_nest(suffix));
        }
        out
    }
}

/// Assemble the right-nested pair constructor over `pieces[i..]`.
fn nest_expr_from(pieces: &Vec<String>, i: usize) -> (r: String)
    requires
        i <= pieces@.len(),
    ensures
        r@ == expr_nest(strs_view(pieces@).subrange(i as int, pieces@.len() as int)),
    decreases pieces@.len() - i,
{
    proof {
        lemma_strs_view(pieces@);
    }
    let ghost suffix = strs_view(pieces@).subrange(i as int, pieces@.len() as int);
    if i == pieces.len() {
        proof {
            assert(suffix =~= Seq::<Seq<char>>::empty());
        }
        "unit".to_owned()
    } else if i + 1 == pieces.len() {
        let r = pieces[i].clone();
        proof {
            assert(suffix[0] == pieces@[i as int]@);
        }
        r
    } else {
        let rest = nest_expr_from(pieces, i + 1);
        let mut out = "(tuple ".to_owned();
        out.append(pieces[i].as_str());
        out.append(" ");
        out.append(rest.as_str());
        out.append(")");
        proof {
            assert(suffix.drop_first() =~= strs_view(pieces@).subrange(
                i + 1,
                pieces@.len() as int,
            ));
            assert(suffix[0] == pieces@[i as int]@);
            assert(out@ =~= expr_nest(suffix));
        }
        out
    }
}

/// Assemble the if-then-else chain from case `i` on.
fn ite_chain_from(v: &String, cs: &Vec<String>, bs: &Vec<String>, i: usize) -> (r: String)
    requires
        bs@.len() == cs@.len() + 1,
        i <= cs@.len(),
    ensures
        r@ == ite_chain(v@, strs_view(cs@), strs_view(bs@), i as int),
    decreases cs@.len() - i,
{
    proof {
        lemma_strs_view(cs@);
        lemma_strs_view(bs@);
    }
    if i == cs.len() {
        let r = bs[bs.len() - 1].clone();
        proof {
            assert(strs_view(bs@).last() == bs@[bs@.len() - 1]@);
        }
        r
    } else {
        let rest = ite_chain_from(v, cs, bs, i + 1);
        let mut out = "(ite (= ".to_owned();
        out.append(v.as_str());
        out.append(" ");
        out.append(cs[i].as_str());
        out.append(") ");
        out.append(bs[i].as_str());
        out.append(" ");
        out.append(rest.as_str());
        out.append(")");
        proof {
            assert(out@ =~= ite_chain(v@, strs_view(cs@), strs_view(bs@), i as int));
        }
        out
    }
}

/// Render a type to its sort.
fn ty_to_smtlib(t: &Ty) -> (r: String)
    requires
        wf_sort(t@),
    ensures
        r@ == smt_ty(t@),
    decreases t, 1int,
{
    match t {
        Ty::Bool => "Bool".to_owned(),
        Ty::Int(n) => {
            let mut out = "(_ BitVec ".to_owned();
            let d = usize_dec(*n);
            out.append(d.as_str());
            out.append(")");
            proof {
                assert(out@ =~= smt_ty(t@));
            }
            out
        },
        Ty::Uint(n) => {
            let mut out = "(_ BitVec ".to_owned();
            let d = usize_dec(*n);
            out.append(d.as_str());
            out.append(")");
            proof {
                assert(out@ =~= smt_ty(t@));
            }
            out
        },
        Ty::Tuple(fields) => {
            let ghost fv = crate::sir::tys_view(fields@);
            proof {
                crate::sir::lemma_tys_view(fields@);
                lemma_wf_sorts(fv);
                lemma_smt_tys(fv);
            }
            let pieces = render_tys(fields);
            let r = nest_ty_from(&pieces, 0);
            proof {
                lemma_strs_view(pieces@);
                assert(strs_view(pieces@).subrange(0, pieces@.len() as int) =~= strs_view(
                    pieces@,
                ));
            }
            r
        },
        Ty::Maybe(inner) => {
            let s = ty_to_smtlib(&**inner);
            let mut out = "(Maybe ".to_owned();
            out.append(s.as_str());
            out.append(")");
            proof {
                assert(out@ =~= smt_ty(t@));
            }
            out
        },
        Ty::Func(_, _) => {
            proof {
                // Unreachable: the precondition rules this shape out.
                assert(false);
            }
            String::new()
        },
    }
}

/// Render each type of a list.
#[verifier::loop_isolation(false)]
fn render_tys(ts: &Vec<Ty>) -> (r: Vec<String>)
    requires
        wf_sorts(crate::sir::tys_view(ts@)),
    ensures
        strs_view(r@) == smt_tys(crate::sir::tys_view(ts@)),
    decreases ts, 0int,
{
    let ghost tv = crate::sir::tys_view(ts@);
    proof {
        crate::sir::lemma_tys_view(ts@);
        lemma_wf_sorts(tv);
        lemma_smt_tys(tv);
    }
    let mut out: Vec<String> = Vec::new();
    let mut i: usize = 0;
    while i < ts.len()
        invariant
            i <= ts@.len(),
            strs_view(out@) == smt_tys(tv.take(i as int)),
        decreases ts@.len() - i,
    {
        proof {
            assert(tv[i as int] == crate::sir::ty_view(ts@[i as int]));
            assert(wf_sort(tv[i as int]));
        }
        let s = ty_to_smtlib(&ts[i]);
        let ghost pre = out@;
        let ghost sv = s@;
        out.push(s);
        proof {
            assert(strs_view(out@) == strs_view(pre).push(sv)) by {
                assert(out@.drop_last() =~= pre);
            }
            assert(tv.take(i + 1).drop_last() =~= tv.take(i as int));
            assert(tv.take(i + 1).last() == tv[i as int]);
        }
        i = i + 1;
    }
    proof {
        assert(tv.take(ts@.len() as int) =~= tv);
    }
    out
}

/// Render a leaf value.
fn value_to_smtlib(v: &Value) -> (r: String)
    requires
        wf_smt_value(crate::sir::value_view(*v)),
    ensures
        r@ == smt_value(crate::sir::value_view(*v)),
{
    match v {
        Value::Arg(n, _) => {
            let mut out = "x".to_owned();
            let d = usize_dec(*n);
            out.append(d.as_str());
            out
        },
        Value::Const(b, t) => match t {
            Ty::Bool => {
                if *b != 0 {
                    "true".to_owned()
                } else {
                    "false".to_owned()
                }
            },
            Ty::Int(n) => {
                let mut out = "(_ bv".to_owned();
                let d = u128_dec(*b);
                out.append(d.as_str());
                out.append(" ");
                let w = usize_dec(*n);
                out.append(w.as_str());
                out.append(")");
                proof {
                    assert(out@ =~= smt_value(crate::sir::value_view(*v)));
                }
                out
            },
            Ty::Uint(n) => {
                let mut out = "(_ bv".to_owned();
                let d = u128_dec(*b);
                out.append(d.as_str());
                out.append(" ");
                let w = usize_dec(*n);
                out.append(w.as_str());
                out.append(")");
                proof {
                    assert(out@ =~= smt_value(crate::sir::value_view(*v)));
                }
                out
            },
            _ => {
                proof {
                    // Unreachable: the precondition rules this shape out.
                    assert(false);
                }
                String::new()
            },
        },
        Value::Function(d, _) => {
            let mut out = "func_".to_owned();
            let s = usize_dec(*d);
            out.append(s.as_str());
            out
        },
        Value::ConstParam(p) => {
            let mut out = "p".to_owned();
            let s = usize_dec(p.0);
            out.append(s.as_str());
            out
        },
    }
}

/// Render an expression.
#[verifier::rlimit(60)]
fn expr_to_smtlib(e: &Expr) -> (r: String)
    requires
        wf_smt_expr(e@),
    ensures
        r@ == smt_expr(e@),
    decreases e, 1int,
{
    match e {
        Expr::Value(v) => value_to_smtlib(v),
        Expr::BinaryOp(op, a, b) => {
            let tok = match a.ty() {
                Some(t) => binop_token(op, &t),
                None => {
                    proof {
                        // Unreachable: a well-formed operand has a type.
                        assert(false);
                    }
                    ""
                },
            };
            let sa = expr_to_smtlib(&**a);
            let sb = expr_to_smtlib(&**b);
            let mut out = "(".to_owned();
            out.append(tok);
            out.append(" ");
            out.append(sa.as_str());
            out.append(" ");
            out.append(sb.as_str());
            out.append(")");
            proof {
                assert(out@ =~= smt_expr(e@));
            }
            out
        },
        Expr::Apply(fc, args) => {
            let sf = expr_to_smtlib(&**fc);
            let rendered = render_exprs(args);
            let joined = join_space_exec(&rendered);
            let mut out = "(".to_owned();
            out.append(sf.as_str());
            out.append(" ");
            out.append(joined.as_str());
            out.append(")");
            proof {
                assert(out@ =~= smt_expr(e@));
            }
            out
        },
        Expr::Switch(val, cs, bs) => {
            let ghost csv = exprs_view(cs@);
            let ghost bsv = exprs_view(bs@);
            proof {
                crate::sir::lemma_exprs_view(cs@);
                crate::sir::lemma_exprs_view(bs@);
                lemma_wf_smt_exprs(csv);
                lemma_wf_smt_exprs(bsv);
                lemma_smt_exprs(csv);
                lemma_smt_exprs(bsv);
            }
            let sv = expr_to_smtlib(&**val);
            let is_bool = match val.ty() {
                Some(t) => match t {
                    Ty::Bool => true,
                    _ => false,
                },
                None => false,
            };
            if is_bool && cs.len() == 1 && bs.len() == 2 {
                proof {
                    assert(bsv[0] == expr_view(bs@[0]) && bsv[1] == expr_view(bs@[1]));
                    assert(wf_smt_expr(bsv[0]) && wf_smt_expr(bsv[1]));
                }
                let s1 = expr_to_smtlib(&bs[1]);
                let s0 = expr_to_smtlib(&bs[0]);
                let mut out = "(ite ".to_owned();
                out.append(sv.as_str());
                out.append(" ");
                out.append(s1.as_str());
                out.append(" ");
                out.append(s0.as_str());
                out.append(")");
                proof {
                    assert(out@ =~= smt_expr(e@));
                }
                out
            } else {
                let rc = render_exprs(cs);
                let rb = render_exprs(bs);
                proof {
                    lemma_strs_view(rc@);
                    lemma_strs_view(rb@);
                }
                let r = ite_chain_from(&sv, &rc, &rb, 0);
                proof {
                    assert(r@ == smt_expr(e@));
                }
                r
            }
        },
        Expr::Tuple(fields) => {
            let ghost fv = exprs_view(fields@);
            proof {
                crate::sir::lemma_exprs_view(fields@);
                lemma_wf_smt_exprs(fv);
                lemma_smt_exprs(fv);
            }
            let rendered = render_exprs(fields);
            let r = nest_expr_from(&rendered, 0);
            proof {
                lemma_strs_view(rendered@);
                assert(strs_view(rendered@).subrange(0, rendered@.len() as int) =~= strs_view(
                    rendered@,
                ));
            }
            r
        },
        Expr::Projection(t, i) => {
            let st = expr_to_smtlib(&**t);
            if *i == 0 {
                let mut out = "(first ".to_owned();
                out.append(st.as_str());
                out.append(")");
                proof {
                    assert(out@ =~= smt_expr(e@));
                }
                out
            } else {
                let mut out = "(second ".to_owned();
                out.append(st.as_str());
                out.append(")");
                proof {
                    assert(out@ =~= smt_expr(e@));
                }
                out
            }
        },
        Expr::Just(inner) => {
            let si = expr_to_smtlib(&**inner);
            let mut out = "(just ".to_owned();
            out.append(si.as_str());
            out.append(")");
            proof {
                assert(out@ =~= smt_expr(e@));
            }
            out
        },
        Expr::Nothing(_) => "nothing".to_owned(),
        Expr::Uninitialized => {
            proof {
                // Unreachable: the precondition rules this shape out.
                assert(false);
            }
            String::new()
        },
    }
}

/// Render each expression of a list.
#[verifier::loop_isolation(false)]
fn render_exprs(es: &Vec<Expr>) -> (r: Vec<String>)
    requires
        wf_smt_exprs(exprs_view(es@)),
    ensures
        strs_view(r@) == smt_exprs(exprs_view(es@)),
    decreases es, 0int,
{
    let ghost ev = exprs_view(es@);
    proof {
        crate::sir::lemma_exprs_view(es@);
        lemma_wf_smt_exprs(ev);
        lemma_smt_exprs(ev);
    }
    let mut out: Vec<String> = Vec::new();
    let mut i: usize = 0;
    while i < es.len()
        invariant
            i <= es@.len(),
            strs_view(out@) == smt_exprs(ev.take(i as int)),
        decreases es@.len() - i,
    {
        proof {
            assert(ev[i as int] == expr_view(es@[i as int]));
            assert(wf_smt_expr(ev[i as int]));
        }
        let s = expr_to_smtlib(&es[i]);
        let ghost pre = out@;
        let ghost sv = s@;
        out.push(s);
        proof {
            assert(strs_view(out@) == strs_view(pre).push(sv)) by {
                assert(out@.drop_last() =~= pre);
            }
            assert(ev.take(i + 1).drop_last() =~= ev.take(i as int));
            assert(ev.take(i + 1).last() == ev[i as int]);
        }
        i = i + 1;
    }
    proof {
        assert(ev.take(es@.len() as int) =~= ev);
    }
    out
}

/// Render a whole definition.
#[verifier::loop_isolation(false)]
#[verifier::rlimit(60)]
fn funcdef_to_smtlib(fd: &FuncDef) -> (r: String)
    requires
        wf_smt_funcdef(fd@),
    ensures
        r@ == smt_funcdef(fd@),
{
    match &fd.ty {
        Ty::Func(args, params) => {
            let ghost argsv = crate::sir::tys_view(args@);
            let ghost paramsv = crate::sir::params_view(params@);
            proof {
                crate::sir::lemma_tys_view(args@);
                crate::sir::lemma_params_view(params@);
                lemma_wf_sorts(argsv);
                lemma_wf_param_sorts(paramsv);
                lemma_param_decls(paramsv);
            }
            let mut pieces: Vec<String> = Vec::new();
            let mut i: usize = 1;
            while i < args.len()
                invariant
                    1 <= i <= args@.len(),
                    strs_view(pieces@) == arg_decls_upto(argsv, i as int),
                decreases args@.len() - i,
            {
                proof {
                    assert(argsv[i as int] == crate::sir::ty_view(args@[i as int]));
                    assert(wf_sort(argsv[i as int]));
                }
                let mut piece = "(x".to_owned();
                let d = usize_dec(i);
                piece.append(d.as_str());
                piece.append(" ");
                let s = ty_to_smtlib(&args[i]);
                piece.append(s.as_str());
                piece.append(")");
                let ghost pre = pieces@;
                let ghost pv = piece@;
                pieces.push(piece);
                proof {
                    assert(strs_view(pieces@) == strs_view(pre).push(pv)) by {
                        assert(pieces@.drop_last() =~= pre);
                    }
                    assert(pv =~= arg_decl(i as int, argsv[i as int]));
                }
                i = i + 1;
            }
            let mut j: usize = 0;
            while j < params.len()
                invariant
                    j <= params@.len(),
                    strs_view(pieces@) == arg_decls_upto(argsv, args@.len() as int)
                        + param_decls(paramsv.take(j as int)),
                decreases params@.len() - j,
            {
                proof {
                    assert(paramsv[j as int] == crate::sir::param_view(params@[j as int]));
                    assert(wf_sort(paramsv[j as int].1));
                }
                let mut piece = "(p".to_owned();
                let d = usize_dec(params[j].0);
                piece.append(d.as_str());
                piece.append(" ");
                let s = ty_to_smtlib(&params[j].1);
                piece.append(s.as_str());
                piece.append(")");
                let ghost pre = pieces@;
                let ghost pv = piece@;
                pieces.push(piece);
                proof {
                    assert(strs_view(pieces@) == strs_view(pre).push(pv)) by {
                        assert(pieces@.drop_last() =~= pre);
                    }
                    assert(pv =~= param_decl(paramsv[j as int]));
                    assert(paramsv.take(j + 1).drop_last() =~= paramsv.take(j as int));
                    assert(paramsv.take(j + 1).last() == paramsv[j as int]);
                    assert(strs_view(pieces@) =~= arg_decls_upto(argsv, args@.len() as int)
                        + param_decls(paramsv.take(j + 1)));
                }
                j = j + 1;
            }
            proof {
                assert(paramsv.take(params@.len() as int) =~= paramsv);
            }
            let decls = join_space_exec(&pieces);
            proof {
                assert(argsv[0] == crate::sir::ty_view(args@[0]));
                assert(wf_sort(argsv[0]));
            }
            let ret = ty_to_smtlib(&args[0]);
            let body = expr_to_smtlib(&fd.body);
            let rec = fd.is_recursive();
            let mut out = "(".to_owned();
            if rec {
                out.append("define-fun-rec");
            } else {
                out.append("define-fun");
            }
            out.append(" func_");
            let name_digits = usize_dec(fd.def_id);
            out.append(name_digits.as_str());
            out.append(" (");
            out.append(decls.as_str());
            out.append(") ");
            out.append(ret.as_str());
            out.append(" ");
            out.append(body.as_str());
            out.append(")");
            proof {
                reveal_strlit(" func_");
                reveal_strlit("func_");
                reveal_strlit(" ");
                assert(" func_"@ =~= " "@ + "func_"@);
                assert(out@ =~= smt_funcdef(fd@));
            }
            out
        },
        _ => {
            proof {
                // Unreachable: the precondition rules this shape out.
                assert(false);
            }
            String::new()
        },
    }
}

impl ToSmtlib for Ty {
    open spec fn smt_wf(&self) -> bool {
        wf_sort(ty_view(*self))
    }

    open spec fn smt_spec(&self) -> Seq<char> {
        smt_ty(ty_view(*self))
    }

    fn to_smtlib(&self) -> (r: String) {
        ty_to_smtlib(self)
    }
}

impl ToSmtlib for Param {
    open spec fn smt_wf(&self) -> bool {
        true
    }

    open spec fn smt_spec(&self) -> Seq<char> {
        "p"@ + dec_str(self.0 as int)
    }

    fn to_smtlib(&self) -> (r: String) {
        let mut out = "p".to_owned();
        let d = usize_dec(self.0);
        out.append(d.as_str());
        out
    }
}

impl ToSmtlib for Value {
    open spec fn smt_wf(&self) -> bool {
        wf_smt_value(crate::sir::value_view(*self))
    }

    open spec fn smt_spec(&self) -> Seq<char> {
        smt_value(crate::sir::value_view(*self))
    }

    fn to_smtlib(&self) -> (r: String) {
        value_to_smtlib(self)
    }
}

impl ToSmtlib for Expr {
    open spec fn smt_wf(&self) -> bool {
        wf_smt_expr(expr_view(*self))
    }

    open spec fn smt_spec(&self) -> Seq<char> {
        smt_expr(expr_view(*self))
    }

    fn to_smtlib(&self) -> (r: String) {
        expr_to_smtlib(self)
    }
}

impl ToSmtlib for FuncDef {
    open spec fn smt_wf(&self) -> bool {
        wf_smt_funcdef(self@)
    }

    open spec fn smt_spec(&self) -> Seq<char> {
        smt_funcdef(self@)
    }

    fn to_smtlib(&self) -> (r: String) {
        funcdef_to_smtlib(self)
    }
}


// ---------------------------------------------------------------------------
// Recursion tagging.
// ---------------------------------------------------------------------------

/// A body that applies the definition's own function value anywhere makes
/// the definition recursive.
pub proof fn lemma_self_application_is_recursive(fd: FuncDefV, args: Seq<ExprV>)
    requires
        crate::sir::contains_v(
            fd.body,
            ExprV::Apply(
                Box::new(ExprV::Value(ValueV::Function(fd.def_id, fd.ty))),
                args,
            ),
        ),
    ensures
        spec_is_recursive(fd),
{
    let callee = ExprV::Value(ValueV::Function(fd.def_id, fd.ty));
    let app = ExprV::Apply(Box::new(callee), args);
    assert(crate::sir::contains_v(callee, callee));
    assert(crate::sir::contains_v(app, callee));
    crate::sir::lemma_contains_trans(fd.body, app, callee);
}

/// A recursive definition is emitted with the solver's recursive form,
/// and a non-recursive one with the plain form.
pub proof fn lemma_recursive_definition_form(fd: FuncDefV)
    requires
        wf_smt_funcdef(fd),
    ensures
        spec_is_recursive(fd) ==> smt_funcdef(fd).subrange(0, 16) == "(define-fun-rec "@,
        !spec_is_recursive(fd) ==> smt_funcdef(fd).subrange(0, 12) == "(define-fun "@,
{
    reveal_strlit("(define-fun-rec ");
    reveal_strlit("(define-fun ");
    reveal_strlit("(");
    reveal_strlit("define-fun-rec");
    reveal_strlit("define-fun");
    reveal_strlit(" ");
    if spec_is_recursive(fd) {
        assert(smt_funcdef(fd).subrange(0, 16) =~= "(define-fun-rec "@);
    } else {
        assert(smt_funcdef(fd).subrange(0, 12) =~= "(define-fun "@);
    }
}

} // verus!
