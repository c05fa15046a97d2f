//! The debug pretty-printer: parenthesized prefix notation.
//!
//! A definition renders as `(defun NAME (ARGTYPES) TYPE BODY)`, binary
//! operations as `(OP LHS RHS)` with the usual arithmetic and comparison
//! tokens, switches as `(switch VAL (CASE -> TARGET)... (else ->
//! DEFAULT))`, tuples as `(tuple E...)`, projections as `(proj E INDEX)`,
//! and constants as `(const TYPE VALUE)`. The format is informational,
//! but it is still specified exactly.

use vstd::prelude::*;
use vstd::string::StringExecFns;

use crate::mir::BinOp;
use crate::sir::exprs_view;
use crate::sir::expr_view;
use crate::sir::tys_view;
use crate::sir::Expr;
use crate::sir::ExprV;
use crate::sir::FuncDef;
use crate::sir::FuncDefV;
use crate::sir::Param;
use crate::sir::Ty;
use crate::sir::TyV;
use crate::sir::Value;
use crate::sir::ValueV;
use crate::smtlib::dec_str;
use crate::smtlib::func_name;
use crate::smtlib::join_space;
use crate::smtlib::join_space_exec;
use crate::smtlib::lemma_strs_view;
use crate::smtlib::strs_view;
use crate::smtlib::u128_dec;
use crate::smtlib::usize_dec;

verus! {

// ---------------------------------------------------------------------------
// The text, at the specification level.
// ---------------------------------------------------------------------------

pub open spec fn disp_ty(t: TyV) -> Seq<char>
    decreases t, 0int,
{
    match t {
        TyV::Int(n) => "(int "@ + dec_str(n as int) + ")"@,
        TyV::Uint(n) => "(uint "@ + dec_str(n as int) + ")"@,
        TyV::Bool => "bool"@,
        TyV::Func(args, _) => join_space(disp_tys(args)),
        TyV::Tuple(fields) => "(tuple "@ + join_space(disp_tys(fields)) + ")"@,
        TyV::Maybe(inner) => "(maybe "@ + disp_ty(*inner) + ")"@,
    }
}

pub open spec fn disp_tys(ts: Seq<TyV>) -> Seq<Seq<char>>
    decreases ts, 0int,
{
    if ts.len() == 0 {
        Seq::empty()
    } else {
        disp_tys(ts.drop_last()).push(disp_ty(ts.last()))
    }
}

pub proof fn lemma_disp_tys(ts: Seq<TyV>)
    ensures
        disp_tys(ts).len() == ts.len(),
        forall|i: int| 0 <= i < ts.len() ==> disp_tys(ts)[i] == disp_ty(ts[i]),
    decreases ts,
{
    if ts.len() > 0 {
        lemma_disp_tys(ts.drop_last());
    }
}

pub open spec fn disp_value(v: ValueV) -> Seq<char> {
    match v {
        ValueV::Arg(n, _) => "_"@ + dec_str(n as int),
        ValueV::Const(b, t) => "(const "@ + disp_ty(t) + " "@ + dec_str(b as int) + ")"@,
        ValueV::Function(d, _) => func_name(d as int),
        ValueV::ConstParam(p) => "p"@ + dec_str(p.0 as int),
    }
}

/// The operator tokens of the prefix notation.
pub open spec fn disp_op(op: BinOp) -> Seq<char> {
    match op {
        BinOp::Add => "+"@,
        BinOp::Sub => "-"@,
        BinOp::Mul => "*"@,
        BinOp::Div => "/"@,
        BinOp::Rem => "%"@,
        BinOp::Eq => "="@,
        BinOp::Lt => "<"@,
        BinOp::Le => "<="@,
        BinOp::Ne => "!="@,
        BinOp::Ge => ">="@,
        BinOp::Gt => ">"@,
    }
}

/// The `(CASE -> TARGET)` pairs of a switch, over rendered pieces.
pub open spec fn disp_pairs(cs: Seq<Seq<char>>, bs: Seq<Seq<char>>, i: int) -> Seq<Seq<char>>
    decreases i,
{
    if i <= 0 {
        Seq::empty()
    } else {
        disp_pairs(cs, bs, i - 1).push("("@ + cs[i - 1] + " -> "@ + bs[i - 1] + ")"@)
    }
}

pub open spec fn disp_expr(e: ExprV) -> Seq<char>
    decreases e, 0int,
{
    match e {
        ExprV::Value(v) => disp_value(v),
        ExprV::Apply(f, args) => "("@ + disp_expr(*f) + " "@ + join_space(disp_exprs(args))
            + ")"@,
        ExprV::BinaryOp(op, a, b) => "("@ + disp_op(op) + " "@ + disp_expr(*a) + " "@
            + disp_expr(*b) + ")"@,
        ExprV::Switch(d, cs, bs) => "(switch "@ + disp_expr(*d) + " "@ + join_space(
            disp_pairs(disp_exprs(cs), disp_exprs(bs), cs.len() as int),
        ) + " (else -> "@ + disp_exprs(bs).last() + "))"@,
        ExprV::Tuple(fields) => "(tuple "@ + join_space(disp_exprs(fields)) + ")"@,
        ExprV::Projection(t, i) => "(proj "@ + disp_expr(*t) + " "@ + dec_str(i as int) + ")"@,
        ExprV::Just(inner) => "(just "@ + disp_expr(*inner) + ")"@,
        ExprV::Nothing(t) => "(nothing "@ + disp_ty(t) + ")"@,
        ExprV::Uninitialized => "uninitialized"@,
    }
}

pub open spec fn disp_exprs(es: Seq<ExprV>) -> Seq<Seq<char>>
    decreases es, 0int,
{
    if es.len() == 0 {
        Seq::empty()
    } else {
        disp_exprs(es.drop_last()).push(disp_expr(es.last()))
    }
}

pub proof fn lemma_disp_exprs(es: Seq<ExprV>)
    ensures
        disp_exprs(es).len() == es.len(),
        forall|i: int| 0 <= i < es.len() ==> disp_exprs(es)[i] == disp_expr(es[i]),
    decreases es,
{
    if es.len() > 0 {
        lemma_disp_exprs(es.drop_last());
    }
}

/// `(defun NAME (ARGTYPES) TYPE BODY)`: the runtime argument types, then
/// the return type taken from slot 0, then the body.
pub open spec fn disp_funcdef(fd: FuncDefV) -> Seq<char> {
    match fd.ty {
        TyV::Func(args, _) => "(defun "@ + func_name(fd.def_id as int) + " ("@ + join_space(
            disp_tys(args.drop_first()),
        ) + ") "@ + (if args.len() > 0 {
            disp_ty(args[0])
        } else {
            Seq::empty()
        }) + " "@ + disp_expr(fd.body) + ")"@,
        _ => Seq::empty(),
    }
}

/// What the printer accepts: every switch carries one more branch than
/// guards, so the default branch exists.
pub open spec fn wf_disp(e: ExprV) -> bool
    decreases e, 0int,
{
    match e {
        ExprV::Apply(f, args) => wf_disp(*f) && wf_disps(args),
        ExprV::BinaryOp(_, a, b) => wf_disp(*a) && wf_disp(*b),
        ExprV::Switch(d, cs, bs) => wf_disp(*d) && wf_disps(cs) && wf_disps(bs) && bs.len()
            == cs.len() + 1,
        ExprV::Tuple(fields) => wf_disps(fields),
        ExprV::Projection(t, _) => wf_disp(*t),
        ExprV::Just(inner) => wf_disp(*inner),
        _ => true,
    }
}

pub open spec fn wf_disps(es: Seq<ExprV>) -> bool
    decreases es, 0int,
{
    es.len() == 0 || (wf_disps(es.drop_last()) && wf_disp(es.last()))
}

pub proof fn lemma_wf_disps(es: Seq<ExprV>)
    requires
        wf_disps(es),
    ensures
        forall|i: int| 0 <= i < es.len() ==> wf_disp(es[i]),
    decreases es,
{
    if es.len() > 0 {
        lemma_wf_disps(es.drop_last());
        assert forall|i: int| 0 <= i < es.len() implies wf_disp(es[i]) by {
            if i < es.len() - 1 {
                assert(es.drop_last()[i] == es[i]);
                assert(wf_disp(es.drop_last()[i]));
            } else {
                assert(es[i] == es.last());
            }
        }
    }
}

// ---------------------------------------------------------------------------
// The executable printer.
// ---------------------------------------------------------------------------

impl Ty {
    /// The prefix-notation text of this type.
    pub fn to_text(&self) -> (r: String)
        ensures
            r@ == disp_ty(self@),
        decreases self, 1int,
    {
        match self {
            Ty::Int(n) => {
                let mut out = "(int ".to_owned();
                let d = usize_dec(*n);
                out.append(d.as_str());
                out.append(")");
                proof {
                    assert(out@ =~= disp_ty(self@));
                }
                out
            },
            Ty::Uint(n) => {
                let mut out = "(uint ".to_owned();
                let d = usize_dec(*n);
                out.append(d.as_str());
                out.append(")");
                proof {
                    assert(out@ =~= disp_ty(self@));
                }
                out
            },
            Ty::Bool => "bool".to_owned(),
            Ty::Func(args, _) => {
                let rendered = render_ty_texts(args);
                join_space_exec(&rendered)
            },
            Ty::Tuple(fields) => {
                let rendered = render_ty_texts(fields);
                let joined = join_space_exec(&rendered);
                let mut out = "(tuple ".to_owned();
                out.append(joined.as_str());
                out.append(")");
                proof {
                    assert(out@ =~= disp_ty(self@));
                }
                out
            },
            Ty::Maybe(inner) => {
                let s = inner.to_text();
                let mut out = "(maybe ".to_owned();
                out.append(s.as_str());
                out.append(")");
                proof {
                    assert(out@ =~= disp_ty(self@));
                }
                out
            },
        }
    }
}

#[verifier::loop_isolation(false)]
fn render_ty_texts(ts: &Vec<Ty>) -> (r: Vec<String>)
    ensures
        strs_view(r@) == disp_tys(tys_view(ts@)),
    decreases ts, 0int,
{
    let ghost tv = tys_view(ts@);
    proof {
        crate::sir::lemma_tys_view(ts@);
        lemma_disp_tys(tv);
    }
    let mut out: Vec<String> = Vec::new();
    let mut i: usize = 0;
    while i < ts.len()
        invariant
            i <= ts@.len(),
            strs_view(out@) == disp_tys(tv.take(i as int)),
        decreases ts@.len() - i,
    {
        let s = ts[i].to_text();
        let ghost pre = out@;
        let ghost sv = s@;
        out.push(s);
        proof {
            assert(strs_view(out@) == strs_view(pre).push(sv)) by {
                assert(out@.drop_last() =~= pre);
            }
            assert(tv.take(i + 1).drop_last() =~= tv.take(i as int));
            assert(tv.take(i + 1).last() == tv[i as int]);
        }
        i = i + 1;
    }
    proof {
        assert(tv.take(ts@.len() as int) =~= tv);
    }
    out
}

impl Value {
    /// The prefix-notation text of this leaf.
    pub fn to_text(&self) -> (r: String)
        ensures
            r@ == disp_value(self@),
    {
        match self {
            Value::Arg(n, _) => {
                let mut out = "_".to_owned();
                let d = usize_dec(*n);
                out.append(d.as_str());
                out
            },
            Value::Const(b, t) => {
                let ts = t.to_text();
                let mut out = "(const ".to_owned();
                out.append(ts.as_str());
                out.append(" ");
                let d = u128_dec(*b);
                out.append(d.as_str());
                out.append(")");
                proof {
                    assert(out@ =~= disp_value(self@));
                }
                out
            },
            Value::Function(d, _) => {
                let mut out = "func_".to_owned();
                let s = usize_dec(*d);
                out.append(s.as_str());
                out
            },
            Value::ConstParam(p) => {
                let mut out = "p".to_owned();
                let s = usize_dec(p.0);
                out.append(s.as_str());
                out
            },
        }
    }
}

/// The token of an operator.
fn op_text(op: &BinOp) -> (r: &'static str)
    ensures
        r@ == disp_op(*op),
{
    match op {
        BinOp::Add => "+",
        BinOp::Sub => "-",
        BinOp::Mul => "*",
        BinOp::Div => "/",
        BinOp::Rem => "%",
        BinOp::Eq => "=",
        BinOp::Lt => "<",
        BinOp::Le => "<=",
        BinOp::Ne => "!=",
        BinOp::Ge => ">=",
        BinOp::Gt => ">",
    }
}

impl Expr {
    /// The prefix-notation text of this expression.
    #[verifier::loop_isolation(false)]
    #[verifier::rlimit(60)]
    pub fn to_text(&self) -> (r: String)
        requires
            wf_disp(self@),
        ensures
            r@ == disp_expr(self@),
        decreases self, 1int,
    {
        match self {
            Expr::Value(v) => v.to_text(),
            Expr::Apply(f, args) => {
                let sf = f.to_text();
                let rendered = render_expr_texts(args);
                let joined = join_space_exec(&rendered);
                let mut out = "(".to_owned();
                out.append(sf.as_str());
                out.append(" ");
                out.append(joined.as_str());
                out.append(")");
                proof {
                    assert(out@ =~= disp_expr(self@));
                }
                out
            },
            Expr::BinaryOp(op, a, b) => {
                let sa = a.to_text();
                let sb = b.to_text();
                let mut out = "(".to_owned();
                out.append(op_text(op));
                out.append(" ");
                out.append(sa.as_str());
                out.append(" ");
                out.append(sb.as_str());
                out.append(")");
                proof {
                    assert(out@ =~= disp_expr(self@));
                }
                out
            },
            Expr::Switch(d, cs, bs) => {
                let ghost csv = exprs_view(cs@);
                let ghost bsv = exprs_view(bs@);
                proof {
                    crate::sir::lemma_exprs_view(cs@);
                    crate::sir::lemma_exprs_view(bs@);
                    lemma_disp_exprs(csv);
                    lemma_disp_exprs(bsv);
                }
                let sd = d.to_text();
                let rc = render_expr_texts(cs);
                let rb = render_expr_texts(bs);
                proof {
                    lemma_strs_view(rc@);
                    lemma_strs_view(rb@);
                }
                let mut pairs: Vec<String> = Vec::new();
                let mut i: usize = 0;
                while i < rc.len()
                    invariant
                        i <= rc@.len(),
                        rc@.len() < rb@.len(),
                        strs_view(pairs@) == disp_pairs(
                            strs_view(rc@),
                            strs_view(rb@),
                            i as int,
                        ),
                    decreases rc@.len() - i,
                {
                    let mut piece = "(".to_owned();
                    piece.append(rc[i].as_str());
                    piece.append(" -> ");
                    piece.append(rb[i].as_str());
                    piece.append(")");
                    let ghost pre = pairs@;
                    let ghost pv = piece@;
                    pairs.push(piece);
                    proof {
                        assert(strs_view(pairs@) == strs_view(pre).push(pv)) by {
                            assert(pairs@.drop_last() =~= pre);
                        }
                    }
                    i = i + 1;
                }
                let joined = join_space_exec(&pairs);
                let last = rb[rb.len() - 1].clone();
                let mut out = "(switch ".to_owned();
                out.append(sd.as_str());
                out.append(" ");
                out.append(joined.as_str());
                out.append(" (else -> ");
                out.append(last.as_str());
                out.append("))");
                proof {
                    assert(strs_view(rb@).last() == rb@[rb@.len() - 1]@);
                    assert(out@ =~= disp_expr(self@));
                }
                out
            },
            Expr::Tuple(fields) => {
                let rendered = render_expr_texts(fields);
                let joined = join_space_exec(&rendered);
                let mut out = "(tuple ".to_owned();
                out.append(joined.as_str());
                out.append(")");
                proof {
                    assert(out@ =~= disp_expr(self@));
                }
                out
            },
            Expr::Projection(t, i) => {
                let st = t.to_text();
                let mut out = "(proj ".to_owned();
                out.append(st.as_str());
                out.append(" ");
                let d = usize_dec(*i);
                out.append(d.as_str());
                out.append(")");
                proof {
                    assert(out@ =~= disp_expr(self@));
                }
                out
            },
            Expr::Just(inner) => {
                let si = inner.to_text();
                let mut out = "(just ".to_owned();
                out.append(si.as_str());
                out.append(")");
                proof {
                    assert(out@ =~= disp_expr(self@));
                }
                out
            },
            Expr::Nothing(t) => {
                let ts = t.to_text();
                let mut out = "(nothing ".to_owned();
                out.append(ts.as_str());
                out.append(")");
                proof {
                    assert(out@ =~= disp_expr(self@));
                }
                out
            },
            Expr::Uninitialized => "uninitialized".to_owned(),
        }
    }
}

#[verifier::loop_isolation(false)]
fn render_expr_texts(es: &Vec<Expr>) -> (r: Vec<String>)
    requires
        wf_disps(exprs_view(es@)),
    ensures
        strs_view(r@) == disp_exprs(exprs_view(es@)),
    decreases es, 0int,
{
    let ghost ev = exprs_view(es@);
    proof {
        crate::sir::lemma_exprs_view(es@);
        lemma_wf_disps(ev);
        lemma_disp_exprs(ev);
    }
    let mut out: Vec<String> = Vec::new();
    let mut i: usize = 0;
    while i < es.len()
        invariant
            i <= es@.len(),
            strs_view(out@) == disp_exprs(ev.take(i as int)),
        decreases es@.len() - i,
    {
        proof {
            assert(ev[i as int] == expr_view(es@[i as int]));
            assert(wf_disp(ev[i as int]));
        }
        let s = es[i].to_text();
        let ghost pre = out@;
        let ghost sv = s@;
        out.push(s);
        proof {
            assert(strs_view(out@) == strs_view(pre).push(sv)) by {
                assert(out@.drop_last() =~= pre);
            }
            assert(ev.take(i + 1).drop_last() =~= ev.take(i as int));
            assert(ev.take(i + 1).last() == ev[i as int]);
        }
        i = i + 1;
    }
    proof {
        assert(ev.take(es@.len() as int) =~= ev);
    }
    out
}

impl Param {
    /// The prefix-notation text of this parameter: `(pN TYPE)`.
    pub fn to_text(&self) -> (r: String)
        ensures
            r@ == "(p"@ + dec_str(self.0 as int) + " "@ + disp_ty(self.1@) + ")"@,
    {
        let mut out = "(p".to_owned();
        let d = usize_dec(self.0);
        out.append(d.as_str());
        out.append(" ");
        let ts = self.1.to_text();
        out.append(ts.as_str());
        out.append(")");
        out
    }
}

impl FuncDef {
    /// The prefix-notation text of this definition.
    #[verifier::loop_isolation(false)]
    #[verifier::rlimit(60)]
    pub fn to_text(&self) -> (r: String)
        requires
            self@.ty is Func,
            (match self@.ty {
                TyV::Func(args, _) => args.len() >= 1,
                _ => false,
            }),
            wf_disp(self@.body),
        ensures
            r@ == disp_funcdef(self@),
    {
        match &self.ty {
            Ty::Func(args, _) => {
                let ghost argsv = tys_view(args@);
                proof {
                    crate::sir::lemma_tys_view(args@);
                    lemma_disp_tys(argsv);
                }
                let mut rest: Vec<String> = Vec::new();
                let mut i: usize = 1;
                while i < args.len()
                    invariant
                        1 <= i <= args@.len(),
                        strs_view(rest@) == disp_tys(argsv.drop_first().take(i - 1)),
                    decreases args@.len() - i,
                {
                    let s = args[i].to_text();
                    let ghost pre = rest@;
                    let ghost sv = s@;
                    rest.push(s);
                    proof {
                        assert(strs_view(rest@) == strs_view(pre).push(sv)) by {
                            assert(rest@.drop_last() =~= pre);
                        }
                        assert(argsv.drop_first().take(i as int).drop_last()
                            =~= argsv.drop_first().take(i - 1));
                        assert(argsv.drop_first().take(i as int).last() == argsv[i as int]);
                        assert(sv == disp_ty(argsv.drop_first().take(i as int).last()));
                    }
                    i = i + 1;
                }
                proof {
                    assert(argsv.drop_first().take(args@.len() - 1) =~= argsv.drop_first());
                }
                let joined = join_space_exec(&rest);
                let ret = args[0].to_text();
                let body = self.body.to_text();
                let mut out = "(defun func_".to_owned();
                let name_digits = usize_dec(self.def_id);
                out.append(name_digits.as_str());
                out.append(" (");
                out.append(joined.as_str());
                out.append(") ");
                out.append(ret.as_str());
                out.append(" ");
                out.append(body.as_str());
                out.append(")");
                proof {
                    reveal_strlit("(defun func_");
                    reveal_strlit("(defun ");
                    reveal_strlit("func_");
                    assert("(defun func_"@ =~= "(defun "@ + "func_"@);
                    assert(out@ =~= disp_funcdef(self@));
                }
                out
            },
            _ => {
                proof {
                    // Unreachable: the precondition rules this shape out.
                    assert(false);
                }
                String::new()
            },
        }
    }
}

} // verus!
