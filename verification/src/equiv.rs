//! The equivalence query builder.
//!
//! Two finished definitions are compared by one solver script: the
//! generic datatypes, a constant per concrete tuple instantiation found
//! in either body, both definitions, a single closed assertion that the
//! two functions agree on all inputs, and a satisfiability check. When
//! the signatures differ the functions cannot be equivalent and no script
//! is produced at all, which [`lemma_signature_short_circuit`] states.
//! The solver's first line classifies as [`CheckResult`].

use vstd::prelude::*;
use vstd::string::StringExecFns;

use crate::sir::expr_ty_v;
use crate::sir::exprs_view;
use crate::sir::ty_eq;
use crate::sir::ty_view;
use crate::sir::tys_eq;
use crate::sir::tys_view;
use crate::sir::params_eq;
use crate::sir::params_view;
use crate::sir::Expr;
use crate::sir::ExprV;
use crate::sir::FuncDef;
use crate::sir::FuncDefV;
use crate::sir::Param;
use crate::sir::ParamV;
use crate::sir::Ty;
use crate::sir::TyV;
use crate::smtlib::arg_decl;
use crate::smtlib::arg_decls_upto;
use crate::smtlib::dec_str;
use crate::smtlib::func_name;
use crate::smtlib::join_space;
use crate::smtlib::join_space_exec;
use crate::smtlib::lemma_param_decls;
use crate::smtlib::lemma_wf_param_sorts;
use crate::smtlib::lemma_wf_sorts;
use crate::smtlib::param_decl;
use crate::smtlib::param_decls;
use crate::smtlib::smt_funcdef;
use crate::smtlib::smt_ty;
use crate::smtlib::strs_view;
use crate::smtlib::u128_dec;
use crate::smtlib::usize_dec;
use crate::smtlib::wf_smt_funcdef;
use crate::smtlib::wf_sort;
use crate::smtlib::wf_sorts;
use crate::smtlib::ToSmtlib;

verus! {

/// The classified answer of an equivalence check.
///
/// `Sat` means the two functions are provably equivalent for all inputs,
/// `Unsat` that they provably differ on some input, `Undecided` that the
/// solver could not decide, and `Unknown` preserves any other response
/// verbatim.
#[derive(Debug, PartialEq, Eq)]
pub enum CheckResult {
    Sat,
    Unsat,
    Undecided,
    Unknown(String),
}

impl CheckResult {
    /// Classify the text a solver answered.
    pub fn from_string(s: String) -> (r: CheckResult)
        ensures
            s@ == "sat\n"@ ==> r is Sat,
            s@ != "sat\n"@ && s@ == "unsat\n"@ ==> r is Unsat,
            s@ != "sat\n"@ && s@ != "unsat\n"@ && s@ == "unknown\n"@ ==> r is Undecided,
            s@ != "sat\n"@ && s@ != "unsat\n"@ && s@ != "unknown\n"@ ==> (r matches
                CheckResult::Unknown(raw) && raw@ == s@),
    {
        if s == "sat\n".to_owned() {
            CheckResult::Sat
        } else if s == "unsat\n".to_owned() {
            CheckResult::Unsat
        } else if s == "unknown\n".to_owned() {
            CheckResult::Undecided
        } else {
            CheckResult::Unknown(s)
        }
    }
}

// ---------------------------------------------------------------------------
// Concrete tuple instantiations occurring in a body.
// ---------------------------------------------------------------------------

/// Collect, bottom-up, the tuple types of subexpressions into `acc`,
/// keeping the first occurrence of each.
pub open spec fn collect_inst(acc: Seq<TyV>, e: ExprV) -> Seq<TyV>
    decreases e,
{
    let acc1 = match e {
        ExprV::Apply(f, args) => collect_inst_seq(collect_inst(acc, *f), args),
        ExprV::BinaryOp(_, a, b) => collect_inst(collect_inst(acc, *a), *b),
        ExprV::Switch(d, vals, branches) => collect_inst_seq(
            collect_inst_seq(collect_inst(acc, *d), vals),
            branches,
        ),
        ExprV::Tuple(fields) => collect_inst_seq(acc, fields),
        ExprV::Projection(t, _) => collect_inst(acc, *t),
        ExprV::Just(inner) => collect_inst(acc, *inner),
        _ => acc,
    };
    match expr_ty_v(e) {
        Some(t) => match t {
            TyV::Tuple(fields) => if acc1.contains(TyV::Tuple(fields)) {
                acc1
            } else {
                acc1.push(TyV::Tuple(fields))
            },
            _ => acc1,
        },
        _ => acc1,
    }
}

pub open spec fn collect_inst_seq(acc: Seq<TyV>, es: Seq<ExprV>) -> Seq<TyV>
    decreases es,
{
    if es.len() == 0 {
        acc
    } else {
        collect_inst(collect_inst_seq(acc, es.drop_last()), es.last())
    }
}

/// Record one tuple type, keeping the first occurrence of each.
#[verifier::loop_isolation(false)]
fn record_inst(acc: &mut Vec<Ty>, t: Ty)
    requires
        t@ is Tuple,
    ensures
        tys_view(final(acc)@) == (if tys_view(old(acc)@).contains(t@) {
            tys_view(old(acc)@)
        } else {
            tys_view(old(acc)@).push(t@)
        }),
{
    let ghost av = tys_view(acc@);
    proof {
        crate::sir::lemma_tys_view(acc@);
    }
    let mut k: usize = 0;
    while k < acc.len()
        invariant
            k <= acc@.len(),
            forall|j: int| 0 <= j < k ==> av[j] != t@,
        decreases acc@.len() - k,
    {
        if ty_eq(&acc[k], &t) {
            proof {
                assert(av[k as int] == t@);
                assert(av.contains(t@));
            }
            return ;
        }
        k = k + 1;
    }
    proof {
        assert(!av.contains(t@));
    }
    let ghost pre = acc@;
    let ghost tv = t@;
    acc.push(t);
    proof {
        assert(acc@.drop_last() =~= pre);
        assert(tys_view(acc@) == tys_view(pre).push(tv));
    }
}

/// Collect the tuple types of `e` and its subexpressions into `acc`.
fn collect_instances(acc: &mut Vec<Ty>, e: &Expr)
    ensures
        tys_view(final(acc)@) == collect_inst(tys_view(old(acc)@), e@),
    decreases e,
{
    match e {
        Expr::Apply(f, args) => {
            collect_instances(acc, &**f);
            collect_instances_seq(acc, args);
        },
        Expr::BinaryOp(_, a, b) => {
            collect_instances(acc, &**a);
            collect_instances(acc, &**b);
        },
        Expr::Switch(d, vals, branches) => {
            collect_instances(acc, &**d);
            collect_instances_seq(acc, vals);
            collect_instances_seq(acc, branches);
        },
        Expr::Tuple(fields) => {
            collect_instances_seq(acc, fields);
        },
        Expr::Projection(t, _) => {
            collect_instances(acc, &**t);
        },
        Expr::Just(inner) => {
            collect_instances(acc, &**inner);
        },
        _ => {},
    }
    match e.ty() {
        Some(t) => {
            let keep = match &t {
                Ty::Tuple(_) => true,
                _ => false,
            };
            if keep {
                record_inst(acc, t);
            }
        },
        None => {},
    }
}

#[verifier::loop_isolation(false)]
fn collect_instances_seq(acc: &mut Vec<Ty>, es: &Vec<Expr>)
    ensures
        tys_view(final(acc)@) == collect_inst_seq(tys_view(old(acc)@), exprs_view(es@)),
    decreases es,
{
    let ghost ev = exprs_view(es@);
    proof {
        crate::sir::lemma_exprs_view(es@);
    }
    let mut i: usize = 0;
    while i < es.len()
        invariant
            i <= es@.len(),
            tys_view(acc@) == collect_inst_seq(tys_view(old(acc)@), ev.take(i as int)),
        decreases es@.len() - i,
    {
        collect_instances(acc, &es[i]);
        proof {
            assert(ev.take(i + 1).drop_last() =~= ev.take(i as int));
            assert(ev.take(i + 1).last() == ev[i as int]);
        }
        i = i + 1;
    }
    proof {
        assert(ev.take(es@.len() as int) =~= ev);
    }
}

impl Expr {
    /// Every concrete tuple type a subexpression of this body has, in
    /// first-occurrence order.
    pub fn find_datatype_instances(&self) -> (r: Vec<Ty>)
        ensures
            tys_view(r@) == collect_inst(Seq::empty(), self@),
    {
        let mut acc: Vec<Ty> = Vec::new();
        collect_instances(&mut acc, self);
        acc
    }
}

// ---------------------------------------------------------------------------
// The equality assertion.
// ---------------------------------------------------------------------------

/// The bound-variable names of the runtime arguments `1..i`.
pub open spec fn arg_vars_upto(i: int) -> Seq<Seq<char>>
    decreases i,
{
    if i <= 1 {
        Seq::empty()
    } else {
        arg_vars_upto(i - 1).push("x"@ + dec_str(i - 1))
    }
}

/// The bound-variable names of the symbolic parameters.
pub open spec fn param_vars(ps: Seq<ParamV>) -> Seq<Seq<char>>
    decreases ps,
{
    if ps.len() == 0 {
        Seq::empty()
    } else {
        param_vars(ps.drop_last()).push("p"@ + dec_str(ps.last().0 as int))
    }
}

/// The one assertion of the script: with any runtime arguments or
/// parameters, a universally quantified equality of the two applications;
/// with none, a direct equality of the two constants.
pub open spec fn spec_equality_assertion(
    a: int,
    b: int,
    args: Seq<TyV>,
    params: Seq<ParamV>,
) -> Seq<char> {
    if args.len() + params.len() > 1 {
        let decls = join_space(arg_decls_upto(args, args.len() as int) + param_decls(params));
        let vars = join_space(arg_vars_upto(args.len() as int) + param_vars(params));
        "(assert (forall ("@ + decls + ") (= ("@ + func_name(a) + " "@ + vars + ") ("@
            + func_name(b) + " "@ + vars + "))))"@
    } else {
        "(assert (= "@ + func_name(a) + " "@ + func_name(b) + "))"@
    }
}

/// Render the one assertion comparing `a` and `b` over the given argument
/// slots and parameters.
#[verifier::loop_isolation(false)]
#[verifier::rlimit(60)]
pub fn gen_equality_assertion(a: usize, b: usize, args_ty: &Vec<Ty>, params: &Vec<Param>) -> (r:
    String)
    requires
        args_ty@.len() >= 1,
        wf_sorts(tys_view(args_ty@)),
        crate::smtlib::wf_param_sorts(params_view(params@)),
    ensures
        r@ == spec_equality_assertion(
            a as int,
            b as int,
            tys_view(args_ty@),
            params_view(params@),
        ),
{
    let ghost argsv = tys_view(args_ty@);
    let ghost paramsv = params_view(params@);
    proof {
        crate::sir::lemma_tys_view(args_ty@);
        crate::sir::lemma_params_view(params@);
        lemma_wf_sorts(argsv);
        lemma_wf_param_sorts(paramsv);
        lemma_param_decls(paramsv);
    }
    let na = usize_dec(a);
    let nb = usize_dec(b);
    if args_ty.len() > 1 || params.len() > 0 {
        let mut decls: Vec<String> = Vec::new();
        let mut vars: Vec<String> = Vec::new();
        let mut i: usize = 1;
        while i < args_ty.len()
            invariant
                1 <= i <= args_ty@.len(),
                strs_view(decls@) == arg_decls_upto(argsv, i as int),
                strs_view(vars@) == arg_vars_upto(i as int),
            decreases args_ty@.len() - i,
        {
            proof {
                assert(argsv[i as int] == ty_view(args_ty@[i as int]));
                assert(wf_sort(argsv[i as int]));
            }
            let mut piece = "(x".to_owned();
            let d = usize_dec(i);
            piece.append(d.as_str());
            piece.append(" ");
            let s = args_ty[i].to_smtlib();
            piece.append(s.as_str());
            piece.append(")");
            let mut var = "x".to_owned();
            var.append(d.as_str());
            let ghost dpre = decls@;
            let ghost vpre = vars@;
            let ghost pv = piece@;
            let ghost vv = var@;
            decls.push(piece);
            vars.push(var);
            proof {
                assert(strs_view(decls@) == strs_view(dpre).push(pv)) by {
                    assert(decls@.drop_last() =~= dpre);
                }
                assert(strs_view(vars@) == strs_view(vpre).push(vv)) by {
                    assert(vars@.drop_last() =~= vpre);
                }
                assert(pv =~= arg_decl(i as int, argsv[i as int]));
                assert(vv =~= "x"@ + dec_str(i as int));
            }
            i = i + 1;
        }
        let mut j: usize = 0;
        while j < params.len()
            invariant
                j <= params@.len(),
                strs_view(decls@) == arg_decls_upto(argsv, args_ty@.len() as int)
                    + param_decls(paramsv.take(j as int)),
                strs_view(vars@) == arg_vars_upto(args_ty@.len() as int) + param_vars(
                    paramsv.take(j as int),
                ),
            decreases params@.len() - j,
        {
            proof {
                assert(paramsv[j as int] == crate::sir::param_view(params@[j as int]));
                assert(wf_sort(paramsv[j as int].1));
            }
            let mut piece = "(p".to_owned();
            let d = usize_dec(params[j].0);
            piece.append(d.as_str());
            piece.append(" ");
            let s = params[j].1.to_smtlib();
            piece.append(s.as_str());
            piece.append(")");
            let mut var = "p".to_owned();
            var.append(d.as_str());
            let ghost dpre = decls@;
            let ghost vpre = vars@;
            let ghost pv = piece@;
            let ghost vv = var@;
            decls.push(piece);
            vars.push(var);
            proof {
                assert(strs_view(decls@) == strs_view(dpre).push(pv)) by {
                    assert(decls@.drop_last() =~= dpre);
                }
                assert(strs_view(vars@) == strs_view(vpre).push(vv)) by {
                    assert(vars@.drop_last() =~= vpre);
                }
                assert(pv =~= param_decl(paramsv[j as int]));
                assert(vv =~= "p"@ + dec_str(paramsv[j as int].0 as int));
                assert(paramsv.take(j + 1).drop_last() =~= paramsv.take(j as int));
                assert(paramsv.take(j + 1).last() == paramsv[j as int]);
                assert(strs_view(decls@) =~= arg_decls_upto(argsv, args_ty@.len() as int)
                    + param_decls(paramsv.take(j + 1)));
                assert(strs_view(vars@) =~= arg_vars_upto(args_ty@.len() as int) + param_vars(
                    paramsv.take(j + 1),
                ));
            }
            j = j + 1;
        }
        proof {
            assert(paramsv.take(params@.len() as int) =~= paramsv);
        }
        let decls_s = join_space_exec(&decls);
        let vars_s = join_space_exec(&vars);
        let mut out = "(assert (forall (".to_owned();
        out.append(decls_s.as_str());
        out.append(") (= (func_");
        out.append(na.as_str());
        out.append(" ");
        out.append(vars_s.as_str());
        out.append(") (func_");
        out.append(nb.as_str());
        out.append(" ");
        out.append(vars_s.as_str());
        out.append("))))");
        proof {
            reveal_strlit("(assert (forall (");
            reveal_strlit(") (= (");
            reveal_strlit(") (= (func_");
            reveal_strlit(") (func_");
            reveal_strlit(") (");
            reveal_strlit("func_");
            reveal_strlit(" ");
            reveal_strlit("))))");
            assert(") (= (func_"@ =~= ") (= ("@ + "func_"@);
            assert(") (func_"@ =~= ") ("@ + "func_"@);
            assert(out@ =~= spec_equality_assertion(a as int, b as int, argsv, paramsv));
        }
        out
    } else {
        let mut out = "(assert (= func_".to_owned();
        out.append(na.as_str());
        out.append(" func_");
        out.append(nb.as_str());
        out.append("))");
        proof {
            reveal_strlit("(assert (= func_");
            reveal_strlit("(assert (= ");
            reveal_strlit(" func_");
            reveal_strlit("func_");
            reveal_strlit(" ");
            reveal_strlit("))");
            assert("(assert (= func_"@ =~= "(assert (= "@ + "func_"@);
            assert(" func_"@ =~= " "@ + "func_"@);
            assert(out@ =~= spec_equality_assertion(a as int, b as int, argsv, paramsv));
        }
        out
    }
}

// ---------------------------------------------------------------------------
// The whole script.
// ---------------------------------------------------------------------------

/// The two signatures agree: same runtime argument types and same
/// symbolic parameters.
pub open spec fn spec_sig_match(a: FuncDefV, b: FuncDefV) -> bool {
    match (a.ty, b.ty) {
        (TyV::Func(aa, ap), TyV::Func(ba, bp)) => aa == ba && ap == bp,
        _ => false,
    }
}

/// The declaration of the `k`-th concrete tuple instantiation.
pub open spec fn inst_line(k: int, t: TyV) -> Seq<char> {
    "(declare-const inst"@ + dec_str(k) + " "@ + smt_ty(t) + ")"@
}

/// The declarations of the first `i` instantiations, numbered from
/// `base`, each followed by a line break.
pub open spec fn cat_inst(ts: Seq<TyV>, base: int, i: int) -> Seq<char>
    decreases i,
    when 0 <= i <= ts.len()
{
    if i <= 0 {
        Seq::empty()
    } else {
        cat_inst(ts, base, i - 1) + inst_line(base + i - 1, ts[i - 1]) + "\n"@
    }
}

/// The full script comparing two definitions with matching signatures:
/// generic datatypes, the tuple instantiations of both bodies, both
/// definitions, the closed equality assertion, and the satisfiability
/// check.
pub open spec fn spec_equality_script(a: FuncDefV, b: FuncDefV) -> Seq<char> {
    let ia = collect_inst(Seq::empty(), a.body);
    let ib = collect_inst(Seq::empty(), b.body);
    let sig = match a.ty {
        TyV::Func(args, params) => spec_equality_assertion(
            a.def_id as int,
            b.def_id as int,
            args,
            params,
        ),
        _ => Seq::empty(),
    };
    "(declare-datatypes (T1 T2) ((Tuple (tuple (first T1) (second T2)))))\n"@
        + "(declare-datatypes (T1) ((Maybe nothing (just (from-maybe T1)))))\n"@
        + "(declare-datatypes () ((Unit (unit))))\n"@ + cat_inst(ia, 0, ia.len() as int)
        + cat_inst(ib, ia.len() as int, ib.len() as int) + smt_funcdef(a) + "\n"@
        + smt_funcdef(b) + "\n"@ + sig + "\n"@ + "(check-sat)"@
}

/// The query for a pair of definitions: the script when the signatures
/// match, and nothing at all otherwise — a mismatch is classified as
/// not-equivalent without consulting any solver.
pub open spec fn spec_equality_query(a: FuncDefV, b: FuncDefV) -> Option<Seq<char>> {
    if spec_sig_match(a, b) {
        Some(spec_equality_script(a, b))
    } else {
        None
    }
}

/// Definitions whose signatures differ yield no script: nothing is ever
/// sent to a solver for them.
pub proof fn lemma_signature_short_circuit(a: FuncDefV, b: FuncDefV)
    requires
        !spec_sig_match(a, b),
    ensures
        spec_equality_query(a, b) is None,
{
}

/// Append the declarations of `insts`, numbered from `base`.
#[verifier::loop_isolation(false)]
fn append_inst_lines(out: &mut String, insts: &Vec<Ty>, base: u128, Ghost(bi): Ghost<int>)
    requires
        base as int == bi,
        bi >= 0,
        bi + insts@.len() <= u128::MAX,
        wf_sorts(tys_view(insts@)),
    ensures
        final(out)@ == old(out)@ + cat_inst(tys_view(insts@), bi, insts@.len() as int),
{
    let ghost iv = tys_view(insts@);
    let ghost head = out@;
    proof {
        crate::sir::lemma_tys_view(insts@);
        lemma_wf_sorts(iv);
    }
    let mut i: usize = 0;
    while i < insts.len()
        invariant
            i <= insts@.len(),
            out@ == head + cat_inst(iv, bi, i as int),
        decreases insts@.len() - i,
    {
        proof {
            assert(iv[i as int] == ty_view(insts@[i as int]));
            assert(wf_sort(iv[i as int]));
        }
        out.append("(declare-const inst");
        let d = u128_dec(base + i as u128);
        out.append(d.as_str());
        out.append(" ");
        let s = insts[i].to_smtlib();
        out.append(s.as_str());
        out.append(")\n");
        proof {
            reveal_strlit(")\n");
            reveal_strlit(")");
            reveal_strlit("\n");
            assert(")\n"@ =~= ")"@ + "\n"@);
            assert(out@ =~= head + cat_inst(iv, bi, i + 1));
        }
        i = i + 1;
    }
}

pub open spec fn opt_str_view(r: Option<String>) -> Option<Seq<char>> {
    match r {
        Some(s) => Some(s@),
        None => None,
    }
}

/// Build the solver script for two definitions, or nothing when their
/// signatures already rule equivalence out.
#[verifier::loop_isolation(false)]
#[verifier::rlimit(100)]
pub fn equality_query(a: &FuncDef, b: &FuncDef) -> (r: Option<String>)
    requires
        wf_smt_funcdef(a@),
        wf_smt_funcdef(b@),
        wf_sorts(collect_inst(Seq::empty(), a@.body)),
        wf_sorts(collect_inst(Seq::empty(), b@.body)),
    ensures
        opt_str_view(r) == spec_equality_query(a@, b@),
{
    match (&a.ty, &b.ty) {
        (Ty::Func(aa, ap), Ty::Func(ba, bp)) => {
            let same = tys_eq(aa, ba) && params_eq(ap, bp);
            if !same {
                return None;
            }
            let ghost ia = collect_inst(Seq::empty(), a@.body);
            let ghost ib = collect_inst(Seq::empty(), b@.body);
            proof {
                lemma_wf_sorts(ia);
                lemma_wf_sorts(ib);
            }
            let insts_a = a.body.find_datatype_instances();
            let insts_b = b.body.find_datatype_instances();
            proof {
                crate::sir::lemma_tys_view(insts_a@);
                crate::sir::lemma_tys_view(insts_b@);
            }
            let mut out = "(declare-datatypes (T1 T2) ((Tuple (tuple (first T1) (second T2)))))\n".to_owned();
            out.append("(declare-datatypes (T1) ((Maybe nothing (just (from-maybe T1)))))\n");
            out.append("(declare-datatypes () ((Unit (unit))))\n");
            let la = insts_a.len();
            let lb = insts_b.len();
            proof {
                assert(insts_a@.len() == la && insts_b@.len() == lb);
                assert(0 + insts_a@.len() <= u128::MAX);
                assert(ia.len() + insts_b@.len() <= u128::MAX);
            }
            append_inst_lines(&mut out, &insts_a, 0, Ghost(0));
            append_inst_lines(
                &mut out,
                &insts_b,
                insts_a.len() as u128,
                Ghost(ia.len() as int),
            );
            let fa = a.to_smtlib();
            out.append(fa.as_str());
            out.append("\n");
            let fb = b.to_smtlib();
            out.append(fb.as_str());
            out.append("\n");
            let asrt = gen_equality_assertion(a.def_id, b.def_id, aa, ap);
            out.append(asrt.as_str());
            out.append("\n");
            out.append("(check-sat)");
            proof {
                assert(out@ =~= spec_equality_script(a@, b@));
            }
            Some(out)
        },
        _ => None,
    }
}

} // verus!
