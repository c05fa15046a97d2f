//! The symbolic interpreter.
//!
//! [`eval_mir`] walks a loop-free control-flow graph and produces one
//! finished [`FuncDef`] whose body is a closed-form expression over the
//! function's arguments. The whole computation is mirrored by spec
//! functions (`spec_eval_mir` and its helpers), and the executable code is
//! proved to return exactly what the mirror describes.

use vstd::prelude::*;

use crate::analysis::find_loop;
use crate::analysis::has_cycle;
use crate::analysis::lemma_find_loop_decides_cycles;
use crate::analysis::spec_find_loop;
use crate::memory::EvalError;
use crate::memory::Memory;
use crate::mir::Block;
use crate::mir::BlockID;
use crate::mir::Constant;
use crate::mir::Function;
use crate::mir::Operand;
use crate::mir::Place;
use crate::mir::Rvalue;
use crate::mir::Statement;
use crate::mir::Terminator;
use crate::optimize::optimize_v;
use crate::sir::copy_expr;
use crate::sir::copy_ty;
use crate::sir::expr_ty_v;
use crate::sir::expr_view;
use crate::sir::exprs_view;
use crate::sir::lemma_tys_view;
use crate::sir::params_view;
use crate::sir::ty_view;
use crate::sir::tys_view;
use crate::sir::Expr;
use crate::sir::ExprV;
use crate::sir::FuncDef;
use crate::sir::FuncDefV;
use crate::sir::Param;
use crate::sir::ParamV;
use crate::sir::Ty;
use crate::sir::TyV;
use crate::sir::Value;
use crate::sir::ValueV;

verus! {

// ---------------------------------------------------------------------------
// The specification-level interpreter.
//
// The store is a sequence of optional expression views; a slot holds
// `Some` while it is live.
// ---------------------------------------------------------------------------

/// Read the expression held by slot `l`.
pub open spec fn spec_read_local(mem: Seq<Option<ExprV>>, l: usize) -> Result<ExprV, EvalError> {
    if l < mem.len() {
        match mem[l as int] {
            Some(e) => Ok(e),
            None => Err(EvalError::UnboundLocation),
        }
    } else {
        Err(EvalError::UnboundLocation)
    }
}

/// Overwrite the expression held by the live slot `l`.
pub open spec fn spec_write_local(mem: Seq<Option<ExprV>>, l: usize, e: ExprV) -> Result<
    Seq<Option<ExprV>>,
    EvalError,
> {
    if l < mem.len() && mem[l as int] is Some {
        Ok(mem.update(l as int, Some(e)))
    } else {
        Err(EvalError::UnboundLocation)
    }
}

/// The expression a constant operand denotes: a literal of its declared
/// type, a reference to a function, or a symbolic parameter.
pub open spec fn spec_const_value(c: Constant) -> ExprV {
    match c {
        Constant::Literal(bits, t) => ExprV::Value(ValueV::Const(bits, ty_view(t))),
        Constant::Function(d, t) => ExprV::Value(ValueV::Function(d, ty_view(t))),
        Constant::Param(idx, t) => ExprV::Value(ValueV::ConstParam(ParamV(idx, ty_view(t)))),
    }
}

/// Read an operand: a move or copy reads the slot, wrapping a projection
/// around it when the operand names a tuple field; a constant resolves on
/// its own.
pub open spec fn spec_eval_operand(mem: Seq<Option<ExprV>>, op: Operand) -> Result<
    ExprV,
    EvalError,
> {
    match op {
        Operand::Move(p) => spec_read_place(mem, p),
        Operand::Copy(p) => spec_read_place(mem, p),
        Operand::Constant(c) => Ok(spec_const_value(c)),
    }
}

pub open spec fn spec_read_place(mem: Seq<Option<ExprV>>, p: Place) -> Result<ExprV, EvalError> {
    match p {
        Place::Local(l) => spec_read_local(mem, l),
        Place::Field(l, i) => match spec_read_local(mem, l) {
            Ok(e) => Ok(ExprV::Projection(Box::new(e), i)),
            Err(err) => Err(err),
        },
    }
}

/// The operands of a list, read left to right; the first failure wins.
pub open spec fn spec_eval_operands_from(
    mem: Seq<Option<ExprV>>,
    ops: Seq<Operand>,
    i: int,
) -> Result<Seq<ExprV>, EvalError>
    decreases ops.len() - i,
    when 0 <= i <= ops.len()
{
    if i >= ops.len() {
        Ok(Seq::empty())
    } else {
        match spec_eval_operand(mem, ops[i]) {
            Err(err) => Err(err),
            Ok(e) => match spec_eval_operands_from(mem, ops, i + 1) {
                Err(err) => Err(err),
                Ok(rest) => Ok(seq![e] + rest),
            },
        }
    }
}

/// The expression a right-hand side evaluates to: a binary operation over
/// two operands, a shared-reference read of a slot, or a plain operand.
pub open spec fn spec_eval_rvalue(mem: Seq<Option<ExprV>>, rv: Rvalue) -> Result<
    ExprV,
    EvalError,
> {
    match rv {
        Rvalue::Use(op) => spec_eval_operand(mem, op),
        Rvalue::Ref(p) => match p {
            Place::Local(l) => spec_read_local(mem, l),
            Place::Field(_, _) => Err(EvalError::UnsupportedConstruct),
        },
        Rvalue::BinaryOp(op, o1, o2) => match spec_eval_operand(mem, o1) {
            Err(err) => Err(err),
            Ok(a) => match spec_eval_operand(mem, o2) {
                Err(err) => Err(err),
                Ok(b) => Ok(ExprV::BinaryOp(op, Box::new(a), Box::new(b))),
            },
        },
    }
}

/// One statement: an assignment writes its right-hand side to the
/// destination slot, a storage marker opens or closes a slot's lifetime.
pub open spec fn spec_apply_statement(mem: Seq<Option<ExprV>>, st: Statement) -> Result<
    Seq<Option<ExprV>>,
    EvalError,
> {
    match st {
        Statement::Assign(p, rv) => match spec_eval_rvalue(mem, rv) {
            Err(err) => Err(err),
            Ok(e) => match p {
                Place::Local(l) => spec_write_local(mem, l, e),
                Place::Field(_, _) => Err(EvalError::UnsupportedConstruct),
            },
        },
        Statement::StorageLive(l) => if l < mem.len() {
            Ok(mem.update(l as int, Some(ExprV::Uninitialized)))
        } else {
            Err(EvalError::UnboundLocation)
        },
        Statement::StorageDead(l) => if l < mem.len() && mem[l as int] is Some {
            Ok(mem.update(l as int, None))
        } else {
            Err(EvalError::DoubleFree)
        },
    }
}

/// The statements of a block from position `i` on, in order.
pub open spec fn spec_run_stmts(
    mem: Seq<Option<ExprV>>,
    stmts: Seq<Statement>,
    i: int,
) -> Result<Seq<Option<ExprV>>, EvalError>
    decreases stmts.len() - i,
    when 0 <= i <= stmts.len()
{
    if i >= stmts.len() {
        Ok(mem)
    } else {
        match spec_apply_statement(mem, stmts[i]) {
            Err(err) => Err(err),
            Ok(mem2) => spec_run_stmts(mem2, stmts, i + 1),
        }
    }
}

/// The optional wrapping a fork's result receives under an assert: an
/// already optional result is kept, any other is wrapped in `Just` and its
/// type promoted.
pub open spec fn spec_assert_wrap(res: ExprV) -> Result<(ExprV, TyV), EvalError> {
    match expr_ty_v(res) {
        Some(t) => match t {
            TyV::Maybe(inner) => Ok((res, TyV::Maybe(inner))),
            other => Ok((ExprV::Just(Box::new(res)), TyV::Maybe(Box::new(other)))),
        },
        None => Err(EvalError::UnsupportedConstruct),
    }
}

/// Run the interpreter from the start of `block` until it halts.
///
/// `fuel` bounds the number of block transitions; the caller passes the
/// block count, which a loop-free graph can never exhaust, so running out
/// of fuel reports `LoopUnsupported`.
pub open spec fn spec_run(
    f: Function,
    mem: Seq<Option<ExprV>>,
    block: usize,
    fuel: nat,
) -> Result<Seq<Option<ExprV>>, EvalError>
    decreases fuel, 0int, 0int,
{
    if block >= f.blocks@.len() {
        Err(EvalError::UnsupportedConstruct)
    } else {
        let blk = f.blocks@[block as int];
        match spec_run_stmts(mem, blk.statements@, 0) {
            Err(err) => Err(err),
            Ok(mem1) => match blk.terminator {
                Terminator::Return => Ok(mem1),
                Terminator::Goto(b) => if fuel == 0 {
                    Err(EvalError::LoopUnsupported)
                } else {
                    spec_run(f, mem1, b.0, (fuel - 1) as nat)
                },
                Terminator::Call(func, args, dest, cont) => match spec_eval_operand(mem1, func) {
                    Err(err) => Err(err),
                    Ok(fe) => match spec_eval_operands_from(mem1, args@, 0) {
                        Err(err) => Err(err),
                        Ok(aes) => {
                            let app = ExprV::Apply(Box::new(fe), aes);
                            match dest {
                                Place::Local(l) => match spec_write_local(mem1, l, app) {
                                    Err(err) => Err(err),
                                    Ok(mem2) => if fuel == 0 {
                                        Err(EvalError::LoopUnsupported)
                                    } else {
                                        spec_run(f, mem2, cont.0, (fuel - 1) as nat)
                                    },
                                },
                                Place::Field(_, _) => Err(EvalError::UnsupportedConstruct),
                            }
                        },
                    },
                },
                Terminator::SwitchInt(discr, sty, cases, default) => match spec_eval_operand(
                    mem1,
                    discr,
                ) {
                    Err(err) => Err(err),
                    Ok(d) => if fuel == 0 {
                        Err(EvalError::LoopUnsupported)
                    } else {
                        spec_switch_rest(
                            f,
                            mem1,
                            d,
                            ty_view(sty),
                            cases@,
                            default.0,
                            (fuel - 1) as nat,
                        )
                    },
                },
                Terminator::Assert(cond, expected, target) => match spec_eval_operand(
                    mem1,
                    cond,
                ) {
                    Err(err) => Err(err),
                    Ok(c) => if fuel == 0 {
                        Err(EvalError::LoopUnsupported)
                    } else {
                        spec_assert_rest(f, mem1, c, expected, target.0, (fuel - 1) as nat)
                    },
                },
            },
        }
    }
}

// ---------------------------------------------------------------------------
// The helper scans: storage markers, asserts, and symbolic parameters.
// ---------------------------------------------------------------------------

/// Some statement of the function opens slot `l`'s lifetime.
pub open spec fn is_live_local(f: Function, l: usize) -> bool {
    exists|b: int, s: int|
        0 <= b < f.blocks@.len() && 0 <= s < f.blocks@[b].statements@.len()
            && f.blocks@[b].statements@[s] == Statement::StorageLive(l)
}

/// Some statement of the function closes slot `l`'s lifetime.
pub open spec fn is_dead_local(f: Function, l: usize) -> bool {
    exists|b: int, s: int|
        0 <= b < f.blocks@.len() && 0 <= s < f.blocks@[b].statements@.len()
            && f.blocks@[b].statements@[s] == Statement::StorageDead(l)
}

/// The function contains an assert terminator, so its declared return type
/// becomes optional.
pub open spec fn spec_has_assert(f: Function) -> bool {
    exists|b: int| 0 <= b < f.blocks@.len() && f.blocks@[b].terminator is Assert
}

/// The operands a right-hand side reads, in evaluation order.
pub open spec fn rvalue_operands(rv: Rvalue) -> Seq<Operand> {
    match rv {
        Rvalue::Use(op) => seq![op],
        Rvalue::Ref(_) => Seq::empty(),
        Rvalue::BinaryOp(_, a, b) => seq![a, b],
    }
}

pub open spec fn statement_operands(st: Statement) -> Seq<Operand> {
    match st {
        Statement::Assign(_, rv) => rvalue_operands(rv),
        _ => Seq::empty(),
    }
}

pub open spec fn terminator_operands(t: Terminator) -> Seq<Operand> {
    match t {
        Terminator::Call(func, args, _, _) => seq![func] + args@,
        Terminator::SwitchInt(d, _, _, _) => seq![d],
        Terminator::Assert(c, _, _) => seq![c],
        _ => Seq::empty(),
    }
}

pub open spec fn stmts_operands(stmts: Seq<Statement>) -> Seq<Operand>
    decreases stmts,
{
    if stmts.len() == 0 {
        Seq::empty()
    } else {
        stmts_operands(stmts.drop_last()) + statement_operands(stmts.last())
    }
}

pub open spec fn block_operands(b: Block) -> Seq<Operand> {
    stmts_operands(b.statements@) + terminator_operands(b.terminator)
}

pub open spec fn blocks_operands(blocks: Seq<Block>) -> Seq<Operand>
    decreases blocks,
{
    if blocks.len() == 0 {
        Seq::empty()
    } else {
        blocks_operands(blocks.drop_last()) + block_operands(blocks.last())
    }
}

/// Every operand the function reads, in visiting order: blocks in order,
/// each block's statements first, its terminator last.
pub open spec fn function_operands(f: Function) -> Seq<Operand> {
    blocks_operands(f.blocks@)
}

/// Does the accumulated parameter list already carry this index?
pub open spec fn param_index_present(acc: Seq<ParamV>, idx: usize) -> bool {
    exists|k: int| 0 <= k < acc.len() && acc[k].0 == idx
}

/// Insert a parameter into a list ordered by index.
pub open spec fn insert_sorted(acc: Seq<ParamV>, p: ParamV) -> Seq<ParamV>
    decreases acc,
{
    if acc.len() == 0 {
        seq![p]
    } else if p.0 < acc.first().0 {
        seq![p] + acc
    } else {
        seq![acc.first()] + insert_sorted(acc.drop_first(), p)
    }
}

/// Record one parameter: ordered by index, deduplicated by index, the
/// first occurrence fixing the type.
pub open spec fn insert_param(acc: Seq<ParamV>, p: ParamV) -> Seq<ParamV> {
    if param_index_present(acc, p.0) {
        acc
    } else {
        insert_sorted(acc, p)
    }
}

/// Record an operand: only a constant parameter operand contributes.
pub open spec fn process_operand(acc: Seq<ParamV>, op: Operand) -> Seq<ParamV> {
    match op {
        Operand::Constant(c) => match c {
            Constant::Param(idx, t) => insert_param(acc, ParamV(idx, ty_view(t))),
            _ => acc,
        },
        _ => acc,
    }
}

pub open spec fn fold_params(acc: Seq<ParamV>, ops: Seq<Operand>) -> Seq<ParamV>
    decreases ops,
{
    if ops.len() == 0 {
        acc
    } else {
        process_operand(fold_params(acc, ops.drop_last()), ops.last())
    }
}

/// The symbolic parameters referenced anywhere in the function.
pub open spec fn spec_extract_params(f: Function) -> Seq<ParamV> {
    fold_params(Seq::empty(), function_operands(f))
}

/// Folding distributes over concatenation of operand lists.
pub proof fn lemma_fold_params_append(acc: Seq<ParamV>, xs: Seq<Operand>, ys: Seq<Operand>)
    ensures
        fold_params(acc, xs + ys) == fold_params(fold_params(acc, xs), ys),
    decreases ys,
{
    if ys.len() == 0 {
        assert(xs + ys =~= xs);
    } else {
        lemma_fold_params_append(acc, xs, ys.drop_last());
        assert((xs + ys).drop_last() =~= xs + ys.drop_last());
        assert((xs + ys).last() == ys.last());
    }
}

pub proof fn lemma_fold_params_push(acc: Seq<ParamV>, xs: Seq<Operand>, y: Operand)
    ensures
        fold_params(acc, xs.push(y)) == process_operand(fold_params(acc, xs), y),
{
    assert(xs.push(y).drop_last() =~= xs);
    assert(xs.push(y).last() == y);
}

// ---------------------------------------------------------------------------
// The whole conversion of one function.
// ---------------------------------------------------------------------------

/// The store a function starts with: the return slot and the non-live
/// locals hold the placeholder, the argument slots hold argument
/// references, and the locals managed by storage markers start free.
pub open spec fn spec_initial_memory(f: Function) -> Seq<Option<ExprV>> {
    Seq::new(
        f.locals@.len(),
        |i: int|
            if i == 0 {
                Some(ExprV::Uninitialized)
            } else if i <= f.args {
                Some(ExprV::Value(ValueV::Arg(i as usize, ty_view(f.locals@[i]))))
            } else if !is_live_local(f, i as usize) {
                Some(ExprV::Uninitialized)
            } else {
                None
            },
    )
}

/// Free the argument slots `lo..hi`; each must still be live.
pub open spec fn spec_free_args(mem: Seq<Option<ExprV>>, i: int, hi: int) -> Result<
    Seq<Option<ExprV>>,
    EvalError,
>
    decreases hi - i,
    when i <= hi
{
    if i >= hi {
        Ok(mem)
    } else if 0 <= i < mem.len() && mem[i] is Some {
        spec_free_args(mem.update(i, None), i + 1, hi)
    } else {
        Err(EvalError::DoubleFree)
    }
}

/// Free the plain locals `lo..hi`, skipping those a storage marker is
/// responsible for closing.
pub open spec fn spec_free_locals(
    f: Function,
    mem: Seq<Option<ExprV>>,
    i: int,
    hi: int,
) -> Result<Seq<Option<ExprV>>, EvalError>
    decreases hi - i,
    when 0 <= i <= hi
{
    if i >= hi {
        Ok(mem)
    } else if is_dead_local(f, i as usize) {
        spec_free_locals(f, mem, i + 1, hi)
    } else if i < mem.len() && mem[i] is Some {
        spec_free_locals(f, mem.update(i, None), i + 1, hi)
    } else {
        Err(EvalError::DoubleFree)
    }
}

pub open spec fn spec_all_free(mem: Seq<Option<ExprV>>) -> bool {
    forall|i: int| 0 <= i < mem.len() ==> mem[i] is None
}

/// The conversion of one function into a finished definition: reject
/// cyclic graphs, run the interpreter from the entry block, close every
/// slot, optimize the surviving return expression once, and package it
/// with the signature.
pub open spec fn spec_eval_mir(def_id: usize, f: Function) -> Result<FuncDefV, EvalError> {
    let n = f.locals@.len() as int;
    let nargs = f.args + 1;
    if spec_find_loop(f) {
        Err(EvalError::LoopUnsupported)
    } else if n < nargs {
        Err(EvalError::UnsupportedConstruct)
    } else {
        let args_ty = tys_view(f.locals@.take(nargs as int));
        let params = spec_extract_params(f);
        let sig_args = if spec_has_assert(f) {
            args_ty.update(0, TyV::Maybe(Box::new(args_ty[0])))
        } else {
            args_ty
        };
        match spec_run(f, spec_initial_memory(f), 0, f.blocks@.len() as nat) {
            Err(err) => Err(err),
            Ok(mem1) => match spec_free_args(mem1, 1, nargs as int) {
                Err(err) => Err(err),
                Ok(mem2) => match spec_free_locals(f, mem2, nargs as int, n) {
                    Err(err) => Err(err),
                    Ok(mem3) => if 0 < mem3.len() && mem3[0] is Some {
                        let body = match mem3[0] {
                            Some(e) => optimize_v(e),
                            None => ExprV::Uninitialized,
                        };
                        let mem4 = mem3.update(0, None);
                        if spec_all_free(mem4) {
                            Ok(
                                FuncDefV {
                                    def_id,
                                    body,
                                    ty: TyV::Func(sig_args, params),
                                },
                            )
                        } else {
                            Err(EvalError::UnbalancedLifetime)
                        }
                    } else {
                        Err(EvalError::DoubleFree)
                    },
                },
            },
        }
    }
}

/// Any control-flow graph with a cycle reachable from its entry block is
/// rejected with `LoopUnsupported` before anything else is examined.
pub proof fn lemma_loop_rejection(def_id: usize, f: Function)
    requires
        has_cycle(f),
    ensures
        spec_eval_mir(def_id, f) == Result::<FuncDefV, EvalError>::Err(
            EvalError::LoopUnsupported,
        ),
{
    lemma_find_loop_decides_cycles(f);
}

/// The rest of a switch terminator once the discriminant is evaluated and
/// a unit of fuel is paid: fork every guarded case, run the default branch
/// in place, and leave the assembled switch in the return slot.
pub open spec fn spec_switch_rest(
    f: Function,
    mem: Seq<Option<ExprV>>,
    d: ExprV,
    sty: TyV,
    cases: Seq<(u128, BlockID)>,
    default: usize,
    fuel: nat,
) -> Result<Seq<Option<ExprV>>, EvalError>
    decreases fuel, 2int, 0int,
{
    match spec_run_cases(f, mem, d, sty, cases, 0, fuel) {
        Err(err) => Err(err),
        Ok((vals, targets)) => match spec_run(f, mem, default, fuel) {
            Err(err) => Err(err),
            Ok(mem2) => match spec_read_local(mem2, 0) {
                Err(err) => Err(err),
                Ok(defexpr) => spec_write_local(
                    mem2,
                    0,
                    ExprV::Switch(Box::new(d), vals, targets.push(defexpr)),
                ),
            },
        },
    }
}

/// The rest of an assert terminator once the condition is evaluated and a
/// unit of fuel is paid: fork the continuation, wrap its result as an
/// optional value, and leave the two-way switch in the return slot.
pub open spec fn spec_assert_rest(
    f: Function,
    mem: Seq<Option<ExprV>>,
    c: ExprV,
    expected: bool,
    target: usize,
    fuel: nat,
) -> Result<Seq<Option<ExprV>>, EvalError>
    decreases fuel, 2int, 0int,
{
    match spec_run(f, mem, target, fuel) {
        Err(err) => Err(err),
        Ok(memf) => match spec_read_local(memf, 0) {
            Err(err) => Err(err),
            Ok(res) => match spec_assert_wrap(res) {
                Err(err) => Err(err),
                Ok((just, opt_ty)) => {
                    let nothing = ExprV::Nothing(opt_ty);
                    let branches = if expected {
                        seq![nothing, just]
                    } else {
                        seq![just, nothing]
                    };
                    spec_write_local(
                        mem,
                        0,
                        ExprV::Switch(
                            Box::new(c),
                            seq![ExprV::Value(ValueV::Const(0, TyV::Bool))],
                            branches,
                        ),
                    )
                },
            },
        },
    }
}

/// The guarded cases of a switch, from position `i` on: each case is
/// fork-evaluated from its target, its return-slot expression specialized
/// by substituting the case literal for the discriminant.
pub open spec fn spec_run_cases(
    f: Function,
    mem: Seq<Option<ExprV>>,
    d: ExprV,
    sty: TyV,
    cases: Seq<(u128, BlockID)>,
    i: int,
    fuel: nat,
) -> Result<(Seq<ExprV>, Seq<ExprV>), EvalError>
    decreases fuel, 1int, cases.len() - i,
    when 0 <= i <= cases.len()
{
    if i >= cases.len() {
        Ok((Seq::empty(), Seq::empty()))
    } else {
        match spec_run(f, mem, cases[i].1.0, fuel) {
            Err(err) => Err(err),
            Ok(memf) => match spec_read_local(memf, 0) {
                Err(err) => Err(err),
                Ok(res) => {
                    let lit = ExprV::Value(ValueV::Const(cases[i].0, sty));
                    let specialized = crate::sir::replace_v(res, d, lit);
                    match spec_run_cases(f, mem, d, sty, cases, i + 1, fuel) {
                        Err(err) => Err(err),
                        Ok((vals, targets)) => Ok((seq![lit] + vals, seq![specialized] + targets)),
                    }
                },
            },
        }
    }
}

// ---------------------------------------------------------------------------
// The executable interpreter.
// ---------------------------------------------------------------------------

pub open spec fn expr_res_view(r: Result<Expr, EvalError>) -> Result<ExprV, EvalError> {
    match r {
        Ok(e) => Ok(expr_view(e)),
        Err(err) => Err(err),
    }
}

pub open spec fn exprs_res_view(r: Result<Vec<Expr>, EvalError>) -> Result<Seq<ExprV>, EvalError> {
    match r {
        Ok(v) => Ok(exprs_view(v@)),
        Err(err) => Err(err),
    }
}

fn const_value(c: &Constant) -> (r: Expr)
    ensures
        r@ == spec_const_value(*c),
{
    match c {
        Constant::Literal(bits, t) => Expr::Value(Value::Const(*bits, copy_ty(t))),
        Constant::Function(d, t) => Expr::Value(Value::Function(*d, copy_ty(t))),
        Constant::Param(idx, t) => Expr::Value(Value::ConstParam(Param(*idx, copy_ty(t)))),
    }
}

fn read_place(mem: &Memory, p: &Place) -> (r: Result<Expr, EvalError>)
    ensures
        expr_res_view(r) == spec_read_place(mem@, *p),
{
    match p {
        Place::Local(l) => match mem.read(*l) {
            Ok(e) => Ok(copy_expr(e)),
            Err(err) => Err(err),
        },
        Place::Field(l, i) => match mem.read(*l) {
            Ok(e) => Ok(Expr::Projection(Box::new(copy_expr(e)), *i)),
            Err(err) => Err(err),
        },
    }
}

fn eval_operand(mem: &Memory, op: &Operand) -> (r: Result<Expr, EvalError>)
    ensures
        expr_res_view(r) == spec_eval_operand(mem@, *op),
{
    match op {
        Operand::Move(p) => read_place(mem, p),
        Operand::Copy(p) => read_place(mem, p),
        Operand::Constant(c) => Ok(const_value(c)),
    }
}

#[verifier::loop_isolation(false)]
fn eval_operands(mem: &Memory, ops: &Vec<Operand>) -> (r: Result<Vec<Expr>, EvalError>)
    ensures
        exprs_res_view(r) == spec_eval_operands_from(mem@, ops@, 0),
{
    let mut out: Vec<Expr> = Vec::new();
    let mut i: usize = 0;
    while i < ops.len()
        invariant
            i <= ops@.len(),
            spec_eval_operands_from(mem@, ops@, 0) == (match spec_eval_operands_from(
                mem@,
                ops@,
                i as int,
            ) {
                Ok(rest) => Ok(exprs_view(out@) + rest),
                Err(err) => Err(err),
            }),
        decreases ops@.len() - i,
    {
        match eval_operand(mem, &ops[i]) {
            Err(err) => {
                return Err(err);
            },
            Ok(e) => {
                let ghost pre = out@;
                let ghost ev = e@;
                out.push(e);
                proof {
                    assert(exprs_view(out@) == exprs_view(pre).push(ev)) by {
                        assert(out@.drop_last() =~= pre);
                        assert(out@.last()@ == ev);
                    }
                    match spec_eval_operands_from(mem@, ops@, i + 1) {
                        Ok(rest2) => {
                            assert(exprs_view(pre) + (seq![ev] + rest2) =~= exprs_view(out@)
                                + rest2);
                        },
                        Err(_) => {},
                    }
                }
            },
        }
        i = i + 1;
    }
    proof {
        assert(exprs_view(out@) + Seq::<ExprV>::empty() =~= exprs_view(out@));
    }
    Ok(out)
}

pub open spec fn run_res_view(r: Result<Memory, EvalError>) -> Result<
    Seq<Option<ExprV>>,
    EvalError,
> {
    match r {
        Ok(m) => Ok(m@),
        Err(err) => Err(err),
    }
}

/// Run the statements of one block, in order.
#[verifier::loop_isolation(false)]
fn exec_stmts(mem: Memory, stmts: &Vec<Statement>) -> (r: Result<Memory, EvalError>)
    ensures
        run_res_view(r) == spec_run_stmts(mem@, stmts@, 0),
{
    let ghost m0 = mem@;
    let mut m = mem;
    let mut si: usize = 0;
    while si < stmts.len()
        invariant
            si <= stmts@.len(),
            spec_run_stmts(m0, stmts@, 0) == spec_run_stmts(m@, stmts@, si as int),
        decreases stmts@.len() - si,
    {
        match &stmts[si] {
            Statement::Assign(p, rv) => {
                let e = match eval_rvalue(&m, rv) {
                    Ok(e) => e,
                    Err(err) => {
                        return Err(err);
                    },
                };
                match p {
                    Place::Local(l) => match m.write(*l, e) {
                        Ok(u) => u,
                        Err(err) => {
                            return Err(err);
                        },
                    },
                    Place::Field(_, _) => {
                        return Err(EvalError::UnsupportedConstruct);
                    },
                }
            },
            Statement::StorageLive(l) => match m.allocate(*l, Expr::Uninitialized) {
                Ok(u) => u,
                Err(err) => {
                    return Err(err);
                },
            },
            Statement::StorageDead(l) => match m.free(*l) {
                Ok(_) => (),
                Err(err) => {
                    return Err(err);
                },
            },
        }
        si = si + 1;
    }
    Ok(m)
}

/// Run the interpreter from the start of `block` until it halts, returning
/// the store it halts with.
#[verifier::loop_isolation(false)]
#[verifier::rlimit(50)]
fn run_from(f: &Function, mem: Memory, block: usize, fuel: usize) -> (r: Result<
    Memory,
    EvalError,
>)
    ensures
        run_res_view(r) == spec_run(*f, mem@, block, fuel as nat),
    decreases fuel, 0int,
{
    let ghost m0 = mem@;
    if block >= f.blocks.len() {
        return Err(EvalError::UnsupportedConstruct);
    }
    let blk = &f.blocks[block];
    let mut m = match exec_stmts(mem, &blk.statements) {
        Ok(m) => m,
        Err(err) => {
            return Err(err);
        },
    };
    match &blk.terminator {
        Terminator::Return => Ok(m),
        Terminator::Goto(b) => {
            if fuel == 0 {
                Err(EvalError::LoopUnsupported)
            } else {
                run_from(f, m, b.0, fuel - 1)
            }
        },
        Terminator::Call(func, args, dest, cont) => {
            let fe = match eval_operand(&m, func) {
                Ok(e) => e,
                Err(err) => {
                    return Err(err);
                },
            };
            let aes = match eval_operands(&m, args) {
                Ok(v) => v,
                Err(err) => {
                    return Err(err);
                },
            };
            let app = Expr::Apply(Box::new(fe), aes);
            match dest {
                Place::Local(l) => {
                    match m.write(*l, app) {
                        Ok(u) => u,
                        Err(err) => {
                            return Err(err);
                        },
                    }
                    if fuel == 0 {
                        Err(EvalError::LoopUnsupported)
                    } else {
                        run_from(f, m, cont.0, fuel - 1)
                    }
                },
                Place::Field(_, _) => Err(EvalError::UnsupportedConstruct),
            }
        },
        Terminator::SwitchInt(discr, sty, cases, default) => {
            let d = match eval_operand(&m, discr) {
                Ok(e) => e,
                Err(err) => {
                    return Err(err);
                },
            };
            if fuel == 0 {
                return Err(EvalError::LoopUnsupported);
            }
            run_switch(f, m, d, sty, cases, *default, fuel - 1)
        },
        Terminator::Assert(cond, expected, target) => {
            let c = match eval_operand(&m, cond) {
                Ok(e) => e,
                Err(err) => {
                    return Err(err);
                },
            };
            if fuel == 0 {
                return Err(EvalError::LoopUnsupported);
            }
            run_assert(f, m, c, *expected, *target, fuel - 1)
        },
    }
}

/// The rest of a switch terminator: fork each guarded case, specialize its
/// result, run the default branch in place, and store the switch.
#[verifier::loop_isolation(false)]
#[verifier::rlimit(50)]
fn run_switch(
    f: &Function,
    m: Memory,
    d: Expr,
    sty: &Ty,
    cases: &Vec<(u128, BlockID)>,
    default: BlockID,
    fuel: usize,
) -> (r: Result<Memory, EvalError>)
    ensures
        run_res_view(r) == spec_switch_rest(
            *f,
            m@,
            d@,
            ty_view(*sty),
            cases@,
            default.0,
            fuel as nat,
        ),
    decreases fuel, 1int,
{
    let ghost fuelv = fuel as nat;
    let ghost mv = m@;
    let ghost dv = d@;
    let ghost styv = ty_view(*sty);
    let mut vals: Vec<Expr> = Vec::new();
    let mut targets: Vec<Expr> = Vec::new();
    let mut k: usize = 0;
    while k < cases.len()
        invariant
            k <= cases@.len(),
            m@ == mv,
            d@ == dv,
            spec_run_cases(*f, mv, dv, styv, cases@, 0, fuelv) == (match spec_run_cases(
                *f,
                mv,
                dv,
                styv,
                cases@,
                k as int,
                fuelv,
            ) {
                Ok((vs, ts)) => Ok((exprs_view(vals@) + vs, exprs_view(targets@) + ts)),
                Err(err) => Err(err),
            }),
        decreases cases@.len() - k,
    {
        let fork = m.fork();
        match run_from(f, fork, cases[k].1.0, fuel) {
            Err(err) => {
                return Err(err);
            },
            Ok(mf) => {
                let res = match mf.read(0) {
                    Ok(e) => copy_expr(e),
                    Err(err) => {
                        return Err(err);
                    },
                };
                let lit = Expr::Value(Value::Const(cases[k].0, copy_ty(sty)));
                let specialized = res.replace(&d, &lit);
                let ghost vals_pre = vals@;
                let ghost targets_pre = targets@;
                let ghost litv = lit@;
                let ghost spv = specialized@;
                vals.push(lit);
                targets.push(specialized);
                proof {
                    assert(exprs_view(vals@) == exprs_view(vals_pre).push(litv)) by {
                        assert(vals@.drop_last() =~= vals_pre);
                    }
                    assert(exprs_view(targets@) == exprs_view(targets_pre).push(spv)) by {
                        assert(targets@.drop_last() =~= targets_pre);
                    }
                    match spec_run_cases(*f, mv, dv, styv, cases@, k + 1, fuelv) {
                        Ok((vs2, ts2)) => {
                            assert(exprs_view(vals_pre) + (seq![litv] + vs2) =~= exprs_view(
                                vals@,
                            ) + vs2);
                            assert(exprs_view(targets_pre) + (seq![spv] + ts2) =~= exprs_view(
                                targets@,
                            ) + ts2);
                        },
                        Err(_) => {},
                    }
                }
            },
        }
        k = k + 1;
    }
    proof {
        assert(exprs_view(vals@) + Seq::<ExprV>::empty() =~= exprs_view(vals@));
        assert(exprs_view(targets@) + Seq::<ExprV>::empty() =~= exprs_view(targets@));
    }
    match run_from(f, m, default.0, fuel) {
        Err(err) => Err(err),
        Ok(mut m2) => {
            let defexpr = match m2.read(0) {
                Ok(e) => copy_expr(e),
                Err(err) => {
                    return Err(err);
                },
            };
            let ghost targets_pre = targets@;
            let ghost dev = defexpr@;
            targets.push(defexpr);
            proof {
                assert(exprs_view(targets@) == exprs_view(targets_pre).push(dev)) by {
                    assert(targets@.drop_last() =~= targets_pre);
                }
            }
            let sw = Expr::Switch(Box::new(d), vals, targets);
            match m2.write(0, sw) {
                Ok(_) => Ok(m2),
                Err(err) => Err(err),
            }
        },
    }
}

/// The rest of an assert terminator: fork the continuation, wrap its
/// result as an optional value, and store the two-way switch.
#[verifier::loop_isolation(false)]
#[verifier::rlimit(50)]
fn run_assert(
    f: &Function,
    m: Memory,
    c: Expr,
    expected: bool,
    target: BlockID,
    fuel: usize,
) -> (r: Result<Memory, EvalError>)
    ensures
        run_res_view(r) == spec_assert_rest(*f, m@, c@, expected, target.0, fuel as nat),
    decreases fuel, 1int,
{
    let mut m = m;
    let fork = m.fork();
    match run_from(f, fork, target.0, fuel) {
        Err(err) => Err(err),
        Ok(mf) => {
            let res = match mf.read(0) {
                Ok(e) => copy_expr(e),
                Err(err) => {
                    return Err(err);
                },
            };
            let rty = match res.ty() {
                Some(t) => t,
                None => {
                    return Err(EvalError::UnsupportedConstruct);
                },
            };
            let wrapped: (Expr, Ty) = match rty {
                Ty::Maybe(inner) => (res, Ty::Maybe(inner)),
                other => (Expr::Just(Box::new(res)), Ty::Maybe(Box::new(other))),
            };
            let (just, opt_ty) = wrapped;
            let ghost jv = just@;
            let ghost otv = ty_view(opt_ty);
            let nothing = Expr::Nothing(opt_ty);
            let branches: Vec<Expr> = if expected {
                vec![nothing, just]
            } else {
                vec![just, nothing]
            };
            let guards: Vec<Expr> = vec![Expr::Value(Value::Const(0, Ty::Bool))];
            proof {
                crate::sir::lemma_exprs_view(branches@);
                crate::sir::lemma_exprs_view(guards@);
                assert(exprs_view(guards@) =~= seq![ExprV::Value(ValueV::Const(0, TyV::Bool))]);
                assert(exprs_view(branches@) =~= (if expected {
                    seq![ExprV::Nothing(otv), jv]
                } else {
                    seq![jv, ExprV::Nothing(otv)]
                }));
            }
            let sw = Expr::Switch(Box::new(c), guards, branches);
            match m.write(0, sw) {
                Ok(_) => Ok(m),
                Err(err) => Err(err),
            }
        },
    }
}

fn eval_rvalue(mem: &Memory, rv: &Rvalue) -> (r: Result<Expr, EvalError>)
    ensures
        expr_res_view(r) == spec_eval_rvalue(mem@, *rv),
{
    match rv {
        Rvalue::Use(op) => eval_operand(mem, op),
        Rvalue::Ref(p) => match p {
            Place::Local(l) => match mem.read(*l) {
                Ok(e) => Ok(copy_expr(e)),
                Err(err) => Err(err),
            },
            Place::Field(_, _) => Err(EvalError::UnsupportedConstruct),
        },
        Rvalue::BinaryOp(op, o1, o2) => match eval_operand(mem, o1) {
            Err(err) => Err(err),
            Ok(a) => match eval_operand(mem, o2) {
                Err(err) => Err(err),
                Ok(b) => Ok(Expr::BinaryOp(*op, Box::new(a), Box::new(b))),
            },
        },
    }
}


// ---------------------------------------------------------------------------
// Executable scans.
// ---------------------------------------------------------------------------

/// Does any statement open slot `l`'s lifetime?
#[verifier::loop_isolation(false)]
pub fn is_storage_live(f: &Function, l: usize) -> (r: bool)
    ensures
        r == is_live_local(*f, l),
{
    let mut b: usize = 0;
    while b < f.blocks.len()
        invariant
            b <= f.blocks@.len(),
            forall|bi: int, si: int|
                0 <= bi < b && 0 <= si < f.blocks@[bi].statements@.len()
                    ==> f.blocks@[bi].statements@[si] != Statement::StorageLive(l),
        decreases f.blocks@.len() - b,
    {
        let blk = &f.blocks[b];
        let mut s: usize = 0;
        while s < blk.statements.len()
            invariant
                b < f.blocks@.len(),
                s <= blk.statements@.len(),
                *blk == f.blocks@[b as int],
                forall|si: int|
                    0 <= si < s ==> blk.statements@[si] != Statement::StorageLive(l),
            decreases blk.statements@.len() - s,
        {
            match &blk.statements[s] {
                Statement::StorageLive(x) => {
                    if *x == l {
                        proof {
                            assert(f.blocks@[b as int].statements@[s as int]
                                == Statement::StorageLive(l));
                        }
                        return true;
                    }
                },
                _ => {},
            }
            s = s + 1;
        }
        b = b + 1;
    }
    false
}

/// Does any statement close slot `l`'s lifetime?
#[verifier::loop_isolation(false)]
pub fn is_storage_dead(f: &Function, l: usize) -> (r: bool)
    ensures
        r == is_dead_local(*f, l),
{
    let mut b: usize = 0;
    while b < f.blocks.len()
        invariant
            b <= f.blocks@.len(),
            forall|bi: int, si: int|
                0 <= bi < b && 0 <= si < f.blocks@[bi].statements@.len()
                    ==> f.blocks@[bi].statements@[si] != Statement::StorageDead(l),
        decreases f.blocks@.len() - b,
    {
        let blk = &f.blocks[b];
        let mut s: usize = 0;
        while s < blk.statements.len()
            invariant
                b < f.blocks@.len(),
                s <= blk.statements@.len(),
                *blk == f.blocks@[b as int],
                forall|si: int|
                    0 <= si < s ==> blk.statements@[si] != Statement::StorageDead(l),
            decreases blk.statements@.len() - s,
        {
            match &blk.statements[s] {
                Statement::StorageDead(x) => {
                    if *x == l {
                        proof {
                            assert(f.blocks@[b as int].statements@[s as int]
                                == Statement::StorageDead(l));
                        }
                        return true;
                    }
                },
                _ => {},
            }
            s = s + 1;
        }
        b = b + 1;
    }
    false
}

/// Does any block end in an assert terminator?
#[verifier::loop_isolation(false)]
pub fn has_assert(f: &Function) -> (r: bool)
    ensures
        r == spec_has_assert(*f),
{
    let mut b: usize = 0;
    while b < f.blocks.len()
        invariant
            b <= f.blocks@.len(),
            forall|bi: int| 0 <= bi < b ==> !(f.blocks@[bi].terminator is Assert),
        decreases f.blocks@.len() - b,
    {
        match &f.blocks[b].terminator {
            Terminator::Assert(_, _, _) => {
                return true;
            },
            _ => {},
        }
        b = b + 1;
    }
    false
}

// ---------------------------------------------------------------------------
// Executable parameter extraction.
// ---------------------------------------------------------------------------

/// `insert_sorted` splices the new parameter in at the position where the
/// prefix has no larger index.
proof fn lemma_insert_sorted_at(acc: Seq<ParamV>, p: ParamV, pos: int)
    requires
        0 <= pos <= acc.len(),
        forall|j: int| 0 <= j < pos ==> acc[j].0 <= p.0,
        pos < acc.len() ==> p.0 < acc[pos].0,
    ensures
        insert_sorted(acc, p) == acc.insert(pos, p),
    decreases pos,
{
    if pos == 0 {
        if acc.len() == 0 {
            assert(insert_sorted(acc, p) =~= acc.insert(0, p));
        } else {
            assert(p.0 < acc.first().0);
            assert(seq![p] + acc =~= acc.insert(0, p));
        }
    } else {
        assert(acc[0].0 <= p.0);
        let rest = acc.drop_first();
        assert forall|j: int| 0 <= j < pos - 1 implies rest[j].0 <= p.0 by {
            assert(acc[j + 1].0 <= p.0);
        }
        assert(pos - 1 < rest.len() ==> p.0 < rest[pos - 1].0) by {
            if pos - 1 < rest.len() {
                assert(rest[pos - 1] == acc[pos]);
            }
        }
        lemma_insert_sorted_at(rest, p, pos - 1);
        assert(seq![acc.first()] + rest.insert(pos - 1, p) =~= acc.insert(pos, p));
    }
}

/// Record one parameter occurrence in the accumulated signature list.
#[verifier::loop_isolation(false)]
fn insert_param_exec(acc: &mut Vec<Param>, idx: usize, t: &Ty)
    ensures
        params_view(final(acc)@) == insert_param(params_view(old(acc)@), ParamV(idx, ty_view(*t))),
{
    let ghost av = params_view(old(acc)@);
    let ghost pv = ParamV(idx, ty_view(*t));
    proof {
        crate::sir::lemma_params_view(acc@);
    }
    let mut k: usize = 0;
    while k < acc.len()
        invariant
            k <= acc@.len(),
            forall|j: int| 0 <= j < k ==> av[j].0 != idx,
        decreases acc@.len() - k,
    {
        if acc[k].0 == idx {
            proof {
                assert(av[k as int].0 == idx);
                assert(param_index_present(av, idx));
            }
            return ;
        }
        k = k + 1;
    }
    proof {
        assert(!param_index_present(av, idx));
    }
    let mut pos: usize = 0;
    while pos < acc.len() && acc[pos].0 <= idx
        invariant
            pos <= acc@.len(),
            forall|j: int| 0 <= j < pos ==> av[j].0 <= idx,
        decreases acc@.len() - pos,
    {
        pos = pos + 1;
    }
    proof {
        assert(pos < acc@.len() ==> idx < av[pos as int].0);
        lemma_insert_sorted_at(av, pv, pos as int);
    }
    let ghost pre = acc@;
    acc.insert(pos, Param(idx, copy_ty(t)));
    proof {
        crate::sir::lemma_params_view(acc@);
        crate::sir::lemma_params_view(pre);
        assert(params_view(acc@) =~= av.insert(pos as int, pv)) by {
            assert forall|j: int| 0 <= j < acc@.len() implies params_view(acc@)[j] == av.insert(
                pos as int,
                pv,
            )[j] by {
                if j < pos {
                    assert(acc@[j] == pre[j]);
                } else if j == pos {
                    assert(acc@[j]@ == pv);
                } else {
                    assert(acc@[j] == pre[j - 1]);
                }
            }
        }
    }
}

/// Record whatever parameter an operand may carry.
fn process_op(acc: &mut Vec<Param>, op: &Operand)
    ensures
        params_view(final(acc)@) == process_operand(params_view(old(acc)@), *op),
{
    match op {
        Operand::Constant(c) => match c {
            Constant::Param(idx, t) => insert_param_exec(acc, *idx, t),
            _ => (),
        },
        _ => (),
    }
}

/// Scan every operand of the function for symbolic parameters, in
/// visiting order.
#[verifier::loop_isolation(false)]
#[verifier::rlimit(50)]
pub fn extract_params(f: &Function) -> (r: Vec<Param>)
    ensures
        params_view(r@) == spec_extract_params(*f),
{
    let mut acc: Vec<Param> = Vec::new();
    let mut b: usize = 0;
    while b < f.blocks.len()
        invariant
            b <= f.blocks@.len(),
            params_view(acc@) == fold_params(
                Seq::empty(),
                blocks_operands(f.blocks@.take(b as int)),
            ),
        decreases f.blocks@.len() - b,
    {
        let blk = &f.blocks[b];
        let ghost acc_b = params_view(acc@);
        let mut s: usize = 0;
        while s < blk.statements.len()
            invariant
                b < f.blocks@.len(),
                s <= blk.statements@.len(),
                *blk == f.blocks@[b as int],
                params_view(acc@) == fold_params(
                    acc_b,
                    stmts_operands(blk.statements@.take(s as int)),
                ),
            decreases blk.statements@.len() - s,
        {
            let ghost acc_s = params_view(acc@);
            let ghost st = blk.statements@[s as int];
            match &blk.statements[s] {
                Statement::Assign(_, rv) => {
                    match rv {
                        Rvalue::Use(op) => {
                            process_op(&mut acc, op);
                            proof {
                                assert(statement_operands(st) =~= Seq::<Operand>::empty().push(
                                    *op,
                                ));
                                lemma_fold_params_push(acc_s, Seq::empty(), *op);
                                assert(params_view(acc@) == fold_params(
                                    acc_s,
                                    statement_operands(st),
                                ));
                            }
                        },
                        Rvalue::Ref(_) => {
                            proof {
                                assert(statement_operands(st) =~= Seq::<Operand>::empty());
                            }
                        },
                        Rvalue::BinaryOp(_, a, b2) => {
                            process_op(&mut acc, a);
                            process_op(&mut acc, b2);
                            proof {
                                assert(statement_operands(st) =~= Seq::<Operand>::empty().push(
                                    *a,
                                ).push(*b2));
                                lemma_fold_params_push(acc_s, Seq::empty(), *a);
                                lemma_fold_params_push(acc_s, Seq::<Operand>::empty().push(*a), *b2);
                                assert(params_view(acc@) == fold_params(
                                    acc_s,
                                    statement_operands(st),
                                ));
                            }
                        },
                    }
                },
                _ => {
                    proof {
                        assert(statement_operands(st) =~= Seq::<Operand>::empty());
                    }
                },
            }
            proof {
                assert(blk.statements@.take(s + 1).drop_last() =~= blk.statements@.take(
                    s as int,
                ));
                assert(blk.statements@.take(s + 1).last() == st);
                assert(stmts_operands(blk.statements@.take(s + 1)) == stmts_operands(
                    blk.statements@.take(s as int),
                ) + statement_operands(st));
                lemma_fold_params_append(
                    acc_b,
                    stmts_operands(blk.statements@.take(s as int)),
                    statement_operands(st),
                );
            }
            s = s + 1;
        }
        proof {
            assert(blk.statements@.take(blk.statements@.len() as int) =~= blk.statements@);
        }
        let ghost acc_t = params_view(acc@);
        let ghost term = blk.terminator;
        match &blk.terminator {
            Terminator::Call(func, args, _, _) => {
                process_op(&mut acc, func);
                let ghost acc_f = params_view(acc@);
                proof {
                    assert(seq![*func] =~= Seq::<Operand>::empty().push(*func));
                    lemma_fold_params_push(acc_t, Seq::empty(), *func);
                    assert(acc_f == fold_params(acc_t, seq![*func]));
                }
                let mut ai: usize = 0;
                while ai < args.len()
                    invariant
                        ai <= args@.len(),
                        params_view(acc@) == fold_params(acc_f, args@.take(ai as int)),
                    decreases args@.len() - ai,
                {
                    process_op(&mut acc, &args[ai]);
                    proof {
                        assert(args@.take(ai + 1).drop_last() =~= args@.take(ai as int));
                        assert(args@.take(ai + 1).last() == args@[ai as int]);
                        lemma_fold_params_push(acc_f, args@.take(ai as int), args@[ai as int]);
                    }
                    ai = ai + 1;
                }
                proof {
                    assert(args@.take(args@.len() as int) =~= args@);
                    assert(terminator_operands(term) =~= seq![*func] + args@);
                    lemma_fold_params_append(acc_t, seq![*func], args@);
                }
            },
            Terminator::SwitchInt(dop, _, _, _) => {
                process_op(&mut acc, dop);
                proof {
                    assert(terminator_operands(term) =~= Seq::<Operand>::empty().push(*dop));
                    lemma_fold_params_push(acc_t, Seq::empty(), *dop);
                }
            },
            Terminator::Assert(cop, _, _) => {
                process_op(&mut acc, cop);
                proof {
                    assert(terminator_operands(term) =~= Seq::<Operand>::empty().push(*cop));
                    lemma_fold_params_push(acc_t, Seq::empty(), *cop);
                }
            },
            _ => {
                proof {
                    assert(terminator_operands(term) =~= Seq::<Operand>::empty());
                }
            },
        }
        proof {
            assert(params_view(acc@) == fold_params(acc_t, terminator_operands(term)));
            lemma_fold_params_append(acc_b, stmts_operands(blk.statements@), terminator_operands(term));
            assert(block_operands(*blk) == stmts_operands(blk.statements@) + terminator_operands(
                term,
            ));
            assert(f.blocks@.take(b + 1).drop_last() =~= f.blocks@.take(b as int));
            assert(f.blocks@.take(b + 1).last() == *blk);
            assert(blocks_operands(f.blocks@.take(b + 1)) == blocks_operands(
                f.blocks@.take(b as int),
            ) + block_operands(*blk));
            lemma_fold_params_append(
                Seq::empty(),
                blocks_operands(f.blocks@.take(b as int)),
                block_operands(*blk),
            );
        }
        b = b + 1;
    }
    proof {
        assert(f.blocks@.take(f.blocks@.len() as int) =~= f.blocks@);
    }
    acc
}

// ---------------------------------------------------------------------------
// The whole conversion, executably.
// ---------------------------------------------------------------------------

pub open spec fn fd_res_view(r: Result<FuncDef, EvalError>) -> Result<FuncDefV, EvalError> {
    match r {
        Ok(fd) => Ok(fd@),
        Err(err) => Err(err),
    }
}

/// Convert one function: reject cyclic graphs, interpret from the entry
/// block, close every slot, optimize the return expression once, and
/// package it with the signature. Succeeds and fails exactly as
/// [`spec_eval_mir`] describes.
#[verifier::loop_isolation(false)]
#[verifier::rlimit(80)]
pub fn eval_mir(def_id: usize, f: &Function) -> (r: Result<FuncDef, EvalError>)
    ensures
        fd_res_view(r) == spec_eval_mir(def_id, *f),
{
    proof {
        lemma_find_loop_decides_cycles(*f);
    }
    if find_loop(f).is_some() {
        return Err(EvalError::LoopUnsupported);
    }
    let n = f.locals.len();
    if f.args >= n {
        return Err(EvalError::UnsupportedConstruct);
    }
    let nargs = f.args + 1;
    let ghost raw_sig = tys_view(f.locals@.take(nargs as int));
    let ghost spec_sig = if spec_has_assert(*f) {
        raw_sig.update(0, TyV::Maybe(Box::new(raw_sig[0])))
    } else {
        raw_sig
    };
    proof {
        lemma_tys_view(f.locals@.take(nargs as int));
    }
    let wrap = has_assert(f);
    let mut sig_args: Vec<Ty> = Vec::new();
    let mut i: usize = 0;
    while i < nargs
        invariant
            i <= nargs,
            tys_view(sig_args@) == spec_sig.take(i as int),
        decreases nargs - i,
    {
        let t = copy_ty(&f.locals[i]);
        let ghost tv = t@;
        let ghost pre = sig_args@;
        if i == 0 && wrap {
            sig_args.push(Ty::Maybe(Box::new(t)));
        } else {
            sig_args.push(t);
        }
        proof {
            assert(sig_args@.drop_last() =~= pre);
            assert(f.locals@.take(nargs as int)[i as int] == f.locals@[i as int]);
            if i == 0 && wrap {
                assert(ty_view(sig_args@.last()) == TyV::Maybe(Box::new(tv)));
            } else {
                assert(ty_view(sig_args@.last()) == tv);
            }
            assert(spec_sig.take(i + 1) =~= spec_sig.take(i as int).push(spec_sig[i as int]));
        }
        i = i + 1;
    }
    proof {
        assert(spec_sig.take(nargs as int) =~= spec_sig);
    }
    let params = extract_params(f);
    let mut mem = Memory::new(n);
    // These allocations cannot fail: every slot they touch exists.
    let _ = mem.allocate(0, Expr::Uninitialized);
    let mut i: usize = 1;
    while i < nargs
        invariant
            1 <= i <= nargs,
            nargs <= n,
            mem@.len() == n,
            mem@[0] == Some(ExprV::Uninitialized),
            forall|j: int|
                1 <= j < i ==> mem@[j] == Some(
                    ExprV::Value(ValueV::Arg(j as usize, ty_view(f.locals@[j]))),
                ),
            forall|j: int| i <= j < n ==> mem@[j] is None,
        decreases nargs - i,
    {
        let _ = mem.allocate(i, Expr::Value(Value::Arg(i, copy_ty(&f.locals[i]))));
        i = i + 1;
    }
    let mut i: usize = nargs;
    while i < n
        invariant
            nargs <= i <= n,
            mem@.len() == n,
            mem@[0] == Some(ExprV::Uninitialized),
            forall|j: int|
                1 <= j < nargs ==> mem@[j] == Some(
                    ExprV::Value(ValueV::Arg(j as usize, ty_view(f.locals@[j]))),
                ),
            forall|j: int|
                nargs <= j < i ==> mem@[j] == (if is_live_local(*f, j as usize) {
                    None
                } else {
                    Some(ExprV::Uninitialized)
                }),
            forall|j: int| i <= j < n ==> mem@[j] is None,
        decreases n - i,
    {
        if !is_storage_live(f, i) {
            let _ = mem.allocate(i, Expr::Uninitialized);
        }
        i = i + 1;
    }
    proof {
        assert(mem@ =~= spec_initial_memory(*f));
    }
    let mut m = match run_from(f, mem, 0, f.blocks.len()) {
        Ok(m) => m,
        Err(err) => {
            return Err(err);
        },
    };
    let ghost m1v = m@;
    let mut i: usize = 1;
    while i < nargs
        invariant
            1 <= i <= nargs,
            spec_free_args(m1v, 1, nargs as int) == spec_free_args(m@, i as int, nargs as int),
        decreases nargs - i,
    {
        match m.free(i) {
            Ok(_) => (),
            Err(err) => {
                return Err(err);
            },
        }
        i = i + 1;
    }
    let ghost m2v = m@;
    let mut i: usize = nargs;
    while i < n
        invariant
            nargs <= i <= n,
            spec_free_locals(*f, m2v, nargs as int, n as int) == spec_free_locals(
                *f,
                m@,
                i as int,
                n as int,
            ),
        decreases n - i,
    {
        if !is_storage_dead(f, i) {
            match m.free(i) {
                Ok(_) => (),
                Err(err) => {
                    return Err(err);
                },
            }
        }
        i = i + 1;
    }
    let body_raw = match m.free(0) {
        Ok(e) => e,
        Err(err) => {
            return Err(err);
        },
    };
    let body = body_raw.optimize();
    if m.is_empty() {
        Ok(FuncDef { def_id, body, ty: Ty::Func(sig_args, params) })
    } else {
        Err(EvalError::UnbalancedLifetime)
    }
}


/// The views of a list of finished definitions.
pub open spec fn fds_view(v: Seq<FuncDef>) -> Seq<FuncDefV>
    decreases v,
{
    if v.len() == 0 {
        Seq::empty()
    } else {
        fds_view(v.drop_last()).push(v.last()@)
    }
}

pub open spec fn fds_res_view(r: Result<Vec<FuncDef>, EvalError>) -> Result<
    Seq<FuncDefV>,
    EvalError,
> {
    match r {
        Ok(v) => Ok(fds_view(v@)),
        Err(err) => Err(err),
    }
}

/// The conversions of a batch, from position `i` on; the first failure
/// abandons the batch.
pub open spec fn spec_eval_all(fs: Seq<(usize, Function)>, i: int) -> Result<
    Seq<FuncDefV>,
    EvalError,
>
    decreases fs.len() - i,
    when 0 <= i <= fs.len()
{
    if i >= fs.len() {
        Ok(Seq::empty())
    } else {
        match spec_eval_mir(fs[i].0, fs[i].1) {
            Err(err) => Err(err),
            Ok(fd) => match spec_eval_all(fs, i + 1) {
                Err(err) => Err(err),
                Ok(rest) => Ok(seq![fd] + rest),
            },
        }
    }
}

/// Convert a whole batch of functions, each named by its identity token,
/// stopping at the first failure.
#[verifier::loop_isolation(false)]
pub fn eval_all(fs: &Vec<(usize, Function)>) -> (r: Result<Vec<FuncDef>, EvalError>)
    ensures
        fds_res_view(r) == spec_eval_all(fs@, 0),
{
    let mut out: Vec<FuncDef> = Vec::new();
    let mut i: usize = 0;
    while i < fs.len()
        invariant
            i <= fs@.len(),
            spec_eval_all(fs@, 0) == (match spec_eval_all(fs@, i as int) {
                Ok(rest) => Ok(fds_view(out@) + rest),
                Err(err) => Err(err),
            }),
        decreases fs@.len() - i,
    {
        match eval_mir(fs[i].0, &fs[i].1) {
            Err(err) => {
                return Err(err);
            },
            Ok(fd) => {
                let ghost pre = out@;
                let ghost fv = fd@;
                out.push(fd);
                proof {
                    assert(fds_view(out@) == fds_view(pre).push(fv)) by {
                        assert(out@.drop_last() =~= pre);
                    }
                    match spec_eval_all(fs@, i + 1) {
                        Ok(rest2) => {
                            assert(fds_view(pre) + (seq![fv] + rest2) =~= fds_view(out@)
                                + rest2);
                        },
                        Err(_) => {},
                    }
                }
            },
        }
        i = i + 1;
    }
    proof {
        assert(fds_view(out@) + Seq::<FuncDefV>::empty() =~= fds_view(out@));
    }
    Ok(out)
}

} // verus!
