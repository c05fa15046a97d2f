use sire::mir::BinOp;
use sire::sir::Expr;
use sire::sir::FuncDef;
use sire::sir::Param;
use sire::sir::Ty;
use sire::sir::Value;
use sire::smtlib::u128_dec;
use sire::smtlib::usize_dec;
use sire::smtlib::ToSmtlib;

fn arg(n: usize) -> Expr {
    Expr::Value(Value::Arg(n, Ty::Uint(32)))
}

fn iarg(n: usize) -> Expr {
    Expr::Value(Value::Arg(n, Ty::Int(32)))
}

#[test]
fn decimal_rendering_is_exact() {
    assert_eq!(u128_dec(0), "0");
    assert_eq!(u128_dec(9), "9");
    assert_eq!(u128_dec(10), "10");
    assert_eq!(u128_dec(12345), "12345");
    assert_eq!(u128_dec(340282366920938463463374607431768211455), "340282366920938463463374607431768211455");
    assert_eq!(usize_dec(4096), "4096");
}

#[test]
fn sorts_render_exactly() {
    assert_eq!(Ty::Bool.to_smtlib(), "Bool");
    assert_eq!(Ty::Uint(32).to_smtlib(), "(_ BitVec 32)");
    assert_eq!(Ty::Int(64).to_smtlib(), "(_ BitVec 64)");
    assert_eq!(
        Ty::Tuple(vec![Ty::Uint(64), Ty::Bool]).to_smtlib(),
        "(Tuple (_ BitVec 64) Bool)"
    );
    assert_eq!(
        Ty::Tuple(vec![Ty::Uint(8), Ty::Uint(16), Ty::Bool]).to_smtlib(),
        "(Tuple (_ BitVec 8) (Tuple (_ BitVec 16) Bool))"
    );
    assert_eq!(Ty::Tuple(vec![]).to_smtlib(), "Unit");
    assert_eq!(
        Ty::Maybe(Box::new(Ty::Uint(64))).to_smtlib(),
        "(Maybe (_ BitVec 64))"
    );
}

#[test]
fn values_render_exactly() {
    assert_eq!(Value::Arg(1, Ty::Uint(32)).to_smtlib(), "x1");
    assert_eq!(Value::Const(1, Ty::Bool).to_smtlib(), "true");
    assert_eq!(Value::Const(0, Ty::Bool).to_smtlib(), "false");
    assert_eq!(Value::Const(7, Ty::Uint(32)).to_smtlib(), "(_ bv7 32)");
    assert_eq!(Value::Const(5, Ty::Int(8)).to_smtlib(), "(_ bv5 8)");
    assert_eq!(Value::Function(3, Ty::Func(vec![], vec![])).to_smtlib(), "func_3");
    assert_eq!(Value::ConstParam(Param(2, Ty::Uint(8))).to_smtlib(), "p2");
    assert_eq!(Param(2, Ty::Uint(8)).to_smtlib(), "p2");
}

#[test]
fn unsigned_operators_use_the_unsigned_table() {
    let e = Expr::BinaryOp(BinOp::Div, Box::new(arg(1)), Box::new(arg(2)));
    assert_eq!(e.to_smtlib(), "(bvudiv x1 x2)");
    let l = Expr::BinaryOp(BinOp::Lt, Box::new(arg(1)), Box::new(arg(2)));
    assert_eq!(l.to_smtlib(), "(bvult x1 x2)");
}

#[test]
fn signed_operators_use_the_signed_table() {
    let e = Expr::BinaryOp(BinOp::Div, Box::new(iarg(1)), Box::new(iarg(2)));
    assert_eq!(e.to_smtlib(), "(bvsdiv x1 x2)");
    let g = Expr::BinaryOp(BinOp::Ge, Box::new(iarg(1)), Box::new(iarg(2)));
    assert_eq!(g.to_smtlib(), "(bvsge x1 x2)");
}

#[test]
fn a_boolean_switch_with_one_case_is_one_ite() {
    let cond = Expr::BinaryOp(BinOp::Gt, Box::new(arg(1)), Box::new(arg(2)));
    let e = Expr::Switch(
        Box::new(cond),
        vec![Expr::Value(Value::Const(0, Ty::Bool))],
        vec![arg(2), arg(1)],
    );
    // Branch 1 is the then-value, branch 0 the else-value.
    assert_eq!(e.to_smtlib(), "(ite (bvugt x1 x2) x1 x2)");
}

#[test]
fn a_general_switch_becomes_a_comparison_chain() {
    let e = Expr::Switch(
        Box::new(arg(1)),
        vec![
            Expr::Value(Value::Const(0, Ty::Uint(32))),
            Expr::Value(Value::Const(1, Ty::Uint(32))),
        ],
        vec![arg(2), arg(3), arg(4)],
    );
    assert_eq!(
        e.to_smtlib(),
        "(ite (= x1 (_ bv0 32)) x2 (ite (= x1 (_ bv1 32)) x3 x4))"
    );
}

#[test]
fn tuples_and_projections_use_the_pair_constructors() {
    let t = Expr::Tuple(vec![arg(1), Expr::Value(Value::Const(1, Ty::Bool))]);
    assert_eq!(t.to_smtlib(), "(tuple x1 true)");
    let p0 = Expr::Projection(
        Box::new(Expr::Tuple(vec![arg(1), arg(2)])),
        0,
    );
    assert_eq!(p0.to_smtlib(), "(first (tuple x1 x2))");
    let p1 = Expr::Projection(
        Box::new(Expr::Tuple(vec![arg(1), arg(2)])),
        1,
    );
    assert_eq!(p1.to_smtlib(), "(second (tuple x1 x2))");
}

#[test]
fn optional_values_use_the_sum_constructors() {
    let j = Expr::Just(Box::new(arg(1)));
    assert_eq!(j.to_smtlib(), "(just x1)");
    let n = Expr::Nothing(Ty::Maybe(Box::new(Ty::Uint(32))));
    assert_eq!(n.to_smtlib(), "nothing");
}

#[test]
fn applications_name_the_callee_and_join_the_arguments() {
    let callee_ty = Ty::Func(vec![Ty::Uint(32), Ty::Uint(32), Ty::Uint(32)], vec![]);
    let e = Expr::Apply(
        Box::new(Expr::Value(Value::Function(4, callee_ty))),
        vec![arg(1), arg(2)],
    );
    assert_eq!(e.to_smtlib(), "(func_4 x1 x2)");
}

#[test]
fn a_plain_definition_uses_define_fun() {
    let body = Expr::BinaryOp(BinOp::Add, Box::new(arg(1)), Box::new(arg(1)));
    let fd = FuncDef {
        def_id: 1,
        body,
        ty: Ty::Func(vec![Ty::Uint(32), Ty::Uint(32)], vec![]),
    };
    assert_eq!(
        fd.to_smtlib(),
        "(define-fun func_1 ((x1 (_ BitVec 32))) (_ BitVec 32) (bvadd x1 x1))"
    );
}

#[test]
fn a_recursive_definition_uses_define_fun_rec() {
    let fty = Ty::Func(vec![Ty::Uint(32), Ty::Uint(32)], vec![]);
    let self_ref = Expr::Value(Value::Function(2, sire::sir::copy_ty(&fty)));
    let body = Expr::Apply(Box::new(self_ref), vec![arg(1)]);
    let fd = FuncDef { def_id: 2, body, ty: fty };
    assert!(fd.is_recursive());
    let text = fd.to_smtlib();
    assert!(text.starts_with("(define-fun-rec "));
    assert_eq!(
        text,
        "(define-fun-rec func_2 ((x1 (_ BitVec 32))) (_ BitVec 32) (func_2 x1))"
    );
}

#[test]
fn parameters_follow_the_runtime_arguments() {
    let body = Expr::Value(Value::ConstParam(Param(0, Ty::Uint(32))));
    let fd = FuncDef {
        def_id: 3,
        body,
        ty: Ty::Func(vec![Ty::Uint(32), Ty::Uint(32)], vec![Param(0, Ty::Uint(32))]),
    };
    assert_eq!(
        fd.to_smtlib(),
        "(define-fun func_3 ((x1 (_ BitVec 32)) (p0 (_ BitVec 32))) (_ BitVec 32) p0)"
    );
}
