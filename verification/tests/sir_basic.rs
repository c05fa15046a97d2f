use sire::mir::BinOp;
use sire::sir::copy_expr;
use sire::sir::copy_ty;
use sire::sir::expr_eq;
use sire::sir::ty_eq;
use sire::sir::Expr;
use sire::sir::FuncDef;
use sire::sir::Param;
use sire::sir::Ty;
use sire::sir::Typed;
use sire::sir::Value;

fn u32_ty() -> Ty {
    Ty::Uint(32)
}

fn arg(n: usize) -> Expr {
    Expr::Value(Value::Arg(n, u32_ty()))
}

#[test]
fn bits_of_primitives() {
    assert_eq!(Ty::Int(64).bits(), Some(64));
    assert_eq!(Ty::Uint(32).bits(), Some(32));
    assert_eq!(Ty::Bool.bits(), Some(8));
    assert_eq!(Ty::Func(vec![], vec![]).bits(), None);
}

#[test]
fn bits_of_tuples_sum_their_fields() {
    let t = Ty::Tuple(vec![Ty::Uint(64), Ty::Bool]);
    assert_eq!(t.bits(), Some(72));
    assert_eq!(t.bytes(), Some(9));
    assert_eq!(t.size(), Some(72));
    let undef = Ty::Tuple(vec![Ty::Uint(8), Ty::Func(vec![], vec![])]);
    assert_eq!(undef.bits(), None);
}

#[test]
fn bytes_divides_bits_by_eight() {
    assert_eq!(Ty::Uint(32).bytes(), Some(4));
    assert_eq!(Ty::Bool.bytes(), Some(1));
}

#[test]
fn copies_are_equal() {
    let e = Expr::BinaryOp(BinOp::Add, Box::new(arg(1)), Box::new(arg(2)));
    let c = copy_expr(&e);
    assert!(expr_eq(&e, &c));
    let t = Ty::Tuple(vec![Ty::Uint(8), Ty::Bool]);
    assert!(ty_eq(&t, &copy_ty(&t)));
}

#[test]
fn equality_distinguishes_different_trees() {
    let a = Expr::BinaryOp(BinOp::Add, Box::new(arg(1)), Box::new(arg(1)));
    let b = Expr::BinaryOp(BinOp::Mul, Box::new(arg(1)), Box::new(arg(1)));
    let c = Expr::BinaryOp(BinOp::Add, Box::new(arg(1)), Box::new(arg(2)));
    assert!(!expr_eq(&a, &b));
    assert!(!expr_eq(&a, &c));
    assert!(expr_eq(&a, &copy_expr(&a)));
}

#[test]
fn contains_finds_nested_subtrees() {
    let needle = arg(2);
    let hay = Expr::Apply(
        Box::new(Expr::Value(Value::Function(7, u32_ty()))),
        vec![Expr::BinaryOp(BinOp::Sub, Box::new(arg(1)), Box::new(arg(2)))],
    );
    assert!(hay.contains(&needle));
    assert!(!hay.contains(&arg(3)));
    assert!(hay.contains(&hay));
}

#[test]
fn replace_substitutes_every_occurrence() {
    let gt = Expr::BinaryOp(BinOp::Gt, Box::new(arg(1)), Box::new(arg(2)));
    let tree = Expr::Tuple(vec![copy_expr(&gt), arg(1), copy_expr(&gt)]);
    let lit = Expr::Value(Value::Const(0, Ty::Bool));
    let out = tree.replace(&gt, &lit);
    let expected = Expr::Tuple(vec![copy_expr(&lit), arg(1), copy_expr(&lit)]);
    assert!(expr_eq(&out, &expected));
    assert!(!out.contains(&gt));
}

#[test]
fn expr_types_follow_the_structure() {
    let cmp = Expr::BinaryOp(BinOp::Le, Box::new(arg(1)), Box::new(arg(2)));
    assert!(ty_eq(&cmp.ty().unwrap(), &Ty::Bool));
    let add = Expr::BinaryOp(BinOp::Add, Box::new(arg(1)), Box::new(arg(2)));
    assert!(ty_eq(&add.ty().unwrap(), &Ty::Uint(32)));
    let tup = Expr::Tuple(vec![arg(1), Expr::Value(Value::Const(1, Ty::Bool))]);
    assert!(ty_eq(&tup.ty().unwrap(), &Ty::Tuple(vec![Ty::Uint(32), Ty::Bool])));
    let proj = Expr::Projection(Box::new(tup), 1);
    assert!(ty_eq(&proj.ty().unwrap(), &Ty::Bool));
    assert!(Expr::Uninitialized.ty().is_none());
}

#[test]
fn typed_values_report_their_types() {
    let v = Value::Arg(1, Ty::Int(16));
    assert!(ty_eq(&v.ty(), &Ty::Int(16)));
    let p = Param(3, Ty::Uint(8));
    assert!(ty_eq(&p.ty(), &Ty::Uint(8)));
    let v2 = Value::ConstParam(Param(0, Ty::Bool));
    assert!(ty_eq(&v2.ty(), &Ty::Bool));
}

#[test]
fn recursion_tagging_spots_a_self_call() {
    let fty = Ty::Func(vec![Ty::Uint(32), Ty::Uint(32)], vec![]);
    let self_ref = Expr::Value(Value::Function(5, copy_ty(&fty)));
    let body = Expr::Apply(Box::new(self_ref), vec![arg(1)]);
    let fd = FuncDef { def_id: 5, body, ty: fty };
    assert!(fd.is_recursive());
}

#[test]
fn recursion_tagging_ignores_other_calls() {
    let fty = Ty::Func(vec![Ty::Uint(32), Ty::Uint(32)], vec![]);
    let other = Expr::Value(Value::Function(6, copy_ty(&fty)));
    let body = Expr::Apply(Box::new(other), vec![arg(1)]);
    let fd = FuncDef { def_id: 5, body, ty: fty };
    assert!(!fd.is_recursive());
}
