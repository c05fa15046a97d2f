use sire::mir::BinOp;
use sire::sir::Expr;
use sire::sir::FuncDef;
use sire::sir::Param;
use sire::sir::Ty;
use sire::sir::Value;

fn arg(n: usize) -> Expr {
    Expr::Value(Value::Arg(n, Ty::Uint(32)))
}

#[test]
fn types_print_in_prefix_notation() {
    assert_eq!(Ty::Int(32).to_text(), "(int 32)");
    assert_eq!(Ty::Uint(8).to_text(), "(uint 8)");
    assert_eq!(Ty::Bool.to_text(), "bool");
    assert_eq!(Ty::Tuple(vec![Ty::Uint(8), Ty::Bool]).to_text(), "(tuple (uint 8) bool)");
    assert_eq!(Ty::Maybe(Box::new(Ty::Uint(8))).to_text(), "(maybe (uint 8))");
}

#[test]
fn values_print_in_prefix_notation() {
    assert_eq!(Value::Arg(2, Ty::Uint(32)).to_text(), "_2");
    assert_eq!(Value::Const(7, Ty::Uint(32)).to_text(), "(const (uint 32) 7)");
    assert_eq!(Value::Function(4, Ty::Func(vec![], vec![])).to_text(), "func_4");
    assert_eq!(Value::ConstParam(Param(1, Ty::Bool)).to_text(), "p1");
    assert_eq!(Param(1, Ty::Bool).to_text(), "(p1 bool)");
}

#[test]
fn operators_print_with_their_tokens() {
    let e = Expr::BinaryOp(BinOp::Le, Box::new(arg(1)), Box::new(arg(2)));
    assert_eq!(e.to_text(), "(<= _1 _2)");
    let m = Expr::BinaryOp(BinOp::Rem, Box::new(arg(1)), Box::new(arg(2)));
    assert_eq!(m.to_text(), "(% _1 _2)");
}

#[test]
fn switches_print_their_cases_and_default() {
    let e = Expr::Switch(
        Box::new(Expr::BinaryOp(BinOp::Gt, Box::new(arg(1)), Box::new(arg(2)))),
        vec![Expr::Value(Value::Const(0, Ty::Bool))],
        vec![
            Expr::BinaryOp(BinOp::Sub, Box::new(arg(2)), Box::new(arg(1))),
            Expr::BinaryOp(BinOp::Sub, Box::new(arg(1)), Box::new(arg(2))),
        ],
    );
    assert_eq!(
        e.to_text(),
        "(switch (> _1 _2) ((const bool 0) -> (- _2 _1)) (else -> (- _1 _2)))"
    );
}

#[test]
fn tuples_and_projections_print_in_prefix_notation() {
    let t = Expr::Tuple(vec![arg(1), arg(2)]);
    assert_eq!(t.to_text(), "(tuple _1 _2)");
    let p = Expr::Projection(Box::new(Expr::Tuple(vec![arg(1), arg(2)])), 0);
    assert_eq!(p.to_text(), "(proj (tuple _1 _2) 0)");
}

#[test]
fn optional_values_print_in_prefix_notation() {
    let j = Expr::Just(Box::new(arg(1)));
    assert_eq!(j.to_text(), "(just _1)");
    let n = Expr::Nothing(Ty::Maybe(Box::new(Ty::Uint(32))));
    assert_eq!(n.to_text(), "(nothing (maybe (uint 32)))");
    assert_eq!(Expr::Uninitialized.to_text(), "uninitialized");
}

#[test]
fn definitions_print_as_defun_forms() {
    let body = Expr::BinaryOp(BinOp::Add, Box::new(arg(1)), Box::new(arg(1)));
    let fd = FuncDef {
        def_id: 1,
        body,
        ty: Ty::Func(vec![Ty::Uint(32), Ty::Uint(32)], vec![]),
    };
    assert_eq!(fd.to_text(), "(defun func_1 ((uint 32)) (uint 32) (+ _1 _1))");
}
