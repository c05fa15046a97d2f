use sire::mir::BinOp;
use sire::sir::copy_expr;
use sire::sir::expr_eq;
use sire::sir::Expr;
use sire::sir::Ty;
use sire::sir::Value;

fn arg(n: usize) -> Expr {
    Expr::Value(Value::Arg(n, Ty::Uint(32)))
}

fn pair(a: Expr, b: Expr) -> Expr {
    Expr::Tuple(vec![a, b])
}

#[test]
fn projection_of_first_field_folds() {
    let e = Expr::Projection(Box::new(pair(arg(1), arg(2))), 0);
    assert!(expr_eq(&e.optimize(), &arg(1)));
}

#[test]
fn projection_of_second_field_folds() {
    let e = Expr::Projection(Box::new(pair(arg(1), arg(2))), 1);
    assert!(expr_eq(&e.optimize(), &arg(2)));
}

#[test]
fn out_of_range_projection_stays() {
    let e = Expr::Projection(Box::new(pair(arg(1), arg(2))), 2);
    let expected = Expr::Projection(Box::new(pair(arg(1), arg(2))), 2);
    assert!(expr_eq(&e.optimize(), &expected));
}

#[test]
fn nested_projections_fold_bottom_up() {
    // proj(proj(((a, b), c), 0), 1) folds all the way to b
    let inner = pair(arg(1), arg(2));
    let outer = pair(inner, arg(3));
    let e = Expr::Projection(Box::new(Expr::Projection(Box::new(outer), 0)), 1);
    assert!(expr_eq(&e.optimize(), &arg(2)));
}

#[test]
fn folding_happens_under_other_nodes() {
    let folded = Expr::Projection(Box::new(pair(arg(1), arg(2))), 0);
    let e = Expr::BinaryOp(BinOp::Add, Box::new(folded), Box::new(arg(3)));
    let expected = Expr::BinaryOp(BinOp::Add, Box::new(arg(1)), Box::new(arg(3)));
    assert!(expr_eq(&e.optimize(), &expected));
}

#[test]
fn optimizing_twice_changes_nothing() {
    let e = Expr::Switch(
        Box::new(Expr::BinaryOp(BinOp::Gt, Box::new(arg(1)), Box::new(arg(2)))),
        vec![Expr::Value(Value::Const(0, Ty::Bool))],
        vec![
            Expr::Projection(Box::new(pair(arg(2), arg(1))), 0),
            Expr::Projection(Box::new(pair(arg(1), arg(2))), 17),
        ],
    );
    let once = e.optimize();
    let twice = once.optimize();
    assert!(expr_eq(&once, &twice));
}

#[test]
fn leaves_pass_through_unchanged() {
    let e = Expr::Value(Value::Const(42, Ty::Uint(8)));
    assert!(expr_eq(&e.optimize(), &copy_expr(&e)));
    let n = Expr::Nothing(Ty::Maybe(Box::new(Ty::Uint(8))));
    assert!(expr_eq(&n.optimize(), &copy_expr(&n)));
}
