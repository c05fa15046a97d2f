use sire::equiv::gen_equality_assertion;
use sire::equiv::equality_query;
use sire::equiv::CheckResult;
use sire::mir::BinOp;
use sire::sir::Expr;
use sire::sir::FuncDef;
use sire::sir::Param;
use sire::sir::Ty;
use sire::sir::Value;

fn arg(n: usize) -> Expr {
    Expr::Value(Value::Arg(n, Ty::Uint(32)))
}

fn sig32() -> Ty {
    Ty::Func(vec![Ty::Uint(32), Ty::Uint(32)], vec![])
}

/// `f(x) = x + x`.
fn double_by_add() -> FuncDef {
    FuncDef {
        def_id: 1,
        body: Expr::BinaryOp(BinOp::Add, Box::new(arg(1)), Box::new(arg(1))),
        ty: sig32(),
    }
}

/// `g(x) = 2 * x`.
fn double_by_mul() -> FuncDef {
    FuncDef {
        def_id: 2,
        body: Expr::BinaryOp(
            BinOp::Mul,
            Box::new(Expr::Value(Value::Const(2, Ty::Uint(32)))),
            Box::new(arg(1)),
        ),
        ty: sig32(),
    }
}

/// `h(x) = x`.
fn identity() -> FuncDef {
    FuncDef { def_id: 2, body: arg(1), ty: sig32() }
}

#[test]
fn classification_of_solver_answers() {
    assert_eq!(CheckResult::from_string("sat\n".to_owned()), CheckResult::Sat);
    assert_eq!(CheckResult::from_string("unsat\n".to_owned()), CheckResult::Unsat);
    assert_eq!(CheckResult::from_string("unknown\n".to_owned()), CheckResult::Undecided);
    assert_eq!(
        CheckResult::from_string("timeout\n".to_owned()),
        CheckResult::Unknown("timeout\n".to_owned())
    );
    // Without the trailing line break the answer is preserved verbatim.
    assert_eq!(
        CheckResult::from_string("sat".to_owned()),
        CheckResult::Unknown("sat".to_owned())
    );
}

#[test]
fn the_assertion_quantifies_over_all_arguments() {
    let args = vec![Ty::Uint(32), Ty::Uint(32)];
    let params: Vec<Param> = vec![];
    assert_eq!(
        gen_equality_assertion(1, 2, &args, &params),
        "(assert (forall ((x1 (_ BitVec 32))) (= (func_1 x1) (func_2 x1))))"
    );
}

#[test]
fn the_assertion_for_constants_is_a_direct_equality() {
    let args = vec![Ty::Uint(32)];
    let params: Vec<Param> = vec![];
    assert_eq!(gen_equality_assertion(1, 2, &args, &params), "(assert (= func_1 func_2))");
}

#[test]
fn parameters_are_quantified_too() {
    let args = vec![Ty::Uint(32)];
    let params = vec![Param(0, Ty::Uint(8))];
    assert_eq!(
        gen_equality_assertion(1, 2, &args, &params),
        "(assert (forall ((p0 (_ BitVec 8))) (= (func_1 p0) (func_2 p0))))"
    );
}

#[test]
fn matching_signatures_yield_one_script() {
    let a = double_by_add();
    let b = double_by_mul();
    let script = equality_query(&a, &b).unwrap();
    let lines: Vec<&str> = script.lines().collect();
    assert_eq!(
        lines[0],
        "(declare-datatypes (T1 T2) ((Tuple (tuple (first T1) (second T2)))))"
    );
    assert_eq!(lines[1], "(declare-datatypes (T1) ((Maybe nothing (just (from-maybe T1)))))");
    assert_eq!(lines[2], "(declare-datatypes () ((Unit (unit))))");
    assert_eq!(
        lines[3],
        "(define-fun func_1 ((x1 (_ BitVec 32))) (_ BitVec 32) (bvadd x1 x1))"
    );
    assert_eq!(
        lines[4],
        "(define-fun func_2 ((x1 (_ BitVec 32))) (_ BitVec 32) (bvmul (_ bv2 32) x1))"
    );
    assert_eq!(
        lines[5],
        "(assert (forall ((x1 (_ BitVec 32))) (= (func_1 x1) (func_2 x1))))"
    );
    assert_eq!(lines[6], "(check-sat)");
    assert_eq!(lines.len(), 7);
}

#[test]
fn a_differing_pair_still_goes_to_the_solver() {
    // Equal signatures but different bodies: only the solver can decide,
    // so a script is produced.
    let a = double_by_add();
    let b = identity();
    assert!(equality_query(&a, &b).is_some());
}

#[test]
fn signature_mismatch_asks_no_oracle() {
    let a = double_by_add();
    let b = FuncDef {
        def_id: 2,
        body: Expr::Value(Value::Arg(1, Ty::Uint(64))),
        ty: Ty::Func(vec![Ty::Uint(64), Ty::Uint(64)], vec![]),
    };
    let mut oracle_calls: usize = 0;
    if let Some(_script) = equality_query(&a, &b) {
        // This is where a caller would hand the script to its solver.
        oracle_calls += 1;
    }
    assert_eq!(oracle_calls, 0);
}

#[test]
fn differing_parameter_lists_also_short_circuit() {
    let a = double_by_add();
    let b = FuncDef {
        def_id: 2,
        body: arg(1),
        ty: Ty::Func(vec![Ty::Uint(32), Ty::Uint(32)], vec![Param(0, Ty::Uint(8))]),
    };
    assert!(equality_query(&a, &b).is_none());
}

#[test]
fn tuple_instances_are_declared_in_the_script() {
    // A body that builds a pair forces a declaration of its pair sort.
    let body = Expr::Tuple(vec![arg(1), Expr::Value(Value::Const(1, Ty::Bool))]);
    let ty = Ty::Func(
        vec![Ty::Tuple(vec![Ty::Uint(32), Ty::Bool]), Ty::Uint(32)],
        vec![],
    );
    let a = FuncDef { def_id: 1, body, ty };
    let b = FuncDef {
        def_id: 2,
        body: Expr::Tuple(vec![arg(1), Expr::Value(Value::Const(0, Ty::Bool))]),
        ty: Ty::Func(vec![Ty::Tuple(vec![Ty::Uint(32), Ty::Bool]), Ty::Uint(32)], vec![]),
    };
    let script = equality_query(&a, &b).unwrap();
    assert!(script.contains("(declare-const inst0 (Tuple (_ BitVec 32) Bool))"));
    assert!(script.contains("(declare-const inst1 (Tuple (_ BitVec 32) Bool))"));
}

#[test]
fn instances_found_once_per_body() {
    let body = Expr::Tuple(vec![arg(1), Expr::Value(Value::Const(1, Ty::Bool))]);
    let insts = body.find_datatype_instances();
    assert_eq!(insts.len(), 1);
    assert!(sire::sir::ty_eq(&insts[0], &Ty::Tuple(vec![Ty::Uint(32), Ty::Bool])));
}
