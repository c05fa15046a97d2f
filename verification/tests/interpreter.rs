use sire::analysis::find_loop;
use sire::eval::eval_all;
use sire::eval::eval_mir;
use sire::memory::EvalError;
use sire::mir::BinOp;
use sire::mir::Block;
use sire::mir::BlockID;
use sire::mir::Function;
use sire::mir::Operand;
use sire::mir::Place;
use sire::mir::Rvalue;
use sire::mir::Statement;
use sire::mir::Terminator;
use sire::sir::expr_eq;
use sire::sir::ty_eq;
use sire::sir::Expr;
use sire::sir::Ty;
use sire::sir::Value;

fn u32_ty() -> Ty {
    Ty::Uint(32)
}

fn arg(n: usize) -> Expr {
    Expr::Value(Value::Arg(n, u32_ty()))
}

fn mv(l: usize) -> Operand {
    Operand::Move(Place::Local(l))
}

/// `f(x, y) = if x > y { x - y } else { y - x }` over `Uint(32)`.
fn distance_cfg() -> Function {
    let b0 = Block::new(
        vec![
            Statement::StorageLive(3),
            Statement::Assign(Place::Local(3), Rvalue::BinaryOp(BinOp::Gt, mv(1), mv(2))),
        ],
        Terminator::SwitchInt(mv(3), Ty::Bool, vec![(0, BlockID(2))], BlockID(1)),
    );
    let b1 = Block::new(
        vec![Statement::Assign(Place::Local(0), Rvalue::BinaryOp(BinOp::Sub, mv(1), mv(2)))],
        Terminator::Goto(BlockID(3)),
    );
    let b2 = Block::new(
        vec![Statement::Assign(Place::Local(0), Rvalue::BinaryOp(BinOp::Sub, mv(2), mv(1)))],
        Terminator::Goto(BlockID(3)),
    );
    let b3 = Block::new(vec![Statement::StorageDead(3)], Terminator::Return);
    Function::new(
        vec![u32_ty(), u32_ty(), u32_ty(), Ty::Bool],
        2,
        vec![b0, b1, b2, b3],
    )
}

#[test]
fn branch_specialization_produces_the_merged_switch() {
    let f = distance_cfg();
    let fd = eval_mir(1, &f).unwrap();
    let gt = Expr::BinaryOp(BinOp::Gt, Box::new(arg(1)), Box::new(arg(2)));
    let expected = Expr::Switch(
        Box::new(gt),
        vec![Expr::Value(Value::Const(0, Ty::Bool))],
        vec![
            Expr::BinaryOp(BinOp::Sub, Box::new(arg(2)), Box::new(arg(1))),
            Expr::BinaryOp(BinOp::Sub, Box::new(arg(1)), Box::new(arg(2))),
        ],
    );
    assert!(expr_eq(&fd.body, &expected));
    // No residual comparison inside either branch.
    let gt2 = Expr::BinaryOp(BinOp::Gt, Box::new(arg(1)), Box::new(arg(2)));
    match &fd.body {
        Expr::Switch(_, _, branches) => {
            assert!(!branches[0].contains(&gt2));
            assert!(!branches[1].contains(&gt2));
        },
        _ => panic!("expected a switch body"),
    }
    assert!(ty_eq(&fd.ty, &Ty::Func(vec![u32_ty(), u32_ty(), u32_ty()], vec![])));
    assert!(!fd.is_recursive());
}

/// One reachable assert with expected polarity `true`.
fn asserting_cfg() -> Function {
    let b0 = Block::new(
        vec![],
        Terminator::Assert(Operand::Move(Place::Local(1)), true, BlockID(1)),
    );
    let b1 = Block::new(
        vec![
            Statement::Assign(
                Place::Local(0),
                Rvalue::Use(Operand::Constant(sire::mir::Constant::Literal(7, u32_ty()))),
            ),
        ],
        Terminator::Return,
    );
    Function::new(vec![u32_ty(), Ty::Bool], 1, vec![b0, b1])
}

#[test]
fn panic_wrapping_makes_the_result_optional() {
    let f = asserting_cfg();
    let fd = eval_mir(2, &f).unwrap();
    let cond = Expr::Value(Value::Arg(1, Ty::Bool));
    let expected = Expr::Switch(
        Box::new(cond),
        vec![Expr::Value(Value::Const(0, Ty::Bool))],
        vec![
            Expr::Nothing(Ty::Maybe(Box::new(u32_ty()))),
            Expr::Just(Box::new(Expr::Value(Value::Const(7, u32_ty())))),
        ],
    );
    assert!(expr_eq(&fd.body, &expected));
    // The declared return type is wrapped in the optional type.
    assert!(ty_eq(&fd.ty, &Ty::Func(vec![Ty::Maybe(Box::new(u32_ty())), Ty::Bool], vec![])));
}

#[test]
fn loop_rejection_fires_before_anything_else() {
    let b0 = Block::new(vec![], Terminator::Goto(BlockID(0)));
    let f = Function::new(vec![u32_ty()], 0, vec![b0]);
    assert!(find_loop(&f).is_some());
    assert_eq!(eval_mir(3, &f).unwrap_err(), EvalError::LoopUnsupported);
}

#[test]
fn longer_cycles_are_found_too() {
    let b0 = Block::new(
        vec![],
        Terminator::SwitchInt(
            Operand::Constant(sire::mir::Constant::Literal(0, u32_ty())),
            u32_ty(),
            vec![(0, BlockID(1))],
            BlockID(2),
        ),
    );
    let b1 = Block::new(vec![], Terminator::Goto(BlockID(0)));
    let b2 = Block::new(vec![], Terminator::Return);
    let f = Function::new(vec![u32_ty()], 0, vec![b0, b1, b2]);
    let cycle = find_loop(&f).unwrap();
    assert!(cycle.len() >= 1);
    assert_eq!(eval_mir(4, &f).unwrap_err(), EvalError::LoopUnsupported);
}

#[test]
fn acyclic_graphs_pass_the_cycle_search() {
    let f = distance_cfg();
    assert!(find_loop(&f).is_none());
}

#[test]
fn a_missing_argument_slot_is_rejected() {
    let b0 = Block::new(vec![], Terminator::Return);
    let f = Function::new(vec![u32_ty()], 1, vec![b0]);
    assert_eq!(eval_mir(5, &f).unwrap_err(), EvalError::UnsupportedConstruct);
}

#[test]
fn freeing_a_slot_twice_is_a_double_free() {
    let b0 = Block::new(
        vec![
            Statement::StorageLive(1),
            Statement::StorageDead(1),
            Statement::StorageDead(1),
        ],
        Terminator::Return,
    );
    let f = Function::new(vec![u32_ty(), Ty::Bool], 0, vec![b0]);
    assert_eq!(eval_mir(6, &f).unwrap_err(), EvalError::DoubleFree);
}

#[test]
fn writing_a_dead_slot_is_an_unbound_location() {
    // Slot 1 is managed by storage markers, so it starts free; the
    // assignment runs before the marker opens it.
    let b0 = Block::new(
        vec![
            Statement::Assign(
                Place::Local(1),
                Rvalue::Use(Operand::Constant(sire::mir::Constant::Literal(1, u32_ty()))),
            ),
            Statement::StorageLive(1),
            Statement::StorageDead(1),
        ],
        Terminator::Return,
    );
    let f = Function::new(vec![u32_ty(), u32_ty()], 0, vec![b0]);
    assert_eq!(eval_mir(7, &f).unwrap_err(), EvalError::UnboundLocation);
}

#[test]
fn a_slot_left_live_is_an_unbalanced_lifetime() {
    // Block 2 would close slot 1, but it is unreachable.
    let b0 = Block::new(vec![Statement::StorageLive(1)], Terminator::Return);
    let b2 = Block::new(vec![Statement::StorageDead(1)], Terminator::Return);
    let f = Function::new(vec![u32_ty(), u32_ty()], 0, vec![b0, b2]);
    assert_eq!(eval_mir(8, &f).unwrap_err(), EvalError::UnbalancedLifetime);
}

#[test]
fn calls_become_applications() {
    // f(x) = g(x) for a callee with identity 9.
    let callee_ty = Ty::Func(vec![u32_ty(), u32_ty()], vec![]);
    let b0 = Block::new(
        vec![],
        Terminator::Call(
            Operand::Constant(sire::mir::Constant::Function(9, callee_ty)),
            vec![mv(1)],
            Place::Local(0),
            BlockID(1),
        ),
    );
    let b1 = Block::new(vec![], Terminator::Return);
    let f = Function::new(vec![u32_ty(), u32_ty()], 1, vec![b0, b1]);
    let fd = eval_mir(10, &f).unwrap();
    let expected = Expr::Apply(
        Box::new(Expr::Value(Value::Function(9, Ty::Func(vec![u32_ty(), u32_ty()], vec![])))),
        vec![arg(1)],
    );
    assert!(expr_eq(&fd.body, &expected));
}

#[test]
fn constant_parameters_enter_the_signature() {
    // f() = p0, a compile-time parameter of type Uint(32).
    let b0 = Block::new(
        vec![
            Statement::Assign(
                Place::Local(0),
                Rvalue::Use(Operand::Constant(sire::mir::Constant::Param(0, u32_ty()))),
            ),
        ],
        Terminator::Return,
    );
    let f = Function::new(vec![u32_ty()], 0, vec![b0]);
    let fd = eval_mir(11, &f).unwrap();
    let expected_ty = Ty::Func(vec![u32_ty()], vec![sire::sir::Param(0, u32_ty())]);
    assert!(ty_eq(&fd.ty, &expected_ty));
}

#[test]
fn tuple_fields_are_read_through_projections() {
    // Slot 1 holds a pair; the body returns its second field. The pair is
    // a plain local here, pre-set by an assignment from another local.
    let pair_ty = Ty::Tuple(vec![u32_ty(), u32_ty()]);
    let b0 = Block::new(
        vec![
            Statement::Assign(
                Place::Local(0),
                Rvalue::Use(Operand::Move(Place::Field(1, 1))),
            ),
        ],
        Terminator::Return,
    );
    let f = Function::new(vec![u32_ty(), pair_ty], 1, vec![b0]);
    let fd = eval_mir(12, &f).unwrap();
    let expected = Expr::Projection(
        Box::new(Expr::Value(Value::Arg(1, Ty::Tuple(vec![u32_ty(), u32_ty()])))),
        1,
    );
    assert!(expr_eq(&fd.body, &expected));
}

#[test]
fn branch_bodies_that_reread_the_discriminant_are_specialized() {
    // The guarded branch returns the discriminant expression itself; the
    // substitution replaces it with the case literal.
    let b0 = Block::new(
        vec![
            Statement::StorageLive(3),
            Statement::Assign(Place::Local(3), Rvalue::BinaryOp(BinOp::Gt, mv(1), mv(2))),
        ],
        Terminator::SwitchInt(mv(3), Ty::Bool, vec![(0, BlockID(2))], BlockID(1)),
    );
    let b1 = Block::new(
        vec![
            Statement::Assign(
                Place::Local(0),
                Rvalue::Use(Operand::Constant(sire::mir::Constant::Literal(1, u32_ty()))),
            ),
        ],
        Terminator::Goto(BlockID(3)),
    );
    let b2 = Block::new(
        vec![Statement::Assign(Place::Local(0), Rvalue::Use(mv(3)))],
        Terminator::Goto(BlockID(3)),
    );
    let b3 = Block::new(vec![Statement::StorageDead(3)], Terminator::Return);
    let f = Function::new(
        vec![u32_ty(), u32_ty(), u32_ty(), Ty::Bool],
        2,
        vec![b0, b1, b2, b3],
    );
    let fd = eval_mir(13, &f).unwrap();
    let gt = Expr::BinaryOp(BinOp::Gt, Box::new(arg(1)), Box::new(arg(2)));
    let expected = Expr::Switch(
        Box::new(gt),
        vec![Expr::Value(Value::Const(0, Ty::Bool))],
        vec![
            Expr::Value(Value::Const(0, Ty::Bool)),
            Expr::Value(Value::Const(1, u32_ty())),
        ],
    );
    assert!(expr_eq(&fd.body, &expected));
}

#[test]
fn a_batch_converts_each_function_in_order() {
    let fs = vec![(21usize, distance_cfg()), (22usize, asserting_cfg())];
    let fds = eval_all(&fs).unwrap();
    assert_eq!(fds.len(), 2);
    assert_eq!(fds[0].def_id, 21);
    assert_eq!(fds[1].def_id, 22);
}

#[test]
fn a_batch_stops_at_the_first_failure() {
    let cyclic = Function::new(
        vec![u32_ty()],
        0,
        vec![Block::new(vec![], Terminator::Goto(BlockID(0)))],
    );
    let fs = vec![(31usize, cyclic), (32usize, distance_cfg())];
    assert_eq!(eval_all(&fs).unwrap_err(), EvalError::LoopUnsupported);
}

#[test]
fn panic_wrapping_swaps_branches_for_the_opposite_polarity() {
    // Expected polarity `false`: execution continues when the condition
    // is false, so the success branch comes first.
    let b0 = Block::new(
        vec![],
        Terminator::Assert(Operand::Move(Place::Local(1)), false, BlockID(1)),
    );
    let b1 = Block::new(
        vec![
            Statement::Assign(
                Place::Local(0),
                Rvalue::Use(Operand::Constant(sire::mir::Constant::Literal(7, u32_ty()))),
            ),
        ],
        Terminator::Return,
    );
    let f = Function::new(vec![u32_ty(), Ty::Bool], 1, vec![b0, b1]);
    let fd = eval_mir(14, &f).unwrap();
    let cond = Expr::Value(Value::Arg(1, Ty::Bool));
    let expected = Expr::Switch(
        Box::new(cond),
        vec![Expr::Value(Value::Const(0, Ty::Bool))],
        vec![
            Expr::Just(Box::new(Expr::Value(Value::Const(7, u32_ty())))),
            Expr::Nothing(Ty::Maybe(Box::new(u32_ty()))),
        ],
    );
    assert!(expr_eq(&fd.body, &expected));
}
