use sire::memory::EvalError;
use sire::memory::Memory;
use sire::sir::expr_eq;
use sire::sir::Expr;
use sire::sir::Ty;
use sire::sir::Value;

fn lit(n: u128) -> Expr {
    Expr::Value(Value::Const(n, Ty::Uint(32)))
}

#[test]
fn a_fresh_store_is_empty() {
    let m = Memory::new(4);
    assert!(m.is_empty());
    assert_eq!(m.read(0).unwrap_err(), EvalError::UnboundLocation);
}

#[test]
fn allocate_read_write_free_round_trip() {
    let mut m = Memory::new(3);
    m.allocate(1, lit(5)).unwrap();
    assert!(expr_eq(m.read(1).unwrap(), &lit(5)));
    m.write(1, lit(9)).unwrap();
    assert!(expr_eq(m.read(1).unwrap(), &lit(9)));
    let taken = m.free(1).unwrap();
    assert!(expr_eq(&taken, &lit(9)));
    assert!(m.is_empty());
}

#[test]
fn reading_or_writing_a_free_slot_fails() {
    let mut m = Memory::new(2);
    assert_eq!(m.write(0, lit(1)).unwrap_err(), EvalError::UnboundLocation);
    assert_eq!(m.read(1).unwrap_err(), EvalError::UnboundLocation);
    assert_eq!(m.allocate(7, lit(1)).unwrap_err(), EvalError::UnboundLocation);
}

#[test]
fn freeing_twice_is_a_double_free() {
    let mut m = Memory::new(2);
    m.allocate(0, lit(1)).unwrap();
    m.free(0).unwrap();
    assert_eq!(m.free(0).unwrap_err(), EvalError::DoubleFree);
    assert_eq!(m.free(9).unwrap_err(), EvalError::DoubleFree);
}

#[test]
fn a_fork_diverges_without_aliasing() {
    let mut m = Memory::new(2);
    m.allocate(0, lit(1)).unwrap();
    let mut fork = m.fork();
    fork.write(0, lit(2)).unwrap();
    fork.allocate(1, lit(3)).unwrap();
    // The original is untouched by the fork's writes.
    assert!(expr_eq(m.read(0).unwrap(), &lit(1)));
    assert_eq!(m.read(1).unwrap_err(), EvalError::UnboundLocation);
    assert!(expr_eq(fork.read(0).unwrap(), &lit(2)));
}
