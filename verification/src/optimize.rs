//! The tree optimizer.
//!
//! A single bottom-up pass: children are optimized first, and a projection
//! whose subject has become a literal tuple with the projected field in
//! range is replaced by that (already optimized) field. Every other node is
//! rebuilt unchanged around its optimized children. The pass is idempotent,
//! which [`lemma_optimize_idempotent`] proves.

use vstd::prelude::*;

use crate::sir::copy_ty;
use crate::sir::copy_value;
use crate::sir::expr_view;
use crate::sir::exprs_view;
use crate::sir::lemma_exprs_view;
use crate::sir::lemma_exprs_view_push;
use crate::sir::Expr;
use crate::sir::ExprV;

verus! {

/// The optimized form of `e`.
pub open spec fn optimize_v(e: ExprV) -> ExprV
    decreases e,
{
    match e {
        ExprV::Value(v) => ExprV::Value(v),
        ExprV::Apply(f, args) => ExprV::Apply(Box::new(optimize_v(*f)), optimize_seq(args)),
        ExprV::BinaryOp(op, a, b) => ExprV::BinaryOp(
            op,
            Box::new(optimize_v(*a)),
            Box::new(optimize_v(*b)),
        ),
        ExprV::Switch(d, vals, branches) => ExprV::Switch(
            Box::new(optimize_v(*d)),
            optimize_seq(vals),
            optimize_seq(branches),
        ),
        ExprV::Tuple(fields) => ExprV::Tuple(optimize_seq(fields)),
        ExprV::Projection(t, i) => {
            let t2 = optimize_v(*t);
            match t2 {
                ExprV::Tuple(fields) => if i < fields.len() {
                    fields[i as int]
                } else {
                    ExprV::Projection(Box::new(t2), i)
                },
                _ => ExprV::Projection(Box::new(t2), i),
            }
        },
        ExprV::Just(inner) => ExprV::Just(Box::new(optimize_v(*inner))),
        ExprV::Nothing(t) => ExprV::Nothing(t),
        ExprV::Uninitialized => ExprV::Uninitialized,
    }
}

pub open spec fn optimize_seq(es: Seq<ExprV>) -> Seq<ExprV>
    decreases es,
{
    if es.len() == 0 {
        Seq::empty()
    } else {
        optimize_seq(es.drop_last()).push(optimize_v(es.last()))
    }
}

/// Optimizing a list optimizes it pointwise.
pub proof fn lemma_optimize_seq(es: Seq<ExprV>)
    ensures
        optimize_seq(es).len() == es.len(),
        forall|i: int| 0 <= i < es.len() ==> optimize_seq(es)[i] == optimize_v(es[i]),
    decreases es,
{
    if es.len() > 0 {
        lemma_optimize_seq(es.drop_last());
    }
}

pub proof fn lemma_optimize_seq_push(es: Seq<ExprV>, x: ExprV)
    ensures
        optimize_seq(es.push(x)) == optimize_seq(es).push(optimize_v(x)),
{
    assert(es.push(x).drop_last() =~= es);
    assert(es.push(x).last() == x);
}

/// The optimizer is idempotent: a second pass over its own output changes
/// nothing.
pub proof fn lemma_optimize_idempotent(e: ExprV)
    ensures
        optimize_v(optimize_v(e)) == optimize_v(e),
    decreases e,
{
    match e {
        ExprV::Value(_) => {},
        ExprV::Apply(f, args) => {
            lemma_optimize_idempotent(*f);
            lemma_optimize_seq_idempotent(args);
        },
        ExprV::BinaryOp(_, a, b) => {
            lemma_optimize_idempotent(*a);
            lemma_optimize_idempotent(*b);
        },
        ExprV::Switch(d, vals, branches) => {
            lemma_optimize_idempotent(*d);
            lemma_optimize_seq_idempotent(vals);
            lemma_optimize_seq_idempotent(branches);
        },
        ExprV::Tuple(fields) => {
            lemma_optimize_seq_idempotent(fields);
        },
        ExprV::Projection(t, i) => {
            lemma_optimize_idempotent(*t);
            let t2 = optimize_v(*t);
            match t2 {
                ExprV::Tuple(fields) => {
                    if i < fields.len() {
                        // The field is a component of the already optimized
                        // tuple, so it is itself a fixed point.
                        lemma_optimize_seq(fields);
                        assert(optimize_seq(fields) == fields);
                        assert(optimize_v(fields[i as int]) == fields[i as int]);
                    }
                },
                _ => {},
            }
        },
        ExprV::Just(inner) => {
            lemma_optimize_idempotent(*inner);
        },
        ExprV::Nothing(_) => {},
        ExprV::Uninitialized => {},
    }
}

pub proof fn lemma_optimize_seq_idempotent(es: Seq<ExprV>)
    ensures
        optimize_seq(optimize_seq(es)) == optimize_seq(es),
    decreases es,
{
    if es.len() > 0 {
        lemma_optimize_seq_idempotent(es.drop_last());
        lemma_optimize_idempotent(es.last());
        lemma_optimize_seq_push(optimize_seq(es.drop_last()), optimize_v(es.last()));
    }
}

/// Projecting a freshly built pair folds to the matching optimized field,
/// and a projection whose index is out of range is left in place.
pub proof fn lemma_projection_fold(a: ExprV, b: ExprV)
    ensures
        optimize_v(ExprV::Projection(Box::new(ExprV::Tuple(seq![a, b])), 0)) == optimize_v(a),
        optimize_v(ExprV::Projection(Box::new(ExprV::Tuple(seq![a, b])), 1)) == optimize_v(b),
{
    reveal_with_fuel(optimize_v, 2);
    let fs = seq![a, b];
    lemma_optimize_seq(fs);
    assert(optimize_seq(fs)[0] == optimize_v(a));
    assert(optimize_seq(fs)[1] == optimize_v(b));
}

pub proof fn lemma_projection_out_of_range(fields: Seq<ExprV>, i: usize)
    requires
        i >= fields.len(),
    ensures
        optimize_v(ExprV::Projection(Box::new(ExprV::Tuple(fields)), i)) == ExprV::Projection(
            Box::new(ExprV::Tuple(optimize_seq(fields))),
            i,
        ),
{
    reveal_with_fuel(optimize_v, 2);
    lemma_optimize_seq(fields);
}

impl Expr {
    /// The single bottom-up folding pass over this expression.
    pub fn optimize(&self) -> (r: Expr)
        ensures
            r@ == optimize_v(self@),
        decreases self,
    {
        match self {
            Expr::Value(v) => Expr::Value(copy_value(v)),
            Expr::Apply(f, args) => Expr::Apply(Box::new(f.optimize()), optimize_all(args)),
            Expr::BinaryOp(op, a, b) => Expr::BinaryOp(
                *op,
                Box::new(a.optimize()),
                Box::new(b.optimize()),
            ),
            Expr::Switch(d, vals, branches) => Expr::Switch(
                Box::new(d.optimize()),
                optimize_all(vals),
                optimize_all(branches),
            ),
            Expr::Tuple(fields) => Expr::Tuple(optimize_all(fields)),
            Expr::Projection(t, i) => {
                let t2 = t.optimize();
                match t2 {
                    Expr::Tuple(mut fields) => {
                        proof {
                            lemma_exprs_view(fields@);
                        }
                        if *i < fields.len() {
                            fields.remove(*i)
                        } else {
                            Expr::Projection(Box::new(Expr::Tuple(fields)), *i)
                        }
                    },
                    other => Expr::Projection(Box::new(other), *i),
                }
            },
            Expr::Just(inner) => Expr::Just(Box::new(inner.optimize())),
            Expr::Nothing(t) => Expr::Nothing(copy_ty(t)),
            Expr::Uninitialized => Expr::Uninitialized,
        }
    }
}

#[verifier::loop_isolation(false)]
fn optimize_all(es: &Vec<Expr>) -> (r: Vec<Expr>)
    ensures
        exprs_view(r@) == optimize_seq(exprs_view(es@)),
    decreases es,
{
    let mut out: Vec<Expr> = Vec::new();
    let mut i: usize = 0;
    while i < es.len()
        invariant
            i <= es@.len(),
            exprs_view(out@) == optimize_seq(exprs_view(es@.take(i as int))),
        decreases es@.len() - i,
    {
        let e = es[i].optimize();
        let ghost pre = out@;
        out.push(e);
        proof {
            lemma_exprs_view_push(pre, e);
            assert(es@.take(i + 1).drop_last() =~= es@.take(i as int));
            assert(es@.take(i + 1).last() == es@[i as int]);
            lemma_optimize_seq_push(exprs_view(es@.take(i as int)), expr_view(es@[i as int]));
        }
        i = i + 1;
    }
    proof {
        assert(es@.take(es@.len() as int) =~= es@);
    }
    out
}

} // verus!
