use vstd::prelude::*;

verus! {

/// A compiled predicate expression. Leaves are bit positions: `Bit` reads the
/// group's own setting bits, `ParentBit` reads the bits of the parent group.
#[derive(Debug)]
pub enum Expr {
    Bit(usize),
    ParentBit(usize),
    And(Box<Expr>, Box<Expr>),
    Or(Box<Expr>, Box<Expr>),
    Not(Box<Expr>),
}

/// Boolean value of `e` over the group's bits and the parent group's bits.
pub open spec fn eval(e: Expr, bits: Seq<bool>, parent_bits: Seq<bool>) -> bool
    decreases e,
{
    match e {
        Expr::Bit(i) => bits[i as int],
        Expr::ParentBit(i) => parent_bits[i as int],
        Expr::And(a, b) => eval(*a, bits, parent_bits) && eval(*b, bits, parent_bits),
        Expr::Or(a, b) => eval(*a, bits, parent_bits) || eval(*b, bits, parent_bits),
        Expr::Not(a) => !eval(*a, bits, parent_bits),
    }
}

/// Every leaf of `e` is a valid position in vectors of lengths `n` and `m`.
pub open spec fn in_range(e: Expr, n: nat, m: nat) -> bool
    decreases e,
{
    match e {
        Expr::Bit(i) => i < n,
        Expr::ParentBit(i) => i < m,
        Expr::And(a, b) => in_range(*a, n, m) && in_range(*b, n, m),
        Expr::Or(a, b) => in_range(*a, n, m) && in_range(*b, n, m),
        Expr::Not(a) => in_range(*a, n, m),
    }
}

/// A copy of `e`.
pub fn copy_expr(e: &Expr) -> (r: Expr)
    ensures
        r == *e,
    decreases e,
{
    match e {
        Expr::Bit(i) => Expr::Bit(*i),
        Expr::ParentBit(i) => Expr::ParentBit(*i),
        Expr::And(a, b) => Expr::And(Box::new(copy_expr(a)), Box::new(copy_expr(b))),
        Expr::Or(a, b) => Expr::Or(Box::new(copy_expr(a)), Box::new(copy_expr(b))),
        Expr::Not(a) => Expr::Not(Box::new(copy_expr(a))),
    }
}

/// Evaluates `e`, short-circuiting `And` and `Or`.
pub fn evaluate_expr(e: &Expr, bits: &Vec<bool>, parent_bits: &Vec<bool>) -> (r: bool)
    requires
        in_range(*e, bits@.len(), parent_bits@.len()),
    ensures
        r == eval(*e, bits@, parent_bits@),
    decreases e,
{
    match e {
        Expr::Bit(i) => bits[*i],
        Expr::ParentBit(i) => parent_bits[*i],
        Expr::And(a, b) => evaluate_expr(a, bits, parent_bits) && evaluate_expr(b, bits, parent_bits),
        Expr::Or(a, b) => evaluate_expr(a, bits, parent_bits) || evaluate_expr(b, bits, parent_bits),
        Expr::Not(a) => !evaluate_expr(a, bits, parent_bits),
    }
}

} // verus!
