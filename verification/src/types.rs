//! The expression data model: exact rational numbers, symbols, and
//! shared-node lists, together with the spec-level notion of deep
//! structural value equality.

use crate::text::str_eq;
use std::rc::Rc;
use vstd::prelude::*;
use vstd::string::*;

verus! {

/// Largest denominator a `Number` may carry. Keeping denominators
/// bounded lets every cross product of two numbers fit in `i128`.
pub const DEN_MAX: u64 = 1_000_000_000_000_000;

/// An exact rational: `num / den`. The sign lives in `num`; `den` is
/// at least 1 and at most `DEN_MAX`. Values are not reduced to lowest
/// terms; equality is value equality by cross multiplication.
#[derive(Debug, Clone, Copy, PartialEq, Eq, Structural)]
pub struct Number {
    pub num: i64,
    pub den: u64,
}

/// Well-formedness of a `Number`: the denominator is positive and bounded.
pub open spec fn num_wf(n: Number) -> bool {
    1 <= n.den <= DEN_MAX
}

/// Value equality of two rationals, by cross multiplication.
pub open spec fn rat_eq(a: Number, b: Number) -> bool {
    a.num * b.den == b.num * a.den
}

impl Number {
    /// Builds `num / den`.
    pub fn new(num: i64, den: u64) -> (r: Number)
        requires
            1 <= den <= DEN_MAX,
        ensures
            r.num == num,
            r.den == den,
            num_wf(r),
    {
        Number { num, den }
    }

    /// Builds the integer `n`.
    pub fn from_int(n: i64) -> (r: Number)
        ensures
            r.num == n,
            r.den == 1,
            num_wf(r),
    {
        Number { num: n, den: 1 }
    }
}

/// An expression tree node. Sub-trees are shared through `Rc` and are
/// never mutated after construction.
#[derive(Debug, PartialEq)]
pub enum Expr {
    Num(Number),
    Symbol(String),
    List(Vec<Rc<Expr>>),
}

/// Structural size of an expression, used as a termination measure.
pub open spec fn expr_size(e: Expr) -> nat
    decreases e,
{
    match e {
        Expr::Num(_) => 1,
        Expr::Symbol(_) => 1,
        Expr::List(vs) => 1 + list_size(vs@),
    }
}

/// Sum of the sizes of a sequence of shared expression nodes.
pub open spec fn list_size(s: Seq<Rc<Expr>>) -> nat
    decreases s,
{
    if s.len() == 0 {
        0
    } else {
        expr_size(*s[0]) + list_size(s.drop_first())
    }
}

/// Deep, order-sensitive value equality over expression trees.
/// Numbers compare as rational values, symbols by their text.
pub open spec fn veq(a: Expr, b: Expr) -> bool
    decreases a,
{
    match (a, b) {
        (Expr::Num(x), Expr::Num(y)) => rat_eq(x, y),
        (Expr::Symbol(s), Expr::Symbol(t)) => s@ == t@,
        (Expr::List(u), Expr::List(v)) => veq_list(u@, v@),
        _ => false,
    }
}

/// Elementwise `veq` over two sequences of shared nodes.
pub open spec fn veq_list(u: Seq<Rc<Expr>>, v: Seq<Rc<Expr>>) -> bool
    decreases u,
{
    &&& u.len() == v.len()
    &&& (u.len() == 0 || (veq(*u[0], *v[0]) && veq_list(u.drop_first(), v.drop_first())))
}

impl Expr {
    /// Wraps a number as a shared expression node.
    pub fn number(n: Number) -> (r: Rc<Expr>)
        ensures
            *r == Expr::Num(n),
    {
        Rc::new(Expr::Num(n))
    }

    /// Wraps a symbol as a shared expression node.
    pub fn symbol(s: &str) -> (r: Rc<Expr>)
        ensures
            (*r) matches Expr::Symbol(t) && t@ == s@,
    {
        Rc::new(Expr::Symbol(s.to_owned()))
    }

    /// Wraps a list of shared nodes as a shared expression node.
    pub fn list(elems: Vec<Rc<Expr>>) -> (r: Rc<Expr>)
        ensures
            *r == Expr::List(elems),
    {
        Rc::new(Expr::List(elems))
    }
}


/// Every cross product of a numerator and a denominator fits in `i128`.
proof fn lemma_cross_wide(nm: int, dn: int)
    requires
        -0x8000000000000000 <= nm <= 0x7fffffffffffffff,
        0 <= dn <= 0xffffffffffffffff,
    ensures
        -0x8000000000000000 * 0xffffffffffffffff <= nm * dn
            <= 0x7fffffffffffffff * 0xffffffffffffffff,
{
    assert(-0x8000000000000000 * 0xffffffffffffffff <= nm * dn
        <= 0x7fffffffffffffff * 0xffffffffffffffff) by (nonlinear_arith)
        requires
            -0x8000000000000000 <= nm <= 0x7fffffffffffffff,
            0 <= dn <= 0xffffffffffffffff,
    ;
}

/// Deep value equality, executable form of `veq`.
pub fn expr_eq(a: &Rc<Expr>, b: &Rc<Expr>) -> (r: bool)
    ensures
        r == veq(**a, **b),
    decreases expr_size(**a), 0nat,
{
    match (&**a, &**b) {
        (Expr::Num(x), Expr::Num(y)) => {
            proof {
                lemma_cross_wide(x.num as int, y.den as int);
                lemma_cross_wide(y.num as int, x.den as int);
            }
            x.num as i128 * y.den as i128 == y.num as i128 * x.den as i128
        },
        (Expr::Symbol(s), Expr::Symbol(t)) => str_eq(s.as_str(), t.as_str()),
        (Expr::List(u), Expr::List(v)) => {
            proof {
                assert(u@.skip(0) =~= u@);
                assert(v@.skip(0) =~= v@);
            }
            expr_list_eq(u, v, 0)
        },
        _ => false,
    }
}

/// Elementwise value equality of `u[i..]` and `v[i..]`.
fn expr_list_eq(u: &Vec<Rc<Expr>>, v: &Vec<Rc<Expr>>, i: usize) -> (r: bool)
    requires
        i <= u@.len(),
        i <= v@.len(),
    ensures
        r == veq_list(u@.skip(i as int), v@.skip(i as int)),
    decreases list_size(u@.skip(i as int)), 1nat,
{
    proof {
        assert(u@.skip(i as int).len() == u@.len() - i);
        assert(v@.skip(i as int).len() == v@.len() - i);
    }
    if u.len() - i != v.len() - i {
        return false;
    }
    if i == u.len() {
        return true;
    }
    proof {
        assert(u@.skip(i as int)[0] == u@[i as int]);
        assert(v@.skip(i as int)[0] == v@[i as int]);
        assert(u@.skip(i as int).drop_first() =~= u@.skip(i as int + 1));
        assert(v@.skip(i as int).drop_first() =~= v@.skip(i as int + 1));
    }
    if !expr_eq(&u[i], &v[i]) {
        return false;
    }
    expr_list_eq(u, v, i + 1)
}

} // verus!
