//! The environment: a stack of scope frames, each mapping names to
//! bindings, searched innermost first; and the evaluator over it.

use crate::num::{
    add_spec, div_spec, mul_spec, num_add, num_div, num_mul, num_sub, number_to_string,
    spec_render_number, sub_spec,
};
use crate::text::{dec_digits, str_eq, u64_to_string};
use crate::types::{expr_eq, expr_size, list_size, num_wf, rat_eq, veq, Expr, Number, DEN_MAX};
use std::rc::Rc;
use vstd::prelude::*;
use vstd::string::*;

verus! {

broadcast use vstd::string::group_string_axioms;

/// What evaluating an expression yields: an error, a value, or the
/// unit of a side-effecting form.
#[derive(Debug, PartialEq)]
pub enum EvalResult {
    Error(String),
    Value(Rc<Expr>),
    Unit,
}

/// A stack of scope frames. Each frame is a run of name-binding pairs;
/// a later pair for the same name shadows an earlier one, and an inner
/// frame shadows an outer one.
#[derive(Debug)]
pub struct Environment {
    pub contexts: Vec<Vec<(String, (Vec<String>, Rc<Expr>))>>,
}

/// The views of a run of strings.
pub open spec fn strs_view(v: Seq<String>) -> Seq<Seq<char>> {
    v.map_values(|s: String| s@)
}

/// The binding for `name` in one frame: the latest pair wins.
pub open spec fn frame_lookup(f: Seq<(String, (Vec<String>, Rc<Expr>))>, name: Seq<char>) -> Option<
    (Vec<String>, Rc<Expr>),
>
    decreases f.len(),
{
    if f.len() == 0 {
        None
    } else if f.last().0@ == name {
        Some(f.last().1)
    } else {
        frame_lookup(f.drop_last(), name)
    }
}

/// The binding for `name` across frames: innermost frame first.
pub open spec fn frames_lookup(
    ctxs: Seq<Vec<(String, (Vec<String>, Rc<Expr>))>>,
    name: Seq<char>,
) -> Option<(Vec<String>, Rc<Expr>)>
    decreases ctxs.len(),
{
    if ctxs.len() == 0 {
        None
    } else {
        match frame_lookup(ctxs.last()@, name) {
            Some(b) => Some(b),
            None => frames_lookup(ctxs.drop_last(), name),
        }
    }
}

/// The binding for `name` in an environment.
pub open spec fn env_lookup(env: Environment, name: Seq<char>) -> Option<
    (Vec<String>, Rc<Expr>),
> {
    frames_lookup(env.contexts@, name)
}

/// `b` extends `a`: everything in `a` is still there, in place.
pub open spec fn seq_extended<T>(a: Seq<T>, b: Seq<T>) -> bool {
    a.len() <= b.len() && (forall|k: int| 0 <= k < a.len() ==> b[k] == a[k])
}

/// How one evaluation step may change the frame stack: the same
/// frames, with only the innermost gaining bindings at its end.
pub open spec fn frames_extended(
    a: Seq<Vec<(String, (Vec<String>, Rc<Expr>))>>,
    b: Seq<Vec<(String, (Vec<String>, Rc<Expr>))>>,
) -> bool {
    &&& b.len() == a.len()
    &&& (forall|i: int| 0 <= i < a.len() - 1 ==> b[i] == a[i])
    &&& (a.len() > 0 ==> seq_extended(a.last()@, b.last()@))
}

/// Clones a run of strings.
fn clone_strings(v: &Vec<String>) -> (r: Vec<String>)
    ensures
        strs_view(r@) == strs_view(v@),
{
    let mut r: Vec<String> = Vec::new();
    let mut i: usize = 0;
    while i < v.len()
        invariant
            i <= v@.len(),
            r@.len() == i,
            forall|k: int| 0 <= k < i ==> r@[k]@ == v@[k]@,
        decreases v@.len() - i,
    {
        r.push(v[i].clone());
        i += 1;
    }
    proof {
        assert(strs_view(r@) =~= strs_view(v@));
    }
    r
}

/// Relies on `Rc::clone`: the clone is the same shared value.
#[verifier::external_body]
pub fn rc_dup(e: &Rc<Expr>) -> (r: Rc<Expr>)
    ensures
        r == *e,
{
    Rc::clone(e)
}

/// The latest pair for `name` in one frame, if any.
fn frame_get<'a>(f: &'a Vec<(String, (Vec<String>, Rc<Expr>))>, name: &str) -> (r: Option<
    &'a (String, (Vec<String>, Rc<Expr>)),
>)
    ensures
        r is Some <==> frame_lookup(f@, name@) is Some,
        r matches Some(p) ==> frame_lookup(f@, name@) == Some(p.1),
{
    let mut k = f.len();
    proof {
        assert(f@.subrange(0, f@.len() as int) =~= f@);
    }
    while k > 0
        invariant
            k <= f@.len(),
            frame_lookup(f@, name@) == frame_lookup(f@.subrange(0, k as int), name@),
        decreases k,
    {
        proof {
            assert(f@.subrange(0, k as int).last() == f@[k - 1]);
            assert(f@.subrange(0, k as int).drop_last() =~= f@.subrange(0, k as int - 1));
        }
        if str_eq(f[k - 1].0.as_str(), name) {
            return Some(&f[k - 1]);
        }
        k -= 1;
    }
    proof {
        assert(f@.subrange(0, 0) =~= Seq::<(String, (Vec<String>, Rc<Expr>))>::empty());
    }
    None
}

impl Environment {
    /// An environment with no frame at all.
    pub fn empty() -> (r: Environment)
        ensures
            r.contexts@.len() == 0,
    {
        Environment { contexts: Vec::new() }
    }

    /// One frame holding the given variables, in order.
    pub fn from_vars(vars: &[(&str, Rc<Expr>)]) -> (r: Environment)
        ensures
            r.contexts@.len() == 1,
            r.contexts@[0]@.len() == vars@.len(),
            forall|i: int|
                0 <= i < vars@.len() ==> (#[trigger] r.contexts@[0]@[i]).0@ == vars@[i].0@
                    && r.contexts@[0]@[i].1.0@.len() == 0 && r.contexts@[0]@[i].1.1 == vars@[i].1,
    {
        let mut env = Environment::empty();
        env.push_context();
        let mut i: usize = 0;
        while i < vars.len()
            invariant
                i <= vars@.len(),
                env.contexts@.len() == 1,
                env.contexts@[0]@.len() == i,
                forall|k: int|
                    0 <= k < i ==> (#[trigger] env.contexts@[0]@[k]).0@ == vars@[k].0@
                        && env.contexts@[0]@[k].1.0@.len() == 0 && env.contexts@[0]@[k].1.1
                        == vars@[k].1,
            decreases vars@.len() - i,
        {
            let (name, e) = &vars[i];
            let dup = rc_dup(e);
            let _ = env.add_var(name, dup);
            i += 1;
        }
        env
    }

    /// The seeded environment: one frame binding `False` to the empty
    /// list and `True` to the one-element list holding the number one.
    pub fn default() -> (r: Environment)
        ensures
            r.contexts@.len() == 1,
            r.contexts@[0]@.len() == 2,
            r.contexts@[0]@[0].0@ == "False"@,
            r.contexts@[0]@[0].1.0@.len() == 0,
            (*r.contexts@[0]@[0].1.1) matches Expr::List(l) && l@.len() == 0,
            r.contexts@[0]@[1].0@ == "True"@,
            r.contexts@[0]@[1].1.0@.len() == 0,
            (*r.contexts@[0]@[1].1.1) matches Expr::List(l) && l@.len() == 1 && ((*l@[0])
                matches Expr::Num(n) && n.num == 1 && n.den == 1),
    {
        let mut env = Environment::empty();
        env.push_context();
        let false_val = Expr::list(Vec::new());
        let _ = env.add_var("False", false_val);
        let mut one: Vec<Rc<Expr>> = Vec::new();
        one.push(Expr::number(crate::types::Number { num: 1, den: 1 }));
        let true_val = Expr::list(one);
        let _ = env.add_var("True", true_val);
        env
    }

    /// Looks the symbol up, innermost frame first, latest pair first;
    /// yields a shared copy of the binding.
    pub fn lookup(&self, symbol: &str) -> (r: Option<(Vec<String>, Rc<Expr>)>)
        ensures
            r is Some <==> env_lookup(*self, symbol@) is Some,
            r matches Some(b) ==> env_lookup(*self, symbol@) matches Some(sb) && strs_view(b.0@)
                == strs_view(sb.0@) && b.1 == sb.1,
    {
        let mut j = self.contexts.len();
        proof {
            assert(self.contexts@.subrange(0, self.contexts@.len() as int) =~= self.contexts@);
        }
        while j > 0
            invariant
                j <= self.contexts@.len(),
                frames_lookup(self.contexts@, symbol@) == frames_lookup(
                    self.contexts@.subrange(0, j as int),
                    symbol@,
                ),
            decreases j,
        {
            proof {
                assert(self.contexts@.subrange(0, j as int).last() == self.contexts@[j - 1]);
                assert(self.contexts@.subrange(0, j as int).drop_last() =~= self.contexts@.subrange(
                    0,
                    j as int - 1,
                ));
            }
            match frame_get(&self.contexts[j - 1], symbol) {
                Some(p) => {
                    let params = clone_strings(&p.1.0);
                    let body = rc_dup(&p.1.1);
                    return Some((params, body));
                },
                None => {},
            }
            j -= 1;
        }
        proof {
            assert(self.contexts@.subrange(0, 0) =~= Seq::<
                Vec<(String, (Vec<String>, Rc<Expr>))>,
            >::empty());
        }
        None
    }

    /// Whether any frame binds the symbol.
    pub fn contains_key(&self, symbol: &str) -> (r: bool)
        ensures
            r == (env_lookup(*self, symbol@) is Some),
    {
        match self.lookup(symbol) {
            Some(_) => true,
            None => false,
        }
    }

    /// Pushes one empty frame.
    pub fn push_context(&mut self)
        ensures
            final(self).contexts@.len() == old(self).contexts@.len() + 1,
            forall|i: int|
                0 <= i < old(self).contexts@.len() ==> final(self).contexts@[i] == old(
                    self,
                ).contexts@[i],
            final(self).contexts@.last()@.len() == 0,
    {
        self.contexts.push(Vec::new());
    }

    /// Pops the innermost frame; with no frame, does nothing.
    pub fn pop_context(&mut self)
        ensures
            old(self).contexts@.len() == 0 ==> final(self).contexts@ == old(self).contexts@,
            old(self).contexts@.len() > 0 ==> final(self).contexts@ == old(
                self,
            ).contexts@.drop_last(),
    {
        if self.contexts.len() > 0 {
            self.contexts.pop();
        }
    }

    /// Binds a plain variable in the innermost frame; fails when no
    /// frame exists.
    pub fn add_var(&mut self, var: &str, val: Rc<Expr>) -> (r: Result<(), String>)
        ensures
            old(self).contexts@.len() == 0 ==> (r matches Err(m) && m@
                == "Environment has no context to add to."@ && final(self).contexts@ == old(
                self,
            ).contexts@),
            old(self).contexts@.len() > 0 ==> (r is Ok && frames_extended(
                old(self).contexts@,
                final(self).contexts@,
            ) && final(self).contexts@.last()@.len() == old(self).contexts@.last()@.len() + 1 && ({
                let p = final(self).contexts@.last()@.last();
                p.0@ == var@ && p.1.0@.len() == 0 && p.1.1 == val
            })),
    {
        if self.contexts.len() == 0 {
            return Err("Environment has no context to add to.".to_owned());
        }
        let last = self.contexts.len() - 1;
        let ghost oldframes = self.contexts@;
        let frame = &mut self.contexts[last];
        frame.push((var.to_owned(), (Vec::new(), val)));
        proof {
            assert(final(self).contexts@ =~= oldframes.update(
                last as int,
                final(self).contexts@[last as int],
            ));
        }
        Ok(())
    }

    /// Registers a function in the innermost frame; fails when no
    /// frame exists.
    pub fn add_fn(&mut self, name: &str, params: &[String], body: Rc<Expr>) -> (r: Result<
        (),
        String,
    >)
        ensures
            old(self).contexts@.len() == 0 ==> (r matches Err(m) && m@
                == "Environment has no context to add to."@ && final(self).contexts@ == old(
                self,
            ).contexts@),
            old(self).contexts@.len() > 0 ==> (r is Ok && frames_extended(
                old(self).contexts@,
                final(self).contexts@,
            ) && final(self).contexts@.last()@.len() == old(self).contexts@.last()@.len() + 1 && ({
                let p = final(self).contexts@.last()@.last();
                p.0@ == name@ && strs_view(p.1.0@) == strs_view(params@) && p.1.1 == body
            })),
    {
        if self.contexts.len() == 0 {
            return Err("Environment has no context to add to.".to_owned());
        }
        let mut ps: Vec<String> = Vec::new();
        let mut i: usize = 0;
        while i < params.len()
            invariant
                i <= params@.len(),
                ps@.len() == i,
                forall|k: int| 0 <= k < i ==> ps@[k]@ == params@[k]@,
            decreases params@.len() - i,
        {
            ps.push(params[i].clone());
            i += 1;
        }
        let last = self.contexts.len() - 1;
        let ghost oldframes = self.contexts@;
        let frame = &mut self.contexts[last];
        frame.push((name.to_owned(), (ps, body)));
        proof {
            assert(final(self).contexts@ =~= oldframes.update(
                last as int,
                final(self).contexts@[last as int],
            ));
            assert(strs_view(final(self).contexts@.last()@.last().1.0@) =~= strs_view(params@));
        }
        Ok(())
    }

    /// How many frames the environment holds.
    pub fn num_contexts(&self) -> (r: usize)
        ensures
            r == self.contexts@.len(),
    {
        self.contexts.len()
    }
}


/// What the print renderer yields for `e`: a number in decimal, an
/// unbound symbol as itself, a bound plain variable by its value, a
/// bound function as a func-object note, and a list in parentheses
/// with one space between elements. `None` when chains of bindings
/// exhaust the render depth.
pub open spec fn spec_render(e: Expr, env: Environment, fuel: nat) -> Option<Seq<char>>
    decreases fuel, expr_size(e), 0nat,
{
    match e {
        Expr::Num(n) => if num_wf(n) {
            Some(spec_render_number(n))
        } else {
            None
        },
        Expr::Symbol(s) => match env_lookup(env, s@) {
            None => Some(s@),
            Some(b) => if b.0@.len() == 0 {
                if fuel == 0 {
                    None
                } else {
                    spec_render(*b.1, env, (fuel - 1) as nat)
                }
            } else {
                Some("<func-object: "@ + s@ + ">"@)
            },
        },
        Expr::List(vs) => match spec_render_items(vs@, env, fuel) {
            None => None,
            Some(x) => Some("("@ + x + ")"@),
        },
    }
}

/// The renderings of a run of nodes, joined with one space.
pub open spec fn spec_render_items(vs: Seq<Rc<Expr>>, env: Environment, fuel: nat) -> Option<
    Seq<char>,
>
    decreases fuel, list_size(vs), vs.len(),
{
    if vs.len() == 0 {
        Some(Seq::<char>::empty())
    } else {
        match spec_render(*vs[0], env, fuel) {
            None => None,
            Some(h) => if vs.len() == 1 {
                Some(h)
            } else {
                match spec_render_items(vs.drop_first(), env, fuel) {
                    None => None,
                    Some(t) => Some(h + " "@ + t),
                }
            },
        }
    }
}

/// Renders an expression for `print`. Yields text exactly when
/// `spec_render` does, and then exactly that text.
pub fn gen_print_output(expr: &Rc<Expr>, env: &Environment, fuel: u64) -> (r: Option<String>)
    ensures
        r is Some <==> spec_render(**expr, *env, fuel as nat) is Some,
        r matches Some(s) ==> spec_render(**expr, *env, fuel as nat) == Some(s@),
    decreases fuel, expr_size(**expr), 0nat,
{
    match &**expr {
        Expr::Num(n) => {
            if 1 <= n.den && n.den <= crate::types::DEN_MAX {
                Some(number_to_string(*n))
            } else {
                None
            }
        },
        Expr::Symbol(s) => {
            match env.lookup(s.as_str()) {
                None => Some(s.clone()),
                Some((ps, body)) => {
                    proof {
                        assert(strs_view(ps@).len() == ps@.len());
                    }
                    if ps.len() == 0 {
                        if fuel == 0 {
                            None
                        } else {
                            gen_print_output(&body, env, fuel - 1)
                        }
                    } else {
                        let mut out = "<func-object: ".to_owned();
                        out.append(s.as_str());
                        out.append(">");
                        proof {
                            assert(out@ =~= "<func-object: "@ + s@ + ">"@);
                        }
                        Some(out)
                    }
                },
            }
        },
        Expr::List(vs) => {
            proof {
                assert(vs@.skip(0) =~= vs@);
            }
            match render_items(vs, 0, env, fuel) {
                None => None,
                Some(x) => {
                    let mut out = "(".to_owned();
                    out.append(x.as_str());
                    out.append(")");
                    proof {
                        assert(out@ =~= "("@ + x@ + ")"@);
                    }
                    Some(out)
                },
            }
        },
    }
}

/// Renders `vs[i..]`, joined with one space.
fn render_items(vs: &Vec<Rc<Expr>>, i: usize, env: &Environment, fuel: u64) -> (r: Option<String>)
    requires
        i <= vs@.len(),
    ensures
        r is Some <==> spec_render_items(vs@.skip(i as int), *env, fuel as nat) is Some,
        r matches Some(s) ==> spec_render_items(vs@.skip(i as int), *env, fuel as nat) == Some(s@),
    decreases fuel, list_size(vs@.skip(i as int)), vs@.len() - i,
{
    if i == vs.len() {
        return Some(String::new());
    }
    proof {
        assert(vs@.skip(i as int)[0] == vs@[i as int]);
        assert(vs@.skip(i as int).drop_first() =~= vs@.skip(i as int + 1));
        assert(expr_size(*vs@[i as int]) >= 1);
    }
    match gen_print_output(&vs[i], env, fuel) {
        None => None,
        Some(h) => {
            if i + 1 == vs.len() {
                Some(h)
            } else {
                match render_items(vs, i + 1, env, fuel) {
                    None => None,
                    Some(t) => {
                        let ghost hv = h@;
                        let mut out = h;
                        out.append(" ");
                        out.append(t.as_str());
                        proof {
                            assert(out@ =~= hv + " "@ + t@);
                        }
                        Some(out)
                    },
                }
            }
        },
    }
}


/// Frame-stack extension is transitive.
proof fn lemma_frames_trans(
    a: Seq<Vec<(String, (Vec<String>, Rc<Expr>))>>,
    b: Seq<Vec<(String, (Vec<String>, Rc<Expr>))>>,
    c: Seq<Vec<(String, (Vec<String>, Rc<Expr>))>>,
)
    requires
        frames_extended(a, b),
        frames_extended(b, c),
    ensures
        frames_extended(a, c),
{
}

/// An element weighs no more than its whole run.
proof fn lemma_elem_size(s: Seq<Rc<Expr>>, j: int)
    requires
        0 <= j < s.len(),
    ensures
        expr_size(*s[j]) <= list_size(s),
    decreases j,
{
    if j > 0 {
        lemma_elem_size(s.drop_first(), j - 1);
        assert(s.drop_first()[j - 1] == s[j]);
    }
}

/// The run beginning at the head symbol `name`.
pub open spec fn head_is(vs: Seq<Rc<Expr>>, name: Seq<char>) -> bool {
    vs.len() > 0 && ((*vs[0]) matches Expr::Symbol(s) && s@ == name)
}

/// The operator names the evaluator reserves; a binding cannot shadow
/// them.
pub open spec fn is_reserved(name: Seq<char>) -> bool {
    ||| name == "+"@
    ||| name == "-"@
    ||| name == "*"@
    ||| name == "/"@
    ||| name == "="@
    ||| name == "!="@
    ||| name == "not"@
    ||| name == "and"@
    ||| name == "or"@
    ||| name == "fn"@
    ||| name == "let"@
    ||| name == "print"@
    ||| name == "if"@
}

/// All of `vs[start..]` are value-equal to the first of them; vacuous
/// with no arguments. The `and` form asks this of its raw, unevaluated
/// arguments.
pub open spec fn and_all(vs: Seq<Rc<Expr>>, start: int) -> bool {
    forall|j: int| start <= j < vs.len() ==> veq(*vs[j], *vs[start])
}

/// Some raw argument in `vs[start..]` is literally the symbol `True`.
pub open spec fn or_any(vs: Seq<Rc<Expr>>, start: int) -> bool {
    exists|j: int|
        start <= j < vs.len() && ((#[trigger] (*vs[j])) matches Expr::Symbol(s) && s@ == "True"@)
}

/// All elements of a list are value-equal to its first element;
/// vacuous for an empty or one-element list.
pub open spec fn list_all_eq_first(l: Seq<Rc<Expr>>) -> bool {
    forall|j: int| 1 <= j < l.len() ==> veq(*l[j], *l[0])
}

/// What `not` yields for a raw argument: flipped truth symbols, the
/// list-equality verdict for a list, nothing for anything else.
pub open spec fn not_verdict(arg: Expr) -> Option<Seq<char>> {
    match arg {
        Expr::Symbol(s) => if s@ == "True"@ {
            Some("False"@)
        } else if s@ == "False"@ {
            Some("True"@)
        } else {
            None
        },
        Expr::List(l) => Some(
            if list_all_eq_first(l@) {
                "True"@
            } else {
                "False"@
            },
        ),
        Expr::Num(_) => None,
    }
}

/// The text of a wrong-argument-count error.
pub open spec fn arity_msg(got: nat, want: nat) -> Seq<char> {
    "provided "@ + dec_digits(got) + " arguments but expected "@ + dec_digits(want)
}

/// Builds the wrong-argument-count error.
fn arity_error(got: u64, want: u64) -> (r: EvalResult)
    ensures
        r matches EvalResult::Error(m) && m@ == arity_msg(got as nat, want as nat),
{
    let mut m = "provided ".to_owned();
    let g = u64_to_string(got);
    m.append(g.as_str());
    m.append(" arguments but expected ");
    let w = u64_to_string(want);
    m.append(w.as_str());
    proof {
        assert(m@ =~= arity_msg(got as nat, want as nat));
    }
    EvalResult::Error(m)
}

/// The exact left fold of a sum over the run.
pub open spec fn sum_spec(ns: Seq<Number>) -> Option<Number>
    decreases ns.len(),
{
    if ns.len() <= 1 {
        if ns.len() == 1 {
            Some(ns[0])
        } else {
            None
        }
    } else {
        match sum_spec(ns.drop_last()) {
            None => None,
            Some(a) => add_spec(a, ns.last()),
        }
    }
}

/// The exact left fold of differences: the first element minus each
/// subsequent one in order.
pub open spec fn diff_spec(ns: Seq<Number>) -> Option<Number>
    decreases ns.len(),
{
    if ns.len() <= 1 {
        if ns.len() == 1 {
            Some(ns[0])
        } else {
            None
        }
    } else {
        match diff_spec(ns.drop_last()) {
            None => None,
            Some(a) => sub_spec(a, ns.last()),
        }
    }
}

/// The exact left fold of a product over the run.
pub open spec fn prod_spec(ns: Seq<Number>) -> Option<Number>
    decreases ns.len(),
{
    if ns.len() <= 1 {
        if ns.len() == 1 {
            Some(ns[0])
        } else {
            None
        }
    } else {
        match prod_spec(ns.drop_last()) {
            None => None,
            Some(a) => mul_spec(a, ns.last()),
        }
    }
}

/// The exact left fold of quotients: the first element divided by each
/// subsequent one in order; `None` on a zero divisor or an
/// unrepresentable intermediate value.
pub open spec fn quot_spec(ns: Seq<Number>) -> Option<Number>
    decreases ns.len(),
{
    if ns.len() <= 1 {
        if ns.len() == 1 {
            Some(ns[0])
        } else {
            None
        }
    } else {
        match quot_spec(ns.drop_last()) {
            None => None,
            Some(a) => div_spec(a, ns.last()),
        }
    }
}

/// Which arithmetic operator a fold applies.
#[derive(Clone, Copy, PartialEq, Eq, Structural)]
pub enum ArithOp {
    Add,
    Sub,
    Mul,
    Div,
}

/// The operator a reserved arithmetic head names.
pub open spec fn arith_op_of(name: Seq<char>) -> ArithOp {
    if name == "-"@ {
        ArithOp::Sub
    } else if name == "*"@ {
        ArithOp::Mul
    } else if name == "/"@ {
        ArithOp::Div
    } else {
        ArithOp::Add
    }
}

/// The error text of an arithmetic form with no arguments.
pub open spec fn arith_empty_msg(op: ArithOp) -> Seq<char> {
    match op {
        ArithOp::Add => "Must perform addition on at least one number"@,
        ArithOp::Sub => "Must perform subtraction on at least one number"@,
        ArithOp::Mul => "Must perform multiplication on at least one number"@,
        ArithOp::Div => "Must perform division on at least one number"@,
    }
}

/// The fold an operator stands for.
pub open spec fn fold_spec(op: ArithOp, ns: Seq<Number>) -> Option<Number> {
    match op {
        ArithOp::Add => sum_spec(ns),
        ArithOp::Sub => diff_spec(ns),
        ArithOp::Mul => prod_spec(ns),
        ArithOp::Div => quot_spec(ns),
    }
}

/// Folds the operator over the numbers, left to right.
fn fold_nums(op: ArithOp, ns: &Vec<Number>) -> (r: Option<Number>)
    requires
        ns@.len() >= 1,
        forall|k: int| 0 <= k < ns@.len() ==> num_wf(#[trigger] ns@[k]),
    ensures
        r == fold_spec(op, ns@),
        r matches Some(n) ==> num_wf(n),
{
    let mut acc = ns[0];
    let mut i: usize = 1;
    proof {
        assert(ns@.subrange(0, 1).len() == 1);
        assert(ns@.subrange(0, 1)[0] == ns@[0]);
    }
    while i < ns.len()
        invariant
            1 <= i <= ns@.len(),
            forall|k: int| 0 <= k < ns@.len() ==> num_wf(#[trigger] ns@[k]),
            fold_spec(op, ns@.subrange(0, i as int)) == Some(acc),
            num_wf(acc),
        decreases ns@.len() - i,
    {
        proof {
            assert(ns@.subrange(0, i as int + 1).drop_last() =~= ns@.subrange(0, i as int));
            assert(ns@.subrange(0, i as int + 1).last() == ns@[i as int]);
        }
        let next = match op {
            ArithOp::Add => num_add(acc, ns[i]),
            ArithOp::Sub => num_sub(acc, ns[i]),
            ArithOp::Mul => num_mul(acc, ns[i]),
            ArithOp::Div => num_div(acc, ns[i]),
        };
        match next {
            Some(n) => {
                acc = n;
                i += 1;
            },
            None => {
                proof {
                    lemma_fold_none(op, ns@, i as int + 1);
                }
                return None;
            },
        }
    }
    proof {
        assert(ns@.subrange(0, ns@.len() as int) =~= ns@);
    }
    Some(acc)
}

/// Once a prefix of the fold is undefined, the whole fold is.
proof fn lemma_fold_none(op: ArithOp, ns: Seq<Number>, i: int)
    requires
        1 <= i <= ns.len(),
        fold_spec(op, ns.subrange(0, i)) is None,
    ensures
        fold_spec(op, ns) is None,
    decreases ns.len() - i,
{
    if i == ns.len() {
        assert(ns.subrange(0, i) =~= ns);
    } else {
        assert(ns.subrange(0, i + 1).drop_last() =~= ns.subrange(0, i));
        lemma_fold_none(op, ns, i + 1);
    }
}


/// The symbol text of a node, or empty text for any other node.
pub open spec fn sym_name(e: Expr) -> Seq<char> {
    match e {
        Expr::Symbol(s) => s@,
        _ => Seq::<char>::empty(),
    }
}

/// The symbol texts of a run of nodes.
pub open spec fn sym_names(l: Seq<Rc<Expr>>) -> Seq<Seq<char>> {
    l.map_values(|p: Rc<Expr>| sym_name(*p))
}

/// Every node of the run is a symbol.
pub open spec fn all_symbols(l: Seq<Rc<Expr>>) -> bool {
    forall|j: int| 0 <= j < l.len() ==> (*l[j]) is Symbol
}

/// How many arguments follow the head of a form.
pub open spec fn argc(vals: Seq<Rc<Expr>>) -> int {
    if vals.len() == 0 {
        0
    } else {
        vals.len() - 1
    }
}

/// Every argument after the head is a syntactic, well-formed number
/// literal. Such arguments evaluate to themselves, so forms over them
/// can be pinned exactly.
pub open spec fn all_num_args(vs: Seq<Rc<Expr>>) -> bool {
    forall|j: int| 1 <= j < vs.len() ==> ((#[trigger] (*vs[j])) matches Expr::Num(n) && num_wf(n))
}

/// The number a node holds; zero for any other node.
pub open spec fn num_of(e: Expr) -> Number {
    match e {
        Expr::Num(n) => n,
        _ => Number { num: 0, den: 1 },
    }
}

/// The numbers the raw arguments after the head hold.
pub open spec fn num_args(vs: Seq<Rc<Expr>>) -> Seq<Number> {
    Seq::new(argc(vs) as nat, |j: int| num_of(*vs[j + 1]))
}

/// Every node of the run is a syntactic number literal.
pub open spec fn all_num_elems(vs: Seq<Rc<Expr>>) -> bool {
    forall|j: int| 0 <= j < vs.len() ==> (#[trigger] (*vs[j])) is Num
}

/// Every argument after the head is raw and self-evaluating: a
/// well-formed number literal, or a symbol the environment leaves
/// unbound.
pub open spec fn plain_args(vs: Seq<Rc<Expr>>, env: Environment) -> bool {
    forall|j: int|
        1 <= j < vs.len() ==> {
            ||| ((#[trigger] (*vs[j])) matches Expr::Num(n) && num_wf(n))
            ||| ((*vs[j]) matches Expr::Symbol(s) && env_lookup(env, s@) is None)
        }
}

/// A raw node that evaluates to itself without effect: a well-formed
/// number literal, or a symbol the environment leaves unbound.
pub open spec fn plain_elem(e: Expr, env: Environment) -> bool {
    ||| (e matches Expr::Num(n) && num_wf(n))
    ||| (e matches Expr::Symbol(s) && env_lookup(env, s@) is None)
}

/// A form certain to evaluate to `Unit`: a `print` of number literals.
pub open spec fn unit_form(e: Expr) -> bool {
    e matches Expr::List(pl) && head_is(pl@, "print"@) && all_num_args(pl@)
}

/// A form certain to evaluate to an error: an equality form with no
/// arguments.
pub open spec fn err_form(e: Expr) -> bool {
    e matches Expr::List(l) && l@.len() == 1 && head_is(l@, "="@)
}

/// Evaluates the arguments `vals[1..]`, failing fast: the first error
/// propagates, and a `Unit` value cannot be an argument (reported with
/// `unit_msg`). A raw number argument yields itself, so a form whose
/// arguments are all number literals always succeeds, leaving the
/// environment and output untouched.
fn eval_all(vals: &Vec<Rc<Expr>>, env: &mut Environment, out: &mut Vec<String>, fuel: u64,
    unit_msg: &str) -> (r: Result<Vec<Rc<Expr>>, EvalResult>)
    ensures
        frames_extended(old(env).contexts@, final(env).contexts@),
        seq_extended(old(out)@, final(out)@),
        r matches Ok(xs) ==> xs@.len() == argc(vals@) && (forall|j: int|
            1 <= j < vals@.len() && (#[trigger] (*vals@[j])) is Num ==> xs@[j - 1] == vals@[j]),
        r matches Err(x) ==> x is Error,
        all_num_args(vals@) ==> (r is Ok && final(env).contexts@ == old(env).contexts@
            && final(out)@ == old(out)@),
        plain_args(vals@, *old(env)) ==> (r matches Ok(xs) && (forall|j: int|
            1 <= j < vals@.len() ==> xs@[j - 1] == vals@[j])
            && final(env).contexts@ == old(env).contexts@ && final(out)@ == old(out)@),
        forall|k: int|
            (1 <= k < vals@.len() && (forall|j: int|
                1 <= j < k ==> plain_elem(*vals@[j], *old(env))) && #[trigger] unit_form(
                *vals@[k],
            )) ==> (r matches Err(x) && (x matches EvalResult::Error(m) && m@ == unit_msg@)
                && final(env).contexts@ == old(env).contexts@),
    decreases fuel, 1 + list_size(vals@), 0nat,
{
    let mut xs: Vec<Rc<Expr>> = Vec::new();
    let mut j: usize = 1;
    if vals.len() == 0 {
        return Ok(xs);
    }
    while j < vals.len()
        invariant
            1 <= j <= vals@.len(),
            xs@.len() == j - 1,
            frames_extended(old(env).contexts@, env.contexts@),
            seq_extended(old(out)@, out@),
            forall|k: int|
                1 <= k < j && (#[trigger] (*vals@[k])) is Num ==> xs@[k - 1] == vals@[k],
            all_num_args(vals@) ==> (env.contexts@ == old(env).contexts@ && out@ == old(out)@),
            plain_args(vals@, *old(env)) ==> ((forall|k: int|
                1 <= k < j ==> xs@[k - 1] == vals@[k]) && env.contexts@ == old(env).contexts@
                && out@ == old(out)@),
            forall|k: int|
                (1 <= k < vals@.len() && (forall|j2: int|
                    1 <= j2 < k ==> plain_elem(*vals@[j2], *old(env))) && #[trigger] unit_form(
                    *vals@[k],
                )) ==> k >= j,
            (forall|j2: int| 1 <= j2 < j ==> plain_elem(*vals@[j2], *old(env)))
                ==> env.contexts@ == old(env).contexts@,
        decreases vals@.len() - j,
    {
        let ghost pre_env = env.contexts@;
        let ghost pre_out = out@;
        proof {
            lemma_elem_size(vals@, j as int);
        }
        match &*vals[j] {
            Expr::List(pl) => {
                proof {
                    if head_is(pl@, "print"@) && all_num_args(pl@) {
                        lemma_render_args_nums(pl@, *env, fuel as nat);
                    }
                }
            },
            _ => {},
        }
        match eval(&vals[j], env, out, fuel) {
            EvalResult::Error(m) => {
                proof {
                    lemma_frames_trans(old(env).contexts@, pre_env, env.contexts@);
                }
                return Err(EvalResult::Error(m));
            },
            EvalResult::Unit => {
                proof {
                    lemma_frames_trans(old(env).contexts@, pre_env, env.contexts@);
                }
                return Err(EvalResult::Error(unit_msg.to_owned()));
            },
            EvalResult::Value(x) => {
                xs.push(x);
            },
        }
        proof {
            lemma_frames_trans(old(env).contexts@, pre_env, env.contexts@);
        }
        j += 1;
    }
    Ok(xs)
}

/// Evaluates the arguments `vals[1..]` all the way to well-formed
/// numbers, failing fast. With raw number-literal arguments the result
/// is exactly those numbers, and nothing else changes.
fn eval_nums(vals: &Vec<Rc<Expr>>, env: &mut Environment, out: &mut Vec<String>, fuel: u64) -> (r:
    Result<Vec<Number>, EvalResult>)
    ensures
        frames_extended(old(env).contexts@, final(env).contexts@),
        seq_extended(old(out)@, final(out)@),
        r matches Ok(ns) ==> ns@.len() == argc(vals@) && (forall|k: int|
            0 <= k < ns@.len() ==> num_wf(#[trigger] ns@[k])),
        r matches Err(x) ==> x is Error,
        all_num_args(vals@) ==> (r matches Ok(ns) && ns@ == num_args(vals@)
            && final(env).contexts@ == old(env).contexts@ && final(out)@ == old(out)@),
        plain_args(vals@, *old(env)) && (exists|j: int|
            1 <= j < vals@.len() && !((#[trigger] (*vals@[j])) is Num)) ==> (r matches Err(x) && (
        x matches EvalResult::Error(m) && m@ == "Can only operate on numbers"@)
            && final(env).contexts@ == old(env).contexts@ && final(out)@ == old(out)@),
    decreases fuel, 1 + list_size(vals@), 1nat,
{
    let xs = match eval_all(vals, env, out, fuel, "Failed to eval, got Unit") {
        Ok(xs) => xs,
        Err(e) => {
            return Err(e);
        },
    };
    let mut ns: Vec<Number> = Vec::new();
    let mut j: usize = 0;
    while j < xs.len()
        invariant
            j <= xs@.len(),
            ns@.len() == j,
            xs@.len() == argc(vals@),
            forall|k: int| 0 <= k < ns@.len() ==> num_wf(#[trigger] ns@[k]),
            frames_extended(old(env).contexts@, env.contexts@),
            seq_extended(old(out)@, out@),
            forall|k: int|
                1 <= k < vals@.len() && (#[trigger] (*vals@[k])) is Num ==> xs@[k - 1] == vals@[k],
            all_num_args(vals@) ==> (env.contexts@ == old(env).contexts@ && out@ == old(out)@),
            all_num_args(vals@) ==> (forall|k: int|
                0 <= k < j ==> ns@[k] == #[trigger] num_args(vals@)[k]),
            forall|k: int| 0 <= k < j ==> (#[trigger] (*xs@[k])) is Num,
            plain_args(vals@, *old(env)) ==> ((forall|k: int|
                1 <= k < vals@.len() ==> xs@[k - 1] == vals@[k])
                && env.contexts@ == old(env).contexts@ && out@ == old(out)@),
        decreases xs@.len() - j,
    {
        proof {
            if all_num_args(vals@) {
                assert((*vals@[j as int + 1]) matches Expr::Num(n) && num_wf(n));
                assert(xs@[j as int] == vals@[j as int + 1]);
                assert(num_args(vals@)[j as int] == num_of(*vals@[j as int + 1]));
            }
        }
        match &*xs[j] {
            Expr::Num(n) => {
                if 1 <= n.den && n.den <= DEN_MAX {
                    ns.push(*n);
                } else {
                    return Err(EvalResult::Error("Malformed number".to_owned()));
                }
            },
            _ => {
                return Err(EvalResult::Error("Can only operate on numbers".to_owned()));
            },
        }
        j += 1;
    }
    proof {
        if all_num_args(vals@) {
            assert(ns@.len() == num_args(vals@).len());
            assert forall|k: int| 0 <= k < ns@.len() implies ns@[k] == num_args(vals@)[k] by {
            }
            assert(ns@ =~= num_args(vals@));
        }
    }
    Ok(ns)
}

/// One arithmetic form: evaluates the arguments to numbers and folds
/// the operator over them, left to right. With raw number-literal
/// arguments the result is exactly the fold's value, or the
/// out-of-range error exactly when the fold is undefined.
fn arith_vals(op: ArithOp, msg: &str, vals: &Vec<Rc<Expr>>, env: &mut Environment, out: &mut Vec<
    String,
>, fuel: u64) -> (r: EvalResult)
    requires
        vals@.len() >= 1,
    ensures
        frames_extended(old(env).contexts@, final(env).contexts@),
        seq_extended(old(out)@, final(out)@),
        vals@.len() == 1 ==> (r matches EvalResult::Error(m) && m@ == msg@
            && final(env).contexts@ == old(env).contexts@ && final(out)@ == old(out)@),
        r is Error || (r matches EvalResult::Value(x) && ((*x) matches Expr::Num(n) && num_wf(n))),
        vals@.len() >= 2 && all_num_args(vals@) ==> ({
            &&& final(env).contexts@ == old(env).contexts@
            &&& final(out)@ == old(out)@
            &&& fold_spec(op, num_args(vals@)) matches Some(n) ==> (r matches EvalResult::Value(x)
                && (*x) == Expr::Num(n))
            &&& fold_spec(op, num_args(vals@)) is None ==> (r matches EvalResult::Error(m) && m@
                == "Arithmetic result cannot be represented"@)
        }),
        vals@.len() >= 2 && plain_args(vals@, *old(env)) && (exists|j: int|
            1 <= j < vals@.len() && !((#[trigger] (*vals@[j])) is Num)) ==> (r matches
            EvalResult::Error(m) && m@ == "Can only operate on numbers"@ && final(env).contexts@
            == old(env).contexts@ && final(out)@ == old(out)@),
    decreases fuel, 1 + list_size(vals@), 2nat,
{
    if vals.len() == 1 {
        return EvalResult::Error(msg.to_owned());
    }
    match eval_nums(vals, env, out, fuel) {
        Err(e) => e,
        Ok(ns) => match fold_nums(op, &ns) {
            Some(n) => EvalResult::Value(Expr::number(n)),
            None => EvalResult::Error("Arithmetic result cannot be represented".to_owned()),
        },
    }
}

/// The structural-equality verdict of a run against its first element.
fn is_equal_list(xs: &Vec<Rc<Expr>>) -> (r: String)
    ensures
        r@ == (if list_all_eq_first(xs@) {
            "True"@
        } else {
            "False"@
        }),
{
    let mut j: usize = 1;
    while j < xs.len()
        invariant
            1 <= j,
            j <= xs@.len() || j == 1,
            forall|k: int| 1 <= k < j ==> veq(*xs@[k], *xs@[0]),
        decreases xs@.len() - j,
    {
        if !expr_eq(&xs[j], &xs[0]) {
            proof {
                assert(!veq(*xs@[j as int], *xs@[0]));
                assert(!list_all_eq_first(xs@));
            }
            return "False".to_owned();
        }
        j += 1;
    }
    "True".to_owned()
}

/// Yields `True` when some element is not value-equal to the head
/// element, `False` otherwise.
fn is_equal_symbol(xs: &Vec<Rc<Expr>>) -> (r: String)
    ensures
        r@ == (if list_all_eq_first(xs@) {
            "False"@
        } else {
            "True"@
        }),
{
    let mut j: usize = 1;
    while j < xs.len()
        invariant
            1 <= j,
            j <= xs@.len() || j == 1,
            forall|k: int| 1 <= k < j ==> veq(*xs@[k], *xs@[0]),
        decreases xs@.len() - j,
    {
        if !expr_eq(&xs[j], &xs[0]) {
            proof {
                assert(!veq(*xs@[j as int], *xs@[0]));
                assert(!list_all_eq_first(xs@));
            }
            return "True".to_owned();
        }
        j += 1;
    }
    "False".to_owned()
}

/// The `=` form: evaluates the arguments and compares each against the
/// first, yielding a truth symbol.
fn equality(vals: &Vec<Rc<Expr>>, env: &mut Environment, out: &mut Vec<String>, fuel: u64) -> (r:
    EvalResult)
    requires
        vals@.len() >= 1,
    ensures
        frames_extended(old(env).contexts@, final(env).contexts@),
        seq_extended(old(out)@, final(out)@),
        vals@.len() == 1 ==> (r matches EvalResult::Error(m) && m@ == "'=' with no arguments"@
            && final(env).contexts@ == old(env).contexts@ && final(out)@ == old(out)@),
        r is Error || (r matches EvalResult::Value(x) && ((*x) matches Expr::Symbol(t) && (t@
            == "True"@ || t@ == "False"@))),
        vals@.len() >= 2 && plain_args(vals@, *old(env)) ==> (r matches EvalResult::Value(x) && (
        (*x) matches Expr::Symbol(t) && t@ == (if list_all_eq_first(vals@.skip(1)) {
            "True"@
        } else {
            "False"@
        })) && final(env).contexts@ == old(env).contexts@ && final(out)@ == old(out)@),
    decreases fuel, 1 + list_size(vals@), 2nat,
{
    if vals.len() == 1 {
        return EvalResult::Error("'=' with no arguments".to_owned());
    }
    match eval_all(vals, env, out, fuel, "Failed to eval, got Unit") {
        Err(e) => e,
        Ok(xs) => {
            proof {
                if plain_args(vals@, *old(env)) {
                    assert forall|k: int| 0 <= k < xs@.len() implies xs@[k]
                        == vals@.skip(1)[k] by {
                        assert(vals@.skip(1)[k] == vals@[k + 1]);
                    }
                    assert(xs@ =~= vals@.skip(1));
                }
            }
            let v = is_equal_list(&xs);
            EvalResult::Value(Expr::symbol(v.as_str()))
        },
    }
}

/// The `!=` form: evaluates the arguments and tests whether any
/// differs from the first, yielding a truth symbol.
fn inequality(vals: &Vec<Rc<Expr>>, env: &mut Environment, out: &mut Vec<String>, fuel: u64) -> (r:
    EvalResult)
    requires
        vals@.len() >= 1,
    ensures
        frames_extended(old(env).contexts@, final(env).contexts@),
        seq_extended(old(out)@, final(out)@),
        vals@.len() == 1 ==> (r matches EvalResult::Error(m) && m@ == "'!=' with no arguments"@
            && final(env).contexts@ == old(env).contexts@ && final(out)@ == old(out)@),
        r is Error || (r matches EvalResult::Value(x) && ((*x) matches Expr::Symbol(t) && (t@
            == "True"@ || t@ == "False"@))),
        vals@.len() >= 2 && plain_args(vals@, *old(env)) ==> (r matches EvalResult::Value(x) && (
        (*x) matches Expr::Symbol(t) && t@ == (if list_all_eq_first(vals@.skip(1)) {
            "False"@
        } else {
            "True"@
        })) && final(env).contexts@ == old(env).contexts@ && final(out)@ == old(out)@),
    decreases fuel, 1 + list_size(vals@), 2nat,
{
    if vals.len() == 1 {
        return EvalResult::Error("'!=' with no arguments".to_owned());
    }
    match eval_all(vals, env, out, fuel, "Failed to eval, got Unit") {
        Err(e) => e,
        Ok(xs) => {
            proof {
                if plain_args(vals@, *old(env)) {
                    assert forall|k: int| 0 <= k < xs@.len() implies xs@[k]
                        == vals@.skip(1)[k] by {
                        assert(vals@.skip(1)[k] == vals@[k + 1]);
                    }
                    assert(xs@ =~= vals@.skip(1));
                }
            }
            let v = is_equal_symbol(&xs);
            EvalResult::Value(Expr::symbol(v.as_str()))
        },
    }
}

/// The `not` form: evaluates its argument for effect, then flips the
/// raw argument's truth symbol, or reuses the list-equality verdict on
/// a raw list argument.
fn not_form(vals: &Vec<Rc<Expr>>, env: &mut Environment, out: &mut Vec<String>, fuel: u64) -> (r:
    EvalResult)
    requires
        vals@.len() >= 1,
    ensures
        frames_extended(old(env).contexts@, final(env).contexts@),
        seq_extended(old(out)@, final(out)@),
        vals@.len() < 2 ==> (r matches EvalResult::Error(m) && m@
            == "not requires an argument"@),
        vals@.len() >= 2 && not_verdict(*vals@[1]) is None ==> r is Error,
        !(r is Error) ==> ({
            &&& vals@.len() >= 2
            &&& not_verdict(*vals@[1]) matches Some(name) && (r matches EvalResult::Value(x) && ((
            *x) matches Expr::Symbol(t) && t@ == name))
        }),
        vals@.len() >= 2 && ((*vals@[1]) matches Expr::Symbol(sy) && env_lookup(*old(env), sy@)
            is None) ==> ({
            &&& not_verdict(*vals@[1]) matches Some(name) ==> (r matches EvalResult::Value(x) && (
            (*x) matches Expr::Symbol(t) && t@ == name))
            &&& not_verdict(*vals@[1]) is None ==> (r matches EvalResult::Error(m) && m@
                == "Invalid input for not operator"@)
        }),
        vals@.len() >= 2 && ((*vals@[1]) matches Expr::List(l) && all_num_elems(l@)) ==> (
        not_verdict(*vals@[1]) matches Some(name) && (r matches EvalResult::Value(x) && ((
        *x) matches Expr::Symbol(t) && t@ == name))),
        vals@.len() >= 2 && ((*vals@[1]) matches Expr::Symbol(sy) && env_lookup(*old(env), sy@)
            matches Some(b) && b.0@.len() == 0 && ((*b.1) matches Expr::List(bl) && (bl@.len()
            == 0 || all_num_elems(bl@)))) && fuel > 0 ==> ({
            &&& not_verdict(*vals@[1]) matches Some(name) ==> (r matches EvalResult::Value(x) && (
            (*x) matches Expr::Symbol(t) && t@ == name))
            &&& not_verdict(*vals@[1]) is None ==> (r matches EvalResult::Error(m) && m@
                == "Invalid input for not operator"@)
        }),
    decreases fuel, 1 + list_size(vals@), 2nat,
{
    if vals.len() < 2 {
        return EvalResult::Error("not requires an argument".to_owned());
    }
    proof {
        lemma_elem_size(vals@, 1);
    }
    let first = eval(&vals[1], env, out, fuel);
    match first {
        EvalResult::Error(m) => {
            let mut wrapped = "Failed to eval expr: ".to_owned();
            wrapped.append(m.as_str());
            return EvalResult::Error(wrapped);
        },
        _ => {},
    }
    proof {
        reveal_strlit("True");
        reveal_strlit("False");
    }
    match &*vals[1] {
        Expr::Symbol(s) => {
            if str_eq(s.as_str(), "True") {
                EvalResult::Value(Expr::symbol("False"))
            } else if str_eq(s.as_str(), "False") {
                EvalResult::Value(Expr::symbol("True"))
            } else {
                EvalResult::Error("Invalid input for not operator".to_owned())
            }
        },
        Expr::List(l) => {
            let v = is_equal_list(l);
            EvalResult::Value(Expr::symbol(v.as_str()))
        },
        Expr::Num(_) => EvalResult::Error("Invalid input for not operator".to_owned()),
    }
}

/// The `and` form: compares the raw, unevaluated arguments against the
/// first argument.
fn bool_and(vals: &Vec<Rc<Expr>>) -> (r: EvalResult)
    requires
        vals@.len() >= 1,
    ensures
        r matches EvalResult::Value(x) && ((*x) matches Expr::Symbol(t) && t@ == (if and_all(
            vals@,
            1,
        ) {
            "True"@
        } else {
            "False"@
        })),
{
    let mut j: usize = 1;
    while j < vals.len()
        invariant
            1 <= j,
            vals@.len() >= 1,
            j <= vals@.len() || j == 1,
            forall|k: int| 1 <= k < j ==> veq(*vals@[k], *vals@[1]),
        decreases vals@.len() - j,
    {
        if !expr_eq(&vals[j], &vals[1]) {
            proof {
                assert(!veq(*vals@[j as int], *vals@[1]));
                assert(!and_all(vals@, 1));
            }
            return EvalResult::Value(Expr::symbol("False"));
        }
        j += 1;
    }
    EvalResult::Value(Expr::symbol("True"))
}

/// The `or` form: true exactly when some raw argument is literally the
/// symbol `True`.
fn bool_or(vals: &Vec<Rc<Expr>>) -> (r: EvalResult)
    requires
        vals@.len() >= 1,
    ensures
        r matches EvalResult::Value(x) && ((*x) matches Expr::Symbol(t) && t@ == (if or_any(
            vals@,
            1,
        ) {
            "True"@
        } else {
            "False"@
        })),
{
    proof {
        reveal_strlit("True");
    }
    let mut j: usize = 1;
    while j < vals.len()
        invariant
            1 <= j,
            vals@.len() >= 1,
            j <= vals@.len() || j == 1,
            forall|k: int|
                1 <= k < j ==> !((#[trigger] (*vals@[k])) matches Expr::Symbol(s) && s@
                    == "True"@),
        decreases vals@.len() - j,
    {
        let hit = match &*vals[j] {
            Expr::Symbol(s) => str_eq(s.as_str(), "True"),
            _ => false,
        };
        if hit {
            proof {
                assert(1 <= j < vals@.len() && ((#[trigger] (*vals@[j as int])) matches
                    Expr::Symbol(s2) && s2@ == "True"@));
                assert(or_any(vals@, 1));
            }
            return EvalResult::Value(Expr::symbol("True"));
        }
        j += 1;
    }
    EvalResult::Value(Expr::symbol("False"))
}

/// The `if` form: evaluates the condition, then the branch the
/// condition picks for its effects, and finally yields the then
/// branch's value in every case.
fn if_then_else(vals: &Vec<Rc<Expr>>, env: &mut Environment, out: &mut Vec<String>, fuel: u64) -> (
    r: EvalResult)
    requires
        vals@.len() >= 1,
    ensures
        frames_extended(old(env).contexts@, final(env).contexts@),
        seq_extended(old(out)@, final(out)@),
        vals@.len() != 4 ==> (r matches EvalResult::Error(m) && m@
            == "Must have format: if (<argument>) (<then block>) (<else block>)"@),
        (vals@.len() == 4 && (*vals@[1]) is Num && (*vals@[2]) is Num && (*vals@[3]) is Num) ==> (
        r == EvalResult::Value(vals@[2]) && final(env).contexts@ == old(env).contexts@
            && final(out)@ == old(out)@),
    decreases fuel, 1 + list_size(vals@), 2nat,
{
    if vals.len() != 4 {
        return EvalResult::Error(
            "Must have format: if (<argument>) (<then block>) (<else block>)".to_owned(),
        );
    }
    proof {
        lemma_elem_size(vals@, 1);
        lemma_elem_size(vals@, 2);
        lemma_elem_size(vals@, 3);
    }
    let ghost env0 = env.contexts@;
    let ghost out0 = out@;
    let cond = eval(&vals[1], env, out, fuel);
    match cond {
        EvalResult::Value(x) => {
            let ghost env1 = env.contexts@;
            let ghost out1 = out@;
            let else_branch = match &*x {
                Expr::List(l) => l.len() == 0,
                _ => false,
            };
            if else_branch {
                let _ = eval(&vals[3], env, out, fuel);
            } else {
                let _ = eval(&vals[2], env, out, fuel);
            }
            let ghost env2 = env.contexts@;
            let ghost out2 = out@;
            proof {
                lemma_frames_trans(env0, env1, env2);
            }
            let r = eval(&vals[2], env, out, fuel);
            proof {
                lemma_frames_trans(env0, env2, env.contexts@);
            }
            r
        },
        EvalResult::Unit => EvalResult::Error(
            "If expression predicate must return an expression.".to_owned(),
        ),
        err => err,
    }
}

/// Rendering a run of well-formed number literals always succeeds.
proof fn lemma_render_items_nums(vs: Seq<Rc<Expr>>, env: Environment, fuel: nat)
    requires
        forall|j: int|
            0 <= j < vs.len() ==> ((#[trigger] (*vs[j])) matches Expr::Num(n) && num_wf(n)),
    ensures
        spec_render_items(vs, env, fuel) is Some,
    decreases vs.len(),
{
    if vs.len() > 0 {
        assert((*vs[0]) matches Expr::Num(n) && num_wf(n));
        assert(spec_render(*vs[0], env, fuel) is Some);
        assert forall|j: int|
            0 <= j < vs.drop_first().len() implies ((#[trigger] (*vs.drop_first()[j])) matches
            Expr::Num(n) && num_wf(n)) by {
            assert(vs.drop_first()[j] == vs[j + 1]);
        }
        lemma_render_items_nums(vs.drop_first(), env, fuel);
        assert(spec_render_items(vs.drop_first(), env, fuel) is Some);
    }
}

/// Rendering the arguments of a form whose arguments are all
/// well-formed number literals always succeeds.
proof fn lemma_render_args_nums(pl: Seq<Rc<Expr>>, env: Environment, fuel: nat)
    requires
        pl.len() >= 1,
        all_num_args(pl),
    ensures
        spec_render_items(pl.skip(1), env, fuel) is Some,
{
    assert forall|j: int|
        0 <= j < pl.skip(1).len() implies ((#[trigger] (*pl.skip(1)[j])) matches Expr::Num(n)
        && num_wf(n)) by {
        assert(pl.skip(1)[j] == pl[j + 1]);
    }
    lemma_render_items_nums(pl.skip(1), env, fuel);
}

/// The `let` form: evaluates the expression and binds the symbol to
/// its value in the innermost frame.
fn add_var_to_env(vals: &Vec<Rc<Expr>>, env: &mut Environment, out: &mut Vec<String>, fuel: u64) -> (
    r: EvalResult)
    requires
        vals@.len() >= 1,
    ensures
        frames_extended(old(env).contexts@, final(env).contexts@),
        seq_extended(old(out)@, final(out)@),
        vals@.len() != 3 ==> (r matches EvalResult::Error(m) && m@
            == "Invalid variable definition. Should look like (let someVar someExpr)"@
            && final(env).contexts@ == old(env).contexts@ && final(out)@ == old(out)@),
        vals@.len() == 3 && !((*vals@[1]) is Symbol) ==> (r matches EvalResult::Error(m) && m@
            == "Second element of variable def must be a symbol and third must be expression."@
            && final(env).contexts@ == old(env).contexts@ && final(out)@ == old(out)@),
        r is Unit || r is Error,
        r is Unit ==> ((*vals@[1]) matches Expr::Symbol(nm) && final(env).contexts@.len() > 0
            && final(env).contexts@.last()@.len() > 0 && ({
            let p = final(env).contexts@.last()@.last();
            p.0@ == nm@ && p.1.0@.len() == 0
        })),
        (vals@.len() == 3 && (*vals@[1]) is Symbol && (*vals@[2]) is Num && old(
            env,
        ).contexts@.len() > 0) ==> (r is Unit && ((*vals@[1]) matches Expr::Symbol(nm)
            && final(env).contexts@.last()@.len() == old(env).contexts@.last()@.len() + 1 && ({
            let p = final(env).contexts@.last()@.last();
            p.0@ == nm@ && p.1.0@.len() == 0 && p.1.1 == vals@[2]
        })) && final(out)@ == old(out)@),
        (vals@.len() == 3 && (*vals@[1]) is Symbol && ((*vals@[2]) matches Expr::List(pl)
            && head_is(pl@, "print"@) && all_num_args(pl@))) ==> (r matches EvalResult::Error(m)
            && m@ == "cannot assign Unit to a variable."@
            && final(env).contexts@ == old(env).contexts@),
    decreases fuel, 1 + list_size(vals@), 2nat,
{
    if vals.len() != 3 {
        return EvalResult::Error(
            "Invalid variable definition. Should look like (let someVar someExpr)".to_owned(),
        );
    }
    proof {
        lemma_elem_size(vals@, 2);
    }
    let is_sym = match &*vals[1] {
        Expr::Symbol(_) => true,
        _ => false,
    };
    if !is_sym {
        return EvalResult::Error(
            "Second element of variable def must be a symbol and third must be expression."
                .to_owned(),
        );
    }
    let ghost env0 = env.contexts@;
    match &*vals[2] {
        Expr::List(pl) => {
            proof {
                if head_is(pl@, "print"@) && all_num_args(pl@) {
                    lemma_render_args_nums(pl@, *env, fuel as nat);
                }
            }
        },
        _ => {},
    }
    let evaluated = eval(&vals[2], env, out, fuel);
    match evaluated {
        EvalResult::Value(e) => {
            match &*vals[1] {
                Expr::Symbol(s) => {
                    let ghost env1 = env.contexts@;
                    let added = env.add_var(s.as_str(), e);
                    proof {
                        lemma_frames_trans(env0, env1, env.contexts@);
                    }
                    match added {
                        Ok(_) => EvalResult::Unit,
                        Err(m) => EvalResult::Error(m),
                    }
                },
                _ => EvalResult::Error(
                    "Second element of variable def must be a symbol and third must be expression."
                        .to_owned(),
                ),
            }
        },
        EvalResult::Unit => EvalResult::Error("cannot assign Unit to a variable.".to_owned()),
        err => match err {
            EvalResult::Error(m) => EvalResult::Error(m),
            _ => EvalResult::Error("Failed to eval expr".to_owned()),
        },
    }
}

/// The `fn` form: registers the named function with its parameter
/// symbols and unevaluated body in the innermost frame.
fn add_fn_to_env(vals: &Vec<Rc<Expr>>, env: &mut Environment) -> (r: EvalResult)
    requires
        vals@.len() >= 1,
    ensures
        frames_extended(old(env).contexts@, final(env).contexts@),
        vals@.len() != 4 ==> (r matches EvalResult::Error(m) && m@
            == "Function definitions must follow the pattern (fn fn-name (arg1 arg2 arg3 .. argn) <Expr>)"@),
        r is Unit || r is Error,
        r is Unit ==> (vals@.len() == 4 && ((*vals@[1]) matches Expr::Symbol(nm) && ((*vals@[2])
            matches Expr::List(l) && all_symbols(l@) && old(env).contexts@.len() > 0
            && final(env).contexts@.len() > 0 && final(env).contexts@.last()@.len()
            == old(env).contexts@.last()@.len() + 1 && ({
            let p = final(env).contexts@.last()@.last();
            p.0@ == nm@ && strs_view(p.1.0@) == sym_names(l@) && p.1.1 == vals@[3]
        })))),
        r is Error ==> final(env).contexts@ == old(env).contexts@,
        (vals@.len() == 4 && (*vals@[1]) is Symbol && ((*vals@[2]) matches Expr::List(l)
            && all_symbols(l@)) && old(env).contexts@.len() > 0) ==> r is Unit,
        (vals@.len() == 4 && (*vals@[1]) is Symbol && ((*vals@[2]) matches Expr::List(l)
            && all_symbols(l@)) && old(env).contexts@.len() == 0) ==> (r matches
            EvalResult::Error(m) && m@ == "Environment has no context to add to."@),
        (vals@.len() == 4 && (*vals@[1]) is Symbol && ((*vals@[2]) matches Expr::List(l)
            && !all_symbols(l@))) ==> (r matches EvalResult::Error(m) && m@
            == "Function parameters must be symbols."@),
{
    if vals.len() != 4 {
        return EvalResult::Error(
            "Function definitions must follow the pattern (fn fn-name (arg1 arg2 arg3 .. argn) <Expr>)".to_owned(),
        );
    }
    let name = match &*vals[1] {
        Expr::Symbol(s) => s,
        _ => {
            return EvalResult::Error(
                "Function definitions must follow the pattern (fn fn-name (arg1 arg2 arg3 .. argn) <Expr>)".to_owned(),
            );
        },
    };
    let params = match &*vals[2] {
        Expr::List(l) => l,
        _ => {
            return EvalResult::Error(
                "Function definitions must follow the pattern (fn fn-name (arg1 arg2 arg3 .. argn) <Expr>)".to_owned(),
            );
        },
    };
    let mut ps: Vec<String> = Vec::new();
    let mut j: usize = 0;
    while j < params.len()
        invariant
            j <= params@.len(),
            ps@.len() == j,
            vals@.len() == 4,
            (*vals@[2]) == Expr::List(*params),
            forall|k: int| 0 <= k < j ==> (*params@[k]) is Symbol,
            forall|k: int| 0 <= k < j ==> ps@[k]@ == sym_name(*params@[k]),
        decreases params@.len() - j,
    {
        match &*params[j] {
            Expr::Symbol(n) => {
                ps.push(n.clone());
            },
            _ => {
                proof {
                    assert(!((*params@[j as int]) is Symbol));
                    assert(!all_symbols(params@));
                }
                return EvalResult::Error("Function parameters must be symbols.".to_owned());
            },
        }
        j += 1;
    }
    let body = rc_dup(&vals[3]);
    let added = env.add_fn(name.as_str(), ps.as_slice(), body);
    match added {
        Ok(_) => {
            proof {
                assert(strs_view(ps@) =~= sym_names(params@));
            }
            EvalResult::Unit
        },
        Err(m) => EvalResult::Error(m),
    }
}


/// Evaluates a symbol, alone or at the head of a call with the
/// arguments `vals[1..]`. An unbound symbol is itself; a plain
/// variable evaluates its bound expression in the current environment;
/// a function demands exactly as many arguments as it has parameters,
/// binds the evaluated arguments in one fresh frame, evaluates its
/// body there, and releases the frame on every path.
fn eval_symbol(e: &Rc<Expr>, sym: &str, vals: &Vec<Rc<Expr>>, env: &mut Environment, out: &mut Vec<
    String,
>, fuel: u64) -> (r: EvalResult)
    ensures
        frames_extended(old(env).contexts@, final(env).contexts@),
        seq_extended(old(out)@, final(out)@),
        env_lookup(*old(env), sym@) is None ==> (r == EvalResult::Value(*e)
            && final(env).contexts@ == old(env).contexts@ && final(out)@ == old(out)@),
        env_lookup(*old(env), sym@) matches Some(b) ==> ((b.0@.len() > 0 && argc(vals@)
            != b.0@.len()) ==> (r matches EvalResult::Error(m) && m@ == arity_msg(
            argc(vals@) as nat,
            b.0@.len(),
        ) && final(env).contexts@ == old(env).contexts@ && final(out)@ == old(out)@)),
        env_lookup(*old(env), sym@) matches Some(b) ==> ((b.0@.len() == 0 && (*b.1) is Num && fuel
            > 0) ==> (r == EvalResult::Value(b.1) && final(env).contexts@ == old(env).contexts@
            && final(out)@ == old(out)@)),
        env_lookup(*old(env), sym@) matches Some(b) ==> ((b.0@.len() == 0 && ((*b.1) matches
            Expr::List(bl) && (bl@.len() == 0 || all_num_elems(bl@))) && fuel > 0) ==> (r
            is Value && final(env).contexts@ == old(env).contexts@ && final(out)@ == old(out)@)),
        env_lookup(*old(env), sym@) matches Some(b) ==> ((b.0@.len() > 0 && argc(vals@)
            == b.0@.len() && all_num_args(vals@) && (*b.1) is Num && fuel > 0) ==> (r
            == EvalResult::Value(b.1) && final(env).contexts@ == old(env).contexts@ && final(out)@
            == old(out)@)),
        env_lookup(*old(env), sym@) matches Some(b) ==> (forall|k: int|
            (b.0@.len() > 0 && argc(vals@) == b.0@.len() && fuel > 0 && 1 <= k < vals@.len() && (
            forall|j: int| 1 <= j < k ==> plain_elem(*vals@[j], *old(env))) && #[trigger] unit_form(
                *vals@[k],
            )) ==> (r matches EvalResult::Error(m) && m@
                == "Cannot pass Unit as an argument to a function."@ && final(env).contexts@
                == old(env).contexts@)),
    decreases fuel, 1 + list_size(vals@), 2nat,
{
    let looked = env.lookup(sym);
    match looked {
        None => EvalResult::Value(rc_dup(e)),
        Some((params, bound)) => {
            proof {
                assert(strs_view(params@).len() == params@.len());
            }
            if params.len() == 0 {
                if fuel == 0 {
                    return EvalResult::Error("Evaluation depth exceeded".to_owned());
                }
                eval(&bound, env, out, fuel - 1)
            } else {
                let nargs = if vals.len() == 0 {
                    0
                } else {
                    vals.len() - 1
                };
                if nargs != params.len() {
                    return arity_error(nargs as u64, params.len() as u64);
                }
                if fuel == 0 {
                    return EvalResult::Error("Evaluation depth exceeded".to_owned());
                }
                // Evaluate the arguments in the caller's environment.
                let ghost env0 = env.contexts@;
                let args = match eval_all(
                    vals,
                    env,
                    out,
                    fuel,
                    "Cannot pass Unit as an argument to a function.",
                ) {
                    Ok(xs) => xs,
                    Err(er) => {
                        return er;
                    },
                };
                let ghost env1 = env.contexts@;
                env.push_context();
                let ghost env2 = env.contexts@;
                let mut k: usize = 0;
                while k < params.len()
                    invariant
                        k <= params@.len(),
                        args@.len() == params@.len(),
                        env.contexts@.len() == env2.len(),
                        env2.len() == env1.len() + 1,
                        forall|i: int| 0 <= i < env1.len() ==> env.contexts@[i] == env2[i],
                        forall|i: int| 0 <= i < env1.len() ==> env2[i] == env1[i],
                    decreases params@.len() - k,
                {
                    let ghost envc = env.contexts@;
                    let v = rc_dup(&args[k]);
                    let added = env.add_var(params[k].as_str(), v);
                    proof {
                        assert(env.contexts@.len() == envc.len());
                    }
                    k += 1;
                }
                let ghost env3 = env.contexts@;
                let body_r = eval(&bound, env, out, fuel - 1);
                let ghost env4 = env.contexts@;
                env.pop_context();
                proof {
                    assert(env4.len() == env3.len());
                    assert(env.contexts@ =~= env4.drop_last());
                    assert forall|i: int| 0 <= i < env1.len() implies env.contexts@[i]
                        == env1[i] by {
                        assert(env4[i] == env3[i]);
                        assert(env3[i] == env2[i]);
                    }
                    assert(env.contexts@ =~= env1);
                    lemma_frames_trans(env0, env1, env.contexts@);
                }
                body_r
            }
        },
    }
}

/// Evaluates an expression. A number is itself; a symbol follows
/// `eval_symbol`; the empty list is itself; a list headed by a
/// reserved operator applies that operator to the rest; a list headed
/// by a bound symbol is a call; any other list evaluates every element
/// in order, drops unit results, propagates the first error, and
/// yields the list of the remaining values. Frames below the innermost
/// are never touched, the innermost only gains bindings, and printed
/// lines are only appended.
pub fn eval(e: &Rc<Expr>, env: &mut Environment, out: &mut Vec<String>, fuel: u64) -> (r:
    EvalResult)
    ensures
        frames_extended(old(env).contexts@, final(env).contexts@),
        seq_extended(old(out)@, final(out)@),
        (**e) matches Expr::Num(_) ==> (r == EvalResult::Value(*e)
            && final(env).contexts@ == old(env).contexts@ && final(out)@ == old(out)@),
        (**e) matches Expr::Symbol(s) ==> ({
            &&& env_lookup(*old(env), s@) is None ==> (r == EvalResult::Value(*e)
                && final(env).contexts@ == old(env).contexts@ && final(out)@ == old(out)@)
            &&& env_lookup(*old(env), s@) matches Some(b) ==> (b.0@.len() > 0 ==> (r matches
                EvalResult::Error(m) && m@ == arity_msg(0, b.0@.len())))
            &&& env_lookup(*old(env), s@) matches Some(b) ==> ((b.0@.len() == 0 && (*b.1) is Num
                && fuel > 0) ==> (r == EvalResult::Value(b.1) && final(env).contexts@ == old(
                env,
            ).contexts@ && final(out)@ == old(out)@))
            &&& env_lookup(*old(env), s@) matches Some(b) ==> ((b.0@.len() == 0 && ((*b.1) matches
                Expr::List(bl) && (bl@.len() == 0 || all_num_elems(bl@))) && fuel > 0) ==> (r
                is Value && final(env).contexts@ == old(env).contexts@ && final(out)@ == old(
                out,
            )@))
        }),
        (**e) matches Expr::List(vs) ==> ({
            &&& vs@.len() == 0 ==> (r matches EvalResult::Value(x) && ((*x) matches Expr::List(l)
                && l@.len() == 0) && final(env).contexts@ == old(env).contexts@ && final(out)@
                == old(out)@)
            &&& head_is(vs@, "and"@) ==> (r matches EvalResult::Value(x) && ((*x) matches
                Expr::Symbol(t) && t@ == (if and_all(vs@, 1) {
                "True"@
            } else {
                "False"@
            })) && final(env).contexts@ == old(env).contexts@ && final(out)@ == old(out)@)
            &&& head_is(vs@, "or"@) ==> (r matches EvalResult::Value(x) && ((*x) matches
                Expr::Symbol(t) && t@ == (if or_any(vs@, 1) {
                "True"@
            } else {
                "False"@
            })) && final(env).contexts@ == old(env).contexts@ && final(out)@ == old(out)@)
            &&& (head_is(vs@, "+"@) || head_is(vs@, "-"@) || head_is(vs@, "*"@) || head_is(
                vs@,
                "/"@,
            )) ==> ({
                let op = arith_op_of(sym_name(*vs@[0]));
                &&& r is Error || (r matches EvalResult::Value(x) && ((*x) matches Expr::Num(n)
                    && num_wf(n)))
                &&& vs@.len() == 1 ==> (r matches EvalResult::Error(m) && m@ == arith_empty_msg(
                    op,
                ) && final(env).contexts@ == old(env).contexts@ && final(out)@ == old(out)@)
                &&& vs@.len() >= 2 && all_num_args(vs@) ==> ({
                    &&& final(env).contexts@ == old(env).contexts@
                    &&& final(out)@ == old(out)@
                    &&& fold_spec(op, num_args(vs@)) matches Some(n) ==> (r matches
                        EvalResult::Value(x) && (*x) == Expr::Num(n))
                    &&& fold_spec(op, num_args(vs@)) is None ==> (r matches EvalResult::Error(m)
                        && m@ == "Arithmetic result cannot be represented"@)
                })
                &&& vs@.len() >= 2 && plain_args(vs@, *old(env)) && (exists|j: int|
                    1 <= j < vs@.len() && !((#[trigger] (*vs@[j])) is Num)) ==> (r matches
                    EvalResult::Error(m) && m@ == "Can only operate on numbers"@
                    && final(env).contexts@ == old(env).contexts@ && final(out)@ == old(out)@)
            })
            &&& (head_is(vs@, "="@) || head_is(vs@, "!="@)) ==> (r is Error || (r matches
                EvalResult::Value(x) && ((*x) matches Expr::Symbol(t) && (t@ == "True"@ || t@
                == "False"@))))
            &&& head_is(vs@, "="@) ==> ({
                &&& vs@.len() == 1 ==> (r matches EvalResult::Error(m) && m@
                    == "'=' with no arguments"@ && final(env).contexts@ == old(env).contexts@
                    && final(out)@ == old(out)@)
                &&& vs@.len() >= 2 && plain_args(vs@, *old(env)) ==> (r matches
                    EvalResult::Value(x) && ((*x) matches Expr::Symbol(t) && t@ == (if
                list_all_eq_first(vs@.skip(1)) {
                    "True"@
                } else {
                    "False"@
                })) && final(env).contexts@ == old(env).contexts@ && final(out)@ == old(out)@)
            })
            &&& head_is(vs@, "!="@) ==> ({
                &&& vs@.len() == 1 ==> (r matches EvalResult::Error(m) && m@
                    == "'!=' with no arguments"@ && final(env).contexts@ == old(env).contexts@
                    && final(out)@ == old(out)@)
                &&& vs@.len() >= 2 && plain_args(vs@, *old(env)) ==> (r matches
                    EvalResult::Value(x) && ((*x) matches Expr::Symbol(t) && t@ == (if
                list_all_eq_first(vs@.skip(1)) {
                    "False"@
                } else {
                    "True"@
                })) && final(env).contexts@ == old(env).contexts@ && final(out)@ == old(out)@)
            })
            &&& head_is(vs@, "let"@) ==> (r is Unit || r is Error)
            &&& (head_is(vs@, "let"@) && r is Unit) ==> ((*vs@[1]) matches Expr::Symbol(nm)
                && final(env).contexts@.len() > 0 && final(env).contexts@.last()@.len() > 0
                && final(env).contexts@.last()@.last().0@ == nm@)
            &&& head_is(vs@, "let"@) ==> ({
                &&& vs@.len() != 3 ==> (r matches EvalResult::Error(m) && m@
                    == "Invalid variable definition. Should look like (let someVar someExpr)"@
                    && final(env).contexts@ == old(env).contexts@ && final(out)@ == old(out)@)
                &&& (vs@.len() == 3 && !((*vs@[1]) is Symbol)) ==> (r matches EvalResult::Error(m)
                    && m@
                    == "Second element of variable def must be a symbol and third must be expression."@
                    && final(env).contexts@ == old(env).contexts@ && final(out)@ == old(out)@)
                &&& (vs@.len() == 3 && (*vs@[1]) is Symbol && (*vs@[2]) is Num && old(
                    env,
                ).contexts@.len() > 0) ==> (r is Unit && ((*vs@[1]) matches Expr::Symbol(nm)
                    && final(env).contexts@.last()@.len() == old(env).contexts@.last()@.len() + 1
                    && ({
                    let p = final(env).contexts@.last()@.last();
                    p.0@ == nm@ && p.1.0@.len() == 0 && p.1.1 == vs@[2]
                })) && final(out)@ == old(out)@)
                &&& (vs@.len() == 3 && (*vs@[1]) is Symbol && ((*vs@[2]) matches Expr::List(pl)
                    && head_is(pl@, "print"@) && all_num_args(pl@))) ==> (r matches
                    EvalResult::Error(m) && m@ == "cannot assign Unit to a variable."@
                    && final(env).contexts@ == old(env).contexts@)
            })
            &&& head_is(vs@, "fn"@) ==> (r is Unit || r is Error)
            &&& head_is(vs@, "fn"@) ==> ({
                &&& vs@.len() != 4 ==> (r matches EvalResult::Error(m) && m@
                    == "Function definitions must follow the pattern (fn fn-name (arg1 arg2 arg3 .. argn) <Expr>)"@)
                &&& (vs@.len() == 4 && (*vs@[1]) is Symbol && ((*vs@[2]) matches Expr::List(l)
                    && all_symbols(l@)) && old(env).contexts@.len() > 0) ==> r is Unit
                &&& (vs@.len() == 4 && (*vs@[1]) is Symbol && ((*vs@[2]) matches Expr::List(l)
                    && !all_symbols(l@))) ==> (r matches EvalResult::Error(m) && m@
                    == "Function parameters must be symbols."@)
            })
            &&& (head_is(vs@, "fn"@) && r is Unit) ==> (vs@.len() == 4 && ((*vs@[1]) matches
                Expr::Symbol(nm) && ((*vs@[2]) matches Expr::List(l) && all_symbols(l@)
                && old(env).contexts@.len() > 0 && final(env).contexts@.len() > 0
                && final(env).contexts@.last()@.len() == old(env).contexts@.last()@.len() + 1
                && ({
                let p = final(env).contexts@.last()@.last();
                p.0@ == nm@ && strs_view(p.1.0@) == sym_names(l@) && p.1.1 == vs@[3]
            }))))
            &&& (head_is(vs@, "fn"@) && r is Error) ==> (final(env).contexts@
                == old(env).contexts@ && final(out)@ == old(out)@)
            &&& head_is(vs@, "print"@) ==> ({
                &&& r is Unit <==> spec_render_items(vs@.skip(1), *old(env), fuel as nat) is Some
                &&& r is Unit || r is Error
                &&& final(env).contexts@ == old(env).contexts@
                &&& r is Unit ==> final(out)@.len() == old(out)@.len() + 1 && final(out)@.last()@
                    == spec_render_items(vs@.skip(1), *old(env), fuel as nat)->Some_0
            })
            &&& (head_is(vs@, "not"@) && !(r is Error)) ==> ({
                &&& vs@.len() >= 2
                &&& not_verdict(*vs@[1]) matches Some(name) && (r matches EvalResult::Value(x)
                    && ((*x) matches Expr::Symbol(t) && t@ == name))
            })
            &&& head_is(vs@, "not"@) ==> ({
                &&& vs@.len() < 2 ==> (r matches EvalResult::Error(m) && m@
                    == "not requires an argument"@)
                &&& vs@.len() >= 2 && not_verdict(*vs@[1]) is None ==> r is Error
                &&& (vs@.len() >= 2 && ((*vs@[1]) matches Expr::Symbol(sy) && env_lookup(
                    *old(env),
                    sy@,
                ) is None)) ==> ({
                    &&& not_verdict(*vs@[1]) matches Some(name) ==> (r matches EvalResult::Value(
                        x,
                    ) && ((*x) matches Expr::Symbol(t) && t@ == name))
                    &&& not_verdict(*vs@[1]) is None ==> (r matches EvalResult::Error(m) && m@
                        == "Invalid input for not operator"@)
                })
                &&& (vs@.len() >= 2 && ((*vs@[1]) matches Expr::List(l) && all_num_elems(l@)))
                    ==> (not_verdict(*vs@[1]) matches Some(name) && (r matches EvalResult::Value(
                    x,
                ) && ((*x) matches Expr::Symbol(t) && t@ == name)))
                &&& (vs@.len() >= 2 && ((*vs@[1]) matches Expr::Symbol(sy) && env_lookup(
                    *old(env),
                    sy@,
                ) matches Some(b) && b.0@.len() == 0 && ((*b.1) matches Expr::List(bl) && (
                bl@.len() == 0 || all_num_elems(bl@)))) && fuel > 0) ==> ({
                    &&& not_verdict(*vs@[1]) matches Some(name) ==> (r matches EvalResult::Value(
                        x,
                    ) && ((*x) matches Expr::Symbol(t) && t@ == name))
                    &&& not_verdict(*vs@[1]) is None ==> (r matches EvalResult::Error(m) && m@
                        == "Invalid input for not operator"@)
                })
            })
            &&& head_is(vs@, "if"@) ==> (vs@.len() != 4 ==> (r matches EvalResult::Error(m) && m@
                == "Must have format: if (<argument>) (<then block>) (<else block>)"@))
            &&& head_is(vs@, "if"@) ==> ((vs@.len() == 4 && (*vs@[1]) is Num && (*vs@[2]) is Num
                && (*vs@[3]) is Num) ==> (r == EvalResult::Value(vs@[2]) && final(env).contexts@
                == old(env).contexts@ && final(out)@ == old(out)@))
            &&& vs@.len() > 0 ==> ((*vs@[0]) matches Expr::Symbol(hs) ==> (!is_reserved(hs@)
                ==> (env_lookup(*old(env), hs@) matches Some(b) ==> ((b.0@.len() > 0 && b.0@.len()
                != vs@.len() - 1) ==> (r matches EvalResult::Error(m) && m@ == arity_msg(
                (vs@.len() - 1) as nat,
                b.0@.len(),
            ))))))
            &&& (vs@.len() > 0 && !((*vs@[0]) is Symbol)) ==> (r is Error || (r matches
                EvalResult::Value(x) && (*x) is List))
            &&& vs@.len() > 0 ==> ((*vs@[0]) matches Expr::Symbol(hs) ==> ((!is_reserved(hs@)
                && env_lookup(*old(env), hs@) is None) ==> (r is Error || (r matches
                EvalResult::Value(x) && (*x) is List))))
            &&& (vs@.len() > 0 && all_num_elems(vs@)) ==> (r matches EvalResult::Value(x) && ((
            *x) matches Expr::List(ws) && ws@ == vs@) && final(env).contexts@ == old(
                env,
            ).contexts@ && final(out)@ == old(out)@)
            &&& (vs@.len() > 0 && !((*vs@[0]) is Symbol)) ==> (forall|i: int|
                (0 <= i < vs@.len() && (forall|j: int|
                    0 <= j < i ==> plain_elem(*vs@[j], *old(env))) && #[trigger] err_form(
                    *vs@[i],
                )) ==> (r matches EvalResult::Error(m) && m@ == "'=' with no arguments"@
                    && final(env).contexts@ == old(env).contexts@ && final(out)@ == old(out)@))
            &&& vs@.len() > 0 ==> ((*vs@[0]) matches Expr::Symbol(hs) ==> ((!is_reserved(hs@)
                && env_lookup(*old(env), hs@) is None) ==> (forall|i: int|
                (0 <= i < vs@.len() && (forall|j: int|
                    0 <= j < i ==> plain_elem(*vs@[j], *old(env))) && #[trigger] err_form(
                    *vs@[i],
                )) ==> (r matches EvalResult::Error(m) && m@ == "'=' with no arguments"@
                    && final(env).contexts@ == old(env).contexts@ && final(out)@ == old(out)@))))
            &&& (vs@.len() > 0 && (forall|j: int|
                0 <= j < vs@.len() ==> plain_elem(#[trigger] (*vs@[j]), *old(env))) && ((
            *vs@[0]) matches Expr::Symbol(h0) ==> !is_reserved(h0@))) ==> (r matches
                EvalResult::Value(x) && ((*x) matches Expr::List(ws) && ws@ == vs@)
                && final(env).contexts@ == old(env).contexts@ && final(out)@ == old(out)@)
            &&& vs@.len() > 0 ==> ((*vs@[0]) matches Expr::Symbol(hs) ==> (!is_reserved(hs@)
                ==> (env_lookup(*old(env), hs@) matches Some(b) ==> ((b.0@.len() > 0 && b.0@.len()
                == vs@.len() - 1 && all_num_args(vs@) && (*b.1) is Num && fuel > 0) ==> (r
                == EvalResult::Value(b.1) && final(env).contexts@ == old(env).contexts@
                && final(out)@ == old(out)@)))))
            &&& vs@.len() > 0 ==> ((*vs@[0]) matches Expr::Symbol(hs) ==> (!is_reserved(hs@)
                ==> (env_lookup(*old(env), hs@) matches Some(b) ==> (forall|k: int|
                (b.0@.len() > 0 && b.0@.len() == vs@.len() - 1 && fuel > 0 && 1 <= k < vs@.len()
                    && (forall|j: int| 1 <= j < k ==> plain_elem(*vs@[j], *old(env)))
                    && #[trigger] unit_form(*vs@[k])) ==> (r matches EvalResult::Error(m) && m@
                    == "Cannot pass Unit as an argument to a function."@ && final(env).contexts@
                    == old(env).contexts@)))))
        }),
    decreases fuel, expr_size(**e), 3nat,
{
    match &**e {
        Expr::Num(_) => EvalResult::Value(rc_dup(e)),
        Expr::Symbol(s) => {
            let empty_vals: Vec<Rc<Expr>> = Vec::new();
            eval_symbol(e, s.as_str(), &empty_vals, env, out, fuel)
        },
        Expr::List(vals) => {
            if vals.len() == 0 {
                return EvalResult::Value(Expr::list(Vec::new()));
            }
            proof {
                reveal_strlit("+");
                reveal_strlit("-");
                reveal_strlit("*");
                reveal_strlit("/");
                reveal_strlit("=");
                reveal_strlit("!=");
                reveal_strlit("not");
                reveal_strlit("and");
                reveal_strlit("or");
                reveal_strlit("fn");
                reveal_strlit("let");
                reveal_strlit("print");
                reveal_strlit("if");
                assert("+"@.len() == 1 && "+"@[0] == '+');
                assert("-"@.len() == 1 && "-"@[0] == '-');
                assert("*"@.len() == 1 && "*"@[0] == '*');
                assert("/"@.len() == 1 && "/"@[0] == '/');
                assert("="@.len() == 1 && "="@[0] == '=');
                assert("!="@.len() == 2 && "!="@[0] == '!');
                assert("not"@.len() == 3 && "not"@[0] == 'n');
                assert("and"@.len() == 3 && "and"@[0] == 'a');
                assert("or"@.len() == 2 && "or"@[0] == 'o');
                assert("fn"@.len() == 2 && "fn"@[0] == 'f');
                assert("let"@.len() == 3 && "let"@[0] == 'l');
                assert("print"@.len() == 5 && "print"@[0] == 'p');
                assert("if"@.len() == 2 && "if"@[0] == 'i');
                assert(list_size(vals@) == expr_size(*vals@[0]) + list_size(vals@.drop_first()));
                assert(vals@.drop_first() =~= vals@.skip(1));
                assert(expr_size(*vals@[0]) >= 1);
            }
            match &*vals[0] {
                Expr::Symbol(s) => {
                    if str_eq(s.as_str(), "+") {
                        arith_vals(
                            ArithOp::Add,
                            "Must perform addition on at least one number",
                            vals,
                            env,
                            out,
                            fuel,
                        )
                    } else if str_eq(s.as_str(), "-") {
                        arith_vals(
                            ArithOp::Sub,
                            "Must perform subtraction on at least one number",
                            vals,
                            env,
                            out,
                            fuel,
                        )
                    } else if str_eq(s.as_str(), "*") {
                        arith_vals(
                            ArithOp::Mul,
                            "Must perform multiplication on at least one number",
                            vals,
                            env,
                            out,
                            fuel,
                        )
                    } else if str_eq(s.as_str(), "/") {
                        arith_vals(
                            ArithOp::Div,
                            "Must perform division on at least one number",
                            vals,
                            env,
                            out,
                            fuel,
                        )
                    } else if str_eq(s.as_str(), "=") {
                        equality(vals, env, out, fuel)
                    } else if str_eq(s.as_str(), "!=") {
                        inequality(vals, env, out, fuel)
                    } else if str_eq(s.as_str(), "not") {
                        not_form(vals, env, out, fuel)
                    } else if str_eq(s.as_str(), "and") {
                        bool_and(vals)
                    } else if str_eq(s.as_str(), "or") {
                        bool_or(vals)
                    } else if str_eq(s.as_str(), "fn") {
                        add_fn_to_env(vals, env)
                    } else if str_eq(s.as_str(), "let") {
                        add_var_to_env(vals, env, out, fuel)
                    } else if str_eq(s.as_str(), "print") {
                        match render_items(vals, 1, env, fuel) {
                            Some(line) => {
                                out.push(line);
                                EvalResult::Unit
                            },
                            None => EvalResult::Error(
                                "Failed to render print output".to_owned(),
                            ),
                        }
                    } else if str_eq(s.as_str(), "if") {
                        if_then_else(vals, env, out, fuel)
                    } else if env.contains_key(s.as_str()) {
                        let head = rc_dup(&vals[0]);
                        eval_symbol(&head, s.as_str(), vals, env, out, fuel)
                    } else {
                        eval_list_fallback(vals, env, out, fuel)
                    }
                },
                _ => eval_list_fallback(vals, env, out, fuel),
            }
        },
    }
}

/// A list with no reserved or bound head: evaluates every element in
/// order, drops unit results, propagates the first error, and yields
/// the list of the remaining values.
fn eval_list_fallback(vals: &Vec<Rc<Expr>>, env: &mut Environment, out: &mut Vec<String>, fuel: u64) -> (
    r: EvalResult)
    requires
        vals@.len() >= 1,
    ensures
        frames_extended(old(env).contexts@, final(env).contexts@),
        seq_extended(old(out)@, final(out)@),
        r is Error || (r matches EvalResult::Value(x) && (*x) is List),
        all_num_elems(vals@) ==> (r matches EvalResult::Value(x) && ((*x) matches Expr::List(ws)
            && ws@ == vals@) && final(env).contexts@ == old(env).contexts@ && final(out)@ == old(
            out,
        )@),
        forall|i: int|
            (0 <= i < vals@.len() && (forall|j: int|
                0 <= j < i ==> plain_elem(*vals@[j], *old(env))) && #[trigger] err_form(
                *vals@[i],
            )) ==> (r matches EvalResult::Error(m) && m@ == "'=' with no arguments"@
                && final(env).contexts@ == old(env).contexts@ && final(out)@ == old(out)@),
        (forall|j: int| 0 <= j < vals@.len() ==> plain_elem(#[trigger] (*vals@[j]), *old(env)))
            ==> (r matches EvalResult::Value(x) && ((*x) matches Expr::List(ws) && ws@ == vals@)
            && final(env).contexts@ == old(env).contexts@ && final(out)@ == old(out)@),
    decreases fuel, 1 + list_size(vals@), 2nat,
{
    let mut kept: Vec<Rc<Expr>> = Vec::new();
    let mut j: usize = 0;
    while j < vals.len()
        invariant
            j <= vals@.len(),
            frames_extended(old(env).contexts@, env.contexts@),
            seq_extended(old(out)@, out@),
            all_num_elems(vals@) ==> (kept@ == vals@.subrange(0, j as int) && env.contexts@
                == old(env).contexts@ && out@ == old(out)@),
            forall|i: int|
                (0 <= i < vals@.len() && (forall|j2: int|
                    0 <= j2 < i ==> plain_elem(*vals@[j2], *old(env))) && #[trigger] err_form(
                    *vals@[i],
                )) ==> i >= j,
            (forall|j2: int| 0 <= j2 < j ==> plain_elem(*vals@[j2], *old(env)))
                ==> (env.contexts@ == old(env).contexts@ && out@ == old(out)@
                && kept@ == vals@.subrange(0, j as int)),
        decreases vals@.len() - j,
    {
        let ghost pre_env = env.contexts@;
        proof {
            lemma_elem_size(vals@, j as int);
        }
        match eval(&vals[j], env, out, fuel) {
            EvalResult::Error(m) => {
                proof {
                    lemma_frames_trans(old(env).contexts@, pre_env, env.contexts@);
                }
                return EvalResult::Error(m);
            },
            EvalResult::Unit => {},
            EvalResult::Value(x) => {
                kept.push(x);
            },
        }
        proof {
            lemma_frames_trans(old(env).contexts@, pre_env, env.contexts@);
            if all_num_elems(vals@) {
                assert((*vals@[j as int]) is Num);
                assert(kept@ =~= vals@.subrange(0, j as int + 1));
            }
            if forall|j2: int| 0 <= j2 <= j ==> plain_elem(*vals@[j2], *old(env)) {
                assert(plain_elem(*vals@[j as int], *old(env)));
                assert(kept@ =~= vals@.subrange(0, j as int + 1));
            }
        }
        j += 1;
    }
    proof {
        if all_num_elems(vals@) {
            assert(kept@ =~= vals@);
        }
        if forall|j2: int| 0 <= j2 < vals@.len() ==> plain_elem(
            #[trigger] (*vals@[j2]),
            *old(env),
        ) {
            assert(kept@ =~= vals@);
        }
    }
    EvalResult::Value(Expr::list(kept))
}


/// Law of scoping discipline: a matched push and pop restore the frame
/// stack exactly. `pushed` is the stack right after a push (one new
/// frame on top of `before`), `worked` is any stack that evaluation
/// steps may have made of it (each step only extends the innermost
/// frame, as `eval` ensures), and `after` is the stack after the pop.
/// Then `after` is `before` again, frame for frame; in particular any
/// run of matched pushes and pops returns the frame count to its
/// starting value, by applying this law at each matched pair.
pub proof fn lemma_push_pop_restores(
    before: Seq<Vec<(String, (Vec<String>, Rc<Expr>))>>,
    pushed: Seq<Vec<(String, (Vec<String>, Rc<Expr>))>>,
    worked: Seq<Vec<(String, (Vec<String>, Rc<Expr>))>>,
    after: Seq<Vec<(String, (Vec<String>, Rc<Expr>))>>,
)
    requires
        pushed.len() == before.len() + 1,
        forall|i: int| 0 <= i < before.len() ==> pushed[i] == before[i],
        frames_extended(pushed, worked),
        after == worked.drop_last(),
    ensures
        after == before,
{
    assert forall|i: int| 0 <= i < before.len() implies after[i] == before[i] by {
        assert(worked[i] == pushed[i]);
    }
    assert(after =~= before);
}

} // verus!
