//! The whole pipeline: lex the source, parse the one root expression,
//! and evaluate it in a fresh seeded environment. Lines printed during
//! evaluation are appended to `out`.

use crate::eval::{all_num_elems, eval, seq_extended, EvalResult, Environment};
use crate::lex::{first_bad, lex, lex_from, lex_ok, toks_view, LexError, Token};
use crate::parse::{
    lemma_span_end_view, parse, parse_fail_text_v, parses_to, span_end, span_end_v, ParseError,
};
use crate::text::push_char;
use crate::types::Expr;
use std::rc::Rc;
use vstd::prelude::*;
use vstd::string::*;

verus! {

/// How many nested binding expansions and calls one run may make
/// before evaluation stops with an error; this bounds the recursion
/// depth well below the host stack.
pub const EVAL_FUEL: u64 = 2000;

/// Runs a program. Text with a stray control character stops at the
/// lexer, naming the character; token text that does not open with one
/// grammatical expression stops at the parser, naming the failure;
/// anything else is evaluated in the seeded environment, and what its
/// `print` forms rendered is appended to `out`. On success the result
/// is the evaluation of the root the grammar gives the tokens: in
/// particular a lone number literal yields exactly that number, and a
/// list of number literals yields exactly that list.
pub fn run_interpreter(program: &str, out: &mut Vec<String>) -> (r: EvalResult)
    ensures
        seq_extended(old(out)@, final(out)@),
        !lex_ok(program@) ==> (r matches EvalResult::Error(m) && m@
            == "Lex error: invalid character "@.push(program@[first_bad(program@, 0)])
            && final(out)@ == old(out)@),
        lex_ok(program@) && span_end_v(lex_from(program@, 0), 0) is None ==> (r matches
            EvalResult::Error(m) && m@ == "Parse error: "@ + parse_fail_text_v(
            lex_from(program@, 0),
        ) && final(out)@ == old(out)@),
        lex_ok(program@) && span_end_v(lex_from(program@, 0), 0) is Some ==> (exists|
            ts: Seq<Token>,
            root: Rc<Expr>,
            ix: int,
        |
            {
                &&& toks_view(ts) == lex_from(program@, 0)
                &&& span_end(ts, 0) == Some(ix)
                &&& #[trigger] parses_to(ts, 0, ix, *root)
                &&& (*root) matches Expr::Num(_) ==> (r == EvalResult::Value(root) && final(out)@
                    == old(out)@)
                &&& (*root) matches Expr::List(vs) ==> (vs@.len() == 0 ==> (r matches
                    EvalResult::Value(x) && ((*x) matches Expr::List(l) && l@.len() == 0)
                    && final(out)@ == old(out)@))
                &&& (*root) matches Expr::List(vs) ==> ((vs@.len() > 0 && all_num_elems(vs@))
                    ==> (r matches EvalResult::Value(x) && ((*x) matches Expr::List(ws) && ws@
                    == vs@) && final(out)@ == old(out)@))
            }),
{
    let tokens = match lex(program) {
        Ok(ts) => ts,
        Err(e) => {
            let mut m = "Lex error: invalid character ".to_owned();
            match e {
                LexError::InvalidChar(c) => {
                    push_char(&mut m, c);
                },
            }
            return EvalResult::Error(m);
        },
    };
    proof {
        lemma_span_end_view(tokens@, 0);
    }
    let expr = match parse(&tokens) {
        Ok(e) => e,
        Err(err) => {
            let mut m = "Parse error: ".to_owned();
            match err {
                ParseError::EOF => {
                    m.append("EOF");
                },
                ParseError::BadParse(t) => {
                    m.append(t.as_str());
                },
            }
            proof {
                assert(toks_view(tokens@).len() == tokens@.len());
                if tokens@.len() > 0 {
                    assert(toks_view(tokens@)[0] == tokens@[0]@);
                }
                assert(m@ =~= "Parse error: "@ + parse_fail_text_v(lex_from(program@, 0)));
            }
            return EvalResult::Error(m);
        },
    };
    let mut env = Environment::default();
    let r = eval(&expr, &mut env, out, EVAL_FUEL);
    proof {
        let ghost ix = span_end(tokens@, 0)->Some_0;
        assert(parses_to(tokens@, 0, ix, *expr));
    }
    r
}

} // verus!
