//! The parser: recursive descent over a token sequence, producing one
//! expression tree. A literal that reads as a number becomes `Num`,
//! any other literal becomes `Symbol`, and `(` ... `)` becomes `List`.

use crate::lex::Token;
use crate::num::{parse_number, spec_parse_number};
use crate::text::to_chars;
use crate::types::Expr;
use std::rc::Rc;
use vstd::prelude::*;
use vstd::string::*;

verus! {

/// Why parsing failed.
#[derive(Debug, PartialEq)]
pub enum ParseError {
    BadParse(String),
    EOF,
}

/// Outcome of parsing at a position: the next position and the parsed
/// tree, or a failure.
#[derive(Debug)]
pub enum ParseResult {
    Success(usize, Rc<Expr>),
    Failure(ParseError),
}

/// Where the expression starting at `index` ends, when the grammar
/// admits one there: one past a literal, or one past the parenthesis
/// closing a list.
pub open spec fn span_end(tokens: Seq<Token>, index: int) -> Option<int>
    decreases tokens.len() - index, 0nat when 0 <= index <= tokens.len()
{
    if index >= tokens.len() {
        None
    } else {
        match tokens[index] {
            Token::RPar => None,
            Token::Literal(_) => Some(index + 1),
            Token::LPar => list_end(tokens, index + 1),
        }
    }
}

/// Where a run of list elements beginning at `i` ends: one past the
/// closing parenthesis that follows them, when the grammar admits it.
pub open spec fn list_end(tokens: Seq<Token>, i: int) -> Option<int>
    decreases tokens.len() - i, 1nat when 0 <= i <= tokens.len()
{
    if i >= tokens.len() {
        None
    } else if tokens[i] is RPar {
        Some(i + 1)
    } else {
        match span_end(tokens, i) {
            None => None,
            Some(m) => if i < m <= tokens.len() {
                list_end(tokens, m)
            } else {
                None
            },
        }
    }
}


/// `span_end`, over token views: where the expression starting at
/// `index` ends, when the grammar admits one there.
pub open spec fn span_end_v(tokens: Seq<crate::lex::TokenV>, index: int) -> Option<int>
    decreases tokens.len() - index, 0nat when 0 <= index <= tokens.len()
{
    if index >= tokens.len() {
        None
    } else {
        match tokens[index] {
            crate::lex::TokenV::RP => None,
            crate::lex::TokenV::Lit(_) => Some(index + 1),
            crate::lex::TokenV::LP => list_end_v(tokens, index + 1),
        }
    }
}

/// `list_end`, over token views.
pub open spec fn list_end_v(tokens: Seq<crate::lex::TokenV>, i: int) -> Option<int>
    decreases tokens.len() - i, 1nat when 0 <= i <= tokens.len()
{
    if i >= tokens.len() {
        None
    } else if tokens[i] is RP {
        Some(i + 1)
    } else {
        match span_end_v(tokens, i) {
            None => None,
            Some(m) => if i < m <= tokens.len() {
                list_end_v(tokens, m)
            } else {
                None
            },
        }
    }
}

/// The span of an expression is the same whether read off the tokens
/// or off their views.
pub proof fn lemma_span_end_view(tokens: Seq<Token>, index: int)
    requires
        0 <= index <= tokens.len(),
    ensures
        span_end(tokens, index) == span_end_v(crate::lex::toks_view(tokens), index),
    decreases tokens.len() - index, 0nat,
{
    let tv = crate::lex::toks_view(tokens);
    assert(tv.len() == tokens.len());
    if index < tokens.len() {
        assert(tv[index] == tokens[index]@);
        match tokens[index] {
            Token::LPar => {
                lemma_list_end_view(tokens, index + 1);
            },
            _ => {},
        }
    }
}

/// The span of a run of list elements is the same whether read off the
/// tokens or off their views.
pub proof fn lemma_list_end_view(tokens: Seq<Token>, i: int)
    requires
        0 <= i <= tokens.len(),
    ensures
        list_end(tokens, i) == list_end_v(crate::lex::toks_view(tokens), i),
    decreases tokens.len() - i, 1nat,
{
    let tv = crate::lex::toks_view(tokens);
    assert(tv.len() == tokens.len());
    if i < tokens.len() {
        assert(tv[i] == tokens[i]@);
        if !(tokens[i] is RPar) {
            lemma_span_end_view(tokens, i);
            match span_end(tokens, i) {
                Some(m) => {
                    if i < m <= tokens.len() {
                        lemma_list_end_view(tokens, m);
                    }
                },
                None => {},
            }
        }
    }
}

/// The text of the parse failure a token sequence produces when the
/// grammar admits no expression at its start: no tokens at all, a
/// stray close parenthesis, or a list the tokens end before closing.
pub open spec fn parse_fail_text_v(tvs: Seq<crate::lex::TokenV>) -> Seq<char> {
    if tvs.len() == 0 {
        "EOF"@
    } else if tvs[0] is RP {
        "Unexpected ) encountered."@
    } else {
        "Unclosed delimiter"@
    }
}

/// The grammar, as a relation: `e` is exactly what the tokens in
/// `[start, end)` denote.
pub open spec fn parses_to(tokens: Seq<Token>, start: int, end: int, e: Expr) -> bool
    decreases e,
{
    match e {
        Expr::Num(n) => {
            &&& 0 <= start < tokens.len()
            &&& end == start + 1
            &&& tokens[start] matches Token::Literal(s) && spec_parse_number(s@) == Some(n)
        },
        Expr::Symbol(sym) => {
            &&& 0 <= start < tokens.len()
            &&& end == start + 1
            &&& tokens[start] matches Token::Literal(s) && s@ == sym@ && spec_parse_number(s@)
                is None
        },
        Expr::List(vs) => {
            &&& 0 <= start < end - 1
            &&& end <= tokens.len()
            &&& tokens[start] matches Token::LPar
            &&& tokens[end - 1] matches Token::RPar
            &&& list_parses_to(tokens, start + 1, end - 1, vs@)
        },
    }
}

/// The elements `vs`, in order, exactly fill the tokens in
/// `[start, end)`, each covering the span the grammar gives it.
pub open spec fn list_parses_to(tokens: Seq<Token>, start: int, end: int, vs: Seq<Rc<Expr>>) -> bool
    decreases vs,
{
    if vs.len() == 0 {
        start == end
    } else {
        match span_end(tokens, start) {
            None => false,
            Some(mid) => {
                &&& start < mid <= end
                &&& parses_to(tokens, start, mid, *vs[0])
                &&& list_parses_to(tokens, mid, end, vs.drop_first())
            },
        }
    }
}

/// Extending a parsed run of elements by one parsed element whose span
/// the grammar confirms.
proof fn lemma_list_append(tokens: Seq<Token>, a: int, b: int, c: int, vs: Seq<Rc<Expr>>, x: Rc<
    Expr,
>)
    requires
        list_parses_to(tokens, a, b, vs),
        span_end(tokens, b) == Some(c),
        parses_to(tokens, b, c, *x),
        b < c <= tokens.len(),
    ensures
        list_parses_to(tokens, a, c, vs.push(x)),
    decreases vs.len(),
{
    if vs.len() == 0 {
        assert(vs.push(x)[0] == x);
        assert(vs.push(x).drop_first() =~= Seq::<Rc<Expr>>::empty());
        assert(span_end(tokens, a) == Some(c));
        assert(parses_to(tokens, a, c, *vs.push(x)[0]));
        assert(list_parses_to(tokens, c, c, vs.push(x).drop_first()));
    } else {
        let mid = span_end(tokens, a)->Some_0;
        assert(span_end(tokens, a) == Some(mid));
        lemma_list_append(tokens, mid, b, c, vs.drop_first(), x);
        assert(vs.push(x)[0] == vs[0]);
        assert(vs.push(x).drop_first() =~= vs.drop_first().push(x));
        assert(mid <= c);
        assert(parses_to(tokens, a, mid, *vs.push(x)[0]));
        assert(list_parses_to(tokens, mid, c, vs.push(x).drop_first()));
    }
}

/// Parses one expression starting at `index`. Success comes exactly
/// where the grammar admits an expression (`span_end`), ends at that
/// span's end, and yields a tree in the `parses_to` relation to the
/// consumed tokens. With no token at `index` the failure is `EOF`; a
/// close parenthesis where an expression should begin, or a list that
/// the tokens end before closing, is `BadParse`.
pub fn parser(tokens: &Vec<Token>, index: usize) -> (r: ParseResult)
    ensures
        (r matches ParseResult::Success(ix, e)) <==> (span_end(tokens@, index as int) matches Some(
            sx,
        ) && index < tokens@.len()),
        r matches ParseResult::Success(ix, e) ==> index < ix <= tokens@.len() && span_end(
            tokens@,
            index as int,
        ) == Some(ix as int) && parses_to(tokens@, index as int, ix as int, *e),
        (r matches ParseResult::Failure(f) && f is EOF) <==> index >= tokens@.len(),
        r matches ParseResult::Failure(ParseError::BadParse(m)) ==> (index < tokens@.len() && (m@
            == "Unexpected ) encountered."@ || m@ == "Unclosed delimiter"@)),
        (index < tokens@.len() && tokens@[index as int] matches Token::RPar) ==> (r matches
            ParseResult::Failure(ParseError::BadParse(m)) && m@ == "Unexpected ) encountered."@),
        (index < tokens@.len() && !(tokens@[index as int] is RPar)) ==> (r matches
            ParseResult::Failure(ParseError::BadParse(m)) ==> m@ == "Unclosed delimiter"@),
    decreases tokens@.len() - index,
{
    if index >= tokens.len() {
        return ParseResult::Failure(ParseError::EOF);
    }
    match &tokens[index] {
        Token::RPar => ParseResult::Failure(
            ParseError::BadParse("Unexpected ) encountered.".to_owned()),
        ),
        Token::Literal(s) => {
            let chars = to_chars(s.as_str());
            match parse_number(&chars) {
                Some(n) => ParseResult::Success(index + 1, Expr::number(n)),
                None => ParseResult::Success(index + 1, Expr::symbol(s.as_str())),
            }
        },
        Token::LPar => {
            let mut ix = index + 1;
            let mut exprs: Vec<Rc<Expr>> = Vec::new();
            loop
                invariant
                    index < tokens@.len(),
                    tokens@[index as int] matches Token::LPar,
                    index + 1 <= ix <= tokens@.len(),
                    list_parses_to(tokens@, index + 1, ix as int, exprs@),
                    list_end(tokens@, index + 1) == list_end(tokens@, ix as int),
                decreases tokens@.len() - ix,
            {
                if ix >= tokens.len() {
                    return ParseResult::Failure(
                        ParseError::BadParse("Unclosed delimiter".to_owned()),
                    );
                }
                let closing = match &tokens[ix] {
                    Token::RPar => true,
                    _ => false,
                };
                if closing {
                    let r = Expr::list(exprs);
                    return ParseResult::Success(ix + 1, r);
                }
                match parser(tokens, ix) {
                    ParseResult::Success(nix, e) => {
                        proof {
                            lemma_list_append(
                                tokens@,
                                index + 1,
                                ix as int,
                                nix as int,
                                exprs@,
                                e,
                            );
                        }
                        exprs.push(e);
                        ix = nix;
                    },
                    f => {
                        return f;
                    },
                }
            }
        },
    }
}

/// Parses a whole program: the first complete expression at position
/// zero. Any tokens past that expression are ignored, so a run of
/// several adjacent top-level forms yields only the first; this keeps
/// the one-root-expression reading of a program. Fails with `EOF`
/// exactly on an empty token stream.
pub fn parse(tokens: &Vec<Token>) -> (r: Result<Rc<Expr>, ParseError>)
    ensures
        (r matches Ok(e)) <==> (span_end(tokens@, 0) is Some && tokens@.len() > 0),
        r matches Ok(e) ==> (span_end(tokens@, 0) matches Some(ix) && 0 < ix <= tokens@.len()
            && parses_to(tokens@, 0, ix, *e)),
        (r matches Err(f) && f is EOF) <==> tokens@.len() == 0,
        r matches Err(ParseError::BadParse(m)) ==> m@ == (if tokens@.len() > 0 && tokens@[0]
            is RPar {
            "Unexpected ) encountered."@
        } else {
            "Unclosed delimiter"@
        }),
{
    match parser(tokens, 0) {
        ParseResult::Success(ix, expr) => Ok(expr),
        ParseResult::Failure(err) => Err(err),
    }
}

} // verus!
