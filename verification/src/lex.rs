//! The lexer: raw text to a sequence of tokens. Parentheses stand
//! alone; every maximal run of other non-whitespace characters is one
//! literal. Control characters outside of blank space are rejected.

use crate::text::{push_char, to_chars};
use vstd::prelude::*;
use vstd::string::*;

verus! {

/// One token of the surface syntax.
#[derive(Debug, PartialEq)]
pub enum Token {
    LPar,
    RPar,
    Literal(String),
}

/// The mathematical form of a token.
pub enum TokenV {
    LP,
    RP,
    Lit(Seq<char>),
}

impl View for Token {
    type V = TokenV;

    open spec fn view(&self) -> TokenV {
        match self {
            Token::LPar => TokenV::LP,
            Token::RPar => TokenV::RP,
            Token::Literal(s) => TokenV::Lit(s@),
        }
    }
}

/// Why lexing failed.
#[derive(Debug, PartialEq)]
pub enum LexError {
    InvalidChar(char),
}

/// Whitespace that separates tokens.
pub open spec fn is_ws(c: char) -> bool {
    c == ' ' || c == '\t' || c == '\n' || c == '\r'
}

/// A character that ends a literal run.
pub open spec fn is_delim(c: char) -> bool {
    is_ws(c) || c == '(' || c == ')'
}

/// Characters the lexer accepts: everything except control characters
/// that are not blank space.
pub open spec fn is_allowed(c: char) -> bool {
    (c as u32) >= 32 || is_ws(c)
}

/// The first position at or after `i` holding a disallowed character.
pub open spec fn first_bad(s: Seq<char>, i: int) -> int
    decreases s.len() - i when 0 <= i <= s.len()
{
    if i >= s.len() || !is_allowed(s[i]) {
        i
    } else {
        first_bad(s, i + 1)
    }
}

/// All characters of `s` are acceptable to the lexer.
pub open spec fn lex_ok(s: Seq<char>) -> bool {
    forall|i: int| 0 <= i < s.len() ==> is_allowed(s[i])
}

/// The tokens of `s` from position `i`, outside of a literal run.
pub open spec fn lex_from(s: Seq<char>, i: int) -> Seq<TokenV>
    decreases s.len() - i, 0nat,
{
    if i >= s.len() {
        Seq::<TokenV>::empty()
    } else if is_ws(s[i]) {
        lex_from(s, i + 1)
    } else if s[i] == '(' {
        seq![TokenV::LP] + lex_from(s, i + 1)
    } else if s[i] == ')' {
        seq![TokenV::RP] + lex_from(s, i + 1)
    } else {
        lex_lit(s, i + 1, seq![s[i]])
    }
}

/// The tokens of `s` from position `i`, inside a literal run whose
/// characters so far are `acc`.
pub open spec fn lex_lit(s: Seq<char>, i: int, acc: Seq<char>) -> Seq<TokenV>
    decreases s.len() - i, 1nat,
{
    if i >= s.len() {
        seq![TokenV::Lit(acc)]
    } else if is_delim(s[i]) {
        seq![TokenV::Lit(acc)] + lex_from(s, i)
    } else {
        lex_lit(s, i + 1, acc.push(s[i]))
    }
}

/// The token views of a token vector.
pub open spec fn toks_view(ts: Seq<Token>) -> Seq<TokenV> {
    ts.map_values(|t: Token| t@)
}

/// Splits source text into tokens. Succeeds exactly on text free of
/// stray control characters, and then yields the tokens `lex_from`
/// describes; otherwise reports the first offending character.
pub fn lex(source: &str) -> (r: Result<Vec<Token>, LexError>)
    ensures
        lex_ok(source@) ==> (r matches Ok(ts) && toks_view(ts@) == lex_from(source@, 0)),
        !lex_ok(source@) ==> r == Err::<Vec<Token>, LexError>(
            LexError::InvalidChar(source@[first_bad(source@, 0)]),
        ),
{
    let s = to_chars(source);
    let len = s.len();
    let mut toks: Vec<Token> = Vec::new();
    let mut cur = String::new();
    let mut i: usize = 0;
    while i < len
        invariant
            len == s@.len(),
            s@ == source@,
            i <= len,
            forall|j: int| 0 <= j < i ==> is_allowed(s@[j]),
            first_bad(s@, 0) == first_bad(s@, i as int),
            cur@.len() == 0 ==> toks_view(toks@) + lex_from(s@, i as int) == lex_from(s@, 0),
            cur@.len() > 0 ==> toks_view(toks@) + lex_lit(s@, i as int, cur@) == lex_from(s@, 0),
        decreases len - i,
    {
        let c = s[i];
        if (c as u32) < 32 && !(c == '\t' || c == '\n' || c == '\r') {
            proof {
                assert(!is_allowed(s@[i as int]));
                assert(first_bad(s@, i as int) == i as int);
                assert(!lex_ok(s@));
            }
            return Err(LexError::InvalidChar(c));
        }
        if c == ' ' || c == '\t' || c == '\n' || c == '\r' || c == '(' || c == ')' {
            if cur.unicode_len() > 0 {
                toks.push(Token::Literal(cur));
                cur = String::new();
                proof {
                    assert(toks_view(toks@) =~= toks_view(toks@.drop_last()).push(
                        toks@.last()@,
                    ));
                    assert(toks_view(toks@) + lex_from(s@, i as int) =~= lex_from(s@, 0));
                }
            }
            if c == '(' {
                toks.push(Token::LPar);
                proof {
                    assert(toks_view(toks@) =~= toks_view(toks@.drop_last()).push(
                        toks@.last()@,
                    ));
                    assert(toks_view(toks@) + lex_from(s@, i as int + 1) =~= lex_from(s@, 0));
                }
            } else if c == ')' {
                toks.push(Token::RPar);
                proof {
                    assert(toks_view(toks@) =~= toks_view(toks@.drop_last()).push(
                        toks@.last()@,
                    ));
                    assert(toks_view(toks@) + lex_from(s@, i as int + 1) =~= lex_from(s@, 0));
                }
            } else {
                proof {
                    assert(lex_from(s@, i as int) == lex_from(s@, i as int + 1));
                }
            }
        } else {
            let ghost oldcur = cur@;
            push_char(&mut cur, c);
            proof {
                if oldcur.len() == 0 {
                    assert(cur@ =~= seq![c]);
                }
            }
        }
        i += 1;
        proof {
            if cur@.len() == 0 {
                assert(toks_view(toks@) + lex_from(s@, i as int) =~= lex_from(s@, 0));
            } else {
                assert(toks_view(toks@) + lex_lit(s@, i as int, cur@) =~= lex_from(s@, 0));
            }
        }
    }
    if cur.unicode_len() > 0 {
        toks.push(Token::Literal(cur));
        proof {
            assert(toks_view(toks@) =~= toks_view(toks@.drop_last()).push(toks@.last()@));
        }
    }
    proof {
        assert(toks_view(toks@) =~= toks_view(toks@) + Seq::<TokenV>::empty());
    }
    Ok(toks)
}

} // verus!
