//! Lexical analysis of formula text.
//!
//! Every operator has an ASCII spelling; the connectives that the
//! pretty-printer renders with dedicated glyphs are accepted in that
//! spelling as well, so printed text can be read back.

use vstd::prelude::*;

verus! {

broadcast use vstd::string::group_string_axioms;

use vstd::string::StrSliceExecFns;

/// One lexical token of the surface syntax.
#[derive(Debug, PartialEq, Eq, Structural, Clone, Copy)]
pub enum Token {
    /// A variable literal.
    Var(char),
    Not,
    And,
    Or,
    Cond,
    Bicond,
    Necessary,
    Possible,
    LParen,
    RParen,
    Comma,
    Proves,
    NotProves,
}

/// Whitespace between tokens carries no meaning.
pub open spec fn is_space(c: char) -> bool {
    c == ' ' || c == '\t' || c == '\n' || c == '\r'
}

/// Variable literals are single lowercase letters; `v` is reserved as the
/// disjunction operator.
pub open spec fn is_literal(c: char) -> bool {
    ('a' as u32) <= (c as u32) && (c as u32) <= ('z' as u32) && c != 'v'
}

/// The token spelled by a single character, where one exists.  The
/// multi-character ASCII spellings are handled by the tokenizer itself.
pub open spec fn spec_char_token(c: char) -> Option<Token> {
    if is_literal(c) {
        Some(Token::Var(c))
    } else if c == '~' || c == '¬' {
        Some(Token::Not)
    } else if c == '^' || c == '∧' {
        Some(Token::And)
    } else if c == 'v' || c == '∨' {
        Some(Token::Or)
    } else if c == '→' {
        Some(Token::Cond)
    } else if c == '↔' {
        Some(Token::Bicond)
    } else if c == '◻' {
        Some(Token::Necessary)
    } else if c == '◇' {
        Some(Token::Possible)
    } else if c == '(' {
        Some(Token::LParen)
    } else if c == ')' {
        Some(Token::RParen)
    } else if c == ',' {
        Some(Token::Comma)
    } else if c == '⊢' {
        Some(Token::Proves)
    } else if c == '⊬' {
        Some(Token::NotProves)
    } else {
        None
    }
}

/// Prepends a token to an already tokenized tail, passing a failure on.
pub open spec fn cons_token(t: Token, rest: Option<Seq<Token>>) -> Option<Seq<Token>> {
    match rest {
        Some(ts) => Some(seq![t] + ts),
        None => None,
    }
}

/// The token sequence of a text, or nothing if some character fits no
/// token.  Whitespace is skipped; `->`, `<->`, `<>`, `[]` and `|-` are the
/// multi-character spellings.
pub open spec fn spec_tokenize(text: Seq<char>) -> Option<Seq<Token>>
    decreases text.len(),
{
    if text.len() == 0 {
        Some(Seq::empty())
    } else {
        let c = text[0];
        if is_space(c) {
            spec_tokenize(text.drop_first())
        } else if c == '-' {
            if text.len() >= 2 && text[1] == '>' {
                cons_token(Token::Cond, spec_tokenize(text.skip(2)))
            } else {
                None
            }
        } else if c == '<' {
            if text.len() >= 3 && text[1] == '-' && text[2] == '>' {
                cons_token(Token::Bicond, spec_tokenize(text.skip(3)))
            } else if text.len() >= 2 && text[1] == '>' {
                cons_token(Token::Possible, spec_tokenize(text.skip(2)))
            } else {
                None
            }
        } else if c == '[' {
            if text.len() >= 2 && text[1] == ']' {
                cons_token(Token::Necessary, spec_tokenize(text.skip(2)))
            } else {
                None
            }
        } else if c == '|' {
            if text.len() >= 2 && text[1] == '-' {
                cons_token(Token::Proves, spec_tokenize(text.skip(2)))
            } else {
                None
            }
        } else {
            match spec_char_token(c) {
                Some(t) => cons_token(t, spec_tokenize(text.drop_first())),
                None => None,
            }
        }
    }
}

/// Joins the tokens already produced with the tokens still to come.
pub open spec fn glue_tokens(acc: Seq<Token>, rest: Option<Seq<Token>>) -> Option<Seq<Token>> {
    match rest {
        Some(ts) => Some(acc + ts),
        None => None,
    }
}

/// The characters of a string, in order.
pub fn str_chars(s: &str) -> (r: Vec<char>)
    ensures
        r@ == s@,
{
    let l = s.unicode_len();
    let mut v: Vec<char> = Vec::new();
    let mut i: usize = 0;
    while i < l
        invariant
            l == s@.len(),
            i <= l,
            v@ == s@.take(i as int),
        decreases l - i,
    {
        let c = s.get_char(i);
        v.push(c);
        proof {
            assert(v@ =~= s@.take(i + 1));
        }
        i = i + 1;
    }
    proof {
        assert(v@ =~= s@);
    }
    v
}

/// The single-character token of `c`, where one exists.
fn char_token(c: char) -> (r: Option<Token>)
    ensures
        r == spec_char_token(c),
{
    if ('a' as u32) <= (c as u32) && (c as u32) <= ('z' as u32) && c != 'v' {
        Some(Token::Var(c))
    } else if c == '~' || c == '¬' {
        Some(Token::Not)
    } else if c == '^' || c == '∧' {
        Some(Token::And)
    } else if c == 'v' || c == '∨' {
        Some(Token::Or)
    } else if c == '→' {
        Some(Token::Cond)
    } else if c == '↔' {
        Some(Token::Bicond)
    } else if c == '◻' {
        Some(Token::Necessary)
    } else if c == '◇' {
        Some(Token::Possible)
    } else if c == '(' {
        Some(Token::LParen)
    } else if c == ')' {
        Some(Token::RParen)
    } else if c == ',' {
        Some(Token::Comma)
    } else if c == '⊢' {
        Some(Token::Proves)
    } else if c == '⊬' {
        Some(Token::NotProves)
    } else {
        None
    }
}

/// Splits a text into tokens, or reports that it fits no tokenization.
pub fn tokenize(text: &Vec<char>) -> (r: Option<Vec<Token>>)
    ensures
        match r {
            Some(ts) => spec_tokenize(text@) == Some(ts@),
            None => spec_tokenize(text@) is None,
        },
{
    let n = text.len();
    let mut out: Vec<Token> = Vec::new();
    let mut i: usize = 0;
    proof {
        assert(text@.skip(0) =~= text@);
    }
    while i < n
        invariant
            n == text.len(),
            i <= n,
            spec_tokenize(text@) == glue_tokens(out@, spec_tokenize(text@.skip(i as int))),
        decreases n - i,
    {
        let ghost rest = text@.skip(i as int);
        proof {
            assert(rest[0] == text@[i as int]);
            assert(rest.len() == n - i);
            if rest.len() >= 2 {
                assert(rest[1] == text@[i + 1]);
            }
            if rest.len() >= 3 {
                assert(rest[2] == text@[i + 2]);
            }
        }
        let c = text[i];
        if c == ' ' || c == '\t' || c == '\n' || c == '\r' {
            proof {
                assert(rest.drop_first() =~= text@.skip(i + 1));
            }
            i = i + 1;
        } else if c == '-' {
            if i + 1 < n && text[i + 1] == '>' {
                proof {
                    assert(rest.skip(2) =~= text@.skip(i + 2));
                    lemma_glue_push(out@, Token::Cond, spec_tokenize(text@.skip(i + 2)));
                }
                out.push(Token::Cond);
                i = i + 2;
            } else {
                return None;
            }
        } else if c == '<' {
            if i + 1 < n && i + 2 < n && text[i + 1] == '-' && text[i + 2] == '>' {
                proof {
                    assert(rest.skip(3) =~= text@.skip(i + 3));
                    lemma_glue_push(out@, Token::Bicond, spec_tokenize(text@.skip(i + 3)));
                }
                out.push(Token::Bicond);
                i = i + 3;
            } else if i + 1 < n && text[i + 1] == '>' {
                proof {
                    assert(rest.skip(2) =~= text@.skip(i + 2));
                    lemma_glue_push(out@, Token::Possible, spec_tokenize(text@.skip(i + 2)));
                }
                out.push(Token::Possible);
                i = i + 2;
            } else {
                return None;
            }
        } else if c == '[' {
            if i + 1 < n && text[i + 1] == ']' {
                proof {
                    assert(rest.skip(2) =~= text@.skip(i + 2));
                    lemma_glue_push(out@, Token::Necessary, spec_tokenize(text@.skip(i + 2)));
                }
                out.push(Token::Necessary);
                i = i + 2;
            } else {
                return None;
            }
        } else if c == '|' {
            if i + 1 < n && text[i + 1] == '-' {
                proof {
                    assert(rest.skip(2) =~= text@.skip(i + 2));
                    lemma_glue_push(out@, Token::Proves, spec_tokenize(text@.skip(i + 2)));
                }
                out.push(Token::Proves);
                i = i + 2;
            } else {
                return None;
            }
        } else {
            match char_token(c) {
                Some(t) => {
                    proof {
                        assert(rest.drop_first() =~= text@.skip(i + 1));
                        lemma_glue_push(out@, t, spec_tokenize(text@.skip(i + 1)));
                    }
                    out.push(t);
                    i = i + 1;
                },
                None => {
                    return None;
                },
            }
        }
    }
    proof {
        assert(text@.skip(n as int) =~= Seq::<char>::empty());
        assert(glue_tokens(out@, Some(Seq::empty())) == Some(out@));
    }
    Some(out)
}

/// Gluing after appending one token is gluing the token onto the tail.
proof fn lemma_glue_push(acc: Seq<Token>, t: Token, rest: Option<Seq<Token>>)
    ensures
        glue_tokens(acc.push(t), rest) == glue_tokens(acc, cons_token(t, rest)),
{
    match rest {
        Some(ts) => {
            assert(acc.push(t) + ts =~= acc + (seq![t] + ts));
        },
        None => {},
    }
}

} // verus!
