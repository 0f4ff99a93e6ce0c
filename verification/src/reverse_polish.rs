//! The reverse-Polish parser for the classical dialect.
//!
//! Every operator precedes its operands, so the tree is determined by
//! token order alone and no precedence table is needed.  The operator
//! vocabulary is the classical one; the modal operators have no
//! reverse-Polish spelling.

use vstd::prelude::*;

use crate::expression::{Expression, Variable};
use crate::logic::ParseError;
use crate::token::{spec_tokenize, str_chars, tokenize, Token};

verus! {

/// One prefix term starting at position `i`, together with the position
/// just past it.
pub open spec fn spec_parse_rp(toks: Seq<Token>, i: int) -> Option<(Expression, int)>
    decreases toks.len() - i, 0int,
{
    if i < 0 || i >= toks.len() {
        None
    } else {
        match toks[i] {
            Token::Var(c) => Some((Expression::Variable(Variable(c)), i + 1)),
            Token::Not => match spec_parse_rp(toks, i + 1) {
                Some((e, j)) => Some((Expression::Negated(Box::new(e)), j)),
                None => None,
            },
            Token::And => match spec_parse_rp_pair(toks, i + 1) {
                Some((a, b, k)) => Some((Expression::And(Box::new(a), Box::new(b)), k)),
                None => None,
            },
            Token::Or => match spec_parse_rp_pair(toks, i + 1) {
                Some((a, b, k)) => Some((Expression::Or(Box::new(a), Box::new(b)), k)),
                None => None,
            },
            Token::Cond => match spec_parse_rp_pair(toks, i + 1) {
                Some((a, b, k)) => Some((Expression::Conditional(Box::new(a), Box::new(b)), k)),
                None => None,
            },
            Token::Bicond => match spec_parse_rp_pair(toks, i + 1) {
                Some((a, b, k)) => Some((Expression::Biconditional(Box::new(a), Box::new(b)), k)),
                None => None,
            },
            _ => None,
        }
    }
}

/// Two adjacent prefix terms, for a binary operator's operands.
pub open spec fn spec_parse_rp_pair(toks: Seq<Token>, i: int) -> Option<(Expression, Expression, int)>
    decreases toks.len() - i, 1int,
{
    if i < 0 {
        None
    } else {
        match spec_parse_rp(toks, i) {
            Some((a, j)) => if i < j && j <= toks.len() {
                match spec_parse_rp(toks, j) {
                    Some((b, k)) => Some((a, b, k)),
                    None => None,
                }
            } else {
                None
            },
            None => None,
        }
    }
}

/// A whole text as one reverse-Polish expression.
pub open spec fn spec_parse_reverse_polish(text: Seq<char>) -> Option<Expression> {
    match spec_tokenize(text) {
        Some(toks) => match spec_parse_rp(toks, 0) {
            Some((e, j)) => if j == toks.len() {
                Some(e)
            } else {
                None
            },
            None => None,
        },
        None => None,
    }
}

fn parse_rp(toks: &Vec<Token>, i: usize) -> (r: Option<(Expression, usize)>)
    ensures
        match r {
            Some((e, j)) => {
                &&& spec_parse_rp(toks@, i as int) == Some((e, j as int))
                &&& i < j <= toks@.len()
                &&& e.is_classical()
            },
            None => spec_parse_rp(toks@, i as int) is None,
        },
    decreases toks@.len() - i, 0int,
{
    if i >= toks.len() {
        return None;
    }
    match toks[i] {
        Token::Var(c) => Some((Expression::Variable(Variable(c)), i + 1)),
        Token::Not => match parse_rp(toks, i + 1) {
            Some((e, j)) => Some((Expression::Negated(Box::new(e)), j)),
            None => None,
        },
        Token::And => match parse_rp_pair(toks, i + 1) {
            Some((a, b, k)) => Some((Expression::And(Box::new(a), Box::new(b)), k)),
            None => None,
        },
        Token::Or => match parse_rp_pair(toks, i + 1) {
            Some((a, b, k)) => Some((Expression::Or(Box::new(a), Box::new(b)), k)),
            None => None,
        },
        Token::Cond => match parse_rp_pair(toks, i + 1) {
            Some((a, b, k)) => Some((Expression::Conditional(Box::new(a), Box::new(b)), k)),
            None => None,
        },
        Token::Bicond => match parse_rp_pair(toks, i + 1) {
            Some((a, b, k)) => Some((Expression::Biconditional(Box::new(a), Box::new(b)), k)),
            None => None,
        },
        _ => None,
    }
}

fn parse_rp_pair(toks: &Vec<Token>, i: usize) -> (r: Option<(Expression, Expression, usize)>)
    ensures
        match r {
            Some((a, b, k)) => {
                &&& spec_parse_rp_pair(toks@, i as int) == Some((a, b, k as int))
                &&& i < k <= toks@.len()
                &&& a.is_classical()
                &&& b.is_classical()
            },
            None => spec_parse_rp_pair(toks@, i as int) is None,
        },
    decreases toks@.len() - i, 1int,
{
    match parse_rp(toks, i) {
        Some((a, j)) => match parse_rp(toks, j) {
            Some((b, k)) => Some((a, b, k)),
            None => None,
        },
        None => None,
    }
}

/// The reverse-Polish parser.
pub struct RpParser;

impl RpParser {
    /// Parses reverse-Polish notation into an expression.
    pub fn parse_expression(s: &str) -> (r: Result<Expression, ParseError>)
        ensures
            match r {
                Ok(e) => spec_parse_reverse_polish(s@) == Some(e) && e.is_classical(),
                Err(_) => spec_parse_reverse_polish(s@) is None,
            },
    {
        let chars = str_chars(s);
        match tokenize(&chars) {
            Some(toks) => match parse_rp(&toks, 0) {
                Some((e, j)) => if j == toks.len() {
                    Ok(e)
                } else {
                    Err(ParseError)
                },
                None => Err(ParseError),
            },
            None => Err(ParseError),
        }
    }
}

} // verus!
