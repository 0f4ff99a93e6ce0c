//! The infix expression parser.
//!
//! The grammar, tightest binding first: the unary operators (negation and,
//! in the modal dialect, necessity and possibility), conjunction,
//! disjunction, the conditional, the biconditional.  Conjunction,
//! disjunction and the biconditional associate to the left, the conditional
//! to the right.  Parentheses group.
//!
//! The specification functions below are the grammar, written as
//! precedence climbing over the token sequence; the executable parser is
//! proved to agree with them exactly.  Each one returns the parsed
//! expression together with the position of the first token it did not
//! consume.

use vstd::prelude::*;

use crate::expression::{Expression, Variable};
use crate::logic::ParseError;
use crate::token::{spec_tokenize, str_chars, tokenize, Token};

verus! {

/// An atom: a variable, a unary operator applied to an atom, or a
/// parenthesized expression.  The modal unary operators are only part of
/// the modal dialect.
pub open spec fn spec_parse_primary(toks: Seq<Token>, i: int, modal: bool) -> Option<
    (Expression, int),
>
    decreases toks.len() - i, 2int,
{
    if i < 0 || i >= toks.len() {
        None
    } else {
        match toks[i] {
            Token::Var(c) => Some((Expression::Variable(Variable(c)), i + 1)),
            Token::Not => match spec_parse_primary(toks, i + 1, modal) {
                Some((e, j)) => Some((Expression::Negated(Box::new(e)), j)),
                None => None,
            },
            Token::Necessary => if modal {
                match spec_parse_primary(toks, i + 1, modal) {
                    Some((e, j)) => Some((Expression::Necessary(Box::new(e)), j)),
                    None => None,
                }
            } else {
                None
            },
            Token::Possible => if modal {
                match spec_parse_primary(toks, i + 1, modal) {
                    Some((e, j)) => Some((Expression::Possible(Box::new(e)), j)),
                    None => None,
                }
            } else {
                None
            },
            Token::LParen => match spec_parse_bicond(toks, i + 1, modal) {
                Some((e, j)) => if i < j && j < toks.len() && toks[j] == Token::RParen {
                    Some((e, j + 1))
                } else {
                    None
                },
                None => None,
            },
            _ => None,
        }
    }
}

/// A conjunction chain: atoms folded to the left.
pub open spec fn spec_parse_and(toks: Seq<Token>, i: int, modal: bool) -> Option<(Expression, int)>
    decreases toks.len() - i, 3int,
{
    if i < 0 || i >= toks.len() {
        None
    } else {
        match spec_parse_primary(toks, i, modal) {
            Some((e, j)) => if i < j && j <= toks.len() {
                spec_parse_and_rest(toks, j, e, modal)
            } else {
                None
            },
            None => None,
        }
    }
}

pub open spec fn spec_parse_and_rest(toks: Seq<Token>, i: int, acc: Expression, modal: bool) -> Option<
    (Expression, int),
>
    decreases toks.len() - i, 4int,
{
    if 0 <= i && i < toks.len() && toks[i] == Token::And {
        match spec_parse_primary(toks, i + 1, modal) {
            Some((e, j)) => if i + 1 < j && j <= toks.len() {
                spec_parse_and_rest(toks, j, Expression::And(Box::new(acc), Box::new(e)), modal)
            } else {
                None
            },
            None => None,
        }
    } else {
        Some((acc, i))
    }
}

/// A disjunction chain: conjunctions folded to the left.
pub open spec fn spec_parse_or(toks: Seq<Token>, i: int, modal: bool) -> Option<(Expression, int)>
    decreases toks.len() - i, 5int,
{
    if i < 0 || i >= toks.len() {
        None
    } else {
        match spec_parse_and(toks, i, modal) {
            Some((e, j)) => if i < j && j <= toks.len() {
                spec_parse_or_rest(toks, j, e, modal)
            } else {
                None
            },
            None => None,
        }
    }
}

pub open spec fn spec_parse_or_rest(toks: Seq<Token>, i: int, acc: Expression, modal: bool) -> Option<
    (Expression, int),
>
    decreases toks.len() - i, 6int,
{
    if 0 <= i && i < toks.len() && toks[i] == Token::Or {
        match spec_parse_and(toks, i + 1, modal) {
            Some((e, j)) => if i + 1 < j && j <= toks.len() {
                spec_parse_or_rest(toks, j, Expression::Or(Box::new(acc), Box::new(e)), modal)
            } else {
                None
            },
            None => None,
        }
    } else {
        Some((acc, i))
    }
}

/// A conditional: disjunctions joined to the right, so that
/// `p -> q -> r` reads as `p -> (q -> r)`.
pub open spec fn spec_parse_cond(toks: Seq<Token>, i: int, modal: bool) -> Option<(Expression, int)>
    decreases toks.len() - i, 7int,
{
    if i < 0 || i >= toks.len() {
        None
    } else {
        match spec_parse_or(toks, i, modal) {
            Some((lhs, j)) => if i < j && j <= toks.len() {
                if j < toks.len() && toks[j] == Token::Cond {
                    match spec_parse_cond(toks, j + 1, modal) {
                        Some((rhs, k)) => Some(
                            (Expression::Conditional(Box::new(lhs), Box::new(rhs)), k),
                        ),
                        None => None,
                    }
                } else {
                    Some((lhs, j))
                }
            } else {
                None
            },
            None => None,
        }
    }
}

/// A biconditional chain: conditionals folded to the left.  This is the
/// loosest level, so it parses a whole expression.
pub open spec fn spec_parse_bicond(toks: Seq<Token>, i: int, modal: bool) -> Option<
    (Expression, int),
>
    decreases toks.len() - i, 9int,
{
    if i < 0 || i >= toks.len() {
        None
    } else {
        match spec_parse_cond(toks, i, modal) {
            Some((e, j)) => if i < j && j <= toks.len() {
                spec_parse_bicond_rest(toks, j, e, modal)
            } else {
                None
            },
            None => None,
        }
    }
}

pub open spec fn spec_parse_bicond_rest(
    toks: Seq<Token>,
    i: int,
    acc: Expression,
    modal: bool,
) -> Option<(Expression, int)>
    decreases toks.len() - i, 10int,
{
    if 0 <= i && i < toks.len() && toks[i] == Token::Bicond {
        match spec_parse_cond(toks, i + 1, modal) {
            Some((e, j)) => if i + 1 < j && j <= toks.len() {
                spec_parse_bicond_rest(
                    toks,
                    j,
                    Expression::Biconditional(Box::new(acc), Box::new(e)),
                    modal,
                )
            } else {
                None
            },
            None => None,
        }
    } else {
        Some((acc, i))
    }
}

/// A whole token sequence as one expression; trailing tokens are an error.
pub open spec fn spec_parse_expr(toks: Seq<Token>, modal: bool) -> Option<Expression> {
    match spec_parse_bicond(toks, 0, modal) {
        Some((e, j)) => if j == toks.len() {
            Some(e)
        } else {
            None
        },
        None => None,
    }
}

/// A whole text as one infix expression.
pub open spec fn spec_parse_infix(text: Seq<char>, modal: bool) -> Option<Expression> {
    match spec_tokenize(text) {
        Some(toks) => spec_parse_expr(toks, modal),
        None => None,
    }
}

fn parse_primary(toks: &Vec<Token>, i: usize, modal: bool) -> (r: Option<(Expression, usize)>)
    ensures
        match r {
            Some((e, j)) => {
                &&& spec_parse_primary(toks@, i as int, modal) == Some((e, j as int))
                &&& i < j <= toks@.len()
                &&& (!modal ==> e.is_classical())
            },
            None => spec_parse_primary(toks@, i as int, modal) is None,
        },
    decreases toks@.len() - i, 2int,
{
    if i >= toks.len() {
        return None;
    }
    match toks[i] {
        Token::Var(c) => Some((Expression::Variable(Variable(c)), i + 1)),
        Token::Not => match parse_primary(toks, i + 1, modal) {
            Some((e, j)) => Some((Expression::Negated(Box::new(e)), j)),
            None => None,
        },
        Token::Necessary => if modal {
            match parse_primary(toks, i + 1, modal) {
                Some((e, j)) => Some((Expression::Necessary(Box::new(e)), j)),
                None => None,
            }
        } else {
            None
        },
        Token::Possible => if modal {
            match parse_primary(toks, i + 1, modal) {
                Some((e, j)) => Some((Expression::Possible(Box::new(e)), j)),
                None => None,
            }
        } else {
            None
        },
        Token::LParen => match parse_bicond(toks, i + 1, modal) {
            Some((e, j)) => if j < toks.len() && toks[j] == Token::RParen {
                Some((e, j + 1))
            } else {
                None
            },
            None => None,
        },
        _ => None,
    }
}

fn parse_and(toks: &Vec<Token>, i: usize, modal: bool) -> (r: Option<(Expression, usize)>)
    ensures
        match r {
            Some((e, j)) => {
                &&& spec_parse_and(toks@, i as int, modal) == Some((e, j as int))
                &&& i < j <= toks@.len()
                &&& (!modal ==> e.is_classical())
            },
            None => spec_parse_and(toks@, i as int, modal) is None,
        },
    decreases toks@.len() - i, 3int,
{
    if i >= toks.len() {
        return None;
    }
    match parse_primary(toks, i, modal) {
        Some((e, j)) => parse_and_rest(toks, j, e, modal),
        None => None,
    }
}

fn parse_and_rest(toks: &Vec<Token>, i: usize, acc: Expression, modal: bool) -> (r: Option<
    (Expression, usize),
>)
    requires
        i <= toks@.len(),
        !modal ==> acc.is_classical(),
    ensures
        match r {
            Some((e, j)) => {
                &&& spec_parse_and_rest(toks@, i as int, acc, modal) == Some((e, j as int))
                &&& i <= j <= toks@.len()
                &&& (!modal ==> e.is_classical())
            },
            None => spec_parse_and_rest(toks@, i as int, acc, modal) is None,
        },
    decreases toks@.len() - i, 4int,
{
    if i < toks.len() && toks[i] == Token::And {
        match parse_primary(toks, i + 1, modal) {
            Some((e, j)) => parse_and_rest(
                toks,
                j,
                Expression::And(Box::new(acc), Box::new(e)),
                modal,
            ),
            None => None,
        }
    } else {
        Some((acc, i))
    }
}

fn parse_or(toks: &Vec<Token>, i: usize, modal: bool) -> (r: Option<(Expression, usize)>)
    ensures
        match r {
            Some((e, j)) => {
                &&& spec_parse_or(toks@, i as int, modal) == Some((e, j as int))
                &&& i < j <= toks@.len()
                &&& (!modal ==> e.is_classical())
            },
            None => spec_parse_or(toks@, i as int, modal) is None,
        },
    decreases toks@.len() - i, 5int,
{
    if i >= toks.len() {
        return None;
    }
    match parse_and(toks, i, modal) {
        Some((e, j)) => parse_or_rest(toks, j, e, modal),
        None => None,
    }
}

fn parse_or_rest(toks: &Vec<Token>, i: usize, acc: Expression, modal: bool) -> (r: Option<
    (Expression, usize),
>)
    requires
        i <= toks@.len(),
        !modal ==> acc.is_classical(),
    ensures
        match r {
            Some((e, j)) => {
                &&& spec_parse_or_rest(toks@, i as int, acc, modal) == Some((e, j as int))
                &&& i <= j <= toks@.len()
                &&& (!modal ==> e.is_classical())
            },
            None => spec_parse_or_rest(toks@, i as int, acc, modal) is None,
        },
    decreases toks@.len() - i, 6int,
{
    if i < toks.len() && toks[i] == Token::Or {
        match parse_and(toks, i + 1, modal) {
            Some((e, j)) => parse_or_rest(toks, j, Expression::Or(Box::new(acc), Box::new(e)), modal),
            None => None,
        }
    } else {
        Some((acc, i))
    }
}

fn parse_cond(toks: &Vec<Token>, i: usize, modal: bool) -> (r: Option<(Expression, usize)>)
    ensures
        match r {
            Some((e, j)) => {
                &&& spec_parse_cond(toks@, i as int, modal) == Some((e, j as int))
                &&& i < j <= toks@.len()
                &&& (!modal ==> e.is_classical())
            },
            None => spec_parse_cond(toks@, i as int, modal) is None,
        },
    decreases toks@.len() - i, 7int,
{
    if i >= toks.len() {
        return None;
    }
    match parse_or(toks, i, modal) {
        Some((lhs, j)) => if j < toks.len() && toks[j] == Token::Cond {
            match parse_cond(toks, j + 1, modal) {
                Some((rhs, k)) => Some((Expression::Conditional(Box::new(lhs), Box::new(rhs)), k)),
                None => None,
            }
        } else {
            Some((lhs, j))
        },
        None => None,
    }
}

pub(crate) fn parse_bicond(toks: &Vec<Token>, i: usize, modal: bool) -> (r: Option<(Expression, usize)>)
    ensures
        match r {
            Some((e, j)) => {
                &&& spec_parse_bicond(toks@, i as int, modal) == Some((e, j as int))
                &&& i < j <= toks@.len()
                &&& (!modal ==> e.is_classical())
            },
            None => spec_parse_bicond(toks@, i as int, modal) is None,
        },
    decreases toks@.len() - i, 9int,
{
    if i >= toks.len() {
        return None;
    }
    match parse_cond(toks, i, modal) {
        Some((e, j)) => parse_bicond_rest(toks, j, e, modal),
        None => None,
    }
}

fn parse_bicond_rest(toks: &Vec<Token>, i: usize, acc: Expression, modal: bool) -> (r: Option<
    (Expression, usize),
>)
    requires
        i <= toks@.len(),
        !modal ==> acc.is_classical(),
    ensures
        match r {
            Some((e, j)) => {
                &&& spec_parse_bicond_rest(toks@, i as int, acc, modal) == Some((e, j as int))
                &&& i <= j <= toks@.len()
                &&& (!modal ==> e.is_classical())
            },
            None => spec_parse_bicond_rest(toks@, i as int, acc, modal) is None,
        },
    decreases toks@.len() - i, 10int,
{
    if i < toks.len() && toks[i] == Token::Bicond {
        match parse_cond(toks, i + 1, modal) {
            Some((e, j)) => parse_bicond_rest(
                toks,
                j,
                Expression::Biconditional(Box::new(acc), Box::new(e)),
                modal,
            ),
            None => None,
        }
    } else {
        Some((acc, i))
    }
}

/// Parses a whole token sequence as one expression.
pub fn parse_tokens(toks: &Vec<Token>, modal: bool) -> (r: Option<Expression>)
    ensures
        r == spec_parse_expr(toks@, modal),
        !modal ==> (r matches Some(e) ==> e.is_classical()),
{
    match parse_bicond(toks, 0, modal) {
        Some((e, j)) => if j == toks.len() {
            Some(e)
        } else {
            None
        },
        None => None,
    }
}

/// Parses a whole text as one infix expression of the chosen dialect.
pub fn parse_infix(s: &str, modal: bool) -> (r: Result<Expression, ParseError>)
    ensures
        match r {
            Ok(e) => spec_parse_infix(s@, modal) == Some(e) && (!modal ==> e.is_classical()),
            Err(_) => spec_parse_infix(s@, modal) is None,
        },
{
    let chars = str_chars(s);
    match tokenize(&chars) {
        Some(toks) => match parse_tokens(&toks, modal) {
            Some(e) => Ok(e),
            None => Err(ParseError),
        },
        None => Err(ParseError),
    }
}

/// The classical infix parser.
pub struct ExpressionParser;

impl ExpressionParser {
    /// Parses classical infix notation into an expression.
    pub fn parse_expression(s: &str) -> (r: Result<Expression, ParseError>)
        ensures
            match r {
                Ok(e) => spec_parse_infix(s@, false) == Some(e) && e.is_classical(),
                Err(_) => spec_parse_infix(s@, false) is None,
            },
    {
        parse_infix(s, false)
    }
}

/// A second name for the classical infix parser, kept for callers of the
/// older entry point.
pub struct ClassicalParser;

impl ClassicalParser {
    /// Parses classical infix notation into an expression.
    pub fn parse_expression(s: &str) -> (r: Result<Expression, ParseError>)
        ensures
            match r {
                Ok(e) => spec_parse_infix(s@, false) == Some(e) && e.is_classical(),
                Err(_) => spec_parse_infix(s@, false) is None,
            },
    {
        parse_infix(s, false)
    }
}

} // verus!
