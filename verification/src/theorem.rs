//! Sequent-style judgments and their parser.
//!
//! A sequent is a comma-separated list of assumption formulas, a judgment
//! operator (`|-` or `⊢` for proves, `⊬` for does not prove), and one
//! conclusion formula.  A bare formula is accepted as a sequent with no
//! assumptions and an implicit "proves" judgment.

use vstd::prelude::*;

use crate::expression::Expression;
use crate::logic::ParseError;
use crate::parser::spec_parse_bicond;
use crate::token::{spec_tokenize, str_chars, tokenize, Token};

verus! {

/// A judgment over a conclusion, given an ordered list of assumptions.
/// The order of the assumptions matters for display, not for meaning.
#[derive(Debug, PartialEq, Eq)]
pub enum Theorem {
    Proves { assumptions: Vec<Expression>, conclusion: Expression },
    DoesNotProve { assumptions: Vec<Expression>, conclusion: Expression },
}

impl Theorem {
    /// Whether the judgment is "proves".
    pub open spec fn spec_proves(self) -> bool {
        self matches Theorem::Proves { .. }
    }

    /// The assumptions, in written order.
    pub open spec fn spec_assumptions(self) -> Seq<Expression> {
        match self {
            Theorem::Proves { assumptions, .. } => assumptions@,
            Theorem::DoesNotProve { assumptions, .. } => assumptions@,
        }
    }

    /// The conclusion.
    pub open spec fn spec_conclusion(self) -> Expression {
        match self {
            Theorem::Proves { conclusion, .. } => conclusion,
            Theorem::DoesNotProve { conclusion, .. } => conclusion,
        }
    }
}

/// The assumption renderings, joined by `, `.
pub open spec fn spec_display_assumptions(es: Seq<Expression>) -> Seq<char>
    decreases es.len(),
{
    if es.len() == 0 {
        Seq::empty()
    } else if es.len() == 1 {
        es[0].spec_display()
    } else {
        spec_display_assumptions(es.drop_last()) + seq![',', ' '] + es.last().spec_display()
    }
}

/// The canonical rendering of a sequent: assumptions, judgment glyph,
/// conclusion, space-separated.
pub open spec fn spec_display_sequent(
    proves: bool,
    assumptions: Seq<Expression>,
    conclusion: Expression,
) -> Seq<char> {
    spec_display_assumptions(assumptions) + seq![' '] + (if proves {
        seq!['⊢']
    } else {
        seq!['⊬']
    }) + seq![' '] + conclusion.spec_display()
}

impl Theorem {
    /// The canonical rendering of the judgment.
    pub open spec fn spec_display(self) -> Seq<char> {
        spec_display_sequent(self.spec_proves(), self.spec_assumptions(), self.spec_conclusion())
    }

    /// Renders the judgment to its canonical text.
    pub fn display(&self) -> (r: String)
        ensures
            r@ == self.spec_display(),
    {
        let (assumptions, conclusion, proves) = match self {
            Theorem::Proves { assumptions, conclusion } => (assumptions, conclusion, true),
            Theorem::DoesNotProve { assumptions, conclusion } => (assumptions, conclusion, false),
        };
        let mut out: Vec<char> = Vec::new();
        let n = assumptions.len();
        let mut i: usize = 0;
        while i < n
            invariant
                n == assumptions.len(),
                i <= n,
                out@ == spec_display_assumptions(assumptions@.take(i as int)),
            decreases n - i,
        {
            if i > 0 {
                out.push(',');
                out.push(' ');
            }
            let mut part = assumptions[i].display_chars();
            out.append(&mut part);
            proof {
                let pre = assumptions@.take(i as int);
                let now = assumptions@.take(i + 1);
                assert(now.drop_last() =~= pre);
                assert(now.last() == assumptions@[i as int]);
                assert(out@ =~= spec_display_assumptions(now));
            }
            i = i + 1;
        }
        proof {
            assert(assumptions@.take(n as int) =~= assumptions@);
        }
        out.push(' ');
        out.push(if proves {
            '⊢'
        } else {
            '⊬'
        });
        out.push(' ');
        let mut tail = conclusion.display_chars();
        out.append(&mut tail);
        proof {
            assert(out@ =~= self.spec_display());
        }
        crate::display::chars_to_string(out)
    }
}

/// The sequent grammar over a token sequence, from position `i`, with the
/// assumptions already read.  The judgment may also open the sequent, for
/// a sequent with no assumptions.
pub open spec fn spec_parse_sequent(
    toks: Seq<Token>,
    i: int,
    assumptions: Seq<Expression>,
) -> Option<(bool, Seq<Expression>, Expression)>
    decreases toks.len() - i,
{
    if i < 0 || i > toks.len() {
        None
    } else if assumptions.len() == 0 && i < toks.len() && (toks[i] == Token::Proves || toks[i]
        == Token::NotProves) {
        match spec_parse_bicond(toks, i + 1, true) {
            Some((c, k)) => if k == toks.len() {
                Some((toks[i] == Token::Proves, assumptions, c))
            } else {
                None
            },
            None => None,
        }
    } else {
        match spec_parse_bicond(toks, i, true) {
            Some((e, j)) => if i < j && j <= toks.len() {
                if j == toks.len() {
                    if assumptions.len() == 0 {
                        Some((true, assumptions, e))
                    } else {
                        None
                    }
                } else if toks[j] == Token::Comma {
                    spec_parse_sequent(toks, j + 1, assumptions.push(e))
                } else if toks[j] == Token::Proves || toks[j] == Token::NotProves {
                    match spec_parse_bicond(toks, j + 1, true) {
                        Some((c, k)) => if k == toks.len() {
                            Some((toks[j] == Token::Proves, assumptions.push(e), c))
                        } else {
                            None
                        },
                        None => None,
                    }
                } else {
                    None
                }
            } else {
                None
            },
            None => None,
        }
    }
}

/// A whole text as one sequent.
pub open spec fn spec_parse_theorem(text: Seq<char>) -> Option<(bool, Seq<Expression>, Expression)> {
    match spec_tokenize(text) {
        Some(toks) => spec_parse_sequent(toks, 0, Seq::empty()),
        None => None,
    }
}

fn parse_sequent(toks: &Vec<Token>, i: usize, assumptions: Vec<Expression>) -> (r: Result<
    Theorem,
    ParseError,
>)
    requires
        i <= toks@.len(),
    ensures
        match r {
            Ok(t) => spec_parse_sequent(toks@, i as int, assumptions@) == Some(
                (t.spec_proves(), t.spec_assumptions(), t.spec_conclusion()),
            ),
            Err(_) => spec_parse_sequent(toks@, i as int, assumptions@) is None,
        },
    decreases toks@.len() - i,
{
    if assumptions.len() == 0 && i < toks.len() && (toks[i] == Token::Proves || toks[i]
        == Token::NotProves) {
        let proves = toks[i] == Token::Proves;
        match crate::parser::parse_bicond(toks, i + 1, true) {
            Some((c, k)) => if k == toks.len() {
                if proves {
                    Ok(Theorem::Proves { assumptions, conclusion: c })
                } else {
                    Ok(Theorem::DoesNotProve { assumptions, conclusion: c })
                }
            } else {
                Err(ParseError)
            },
            None => Err(ParseError),
        }
    } else {
        match crate::parser::parse_bicond(toks, i, true) {
            Some((e, j)) => if j == toks.len() {
                if assumptions.len() == 0 {
                    Ok(Theorem::Proves { assumptions, conclusion: e })
                } else {
                    Err(ParseError)
                }
            } else if toks[j] == Token::Comma {
                let mut assumptions = assumptions;
                assumptions.push(e);
                parse_sequent(toks, j + 1, assumptions)
            } else if toks[j] == Token::Proves || toks[j] == Token::NotProves {
                let proves = toks[j] == Token::Proves;
                match crate::parser::parse_bicond(toks, j + 1, true) {
                    Some((c, k)) => if k == toks.len() {
                        let mut assumptions = assumptions;
                        assumptions.push(e);
                        if proves {
                            Ok(Theorem::Proves { assumptions, conclusion: c })
                        } else {
                            Ok(Theorem::DoesNotProve { assumptions, conclusion: c })
                        }
                    } else {
                        Err(ParseError)
                    },
                    None => Err(ParseError),
                }
            } else {
                Err(ParseError)
            },
            None => Err(ParseError),
        }
    }
}

/// The modal dialect's parser: sequents, and bare modal expressions.
pub struct ModalParser;

impl ModalParser {
    /// Parses a sequent.
    pub fn parse_theorem(s: &str) -> (r: Result<Theorem, ParseError>)
        ensures
            match r {
                Ok(t) => spec_parse_theorem(s@) == Some(
                    (t.spec_proves(), t.spec_assumptions(), t.spec_conclusion()),
                ),
                Err(_) => spec_parse_theorem(s@) is None,
            },
    {
        let chars = str_chars(s);
        match tokenize(&chars) {
            Some(toks) => parse_sequent(&toks, 0, Vec::new()),
            None => Err(ParseError),
        }
    }

    /// Parses one modal infix expression.
    pub fn parse_expression(s: &str) -> (r: Result<Expression, ParseError>)
        ensures
            match r {
                Ok(e) => crate::parser::spec_parse_infix(s@, true) == Some(e),
                Err(_) => crate::parser::spec_parse_infix(s@, true) is None,
            },
    {
        crate::parser::parse_infix(s, true)
    }
}

} // verus!
