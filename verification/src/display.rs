//! The canonical pretty-printer.
//!
//! Chained conjunctions, disjunctions and biconditionals are flattened
//! into one parenthesized operand list; the conditional stays binary.
//! Every compound form carries its own parentheses, the outermost one
//! included.

use vstd::prelude::*;

use crate::expression::Expression;

verus! {

impl Expression {
    /// The canonical rendering of the formula.
    pub open spec fn spec_display(self) -> Seq<char>
        decreases self, 0int,
    {
        match self {
            Expression::Variable(v) => seq![v.0],
            Expression::Negated(e) => match *e {
                Expression::Necessary(_) => seq!['¬', '('] + (*e).spec_display() + seq![')'],
                Expression::Possible(_) => seq!['¬', '('] + (*e).spec_display() + seq![')'],
                _ => seq!['¬'] + (*e).spec_display(),
            },
            Expression::Necessary(e) => seq!['◻'] + (*e).spec_display(),
            Expression::Possible(e) => seq!['◇'] + (*e).spec_display(),
            Expression::And(a, b) => seq!['('] + (*a).spec_and_chain() + seq![' ', '∧', ' ']
                + (*b).spec_and_chain() + seq![')'],
            Expression::Or(a, b) => seq!['('] + (*a).spec_or_chain() + seq![' ', '∨', ' ']
                + (*b).spec_or_chain() + seq![')'],
            Expression::Conditional(a, b) => seq!['('] + (*a).spec_display() + seq![' ', '→', ' ']
                + (*b).spec_display() + seq![')'],
            Expression::Biconditional(a, b) => seq!['('] + (*a).spec_bicond_chain()
                + seq![' ', '↔', ' '] + (*b).spec_bicond_chain() + seq![')'],
        }
    }

    /// The flattened operand list of a conjunction chain.
    pub open spec fn spec_and_chain(self) -> Seq<char>
        decreases self, 1int,
    {
        match self {
            Expression::And(a, b) => (*a).spec_and_chain() + seq![' ', '∧', ' ']
                + (*b).spec_and_chain(),
            _ => self.spec_display(),
        }
    }

    /// The flattened operand list of a disjunction chain.
    pub open spec fn spec_or_chain(self) -> Seq<char>
        decreases self, 1int,
    {
        match self {
            Expression::Or(a, b) => (*a).spec_or_chain() + seq![' ', '∨', ' ']
                + (*b).spec_or_chain(),
            _ => self.spec_display(),
        }
    }

    /// The flattened operand list of a biconditional chain.
    pub open spec fn spec_bicond_chain(self) -> Seq<char>
        decreases self, 1int,
    {
        match self {
            Expression::Biconditional(a, b) => (*a).spec_bicond_chain() + seq![' ', '↔', ' ']
                + (*b).spec_bicond_chain(),
            _ => self.spec_display(),
        }
    }

    /// Renders the formula, character by character.
    pub fn display_chars(&self) -> (r: Vec<char>)
        ensures
            r@ == self.spec_display(),
        decreases *self, 0int,
    {
        match self {
            Expression::Variable(v) => {
                let mut out: Vec<char> = Vec::new();
                out.push(v.0);
                proof {
                    assert(out@ =~= self.spec_display());
                }
                out
            },
            Expression::Negated(e) => {
                let parens = match &**e {
                    Expression::Necessary(_) => true,
                    Expression::Possible(_) => true,
                    _ => false,
                };
                let mut out: Vec<char> = Vec::new();
                out.push('¬');
                if parens {
                    out.push('(');
                }
                let mut inner = e.display_chars();
                out.append(&mut inner);
                if parens {
                    out.push(')');
                }
                proof {
                    assert(out@ =~= self.spec_display());
                }
                out
            },
            Expression::Necessary(e) => {
                let mut out: Vec<char> = Vec::new();
                out.push('◻');
                let mut inner = e.display_chars();
                out.append(&mut inner);
                proof {
                    assert(out@ =~= self.spec_display());
                }
                out
            },
            Expression::Possible(e) => {
                let mut out: Vec<char> = Vec::new();
                out.push('◇');
                let mut inner = e.display_chars();
                out.append(&mut inner);
                proof {
                    assert(out@ =~= self.spec_display());
                }
                out
            },
            Expression::And(a, b) => {
                let mut out: Vec<char> = Vec::new();
                out.push('(');
                let mut lhs = a.and_chain_chars();
                out.append(&mut lhs);
                out.push(' ');
                out.push('∧');
                out.push(' ');
                let mut rhs = b.and_chain_chars();
                out.append(&mut rhs);
                out.push(')');
                proof {
                    assert(out@ =~= self.spec_display());
                }
                out
            },
            Expression::Or(a, b) => {
                let mut out: Vec<char> = Vec::new();
                out.push('(');
                let mut lhs = a.or_chain_chars();
                out.append(&mut lhs);
                out.push(' ');
                out.push('∨');
                out.push(' ');
                let mut rhs = b.or_chain_chars();
                out.append(&mut rhs);
                out.push(')');
                proof {
                    assert(out@ =~= self.spec_display());
                }
                out
            },
            Expression::Conditional(a, b) => {
                let mut out: Vec<char> = Vec::new();
                out.push('(');
                let mut lhs = a.display_chars();
                out.append(&mut lhs);
                out.push(' ');
                out.push('→');
                out.push(' ');
                let mut rhs = b.display_chars();
                out.append(&mut rhs);
                out.push(')');
                proof {
                    assert(out@ =~= self.spec_display());
                }
                out
            },
            Expression::Biconditional(a, b) => {
                let mut out: Vec<char> = Vec::new();
                out.push('(');
                let mut lhs = a.bicond_chain_chars();
                out.append(&mut lhs);
                out.push(' ');
                out.push('↔');
                out.push(' ');
                let mut rhs = b.bicond_chain_chars();
                out.append(&mut rhs);
                out.push(')');
                proof {
                    assert(out@ =~= self.spec_display());
                }
                out
            },
        }
    }

    fn and_chain_chars(&self) -> (r: Vec<char>)
        ensures
            r@ == self.spec_and_chain(),
        decreases *self, 1int,
    {
        match self {
            Expression::And(a, b) => {
                let mut out = a.and_chain_chars();
                out.push(' ');
                out.push('∧');
                out.push(' ');
                let mut rhs = b.and_chain_chars();
                out.append(&mut rhs);
                proof {
                    assert(out@ =~= self.spec_and_chain());
                }
                out
            },
            _ => self.display_chars(),
        }
    }

    fn or_chain_chars(&self) -> (r: Vec<char>)
        ensures
            r@ == self.spec_or_chain(),
        decreases *self, 1int,
    {
        match self {
            Expression::Or(a, b) => {
                let mut out = a.or_chain_chars();
                out.push(' ');
                out.push('∨');
                out.push(' ');
                let mut rhs = b.or_chain_chars();
                out.append(&mut rhs);
                proof {
                    assert(out@ =~= self.spec_or_chain());
                }
                out
            },
            _ => self.display_chars(),
        }
    }

    fn bicond_chain_chars(&self) -> (r: Vec<char>)
        ensures
            r@ == self.spec_bicond_chain(),
        decreases *self, 1int,
    {
        match self {
            Expression::Biconditional(a, b) => {
                let mut out = a.bicond_chain_chars();
                out.push(' ');
                out.push('↔');
                out.push(' ');
                let mut rhs = b.bicond_chain_chars();
                out.append(&mut rhs);
                proof {
                    assert(out@ =~= self.spec_bicond_chain());
                }
                out
            },
            _ => self.display_chars(),
        }
    }

    /// Renders the formula to its canonical text.
    pub fn display(&self) -> (r: String)
        ensures
            r@ == self.spec_display(),
    {
        chars_to_string(self.display_chars())
    }
}

/// Relies on `String`'s `FromIterator<char>`: collecting chars yields the
/// string holding exactly those characters, in order.
#[verifier::external_body]
pub fn chars_to_string(v: Vec<char>) -> (r: String)
    ensures
        r@ == v@,
{
    v.into_iter().collect()
}

} // verus!
