//! The logic facade: one entry point per dialect.
//!
//! Each dialect names itself and judges a line of text: classical logic
//! parses an expression (infix first, reverse-Polish as the fallback) and
//! decides whether it is a tautology; modal logic parses a sequent and
//! reports it valid unconditionally, a documented incompleteness of the
//! system rather than a finished decision procedure.

use vstd::prelude::*;

use crate::expression::Expression;
use crate::parser::{spec_parse_infix, ExpressionParser};
use crate::reverse_polish::{spec_parse_reverse_polish, RpParser};
use crate::theorem::{spec_display_sequent, spec_parse_theorem, ModalParser};

verus! {

/// The one error of this library: the input text fits no grammar.
#[derive(Debug, PartialEq, Eq, Structural, Clone, Copy)]
pub struct ParseError;

/// A dialect's display name and its judgment over a line of text: the
/// canonical rendering of what was read, and whether it holds.
pub trait Logic {
    /// The dialect's display name.
    spec fn spec_name(&self) -> Seq<char>;

    /// The verdict on a text: nothing when the text fits no grammar of the
    /// dialect, else the canonical rendering and the truth of the judgment.
    spec fn spec_verdict(&self, text: Seq<char>) -> Option<(Seq<char>, bool)>;

    /// The dialect's display name.
    fn name(&self) -> (r: &'static str)
        ensures
            r@ == self.spec_name(),
    ;

    /// Judges a line of text.
    fn is_valid_theorem(&self, s: &str) -> (r: Result<(String, bool), ParseError>)
        ensures
            match r {
                Ok((text, valid)) => self.spec_verdict(s@) == Some((text@, valid)),
                Err(_) => self.spec_verdict(s@) is None,
            },
    ;
}

/// Classical propositional logic.
pub struct ClassicalLogic;

/// The classical verdict on one parsed expression: its canonical text and
/// whether it is a tautology.
pub open spec fn spec_classical_verdict(e: Expression) -> (Seq<char>, bool) {
    (e.spec_display(), e.spec_is_tautology())
}

impl Logic for ClassicalLogic {
    open spec fn spec_name(&self) -> Seq<char> {
        "Classical"@
    }

    open spec fn spec_verdict(&self, text: Seq<char>) -> Option<(Seq<char>, bool)> {
        match spec_parse_infix(text, false) {
            Some(e) => Some(spec_classical_verdict(e)),
            None => match spec_parse_reverse_polish(text) {
                Some(e) => Some(spec_classical_verdict(e)),
                None => None,
            },
        }
    }

    fn name(&self) -> (r: &'static str) {
        "Classical"
    }

    fn is_valid_theorem(&self, s: &str) -> (r: Result<(String, bool), ParseError>) {
        let e = match ExpressionParser::parse_expression(s) {
            Ok(e) => e,
            Err(_) => match RpParser::parse_expression(s) {
                Ok(e) => e,
                Err(err) => {
                    return Err(err);
                },
            },
        };
        let text = e.display();
        let valid = e.is_tautology();
        Ok((text, valid))
    }
}

/// Modal logic.
pub struct ModalLogic;

impl Logic for ModalLogic {
    open spec fn spec_name(&self) -> Seq<char> {
        "Modal Logic"@
    }

    open spec fn spec_verdict(&self, text: Seq<char>) -> Option<(Seq<char>, bool)> {
        match spec_parse_theorem(text) {
            Some((proves, assumptions, conclusion)) => Some(
                (spec_display_sequent(proves, assumptions, conclusion), true),
            ),
            None => None,
        }
    }

    fn name(&self) -> (r: &'static str) {
        "Modal Logic"
    }

    fn is_valid_theorem(&self, s: &str) -> (r: Result<(String, bool), ParseError>) {
        match ModalParser::parse_theorem(s) {
            Ok(t) => Ok((t.display(), true)),
            Err(err) => Err(err),
        }
    }
}

} // verus!
