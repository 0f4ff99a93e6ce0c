//! The grouping round trip: parsing a formula's canonical rendering gives
//! the formula back.
//!
//! The law holds for canonical formulas: variables carry literal
//! characters, and the chains that the printer flattens — conjunction,
//! disjunction, the biconditional — lean left, as the parser builds them.
//! A right-nested chain such as a conjunction whose right operand is
//! itself a conjunction prints flat and reparses left-nested, so it is
//! left out.

use vstd::prelude::*;

use crate::expression::Expression;
use crate::parser::{
    spec_parse_and, spec_parse_and_rest, spec_parse_bicond, spec_parse_bicond_rest,
    spec_parse_cond, spec_parse_expr, spec_parse_infix, spec_parse_or, spec_parse_or_rest,
    spec_parse_primary,
};
use crate::token::{is_space, spec_char_token, spec_tokenize, Token};

verus! {

impl Expression {
    /// The formulas the printer renders losslessly: literal variable
    /// characters, and left-leaning conjunction, disjunction and
    /// biconditional chains.  Everything the infix parser produces for a
    /// chain leans left; only a hand-built right-nested chain falls
    /// outside.
    pub open spec fn canonical(self) -> bool
        decreases self,
    {
        match self {
            Expression::Variable(v) => crate::token::is_literal(v.0),
            Expression::Negated(e) => e.canonical(),
            Expression::Necessary(e) => e.canonical(),
            Expression::Possible(e) => e.canonical(),
            Expression::And(a, b) => a.canonical() && b.canonical() && !((*b) matches Expression::And(_, _)),
            Expression::Or(a, b) => a.canonical() && b.canonical() && !((*b) matches Expression::Or(_, _)),
            Expression::Conditional(a, b) => a.canonical() && b.canonical(),
            Expression::Biconditional(a, b) => a.canonical() && b.canonical() && !((*b)
                matches Expression::Biconditional(_, _)),
        }
    }
}

/// Every character is whitespace or spells a token on its own.
pub open spec fn lexable(text: Seq<char>) -> bool {
    forall|k: int|
        0 <= k < text.len() ==> is_space(#[trigger] text[k]) || spec_char_token(text[k]) is Some
}

/// The tokens of a text whose characters each spell their own token.
pub open spec fn tokens_of_chars(text: Seq<char>) -> Seq<Token>
    decreases text.len(),
{
    if text.len() == 0 {
        Seq::empty()
    } else if is_space(text[0]) {
        tokens_of_chars(text.drop_first())
    } else {
        match spec_char_token(text[0]) {
            Some(t) => seq![t] + tokens_of_chars(text.drop_first()),
            None => Seq::empty(),
        }
    }
}

/// The token sequence of a formula's rendering, and of the flattened
/// chain renderings.
pub open spec fn toks_of(e: Expression) -> Seq<Token> {
    tokens_of_chars(e.spec_display())
}

pub open spec fn and_toks_of(e: Expression) -> Seq<Token> {
    tokens_of_chars(e.spec_and_chain())
}

pub open spec fn or_toks_of(e: Expression) -> Seq<Token> {
    tokens_of_chars(e.spec_or_chain())
}

pub open spec fn bicond_toks_of(e: Expression) -> Seq<Token> {
    tokens_of_chars(e.spec_bicond_chain())
}

proof fn lemma_lexable_concat(a: Seq<char>, b: Seq<char>)
    requires
        lexable(a),
        lexable(b),
    ensures
        lexable(a + b),
{
    let s = a + b;
    assert forall|k: int| 0 <= k < s.len() implies is_space(#[trigger] s[k]) || spec_char_token(
        s[k],
    ) is Some by {
        if k < a.len() {
            assert(s[k] == a[k]);
        } else {
            assert(s[k] == b[k - a.len()]);
        }
    }
}

proof fn lemma_tc_concat(a: Seq<char>, b: Seq<char>)
    requires
        lexable(a),
    ensures
        tokens_of_chars(a + b) == tokens_of_chars(a) + tokens_of_chars(b),
    decreases a.len(),
{
    if a.len() == 0 {
        assert(a + b =~= b);
        assert(tokens_of_chars(a) + tokens_of_chars(b) =~= tokens_of_chars(b));
    } else {
        let s = a + b;
        assert(s[0] == a[0]);
        assert(s.drop_first() =~= a.drop_first() + b);
        assert(lexable(a.drop_first())) by {
            assert(forall|k: int|
                0 <= k < a.drop_first().len() ==> a.drop_first()[k] == a[k + 1]);
        }
        lemma_tc_concat(a.drop_first(), b);
        if is_space(a[0]) {
        } else {
            let t = spec_char_token(a[0])->Some_0;
            assert(seq![t] + (tokens_of_chars(a.drop_first()) + tokens_of_chars(b)) =~= (seq![t]
                + tokens_of_chars(a.drop_first())) + tokens_of_chars(b));
        }
    }
}

/// On lexable text the tokenizer succeeds and yields the per-character
/// tokens: no multi-character operator spelling begins with a character
/// that spells a token of its own.
proof fn lemma_tokenize_lexable(text: Seq<char>)
    requires
        lexable(text),
    ensures
        spec_tokenize(text) == Some(tokens_of_chars(text)),
    decreases text.len(),
{
    if text.len() > 0 {
        assert(lexable(text.drop_first())) by {
            assert(forall|k: int|
                0 <= k < text.drop_first().len() ==> text.drop_first()[k] == text[k + 1]);
        }
        lemma_tokenize_lexable(text.drop_first());
        let c = text[0];
        if !is_space(c) {
            assert(spec_char_token(c) is Some);
            assert(c != '-' && c != '<' && c != '[' && c != '|');
        }
    }
}

proof fn lemma_tc_one(c: char, t: Token)
    requires
        !is_space(c),
        spec_char_token(c) == Some(t),
    ensures
        tokens_of_chars(seq![c]) == seq![t],
        lexable(seq![c]),
{
    reveal_with_fuel(tokens_of_chars, 2);
    assert(seq![c].drop_first() =~= Seq::<char>::empty());
    assert(tokens_of_chars(seq![c]) =~= seq![t]);
}

proof fn lemma_tc_sep(c: char, t: Token)
    requires
        !is_space(c),
        spec_char_token(c) == Some(t),
    ensures
        tokens_of_chars(seq![' ', c, ' ']) == seq![t],
        lexable(seq![' ', c, ' ']),
{
    reveal_with_fuel(tokens_of_chars, 5);
    let s = seq![' ', c, ' '];
    assert(s.drop_first() =~= seq![c, ' ']);
    assert(seq![c, ' '].drop_first() =~= seq![' ']);
    assert(seq![' '].drop_first() =~= Seq::<char>::empty());
    assert(tokens_of_chars(seq![' ']) =~= Seq::<Token>::empty());
    assert(tokens_of_chars(seq![c, ' ']) =~= seq![t]);
    assert(tokens_of_chars(s) =~= seq![t]);
    assert forall|k: int| 0 <= k < s.len() implies is_space(#[trigger] s[k]) || spec_char_token(
        s[k],
    ) is Some by {}
}

/// The rendering of a canonical formula is lexable, and its token shape
/// follows the formula's head: one variable token, a unary prefix, or a
/// parenthesized chain.
proof fn lemma_display_tokens(e: Expression)
    requires
        e.canonical(),
    ensures
        lexable(e.spec_display()),
        toks_of(e).len() >= 1,
        (match e {
            Expression::Variable(v) => toks_of(e) == seq![Token::Var(v.0)],
            Expression::Negated(x) => toks_of(e) == (match *x {
                Expression::Necessary(_) => seq![Token::Not, Token::LParen] + toks_of(*x)
                    + seq![Token::RParen],
                Expression::Possible(_) => seq![Token::Not, Token::LParen] + toks_of(*x)
                    + seq![Token::RParen],
                _ => seq![Token::Not] + toks_of(*x),
            }),
            Expression::Necessary(x) => toks_of(e) == seq![Token::Necessary] + toks_of(*x),
            Expression::Possible(x) => toks_of(e) == seq![Token::Possible] + toks_of(*x),
            Expression::And(a, b) => toks_of(e) == seq![Token::LParen] + and_toks_of(*a)
                + seq![Token::And] + and_toks_of(*b) + seq![Token::RParen],
            Expression::Or(a, b) => toks_of(e) == seq![Token::LParen] + or_toks_of(*a)
                + seq![Token::Or] + or_toks_of(*b) + seq![Token::RParen],
            Expression::Conditional(a, b) => toks_of(e) == seq![Token::LParen] + toks_of(*a)
                + seq![Token::Cond] + toks_of(*b) + seq![Token::RParen],
            Expression::Biconditional(a, b) => toks_of(e) == seq![Token::LParen] + bicond_toks_of(
                *a,
            ) + seq![Token::Bicond] + bicond_toks_of(*b) + seq![Token::RParen],
        }),
    decreases e, 0int,
{
    lemma_tc_one('(', Token::LParen);
    lemma_tc_one(')', Token::RParen);
    match e {
        Expression::Variable(v) => {
            lemma_tc_one(v.0, Token::Var(v.0));
        },
        Expression::Negated(x) => {
            lemma_display_tokens(*x);
            lemma_tc_one('¬', Token::Not);
            match *x {
                Expression::Necessary(_) | Expression::Possible(_) => {
                    let body = seq!['¬', '('] + (*x).spec_display() + seq![')'];
                    assert(e.spec_display() == body);
                    assert(seq!['¬', '('] =~= seq!['¬'] + seq!['(']);
                    lemma_lexable_concat(seq!['¬'], seq!['(']);
                    lemma_lexable_concat(seq!['¬', '('], (*x).spec_display());
                    lemma_lexable_concat(seq!['¬', '('] + (*x).spec_display(), seq![')']);
                    lemma_tc_concat(seq!['¬'], seq!['(']);
                    lemma_tc_concat(seq!['¬', '('], (*x).spec_display());
                    lemma_tc_concat(seq!['¬', '('] + (*x).spec_display(), seq![')']);
                    assert(tokens_of_chars(seq!['¬', '(']) =~= seq![Token::Not, Token::LParen]);
                    assert(toks_of(e) =~= seq![Token::Not, Token::LParen] + toks_of(*x)
                        + seq![Token::RParen]);
                },
                _ => {
                    assert(e.spec_display() == seq!['¬'] + (*x).spec_display());
                    lemma_lexable_concat(seq!['¬'], (*x).spec_display());
                    lemma_tc_concat(seq!['¬'], (*x).spec_display());
                    assert(toks_of(e) =~= seq![Token::Not] + toks_of(*x));
                },
            }
        },
        Expression::Necessary(x) => {
            lemma_display_tokens(*x);
            lemma_tc_one('◻', Token::Necessary);
            assert(e.spec_display() == seq!['◻'] + (*x).spec_display());
            lemma_lexable_concat(seq!['◻'], (*x).spec_display());
            lemma_tc_concat(seq!['◻'], (*x).spec_display());
            assert(toks_of(e) =~= seq![Token::Necessary] + toks_of(*x));
        },
        Expression::Possible(x) => {
            lemma_display_tokens(*x);
            lemma_tc_one('◇', Token::Possible);
            assert(e.spec_display() == seq!['◇'] + (*x).spec_display());
            lemma_lexable_concat(seq!['◇'], (*x).spec_display());
            lemma_tc_concat(seq!['◇'], (*x).spec_display());
            assert(toks_of(e) =~= seq![Token::Possible] + toks_of(*x));
        },
        Expression::And(a, b) => {
            lemma_and_chain_tokens(*a);
            lemma_and_chain_tokens(*b);
            lemma_tc_sep('∧', Token::And);
            lemma_chain_wrap(
                (*a).spec_and_chain(),
                (*b).spec_and_chain(),
                '∧',
                Token::And,
            );
            assert(e.spec_display() == seq!['('] + (*a).spec_and_chain() + seq![' ', '∧', ' ']
                + (*b).spec_and_chain() + seq![')']);
        },
        Expression::Or(a, b) => {
            lemma_or_chain_tokens(*a);
            lemma_or_chain_tokens(*b);
            lemma_tc_sep('∨', Token::Or);
            lemma_chain_wrap((*a).spec_or_chain(), (*b).spec_or_chain(), '∨', Token::Or);
            assert(e.spec_display() == seq!['('] + (*a).spec_or_chain() + seq![' ', '∨', ' ']
                + (*b).spec_or_chain() + seq![')']);
        },
        Expression::Conditional(a, b) => {
            lemma_display_tokens(*a);
            lemma_display_tokens(*b);
            lemma_tc_sep('→', Token::Cond);
            lemma_chain_wrap((*a).spec_display(), (*b).spec_display(), '→', Token::Cond);
            assert(e.spec_display() == seq!['('] + (*a).spec_display() + seq![' ', '→', ' ']
                + (*b).spec_display() + seq![')']);
        },
        Expression::Biconditional(a, b) => {
            lemma_bicond_chain_tokens(*a);
            lemma_bicond_chain_tokens(*b);
            lemma_tc_sep('↔', Token::Bicond);
            lemma_chain_wrap(
                (*a).spec_bicond_chain(),
                (*b).spec_bicond_chain(),
                '↔',
                Token::Bicond,
            );
            assert(e.spec_display() == seq!['('] + (*a).spec_bicond_chain() + seq![' ', '↔', ' ']
                + (*b).spec_bicond_chain() + seq![')']);
        },
    }
}

/// Tokens of `( left SEP right )` for lexable halves and a one-character
/// separator glyph.
proof fn lemma_chain_wrap(left: Seq<char>, right: Seq<char>, sep: char, t: Token)
    requires
        lexable(left),
        lexable(right),
        !is_space(sep),
        spec_char_token(sep) == Some(t),
    ensures
        lexable(seq!['('] + left + seq![' ', sep, ' '] + right + seq![')']),
        tokens_of_chars(seq!['('] + left + seq![' ', sep, ' '] + right + seq![')'])
            == seq![Token::LParen] + tokens_of_chars(left) + seq![t] + tokens_of_chars(right)
            + seq![Token::RParen],
{
    lemma_tc_one('(', Token::LParen);
    lemma_tc_one(')', Token::RParen);
    lemma_tc_sep(sep, t);
    let p1 = seq!['('] + left;
    let p2 = p1 + seq![' ', sep, ' '];
    let p3 = p2 + right;
    let p4 = p3 + seq![')'];
    lemma_lexable_concat(seq!['('], left);
    lemma_lexable_concat(p1, seq![' ', sep, ' ']);
    lemma_lexable_concat(p2, right);
    lemma_lexable_concat(p3, seq![')']);
    lemma_tc_concat(seq!['('], left);
    lemma_tc_concat(p1, seq![' ', sep, ' ']);
    lemma_tc_concat(p2, right);
    lemma_tc_concat(p3, seq![')']);
    assert(tokens_of_chars(p4) =~= seq![Token::LParen] + tokens_of_chars(left) + seq![t]
        + tokens_of_chars(right) + seq![Token::RParen]);
}

proof fn lemma_and_chain_tokens(e: Expression)
    requires
        e.canonical(),
    ensures
        lexable(e.spec_and_chain()),
        and_toks_of(e).len() >= 1,
        (match e {
            Expression::And(a, b) => and_toks_of(e) == and_toks_of(*a) + seq![Token::And]
                + and_toks_of(*b),
            _ => and_toks_of(e) == toks_of(e),
        }),
    decreases e, 1int,
{
    match e {
        Expression::And(a, b) => {
            lemma_and_chain_tokens(*a);
            lemma_and_chain_tokens(*b);
            lemma_tc_sep('∧', Token::And);
            let p1 = (*a).spec_and_chain() + seq![' ', '∧', ' '];
            lemma_lexable_concat((*a).spec_and_chain(), seq![' ', '∧', ' ']);
            lemma_lexable_concat(p1, (*b).spec_and_chain());
            lemma_tc_concat((*a).spec_and_chain(), seq![' ', '∧', ' ']);
            lemma_tc_concat(p1, (*b).spec_and_chain());
            assert(e.spec_and_chain() == p1 + (*b).spec_and_chain());
            assert(and_toks_of(e) =~= and_toks_of(*a) + seq![Token::And] + and_toks_of(*b));
        },
        _ => {
            lemma_display_tokens(e);
        },
    }
}

proof fn lemma_or_chain_tokens(e: Expression)
    requires
        e.canonical(),
    ensures
        lexable(e.spec_or_chain()),
        or_toks_of(e).len() >= 1,
        (match e {
            Expression::Or(a, b) => or_toks_of(e) == or_toks_of(*a) + seq![Token::Or] + or_toks_of(
                *b,
            ),
            _ => or_toks_of(e) == toks_of(e),
        }),
    decreases e, 1int,
{
    match e {
        Expression::Or(a, b) => {
            lemma_or_chain_tokens(*a);
            lemma_or_chain_tokens(*b);
            lemma_tc_sep('∨', Token::Or);
            let p1 = (*a).spec_or_chain() + seq![' ', '∨', ' '];
            lemma_lexable_concat((*a).spec_or_chain(), seq![' ', '∨', ' ']);
            lemma_lexable_concat(p1, (*b).spec_or_chain());
            lemma_tc_concat((*a).spec_or_chain(), seq![' ', '∨', ' ']);
            lemma_tc_concat(p1, (*b).spec_or_chain());
            assert(e.spec_or_chain() == p1 + (*b).spec_or_chain());
            assert(or_toks_of(e) =~= or_toks_of(*a) + seq![Token::Or] + or_toks_of(*b));
        },
        _ => {
            lemma_display_tokens(e);
        },
    }
}

proof fn lemma_bicond_chain_tokens(e: Expression)
    requires
        e.canonical(),
    ensures
        lexable(e.spec_bicond_chain()),
        bicond_toks_of(e).len() >= 1,
        (match e {
            Expression::Biconditional(a, b) => bicond_toks_of(e) == bicond_toks_of(*a)
                + seq![Token::Bicond] + bicond_toks_of(*b),
            _ => bicond_toks_of(e) == toks_of(e),
        }),
    decreases e, 1int,
{
    match e {
        Expression::Biconditional(a, b) => {
            lemma_bicond_chain_tokens(*a);
            lemma_bicond_chain_tokens(*b);
            lemma_tc_sep('↔', Token::Bicond);
            let p1 = (*a).spec_bicond_chain() + seq![' ', '↔', ' '];
            lemma_lexable_concat((*a).spec_bicond_chain(), seq![' ', '↔', ' ']);
            lemma_lexable_concat(p1, (*b).spec_bicond_chain());
            lemma_tc_concat((*a).spec_bicond_chain(), seq![' ', '↔', ' ']);
            lemma_tc_concat(p1, (*b).spec_bicond_chain());
            assert(e.spec_bicond_chain() == p1 + (*b).spec_bicond_chain());
            assert(bicond_toks_of(e) =~= bicond_toks_of(*a) + seq![Token::Bicond] + bicond_toks_of(
                *b,
            ));
        },
        _ => {
            lemma_display_tokens(e);
        },
    }
}

/// A region that is a concatenation splits into its two parts.
proof fn lemma_subrange_split(toks: Seq<Token>, i: int, j: int, a: Seq<Token>, b: Seq<Token>)
    requires
        0 <= i <= j <= toks.len(),
        toks.subrange(i, j) == a + b,
    ensures
        i + a.len() <= j,
        toks.subrange(i, i + a.len()) == a,
        toks.subrange(i + a.len(), j) == b,
{
    assert(toks.subrange(i, j).len() == j - i);
    let m = i + a.len() as int;
    assert(toks.subrange(i, m) =~= a) by {
        assert forall|k: int| 0 <= k < a.len() implies toks.subrange(i, m)[k] == a[k] by {
            assert(toks.subrange(i, j)[k] == (a + b)[k]);
        }
    }
    assert(toks.subrange(m, j) =~= b) by {
        assert forall|k: int| 0 <= k < b.len() implies toks.subrange(m, j)[k] == b[k] by {
            assert(toks.subrange(m, j)[k] == toks[m + k]);
            assert(toks.subrange(i, j)[a.len() + k] == toks[i + (a.len() + k)]);
            assert(toks.subrange(i, j)[a.len() + k] == (a + b)[a.len() + k]);
        }
    }
}

/// The rendering of a canonical formula parses as one atom: it is a
/// variable, a unary prefix of an atom, or parenthesized.
proof fn lemma_parse_primary_display(toks: Seq<Token>, i: int, j: int, e: Expression, modal: bool)
    requires
        e.canonical(),
        modal || e.is_classical(),
        0 <= i <= j <= toks.len(),
        toks.subrange(i, j) == toks_of(e),
    ensures
        spec_parse_primary(toks, i, modal) == Some((e, j)),
    decreases e, 20int,
{
    lemma_display_tokens(e);
    assert(j - i == toks_of(e).len());
    assert(i < j);
    match e {
        Expression::Variable(v) => {
            assert(toks.subrange(i, j)[0] == toks[i]);
            assert(toks[i] == Token::Var(v.0));
            assert(e == Expression::Variable(crate::expression::Variable(v.0)));
        },
        Expression::Negated(x) => {
            let xe = *x;
            let parens = (xe matches Expression::Necessary(_)) || (xe
                matches Expression::Possible(_));
            if parens {
                let head = seq![Token::Not, Token::LParen];
                assert(toks.subrange(i, j) == (head + toks_of(xe)) + seq![Token::RParen]) by {
                    assert(head + toks_of(xe) + seq![Token::RParen] =~= (head + toks_of(xe))
                        + seq![Token::RParen]);
                }
                lemma_subrange_split(toks, i, j, head + toks_of(xe), seq![Token::RParen]);
                lemma_subrange_split(toks, i, j - 1, head, toks_of(xe));
                assert(toks.subrange(i, i + 2)[0] == toks[i]);
                assert(toks.subrange(i, i + 2)[1] == toks[i + 1]);
                assert(toks[i] == Token::Not);
                assert(toks[i + 1] == Token::LParen);
                assert(toks.subrange(j - 1, j)[0] == toks[j - 1]);
                assert(toks[j - 1] == Token::RParen);
                lemma_bicond_chain_tokens(xe);
                lemma_parse_bicond_chain(toks, i + 2, j - 1, xe, modal);
                assert(spec_parse_bicond_rest(toks, j - 1, xe, modal) == Some((xe, j - 1)));
                assert(spec_parse_primary(toks, i + 1, modal) == Some((xe, j)));
                assert(spec_parse_primary(toks, i, modal) == Some((e, j)));
            } else {
                lemma_subrange_split(toks, i, j, seq![Token::Not], toks_of(xe));
                assert(toks.subrange(i, i + 1)[0] == toks[i]);
                assert(toks[i] == Token::Not);
                lemma_parse_primary_display(toks, i + 1, j, xe, modal);
                assert(spec_parse_primary(toks, i, modal) == Some((e, j)));
            }
        },
        Expression::Necessary(x) => {
            let xe = *x;
            lemma_subrange_split(toks, i, j, seq![Token::Necessary], toks_of(xe));
            assert(toks.subrange(i, i + 1)[0] == toks[i]);
            assert(toks[i] == Token::Necessary);
            assert(modal);
            lemma_parse_primary_display(toks, i + 1, j, xe, modal);
            assert(spec_parse_primary(toks, i, modal) == Some((e, j)));
        },
        Expression::Possible(x) => {
            let xe = *x;
            lemma_subrange_split(toks, i, j, seq![Token::Possible], toks_of(xe));
            assert(toks.subrange(i, i + 1)[0] == toks[i]);
            assert(toks[i] == Token::Possible);
            assert(modal);
            lemma_parse_primary_display(toks, i + 1, j, xe, modal);
            assert(spec_parse_primary(toks, i, modal) == Some((e, j)));
        },
        Expression::And(_, _) => {
            lemma_parse_primary_and(toks, i, j, e, modal);
        },
        Expression::Or(_, _) => {
            lemma_parse_primary_or(toks, i, j, e, modal);
        },
        Expression::Biconditional(_, _) => {
            lemma_parse_primary_bicond(toks, i, j, e, modal);
        },
        Expression::Conditional(_, _) => {
            lemma_parse_primary_cond(toks, i, j, e, modal);
        },
    }
}

proof fn lemma_parse_primary_and(toks: Seq<Token>, i: int, j: int, e: Expression, modal: bool)
    requires
        e.canonical(),
        modal || e.is_classical(),
        e matches Expression::And(_, _),
        0 <= i <= j <= toks.len(),
        toks.subrange(i, j) == toks_of(e),
    ensures
        spec_parse_primary(toks, i, modal) == Some((e, j)),
    decreases e, 15int,
{
    lemma_display_tokens(e);
    assert(i < j);
    if let Expression::And(a, b) = e {
        let ae = *a;
        let be = *b;
        lemma_and_chain_tokens(e);
        let interior = and_toks_of(e);
        assert(toks.subrange(i, j) == (seq![Token::LParen] + interior) + seq![Token::RParen]) by {
            assert(seq![Token::LParen] + and_toks_of(ae) + seq![Token::And] + and_toks_of(be)
                + seq![Token::RParen] =~= (seq![Token::LParen] + (and_toks_of(ae)
                + seq![Token::And] + and_toks_of(be))) + seq![Token::RParen]);
        }
        lemma_subrange_split(toks, i, j, seq![Token::LParen] + interior, seq![Token::RParen]);
        lemma_subrange_split(toks, i, j - 1, seq![Token::LParen], interior);
        assert(toks.subrange(i, i + 1)[0] == toks[i]);
        assert(toks[i] == Token::LParen);
        assert(toks.subrange(j - 1, j)[0] == toks[j - 1]);
        assert(toks[j - 1] == Token::RParen);
        lemma_parse_and_chain(toks, i + 1, j - 1, e, modal);
        assert(spec_parse_and_rest(toks, j - 1, e, modal) == Some((e, j - 1)));
        assert(spec_parse_and(toks, i + 1, modal) == Some((e, j - 1)));
        assert(spec_parse_or(toks, i + 1, modal) == spec_parse_or_rest(toks, j - 1, e, modal));
        assert(spec_parse_or(toks, i + 1, modal) == Some((e, j - 1)));
        assert(spec_parse_cond(toks, i + 1, modal) == Some((e, j - 1)));
        assert(spec_parse_bicond(toks, i + 1, modal) == spec_parse_bicond_rest(
            toks,
            j - 1,
            e,
            modal,
        ));
        assert(spec_parse_bicond(toks, i + 1, modal) == Some((e, j - 1)));
        assert(spec_parse_primary(toks, i, modal) == Some((e, j)));
    }
}

proof fn lemma_parse_primary_or(toks: Seq<Token>, i: int, j: int, e: Expression, modal: bool)
    requires
        e.canonical(),
        modal || e.is_classical(),
        e matches Expression::Or(_, _),
        0 <= i <= j <= toks.len(),
        toks.subrange(i, j) == toks_of(e),
    ensures
        spec_parse_primary(toks, i, modal) == Some((e, j)),
    decreases e, 15int,
{
    lemma_display_tokens(e);
    assert(i < j);
    if let Expression::Or(a, b) = e {
        let ae = *a;
        let be = *b;
        lemma_or_chain_tokens(e);
        let interior = or_toks_of(e);
        assert(toks.subrange(i, j) == (seq![Token::LParen] + interior) + seq![Token::RParen]) by {
            assert(seq![Token::LParen] + or_toks_of(ae) + seq![Token::Or] + or_toks_of(be)
                + seq![Token::RParen] =~= (seq![Token::LParen] + (or_toks_of(ae) + seq![Token::Or]
                + or_toks_of(be))) + seq![Token::RParen]);
        }
        lemma_subrange_split(toks, i, j, seq![Token::LParen] + interior, seq![Token::RParen]);
        lemma_subrange_split(toks, i, j - 1, seq![Token::LParen], interior);
        assert(toks.subrange(i, i + 1)[0] == toks[i]);
        assert(toks[i] == Token::LParen);
        assert(toks.subrange(j - 1, j)[0] == toks[j - 1]);
        assert(toks[j - 1] == Token::RParen);
        lemma_parse_or_chain(toks, i + 1, j - 1, e, modal);
        assert(spec_parse_or_rest(toks, j - 1, e, modal) == Some((e, j - 1)));
        assert(spec_parse_or(toks, i + 1, modal) == Some((e, j - 1)));
        assert(spec_parse_cond(toks, i + 1, modal) == Some((e, j - 1)));
        assert(spec_parse_bicond(toks, i + 1, modal) == spec_parse_bicond_rest(
            toks,
            j - 1,
            e,
            modal,
        ));
        assert(spec_parse_bicond(toks, i + 1, modal) == Some((e, j - 1)));
        assert(spec_parse_primary(toks, i, modal) == Some((e, j)));
    }
}

proof fn lemma_parse_primary_bicond(toks: Seq<Token>, i: int, j: int, e: Expression, modal: bool)
    requires
        e.canonical(),
        modal || e.is_classical(),
        e matches Expression::Biconditional(_, _),
        0 <= i <= j <= toks.len(),
        toks.subrange(i, j) == toks_of(e),
    ensures
        spec_parse_primary(toks, i, modal) == Some((e, j)),
    decreases e, 15int,
{
    lemma_display_tokens(e);
    assert(i < j);
    if let Expression::Biconditional(a, b) = e {
        let ae = *a;
        let be = *b;
        lemma_bicond_chain_tokens(e);
        let interior = bicond_toks_of(e);
        assert(toks.subrange(i, j) == (seq![Token::LParen] + interior) + seq![Token::RParen]) by {
            assert(seq![Token::LParen] + bicond_toks_of(ae) + seq![Token::Bicond] + bicond_toks_of(
                be,
            ) + seq![Token::RParen] =~= (seq![Token::LParen] + (bicond_toks_of(ae)
                + seq![Token::Bicond] + bicond_toks_of(be))) + seq![Token::RParen]);
        }
        lemma_subrange_split(toks, i, j, seq![Token::LParen] + interior, seq![Token::RParen]);
        lemma_subrange_split(toks, i, j - 1, seq![Token::LParen], interior);
        assert(toks.subrange(i, i + 1)[0] == toks[i]);
        assert(toks[i] == Token::LParen);
        assert(toks.subrange(j - 1, j)[0] == toks[j - 1]);
        assert(toks[j - 1] == Token::RParen);
        lemma_parse_bicond_chain(toks, i + 1, j - 1, e, modal);
        assert(spec_parse_bicond_rest(toks, j - 1, e, modal) == Some((e, j - 1)));
        assert(spec_parse_bicond(toks, i + 1, modal) == Some((e, j - 1)));
        assert(spec_parse_primary(toks, i, modal) == Some((e, j)));
    }
}

proof fn lemma_parse_primary_cond(toks: Seq<Token>, i: int, j: int, e: Expression, modal: bool)
    requires
        e.canonical(),
        modal || e.is_classical(),
        e matches Expression::Conditional(_, _),
        0 <= i <= j <= toks.len(),
        toks.subrange(i, j) == toks_of(e),
    ensures
        spec_parse_primary(toks, i, modal) == Some((e, j)),
    decreases e, 15int,
{
    lemma_display_tokens(e);
    assert(i < j);
    if let Expression::Conditional(a, b) = e {
        let ae = *a;
        let be = *b;
        let m = i + 1 + toks_of(ae).len() as int;
        assert(toks.subrange(i, j) == ((seq![Token::LParen] + toks_of(ae) + seq![Token::Cond])
            + toks_of(be)) + seq![Token::RParen]) by {
            assert(seq![Token::LParen] + toks_of(ae) + seq![Token::Cond] + toks_of(be)
                + seq![Token::RParen] =~= ((seq![Token::LParen] + toks_of(ae) + seq![Token::Cond])
                + toks_of(be)) + seq![Token::RParen]);
        }
        lemma_subrange_split(
            toks,
            i,
            j,
            (seq![Token::LParen] + toks_of(ae) + seq![Token::Cond]) + toks_of(be),
            seq![Token::RParen],
        );
        lemma_subrange_split(
            toks,
            i,
            j - 1,
            seq![Token::LParen] + toks_of(ae) + seq![Token::Cond],
            toks_of(be),
        );
        lemma_subrange_split(toks, i, m + 1, seq![Token::LParen] + toks_of(ae), seq![Token::Cond]);
        lemma_subrange_split(toks, i, m, seq![Token::LParen], toks_of(ae));
        assert(toks.subrange(i, i + 1)[0] == toks[i]);
        assert(toks[i] == Token::LParen);
        assert(toks.subrange(m, m + 1)[0] == toks[m]);
        assert(toks[m] == Token::Cond);
        assert(toks.subrange(j - 1, j)[0] == toks[j - 1]);
        assert(toks[j - 1] == Token::RParen);
        lemma_display_tokens(ae);
        lemma_display_tokens(be);
        lemma_parse_primary_display(toks, i + 1, m, ae, modal);
        assert(spec_parse_and(toks, i + 1, modal) == spec_parse_and_rest(toks, m, ae, modal));
        assert(spec_parse_and(toks, i + 1, modal) == Some((ae, m)));
        assert(spec_parse_or(toks, i + 1, modal) == spec_parse_or_rest(toks, m, ae, modal));
        assert(spec_parse_or(toks, i + 1, modal) == Some((ae, m)));
        lemma_parse_cond_display(toks, m + 1, j - 1, be, modal);
        assert(spec_parse_cond(toks, i + 1, modal) == Some((e, j - 1)));
        assert(spec_parse_bicond(toks, i + 1, modal) == spec_parse_bicond_rest(
            toks,
            j - 1,
            e,
            modal,
        ));
        assert(spec_parse_bicond(toks, i + 1, modal) == Some((e, j - 1)));
        assert(spec_parse_primary(toks, i, modal) == Some((e, j)));
    }
}

/// The rendering of a canonical formula parses as one conditional-level
/// item, provided no binary operator follows it.
proof fn lemma_parse_cond_display(toks: Seq<Token>, i: int, j: int, e: Expression, modal: bool)
    requires
        e.canonical(),
        modal || e.is_classical(),
        0 <= i <= j <= toks.len(),
        toks.subrange(i, j) == toks_of(e),
        j == toks.len() || (toks[j] != Token::And && toks[j] != Token::Or && toks[j]
            != Token::Cond),
    ensures
        spec_parse_cond(toks, i, modal) == Some((e, j)),
    decreases e, 45int,
{
    lemma_display_tokens(e);
    assert(i < j);
    lemma_parse_primary_display(toks, i, j, e, modal);
    assert(spec_parse_and(toks, i, modal) == spec_parse_and_rest(toks, j, e, modal));
    assert(spec_parse_and(toks, i, modal) == Some((e, j)));
    assert(spec_parse_or(toks, i, modal) == spec_parse_or_rest(toks, j, e, modal));
    assert(spec_parse_or(toks, i, modal) == Some((e, j)));
    assert(spec_parse_cond(toks, i, modal) == Some((e, j)));
}

/// Parsing a flattened conjunction chain folds it back to the left: the
/// run over the chain's tokens continues with the chain's formula as the
/// accumulated left operand.
proof fn lemma_parse_and_chain(toks: Seq<Token>, i: int, j: int, e: Expression, modal: bool)
    requires
        e.canonical(),
        modal || e.is_classical(),
        0 <= i <= j <= toks.len(),
        toks.subrange(i, j) == and_toks_of(e),
    ensures
        spec_parse_and(toks, i, modal) == spec_parse_and_rest(toks, j, e, modal),
    decreases e, (if e matches Expression::And(_, _) {
        10int
    } else {
        30int
    }),
{
    lemma_and_chain_tokens(e);
    assert(i < j);
    match e {
        Expression::And(a, b) => {
            let ae = *a;
            let be = *b;
            lemma_and_chain_tokens(ae);
            lemma_and_chain_tokens(be);
            lemma_display_tokens(be);
            let m = i + and_toks_of(ae).len() as int;
            assert(toks.subrange(i, j) == (and_toks_of(ae) + seq![Token::And]) + toks_of(be)) by {
                assert(and_toks_of(ae) + seq![Token::And] + and_toks_of(be) =~= (and_toks_of(ae)
                    + seq![Token::And]) + toks_of(be));
            }
            lemma_subrange_split(toks, i, j, and_toks_of(ae) + seq![Token::And], toks_of(be));
            lemma_subrange_split(toks, i, m + 1, and_toks_of(ae), seq![Token::And]);
            assert(toks.subrange(m, m + 1)[0] == toks[m]);
            assert(toks[m] == Token::And);
            lemma_parse_and_chain(toks, i, m, ae, modal);
            lemma_parse_primary_display(toks, m + 1, j, be, modal);
            assert(spec_parse_and_rest(toks, m, ae, modal) == spec_parse_and_rest(toks, j, e, modal));
        },
        _ => {
            lemma_parse_primary_display(toks, i, j, e, modal);
        },
    }
}

/// Parsing a flattened disjunction chain folds it back to the left.
proof fn lemma_parse_or_chain(toks: Seq<Token>, i: int, j: int, e: Expression, modal: bool)
    requires
        e.canonical(),
        modal || e.is_classical(),
        0 <= i <= j <= toks.len(),
        toks.subrange(i, j) == or_toks_of(e),
        j == toks.len() || toks[j] != Token::And,
    ensures
        spec_parse_or(toks, i, modal) == spec_parse_or_rest(toks, j, e, modal),
    decreases e, (if e matches Expression::Or(_, _) {
        10int
    } else {
        40int
    }),
{
    lemma_or_chain_tokens(e);
    assert(i < j);
    match e {
        Expression::Or(a, b) => {
            let ae = *a;
            let be = *b;
            lemma_or_chain_tokens(ae);
            lemma_or_chain_tokens(be);
            lemma_display_tokens(be);
            let m = i + or_toks_of(ae).len() as int;
            assert(toks.subrange(i, j) == (or_toks_of(ae) + seq![Token::Or]) + toks_of(be)) by {
                assert(or_toks_of(ae) + seq![Token::Or] + or_toks_of(be) =~= (or_toks_of(ae)
                    + seq![Token::Or]) + toks_of(be));
            }
            lemma_subrange_split(toks, i, j, or_toks_of(ae) + seq![Token::Or], toks_of(be));
            lemma_subrange_split(toks, i, m + 1, or_toks_of(ae), seq![Token::Or]);
            assert(toks.subrange(m, m + 1)[0] == toks[m]);
            assert(toks[m] == Token::Or);
            lemma_parse_or_chain(toks, i, m, ae, modal);
            lemma_parse_primary_display(toks, m + 1, j, be, modal);
            assert(spec_parse_and(toks, m + 1, modal) == spec_parse_and_rest(toks, j, be, modal));
            assert(spec_parse_and(toks, m + 1, modal) == Some((be, j)));
            assert(spec_parse_or_rest(toks, m, ae, modal) == spec_parse_or_rest(toks, j, e, modal));
        },
        _ => {
            lemma_parse_primary_display(toks, i, j, e, modal);
            assert(spec_parse_and(toks, i, modal) == spec_parse_and_rest(toks, j, e, modal));
            assert(spec_parse_and(toks, i, modal) == Some((e, j)));
        },
    }
}

/// Parsing a flattened biconditional chain folds it back to the left.
proof fn lemma_parse_bicond_chain(toks: Seq<Token>, i: int, j: int, e: Expression, modal: bool)
    requires
        e.canonical(),
        modal || e.is_classical(),
        0 <= i <= j <= toks.len(),
        toks.subrange(i, j) == bicond_toks_of(e),
        j == toks.len() || (toks[j] != Token::And && toks[j] != Token::Or && toks[j]
            != Token::Cond),
    ensures
        spec_parse_bicond(toks, i, modal) == spec_parse_bicond_rest(toks, j, e, modal),
    decreases e, (if e matches Expression::Biconditional(_, _) {
        10int
    } else {
        50int
    }),
{
    lemma_bicond_chain_tokens(e);
    assert(i < j);
    match e {
        Expression::Biconditional(a, b) => {
            let ae = *a;
            let be = *b;
            lemma_bicond_chain_tokens(ae);
            lemma_bicond_chain_tokens(be);
            lemma_display_tokens(be);
            let m = i + bicond_toks_of(ae).len() as int;
            assert(toks.subrange(i, j) == (bicond_toks_of(ae) + seq![Token::Bicond]) + toks_of(be))
                by {
                assert(bicond_toks_of(ae) + seq![Token::Bicond] + bicond_toks_of(be)
                    =~= (bicond_toks_of(ae) + seq![Token::Bicond]) + toks_of(be));
            }
            lemma_subrange_split(toks, i, j, bicond_toks_of(ae) + seq![Token::Bicond], toks_of(be));
            lemma_subrange_split(toks, i, m + 1, bicond_toks_of(ae), seq![Token::Bicond]);
            assert(toks.subrange(m, m + 1)[0] == toks[m]);
            assert(toks[m] == Token::Bicond);
            lemma_parse_bicond_chain(toks, i, m, ae, modal);
            lemma_parse_cond_display(toks, m + 1, j, be, modal);
            assert(spec_parse_bicond_rest(toks, m, ae, modal) == spec_parse_bicond_rest(
                toks,
                j,
                e,
                modal,
            ));
        },
        _ => {
            lemma_parse_cond_display(toks, i, j, e, modal);
        },
    }
}

/// The grouping round trip: parsing the canonical rendering of a
/// canonical formula yields that formula, in either dialect (the
/// classical dialect asks that the formula use no modal operator).
/// Rendering is lossless on canonical formulas.
pub proof fn lemma_parse_display_round_trip(e: Expression, modal: bool)
    requires
        e.canonical(),
        modal || e.is_classical(),
    ensures
        spec_parse_infix(e.spec_display(), modal) == Some(e),
{
    lemma_display_tokens(e);
    lemma_tokenize_lexable(e.spec_display());
    let toks = toks_of(e);
    assert(toks.subrange(0, toks.len() as int) =~= toks);
    lemma_parse_cond_display(toks, 0, toks.len() as int, e, modal);
    assert(spec_parse_bicond(toks, 0, modal) == spec_parse_bicond_rest(
        toks,
        toks.len() as int,
        e,
        modal,
    ));
    assert(spec_parse_bicond(toks, 0, modal) == Some((e, toks.len() as int)));
    assert(spec_parse_expr(toks, modal) == Some(e));
}

/// The conditional associates to the right: a chain of three rendered
/// formulas joined by conditionals parses as `a → (b → c)`, never as
/// `(a → b) → c`.
#[verifier::spinoff_prover]
#[verifier::rlimit(100)]
pub proof fn lemma_conditional_right_associative(
    a: Expression,
    b: Expression,
    c: Expression,
    modal: bool,
)
    requires
        a.canonical(),
        b.canonical(),
        c.canonical(),
        modal || (a.is_classical() && b.is_classical() && c.is_classical()),
    ensures
        spec_parse_infix(
            a.spec_display() + seq![' ', '→', ' '] + b.spec_display() + seq![' ', '→', ' ']
                + c.spec_display(),
            modal,
        ) == Some(
            Expression::Conditional(
                Box::new(a),
                Box::new(Expression::Conditional(Box::new(b), Box::new(c))),
            ),
        ),
{
    lemma_display_tokens(a);
    lemma_display_tokens(b);
    lemma_display_tokens(c);
    lemma_tc_sep('→', Token::Cond);
    let sep = seq![' ', '→', ' '];
    let p1 = a.spec_display() + sep;
    let p2 = p1 + b.spec_display();
    let p3 = p2 + sep;
    let text = p3 + c.spec_display();
    lemma_lexable_concat(a.spec_display(), sep);
    lemma_lexable_concat(p1, b.spec_display());
    lemma_lexable_concat(p2, sep);
    lemma_lexable_concat(p3, c.spec_display());
    lemma_tokenize_lexable(text);
    lemma_tc_concat(a.spec_display(), sep);
    lemma_tc_concat(p1, b.spec_display());
    lemma_tc_concat(p2, sep);
    lemma_tc_concat(p3, c.spec_display());
    let toks = tokens_of_chars(text);
    assert(toks =~= toks_of(a) + seq![Token::Cond] + toks_of(b) + seq![Token::Cond] + toks_of(c));
    let n = toks.len() as int;
    let m1 = toks_of(a).len() as int;
    let m2 = m1 + 1 + toks_of(b).len() as int;
    assert(toks.subrange(0, n) =~= toks);
    assert(toks.subrange(0, n) == ((toks_of(a) + seq![Token::Cond]) + toks_of(b))
        + (seq![Token::Cond] + toks_of(c))) by {
        assert(toks_of(a) + seq![Token::Cond] + toks_of(b) + seq![Token::Cond] + toks_of(c)
            =~= ((toks_of(a) + seq![Token::Cond]) + toks_of(b)) + (seq![Token::Cond] + toks_of(c)));
    }
    lemma_subrange_split(
        toks,
        0,
        n,
        ((toks_of(a) + seq![Token::Cond]) + toks_of(b)),
        seq![Token::Cond] + toks_of(c),
    );
    lemma_subrange_split(toks, 0, m2, toks_of(a) + seq![Token::Cond], toks_of(b));
    lemma_subrange_split(toks, 0, m1 + 1, toks_of(a), seq![Token::Cond]);
    lemma_subrange_split(toks, m2, n, seq![Token::Cond], toks_of(c));
    assert(toks.subrange(m1, m1 + 1)[0] == toks[m1]);
    assert(toks[m1] == Token::Cond);
    assert(toks.subrange(m2, m2 + 1)[0] == toks[m2]);
    assert(toks[m2] == Token::Cond);
    lemma_parse_primary_display(toks, 0, m1, a, modal);
    assert(spec_parse_and(toks, 0, modal) == spec_parse_and_rest(toks, m1, a, modal));
    assert(spec_parse_and(toks, 0, modal) == Some((a, m1)));
    assert(spec_parse_or(toks, 0, modal) == spec_parse_or_rest(toks, m1, a, modal));
    assert(spec_parse_or(toks, 0, modal) == Some((a, m1)));
    lemma_parse_primary_display(toks, m1 + 1, m2, b, modal);
    assert(spec_parse_and(toks, m1 + 1, modal) == spec_parse_and_rest(toks, m2, b, modal));
    assert(spec_parse_and(toks, m1 + 1, modal) == Some((b, m2)));
    assert(spec_parse_or(toks, m1 + 1, modal) == spec_parse_or_rest(toks, m2, b, modal));
    assert(spec_parse_or(toks, m1 + 1, modal) == Some((b, m2)));
    lemma_parse_cond_display(toks, m2 + 1, n, c, modal);
    let bc = Expression::Conditional(Box::new(b), Box::new(c));
    assert(spec_parse_cond(toks, m1 + 1, modal) == Some((bc, n)));
    let abc = Expression::Conditional(Box::new(a), Box::new(bc));
    assert(spec_parse_cond(toks, 0, modal) == Some((abc, n)));
    assert(spec_parse_bicond(toks, 0, modal) == spec_parse_bicond_rest(toks, n, abc, modal));
    assert(spec_parse_bicond(toks, 0, modal) == Some((abc, n)));
    assert(spec_parse_expr(toks, modal) == Some(abc));
}

} // verus!
