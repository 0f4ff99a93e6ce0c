use gottlob::expression::Expression as E;
use gottlob::expression::Variable;
use gottlob::parser::{ClassicalParser, ExpressionParser};
use gottlob::theorem::ModalParser;

#[test]
fn test_parens_or_no() {
    assert_eq!(
        ExpressionParser::parse_expression("(p)").unwrap(),
        ExpressionParser::parse_expression("p").unwrap()
    );
    assert_eq!(
        ExpressionParser::parse_expression("(p ^ q)").unwrap(),
        ExpressionParser::parse_expression("p ^ q").unwrap()
    );
}

#[test]
fn test_order_of_operations() {
    assert_eq!(
        ExpressionParser::parse_expression("a ^ b v c -> d <-> e").unwrap(),
        E::Biconditional(
            Box::new(E::Conditional(
                Box::new(E::Or(
                    Box::new(E::And(
                        Box::new(E::Variable(Variable('a'))),
                        Box::new(E::Variable(Variable('b')))
                    )),
                    Box::new(E::Variable(Variable('c')))
                )),
                Box::new(E::Variable(Variable('d')))
            )),
            Box::new(E::Variable(Variable('e')))
        ),
        "correct precedence"
    );
    assert_eq!(
        ExpressionParser::parse_expression("a <-> b -> c v d ^ e").unwrap(),
        E::Biconditional(
            Box::new(E::Variable(Variable('a'))),
            Box::new(E::Conditional(
                Box::new(E::Variable(Variable('b'))),
                Box::new(E::Or(
                    Box::new(E::Variable(Variable('c'))),
                    Box::new(E::And(
                        Box::new(E::Variable(Variable('d'))),
                        Box::new(E::Variable(Variable('e')))
                    )),
                )),
            )),
        ),
        "correct precedence"
    );

    assert_eq!(
        ExpressionParser::parse_expression("(p -> (q -> r))").unwrap(),
        ExpressionParser::parse_expression("p -> q -> r").unwrap(),
        "conditional should be right-associative"
    );
}

#[test]
fn test_grouping_overrides_ooo() {}

#[test]
fn parser_test_parens_or_no() {
    assert_eq!(
        ClassicalParser::parse_expression("(p)").unwrap(),
        ClassicalParser::parse_expression("p").unwrap()
    );
    assert_eq!(
        ClassicalParser::parse_expression("(p ^ q)").unwrap(),
        ClassicalParser::parse_expression("p ^ q").unwrap()
    );
}

#[test]
fn parser_test_order_of_operations() {
    assert_eq!(
        ClassicalParser::parse_expression("a ^ b v c -> d <-> e").unwrap(),
        E::Biconditional(
            Box::new(E::Conditional(
                Box::new(E::Or(
                    Box::new(E::And(
                        Box::new(E::Variable(Variable('a'))),
                        Box::new(E::Variable(Variable('b')))
                    )),
                    Box::new(E::Variable(Variable('c')))
                )),
                Box::new(E::Variable(Variable('d')))
            )),
            Box::new(E::Variable(Variable('e')))
        ),
        "correct precedence"
    );
    assert_eq!(
        ClassicalParser::parse_expression("a <-> b -> c v d ^ e").unwrap(),
        E::Biconditional(
            Box::new(E::Variable(Variable('a'))),
            Box::new(E::Conditional(
                Box::new(E::Variable(Variable('b'))),
                Box::new(E::Or(
                    Box::new(E::Variable(Variable('c'))),
                    Box::new(E::And(
                        Box::new(E::Variable(Variable('d'))),
                        Box::new(E::Variable(Variable('e')))
                    )),
                )),
            )),
        ),
        "correct precedence"
    );

    assert_eq!(
        ClassicalParser::parse_expression("(p -> (q -> r))").unwrap(),
        ClassicalParser::parse_expression("p -> q -> r").unwrap(),
        "conditional should be right-associative"
    );
}

#[test]
fn parser_test_grouping_overrides_ooo() {}

#[test]
fn modal_test_parens_or_no() {
    assert_eq!(
        ModalParser::parse_expression("(p)").unwrap(),
        ModalParser::parse_expression("p").unwrap()
    );
    assert_eq!(
        ModalParser::parse_expression("(p ^ q)").unwrap(),
        ModalParser::parse_expression("p ^ q").unwrap()
    );
}

#[test]
fn modal_test_order_of_operations() {
    assert_eq!(
        ModalParser::parse_expression("a ^ b v c -> d <-> e").unwrap(),
        E::Biconditional(
            Box::new(E::Conditional(
                Box::new(E::Or(
                    Box::new(E::And(
                        Box::new(E::Variable(Variable('a'))),
                        Box::new(E::Variable(Variable('b')))
                    )),
                    Box::new(E::Variable(Variable('c')))
                )),
                Box::new(E::Variable(Variable('d')))
            )),
            Box::new(E::Variable(Variable('e')))
        ),
        "correct precedence"
    );
    assert_eq!(
        ModalParser::parse_expression("a <-> b -> c v d ^ e").unwrap(),
        E::Biconditional(
            Box::new(E::Variable(Variable('a'))),
            Box::new(E::Conditional(
                Box::new(E::Variable(Variable('b'))),
                Box::new(E::Or(
                    Box::new(E::Variable(Variable('c'))),
                    Box::new(E::And(
                        Box::new(E::Variable(Variable('d'))),
                        Box::new(E::Variable(Variable('e')))
                    )),
                )),
            )),
        ),
        "correct precedence"
    );

    assert_eq!(
        ModalParser::parse_expression("(p -> (q -> r))").unwrap(),
        ModalParser::parse_expression("p -> q -> r").unwrap(),
        "conditional should be right-associative"
    );
}

#[test]
fn modal_test_grouping_overrides_ooo() {}

#[test]
fn modal_test_some_tautologies() {}

#[test]
fn modal_operators_parse() {
    assert_eq!(
        ModalParser::parse_expression("[]p ^ <>q").unwrap(),
        E::And(
            Box::new(E::Necessary(Box::new(E::Variable(Variable('p'))))),
            Box::new(E::Possible(Box::new(E::Variable(Variable('q')))))
        )
    );
    assert_eq!(
        ModalParser::parse_expression("◻p ∧ ◇q").unwrap(),
        ModalParser::parse_expression("[]p ^ <>q").unwrap()
    );
}

#[test]
fn classical_rejects_modal_operators() {
    assert!(ExpressionParser::parse_expression("[]p").is_err());
    assert!(ExpressionParser::parse_expression("<>p").is_err());
}

#[test]
fn parse_errors() {
    assert!(ExpressionParser::parse_expression("").is_err());
    assert!(ExpressionParser::parse_expression("p ^").is_err());
    assert!(ExpressionParser::parse_expression("(p").is_err());
    assert!(ExpressionParser::parse_expression("p q").is_err());
    assert!(ExpressionParser::parse_expression("P").is_err());
    assert!(ExpressionParser::parse_expression("p # q").is_err());
    assert!(ExpressionParser::parse_expression("v").is_err());
}

#[test]
fn unicode_operators_parse_like_ascii() {
    assert_eq!(
        ExpressionParser::parse_expression("¬p ∧ q ∨ r → s ↔ t").unwrap(),
        ExpressionParser::parse_expression("~p ^ q v r -> s <-> t").unwrap()
    );
}

#[test]
fn whitespace_is_insignificant() {
    assert_eq!(
        ExpressionParser::parse_expression("p^q->r").unwrap(),
        ExpressionParser::parse_expression("  p ^ q  ->  r ").unwrap()
    );
}

#[test]
fn modal_formulas_are_not_classical() {
    assert!(!ModalParser::parse_expression("[]p").unwrap().classical());
    assert!(!ModalParser::parse_expression("~<>p").unwrap().classical());
    assert!(ModalParser::parse_expression("p ^ ~q").unwrap().classical());
}
