use gottlob::expression::{VarSet, Variable};
use gottlob::parser::{ClassicalParser, ExpressionParser};
use gottlob::reverse_polish::RpParser;

#[test]
fn test_some_tautologies() {
    assert!(ExpressionParser::parse_expression("p ^ q -> p")
        .unwrap()
        .is_tautology());
    assert!(ExpressionParser::parse_expression("p v ~p")
        .unwrap()
        .is_tautology());

    let expr = ExpressionParser::parse_expression("~(p ^ q) <-> (~p v ~q)").unwrap();
    assert!(expr.is_tautology())
}

#[test]
fn parser_test_some_tautologies() {
    assert!(ClassicalParser::parse_expression("p ^ q -> p")
        .unwrap()
        .is_tautology());
    assert!(ClassicalParser::parse_expression("p v ~p")
        .unwrap()
        .is_tautology());

    let expr = ClassicalParser::parse_expression("~(p ^ q) <-> ~p v ~q").unwrap();
    assert!(expr.is_tautology())
}

#[test]
fn non_tautologies_are_rejected() {
    assert!(!ExpressionParser::parse_expression("p ^ q")
        .unwrap()
        .is_tautology());
    assert!(!ExpressionParser::parse_expression("p")
        .unwrap()
        .is_tautology());
    assert!(!ExpressionParser::parse_expression("p ^ ~p")
        .unwrap()
        .is_tautology());
    assert!(!ExpressionParser::parse_expression("p -> q")
        .unwrap()
        .is_tautology());
}

#[test]
fn eval_under_assignments() {
    let e = ExpressionParser::parse_expression("p ^ q -> r").unwrap();
    let mut pq = VarSet::new();
    pq.insert(Variable('p'));
    pq.insert(Variable('q'));
    assert!(!e.eval(&pq));
    let mut pqr = VarSet::new();
    pqr.insert(Variable('p'));
    pqr.insert(Variable('q'));
    pqr.insert(Variable('r'));
    assert!(e.eval(&pqr));
    let empty = VarSet::new();
    assert!(e.eval(&empty));
}

#[test]
fn variables_are_collected_once() {
    let e = ExpressionParser::parse_expression("p ^ q -> p v r").unwrap();
    let vars = e.variables();
    assert_eq!(vars.len(), 3);
    assert!(vars.contains(Variable('p')));
    assert!(vars.contains(Variable('q')));
    assert!(vars.contains(Variable('r')));
    assert!(!vars.contains(Variable('s')));
}

#[test]
fn reverse_polish_matches_infix() {
    let rp = RpParser::parse_expression("-> ^ p q ~ q").unwrap();
    let infix = ExpressionParser::parse_expression("(p ^ q) -> ~q").unwrap();
    assert_eq!(rp, infix);
    // Equal trees evaluate identically under every assignment of {p, q}.
    for p in [false, true] {
        for q in [false, true] {
            let mut s = VarSet::new();
            if p {
                s.insert(Variable('p'));
            }
            if q {
                s.insert(Variable('q'));
            }
            assert_eq!(rp.eval(&s), infix.eval(&s));
            assert_eq!(rp.eval(&s), !(p && q) || !q);
        }
    }
}

#[test]
fn reverse_polish_errors() {
    assert!(RpParser::parse_expression("").is_err());
    assert!(RpParser::parse_expression("^ p").is_err());
    assert!(RpParser::parse_expression("p q").is_err());
    assert!(RpParser::parse_expression("[]p").is_err());
}
