use gottlob::expression::Expression;
use gottlob::theorem::{ModalParser, Theorem};

#[test]
fn test_parse_theorem() {
    ModalParser::parse_theorem("p,q|-p^q").unwrap();
    ModalParser::parse_theorem("p, q |- p ^ q").unwrap();
    ModalParser::parse_theorem("[]p, []q |- [](p ^ q)").unwrap();
}

#[test]
fn sequent_structure() {
    let p = ModalParser::parse_expression("p").unwrap();
    let q = ModalParser::parse_expression("q").unwrap();
    let pq = ModalParser::parse_expression("p ^ q").unwrap();

    for text in ["p,q|-p^q", "p, q |- p ^ q"] {
        match ModalParser::parse_theorem(text).unwrap() {
            Theorem::Proves {
                assumptions,
                conclusion,
            } => {
                assert_eq!(assumptions, vec![
                    ModalParser::parse_expression("p").unwrap(),
                    ModalParser::parse_expression("q").unwrap()
                ]);
                assert_eq!(conclusion, pq);
            }
            Theorem::DoesNotProve { .. } => panic!("expected a proves judgment"),
        }
    }
    assert_eq!(p, ModalParser::parse_expression("p").unwrap());
    assert_eq!(q, ModalParser::parse_expression("q").unwrap());

    match ModalParser::parse_theorem("[]p, []q |- [](p ^ q)").unwrap() {
        Theorem::Proves {
            assumptions,
            conclusion,
        } => {
            assert_eq!(assumptions, vec![
                ModalParser::parse_expression("[]p").unwrap(),
                ModalParser::parse_expression("[]q").unwrap()
            ]);
            assert_eq!(conclusion, ModalParser::parse_expression("[](p ^ q)").unwrap());
        }
        Theorem::DoesNotProve { .. } => panic!("expected a proves judgment"),
    }
}

#[test]
fn bare_expression_is_a_sequent() {
    match ModalParser::parse_theorem("p -> p").unwrap() {
        Theorem::Proves {
            assumptions,
            conclusion,
        } => {
            assert!(assumptions.is_empty());
            assert_eq!(conclusion, ModalParser::parse_expression("p -> p").unwrap());
        }
        Theorem::DoesNotProve { .. } => panic!("a bare expression implies a proves judgment"),
    }
}

#[test]
fn does_not_prove_judgment() {
    match ModalParser::parse_theorem("p ⊬ q").unwrap() {
        Theorem::DoesNotProve {
            assumptions,
            conclusion,
        } => {
            assert_eq!(assumptions.len(), 1);
            assert_eq!(conclusion, ModalParser::parse_expression("q").unwrap());
        }
        Theorem::Proves { .. } => panic!("expected a does-not-prove judgment"),
    }
}

#[test]
fn sequent_display() {
    let t = ModalParser::parse_theorem("p, q |- p ^ q").unwrap();
    assert_eq!(t.display(), "p, q ⊢ (p ∧ q)");
    let t = ModalParser::parse_theorem("p ⊬ q").unwrap();
    assert_eq!(t.display(), "p ⊬ q");
    let t = ModalParser::parse_theorem("p -> p").unwrap();
    assert_eq!(t.display(), " ⊢ (p → p)");
}

#[test]
fn sequent_errors() {
    assert!(ModalParser::parse_theorem("").is_err());
    assert!(ModalParser::parse_theorem("p, q").is_err());
    assert!(ModalParser::parse_theorem("p |- q |- r").is_err());
    assert!(ModalParser::parse_theorem("p, |- q").is_err());
}

#[test]
fn conclusion_follows_last_judgment_token() {
    // Everything before the judgment is an assumption, in written order.
    match ModalParser::parse_theorem("a, b, c |- d").unwrap() {
        Theorem::Proves {
            assumptions,
            conclusion,
        } => {
            let expected: Vec<Expression> = ["a", "b", "c"]
                .iter()
                .map(|t| ModalParser::parse_expression(t).unwrap())
                .collect();
            assert_eq!(assumptions, expected);
            assert_eq!(conclusion, ModalParser::parse_expression("d").unwrap());
        }
        Theorem::DoesNotProve { .. } => panic!("expected a proves judgment"),
    }
}
