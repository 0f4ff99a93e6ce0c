use gottlob::logic::{ClassicalLogic, Logic, ModalLogic};

#[test]
fn names() {
    assert_eq!(ClassicalLogic.name(), "Classical");
    assert_eq!(ModalLogic.name(), "Modal Logic");
}

#[test]
fn classical_verdicts() {
    assert_eq!(
        ClassicalLogic.is_valid_theorem("p v ~p").unwrap(),
        ("(p ∨ ¬p)".to_string(), true)
    );
    assert_eq!(
        ClassicalLogic.is_valid_theorem("p ^ q").unwrap(),
        ("(p ∧ q)".to_string(), false)
    );
    assert_eq!(
        ClassicalLogic.is_valid_theorem("~(p ^ q) <-> (~p v ~q)").unwrap(),
        ("(¬(p ∧ q) ↔ (¬p ∨ ¬q))".to_string(), true)
    );
}

#[test]
fn classical_falls_back_to_reverse_polish() {
    assert_eq!(
        ClassicalLogic.is_valid_theorem("-> ^ p q p").unwrap(),
        ("((p ∧ q) → p)".to_string(), true)
    );
    assert_eq!(
        ClassicalLogic.is_valid_theorem("^ p q").unwrap(),
        ("(p ∧ q)".to_string(), false)
    );
}

#[test]
fn classical_rejects_nonsense() {
    assert!(ClassicalLogic.is_valid_theorem("").is_err());
    assert!(ClassicalLogic.is_valid_theorem("p ^ ^ q").is_err());
    assert!(ClassicalLogic.is_valid_theorem("p |- q").is_err());
}

#[test]
fn modal_judges_every_sequent_valid() {
    // Modal validity checking is not implemented: every sequent that
    // parses is reported valid, whatever it claims.
    assert_eq!(
        ModalLogic.is_valid_theorem("p, q |- p ^ q").unwrap(),
        ("p, q ⊢ (p ∧ q)".to_string(), true)
    );
    assert_eq!(
        ModalLogic.is_valid_theorem("p |- q").unwrap(),
        ("p ⊢ q".to_string(), true)
    );
    assert_eq!(
        ModalLogic.is_valid_theorem("p ⊬ q").unwrap(),
        ("p ⊬ q".to_string(), true)
    );
}

#[test]
fn modal_rejects_nonsense() {
    assert!(ModalLogic.is_valid_theorem("").is_err());
    assert!(ModalLogic.is_valid_theorem("p, q").is_err());
    assert!(ModalLogic.is_valid_theorem("|-").is_err());
}
