use gottlob::parser::ExpressionParser;
use gottlob::theorem::ModalParser;

#[test]
fn display_uses_canonical_glyphs() {
    let e = ExpressionParser::parse_expression("p ^ q -> p").unwrap();
    assert_eq!(e.display(), "((p ∧ q) → p)");
    let e = ExpressionParser::parse_expression("p v ~p").unwrap();
    assert_eq!(e.display(), "(p ∨ ¬p)");
    let e = ExpressionParser::parse_expression("~(p ^ q) <-> (~p v ~q)").unwrap();
    assert_eq!(e.display(), "(¬(p ∧ q) ↔ (¬p ∨ ¬q))");
}

#[test]
fn display_flattens_left_nested_chains() {
    let e = ExpressionParser::parse_expression("a ^ b ^ c").unwrap();
    assert_eq!(e.display(), "(a ∧ b ∧ c)");
    let e = ExpressionParser::parse_expression("a v b v c").unwrap();
    assert_eq!(e.display(), "(a ∨ b ∨ c)");
    let e = ExpressionParser::parse_expression("a <-> b <-> c").unwrap();
    assert_eq!(e.display(), "(a ↔ b ↔ c)");
    // The conditional is binary, never flattened; it nests to the right.
    let e = ExpressionParser::parse_expression("a -> b -> c").unwrap();
    assert_eq!(e.display(), "(a → (b → c))");
}

#[test]
fn display_of_negations() {
    let e = ExpressionParser::parse_expression("~~p").unwrap();
    assert_eq!(e.display(), "¬¬p");
    let e = ModalParser::parse_expression("~[]p").unwrap();
    assert_eq!(e.display(), "¬(◻p)");
    let e = ModalParser::parse_expression("[]~p ^ <>q").unwrap();
    assert_eq!(e.display(), "(◻¬p ∧ ◇q)");
}

#[test]
fn parse_display_round_trip() {
    for text in [
        "p",
        "(p)",
        "~~p",
        "a ^ b ^ c",
        "a v b v c",
        "a <-> b <-> c",
        "a -> b -> c",
        "a ^ b v c -> d <-> e",
        "~(p ^ q) <-> (~p v ~q)",
    ] {
        let e = ExpressionParser::parse_expression(text).unwrap();
        let printed = e.display();
        let reparsed = ExpressionParser::parse_expression(&printed).unwrap();
        assert_eq!(reparsed, e, "round trip through {:?}", printed);
    }
    for text in ["[]p ^ <>q", "~[]p", "[](p -> q) -> ([]p -> []q)"] {
        let e = ModalParser::parse_expression(text).unwrap();
        let printed = e.display();
        let reparsed = ModalParser::parse_expression(&printed).unwrap();
        assert_eq!(reparsed, e, "round trip through {:?}", printed);
    }
}
