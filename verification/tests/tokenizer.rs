use truth_table::tokenizer::{Token, Tokens};

#[test]
fn tokenizer_implication() {
    let s = "a -> b";
    assert_eq!(
        Tokens::from_text(s).tokens,
        vec![Token::Ident('a'), Token::Implication('→'), Token::Ident('b')]
    );
}

#[test]
fn equals() {
    let s = "a == b";
    assert_eq!(
        Tokens::from_text(s).tokens,
        vec![Token::Ident('a'), Token::Equals('≡'), Token::Ident('b')]
    );
}

#[test]
fn not_equals() {
    let s = "a != b";
    assert_eq!(
        Tokens::from_text(s).tokens,
        vec![Token::Ident('a'), Token::NotEquals('≠'), Token::Ident('b')]
    );
}

#[test]
fn tokenizer_not() {
    let s = "(not a)";
    let tokens = Tokens::from_text(s).tokens;
    assert_eq!(
        tokens,
        vec![Token::OpenParen, Token::Not('¬'), Token::Ident('a'), Token::CloseParen]
    );
}

#[test]
fn tokenizer_and() {
    let symbols = ["and", "&", "&&", "∧"];
    for s in symbols {
        let expr = format!("a {} b", s);
        let tokens = Tokens::from_text(&expr).tokens;
        assert_eq!(
            tokens,
            vec![Token::Ident('a'), Token::And('∧'), Token::Ident('b')]
        );
    }
}

#[test]
fn tokenizer_or() {
    let symbols = ["or", "|", "||", "∨"];
    for s in symbols {
        let expr = format!("a {} b", s);
        let tokens = Tokens::from_text(&expr).tokens;
        assert_eq!(
            tokens,
            vec![Token::Ident('a'), Token::Or('∨'), Token::Ident('b')]
        );
    }
}

fn lexed(text: &str) -> Vec<Token> {
    Tokens::from_text(text).tokens
}

#[test]
fn every_spelling_of_each_operator_gives_its_canonical_token() {
    for s in ["not", "!", "¬", "∼", "~"] {
        assert_eq!(lexed(s), vec![Token::Not('¬')], "{}", s);
    }
    for s in ["->", "=>", "⇒", "→", "⊃"] {
        assert_eq!(lexed(s), vec![Token::Implication('→')], "{}", s);
    }
    for s in ["<->", "<=>", "⇔", "↔", "iff", "xnor"] {
        assert_eq!(lexed(s), vec![Token::Biconditional('↔')], "{}", s);
    }
    for s in ["and", "&", "&&", "∧"] {
        assert_eq!(lexed(s), vec![Token::And('∧')], "{}", s);
    }
    for s in ["or", "|", "||", "∨"] {
        assert_eq!(lexed(s), vec![Token::Or('∨')], "{}", s);
    }
    for s in ["xor", "⊕"] {
        assert_eq!(lexed(s), vec![Token::XOr('⊕')], "{}", s);
    }
    for s in ["=", "==", "eq", "≡"] {
        assert_eq!(lexed(s), vec![Token::Equals('≡')], "{}", s);
    }
    for s in ["!=", "≠"] {
        assert_eq!(lexed(s), vec![Token::NotEquals('≠')], "{}", s);
    }
    for s in ["0", "false", "False"] {
        assert_eq!(lexed(s), vec![Token::False], "{}", s);
    }
    for s in ["1", "true", "True"] {
        assert_eq!(lexed(s), vec![Token::True], "{}", s);
    }
}

#[test]
fn brackets_of_all_three_kinds() {
    assert_eq!(
        lexed("([{}])"),
        vec![
            Token::OpenParen,
            Token::OpenBracket,
            Token::OpenCurlyBrace,
            Token::CloseCurlyBrace,
            Token::CloseBracket,
            Token::CloseParen
        ]
    );
}

#[test]
fn the_longest_spelling_wins() {
    assert_eq!(
        lexed("a<->b"),
        vec![Token::Ident('a'), Token::Biconditional('↔'), Token::Ident('b')]
    );
    assert_eq!(
        lexed("a<=>b"),
        vec![Token::Ident('a'), Token::Biconditional('↔'), Token::Ident('b')]
    );
    assert_eq!(lexed("&&&"), vec![Token::And('∧'), Token::And('∧')]);
    assert_eq!(lexed("==="), vec![Token::Equals('≡'), Token::Equals('≡')]);
    assert_eq!(lexed("!=="), vec![Token::NotEquals('≠'), Token::Equals('≡')]);
    assert_eq!(lexed("!!"), vec![Token::Not('¬'), Token::Not('¬')]);
    assert_eq!(lexed("==>"), vec![Token::Equals('≡')]);
}

#[test]
fn a_word_that_only_starts_like_a_keyword_is_an_identifier() {
    assert_eq!(lexed("nota"), vec![Token::Ident('n')]);
    assert_eq!(lexed("andy"), vec![Token::Ident('a')]);
    assert_eq!(lexed("orb"), vec![Token::Ident('o')]);
    assert_eq!(lexed("truely"), vec![Token::Ident('t')]);
    assert_eq!(lexed("falsehood"), vec![Token::Ident('f')]);
    assert_eq!(lexed("xnors"), vec![Token::Ident('x')]);
    assert_eq!(lexed("TRUE"), vec![Token::Ident('T')]);
    assert_eq!(lexed("no"), vec![Token::Ident('n')]);
}

#[test]
fn a_word_of_several_letters_collapses_to_its_first() {
    assert_eq!(
        lexed("foo and foo2"),
        vec![Token::Ident('f'), Token::And('∧'), Token::Ident('f')]
    );
    assert_eq!(lexed("a1"), vec![Token::Ident('a'), Token::True]);
    assert_eq!(lexed("xor1"), vec![Token::XOr('⊕'), Token::True]);
    assert_eq!(lexed("10"), vec![Token::True, Token::False]);
}

#[test]
fn what_starts_no_lexeme_is_skipped_one_character_at_a_time() {
    assert_eq!(lexed("  a \t\n b  "), vec![Token::Ident('a'), Token::Ident('b')]);
    assert_eq!(lexed("a, b; c."), vec![Token::Ident('a'), Token::Ident('b'), Token::Ident('c')]);
    assert_eq!(lexed("<=a"), vec![Token::Equals('≡'), Token::Ident('a')]);
    assert_eq!(lexed("<-a"), vec![Token::Ident('a')]);
    assert_eq!(lexed("<a"), vec![Token::Ident('a')]);
    assert_eq!(lexed("-a"), vec![Token::Ident('a')]);
    assert_eq!(lexed("<-->"), vec![Token::Implication('→')]);
    assert_eq!(lexed("∀é 23"), vec![]);
    assert_eq!(lexed("<"), vec![]);
    assert_eq!(lexed("<-"), vec![]);
}

#[test]
fn the_empty_text_has_no_tokens() {
    assert_eq!(lexed(""), vec![]);
}

#[test]
fn enclose_puts_one_token_on_either_side() {
    let mut tokens = Tokens::from_text("a");
    tokens.enclose(Token::OpenBracket, Token::CloseBracket);
    assert_eq!(
        tokens.tokens,
        vec![Token::OpenBracket, Token::Ident('a'), Token::CloseBracket]
    );
    let mut empty = Tokens::from_text("");
    empty.enclose(Token::True, Token::False);
    assert_eq!(empty.tokens, vec![Token::True, Token::False]);
}

#[test]
fn a_stream_as_text() {
    let tokens = Tokens::from_text("(p and not q) <-> [p -> {1 or 0}]");
    assert_eq!(tokens.to_text(), "(p ∧  ¬ q) ↔ [p → {1 ∨ 0}]");
    assert_eq!(Tokens::from_text("").to_text(), "");
    assert_eq!(Tokens::from_text("a xor b = c != d").to_text(), "a ⊕ b ≡ c ≠ d");
}

#[test]
fn a_truth_value_as_token_and_back() {
    assert_eq!(Token::from(true), Token::True);
    assert_eq!(Token::from(false), Token::False);
    let yes: bool = Token::True.into();
    let no: bool = Token::False.into();
    let other: bool = Token::Ident('a').into();
    assert!(yes);
    assert!(!no);
    assert!(!other);
    assert!(!bool::from(Token::OpenParen));
}
