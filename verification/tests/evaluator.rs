use indexmap::IndexMap;
use truth_table::error::{ErrorKind, EvaluatorError, GroupKind};
use truth_table::evaluator::{get_operands_count, get_priority, Evaluator, Operand};
use truth_table::tokenizer::{Token, Tokens};

#[test]
fn evaluator_not() {
    let symbols = ["not", "¬", "!", "∼"];
    for s in symbols {
        let expr = format!("{} a", s);
        let tokens = Tokens::from_text(&expr);
        let evaluator = Evaluator::new(tokens).unwrap();
        let mut values = IndexMap::<char, bool>::new();
        values.insert('a', true);
        let result = evaluator.evaluate(&values).unwrap();
        assert_eq!(result.get("¬a").unwrap(), &false);
    }
}

fn check(evaluator: &Evaluator, a: bool, b: bool, expect: bool, expr: &str) {
    let mut values = IndexMap::<char, bool>::new();
    values.insert('a', a);
    values.insert('b', b);
    let result = evaluator.evaluate(&values).unwrap();
    assert_eq!(result.get(expr).unwrap(), &expect);
}

#[test]
fn evaluator_and() {
    let symbols = ["and", "&", "&&", "∧"];
    for s in symbols {
        let expr = format!("a {} b", s);
        let tokens = Tokens::from_text(&expr);
        let evaluator = Evaluator::new(tokens).unwrap();
        let expr = "(a ∧ b)";
        check(&evaluator, true, true, true, &expr);
        check(&evaluator, true, false, false, &expr);
        check(&evaluator, false, true, false, &expr);
        check(&evaluator, false, false, false, &expr);
    }
}

#[test]
fn evaluator_or() {
    let symbols = ["or", "|", "||", "∨"];
    for s in symbols {
        let expr = format!("a {} b", s);
        let tokens = Tokens::from_text(&expr);
        let evaluator = Evaluator::new(tokens).unwrap();
        let expr = "(a ∨ b)";
        check(&evaluator, true, true, true, &expr);
        check(&evaluator, true, false, true, &expr);
        check(&evaluator, false, true, true, &expr);
        check(&evaluator, false, false, false, &expr);
    }
}

#[test]
fn xor() {
    let symbols = ["xor", "⊕"];
    for s in symbols {
        let expr = format!("a {} b", s);
        let tokens = Tokens::from_text(&expr);
        let evaluator = Evaluator::new(tokens).unwrap();
        let expr = "(a ⊕ b)";
        check(&evaluator, true, true, false, &expr);
        check(&evaluator, true, false, true, &expr);
        check(&evaluator, false, true, true, &expr);
        check(&evaluator, false, false, false, &expr);
    }
}

#[test]
fn evaluator_implication() {
    let symbols = ["->", "=>", "⇒", "→", "⊃"];
    for s in symbols {
        let expr = format!("a {} b", s);
        let tokens = Tokens::from_text(&expr);
        let evaluator = Evaluator::new(tokens).unwrap();
        let expr = "(a → b)";
        check(&evaluator, true, true, true, &expr);
        check(&evaluator, true, false, false, &expr);
        check(&evaluator, false, true, true, &expr);
        check(&evaluator, false, false, true, &expr);
    }
}

#[test]
fn biconditional() {
    let symbols = ["<->", "<=>", "⇔", "↔", "iff", "xnor"];
    for s in symbols {
        let expr = format!("a {} b", s);
        let tokens = Tokens::from_text(&expr);
        let evaluator = Evaluator::new(tokens).unwrap();
        let expr = "(a ↔ b)";
        check(&evaluator, true, true, true, &expr);
        check(&evaluator, true, false, false, &expr);
        check(&evaluator, false, true, false, &expr);
        check(&evaluator, false, false, true, &expr);
    }
}

fn evaluator_of(text: &str) -> Evaluator {
    Evaluator::new(Tokens::from_text(text)).unwrap()
}

fn refusal(text: &str) -> ErrorKind {
    match Evaluator::new(Tokens::from_text(text)) {
        Ok(_) => panic!("{} was accepted", text),
        Err(error) => error.kind,
    }
}

fn assignment(entries: &[(char, bool)]) -> IndexMap<char, bool> {
    let mut values = IndexMap::<char, bool>::new();
    for (name, value) in entries {
        values.insert(*name, *value);
    }
    values
}

fn columns(text: &str, entries: &[(char, bool)]) -> Vec<(String, bool)> {
    let result = evaluator_of(text).evaluate(&assignment(entries)).unwrap();
    result.into_iter().collect()
}

fn named(name: &str, value: bool) -> (String, bool) {
    (name.to_string(), value)
}

#[test]
fn equality_and_inequality_tables() {
    for (a, b) in [(true, true), (true, false), (false, true), (false, false)] {
        assert_eq!(
            columns("a == b", &[('a', a), ('b', b)]),
            vec![named("(a ≡ b)", a == b)]
        );
        assert_eq!(
            columns("a != b", &[('a', a), ('b', b)]),
            vec![named("(a ≠ b)", a != b)]
        );
    }
}

#[test]
fn negation_table() {
    assert_eq!(columns("not a", &[('a', true)]), vec![named("¬a", false)]);
    assert_eq!(columns("not a", &[('a', false)]), vec![named("¬a", true)]);
}

#[test]
fn names_keep_the_order_of_the_text() {
    assert_eq!(
        columns("a and b", &[('a', true), ('b', false)]),
        vec![named("(a ∧ b)", false)]
    );
    assert_eq!(
        columns("b -> a", &[('a', true), ('b', false)]),
        vec![named("(b → a)", true)]
    );
}

#[test]
fn an_empty_stream_is_refused() {
    assert_eq!(refusal(""), ErrorKind::EmptyExpression);
    assert_eq!(refusal("  , ; "), ErrorKind::EmptyExpression);
}

#[test]
fn brackets_that_do_not_pair_up_are_refused() {
    assert_eq!(refusal("(a and b"), ErrorKind::UnbalancedGroup(GroupKind::Paren));
    assert_eq!(refusal("a and b)"), ErrorKind::UnbalancedGroup(GroupKind::Paren));
    assert_eq!(refusal("[a and b"), ErrorKind::UnbalancedGroup(GroupKind::Bracket));
    assert_eq!(refusal("a and b}"), ErrorKind::UnbalancedGroup(GroupKind::Brace));
    assert_eq!(refusal("{a"), ErrorKind::UnbalancedGroup(GroupKind::Brace));
}

#[test]
fn each_kind_of_bracket_is_counted_on_its_own() {
    assert_eq!(refusal("[a and b)"), ErrorKind::UnbalancedGroup(GroupKind::Paren));
    assert_eq!(refusal("(a and b]"), ErrorKind::UnbalancedGroup(GroupKind::Paren));
    assert_eq!(refusal("{a and b]"), ErrorKind::UnbalancedGroup(GroupKind::Bracket));
    assert!(Evaluator::new(Tokens::from_text("([a and b)]")).is_ok());
    assert!(Evaluator::new(Tokens::from_text("{(a} or b)")).is_ok());
}

#[test]
fn a_bracket_closed_before_it_was_opened_is_refused() {
    assert_eq!(refusal(")a("), ErrorKind::UnbalancedGroup(GroupKind::Paren));
    assert_eq!(refusal("(a) ] b ["), ErrorKind::UnbalancedGroup(GroupKind::Bracket));
    assert_eq!(refusal("}{"), ErrorKind::UnbalancedGroup(GroupKind::Brace));
}

#[test]
fn an_identifier_without_a_value_is_an_error() {
    let evaluator = evaluator_of("a and b or c");
    assert_eq!(
        evaluator.evaluate(&assignment(&[])).unwrap_err().kind,
        ErrorKind::MissingAssignment('a')
    );
    assert_eq!(
        evaluator.evaluate(&assignment(&[('c', true), ('a', true)])).unwrap_err().kind,
        ErrorKind::MissingAssignment('b')
    );
    assert_eq!(
        evaluator.evaluate(&assignment(&[('b', true), ('a', true)])).unwrap_err().kind,
        ErrorKind::MissingAssignment('c')
    );
    assert!(evaluator
        .evaluate(&assignment(&[('z', false), ('c', true), ('b', true), ('a', true)]))
        .is_ok());
}

#[test]
fn a_missing_value_is_reported_before_an_underflow() {
    let evaluator = evaluator_of("a and");
    assert_eq!(
        evaluator.evaluate(&assignment(&[])).unwrap_err().kind,
        ErrorKind::MissingAssignment('a')
    );
}

#[test]
fn an_operator_with_too_few_operands_is_an_error() {
    for text in ["a and", "and a", "or", "not", "not not a", "(a and) or b", "a -> -> b"] {
        let evaluator = evaluator_of(text);
        let values = assignment(&[('a', true), ('b', false)]);
        assert_eq!(
            evaluator.evaluate(&values).unwrap_err().kind,
            ErrorKind::StackUnderflow,
            "{}",
            text
        );
    }
}

#[test]
fn conjunction_binds_tighter_than_disjunction() {
    let values = [('a', true), ('b', false), ('c', false)];
    assert_eq!(
        columns("a or b and c", &values),
        vec![named("(b ∧ c)", false), named("(a ∨ (b ∧ c))", true)]
    );
    assert_eq!(
        columns("a and b or c", &values),
        vec![named("(a ∧ b)", false), named("((a ∧ b) ∨ c)", false)]
    );
}

#[test]
fn negation_binds_tightest() {
    let values = [('a', true), ('b', true)];
    assert_eq!(
        columns("not a and b", &values),
        vec![named("¬a", false), named("(¬a ∧ b)", false)]
    );
    assert_eq!(
        columns("a and not b", &values),
        vec![named("¬b", false), named("(a ∧ ¬b)", false)]
    );
}

#[test]
fn the_whole_order_of_precedence() {
    let values = [('a', false), ('b', true), ('c', false), ('d', true), ('e', false), ('f', true)];
    assert_eq!(
        columns("a != b == c -> d or e and not f", &values),
        vec![
            named("¬f", false),
            named("(e ∧ ¬f)", false),
            named("(d ∨ (e ∧ ¬f))", true),
            named("(c → (d ∨ (e ∧ ¬f)))", true),
            named("(b ≡ (c → (d ∨ (e ∧ ¬f))))", true),
            named("(a ≠ (b ≡ (c → (d ∨ (e ∧ ¬f)))))", true),
        ]
    );
}

#[test]
fn operators_of_one_priority_resolve_from_the_left() {
    let values = [('a', true), ('b', false), ('c', true)];
    assert_eq!(
        columns("a -> b -> c", &values),
        vec![named("(a → b)", false), named("((a → b) → c)", true)]
    );
    assert_eq!(
        columns("a or b xor c", &values),
        vec![named("(a ∨ b)", true), named("((a ∨ b) ⊕ c)", false)]
    );
    assert_eq!(
        columns("a <-> b -> c", &values),
        vec![named("(a ↔ b)", false), named("((a ↔ b) → c)", true)]
    );
}

#[test]
fn groups_resolve_first_and_show_as_columns() {
    let values = [('a', true), ('b', false), ('c', false)];
    assert_eq!(
        columns("(a or b) and c", &values),
        vec![named("(a ∨ b)", true), named("((a ∨ b) ∧ c)", false)]
    );
    assert_eq!(
        columns("[a or b] and {c}", &values),
        vec![named("(a ∨ b)", true), named("((a ∨ b) ∧ c)", false)]
    );
}

#[test]
fn a_name_that_comes_again_keeps_its_first_place() {
    let values = [('a', true), ('b', true)];
    assert_eq!(
        columns("(a and b) or (a and b)", &values),
        vec![named("(a ∧ b)", true), named("((a ∧ b) ∨ (a ∧ b))", true)]
    );
    assert_eq!(
        columns("not a or not a", &values),
        vec![named("¬a", false), named("(¬a ∨ ¬a)", false)]
    );
}

#[test]
fn what_is_computed_from_a_literal_has_no_name() {
    assert_eq!(columns("a and 1", &[('a', true)]), vec![]);
    assert_eq!(columns("not 0", &[]), vec![]);
    assert_eq!(columns("1 and 0", &[]), vec![]);
    assert_eq!(
        columns("(a or 0) and not a", &[('a', true)]),
        vec![named("¬a", false)]
    );
}

#[test]
fn a_lone_identifier_yields_no_column() {
    assert_eq!(columns("a", &[('a', true)]), vec![]);
    assert_eq!(columns("((a))", &[('a', false)]), vec![]);
}

#[test]
fn the_same_evaluation_twice_gives_the_same_result() {
    let evaluator = evaluator_of("(p and not q) <-> (p -> q)");
    let values = assignment(&[('p', true), ('q', false)]);
    let first: Vec<(String, bool)> = evaluator.evaluate(&values).unwrap().into_iter().collect();
    let second: Vec<(String, bool)> = evaluator.evaluate(&values).unwrap().into_iter().collect();
    assert_eq!(first, second);
    assert_eq!(
        first,
        vec![
            named("¬q", true),
            named("(p ∧ ¬q)", true),
            named("(p → q)", false),
            named("((p ∧ ¬q) ↔ (p → q))", false),
        ]
    );
}

#[test]
fn overlapping_groups_are_evaluated_bracket_by_bracket() {
    assert_eq!(
        columns("([a and b)]", &[('a', true), ('b', true)]),
        vec![named("(a ∧ b)", true)]
    );
}

#[test]
fn identifiers_come_once_in_order_of_first_occurrence() {
    assert_eq!(evaluator_of("q and p or q and r").identifiers(), &vec!['q', 'p', 'r']);
    assert_eq!(evaluator_of("1 or 0").identifiers(), &Vec::<char>::new());
    assert_eq!(evaluator_of("foo and foo2").identifiers(), &vec!['f']);
}

#[test]
fn priorities_and_operand_counts() {
    assert_eq!(get_priority(&Token::Not('¬')), 0);
    assert_eq!(get_priority(&Token::And('∧')), 1);
    assert_eq!(get_priority(&Token::Or('∨')), 2);
    assert_eq!(get_priority(&Token::XOr('⊕')), 2);
    assert_eq!(get_priority(&Token::Implication('→')), 3);
    assert_eq!(get_priority(&Token::Biconditional('↔')), 3);
    assert_eq!(get_priority(&Token::Equals('≡')), 4);
    assert_eq!(get_priority(&Token::NotEquals('≠')), 5);
    for token in [
        Token::Ident('a'),
        Token::OpenParen,
        Token::CloseParen,
        Token::OpenBracket,
        Token::CloseBracket,
        Token::OpenCurlyBrace,
        Token::CloseCurlyBrace,
        Token::False,
        Token::True,
    ] {
        assert_eq!(get_priority(&token), usize::MAX);
        assert_eq!(get_operands_count(&token), 0);
    }
    assert_eq!(get_operands_count(&Token::Not('¬')), 1);
    for token in [
        Token::And('∧'),
        Token::Or('∨'),
        Token::XOr('⊕'),
        Token::Implication('→'),
        Token::Biconditional('↔'),
        Token::Equals('≡'),
        Token::NotEquals('≠'),
    ] {
        assert_eq!(get_operands_count(&token), 2);
    }
}

fn operand(label: Option<&str>, value: bool) -> Operand {
    Operand { label: label.map(|name| name.to_string()), value }
}

#[test]
fn an_operator_takes_its_operands_from_the_top() {
    let mut stack = vec![operand(Some("x"), true), operand(Some("a"), true), operand(Some("b"), false)];
    assert!(Evaluator::evaluate_operator(Token::Implication('→'), &mut stack).is_ok());
    assert_eq!(stack.len(), 2);
    assert_eq!(stack[0].label.as_deref(), Some("x"));
    assert_eq!(stack[1].label.as_deref(), Some("(a → b)"));
    assert!(!stack[1].value);
    assert!(Evaluator::evaluate_operator(Token::Not('~'), &mut stack).is_ok());
    assert_eq!(stack.len(), 2);
    assert_eq!(stack[1].label.as_deref(), Some("~(a → b)"));
    assert!(stack[1].value);
}

#[test]
fn a_nameless_operand_leaves_the_result_nameless() {
    let mut stack = vec![operand(Some("a"), true), operand(None, true)];
    assert!(Evaluator::evaluate_operator(Token::And('∧'), &mut stack).is_ok());
    assert_eq!(stack.len(), 1);
    assert_eq!(stack[0].label, None);
    assert!(stack[0].value);
    let mut stack = vec![operand(None, false)];
    assert!(Evaluator::evaluate_operator(Token::Not('¬'), &mut stack).is_ok());
    assert_eq!(stack.len(), 1);
    assert_eq!(stack[0].label, None);
    assert!(stack[0].value);
}

#[test]
fn too_few_operands_leave_the_stack_as_it_was() {
    let mut stack = vec![operand(Some("a"), true)];
    assert_eq!(
        Evaluator::evaluate_operator(Token::Or('∨'), &mut stack),
        Err(EvaluatorError { kind: ErrorKind::StackUnderflow })
    );
    assert_eq!(stack.len(), 1);
    assert_eq!(stack[0].label.as_deref(), Some("a"));
    let mut empty: Vec<Operand> = Vec::new();
    assert!(Evaluator::evaluate_operator(Token::Not('¬'), &mut empty).is_err());
    assert!(Evaluator::evaluate_operator(Token::OpenParen, &mut stack).is_err());
    assert_eq!(stack.len(), 1);
}

#[test]
fn every_kind_of_error_has_its_message() {
    assert_eq!(
        EvaluatorError { kind: ErrorKind::EmptyExpression }.message(),
        "Empty expression."
    );
    assert_eq!(
        EvaluatorError { kind: ErrorKind::UnbalancedGroup(GroupKind::Bracket) }.message(),
        "mis-match parentheses"
    );
    assert_eq!(
        EvaluatorError { kind: ErrorKind::MissingAssignment('q') }.message(),
        "Please provide value for all idents."
    );
    assert_eq!(
        EvaluatorError { kind: ErrorKind::StackUnderflow }.message(),
        "An operator is missing an operand."
    );
}

#[test]
fn an_evaluation_under_chosen_values() {
    assert_eq!(
        columns("(∼ P) ∨ (∼ Q)", &[('P', false), ('Q', true)]),
        vec![named("¬P", true), named("¬Q", false), named("(¬P ∨ ¬Q)", true)]
    );
}

#[test]
fn values_of_names_that_do_not_occur_are_ignored() {
    assert_eq!(
        columns("not a", &[('z', true), ('a', false), ('y', false)]),
        vec![named("¬a", true)]
    );
}
