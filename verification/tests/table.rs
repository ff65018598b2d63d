use truth_table::evaluator::Evaluator;
use truth_table::evaluator_result::EvaluatorResult;
use truth_table::tokenizer::Tokens;

fn table_of(text: &str) -> EvaluatorResult {
    Evaluator::new(Tokens::from_text(text)).unwrap().evaluate_all().unwrap()
}

fn rows_of(text: &str) -> Vec<Vec<(String, bool)>> {
    table_of(text)
        .result
        .into_iter()
        .map(|row| row.into_iter().collect())
        .collect()
}

fn named(name: &str, value: bool) -> (String, bool) {
    (name.to_string(), value)
}

#[test]
fn a_single_identifier_has_two_rows() {
    assert_eq!(
        rows_of("a"),
        vec![vec![named("a", true)], vec![named("a", false)]]
    );
}

#[test]
fn no_identifier_means_exactly_one_row() {
    assert_eq!(rows_of("1 and 0"), vec![vec![]]);
    assert_eq!(rows_of("not true or not false"), vec![vec![]]);
}

#[test]
fn a_failing_evaluation_leaves_no_row() {
    assert_eq!(rows_of("a and"), Vec::<Vec<(String, bool)>>::new());
    assert_eq!(rows_of("and"), Vec::<Vec<(String, bool)>>::new());
    assert_eq!(rows_of("not not a"), Vec::<Vec<(String, bool)>>::new());
}

#[test]
fn two_identifiers_have_four_rows_from_all_true_to_all_false() {
    assert_eq!(
        rows_of("a and b"),
        vec![
            vec![named("a", true), named("b", true), named("(a ∧ b)", true)],
            vec![named("a", true), named("b", false), named("(a ∧ b)", false)],
            vec![named("a", false), named("b", true), named("(a ∧ b)", false)],
            vec![named("a", false), named("b", false), named("(a ∧ b)", false)],
        ]
    );
}

#[test]
fn the_leading_columns_follow_the_first_occurrences() {
    let rows = rows_of("q or p and q");
    assert_eq!(rows.len(), 4);
    assert_eq!(
        rows[1],
        vec![
            named("q", true),
            named("p", false),
            named("(p ∧ q)", false),
            named("(q ∨ (p ∧ q))", true),
        ]
    );
    assert_eq!(
        rows[2],
        vec![
            named("q", false),
            named("p", true),
            named("(p ∧ q)", false),
            named("(q ∨ (p ∧ q))", false),
        ]
    );
}

#[test]
fn n_identifiers_have_two_to_the_n_rows_and_every_assignment_once() {
    for (text, n) in [("a", 1usize), ("a or b", 2), ("a or b or c", 3), ("a or b or c or d or e", 5)] {
        let rows = rows_of(text);
        assert_eq!(rows.len(), 1 << n);
        let mut seen: Vec<Vec<bool>> = Vec::new();
        for row in &rows {
            let assignment: Vec<bool> = row.iter().take(n).map(|column| column.1).collect();
            assert_eq!(assignment.len(), n);
            assert!(!seen.contains(&assignment));
            seen.push(assignment);
        }
        assert_eq!(seen.len(), 1 << n);
    }
}

#[test]
fn the_row_index_counts_in_binary_with_the_first_identifier_highest() {
    let rows = rows_of("a or b or c");
    for (index, row) in rows.iter().enumerate() {
        assert_eq!(row[0], named("a", index & 4 == 0));
        assert_eq!(row[1], named("b", index & 2 == 0));
        assert_eq!(row[2], named("c", index & 1 == 0));
        assert_eq!(row[4].1, index != 7);
    }
}

#[test]
fn all_rows_share_their_columns() {
    let rows = rows_of("(p and not q) <-> (p -> q)");
    assert_eq!(rows.len(), 4);
    let names: Vec<&str> = rows[0].iter().map(|column| column.0.as_str()).collect();
    assert_eq!(
        names,
        vec!["p", "q", "¬q", "(p ∧ ¬q)", "(p → q)", "((p ∧ ¬q) ↔ (p → q))"]
    );
    for row in &rows {
        let other: Vec<&str> = row.iter().map(|column| column.0.as_str()).collect();
        assert_eq!(other, names);
    }
    let last: Vec<bool> = rows.iter().map(|row| row[5].1).collect();
    assert_eq!(last, vec![false, false, false, false]);
}

#[test]
fn a_tautology_is_true_in_every_row() {
    let rows = rows_of("(p and q) -> p");
    assert_eq!(rows.len(), 4);
    for row in &rows {
        assert_eq!(row.last().unwrap(), &named("((p ∧ q) → p)", true));
    }
}

#[test]
fn header_and_cells_of_a_table() {
    let table = table_of("a and b");
    assert_eq!(table.header(), vec!["a", "b", "(a ∧ b)"]);
    assert_eq!(
        table.cells(),
        vec![
            vec!["true", "true", "true"],
            vec!["true", "false", "false"],
            vec!["false", "true", "false"],
            vec!["false", "false", "false"],
        ]
    );
}

#[test]
fn header_and_cells_of_tables_without_columns_or_rows() {
    let constant = table_of("1 and 0");
    assert_eq!(constant.header(), Vec::<String>::new());
    assert_eq!(constant.cells(), vec![Vec::<String>::new()]);
    let empty = table_of("a and");
    assert_eq!(empty.header(), Vec::<String>::new());
    assert_eq!(empty.cells(), Vec::<Vec<String>>::new());
}

#[test]
fn weights_and_length_of_a_header() {
    let table = table_of("a and b");
    assert_eq!(table.column_weights(), vec![5, 5, 9]);
    assert_eq!(table.header_length(), 11);
    let wide = table_of("(p and not q) <-> (p -> q)");
    assert_eq!(wide.column_weights(), vec![5, 5, 5, 11, 9, 27]);
    assert_eq!(wide.header_length(), 1 + 1 + 3 + 11 + 9 + 27);
    let empty = table_of("a and");
    assert_eq!(empty.column_weights(), Vec::<usize>::new());
    assert_eq!(empty.header_length(), 0);
}
