//! What holds of every evaluation and of every truth table.

use crate::enumeration::{
    assignment_columns, lemma_row_assignment_lookup, row_assignment, table, table_below,
    table_row,
};
use crate::machine::{
    binary_label, evaluation, first_unassigned, identifiers, lemma_identifiers_distinct,
    operand_count, priority, recorded, result_of, run, truth, unary_label, Columns, Machine,
    NamedValue,
};
use crate::evaluator_result::names_of;
use crate::ordered::{has_key, key_index, lemma_key_index, lookup};
use crate::structure::enclosed;
use crate::tokenizer::Token;
use vstd::arithmetic::power2::pow2;
use vstd::prelude::*;

verus! {

/// Every identifier that is listed occurs in the stream, and every
/// identifier that occurs is listed.
pub proof fn lemma_identifiers_occur(tokens: Seq<Token>)
    ensures
        forall|name: char|
            identifiers(tokens).contains(name) <==> #[trigger] tokens.contains(Token::Ident(name)),
    decreases tokens.len(),
{
    if tokens.len() > 0 {
        let front = tokens.drop_last();
        lemma_identifiers_occur(front);
        let listed = identifiers(front);
        assert forall|name: char|
            identifiers(tokens).contains(name) <==> #[trigger] tokens.contains(
                Token::Ident(name),
            ) by {
            let token = Token::Ident(name);
            if tokens.contains(token) {
                let at = choose|at: int| 0 <= at < tokens.len() && tokens[at] == token;
                if at < front.len() {
                    assert(front[at] == token);
                    assert(front.contains(token));
                    assert(listed.contains(name));
                    let place = choose|place: int|
                        0 <= place < listed.len() && listed[place] == name;
                    assert(identifiers(tokens)[place] == name);
                } else {
                    assert(tokens.last() == token);
                    if listed.contains(name) {
                        assert(identifiers(tokens) == listed);
                    } else {
                        assert(identifiers(tokens) == listed.push(name));
                        assert(identifiers(tokens)[listed.len() as int] == name);
                    }
                }
                assert(identifiers(tokens).contains(name));
            }
            if identifiers(tokens).contains(name) {
                if listed.contains(name) {
                    assert(front.contains(token));
                    let at = choose|at: int| 0 <= at < front.len() && front[at] == token;
                    assert(tokens[at] == token);
                } else {
                    let place = choose|place: int|
                        0 <= place < identifiers(tokens).len() && identifiers(tokens)[place]
                            == name;
                    if place < listed.len() {
                        assert(listed[place] == name);
                    }
                    assert(tokens[tokens.len() - 1] == token);
                }
                assert(tokens.contains(token));
            }
        }
    }
}

/// Where every name has a value, none is the first without one.
pub proof fn lemma_all_assigned(names: Seq<char>, assignment: Seq<(char, bool)>)
    requires
        forall|place: int| 0 <= place < names.len() ==> has_key(assignment, #[trigger] names[place]),
    ensures
        first_unassigned(names, assignment) is None,
    decreases names.len(),
{
    if names.len() > 0 {
        assert forall|place: int| 0 <= place < names.drop_first().len() implies has_key(
            assignment,
            #[trigger] names.drop_first()[place],
        ) by {
            assert(names.drop_first()[place] == names[place + 1]);
        }
        lemma_all_assigned(names.drop_first(), assignment);
    }
}

/// Two assignments that hold the same names leave the same name first
/// without a value.
pub proof fn lemma_first_unassigned_agrees(
    names: Seq<char>,
    first: Seq<(char, bool)>,
    second: Seq<(char, bool)>,
)
    requires
        forall|place: int|
            0 <= place < names.len() ==> has_key(first, #[trigger] names[place]) == has_key(
                second,
                names[place],
            ),
    ensures
        first_unassigned(names, first) == first_unassigned(names, second),
    decreases names.len(),
{
    if names.len() > 0 {
        assert(has_key(first, names[0]) == has_key(second, names[0]));
        assert forall|place: int| 0 <= place < names.drop_first().len() implies has_key(
            first,
            #[trigger] names.drop_first()[place],
        ) == has_key(second, names.drop_first()[place]) by {
            assert(names.drop_first()[place] == names[place + 1]);
        }
        lemma_first_unassigned_agrees(names.drop_first(), first, second);
    }
}

/// The two assignments give every identifier of the stream the same value,
/// or both none.
pub open spec fn agree_on(
    tokens: Seq<Token>,
    first: Seq<(char, bool)>,
    second: Seq<(char, bool)>,
) -> bool {
    forall|name: char| #[trigger]
        tokens.contains(Token::Ident(name)) ==> lookup(first, name) == lookup(second, name)
}

/// The machine takes the same course under two assignments that agree on
/// the identifiers of the stream.
pub proof fn lemma_run_agrees(
    tokens: Seq<Token>,
    first: Seq<(char, bool)>,
    second: Seq<(char, bool)>,
)
    requires
        agree_on(tokens, first, second),
    ensures
        run(tokens, first) == run(tokens, second),
    decreases tokens.len(),
{
    if tokens.len() > 0 {
        let front = tokens.drop_last();
        assert forall|name: char| #[trigger] front.contains(Token::Ident(name)) implies lookup(
            first,
            name,
        ) == lookup(second, name) by {
            let at = choose|at: int| 0 <= at < front.len() && front[at] == Token::Ident(name);
            assert(tokens[at] == Token::Ident(name));
            assert(tokens.contains(Token::Ident(name)));
        }
        lemma_run_agrees(front, first, second);
        if let Token::Ident(name) = tokens.last() {
            assert(tokens[tokens.len() - 1] == Token::Ident(name));
            assert(tokens.contains(Token::Ident(name)));
        }
    }
}

/// Evaluation is a function of the stream and of the values that the
/// assignment gives to the identifiers of the stream: under two assignments
/// that agree on these the results are the same, columns or error. In
/// particular, evaluating a stream twice under one assignment gives one
/// result.
pub proof fn lemma_evaluation_is_determined(
    tokens: Seq<Token>,
    first: Seq<(char, bool)>,
    second: Seq<(char, bool)>,
)
    requires
        agree_on(tokens, first, second),
    ensures
        evaluation(tokens, first) == evaluation(tokens, second),
{
    let names = identifiers(tokens);
    lemma_identifiers_occur(tokens);
    assert forall|place: int| 0 <= place < names.len() implies has_key(
        first,
        #[trigger] names[place],
    ) == has_key(second, names[place]) by {
        assert(names.contains(names[place]));
        assert(tokens.contains(Token::Ident(names[place])));
    }
    lemma_first_unassigned_agrees(names, first, second);
    lemma_run_agrees(tokens, first, second);
}

/// The names on an operand stack, from the bottom up.
pub open spec fn labels_of(operands: Seq<NamedValue>) -> Seq<Option<Seq<char>>> {
    operands.map_values(|operand: NamedValue| operand.label)
}

/// Two machines that differ at most in the truth values they hold: the same
/// operators wait, the operands bear the same names, and the same names
/// were written down in the same order.
pub open spec fn same_shape(first: Machine, second: Machine) -> bool {
    &&& first.operators == second.operators
    &&& labels_of(first.operands) == labels_of(second.operands)
    &&& names_of(first.columns) == names_of(second.columns)
}

/// Two runs are alike: both fail, or both end in machines of one shape.
pub open spec fn alike(first: Option<Machine>, second: Option<Machine>) -> bool {
    match (first, second) {
        (Some(one), Some(other)) => same_shape(one, other),
        (None, None) => true,
        _ => false,
    }
}

/// Where a key stands among the entries hangs only on the keys.
pub proof fn lemma_key_index_by_names(first: Columns, second: Columns, name: Seq<char>)
    requires
        names_of(first) == names_of(second),
    ensures
        key_index(first, name) == key_index(second, name),
    decreases first.len(),
{
    assert(first.len() == names_of(first).len());
    assert(second.len() == names_of(second).len());
    if first.len() > 0 {
        assert(names_of(first.drop_last()) =~= names_of(first).drop_last());
        assert(names_of(second.drop_last()) =~= names_of(second).drop_last());
        lemma_key_index_by_names(first.drop_last(), second.drop_last(), name);
        assert(first.last().0 == names_of(first).last());
        assert(second.last().0 == names_of(second).last());
    }
}

proof fn lemma_recorded_alike(
    first: Columns,
    second: Columns,
    one: NamedValue,
    other: NamedValue,
)
    requires
        names_of(first) == names_of(second),
        one.label == other.label,
    ensures
        names_of(recorded(first, one)) == names_of(recorded(second, other)),
{
    assert(first.len() == names_of(first).len());
    assert(second.len() == names_of(second).len());
    if let Some(name) = one.label {
        lemma_key_index_by_names(first, second, name);
        lemma_key_index(first, name);
        lemma_key_index(second, name);
        if has_key(first, name) {
            assert(names_of(recorded(first, one)) =~= names_of(first));
            assert(names_of(recorded(second, other)) =~= names_of(second));
        } else {
            assert(names_of(recorded(first, one)) =~= names_of(first).push(name));
            assert(names_of(recorded(second, other)) =~= names_of(second).push(name));
        }
    }
}

proof fn lemma_resolved_alike(first: Machine, second: Machine)
    requires
        same_shape(first, second),
        first.operators.len() > 0,
    ensures
        alike(first.resolved(), second.resolved()),
{
    let operator = first.operators.last();
    assert(first.operands.len() == labels_of(first.operands).len());
    assert(second.operands.len() == labels_of(second.operands).len());
    if first.resolved() is Some {
        let one = result_of(operator, first.operands);
        let other = result_of(operator, second.operands);
        let count = first.operands.len();
        assert(first.operands[count - 1].label == labels_of(first.operands)[count - 1]);
        assert(second.operands[count - 1].label == labels_of(second.operands)[count - 1]);
        if operand_count(operator) == 2 {
            assert(first.operands[count - 2].label == labels_of(first.operands)[count - 2]);
            assert(second.operands[count - 2].label == labels_of(second.operands)[count - 2]);
        }
        assert(one.label == other.label);
        let kept = count - operand_count(operator);
        assert(labels_of(first.operands.take(kept).push(one)) =~= labels_of(
            first.operands,
        ).take(kept).push(one.label));
        assert(labels_of(second.operands.take(kept).push(other)) =~= labels_of(
            second.operands,
        ).take(kept).push(other.label));
        assert(first.resolved().unwrap().operands.last() == one);
        assert(second.resolved().unwrap().operands.last() == other);
        lemma_recorded_alike(first.columns, second.columns, one, other);
    }
}

proof fn lemma_closed_alike(first: Machine, second: Machine)
    requires
        same_shape(first, second),
    ensures
        alike(first.closed(), second.closed()),
    decreases first.operators.len(),
{
    if first.operators.len() > 0 && !first.operators.last().is_open() {
        lemma_resolved_alike(first, second);
        if first.resolved() is Some {
            lemma_closed_alike(first.resolved().unwrap(), second.resolved().unwrap());
        }
    }
}

proof fn lemma_yielded_alike(first: Machine, second: Machine, operator: Token)
    requires
        same_shape(first, second),
    ensures
        alike(first.yielded(operator), second.yielded(operator)),
    decreases first.operators.len(),
{
    if first.operators.len() > 0 && priority(first.operators.last()) <= priority(operator) {
        lemma_resolved_alike(first, second);
        if first.resolved() is Some {
            lemma_yielded_alike(first.resolved().unwrap(), second.resolved().unwrap(), operator);
        }
    }
}

/// What the machine does with a stream does not hang on the values: under
/// any two assignments it fails on the same streams, and where it does not
/// fail it ends with the same operators waiting, the same names on its
/// operands and the same names written down.
pub proof fn lemma_run_alike(
    tokens: Seq<Token>,
    first: Seq<(char, bool)>,
    second: Seq<(char, bool)>,
)
    ensures
        alike(run(tokens, first), run(tokens, second)),
    decreases tokens.len(),
{
    if tokens.len() > 0 {
        lemma_run_alike(tokens.drop_last(), first, second);
        if let Some(one) = run(tokens.drop_last(), first) {
            let other = run(tokens.drop_last(), second).unwrap();
            let token = tokens.last();
            if token.is_close() {
                lemma_closed_alike(one, other);
            } else if token.is_operator() {
                lemma_yielded_alike(one, other, token);
            } else if token.is_open() {
            } else {
                let pushed = one.stepped(token, first).unwrap().operands.last();
                let twin = other.stepped(token, second).unwrap().operands.last();
                assert(pushed.label == twin.label);
                assert(labels_of(one.operands.push(pushed)) =~= labels_of(one.operands).push(
                    pushed.label,
                ));
                assert(labels_of(other.operands.push(twin)) =~= labels_of(other.operands).push(
                    twin.label,
                ));
            }
        }
    }
}

/// The stream can be evaluated: no operator in it finds too few operands.
pub open spec fn evaluates(tokens: Seq<Token>) -> bool {
    run(tokens, Seq::empty()) is Some
}

/// Every row of a table stands for an assignment that gives each identifier
/// of the stream a value, so its evaluation fails only where every
/// evaluation of the stream fails.
pub proof fn lemma_table_row(tokens: Seq<Token>, index: nat)
    ensures
        table_row(tokens, index) is Some <==> evaluates(tokens),
{
    let names = identifiers(tokens);
    let assignment = row_assignment(names, index);
    lemma_identifiers_distinct(tokens);
    assert forall|place: int| 0 <= place < names.len() implies has_key(
        assignment,
        #[trigger] names[place],
    ) by {
        lemma_row_assignment_lookup(names, index, place);
    }
    lemma_all_assigned(names, assignment);
    lemma_run_alike(tokens, assignment, Seq::empty());
}

/// All rows of a table have the same columns: the names in any two rows are
/// the same, in the same order.
pub proof fn lemma_rows_share_names(tokens: Seq<Token>, first: nat, second: nat)
    requires
        evaluates(tokens),
    ensures
        table_row(tokens, first) is Some,
        table_row(tokens, second) is Some,
        names_of(table_row(tokens, first).unwrap()) == names_of(
            table_row(tokens, second).unwrap(),
        ),
{
    lemma_table_row(tokens, first);
    lemma_table_row(tokens, second);
    let names = identifiers(tokens);
    let one = row_assignment(names, first);
    let other = row_assignment(names, second);
    lemma_run_alike(tokens, one, other);
    let left = run(tokens, one).unwrap().columns;
    let right = run(tokens, other).unwrap().columns;
    assert(left.len() == names_of(left).len());
    assert(right.len() == names_of(right).len());
    assert(names_of(assignment_columns(one) + left) =~= names_of(assignment_columns(other) + right))
        by {
        assert forall|place: int| 0 <= place < names.len() + left.len() implies names_of(
            assignment_columns(one) + left,
        )[place] == names_of(assignment_columns(other) + right)[place] by {
            if place >= names.len() {
                assert(left[place - names.len()].0 == names_of(left)[place - names.len()]);
                assert(right[place - names.len()].0 == names_of(right)[place - names.len()]);
            }
        }
    }
}

proof fn lemma_table_below(tokens: Seq<Token>, count: nat)
    ensures
        evaluates(tokens) ==> table_below(tokens, count).len() == count,
        evaluates(tokens) ==> forall|index: int|
            0 <= index < count ==> #[trigger] table_below(tokens, count)[index] == table_row(
                tokens,
                index as nat,
            ).unwrap(),
        !evaluates(tokens) ==> table_below(tokens, count).len() == 0,
    decreases count,
{
    if count > 0 {
        lemma_table_below(tokens, (count - 1) as nat);
        lemma_table_row(tokens, (count - 1) as nat);
    }
}

/// A stream of n identifiers that can be evaluated has a table of two to
/// the power of n rows, one for each index below that number and in the
/// order of the indices; a stream without identifiers has one row. A stream
/// that cannot be evaluated has a table without rows.
pub proof fn lemma_table_rows(tokens: Seq<Token>)
    ensures
        evaluates(tokens) ==> table(tokens).len() == pow2(identifiers(tokens).len()),
        evaluates(tokens) ==> forall|index: int|
            0 <= index < pow2(identifiers(tokens).len()) ==> #[trigger] table(tokens)[index]
                == table_row(tokens, index as nat).unwrap(),
        evaluates(tokens) && identifiers(tokens).len() == 0 ==> table(tokens).len() == 1,
        !evaluates(tokens) ==> table(tokens).len() == 0,
{
    lemma_table_below(tokens, pow2(identifiers(tokens).len()));
    vstd::arithmetic::power2::lemma2_to64();
}

/// The tables of the operators, spelled out: a conjunction is true where
/// both operands are, a disjunction where one is, an exclusive or and an
/// inequality where exactly one is, an implication everywhere but from true
/// to false, a biconditional and an equality where both are alike, and a
/// negation where its operand is false.
pub proof fn lemma_truth_tables(symbol: char)
    ensures
        truth(Token::And(symbol), true, true),
        !truth(Token::And(symbol), true, false),
        !truth(Token::And(symbol), false, true),
        !truth(Token::And(symbol), false, false),
        truth(Token::Or(symbol), true, true),
        truth(Token::Or(symbol), true, false),
        truth(Token::Or(symbol), false, true),
        !truth(Token::Or(symbol), false, false),
        !truth(Token::XOr(symbol), true, true),
        truth(Token::XOr(symbol), true, false),
        truth(Token::XOr(symbol), false, true),
        !truth(Token::XOr(symbol), false, false),
        truth(Token::Implication(symbol), true, true),
        !truth(Token::Implication(symbol), true, false),
        truth(Token::Implication(symbol), false, true),
        truth(Token::Implication(symbol), false, false),
        truth(Token::Biconditional(symbol), true, true),
        !truth(Token::Biconditional(symbol), true, false),
        !truth(Token::Biconditional(symbol), false, true),
        truth(Token::Biconditional(symbol), false, false),
        truth(Token::Equals(symbol), true, true),
        !truth(Token::Equals(symbol), true, false),
        !truth(Token::Equals(symbol), false, true),
        truth(Token::Equals(symbol), false, false),
        !truth(Token::NotEquals(symbol), true, true),
        truth(Token::NotEquals(symbol), true, false),
        truth(Token::NotEquals(symbol), false, true),
        !truth(Token::NotEquals(symbol), false, false),
        forall|left: bool| !#[trigger] truth(Token::Not(symbol), left, true),
        forall|left: bool| #[trigger] truth(Token::Not(symbol), left, false),
{
}

/// The value that an assignment gives to a name; false where it gives none.
pub open spec fn value_under(assignment: Seq<(char, bool)>, name: char) -> bool {
    lookup(assignment, name) == Some(true)
}

/// An expression of two identifiers and a binary operator between them
/// evaluates to one column: its name is the expression as it was written,
/// in parentheses, its value that of the operator's table on the values of
/// the two identifiers.
pub proof fn lemma_binary_expression(
    left: char,
    operator: Token,
    right: char,
    assignment: Seq<(char, bool)>,
)
    requires
        operand_count(operator) == 2,
        has_key(assignment, left),
        has_key(assignment, right),
    ensures
        evaluation(
            enclosed(seq![Token::Ident(left), operator, Token::Ident(right)]),
            assignment,
        ) == Ok::<Columns, crate::error::ErrorKind>(
            seq![
                (
                    binary_label(seq![left], operator.symbol().unwrap(), seq![right]),
                    truth(operator, value_under(assignment, left), value_under(assignment, right)),
                ),
            ],
        ),
{
    let tokens = enclosed(seq![Token::Ident(left), operator, Token::Ident(right)]);
    assert(tokens =~= seq![
        Token::OpenParen,
        Token::Ident(left),
        operator,
        Token::Ident(right),
        Token::CloseParen,
    ]);
    let names = identifiers(tokens);
    lemma_identifiers_occur(tokens);
    assert forall|place: int| 0 <= place < names.len() implies has_key(
        assignment,
        #[trigger] names[place],
    ) by {
        assert(names.contains(names[place]));
        assert(tokens.contains(Token::Ident(names[place])));
    }
    lemma_all_assigned(names, assignment);

    let first = NamedValue { label: Some(seq![left]), value: value_under(assignment, left) };
    let second = NamedValue { label: Some(seq![right]), value: value_under(assignment, right) };
    let outcome = NamedValue {
        label: Some(binary_label(seq![left], operator.symbol().unwrap(), seq![right])),
        value: truth(operator, first.value, second.value),
    };
    let none = Seq::<(Seq<char>, bool)>::empty();
    let one = Machine { operators: seq![Token::OpenParen], operands: seq![], columns: none };
    let two = Machine { operators: seq![Token::OpenParen], operands: seq![first], columns: none };
    let three = Machine {
        operators: seq![Token::OpenParen, operator],
        operands: seq![first],
        columns: none,
    };
    let four = Machine {
        operators: seq![Token::OpenParen, operator],
        operands: seq![first, second],
        columns: none,
    };
    let five = Machine {
        operators: seq![Token::OpenParen],
        operands: seq![outcome],
        columns: seq![(outcome.label.unwrap(), outcome.value)],
    };
    let six = Machine { operators: seq![], operands: five.operands, columns: five.columns };

    assert(tokens.take(0) =~= Seq::<Token>::empty());
    assert(tokens.take(1).drop_last() =~= tokens.take(0));
    assert(tokens.take(2).drop_last() =~= tokens.take(1));
    assert(tokens.take(3).drop_last() =~= tokens.take(2));
    assert(tokens.take(4).drop_last() =~= tokens.take(3));
    assert(tokens.take(5).drop_last() =~= tokens.take(4));
    assert(tokens.take(5) =~= tokens);

    assert(run(tokens.take(0), assignment) == Some(Machine::initial()));
    assert(Machine::initial().operators.push(Token::OpenParen) =~= one.operators);
    assert(run(tokens.take(1), assignment) == Some(one));
    assert(one.operands.push(first) =~= two.operands);
    assert(run(tokens.take(2), assignment) == Some(two));
    assert(two.yielded(operator) == Some(two));
    assert(two.operators.push(operator) =~= three.operators);
    assert(run(tokens.take(3), assignment) == Some(three));
    assert(three.operands.push(second) =~= four.operands);
    assert(run(tokens.take(4), assignment) == Some(four));
    assert(result_of(operator, four.operands) == outcome);
    assert(four.operands.take(0).push(outcome) =~= five.operands);
    assert(four.operators.drop_last() =~= five.operators);
    assert(recorded(none, outcome) =~= five.columns);
    assert(four.resolved() == Some(five));
    assert(five.operators.drop_last() =~= six.operators);
    assert(five.closed() == Some(six));
    assert(four.closed() == Some(six));
    assert(run(tokens.take(5), assignment) == Some(six));
}

/// The negation of an identifier evaluates to one column: its name is the
/// symbol followed by the identifier, its value the opposite of the
/// identifier's.
pub proof fn lemma_negation(symbol: char, name: char, assignment: Seq<(char, bool)>)
    requires
        has_key(assignment, name),
    ensures
        evaluation(enclosed(seq![Token::Not(symbol), Token::Ident(name)]), assignment) == Ok::<
            Columns,
            crate::error::ErrorKind,
        >(seq![(unary_label(symbol, seq![name]), !value_under(assignment, name))]),
{
    let operator = Token::Not(symbol);
    let tokens = enclosed(seq![operator, Token::Ident(name)]);
    assert(tokens =~= seq![Token::OpenParen, operator, Token::Ident(name), Token::CloseParen]);
    let names = identifiers(tokens);
    lemma_identifiers_occur(tokens);
    assert forall|place: int| 0 <= place < names.len() implies has_key(
        assignment,
        #[trigger] names[place],
    ) by {
        assert(names.contains(names[place]));
        assert(tokens.contains(Token::Ident(names[place])));
    }
    lemma_all_assigned(names, assignment);

    let operand = NamedValue { label: Some(seq![name]), value: value_under(assignment, name) };
    let outcome = NamedValue {
        label: Some(unary_label(symbol, seq![name])),
        value: !operand.value,
    };
    let none = Seq::<(Seq<char>, bool)>::empty();
    let one = Machine { operators: seq![Token::OpenParen], operands: seq![], columns: none };
    let two = Machine {
        operators: seq![Token::OpenParen, operator],
        operands: seq![],
        columns: none,
    };
    let three = Machine {
        operators: seq![Token::OpenParen, operator],
        operands: seq![operand],
        columns: none,
    };
    let four = Machine {
        operators: seq![Token::OpenParen],
        operands: seq![outcome],
        columns: seq![(outcome.label.unwrap(), outcome.value)],
    };
    let five = Machine { operators: seq![], operands: four.operands, columns: four.columns };

    assert(tokens.take(0) =~= Seq::<Token>::empty());
    assert(tokens.take(1).drop_last() =~= tokens.take(0));
    assert(tokens.take(2).drop_last() =~= tokens.take(1));
    assert(tokens.take(3).drop_last() =~= tokens.take(2));
    assert(tokens.take(4).drop_last() =~= tokens.take(3));
    assert(tokens.take(4) =~= tokens);

    assert(run(tokens.take(0), assignment) == Some(Machine::initial()));
    assert(Machine::initial().operators.push(Token::OpenParen) =~= one.operators);
    assert(run(tokens.take(1), assignment) == Some(one));
    assert(one.yielded(operator) == Some(one));
    assert(one.operators.push(operator) =~= two.operators);
    assert(run(tokens.take(2), assignment) == Some(two));
    assert(two.operands.push(operand) =~= three.operands);
    assert(run(tokens.take(3), assignment) == Some(three));
    assert(result_of(operator, three.operands) == outcome);
    assert(three.operands.take(0).push(outcome) =~= four.operands);
    assert(three.operators.drop_last() =~= four.operators);
    assert(recorded(none, outcome) =~= four.columns);
    assert(three.resolved() == Some(four));
    assert(four.operators.drop_last() =~= five.operators);
    assert(four.closed() == Some(five));
    assert(three.closed() == Some(five));
    assert(run(tokens.take(4), assignment) == Some(five));
}

} // verus!
