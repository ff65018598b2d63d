//! The operator-precedence machine by which a token stream is evaluated.
//!
//! The machine reads the tokens from left to right. It keeps the operators
//! that still wait for their right operand on one stack and the values that
//! were found on another, and it writes down every named value that an
//! operator yields. Everything here is specification: the executable
//! evaluator is proved to do what this machine does.

use crate::error::ErrorKind;
use crate::ordered::{added, has_key, inserted, lemma_key_index, lookup};
use crate::tokenizer::Token;
use vstd::prelude::*;

verus! {

/// A truth value together with the name of the sub-expression that it is the
/// value of. The literals have no name, nor has anything computed from one.
pub struct NamedValue {
    pub label: Option<Seq<char>>,
    pub value: bool,
}

/// The columns of one row: names with their values, in the order in which
/// they were first written down.
pub type Columns = Seq<(Seq<char>, bool)>;

/// The state of the machine.
pub struct Machine {
    /// The waiting operators and open brackets, the latest last.
    pub operators: Seq<Token>,
    /// The values found so far, the latest last.
    pub operands: Seq<NamedValue>,
    /// The named values that operators have yielded so far.
    pub columns: Columns,
}

/// How tightly a token binds: the lower the number, the tighter. Negation
/// comes before conjunction, then disjunction and exclusive or, implication
/// and biconditional, equality, inequality. What is no operator never yields.
pub open spec fn priority(token: Token) -> int {
    match token {
        Token::Not(_) => 0,
        Token::And(_) => 1,
        Token::Or(_) | Token::XOr(_) => 2,
        Token::Implication(_) | Token::Biconditional(_) => 3,
        Token::Equals(_) => 4,
        Token::NotEquals(_) => 5,
        _ => usize::MAX as int,
    }
}

/// The number of operands that a token takes.
pub open spec fn operand_count(token: Token) -> int {
    match token {
        Token::Not(_) => 1,
        Token::And(_)
        | Token::Or(_)
        | Token::XOr(_)
        | Token::Implication(_)
        | Token::Biconditional(_)
        | Token::Equals(_)
        | Token::NotEquals(_) => 2,
        _ => 0,
    }
}

/// The value of an operator on `right`, the operand that was found last,
/// and `left`, the one found before it. Negation has `right` alone.
pub open spec fn truth(operator: Token, left: bool, right: bool) -> bool {
    match operator {
        Token::Not(_) => !right,
        Token::And(_) => left && right,
        Token::Or(_) => left || right,
        Token::XOr(_) => left != right,
        Token::Implication(_) => !left || right,
        Token::Biconditional(_) => left == right,
        Token::Equals(_) => left == right,
        Token::NotEquals(_) => left != right,
        _ => false,
    }
}

/// The name of a negation: the symbol, then the operand.
pub open spec fn unary_label(symbol: char, operand: Seq<char>) -> Seq<char> {
    seq![symbol] + operand
}

/// The name of a binary expression: the operands in the order of the text,
/// the symbol between them set off by spaces, all in parentheses.
pub open spec fn binary_label(left: Seq<char>, symbol: char, right: Seq<char>) -> Seq<char> {
    seq!['('] + left + seq![' ', symbol, ' '] + right + seq![')']
}

/// What an operator makes of the operands on top of the stack.
pub open spec fn result_of(operator: Token, operands: Seq<NamedValue>) -> NamedValue
    recommends
        operator.is_operator(),
        operands.len() >= operand_count(operator),
{
    let right = operands[operands.len() - 1];
    if operand_count(operator) == 1 {
        NamedValue {
            label: match right.label {
                Some(name) => Some(unary_label(operator.symbol().unwrap(), name)),
                None => None,
            },
            value: truth(operator, false, right.value),
        }
    } else {
        let left = operands[operands.len() - 2];
        NamedValue {
            label: match (left.label, right.label) {
                (Some(first), Some(second)) => Some(
                    binary_label(first, operator.symbol().unwrap(), second),
                ),
                _ => None,
            },
            value: truth(operator, left.value, right.value),
        }
    }
}

/// The operand stack after `operator` took its operands from the top and
/// left its result there; `None` where it finds too few.
pub open spec fn applied(operator: Token, operands: Seq<NamedValue>) -> Option<Seq<NamedValue>> {
    if operator.is_operator() && operands.len() >= operand_count(operator) {
        Some(
            operands.take(operands.len() - operand_count(operator)).push(
                result_of(operator, operands),
            ),
        )
    } else {
        None
    }
}

/// The columns after `operand` was written down: a named value is set under
/// its name, a nameless one leaves no trace.
pub open spec fn recorded(columns: Columns, operand: NamedValue) -> Columns {
    match operand.label {
        Some(name) => inserted(columns, name, operand.value),
        None => columns,
    }
}

impl Machine {
    /// The machine before the first token.
    pub open spec fn initial() -> Machine {
        Machine { operators: Seq::empty(), operands: Seq::empty(), columns: Seq::empty() }
    }

    /// The machine after the operator on top of the stack was applied and
    /// its result written down; `None` where it finds too few operands.
    pub open spec fn resolved(self) -> Option<Machine>
        recommends
            self.operators.len() > 0,
    {
        match applied(self.operators.last(), self.operands) {
            Some(operands) => Some(
                Machine {
                    operators: self.operators.drop_last(),
                    operands,
                    columns: recorded(self.columns, operands.last()),
                },
            ),
            None => None,
        }
    }

    /// The machine after a closing bracket: the operators on top are applied
    /// one after another, down to the nearest opening bracket, which is
    /// dropped.
    pub open spec fn closed(self) -> Option<Machine>
        decreases self.operators.len(),
    {
        if self.operators.len() == 0 {
            Some(self)
        } else if self.operators.last().is_open() {
            Some(Machine { operators: self.operators.drop_last(), ..self })
        } else {
            match self.resolved() {
                Some(next) => next.closed(),
                None => None,
            }
        }
    }

    /// The machine after the operators on top that bind at least as tightly as
    /// `operator` were applied, one after another: among equals the one on
    /// the left comes first.
    pub open spec fn yielded(self, operator: Token) -> Option<Machine>
        decreases self.operators.len(),
    {
        if self.operators.len() > 0 && priority(self.operators.last()) <= priority(operator) {
            match self.resolved() {
                Some(next) => next.yielded(operator),
                None => None,
            }
        } else {
            Some(self)
        }
    }

    /// The machine after one more token.
    pub open spec fn stepped(self, token: Token, assignment: Seq<(char, bool)>) -> Option<Machine> {
        match token {
            Token::Ident(name) => Some(
                Machine {
                    operands: self.operands.push(
                        NamedValue {
                            label: Some(seq![name]),
                            value: lookup(assignment, name) == Some(true),
                        },
                    ),
                    ..self
                },
            ),
            Token::True | Token::False => Some(
                Machine {
                    operands: self.operands.push(
                        NamedValue { label: None, value: token == Token::True },
                    ),
                    ..self
                },
            ),
            Token::OpenParen | Token::OpenBracket | Token::OpenCurlyBrace => Some(
                Machine { operators: self.operators.push(token), ..self },
            ),
            Token::CloseParen | Token::CloseBracket | Token::CloseCurlyBrace => self.closed(),
            _ => match self.yielded(token) {
                Some(next) => Some(Machine { operators: next.operators.push(token), ..next }),
                None => None,
            },
        }
    }
}

/// The machine after all of `tokens`; `None` as soon as an operator finds
/// too few operands.
pub open spec fn run(tokens: Seq<Token>, assignment: Seq<(char, bool)>) -> Option<Machine>
    decreases tokens.len(),
{
    if tokens.len() == 0 {
        Some(Machine::initial())
    } else {
        match run(tokens.drop_last(), assignment) {
            Some(machine) => machine.stepped(tokens.last(), assignment),
            None => None,
        }
    }
}

/// Once an operator has found too few operands, no further token mends it.
pub proof fn lemma_run_fails_on(tokens: Seq<Token>, assignment: Seq<(char, bool)>, n: int)
    requires
        0 <= n <= tokens.len(),
        run(tokens.take(n), assignment) is None,
    ensures
        run(tokens, assignment) is None,
    decreases tokens.len() - n,
{
    if n < tokens.len() {
        assert(tokens.take(n + 1).drop_last() =~= tokens.take(n));
        lemma_run_fails_on(tokens, assignment, n + 1);
    } else {
        assert(tokens.take(n) =~= tokens);
    }
}

/// The identifiers of a stream, each once, in the order in which they first
/// occur.
pub open spec fn identifiers(tokens: Seq<Token>) -> Seq<char>
    decreases tokens.len(),
{
    if tokens.len() == 0 {
        Seq::empty()
    } else {
        let before = identifiers(tokens.drop_last());
        match tokens.last() {
            Token::Ident(name) => added(before, name),
            _ => before,
        }
    }
}

/// The first of `names` that the assignment gives no value.
pub open spec fn first_unassigned(names: Seq<char>, assignment: Seq<(char, bool)>) -> Option<char>
    decreases names.len(),
{
    if names.len() == 0 {
        None
    } else if has_key(assignment, names[0]) {
        first_unassigned(names.drop_first(), assignment)
    } else {
        Some(names[0])
    }
}

/// What evaluating `tokens` under `assignment` comes to: the columns that
/// the machine wrote down; the first identifier without a value, where there
/// is one; an underflow, where some operator finds too few operands.
pub open spec fn evaluation(tokens: Seq<Token>, assignment: Seq<(char, bool)>) -> Result<
    Columns,
    ErrorKind,
> {
    match first_unassigned(identifiers(tokens), assignment) {
        Some(name) => Err(ErrorKind::MissingAssignment(name)),
        None => match run(tokens, assignment) {
            Some(machine) => Ok(machine.columns),
            None => Err(ErrorKind::StackUnderflow),
        },
    }
}


/// No identifier is listed twice.
pub proof fn lemma_identifiers_distinct(tokens: Seq<Token>)
    ensures
        identifiers(tokens).no_duplicates(),
    decreases tokens.len(),
{
    if tokens.len() > 0 {
        lemma_identifiers_distinct(tokens.drop_last());
    }
}

/// Every name among `columns` is that of an operator's result: it has two
/// characters or more, so it is no identifier.
pub open spec fn composite_names(columns: Columns) -> bool {
    forall|i: int| 0 <= i < columns.len() ==> (#[trigger] columns[i]).0.len() >= 2
}

/// Every name on the operand stack has a character or more.
pub open spec fn nonempty_names(operands: Seq<NamedValue>) -> bool {
    forall|i: int|
        0 <= i < operands.len() ==> ((#[trigger] operands[i]).label matches Some(name)
            ==> name.len() >= 1)
}

impl Machine {
    /// The names that the machine holds are as long as they must be.
    pub open spec fn has_sound_names(self) -> bool {
        nonempty_names(self.operands) && composite_names(self.columns)
    }
}

/// Writing a value down under a composite name keeps the names composite.
pub proof fn lemma_recorded_names(columns: Columns, operand: NamedValue)
    requires
        composite_names(columns),
        operand.label matches Some(name) ==> name.len() >= 2,
    ensures
        composite_names(recorded(columns, operand)),
{
    if let Some(name) = operand.label {
        lemma_key_index(columns, name);
    }
}

/// Applying the operator on top keeps the names sound.
pub proof fn lemma_resolved_names(machine: Machine)
    requires
        machine.has_sound_names(),
        machine.operators.len() > 0,
        machine.resolved() is Some,
    ensures
        machine.resolved().unwrap().has_sound_names(),
{
    let operator = machine.operators.last();
    let outcome = result_of(operator, machine.operands);
    let next = machine.resolved().unwrap();
    assert(next.operands.last() == outcome);
    if let Some(name) = outcome.label {
        assert(name.len() >= 2);
    }
    lemma_recorded_names(machine.columns, outcome);
    assert forall|i: int| 0 <= i < next.operands.len() implies ((#[trigger] next.operands[i]).label
        matches Some(name) ==> name.len() >= 1) by {
        if i < next.operands.len() - 1 {
            assert(next.operands[i] == machine.operands[i]);
        }
    }
}

/// Closing a group keeps the names sound.
pub proof fn lemma_closed_names(machine: Machine)
    requires
        machine.has_sound_names(),
        machine.closed() is Some,
    ensures
        machine.closed().unwrap().has_sound_names(),
    decreases machine.operators.len(),
{
    if machine.operators.len() > 0 && !machine.operators.last().is_open() {
        lemma_resolved_names(machine);
        lemma_closed_names(machine.resolved().unwrap());
    }
}

/// Making room for an operator keeps the names sound.
pub proof fn lemma_yielded_names(machine: Machine, operator: Token)
    requires
        machine.has_sound_names(),
        machine.yielded(operator) is Some,
    ensures
        machine.yielded(operator).unwrap().has_sound_names(),
    decreases machine.operators.len(),
{
    if machine.operators.len() > 0 && priority(machine.operators.last()) <= priority(operator) {
        lemma_resolved_names(machine);
        lemma_yielded_names(machine.resolved().unwrap(), operator);
    }
}

/// A token keeps the names sound.
pub proof fn lemma_stepped_names(machine: Machine, token: Token, assignment: Seq<(char, bool)>)
    requires
        machine.has_sound_names(),
        machine.stepped(token, assignment) is Some,
    ensures
        machine.stepped(token, assignment).unwrap().has_sound_names(),
{
    if token.is_close() {
        lemma_closed_names(machine);
    } else if token.is_operator() {
        lemma_yielded_names(machine, token);
    }
}

/// The names that a run of the machine writes down are composite.
pub proof fn lemma_run_names(tokens: Seq<Token>, assignment: Seq<(char, bool)>)
    ensures
        run(tokens, assignment) matches Some(machine) ==> machine.has_sound_names(),
    decreases tokens.len(),
{
    if tokens.len() > 0 {
        lemma_run_names(tokens.drop_last(), assignment);
        if let Some(machine) = run(tokens.drop_last(), assignment) {
            if machine.stepped(tokens.last(), assignment) is Some {
                lemma_stepped_names(machine, tokens.last(), assignment);
            }
        }
    }
}

} // verus!
