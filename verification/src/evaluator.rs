//! The evaluator: a validated token stream and what can be computed from it.

use crate::enumeration::{
    assignment_columns, lemma_row_assignment_lookup, row_assignment, table, table_below,
    table_row,
};
use crate::error::{ErrorKind, EvaluatorError, GroupKind};
use crate::evaluator_result::EvaluatorResult;
use crate::groups::lemma_operators_resolved;
use crate::machine::{
    applied, binary_label, composite_names, evaluation, first_unassigned, identifiers,
    lemma_identifiers_distinct, lemma_run_fails_on, lemma_run_names, operand_count, priority,
    recorded, result_of, run, truth, unary_label, Columns, Machine, NamedValue,
};
use crate::ordered::{
    assignment_entries, assignment_get, assignment_insert, assignment_new, lemma_key_absent,
    row_entries, row_insert, row_insert_before, row_new, set_insert, set_into_vec, set_items,
    set_new,
};
use crate::strings::push_char;
use crate::structure::{balanced, depth, enclosed, is_enclosed_valid, structural_error};
use crate::tokenizer::{Token, Tokens};
use indexmap::IndexMap;
use vstd::arithmetic::power2::pow2;
use vstd::bits::{lemma_u64_pow2_no_overflow, lemma_u64_shl_is_mul, lemma_u64_shr_is_div};
use vstd::prelude::*;
use vstd::string::StringExecFns;

verus! {

/// A value on the operand stack, with the name of the sub-expression that it
/// is the value of, if that has one.
#[derive(Debug)]
pub struct Operand {
    pub label: Option<String>,
    pub value: bool,
}

impl View for Operand {
    type V = NamedValue;

    open spec fn view(&self) -> NamedValue {
        NamedValue {
            label: match self.label {
                Some(name) => Some(name@),
                None => None,
            },
            value: self.value,
        }
    }
}

/// The operands of a stack as the machine sees them.
pub open spec fn named(operands: Seq<Operand>) -> Seq<NamedValue> {
    operands.map_values(|operand: Operand| operand@)
}

/// How tightly `op_token` binds; the lower the number, the tighter.
pub fn get_priority(op_token: &Token) -> (level: usize)
    ensures
        level == priority(*op_token),
{
    match op_token {
        Token::Not(_) => 0,
        Token::And(_) => 1,
        Token::Or(_) => 2,
        Token::XOr(_) => 2,
        Token::Implication(_) => 3,
        Token::Biconditional(_) => 3,
        Token::Equals(_) => 4,
        Token::NotEquals(_) => 5,
        _ => usize::MAX,
    }
}

/// The number of operands that `op_token` takes.
pub fn get_operands_count(op_token: &Token) -> (count: usize)
    ensures
        count == operand_count(*op_token),
{
    match op_token {
        Token::Not(_) => 1,
        Token::And(_) => 2,
        Token::Or(_) => 2,
        Token::XOr(_) => 2,
        Token::Implication(_) => 2,
        Token::Biconditional(_) => 2,
        Token::Equals(_) => 2,
        Token::NotEquals(_) => 2,
        _ => 0,
    }
}

/// The display character of an operator.
fn symbol_of(operator: Token) -> (symbol: char)
    requires
        operator.is_operator(),
    ensures
        Some(symbol) == operator.symbol(),
{
    match operator {
        Token::Not(s) => s,
        Token::Implication(s) => s,
        Token::Biconditional(s) => s,
        Token::And(s) => s,
        Token::Or(s) => s,
        Token::XOr(s) => s,
        Token::Equals(s) => s,
        Token::NotEquals(s) => s,
        _ => ' ',
    }
}

/// The value of `operator` on its operands.
fn value_of(operator: Token, left: bool, right: bool) -> (value: bool)
    ensures
        value == truth(operator, left, right),
{
    match operator {
        Token::Not(_) => !right,
        Token::And(_) => left && right,
        Token::Or(_) => left || right,
        Token::XOr(_) => left != right,
        Token::Implication(_) => !left || right,
        Token::Biconditional(_) => left == right,
        Token::Equals(_) => left == right,
        Token::NotEquals(_) => left != right,
        _ => false,
    }
}

/// The name of a negation.
fn unary_name(symbol: char, operand: &String) -> (name: String)
    ensures
        name@ == unary_label(symbol, operand@),
{
    let mut name = String::new();
    push_char(&mut name, symbol);
    name.append(operand.as_str());
    assert(name@ =~= unary_label(symbol, operand@));
    name
}

/// The name of a binary expression.
fn binary_name(left: &String, symbol: char, right: &String) -> (name: String)
    ensures
        name@ == binary_label(left@, symbol, right@),
{
    let mut name = String::new();
    push_char(&mut name, '(');
    name.append(left.as_str());
    push_char(&mut name, ' ');
    push_char(&mut name, symbol);
    push_char(&mut name, ' ');
    name.append(right.as_str());
    push_char(&mut name, ')');
    assert(name@ =~= binary_label(left@, symbol, right@));
    name
}

/// The machine that the parts of the evaluator's working state make up.
pub open spec fn machine_of(
    operators: Seq<Token>,
    operands: Seq<Operand>,
    columns: IndexMap<String, bool>,
) -> Machine {
    Machine { operators, operands: named(operands), columns: row_entries(columns) }
}

/// The error of an operator that found too few operands.
pub open spec fn underflow() -> Result<(), EvaluatorError> {
    Err(EvaluatorError { kind: ErrorKind::StackUnderflow })
}

/// Whether `token` opens a group.
fn opens_group(token: Token) -> (opens: bool)
    ensures
        opens == token.is_open(),
{
    token == Token::OpenParen || token == Token::OpenBracket || token == Token::OpenCurlyBrace
}

/// The name of an identifier: its letter.
fn identifier_name(name: char) -> (text: String)
    ensures
        text@ == seq![name],
{
    let mut text = String::new();
    push_char(&mut text, name);
    assert(text@ =~= seq![name]);
    text
}

/// Applies `operator` and writes its result down, if that has a name.
fn apply_and_record(
    operator: Token,
    operands: &mut Vec<Operand>,
    columns: &mut IndexMap<String, bool>,
) -> (done: Result<(), EvaluatorError>)
    ensures
        match applied(operator, named(old(operands)@)) {
            Some(next) => {
                &&& done is Ok
                &&& named(final(operands)@) == next
                &&& row_entries(*final(columns)) == recorded(
                    row_entries(*old(columns)),
                    next.last(),
                )
            },
            None => done == underflow(),
        },
{
    match Evaluator::evaluate_operator(operator, operands) {
        Err(error) => {
            return Err(error);
        },
        Ok(_) => {},
    }
    assert(named(operands@).len() == operands@.len());
    let top = &operands[operands.len() - 1];
    assert(top@ == named(operands@).last());
    match &top.label {
        Some(name) => {
            row_insert(columns, name.clone(), top.value);
        },
        None => {},
    }
    Ok(())
}

/// Handles a closing bracket: applies the operators on top of the stack down
/// to the nearest opening bracket, and drops that.
fn close_group(
    operators: &mut Vec<Token>,
    operands: &mut Vec<Operand>,
    columns: &mut IndexMap<String, bool>,
) -> (done: Result<(), EvaluatorError>)
    ensures
        match machine_of(old(operators)@, old(operands)@, *old(columns)).closed() {
            Some(next) => done is Ok && machine_of(
                final(operators)@,
                final(operands)@,
                *final(columns),
            ) == next,
            None => done == underflow(),
        },
{
    let ghost start = machine_of(operators@, operands@, *columns);
    loop
        invariant
            start == machine_of(old(operators)@, old(operands)@, *old(columns)),
            start.closed() == machine_of(operators@, operands@, *columns).closed(),
        decreases operators@.len(),
    {
        let ghost now = machine_of(operators@, operands@, *columns);
        match operators.pop() {
            None => {
                return Ok(());
            },
            Some(operator) => {
                assert(operators@ =~= now.operators.drop_last());
                if opens_group(operator) {
                    return Ok(());
                }
                match apply_and_record(operator, operands, columns) {
                    Err(error) => {
                        return Err(error);
                    },
                    Ok(_) => {
                        assert(machine_of(operators@, operands@, *columns)
                            == now.resolved().unwrap());
                    },
                }
            },
        }
    }
}

/// Makes room for `operator`: applies the operators on top of the stack that
/// bind at least as tightly.
fn yield_to(
    operator: Token,
    operators: &mut Vec<Token>,
    operands: &mut Vec<Operand>,
    columns: &mut IndexMap<String, bool>,
) -> (done: Result<(), EvaluatorError>)
    ensures
        match machine_of(old(operators)@, old(operands)@, *old(columns)).yielded(operator) {
            Some(next) => done is Ok && machine_of(
                final(operators)@,
                final(operands)@,
                *final(columns),
            ) == next,
            None => done == underflow(),
        },
{
    let ghost start = machine_of(operators@, operands@, *columns);
    while operators.len() > 0 && get_priority(&operators[operators.len() - 1]) <= get_priority(
        &operator,
    )
        invariant
            start == machine_of(old(operators)@, old(operands)@, *old(columns)),
            start.yielded(operator) == machine_of(operators@, operands@, *columns).yielded(
                operator,
            ),
        decreases operators@.len(),
    {
        let ghost now = machine_of(operators@, operands@, *columns);
        let top = operators.pop().unwrap();
        assert(operators@ =~= now.operators.drop_last());
        match apply_and_record(top, operands, columns) {
            Err(error) => {
                return Err(error);
            },
            Ok(_) => {
                assert(machine_of(operators@, operands@, *columns) == now.resolved().unwrap());
            },
        }
    }
    Ok(())
}

/// Feeds one token to the machine.
fn step(
    token: Token,
    values: &IndexMap<char, bool>,
    operators: &mut Vec<Token>,
    operands: &mut Vec<Operand>,
    columns: &mut IndexMap<String, bool>,
) -> (done: Result<(), EvaluatorError>)
    ensures
        match machine_of(old(operators)@, old(operands)@, *old(columns)).stepped(
            token,
            assignment_entries(*values),
        ) {
            Some(next) => done is Ok && machine_of(
                final(operators)@,
                final(operands)@,
                *final(columns),
            ) == next,
            None => done == underflow(),
        },
{
    let ghost before = machine_of(operators@, operands@, *columns);
    match token {
        Token::Ident(name) => {
            let value = match assignment_get(values, name) {
                Some(value) => value,
                None => false,
            };
            let operand = Operand { label: Some(identifier_name(name)), value };
            operands.push(operand);
            assert(named(operands@) =~= before.operands.push(operand@));
            Ok(())
        },
        Token::True | Token::False => {
            let operand = Operand { label: None, value: token == Token::True };
            operands.push(operand);
            assert(named(operands@) =~= before.operands.push(operand@));
            Ok(())
        },
        Token::OpenParen | Token::OpenBracket | Token::OpenCurlyBrace => {
            operators.push(token);
            Ok(())
        },
        Token::CloseParen | Token::CloseBracket | Token::CloseCurlyBrace => close_group(
            operators,
            operands,
            columns,
        ),
        _ => {
            match yield_to(token, operators, operands, columns) {
                Err(error) => Err(error),
                Ok(_) => {
                    operators.push(token);
                    Ok(())
                },
            }
        },
    }
}

/// Whether the brackets of `kind` pair up in `tokens`.
fn check_enclosing(tokens: &Tokens, kind: GroupKind) -> (checked: Result<(), EvaluatorError>)
    ensures
        checked is Ok <==> balanced(tokens@, kind),
        checked is Err ==> checked == Err::<(), EvaluatorError>(
            EvaluatorError { kind: ErrorKind::UnbalancedGroup(kind) },
        ),
{
    let (left, right) = match kind {
        GroupKind::Paren => (Token::OpenParen, Token::CloseParen),
        GroupKind::Bracket => (Token::OpenBracket, Token::CloseBracket),
        GroupKind::Brace => (Token::OpenCurlyBrace, Token::CloseCurlyBrace),
    };
    let mut open: usize = 0;
    let mut at: usize = 0;
    while at < tokens.tokens.len()
        invariant
            at <= tokens@.len(),
            left == kind.opening(),
            right == kind.closing(),
            open <= at,
            open == depth(tokens@.take(at as int), kind),
            forall|n: int| 0 <= n <= at ==> depth(#[trigger] tokens@.take(n), kind) >= 0,
        decreases tokens@.len() - at,
    {
        let token = tokens.tokens[at];
        assert(tokens@.take(at + 1).drop_last() =~= tokens@.take(at as int));
        assert(tokens@.take(at + 1).last() == token);
        if token == left {
            open = open + 1;
        } else if token == right {
            if open == 0 {
                assert(depth(tokens@.take(at + 1), kind) < 0);
                return Err(EvaluatorError { kind: ErrorKind::UnbalancedGroup(kind) });
            }
            open = open - 1;
        }
        at = at + 1;
    }
    assert(tokens@.take(at as int) =~= tokens@);
    if open != 0 {
        Err(EvaluatorError { kind: ErrorKind::UnbalancedGroup(kind) })
    } else {
        Ok(())
    }
}

/// The identifiers of a stream, each once, in the order in which they first
/// occur.
fn collect_identifiers(tokens: &Tokens) -> (names: Vec<char>)
    ensures
        names@ == identifiers(tokens@),
{
    let mut set = set_new();
    let mut at: usize = 0;
    while at < tokens.tokens.len()
        invariant
            at <= tokens@.len(),
            set_items(set) == identifiers(tokens@.take(at as int)),
        decreases tokens@.len() - at,
    {
        assert(tokens@.take(at + 1).drop_last() =~= tokens@.take(at as int));
        assert(tokens@.take(at + 1).last() == tokens@[at as int]);
        match tokens.tokens[at] {
            Token::Ident(name) => {
                set_insert(&mut set, name);
            },
            _ => {},
        }
        at = at + 1;
    }
    assert(tokens@.take(at as int) =~= tokens@);
    set_into_vec(set)
}

/// A validated token stream, ready to be evaluated.
pub struct Evaluator {
    tokens: Tokens,
    idents: Vec<char>,
}

impl View for Evaluator {
    type V = Seq<Token>;

    /// The stream that is evaluated: the one handed in, in one more pair of
    /// parentheses.
    closed spec fn view(&self) -> Seq<Token> {
        self.tokens@
    }
}

impl Evaluator {
    #[verifier::type_invariant]
    spec fn well_formed(self) -> bool {
        &&& is_enclosed_valid(self.tokens@)
        &&& self.idents@ == identifiers(self.tokens@)
    }

    /// Checks `tokens` and makes them ready: a stream without a token is
    /// refused, and so is one in which the brackets of some kind do not pair
    /// up. A stream that passes is put in one more pair of parentheses, so
    /// that its last bracket resolves whatever operators still wait.
    pub fn new(tokens: Tokens) -> (made: Result<Evaluator, EvaluatorError>)
        ensures
            match made {
                Ok(evaluator) => structural_error(tokens@) is None && evaluator@ == enclosed(
                    tokens@,
                ),
                Err(error) => structural_error(tokens@) == Some(error.kind),
            },
    {
        let mut tokens = tokens;
        let ghost inner = tokens@;
        if tokens.tokens.len() == 0 {
            return Err(EvaluatorError { kind: ErrorKind::EmptyExpression });
        }
        match check_enclosing(&tokens, GroupKind::Paren) {
            Err(error) => {
                return Err(error);
            },
            Ok(_) => {},
        }
        match check_enclosing(&tokens, GroupKind::Bracket) {
            Err(error) => {
                return Err(error);
            },
            Ok(_) => {},
        }
        match check_enclosing(&tokens, GroupKind::Brace) {
            Err(error) => {
                return Err(error);
            },
            Ok(_) => {},
        }
        tokens.enclose(Token::OpenParen, Token::CloseParen);
        assert(tokens@.subrange(1, tokens@.len() - 1) =~= inner);
        let idents = collect_identifiers(&tokens);
        Ok(Evaluator { tokens, idents })
    }

    /// Evaluates the stream under `values`. The result holds, in the order in
    /// which they were resolved, the name and the value of every
    /// sub-expression that an operator yields. An identifier of the stream
    /// that `values` does not hold is an error, and so is an operator that
    /// finds too few operands.
    pub fn evaluate(&self, values: &IndexMap<char, bool>) -> (outcome: Result<
        IndexMap<String, bool>,
        EvaluatorError,
    >)
        ensures
            match outcome {
                Ok(columns) => evaluation(self@, assignment_entries(*values)) == Ok::<
                    Columns,
                    ErrorKind,
                >(row_entries(columns)),
                Err(error) => evaluation(self@, assignment_entries(*values)) == Err::<
                    Columns,
                    ErrorKind,
                >(error.kind),
            },
    {
        proof {
            use_type_invariant(self);
        }
        let ghost assignment = assignment_entries(*values);
        let mut checked: usize = 0;
        assert(self.idents@.skip(0) =~= self.idents@);
        while checked < self.idents.len()
            invariant
                checked <= self.idents@.len(),
                self.idents@ == identifiers(self.tokens@),
                assignment == assignment_entries(*values),
                first_unassigned(self.idents@, assignment) == first_unassigned(
                    self.idents@.skip(checked as int),
                    assignment,
                ),
            decreases self.idents@.len() - checked,
        {
            let name = self.idents[checked];
            assert(self.idents@.skip(checked as int).drop_first() =~= self.idents@.skip(
                checked + 1,
            ));
            if assignment_get(values, name).is_none() {
                return Err(EvaluatorError { kind: ErrorKind::MissingAssignment(name) });
            }
            checked = checked + 1;
        }
        let mut operators: Vec<Token> = Vec::new();
        let mut operands: Vec<Operand> = Vec::new();
        let mut columns = row_new();
        let mut at: usize = 0;
        assert(named(operands@) =~= Seq::<NamedValue>::empty());
        while at < self.tokens.tokens.len()
            invariant
                at <= self.tokens@.len(),
                assignment == assignment_entries(*values),
                first_unassigned(identifiers(self.tokens@), assignment) is None,
                run(self.tokens@.take(at as int), assignment) == Some(
                    machine_of(operators@, operands@, columns),
                ),
            decreases self.tokens@.len() - at,
        {
            assert(self.tokens@.take(at + 1).drop_last() =~= self.tokens@.take(at as int));
            match step(self.tokens.tokens[at], values, &mut operators, &mut operands, &mut columns) {
                Err(error) => {
                    proof {
                        lemma_run_fails_on(self.tokens@, assignment, at + 1);
                    }
                    return Err(error);
                },
                Ok(_) => {},
            }
            at = at + 1;
        }
        assert(self.tokens@.take(at as int) =~= self.tokens@);
        proof {
            // The brackets pair up, so the last one has left no operator waiting.
            use_type_invariant(self);
            lemma_operators_resolved(
                self.tokens@.subrange(1, self.tokens@.len() - 1),
                assignment,
            );
            assert(operators@.len() == 0);
        }
        Ok(columns)
    }

    /// The identifiers of the stream, each once, in the order in which they
    /// first occur.
    pub fn identifiers(&self) -> (names: &Vec<char>)
        ensures
            names@ == identifiers(self@),
    {
        proof {
            use_type_invariant(self);
        }
        &self.idents
    }

    /// The assignment of row `index`.
    fn row_values(&self, index: u64) -> (values: IndexMap<char, bool>)
        requires
            identifiers(self@).len() < 64,
        ensures
            assignment_entries(values) == row_assignment(identifiers(self@), index as nat),
    {
        proof {
            use_type_invariant(self);
            lemma_identifiers_distinct(self.tokens@);
        }
        let count = self.idents.len();
        let ghost names = self.idents@;
        let ghost target = row_assignment(names, index as nat);
        let mut values = assignment_new();
        let mut place: usize = 0;
        while place < count
            invariant
                place <= count,
                count == names.len(),
                count < 64,
                names == self.idents@,
                names.no_duplicates(),
                target == row_assignment(names, index as nat),
                assignment_entries(values) == target.take(place as int),
            decreases count - place,
        {
            let position: u64 = (count - 1 - place) as u64;
            let shifted: u64 = index >> position;
            let digit = (shifted & 1) != 0;
            proof {
                lemma_u64_shr_is_div(index, position);
                assert(((shifted & 1) != 0) == (shifted % 2 == 1)) by (bit_vector);
            }
            let ghost before = assignment_entries(values);
            let name = self.idents[place];
            assignment_insert(&mut values, name, !digit);
            proof {
                assert forall|i: int| 0 <= i < before.len() implies (#[trigger] before[i]).0
                    != name by {
                    assert(before[i].0 == names[i]);
                }
                lemma_key_absent(before, name);
                assert(assignment_entries(values) =~= target.take(place + 1));
            }
            place = place + 1;
        }
        assert(target.take(place as int) =~= target);
        values
    }

    /// Puts the columns of the identifiers in front of `columns`, in the
    /// order of the identifiers.
    fn prepend_assignment(
        &self,
        values: &IndexMap<char, bool>,
        columns: &mut IndexMap<String, bool>,
        Ghost(index): Ghost<nat>,
    )
        requires
            assignment_entries(*values) == row_assignment(identifiers(self@), index),
            composite_names(row_entries(*old(columns))),
        ensures
            row_entries(*final(columns)) == assignment_columns(assignment_entries(*values))
                + row_entries(*old(columns)),
    {
        proof {
            use_type_invariant(self);
            lemma_identifiers_distinct(self.tokens@);
        }
        let ghost names = self.idents@;
        let ghost leading = assignment_columns(assignment_entries(*values));
        let ghost start = row_entries(*columns);
        let mut place: usize = self.idents.len();
        assert(leading.skip(place as int) + start =~= start);
        while place > 0
            invariant
                place <= names.len(),
                names == self.idents@,
                names.no_duplicates(),
                assignment_entries(*values) == row_assignment(names, index),
                leading == assignment_columns(assignment_entries(*values)),
                composite_names(start),
                row_entries(*columns) == leading.skip(place as int) + start,
            decreases place,
        {
            place = place - 1;
            let name = self.idents[place];
            proof {
                lemma_row_assignment_lookup(names, index, place as int);
            }
            let value = match assignment_get(values, name) {
                Some(value) => value,
                None => false,
            };
            let ghost before = row_entries(*columns);
            let label = identifier_name(name);
            row_insert_before(columns, 0, label, value);
            proof {
                assert forall|i: int| 0 <= i < before.len() implies (#[trigger] before[i]).0
                    != seq![name] by {
                    if i < names.len() - place - 1 {
                        assert(before[i].0 == seq![names[place + 1 + i]]);
                        assert(seq![names[place + 1 + i]][0] != seq![name][0]);
                    } else {
                        assert(before[i] == start[i - (names.len() - place - 1)]);
                    }
                }
                lemma_key_absent(before, seq![name]);
                assert(row_entries(*columns) =~= leading.skip(place as int) + start);
            }
        }
        assert(leading.skip(0) =~= leading);
    }

    /// The truth table of the stream: a row for every assignment of its
    /// identifiers, the assignment in its leading columns, then what the
    /// evaluation under it yields. The rows come in the order of their
    /// assignments, the first making every identifier true. An assignment
    /// under which the evaluation fails gets no row.
    pub fn evaluate_all(&self) -> (outcome: Result<EvaluatorResult, EvaluatorError>)
        requires
            identifiers(self@).len() < 64,
        ensures
            outcome is Ok,
            outcome.unwrap()@ == table(self@),
    {
        proof {
            use_type_invariant(self);
        }
        let count = self.idents.len();
        proof {
            lemma_u64_pow2_no_overflow(count as nat);
            lemma_u64_shl_is_mul(1, count as u64);
        }
        let rows: u64 = 1u64 << (count as u64);
        let mut result: Vec<IndexMap<String, bool>> = Vec::new();
        let mut table = EvaluatorResult { result };
        let mut index: u64 = 0;
        assert(table@ =~= table_below(self@, 0));
        while index < rows
            invariant
                index <= rows,
                rows == pow2(identifiers(self@).len()),
                identifiers(self@).len() < 64,
                table@ == table_below(self@, index as nat),
            decreases rows - index,
        {
            let values = self.row_values(index);
            let ghost above = table@;
            match self.evaluate(&values) {
                Ok(columns) => {
                    let mut columns = columns;
                    proof {
                        lemma_run_names(self@, assignment_entries(values));
                    }
                    self.prepend_assignment(&values, &mut columns, Ghost(index as nat));
                    table.result.push(columns);
                    assert(table@ =~= above.push(table_row(self@, index as nat).unwrap()));
                },
                Err(_) => {},
            }
            index = index + 1;
        }
        Ok(table)
    }

    /// Applies `operator` to the operands on top of the stack and leaves its
    /// result there. The stack stays as it was where `operator` finds too
    /// few operands, or is no operator at all.
    pub fn evaluate_operator(operator: Token, operands_stack: &mut Vec<Operand>) -> (done: Result<
        (),
        EvaluatorError,
    >)
        ensures
            match applied(operator, named(old(operands_stack)@)) {
                Some(next) => done is Ok && named(final(operands_stack)@) == next,
                None => done == underflow() && final(operands_stack)@ == old(operands_stack)@,
            },
    {
        let count = get_operands_count(&operator);
        if count == 0 || operands_stack.len() < count {
            return Err(EvaluatorError { kind: ErrorKind::StackUnderflow });
        }
        let ghost before = named(operands_stack@);
        let symbol = symbol_of(operator);
        let right = operands_stack.pop().unwrap();
        assert(right@ == before[before.len() - 1]);
        if count == 1 {
            let label = match &right.label {
                Some(name) => Some(unary_name(symbol, name)),
                None => None,
            };
            let outcome = Operand { label, value: value_of(operator, false, right.value) };
            assert(outcome@ == result_of(operator, before));
            operands_stack.push(outcome);
            assert(named(operands_stack@) =~= before.take(before.len() - 1).push(
                result_of(operator, before),
            ));
        } else {
            let left = operands_stack.pop().unwrap();
            assert(left@ == before[before.len() - 2]);
            let label = match (&left.label, &right.label) {
                (Some(first), Some(second)) => Some(binary_name(first, symbol, second)),
                _ => None,
            };
            let outcome = Operand { label, value: value_of(operator, left.value, right.value) };
            assert(outcome@ == result_of(operator, before));
            operands_stack.push(outcome);
            assert(named(operands_stack@) =~= before.take(before.len() - 2).push(
                result_of(operator, before),
            ));
        }
        Ok(())
    }
}

} // verus!
