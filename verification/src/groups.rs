//! Groups during evaluation: in a stream that passed the structural rules
//! every closing bracket finds an opening one waiting, and the last bracket
//! leaves no operator behind.

use crate::error::GroupKind;
use crate::machine::{priority, run, Machine};
use crate::structure::{balanced, depth, enclosed, structural_error};
use crate::tokenizer::Token;
use vstd::prelude::*;

verus! {

/// The groups of any kind that `tokens` leave open: the opening brackets
/// less the closing ones.
pub open spec fn nesting(tokens: Seq<Token>) -> int
    decreases tokens.len(),
{
    if tokens.len() == 0 {
        0
    } else {
        nesting(tokens.drop_last()) + if tokens.last().is_open() {
            1int
        } else if tokens.last().is_close() {
            -1int
        } else {
            0int
        }
    }
}

/// The opening brackets among the waiting operators.
pub open spec fn opens_in(operators: Seq<Token>) -> int
    decreases operators.len(),
{
    if operators.len() == 0 {
        0
    } else {
        opens_in(operators.drop_last()) + if operators.last().is_open() {
            1int
        } else {
            0int
        }
    }
}

/// The open groups of any kind are those of the three kinds together.
pub proof fn lemma_nesting_by_kind(tokens: Seq<Token>)
    ensures
        nesting(tokens) == depth(tokens, GroupKind::Paren) + depth(tokens, GroupKind::Bracket)
            + depth(tokens, GroupKind::Brace),
    decreases tokens.len(),
{
    if tokens.len() > 0 {
        lemma_nesting_by_kind(tokens.drop_last());
    }
}

/// In front of a closing parenthesis that was put around a stream, one
/// group more is open than inside the stream.
pub proof fn lemma_nesting_enclosed(inner: Seq<Token>, length: int)
    requires
        1 <= length <= inner.len() + 1,
    ensures
        nesting(enclosed(inner).take(length)) == 1 + nesting(inner.take(length - 1)),
    decreases length,
{
    let tokens = enclosed(inner);
    assert(tokens.take(length).drop_last() =~= tokens.take(length - 1));
    if length == 1 {
        assert(tokens.take(0) =~= Seq::<Token>::empty());
        assert(inner.take(0) =~= Seq::<Token>::empty());
        assert(nesting(tokens.take(0)) == 0);
    } else {
        lemma_nesting_enclosed(inner, length - 1);
        assert(inner.take(length - 1).drop_last() =~= inner.take(length - 2));
        assert(tokens.take(length).last() == inner.take(length - 1).last());
    }
}

proof fn lemma_opens_in_bounds(operators: Seq<Token>)
    ensures
        opens_in(operators) >= 0,
        operators.len() > 0 && operators[0].is_open() ==> opens_in(operators) >= 1,
    decreases operators.len(),
{
    if operators.len() > 0 {
        lemma_opens_in_bounds(operators.drop_last());
        if operators.len() > 1 {
            assert(operators.drop_last()[0] == operators[0]);
        }
    }
}

/// A closing bracket that finds an opening one waiting takes the operators
/// off the stack down to the nearest one, and that one with them.
pub proof fn lemma_closed_opens(machine: Machine)
    requires
        opens_in(machine.operators) >= 1,
        machine.closed() is Some,
    ensures
        machine.closed().unwrap().operators.len() < machine.operators.len(),
        machine.closed().unwrap().operators == machine.operators.take(
            machine.closed().unwrap().operators.len() as int,
        ),
        opens_in(machine.closed().unwrap().operators) == opens_in(machine.operators) - 1,
    decreases machine.operators.len(),
{
    let operators = machine.operators;
    let after = machine.closed().unwrap().operators;
    if operators.last().is_open() {
        assert(after =~= operators.take(operators.len() - 1));
    } else {
        let next = machine.resolved().unwrap();
        lemma_closed_opens(next);
        assert(after =~= operators.take(after.len() as int));
    }
}

/// An operator that comes in takes only operators off the stack, never a
/// bracket.
pub proof fn lemma_yielded_opens(machine: Machine, operator: Token)
    requires
        operator.is_operator(),
        machine.yielded(operator) is Some,
    ensures
        machine.yielded(operator).unwrap().operators.len() <= machine.operators.len(),
        machine.yielded(operator).unwrap().operators == machine.operators.take(
            machine.yielded(operator).unwrap().operators.len() as int,
        ),
        opens_in(machine.yielded(operator).unwrap().operators) == opens_in(machine.operators),
    decreases machine.operators.len(),
{
    let operators = machine.operators;
    let after = machine.yielded(operator).unwrap().operators;
    if operators.len() > 0 && priority(operators.last()) <= priority(operator) {
        let next = machine.resolved().unwrap();
        lemma_yielded_opens(next, operator);
        assert(after =~= operators.take(after.len() as int));
    } else {
        assert(after =~= operators.take(after.len() as int));
    }
}

/// While a stream that passed the structural rules is evaluated inside its
/// parentheses, the lowest waiting operator is the opening parenthesis put
/// around it, and as many opening brackets wait as groups are open.
pub proof fn lemma_run_nesting(inner: Seq<Token>, assignment: Seq<(char, bool)>, length: int)
    requires
        structural_error(inner) is None,
        1 <= length <= inner.len() + 1,
        run(enclosed(inner).take(length), assignment) is Some,
    ensures
        run(enclosed(inner).take(length), assignment).unwrap().operators.len() > 0,
        run(enclosed(inner).take(length), assignment).unwrap().operators[0].is_open(),
        opens_in(run(enclosed(inner).take(length), assignment).unwrap().operators) == nesting(
            enclosed(inner).take(length),
        ),
        nesting(enclosed(inner).take(length)) >= 1,
    decreases length,
{
    let tokens = enclosed(inner);
    let after = run(tokens.take(length), assignment).unwrap();
    assert(tokens.take(length).drop_last() =~= tokens.take(length - 1));
    lemma_nesting_enclosed(inner, length);
    lemma_nesting_by_kind(inner.take(length - 1));
    assert(balanced(inner, GroupKind::Paren) && balanced(inner, GroupKind::Bracket) && balanced(
        inner,
        GroupKind::Brace,
    ));
    if length == 1 {
        assert(tokens.take(0) =~= Seq::<Token>::empty());
        assert(run(tokens.take(0), assignment) == Some(Machine::initial()));
        assert(after.operators =~= seq![Token::OpenParen]);
        assert(opens_in(after.operators.drop_last()) == 0);
    } else {
        lemma_run_nesting(inner, assignment, length - 1);
        let before = run(tokens.take(length - 1), assignment).unwrap();
        let token = tokens.take(length).last();
        assert(after == before.stepped(token, assignment).unwrap());
        if token.is_open() {
            assert(after.operators == before.operators.push(token));
            assert(after.operators.drop_last() =~= before.operators);
            assert(after.operators[0] == before.operators[0]);
        } else if token.is_close() {
            lemma_closed_opens(before);
            lemma_opens_in_bounds(after.operators);
            assert(after.operators.len() > 0);
            assert(after.operators[0] == before.operators[0]);
        } else if token.is_operator() {
            let between = before.yielded(token).unwrap();
            lemma_yielded_opens(before, token);
            assert(after.operators == between.operators.push(token));
            assert(after.operators.drop_last() =~= between.operators);
            lemma_opens_in_bounds(between.operators);
            assert(between.operators.len() > 0);
            assert(after.operators[0] == before.operators[0]);
        } else {
            assert(after.operators == before.operators);
        }
    }
}

/// When a stream that passed the structural rules has been evaluated to its
/// last bracket, no operator and no bracket is left waiting.
pub proof fn lemma_operators_resolved(inner: Seq<Token>, assignment: Seq<(char, bool)>)
    requires
        structural_error(inner) is None,
        run(enclosed(inner), assignment) is Some,
    ensures
        run(enclosed(inner), assignment).unwrap().operators.len() == 0,
{
    let tokens = enclosed(inner);
    let length = inner.len() + 1;
    assert(tokens.drop_last() =~= tokens.take(length as int));
    let before = run(tokens.take(length as int), assignment).unwrap();
    let after = run(tokens, assignment).unwrap();
    lemma_run_nesting(inner, assignment, length as int);
    lemma_nesting_enclosed(inner, length as int);
    lemma_nesting_by_kind(inner);
    assert(inner.take(inner.len() as int) =~= inner);
    assert(after == before.closed().unwrap());
    lemma_closed_opens(before);
    lemma_opens_in_bounds(after.operators);
    if after.operators.len() > 0 {
        assert(after.operators[0] == before.operators[0]);
    }
}

} // verus!
