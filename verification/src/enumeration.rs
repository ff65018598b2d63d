//! The rows of a truth table: which assignment each row stands for, and what
//! the table of a stream holds.

use crate::machine::{evaluation, identifiers, Columns};
use crate::ordered::{has_key, key_index, lemma_key_index_is, lookup};
use crate::tokenizer::Token;
use vstd::arithmetic::div_mod::lemma_div_denominator;
use vstd::arithmetic::power2::{lemma2_to64, lemma_pow2_pos, lemma_pow2_unfold, pow2};
use vstd::prelude::*;

verus! {

/// The binary digit of `index` at `position`, the lowest being position 0.
pub open spec fn bit(index: nat, position: nat) -> bool {
    (index / pow2(position)) % 2 == 1
}

/// The value that row `index` gives to the identifier at `place` among
/// `count` identifiers. The first identifier goes with the highest of the
/// `count` lowest digits of `index`, the last with the lowest; a digit 0
/// stands for true and a digit 1 for false, so that the first row makes
/// every identifier true and the last makes every one false.
pub open spec fn row_value(index: nat, count: nat, place: int) -> bool {
    !bit(index, (count - 1 - place) as nat)
}

/// The assignment of row `index`: every name with its value, in the order
/// of `names`.
pub open spec fn row_assignment(names: Seq<char>, index: nat) -> Seq<(char, bool)> {
    Seq::new(names.len(), |place: int| (names[place], row_value(index, names.len(), place)))
}

/// An assignment as the leading columns of a row: each identifier under its
/// own letter.
pub open spec fn assignment_columns(assignment: Seq<(char, bool)>) -> Columns {
    assignment.map_values(|entry: (char, bool)| (seq![entry.0], entry.1))
}

/// Row `index` of the table of `tokens`: the assignment, then the columns
/// that evaluating under it yields. There is no such row where the
/// evaluation fails.
pub open spec fn table_row(tokens: Seq<Token>, index: nat) -> Option<Columns> {
    let assignment = row_assignment(identifiers(tokens), index);
    match evaluation(tokens, assignment) {
        Ok(columns) => Some(assignment_columns(assignment) + columns),
        Err(_) => None,
    }
}

/// The rows of the table of `tokens` with an index below `count`, in the
/// order of their indices.
pub open spec fn table_below(tokens: Seq<Token>, count: nat) -> Seq<Columns>
    decreases count,
{
    if count == 0 {
        Seq::empty()
    } else {
        let before = table_below(tokens, (count - 1) as nat);
        match table_row(tokens, (count - 1) as nat) {
            Some(row) => before.push(row),
            None => before,
        }
    }
}

/// The truth table of `tokens`: one row for each of the assignments of its
/// identifiers, two to the power of their number.
pub open spec fn table(tokens: Seq<Token>) -> Seq<Columns> {
    table_below(tokens, pow2(identifiers(tokens).len()))
}

/// In the assignment of a row every name stands at its own place, with the
/// value of that row.
pub proof fn lemma_row_assignment_lookup(names: Seq<char>, index: nat, place: int)
    requires
        names.no_duplicates(),
        0 <= place < names.len(),
    ensures
        key_index(row_assignment(names, index), names[place]) == place,
        has_key(row_assignment(names, index), names[place]),
        lookup(row_assignment(names, index), names[place]) == Some(
            row_value(index, names.len(), place),
        ),
{
    lemma_key_index_is(row_assignment(names, index), names[place], place);
}

/// The index of the row that gives the identifiers the values `values`, in
/// their order.
pub open spec fn row_index(values: Seq<bool>) -> nat
    decreases values.len(),
{
    if values.len() == 0 {
        0
    } else {
        2 * row_index(values.drop_last()) + if values.last() {
            0nat
        } else {
            1nat
        }
    }
}

/// The digits of half a number are those of the number, one position down.
pub proof fn lemma_bit_of_half(index: nat, position: nat)
    ensures
        bit(index / 2, position) == bit(index, position + 1),
{
    lemma_pow2_pos(position);
    lemma_pow2_unfold(position + 1);
    lemma_div_denominator(index as int, 2, pow2(position) as int);
}

/// Two different numbers below two to the power of `count` differ in one of
/// their `count` lowest digits.
pub proof fn lemma_differing_digit(first: nat, second: nat, count: nat) -> (position: nat)
    requires
        first < pow2(count),
        second < pow2(count),
        first != second,
    ensures
        position < count,
        bit(first, position) != bit(second, position),
    decreases count,
{
    lemma2_to64();
    if count == 0 {
        0
    } else if first % 2 != second % 2 {
        0
    } else {
        lemma_pow2_unfold(count);
        let below = lemma_differing_digit(first / 2, second / 2, (count - 1) as nat);
        lemma_bit_of_half(first, below);
        lemma_bit_of_half(second, below);
        below + 1
    }
}

/// No two rows stand for the same assignment.
pub proof fn lemma_rows_differ(names: Seq<char>, first: nat, second: nat)
    requires
        first < pow2(names.len()),
        second < pow2(names.len()),
        first != second,
    ensures
        row_assignment(names, first) != row_assignment(names, second),
{
    let position = lemma_differing_digit(first, second, names.len());
    let place = names.len() - 1 - position;
    assert(row_assignment(names, first)[place].1 == row_value(first, names.len(), place));
    assert(row_assignment(names, second)[place].1 == row_value(second, names.len(), place));
}

/// `row_index` names a row of the table, and that row gives the values
/// asked for.
pub proof fn lemma_row_index(values: Seq<bool>)
    ensures
        row_index(values) < pow2(values.len()),
        forall|place: int|
            0 <= place < values.len() ==> row_value(row_index(values), values.len(), place)
                == #[trigger] values[place],
    decreases values.len(),
{
    lemma2_to64();
    if values.len() > 0 {
        let front = values.drop_last();
        let index = row_index(values);
        lemma_row_index(front);
        lemma_pow2_unfold(values.len());
        assert(index / 2 == row_index(front));
        assert forall|place: int| 0 <= place < values.len() implies row_value(
            index,
            values.len(),
            place,
        ) == #[trigger] values[place] by {
            if place < values.len() - 1 {
                let position = (front.len() - 1 - place) as nat;
                lemma_bit_of_half(index, position);
                assert(front[place] == values[place]);
                assert(row_value(row_index(front), front.len(), place) == front[place]);
                assert((values.len() - 1 - place) as nat == position + 1);
            } else {
                assert(pow2(0) == 1);
                assert(index / 1 == index);
                assert(bit(index, 0) == (index % 2 == 1));
            }
        }
    }
}

/// Every assignment has its row: whatever values are chosen for the
/// identifiers, one row of the table gives them exactly these.
pub proof fn lemma_rows_cover(names: Seq<char>, values: Seq<bool>)
    requires
        values.len() == names.len(),
    ensures
        row_index(values) < pow2(names.len()),
        row_assignment(names, row_index(values)) == Seq::new(
            names.len(),
            |place: int| (names[place], values[place]),
        ),
{
    lemma_row_index(values);
    assert(row_assignment(names, row_index(values)) =~= Seq::new(
        names.len(),
        |place: int| (names[place], values[place]),
    ));
}

} // verus!
