//! The truth table that an evaluator yields.

use crate::machine::Columns;
use crate::ordered::{row_entries, row_get_index, row_len};
use indexmap::IndexMap;
use vstd::prelude::*;
use vstd::string::StringExecFns;
use vstd::utf8::encode_utf8;

verus! {

/// A truth table: its rows in the order of the assignments, each an ordered
/// map from the name of a column to its value in that row.
pub struct EvaluatorResult {
    pub result: Vec<IndexMap<String, bool>>,
}

impl View for EvaluatorResult {
    type V = Seq<Columns>;

    open spec fn view(&self) -> Seq<Columns> {
        self.result@.map_values(|row: IndexMap<String, bool>| row_entries(row))
    }
}

/// The names of the columns of a row.
pub open spec fn names_of(row: Columns) -> Seq<Seq<char>> {
    row.map_values(|entry: (Seq<char>, bool)| entry.0)
}

/// How a truth value is written in a cell.
pub open spec fn cell_text(value: bool) -> Seq<char> {
    if value {
        "true"@
    } else {
        "false"@
    }
}

/// The cells of a row.
pub open spec fn cells_of(row: Columns) -> Seq<Seq<char>> {
    row.map_values(|entry: (Seq<char>, bool)| cell_text(entry.1))
}

/// The texts of `strings`.
pub open spec fn texts(strings: Seq<String>) -> Seq<Seq<char>> {
    strings.map_values(|text: String| text@)
}

/// The texts of the rows of `cells`.
pub open spec fn cell_texts(cells: Seq<Vec<String>>) -> Seq<Seq<Seq<char>>> {
    cells.map_values(|row: Vec<String>| texts(row@))
}

/// The names of the columns of a table: those of its first row, none where
/// it has no row.
pub open spec fn header_of(rows: Seq<Columns>) -> Seq<Seq<char>> {
    if rows.len() == 0 {
        Seq::empty()
    } else {
        names_of(rows[0])
    }
}

/// The length of a name in bytes, as UTF-8.
pub open spec fn byte_length(name: Seq<char>) -> usize {
    encode_utf8(name).len() as usize
}

/// The share of the width that the column of `name` gets when the table is
/// laid out: the length of the name in bytes, and no less than 5.
pub open spec fn weight_of(name: Seq<char>) -> usize {
    if byte_length(name) > 5 {
        byte_length(name)
    } else {
        5
    }
}

/// The lengths in bytes of `names`, added up; the largest number there is
/// where the sum would pass it.
pub open spec fn total_length(names: Seq<Seq<char>>) -> usize
    decreases names.len(),
{
    if names.len() == 0 {
        0
    } else if total_length(names.drop_last()) + byte_length(names.last()) > usize::MAX {
        usize::MAX
    } else {
        (total_length(names.drop_last()) + byte_length(names.last())) as usize
    }
}

impl EvaluatorResult {
    /// The weights of the columns, in the order of the header.
    pub fn column_weights(&self) -> (weights: Vec<usize>)
        ensures
            weights@ == header_of(self@).map_values(|name: Seq<char>| weight_of(name)),
    {
        let names = self.header();
        let ghost target = header_of(self@).map_values(|name: Seq<char>| weight_of(name));
        let mut weights: Vec<usize> = Vec::new();
        let mut at: usize = 0;
        while at < names.len()
            invariant
                at <= names@.len(),
                texts(names@) == header_of(self@),
                target == header_of(self@).map_values(|name: Seq<char>| weight_of(name)),
                weights@ =~= target.take(at as int),
            decreases names@.len() - at,
        {
            assert(texts(names@)[at as int] == names@[at as int]@);
            let length = names[at].as_str().len();
            weights.push(if length > 5 { length } else { 5 });
            at = at + 1;
        }
        assert(target.take(at as int) =~= target);
        weights
    }

    /// The length of the header: the lengths in bytes of its names, added up.
    pub fn header_length(&self) -> (total: usize)
        ensures
            total == total_length(header_of(self@)),
    {
        let names = self.header();
        let mut total: usize = 0;
        let mut at: usize = 0;
        assert(texts(names@).take(0) =~= Seq::<Seq<char>>::empty());
        while at < names.len()
            invariant
                at <= names@.len(),
                texts(names@) == header_of(self@),
                total == total_length(texts(names@).take(at as int)),
            decreases names@.len() - at,
        {
            assert(texts(names@).take(at + 1).drop_last() =~= texts(names@).take(at as int));
            assert(texts(names@).take(at + 1).last() == names@[at as int]@);
            let length = names[at].as_str().len();
            total = if length > usize::MAX - total { usize::MAX } else { total + length };
            at = at + 1;
        }
        assert(texts(names@).take(at as int) =~= texts(names@));
        total
    }

    /// The header of the table: the names of the columns of the first row.
    /// A table without rows has an empty header.
    pub fn header(&self) -> (names: Vec<String>)
        ensures
            texts(names@) == header_of(self@),
    {
        let mut names: Vec<String> = Vec::new();
        if self.result.len() == 0 {
            assert(texts(names@) =~= Seq::<Seq<char>>::empty());
            return names;
        }
        let first = &self.result[0];
        let ghost row = row_entries(*first);
        assert(self@[0] == row);
        let count = row_len(first);
        let mut at: usize = 0;
        while at < count
            invariant
                at <= count,
                count == row.len(),
                row == row_entries(*first),
                texts(names@) =~= names_of(row).take(at as int),
            decreases count - at,
        {
            match row_get_index(first, at) {
                Some((name, _)) => {
                    let ghost before = names@;
                    names.push(name.clone());
                    assert(texts(names@) =~= texts(before).push(name@));
                    assert(names_of(row).take(at + 1) =~= names_of(row).take(at as int).push(
                        name@,
                    ));
                },
                None => {},
            }
            at = at + 1;
        }
        assert(names_of(row).take(at as int) =~= names_of(row));
        names
    }

    /// The body of the table: for each row the texts of its cells, `true` or
    /// `false`.
    pub fn cells(&self) -> (body: Vec<Vec<String>>)
        ensures
            cell_texts(body@) == self@.map_values(|row: Columns| cells_of(row)),
    {
        let mut body: Vec<Vec<String>> = Vec::new();
        let mut line: usize = 0;
        while line < self.result.len()
            invariant
                line <= self.result@.len(),
                cell_texts(body@) =~= self@.map_values(|row: Columns| cells_of(row)).take(
                    line as int,
                ),
            decreases self.result@.len() - line,
        {
            let current = &self.result[line];
            let ghost row = row_entries(*current);
            assert(self@[line as int] == row);
            let count = row_len(current);
            let mut cells: Vec<String> = Vec::new();
            let mut at: usize = 0;
            while at < count
                invariant
                    at <= count,
                    count == row.len(),
                    row == row_entries(*current),
                    texts(cells@) =~= cells_of(row).take(at as int),
                decreases count - at,
            {
                match row_get_index(current, at) {
                    Some((_, value)) => {
                        let text = if value {
                            String::from_str("true")
                        } else {
                            String::from_str("false")
                        };
                        let ghost before = cells@;
                        cells.push(text);
                        assert(texts(cells@) =~= texts(before).push(cell_text(value)));
                        assert(cells_of(row).take(at + 1) =~= cells_of(row).take(at as int).push(
                            cell_text(value),
                        ));
                    },
                    None => {},
                }
                at = at + 1;
            }
            assert(cells_of(row).take(at as int) =~= cells_of(row));
            let ghost above = body@;
            body.push(cells);
            assert(cell_texts(body@) =~= cell_texts(above).push(cells_of(row)));
            assert(self@.map_values(|row: Columns| cells_of(row)).take(line + 1)
                =~= self@.map_values(|row: Columns| cells_of(row)).take(line as int).push(
                cells_of(row),
            ));
            line = line + 1;
        }
        assert(self@.map_values(|row: Columns| cells_of(row)).take(line as int)
            =~= self@.map_values(|row: Columns| cells_of(row)));
        body
    }
}

} // verus!
