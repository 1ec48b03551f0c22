//! The text of a tape dump, and the caret line that goes under it to point at
//! the head.
//!
//! A dump shows the cells in square brackets, each cell in double quotes, with
//! a comma and a space between one cell and the next. The caret line is as far
//! in as the cells left of the head are wide, and its carets span the head's
//! cell and its quotes.

use vstd::prelude::*;
use vstd::string::{StrSliceExecFns, StringExecFns};
use crate::symbol::symbols;

verus! {

/// What a dump prints around each cell: two quotes, a comma and a space.
pub const CELL_DECORATION: usize = 4;

/// What the carets cover beside the cell's own text: its two quotes.
pub const CARET_MARGIN: usize = 2;

/// The width of a symbol's text in a dump: the number of its characters.
pub open spec fn printed_width(symbol: Seq<char>) -> nat {
    symbol.len()
}

/// The width that a row of cells takes in a dump, decoration included.
pub open spec fn dump_width(row: Seq<Seq<char>>) -> nat
    decreases row.len(),
{
    if row.len() == 0 {
        0
    } else {
        dump_width(row.drop_last()) + printed_width(row.last()) + CELL_DECORATION as nat
    }
}

/// The cells of the row that lie strictly left of the head.
pub open spec fn left_of_head(row: Seq<Seq<char>>, head_index: int) -> Seq<Seq<char>> {
    if head_index <= 0 {
        Seq::empty()
    } else if head_index >= row.len() {
        row
    } else {
        row.take(head_index)
    }
}

/// How far in the carets start: the width of the cells left of the head.
pub open spec fn caret_offset(row: Seq<Seq<char>>, head_index: int) -> nat {
    dump_width(left_of_head(row, head_index))
}

/// The symbol under the head: a cell of the row, or the blank outside it.
pub open spec fn under_head(row: Seq<Seq<char>>, head_index: int, blank: Seq<char>) -> Seq<char> {
    if 0 <= head_index < row.len() {
        row[head_index]
    } else {
        blank
    }
}

/// How many carets there are: as many as the head's symbol and its quotes are wide.
pub open spec fn caret_width(row: Seq<Seq<char>>, head_index: int, blank: Seq<char>) -> nat {
    printed_width(under_head(row, head_index, blank)) + CARET_MARGIN as nat
}

/// `count` times the character `c`.
pub open spec fn repeated(c: char, count: nat) -> Seq<char> {
    Seq::new(count, |i: int| c)
}

/// The caret line for a row and a head position: spaces up to the head's
/// cell, then carets under it.
pub open spec fn caret_line_of(row: Seq<Seq<char>>, head_index: int, blank: Seq<char>) -> Seq<
    char,
> {
    repeated(' ', caret_offset(row, head_index)) + repeated(
        '^',
        caret_width(row, head_index, blank),
    )
}

/// A symbol in its quotes.
pub open spec fn quoted(symbol: Seq<char>) -> Seq<char> {
    seq!['"'] + symbol + seq!['"']
}

/// The cells of a dump: each in quotes, with a comma and a space in between.
pub open spec fn cells_text(row: Seq<Seq<char>>) -> Seq<char>
    decreases row.len(),
{
    if row.len() == 0 {
        Seq::empty()
    } else if row.len() == 1 {
        quoted(row[0])
    } else {
        cells_text(row.drop_last()) + seq![',', ' '] + quoted(row.last())
    }
}

/// The text of a dump: the cells in square brackets.
pub open spec fn dump_text(row: Seq<Seq<char>>) -> Seq<char> {
    seq!['['] + cells_text(row) + seq![']']
}

/// The cells of a dump are two short of the row's width: the last cell has no
/// comma and space after it.
pub proof fn lemma_cells_text_len(row: Seq<Seq<char>>)
    requires
        row.len() > 0,
    ensures
        cells_text(row).len() + 2 == dump_width(row),
    decreases row.len(),
{
    if row.len() == 1 {
        assert(row.drop_last().len() == 0);
        assert(dump_width(row.drop_last()) == 0);
    } else {
        lemma_cells_text_len(row.drop_last());
    }
}

/// The carets stand under the head's cell: in the text of the dump, the
/// characters above them, one further in for the opening bracket, are the
/// head's cell in its quotes.
pub proof fn lemma_caret_is_under_head(row: Seq<Seq<char>>, head_index: int, blank: Seq<char>)
    requires
        0 <= head_index < row.len(),
    ensures
        caret_offset(row, head_index) + caret_width(row, head_index, blank) + 2 <= dump_text(
            row,
        ).len(),
        dump_text(row).subrange(
            1 + caret_offset(row, head_index) as int,
            1 + caret_offset(row, head_index) as int + caret_width(row, head_index, blank) as int,
        ) == quoted(row[head_index]),
{
    lemma_cell_in_cells_text(row, head_index);
    let from = dump_width(row.take(head_index)) as int;
    let to = from + row[head_index].len() + 2;
    assert(left_of_head(row, head_index) =~= row.take(head_index));
    assert(dump_text(row).subrange(1 + from, 1 + to) =~= cells_text(row).subrange(from, to));
}

/// Where a cell stands among the cells of a dump.
proof fn lemma_cell_in_cells_text(row: Seq<Seq<char>>, k: int)
    requires
        0 <= k < row.len(),
    ensures
        dump_width(row.take(k)) + row[k].len() + 2 <= cells_text(row).len(),
        cells_text(row).subrange(
            dump_width(row.take(k)) as int,
            dump_width(row.take(k)) as int + row[k].len() as int + 2,
        ) == quoted(row[k]),
    decreases row.len(),
{
    let text = cells_text(row);
    let from = dump_width(row.take(k)) as int;
    let to = from + row[k].len() + 2;
    if row.len() == 1 {
        assert(row.take(0).len() == 0);
        assert(text.subrange(from, to) =~= quoted(row[0]));
    } else {
        let front = row.drop_last();
        lemma_cells_text_len(front);
        if k == row.len() - 1 {
            assert(row.take(k) =~= front);
            assert(text.subrange(from, to) =~= quoted(row[k]));
        } else {
            lemma_cell_in_cells_text(front, k);
            assert(front.take(k) =~= row.take(k));
            assert(front[k] == row[k]);
            assert(text.subrange(from, to) =~= cells_text(front).subrange(from, to));
        }
    }
}

/// Repeating a character adds up.
proof fn lemma_repeated_add(c: char, a: nat, b: nat)
    ensures
        repeated(c, a) + repeated(c, b) == repeated(c, a + b),
{
    assert(repeated(c, a) + repeated(c, b) =~= repeated(c, a + b));
}

/// Appends `count` spaces to `line`.
fn pad(line: &mut String, count: usize)
    ensures
        final(line)@ == old(line)@ + repeated(' ', count as nat),
{
    let mut done: usize = 0;
    assert(line@ =~= old(line)@ + repeated(' ', 0));
    while done < count
        invariant
            done <= count,
            line@ == old(line)@ + repeated(' ', done as nat),
        decreases count - done,
    {
        proof {
            reveal_strlit(" ");
        }
        line.append(" ");
        done += 1;
        assert(line@ =~= old(line)@ + repeated(' ', done as nat));
    }
}

/// Appends `count` carets to `line`.
fn underline(line: &mut String, count: usize)
    ensures
        final(line)@ == old(line)@ + repeated('^', count as nat),
{
    let mut done: usize = 0;
    assert(line@ =~= old(line)@ + repeated('^', 0));
    while done < count
        invariant
            done <= count,
            line@ == old(line)@ + repeated('^', done as nat),
        decreases count - done,
    {
        proof {
            reveal_strlit("^");
        }
        line.append("^");
        done += 1;
        assert(line@ =~= old(line)@ + repeated('^', done as nat));
    }
}

/// The width of a symbol's text in a dump.
pub fn width_of(symbol: &str) -> (width: usize)
    ensures
        width == printed_width(symbol@),
{
    symbol.unicode_len()
}

/// Writes out a dump of `row`: `["a", "b"]` for the cells `a` and `b`.
pub fn dump_line(row: &Vec<String>) -> (line: String)
    ensures
        line@ == dump_text(symbols(row@)),
{
    let ghost cells = symbols(row@);
    proof {
        reveal_strlit("[");
        reveal_strlit("]");
        reveal_strlit(", ");
        reveal_strlit("\"");
    }
    let mut line = String::new();
    line.append("[");
    let mut k: usize = 0;
    assert(cells.take(0) =~= Seq::empty());
    assert(line@ =~= seq!['['] + cells_text(cells.take(0)));
    while k < row.len()
        invariant
            k <= row.len(),
            cells == symbols(row@),
            ", "@ == seq![',', ' '],
            "\""@ == seq!['"'],
            line@ == seq!['['] + cells_text(cells.take(k as int)),
        decreases row.len() - k,
    {
        let ghost before = line@;
        if k > 0 {
            line.append(", ");
        }
        line.append("\"");
        line.append(row[k].as_str());
        line.append("\"");
        proof {
            let wider = cells.take(k + 1);
            assert(wider.drop_last() =~= cells.take(k as int));
            assert(wider.last() == row@[k as int]@);
            if k == 0 {
                assert(cells_text(cells.take(0)) =~= Seq::<char>::empty());
                assert(line@ =~= seq!['['] + quoted(wider[0]));
            } else {
                assert(line@ =~= seq!['['] + (cells_text(wider.drop_last()) + seq![',', ' ']
                    + quoted(wider.last())));
            }
        }
        k += 1;
    }
    assert(cells.take(k as int) =~= cells);
    line.append("]");
    line
}

/// Draws the caret line for a dump of `row`, where the head stands at
/// `head_index` counted from the row's first cell and cells outside the row
/// hold `blank`.
///
/// With the head left of the row the carets start at the margin; with the
/// head right of the row they start where the row's width ends.
pub fn caret_line(row: &Vec<String>, head_index: i128, blank: &str) -> (line: String)
    ensures
        line@ == caret_line_of(symbols(row@), head_index as int, blank@),
{
    let ghost cells = symbols(row@);
    let mut line = String::new();
    let mut k: usize = 0;
    assert(cells.take(0) =~= Seq::empty());
    assert(line@ =~= repeated(' ', 0));
    while k < row.len() && (k as i128) < head_index
        invariant
            k <= row.len(),
            k <= head_index || k == 0,
            cells == symbols(row@),
            line@ == repeated(' ', dump_width(cells.take(k as int))),
        decreases row.len() - k,
    {
        let ghost so_far = dump_width(cells.take(k as int));
        pad(&mut line, width_of(row[k].as_str()));
        pad(&mut line, CELL_DECORATION);
        proof {
            let wider = cells.take(k + 1);
            assert(wider.drop_last() =~= cells.take(k as int));
            assert(wider.last() == row@[k as int]@);
            lemma_repeated_add(' ', so_far, printed_width(row@[k as int]@));
            lemma_repeated_add(
                ' ',
                so_far + printed_width(row@[k as int]@),
                CELL_DECORATION as nat,
            );
        }
        k += 1;
    }
    proof {
        if head_index >= row.len() {
            assert(cells.take(k as int) =~= cells);
        }
        assert(cells.take(k as int) == left_of_head(cells, head_index as int));
    }
    let inside = 0 <= head_index && head_index < row.len() as i128;
    let width = if inside {
        width_of(row[head_index as usize].as_str())
    } else {
        width_of(blank)
    };
    let ghost offset = line@;
    underline(&mut line, width);
    underline(&mut line, CARET_MARGIN);
    proof {
        lemma_repeated_add('^', width as nat, CARET_MARGIN as nat);
        assert(line@ =~= offset + repeated('^', (width + CARET_MARGIN) as nat));
    }
    line
}

} // verus!
