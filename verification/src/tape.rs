//! The tape: unbounded in both directions, stored cell by cell as written.

use vstd::prelude::*;
use std::collections::HashMap;
use crate::symbol::symbols;

verus! {

broadcast use vstd::std_specs::hash::group_hash_axioms;

/// A tape as plain values: the symbols written, by position.
pub type TapeView = Map<int, Seq<char>>;

/// The symbol at `at`: what was written there, or `blank` if nothing was.
pub open spec fn cell(tape: TapeView, blank: Seq<char>, at: int) -> Seq<char> {
    if tape.contains_key(at) {
        tape[at]
    } else {
        blank
    }
}

/// The tape that holds `input` from position 0 on and nothing else.
pub open spec fn input_tape(input: Seq<Seq<char>>) -> TapeView {
    Map::new(|at: int| 0 <= at < input.len(), |at: int| input[at])
}

/// The cell at `at` holds a symbol other than `blank`.
pub open spec fn holds_symbol(tape: TapeView, blank: Seq<char>, at: int) -> bool {
    tape.contains_key(at) && tape[at] != blank
}

/// No cell of the tape holds a symbol other than `blank`.
pub open spec fn is_blank(tape: TapeView, blank: Seq<char>) -> bool {
    forall|at: int| !holds_symbol(tape, blank, at)
}

/// `at` is the lowest position that holds a symbol other than `blank`.
pub open spec fn is_first_symbol(tape: TapeView, blank: Seq<char>, at: int) -> bool {
    &&& holds_symbol(tape, blank, at)
    &&& forall|other: int| holds_symbol(tape, blank, other) ==> at <= other
}

/// `at` is the highest position that holds a symbol other than `blank`.
pub open spec fn is_last_symbol(tape: TapeView, blank: Seq<char>, at: int) -> bool {
    &&& holds_symbol(tape, blank, at)
    &&& forall|other: int| holds_symbol(tape, blank, other) ==> other <= at
}

/// The lowest position that holds a symbol other than `blank`, if there is one.
pub open spec fn first_symbol(tape: TapeView, blank: Seq<char>) -> int {
    choose|at: int| is_first_symbol(tape, blank, at)
}

/// The highest position that holds a symbol other than `blank`, if there is one.
pub open spec fn last_symbol(tape: TapeView, blank: Seq<char>) -> int {
    choose|at: int| is_last_symbol(tape, blank, at)
}

/// The cells from `from` to `to`, both included, blanks and all.
pub open spec fn window(tape: TapeView, blank: Seq<char>, from: int, to: int) -> Seq<Seq<char>> {
    Seq::new((to - from + 1) as nat, |k: int| cell(tape, blank, from + k))
}

/// The tape as it is shown: from its first symbol other than `blank` to its
/// last, with the blanks in between.
pub open spec fn rendered(tape: TapeView, blank: Seq<char>) -> Seq<Seq<char>> {
    window(tape, blank, first_symbol(tape, blank), last_symbol(tape, blank))
}

/// The tape as it is reported: from its first symbol other than `blank` to its
/// last, or nothing if it has none.
pub open spec fn shown(tape: TapeView, blank: Seq<char>) -> Seq<Seq<char>> {
    if is_blank(tape, blank) {
        Seq::empty()
    } else {
        rendered(tape, blank)
    }
}

/// The head's position counted from the first cell reported, or 0 if none is.
pub open spec fn head_index(tape: TapeView, blank: Seq<char>, head: int) -> int {
    if is_blank(tape, blank) {
        0
    } else {
        head - first_symbol(tape, blank)
    }
}

/// The tape after writing, on an empty tape and one after the other,
/// `written[k]` at `positions[k]` for each `k`.
pub open spec fn tape_of_writes(positions: Seq<int>, written: Seq<Seq<char>>) -> TapeView
    decreases positions.len(),
{
    if positions.len() == 0 {
        Map::empty()
    } else {
        tape_of_writes(positions.drop_last(), written.drop_last()).insert(
            positions.last(),
            written.last(),
        )
    }
}

/// Why a tape cannot be shown.
#[derive(Debug, Clone, Copy, PartialEq, Eq, Structural)]
pub enum RenderError {
    /// No cell holds a symbol other than the blank.
    EmptyTape,
}

/// A sparse tape. Only the cells that were written are stored; every other
/// cell reads as the blank symbol of whoever looks.
pub struct Tape {
    cells: HashMap<isize, String>,
}

impl View for Tape {
    type V = TapeView;

    closed spec fn view(&self) -> TapeView {
        Map::new(
            |at: int| isize::MIN <= at <= isize::MAX && self.cells@.contains_key(at as isize),
            |at: int| self.cells@[at as isize]@,
        )
    }
}

impl Tape {
    /// A tape on which nothing is written.
    pub fn new() -> (tape: Self)
        ensures
            tape@ == Map::<int, Seq<char>>::empty(),
    {
        let tape = Tape { cells: HashMap::new() };
        assert(tape@ =~= Map::<int, Seq<char>>::empty());
        tape
    }

    /// A tape that holds `input` from position 0 on.
    pub fn from_input(input: &Vec<String>) -> (tape: Self)
        requires
            input.len() <= isize::MAX,
        ensures
            tape@ == input_tape(symbols(input@)),
    {
        let mut tape = Tape::new();
        let mut i: usize = 0;
        while i < input.len()
            invariant
                i <= input.len() <= isize::MAX,
                tape@ == input_tape(symbols(input@.take(i as int))),
            decreases input.len() - i,
        {
            tape.write(i as isize, input[i].clone());
            assert(tape@ =~= input_tape(symbols(input@.take(i + 1))));
            i += 1;
        }
        assert(input@.take(i as int) =~= input@);
        tape
    }

    /// The symbol at `at`, for a reader whose blank is `default`.
    pub fn read(&self, at: isize, default: &str) -> (symbol: String)
        ensures
            symbol@ == cell(self@, default@, at as int),
    {
        match self.cells.get(&at) {
            Some(s) => s.clone(),
            None => default.to_owned(),
        }
    }

    /// The lowest and the highest position that hold a symbol other than
    /// `blank`, or `None` if no position does.
    pub fn extent(&self, blank: &str) -> (bounds: Option<(isize, isize)>)
        ensures
            match bounds {
                None => is_blank(self@, blank@),
                Some((first, last)) => is_first_symbol(self@, blank@, first as int)
                    && is_last_symbol(self@, blank@, last as int),
            },
    {
        let blank: String = blank.to_owned();
        let mut bounds: Option<(isize, isize)> = None;
        for entry in it: self.cells.iter()
            invariant
                forall|k: int|
                    0 <= k < it.index() && (#[trigger] it.seq()[k]).1@ != blank@ ==> (
                    bounds matches Some((lo, hi)) && lo <= *it.seq()[k].0 <= hi),
                bounds matches Some((lo, hi)) ==> holds_symbol(self@, blank@, lo as int)
                    && holds_symbol(self@, blank@, hi as int),
        {
            let (at, symbol) = entry;
            if *symbol != blank {
                bounds = match bounds {
                    None => Some((*at, *at)),
                    Some((lo, hi)) => {
                        let lowest = if *at < lo { *at } else { lo };
                        let highest = if *at > hi { *at } else { hi };
                        Some((lowest, highest))
                    },
                };
            }
        }
        bounds
    }

    /// Writes `symbol` at `at`, over whatever was there.
    pub fn write(&mut self, at: isize, symbol: String)
        ensures
            final(self)@ == old(self)@.insert(at as int, symbol@),
    {
        self.cells.insert(at, symbol);
        assert(self@ =~= old(self)@.insert(at as int, symbol@));
    }
}

/// The first and the last symbol of a tape are where they are: no other
/// position qualifies.
pub proof fn lemma_extent_unique(tape: TapeView, blank: Seq<char>, first: int, last: int)
    requires
        is_first_symbol(tape, blank, first),
        is_last_symbol(tape, blank, last),
    ensures
        first == first_symbol(tape, blank),
        last == last_symbol(tape, blank),
        first <= last,
        !is_blank(tape, blank),
{
    let f = first_symbol(tape, blank);
    let l = last_symbol(tape, blank);
    assert(is_first_symbol(tape, blank, f));
    assert(is_last_symbol(tape, blank, l));
}

/// Writes at rising positions do not disturb each other: the tape holds each
/// symbol where it was written, and nothing anywhere else.
proof fn lemma_writes_stay(positions: Seq<int>, written: Seq<Seq<char>>)
    requires
        positions.len() == written.len(),
        forall|a: int, b: int| 0 <= a < b < positions.len() ==> positions[a] < positions[b],
    ensures
        forall|k: int|
            0 <= k < positions.len() ==> tape_of_writes(positions, written).contains_key(
                #[trigger] positions[k],
            ) && tape_of_writes(positions, written)[positions[k]] == written[k],
        forall|at: int| #[trigger]
            tape_of_writes(positions, written).contains_key(at) ==> exists|k: int|
                0 <= k < positions.len() && positions[k] == at,
    decreases positions.len(),
{
    if positions.len() > 0 {
        let front = positions.drop_last();
        let tape = tape_of_writes(positions, written);
        let n = positions.len() as int;
        lemma_writes_stay(front, written.drop_last());
        assert forall|k: int| 0 <= k < n implies tape.contains_key(#[trigger] positions[k])
            && tape[positions[k]] == written[k] by {
            if k < n - 1 {
                assert(front[k] == positions[k]);
                assert(positions[k] < positions[n - 1]);
                assert(written.drop_last()[k] == written[k]);
            }
        }
        assert forall|at: int| #[trigger] tape.contains_key(at) implies exists|k: int|
            0 <= k < n && positions[k] == at by {
            if at == positions[n - 1] {
                assert(0 <= n - 1 < n && positions[n - 1] == at);
            } else {
                assert(tape_of_writes(front, written.drop_last()).contains_key(at));
                let k = choose|k: int| 0 <= k < front.len() && front[k] == at;
                assert(0 <= k < n && positions[k] == at);
            }
        }
    }
}

/// What was written comes back. Symbols written at rising positions, the
/// first and the last of them other than the blank, are reported as the row
/// from the first position to the last: each written symbol in its place, a
/// blank in every gap, and nothing before the first or after the last.
pub proof fn lemma_writes_are_shown(
    positions: Seq<int>,
    written: Seq<Seq<char>>,
    blank: Seq<char>,
)
    requires
        positions.len() == written.len(),
        positions.len() > 0,
        forall|a: int, b: int| 0 <= a < b < positions.len() ==> positions[a] < positions[b],
        written[0] != blank,
        written.last() != blank,
    ensures
        ({
            let tape = tape_of_writes(positions, written);
            let row = shown(tape, blank);
            &&& first_symbol(tape, blank) == positions[0]
            &&& last_symbol(tape, blank) == positions.last()
            &&& row.len() == positions.last() - positions[0] + 1
            &&& forall|k: int|
                0 <= k < positions.len() ==> #[trigger] row[positions[k] - positions[0]]
                    == written[k]
            &&& forall|offset: int|
                0 <= offset < row.len() && !positions.contains(positions[0] + offset)
                    ==> #[trigger] row[offset] == blank
        }),
{
    let tape = tape_of_writes(positions, written);
    let n = positions.len() as int;
    lemma_writes_stay(positions, written);
    assert(holds_symbol(tape, blank, positions[0]));
    assert(holds_symbol(tape, blank, positions[n - 1]));
    assert forall|other: int| holds_symbol(tape, blank, other) implies positions[0] <= other
        <= positions[n - 1] by {
        let k = choose|k: int| 0 <= k < n && positions[k] == other;
        if 0 < k {
            assert(positions[0] < positions[k]);
        }
        if k < n - 1 {
            assert(positions[k] < positions[n - 1]);
        }
    }
    lemma_extent_unique(tape, blank, positions[0], positions[n - 1]);
    let row = shown(tape, blank);
    assert forall|k: int| 0 <= k < n implies #[trigger] row[positions[k] - positions[0]]
        == written[k] by {
        if 0 < k {
            assert(positions[0] < positions[k]);
        }
        if k < n - 1 {
            assert(positions[k] < positions[n - 1]);
        }
        assert(tape.contains_key(positions[k]));
    }
}

/// A tape without a symbol other than the blank is reported as the empty row.
pub proof fn lemma_blank_tape_shows_nothing(tape: TapeView, blank: Seq<char>)
    requires
        is_blank(tape, blank),
    ensures
        shown(tape, blank) == Seq::<Seq<char>>::empty(),
        head_index(tape, blank, 0) == 0,
{
}

/// The row reported of a tape begins and ends with a symbol other than the
/// blank, holds every such symbol of the tape, and keeps each cell in between
/// as the tape has it.
pub proof fn lemma_shown_is_trimmed(tape: TapeView, blank: Seq<char>, first: int, last: int)
    requires
        is_first_symbol(tape, blank, first),
        is_last_symbol(tape, blank, last),
    ensures
        ({
            let row = shown(tape, blank);
            &&& row.len() == last - first + 1
            &&& row[0] != blank
            &&& row.last() != blank
            &&& forall|k: int|
                0 <= k < row.len() ==> #[trigger] row[k] == cell(tape, blank, first + k)
            &&& forall|at: int| holds_symbol(tape, blank, at) ==> first <= at <= last
        }),
{
    lemma_extent_unique(tape, blank, first, last);
}

/// Lays the tape out for showing: the cells from the first symbol other than
/// `trim` to the last such symbol, blanks in between included, and with them
/// the head's position counted from the first of these cells.
///
/// The head may stand outside the cells shown, to the left (a negative
/// position) or to the right. A tape without any symbol other than `trim`
/// cannot be laid out.
pub fn arrange_tape(tape: &Tape, trim: &str, head: isize) -> (arranged: Result<
    (i128, Vec<String>),
    RenderError,
>)
    ensures
        is_blank(tape@, trim@) <==> arranged is Err,
        arranged matches Err(e) ==> e == RenderError::EmptyTape,
        arranged matches Ok((head_index, row)) ==> {
            &&& is_first_symbol(tape@, trim@, first_symbol(tape@, trim@))
            &&& is_last_symbol(tape@, trim@, last_symbol(tape@, trim@))
            &&& symbols(row@) == rendered(tape@, trim@)
            &&& head_index == head - first_symbol(tape@, trim@)
        },
{
    match tape.extent(trim) {
        None => Err(RenderError::EmptyTape),
        Some((first, last)) => {
            proof {
                lemma_extent_unique(tape@, trim@, first as int, last as int);
            }
            let mut row: Vec<String> = Vec::new();
            let mut at: isize = first;
            loop
                invariant_except_break
                    first <= at <= last,
                    row@.len() == at - first,
                    symbols(row@) == window(tape@, trim@, first as int, at - 1),
                ensures
                    symbols(row@) == window(tape@, trim@, first as int, last as int),
                decreases last - at,
            {
                let ghost shown = row@;
                row.push(tape.read(at, trim));
                proof {
                    let grown = symbols(row@);
                    let wider = window(tape@, trim@, first as int, at as int);
                    assert(grown.len() == row@.len());
                    assert(wider.len() == at - first + 1);
                    assert forall|k: int| 0 <= k < grown.len() implies grown[k] == wider[k] by {
                        if k < shown.len() {
                            assert(grown[k] == symbols(shown)[k]);
                        }
                    }
                    assert(grown =~= wider);
                }
                if at == last {
                    break ;
                }
                at += 1;
            }
            Ok((head as i128 - first as i128, row))
        },
    }
}

} // verus!
