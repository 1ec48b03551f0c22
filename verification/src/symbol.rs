//! Symbols: the tokens a tape holds. Any string is a symbol.

use vstd::prelude::*;
use vstd::string::StrSliceExecFns;

verus! {

/// The blank of a tape whose user names none: `#`.
pub fn default_blank() -> (blank: String)
    ensures
        blank@ == seq!['#'],
{
    proof {
        reveal_strlit("#");
    }
    let blank = "#".to_owned();
    assert(blank@ =~= seq!['#']);
    blank
}

/// A row of symbols as plain values.
pub open spec fn symbols(row: Seq<String>) -> Seq<Seq<char>> {
    row.map_values(|s: String| s@)
}

/// The characters of a text, each as a symbol of its own.
pub open spec fn singles(text: Seq<char>) -> Seq<Seq<char>> {
    Seq::new(text.len(), |i: int| seq![text[i]])
}

/// Splits a raw input into the symbols to lay on the tape: one for each
/// character, in order.
pub fn split_input(raw: &str) -> (input: Vec<String>)
    ensures
        symbols(input@) == singles(raw@),
{
    let count = raw.unicode_len();
    let mut input: Vec<String> = Vec::new();
    let mut i: usize = 0;
    while i < count
        invariant
            i <= count,
            count == raw@.len(),
            input@.len() == i,
            forall|k: int| 0 <= k < i ==> (#[trigger] input@[k])@ == seq![raw@[k]],
        decreases count - i,
    {
        let one = raw.substring_char(i, i + 1);
        assert(one@ =~= seq![raw@[i as int]]);
        input.push(one.to_owned());
        i += 1;
    }
    assert(symbols(input@) =~= singles(raw@));
    input
}

} // verus!
