//! Compiling rule declarations into a transition table.

use vstd::prelude::*;
use crate::program::{program_view, RuleDecl, RuleDeclView};
use crate::table::{TableView, TransitionRule};

verus! {

/// Why a program cannot be compiled.
#[derive(Debug, Clone, Copy, PartialEq, Eq, Structural)]
pub enum CompileError {
    /// The program declares no rule, so there is no state to start in.
    EmptyProgram,
}

/// Rule `i` of the program is a rule for `state`.
pub open spec fn names_state(program: Seq<RuleDeclView>, i: int, state: Seq<char>) -> bool {
    0 <= i < program.len() && program[i].state == state
}

/// Transition `j` of rule `i` declares what `state` does on reading `symbol`.
pub open spec fn declares(
    program: Seq<RuleDeclView>,
    i: int,
    j: int,
    state: Seq<char>,
    symbol: Seq<char>,
) -> bool {
    &&& names_state(program, i, state)
    &&& 0 <= j < program[i].transitions.len()
    &&& program[i].transitions[j].read == symbol
}

/// Transition `j1` of rule `i1` stands at or before transition `j2` of rule `i2`.
pub open spec fn in_order(i1: int, j1: int, i2: int, j2: int) -> bool {
    i1 < i2 || (i1 == i2 && j1 <= j2)
}

/// Transition `j` of rule `i` is the last in the source to declare what
/// `state` does on reading `symbol`.
pub open spec fn declares_last(
    program: Seq<RuleDeclView>,
    i: int,
    j: int,
    state: Seq<char>,
    symbol: Seq<char>,
) -> bool {
    &&& declares(program, i, j, state, symbol)
    &&& forall|i2: int, j2: int| #[trigger]
        declares(program, i2, j2, state, symbol) ==> in_order(i2, j2, i, j)
}

/// The table a program stands for. Its states are those that some rule names;
/// a state's symbols are those that some transition of one of its rules reads;
/// and the entry of a pair is the one declared last.
pub open spec fn table_of(program: Seq<RuleDeclView>) -> TableView {
    Map::new(
        |state: Seq<char>| exists|i: int| names_state(program, i, state),
        |state: Seq<char>|
            Map::new(
                |symbol: Seq<char>|
                    exists|i: int, j: int| declares(program, i, j, state, symbol),
                |symbol: Seq<char>|
                    {
                        let (i, j) = choose|i: int, j: int|
                            declares_last(program, i, j, state, symbol);
                        program[i].transitions[j].destination()
                    },
            ),
    )
}

/// The state a program starts in: the state of its first rule.
pub open spec fn initial_state_of(program: Seq<RuleDeclView>) -> Option<Seq<char>> {
    if program.len() == 0 {
        None
    } else {
        Some(program[0].state)
    }
}

/// The initial state is the state of the first rule, whatever rules follow
/// and in whatever order: two programs that begin with a rule for the same
/// state start in the same state.
pub proof fn lemma_initial_state_is_first(first: Seq<RuleDeclView>, second: Seq<RuleDeclView>)
    requires
        first.len() > 0,
        second.len() > 0,
        first[0].state == second[0].state,
    ensures
        initial_state_of(first) == Some(first[0].state),
        initial_state_of(first) == initial_state_of(second),
{
}

/// Whatever declares a pair, some declaration of that pair is the last one,
/// and it stands at or after the given one.
pub proof fn lemma_last_declaration_exists(
    program: Seq<RuleDeclView>,
    i: int,
    j: int,
    state: Seq<char>,
    symbol: Seq<char>,
) -> (last: (int, int))
    requires
        declares(program, i, j, state, symbol),
    ensures
        declares_last(program, last.0, last.1, state, symbol),
        in_order(i, j, last.0, last.1),
    decreases program.len() - i, program[i].transitions.len() - j,
{
    if exists|i2: int, j2: int|
        declares(program, i2, j2, state, symbol) && !in_order(i2, j2, i, j) {
        let (i2, j2) = choose|i2: int, j2: int|
            declares(program, i2, j2, state, symbol) && !in_order(i2, j2, i, j);
        lemma_last_declaration_exists(program, i2, j2, state, symbol)
    } else {
        (i, j)
    }
}

/// Last write wins: where a pair of state and symbol is declared more than
/// once (or once), the table holds what its last declaration says.
pub proof fn lemma_last_declaration_wins(
    program: Seq<RuleDeclView>,
    i: int,
    j: int,
    state: Seq<char>,
    symbol: Seq<char>,
)
    requires
        declares_last(program, i, j, state, symbol),
    ensures
        table_of(program).contains_key(state),
        table_of(program)[state].contains_key(symbol),
        table_of(program)[state][symbol] == program[i].transitions[j].destination(),
{
    assert(names_state(program, i, state));
    assert(declares(program, i, j, state, symbol));
    let (i2, j2) = choose|i2: int, j2: int| declares_last(program, i2, j2, state, symbol);
    assert(declares_last(program, i2, j2, state, symbol));
    assert(in_order(i, j, i2, j2) && in_order(i2, j2, i, j));
}

/// Transition `j` of rule `i` comes before the `m`-th transition of rule `n`.
spec fn before(i: int, j: int, n: int, m: int) -> bool {
    i < n || (i == n && j < m)
}

/// Among the transitions before the `m`-th of rule `n`, transition `j` of rule
/// `i` is the last to declare the pair.
spec fn last_before(
    program: Seq<RuleDeclView>,
    n: int,
    m: int,
    i: int,
    j: int,
    state: Seq<char>,
    symbol: Seq<char>,
) -> bool {
    &&& declares(program, i, j, state, symbol)
    &&& before(i, j, n, m)
    &&& forall|i2: int, j2: int| #[trigger]
        declares(program, i2, j2, state, symbol) && before(i2, j2, n, m) ==> in_order(
            i2,
            j2,
            i,
            j,
        )
}

spec fn has_entry(table: TableView, state: Seq<char>, symbol: Seq<char>) -> bool {
    table.contains_key(state) && table[state].contains_key(symbol)
}

/// `table` holds the first `states` rules' states and every transition before
/// the `m`-th of rule `n`.
spec fn compiled_up_to(
    table: TableView,
    program: Seq<RuleDeclView>,
    states: int,
    n: int,
    m: int,
) -> bool {
    &&& forall|s: Seq<char>| #[trigger]
        table.contains_key(s) <==> exists|i: int| names_state(program, i, s) && i < states
    &&& forall|s: Seq<char>, r: Seq<char>, i: int, j: int| #[trigger]
        declares(program, i, j, s, r) && before(i, j, n, m) ==> has_entry(table, s, r)
    &&& forall|s: Seq<char>, r: Seq<char>| #[trigger]
        has_entry(table, s, r) ==> exists|i: int, j: int| #[trigger]
            last_before(program, n, m, i, j, s, r) && table[s][r]
                == program[i].transitions[j].destination()
}

proof fn lemma_declare(table: TableView, program: Seq<RuleDeclView>, n: int)
    requires
        0 <= n < program.len(),
        compiled_up_to(table, program, n, n, 0),
    ensures
        compiled_up_to(
            if table.contains_key(program[n].state) {
                table
            } else {
                table.insert(program[n].state, Map::empty())
            },
            program,
            n + 1,
            n,
            0,
        ),
{
    let state = program[n].state;
    let grown = if table.contains_key(state) {
        table
    } else {
        table.insert(state, Map::empty())
    };
    assert(names_state(program, n, state));
    assert forall|s: Seq<char>| #[trigger]
        grown.contains_key(s) <==> exists|i: int| names_state(program, i, s) && i < n + 1 by {
        if grown.contains_key(s) && !table.contains_key(s) {
            assert(names_state(program, n, s) && n < n + 1);
        }
        if exists|i: int| names_state(program, i, s) && i < n + 1 {
            let i = choose|i: int| names_state(program, i, s) && i < n + 1;
            if i < n {
                assert(names_state(program, i, s) && i < n);
            }
        }
    }
    assert forall|s: Seq<char>, r: Seq<char>| #[trigger]
        has_entry(grown, s, r) implies has_entry(table, s, r) by {}
    assert forall|s: Seq<char>, r: Seq<char>, i: int, j: int| #[trigger]
        declares(program, i, j, s, r) && before(i, j, n, 0) implies has_entry(grown, s, r) by {
        assert(has_entry(table, s, r));
    }
}

proof fn lemma_insert(table: TableView, program: Seq<RuleDeclView>, n: int, m: int)
    requires
        0 <= n < program.len(),
        0 <= m < program[n].transitions.len(),
        compiled_up_to(table, program, n + 1, n, m),
    ensures
        table.contains_key(program[n].state),
        compiled_up_to(
            table.insert(
                program[n].state,
                table[program[n].state].insert(
                    program[n].transitions[m].read,
                    program[n].transitions[m].destination(),
                ),
            ),
            program,
            n + 1,
            n,
            m + 1,
        ),
{
    let state = program[n].state;
    let symbol = program[n].transitions[m].read;
    let dest = program[n].transitions[m].destination();
    assert(names_state(program, n, state) && n < n + 1);
    let grown = table.insert(state, table[state].insert(symbol, dest));
    assert(declares(program, n, m, state, symbol));
    assert forall|s: Seq<char>| #[trigger]
        grown.contains_key(s) <==> exists|i: int| names_state(program, i, s) && i < n + 1 by {
        assert(grown.contains_key(s) <==> table.contains_key(s));
    }
    assert forall|s: Seq<char>, r: Seq<char>, i: int, j: int| #[trigger]
        declares(program, i, j, s, r) && before(i, j, n, m + 1) implies has_entry(
        grown,
        s,
        r,
    ) by {
        if i == n && j == m {
            assert(s == state && r == symbol);
        } else {
            assert(before(i, j, n, m));
            assert(has_entry(table, s, r));
        }
    }
    assert forall|s: Seq<char>, r: Seq<char>| #[trigger] has_entry(grown, s, r) implies exists|
        i: int,
        j: int,
    | #[trigger]
        last_before(program, n, m + 1, i, j, s, r) && grown[s][r]
            == program[i].transitions[j].destination() by {
        if s == state && r == symbol {
            assert(last_before(program, n, m + 1, n, m, s, r));
        } else {
            assert(has_entry(table, s, r));
            let (i, j) = choose|i: int, j: int| #[trigger]
                last_before(program, n, m, i, j, s, r) && table[s][r]
                    == program[i].transitions[j].destination();
            assert(last_before(program, n, m + 1, i, j, s, r)) by {
                assert forall|i2: int, j2: int| #[trigger]
                    declares(program, i2, j2, s, r) && before(i2, j2, n, m + 1) implies in_order(
                    i2,
                    j2,
                    i,
                    j,
                ) by {
                    assert(!(i2 == n && j2 == m));
                    assert(before(i2, j2, n, m));
                }
            }
            assert(grown[s][r] == table[s][r]);
        }
    }
}

proof fn lemma_next_rule(table: TableView, program: Seq<RuleDeclView>, n: int)
    requires
        0 <= n < program.len(),
        compiled_up_to(table, program, n + 1, n, program[n].transitions.len() as int),
    ensures
        compiled_up_to(table, program, n + 1, n + 1, 0),
{
    let m = program[n].transitions.len() as int;
    assert forall|s: Seq<char>, r: Seq<char>, i: int, j: int| #[trigger]
        declares(program, i, j, s, r) && before(i, j, n + 1, 0) implies has_entry(
        table,
        s,
        r,
    ) by {
        assert(before(i, j, n, m));
    }
    assert forall|s: Seq<char>, r: Seq<char>| #[trigger] has_entry(table, s, r) implies exists|
        i: int,
        j: int,
    | #[trigger]
        last_before(program, n + 1, 0, i, j, s, r) && table[s][r]
            == program[i].transitions[j].destination() by {
        let (i, j) = choose|i: int, j: int| #[trigger]
            last_before(program, n, m, i, j, s, r) && table[s][r]
                == program[i].transitions[j].destination();
        assert(last_before(program, n + 1, 0, i, j, s, r)) by {
            assert forall|i2: int, j2: int| #[trigger]
                declares(program, i2, j2, s, r) && before(i2, j2, n + 1, 0) implies in_order(
                i2,
                j2,
                i,
                j,
            ) by {
                assert(before(i2, j2, n, m));
            }
        }
    }
}

proof fn lemma_compiled(table: TableView, program: Seq<RuleDeclView>)
    requires
        compiled_up_to(table, program, program.len() as int, program.len() as int, 0),
    ensures
        table == table_of(program),
{
    let n = program.len() as int;
    let whole = table_of(program);
    assert forall|s: Seq<char>| table.contains_key(s) <==> whole.contains_key(s) by {
        if whole.contains_key(s) {
            let i = choose|i: int| names_state(program, i, s);
            assert(names_state(program, i, s) && i < n);
        }
    }
    assert forall|s: Seq<char>| #[trigger] table.contains_key(s) implies table[s] =~= whole[s] by {
        assert forall|r: Seq<char>| table[s].contains_key(r) <==> whole[s].contains_key(r) by {
            if table[s].contains_key(r) {
                assert(has_entry(table, s, r));
            }
            if whole[s].contains_key(r) {
                let (i, j) = choose|i: int, j: int| declares(program, i, j, s, r);
                assert(declares(program, i, j, s, r) && before(i, j, n, 0));
                assert(has_entry(table, s, r));
            }
        }
        assert forall|r: Seq<char>| #[trigger] table[s].contains_key(r) implies table[s][r]
            == whole[s][r] by {
            assert(has_entry(table, s, r));
            let (i, j) = choose|i: int, j: int| #[trigger]
                last_before(program, n, 0, i, j, s, r) && table[s][r]
                    == program[i].transitions[j].destination();
            assert(declares_last(program, i, j, s, r)) by {
                assert forall|i2: int, j2: int| #[trigger]
                    declares(program, i2, j2, s, r) implies in_order(i2, j2, i, j) by {
                    assert(before(i2, j2, n, 0));
                }
            }
            let (i3, j3) = choose|i3: int, j3: int| declares_last(program, i3, j3, s, r);
            assert(declares_last(program, i3, j3, s, r));
            assert(in_order(i, j, i3, j3) && in_order(i3, j3, i, j));
        }
    }
    assert(table =~= whole);
}

/// Builds the transition table of a program and names its initial state: the
/// state of the first rule.
///
/// Later declarations of a (state, symbol) pair replace earlier ones. A
/// program without rules has no initial state and is refused.
pub fn compile(rules: Vec<RuleDecl>) -> (compiled: Result<(TransitionRule, String), CompileError>)
    ensures
        rules@.len() == 0 <==> compiled is Err,
        compiled matches Err(e) ==> e == CompileError::EmptyProgram,
        compiled matches Ok((table, initial)) ==> {
            &&& table.wf()
            &&& table@ == table_of(program_view(rules@))
            &&& Some(initial@) == initial_state_of(program_view(rules@))
        },
{
    if rules.len() == 0 {
        return Err(CompileError::EmptyProgram);
    }
    let initial = rules[0].state.clone();
    let ghost program = program_view(rules@);
    let mut table = TransitionRule::new();
    let mut n: usize = 0;
    while n < rules.len()
        invariant
            n <= rules.len(),
            program == program_view(rules@),
            table.wf(),
            compiled_up_to(table@, program, n as int, n as int, 0),
        decreases rules.len() - n,
    {
        let rule = &rules[n];
        proof {
            lemma_declare(table@, program, n as int);
        }
        table.declare(rule.state.as_str());
        let mut m: usize = 0;
        while m < rule.transitions.len()
            invariant
                n < rules.len(),
                rule == &rules@[n as int],
                m <= rule.transitions.len(),
                program == program_view(rules@),
                table.wf(),
                compiled_up_to(table@, program, n + 1, n as int, m as int),
            decreases rule.transitions.len() - m,
        {
            let (read, dest) = rule.transitions[m].clone().into();
            proof {
                lemma_insert(table@, program, n as int, m as int);
            }
            table.insert(rule.state.as_str(), read, dest);
            m += 1;
        }
        proof {
            lemma_next_rule(table@, program, n as int);
        }
        n += 1;
    }
    proof {
        lemma_compiled(table@, program);
    }
    Ok((table, initial))
}

} // verus!
