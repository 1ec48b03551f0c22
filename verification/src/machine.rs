//! The machine: a table, a tape, a head and a current state, run step by step.

use vstd::prelude::*;
use crate::program::Movement;
use crate::table::{TableView, TransitionRule};
use crate::symbol::symbols;
use crate::tape::{cell, input_tape, Tape, TapeView};

verus! {

/// Why a run was given up.
#[derive(Debug, Clone, Copy, PartialEq, Eq, Structural)]
pub enum AbortReason {
    /// The table has no rules for the current state.
    NoRuleForState,
    /// The current state has rules, but none for the symbol under the head.
    NoRuleForSymbol,
    /// The head was told to move past the last position this machine can count to.
    HeadOutOfRange,
}

/// Where a run stands.
#[derive(Debug, Clone, Copy, PartialEq, Eq, Structural)]
pub enum Status {
    Running,
    Accepted,
    Rejected,
    Output,
    Aborted(AbortReason),
}

/// A machine in the course of a run, as plain values.
pub struct MachineView {
    pub table: TableView,
    pub blank: Seq<char>,
    pub status: Status,
    pub state: Seq<char>,
    pub head: int,
    pub tape: TapeView,
}

/// The machine before its first step: running, in the initial state, with the
/// head at position 0 and the input on the tape from there on.
pub open spec fn start(
    table: TableView,
    initial_state: Seq<char>,
    input: Seq<Seq<char>>,
    blank: Seq<char>,
) -> MachineView {
    MachineView {
        table,
        blank,
        status: Status::Running,
        state: initial_state,
        head: 0,
        tape: input_tape(input),
    }
}

/// The machine after a move of the head to `to`, in the state `next` if one
/// is given and in its old state otherwise. A head that cannot be counted
/// that far stays, and the run is given up.
pub open spec fn moved(m: MachineView, to: int, next: Option<Seq<char>>) -> MachineView {
    if isize::MIN <= to <= isize::MAX {
        MachineView {
            head: to,
            state: match next {
                Some(name) => name,
                None => m.state,
            },
            ..m
        }
    } else {
        MachineView { status: Status::Aborted(AbortReason::HeadOutOfRange), ..m }
    }
}

/// One step. A machine that is not running stays as it is. A running one
/// reads the symbol under the head and looks up its state and that symbol;
/// without an entry the run is given up and nothing else changes. With one,
/// the entry's symbol is written under the head, and then the entry's action
/// is taken: the head moves one cell, or the run ends.
pub open spec fn step_of(m: MachineView) -> MachineView {
    let symbol = cell(m.tape, m.blank, m.head);
    if m.status != Status::Running {
        m
    } else if !m.table.contains_key(m.state) {
        MachineView { status: Status::Aborted(AbortReason::NoRuleForState), ..m }
    } else if !m.table[m.state].contains_key(symbol) {
        MachineView { status: Status::Aborted(AbortReason::NoRuleForSymbol), ..m }
    } else {
        let dest = m.table[m.state][symbol];
        let written = MachineView { tape: m.tape.insert(m.head, dest.write), ..m };
        match dest.result {
            Movement::Left => moved(written, m.head - 1, dest.next),
            Movement::Right => moved(written, m.head + 1, dest.next),
            Movement::Accept => MachineView { status: Status::Accepted, ..written },
            Movement::Reject => MachineView { status: Status::Rejected, ..written },
            Movement::Output => MachineView { status: Status::Output, ..written },
        }
    }
}

/// `count` steps, one after the other.
pub open spec fn steps_of(m: MachineView, count: nat) -> MachineView
    decreases count,
{
    if count == 0 {
        m
    } else {
        step_of(steps_of(m, (count - 1) as nat))
    }
}

/// A machine that has stopped stays as it is, however many steps are asked of it.
pub proof fn lemma_stopped_stays(m: MachineView, count: nat)
    requires
        m.status != Status::Running,
    ensures
        steps_of(m, count) == m,
    decreases count,
{
    if count > 0 {
        lemma_stopped_stays(m, (count - 1) as nat);
    }
}

/// Steps add up: `b` steps after `a` steps are `a + b` steps.
pub proof fn lemma_steps_add(m: MachineView, a: nat, b: nat)
    ensures
        steps_of(steps_of(m, a), b) == steps_of(m, a + b),
    decreases b,
{
    if b > 0 {
        lemma_steps_add(m, a, (b - 1) as nat);
    }
}

/// A run never touches its table or its blank: every entry it acts on is one
/// the table had from the start.
pub proof fn lemma_steps_keep_table(m: MachineView, count: nat)
    ensures
        steps_of(m, count).table == m.table,
        steps_of(m, count).blank == m.blank,
    decreases count,
{
    if count > 0 {
        lemma_steps_keep_table(m, (count - 1) as nat);
    }
}

/// A step moves the head by one cell at most, and changes no cell of the
/// tape but the one under the head.
pub proof fn lemma_step_is_local(m: MachineView)
    ensures
        m.head - 1 <= step_of(m).head <= m.head + 1,
        forall|at: int|
            at != m.head ==> (step_of(m).tape.contains_key(at) <==> m.tape.contains_key(at)),
        forall|at: int|
            at != m.head && m.tape.contains_key(at) ==> step_of(m).tape[at] == m.tape[at],
{
}

/// A machine: the table it runs, the blank of its tape, and where its run stands.
pub struct Machine {
    rules: TransitionRule,
    default: String,
    status: Status,
    state: String,
    head: isize,
    tape: Tape,
}

impl View for Machine {
    type V = MachineView;

    closed spec fn view(&self) -> MachineView {
        MachineView {
            table: self.rules@,
            blank: self.default@,
            status: self.status,
            state: self.state@,
            head: self.head as int,
            tape: self.tape@,
        }
    }
}

impl Machine {
    /// The machine's table is well formed.
    pub closed spec fn wf(&self) -> bool {
        self.rules.wf()
    }

    /// Sets a machine up for a run of `rules` from `initial_state` on `input`,
    /// with `default` as the blank.
    pub fn new(
        rules: TransitionRule,
        initial_state: &str,
        input: &Vec<String>,
        default: &str,
    ) -> (m: Self)
        requires
            rules.wf(),
            input.len() <= isize::MAX,
        ensures
            m.wf(),
            m@ == start(rules@, initial_state@, symbols(input@), default@),
    {
        Machine::resume(rules, initial_state, 0, Tape::from_input(input), default)
    }

    /// Sets a machine up to run `rules` on from a given state, head position
    /// and tape, with `default` as the blank.
    pub fn resume(
        rules: TransitionRule,
        state: &str,
        head: isize,
        tape: Tape,
        default: &str,
    ) -> (m: Self)
        requires
            rules.wf(),
        ensures
            m.wf(),
            m@ == (MachineView {
                table: rules@,
                blank: default@,
                status: Status::Running,
                state: state@,
                head: head as int,
                tape: tape@,
            }),
    {
        Machine {
            rules,
            default: default.to_owned(),
            status: Status::Running,
            state: state.to_owned(),
            head,
            tape,
        }
    }

    /// Where the run stands.
    pub fn status(&self) -> (status: Status)
        ensures
            status == self@.status,
    {
        self.status
    }

    /// The current state.
    pub fn state(&self) -> (state: &str)
        ensures
            state@ == self@.state,
    {
        self.state.as_str()
    }

    /// The blank of the tape.
    pub fn blank(&self) -> (blank: &str)
        ensures
            blank@ == self@.blank,
    {
        self.default.as_str()
    }

    /// The position of the head.
    pub fn head(&self) -> (head: isize)
        ensures
            head == self@.head,
    {
        self.head
    }

    /// The symbol under the head.
    pub fn symbol(&self) -> (symbol: String)
        ensures
            symbol@ == cell(self@.tape, self@.blank, self@.head),
    {
        self.tape.read(self.head, self.default.as_str())
    }

    /// The tape.
    pub fn tape(&self) -> (tape: &Tape)
        ensures
            tape@ == self@.tape,
    {
        &self.tape
    }

    /// Takes one step, and says where the run stands after it.
    pub fn step(&mut self) -> (status: Status)
        requires
            old(self).wf(),
        ensures
            final(self).wf(),
            final(self)@ == step_of(old(self)@),
            status == final(self)@.status,
    {
        if self.status != Status::Running {
            return self.status;
        }
        let symbol = self.tape.read(self.head, self.default.as_str());
        if !self.rules.has_state(self.state.as_str()) {
            self.status = Status::Aborted(AbortReason::NoRuleForState);
            return self.status;
        }
        match self.rules.get(self.state.as_str(), symbol.as_str()) {
            None => {
                self.status = Status::Aborted(AbortReason::NoRuleForSymbol);
            },
            Some(dest) => {
                self.tape.write(self.head, dest.write.clone());
                match dest.result {
                    Movement::Left => {
                        if self.head > isize::MIN {
                            self.head = self.head - 1;
                            if let Some(name) = &dest.next {
                                self.state = name.clone();
                            }
                        } else {
                            self.status = Status::Aborted(AbortReason::HeadOutOfRange);
                        }
                    },
                    Movement::Right => {
                        if self.head < isize::MAX {
                            self.head = self.head + 1;
                            if let Some(name) = &dest.next {
                                self.state = name.clone();
                            }
                        } else {
                            self.status = Status::Aborted(AbortReason::HeadOutOfRange);
                        }
                    },
                    Movement::Accept => {
                        self.status = Status::Accepted;
                    },
                    Movement::Reject => {
                        self.status = Status::Rejected;
                    },
                    Movement::Output => {
                        self.status = Status::Output;
                    },
                }
            },
        }
        self.status
    }

    /// Takes steps until the run ends, but no more than `limit` of them, and
    /// says where the run stands then.
    pub fn run(&mut self, limit: u64) -> (status: Status)
        requires
            old(self).wf(),
        ensures
            final(self).wf(),
            final(self)@ == steps_of(old(self)@, limit as nat),
            status == final(self)@.status,
    {
        let mut taken: u64 = 0;
        while taken < limit && self.status == Status::Running
            invariant
                taken <= limit,
                self.wf(),
                self@ == steps_of(old(self)@, taken as nat),
            decreases limit - taken,
        {
            self.step();
            taken += 1;
        }
        proof {
            if taken < limit {
                lemma_stopped_stays(self@, (limit - taken) as nat);
                lemma_steps_add(old(self)@, taken as nat, (limit - taken) as nat);
            }
        }
        self.status
    }
}

} // verus!
