//! How a run ended, and what there is to report of it.

use vstd::prelude::*;
use crate::dump::{caret_line, caret_line_of};
use crate::machine::{
    lemma_steps_add, lemma_stopped_stays, start, steps_of, AbortReason, Machine, MachineView,
    Status,
};
use crate::table::{TableView, TransitionRule};
use crate::symbol::symbols;
use crate::tape::{arrange_tape, cell, head_index, is_blank, shown};

verus! {

/// What is reported of a run that was given up.
#[derive(Debug, PartialEq, Eq)]
pub struct Abort {
    /// Why the run was given up.
    pub reason: AbortReason,
    /// The state the machine was in.
    pub state: String,
    /// The symbol under the head.
    pub symbol: String,
    /// The tape, from its first symbol other than the blank to its last;
    /// empty if it has none.
    pub tape: Vec<String>,
    /// The line that goes under a dump of `tape` to point at the head.
    pub caret: String,
}

/// An `Abort` as plain values.
pub struct AbortView {
    pub reason: AbortReason,
    pub state: Seq<char>,
    pub symbol: Seq<char>,
    pub tape: Seq<Seq<char>>,
    pub caret: Seq<char>,
}

impl View for Abort {
    type V = AbortView;

    open spec fn view(&self) -> AbortView {
        AbortView {
            reason: self.reason,
            state: self.state@,
            symbol: self.symbol@,
            tape: symbols(self.tape@),
            caret: self.caret@,
        }
    }
}

/// How a run ended.
#[derive(Debug, PartialEq, Eq)]
pub enum RunOutcome {
    /// The machine was still running when its steps were used up.
    Unfinished,
    /// The machine accepted its input.
    Accepted,
    /// The machine rejected its input.
    Rejected,
    /// The machine ended with its tape as the result: from the first symbol
    /// other than the blank to the last; empty if it has none.
    Output(Vec<String>),
    /// The run was given up.
    Aborted(Abort),
}

/// A `RunOutcome` as plain values.
pub enum RunOutcomeView {
    Unfinished,
    Accepted,
    Rejected,
    Output(Seq<Seq<char>>),
    Aborted(AbortView),
}

impl View for RunOutcome {
    type V = RunOutcomeView;

    open spec fn view(&self) -> RunOutcomeView {
        match self {
            RunOutcome::Unfinished => RunOutcomeView::Unfinished,
            RunOutcome::Accepted => RunOutcomeView::Accepted,
            RunOutcome::Rejected => RunOutcomeView::Rejected,
            RunOutcome::Output(row) => RunOutcomeView::Output(symbols(row@)),
            RunOutcome::Aborted(abort) => RunOutcomeView::Aborted(abort@),
        }
    }
}

/// What is reported of a machine that gave up for `reason`.
pub open spec fn abort_of(m: MachineView, reason: AbortReason) -> AbortView {
    AbortView {
        reason,
        state: m.state,
        symbol: cell(m.tape, m.blank, m.head),
        tape: shown(m.tape, m.blank),
        caret: caret_line_of(
            shown(m.tape, m.blank),
            head_index(m.tape, m.blank, m.head),
            m.blank,
        ),
    }
}

/// The outcome of a run that stands as `m` does.
pub open spec fn outcome_of(m: MachineView) -> RunOutcomeView {
    match m.status {
        Status::Running => RunOutcomeView::Unfinished,
        Status::Accepted => RunOutcomeView::Accepted,
        Status::Rejected => RunOutcomeView::Rejected,
        Status::Output => RunOutcomeView::Output(shown(m.tape, m.blank)),
        Status::Aborted(reason) => RunOutcomeView::Aborted(abort_of(m, reason)),
    }
}

/// The cells to report of a machine's tape, and the head's position among them.
fn report(m: &Machine) -> (laid_out: (i128, Vec<String>))
    ensures
        symbols(laid_out.1@) == shown(m@.tape, m@.blank),
        laid_out.0 == head_index(m@.tape, m@.blank, m@.head),
{
    match arrange_tape(m.tape(), m.blank(), m.head()) {
        Ok(laid_out) => laid_out,
        Err(_) => {
            let row: Vec<String> = Vec::new();
            assert(symbols(row@) =~= Seq::<Seq<char>>::empty());
            (0, row)
        },
    }
}

/// The outcome of the run as it stands.
pub fn outcome(m: &Machine) -> (outcome: RunOutcome)
    ensures
        outcome@ == outcome_of(m@),
{
    match m.status() {
        Status::Running => RunOutcome::Unfinished,
        Status::Accepted => RunOutcome::Accepted,
        Status::Rejected => RunOutcome::Rejected,
        Status::Output => {
            let (_, row) = report(m);
            RunOutcome::Output(row)
        },
        Status::Aborted(reason) => {
            let (at, row) = report(m);
            let caret = caret_line(&row, at, m.blank());
            RunOutcome::Aborted(
                Abort { reason, state: m.state().to_owned(), symbol: m.symbol(), tape: row, caret },
            )
        },
    }
}

/// Runs `rules` from `initial_state` on `input`, with `default` as the blank,
/// for at most `limit` steps, and reports how the run ended.
pub fn run(
    rules: TransitionRule,
    initial_state: &str,
    input: &Vec<String>,
    default: &str,
    limit: u64,
) -> (outcome: RunOutcome)
    requires
        rules.wf(),
        input.len() <= isize::MAX,
    ensures
        outcome@ == outcome_of(
            steps_of(start(rules@, initial_state@, symbols(input@), default@), limit as nat),
        ),
{
    let mut m = Machine::new(rules, initial_state, input, default);
    m.run(limit);
    self::outcome(&m)
}

/// A run has no hidden inputs: whatever two runs of the same table from the
/// same initial state on the same input with the same blank report after the
/// same number of steps, they report the same, down to the tape shown.
pub proof fn lemma_run_is_deterministic(
    table: TableView,
    initial_state: Seq<char>,
    input: Seq<Seq<char>>,
    blank: Seq<char>,
    limit: nat,
    first: RunOutcome,
    second: RunOutcome,
)
    requires
        first@ == outcome_of(steps_of(start(table, initial_state, input, blank), limit)),
        second@ == outcome_of(steps_of(start(table, initial_state, input, blank), limit)),
    ensures
        first@ == second@,
        first is Output ==> second is Output && symbols(first->Output_0@) == symbols(
            second->Output_0@,
        ),
        first is Aborted ==> second is Aborted && first->Aborted_0@ == second->Aborted_0@,
{
}

/// Once a run has ended, a higher limit changes nothing: the outcome reached
/// within `limit` steps is the outcome for every limit above it.
pub proof fn lemma_outcome_is_final(m: MachineView, limit: nat, higher: nat)
    requires
        limit <= higher,
        steps_of(m, limit).status != Status::Running,
    ensures
        steps_of(m, higher) == steps_of(m, limit),
        outcome_of(steps_of(m, higher)) == outcome_of(steps_of(m, limit)),
{
    lemma_steps_add(m, limit, (higher - limit) as nat);
    lemma_stopped_stays(steps_of(m, limit), (higher - limit) as nat);
}

/// A machine that ends with `Output` on a tape without any symbol other than
/// the blank reports the empty row.
pub proof fn lemma_blank_output_is_empty(m: MachineView)
    requires
        m.status == Status::Output,
        is_blank(m.tape, m.blank),
    ensures
        outcome_of(m) == RunOutcomeView::Output(Seq::empty()),
{
}

} // verus!
