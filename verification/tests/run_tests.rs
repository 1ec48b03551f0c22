use turing_machine::{
    arrange_tape, compile, outcome, run, Abort, AbortReason, Machine, Movement, RuleDecl,
    RunOutcome, Status, Tape, TransitionDecl, TransitionRule,
};

fn transition(read: &str, write: &str, glyph: &str, next: Option<&str>) -> TransitionDecl {
    TransitionDecl {
        read: read.to_string(),
        write: write.to_string(),
        action: Movement::from_glyph(glyph).unwrap(),
        next: next.map(|name| name.to_string()),
    }
}

fn rule(state: &str, transitions: Vec<TransitionDecl>) -> RuleDecl {
    RuleDecl { state: state.to_string(), transitions }
}

fn row(cells: &[&str]) -> Vec<String> {
    cells.iter().map(|cell| cell.to_string()).collect()
}

fn table(rules: Vec<RuleDecl>) -> TransitionRule {
    compile(rules).unwrap().0
}

fn unary_increment() -> Vec<RuleDecl> {
    vec![rule("q0", vec![transition("1", "1", ">", None), transition("#", "1", "=", None)])]
}

fn walk_right_then_output() -> Vec<RuleDecl> {
    vec![rule(
        "q0",
        vec![
            transition("a", "a", ">", None),
            transition("b", "b", ">", None),
            transition("c", "c", ">", None),
            transition("_", "_", "?", None),
        ],
    )]
}

#[test]
fn unary_increment_accepts() {
    let (rules, initial) = compile(unary_increment()).unwrap();
    assert_eq!(initial, "q0");
    assert_eq!(run(rules, &initial, &row(&["1", "1"]), "#", 1000), RunOutcome::Accepted);
}

#[test]
fn unary_increment_writes_before_it_halts() {
    let mut m = Machine::new(table(unary_increment()), "q0", &row(&["1", "1"]), "#");
    assert_eq!(m.run(1000), Status::Accepted);
    assert_eq!(m.head(), 2);
    assert_eq!(m.state(), "q0");
    assert_eq!(m.tape().read(2, "#"), "1");
    assert_eq!(arrange_tape(m.tape(), "#", m.head()), Ok((2, row(&["1", "1", "1"]))));
}

#[test]
fn missing_symbol_aborts_with_the_input_dumped() {
    let rules = table(vec![rule("q0", vec![transition("x", "x", ">", None)])]);
    assert_eq!(
        run(rules, "q0", &row(&["a", "b"]), "#", 1000),
        RunOutcome::Aborted(Abort {
            reason: AbortReason::NoRuleForSymbol,
            state: "q0".to_string(),
            symbol: "a".to_string(),
            tape: row(&["a", "b"]),
            caret: "^^^".to_string(),
        })
    );
}

#[test]
fn walking_off_the_input_then_output() {
    let mut m = Machine::new(table(walk_right_then_output()), "q0", &row(&["a", "b", "c"]), "_");
    assert_eq!(m.run(1000), Status::Output);
    assert_eq!(arrange_tape(m.tape(), "_", m.head()), Ok((3, row(&["a", "b", "c"]))));
    assert_eq!(outcome(&m), RunOutcome::Output(row(&["a", "b", "c"])));
}

#[test]
fn missing_state_aborts() {
    let rules = table(vec![rule("q0", vec![transition("a", "b", ">", Some("nowhere"))])]);
    assert_eq!(
        run(rules, "q0", &row(&["a", "c"]), "#", 1000),
        RunOutcome::Aborted(Abort {
            reason: AbortReason::NoRuleForState,
            state: "nowhere".to_string(),
            symbol: "c".to_string(),
            tape: row(&["b", "c"]),
            caret: "     ^^^".to_string(),
        })
    );
}

#[test]
fn missing_initial_state_aborts_at_once() {
    let rules = table(vec![rule("q0", vec![])]);
    assert_eq!(
        run(rules, "q9", &row(&["a"]), "#", 1000),
        RunOutcome::Aborted(Abort {
            reason: AbortReason::NoRuleForState,
            state: "q9".to_string(),
            symbol: "a".to_string(),
            tape: row(&["a"]),
            caret: "^^^".to_string(),
        })
    );
}

#[test]
fn a_state_without_transitions_misses_the_symbol_not_the_state() {
    let rules = table(vec![rule("q0", vec![])]);
    let mut m = Machine::new(rules, "q0", &row(&["a"]), "#");
    assert_eq!(m.step(), Status::Aborted(AbortReason::NoRuleForSymbol));
}

#[test]
fn abort_past_the_end_of_the_input_points_at_the_blank() {
    let rules = table(vec![rule("q0", vec![transition("a", "a", ">", None)])]);
    assert_eq!(
        run(rules, "q0", &row(&["a", "a"]), "#", 1000),
        RunOutcome::Aborted(Abort {
            reason: AbortReason::NoRuleForSymbol,
            state: "q0".to_string(),
            symbol: "#".to_string(),
            tape: row(&["a", "a"]),
            caret: "          ^^^".to_string(),
        })
    );
}

#[test]
fn abort_left_of_the_input_points_at_the_margin() {
    let rules = table(vec![rule("q0", vec![transition("a", "a", "<", None)])]);
    assert_eq!(
        run(rules, "q0", &row(&["a", "b"]), "##", 1000),
        RunOutcome::Aborted(Abort {
            reason: AbortReason::NoRuleForSymbol,
            state: "q0".to_string(),
            symbol: "##".to_string(),
            tape: row(&["a", "b"]),
            caret: "^^^^".to_string(),
        })
    );
}

#[test]
fn abort_on_a_blank_tape_dumps_nothing() {
    let rules = table(vec![rule("q0", vec![transition("a", "a", ">", None)])]);
    assert_eq!(
        run(rules, "q0", &Vec::new(), "#", 1000),
        RunOutcome::Aborted(Abort {
            reason: AbortReason::NoRuleForSymbol,
            state: "q0".to_string(),
            symbol: "#".to_string(),
            tape: Vec::new(),
            caret: "^^^".to_string(),
        })
    );
}

#[test]
fn reject_is_reported() {
    let rules = table(vec![rule("q0", vec![transition("a", "a", "!", Some("ignored"))])]);
    let mut m = Machine::new(rules, "q0", &row(&["a"]), "#");
    assert_eq!(m.run(5), Status::Rejected);
    assert_eq!(m.state(), "q0");
    assert_eq!(m.head(), 0);
    assert_eq!(outcome(&m), RunOutcome::Rejected);
}

#[test]
fn output_of_a_tape_never_written_with_a_symbol_is_empty() {
    let rules = table(vec![rule("q0", vec![transition("#", "#", "?", None)])]);
    assert_eq!(run(rules, "q0", &Vec::new(), "#", 1000), RunOutcome::Output(Vec::new()));
}

#[test]
fn output_of_a_tape_blanked_out_is_empty() {
    let rules = table(vec![rule(
        "q0",
        vec![transition("a", "#", ">", None), transition("#", "#", "?", None)],
    )]);
    let mut m = Machine::new(rules, "q0", &row(&["a", "a"]), "#");
    assert_eq!(m.run(1000), Status::Output);
    assert!(arrange_tape(m.tape(), "#", m.head()).is_err());
    assert_eq!(outcome(&m), RunOutcome::Output(Vec::new()));
}

#[test]
fn output_keeps_blanks_between_symbols_and_trims_the_ends() {
    let rules = table(vec![
        rule("q0", vec![transition("a", "#", ">", Some("q1"))]),
        rule("q1", vec![transition("a", "x", ">", Some("q2"))]),
        rule("q2", vec![transition("a", "#", ">", Some("q3"))]),
        rule("q3", vec![transition("a", "y", ">", Some("q4"))]),
        rule("q4", vec![transition("a", "#", ">", None), transition("#", "#", "?", None)]),
    ]);
    assert_eq!(
        run(rules, "q0", &row(&["a", "a", "a", "a", "a", "a"]), "#", 1000),
        RunOutcome::Output(row(&["x", "#", "y"]))
    );
}

#[test]
fn the_write_of_a_halting_step_is_in_the_output() {
    let rules = table(vec![rule("q0", vec![transition("a", "z", "?", None)])]);
    assert_eq!(
        run(rules, "q0", &row(&["a", "b"]), "#", 1000),
        RunOutcome::Output(row(&["z", "b"]))
    );
}

#[test]
fn moving_without_a_next_state_stays_in_the_state() {
    let rules = table(vec![
        rule("q0", vec![transition("a", "a", ">", None), transition("b", "b", "<", Some("q1"))]),
        rule("q1", vec![transition("a", "c", "=", None)]),
    ]);
    let mut m = Machine::new(rules, "q0", &row(&["a", "a", "b"]), "#");
    assert_eq!(m.step(), Status::Running);
    assert_eq!((m.state(), m.head()), ("q0", 1));
    assert_eq!(m.step(), Status::Running);
    assert_eq!((m.state(), m.head()), ("q0", 2));
    assert_eq!(m.step(), Status::Running);
    assert_eq!((m.state(), m.head()), ("q1", 1));
    assert_eq!(m.step(), Status::Accepted);
    assert_eq!((m.state(), m.head()), ("q1", 1));
    assert_eq!(m.symbol(), "c");
}

#[test]
fn the_head_moves_left_of_zero() {
    let rules = table(vec![rule(
        "q0",
        vec![transition("a", "a", "<", None), transition("#", "l", "<", Some("q1"))],
    ), rule("q1", vec![transition("#", "k", "?", None)])]);
    let mut m = Machine::new(rules, "q0", &row(&["a"]), "#");
    assert_eq!(m.run(1000), Status::Output);
    assert_eq!(m.head(), -2);
    assert_eq!(arrange_tape(m.tape(), "#", m.head()), Ok((0, row(&["k", "l", "a"]))));
}

#[test]
fn a_stopped_machine_takes_no_more_steps() {
    let mut m = Machine::new(table(unary_increment()), "q0", &row(&["1"]), "#");
    assert_eq!(m.run(10), Status::Accepted);
    let head = m.head();
    assert_eq!(m.step(), Status::Accepted);
    assert_eq!(m.run(10), Status::Accepted);
    assert_eq!(m.head(), head);
    assert_eq!(arrange_tape(m.tape(), "#", m.head()), Ok((1, row(&["1", "1"]))));
}

#[test]
fn a_run_out_of_steps_is_unfinished_and_can_go_on() {
    let forever = vec![rule("q0", vec![transition("#", "#", ">", None)])];
    assert_eq!(run(table(forever), "q0", &Vec::new(), "#", 50), RunOutcome::Unfinished);

    let mut m = Machine::new(table(unary_increment()), "q0", &row(&["1", "1", "1"]), "#");
    assert_eq!(m.run(2), Status::Running);
    assert_eq!(m.head(), 2);
    assert_eq!(outcome(&m), RunOutcome::Unfinished);
    assert_eq!(m.run(0), Status::Running);
    assert_eq!(m.head(), 2);
    assert_eq!(m.run(2), Status::Accepted);
    assert_eq!(m.head(), 3);
}

#[test]
fn a_limit_above_the_steps_needed_changes_nothing() {
    let input = row(&["a", "b", "c"]);
    let short = run(table(walk_right_then_output()), "q0", &input, "_", 4);
    let long = run(table(walk_right_then_output()), "q0", &input, "_", u64::MAX);
    assert_eq!(short, RunOutcome::Output(row(&["a", "b", "c"])));
    assert_eq!(short, long);
}

#[test]
fn two_runs_of_the_same_machine_agree() {
    let again = |limit: u64| {
        let rules = table(vec![
            rule(
                "q0",
                vec![transition("a", "b", ">", Some("q1")), transition("b", "a", "<", None)],
            ),
            rule(
                "q1",
                vec![transition("a", "a", "<", Some("q0")), transition("#", "c", "?", None)],
            ),
        ]);
        run(rules, "q0", &row(&["a", "a", "a"]), "#", limit)
    };
    for limit in [0, 1, 2, 3, 5, 8, 100] {
        assert_eq!(again(limit), again(limit));
    }
}

#[test]
fn the_head_cannot_leave_the_positions_that_can_be_counted() {
    let rules = table(vec![rule("q0", vec![transition("#", "x", ">", None)])]);
    let mut m = Machine::resume(rules, "q0", isize::MAX, Tape::new(), "#");
    assert_eq!(m.step(), Status::Aborted(AbortReason::HeadOutOfRange));
    assert_eq!(m.head(), isize::MAX);
    assert_eq!(m.symbol(), "x");

    let rules = table(vec![rule("q0", vec![transition("#", "y", "<", Some("q1"))])]);
    let mut m = Machine::resume(rules, "q0", isize::MIN, Tape::new(), "#");
    assert_eq!(m.step(), Status::Aborted(AbortReason::HeadOutOfRange));
    assert_eq!(m.head(), isize::MIN);
    assert_eq!(m.state(), "q0");
    assert_eq!(m.symbol(), "y");
}

#[test]
fn the_head_reaches_the_last_position() {
    let rules = table(vec![rule("q0", vec![transition("#", "x", ">", None)])]);
    let mut m = Machine::resume(rules, "q0", isize::MAX - 1, Tape::new(), "#");
    assert_eq!(m.step(), Status::Running);
    assert_eq!(m.head(), isize::MAX);
}

#[test]
fn a_new_machine_stands_at_the_start() {
    let m = Machine::new(table(unary_increment()), "q0", &row(&["1", "0"]), "#");
    assert_eq!(m.status(), Status::Running);
    assert_eq!(m.state(), "q0");
    assert_eq!(m.head(), 0);
    assert_eq!(m.blank(), "#");
    assert_eq!(m.symbol(), "1");
    assert_eq!(m.tape().read(1, "#"), "0");
    assert_eq!(m.tape().read(2, "#"), "#");
    assert_eq!(outcome(&m), RunOutcome::Unfinished);
}

#[test]
fn an_abort_changes_neither_tape_nor_head_nor_state() {
    let rules = table(vec![
        rule("q0", vec![transition("a", "b", ">", Some("q1"))]),
        rule("q1", vec![transition("x", "y", "=", None)]),
    ]);
    let mut m = Machine::new(rules, "q0", &row(&["a", "c"]), "#");
    assert_eq!(m.run(10), Status::Aborted(AbortReason::NoRuleForSymbol));
    assert_eq!(m.state(), "q1");
    assert_eq!(m.head(), 1);
    assert_eq!(arrange_tape(m.tape(), "#", m.head()), Ok((1, row(&["b", "c"]))));
}
