use turing_machine::{
    compile, CompileError, Destination, Movement, RuleDecl, TransitionDecl, TransitionRule,
};

fn transition(read: &str, write: &str, action: Movement, next: Option<&str>) -> TransitionDecl {
    TransitionDecl {
        read: read.to_string(),
        write: write.to_string(),
        action,
        next: next.map(|name| name.to_string()),
    }
}

fn rule(state: &str, transitions: Vec<TransitionDecl>) -> RuleDecl {
    RuleDecl { state: state.to_string(), transitions }
}

fn entry(write: &str, result: Movement, next: Option<&str>) -> Destination {
    Destination { write: write.to_string(), result, next: next.map(|name| name.to_string()) }
}

#[test]
fn glyphs_map_to_actions() {
    assert_eq!(Movement::from_glyph("<"), Some(Movement::Left));
    assert_eq!(Movement::from_glyph(">"), Some(Movement::Right));
    assert_eq!(Movement::from_glyph("="), Some(Movement::Accept));
    assert_eq!(Movement::from_glyph("!"), Some(Movement::Reject));
    assert_eq!(Movement::from_glyph("?"), Some(Movement::Output));
}

#[test]
fn other_glyphs_are_no_action() {
    assert_eq!(Movement::from_glyph(""), None);
    assert_eq!(Movement::from_glyph("x"), None);
    assert_eq!(Movement::from_glyph("<<"), None);
    assert_eq!(Movement::from_glyph("<>"), None);
    assert_eq!(Movement::from_glyph(" "), None);
}

#[test]
fn into_splits_key_and_entry() {
    let (read, dest) = transition("a", "b", Movement::Right, Some("q1")).into();
    assert_eq!(read, "a");
    assert_eq!(dest, entry("b", Movement::Right, Some("q1")));
}

#[test]
fn into_keeps_a_missing_next_state() {
    let (read, dest) = transition("0", "1", Movement::Accept, None).into();
    assert_eq!(read, "0");
    assert_eq!(dest, entry("1", Movement::Accept, None));
}

#[test]
fn empty_program_is_refused() {
    assert!(matches!(compile(Vec::new()), Err(CompileError::EmptyProgram)));
}

#[test]
fn initial_state_is_the_first_rule() {
    let (_, initial) = compile(vec![
        rule("zeta", vec![transition("a", "a", Movement::Right, None)]),
        rule("alpha", vec![transition("a", "a", Movement::Left, None)]),
        rule("mid", vec![]),
    ])
    .unwrap();
    assert_eq!(initial, "zeta");
}

#[test]
fn initial_state_ignores_the_order_of_later_rules() {
    let (_, first) = compile(vec![
        rule("s", vec![]),
        rule("a", vec![]),
        rule("b", vec![]),
    ])
    .unwrap();
    let (_, second) = compile(vec![
        rule("s", vec![]),
        rule("b", vec![]),
        rule("a", vec![]),
    ])
    .unwrap();
    assert_eq!(first, "s");
    assert_eq!(second, "s");
}

#[test]
fn table_holds_each_declared_entry() {
    let (table, _) = compile(vec![
        rule(
            "q0",
            vec![
                transition("a", "x", Movement::Right, Some("q1")),
                transition("b", "y", Movement::Left, None),
            ],
        ),
        rule("q1", vec![transition("a", "z", Movement::Output, None)]),
    ])
    .unwrap();
    assert_eq!(table.get("q0", "a"), Some(&entry("x", Movement::Right, Some("q1"))));
    assert_eq!(table.get("q0", "b"), Some(&entry("y", Movement::Left, None)));
    assert_eq!(table.get("q1", "a"), Some(&entry("z", Movement::Output, None)));
    assert_eq!(table.get("q1", "b"), None);
    assert_eq!(table.get("q2", "a"), None);
    assert!(table.has_state("q0"));
    assert!(table.has_state("q1"));
    assert!(!table.has_state("q2"));
}

#[test]
fn a_rule_without_transitions_still_names_its_state() {
    let (table, initial) = compile(vec![rule("lonely", vec![])]).unwrap();
    assert_eq!(initial, "lonely");
    assert!(table.has_state("lonely"));
    assert_eq!(table.get("lonely", "a"), None);
}

#[test]
fn last_declaration_wins_within_a_rule() {
    let (table, _) = compile(vec![rule(
        "q0",
        vec![
            transition("a", "first", Movement::Left, None),
            transition("a", "second", Movement::Right, Some("q1")),
        ],
    )])
    .unwrap();
    assert_eq!(table.get("q0", "a"), Some(&entry("second", Movement::Right, Some("q1"))));
}

#[test]
fn last_declaration_wins_across_rules() {
    let (table, _) = compile(vec![
        rule("q0", vec![transition("a", "first", Movement::Left, None)]),
        rule("q1", vec![transition("a", "other", Movement::Accept, None)]),
        rule("q0", vec![transition("a", "second", Movement::Reject, None)]),
    ])
    .unwrap();
    assert_eq!(table.get("q0", "a"), Some(&entry("second", Movement::Reject, None)));
    assert_eq!(table.get("q1", "a"), Some(&entry("other", Movement::Accept, None)));
}

#[test]
fn a_later_rule_for_a_state_keeps_its_earlier_symbols() {
    let (table, _) = compile(vec![
        rule(
            "q0",
            vec![
                transition("a", "one", Movement::Left, None),
                transition("a", "two", Movement::Left, None),
            ],
        ),
        rule("q0", vec![transition("b", "three", Movement::Right, None)]),
    ])
    .unwrap();
    assert_eq!(table.get("q0", "a"), Some(&entry("two", Movement::Left, None)));
    assert_eq!(table.get("q0", "b"), Some(&entry("three", Movement::Right, None)));
}

#[test]
fn symbols_of_several_characters_are_keys_like_any_other() {
    let (table, _) = compile(vec![rule(
        "start",
        vec![
            transition("foo", "bar", Movement::Right, None),
            transition("fo", "baz", Movement::Left, None),
        ],
    )])
    .unwrap();
    assert_eq!(table.get("start", "foo"), Some(&entry("bar", Movement::Right, None)));
    assert_eq!(table.get("start", "fo"), Some(&entry("baz", Movement::Left, None)));
    assert_eq!(table.get("start", "f"), None);
}

fn tokens(words: &[&str]) -> Vec<String> {
    words.iter().map(|word| word.to_string()).collect()
}

#[test]
fn a_transition_is_read_off_four_tokens() {
    assert_eq!(
        TransitionDecl::from_tokens(&tokens(&["a", "b", ">", "q1"])),
        Some(transition("a", "b", Movement::Right, Some("q1")))
    );
}

#[test]
fn a_transition_is_read_off_three_tokens() {
    assert_eq!(
        TransitionDecl::from_tokens(&tokens(&["0", "1", "?"])),
        Some(transition("0", "1", Movement::Output, None))
    );
}

#[test]
fn tokens_after_the_fourth_are_not_read() {
    assert_eq!(
        TransitionDecl::from_tokens(&tokens(&["a", "b", "<", "q1", "q2"])),
        Some(transition("a", "b", Movement::Left, Some("q1")))
    );
}

#[test]
fn too_few_tokens_or_a_strange_glyph_spell_no_transition() {
    assert_eq!(TransitionDecl::from_tokens(&tokens(&[])), None);
    assert_eq!(TransitionDecl::from_tokens(&tokens(&["a", "b"])), None);
    assert_eq!(TransitionDecl::from_tokens(&tokens(&["a", "b", "x"])), None);
    assert_eq!(TransitionDecl::from_tokens(&tokens(&["a", "b", ">>", "q"])), None);
}

#[test]
fn a_rule_is_read_off_its_node() {
    assert_eq!(
        RuleDecl::from_tokens(
            "q0",
            &vec![tokens(&["1", "1", ">"]), tokens(&["#", "1", "=", "q0"])]
        ),
        Some(rule(
            "q0",
            vec![
                transition("1", "1", Movement::Right, None),
                transition("#", "1", Movement::Accept, Some("q0")),
            ],
        ))
    );
    assert_eq!(RuleDecl::from_tokens("idle", &Vec::new()), Some(rule("idle", vec![])));
}

#[test]
fn one_bad_transition_spoils_the_rule() {
    assert_eq!(
        RuleDecl::from_tokens("q0", &vec![tokens(&["1", "1", ">"]), tokens(&["#", "1", "+"])]),
        None
    );
}

#[test]
fn a_new_table_knows_no_state() {
    let table = TransitionRule::new();
    assert!(!table.has_state("q0"));
    assert_eq!(table.get("q0", "a"), None);
}

#[test]
fn declaring_a_state_keeps_its_entries() {
    let mut table = TransitionRule::new();
    table.declare("q0");
    assert!(table.has_state("q0"));
    assert_eq!(table.get("q0", "a"), None);
    table.insert("q0", "a".to_string(), entry("b", Movement::Right, None));
    table.declare("q0");
    assert_eq!(table.get("q0", "a"), Some(&entry("b", Movement::Right, None)));
}

#[test]
fn inserting_replaces_one_entry_and_leaves_the_others() {
    let mut table = TransitionRule::new();
    table.insert("q0", "a".to_string(), entry("1", Movement::Left, None));
    table.insert("q0", "b".to_string(), entry("2", Movement::Left, None));
    table.insert("q1", "a".to_string(), entry("3", Movement::Left, None));
    table.insert("q0", "a".to_string(), entry("4", Movement::Accept, Some("q1")));
    assert_eq!(table.get("q0", "a"), Some(&entry("4", Movement::Accept, Some("q1"))));
    assert_eq!(table.get("q0", "b"), Some(&entry("2", Movement::Left, None)));
    assert_eq!(table.get("q1", "a"), Some(&entry("3", Movement::Left, None)));
    assert_eq!(table.get("q1", "b"), None);
}

#[test]
fn clones_are_equal_to_what_they_copy() {
    let dest = entry("w", Movement::Output, Some("n"));
    assert_eq!(dest.clone(), dest);
    let decl = transition("r", "w", Movement::Reject, None);
    assert_eq!(decl.clone(), decl);
}
