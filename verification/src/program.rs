//! Rule declarations, as a front end hands them over.

use vstd::prelude::*;
use vstd::string::StrSliceExecFns;
use crate::symbol::symbols;

verus! {

/// What a transition does once it has written its symbol.
#[derive(Debug, Clone, Copy, PartialEq, Eq, Structural)]
pub enum Movement {
    Left,
    Right,
    Reject,
    Accept,
    Output,
}

impl Movement {
    /// The action a glyph of the rule language stands for, if it is one of the five.
    pub open spec fn of_glyph(glyph: Seq<char>) -> Option<Movement> {
        if glyph.len() != 1 {
            None
        } else if glyph[0] == '<' {
            Some(Movement::Left)
        } else if glyph[0] == '>' {
            Some(Movement::Right)
        } else if glyph[0] == '=' {
            Some(Movement::Accept)
        } else if glyph[0] == '!' {
            Some(Movement::Reject)
        } else if glyph[0] == '?' {
            Some(Movement::Output)
        } else {
            None
        }
    }

    /// Reads an action glyph: `<`, `>`, `=`, `!` or `?`.
    pub fn from_glyph(glyph: &str) -> (action: Option<Movement>)
        ensures
            action == Movement::of_glyph(glyph@),
    {
        if glyph.unicode_len() != 1 {
            return None;
        }
        let c = glyph.get_char(0);
        if c == '<' {
            Some(Movement::Left)
        } else if c == '>' {
            Some(Movement::Right)
        } else if c == '=' {
            Some(Movement::Accept)
        } else if c == '!' {
            Some(Movement::Reject)
        } else if c == '?' {
            Some(Movement::Output)
        } else {
            None
        }
    }
}

/// The characters of an optional name.
pub open spec fn name_view(name: Option<String>) -> Option<Seq<char>> {
    match name {
        Some(s) => Some(s@),
        None => None,
    }
}

/// Copies an optional name.
fn clone_name(name: &Option<String>) -> (copy: Option<String>)
    ensures
        name_view(copy) == name_view(*name),
{
    match name {
        Some(s) => Some(s.clone()),
        None => None,
    }
}

/// What the machine does on one (state, symbol) pair: the symbol it writes,
/// the action it takes, and the state it goes to when it moves on.
#[derive(Debug, PartialEq, Eq)]
pub struct Destination {
    pub write: String,
    pub result: Movement,
    pub next: Option<String>,
}

/// A `Destination` as plain values.
pub struct DestinationView {
    pub write: Seq<char>,
    pub result: Movement,
    pub next: Option<Seq<char>>,
}

impl View for Destination {
    type V = DestinationView;

    open spec fn view(&self) -> DestinationView {
        DestinationView { write: self.write@, result: self.result, next: name_view(self.next) }
    }
}

impl Clone for Destination {
    fn clone(&self) -> (copy: Self)
        ensures
            copy@ == self@,
    {
        Destination {
            write: self.write.clone(),
            result: self.result,
            next: clone_name(&self.next),
        }
    }
}

/// One transition of a rule: on reading `read`, write `write`, do `action`,
/// and go to `next` if it is given.
#[derive(Debug, PartialEq, Eq)]
pub struct TransitionDecl {
    pub read: String,
    pub write: String,
    pub action: Movement,
    pub next: Option<String>,
}

/// A `TransitionDecl` as plain values.
pub struct TransitionDeclView {
    pub read: Seq<char>,
    pub write: Seq<char>,
    pub action: Movement,
    pub next: Option<Seq<char>>,
}

impl TransitionDeclView {
    /// The table entry this transition declares for its read symbol.
    pub open spec fn destination(self) -> DestinationView {
        DestinationView { write: self.write, result: self.action, next: self.next }
    }
}

impl View for TransitionDecl {
    type V = TransitionDeclView;

    open spec fn view(&self) -> TransitionDeclView {
        TransitionDeclView {
            read: self.read@,
            write: self.write@,
            action: self.action,
            next: name_view(self.next),
        }
    }
}

impl Clone for TransitionDecl {
    fn clone(&self) -> (copy: Self)
        ensures
            copy@ == self@,
    {
        TransitionDecl {
            read: self.read.clone(),
            write: self.write.clone(),
            action: self.action,
            next: clone_name(&self.next),
        }
    }
}

/// The transition that a transition node's tokens spell: the symbol read, the
/// symbol written, the action's glyph and, if there is a fourth token, the
/// next state. Fewer than three tokens, or a glyph that is no action, spell
/// none.
pub open spec fn transition_of(tokens: Seq<Seq<char>>) -> Option<TransitionDeclView> {
    if tokens.len() < 3 {
        None
    } else {
        match Movement::of_glyph(tokens[2]) {
            None => None,
            Some(action) => Some(
                TransitionDeclView {
                    read: tokens[0],
                    write: tokens[1],
                    action,
                    next: if tokens.len() > 3 {
                        Some(tokens[3])
                    } else {
                        None
                    },
                },
            ),
        }
    }
}

impl TransitionDecl {
    /// Reads a transition off the tokens of its node.
    pub fn from_tokens(tokens: &Vec<String>) -> (decl: Option<TransitionDecl>)
        ensures
            match decl {
                Some(t) => transition_of(symbols(tokens@)) == Some(t@),
                None => transition_of(symbols(tokens@)) is None,
            },
    {
        if tokens.len() < 3 {
            return None;
        }
        match Movement::from_glyph(tokens[2].as_str()) {
            None => None,
            Some(action) => Some(
                TransitionDecl {
                    read: tokens[0].clone(),
                    write: tokens[1].clone(),
                    action,
                    next: if tokens.len() > 3 {
                        Some(tokens[3].clone())
                    } else {
                        None
                    },
                },
            ),
        }
    }

    /// Splits the declaration into the symbol it is keyed by and its table entry.
    pub fn into(self) -> (entry: (String, Destination))
        ensures
            entry.0@ == self@.read,
            entry.1@ == self@.destination(),
    {
        (self.read, Destination { write: self.write, result: self.action, next: self.next })
    }
}

/// One rule: a state and the transitions declared for it, in source order.
#[derive(Debug, PartialEq, Eq)]
pub struct RuleDecl {
    pub state: String,
    pub transitions: Vec<TransitionDecl>,
}

/// A `RuleDecl` as plain values.
pub struct RuleDeclView {
    pub state: Seq<char>,
    pub transitions: Seq<TransitionDeclView>,
}

impl View for RuleDecl {
    type V = RuleDeclView;

    open spec fn view(&self) -> RuleDeclView {
        RuleDeclView {
            state: self.state@,
            transitions: self.transitions@.map_values(|t: TransitionDecl| t@),
        }
    }
}

/// The tokens of a rule's transition nodes as plain values.
pub open spec fn token_rows(nodes: Seq<Vec<String>>) -> Seq<Seq<Seq<char>>> {
    nodes.map_values(|tokens: Vec<String>| symbols(tokens@))
}

/// The rule that a rule node spells: its state token and the transitions of
/// its transition nodes, in order. One node that spells no transition, and
/// the whole spells no rule.
pub open spec fn rule_of(state: Seq<char>, nodes: Seq<Seq<Seq<char>>>) -> Option<RuleDeclView> {
    if forall|j: int| 0 <= j < nodes.len() ==> (#[trigger] transition_of(nodes[j])) is Some {
        Some(
            RuleDeclView {
                state,
                transitions: nodes.map_values(|tokens: Seq<Seq<char>>| transition_of(tokens)->0),
            },
        )
    } else {
        None
    }
}

impl RuleDecl {
    /// Reads a rule off its node: the state token and, for each transition
    /// node, its tokens.
    pub fn from_tokens(state: &str, nodes: &Vec<Vec<String>>) -> (decl: Option<RuleDecl>)
        ensures
            match decl {
                Some(r) => rule_of(state@, token_rows(nodes@)) == Some(r@),
                None => rule_of(state@, token_rows(nodes@)) is None,
            },
    {
        let ghost rows = token_rows(nodes@);
        let mut transitions: Vec<TransitionDecl> = Vec::new();
        let mut j: usize = 0;
        while j < nodes.len()
            invariant
                j <= nodes.len(),
                rows == token_rows(nodes@),
                transitions@.len() == j,
                forall|k: int|
                    0 <= k < j ==> (#[trigger] transition_of(rows[k])) == Some(transitions@[k]@),
            decreases nodes.len() - j,
        {
            match TransitionDecl::from_tokens(&nodes[j]) {
                None => {
                    assert(transition_of(rows[j as int]) is None);
                    return None;
                },
                Some(t) => {
                    transitions.push(t);
                },
            }
            j += 1;
        }
        let decl = RuleDecl { state: state.to_owned(), transitions };
        proof {
            let spelled = rule_of(state@, rows);
            assert(spelled is Some);
            assert(spelled->0.transitions =~= decl@.transitions);
        }
        Some(decl)
    }
}

/// A whole program as plain values.
pub open spec fn program_view(rules: Seq<RuleDecl>) -> Seq<RuleDeclView> {
    rules.map_values(|r: RuleDecl| r@)
}

} // verus!
