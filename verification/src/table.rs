//! The transition table: for each state, what to do on each symbol.

use vstd::prelude::*;
use vstd::hash_map::StringHashMap;
use crate::program::{Destination, DestinationView};

verus! {

/// The entries of one state, keyed by the symbol read.
pub type TMRule = StringHashMap<Destination>;

/// A transition table as plain values: state, then symbol read, then entry.
pub type TableView = Map<Seq<char>, Map<Seq<char>, DestinationView>>;

/// The entries of one state as plain values.
pub open spec fn rule_view(rule: TMRule) -> Map<Seq<char>, DestinationView> {
    rule@.map_values(|d: Destination| d@)
}

/// The transition table of a machine.
///
/// Each state owns one map from symbols to entries. The maps are kept in a
/// vector, and `index` says which slot belongs to which state.
pub struct TransitionRule {
    index: StringHashMap<usize>,
    rules: Vec<TMRule>,
}

impl View for TransitionRule {
    type V = TableView;

    closed spec fn view(&self) -> TableView {
        Map::new(
            |state: Seq<char>| self.index@.contains_key(state),
            |state: Seq<char>| rule_view(self.rules@[self.index@[state] as int]),
        )
    }
}

impl TransitionRule {
    /// Every state has a slot of its own.
    pub closed spec fn wf(&self) -> bool {
        &&& forall|s: Seq<char>| #[trigger]
            self.index@.contains_key(s) ==> self.index@[s] < self.rules@.len()
        &&& forall|s: Seq<char>, t: Seq<char>|
            #![trigger self.index@[s], self.index@[t]]
            self.index@.contains_key(s) && self.index@.contains_key(t) && self.index@[s]
                == self.index@[t] ==> s == t
    }

    /// A table without states.
    pub fn new() -> (table: Self)
        ensures
            table.wf(),
            table@ == Map::<Seq<char>, Map<Seq<char>, DestinationView>>::empty(),
    {
        let table = TransitionRule { index: StringHashMap::new(), rules: Vec::new() };
        assert(table@ =~= Map::<Seq<char>, Map<Seq<char>, DestinationView>>::empty());
        table
    }

    /// The slot of `state`, made empty if the state is new.
    fn slot(&mut self, state: &str) -> (at: usize)
        requires
            old(self).wf(),
        ensures
            final(self).wf(),
            final(self).index@.contains_key(state@),
            final(self).index@[state@] == at,
            at < final(self).rules@.len(),
            final(self)@ == if old(self)@.contains_key(state@) {
                old(self)@
            } else {
                old(self)@.insert(state@, Map::empty())
            },
    {
        match self.index.get(state) {
            Some(at) => *at,
            None => {
                let at = self.rules.len();
                self.rules.push(StringHashMap::new());
                self.index.insert(state.to_owned(), at);
                assert(rule_view(self.rules@[at as int]) =~= Map::empty());
                assert(self@ =~= old(self)@.insert(state@, Map::empty()));
                at
            },
        }
    }

    /// Makes `state` known to the table, with no entries if it is new.
    pub fn declare(&mut self, state: &str)
        requires
            old(self).wf(),
        ensures
            final(self).wf(),
            final(self)@ == if old(self)@.contains_key(state@) {
                old(self)@
            } else {
                old(self)@.insert(state@, Map::empty())
            },
    {
        let _ = self.slot(state);
    }

    /// Sets the entry of `state` for `read`, replacing an earlier one.
    pub fn insert(&mut self, state: &str, read: String, dest: Destination)
        requires
            old(self).wf(),
        ensures
            final(self).wf(),
            final(self)@ == old(self)@.insert(
                state@,
                (if old(self)@.contains_key(state@) {
                    old(self)@[state@]
                } else {
                    Map::empty()
                }).insert(read@, dest@),
            ),
    {
        let at = self.slot(state);
        let ghost before = self@;
        let ghost slots = self.rules@;
        self.rules[at].insert(read, dest);
        proof {
            assert(rule_view(self.rules@[at as int]) =~= rule_view(slots[at as int]).insert(
                read@,
                dest@,
            ));
            assert(self@ =~= before.insert(state@, before[state@].insert(read@, dest@)));
        }
    }

    /// Whether the table has rules for `state`.
    pub fn has_state(&self, state: &str) -> (known: bool)
        ensures
            known == self@.contains_key(state@),
    {
        self.index.contains_key(state)
    }

    /// The entry for reading `symbol` in `state`, if there is one.
    pub fn get(&self, state: &str, symbol: &str) -> (entry: Option<&Destination>)
        requires
            self.wf(),
        ensures
            match entry {
                Some(dest) => self@.contains_key(state@) && self@[state@].contains_key(symbol@)
                    && dest@ == self@[state@][symbol@],
                None => !(self@.contains_key(state@) && self@[state@].contains_key(symbol@)),
            },
    {
        match self.index.get(state) {
            Some(at) => self.rules[*at].get(symbol),
            None => None,
        }
    }
}

} // verus!
