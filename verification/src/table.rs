//! The learning table as an executable type: board codes to candidate moves,
//! backed by a hash map and viewed as the mathematical `Table` of the board
//! model.

use vstd::prelude::*;
use std::collections::HashMap;
use crate::board::Table;

verus! {

broadcast use vstd::std_specs::hash::group_hash_axioms;

/// Maps the code of each registered board state to that state's ordered list
/// of candidate field positions.
pub struct StateTable {
    entries: HashMap<usize, Vec<u8>>,
}

impl View for StateTable {
    type V = Table;

    closed spec fn view(&self) -> Table {
        self.entries@.map_values(|v: Vec<u8>| v@)
    }
}

impl StateTable {
    /// An empty table.
    pub fn new() -> (r: Self)
        ensures
            r@ == Table::empty(),
    {
        let r = StateTable { entries: HashMap::new() };
        proof {
            assert(r@ =~= Table::empty());
        }
        r
    }

    /// The number of states registered.
    pub fn len(&self) -> (n: usize)
        ensures
            n == self@.len(),
    {
        proof {
            assert(self@.dom() =~= self.entries@.dom());
        }
        self.entries.len()
    }

    /// Whether a state with this code is registered.
    pub fn contains_key(&self, code: usize) -> (r: bool)
        ensures
            r == self@.contains_key(code),
    {
        self.entries.contains_key(&code)
    }

    /// The candidate moves of the state with this code, if it is registered.
    pub fn get(&self, code: usize) -> (r: Option<&Vec<u8>>)
        ensures
            match r {
                Some(v) => self@.contains_key(code) && v@ == self@[code],
                None => !self@.contains_key(code),
            },
    {
        self.entries.get(&code)
    }

    /// Registers, or overwrites, the candidate moves of the state with this
    /// code.
    pub fn insert(&mut self, code: usize, actions: Vec<u8>)
        ensures
            final(self)@ == old(self)@.insert(code, actions@),
    {
        let ghost before = self@;
        self.entries.insert(code, actions);
        proof {
            assert(self@ =~= before.insert(code, actions@));
        }
    }
}

} // verus!
