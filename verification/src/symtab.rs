//! The symbol table: a mutable mapping from a variable's name to the value
//! it was last assigned. Its view is the mathematical map from name (as a
//! character sequence) to value.

use vstd::prelude::*;

verus! {

/// A variable name. The parser only ever creates names of a single
/// lowercase ASCII letter.
pub type Symbol = String;

/// The map that a sequence of (name, value) assignments denotes: later
/// entries win.
pub open spec fn entries_map(s: Seq<(Symbol, u32)>) -> Map<Seq<char>, u32>
    decreases s.len(),
{
    if s.len() == 0 {
        Map::empty()
    } else {
        entries_map(s.drop_last()).insert(s.last().0@, s.last().1)
    }
}

/// Mapping from symbol to its most recently assigned value. Entries are
/// kept in assignment order; the newest entry for a name is the one that
/// counts.
#[derive(PartialEq, Debug)]
pub struct SymbolTable {
    entries: Vec<(Symbol, u32)>,
}

impl View for SymbolTable {
    type V = Map<Seq<char>, u32>;

    closed spec fn view(&self) -> Map<Seq<char>, u32> {
        entries_map(self.entries@)
    }
}

impl SymbolTable {
    /// An empty table: no symbol is bound.
    pub fn new() -> (r: SymbolTable)
        ensures
            r@ == Map::<Seq<char>, u32>::empty(),
    {
        SymbolTable { entries: Vec::new() }
    }

    /// Binds `name` to `value`, replacing any earlier binding.
    pub fn insert(&mut self, name: Symbol, value: u32)
        ensures
            final(self)@ == old(self)@.insert(name@, value),
    {
        let ghost pre = self.entries@;
        self.entries.push((name, value));
        proof {
            assert(self.entries@.drop_last() =~= pre);
        }
    }

    /// The value bound to `name`, if any. Never mutates the table.
    pub fn get(&self, name: &str) -> (r: Option<u32>)
        ensures
            r == if self@.contains_key(name@) {
                Some(self@[name@])
            } else {
                None::<u32>
            },
    {
        let key: String = name.to_owned();
        let mut j: usize = self.entries.len();
        proof {
            assert(self.entries@.take(j as int) =~= self.entries@);
        }
        while j > 0
            invariant
                j <= self.entries@.len(),
                key@ == name@,
                self@.contains_key(name@) == entries_map(self.entries@.take(j as int)).contains_key(
                    name@,
                ),
                self@.contains_key(name@) ==> self@[name@] == entries_map(
                    self.entries@.take(j as int),
                )[name@],
            decreases j,
        {
            proof {
                assert(self.entries@.take(j as int).drop_last() =~= self.entries@.take(
                    j as int - 1,
                ));
                assert(self.entries@.take(j as int).last() == self.entries@[j - 1]);
            }
            j = j - 1;
            let entry = &self.entries[j];
            if entry.0 == key {
                return Some(entry.1);
            }
        }
        proof {
            assert(self.entries@.take(0) =~= Seq::<(Symbol, u32)>::empty());
        }
        None
    }
}

impl Clone for SymbolTable {
    /// A clone denotes the same map.
    fn clone(&self) -> (r: Self)
        ensures
            r@ == self@,
    {
        let mut entries: Vec<(Symbol, u32)> = Vec::new();
        let n = self.entries.len();
        for i in 0..n
            invariant
                n == self.entries@.len(),
                entries@ == self.entries@.take(i as int),
        {
            let entry = &self.entries[i];
            entries.push((entry.0.clone(), entry.1));
            proof {
                assert(entries@ =~= self.entries@.take(i as int + 1));
            }
        }
        proof {
            assert(self.entries@.take(n as int) =~= self.entries@);
        }
        SymbolTable { entries }
    }
}

} // verus!
