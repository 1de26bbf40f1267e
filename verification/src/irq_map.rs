//! A small map from hardware names to interrupt lines.

use vstd::prelude::*;

verus! {

/// Maps names to interrupt lines.  The entries are kept in the order in which
/// they were inserted; of two entries under one name the later one counts.
#[derive(Debug, Clone)]
pub struct IrqMap {
    pub entries: Vec<(String, String)>,
}

/// The map that a list of entries stands for.
pub open spec fn map_of(entries: Seq<(String, String)>) -> Map<Seq<char>, Seq<char>>
    decreases entries.len(),
{
    if entries.len() == 0 {
        Map::empty()
    } else {
        map_of(entries.drop_last()).insert(entries.last().0@, entries.last().1@)
    }
}

/// What a lookup yields: the value under `key`, if the map has one.
pub open spec fn lookup(m: Map<Seq<char>, Seq<char>>, key: Seq<char>) -> Option<Seq<char>> {
    if m.contains_key(key) {
        Some(m[key])
    } else {
        None
    }
}

impl View for IrqMap {
    type V = Map<Seq<char>, Seq<char>>;

    open spec fn view(&self) -> Map<Seq<char>, Seq<char>> {
        map_of(self.entries@)
    }
}

impl IrqMap {
    /// A map without entries.
    pub fn new() -> (out: IrqMap)
        ensures
            out@ == Map::<Seq<char>, Seq<char>>::empty(),
    {
        IrqMap { entries: Vec::new() }
    }

    /// Puts `irq` under `name`, in place of what was there.
    pub fn insert(&mut self, name: String, irq: String)
        ensures
            final(self)@ == old(self)@.insert(name@, irq@),
    {
        proof {
            assert(self.entries@.push((name, irq)).drop_last() =~= self.entries@);
        }
        self.entries.push((name, irq));
    }

    /// The interrupt line under `name`.
    pub fn get(&self, name: &String) -> (out: Option<String>)
        ensures
            out is Some == self@.contains_key(name@),
            out is Some ==> out->0@ == self@[name@],
    {
        let mut i: usize = self.entries.len();
        assert(self.entries@.take(i as int) =~= self.entries@);
        while i > 0
            invariant
                i <= self.entries.len(),
                lookup(map_of(self.entries@.take(i as int)), name@) == lookup(self@, name@),
            decreases i,
        {
            let ghost prefix = self.entries@.take(i as int);
            proof {
                assert(prefix.last() == self.entries@[i - 1]);
                assert(prefix.drop_last() =~= self.entries@.take(i - 1));
            }
            if self.entries[i - 1].0 == *name {
                return Some(self.entries[i - 1].1.clone());
            }
            i -= 1;
        }
        None
    }
}

} // verus!
