//! The directory of registered clubs: a map from a small slot number to a
//! club name. A club is registered when some slot holds its name, and the
//! number of populated slots is the quorum counter.
use vstd::prelude::*;

use crate::bytes::{bytes_eq, copy_bytes};

verus! {

/// Whether some slot of `dir` holds `name`.
pub open spec fn is_registered(dir: Map<u8, Seq<u8>>, name: Seq<u8>) -> bool {
    exists|s: u8| #[trigger] dir.contains_key(s) && dir[s] == name
}

/// The directory that results from inserting each pair in order, a later pair
/// overwriting an earlier one with the same slot.
pub open spec fn directory_of(pairs: Seq<(u8, Seq<u8>)>) -> Map<u8, Seq<u8>>
    decreases pairs.len(),
{
    if pairs.len() == 0 {
        Map::empty()
    } else {
        let last = pairs.last();
        directory_of(pairs.drop_last()).insert(last.0, last.1)
    }
}

/// Registered clubs, one entry per populated slot.
pub struct RegisteredClubs {
    entries: Vec<(u8, Vec<u8>)>,
    model: Ghost<Map<u8, Seq<u8>>>,
}

impl View for RegisteredClubs {
    type V = Map<u8, Seq<u8>>;

    closed spec fn view(&self) -> Map<u8, Seq<u8>> {
        self.model@
    }
}

impl RegisteredClubs {
    /// The entries are exactly the slots of the model, each slot once.
    pub closed spec fn wf(&self) -> bool {
        &&& self.model@.dom().finite()
        &&& self.model@.dom().len() == self.entries@.len()
        &&& forall|i: int|
            0 <= i < self.entries@.len() ==> #[trigger] self.model@.contains_key(
                self.entries@[i].0,
            ) && self.model@[self.entries@[i].0] == self.entries@[i].1@
        &&& forall|s: u8|
            #[trigger] self.model@.contains_key(s) ==> exists|i: int|
                0 <= i < self.entries@.len() && #[trigger] self.entries@[i].0 == s
        &&& forall|i: int, j: int|
            0 <= i < j < self.entries@.len() ==> #[trigger] self.entries@[i].0
                != #[trigger] self.entries@[j].0
    }

    /// An empty directory.
    pub fn new() -> (r: RegisteredClubs)
        ensures
            r.wf(),
            r@ == Map::<u8, Seq<u8>>::empty(),
    {
        RegisteredClubs { entries: Vec::new(), model: Ghost(Map::empty()) }
    }

    /// Puts `name` in `slot`, replacing what the slot held.
    pub fn insert(&mut self, slot: u8, name: &Vec<u8>)
        requires
            old(self).wf(),
        ensures
            final(self).wf(),
            final(self)@ == old(self)@.insert(slot, name@),
    {
        let ghost pre = self.entries@;
        let mut i: usize = 0;
        while i < self.entries.len()
            invariant
                self.wf(),
                self.entries@ == pre,
                self@ == old(self)@,
                0 <= i <= self.entries@.len(),
                forall|j: int| 0 <= j < i ==> #[trigger] self.entries@[j].0 != slot,
            decreases self.entries@.len() - i,
        {
            if self.entries[i].0 == slot {
                let ghost m = self.model@;
                self.entries.set(i, (slot, copy_bytes(name)));
                self.model = Ghost(m.insert(slot, name@));
                assert(m.dom().insert(slot) =~= m.dom());
                assert forall|s: u8| #[trigger] self.model@.contains_key(s) implies exists|k: int|
                    0 <= k < self.entries@.len() && #[trigger] self.entries@[k].0 == s by {
                    if s != slot {
                        let k = choose|k: int| 0 <= k < pre.len() && #[trigger] pre[k].0 == s;
                        assert(self.entries@[k].0 == s);
                    } else {
                        assert(self.entries@[i as int].0 == s);
                    }
                }
                assert forall|k: int| 0 <= k < self.entries@.len() implies #[trigger] self.model@.contains_key(
                    self.entries@[k].0,
                ) && self.model@[self.entries@[k].0] == self.entries@[k].1@ by {
                    if k != i {
                        assert(pre[k].0 != slot);
                        assert(self.entries@[k] == pre[k]);
                    }
                }
                assert forall|a: int, b: int| 0 <= a < b < self.entries@.len() implies #[trigger] self.entries@[a].0
                    != #[trigger] self.entries@[b].0 by {
                    assert(pre[a].0 != pre[b].0);
                }
                assert(self@ == old(self)@.insert(slot, name@));
                return;
            }
            i = i + 1;
        }
        let ghost m = self.model@;
        assert(!m.contains_key(slot));
        self.entries.push((slot, copy_bytes(name)));
        self.model = Ghost(m.insert(slot, name@));
        assert forall|s: u8| #[trigger] self.model@.contains_key(s) implies exists|k: int|
            0 <= k < self.entries@.len() && #[trigger] self.entries@[k].0 == s by {
            if s != slot {
                let k = choose|k: int| 0 <= k < pre.len() && #[trigger] pre[k].0 == s;
                assert(self.entries@[k].0 == s);
            } else {
                assert(self.entries@[pre.len() as int].0 == s);
            }
        }
    }

    /// The name held by `slot`, if the slot is populated.
    pub fn get(&self, slot: u8) -> (r: Option<Vec<u8>>)
        requires
            self.wf(),
        ensures
            r is None <==> !self@.contains_key(slot),
            r matches Some(v) ==> v@ == self@[slot],
    {
        let mut i: usize = 0;
        while i < self.entries.len()
            invariant
                self.wf(),
                0 <= i <= self.entries@.len(),
                forall|j: int| 0 <= j < i ==> #[trigger] self.entries@[j].0 != slot,
            decreases self.entries@.len() - i,
        {
            if self.entries[i].0 == slot {
                assert(self.model@.contains_key(self.entries@[i as int].0));
                return Some(copy_bytes(&self.entries[i].1));
            }
            i = i + 1;
        }
        proof {
            if self@.contains_key(slot) {
                let k = choose|k: int| 0 <= k < self.entries@.len() && #[trigger] self.entries@[k].0 == slot;
                assert(self.entries@[k].0 == slot);
            }
        }
        None
    }

    /// Number of populated slots.
    pub fn count(&self) -> (r: usize)
        requires
            self.wf(),
        ensures
            r == self@.dom().len(),
    {
        self.entries.len()
    }

    /// Whether some slot holds `name`, compared byte for byte.
    pub fn contains(&self, name: &Vec<u8>) -> (r: bool)
        requires
            self.wf(),
        ensures
            r == is_registered(self@, name@),
    {
        let mut i: usize = 0;
        while i < self.entries.len()
            invariant
                self.wf(),
                0 <= i <= self.entries@.len(),
                forall|j: int| 0 <= j < i ==> #[trigger] self.entries@[j].1@ != name@,
            decreases self.entries@.len() - i,
        {
            if bytes_eq(&self.entries[i].1, name) {
                assert(self@.contains_key(self.entries@[i as int].0));
                return true;
            }
            i = i + 1;
        }
        assert forall|s: u8| #[trigger] self@.contains_key(s) implies self@[s] != name@ by {
            let k = choose|k: int| 0 <= k < self.entries@.len() && #[trigger] self.entries@[k].0 == s;
            assert(self.model@.contains_key(self.entries@[k].0));
        }
        false
    }
}

/// The clubs to register at genesis, as (slot, name) pairs.
pub struct GenesisConfig {
    pub registered_clubs: Option<Vec<(u8, Vec<u8>)>>,
}

/// The pairs that a genesis configuration lists, none when it lists nothing.
pub open spec fn genesis_pairs(g: GenesisConfig) -> Seq<(u8, Seq<u8>)> {
    match g.registered_clubs {
        Some(v) => v@.map_values(|p: (u8, Vec<u8>)| (p.0, p.1@)),
        None => Seq::empty(),
    }
}

impl Default for GenesisConfig {
    /// A configuration that registers no club.
    fn default() -> (r: GenesisConfig)
        ensures
            r.registered_clubs is None,
    {
        GenesisConfig { registered_clubs: None }
    }
}

impl GenesisConfig {
    /// Builds the directory: each listed pair is inserted in order, a later
    /// pair overwriting an earlier one with the same slot.
    pub fn build(&self) -> (r: RegisteredClubs)
        ensures
            r.wf(),
            r@ == directory_of(genesis_pairs(*self)),
    {
        let mut dir = RegisteredClubs::new();
        match &self.registered_clubs {
            Some(pairs) => {
                let ghost ps = genesis_pairs(*self);
                let mut i: usize = 0;
                while i < pairs.len()
                    invariant
                        dir.wf(),
                        ps == pairs@.map_values(|p: (u8, Vec<u8>)| (p.0, p.1@)),
                        0 <= i <= pairs@.len(),
                        dir@ == directory_of(ps.subrange(0, i as int)),
                    decreases pairs@.len() - i,
                {
                    dir.insert(pairs[i].0, &pairs[i].1);
                    assert(ps.subrange(0, i + 1).drop_last() =~= ps.subrange(0, i as int));
                    i = i + 1;
                }
                assert(ps.subrange(0, pairs@.len() as int) =~= ps);
            },
            None => {},
        }
        dir
    }
}

} // verus!
