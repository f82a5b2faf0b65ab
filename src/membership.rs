//! The membership store: a map from a club name to the ordered list of its
//! members' account identifiers.
use vstd::prelude::*;

use crate::bytes::{bytes_eq, copy_bytes};

verus! {

/// Identifier of a member account.
pub type AccountId = u64;

/// The members of `club` in `m`, empty when the club has no entry.
pub open spec fn member_list(m: Map<Seq<u8>, Seq<AccountId>>, club: Seq<u8>) -> Seq<AccountId> {
    if m.contains_key(club) {
        m[club]
    } else {
        Seq::empty()
    }
}

/// `s` without its first occurrence of `x`; `s` itself when `x` does not occur.
pub open spec fn remove_first(s: Seq<AccountId>, x: AccountId) -> Seq<AccountId>
    decreases s.len(),
{
    if s.len() == 0 {
        s
    } else if s[0] == x {
        s.subrange(1, s.len() as int)
    } else {
        seq![s[0]] + remove_first(s.subrange(1, s.len() as int), x)
    }
}

/// Removing at the first index that holds `x` is removing the first occurrence.
pub proof fn lemma_remove_first_at(s: Seq<AccountId>, x: AccountId, i: int)
    requires
        0 <= i < s.len(),
        s[i] == x,
        forall|j: int| 0 <= j < i ==> s[j] != x,
    ensures
        remove_first(s, x) == s.remove(i),
    decreases i,
{
    if i == 0 {
        assert(s.remove(0) =~= s.subrange(1, s.len() as int));
    } else {
        let t = s.subrange(1, s.len() as int);
        lemma_remove_first_at(t, x, i - 1);
        assert(seq![s[0]] + t.remove(i - 1) =~= s.remove(i));
    }
}

/// Copies a list of accounts, keeping their order.
pub fn copy_accounts(a: &Vec<AccountId>) -> (r: Vec<AccountId>)
    ensures
        r@ == a@,
{
    let mut r: Vec<AccountId> = Vec::with_capacity(a.len());
    let mut i: usize = 0;
    while i < a.len()
        invariant
            0 <= i <= a@.len(),
            r@ == a@.subrange(0, i as int),
        decreases a@.len() - i,
    {
        r.push(a[i]);
        i = i + 1;
    }
    assert(r@ =~= a@);
    r
}

/// The member lists, one entry per club that has ever had a member.
pub struct ClubMembers {
    entries: Vec<(Vec<u8>, Vec<AccountId>)>,
    model: Ghost<Map<Seq<u8>, Seq<AccountId>>>,
}

impl View for ClubMembers {
    type V = Map<Seq<u8>, Seq<AccountId>>;

    closed spec fn view(&self) -> Map<Seq<u8>, Seq<AccountId>> {
        self.model@
    }
}

impl ClubMembers {
    /// The entries are exactly the keys of the model, each club once.
    pub closed spec fn wf(&self) -> bool {
        &&& forall|i: int|
            0 <= i < self.entries@.len() ==> #[trigger] self.model@.contains_key(
                self.entries@[i].0@,
            ) && self.model@[self.entries@[i].0@] == self.entries@[i].1@
        &&& forall|c: Seq<u8>|
            #[trigger] self.model@.contains_key(c) ==> exists|i: int|
                0 <= i < self.entries@.len() && #[trigger] self.entries@[i].0@ == c
        &&& forall|i: int, j: int|
            0 <= i < j < self.entries@.len() ==> #[trigger] self.entries@[i].0@
                != #[trigger] self.entries@[j].0@
    }

    /// A store with no entry.
    pub fn new() -> (r: ClubMembers)
        ensures
            r.wf(),
            r@ == Map::<Seq<u8>, Seq<AccountId>>::empty(),
    {
        ClubMembers { entries: Vec::new(), model: Ghost(Map::empty()) }
    }

    /// Index of the entry for `club`, if there is one.
    fn find(&self, club: &Vec<u8>) -> (r: Option<usize>)
        requires
            self.wf(),
        ensures
            r is None ==> !self@.contains_key(club@),
            r matches Some(i) ==> i < self.entries@.len() && self.entries@[i as int].0@ == club@,
    {
        let mut i: usize = 0;
        while i < self.entries.len()
            invariant
                self.wf(),
                0 <= i <= self.entries@.len(),
                forall|j: int| 0 <= j < i ==> #[trigger] self.entries@[j].0@ != club@,
            decreases self.entries@.len() - i,
        {
            if bytes_eq(&self.entries[i].0, club) {
                return Some(i);
            }
            i = i + 1;
        }
        proof {
            if self@.contains_key(club@) {
                let k = choose|k: int| 0 <= k < self.entries@.len() && #[trigger] self.entries@[k].0@ == club@;
                assert(self.entries@[k].0@ == club@);
            }
        }
        None
    }

    /// The member list of `club`, if the club has an entry.
    pub fn get(&self, club: &Vec<u8>) -> (r: Option<&Vec<AccountId>>)
        requires
            self.wf(),
        ensures
            r is None <==> !self@.contains_key(club@),
            r matches Some(v) ==> v@ == self@[club@],
    {
        match self.find(club) {
            Some(i) => {
                assert(self.model@.contains_key(self.entries@[i as int].0@));
                Some(&self.entries[i].1)
            },
            None => None,
        }
    }

    /// Sets the member list of `club` to `members`, creating the entry if absent.
    pub fn insert(&mut self, club: &Vec<u8>, members: Vec<AccountId>)
        requires
            old(self).wf(),
        ensures
            final(self).wf(),
            final(self)@ == old(self)@.insert(club@, members@),
    {
        let ghost pre = self.entries@;
        let ghost m = self.model@;
        match self.find(club) {
            Some(i) => {
                let key = copy_bytes(club);
                self.entries.set(i, (key, members));
                self.model = Ghost(m.insert(club@, members@));
                assert forall|k: int| 0 <= k < self.entries@.len() implies #[trigger] self.model@.contains_key(
                    self.entries@[k].0@,
                ) && self.model@[self.entries@[k].0@] == self.entries@[k].1@ by {
                    if k != i {
                        assert(pre[k].0@ != club@);
                        assert(self.entries@[k] == pre[k]);
                    }
                }
                assert forall|c: Seq<u8>| #[trigger] self.model@.contains_key(c) implies exists|k: int|
                    0 <= k < self.entries@.len() && #[trigger] self.entries@[k].0@ == c by {
                    if c != club@ {
                        let k = choose|k: int| 0 <= k < pre.len() && #[trigger] pre[k].0@ == c;
                        assert(self.entries@[k].0@ == c);
                    } else {
                        assert(self.entries@[i as int].0@ == c);
                    }
                }
                assert forall|a: int, b: int| 0 <= a < b < self.entries@.len() implies #[trigger] self.entries@[a].0@
                    != #[trigger] self.entries@[b].0@ by {
                    assert(pre[a].0@ != pre[b].0@);
                }
            },
            None => {
                let key = copy_bytes(club);
                self.entries.push((key, members));
                self.model = Ghost(m.insert(club@, members@));
                assert forall|c: Seq<u8>| #[trigger] self.model@.contains_key(c) implies exists|k: int|
                    0 <= k < self.entries@.len() && #[trigger] self.entries@[k].0@ == c by {
                    if c != club@ {
                        let k = choose|k: int| 0 <= k < pre.len() && #[trigger] pre[k].0@ == c;
                        assert(self.entries@[k].0@ == c);
                    } else {
                        assert(self.entries@[pre.len() as int].0@ == c);
                    }
                }
                assert forall|k: int| 0 <= k < self.entries@.len() implies #[trigger] self.model@.contains_key(
                    self.entries@[k].0@,
                ) && self.model@[self.entries@[k].0@] == self.entries@[k].1@ by {
                    if k < pre.len() {
                        assert(m.contains_key(pre[k].0@));
                        assert(self.entries@[k] == pre[k]);
                    }
                }
                assert forall|a: int, b: int| 0 <= a < b < self.entries@.len() implies #[trigger] self.entries@[a].0@
                    != #[trigger] self.entries@[b].0@ by {
                    assert(m.contains_key(pre[a].0@));
                    if b < pre.len() {
                        assert(pre[a].0@ != pre[b].0@);
                    }
                }
            },
        }
    }
}

} // verus!
