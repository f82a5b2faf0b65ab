//! The registry itself: the directory, the membership store, the quorum
//! threshold and the events emitted so far, with the two administrative
//! operations that change membership.
use vstd::prelude::*;

use crate::bytes::copy_bytes;
use crate::directory::{directory_of, genesis_pairs, is_registered, GenesisConfig, RegisteredClubs};
use crate::membership::{copy_accounts, lemma_remove_first_at, member_list, remove_first, AccountId, ClubMembers};

verus! {

/// Who makes a call, as resolved by the host.
#[derive(Clone, Copy, Debug, PartialEq, Eq)]
pub enum Origin {
    /// The administrative authority.
    Root,
    /// An ordinary signed account.
    Signed(AccountId),
    /// No signer at all.
    Unsigned,
}

impl Origin {
    /// The administrative authority.
    pub fn root() -> (r: Origin)
        ensures
            r is Root,
    {
        Origin::Root
    }

    /// A call signed by the account `who`.
    pub fn signed(who: AccountId) -> (r: Origin)
        ensures
            r == Origin::Signed(who),
    {
        Origin::Signed(who)
    }

    /// Whether this origin holds administrative authority.
    pub fn is_root(&self) -> (r: bool)
        ensures
            r == (*self is Root),
    {
        match self {
            Origin::Root => true,
            _ => false,
        }
    }
}

/// Why a membership change was refused.
#[derive(Clone, Copy, Debug, PartialEq, Eq, Structural)]
pub enum Error {
    /// The caller lacks administrative authority.
    Unauthorized,
    /// Fewer clubs are registered than the configured minimum.
    RegisteredClubQuorumNotMet,
    /// The club is absent from the directory.
    ClubNotRegistered,
    /// The account is already in the club's list.
    MemberAlreadyExists,
    /// The club has never had a member.
    ClubHasNoMembers,
    /// The account is not in the club's list.
    MemberNotFound,
}

/// What an event says, over byte sequences.
pub enum EventView {
    MemberAdded(Seq<u8>, AccountId),
    MemberRemoved(Seq<u8>, AccountId),
}

/// An event emitted by a successful membership change.
#[derive(Debug, PartialEq, Eq)]
pub enum Event {
    /// The account was added to the club.
    MemberAdded(Vec<u8>, AccountId),
    /// The account was removed from the club.
    MemberRemoved(Vec<u8>, AccountId),
}

impl View for Event {
    type V = EventView;

    open spec fn view(&self) -> EventView {
        match self {
            Event::MemberAdded(c, m) => EventView::MemberAdded(c@, *m),
            Event::MemberRemoved(c, m) => EventView::MemberRemoved(c@, *m),
        }
    }
}

/// Configuration fixed by the host.
#[derive(Clone, Copy, Debug)]
pub struct Config {
    /// How many clubs must be registered before membership can change.
    pub min_registered_club: u8,
}

/// The whole state of the registry.
pub struct PalletView {
    pub directory: Map<u8, Seq<u8>>,
    pub members: Map<Seq<u8>, Seq<AccountId>>,
    pub min_registered_club: u8,
    pub events: Seq<EventView>,
}

/// Whether enough clubs are registered for membership to change.
pub open spec fn quorum_met(s: PalletView) -> bool {
    s.directory.dom().len() >= s.min_registered_club
}

/// The state and result of adding `m` to `club`: the checks run in order,
/// and on success `m` is appended to the club's list and an event recorded.
pub open spec fn add_step(s: PalletView, root: bool, club: Seq<u8>, m: AccountId) -> (
    PalletView,
    Result<(), Error>,
) {
    if !root {
        (s, Err(Error::Unauthorized))
    } else if !quorum_met(s) {
        (s, Err(Error::RegisteredClubQuorumNotMet))
    } else if !is_registered(s.directory, club) {
        (s, Err(Error::ClubNotRegistered))
    } else if member_list(s.members, club).contains(m) {
        (s, Err(Error::MemberAlreadyExists))
    } else {
        (
            PalletView {
                members: s.members.insert(club, member_list(s.members, club).push(m)),
                events: s.events.push(EventView::MemberAdded(club, m)),
                ..s
            },
            Ok(()),
        )
    }
}

/// The state and result of removing `m` from `club`: the checks run in
/// order, and on success the first occurrence of `m` leaves the club's list
/// (the entry stays, possibly empty) and an event is recorded.
pub open spec fn remove_step(s: PalletView, root: bool, club: Seq<u8>, m: AccountId) -> (
    PalletView,
    Result<(), Error>,
) {
    if !root {
        (s, Err(Error::Unauthorized))
    } else if !quorum_met(s) {
        (s, Err(Error::RegisteredClubQuorumNotMet))
    } else if !is_registered(s.directory, club) {
        (s, Err(Error::ClubNotRegistered))
    } else if !s.members.contains_key(club) {
        (s, Err(Error::ClubHasNoMembers))
    } else if !s.members[club].contains(m) {
        (s, Err(Error::MemberNotFound))
    } else {
        (
            PalletView {
                members: s.members.insert(club, remove_first(s.members[club], m)),
                events: s.events.push(EventView::MemberRemoved(club, m)),
                ..s
            },
            Ok(()),
        )
    }
}

/// The registry: registered clubs, member lists, quorum and emitted events.
pub struct Pallet {
    directory: RegisteredClubs,
    members: ClubMembers,
    min_registered_club: u8,
    events: Vec<Event>,
}

impl View for Pallet {
    type V = PalletView;

    closed spec fn view(&self) -> PalletView {
        PalletView {
            directory: self.directory@,
            members: self.members@,
            min_registered_club: self.min_registered_club,
            events: self.events@.map_values(|e: Event| e@),
        }
    }
}

impl Pallet {
    /// Internal consistency of the directory and the store.
    pub closed spec fn wf(&self) -> bool {
        self.directory.wf() && self.members.wf()
    }

    /// Starts the registry from its genesis configuration: the directory is
    /// built from the listed pairs, and no club has members yet.
    pub fn new(config: Config, genesis: &GenesisConfig) -> (r: Pallet)
        ensures
            r.wf(),
            r@.directory == directory_of(genesis_pairs(*genesis)),
            r@.members == Map::<Seq<u8>, Seq<AccountId>>::empty(),
            r@.min_registered_club == config.min_registered_club,
            r@.events == Seq::<EventView>::empty(),
    {
        let r = Pallet {
            directory: genesis.build(),
            members: ClubMembers::new(),
            min_registered_club: config.min_registered_club,
            events: Vec::new(),
        };
        assert(r@.events =~= Seq::<EventView>::empty());
        r
    }

    /// The members of `club_name` in the order they were added, if the club
    /// has ever had a member.
    pub fn clubs(&self, club_name: &Vec<u8>) -> (r: Option<Vec<AccountId>>)
        requires
            self.wf(),
        ensures
            r is None <==> !self@.members.contains_key(club_name@),
            r matches Some(v) ==> v@ == self@.members[club_name@],
    {
        match self.members.get(club_name) {
            Some(list) => Some(copy_accounts(list)),
            None => None,
        }
    }

    /// The club name registered in `slot`, if any.
    pub fn registered_clubs(&self, slot: u8) -> (r: Option<Vec<u8>>)
        requires
            self.wf(),
        ensures
            r is None <==> !self@.directory.contains_key(slot),
            r matches Some(v) ==> v@ == self@.directory[slot],
    {
        self.directory.get(slot)
    }

    /// Number of registered clubs.
    pub fn registered_club_count(&self) -> (r: usize)
        requires
            self.wf(),
        ensures
            r == self@.directory.dom().len(),
    {
        self.directory.count()
    }

    /// The configured minimum number of registered clubs.
    pub fn min_registered_club(&self) -> (r: u8)
        ensures
            r == self@.min_registered_club,
    {
        self.min_registered_club
    }

    /// Every event emitted so far, oldest first.
    pub fn events(&self) -> (r: &Vec<Event>)
        ensures
            r@.map_values(|e: Event| e@) == self@.events,
    {
        &self.events
    }

    /// The most recent event, if any.
    pub fn last_event(&self) -> (r: Option<&Event>)
        ensures
            r is None <==> self@.events.len() == 0,
            r matches Some(e) ==> e@ == self@.events.last(),
    {
        let n = self.events.len();
        if n == 0 {
            None
        } else {
            Some(&self.events[n - 1])
        }
    }

    fn deposit_event(&mut self, e: Event)
        ensures
            final(self).directory == old(self).directory,
            final(self).members == old(self).members,
            final(self).min_registered_club == old(self).min_registered_club,
            final(self)@.events == old(self)@.events.push(e@),
    {
        self.events.push(e);
        assert(self@.events =~= old(self)@.events.push(e@));
    }

    /// Runs the checks shared by both operations: authority, quorum and
    /// registration of the club, in that order.
    fn check_gate(&self, origin: Origin, club_name: &Vec<u8>) -> (r: Result<(), Error>)
        requires
            self.wf(),
        ensures
            r == (if !(origin is Root) {
                Err(Error::Unauthorized)
            } else if !quorum_met(self@) {
                Err(Error::RegisteredClubQuorumNotMet)
            } else if !is_registered(self@.directory, club_name@) {
                Err(Error::ClubNotRegistered)
            } else {
                Ok(())
            }),
    {
        if !origin.is_root() {
            return Err(Error::Unauthorized);
        }
        if self.directory.count() < self.min_registered_club as usize {
            return Err(Error::RegisteredClubQuorumNotMet);
        }
        if !self.directory.contains(club_name) {
            return Err(Error::ClubNotRegistered);
        }
        Ok(())
    }

    /// Adds `member` to the list of `club_name`. Fails, changing nothing, when
    /// the caller is not the administrative authority, the quorum is not met,
    /// the club is not registered, or the account is already a member.
    pub fn add_member(&mut self, origin: Origin, club_name: Vec<u8>, member: AccountId) -> (r: Result<(), Error>)
        requires
            old(self).wf(),
        ensures
            final(self).wf(),
            (final(self)@, r) == add_step(old(self)@, origin is Root, club_name@, member),
    {
        if let Err(e) = self.check_gate(origin, &club_name) {
            return Err(e);
        }
        let mut known: Vec<AccountId> = Vec::new();
        match self.members.get(&club_name) {
            Some(list) => {
                let mut i: usize = 0;
                while i < list.len()
                    invariant
                        self.wf(),
                        self@ == old(self)@,
                        quorum_met(self@),
                        is_registered(self@.directory, club_name@),
                        origin is Root,
                        self@.members.contains_key(club_name@),
                        list@ == self@.members[club_name@],
                        0 <= i <= list@.len(),
                        known@ == list@.subrange(0, i as int),
                        forall|j: int| 0 <= j < i ==> list@[j] != member,
                    decreases list@.len() - i,
                {
                    if list[i] == member {
                        assert(list@[i as int] == member);
                        return Err(Error::MemberAlreadyExists);
                    }
                    known.push(list[i]);
                    i = i + 1;
                }
                assert(known@ =~= list@);
            },
            None => {},
        }
        let ghost before = known@;
        known.push(member);
        self.members.insert(&club_name, known);
        self.deposit_event(Event::MemberAdded(copy_bytes(&club_name), member));
        assert(self@.members == old(self)@.members.insert(club_name@, before.push(member)));
        Ok(())
    }

    /// Removes the first occurrence of `member` from the list of `club_name`;
    /// the club keeps its entry even when its list becomes empty. Fails,
    /// changing nothing, when the caller is not the administrative authority,
    /// the quorum is not met, the club is not registered, the club never had
    /// a member, or the account is not in its list.
    pub fn remove_member(&mut self, origin: Origin, club_name: Vec<u8>, member: AccountId) -> (r: Result<(), Error>)
        requires
            old(self).wf(),
        ensures
            final(self).wf(),
            (final(self)@, r) == remove_step(old(self)@, origin is Root, club_name@, member),
    {
        if let Err(e) = self.check_gate(origin, &club_name) {
            return Err(e);
        }
        let mut known: Vec<AccountId> = Vec::new();
        let mut found: Option<usize> = None;
        match self.members.get(&club_name) {
            Some(list) => {
                let mut i: usize = 0;
                while i < list.len()
                    invariant
                        self.wf(),
                        self@ == old(self)@,
                        quorum_met(self@),
                        is_registered(self@.directory, club_name@),
                        origin is Root,
                        self@.members.contains_key(club_name@),
                        list@ == self@.members[club_name@],
                        0 <= i <= list@.len(),
                        known@ == list@.subrange(0, i as int),
                        found is None ==> forall|j: int| 0 <= j < i ==> list@[j] != member,
                        found matches Some(k) ==> k < i && list@[k as int] == member && forall|j: int|
                            0 <= j < k ==> list@[j] != member,
                    decreases list@.len() - i,
                {
                    if found.is_none() && list[i] == member {
                        found = Some(i);
                    }
                    known.push(list[i]);
                    i = i + 1;
                }
                assert(known@ =~= list@);
            },
            None => {
                return Err(Error::ClubHasNoMembers);
            },
        }
        let ghost list = known@;
        match found {
            Some(k) => {
                known.remove(k);
                proof {
                    lemma_remove_first_at(list, member, k as int);
                }
                self.members.insert(&club_name, known);
                self.deposit_event(Event::MemberRemoved(copy_bytes(&club_name), member));
                Ok(())
            },
            None => {
                assert(!list.contains(member));
                Err(Error::MemberNotFound)
            },
        }
    }
}

} // verus!
