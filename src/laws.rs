//! Laws relating the membership operations, proved over their step functions.
use vstd::prelude::*;

use crate::directory::is_registered;
use crate::membership::{member_list, remove_first, AccountId};
use crate::pallet::{add_step, quorum_met, remove_step, Error, PalletView};

verus! {

/// Appending an account that is absent and then removing its first
/// occurrence gives back the original list.
pub proof fn lemma_remove_first_push(l: Seq<AccountId>, m: AccountId)
    requires
        !l.contains(m),
    ensures
        remove_first(l.push(m), m) == l,
    decreases l.len(),
{
    if l.len() == 0 {
        assert(l.push(m).subrange(1, 1) =~= l);
    } else {
        let t = l.subrange(1, l.len() as int);
        assert(!t.contains(m)) by {
            if t.contains(m) {
                let k = choose|k: int| 0 <= k < t.len() && t[k] == m;
                assert(l[k + 1] == m);
            }
        }
        lemma_remove_first_push(t, m);
        assert(l.push(m).subrange(1, l.push(m).len() as int) =~= t.push(m));
        assert(l[0] != m);
        assert(seq![l[0]] + t =~= l);
    }
}

/// Adding the same account to the same club twice: the first call succeeds,
/// the second fails with `MemberAlreadyExists` and leaves the state as the
/// first call left it.
pub proof fn lemma_add_twice(s: PalletView, club: Seq<u8>, m: AccountId)
    requires
        quorum_met(s),
        is_registered(s.directory, club),
        !member_list(s.members, club).contains(m),
    ensures
        add_step(s, true, club, m).1 == Ok::<(), Error>(()),
        add_step(add_step(s, true, club, m).0, true, club, m) == (
            add_step(s, true, club, m).0,
            Err::<(), Error>(Error::MemberAlreadyExists),
        ),
{
    let s1 = add_step(s, true, club, m).0;
    let l = member_list(s.members, club);
    assert(member_list(s1.members, club) == l.push(m));
    assert(l.push(m)[l.len() as int] == m);
}

/// Adding an account to a registered club and then removing it gives the club
/// back its list as it was, order included, and touches no other club.
pub proof fn lemma_add_remove_round_trip(s: PalletView, club: Seq<u8>, m: AccountId)
    requires
        quorum_met(s),
        is_registered(s.directory, club),
        !member_list(s.members, club).contains(m),
    ensures
        add_step(s, true, club, m).1 == Ok::<(), Error>(()),
        remove_step(add_step(s, true, club, m).0, true, club, m).1 == Ok::<(), Error>(()),
        remove_step(add_step(s, true, club, m).0, true, club, m).0.members == s.members.insert(
            club,
            member_list(s.members, club),
        ),
        member_list(remove_step(add_step(s, true, club, m).0, true, club, m).0.members, club)
            == member_list(s.members, club),
        remove_step(add_step(s, true, club, m).0, true, club, m).0.directory == s.directory,
{
    let s1 = add_step(s, true, club, m).0;
    let l = member_list(s.members, club);
    assert(s1.members[club] == l.push(m));
    assert(l.push(m)[l.len() as int] == m);
    lemma_remove_first_push(l, m);
    let s2 = remove_step(s1, true, club, m).0;
    assert(s2.members =~= s.members.insert(club, l));
}

/// While fewer clubs are registered than the minimum, every change asked by
/// the administrative authority fails with `RegisteredClubQuorumNotMet`, for
/// any club, and changes nothing.
pub proof fn lemma_quorum_gate(s: PalletView, club: Seq<u8>, m: AccountId)
    requires
        !quorum_met(s),
    ensures
        add_step(s, true, club, m) == (s, Err::<(), Error>(Error::RegisteredClubQuorumNotMet)),
        remove_step(s, true, club, m) == (s, Err::<(), Error>(Error::RegisteredClubQuorumNotMet)),
{
}

/// A caller without administrative authority is refused with `Unauthorized`
/// before any other check, whatever the state, club and account, and nothing
/// changes.
pub proof fn lemma_authorization_gate(s: PalletView, club: Seq<u8>, m: AccountId)
    ensures
        add_step(s, false, club, m) == (s, Err::<(), Error>(Error::Unauthorized)),
        remove_step(s, false, club, m) == (s, Err::<(), Error>(Error::Unauthorized)),
{
}

/// With the quorum met, a change to a club that no slot holds fails with
/// `ClubNotRegistered` and changes nothing.
pub proof fn lemma_unregistered_club(s: PalletView, club: Seq<u8>, m: AccountId)
    requires
        quorum_met(s),
        !is_registered(s.directory, club),
    ensures
        add_step(s, true, club, m) == (s, Err::<(), Error>(Error::ClubNotRegistered)),
        remove_step(s, true, club, m) == (s, Err::<(), Error>(Error::ClubNotRegistered)),
{
}

} // verus!
