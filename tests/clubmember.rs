use clubmember::{AccountId, Config, Error, Event, GenesisConfig, Origin, Pallet};

const SEED: u32 = 0;

/// A deterministic account identifier for tests.
fn account(index: u32, seed: u32) -> AccountId {
    ((seed as u64) << 32) | index as u64
}

fn genesis(pairs: Vec<(u8, &[u8])>) -> GenesisConfig {
    GenesisConfig {
        registered_clubs: Some(pairs.into_iter().map(|(s, n)| (s, n.to_vec())).collect()),
    }
}

/// Slot 0 holds "chelsea", slot 1 holds "arsenal", and two clubs are needed.
fn new_test_ext() -> Pallet {
    Pallet::new(
        Config { min_registered_club: 2 },
        &genesis(vec![(0, b"chelsea"), (1, b"arsenal")]),
    )
}

fn assert_last_event(p: &Pallet, expected: Event) {
    assert_eq!(p.last_event(), Some(&expected));
}

#[test]
fn should_add_new_member_to_a_new_club() {
    let mut p = new_test_ext();
    let club_name = b"chelsea".to_vec();
    let account_id = account(1, SEED);
    assert_eq!(p.add_member(Origin::root(), club_name.clone(), account_id), Ok(()));
    assert_last_event(&p, Event::MemberAdded(club_name.clone(), account_id));
}

#[test]
fn should_remove_member_from_a_club() {
    let mut p = new_test_ext();
    let club_name = b"chelsea".to_vec();
    let account_id = account(1, SEED);
    assert_eq!(p.add_member(Origin::root(), club_name.clone(), account_id), Ok(()));
    assert_last_event(&p, Event::MemberAdded(club_name.clone(), account_id));
    assert_eq!(p.remove_member(Origin::root(), club_name.clone(), account_id), Ok(()));
    assert_last_event(&p, Event::MemberRemoved(club_name.clone(), account_id));
}

#[test]
fn genesis_scenario_second_remove_finds_no_member() {
    let mut p = new_test_ext();
    let chelsea = b"chelsea".to_vec();
    let a1 = account(1, SEED);
    assert_eq!(p.registered_clubs(0), Some(b"chelsea".to_vec()));
    assert_eq!(p.registered_clubs(1), Some(b"arsenal".to_vec()));
    assert_eq!(p.registered_clubs(2), None);
    assert_eq!(p.registered_club_count(), 2);
    assert_eq!(p.add_member(Origin::root(), chelsea.clone(), a1), Ok(()));
    assert_last_event(&p, Event::MemberAdded(chelsea.clone(), a1));
    assert_eq!(p.remove_member(Origin::root(), chelsea.clone(), a1), Ok(()));
    assert_last_event(&p, Event::MemberRemoved(chelsea.clone(), a1));
    // The entry stays, empty, so the second removal reports the missing member.
    assert_eq!(p.clubs(&chelsea), Some(vec![]));
    assert_eq!(p.remove_member(Origin::root(), chelsea.clone(), a1), Err(Error::MemberNotFound));
    assert_eq!(p.events().len(), 2);
}

#[test]
fn adding_twice_fails_and_keeps_the_list() {
    let mut p = new_test_ext();
    let chelsea = b"chelsea".to_vec();
    assert_eq!(p.add_member(Origin::root(), chelsea.clone(), 7), Ok(()));
    assert_eq!(p.add_member(Origin::root(), chelsea.clone(), 7), Err(Error::MemberAlreadyExists));
    assert_eq!(p.clubs(&chelsea), Some(vec![7]));
    assert_eq!(p.events().len(), 1);
}

#[test]
fn add_then_remove_restores_the_order_of_others() {
    let mut p = new_test_ext();
    let chelsea = b"chelsea".to_vec();
    for m in [3, 1, 2] {
        assert_eq!(p.add_member(Origin::root(), chelsea.clone(), m), Ok(()));
    }
    assert_eq!(p.add_member(Origin::root(), chelsea.clone(), 9), Ok(()));
    assert_eq!(p.clubs(&chelsea), Some(vec![3, 1, 2, 9]));
    assert_eq!(p.remove_member(Origin::root(), chelsea.clone(), 9), Ok(()));
    assert_eq!(p.clubs(&chelsea), Some(vec![3, 1, 2]));
}

#[test]
fn removing_from_the_middle_keeps_relative_order() {
    let mut p = new_test_ext();
    let arsenal = b"arsenal".to_vec();
    for m in [5, 6, 7] {
        assert_eq!(p.add_member(Origin::root(), arsenal.clone(), m), Ok(()));
    }
    assert_eq!(p.remove_member(Origin::root(), arsenal.clone(), 6), Ok(()));
    assert_eq!(p.clubs(&arsenal), Some(vec![5, 7]));
}

#[test]
fn quorum_not_met_refuses_every_change() {
    let mut p = Pallet::new(Config { min_registered_club: 2 }, &genesis(vec![(0, b"chelsea")]));
    let chelsea = b"chelsea".to_vec();
    assert_eq!(
        p.add_member(Origin::root(), chelsea.clone(), 1),
        Err(Error::RegisteredClubQuorumNotMet)
    );
    assert_eq!(
        p.remove_member(Origin::root(), chelsea.clone(), 1),
        Err(Error::RegisteredClubQuorumNotMet)
    );
    assert_eq!(
        p.add_member(Origin::root(), b"realmadrid".to_vec(), 1),
        Err(Error::RegisteredClubQuorumNotMet)
    );
    assert_eq!(p.clubs(&chelsea), None);
    assert_eq!(p.last_event(), None);
}

#[test]
fn non_root_caller_is_unauthorized() {
    let mut p = new_test_ext();
    let chelsea = b"chelsea".to_vec();
    assert_eq!(p.add_member(Origin::signed(4), chelsea.clone(), 1), Err(Error::Unauthorized));
    assert_eq!(p.add_member(Origin::Unsigned, chelsea.clone(), 1), Err(Error::Unauthorized));
    assert_eq!(p.add_member(Origin::root(), chelsea.clone(), 1), Ok(()));
    assert_eq!(p.remove_member(Origin::signed(4), chelsea.clone(), 1), Err(Error::Unauthorized));
    assert_eq!(p.clubs(&chelsea), Some(vec![1]));
}

#[test]
fn authority_is_checked_before_quorum() {
    let mut p = Pallet::new(Config { min_registered_club: 2 }, &GenesisConfig::default());
    assert_eq!(p.add_member(Origin::signed(1), b"chelsea".to_vec(), 1), Err(Error::Unauthorized));
}

#[test]
fn unregistered_club_is_refused() {
    let mut p = new_test_ext();
    assert_eq!(
        p.add_member(Origin::root(), b"realmadrid".to_vec(), 1),
        Err(Error::ClubNotRegistered)
    );
    assert_eq!(
        p.remove_member(Origin::root(), b"realmadrid".to_vec(), 1),
        Err(Error::ClubNotRegistered)
    );
    assert_eq!(
        p.add_member(Origin::root(), b"Chelsea".to_vec(), 1),
        Err(Error::ClubNotRegistered)
    );
}

#[test]
fn removing_from_a_club_without_members() {
    let mut p = new_test_ext();
    assert_eq!(
        p.remove_member(Origin::root(), b"arsenal".to_vec(), 1),
        Err(Error::ClubHasNoMembers)
    );
}

#[test]
fn removing_an_absent_member() {
    let mut p = new_test_ext();
    let arsenal = b"arsenal".to_vec();
    assert_eq!(p.add_member(Origin::root(), arsenal.clone(), 1), Ok(()));
    assert_eq!(p.remove_member(Origin::root(), arsenal.clone(), 2), Err(Error::MemberNotFound));
}

#[test]
fn same_account_in_two_clubs() {
    let mut p = new_test_ext();
    assert_eq!(p.add_member(Origin::root(), b"chelsea".to_vec(), 1), Ok(()));
    assert_eq!(p.add_member(Origin::root(), b"arsenal".to_vec(), 1), Ok(()));
    assert_eq!(p.clubs(&b"chelsea".to_vec()), Some(vec![1]));
    assert_eq!(p.clubs(&b"arsenal".to_vec()), Some(vec![1]));
}

#[test]
fn genesis_later_pair_overwrites_slot() {
    let p = Pallet::new(
        Config { min_registered_club: 1 },
        &genesis(vec![(3, b"chelsea"), (3, b"arsenal")]),
    );
    assert_eq!(p.registered_club_count(), 1);
    assert_eq!(p.registered_clubs(3), Some(b"arsenal".to_vec()));
}

#[test]
fn genesis_default_registers_nothing() {
    let mut p = Pallet::new(Config { min_registered_club: 0 }, &GenesisConfig::default());
    assert_eq!(p.registered_club_count(), 0);
    assert_eq!(p.min_registered_club(), 0);
    assert_eq!(
        p.add_member(Origin::root(), b"chelsea".to_vec(), 1),
        Err(Error::ClubNotRegistered)
    );
}

#[test]
fn aliased_names_in_two_slots_count_twice() {
    let mut p = Pallet::new(
        Config { min_registered_club: 2 },
        &genesis(vec![(0, b"chelsea"), (200, b"chelsea")]),
    );
    assert_eq!(p.registered_club_count(), 2);
    assert_eq!(p.add_member(Origin::root(), b"chelsea".to_vec(), 1), Ok(()));
}
