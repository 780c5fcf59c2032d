use erebor_record_keeper::error::EngineError;
use erebor_record_keeper::models::roster::{
    ClaimOutcome, EntryState, Lease, Roster, RosterEntry, LEASE_TTL,
};
use erebor_record_keeper::progress::Progress;

const T0: i64 = 1_600_000_000;

fn roster_of(event_id: i64, scenario_ids: &[i64]) -> Roster {
    let mut roster = Roster::new();
    for id in scenario_ids {
        assert!(roster.enroll(event_id, *id, T0));
    }
    roster
}

#[test]
fn the_lease_runs_two_hours() {
    assert_eq!(LEASE_TTL, 2 * 60 * 60);
}

#[test]
fn enrolling_twice_leaves_one_entry() {
    let mut roster = Roster::new();
    assert!(roster.enroll(1, 10, T0));
    assert!(!roster.enroll(1, 10, T0 + 5));
    assert_eq!(roster.entries.len(), 1);
    assert_eq!(
        roster.entries[0],
        RosterEntry { event_id: 1, scenario_id: 10, complete: false, checkout: None, updated_at: T0 }
    );
}

#[test]
fn the_same_scenario_enrolls_in_another_event() {
    let mut roster = roster_of(1, &[10]);
    assert!(roster.enroll(2, 10, T0));
    assert_eq!(roster.entries.len(), 2);
}

#[test]
fn enrolling_many_skips_what_is_there() {
    let mut roster = roster_of(1, &[10, 12]);
    let added = roster.enroll_all(1, &vec![10, 11, 12, 13, 11], T0 + 1);
    assert_eq!(added, 2);
    let ids: Vec<i64> = roster.entries.iter().map(|entry| entry.scenario_id).collect();
    assert_eq!(ids, vec![10, 12, 11, 13]);
    assert_eq!(roster.enroll_all(1, &vec![10, 11, 12, 13], T0 + 2), 0);
    assert_eq!(roster.entries.len(), 4);
}

#[test]
fn a_claim_reserves_an_open_entry() {
    let mut roster = roster_of(1, &[10]);
    assert_eq!(roster.claim(1, 10, 7, T0 + 100, LEASE_TTL), Ok(ClaimOutcome::Claimed));
    assert_eq!(roster.entries[0].checkout, Some(Lease { since: T0 + 100, user_id: 7 }));
    assert_eq!(roster.entries[0].updated_at, T0 + 100);
    assert!(!roster.entries[0].complete);
}

#[test]
fn of_two_claims_one_is_granted() {
    let mut roster = roster_of(1, &[10]);
    let first = roster.claim(1, 10, 7, T0, LEASE_TTL);
    let second = roster.claim(1, 10, 8, T0, LEASE_TTL);
    assert_eq!(first, Ok(ClaimOutcome::Claimed));
    assert_eq!(
        second,
        Ok(ClaimOutcome::AlreadyLeased { by: 7, expires_at: (T0 as i128) + 7200 })
    );
    assert_eq!(roster.entries[0].checkout, Some(Lease { since: T0, user_id: 7 }));
}

#[test]
fn the_holder_is_told_of_the_lease_too() {
    let mut roster = roster_of(1, &[10]);
    assert_eq!(roster.claim(1, 10, 7, T0, LEASE_TTL), Ok(ClaimOutcome::Claimed));
    assert_eq!(
        roster.claim(1, 10, 7, T0 + 60, LEASE_TTL),
        Ok(ClaimOutcome::AlreadyLeased { by: 7, expires_at: (T0 as i128) + 7200 })
    );
    assert_eq!(roster.entries[0].checkout, Some(Lease { since: T0, user_id: 7 }));
}

#[test]
fn a_claim_after_the_lease_ran_out_is_granted() {
    let mut roster = roster_of(1, &[10]);
    assert_eq!(roster.claim(1, 10, 7, T0, LEASE_TTL), Ok(ClaimOutcome::Claimed));
    assert_eq!(roster.claim(1, 10, 8, T0 + 7200 + 1, LEASE_TTL), Ok(ClaimOutcome::Claimed));
    assert_eq!(roster.entries[0].checkout, Some(Lease { since: T0 + 7201, user_id: 8 }));
}

#[test]
fn the_lease_runs_out_at_the_ttl_exactly() {
    let mut roster = roster_of(1, &[10]);
    assert_eq!(roster.claim(1, 10, 7, T0, LEASE_TTL), Ok(ClaimOutcome::Claimed));
    assert_eq!(
        roster.claim(1, 10, 8, T0 + 7199, LEASE_TTL),
        Ok(ClaimOutcome::AlreadyLeased { by: 7, expires_at: (T0 as i128) + 7200 })
    );
    assert_eq!(roster.claim(1, 10, 8, T0 + 7200, LEASE_TTL), Ok(ClaimOutcome::Claimed));
}

#[test]
fn the_ttl_is_what_the_caller_says() {
    let mut roster = roster_of(1, &[10]);
    assert_eq!(roster.claim(1, 10, 7, T0, 60), Ok(ClaimOutcome::Claimed));
    assert_eq!(
        roster.claim(1, 10, 8, T0 + 59, 60),
        Ok(ClaimOutcome::AlreadyLeased { by: 7, expires_at: (T0 as i128) + 60 })
    );
    assert_eq!(roster.claim(1, 10, 8, T0 + 60, 60), Ok(ClaimOutcome::Claimed));
    assert_eq!(roster.claim(1, 10, 9, T0 + 60, 0), Ok(ClaimOutcome::Claimed));
}

#[test]
fn a_claim_for_what_is_not_on_the_roster_is_not_found() {
    let mut roster = roster_of(1, &[10]);
    assert_eq!(roster.claim(1, 11, 7, T0, LEASE_TTL), Err(EngineError::NotFound));
    assert_eq!(roster.claim(2, 10, 7, T0, LEASE_TTL), Err(EngineError::NotFound));
    assert_eq!(roster.entries[0].checkout, None);
}

#[test]
fn a_done_entry_takes_no_claim() {
    let mut roster = roster_of(1, &[10]);
    assert_eq!(roster.complete(1, 10, T0 + 1), Ok(false));
    assert_eq!(roster.claim(1, 10, 7, T0 + 2, LEASE_TTL), Ok(ClaimOutcome::AlreadyCompleted));
    assert_eq!(roster.entries[0].checkout, None);
    assert!(roster.entries[0].complete);
}

#[test]
fn completing_twice_is_no_error_and_changes_nothing() {
    let mut roster = roster_of(1, &[10]);
    assert_eq!(roster.complete(1, 10, T0 + 1), Ok(false));
    let after_first = roster.entries.clone();
    assert_eq!(roster.complete(1, 10, T0 + 9), Ok(true));
    assert_eq!(roster.entries, after_first);
    assert!(roster.entries[0].complete);
    assert_eq!(roster.entries[0].updated_at, T0 + 1);
}

#[test]
fn completing_what_is_not_on_the_roster_is_not_found() {
    let mut roster = roster_of(1, &[10]);
    assert_eq!(roster.complete(1, 11, T0), Err(EngineError::NotFound));
    assert!(!roster.entries[0].complete);
}

#[test]
fn nothing_makes_a_done_entry_undone() {
    let mut roster = roster_of(1, &[10, 11]);
    assert_eq!(roster.complete(1, 10, T0), Ok(false));
    roster.enroll(1, 10, T0 + 1);
    roster.enroll(1, 12, T0 + 1);
    let _ = roster.claim(1, 10, 7, T0 + 2, LEASE_TTL);
    let _ = roster.claim(1, 11, 7, T0 + 2, LEASE_TTL);
    let _ = roster.complete(1, 10, T0 + 3);
    roster.enroll_all(1, &vec![10, 11, 13], T0 + 4);
    assert!(roster.entries[0].complete);
    assert_eq!(roster.entries[0].scenario_id, 10);
}

#[test]
fn a_reserved_entry_can_be_completed_by_anybody() {
    let mut roster = roster_of(1, &[10]);
    assert_eq!(roster.claim(1, 10, 7, T0, LEASE_TTL), Ok(ClaimOutcome::Claimed));
    assert_eq!(roster.complete(1, 10, T0 + 1), Ok(false));
    assert_eq!(
        roster.entries[0].current_state(T0 + 2, LEASE_TTL),
        EntryState::Completed
    );
}

#[test]
fn the_state_is_worked_out_at_read_time() {
    let entry = RosterEntry {
        event_id: 1,
        scenario_id: 10,
        complete: false,
        checkout: Some(Lease { since: T0, user_id: 7 }),
        updated_at: T0,
    };
    assert_eq!(
        entry.current_state(T0, LEASE_TTL),
        EntryState::Leased { by: 7, expires_at: (T0 as i128) + 7200 }
    );
    assert_eq!(entry.current_state(T0 + 7200, LEASE_TTL), EntryState::Open);
    assert_eq!(
        entry.current_state(T0 - 100, LEASE_TTL),
        EntryState::Leased { by: 7, expires_at: (T0 as i128) + 7200 }
    );
    let open = RosterEntry { checkout: None, ..entry };
    assert_eq!(open.current_state(T0, LEASE_TTL), EntryState::Open);
    let done = RosterEntry { complete: true, ..entry };
    assert_eq!(done.current_state(T0, LEASE_TTL), EntryState::Completed);
}

#[test]
fn the_state_does_not_overflow() {
    let entry = RosterEntry {
        event_id: 1,
        scenario_id: 10,
        complete: false,
        checkout: Some(Lease { since: i64::MAX, user_id: 7 }),
        updated_at: 0,
    };
    assert_eq!(
        entry.current_state(i64::MIN, u64::MAX),
        EntryState::Leased { by: 7, expires_at: (i64::MAX as i128) + (u64::MAX as i128) }
    );
    let early = RosterEntry { checkout: Some(Lease { since: i64::MIN, user_id: 7 }), ..entry };
    assert_eq!(early.current_state(i64::MAX, u64::MAX), EntryState::Open);
}

#[test]
fn a_listing_of_five_out_of_three_holds_the_three() {
    let roster = roster_of(1, &[10, 11, 12]);
    for seed in 0..50u64 {
        let found = roster.list_available(1, 5, seed, T0, LEASE_TTL);
        assert_eq!(found.len(), 3);
        let mut ids: Vec<i64> = found.iter().map(|entry| entry.scenario_id).collect();
        ids.sort();
        assert_eq!(ids, vec![10, 11, 12]);
    }
}

#[test]
fn a_listing_holds_no_entry_twice_and_no_more_than_asked() {
    let roster = roster_of(1, &[10, 11, 12, 13, 14, 15, 16, 17]);
    for seed in 0..100u64 {
        let found = roster.list_available(1, 3, seed, T0, LEASE_TTL);
        assert_eq!(found.len(), 3);
        let mut ids: Vec<i64> = found.iter().map(|entry| entry.scenario_id).collect();
        ids.sort();
        ids.dedup();
        assert_eq!(ids.len(), 3);
        assert!(ids.iter().all(|id| (10..=17).contains(id)));
    }
}

#[test]
fn a_listing_leaves_out_what_is_done_or_reserved_or_elsewhere() {
    let mut roster = roster_of(1, &[10, 11, 12, 13]);
    roster.enroll(2, 99, T0);
    assert_eq!(roster.complete(1, 10, T0), Ok(false));
    assert_eq!(roster.claim(1, 11, 7, T0, LEASE_TTL), Ok(ClaimOutcome::Claimed));
    for seed in 0..20u64 {
        let found = roster.list_available(1, 10, seed, T0 + 10, LEASE_TTL);
        let mut ids: Vec<i64> = found.iter().map(|entry| entry.scenario_id).collect();
        ids.sort();
        assert_eq!(ids, vec![12, 13]);
    }
    let later = roster.list_available(1, 10, 1, T0 + 7200, LEASE_TTL);
    let mut ids: Vec<i64> = later.iter().map(|entry| entry.scenario_id).collect();
    ids.sort();
    assert_eq!(ids, vec![11, 12, 13]);
}

#[test]
fn a_listing_reserves_nothing() {
    let roster = roster_of(1, &[10, 11]);
    let before = roster.entries.clone();
    let _ = roster.list_available(1, 2, 3, T0, LEASE_TTL);
    assert_eq!(roster.entries, before);
}

#[test]
fn a_listing_of_nothing_is_empty() {
    let roster = roster_of(1, &[10, 11]);
    assert!(roster.list_available(1, 0, 3, T0, LEASE_TTL).is_empty());
    assert!(roster.list_available(2, 5, 3, T0, LEASE_TTL).is_empty());
    assert!(Roster::new().list_available(1, 5, 3, T0, LEASE_TTL).is_empty());
}

#[test]
fn listings_differ_with_the_seed() {
    let roster = roster_of(1, &(0..40).collect::<Vec<i64>>());
    let mut seen = std::collections::BTreeSet::new();
    for seed in 0..40u64 {
        let found = roster.list_available(1, 1, seed, T0, LEASE_TTL);
        seen.insert(found[0].scenario_id);
    }
    assert!(seen.len() > 5);
}

#[test]
fn three_of_four_done_is_seventy_five_percent() {
    let mut roster = roster_of(1, &[10, 11, 12, 13]);
    roster.enroll(2, 10, T0);
    for id in [10, 11, 12] {
        assert_eq!(roster.complete(1, id, T0), Ok(false));
    }
    let progress = roster.progress(1);
    assert_eq!(progress, Progress { completed: 3, total: 4 });
    assert_eq!(progress.hundredths(), Some(7500));
    assert_eq!(roster.progress(2), Progress { completed: 0, total: 1 });
    assert_eq!(roster.progress(2).hundredths(), Some(0));
}

#[test]
fn progress_of_an_empty_roster_is_no_data() {
    let roster = roster_of(1, &[10]);
    assert_eq!(roster.progress(3), Progress { completed: 0, total: 0 });
    assert_eq!(roster.progress(3).hundredths(), None);
}

#[test]
fn progress_stays_between_nothing_and_all() {
    let mut roster = roster_of(1, &[10, 11, 12]);
    assert_eq!(roster.progress(1).hundredths(), Some(0));
    roster.complete(1, 10, T0).unwrap();
    assert_eq!(roster.progress(1).hundredths(), Some(3333));
    roster.complete(1, 11, T0).unwrap();
    assert_eq!(roster.progress(1).hundredths(), Some(6666));
    roster.complete(1, 12, T0).unwrap();
    assert_eq!(roster.progress(1).hundredths(), Some(10000));
    roster.complete(1, 12, T0).unwrap();
    assert_eq!(roster.progress(1).hundredths(), Some(10000));
}

#[test]
fn a_roster_is_made_of_entries_without_doubles() {
    let entry = RosterEntry { event_id: 1, scenario_id: 10, complete: false, checkout: None, updated_at: 0 };
    let other = RosterEntry { scenario_id: 11, ..entry };
    let elsewhere = RosterEntry { event_id: 2, ..entry };
    assert!(Roster::from_entries(vec![entry, other, elsewhere]).is_some());
    assert!(Roster::from_entries(Vec::new()).is_some());
    let done = RosterEntry { complete: true, ..entry };
    assert!(Roster::from_entries(vec![entry, other, done]).is_none());
}

#[test]
fn the_place_of_an_entry_is_found() {
    let roster = roster_of(1, &[10, 11]);
    assert_eq!(roster.position(1, 11), Some(1));
    assert_eq!(roster.position(1, 12), None);
    assert_eq!(roster.position(2, 11), None);
}

#[test]
fn a_listing_may_show_what_is_done_or_reserved() {
    let mut roster = roster_of(1, &[10, 11, 12]);
    assert_eq!(roster.complete(1, 10, T0), Ok(false));
    assert_eq!(roster.claim(1, 11, 7, T0, LEASE_TTL), Ok(ClaimOutcome::Claimed));
    let ids = |found: Vec<RosterEntry>| {
        let mut ids: Vec<i64> = found.iter().map(|entry| entry.scenario_id).collect();
        ids.sort();
        ids
    };
    assert_eq!(ids(roster.list(1, true, true, 9, 1, T0 + 1, LEASE_TTL)), vec![12]);
    assert_eq!(ids(roster.list(1, false, true, 9, 1, T0 + 1, LEASE_TTL)), vec![10, 12]);
    assert_eq!(ids(roster.list(1, true, false, 9, 1, T0 + 1, LEASE_TTL)), vec![11, 12]);
    assert_eq!(ids(roster.list(1, false, false, 9, 1, T0 + 1, LEASE_TTL)), vec![10, 11, 12]);
    assert_eq!(roster.list(1, false, false, 2, 1, T0 + 1, LEASE_TTL).len(), 2);
}
