use erebor_record_keeper::models::roster::{Roster, LEASE_TTL};
use erebor_record_keeper::sampling::{draw, draw_strings};

#[test]
fn a_draw_goes_by_the_seed() {
    assert_eq!(draw(5, 3, 42), vec![3, 4, 2]);
    assert_eq!(draw(5, 5, 0), vec![0, 1, 3, 2, 4]);
    assert_eq!(draw(10, 4, 7), vec![7, 0, 4, 6]);
    assert_eq!(draw(8, 8, 123456789), vec![1, 3, 0, 5, 7, 6, 2, 4]);
}

#[test]
fn a_draw_of_more_than_there_is_gives_all() {
    assert_eq!(draw(3, 5, 1), vec![2, 0, 1]);
    assert_eq!(draw(1, 1, 99), vec![0]);
    assert_eq!(draw(0, 4, 99), Vec::<usize>::new());
    assert_eq!(draw(4, 0, 99), Vec::<usize>::new());
}

#[test]
fn the_same_seed_draws_the_same() {
    for seed in [0u64, 1, 42, u64::MAX] {
        assert_eq!(draw(20, 6, seed), draw(20, 6, seed));
    }
}

#[test]
fn a_draw_holds_different_places() {
    for seed in 0..200u64 {
        let mut places = draw(12, 7, seed);
        assert_eq!(places.len(), 7);
        assert!(places.iter().all(|place| *place < 12));
        places.sort();
        places.dedup();
        assert_eq!(places.len(), 7);
    }
}

#[test]
fn every_place_is_drawn_first_by_some_seed() {
    let mut seen = std::collections::BTreeSet::new();
    for seed in 0..200u64 {
        seen.insert(draw(6, 1, seed)[0]);
    }
    assert_eq!(seen.len(), 6);
}

#[test]
fn strings_are_drawn_at_the_places_of_the_draw() {
    let candidates: Vec<String> = ["a", "b", "c", "d", "e"].iter().map(|t| t.to_string()).collect();
    assert_eq!(draw_strings(&candidates, 3, 42), vec!["d", "e", "c"]);
    assert_eq!(draw_strings(&candidates, 9, 0), vec!["a", "b", "d", "c", "e"]);
    assert_eq!(draw_strings(&Vec::new(), 3, 42), Vec::<String>::new());
}

#[test]
fn a_listing_is_the_draw_from_what_can_be_listed() {
    let mut roster = Roster::new();
    roster.enroll_all(1, &vec![10, 11, 12, 13, 14, 15], 0);
    roster.complete(1, 11, 0).unwrap();
    let found = roster.list_available(1, 3, 42, 1, LEASE_TTL);
    let ids: Vec<i64> = found.iter().map(|entry| entry.scenario_id).collect();
    assert_eq!(ids, vec![14, 15, 13]);
}
