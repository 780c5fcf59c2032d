use erebor_record_keeper::error::EngineError;
use erebor_record_keeper::models::completion::{
    ChallengeEntry, ChallengeRoster, CompletionRecord, Completions,
};

#[test]
fn completing_twice_is_news_only_once() {
    let mut completions = Completions::new();
    let players = vec![7, 8, 9];
    assert_eq!(completions.complete_challenge(5, &players), vec![7, 8, 9]);
    assert_eq!(completions.records.len(), 3);
    assert_eq!(completions.complete_challenge(5, &players), Vec::<i64>::new());
    assert_eq!(completions.records.len(), 3);
}

#[test]
fn only_new_players_are_news() {
    let mut completions = Completions::new();
    assert_eq!(completions.complete_challenge(5, &vec![8]), vec![8]);
    assert_eq!(completions.complete_challenge(5, &vec![7, 8, 9]), vec![7, 9]);
    assert_eq!(
        completions.records,
        vec![
            CompletionRecord { challenge_event_id: 5, user_id: 8 },
            CompletionRecord { challenge_event_id: 5, user_id: 7 },
            CompletionRecord { challenge_event_id: 5, user_id: 9 },
        ]
    );
}

#[test]
fn a_player_named_twice_is_recorded_once() {
    let mut completions = Completions::new();
    assert_eq!(completions.complete_challenge(5, &vec![7, 7, 8, 7]), vec![7, 8]);
    assert_eq!(completions.records.len(), 2);
}

#[test]
fn completions_are_kept_by_challenge() {
    let mut completions = Completions::new();
    assert!(completions.record(5, 7));
    assert!(completions.record(6, 7));
    assert!(!completions.record(5, 7));
    assert!(completions.holds(5, 7));
    assert!(!completions.holds(5, 8));
    assert!(!completions.holds(7, 7));
    assert!(completions.holds_any(6));
    assert!(!completions.holds_any(7));
}

#[test]
fn nobody_completing_changes_nothing() {
    let mut completions = Completions::new();
    assert_eq!(completions.complete_challenge(5, &Vec::new()), Vec::<i64>::new());
    assert!(completions.records.is_empty());
}

#[test]
fn challenges_are_loaded_once() {
    let mut roster = ChallengeRoster::new();
    assert_eq!(roster.load(1, &vec![100, 101], 50), Ok(2));
    assert_eq!(roster.load(1, &vec![101, 102, 102], 60), Ok(1));
    assert_eq!(
        roster.entries,
        vec![
            ChallengeEntry { id: 1, event_id: 1, challenge_id: 100, active_date: 50 },
            ChallengeEntry { id: 2, event_id: 1, challenge_id: 101, active_date: 50 },
            ChallengeEntry { id: 3, event_id: 1, challenge_id: 102, active_date: 60 },
        ]
    );
    assert_eq!(roster.load(2, &vec![100], 70), Ok(1));
    assert_eq!(roster.entries[3], ChallengeEntry { id: 4, event_id: 2, challenge_id: 100, active_date: 70 });
}

#[test]
fn new_entries_get_ids_above_all_others() {
    let mut roster = ChallengeRoster {
        entries: vec![ChallengeEntry { id: 40, event_id: 1, challenge_id: 100, active_date: 0 }],
    };
    assert_eq!(roster.load(1, &vec![101], 0), Ok(1));
    assert_eq!(roster.entries[1].id, 41);
}

#[test]
fn loading_fails_where_ids_may_run_out() {
    let mut roster = ChallengeRoster {
        entries: vec![ChallengeEntry { id: i64::MAX - 1, event_id: 1, challenge_id: 100, active_date: 0 }],
    };
    assert_eq!(roster.load(1, &vec![101, 102], 0), Err(EngineError::StoreUnavailable));
    assert_eq!(roster.entries.len(), 1);
    assert_eq!(roster.load(1, &vec![101], 0), Ok(1));
    assert_eq!(roster.entries[1].id, i64::MAX);
}

#[test]
fn an_entry_is_found_by_event_and_challenge() {
    let mut roster = ChallengeRoster::new();
    roster.load(1, &vec![100, 101], 50).unwrap();
    assert_eq!(
        roster.find(1, 101),
        Some(ChallengeEntry { id: 2, event_id: 1, challenge_id: 101, active_date: 50 })
    );
    assert_eq!(roster.find(2, 101), None);
    assert_eq!(roster.find(1, 102), None);
}
