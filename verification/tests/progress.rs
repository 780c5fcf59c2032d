use erebor_record_keeper::models::challenge::Challenge;
use erebor_record_keeper::models::completion::{ChallengeRoster, Completions};
use erebor_record_keeper::progress::{
    actor_challenge_progress, group_challenge_progress, kind_progress, tally, Progress,
};

fn challenge(id: i64, tags: &[&str]) -> Challenge {
    Challenge {
        id,
        name: format!("Challenge {}", id),
        code: format!("C{}", id),
        description: None,
        scenario: None,
        attributes: tags.iter().map(|t| t.to_string()).collect(),
    }
}

fn fixture() -> (Vec<Challenge>, ChallengeRoster, Completions) {
    let challenges = vec![
        challenge(1, &[]),
        challenge(2, &["Gauntlet"]),
        challenge(3, &["Council of 100 Kangs"]),
        challenge(4, &[]),
        challenge(5, &[]),
        challenge(6, &["Council of 100 Kangs", "Gauntlet"]),
    ];
    let mut roster = ChallengeRoster::new();
    roster.load(1, &vec![1, 2, 3, 4, 6], 100).unwrap();
    roster.load(1, &vec![5], 900).unwrap();
    roster.load(2, &vec![1], 100).unwrap();
    let mut completions = Completions::new();
    completions.record(1, 70);
    completions.record(1, 71);
    completions.record(2, 70);
    completions.record(3, 71);
    completions.record(6, 70);
    completions.record(7, 72);
    (challenges, roster, completions)
}

#[test]
fn the_share_is_rounded_down_to_hundredths() {
    assert_eq!(Progress { completed: 3, total: 4 }.hundredths(), Some(7500));
    assert_eq!(Progress { completed: 1, total: 3 }.hundredths(), Some(3333));
    assert_eq!(Progress { completed: 2, total: 3 }.hundredths(), Some(6666));
    assert_eq!(Progress { completed: 0, total: 9 }.hundredths(), Some(0));
    assert_eq!(Progress { completed: 9, total: 9 }.hundredths(), Some(10000));
    assert_eq!(Progress { completed: 1, total: 32 }.hundredths(), Some(312));
    assert_eq!(Progress { completed: 0, total: 0 }.hundredths(), None);
    assert_eq!(
        Progress { completed: usize::MAX, total: usize::MAX }.hundredths(),
        Some(10000)
    );
}

#[test]
fn the_group_counts_a_challenge_once_somebody_has_done_it() {
    let (challenges, roster, completions) = fixture();
    let progress = group_challenge_progress(&challenges, &roster, &completions, 1, 200, "Gauntlet");
    assert_eq!(progress, Progress { completed: 2, total: 3 });
    assert_eq!(progress.hundredths(), Some(6666));
}

#[test]
fn a_player_counts_the_records_of_that_player_in_the_event() {
    let (challenges, roster, completions) = fixture();
    assert_eq!(
        actor_challenge_progress(&challenges, &roster, &completions, 1, 200, "Gauntlet", 70),
        Progress { completed: 3, total: 3 }
    );
    assert_eq!(
        actor_challenge_progress(&challenges, &roster, &completions, 1, 200, "Gauntlet", 71),
        Progress { completed: 2, total: 3 }
    );
    assert_eq!(
        actor_challenge_progress(&challenges, &roster, &completions, 1, 200, "Gauntlet", 72),
        Progress { completed: 0, total: 3 }
    );
    assert_eq!(
        actor_challenge_progress(&challenges, &roster, &completions, 2, 200, "Gauntlet", 72),
        Progress { completed: 1, total: 1 }
    );
}

#[test]
fn a_record_for_the_gauntlet_counts_for_the_player() {
    let challenges = vec![challenge(1, &["Gauntlet"])];
    let mut roster = ChallengeRoster::new();
    roster.load(1, &vec![1], 100).unwrap();
    let mut completions = Completions::new();
    completions.record(1, 70);
    assert_eq!(
        actor_challenge_progress(&challenges, &roster, &completions, 1, 200, "Gauntlet", 70),
        Progress { completed: 1, total: 0 }
    );
    assert_eq!(
        group_challenge_progress(&challenges, &roster, &completions, 1, 200, "Gauntlet"),
        Progress { completed: 0, total: 0 }
    );
}

#[test]
fn a_record_before_the_date_counts_for_the_player() {
    let (challenges, roster, completions) = fixture();
    assert_eq!(
        actor_challenge_progress(&challenges, &roster, &completions, 1, 99, "Gauntlet", 70),
        Progress { completed: 3, total: 0 }
    );
}

#[test]
fn the_records_of_a_player_are_counted_by_event() {
    let (_, roster, completions) = fixture();
    assert_eq!(completions.count_of_player(&roster, 1, 70), 3);
    assert_eq!(completions.count_of_player(&roster, 2, 70), 0);
    assert_eq!(completions.count_of_player(&roster, 2, 72), 1);
    assert_eq!(completions.count_of_player(&roster, 1, 99), 0);
    assert!(roster.holds_entry(6, 1));
    assert!(!roster.holds_entry(6, 2));
    assert!(roster.holds_entry(7, 2));
    assert!(!roster.holds_entry(8, 1));
}

#[test]
fn the_share_is_shown_to_two_decimals() {
    let shown = |completed: usize, total: usize| Progress { completed, total }.percent();
    assert_eq!(shown(3, 4), Some("75.00".to_string()));
    assert_eq!(shown(1, 3), Some("33.33".to_string()));
    assert_eq!(shown(2, 3), Some("66.67".to_string()));
    assert_eq!(shown(0, 5), Some("0.00".to_string()));
    assert_eq!(shown(5, 5), Some("100.00".to_string()));
    assert_eq!(shown(1, 200), Some("0.50".to_string()));
    assert_eq!(shown(1, 20000), Some("0.01".to_string()));
    assert_eq!(shown(1, 20001), Some("0.00".to_string()));
    assert_eq!(shown(1, 32), Some("3.13".to_string()));
    assert_eq!(shown(1, 16), Some("6.25".to_string()));
    assert_eq!(shown(3, 2), Some("150.00".to_string()));
    assert_eq!(shown(usize::MAX, usize::MAX), Some("100.00".to_string()));
    assert_eq!(shown(0, 0), None);
    assert_eq!(shown(4, 0), None);
}

#[test]
fn a_challenge_counts_from_its_date_on() {
    let (challenges, roster, completions) = fixture();
    assert_eq!(
        group_challenge_progress(&challenges, &roster, &completions, 1, 900, "Gauntlet"),
        Progress { completed: 3, total: 4 }
    );
    assert_eq!(
        group_challenge_progress(&challenges, &roster, &completions, 1, 99, "Gauntlet"),
        Progress { completed: 0, total: 0 }
    );
}

#[test]
fn each_event_counts_its_own_challenges() {
    let (challenges, roster, completions) = fixture();
    assert_eq!(
        group_challenge_progress(&challenges, &roster, &completions, 2, 200, "Gauntlet"),
        Progress { completed: 1, total: 1 }
    );
    assert_eq!(
        group_challenge_progress(&challenges, &roster, &completions, 3, 200, "Gauntlet"),
        Progress { completed: 0, total: 0 }
    );
}

#[test]
fn a_kind_counts_the_challenges_with_its_tag() {
    let (challenges, roster, completions) = fixture();
    assert_eq!(
        kind_progress(&challenges, &roster, &completions, 1, "Council of 100 Kangs"),
        Progress { completed: 1, total: 2 }
    );
    assert_eq!(
        kind_progress(&challenges, &roster, &completions, 1, "Nothing"),
        Progress { completed: 0, total: 0 }
    );
}

#[test]
fn a_tally_goes_by_its_scope() {
    let (challenges, roster, completions) = fixture();
    assert_eq!(
        tally(&challenges, &roster, &completions, 1, 0, None, None, false, None),
        Progress { completed: 4, total: 6 }
    );
    assert_eq!(
        tally(&challenges, &roster, &completions, 1, 200, Some("Gauntlet"), None, true, Some(70)),
        Progress { completed: 1, total: 2 }
    );
    assert_eq!(
        tally(
            &challenges,
            &roster,
            &completions,
            1,
            200,
            Some("Council of 100 Kangs"),
            Some("Gauntlet"),
            true,
            None
        ),
        Progress { completed: 1, total: 1 }
    );
}
