use erebor_record_keeper::error::EngineError;
use erebor_record_keeper::models::challenge::{group_by_scenario, Challenge};
use erebor_record_keeper::models::completion::{ChallengeRoster, Completions};
use erebor_record_keeper::models::event::{Event, Selection};
use erebor_record_keeper::models::scenario::Scenario;

fn event(id: i64, name: &str, active: bool, archived: bool) -> Event {
    Event { id, name: name.to_string(), active, archived }
}

fn flags(events: &Vec<Event>) -> Vec<(i64, bool, bool)> {
    events.iter().map(|e| (e.id, e.active, e.archived)).collect()
}

#[test]
fn an_event_is_created_inactive() {
    let mut events: Vec<Event> = Vec::new();
    assert_eq!(Event::create(&mut events, "Con of the Rings"), Ok(1));
    assert_eq!(Event::create(&mut events, "Return of the Kang"), Ok(1));
    assert_eq!(flags(&events), vec![(1, false, false), (2, false, false)]);
    assert_eq!(events[0].name, "Con of the Rings");
    assert_eq!(events[1].name, "Return of the Kang");
}

#[test]
fn a_name_is_taken_once() {
    let mut events: Vec<Event> = Vec::new();
    assert_eq!(Event::create(&mut events, "Con of the Rings"), Ok(1));
    assert_eq!(Event::create(&mut events, "Con of the Rings"), Err(EngineError::Conflict));
    assert_eq!(events.len(), 1);
}

#[test]
fn no_id_left_makes_no_event() {
    let mut events = vec![event(i64::MAX, "Last", false, false)];
    assert_eq!(Event::create(&mut events, "More"), Err(EngineError::StoreUnavailable));
    assert_eq!(Event::create(&mut events, "Last"), Err(EngineError::Conflict));
    assert_eq!(events.len(), 1);
}

#[test]
fn one_event_is_active_at_a_time() {
    let mut events = vec![
        event(1, "A", false, false),
        event(2, "B", false, false),
        event(3, "C", false, false),
    ];
    assert_eq!(Event::activate(&mut events, 2), Ok(()));
    assert_eq!(flags(&events), vec![(1, false, false), (2, true, false), (3, false, false)]);
    assert_eq!(Event::activate(&mut events, 3), Ok(()));
    assert_eq!(flags(&events), vec![(1, false, false), (2, false, false), (3, true, false)]);
    assert_eq!(Event::activate(&mut events, 3), Ok(()));
    assert_eq!(events.iter().filter(|e| e.active).count(), 1);
}

#[test]
fn an_unknown_event_is_not_activated() {
    let mut events = vec![event(1, "A", true, false)];
    assert_eq!(Event::activate(&mut events, 9), Err(EngineError::NotFound));
    assert_eq!(flags(&events), vec![(1, true, false)]);
}

#[test]
fn an_archived_event_is_never_active_again() {
    let mut events = vec![event(1, "A", true, false), event(2, "B", false, false)];
    assert_eq!(Event::archive(&mut events, 1), Ok(()));
    assert_eq!(flags(&events), vec![(1, false, true), (2, false, false)]);
    assert_eq!(Event::activate(&mut events, 1), Err(EngineError::InvalidState));
    assert_eq!(flags(&events), vec![(1, false, true), (2, false, false)]);
    assert_eq!(Event::archive(&mut events, 1), Ok(()));
    assert_eq!(flags(&events), vec![(1, false, true), (2, false, false)]);
    assert_eq!(Event::archive(&mut events, 7), Err(EngineError::NotFound));
}

#[test]
fn the_active_event_is_found() {
    let events = vec![
        event(1, "A", false, false),
        event(2, "B", true, false),
        event(3, "C", false, true),
    ];
    let active = Event::find_by_active(&events, true).unwrap();
    assert_eq!(active.id, 2);
    assert_eq!(active.name, "B");
    assert_eq!(Event::find_by_active(&events, false).unwrap().id, 3);
    assert!(Event::find_by_active(&Vec::new(), true).is_none());
    assert!(Event::find_by_active(&vec![event(1, "A", false, false)], true).is_none());
}

#[test]
fn events_are_found_by_archive() {
    let events = vec![
        event(1, "A", false, false),
        event(2, "B", true, false),
        event(3, "C", false, true),
    ];
    assert_eq!(flags(&Event::find_by_archive(&events, false)), vec![(1, false, false), (2, true, false)]);
    assert_eq!(flags(&Event::find_by_archive(&events, true)), vec![(3, false, true)]);
}

fn scenario(id: i64, code: &str) -> Scenario {
    Scenario { id, title: format!("Scenario {}", id), code: code.to_string(), set_id: 1, number: None }
}

fn challenge(id: i64, code: &str, scenario: Option<Scenario>) -> Challenge {
    Challenge {
        id,
        name: format!("Challenge {}", id),
        code: code.to_string(),
        description: None,
        scenario,
        attributes: Vec::new(),
    }
}

fn codes(challenges: &Vec<Challenge>) -> Vec<String> {
    challenges.iter().map(|c| c.code.clone()).collect()
}

fn fixture() -> (Event, Vec<Challenge>, ChallengeRoster, Completions) {
    let challenges = vec![
        challenge(1, "CON03", Some(scenario(10, "0102"))),
        challenge(2, "CON01", Some(scenario(11, "0101"))),
        challenge(3, "CON02", Some(scenario(10, "0102"))),
        challenge(4, "CON04", None),
        challenge(5, "CON00", Some(scenario(11, "0101"))),
        challenge(6, "CON05", Some(scenario(12, "0103"))),
    ];
    let mut roster = ChallengeRoster::new();
    roster.load(1, &vec![1, 2, 4], 100).unwrap();
    roster.load(1, &vec![3], 500).unwrap();
    roster.load(2, &vec![5], 100).unwrap();
    let mut completions = Completions::new();
    completions.record(2, 70);
    completions.record(2, 71);
    completions.record(4, 70);
    completions.record(5, 70);
    (event(1, "A", true, false), challenges, roster, completions)
}

#[test]
fn all_challenges_of_an_event_come_by_code() {
    let (event, challenges, roster, _) = fixture();
    assert_eq!(codes(&event.find_all_challenges(&challenges, &roster)), vec!["CON01", "CON02", "CON03"]);
}

#[test]
fn active_challenges_are_those_whose_date_has_come() {
    let (event, challenges, roster, _) = fixture();
    assert_eq!(codes(&event.find_all_active_challenges(&challenges, &roster, 100)), vec!["CON01", "CON03"]);
    assert_eq!(codes(&event.find_all_active_challenges(&challenges, &roster, 99)), Vec::<String>::new());
    assert_eq!(
        codes(&event.find_all_active_challenges(&challenges, &roster, 500)),
        vec!["CON01", "CON02", "CON03"]
    );
}

#[test]
fn completed_and_incomplete_challenges_part_the_active_ones() {
    let (event, challenges, roster, completions) = fixture();
    assert_eq!(
        codes(&event.find_completed_challenges(&challenges, &roster, &completions, 1000)),
        vec!["CON01", "CON02"]
    );
    assert_eq!(
        codes(&event.find_incomplete_active_challenges(&challenges, &roster, &completions, 1000)),
        vec!["CON03"]
    );
    assert_eq!(
        codes(&event.find_completed_challenges(&challenges, &roster, &completions, 100)),
        vec!["CON01"]
    );
}

#[test]
fn a_selection_is_what_the_named_question_gives() {
    let (event, challenges, roster, completions) = fixture();
    assert_eq!(
        codes(&event.select_challenges(Selection::Incomplete, &challenges, &roster, &completions, 1000)),
        vec!["CON03"]
    );
    assert_eq!(
        codes(&event.select_challenges(Selection::All, &challenges, &roster, &completions, 0)),
        vec!["CON01", "CON02", "CON03"]
    );
}

#[test]
fn challenges_are_grouped_by_scenario_in_code_order() {
    let (_, challenges, _, _) = fixture();
    let groups = group_by_scenario(challenges);
    let shape: Vec<(String, Vec<i64>)> = groups
        .iter()
        .map(|g| (g.scenario.code.clone(), g.challenges.iter().map(|c| c.id).collect()))
        .collect();
    assert_eq!(
        shape,
        vec![
            ("0101".to_string(), vec![2, 5]),
            ("0102".to_string(), vec![1, 3]),
            ("0103".to_string(), vec![6]),
        ]
    );
    assert_eq!(groups[0].scenario.id, 11);
}

#[test]
fn a_group_keeps_the_scenario_that_came_first() {
    let mut first = scenario(10, "0102");
    first.title = "First".to_string();
    let mut second = scenario(20, "0102");
    second.title = "Second".to_string();
    let groups = group_by_scenario(vec![
        challenge(1, "A", Some(first)),
        challenge(2, "B", Some(second)),
    ]);
    assert_eq!(groups.len(), 1);
    assert_eq!(groups[0].scenario.title, "First");
    assert_eq!(groups[0].challenges.len(), 2);
}

#[test]
fn grouping_is_that_of_an_ordered_map() {
    let codes_in = ["0301", "0101", "0201", "0101", "10", "0301", "é", "0", ""];
    let challenges: Vec<Challenge> = codes_in
        .iter()
        .enumerate()
        .map(|(i, code)| challenge(i as i64, "C", Some(scenario(i as i64, code))))
        .collect();
    let mut expected: std::collections::BTreeMap<String, Vec<i64>> = std::collections::BTreeMap::new();
    for c in challenges.iter() {
        expected.entry(c.scenario.as_ref().unwrap().code.clone()).or_insert(Vec::new()).push(c.id);
    }
    let groups = group_by_scenario(challenges);
    let found: Vec<(String, Vec<i64>)> = groups
        .iter()
        .map(|g| (g.scenario.code.clone(), g.challenges.iter().map(|c| c.id).collect()))
        .collect();
    assert_eq!(found, expected.into_iter().collect::<Vec<_>>());
}

#[test]
fn no_challenges_make_no_groups() {
    assert!(group_by_scenario(Vec::new()).is_empty());
    assert!(group_by_scenario(vec![challenge(1, "A", None)]).is_empty());
}

#[test]
fn a_challenge_knows_its_tags() {
    let mut tagged = challenge(1, "A", None);
    tagged.attributes = vec!["Gauntlet".to_string(), "Standard".to_string()];
    assert!(tagged.has_attribute("Gauntlet"));
    assert!(tagged.has_attribute("Standard"));
    assert!(!tagged.has_attribute("Expert"));
    assert!(!challenge(2, "B", None).has_attribute("Gauntlet"));
}
