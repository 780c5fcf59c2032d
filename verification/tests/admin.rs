use erebor_record_keeper::commands::event::admin::{
    add, archive, cload, create, set_prompt, unarchived_prompt, AddState, AdminError, Turn,
};
use erebor_record_keeper::commands::quest::quest;
use erebor_record_keeper::models::challenge::Challenge;
use erebor_record_keeper::models::completion::ChallengeRoster;
use erebor_record_keeper::models::event::Event;
use erebor_record_keeper::models::roster::Roster;
use erebor_record_keeper::models::scenario::Scenario;
use erebor_record_keeper::models::set::ScenarioSet;
use erebor_record_keeper::utils::PickError;

fn event(id: i64, name: &str, active: bool, archived: bool) -> Event {
    Event { id, name: name.to_string(), active, archived }
}

fn events() -> Vec<Event> {
    vec![
        event(1, "Old", false, true),
        event(2, "Con of the Rings", true, false),
        event(3, "Return of the Kang", false, false),
        event(4, "Next", false, false),
    ]
}

fn flags(events: &Vec<Event>) -> Vec<(i64, bool, bool)> {
    events.iter().map(|e| (e.id, e.active, e.archived)).collect()
}

fn sets() -> Vec<ScenarioSet> {
    vec![
        ScenarioSet { id: 1, name: "Core Set".to_string() },
        ScenarioSet { id: 2, name: "Shadows of Mirkwood".to_string() },
    ]
}

fn scenarios() -> Vec<Scenario> {
    let make = |id: i64, title: &str, set_id: i64| Scenario {
        id,
        title: title.to_string(),
        code: format!("{:0>2}{:0>2}", set_id, id),
        set_id,
        number: None,
    };
    vec![
        make(10, "Passage Through Mirkwood", 1),
        make(20, "The Hunt for Gollum", 2),
        make(11, "Journey Along the Anduin", 1),
        make(12, "Escape from Dol Guldur", 1),
    ]
}

fn said(turn: Turn) -> (char, String) {
    match turn {
        Turn::Ask(text) => ('?', text),
        Turn::Say(text) => ('!', text),
        Turn::Silent => ('-', String::new()),
    }
}

#[test]
fn an_event_is_created_by_name() {
    let mut events: Vec<Event> = Vec::new();
    assert_eq!(create(&mut events, "Con of the Rings"), "Created event 'Con of the Rings'");
    assert_eq!(flags(&events), vec![(1, false, false)]);
    assert_eq!(
        create(&mut events, "Con of the Rings"),
        "Could not create an event by that name. It already exists."
    );
    assert_eq!(create(&mut events, ""), "Must specify a name: !event create <name>");
    assert_eq!(events.len(), 1);
}

#[test]
fn the_active_event_is_set_from_a_list() {
    let mut events = events();
    assert_eq!(set_prompt(&events), "1.) Return of the Kang\n2.) Next");
    assert_eq!(erebor_record_keeper::commands::event::admin::set(&mut events, Some("2")), Ok(Some("'Next' is now the active event.".to_string())));
    assert_eq!(
        flags(&events),
        vec![(1, false, true), (2, false, false), (3, false, false), (4, true, false)]
    );
}

#[test]
fn a_reply_off_the_list_sets_nothing() {
    let mut events = events();
    let before = flags(&events);
    assert_eq!(erebor_record_keeper::commands::event::admin::set(&mut events, Some("3")), Ok(None));
    assert_eq!(erebor_record_keeper::commands::event::admin::set(&mut events, Some("0")), Ok(None));
    assert_eq!(erebor_record_keeper::commands::event::admin::set(&mut events, None), Ok(None));
    assert_eq!(erebor_record_keeper::commands::event::admin::set(&mut events, Some("Next")), Err(PickError::NotANumber));
    assert_eq!(flags(&events), before);
}

#[test]
fn unarchived_events_are_listed_to_choose_from() {
    assert_eq!(
        said(unarchived_prompt(&events())),
        ('?', "1.) Con of the Rings\n2.) Return of the Kang\n3.) Next".to_string())
    );
    assert_eq!(
        said(unarchived_prompt(&vec![event(1, "Old", false, true)])),
        ('!', "There are no unarchived events. Please create one.".to_string())
    );
    assert_eq!(
        said(unarchived_prompt(&Vec::new())),
        ('!', "There are no unarchived events. Please create one.".to_string())
    );
}

#[test]
fn an_event_is_archived_from_a_list() {
    let mut events = events();
    assert_eq!(archive(&mut events, Some("1")), Ok("'Con of the Rings' is now archived.".to_string()));
    assert_eq!(
        flags(&events),
        vec![(1, false, true), (2, false, true), (3, false, false), (4, false, false)]
    );
    assert_eq!(archive(&mut events, Some("3")), Ok("Could not archive event.".to_string()));
    assert_eq!(archive(&mut events, None), Ok("Could not archive event.".to_string()));
    assert_eq!(archive(&mut events, Some("x")), Err(PickError::NotANumber));
}

fn challenge(id: i64, of: Option<Scenario>) -> Challenge {
    Challenge {
        id,
        name: format!("Challenge {}", id),
        code: format!("C{}", id),
        description: None,
        scenario: of,
        attributes: Vec::new(),
    }
}

#[test]
fn challenges_are_loaded_for_the_scenarios_of_the_event() {
    let all = scenarios();
    let challenges = vec![
        challenge(100, Some(all[0].clone())),
        challenge(101, Some(all[1].clone())),
        challenge(102, None),
        challenge(103, Some(all[2].clone())),
    ];
    let mut scenario_roster = Roster::new();
    scenario_roster.enroll_all(3, &vec![10, 11], 0);
    scenario_roster.enroll_all(2, &vec![20], 0);
    let mut roster = ChallengeRoster::new();
    let reply = cload(&events(), &challenges, &scenario_roster, &mut roster, Some("2"), 77);
    assert_eq!(reply, Ok(Some("2 challenges added.".to_string())));
    let loaded: Vec<(i64, i64, i64, i64)> = roster
        .entries
        .iter()
        .map(|e| (e.id, e.event_id, e.challenge_id, e.active_date))
        .collect();
    assert_eq!(loaded, vec![(1, 3, 100, 77), (2, 3, 103, 77)]);
    let again = cload(&events(), &challenges, &scenario_roster, &mut roster, Some("2"), 99);
    assert_eq!(again, Ok(Some("0 challenges added.".to_string())));
    assert_eq!(roster.entries.len(), 2);
}

#[test]
fn loading_without_a_choice_does_nothing() {
    let mut roster = ChallengeRoster::new();
    assert_eq!(cload(&events(), &Vec::new(), &Roster::new(), &mut roster, None, 0), Ok(None));
    assert_eq!(cload(&events(), &Vec::new(), &Roster::new(), &mut roster, Some("9"), 0), Ok(None));
    assert_eq!(
        cload(&events(), &Vec::new(), &Roster::new(), &mut roster, Some("one"), 0),
        Err(AdminError::NotANumber)
    );
    assert!(roster.entries.is_empty());
}

#[test]
fn loading_fails_where_the_store_has_no_ids() {
    let all = scenarios();
    let challenges = vec![challenge(100, Some(all[0].clone()))];
    let mut scenario_roster = Roster::new();
    scenario_roster.enroll(2, 10, 0);
    let mut roster = ChallengeRoster::new();
    roster.load(9, &vec![1], 0).unwrap();
    roster.entries[0].id = i64::MAX;
    assert_eq!(
        cload(&events(), &challenges, &scenario_roster, &mut roster, Some("1"), 0),
        Err(AdminError::StoreUnavailable)
    );
    assert_eq!(roster.entries.len(), 1);
}

fn step(
    state: AddState,
    reply: Option<&str>,
    roster: &mut Roster,
) -> (Option<AddState>, Option<String>) {
    let taken = add(state, reply, &events(), &sets(), &scenarios(), roster, 5).unwrap();
    (taken.next, taken.say)
}

const MENU: &str = "Do you want to add individual scenarios or by set?\n1.) Scenarios\n2.) Set\n3.) All\n";
const SETS: &str = "Here are all the sets:\n1.) Core Set\n2.) Shadows of Mirkwood";

#[test]
fn adding_begins_with_the_event() {
    let mut roster = Roster::new();
    assert_eq!(
        step(AddState::PickEvent, Some("2"), &mut roster),
        (Some(AddState::PickMode { event_id: 3 }), Some(MENU.to_string()))
    );
    assert_eq!(step(AddState::PickEvent, Some("4"), &mut roster), (None, None));
    assert_eq!(step(AddState::PickEvent, None, &mut roster), (None, None));
    assert!(matches!(
        add(AddState::PickEvent, Some("two"), &events(), &sets(), &scenarios(), &mut roster, 5),
        Err(PickError::NotANumber)
    ));
}

#[test]
fn one_scenario_is_added_by_set_and_number() {
    let mut roster = Roster::new();
    assert_eq!(
        step(AddState::PickMode { event_id: 3 }, Some("1"), &mut roster),
        (Some(AddState::PickSet { event_id: 3, single: true }), Some(SETS.to_string()))
    );
    assert_eq!(
        step(AddState::PickSet { event_id: 3, single: true }, Some("1"), &mut roster),
        (
            Some(AddState::PickScenario { event_id: 3, set_id: 1 }),
            Some("1.) Passage Through Mirkwood\n2.) Journey Along the Anduin\n3.) Escape from Dol Guldur".to_string())
        )
    );
    assert_eq!(
        step(AddState::PickScenario { event_id: 3, set_id: 1 }, Some("2"), &mut roster),
        (None, Some("1 scenarios added.".to_string()))
    );
    assert_eq!(roster.entries.len(), 1);
    assert_eq!((roster.entries[0].event_id, roster.entries[0].scenario_id), (3, 11));
    assert_eq!(roster.entries[0].updated_at, 5);
    assert_eq!(
        step(AddState::PickScenario { event_id: 3, set_id: 1 }, Some("2"), &mut roster),
        (None, Some("0 scenarios added.".to_string()))
    );
    assert_eq!(roster.entries.len(), 1);
    assert_eq!(
        step(AddState::PickScenario { event_id: 3, set_id: 1 }, Some("4"), &mut roster),
        (None, Some("Not a valid choice.".to_string()))
    );
    assert_eq!(
        step(AddState::PickScenario { event_id: 3, set_id: 1 }, None, &mut roster),
        (None, Some("Not a valid choice.".to_string()))
    );
}

#[test]
fn a_whole_set_is_added() {
    let mut roster = Roster::new();
    roster.enroll(3, 11, 0);
    assert_eq!(
        step(AddState::PickMode { event_id: 3 }, Some("2"), &mut roster),
        (Some(AddState::PickSet { event_id: 3, single: false }), Some(SETS.to_string()))
    );
    assert_eq!(
        step(AddState::PickSet { event_id: 3, single: false }, Some("1"), &mut roster),
        (None, Some("2 scenarios added.".to_string()))
    );
    let ids: Vec<i64> = roster.entries.iter().map(|e| e.scenario_id).collect();
    assert_eq!(ids, vec![11, 10, 12]);
    assert_eq!(
        step(AddState::PickSet { event_id: 3, single: false }, Some("3"), &mut roster),
        (None, Some("Not a valid index.".to_string()))
    );
    assert_eq!(
        step(AddState::PickSet { event_id: 3, single: false }, None, &mut roster),
        (None, Some("Not a valid index.".to_string()))
    );
}

#[test]
fn all_scenarios_are_added() {
    let mut roster = Roster::new();
    roster.enroll(3, 20, 0);
    roster.enroll(2, 10, 0);
    assert_eq!(
        step(AddState::PickMode { event_id: 3 }, Some("3"), &mut roster),
        (None, Some("3 scenarios added.".to_string()))
    );
    assert_eq!(roster.entries.len(), 5);
    assert_eq!(
        step(AddState::PickMode { event_id: 3 }, Some("3"), &mut roster),
        (None, Some("0 scenarios added.".to_string()))
    );
    assert_eq!(roster.entries.len(), 5);
}

#[test]
fn another_answer_to_the_menu_ends_the_talk() {
    let mut roster = Roster::new();
    assert_eq!(step(AddState::PickMode { event_id: 3 }, Some("4"), &mut roster), (None, None));
    assert_eq!(step(AddState::PickMode { event_id: 3 }, Some("all"), &mut roster), (None, None));
    assert_eq!(step(AddState::PickMode { event_id: 3 }, Some(" 1"), &mut roster), (None, None));
    assert_eq!(step(AddState::PickMode { event_id: 3 }, None, &mut roster), (None, None));
    assert!(roster.entries.is_empty());
}

#[test]
fn quests_are_drawn_from_all_scenarios() {
    for seed in 0..20u64 {
        let reply = quest(&scenarios(), &sets(), 4, seed);
        let mut lines: Vec<String> = reply.split('\n').map(|line| line.to_string()).collect();
        assert_eq!(lines.len(), 4);
        for (i, line) in lines.iter_mut().enumerate() {
            let head = format!("**Quest {}**: ", i + 1);
            assert!(line.starts_with(&head));
            *line = line[head.len()..].to_string();
        }
        lines.sort();
        assert_eq!(
            lines,
            vec![
                "Escape from Dol Guldur from Core Set",
                "Journey Along the Anduin from Core Set",
                "Passage Through Mirkwood from Core Set",
                "The Hunt for Gollum from Shadows of Mirkwood",
            ]
        );
    }
    assert_eq!(quest(&scenarios(), &sets(), 1, 3).split('\n').count(), 1);
    assert_eq!(quest(&scenarios(), &sets(), 0, 3), "");
    assert_eq!(quest(&scenarios(), &Vec::new(), 3, 3), "");
}
