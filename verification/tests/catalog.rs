use erebor_record_keeper::error::EngineError;
use erebor_record_keeper::import::{
    challenges_of, load_challenges, BatchChallenge, ImportError, LoadError,
};
use erebor_record_keeper::models::challenge::Challenge;
use erebor_record_keeper::models::scenario::Scenario;
use erebor_record_keeper::models::set::ScenarioSet;

#[test]
fn a_set_is_found_or_created_by_name() {
    let mut sets: Vec<ScenarioSet> = Vec::new();
    assert_eq!(ScenarioSet::find_or_create(&mut sets, "Core Set"), Ok(1));
    assert_eq!(ScenarioSet::find_or_create(&mut sets, "Shadows of Mirkwood"), Ok(2));
    assert_eq!(ScenarioSet::find_or_create(&mut sets, "Core Set"), Ok(1));
    assert_eq!(sets.len(), 2);
    assert_eq!(sets[1].name, "Shadows of Mirkwood");
    assert_eq!(sets[1].id, 2);
}

#[test]
fn a_set_without_an_id_left_is_not_created() {
    let mut sets = vec![ScenarioSet { id: i64::MAX, name: "Last".to_string() }];
    assert_eq!(ScenarioSet::find_or_create(&mut sets, "More"), Err(EngineError::StoreUnavailable));
    assert_eq!(ScenarioSet::find_or_create(&mut sets, "Last"), Ok(i64::MAX));
    assert_eq!(sets.len(), 1);
}

#[test]
fn a_scenario_is_registered_once_with_its_code() {
    let mut scenarios: Vec<Scenario> = Vec::new();
    assert_eq!(Scenario::register(&mut scenarios, "The Hunt for Gollum", 7, 3), Ok(true));
    assert_eq!(Scenario::register(&mut scenarios, "The Hunt for Gollum", 7, 3), Ok(false));
    assert_eq!(Scenario::register(&mut scenarios, "The Hunt for Gollum", 7, 4), Ok(true));
    assert_eq!(Scenario::register(&mut scenarios, "The Hunt for Gollum", 8, 3), Ok(true));
    assert_eq!(Scenario::register(&mut scenarios, "Another", 7, 3), Ok(true));
    assert_eq!(scenarios.len(), 4);
    assert_eq!(scenarios[0].id, 1);
    assert_eq!(scenarios[0].title, "The Hunt for Gollum");
    assert_eq!(scenarios[0].code, "0703");
    assert_eq!(scenarios[0].set_id, 7);
    assert_eq!(scenarios[0].number, Some(3));
    assert_eq!(scenarios[1].code, "0704");
    assert_eq!(scenarios[2].code, "0803");
    assert_eq!(scenarios[3].id, 4);
}

#[test]
fn a_scenario_without_an_id_left_is_not_registered() {
    let mut scenarios = vec![Scenario {
        id: i64::MAX,
        title: "Last".to_string(),
        code: "0101".to_string(),
        set_id: 1,
        number: Some(1),
    }];
    assert_eq!(Scenario::register(&mut scenarios, "More", 1, 2), Err(EngineError::StoreUnavailable));
    assert_eq!(Scenario::register(&mut scenarios, "Last", 1, 1), Ok(false));
    assert_eq!(scenarios.len(), 1);
}

fn strings(texts: &[&str]) -> Vec<String> {
    texts.iter().map(|t| t.to_string()).collect()
}

#[test]
fn each_scenario_of_a_convention_makes_two_challenges() {
    let made = challenges_of(
        &strings(&["Passage Through Mirkwood", "Journey Along the Anduin"]),
        &strings(&["Spider Slayer: Kill the spiders", "Troll Bane: Kill the troll"]),
        &strings(&["Quick: Win in five rounds", "Dry: Never flood"]),
    )
    .unwrap();
    let shape: Vec<(&str, &str, &str)> = made
        .iter()
        .map(|c| (c.scenario.as_str(), c.name.as_str(), c.description.as_str()))
        .collect();
    assert_eq!(
        shape,
        vec![
            ("Passage Through Mirkwood", "Spider Slayer", "Kill the spiders"),
            ("Passage Through Mirkwood", "Quick", "Win in five rounds"),
            ("Journey Along the Anduin", "Troll Bane", "Kill the troll"),
            ("Journey Along the Anduin", "Dry", "Never flood"),
        ]
    );
    for challenge in made.iter() {
        assert_eq!(challenge.attributes, strings(&["Con of the Rings 2020"]));
    }
}

#[test]
fn a_convention_list_must_be_even_and_parted() {
    assert!(matches!(
        challenges_of(&strings(&["A", "B"]), &strings(&["x: y"]), &strings(&["x: y", "x: y"])),
        Err(ImportError::UnevenRows)
    ));
    assert!(matches!(
        challenges_of(&strings(&["A"]), &strings(&["x: y"]), &Vec::new()),
        Err(ImportError::UnevenRows)
    ));
    assert!(matches!(
        challenges_of(&strings(&["A", "B"]), &strings(&["x: y", "x: y"]), &strings(&["x: y", "xy"])),
        Err(ImportError::NoDescription)
    ));
    assert!(challenges_of(&Vec::new(), &Vec::new(), &Vec::new()).unwrap().is_empty());
}

fn batch_item(name: &str, scenario: Option<&str>) -> BatchChallenge {
    BatchChallenge {
        name: name.to_string(),
        description: format!("Do {}", name),
        scenario: scenario.map(|t| t.to_string()),
        attributes: strings(&["Con of the Rings 2020"]),
    }
}

fn known() -> Vec<Scenario> {
    vec![
        Scenario { id: 10, title: "Passage Through Mirkwood".to_string(), code: "0101".to_string(), set_id: 1, number: Some(1) },
        Scenario { id: 11, title: "Journey Along the Anduin".to_string(), code: "0102".to_string(), set_id: 1, number: Some(2) },
    ]
}

#[test]
fn a_batch_is_loaded_with_codes_by_place() {
    let mut challenges: Vec<Challenge> = Vec::new();
    let batch = vec![
        batch_item("Spider Slayer", Some("Passage Through Mirkwood")),
        batch_item("Free", None),
        batch_item("Troll Bane", Some("Journey Along the Anduin")),
    ];
    assert_eq!(load_challenges(&mut challenges, &known(), "CON20", &batch), Ok(3));
    let shape: Vec<(i64, &str, &str, Option<i64>)> = challenges
        .iter()
        .map(|c| (c.id, c.name.as_str(), c.code.as_str(), c.scenario.as_ref().map(|s| s.id)))
        .collect();
    assert_eq!(
        shape,
        vec![
            (1, "Spider Slayer", "CON2001", Some(10)),
            (2, "Free", "CON2002", None),
            (3, "Troll Bane", "CON2003", Some(11)),
        ]
    );
    assert_eq!(challenges[0].description, Some("Do Spider Slayer".to_string()));
    assert_eq!(challenges[0].attributes, strings(&["Con of the Rings 2020"]));
    assert_eq!(load_challenges(&mut challenges, &known(), "X", &vec![batch_item("More", None)]), Ok(1));
    assert_eq!(challenges[3].id, 4);
    assert_eq!(challenges[3].code, "X01");
}

#[test]
fn a_batch_with_an_unknown_scenario_is_not_loaded() {
    let mut challenges: Vec<Challenge> = Vec::new();
    let batch = vec![
        batch_item("Spider Slayer", Some("Passage Through Mirkwood")),
        batch_item("Lost", Some("Nowhere")),
        batch_item("Also Lost", Some("Nowhere Else")),
    ];
    assert_eq!(
        load_challenges(&mut challenges, &known(), "CON20", &batch),
        Err(LoadError::UnknownScenario { place: 1 })
    );
    assert!(challenges.is_empty());
}

#[test]
fn a_batch_without_ids_is_not_loaded() {
    let mut challenges = vec![Challenge {
        id: i64::MAX - 1,
        name: "Old".to_string(),
        code: "OLD".to_string(),
        description: None,
        scenario: None,
        attributes: Vec::new(),
    }];
    let batch = vec![batch_item("A", None), batch_item("B", None)];
    assert_eq!(
        load_challenges(&mut challenges, &known(), "CON20", &batch),
        Err(LoadError::StoreUnavailable)
    );
    assert_eq!(challenges.len(), 1);
    assert_eq!(load_challenges(&mut challenges, &known(), "CON20", &vec![batch_item("A", None)]), Ok(1));
    assert_eq!(challenges[1].id, i64::MAX);
}
