use erebor_record_keeper::models::challenge::{Challenge, ScenarioGroup};
use erebor_record_keeper::models::scenario::Scenario;
use erebor_record_keeper::utils::{
    format_challenges_by_scenario, format_collection, format_large_collection, pick_collection,
    PickError,
};

fn items(n: usize) -> Vec<String> {
    (0..n).map(|i| format!("item {}", i)).collect()
}

fn as_formatted(collection: &Vec<String>) -> Vec<String> {
    let width = collection.len() / 10;
    collection
        .iter()
        .enumerate()
        .map(|(i, item)| format!("{:>width$}.) {}", i + 1, item, width = width))
        .collect()
}

#[test]
fn a_short_collection_is_numbered_from_one() {
    let collection = vec!["Foo".to_string(), "Bar".to_string()];
    assert_eq!(format_collection(&collection), "1.) Foo\n2.) Bar");
}

#[test]
fn an_empty_collection_is_an_empty_text() {
    assert_eq!(format_collection(&Vec::new()), "");
    assert_eq!(format_large_collection(&Vec::new()), Vec::<String>::new());
}

#[test]
fn numbers_are_padded_by_a_tenth_of_the_length() {
    let collection = items(25);
    let text = format_collection(&collection);
    let lines: Vec<&str> = text.split('\n').collect();
    assert_eq!(lines.len(), 25);
    assert_eq!(lines[0], " 1.) item 0");
    assert_eq!(lines[8], " 9.) item 8");
    assert_eq!(lines[9], "10.) item 9");
    assert_eq!(lines[24], "25.) item 24");
}

#[test]
fn collections_are_formatted_as_the_format_says() {
    for n in [0usize, 1, 9, 10, 11, 19, 20, 21, 99, 100, 101, 250] {
        let collection = items(n);
        assert_eq!(format_collection(&collection), as_formatted(&collection).join("\n"));
    }
}

#[test]
fn a_large_collection_comes_in_twenties() {
    for n in [1usize, 19, 20, 21, 40, 41, 100, 205] {
        let collection = items(n);
        let lines = as_formatted(&collection);
        let expected: Vec<String> = lines.chunks(20).map(|chunk| chunk.join("\n")).collect();
        assert_eq!(format_large_collection(&collection), expected);
    }
}

#[test]
fn forty_one_items_make_three_messages() {
    let messages = format_large_collection(&items(41));
    assert_eq!(messages.len(), 3);
    assert_eq!(messages[0].split('\n').count(), 20);
    assert_eq!(messages[1].split('\n').count(), 20);
    assert_eq!(messages[2], "  41.) item 40");
}

#[test]
fn a_reply_picks_by_number_from_one() {
    let collection = vec!["a", "b", "c"];
    assert_eq!(pick_collection(Some("1"), &collection), Ok(Some(&"a")));
    assert_eq!(pick_collection(Some("3"), &collection), Ok(Some(&"c")));
    assert_eq!(pick_collection(Some("+2"), &collection), Ok(Some(&"b")));
}

#[test]
fn a_number_out_of_the_list_picks_nothing() {
    let collection = vec!["a", "b", "c"];
    assert_eq!(pick_collection(Some("4"), &collection), Ok(None));
    assert_eq!(pick_collection(Some("0"), &collection), Ok(None));
    assert_eq!(pick_collection(Some("1"), &Vec::<&str>::new()), Ok(None));
}

#[test]
fn no_reply_picks_nothing() {
    let collection = vec!["a", "b", "c"];
    assert_eq!(pick_collection(None, &collection), Ok(None));
}

#[test]
fn a_reply_that_is_no_number_is_an_error() {
    let collection = vec!["a", "b", "c"];
    assert_eq!(pick_collection(Some("two"), &collection), Err(PickError::NotANumber));
    assert_eq!(pick_collection(Some(""), &collection), Err(PickError::NotANumber));
    assert_eq!(pick_collection(Some("-1"), &collection), Err(PickError::NotANumber));
    assert_eq!(pick_collection(Some("1 "), &collection), Err(PickError::NotANumber));
    assert_eq!(
        pick_collection(Some("99999999999999999999999999"), &collection),
        Err(PickError::NotANumber)
    );
}

fn scenario(title: &str, code: &str) -> Scenario {
    Scenario {
        id: 1,
        title: title.to_string(),
        code: code.to_string(),
        set_id: 1,
        number: Some(1),
    }
}

fn challenge(name: &str, code: &str, description: Option<&str>) -> Challenge {
    Challenge {
        id: 1,
        name: name.to_string(),
        code: code.to_string(),
        description: description.map(|text| text.to_string()),
        scenario: None,
        attributes: Vec::new(),
    }
}

#[test]
fn challenges_are_shown_below_their_scenario() {
    let groups = vec![
        ScenarioGroup {
            scenario: scenario("Passage Through Mirkwood", "0101"),
            challenges: vec![
                challenge("Spider Slayer", "CON2001", Some("Defeat Ungoliant's Spawn")),
                challenge("Quick", "CON2002", None),
            ],
        },
        ScenarioGroup {
            scenario: scenario("Journey Along the Anduin", "0102"),
            challenges: vec![challenge("Troll Bane", "CON2003", Some(""))],
        },
    ];
    let messages = format_challenges_by_scenario(&groups);
    assert_eq!(
        messages,
        vec![
            "1.) Passage Through Mirkwood\n- (Code: **CON2001**) *Spider Slayer* - Defeat Ungoliant's Spawn\n- (Code: **CON2002**) *Quick* - \n".to_string(),
            "2.) Journey Along the Anduin\n- (Code: **CON2003**) *Troll Bane* - \n".to_string(),
        ]
    );
}

#[test]
fn no_groups_make_no_messages() {
    assert_eq!(format_challenges_by_scenario(&Vec::new()), Vec::<String>::new());
}
