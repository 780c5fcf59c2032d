use erebor_record_keeper::models::scenario::{generate_code, Scenario};
use erebor_record_keeper::models::set::ScenarioSet;

fn scenario(id: i64, title: &str, code: &str, set_id: i64) -> Scenario {
    Scenario {
        id,
        title: title.to_string(),
        code: code.to_string(),
        set_id,
        number: Some(1),
    }
}

#[test]
fn the_code_of_set_seven_scenario_three() {
    assert_eq!(generate_code(7, 3), "0703");
}

#[test]
fn the_code_is_the_same_each_time() {
    assert_eq!(generate_code(7, 3), generate_code(7, 3));
}

#[test]
fn codes_are_what_formatting_gives() {
    let samples: [(i64, i16); 8] = [
        (0, 0),
        (1, 1),
        (12, 34),
        (123, 4),
        (5, 123),
        (-1, -1),
        (-12, 7),
        (i64::MAX, i16::MIN),
    ];
    for (set_id, number) in samples.iter() {
        assert_eq!(
            generate_code(*set_id, *number),
            format!("{:0>2}{:0>2}", set_id, number)
        );
    }
}

#[test]
fn wide_numbers_are_not_cut() {
    assert_eq!(generate_code(123, 4), "12304");
    assert_eq!(generate_code(-1, 10), "-110");
}

#[test]
fn the_last_scenario_of_a_title_is_found() {
    let scenarios = vec![
        scenario(1, "Passage Through Mirkwood", "0101", 1),
        scenario(2, "Journey Along the Anduin", "0102", 1),
        scenario(3, "Passage Through Mirkwood", "0901", 9),
    ];
    let found = Scenario::find_by_title(&scenarios, "Passage Through Mirkwood").unwrap();
    assert_eq!(found.id, 3);
    assert_eq!(found.code, "0901");
    assert!(Scenario::find_by_title(&scenarios, "Escape from Dol Guldur").is_none());
}

#[test]
fn the_first_scenario_of_a_code_is_found() {
    let scenarios = vec![
        scenario(1, "Passage Through Mirkwood", "0101", 1),
        scenario(2, "Journey Along the Anduin", "0102", 1),
        scenario(3, "Twice", "0102", 1),
    ];
    assert_eq!(Scenario::find_by_code(&scenarios, "0102").unwrap().id, 2);
    assert!(Scenario::find_by_code(&scenarios, "0103").is_none());
}

#[test]
fn a_scenario_is_found_by_id() {
    let scenarios = vec![
        scenario(4, "A", "0101", 1),
        scenario(7, "B", "0102", 1),
    ];
    assert_eq!(Scenario::find_by_id(&scenarios, 7).unwrap().title, "B");
    assert!(Scenario::find_by_id(&scenarios, 5).is_none());
}

#[test]
fn a_copy_of_a_scenario_holds_the_same() {
    let first = scenario(4, "A", "0101", 1);
    let copy = first.clone();
    assert_eq!(copy.id, 4);
    assert_eq!(copy.title, "A");
    assert_eq!(copy.code, "0101");
    assert_eq!(copy.set_id, 1);
    assert_eq!(copy.number, Some(1));
}

#[test]
fn all_sets_are_found() {
    let sets = vec![
        ScenarioSet { id: 1, name: "Core Set".to_string() },
        ScenarioSet { id: 2, name: "Shadows of Mirkwood".to_string() },
    ];
    let all = ScenarioSet::find_all(&sets);
    assert_eq!(all.len(), 2);
    assert_eq!(all[0].id, 1);
    assert_eq!(all[0].name, "Core Set");
    assert_eq!(all[1].id, 2);
    assert_eq!(all[1].name, "Shadows of Mirkwood");
    assert_eq!(ScenarioSet::find_by_id(&sets, 2).unwrap().name, "Shadows of Mirkwood");
    assert!(ScenarioSet::find_by_id(&sets, 3).is_none());
}
