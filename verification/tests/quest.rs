use erebor_record_keeper::commands::quest::{format_quests_display, Scenario};

#[test]
fn it_formats_the_scenarios() {
    let scenarios = vec![
        Scenario {
            title: "Foo".to_string(),
            set_name: "Core".to_string(),
        },
        Scenario {
            title: "Bar".to_string(),
            set_name: "Core".to_string(),
        },
        Scenario {
            title: "Baz".to_string(),
            set_name: "Core".to_string(),
        },
    ];

    assert_eq!(
        format_quests_display(&scenarios),
        r#"**Quest 1**: Foo from Core
**Quest 2**: Bar from Core
**Quest 3**: Baz from Core"#
    );
}

#[test]
fn no_scenarios_give_an_empty_display() {
    let scenarios: Vec<Scenario> = Vec::new();
    assert_eq!(format_quests_display(&scenarios), "");
}
