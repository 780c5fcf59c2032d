use erebor_record_keeper::error::EngineError;
use erebor_record_keeper::models::user::{to_stored_id, User};

#[test]
fn a_new_user_is_created() {
    let mut users: Vec<User> = Vec::new();
    let user = User::find_or_create(&mut users, &81384788765712384, "Bilbo").unwrap();
    assert_eq!(user.id, 1);
    assert_eq!(user.discord_id, 81384788765712384);
    assert_eq!(user.name, Some("Bilbo".to_string()));
    assert_eq!(users.len(), 1);
    assert_eq!(users[0].id, 1);
    assert_eq!(users[0].discord_id, 81384788765712384);
    assert_eq!(users[0].name, Some("Bilbo".to_string()));
}

#[test]
fn a_known_user_gets_the_last_name() {
    let mut users: Vec<User> = Vec::new();
    User::find_or_create(&mut users, &10, "Bilbo").unwrap();
    User::find_or_create(&mut users, &11, "Frodo").unwrap();
    let again = User::find_or_create(&mut users, &10, "Bilbo Baggins").unwrap();
    assert_eq!(again.id, 1);
    assert_eq!(again.name, Some("Bilbo Baggins".to_string()));
    assert_eq!(users.len(), 2);
    assert_eq!(users[0].name, Some("Bilbo Baggins".to_string()));
    assert_eq!(users[1].id, 2);
    assert_eq!(users[1].name, Some("Frodo".to_string()));
}

#[test]
fn a_new_user_gets_the_next_id() {
    let mut users = vec![
        User { id: 5, discord_id: 50, name: None },
        User { id: 3, discord_id: 30, name: Some("Sam".to_string()) },
    ];
    let user = User::find_or_create(&mut users, &70, "Merry").unwrap();
    assert_eq!(user.id, 6);
    assert_eq!(users.len(), 3);
}

#[test]
fn no_id_left_is_an_error_for_a_new_user_only() {
    let mut users = vec![User { id: i64::MAX, discord_id: 50, name: None }];
    assert!(matches!(
        User::find_or_create(&mut users, &70, "Merry"),
        Err(EngineError::StoreUnavailable)
    ));
    assert_eq!(users.len(), 1);
    let known = User::find_or_create(&mut users, &50, "Pippin").unwrap();
    assert_eq!(known.id, i64::MAX);
    assert_eq!(users[0].name, Some("Pippin".to_string()));
}

#[test]
fn the_id_of_the_chat_is_stored_bit_for_bit() {
    assert_eq!(to_stored_id(0), 0);
    assert_eq!(to_stored_id(81384788765712384), 81384788765712384);
    assert_eq!(to_stored_id(i64::MAX as u64), i64::MAX);
    assert_eq!(to_stored_id(i64::MAX as u64 + 1), i64::MIN);
    assert_eq!(to_stored_id(u64::MAX), -1);
    for id in [1u64, 1 << 40, 1 << 63, (1 << 63) + 12345, u64::MAX - 1] {
        assert_eq!(to_stored_id(id), id as i64);
    }
}

#[test]
fn a_user_is_found_by_the_id_of_the_chat() {
    let users = vec![
        User { id: 5, discord_id: 50, name: None },
        User { id: 3, discord_id: -1, name: Some("Sam".to_string()) },
    ];
    assert_eq!(User::find_by_discord_id(&users, 50).unwrap().id, 5);
    assert_eq!(User::find_by_discord_id(&users, u64::MAX).unwrap().id, 3);
    assert!(User::find_by_discord_id(&users, 51).is_none());
}
