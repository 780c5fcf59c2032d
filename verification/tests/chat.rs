use erebor_record_keeper::chat::{mention, push_mentions};

#[test]
fn a_user_is_mentioned_by_id() {
    assert_eq!(mention(81384788765712384), "<@81384788765712384>");
    assert_eq!(mention(1), "<@1>");
    assert_eq!(mention(u64::MAX), "<@18446744073709551615>");
}

#[test]
fn the_id_zero_is_mentioned_too() {
    assert_eq!(mention(0), "<@0>");
}

#[test]
fn mentions_are_followed_by_a_blank() {
    let mut out = String::from("To ");
    push_mentions(&mut out, &vec![7, 42]);
    assert_eq!(out, "To <@7> <@42> ");
    let mut nobody = String::new();
    push_mentions(&mut nobody, &Vec::new());
    assert_eq!(nobody, "");
}
