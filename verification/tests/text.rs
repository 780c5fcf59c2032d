use erebor_record_keeper::text::{
    chars_of, copy_of, decimal_chars, holds_text, joined, joined_range, order_of, parse_number,
    push_chars, push_padded, same_text, signed_decimal_chars, Order,
};

fn text_of(chars: Vec<char>) -> String {
    chars.into_iter().collect()
}

#[test]
fn decimal_of_zero_is_one_digit() {
    assert_eq!(text_of(decimal_chars(0)), "0");
}

#[test]
fn decimal_of_numbers() {
    assert_eq!(text_of(decimal_chars(7)), "7");
    assert_eq!(text_of(decimal_chars(10)), "10");
    assert_eq!(text_of(decimal_chars(2021)), "2021");
    assert_eq!(text_of(decimal_chars(u64::MAX)), "18446744073709551615");
}

#[test]
fn signed_decimal_of_numbers() {
    assert_eq!(text_of(signed_decimal_chars(0)), "0");
    assert_eq!(text_of(signed_decimal_chars(-5)), "-5");
    assert_eq!(text_of(signed_decimal_chars(i64::MAX)), "9223372036854775807");
    assert_eq!(text_of(signed_decimal_chars(i64::MIN)), "-9223372036854775808");
}

#[test]
fn padding_fills_up_on_the_left() {
    let mut out = String::from("x");
    push_padded(&mut out, &vec!['7'], 3, ' ');
    assert_eq!(out, "x  7");
}

#[test]
fn padding_leaves_long_text_alone() {
    let mut out = String::new();
    push_padded(&mut out, &vec!['1', '2', '3'], 2, '0');
    assert_eq!(out, "123");
    let mut exact = String::new();
    push_padded(&mut exact, &vec!['1', '2'], 2, '0');
    assert_eq!(exact, "12");
}

#[test]
fn chars_come_out_one_by_one() {
    assert_eq!(chars_of("dûm"), vec!['d', 'û', 'm']);
    assert_eq!(chars_of(""), Vec::<char>::new());
}

#[test]
fn pushed_chars_are_appended() {
    let mut out = String::from("ab");
    push_chars(&mut out, &vec!['c', 'd']);
    assert_eq!(out, "abcd");
}

#[test]
fn same_text_compares_characters() {
    assert!(same_text("Core Set", "Core Set"));
    assert!(!same_text("Core Set", "Core set"));
    assert!(!same_text("Core", "Core Set"));
    assert!(same_text("", ""));
}

#[test]
fn lines_are_joined_with_line_feeds() {
    let lines = vec!["a".to_string(), "b".to_string(), "c".to_string()];
    assert_eq!(joined(&lines), "a\nb\nc");
    assert_eq!(joined(&vec!["only".to_string()]), "only");
    assert_eq!(joined(&Vec::new()), "");
}

#[test]
fn a_range_of_lines_is_joined() {
    let lines = vec!["a".to_string(), "b".to_string(), "c".to_string(), "d".to_string()];
    assert_eq!(joined_range(&lines, 1, 3), "b\nc");
    assert_eq!(joined_range(&lines, 2, 2), "");
}

#[test]
fn codes_are_ordered_by_character() {
    let order = |a: &str, b: &str| order_of(&chars_of(a), &chars_of(b));
    assert_eq!(order("0101", "0102"), Order::Before);
    assert_eq!(order("0201", "0102"), Order::After);
    assert_eq!(order("0101", "0101"), Order::Same);
    assert_eq!(order("01", "0101"), Order::Before);
    assert_eq!(order("0101", "01"), Order::After);
    assert_eq!(order("", ""), Order::Same);
    assert_eq!(order("", "0"), Order::Before);
}

#[test]
fn the_order_of_codes_is_that_of_strings() {
    let samples = ["", "a", "ab", "b", "B", "é", "z", "0703", "10", "9"];
    for a in samples.iter() {
        for b in samples.iter() {
            let expected = match a.cmp(b) {
                std::cmp::Ordering::Less => Order::Before,
                std::cmp::Ordering::Equal => Order::Same,
                std::cmp::Ordering::Greater => Order::After,
            };
            assert_eq!(order_of(&chars_of(a), &chars_of(b)), expected);
        }
    }
}

#[test]
fn numbers_are_parsed_as_std_parses_them() {
    let samples = [
        "", "+", "-", "0", "7", "+7", "-7", "007", "12a", "a12", " 1", "1 ", "++1",
        "18446744073709551615", "18446744073709551616", "99999999999999999999999", "٣",
    ];
    for text in samples.iter() {
        assert_eq!(parse_number(text), text.parse::<u64>().ok());
    }
}

#[test]
fn a_number_is_parsed() {
    assert_eq!(parse_number("42"), Some(42));
    assert_eq!(parse_number("+42"), Some(42));
    assert_eq!(parse_number("4 2"), None);
}

#[test]
fn strings_are_copied() {
    let strings = vec!["a".to_string(), "".to_string(), "Gauntlet".to_string()];
    assert_eq!(copy_of(&strings), strings);
}

#[test]
fn a_text_is_found_among_strings() {
    let strings = vec!["Standard".to_string(), "Gauntlet".to_string()];
    assert!(holds_text(&strings, "Gauntlet"));
    assert!(!holds_text(&strings, "gauntlet"));
    assert!(!holds_text(&Vec::new(), "Gauntlet"));
}
