use address_sync::text::{
    chars_of, eq_ignore_case, fold_char_exec, parse_count, starts_with, starts_with_ignore_case,
    text_equal, text_precedes,
};

#[test]
fn chars_of_gives_each_character() {
    assert_eq!(chars_of("a€b"), vec!['a', '€', 'b']);
    assert_eq!(chars_of(""), Vec::<char>::new());
}

#[test]
fn parse_count_reads_digits() {
    assert_eq!(parse_count("2500"), Some(2500));
    assert_eq!(parse_count("0"), Some(0));
    assert_eq!(parse_count("007"), Some(7));
    assert_eq!(parse_count("9578772"), Some(9578772));
}

#[test]
fn parse_count_takes_one_plus_sign() {
    assert_eq!(parse_count("+12"), Some(12));
    assert_eq!(parse_count("++12"), None);
    assert_eq!(parse_count("+"), None);
}

#[test]
fn parse_count_refuses_what_is_no_count() {
    for text in ["", "12a", "a12", "-1", " 1", "1 ", "1.5", "1e3", "١٢"] {
        assert_eq!(parse_count(text), None, "{:?}", text);
    }
}

#[test]
fn parse_count_reads_up_to_the_largest_count() {
    assert_eq!(parse_count(&usize::MAX.to_string()), Some(usize::MAX));
    let beyond = format!("{}0", usize::MAX);
    assert_eq!(parse_count(&beyond), None);
    let next = (usize::MAX as u128 + 1).to_string();
    assert_eq!(parse_count(&next), None);
    assert_eq!(parse_count("000000000000000000000000000000000001"), Some(1));
}

#[test]
fn parse_count_agrees_with_the_standard_parser() {
    for text in ["", "+", "0", "+0", "-0", "42", "+42", "4 2", "18446744073709551615",
        "18446744073709551616", "99999999999999999999999999", "0x10", "1_000"] {
        assert_eq!(parse_count(text), text.parse::<usize>().ok(), "{:?}", text);
    }
}

#[test]
fn starts_with_compares_character_for_character() {
    assert!(starts_with("nl/countrywide.json", "nl/countrywide.json"));
    assert!(starts_with("nl/countrywide.json.bak", "nl/countrywide.json"));
    assert!(starts_with("anything", ""));
    assert!(!starts_with("nl/countrywide", "nl/countrywide.json"));
    assert!(!starts_with("NL/countrywide.json", "nl/countrywide.json"));
    assert!(!starts_with("", "n"));
}

#[test]
fn starts_with_ignore_case_folds_ascii_letters() {
    assert!(starts_with_ignore_case("2A", "2a"));
    assert!(starts_with_ignore_case("2a", "2A"));
    assert!(starts_with_ignore_case("2B", "2"));
    assert!(starts_with_ignore_case("12", ""));
    assert!(!starts_with_ignore_case("2", "2A"));
    assert!(!starts_with_ignore_case("12", "2"));
    assert!(!starts_with_ignore_case("É", "é"));
}

#[test]
fn eq_ignore_case_folds_ascii_letters() {
    assert!(eq_ignore_case("Postcode", "POSTCODE"));
    assert!(eq_ignore_case("lon", "LON"));
    assert!(eq_ignore_case("", ""));
    assert!(!eq_ignore_case("LON", "LONG"));
    assert!(!eq_ignore_case("LAT", "LON"));
}

#[test]
fn fold_char_changes_capitals_only() {
    assert_eq!(fold_char_exec('A'), 'a');
    assert_eq!(fold_char_exec('Z'), 'z');
    assert_eq!(fold_char_exec('a'), 'a');
    assert_eq!(fold_char_exec('@'), '@');
    assert_eq!(fold_char_exec('['), '[');
    assert_eq!(fold_char_exec('5'), '5');
    assert_eq!(fold_char_exec('É'), 'É');
}

#[test]
fn text_equal_compares_whole_texts() {
    assert!(text_equal("2222AA", "2222AA"));
    assert!(text_equal("", ""));
    assert!(!text_equal("2222AA", "2222aa"));
    assert!(!text_equal("2222AA", "2222A"));
}

#[test]
fn text_precedes_is_the_order_of_strings() {
    let samples = ["", "1", "10", "2", "2A", "2B", "2a", "A", "a", "é", "1115"];
    for left in samples {
        for right in samples {
            assert_eq!(text_precedes(left, right), left < right, "{:?} {:?}", left, right);
        }
    }
}
