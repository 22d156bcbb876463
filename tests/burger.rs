use std::collections::hash_map::DefaultHasher;
use std::hash::{Hash, Hasher};

use hashburger::burger::{burgerize, BurgerizeArgs};
use hashburger::digits::hashpatty_digits;

fn shape(left: usize, center: usize, right: usize, padding: Option<char>) -> BurgerizeArgs {
    BurgerizeArgs {
        left_bun_length: left,
        center_hashpatty_length: center,
        right_bun_length: right,
        padding_char: padding,
    }
}

/// The last `n` decimal digits of the digest that `str`'s own `Hash` gives,
/// zero-padded on the left.
fn expected_center(patty: &str, n: usize) -> String {
    let mut hasher = DefaultHasher::new();
    patty.hash(&mut hasher);
    let digits = hasher.finish().to_string();
    if digits.len() >= n {
        digits[digits.len() - n..].to_string()
    } else {
        format!("{:0>width$}", digits, width = n)
    }
}

#[test]
fn ten_characters_fill_the_default_width() {
    let out = burgerize(&"abcdefghij".to_string(), &shape(4, 2, 4, None));
    assert_eq!(out, "abcdefghij");
}

#[test]
fn long_input_keeps_buns_and_hashes_middle() {
    let out = burgerize(&"abcdefghijk".to_string(), &shape(4, 2, 4, None));
    assert_eq!(out.chars().count(), 10);
    assert!(out.starts_with("abcd"));
    assert!(out.ends_with("hijk"));
    let center = &out[4..6];
    assert!(center.chars().all(|c| c.is_ascii_digit()));
    assert_eq!(center, expected_center("efg", 2));
}

#[test]
fn long_input_center_matches_str_hash() {
    let out = burgerize(&"hello, wonderful world".to_string(), &shape(3, 5, 2, None));
    assert_eq!(out, format!("hel{}ld", expected_center("lo, wonderful wor", 5)));
}

#[test]
fn short_input_is_padded_to_width() {
    let out = burgerize(&"ab".to_string(), &shape(4, 2, 4, Some('x')));
    assert_eq!(out, "abxxxxxxxx");
}

#[test]
fn short_input_without_padding_is_unchanged() {
    let out = burgerize(&"ab".to_string(), &shape(4, 2, 4, None));
    assert_eq!(out, "ab");
}

#[test]
fn input_of_exact_width_is_unchanged() {
    let out = burgerize(&"abcdefghij".to_string(), &shape(4, 2, 4, Some('-')));
    assert_eq!(out, "abcdefghij");
}

#[test]
fn empty_input_is_all_padding() {
    let out = burgerize(&String::new(), &shape(1, 1, 1, Some('.')));
    assert_eq!(out, "...");
}

#[test]
fn zero_center_keeps_only_buns() {
    let out = burgerize(&"abcdefghij".to_string(), &shape(3, 0, 2, None));
    assert_eq!(out, "abcij");
}

#[test]
fn zero_width_long_input_is_empty() {
    let out = burgerize(&"abc".to_string(), &shape(0, 0, 0, Some('x')));
    assert_eq!(out, "");
}

#[test]
fn slicing_counts_characters() {
    let out = burgerize(&"héllo wörld".to_string(), &shape(2, 1, 3, None));
    assert_eq!(out.chars().count(), 6);
    assert!(out.starts_with("hé"));
    assert!(out.ends_with("rld"));
    assert_eq!(out, format!("hé{}rld", expected_center("llo wö", 1)));
}

#[test]
fn long_output_has_width() {
    for len in 11..40 {
        let input: String = "abcdefghijklmnopqrstuvwxyz0123456789ABCD".chars().take(len).collect();
        let out = burgerize(&input, &shape(4, 2, 4, None));
        assert_eq!(out.chars().count(), 10);
    }
}

#[test]
fn short_output_length() {
    for len in 0..=10 {
        let input: String = "abcdefghij".chars().take(len).collect();
        assert_eq!(burgerize(&input, &shape(4, 2, 4, Some('*'))).chars().count(), 10);
        assert_eq!(burgerize(&input, &shape(4, 2, 4, None)).chars().count(), len);
    }
}

#[test]
fn same_input_same_output() {
    let input = "some/long-identifier_with.many.parts".to_string();
    let args = shape(5, 3, 5, None);
    assert_eq!(burgerize(&input, &args), burgerize(&input, &args));
}

#[test]
fn wider_center_grows_on_the_left() {
    let input = "a fairly long input string for hashing".to_string();
    let mut previous = String::new();
    for center in 1..8 {
        let out = burgerize(&input, &shape(4, center, 4, None));
        let digits = &out[4..4 + center];
        assert!(digits.ends_with(&previous));
        previous = digits.to_string();
    }
}

#[test]
fn digits_are_last_and_zero_padded() {
    assert_eq!(hashpatty_digits(12345, 2), vec!['4', '5']);
    assert_eq!(hashpatty_digits(12345, 5), vec!['1', '2', '3', '4', '5']);
    assert_eq!(hashpatty_digits(7, 3), vec!['0', '0', '7']);
    assert_eq!(hashpatty_digits(u64::MAX, 3), vec!['6', '1', '5']);
    assert_eq!(hashpatty_digits(99, 0), Vec::<char>::new());
}
