use rlox::text::{
    char_to_digit, chars_of, digit_to_char, is_alpha, is_alphanumeric, is_digit, push_decimal,
    push_str, string_of_range,
};

#[test]
fn chars_of_gives_the_characters_in_order() {
    assert_eq!(chars_of("aé\n1"), vec!['a', 'é', '\n', '1']);
    assert_eq!(chars_of(""), Vec::<char>::new());
}

#[test]
fn string_of_range_gives_the_text_between() {
    let chars = chars_of("héllo wörld");
    assert_eq!(string_of_range(&chars, 0, 5), "héllo");
    assert_eq!(string_of_range(&chars, 6, 11), "wörld");
    assert_eq!(string_of_range(&chars, 3, 3), "");
    assert_eq!(string_of_range(&chars, 0, 11), "héllo wörld");
}

#[test]
fn character_classes() {
    for c in '0'..='9' {
        assert!(is_digit(c));
        assert!(is_alphanumeric(c));
        assert!(!is_alpha(c));
    }
    for c in ['a', 'z', 'A', 'Z', 'm', '_'] {
        assert!(is_alpha(c));
        assert!(is_alphanumeric(c));
        assert!(!is_digit(c));
    }
    for c in ['/', ':', '@', '[', '`', '{', ' ', 'é', '٣'] {
        assert!(!is_alpha(c));
        assert!(!is_digit(c));
        assert!(!is_alphanumeric(c));
    }
}

#[test]
fn digits_and_their_characters() {
    let digits = ['0', '1', '2', '3', '4', '5', '6', '7', '8', '9'];
    for (d, c) in digits.iter().enumerate() {
        assert_eq!(digit_to_char(d as u8), *c);
        assert_eq!(char_to_digit(*c), d as u8);
    }
}

#[test]
fn push_decimal_appends_decimal_notation() {
    let mut out: Vec<char> = vec!['n', '='];
    push_decimal(0, &mut out);
    push_decimal(7, &mut out);
    push_decimal(10, &mut out);
    push_decimal(1905, &mut out);
    let s: String = out.into_iter().collect();
    assert_eq!(s, "n=07101905");
    let mut out: Vec<char> = Vec::new();
    push_decimal(u64::MAX, &mut out);
    let s: String = out.into_iter().collect();
    assert_eq!(s, "18446744073709551615");
}

#[test]
fn push_str_appends_the_characters() {
    let mut out: Vec<char> = vec!['a'];
    push_str("bé", &mut out);
    push_str("", &mut out);
    assert_eq!(out, vec!['a', 'b', 'é']);
}
