use private_server::text::{
    append_chars, append_str, chars_of, push_decimal, push_hex, same_chars, split, string_of,
    to_decimal, trim,
};

fn to_hex(n: u64) -> String {
    let mut out: Vec<char> = Vec::new();
    push_hex(&mut out, n);
    string_of(&out)
}

#[test]
fn hex_of_zero_is_a_single_digit() {
    assert_eq!(to_hex(0), "0");
}

#[test]
fn hex_is_lower_case_without_leading_zeros() {
    assert_eq!(to_hex(255), "ff");
    assert_eq!(to_hex(4096), "1000");
    assert_eq!(to_hex(0xdead_beef), "deadbeef");
    assert_eq!(to_hex(u64::MAX), "ffffffffffffffff");
}

#[test]
fn decimal_of_numbers() {
    assert_eq!(to_decimal(0), "0");
    assert_eq!(to_decimal(10), "10");
    assert_eq!(to_decimal(1234567890), "1234567890");
    assert_eq!(to_decimal(u64::MAX), "18446744073709551615");
}

#[test]
fn characters_round_trip() {
    let v = chars_of("héllo");
    assert_eq!(v, vec!['h', 'é', 'l', 'l', 'o']);
    assert_eq!(string_of(&v), "héllo");
}

#[test]
fn trim_removes_white_space_at_both_ends_only() {
    assert_eq!(string_of(&trim(&chars_of("  a b\t\n"))), "a b");
    assert_eq!(string_of(&trim(&chars_of("\u{a0}x\u{3000}"))), "x");
    assert_eq!(string_of(&trim(&chars_of("   "))), "");
    assert_eq!(string_of(&trim(&chars_of(""))), "");
}

#[test]
fn split_keeps_empty_pieces() {
    let pieces = split(&chars_of("/a//b/"), '/');
    let texts: Vec<String> = pieces.iter().map(|p| string_of(p)).collect();
    assert_eq!(texts, vec!["", "a", "", "b", ""]);
    assert_eq!(split(&chars_of(""), ',').len(), 1);
}

#[test]
fn digits_are_appended_to_what_is_there() {
    let mut out = chars_of("n=");
    push_decimal(&mut out, 42);
    append_str(&mut out, ";x=");
    push_hex(&mut out, 42);
    append_chars(&mut out, &chars_of("."));
    assert_eq!(string_of(&out), "n=42;x=2a.");
}

#[test]
fn same_chars_compares_length_and_content() {
    assert!(same_chars(&chars_of("abc"), &chars_of("abc")));
    assert!(same_chars(&chars_of(""), &chars_of("")));
    assert!(!same_chars(&chars_of("abc"), &chars_of("abd")));
    assert!(!same_chars(&chars_of("abc"), &chars_of("ab")));
}
