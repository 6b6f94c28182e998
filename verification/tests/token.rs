use private_server::token::{Token, RANDOM_VERSION, VERSION_MASK};

#[test]
fn hyphenated_text_groups_the_digits() {
    let token = Token { bits: 0xa1a2a3a4b1b2c1c2d1d2d3d4d5d6d7d8 };
    assert_eq!(token.hyphenated(), "a1a2a3a4-b1b2-c1c2-d1d2-d3d4d5d6d7d8");
    assert_eq!(Token { bits: 0 }.hyphenated(), "00000000-0000-0000-0000-000000000000");
    assert_eq!(Token { bits: 1 }.hyphenated(), "00000000-0000-0000-0000-000000000001");
    assert_eq!(Token { bits: u128::MAX }.hyphenated(), "ffffffff-ffff-ffff-ffff-ffffffffffff");
}

#[test]
fn parse_reads_the_hyphenated_text_back() {
    let token = Token { bits: 0x936da01f9abd4d9d80c702af85c822a8 };
    assert_eq!(Token::parse(token.hyphenated().as_str()), Some(token));
    assert_eq!(Token::parse("936da01f-9abd-4d9d-80c7-02af85c822a8"), Some(token));
}

#[test]
fn parse_accepts_the_other_forms() {
    let token = Token { bits: 0x936da01f9abd4d9d80c702af85c822a8 };
    assert_eq!(Token::parse("936DA01F-9ABD-4D9D-80C7-02AF85C822A8"), Some(token));
    assert_eq!(Token::parse("936da01f9abd4d9d80c702af85c822a8"), Some(token));
    assert_eq!(Token::parse("{936da01f-9abd-4d9d-80c7-02af85c822a8}"), Some(token));
    assert_eq!(Token::parse("urn:uuid:936da01f-9abd-4d9d-80c7-02af85c822a8"), Some(token));
}

#[test]
fn parse_refuses_what_is_no_token() {
    assert_eq!(Token::parse(""), None);
    assert_eq!(Token::parse("report.pdf"), None);
    assert_eq!(Token::parse("936da01f-9abd-4d9d-80c7-02af85c822a"), None);
    assert_eq!(Token::parse("936da01f-9abd-4d9d-80c7-02af85c822ag"), None);
    assert_eq!(Token::parse("936da01f_9abd_4d9d_80c7_02af85c822a8"), None);
}

#[test]
fn fresh_tokens_are_random_version_four() {
    let a = Token::fresh();
    let b = Token::fresh();
    assert_ne!(a, b);
    assert_eq!((a.bits >> 76) & 0xf, 4);
    assert_eq!((a.bits >> 62) & 0x3, 2);
    assert_eq!(a.bits & VERSION_MASK, RANDOM_VERSION);
    assert_eq!(b.bits & VERSION_MASK, RANDOM_VERSION);
    assert_eq!(Token::parse(a.hyphenated().as_str()), Some(a));
}
