//! Capability tokens: 128-bit identifiers and their hyphenated text.

use crate::text::digit_char;
use vstd::prelude::*;

verus! {

/// An unguessable identifier that grants access to one private resource.
#[derive(Clone, Copy, Debug, PartialEq, Eq, Structural, Hash)]
pub struct Token {
    pub bits: u128,
}

/// Sixteen to the power `k`.
pub open spec fn sixteen_to(k: nat) -> nat
    decreases k,
{
    if k == 0 {
        1
    } else {
        16 * sixteen_to((k - 1) as nat)
    }
}

/// The hexadecimal digit of `bits` at place `k`, counted from the most
/// significant of its thirty-two.
pub open spec fn nibble(bits: u128, k: int) -> nat {
    (bits as nat / sixteen_to((31 - k) as nat)) % 16
}

/// The number of hyphens before position `i` of a hyphenated text.
pub open spec fn hyphens_before(i: int) -> int {
    if i > 23 {
        4
    } else if i > 18 {
        3
    } else if i > 13 {
        2
    } else if i > 8 {
        1
    } else {
        0
    }
}

/// The hyphenated text of a token: its thirty-two lower-case hexadecimal
/// digits in groups of 8, 4, 4, 4 and 12.
pub open spec fn hyphenated_text(bits: u128) -> Seq<char> {
    Seq::new(
        36,
        |i: int|
            if i == 8 || i == 13 || i == 18 || i == 23 {
                '-'
            } else {
                digit_char(nibble(bits, i - hyphens_before(i)))
            },
    )
}

/// The token that a text denotes, in any of the forms that are accepted (the
/// hyphenated one among them); `None` where the text is no token.
pub uninterp spec fn token_parsed(s: Seq<char>) -> Option<u128>;

/// `Uuid::from_u128`, then `Uuid::hyphenated` and its `to_string`: the
/// lower-case hexadecimal digits of the value, most significant first, with
/// hyphens after the 8th, 12th, 16th and 20th. The parser of the same crate
/// reads every text that this formatter writes back to the same value.
#[verifier::external_body]
fn uuid_text(bits: u128) -> (r: String)
    ensures
        r@ == hyphenated_text(bits),
        token_parsed(r@) == Some(bits),
{
    uuid::Uuid::from_u128(bits).hyphenated().to_string()
}

/// `str::parse::<Uuid>`, with the value handed back by `Uuid::as_u128`. The
/// result depends on `s` alone and is what `token_parsed` names.
#[verifier::external_body]
fn uuid_parse(s: &str) -> (r: Option<u128>)
    ensures
        r == token_parsed(s@),
{
    match s.parse::<uuid::Uuid>() {
        Ok(id) => Some(id.as_u128()),
        Err(_) => None,
    }
}

/// The bits of a token that tell its version and its variant.
pub const VERSION_MASK: u128 = 0x0000_0000_0000_f000_c000_0000_0000_0000;

/// What those bits hold in a random token: version 4, variant 1.
pub const RANDOM_VERSION: u128 = 0x0000_0000_0000_4000_8000_0000_0000_0000;

/// `Uuid::new_v4`, a random identifier, as its 128 bits. Whatever is drawn,
/// the crate sets the bits of version and variant to those of a random
/// identifier; nothing is claimed of the other bits.
#[verifier::external_body]
fn uuid_random() -> (r: u128)
    ensures
        r & VERSION_MASK == RANDOM_VERSION,
{
    uuid::Uuid::new_v4().as_u128()
}

impl Token {
    /// The text of this token, as it names a directory of the mirror.
    pub open spec fn text(self) -> Seq<char> {
        hyphenated_text(self.bits)
    }

    /// The token that `s` denotes, if it denotes one.
    pub open spec fn parsed(s: Seq<char>) -> Option<Token> {
        match token_parsed(s) {
            Some(bits) => Some(Token { bits }),
            None => None,
        }
    }

    /// A freshly drawn random token. Its bits are random but for those of
    /// version and variant.
    pub fn fresh() -> (r: Token)
        ensures
            r.bits & VERSION_MASK == RANDOM_VERSION,
    {
        Token { bits: uuid_random() }
    }

    /// The token that `s` denotes, if it denotes one.
    pub fn parse(s: &str) -> (r: Option<Token>)
        ensures
            r == Token::parsed(s@),
    {
        match uuid_parse(s) {
            Some(bits) => Some(Token { bits }),
            None => None,
        }
    }

    /// The hyphenated text of this token. It is 36 characters long and
    /// parses back to this token.
    pub fn hyphenated(&self) -> (r: String)
        ensures
            r@ == self.text(),
            r@.len() == 36,
            Token::parsed(r@) == Some(*self),
    {
        uuid_text(self.bits)
    }
}

} // verus!
