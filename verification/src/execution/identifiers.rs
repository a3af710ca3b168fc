//! Keys, addresses, tokens and conditions, as they are written in text.

use crate::utils::text;
use alloy::primitives::{Address, B256, U256};
use alloy::signers::local::PrivateKeySigner;
use vstd::arithmetic::power2::*;
use vstd::prelude::*;

verus! {

pub open spec fn is_hex(c: char) -> bool {
    text::is_digit(c) || 'a' <= c <= 'f' || 'A' <= c <= 'F'
}

pub open spec fn hex_value(c: char) -> int {
    if text::is_digit(c) {
        c as u32 - '0' as u32
    } else if 'a' <= c <= 'f' {
        c as u32 - 'a' as u32 + 10
    } else {
        c as u32 - 'A' as u32 + 10
    }
}

/// A text without the mark of hexadecimal digits in front.
pub open spec fn unprefixed(text: Seq<char>) -> Seq<char> {
    if text.len() >= 2 && text[0] == '0' && (text[1] == 'x' || text[1] == 'X') {
        text.skip(2)
    } else {
        text
    }
}

/// The bytes that a text writes in hexadecimal digits, if they are `n`.
pub open spec fn hex_bytes(text: Seq<char>, n: nat) -> Option<Seq<u8>> {
    let digits = unprefixed(text);
    if digits.len() == 2 * n && forall|i: int|
        0 <= i < digits.len() ==> is_hex(#[trigger] digits[i]) {
        Some(
            Seq::new(
                n,
                |i: int| (16 * hex_value(digits[2 * i]) + hex_value(digits[2 * i + 1])) as u8,
            ),
        )
    } else {
        None
    }
}

/// The number that some bytes stand for, the most significant first.
pub open spec fn bytes_value(bytes: Seq<u8>) -> nat
    decreases bytes.len(),
{
    if bytes.len() == 0 {
        0
    } else {
        bytes_value(bytes.drop_last()) * 256 + bytes.last() as nat
    }
}

/// The order of the group in which orders are signed.
pub open spec fn group_order() -> nat {
    0xFFFF_FFFF_FFFF_FFFF_FFFF_FFFF_FFFF_FFFE_BAAE_DCE6_AF48_A03B_BFD2_5E8C_D036_4141nat
}

/// Whether a text is a private key: the 32 bytes of a number that is not zero
/// and less than the order of the group.
pub open spec fn is_private_key(text: Seq<char>) -> bool {
    match hex_bytes(text, 32) {
        Some(bytes) => 0 < bytes_value(bytes) < group_order(),
        None => false,
    }
}

/// The 32 bytes of the number that a text names, if it names one. The number
/// may be written in several ways; one written in decimal digits stands for its
/// value, if that fits.
pub uninterp spec fn token_bytes(text: Seq<char>) -> Option<Seq<u8>>;

pub open spec fn seen(bytes: Option<Vec<u8>>) -> Option<Seq<u8>> {
    match bytes {
        Some(bytes) => Some(bytes@),
        None => None,
    }
}

/// `LocalSigner::from_str`: whether it accepts a private key.
#[verifier::external_body]
pub(crate) fn accepts_private_key(key: &str) -> (r: bool)
    ensures
        r == is_private_key(key@),
{
    key.parse::<PrivateKeySigner>().is_ok()
}

/// `Address::from_str`: the 20 bytes of an address.
#[verifier::external_body]
pub(crate) fn parse_address(address: &str) -> (r: Option<Vec<u8>>)
    ensures
        seen(r) == hex_bytes(address@, 20),
{
    address.parse::<Address>().ok().map(|a: Address| a.to_vec())
}

/// `B256::from_str`: the 32 bytes of a condition.
#[verifier::external_body]
pub(crate) fn parse_condition(condition: &str) -> (r: Option<Vec<u8>>)
    ensures
        seen(r) == hex_bytes(condition@, 32),
{
    condition.parse::<B256>().ok().map(|b: B256| b.to_vec())
}

/// `U256::from_str`: the 32 bytes of a token's number, which depend on the text
/// alone. Decimal digits stand for their value; one that does not fit is refused.
#[verifier::external_body]
pub(crate) fn parse_token(token: &str) -> (r: Option<Vec<u8>>)
    ensures
        seen(r) == token_bytes(token@),
        r matches Some(bytes) ==> bytes@.len() == 32,
        text::all_digits(token@) ==> (r is Some <==> text::digits_value(token@) < pow2(256)),
        text::all_digits(token@) && r is Some ==> bytes_value(r->Some_0@) == text::digits_value(
            token@,
        ),
{
    token.parse::<U256>().ok().map(|n: U256| n.to_be_bytes_vec())
}

} // verus!
