//! Session keys as text: how a bootstrap reply carries them.

use vstd::prelude::*;
use vstd::string::*;
use vstd::utf8::{encode_utf8, is_ascii_chars_encode_utf8};

use crate::bytes::array32;
use crate::text::digit;

verus! {

/// Why a text is not hexadecimal.
#[derive(Debug, Clone, Copy, PartialEq, Eq, Structural)]
pub enum HexError {
    InvalidCharacter { c: char, index: usize },
    OddLength,
    InvalidLength,
}

/// Why a text is not a session key.
#[derive(Debug, Clone, Copy, PartialEq, Eq, Structural)]
pub enum PskError {
    Hex(HexError),
    /// The text holds some other number of bytes than a key has.
    WrongLength,
}

/// The lower-case hexadecimal form of bytes, two digits each.
pub open spec fn hex_form(bytes: Seq<u8>) -> Seq<char> {
    Seq::new(
        2 * bytes.len(),
        |i: int|
            if i % 2 == 0 {
                digit((bytes[i / 2] / 16) as nat)
            } else {
                digit((bytes[i / 2] % 16) as nat)
            },
    )
}

/// What a hexadecimal digit of either case stands for.
pub open spec fn nibble(c: u8) -> Option<int> {
    if 48 <= c <= 57 {
        Some(c - 48)
    } else if 65 <= c <= 70 {
        Some(c - 55)
    } else if 97 <= c <= 102 {
        Some(c - 87)
    } else {
        None
    }
}

/// Whether the first byte that is no hexadecimal digit stands at `i`.
pub open spec fn first_bad(text: Seq<u8>, i: int) -> bool {
    &&& 0 <= i < text.len()
    &&& nibble(text[i]) is None
    &&& forall|j: int| 0 <= j < i ==> nibble(#[trigger] text[j]) is Some
}

/// The bytes that a hexadecimal text stands for.
pub open spec fn hex_reading(text: Seq<u8>) -> Result<Seq<u8>, HexError> {
    if text.len() % 2 != 0 {
        Err(HexError::OddLength)
    } else if exists|i: int| first_bad(text, i) {
        let i = choose|i: int| first_bad(text, i);
        Err(HexError::InvalidCharacter { c: text[i] as char, index: i as usize })
    } else {
        Ok(
            Seq::new(
                text.len() / 2,
                |i: int| (16 * nibble(text[2 * i])->0 + nibble(text[2 * i + 1])->0) as u8,
            ),
        )
    }
}

/// The key that a text stands for.
pub open spec fn psk_reading(text: Seq<u8>) -> Result<Seq<u8>, PskError> {
    match hex_reading(text) {
        Err(e) => Err(PskError::Hex(e)),
        Ok(bytes) => if bytes.len() == 32 {
            Ok(bytes)
        } else {
            Err(PskError::WrongLength)
        },
    }
}

/// Calls `hex::encode`, which writes each byte as two lower-case digits, the
/// high one first.
#[verifier::external_body]
pub(crate) fn hex_encode(key: &[u8; 32]) -> (r: String)
    ensures
        r@ == hex_form(key@),
{
    hex::encode(key)
}

/// Calls `hex::decode` on the text's UTF-8 bytes. An odd number of them fails;
/// so does the first that is no digit, which the error names with its place;
/// otherwise each pair of digits, of either case, gives one byte.
#[verifier::external_body]
fn hex_decode(text: &str) -> (r: Result<Vec<u8>, HexError>)
    ensures
        r is Ok <==> hex_reading(encode_utf8(text@)) is Ok,
        r is Ok ==> r->Ok_0@ == hex_reading(encode_utf8(text@))->Ok_0,
        r is Err ==> r->Err_0 == hex_reading(encode_utf8(text@))->Err_0,
{
    match hex::decode(text) {
        Ok(bytes) => Ok(bytes),
        Err(hex::FromHexError::InvalidHexCharacter { c, index }) => Err(
            HexError::InvalidCharacter { c, index },
        ),
        Err(hex::FromHexError::OddLength) => Err(HexError::OddLength),
        Err(hex::FromHexError::InvalidStringLength) => Err(HexError::InvalidLength),
    }
}

/// The key in a text.
pub fn parse_psk(psk_hex: &str) -> (r: Result<[u8; 32], PskError>)
    ensures
        match psk_reading(encode_utf8(psk_hex@)) {
            Ok(key) => r matches Ok(k) && k@ == key,
            Err(e) => r matches Err(d) && d == e,
        },
{
    match hex_decode(psk_hex) {
        Err(e) => Err(PskError::Hex(e)),
        Ok(bytes) => {
            if bytes.len() != 32 {
                return Err(PskError::WrongLength);
            }
            Ok(array32(bytes.as_slice()))
        },
    }
}

/// A key that was written as text reads back as itself.
pub proof fn law_psk_text_reads_back(psk: Seq<u8>)
    requires
        psk.len() == 32,
    ensures
        psk_reading(encode_utf8(hex_form(psk))) == Ok::<Seq<u8>, PskError>(psk),
{
    let chars = hex_form(psk);
    let text = encode_utf8(chars);
    is_ascii_chars_encode_utf8(chars);
    assert forall|i: int| 0 <= i < text.len() implies nibble(#[trigger] text[i]) == Some(
        if i % 2 == 0 {
            psk[i / 2] / 16
        } else {
            psk[i / 2] % 16
        } as int,
    ) by {
        assert(text[i] == chars[i] as u8);
    }
    let read = hex_reading(text)->Ok_0;
    assert forall|i: int| 0 <= i < 32 implies #[trigger] read[i] == psk[i] by {
        assert(nibble(text[2 * i]) == Some((psk[i] / 16) as int));
        assert(nibble(text[2 * i + 1]) == Some((psk[i] % 16) as int));
    }
    assert(read =~= psk);
}

} // verus!
