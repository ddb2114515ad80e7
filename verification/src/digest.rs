//! SHA-256 digests and their lowercase hexadecimal form.

use sha2::Digest;
use vstd::prelude::*;
use vstd::string::*;
use vstd::utf8::*;

use crate::text::chars_of;

verus! {

/// The SHA-256 digest of a byte sequence.
pub uninterp spec fn sha256(bytes: Seq<u8>) -> Seq<u8>;

/// Calls `sha2::Sha256::digest`, whose result depends on `bytes` alone and is 32 bytes long.
#[verifier::external_body]
fn sha256_bytes(bytes: &[u8]) -> (digest: Vec<u8>)
    ensures
        digest@ == sha256(bytes@),
        digest@.len() == 32,
{
    sha2::Sha256::digest(bytes).to_vec()
}

/// Whether `character` is a decimal digit or one of the letters `a` to `f`.
pub open spec fn is_lower_hex(character: char) -> bool {
    ('0' <= character && character <= '9') || ('a' <= character && character <= 'f')
}

/// Returns whether `character` is a lowercase hexadecimal digit.
pub fn is_hex_digit(character: char) -> (valid: bool)
    ensures
        valid == is_lower_hex(character),
{
    (character >= '0' && character <= '9') || (character >= 'a' && character <= 'f')
}

/// The lowercase hexadecimal digit of value `value`.
pub open spec fn hex_char(value: int) -> char {
    if value < 10 {
        (value + 48) as char
    } else {
        (value + 87) as char
    }
}

/// The value of a lowercase hexadecimal digit.
pub open spec fn hex_value(character: char) -> int {
    if character <= '9' {
        character as int - 48
    } else {
        character as int - 87
    }
}

/// The lowercase hexadecimal form of `bytes`: two digits for each byte, the high one first.
pub open spec fn hex(bytes: Seq<u8>) -> Seq<char> {
    Seq::new(
        2 * bytes.len(),
        |i: int|
            if i % 2 == 0 {
                hex_char(bytes[i / 2] as int / 16)
            } else {
                hex_char(bytes[i / 2] as int % 16)
            },
    )
}

/// Whether `text` is made of lowercase hexadecimal digits alone.
pub open spec fn all_lower_hex(text: Seq<char>) -> bool {
    forall|i: int| 0 <= i < text.len() ==> is_lower_hex(#[trigger] text[i])
}

/// The bytes that a string of hexadecimal digits stands for.
pub open spec fn hex_bytes(text: Seq<char>) -> Seq<u8> {
    Seq::new(
        (text.len() / 2) as nat,
        |i: int| (16 * hex_value(text[2 * i]) + hex_value(text[2 * i + 1])) as u8,
    )
}

/// The hexadecimal form has only hexadecimal digits, and reading it gives the bytes back.
pub proof fn lemma_hex_round_trip(bytes: Seq<u8>)
    ensures
        all_lower_hex(hex(bytes)),
        hex_bytes(hex(bytes)) == bytes,
{
    let text = hex(bytes);
    assert forall|i: int| 0 <= i < text.len() implies is_lower_hex(#[trigger] text[i]) by {
        let value = if i % 2 == 0 {
            bytes[i / 2] as int / 16
        } else {
            bytes[i / 2] as int % 16
        };
        assert(0 <= value < 16);
        assert(text[i] == hex_char(value));
        assert(is_lower_hex(hex_char(value)));
    }
    assert forall|i: int| 0 <= i < bytes.len() implies hex_bytes(text)[i] == bytes[i] by {
        let byte = bytes[i] as int;
        assert((2 * i) / 2 == i && (2 * i + 1) / 2 == i);
        assert(text[2 * i] == hex_char(byte / 16));
        assert(text[2 * i + 1] == hex_char(byte % 16));
        assert(0 <= byte / 16 < 16 && 0 <= byte % 16 < 16);
        assert(hex_value(hex_char(byte / 16)) == byte / 16);
        assert(hex_value(hex_char(byte % 16)) == byte % 16);
    }
    assert(hex_bytes(text) =~= bytes);
}

/// Different byte sequences have different hexadecimal forms.
pub proof fn lemma_hex_injective(left: Seq<u8>, right: Seq<u8>)
    requires
        hex(left) == hex(right),
    ensures
        left == right,
{
    lemma_hex_round_trip(left);
    lemma_hex_round_trip(right);
}

/// Writing what was read from hexadecimal digits gives the digits back.
pub proof fn lemma_hex_of_bytes(text: Seq<char>)
    requires
        all_lower_hex(text),
        text.len() % 2 == 0,
    ensures
        hex(hex_bytes(text)) == text,
{
    let bytes = hex_bytes(text);
    assert forall|i: int| 0 <= i < text.len() implies hex(bytes)[i] == text[i] by {
        let k = i / 2;
        assert(is_lower_hex(text[2 * k]) && is_lower_hex(text[2 * k + 1]));
        let high = hex_value(text[2 * k]);
        let low = hex_value(text[2 * k + 1]);
        assert(0 <= high < 16 && 0 <= low < 16);
        assert(bytes[k] as int == 16 * high + low);
        assert((16 * high + low) / 16 == high && (16 * high + low) % 16 == low);
        assert(hex_char(high) == text[2 * k]);
        assert(hex_char(low) == text[2 * k + 1]);
        if i % 2 == 0 {
            assert(i == 2 * k);
        } else {
            assert(i == 2 * k + 1);
        }
    }
    assert(hex(bytes) =~= text);
}

fn hex_digit_of(value: u8) -> (character: char)
    requires
        value < 16,
    ensures
        character == hex_char(value as int),
{
    if value < 10 {
        (value + 48) as char
    } else {
        (value + 87) as char
    }
}

/// Writes `bytes` in lowercase hexadecimal digits.
pub fn encode_hex(bytes: &[u8]) -> (encoded: String)
    ensures
        encoded@ == hex(bytes@),
{
    let mut encoded = String::new();
    let mut index: usize = 0;
    assert(encoded@ =~= hex(bytes@).take(0));
    while index < bytes.len()
        invariant
            index <= bytes@.len(),
            encoded@ == hex(bytes@).take(2 * index as int),
        decreases bytes@.len() - index,
    {
        let byte: u8 = bytes[index];
        encoded.push(hex_digit_of(byte / 16));
        encoded.push(hex_digit_of(byte % 16));
        assert((2 * index as int) / 2 == index && (2 * index as int + 1) / 2 == index);
        index += 1;
        assert(encoded@ =~= hex(bytes@).take(2 * index as int));
    }
    assert(hex(bytes@).take(2 * index as int) =~= hex(bytes@));
    encoded
}

/// Returns the lowercase hexadecimal SHA-256 digest of `bytes`.
pub fn sha256_hex(bytes: &[u8]) -> (encoded: String)
    ensures
        encoded@ == hex(sha256(bytes@)),
        encoded@.len() == 64,
        all_lower_hex(encoded@),
{
    let digest = sha256_bytes(bytes);
    proof {
        lemma_hex_round_trip(digest@);
    }
    encode_hex(&digest)
}

/// Why a string is not the hexadecimal form of any byte sequence.
#[derive(Clone, Copy, Debug, PartialEq, Eq, Structural)]
pub enum HexError {
    /// The string has an odd number of bytes.
    OddLength,
    /// The string holds something other than a lowercase hexadecimal digit.
    InvalidDigit,
}

impl HexError {
    /// The diagnostic text.
    pub open spec fn text(self) -> Seq<char> {
        match self {
            HexError::OddLength => "hex data has an odd length"@,
            HexError::InvalidDigit => "hex data contains a non-lowercase-hex character"@,
        }
    }

    /// Returns the diagnostic text.
    pub fn message(self) -> (text: String)
        ensures
            text@ == self.text(),
    {
        match self {
            HexError::OddLength => "hex data has an odd length".to_owned(),
            HexError::InvalidDigit => "hex data contains a non-lowercase-hex character".to_owned(),
        }
    }
}

/// What reading `text` as hexadecimal digits gives.
pub open spec fn hex_decoded(text: Seq<char>) -> Result<Seq<u8>, HexError> {
    if encode_utf8(text).len() % 2 != 0 {
        Err(HexError::OddLength)
    } else if !all_lower_hex(text) {
        Err(HexError::InvalidDigit)
    } else {
        Ok(hex_bytes(text))
    }
}

/// Lowercase hexadecimal digits take one byte each.
pub proof fn lemma_hex_is_ascii(text: Seq<char>)
    requires
        all_lower_hex(text),
    ensures
        encode_utf8(text).len() == text.len(),
{
    assert(is_ascii_chars(text)) by {
        assert forall|i: int| 0 <= i < text.len() implies (0 <= #[trigger] text[i] as nat)
            && ((text[i] as nat) < 128) by {
            assert(is_lower_hex(text[i]));
        }
    }
    is_ascii_chars_encode_utf8(text);
}

/// Reading the hexadecimal form of any bytes gives those bytes.
pub proof fn lemma_decode_of_encode(bytes: Seq<u8>)
    ensures
        hex_decoded(hex(bytes)) == Ok::<Seq<u8>, HexError>(bytes),
{
    lemma_hex_round_trip(bytes);
    lemma_hex_is_ascii(hex(bytes));
}

/// A string reads as bytes exactly when it is the hexadecimal form of those bytes.
pub proof fn lemma_decode_exact(text: Seq<char>, bytes: Seq<u8>)
    ensures
        hex_decoded(text) == Ok::<Seq<u8>, HexError>(bytes) <==> text == hex(bytes),
{
    lemma_decode_of_encode(bytes);
    if hex_decoded(text) == Ok::<Seq<u8>, HexError>(bytes) {
        lemma_hex_is_ascii(text);
        lemma_hex_of_bytes(text);
    }
}

fn hex_digit_value(character: char) -> (value: Option<u8>)
    ensures
        match value {
            Some(value) => is_lower_hex(character) && value as int == hex_value(character) && value
                < 16,
            None => !is_lower_hex(character),
        },
{
    if character >= '0' && character <= '9' {
        Some((character as u32 - 48) as u8)
    } else if character >= 'a' && character <= 'f' {
        Some((character as u32 - 87) as u8)
    } else {
        None
    }
}

/// Reads lowercase hexadecimal digits as bytes.
pub fn decode_hex(encoded: &str) -> (decoded: Result<Vec<u8>, HexError>)
    ensures
        match decoded {
            Ok(bytes) => hex_decoded(encoded@) == Ok::<Seq<u8>, HexError>(bytes@),
            Err(error) => hex_decoded(encoded@) == Err::<Seq<u8>, HexError>(error),
        },
{
    if encoded.as_bytes().len() % 2 != 0 {
        return Err(HexError::OddLength);
    }
    let chars = chars_of(encoded);
    let mut index: usize = 0;
    let mut values: Vec<u8> = Vec::new();
    while index < chars.len()
        invariant
            chars@ == encoded@,
            encode_utf8(encoded@).len() % 2 == 0,
            index <= chars@.len(),
            values@.len() == index,
            forall|i: int|
                0 <= i < index ==> is_lower_hex(#[trigger] chars@[i]) && values@[i] as int
                    == hex_value(chars@[i]) && values@[i] < 16,
        decreases chars@.len() - index,
    {
        match hex_digit_value(chars[index]) {
            Some(value) => {
                values.push(value);
            },
            None => {
                assert(!is_lower_hex(encoded@[index as int]));
                return Err(HexError::InvalidDigit);
            },
        }
        index += 1;
    }
    proof {
        lemma_hex_is_ascii(encoded@);
    }
    let mut decoded: Vec<u8> = Vec::new();
    let mut at: usize = 0;
    while at < values.len()
        invariant
            chars@ == encoded@,
            values@.len() == chars@.len(),
            values@.len() % 2 == 0,
            at <= values@.len(),
            at % 2 == 0,
            forall|i: int|
                0 <= i < values@.len() ==> values@[i] as int == hex_value(#[trigger] chars@[i])
                    && values@[i] < 16,
            decoded@ == hex_bytes(encoded@).take(at as int / 2),
        decreases values@.len() - at,
    {
        let high: u8 = values[at];
        let low: u8 = values[at + 1];
        proof {
            assert(high as int == hex_value(chars@[at as int]));
            assert(low as int == hex_value(chars@[at + 1]));
            let k = at as int / 2;
            assert(2 * k == at);
            assert(hex_bytes(encoded@)[k] == (16 * high + low) as u8);
        }
        decoded.push(16 * high + low);
        at += 2;
        assert(decoded@ =~= hex_bytes(encoded@).take(at as int / 2));
    }
    assert(decoded@ =~= hex_bytes(encoded@));
    Ok(decoded)
}

} // verus!
