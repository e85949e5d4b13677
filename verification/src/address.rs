//! Canonical text form of contract addresses: `0x` followed by lower-case
//! hexadecimal digits, two per byte.

use vstd::prelude::*;
use vstd::slice::slice_subrange;
use vstd::string::*;

verus! {

/// The lower-case hexadecimal digit of a value below sixteen.
pub open spec fn hex_digit(nibble: int) -> char {
    seq!['0', '1', '2', '3', '4', '5', '6', '7', '8', '9', 'a', 'b', 'c', 'd', 'e', 'f'][nibble]
}

/// Lower-case hexadecimal text of a byte string, high nibble first.
pub open spec fn hex_text(bytes: Seq<u8>) -> Seq<char> {
    Seq::new(
        2 * bytes.len(),
        |i: int| if i % 2 == 0 {
            hex_digit(bytes[i / 2] as int / 16)
        } else {
            hex_digit(bytes[i / 2] as int % 16)
        },
    )
}

/// The value of one ASCII hexadecimal digit of either case, if it is one.
pub open spec fn hex_value(digit: u8) -> Option<int> {
    if 0x30 <= digit <= 0x39 {
        Some(digit - 0x30)
    } else if 0x61 <= digit <= 0x66 {
        Some(digit - 0x61 + 10)
    } else if 0x41 <= digit <= 0x46 {
        Some(digit - 0x41 + 10)
    } else {
        None
    }
}

/// Whether a byte string is an even number of ASCII hexadecimal digits.
pub open spec fn is_hex_digits(digits: Seq<u8>) -> bool {
    &&& digits.len() % 2 == 0
    &&& forall|i: int| 0 <= i < digits.len() ==> hex_value(#[trigger] digits[i]) is Some
}

/// The bytes that a string of hexadecimal digits spells, two digits per byte.
pub open spec fn hex_bytes(digits: Seq<u8>) -> Seq<u8> {
    Seq::new(
        digits.len() / 2,
        |i: int| (16 * hex_value(digits[2 * i]).unwrap() + hex_value(digits[2 * i + 1]).unwrap()) as u8,
    )
}

/// The UTF-8 bytes of a text.
pub open spec fn text_bytes(text: Seq<char>) -> Seq<u8> {
    vstd::utf8::encode_utf8(text)
}

/// Canonical text of an address: `0x` and its lower-case hexadecimal digits.
pub open spec fn address_text(address: Seq<u8>) -> Seq<char> {
    seq!['0', 'x'] + hex_text(address)
}

/// The bytes that an address text stands for. The first two bytes of the text
/// are skipped whatever they are; text that is shorter, or whose remainder is
/// not an even run of hexadecimal digits, stands for the empty byte string.
pub open spec fn address_bytes(text: Seq<u8>) -> Seq<u8> {
    if text.len() >= 2 && is_hex_digits(text.skip(2)) {
        hex_bytes(text.skip(2))
    } else {
        Seq::empty()
    }
}

/// `hex::FromHexError`, the error of `hex::decode`. Nothing is known of a
/// value of it.
#[verifier::external_type_specification]
#[verifier::external_body]
pub struct ExFromHexError(hex::FromHexError);

/// `hex::encode`: every byte becomes two lower-case hexadecimal digits, the
/// high nibble first.
#[verifier::external_body]
fn hex_encode(bytes: &[u8]) -> (text: String)
    ensures
        text@ == hex_text(bytes@),
{
    hex::encode(bytes)
}

/// `hex::decode`: succeeds exactly on an even number of hexadecimal digits of
/// either case, and then returns the bytes they spell.
#[verifier::external_body]
fn hex_decode(digits: &[u8]) -> (decoded: Result<Vec<u8>, hex::FromHexError>)
    ensures
        decoded is Ok <==> is_hex_digits(digits@),
        decoded matches Ok(bytes) ==> bytes@ == hex_bytes(digits@),
{
    hex::decode(digits)
}

/// Encodes an address in its canonical text form.
pub fn address_to_string_with_0x(address: &[u8]) -> (text: String)
    ensures
        text@ == address_text(address@),
{
    let mut text = String::from_str("0x");
    proof {
        reveal_strlit("0x");
    }
    assert(text@ =~= seq!['0', 'x']);
    let digits = hex_encode(address);
    text.append(digits.as_str());
    text
}

/// The canonical text form of an address, as bytes.
pub fn address_to_bytes_with_0x(address: &[u8]) -> (bytes: Vec<u8>)
    ensures
        bytes@ == text_bytes(address_text(address@)),
{
    let text = address_to_string_with_0x(address);
    text.as_str().as_bytes_vec()
}

/// Stores an address in its canonical text form.
pub fn store_address(address: &[u8]) -> (text: String)
    ensures
        text@ == address_text(address@),
{
    address_to_string_with_0x(address)
}

/// Decodes an address text back to bytes. Malformed text decodes to the empty
/// byte string.
pub fn decode_address(address_str: &str) -> (address: Vec<u8>)
    ensures
        address@ == address_bytes(text_bytes(address_str@)),
{
    let text = address_str.as_bytes();
    if text.len() < 2 {
        return Vec::new();
    }
    let digits = slice_subrange(text, 2, text.len());
    assert(digits@ =~= text@.skip(2));
    match hex_decode(digits) {
        Ok(bytes) => bytes,
        Err(_) => Vec::new(),
    }
}

/// Whether a text holds no colon.
pub open spec fn colon_free(text: Seq<char>) -> bool {
    forall|i: int| 0 <= i < text.len() ==> text[i] != ':'
}

/// Whether a text holds only characters of one byte.
pub open spec fn is_plain(text: Seq<char>) -> bool {
    vstd::utf8::is_ascii_chars(text)
}

/// What a hexadecimal digit is: no colon, one byte wide, and of the value it
/// was made from.
proof fn lemma_hex_digit(nibble: int)
    requires
        0 <= nibble < 16,
    ensures
        hex_digit(nibble) != ':',
        '\0' <= hex_digit(nibble) <= '\u{7f}',
        hex_value(hex_digit(nibble) as u8) == Some(nibble),
{
    let digits = seq![
        '0',
        '1',
        '2',
        '3',
        '4',
        '5',
        '6',
        '7',
        '8',
        '9',
        'a',
        'b',
        'c',
        'd',
        'e',
        'f',
    ];
    assert(digits[0] == '0' && digits[1] == '1' && digits[2] == '2' && digits[3] == '3');
    assert(digits[4] == '4' && digits[5] == '5' && digits[6] == '6' && digits[7] == '7');
    assert(digits[8] == '8' && digits[9] == '9' && digits[10] == 'a' && digits[11] == 'b');
    assert(digits[12] == 'c' && digits[13] == 'd' && digits[14] == 'e' && digits[15] == 'f');
}

/// The canonical text of an address holds no colon and only characters of
/// one byte.
pub proof fn lemma_address_text_plain(address: Seq<u8>)
    ensures
        colon_free(address_text(address)),
        is_plain(address_text(address)),
        address_text(address).len() == 2 + 2 * address.len(),
{
    let text = address_text(address);
    assert forall|i: int| 0 <= i < text.len() implies text[i] != ':' && '\0' <= #[trigger] text[i]
        <= '\u{7f}' by {
        if i >= 2 {
            let k = i - 2;
            assert(text[i] == hex_text(address)[k]);
            if k % 2 == 0 {
                lemma_hex_digit(address[k / 2] as int / 16);
            } else {
                lemma_hex_digit(address[k / 2] as int % 16);
            }
        }
    }
}

/// The bytes of a text of one-byte characters are its characters.
pub proof fn lemma_plain_text_bytes(text: Seq<char>)
    requires
        is_plain(text),
    ensures
        text_bytes(text) == Seq::new(text.len(), |i: int| text[i] as u8),
{
    vstd::utf8::is_ascii_chars_encode_utf8(text);
    assert(text_bytes(text) =~= Seq::new(text.len(), |i: int| text[i] as u8));
}

/// Decoding inverts encoding: the canonical text of an address stands for
/// that address.
pub proof fn lemma_address_round_trip(address: Seq<u8>)
    ensures
        address_bytes(text_bytes(address_text(address))) == address,
{
    let text = address_text(address);
    lemma_address_text_plain(address);
    lemma_plain_text_bytes(text);
    let bytes = text_bytes(text);
    let digits = bytes.skip(2);
    assert forall|i: int| 0 <= i < digits.len() implies hex_value(#[trigger] digits[i]) is Some by {
        assert(digits[i] == text[i + 2] as u8);
        assert(text[i + 2] == hex_text(address)[i]);
        if i % 2 == 0 {
            lemma_hex_digit(address[i / 2] as int / 16);
        } else {
            lemma_hex_digit(address[i / 2] as int % 16);
        }
    }
    assert(is_hex_digits(digits));
    assert forall|k: int| 0 <= k < address.len() implies hex_bytes(digits)[k] == address[k] by {
        assert(digits[2 * k] == text[2 * k + 2] as u8);
        assert(digits[2 * k + 1] == text[2 * k + 3] as u8);
        assert(text[2 * k + 2] == hex_text(address)[2 * k]);
        assert(text[2 * k + 3] == hex_text(address)[2 * k + 1]);
        lemma_hex_digit(address[k] as int / 16);
        lemma_hex_digit(address[k] as int % 16);
    }
    assert(hex_bytes(digits) =~= address);
}

} // verus!
