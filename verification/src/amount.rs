//! Token amounts as big-endian byte strings.
//!
//! Event amounts arrive as unsigned big-endian magnitudes of any length.
//! Balance deltas and running totals leave as the shortest two's-complement
//! big-endian encoding of a signed integer. The arithmetic on them is done by
//! the arbitrary-precision integers of `substreams`.

use vstd::prelude::*;
use substreams::scalar::BigInt;
use crate::address::{address_text, text_bytes};

verus! {

/// The natural number that a big-endian byte string spells.
pub open spec fn unsigned_be(bytes: Seq<u8>) -> nat
    decreases bytes.len(),
{
    if bytes.len() == 0 {
        0
    } else {
        unsigned_be(bytes.drop_last()) * 256 + bytes.last() as nat
    }
}

/// 256 to the power `n`.
pub open spec fn pow256(n: nat) -> nat
    decreases n,
{
    if n == 0 {
        1
    } else {
        256 * pow256((n - 1) as nat)
    }
}

/// The integer that a two's-complement big-endian byte string spells. The
/// empty string spells zero.
pub open spec fn signed_be(bytes: Seq<u8>) -> int {
    if bytes.len() > 0 && bytes[0] >= 0x80 {
        unsigned_be(bytes) - pow256(bytes.len())
    } else {
        unsigned_be(bytes) as int
    }
}

/// The shortest big-endian byte string that spells a natural number; empty
/// for zero.
pub open spec fn unsigned_encoding(value: nat) -> Seq<u8>
    decreases value,
{
    if value == 0 {
        Seq::empty()
    } else {
        unsigned_encoding(value / 256).push((value % 256) as u8)
    }
}

/// The shortest two's-complement encoding of a natural number: its magnitude
/// bytes, with a zero byte in front where the top bit would otherwise be set
/// or no byte would be left.
pub open spec fn natural_encoding(value: nat) -> Seq<u8> {
    let magnitude = unsigned_encoding(value);
    if magnitude.len() == 0 || magnitude[0] >= 0x80 {
        seq![0u8] + magnitude
    } else {
        magnitude
    }
}

/// Every byte replaced by its bitwise complement.
pub open spec fn complement(bytes: Seq<u8>) -> Seq<u8> {
    Seq::new(bytes.len(), |i: int| (255 - bytes[i]) as u8)
}

/// The shortest two's-complement big-endian encoding of an integer. A
/// negative `v` is the bitwise complement of the encoding of `-v - 1`.
pub open spec fn signed_encoding(value: int) -> Seq<u8> {
    if value >= 0 {
        natural_encoding(value as nat)
    } else {
        complement(natural_encoding((-value - 1) as nat))
    }
}

/// The magnitude bytes of a natural number: its shortest big-endian bytes,
/// and one zero byte for zero.
pub open spec fn magnitude_encoding(value: nat) -> Seq<u8> {
    if value == 0 {
        seq![0u8]
    } else {
        unsigned_encoding(value)
    }
}

/// The absolute value of an integer.
pub open spec fn magnitude(value: int) -> nat {
    if value < 0 {
        (-value) as nat
    } else {
        value as nat
    }
}

/// The values of a list of magnitudes.
pub open spec fn magnitudes(amounts: Seq<Vec<u8>>) -> Seq<int> {
    Seq::new(amounts.len(), |i: int| unsigned_be(amounts[i]@) as int)
}

/// One integer as a JSON string: its signed encoding in `0x` hexadecimal
/// between double quotes.
pub open spec fn json_hex_string(value: int) -> Seq<char> {
    seq!['"'] + address_text(signed_encoding(value)) + seq!['"']
}

/// The items of a JSON array of integers, separated by commas.
pub open spec fn json_hex_items(values: Seq<int>) -> Seq<char>
    decreases values.len(),
{
    if values.len() == 0 {
        Seq::empty()
    } else if values.len() == 1 {
        json_hex_string(values[0])
    } else {
        json_hex_items(values.drop_last()) + seq![','] + json_hex_string(values.last())
    }
}

/// A list of integers as compact JSON: an array of `0x` hexadecimal strings.
pub open spec fn json_hex_list(values: Seq<int>) -> Seq<char> {
    seq!['['] + json_hex_items(values) + seq![']']
}

/// A byte string spells a number below 256 to the power of its length.
pub proof fn lemma_unsigned_be_bound(bytes: Seq<u8>)
    ensures
        unsigned_be(bytes) < pow256(bytes.len()),
    decreases bytes.len(),
{
    if bytes.len() > 0 {
        lemma_unsigned_be_bound(bytes.drop_last());
    }
}

/// A zero byte in front does not change the number that bytes spell.
pub proof fn lemma_unsigned_be_leading_zero(bytes: Seq<u8>)
    ensures
        unsigned_be(seq![0u8] + bytes) == unsigned_be(bytes),
    decreases bytes.len(),
{
    let extended = seq![0u8] + bytes;
    if bytes.len() == 0 {
        assert(extended.drop_last() =~= Seq::<u8>::empty());
        assert(unsigned_be(extended.drop_last()) == 0);
    } else {
        assert(extended.drop_last() =~= seq![0u8] + bytes.drop_last());
        lemma_unsigned_be_leading_zero(bytes.drop_last());
    }
}

/// Zero bytes in front do not change the number that bytes spell.
pub proof fn lemma_unsigned_be_leading_zeros(count: nat, bytes: Seq<u8>)
    ensures
        unsigned_be(Seq::new(count, |i: int| 0u8) + bytes) == unsigned_be(bytes),
    decreases count,
{
    let zeros = Seq::new(count, |i: int| 0u8);
    if count == 0 {
        assert(zeros + bytes =~= bytes);
    } else {
        let fewer = Seq::new((count - 1) as nat, |i: int| 0u8);
        assert(zeros + bytes =~= seq![0u8] + (fewer + bytes));
        lemma_unsigned_be_leading_zero(fewer + bytes);
        lemma_unsigned_be_leading_zeros((count - 1) as nat, bytes);
    }
}

/// The shortest bytes of a number spell that number.
pub proof fn lemma_unsigned_encoding_value(value: nat)
    ensures
        unsigned_be(unsigned_encoding(value)) == value,
    decreases value,
{
    if value > 0 {
        let rest = unsigned_encoding(value / 256);
        lemma_unsigned_encoding_value(value / 256);
        assert(rest.push((value % 256) as u8).drop_last() =~= rest);
    }
}

/// Complementing every byte mirrors the number in the range of its length.
pub proof fn lemma_complement_value(bytes: Seq<u8>)
    ensures
        unsigned_be(complement(bytes)) == pow256(bytes.len()) - 1 - unsigned_be(bytes),
    decreases bytes.len(),
{
    if bytes.len() > 0 {
        assert(complement(bytes).drop_last() =~= complement(bytes.drop_last()));
        lemma_complement_value(bytes.drop_last());
    }
}

/// The natural encoding spells its number, is never empty, and keeps its top
/// bit clear.
pub proof fn lemma_natural_encoding(value: nat)
    ensures
        natural_encoding(value).len() > 0,
        natural_encoding(value)[0] < 0x80,
        unsigned_be(natural_encoding(value)) == value,
        signed_be(natural_encoding(value)) == value,
{
    lemma_unsigned_encoding_value(value);
    lemma_unsigned_be_leading_zero(unsigned_encoding(value));
}

/// Decoding inverts encoding: the signed encoding of an integer spells it.
pub proof fn lemma_signed_encoding_value(value: int)
    ensures
        signed_encoding(value).len() > 0,
        signed_be(signed_encoding(value)) == value,
{
    if value >= 0 {
        lemma_natural_encoding(value as nat);
    } else {
        let flipped = natural_encoding((-value - 1) as nat);
        lemma_natural_encoding((-value - 1) as nat);
        lemma_complement_value(flipped);
    }
}

/// An encoding spells a negative integer exactly when its top bit is set.
pub proof fn lemma_signed_be_sign(bytes: Seq<u8>)
    ensures
        signed_be(bytes) < 0 <==> bytes.len() > 0 && bytes[0] >= 0x80,
{
    lemma_unsigned_be_bound(bytes);
}

/// Comparison of `substreams::scalar::BigInt` values: whether the integer
/// read from one unsigned big-endian magnitude is greater than the one read
/// from another.
#[verifier::external_body]
fn is_greater(left: &[u8], right: &[u8]) -> (greater: bool)
    ensures
        greater == (unsigned_be(left@) > unsigned_be(right@)),
{
    BigInt::from_unsigned_bytes_be(left) > BigInt::from_unsigned_bytes_be(right)
}

/// Whether an amount is greater than zero.
pub fn exceeds_zero(magnitude: &[u8]) -> (positive: bool)
    ensures
        positive == (unsigned_be(magnitude@) > 0),
{
    let zero: Vec<u8> = Vec::new();
    is_greater(magnitude, zero.as_slice())
}

/// `BigInt::to_signed_bytes_be` of the integer read from an unsigned
/// big-endian magnitude: its shortest two's-complement encoding.
#[verifier::external_body]
pub(crate) fn to_signed_bytes_be(magnitude: &[u8]) -> (encoded: Vec<u8>)
    ensures
        encoded@ == signed_encoding(unsigned_be(magnitude@) as int),
{
    BigInt::from_unsigned_bytes_be(magnitude).to_signed_bytes_be()
}

/// `BigInt::neg` of the integer read from an unsigned big-endian magnitude,
/// in its shortest two's-complement encoding.
#[verifier::external_body]
pub(crate) fn negated_signed_bytes_be(magnitude: &[u8]) -> (encoded: Vec<u8>)
    ensures
        encoded@ == signed_encoding(-(unsigned_be(magnitude@) as int)),
{
    BigInt::from_unsigned_bytes_be(magnitude).neg().to_signed_bytes_be()
}

/// Addition of `substreams::scalar::BigInt` values: the sum of two integers
/// read from two's-complement encodings, in its shortest encoding.
#[verifier::external_body]
pub(crate) fn sum_signed_bytes_be(left: &[u8], right: &[u8]) -> (encoded: Vec<u8>)
    ensures
        encoded@ == signed_encoding(signed_be(left@) + signed_be(right@)),
{
    (BigInt::from_signed_bytes_be(left) + BigInt::from_signed_bytes_be(right)).to_signed_bytes_be()
}

/// `BigInt::to_bytes_be` of the integer read from a two's-complement
/// encoding: the big-endian bytes of its absolute value, without its sign.
#[verifier::external_body]
pub(crate) fn magnitude_bytes_be(encoded: &[u8]) -> (bytes: Vec<u8>)
    ensures
        bytes@ == magnitude_encoding(magnitude(signed_be(encoded@))),
{
    BigInt::from_signed_bytes_be(encoded).to_bytes_be().1
}

/// `tycho_substreams::attributes::json_serialize_bigint_list` of the integers
/// read from unsigned big-endian magnitudes: a compact JSON array that holds
/// each integer's signed encoding as a `0x` hexadecimal string.
#[verifier::external_body]
pub(crate) fn json_serialize_bigint_list(amounts: &Vec<Vec<u8>>) -> (json: Vec<u8>)
    ensures
        json@ == text_bytes(json_hex_list(magnitudes(amounts@))),
{
    let values: Vec<BigInt> = amounts.iter().map(|m| BigInt::from_unsigned_bytes_be(m)).collect();
    tycho_substreams::attributes::json_serialize_bigint_list(&values)
}

} // verus!
