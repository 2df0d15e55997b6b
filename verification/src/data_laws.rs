//! What the encodings are for, byte by byte and bit by bit.

use crate::bytes_le::{from_le_bytes, le_bytes, BytesError, FromBytes, ToBytes};
use crate::data::{
    bits_le, bits_value, byte_bit, bytes_contents, framed, framed_payload, read_error, Data,
    DATA_ENCODING_OVERHEAD,
};
use vstd::arithmetic::div_mod::*;
use vstd::arithmetic::mul::*;
use vstd::arithmetic::power2::*;
use vstd::prelude::*;

verus! {

/// Bit `k` of a byte is the parity of the byte divided by `2^k`.
proof fn lemma_byte_bit(b: u8, k: nat)
    ensures
        byte_bit(b, k) <==> (b as nat / pow2(k)) % 2 == 1,
    decreases k,
{
    if k == 0 {
        lemma2_to64();
        assert(pow2(0) == 1);
    } else {
        let m = (k - 1) as nat;
        lemma_byte_bit(b / 2, m);
        lemma_pow2_unfold(k);
        lemma_pow2_pos(m);
        lemma_div_denominator(b as int, 2, pow2(m) as int);
        assert(byte_bit(b, k) == byte_bit(b / 2, m));
        assert((b / 2) as nat == b as nat / 2);
        assert(b as nat / pow2(k) == (b / 2) as nat / pow2(m));
    }
}

/// The preimage of a checksum holds every bit of every byte: bit `8 i + k` is bit `k` of byte
/// `i`, the lowest one first.
pub proof fn lemma_preimage_bits(s: Seq<u8>)
    ensures
        bits_le(s).len() == 8 * s.len(),
        forall|i: int, k: int|
            0 <= i < s.len() && 0 <= k < 8 ==> (#[trigger] bits_le(s)[8 * i + k] <==> (s[i] as nat
                / pow2(k as nat)) % 2 == 1),
{
    assert forall|i: int, k: int| 0 <= i < s.len() && 0 <= k < 8 implies (#[trigger] bits_le(s)[8 * i
        + k] <==> (s[i] as nat / pow2(k as nat)) % 2 == 1) by {
        assert((8 * i + k) / 8 == i && (8 * i + k) % 8 == k);
        lemma_byte_bit(s[i], k as nat);
    }
}

/// A number is its lowest bit and twice the rest.
proof fn lemma_bits_value_first(bits: Seq<bool>)
    requires
        bits.len() > 0,
    ensures
        bits_value(bits) == (if bits[0] {
            1nat
        } else {
            0
        }) + 2 * bits_value(bits.skip(1)),
{
    assert(bits.skip(1) =~= bits.drop_first());
}

/// The lowest bits of a byte stand for what is left of it modulo a power of two.
proof fn lemma_byte_value(b: u8, bits: Seq<bool>)
    requires
        forall|k: int| 0 <= k < bits.len() ==> #[trigger] bits[k] == byte_bit(b, k as nat),
    ensures
        bits_value(bits) == b as nat % pow2(bits.len()),
    decreases bits.len(),
{
    let n = bits.len();
    lemma_pow2_pos(n);
    if n == 0 {
        lemma2_to64();
        assert(pow2(0) == 1);
    } else {
        let rest = bits.skip(1);
        let m = (n - 1) as nat;
        assert forall|k: int| 0 <= k < rest.len() implies #[trigger] rest[k] == byte_bit(
            b / 2,
            k as nat,
        ) by {
            assert(bits[k + 1] == byte_bit(b, (k + 1) as nat));
        }
        lemma_byte_value(b / 2, rest);
        lemma_bits_value_first(bits);
        lemma_pow2_unfold(n);
        lemma_pow2_pos(m);
        lemma_mod_breakdown(b as int, 2, pow2(m) as int);
        assert(bits[0] == byte_bit(b, 0));
        assert((b / 2) as int == b as int / 2);
    }
}

/// The eight bits of a byte in the preimage stand for the byte.
pub proof fn lemma_preimage_bytes(s: Seq<u8>, i: int)
    requires
        0 <= i < s.len(),
    ensures
        bits_value(bits_le(s).subrange(8 * i, 8 * i + 8)) == s[i],
{
    lemma_preimage_bits(s);
    let bits = bits_le(s).subrange(8 * i, 8 * i + 8);
    assert forall|k: int| 0 <= k < 8 implies #[trigger] bits[k] == byte_bit(s[i], k as nat) by {
        assert(bits[k] == bits_le(s)[8 * i + k]);
        lemma_byte_bit(s[i], k as nat);
    }
    lemma_byte_value(s[i], bits);
    lemma2_to64();
    assert(pow2(8) == 256);
    lemma_small_mod(s[i] as nat, pow2(8));
}

/// The preimage determines the payload: payloads with one preimage are one payload.
pub proof fn lemma_preimage_injective(s: Seq<u8>, t: Seq<u8>)
    requires
        bits_le(s) == bits_le(t),
    ensures
        s == t,
{
    lemma_preimage_bits(s);
    lemma_preimage_bits(t);
    assert forall|i: int| 0 <= i < s.len() implies s[i] == t[i] by {
        lemma_preimage_bytes(s, i);
        lemma_preimage_bytes(t, i);
    }
    assert(s =~= t);
}

/// A checksum has the bits of the hash that it is made of: bit `k` of the number is bit `k` of
/// the list, and there are no more.
pub proof fn lemma_checksum_bits(bits: Seq<bool>)
    ensures
        bits_value(bits) < pow2(bits.len()),
        forall|k: int|
            0 <= k < bits.len() ==> (#[trigger] bits[k] <==> (bits_value(bits) / pow2(k as nat)) % 2
                == 1),
    decreases bits.len(),
{
    if bits.len() == 0 {
        lemma2_to64();
    } else {
        let rest = bits.skip(1);
        lemma_bits_value_first(bits);
        lemma_checksum_bits(rest);
        lemma_pow2_unfold(bits.len());
        let v = bits_value(bits);
        assert forall|k: int| 0 <= k < bits.len() implies (#[trigger] bits[k] <==> (v / pow2(
            k as nat,
        )) % 2 == 1) by {
            lemma2_to64();
            assert(pow2(0) == 1);
            lemma_div_basics(v as int);
            if k > 0 {
                let m = (k - 1) as nat;
                assert(rest[m as int] == bits[k]);
                lemma_pow2_unfold(k as nat);
                lemma_pow2_pos(m);
                lemma_div_denominator(v as int, 2, pow2(m) as int);
                assert(v / 2 == bits_value(rest));
                assert(v / pow2(k as nat) == bits_value(rest) / pow2(m));
                assert(rest[m as int] <==> (bits_value(rest) / pow2(m)) % 2 == 1);
            }
        }
    }
}

/// Hashes that give one checksum agree in the bits that it is made of.
pub proof fn lemma_checksum_injective(s: Seq<bool>, t: Seq<bool>)
    requires
        s.len() == t.len(),
        bits_value(s) == bits_value(t),
    ensures
        s == t,
{
    lemma_checksum_bits(s);
    lemma_checksum_bits(t);
    assert forall|k: int| 0 <= k < s.len() implies s[k] == t[k] by {
        assert(s[k] <==> (bits_value(s) / pow2(k as nat)) % 2 == 1);
        assert(t[k] <==> (bits_value(t) / pow2(k as nat)) % 2 == 1);
    }
    assert(s =~= t);
}

/// The four bytes of a number add up to it, each 256 times as heavy as the one before, and
/// reading them gives it back.
pub proof fn lemma_le_bytes_weights(n: u32)
    ensures
        le_bytes(n).len() == 4,
        le_bytes(n)[0] + le_bytes(n)[1] * 256 + le_bytes(n)[2] * 65536 + le_bytes(n)[3] * 16777216
            == n,
        forall|s: Seq<u8>|
            #[trigger] from_le_bytes(s) == s[0] + s[1] * 256 + s[2] * 65536 + s[3] * 16777216,
{
}

/// The bytes of a number: one for a byte, four for a 32-bit number, which reads from the front
/// of anything that begins with them.
pub proof fn lemma_number_encodings(b: u8, n: u32, rest: Seq<u8>)
    ensures
        b.encoding() == Some(seq![b]),
        <u8 as FromBytes>::readable(rest) <==> rest.len() >= 1,
        forall|v: u8, used: int|
            #[trigger] <u8 as FromBytes>::reads_as(rest, v, used) ==> v == rest[0] && used == 1,
        n.encoding() is Some,
        n.encoding()->0.len() == 4,
        n.encoding()->0[0] + n.encoding()->0[1] * 256 + n.encoding()->0[2] * 65536
            + n.encoding()->0[3] * 16777216 == n,
        <u32 as FromBytes>::readable(rest) <==> rest.len() >= 4,
        forall|v: u32, used: int|
            #[trigger] <u32 as FromBytes>::reads_as(rest, v, used) ==> used == 4 && v == rest[0]
                + rest[1] * 256 + rest[2] * 65536 + rest[3] * 16777216,
        forall|v: u32, used: int|
            #[trigger] <u32 as FromBytes>::reads_as(n.encoding()->0 + rest, v, used) ==> v == n,
{
    lemma_le_bytes_weights(n);
    let whole = n.encoding()->0 + rest;
    assert(whole[0] == le_bytes(n)[0] && whole[1] == le_bytes(n)[1] && whole[2] == le_bytes(n)[2]
        && whole[3] == le_bytes(n)[3]);
}

/// The bytes of data are those of its object, or those that it holds.
pub proof fn lemma_payload_forms<T: FromBytes + ToBytes + Send + 'static>(
    object: T,
    bytes: bytes::Bytes,
)
    ensures
        Data::Object(object).payload() == object.encoding(),
        Data::<T>::Buffer(bytes).payload() == Some(bytes_contents(bytes)),
{
}

/// Framed data is the version byte, the length of the payload in four bytes, the lowest one
/// first, and the payload as it stands. Data has such an encoding exactly where its payload
/// exists and its length fits 32 bits.
pub proof fn lemma_framed_bytes<T: FromBytes + ToBytes + Send + 'static>(data: Data<T>)
    ensures
        data.encoding() is Some <==> data.payload() is Some && data.payload()->0.len()
            <= 0xffffffff,
        data.encoding() is Some ==> {
            let (e, s) = (data.encoding()->0, data.payload()->0);
            &&& e.len() == 5 + s.len()
            &&& e.len() == s.len() + DATA_ENCODING_OVERHEAD
            &&& e[0] == 1
            &&& e[1] + e[2] * 256 + e[3] * 65536 + e[4] * 16777216 == s.len()
            &&& forall|i: int| 0 <= i < s.len() ==> #[trigger] e[5 + i] == s[i]
        },
{
    if data.encoding() is Some {
        let (e, s) = (data.encoding()->0, data.payload()->0);
        let n = s.len() as u32;
        lemma_le_bytes_weights(n);
        assert(e == framed(s));
        assert(e[1] == le_bytes(n)[0] && e[2] == le_bytes(n)[1] && e[3] == le_bytes(n)[2] && e[4]
            == le_bytes(n)[3]);
    }
}

/// What the length prefix of framed bytes announces.
pub open spec fn announced(input: Seq<u8>) -> int {
    input[1] + input[2] * 256 + input[3] * 65536 + input[4] * 16777216
}

/// Framed bytes can be read exactly where the version is 1, the length prefix is complete, and
/// it announces at most 256 MiB. What is read is the bytes behind the prefix as they stand, as
/// many as it announces or as there are, and nothing else is used up.
pub proof fn lemma_framed_reading<T: FromBytes + ToBytes + Send + 'static>(
    input: Seq<u8>,
    value: Data<T>,
    used: int,
)
    ensures
        <Data<T> as FromBytes>::readable(input) <==> input.len() >= 5 && input[0] == 1 && announced(
            input,
        ) <= 268435456,
        <Data<T> as FromBytes>::readable(input) && <Data<T> as FromBytes>::reads_as(
            input,
            value,
            used,
        ) ==> value is Buffer && {
            let s = bytes_contents(value->Buffer_0);
            &&& used == 5 + s.len()
            &&& s.len() <= announced(input)
            &&& s.len() <= input.len() - 5
            &&& s.len() == announced(input) || s.len() == input.len() - 5
            &&& forall|i: int| 0 <= i < s.len() ==> #[trigger] s[i] == input[5 + i]
        },
{
    if input.len() >= 5 {
        let prefix = input.skip(1);
        assert(prefix[0] == input[1] && prefix[1] == input[2] && prefix[2] == input[3] && prefix[3]
            == input[4]);
        assert(from_le_bytes(prefix) == announced(input));
    }
}

/// Why framed bytes cannot be read: they end before the length does, the version is not 1, or
/// more than 256 MiB are announced.
pub proof fn lemma_framed_errors(input: Seq<u8>)
    ensures
        read_error(input) == Some(BytesError::InvalidVersion) <==> input.len() > 0 && input[0] != 1,
        read_error(input) == Some(BytesError::UnexpectedEnd) <==> input.len() == 0 || (input[0] == 1
            && input.len() < 5),
        read_error(input) is Some && read_error(input)->0 is TooManyBytes <==> input.len() >= 5
            && input[0] == 1 && announced(input) > 268435456,
        read_error(input) is Some && read_error(input)->0 is TooManyBytes
            ==> read_error(input)->0->TooManyBytes_0 == announced(input),
        read_error(input) is None || read_error(input) == Some(BytesError::InvalidVersion)
            || read_error(input) == Some(BytesError::UnexpectedEnd) || read_error(input)->0
            is TooManyBytes,
{
    if input.len() >= 5 {
        let prefix = input.skip(1);
        assert(prefix[0] == input[1] && prefix[1] == input[2] && prefix[2] == input[3] && prefix[3]
            == input[4]);
        assert(from_le_bytes(prefix) == announced(input));
    }
}

/// The payload of framed bytes stands behind the prefix, byte for byte.
pub proof fn lemma_framed_payload_bytes(input: Seq<u8>)
    requires
        input.len() >= 5,
    ensures
        forall|i: int|
            0 <= i < framed_payload(input).len() ==> #[trigger] framed_payload(input)[i] == input[5
                + i],
        framed_payload(input).len() == announced(input) || (framed_payload(input).len()
            == input.len() - 5 && input.len() - 5 < announced(input)),
{
    let prefix = input.skip(1);
    assert(prefix[0] == input[1] && prefix[1] == input[2] && prefix[2] == input[3] && prefix[3]
        == input[4]);
    assert(from_le_bytes(prefix) == announced(input));
}

} // verus!
