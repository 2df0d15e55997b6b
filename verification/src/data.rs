//! Data that is held either as an object or as its bytes.
//!
//! Deferring deserialization, and serializing ahead of time, keeps both off the paths that
//! must not block.

use crate::bytes_le::{
    at_most, from_bytes_le, from_le_bytes, le_bytes, lemma_le_bytes_roundtrip, to_bytes_le,
    BytesError, FromBytes, Reader, ToBytes,
};
use vstd::arithmetic::power2::*;
use vstd::prelude::*;

verus! {

/// The cheaply cloneable byte container of the `bytes` crate.
#[verifier::external_type_specification]
#[verifier::external_body]
pub struct ExBytes(bytes::Bytes);

/// The bytes that a container holds.
pub uninterp spec fn bytes_contents(b: bytes::Bytes) -> Seq<u8>;

/// `bytes::Bytes::from(Vec<u8>)`: the container takes over the vector, so it holds the
/// vector's bytes.
#[verifier::external_body]
pub(crate) fn bytes_from_vec(v: Vec<u8>) -> (b: bytes::Bytes)
    ensures
        bytes_contents(b) == v@,
{
    bytes::Bytes::from(v)
}

/// `<bytes::Bytes as Deref>::deref`: the slice of the bytes that the container holds.
#[verifier::external_body]
pub(crate) fn bytes_as_slice(b: &bytes::Bytes) -> (s: &[u8])
    ensures
        s@ == bytes_contents(*b),
{
    b
}

/// `<bytes::Bytes as Clone>::clone`: the clone shares the bytes that the container holds.
pub assume_specification[ <bytes::Bytes as Clone>::clone ](b: &bytes::Bytes) -> (out: bytes::Bytes)
    ensures
        bytes_contents(out) == bytes_contents(*b),
;

/// As a sanity check, an upper bound on the size of data that is read. It keeps a peer from
/// announcing a huge object that would exhaust memory; transports that carry data refuse a
/// larger frame before the length prefix is looked at.
pub const MAX_DATA_SIZE: u32 = 268435456;

/// The version byte that leads the encoding.
pub const DATA_VERSION: u8 = 1;

/// The number of bytes a serialized `Data` adds around the object it carries: the version
/// byte that leads it, and the 32-bit length prefix on the payload that follows.
pub const DATA_ENCODING_OVERHEAD: usize = 5;

/// An object, or the bytes that stand for one.
#[derive(Clone, PartialEq, Eq)]
pub enum Data<T: FromBytes + ToBytes + Send + 'static> {
    Object(T),
    Buffer(bytes::Bytes),
}

/// The encoding of a payload: the version, the length, the payload.
pub open spec fn framed(payload: Seq<u8>) -> Seq<u8> {
    seq![DATA_VERSION] + le_bytes(payload.len() as u32) + payload
}

/// Bit `k` of a byte, the lowest one first.
pub open spec fn byte_bit(b: u8, k: nat) -> bool
    decreases k,
{
    if k == 0 {
        b % 2 == 1
    } else {
        byte_bit(b / 2, (k - 1) as nat)
    }
}

/// The bits of a sequence of bytes, the lowest bit of each byte first.
pub open spec fn bits_le(bytes: Seq<u8>) -> Seq<bool> {
    Seq::new(8 * bytes.len(), |i: int| byte_bit(bytes[i / 8], (i % 8) as nat))
}

/// The number that a sequence of bits stands for, the lowest one first.
pub open spec fn bits_value(bits: Seq<bool>) -> nat
    decreases bits.len(),
{
    if bits.len() == 0 {
        0
    } else {
        (if bits[0] {
            1nat
        } else {
            0
        }) + 2 * bits_value(bits.drop_first())
    }
}

proof fn lemma_bits_value_bound(bits: Seq<bool>)
    ensures
        bits_value(bits) < pow2(bits.len()),
    decreases bits.len(),
{
    if bits.len() == 0 {
        lemma2_to64();
    } else {
        lemma_bits_value_bound(bits.drop_first());
        lemma_pow2_unfold(bits.len());
    }
}

/// The bits of some bytes, the lowest bit of each byte first.
fn to_bits_le(bytes: &[u8]) -> (bits: Vec<bool>)
    ensures
        bits@ == bits_le(bytes@),
{
    let mut bits: Vec<bool> = Vec::new();
    let mut i: usize = 0;
    while i < bytes.len()
        invariant
            i <= bytes@.len(),
            bits@ == bits_le(bytes@.take(i as int)),
        decreases bytes@.len() - i,
    {
        let ghost before = bits@;
        let byte: u8 = bytes[i];
        let mut rest: u8 = byte;
        let mut k: u8 = 0;
        while k < 8
            invariant
                k <= 8,
                bits@.len() == before.len() + k,
                forall|j: int| 0 <= j < before.len() ==> #[trigger] bits@[j] == before[j],
                forall|j: int|
                    before.len() <= j < before.len() + k ==> #[trigger] bits@[j] == byte_bit(
                        byte,
                        (j - before.len()) as nat,
                    ),
                forall|j: nat| #[trigger] byte_bit(rest, j) == byte_bit(byte, j + k as nat),
            decreases 8 - k,
        {
            assert(byte_bit(rest, 0) == byte_bit(byte, k as nat));
            bits.push(rest % 2 == 1);
            let ghost old_rest = rest;
            rest = rest / 2;
            proof {
                assert forall|j: nat| #[trigger] byte_bit(rest, j) == byte_bit(
                    byte,
                    j + (k + 1) as nat,
                ) by {
                    assert(byte_bit(old_rest, j + 1) == byte_bit(rest, j));
                    assert(byte_bit(old_rest, j + 1) == byte_bit(byte, (j + 1) + k as nat));
                }
            }
            k = k + 1;
        }
        proof {
            let done = bytes@.take(i + 1);
            assert forall|j: int| 0 <= j < bits@.len() implies bits@[j] == bits_le(done)[j] by {
                if j < before.len() {
                    assert(before[j] == bits_le(bytes@.take(i as int))[j]);
                } else {
                    assert(j / 8 == i && j % 8 == j - before.len());
                }
            }
            assert(bits@ =~= bits_le(done));
        }
        i += 1;
    }
    assert(bytes@.take(i as int) =~= bytes@);
    bits
}

impl<T: FromBytes + ToBytes + Send + 'static> Data<T> {
    /// The bytes of the object, whichever form it is held in.
    pub open spec fn payload(&self) -> Option<Seq<u8>> {
        match self {
            Data::Object(object) => object.encoding(),
            Data::Buffer(bytes) => Some(bytes_contents(*bytes)),
        }
    }

    /// The bits that a checksum of the data is a hash of: those of the object's bytes.
    pub fn checksum_preimage(&self) -> (r: Result<Vec<bool>, BytesError>)
        ensures
            r is Ok <==> self.payload() is Some,
            r is Ok ==> r->Ok_0@ == bits_le(self.payload()->0),
    {
        match self {
            Data::Object(object) => {
                match to_bytes_le(object) {
                    Ok(bytes) => Ok(to_bits_le(bytes.as_slice())),
                    Err(error) => Err(error),
                }
            },
            Data::Buffer(bytes) => Ok(to_bits_le(bytes_as_slice(bytes))),
        }
    }

    /// The checksum that goes with the hash of [`Data::checksum_preimage`]: the number that
    /// the hash's first bits stand for, as many as the network's checksums have.
    pub fn to_checksum(hash: &[bool], num_bits: usize) -> (checksum: u128)
        requires
            num_bits <= hash@.len(),
            num_bits <= 128,
        ensures
            checksum == bits_value(hash@.take(num_bits as int)),
    {
        let ghost bits = hash@.take(num_bits as int);
        let mut checksum: u128 = 0;
        let mut i: usize = num_bits;
        assert(bits.skip(num_bits as int) =~= Seq::<bool>::empty());
        while i > 0
            invariant
                i <= num_bits,
                num_bits <= 128,
                bits == hash@.take(num_bits as int),
                num_bits <= hash@.len(),
                checksum == bits_value(bits.skip(i as int)),
            decreases i,
        {
            i = i - 1;
            let bit: u128 = if hash[i] {
                1
            } else {
                0
            };
            proof {
                let tail = bits.skip(i as int);
                assert(tail.drop_first() =~= bits.skip(i + 1));
                lemma_bits_value_bound(tail);
                assert(tail.len() <= 128);
                if tail.len() < 128 {
                    lemma_pow2_strictly_increases(tail.len(), 128);
                }
                assert(pow2(128) == 0x100000000000000000000000000000000) by {
                    lemma2_to64();
                    lemma_pow2_adds(64, 64);
                }
            }
            checksum = checksum * 2 + bit;
        }
        assert(bits.skip(0) =~= bits);
        checksum
    }

    /// Turns the data into data of another type that an object of this one converts to;
    /// bytes stay as they are.
    pub fn into<T2: From<T> + FromBytes + ToBytes + Send + 'static>(self) -> (out: Data<T2>)
        ensures
            self is Object ==> out is Object && call_ensures(
                <T2 as From<T>>::from,
                (self->Object_0,),
                out->Object_0,
            ),
            self is Buffer ==> out == Data::<T2>::Buffer(self->Buffer_0),
    {
        match self {
            Data::Object(x) => Data::Object(T2::from(x)),
            Data::Buffer(bytes) => Data::Buffer(bytes),
        }
    }

    /// The object: as it is, or read from its bytes.
    pub fn deserialize_blocking(self) -> (r: Result<T, BytesError>)
        ensures
            self is Object ==> r == Ok::<T, BytesError>(self->Object_0),
            self is Buffer ==> (r is Ok <==> T::readable(bytes_contents(self->Buffer_0))),
            self is Buffer && r is Ok ==> exists|used: int|
                0 <= used <= bytes_contents(self->Buffer_0).len() && #[trigger] T::reads_as(
                    bytes_contents(self->Buffer_0),
                    r->Ok_0,
                    used,
                ),
    {
        match self {
            Data::Object(x) => Ok(x),
            Data::Buffer(bytes) => from_bytes_le(bytes_as_slice(&bytes)),
        }
    }

    /// The bytes: as they are, or those of the object.
    pub fn serialize_blocking(self) -> (r: Result<bytes::Bytes, BytesError>)
        ensures
            self is Buffer ==> r == Ok::<bytes::Bytes, BytesError>(self->Buffer_0),
            r is Ok <==> self.payload() is Some,
            r is Ok ==> bytes_contents(r->Ok_0) == self.payload()->0,
    {
        match self {
            Data::Object(x) => match to_bytes_le(&x) {
                Ok(bytes) => Ok(bytes_from_vec(bytes)),
                Err(error) => Err(error),
            },
            Data::Buffer(bytes) => Ok(bytes),
        }
    }

    /// Writes the bytes of the object, without the framing, behind what is in `writer`.
    pub fn serialize_blocking_into(&self, writer: &mut Vec<u8>) -> (r: Result<(), BytesError>)
        ensures
            r is Ok <==> self.payload() is Some,
            r is Ok ==> final(writer)@ == old(writer)@ + self.payload()->0,
            old(writer)@.is_prefix_of(final(writer)@),
    {
        match self {
            Data::Object(x) => x.write_le(writer),
            Data::Buffer(bytes) => {
                extend_with(writer, bytes_as_slice(bytes));
                Ok(())
            },
        }
    }

    /// Reads framed data: always as bytes. Input that ends before the announced length is
    /// taken as far as it goes.
    pub fn read_framed(reader: &mut Reader) -> (r: Result<Self, BytesError>)
        requires
            old(reader).wf(),
        ensures
            final(reader).wf(),
            r is Ok <==> read_error(old(reader)@) is None,
            r is Err ==> Some(r->Err_0) == read_error(old(reader)@),
            r is Ok ==> r->Ok_0 is Buffer && bytes_contents(r->Ok_0->Buffer_0) == framed_payload(
                old(reader)@,
            ) && final(reader)@ == old(reader)@.skip(
                5 + framed_payload(old(reader)@).len() as int,
            ),
    {
        let ghost before = reader@;
        // Read the version.
        let version: u8 = match reader.next_byte() {
            Ok(version) => version,
            Err(error) => {
                return Err(error);
            },
        };
        // Ensure the version is valid.
        if version != DATA_VERSION {
            return Err(BytesError::InvalidVersion);
        }
        // Read the number of bytes.

        let num_bytes: u32 = match u32::read_le(reader) {
            Ok(num_bytes) => num_bytes,
            Err(_) => {
                return Err(BytesError::UnexpectedEnd);
            },
        };
        assert(num_bytes == from_le_bytes(before.skip(1)));
        assert(reader@ =~= before.skip(5));
        // Ensure the number of bytes is within safe bounds.
        if num_bytes > MAX_DATA_SIZE {
            return Err(BytesError::TooManyBytes(num_bytes));
        }
        // Read the bytes.

        let bytes: Vec<u8> = reader.take_up_to(num_bytes);
        proof {
            let k = at_most(num_bytes as int, before.skip(5).len() as int);
            assert(before.skip(5).skip(k) =~= before.skip(5 + k));
            assert(framed_payload(before) =~= before.skip(5).take(k));
        }
        // Return the data.
        Ok(Data::Buffer(bytes_from_vec(bytes)))
    }
}

/// Appends bytes to a vector.
fn extend_with(writer: &mut Vec<u8>, bytes: &[u8])
    ensures
        final(writer)@ == old(writer)@ + bytes@,
{
    let ghost before = writer@;
    let mut i: usize = 0;
    while i < bytes.len()
        invariant
            i <= bytes@.len(),
            writer@ == before + bytes@.take(i as int),
        decreases bytes@.len() - i,
    {
        writer.push(bytes[i]);
        i += 1;
        assert(writer@ =~= before + bytes@.take(i as int));
    }
    assert(bytes@.take(i as int) =~= bytes@);
}

/// The payload of framed bytes: as many as the length prefix announces, or as there are.
pub open spec fn framed_payload(input: Seq<u8>) -> Seq<u8> {
    let rest = input.skip(5);
    rest.take(at_most(from_le_bytes(input.skip(1)), rest.len() as int))
}

/// Why framed bytes cannot be read: they end before the length does, the version is not the
/// known one, or the announced length is not accepted.
pub open spec fn read_error(input: Seq<u8>) -> Option<BytesError> {
    if input.len() == 0 {
        Some(BytesError::UnexpectedEnd)
    } else if input[0] != DATA_VERSION {
        Some(BytesError::InvalidVersion)
    } else if input.len() < 5 {
        Some(BytesError::UnexpectedEnd)
    } else if from_le_bytes(input.skip(1)) > MAX_DATA_SIZE {
        Some(BytesError::TooManyBytes(from_le_bytes(input.skip(1)) as u32))
    } else {
        None
    }
}

impl<T: FromBytes + ToBytes + Send + 'static> FromBytes for Data<T> {
    open spec fn readable(input: Seq<u8>) -> bool {
        read_error(input) is None
    }

    open spec fn reads_as(input: Seq<u8>, value: Self, used: int) -> bool {
        &&& value is Buffer
        &&& bytes_contents(value->Buffer_0) == framed_payload(input)
        &&& used == 5 + framed_payload(input).len()
    }

    /// Reads the data from the buffer.
    fn read_le(reader: &mut Reader) -> (r: Result<Self, BytesError>) {
        let ghost before = reader@;
        let r = Self::read_framed(reader);
        proof {
            if r is Ok {
                assert(Self::reads_as(
                    before,
                    r->Ok_0,
                    5 + framed_payload(before).len() as int,
                ));
            }
        }
        r
    }
}

impl<T: FromBytes + ToBytes + Send + 'static> ToBytes for Data<T> {
    open spec fn encoding(&self) -> Option<Seq<u8>> {
        match self.payload() {
            Some(payload) => if payload.len() <= u32::MAX {
                Some(framed(payload))
            } else {
                None
            },
            None => None,
        }
    }

    /// Writes the data to the buffer. Where that fails, the version byte is all that was
    /// written.
    fn write_le(&self, writer: &mut Vec<u8>) -> (r: Result<(), BytesError>)
        ensures
            r is Err ==> final(writer)@ == old(writer)@.push(DATA_VERSION),
            r is Err && self.payload() is Some ==> r->Err_0 == BytesError::PayloadTooLong,
            r is Err && self.payload() is None ==> r->Err_0 == BytesError::InvalidObject,
    {
        let ghost before = writer@;
        // Write the version.
        writer.push(DATA_VERSION);
        // Write the data.
        match self {
            Data::Object(object) => {
                // Serialize the object.
                let buffer: Vec<u8> = match to_bytes_le(object) {
                    Ok(buffer) => buffer,
                    Err(_) => {
                        return Err(BytesError::InvalidObject);
                    },
                };
                // Write the object.
                write_sized(writer, buffer.as_slice(), Ghost(before))
            },
            Data::Buffer(buffer) => write_sized(writer, bytes_as_slice(buffer), Ghost(before)),
        }
    }
}

/// Writes a payload behind its length, behind the version byte that stands at the end of
/// `writer`. A payload whose length takes more than 32 bits is not written.
fn write_sized(writer: &mut Vec<u8>, payload: &[u8], before: Ghost<Seq<u8>>) -> (r: Result<
    (),
    BytesError,
>)
    requires
        old(writer)@ == before@.push(DATA_VERSION),
    ensures
        payload@.len() <= u32::MAX ==> r is Ok && final(writer)@ == before@ + framed(payload@),
        payload@.len() > u32::MAX ==> r == Err::<(), BytesError>(BytesError::PayloadTooLong)
            && final(writer)@ == old(writer)@,
{
    let len: usize = payload.len();
    if len as u64 > 0xffffffff {
        return Err(BytesError::PayloadTooLong);
    }
    let size: u32 = len as u32;
    let _ = size.write_le(writer);
    extend_with(writer, payload);
    assert(writer@ =~= before@ + framed(payload@));
    Ok(())
}

/// A serialized `Data` is exactly [`DATA_ENCODING_OVERHEAD`] bytes longer than the object it
/// carries, in either form.
pub proof fn lemma_encoding_overhead<T: FromBytes + ToBytes + Send + 'static>(data: Data<T>)
    requires
        data.encoding() is Some,
    ensures
        data.payload() is Some,
        data.encoding()->0.len() == data.payload()->0.len() + DATA_ENCODING_OVERHEAD,
{
}

/// Reading back what was written gives the bytes of the object that went in, and leaves what
/// stands behind them.
pub proof fn lemma_write_then_read<T: FromBytes + ToBytes + Send + 'static>(
    data: Data<T>,
    rest: Seq<u8>,
)
    requires
        data.encoding() is Some,
        data.payload()->0.len() <= MAX_DATA_SIZE,
    ensures
        <Data<T> as FromBytes>::readable(data.encoding()->0 + rest),
        forall|back: Data<T>, used: int|
            #[trigger] <Data<T> as FromBytes>::reads_as(data.encoding()->0 + rest, back, used)
                ==> back.payload() == data.payload() && used == data.encoding()->0.len(),
{
    let payload = data.payload()->0;
    let input = data.encoding()->0 + rest;
    let size = payload.len() as u32;
    assert(input.skip(1).take(4) =~= le_bytes(size));
    lemma_le_bytes_roundtrip(size);
    assert(from_le_bytes(input.skip(1)) == from_le_bytes(input.skip(1).take(4)));
    assert(input.skip(5) =~= payload + rest);
    assert(framed_payload(input) =~= payload);
}

/// Both forms of one object have one checksum: their hash preimages agree, and so do their
/// encodings.
pub proof fn lemma_forms_agree<T: FromBytes + ToBytes + Send + 'static>(
    object: T,
    bytes: bytes::Bytes,
)
    requires
        object.encoding() == Some(bytes_contents(bytes)),
    ensures
        Data::Object(object).payload() == Data::<T>::Buffer(bytes).payload(),
        Data::Object(object).encoding() == Data::<T>::Buffer(bytes).encoding(),
{
}

} // verus!
