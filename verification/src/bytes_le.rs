//! Little-endian byte encodings: what can be written to bytes, and read back.

use vstd::prelude::*;

verus! {

/// Why bytes could not be written or read.
#[derive(Copy, Clone, Debug, PartialEq, Eq, Structural)]
pub enum BytesError {
    /// The input ends before the value does.
    UnexpectedEnd,
    /// The leading version byte is not the known one.
    InvalidVersion,
    /// The length prefix announces more bytes than are accepted.
    TooManyBytes(u32),
    /// The payload does not fit a 32-bit length prefix.
    PayloadTooLong,
    /// An object has no encoding, or the input is none of one.
    InvalidObject,
}

/// Bytes that are read from the front.
pub struct Reader<'a> {
    data: &'a [u8],
    pos: usize,
}

impl<'a> Reader<'a> {
    /// The position lies within the bytes.
    pub closed spec fn wf(self) -> bool {
        self.pos <= self.data@.len()
    }

    /// The bytes that are still to be read.
    pub closed spec fn view(self) -> Seq<u8> {
        self.data@.skip(self.pos as int)
    }

    /// A reader at the start of `data`.
    pub fn new(data: &'a [u8]) -> (reader: Self)
        ensures
            reader.wf(),
            reader@ == data@,
    {
        let reader = Reader { data, pos: 0 };
        assert(reader@ =~= data@);
        reader
    }

    /// Reads one byte.
    pub fn next_byte(&mut self) -> (r: Result<u8, BytesError>)
        requires
            old(self).wf(),
        ensures
            final(self).wf(),
            old(self)@.len() == 0 ==> r == Err::<u8, BytesError>(BytesError::UnexpectedEnd)
                && final(self)@ == old(self)@,
            old(self)@.len() > 0 ==> r == Ok::<u8, BytesError>(old(self)@[0]) && final(self)@
                == old(self)@.skip(1),
    {
        let ghost before = self@;
        if self.pos >= self.data.len() {
            return Err(BytesError::UnexpectedEnd);
        }
        let byte: u8 = self.data[self.pos];
        self.pos = self.pos + 1;
        assert(self@ =~= before.skip(1));
        Ok(byte)
    }

    /// Reads at most `n` bytes: fewer only where the input ends first.
    pub fn take_up_to(&mut self, n: u32) -> (out: Vec<u8>)
        requires
            old(self).wf(),
        ensures
            final(self).wf(),
            out@ == old(self)@.take(at_most(n as int, old(self)@.len() as int)),
            final(self)@ == old(self)@.skip(at_most(n as int, old(self)@.len() as int)),
    {
        let ghost (before, data, start) = (self@, self.data@, self.pos);
        let mut out: Vec<u8> = Vec::new();
        let mut left: u32 = n;
        while left > 0 && self.pos < self.data.len()
            invariant
                self.wf(),
                self.data@ == data,
                self.pos == start + out@.len(),
                before == data.skip(start as int),
                left <= n,
                out@.len() + left == n,
                out@ == before.take(out@.len() as int),
            decreases left,
        {
            let byte: u8 = self.data[self.pos];
            assert(before[out@.len() as int] == byte);
            out.push(byte);
            self.pos = self.pos + 1;
            left = left - 1;
            assert(out@ =~= before.take(out@.len() as int));
        }
        assert(self@ =~= before.skip(out@.len() as int));
        out
    }
}

/// The smaller of two numbers.
pub open spec fn at_most(n: int, len: int) -> int {
    if n <= len {
        n
    } else {
        len
    }
}

/// A value that can be written to bytes.
pub trait ToBytes: Sized {
    /// The bytes that stand for the value, where it has an encoding.
    spec fn encoding(&self) -> Option<Seq<u8>>;

    /// Writes the value behind what is in `writer`. Where the value has no encoding, what
    /// was there before stays in front of whatever was written.
    fn write_le(&self, writer: &mut Vec<u8>) -> (r: Result<(), BytesError>)
        ensures
            r is Ok <==> self.encoding() is Some,
            r is Ok ==> final(writer)@ == old(writer)@ + self.encoding()->0,
            old(writer)@.is_prefix_of(final(writer)@),
    ;
}

/// A value that can be read from bytes.
pub trait FromBytes: Sized {
    /// Some value stands at the front of these bytes.
    spec fn readable(input: Seq<u8>) -> bool;

    /// The value stands at the front of these bytes, and takes `used` of them.
    spec fn reads_as(input: Seq<u8>, value: Self, used: int) -> bool;

    /// Reads a value from the front.
    fn read_le(reader: &mut Reader) -> (r: Result<Self, BytesError>)
        requires
            old(reader).wf(),
        ensures
            final(reader).wf(),
            r is Ok <==> Self::readable(old(reader)@),
            r is Ok ==> exists|used: int|
                0 <= used <= old(reader)@.len() && #[trigger] Self::reads_as(
                    old(reader)@,
                    r->Ok_0,
                    used,
                ) && final(reader)@ == old(reader)@.skip(used),
    ;
}

/// The bytes of a value on their own.
pub fn to_bytes_le<T: ToBytes>(value: &T) -> (r: Result<Vec<u8>, BytesError>)
    ensures
        r is Ok <==> value.encoding() is Some,
        r is Ok ==> r->Ok_0@ == value.encoding()->0,
{
    let mut out: Vec<u8> = Vec::new();
    match value.write_le(&mut out) {
        Ok(()) => {
            assert(Seq::<u8>::empty() + value.encoding()->0 =~= value.encoding()->0);
            Ok(out)
        },
        Err(error) => Err(error),
    }
}

/// The value at the front of some bytes.
pub fn from_bytes_le<T: FromBytes>(bytes: &[u8]) -> (r: Result<T, BytesError>)
    ensures
        r is Ok <==> T::readable(bytes@),
        r is Ok ==> exists|used: int|
            0 <= used <= bytes@.len() && #[trigger] T::reads_as(bytes@, r->Ok_0, used),
{
    let mut reader: Reader = Reader::new(bytes);
    T::read_le(&mut reader)
}

/// The four bytes of a 32-bit number, the lowest one first.
pub open spec fn le_bytes(n: u32) -> Seq<u8> {
    seq![
        (n % 0x100) as u8,
        ((n / 0x100) % 0x100) as u8,
        ((n / 0x10000) % 0x100) as u8,
        (n / 0x1000000) as u8,
    ]
}

/// The number that four bytes stand for, the lowest one first.
pub open spec fn from_le_bytes(s: Seq<u8>) -> int {
    s[0] + s[1] * 0x100 + s[2] * 0x10000 + s[3] * 0x1000000
}

/// Four bytes give back the number that they were made of.
pub proof fn lemma_le_bytes_roundtrip(n: u32)
    ensures
        from_le_bytes(le_bytes(n)) == n,
{
}

impl ToBytes for u8 {
    open spec fn encoding(&self) -> Option<Seq<u8>> {
        Some(seq![*self])
    }

    fn write_le(&self, writer: &mut Vec<u8>) -> (r: Result<(), BytesError>) {
        let ghost before = writer@;
        writer.push(*self);
        assert(writer@ =~= before + seq![*self]);
        Ok(())
    }
}

impl FromBytes for u8 {
    open spec fn readable(input: Seq<u8>) -> bool {
        input.len() >= 1
    }

    open spec fn reads_as(input: Seq<u8>, value: u8, used: int) -> bool {
        used == 1 && value == input[0]
    }

    fn read_le(reader: &mut Reader) -> (r: Result<u8, BytesError>) {
        let ghost before = reader@;
        let r = reader.next_byte();
        proof {
            if r is Ok {
                assert(Self::reads_as(before, r->Ok_0, 1));
            }
        }
        r
    }
}

impl ToBytes for u32 {
    open spec fn encoding(&self) -> Option<Seq<u8>> {
        Some(le_bytes(*self))
    }

    fn write_le(&self, writer: &mut Vec<u8>) -> (r: Result<(), BytesError>) {
        let ghost before = writer@;
        let n: u32 = *self;
        writer.push((n % 0x100) as u8);
        writer.push(((n / 0x100) % 0x100) as u8);
        writer.push(((n / 0x10000) % 0x100) as u8);
        writer.push((n / 0x1000000) as u8);
        assert(writer@ =~= before + le_bytes(n));
        Ok(())
    }
}

impl FromBytes for u32 {
    open spec fn readable(input: Seq<u8>) -> bool {
        input.len() >= 4
    }

    open spec fn reads_as(input: Seq<u8>, value: u32, used: int) -> bool {
        used == 4 && value == from_le_bytes(input)
    }

    fn read_le(reader: &mut Reader) -> (r: Result<u32, BytesError>) {
        let ghost before = reader@;
        let b0: u8 = match reader.next_byte() {
            Ok(b) => b,
            Err(e) => {
                return Err(e);
            },
        };
        let b1: u8 = match reader.next_byte() {
            Ok(b) => b,
            Err(e) => {
                return Err(e);
            },
        };
        let b2: u8 = match reader.next_byte() {
            Ok(b) => b,
            Err(e) => {
                return Err(e);
            },
        };
        let b3: u8 = match reader.next_byte() {
            Ok(b) => b,
            Err(e) => {
                return Err(e);
            },
        };
        let n: u32 = (b0 as u32) + (b1 as u32) * 0x100 + (b2 as u32) * 0x10000 + (b3 as u32)
            * 0x1000000;
        proof {
            assert(before.len() >= 4);
            assert(reader@ =~= before.skip(4));
        }
        let r: Result<u32, BytesError> = Ok(n);
        proof {
            assert(Self::reads_as(before, r->Ok_0, 4));
        }
        r
    }
}

} // verus!
