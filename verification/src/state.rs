//! Save states: a small little-endian binary format plus the trait each
//! component implements to write itself out and read itself back.

use vstd::prelude::*;

verus! {

/// The four bytes every state starts with: "FGBA".
pub const MAGIC: [u8; 4] = [0x46, 0x47, 0x42, 0x41];

/// Format version written after the magic.
pub const VERSION: u32 = 1;

/// Why a state could not be loaded.
#[derive(Debug, PartialEq, Eq, Structural)]
pub enum StateError {
    NotAState,
    WrongVersion(u32),
    WrongGame,
    Truncated,
}

// ------------------------------------------------------------ encodings

/// Little-endian bytes of a 16 bit value.
pub open spec fn le16(value: u16) -> Seq<u8> {
    seq![value as u8, (value >> 8u16) as u8]
}

/// Little-endian bytes of a 32 bit value.
pub open spec fn le32(value: u32) -> Seq<u8> {
    seq![value as u8, (value >> 8u32) as u8, (value >> 16u32) as u8, (value >> 24u32) as u8]
}

/// Little-endian bytes of a 64 bit value.
pub open spec fn le64(value: u64) -> Seq<u8> {
    le32(value as u32) + le32((value >> 32u64) as u32)
}

/// The 16 bit value whose little-endian bytes start at `i`.
pub open spec fn from_le16(bytes: Seq<u8>, i: int) -> u16 {
    (bytes[i] as u16) | ((bytes[i + 1] as u16) << 8u16)
}

/// The 32 bit value whose little-endian bytes start at `i`.
pub open spec fn from_le32(bytes: Seq<u8>, i: int) -> u32 {
    (bytes[i] as u32) | ((bytes[i + 1] as u32) << 8u32) | ((bytes[i + 2] as u32) << 16u32)
        | ((bytes[i + 3] as u32) << 24u32)
}

/// The 64 bit value whose little-endian bytes start at `i`.
pub open spec fn from_le64(bytes: Seq<u8>, i: int) -> u64 {
    (from_le32(bytes, i) as u64) | ((from_le32(bytes, i + 4) as u64) << 32u64)
}

/// The byte a boolean is stored as.
pub open spec fn bool_byte(value: bool) -> u8 {
    if value { 1 } else { 0 }
}

/// Encoding of an optional halfword: a presence byte, then the value or zero.
pub open spec fn option16_bytes(value: Option<u16>) -> Seq<u8> {
    match value {
        Some(v) => seq![1u8] + le16(v),
        None => seq![0u8] + le16(0),
    }
}

/// Encoding of a byte block: its length as a 32 bit word, then the bytes.
pub open spec fn block_bytes(value: Seq<u8>) -> Seq<u8> {
    le32(value.len() as u32) + value
}

/// The header every state starts with.
pub open spec fn header_bytes(game: u32) -> Seq<u8> {
    MAGIC@ + le32(VERSION) + le32(game)
}

proof fn lemma_le16_round_trip(value: u16)
    ensures
        from_le16(le16(value), 0) == value,
{
    let b0 = value as u8;
    let b1 = (value >> 8u16) as u8;
    assert((b0 as u16) | ((b1 as u16) << 8u16) == value) by (bit_vector)
        requires
            b0 == value as u8,
            b1 == (value >> 8u16) as u8,
    ;
}

proof fn lemma_le32_round_trip(value: u32)
    ensures
        from_le32(le32(value), 0) == value,
{
    let b0 = value as u8;
    let b1 = (value >> 8u32) as u8;
    let b2 = (value >> 16u32) as u8;
    let b3 = (value >> 24u32) as u8;
    assert((b0 as u32) | ((b1 as u32) << 8u32) | ((b2 as u32) << 16u32) | ((b3 as u32) << 24u32)
        == value) by (bit_vector)
        requires
            b0 == value as u8,
            b1 == (value >> 8u32) as u8,
            b2 == (value >> 16u32) as u8,
            b3 == (value >> 24u32) as u8,
    ;
}

proof fn lemma_le64_round_trip(value: u64)
    ensures
        from_le64(le64(value), 0) == value,
{
    let low = value as u32;
    let high = (value >> 32u64) as u32;
    lemma_le32_round_trip(low);
    lemma_le32_round_trip(high);
    let s = le64(value);
    assert(s.subrange(0, 4) =~= le32(low));
    assert(s.subrange(4, 8) =~= le32(high));
    assert(from_le32(s, 0) == from_le32(le32(low), 0));
    assert(from_le32(s, 4) == from_le32(le32(high), 0));
    assert(((low as u64) | ((high as u64) << 32u64)) == value) by (bit_vector)
        requires
            low == value as u32,
            high == (value >> 32u64) as u32,
    ;
}

/// Reading a halfword back from the bytes that were written for it gives
/// the value that was written.
pub proof fn law_u16_round_trip(prefix: Seq<u8>, value: u16)
    ensures
        from_le16(prefix + le16(value), prefix.len() as int) == value,
{
    lemma_le16_round_trip(value);
    let s = prefix + le16(value);
    assert(s[prefix.len() as int] == le16(value)[0]);
    assert(s[prefix.len() as int + 1] == le16(value)[1]);
}

/// Reading a word back from the bytes that were written for it gives the
/// value that was written.
pub proof fn law_u32_round_trip(prefix: Seq<u8>, value: u32)
    ensures
        from_le32(prefix + le32(value), prefix.len() as int) == value,
{
    lemma_le32_round_trip(value);
    let s = prefix + le32(value);
    let n = prefix.len() as int;
    assert(s[n] == le32(value)[0]);
    assert(s[n + 1] == le32(value)[1]);
    assert(s[n + 2] == le32(value)[2]);
    assert(s[n + 3] == le32(value)[3]);
}

/// Reading a 64 bit value back from the bytes that were written for it
/// gives the value that was written.
pub proof fn law_u64_round_trip(prefix: Seq<u8>, value: u64)
    ensures
        from_le64(prefix + le64(value), prefix.len() as int) == value,
{
    lemma_le64_round_trip(value);
    let s = prefix + le64(value);
    let n = prefix.len() as int;
    let t = le64(value);
    assert forall|k: int| 0 <= k < 8 implies s[n + k] == t[k] by {}
    assert(from_le32(s, n) == from_le32(t, 0));
    assert(from_le32(s, n + 4) == from_le32(t, 4));
}

/// Bytes that start with `a + s` start with `a`, and `s` follows it.
pub proof fn lemma_expects_split(b: Seq<u8>, p: int, a: Seq<u8>, s: Seq<u8>)
    requires
        0 <= p,
        p + a.len() + s.len() <= b.len(),
        b.subrange(p, p + a.len() + s.len()) == a + s,
    ensures
        b.subrange(p, p + a.len()) == a,
        b.subrange(p + a.len(), p + a.len() + s.len()) == s,
{
    let whole = b.subrange(p, p + a.len() + s.len());
    assert forall|i: int| 0 <= i < a.len() implies b.subrange(p, p + a.len())[i] == a[i] by {
        assert(whole[i] == (a + s)[i]);
    }
    assert forall|i: int| 0 <= i < s.len() implies b.subrange(
        p + a.len(),
        p + a.len() + s.len(),
    )[i] == s[i] by {
        assert(whole[a.len() + i] == (a + s)[a.len() + i]);
    }
    assert(b.subrange(p, p + a.len()) =~= a);
    assert(b.subrange(p + a.len(), p + a.len() + s.len()) =~= s);
}

proof fn lemma_read16(b: Seq<u8>, p: int, v: u16)
    requires
        0 <= p,
        p + 2 <= b.len(),
        b.subrange(p, p + 2) == le16(v),
    ensures
        from_le16(b, p) == v,
{
    assert(b[p] == b.subrange(p, p + 2)[0]);
    assert(b[p + 1] == b.subrange(p, p + 2)[1]);
    lemma_le16_round_trip(v);
}

proof fn lemma_read32(b: Seq<u8>, p: int, v: u32)
    requires
        0 <= p,
        p + 4 <= b.len(),
        b.subrange(p, p + 4) == le32(v),
    ensures
        from_le32(b, p) == v,
{
    assert(b[p] == b.subrange(p, p + 4)[0]);
    assert(b[p + 1] == b.subrange(p, p + 4)[1]);
    assert(b[p + 2] == b.subrange(p, p + 4)[2]);
    assert(b[p + 3] == b.subrange(p, p + 4)[3]);
    lemma_le32_round_trip(v);
}

proof fn lemma_read64(b: Seq<u8>, p: int, v: u64)
    requires
        0 <= p,
        p + 8 <= b.len(),
        b.subrange(p, p + 8) == le64(v),
    ensures
        from_le64(b, p) == v,
{
    let low = v as u32;
    let high = (v >> 32u64) as u32;
    lemma_expects_split(b, p, le32(low), le32(high));
    lemma_read32(b, p, low);
    lemma_read32(b, p + 4, high);
    lemma_le64_round_trip(v);
    let s = le64(v);
    assert(s.subrange(0, 4) =~= le32(low));
    assert(s.subrange(4, 8) =~= le32(high));
    assert(from_le32(s, 0) == from_le32(le32(low), 0));
    assert(from_le32(s, 4) == from_le32(le32(high), 0));
}

/// Signed values travel as their two's complement bits.
proof fn lemma_signed_bits(a: i32, b: i16)
    by (bit_vector)
    ensures
        (a as u32) as i32 == a,
        (b as u16) as i16 == b,
{
}

// ---------------------------------------------------------------- writer

/// Accumulates the bytes of a state.
pub struct Writer {
    pub data: Vec<u8>,
}

impl Default for Writer {
    fn default() -> (writer: Self)
        ensures
            writer.data@ == Seq::<u8>::empty(),
    {
        Writer { data: Vec::new() }
    }
}

impl Writer {
    pub fn u8(&mut self, value: u8)
        ensures
            final(self).data@ == old(self).data@.push(value),
            forall|rest: Seq<u8>| old(self).data@ + #[trigger] (seq![value] + rest) == final(self).data@ + rest,
    {
        self.data.push(value);
        assert forall|rest: Seq<u8>| old(self).data@ + #[trigger] (seq![value] + rest) == self.data@ + rest by {
            assert(old(self).data@ + (seq![value] + rest) =~= self.data@ + rest);
        }
    }

    pub fn bool(&mut self, value: bool)
        ensures
            final(self).data@ == old(self).data@.push(bool_byte(value)),
            forall|rest: Seq<u8>| old(self).data@ + #[trigger] (seq![bool_byte(value)] + rest) == final(self).data@ + rest,
    {
        if value {
            self.data.push(1);
        } else {
            self.data.push(0);
        }
        assert forall|rest: Seq<u8>| old(self).data@ + #[trigger] (seq![bool_byte(value)] + rest) == self.data@ + rest by {
            assert(old(self).data@ + (seq![bool_byte(value)] + rest) =~= self.data@ + rest);
        }
    }

    pub fn u16(&mut self, value: u16)
        ensures
            final(self).data@ == old(self).data@ + le16(value),
            forall|rest: Seq<u8>| old(self).data@ + #[trigger] (le16(value) + rest) == final(self).data@ + rest,
    {
        self.data.push(value as u8);
        self.data.push((value >> 8u16) as u8);
        assert(self.data@ =~= old(self).data@ + le16(value));
        assert forall|rest: Seq<u8>| old(self).data@ + #[trigger] (le16(value) + rest) == self.data@ + rest by {
            assert(old(self).data@ + (le16(value) + rest) =~= self.data@ + rest);
        }
    }

    pub fn u32(&mut self, value: u32)
        ensures
            final(self).data@ == old(self).data@ + le32(value),
            forall|rest: Seq<u8>| old(self).data@ + #[trigger] (le32(value) + rest) == final(self).data@ + rest,
    {
        self.data.push(value as u8);
        self.data.push((value >> 8u32) as u8);
        self.data.push((value >> 16u32) as u8);
        self.data.push((value >> 24u32) as u8);
        assert(self.data@ =~= old(self).data@ + le32(value));
        assert forall|rest: Seq<u8>| old(self).data@ + #[trigger] (le32(value) + rest) == self.data@ + rest by {
            assert(old(self).data@ + (le32(value) + rest) =~= self.data@ + rest);
        }
    }

    pub fn u64(&mut self, value: u64)
        ensures
            final(self).data@ == old(self).data@ + le64(value),
            forall|rest: Seq<u8>| old(self).data@ + #[trigger] (le64(value) + rest) == final(self).data@ + rest,
    {
        self.u32(value as u32);
        self.u32((value >> 32u64) as u32);
        assert(self.data@ =~= old(self).data@ + le64(value));
        assert forall|rest: Seq<u8>| old(self).data@ + #[trigger] (le64(value) + rest) == self.data@ + rest by {
            assert(old(self).data@ + (le64(value) + rest) =~= self.data@ + rest);
        }
    }

    pub fn i32(&mut self, value: i32)
        ensures
            final(self).data@ == old(self).data@ + le32(value as u32),
            forall|rest: Seq<u8>| old(self).data@ + #[trigger] (le32(value as u32) + rest) == final(self).data@ + rest,
    {
        self.u32(value as u32);
        assert forall|rest: Seq<u8>| old(self).data@ + #[trigger] (le32(value as u32) + rest) == self.data@ + rest by {
            assert(old(self).data@ + (le32(value as u32) + rest) =~= self.data@ + rest);
        }
    }

    pub fn i16(&mut self, value: i16)
        ensures
            final(self).data@ == old(self).data@ + le16(value as u16),
            forall|rest: Seq<u8>| old(self).data@ + #[trigger] (le16(value as u16) + rest) == final(self).data@ + rest,
    {
        self.u16(value as u16);
        assert forall|rest: Seq<u8>| old(self).data@ + #[trigger] (le16(value as u16) + rest) == self.data@ + rest by {
            assert(old(self).data@ + (le16(value as u16) + rest) =~= self.data@ + rest);
        }
    }

    /// Sizes are stored as 32 bit words.
    pub fn usize(&mut self, value: usize)
        ensures
            final(self).data@ == old(self).data@ + le32(value as u32),
            forall|rest: Seq<u8>| old(self).data@ + #[trigger] (le32(value as u32) + rest) == final(self).data@ + rest,
    {
        self.u32(value as u32);
        assert forall|rest: Seq<u8>| old(self).data@ + #[trigger] (le32(value as u32) + rest) == self.data@ + rest by {
            assert(old(self).data@ + (le32(value as u32) + rest) =~= self.data@ + rest);
        }
    }

    pub fn option_u16(&mut self, value: Option<u16>)
        ensures
            final(self).data@ == old(self).data@ + option16_bytes(value),
    {
        match value {
            Some(v) => {
                self.bool(true);
                self.u16(v);
            },
            None => {
                self.bool(false);
                self.u16(0);
            },
        }
        assert(self.data@ =~= old(self).data@ + option16_bytes(value));
    }

    /// A length-prefixed block of bytes.
    pub fn bytes(&mut self, value: &[u8])
        ensures
            final(self).data@ == old(self).data@ + block_bytes(value@),
            forall|rest: Seq<u8>| old(self).data@ + #[trigger] (block_bytes(value@) + rest) == final(self).data@ + rest,
    {
        self.usize(value.len());
        let ghost start = self.data@;
        let mut index: usize = 0;
        while index < value.len()
            invariant
                index <= value@.len(),
                self.data@ == start + value@.subrange(0, index as int),
            decreases value@.len() - index,
        {
            self.data.push(value[index]);
            index = index + 1;
            assert(self.data@ =~= start + value@.subrange(0, index as int));
        }
        assert(value@.subrange(0, value@.len() as int) =~= value@);
        assert(self.data@ =~= old(self).data@ + block_bytes(value@));
        assert forall|rest: Seq<u8>| old(self).data@ + #[trigger] (block_bytes(value@) + rest) == self.data@ + rest by {
            assert(old(self).data@ + (block_bytes(value@) + rest) =~= self.data@ + rest);
        }
    }
}

// ---------------------------------------------------------------- reader

/// Reads a state back, field by field, failing rather than running past
/// the end of the data.
pub struct Reader<'a> {
    data: &'a [u8],
    position: usize,
}

impl<'a> Reader<'a> {
    /// The bytes being read.
    pub closed spec fn bytes(&self) -> Seq<u8> {
        self.data@
    }

    /// How many bytes have been consumed.
    pub closed spec fn pos(&self) -> int {
        self.position as int
    }

    /// The position never passes the end of the data.
    pub open spec fn wf(&self) -> bool {
        0 <= self.pos() <= self.bytes().len()
    }

    /// True when `count` more bytes are available.
    pub open spec fn fits(&self, count: int) -> bool {
        self.pos() + count <= self.bytes().len()
    }

    /// The same reader moved on by `count` bytes.
    pub open spec fn advanced(&self, after: &Self, count: int) -> bool {
        after.bytes() == self.bytes() && after.pos() == self.pos() + count
    }

    /// True when the bytes ahead of the reader start with `s`.
    pub open spec fn expects(&self, s: Seq<u8>) -> bool {
        &&& self.fits(s.len() as int)
        &&& self.bytes().subrange(self.pos(), self.pos() + s.len()) == s
    }

    pub fn new(data: &'a [u8]) -> (reader: Self)
        ensures
            reader.bytes() == data@,
            reader.pos() == 0,
            reader.wf(),
    {
        Reader { data, position: 0 }
    }

    fn take(&mut self, count: usize) -> (result: Result<&'a [u8], StateError>)
        requires
            old(self).wf(),
        ensures
            final(self).wf(),
            match result {
                Ok(slice) => old(self).fits(count as int) && old(self).advanced(&*final(self), count as int)
                    && slice@ == old(self).bytes().subrange(old(self).pos(), old(self).pos() + count),
                Err(error) => !old(self).fits(count as int) && error is Truncated && *final(self)
                    == *old(self),
            },
    {
        if count > self.data.len() - self.position {
            return Err(StateError::Truncated);
        }
        let end = self.position + count;
        let slice = &self.data[self.position..end];
        self.position = end;
        Ok(slice)
    }

    pub fn u8(&mut self) -> (result: Result<u8, StateError>)
        requires
            old(self).wf(),
        ensures
            final(self).wf(),
            match result {
                Ok(v) => old(self).fits(1) && old(self).advanced(&*final(self), 1) && v == old(self).bytes()[old(self).pos()],
                Err(error) => !old(self).fits(1) && error is Truncated && *final(self) == *old(self),
            },
            forall|v: u8, rest: Seq<u8>| #[trigger]
                old(self).expects(seq![v] + rest) ==> result == Ok::<u8, StateError>(v) && final(self).expects(rest),
    {
        let ghost b = self.bytes();
        let ghost p = self.pos();
        let slice = self.take(1)?;
        let value = slice[0];
        proof {
            assert forall|v: u8, rest: Seq<u8>| #[trigger]
                old(self).expects(seq![v] + rest) implies value == v && self.expects(rest) by {
                lemma_expects_split(b, p, seq![v], rest);
                assert(b[p] == b.subrange(p, p + 1)[0]);
            }
        }
        Ok(value)
    }

    pub fn bool(&mut self) -> (result: Result<bool, StateError>)
        requires
            old(self).wf(),
        ensures
            final(self).wf(),
            match result {
                Ok(v) => old(self).fits(1) && old(self).advanced(&*final(self), 1) && v == (old(self).bytes()[old(self).pos()] != 0),
                Err(error) => !old(self).fits(1) && error is Truncated && *final(self) == *old(self),
            },
            forall|v: bool, rest: Seq<u8>| #[trigger]
                old(self).expects(seq![bool_byte(v)] + rest) ==> result == Ok::<bool, StateError>(v)
                    && final(self).expects(rest),
    {
        let ghost start = *self;
        let byte = self.u8()?;
        proof {
            assert forall|v: bool, rest: Seq<u8>| #[trigger]
                start.expects(seq![bool_byte(v)] + rest) implies (byte != 0) == v && self.expects(rest) by {
                assert(start.expects(seq![bool_byte(v)] + rest));
            }
        }
        Ok(byte != 0)
    }

    pub fn u16(&mut self) -> (result: Result<u16, StateError>)
        requires
            old(self).wf(),
        ensures
            final(self).wf(),
            match result {
                Ok(v) => old(self).fits(2) && old(self).advanced(&*final(self), 2) && v == from_le16(
                    old(self).bytes(),
                    old(self).pos(),
                ),
                Err(error) => !old(self).fits(2) && error is Truncated && *final(self) == *old(self),
            },
            forall|v: u16, rest: Seq<u8>| #[trigger]
                old(self).expects(le16(v) + rest) ==> result == Ok::<u16, StateError>(v) && final(self).expects(rest),
    {
        let ghost b = self.bytes();
        let ghost p = self.pos();
        let bytes = self.take(2)?;
        let value = (bytes[0] as u16) | ((bytes[1] as u16) << 8u16);
        proof {
            assert(value == from_le16(b, p));
            assert forall|v: u16, rest: Seq<u8>| #[trigger]
                old(self).expects(le16(v) + rest) implies value == v && self.expects(rest) by {
                lemma_expects_split(b, p, le16(v), rest);
                lemma_read16(b, p, v);
            }
        }
        Ok(value)
    }

    pub fn u32(&mut self) -> (result: Result<u32, StateError>)
        requires
            old(self).wf(),
        ensures
            final(self).wf(),
            match result {
                Ok(v) => old(self).fits(4) && old(self).advanced(&*final(self), 4) && v == from_le32(
                    old(self).bytes(),
                    old(self).pos(),
                ),
                Err(error) => !old(self).fits(4) && error is Truncated && *final(self) == *old(self),
            },
            forall|v: u32, rest: Seq<u8>| #[trigger]
                old(self).expects(le32(v) + rest) ==> result == Ok::<u32, StateError>(v) && final(self).expects(rest),
    {
        let ghost b = self.bytes();
        let ghost p = self.pos();
        let bytes = self.take(4)?;
        let value = (bytes[0] as u32) | ((bytes[1] as u32) << 8u32) | ((bytes[2] as u32) << 16u32)
            | ((bytes[3] as u32) << 24u32);
        proof {
            assert(value == from_le32(b, p));
            assert forall|v: u32, rest: Seq<u8>| #[trigger]
                old(self).expects(le32(v) + rest) implies value == v && self.expects(rest) by {
                lemma_expects_split(b, p, le32(v), rest);
                lemma_read32(b, p, v);
            }
        }
        Ok(value)
    }

    pub fn u64(&mut self) -> (result: Result<u64, StateError>)
        requires
            old(self).wf(),
        ensures
            final(self).wf(),
            match result {
                Ok(v) => old(self).fits(8) && old(self).advanced(&*final(self), 8) && v == from_le64(
                    old(self).bytes(),
                    old(self).pos(),
                ),
                Err(error) => !old(self).fits(8) && error is Truncated && *final(self) == *old(self),
            },
            forall|v: u64, rest: Seq<u8>| #[trigger]
                old(self).expects(le64(v) + rest) ==> result == Ok::<u64, StateError>(v) && final(self).expects(rest),
    {
        let ghost b = self.bytes();
        let ghost p = self.pos();
        let bytes = self.take(8)?;
        let low = (bytes[0] as u32) | ((bytes[1] as u32) << 8u32) | ((bytes[2] as u32) << 16u32) | ((
        bytes[3] as u32) << 24u32);
        let high = (bytes[4] as u32) | ((bytes[5] as u32) << 8u32) | ((bytes[6] as u32) << 16u32)
            | ((bytes[7] as u32) << 24u32);
        let value = (low as u64) | ((high as u64) << 32u64);
        proof {
            assert(value == from_le64(b, p));
            assert forall|v: u64, rest: Seq<u8>| #[trigger]
                old(self).expects(le64(v) + rest) implies value == v && self.expects(rest) by {
                lemma_expects_split(b, p, le64(v), rest);
                lemma_read64(b, p, v);
            }
        }
        Ok(value)
    }

    pub fn i32(&mut self) -> (result: Result<i32, StateError>)
        requires
            old(self).wf(),
        ensures
            final(self).wf(),
            match result {
                Ok(v) => old(self).fits(4) && old(self).advanced(&*final(self), 4) && v == from_le32(
                    old(self).bytes(),
                    old(self).pos(),
                ) as i32,
                Err(error) => !old(self).fits(4) && error is Truncated && *final(self) == *old(self),
            },
            forall|v: i32, rest: Seq<u8>| #[trigger]
                old(self).expects(le32(v as u32) + rest) ==> result == Ok::<i32, StateError>(v) && final(self).expects(rest),
    {
        let ghost start = *self;
        let value = self.u32()?;
        proof {
            assert forall|v: i32, rest: Seq<u8>| #[trigger]
                start.expects(le32(v as u32) + rest) implies value as i32 == v && self.expects(rest) by {
                assert(start.expects(le32(v as u32) + rest));
                lemma_signed_bits(v, 0);
            }
        }
        Ok(value as i32)
    }

    pub fn i16(&mut self) -> (result: Result<i16, StateError>)
        requires
            old(self).wf(),
        ensures
            final(self).wf(),
            match result {
                Ok(v) => old(self).fits(2) && old(self).advanced(&*final(self), 2) && v == from_le16(
                    old(self).bytes(),
                    old(self).pos(),
                ) as i16,
                Err(error) => !old(self).fits(2) && error is Truncated && *final(self) == *old(self),
            },
            forall|v: i16, rest: Seq<u8>| #[trigger]
                old(self).expects(le16(v as u16) + rest) ==> result == Ok::<i16, StateError>(v) && final(self).expects(rest),
    {
        let ghost start = *self;
        let value = self.u16()?;
        proof {
            assert forall|v: i16, rest: Seq<u8>| #[trigger]
                start.expects(le16(v as u16) + rest) implies value as i16 == v && self.expects(rest) by {
                assert(start.expects(le16(v as u16) + rest));
                lemma_signed_bits(0, v);
            }
        }
        Ok(value as i16)
    }

    pub fn usize(&mut self) -> (result: Result<usize, StateError>)
        requires
            old(self).wf(),
        ensures
            final(self).wf(),
            match result {
                Ok(v) => old(self).fits(4) && old(self).advanced(&*final(self), 4) && v as int
                    == from_le32(old(self).bytes(), old(self).pos()) as int,
                Err(error) => !old(self).fits(4) && error is Truncated && *final(self) == *old(self),
            },
            forall|v: usize, rest: Seq<u8>| #[trigger]
                old(self).expects(le32(v as u32) + rest) && v <= 0xffff_ffff ==> result == Ok::<usize, StateError>(v) && final(self).expects(rest),
    {
        let ghost start = *self;
        let value = self.u32()?;
        proof {
            assert forall|v: usize, rest: Seq<u8>| #[trigger]
                start.expects(le32(v as u32) + rest) && v <= 0xffff_ffff implies value as usize == v && self.expects(rest) by {
                assert(start.expects(le32(v as u32) + rest));
            }
        }
        Ok(value as usize)
    }

    /// A presence byte, then a halfword that only counts when present.
    pub fn option_u16(&mut self) -> (result: Result<Option<u16>, StateError>)
        requires
            old(self).wf(),
        ensures
            final(self).wf(),
            match result {
                Ok(v) => old(self).fits(3) && old(self).advanced(&*final(self), 3) && v == (if old(self).bytes()[old(self).pos()] != 0 {
                    Some(from_le16(old(self).bytes(), old(self).pos() + 1))
                } else {
                    None::<u16>
                }),
                Err(error) => !old(self).fits(3) && error is Truncated && (old(self).fits(1)
                    ==> old(self).advanced(&*final(self), 1)) && (!old(self).fits(1) ==> *final(self) == *old(self)),
            },
            forall|v: Option<u16>, rest: Seq<u8>| #[trigger]
                old(self).expects(option16_bytes(v) + rest) ==> result == Ok::<Option<u16>, StateError>(v) && final(self).expects(rest),
    {
        let ghost start = *self;
        proof {
            assert forall|v: Option<u16>, rest: Seq<u8>| #[trigger]
                start.expects(option16_bytes(v) + rest) implies start.expects(
                    seq![bool_byte(v is Some)] + (le16(
                        match v {
                            Some(x) => x,
                            None => 0u16,
                        },
                    ) + rest),
                ) by {
                let x = match v {
                    Some(x) => x,
                    None => 0u16,
                };
                assert(option16_bytes(v) + rest =~= seq![bool_byte(v is Some)] + (le16(x) + rest));
            }
        }
        let present = self.bool()?;
        let ghost middle = *self;
        let value = self.u16()?;
        proof {
            assert forall|v: Option<u16>, rest: Seq<u8>| #[trigger]
                start.expects(option16_bytes(v) + rest) implies (if present {
                    Some(value)
                } else {
                    None
                }) == v && self.expects(rest) by {
                let x = match v {
                    Some(x) => x,
                    None => 0u16,
                };
                assert(start.expects(seq![bool_byte(v is Some)] + (le16(x) + rest)));
                assert(middle.expects(le16(x) + rest));
            }
        }
        if present {
            Ok(Some(value))
        } else {
            Ok(None)
        }
    }

    /// Reads a length-prefixed block into an existing buffer, keeping its
    /// size: the common prefix is copied, anything beyond is left alone.
    pub fn into_bytes(&mut self, target: &mut [u8]) -> (result: Result<(), StateError>)
        requires
            old(self).wf(),
        ensures
            final(self).wf(),
            final(target)@.len() == old(target)@.len(),
            match result {
                Ok(_) => {
                    let n = from_le32(old(self).bytes(), old(self).pos()) as int;
                    let start = old(self).pos() + 4;
                    &&& old(self).fits(4 + n)
                    &&& old(self).advanced(&*final(self), 4 + n)
                    &&& forall|i: int|
                        0 <= i < old(target)@.len() ==> #[trigger] final(target)@[i] == if i < n {
                            old(self).bytes()[start + i]
                        } else {
                            old(target)@[i]
                        }
                },
                Err(error) => error is Truncated && final(target)@ == old(target)@ && (!old(self).fits(4) || !old(self).fits(4 + from_le32(old(self).bytes(), old(self).pos()))),
            },
            forall|block: Seq<u8>, rest: Seq<u8>| #[trigger]
                old(self).expects(block_bytes(block) + rest) && block.len() == old(target)@.len() && block.len() <= 0xffff_ffff
                    ==> result is Ok && final(target)@ == block && final(self).expects(rest),
    {
        let ghost start = *self;
        proof {
            assert forall|block: Seq<u8>, rest: Seq<u8>| #[trigger]
                start.expects(block_bytes(block) + rest) implies start.expects(le32(block.len() as u32) + (block + rest)) by {
                assert(block_bytes(block) + rest =~= le32(block.len() as u32) + (block + rest));
            }
        }
        let length = self.usize()?;
        let ghost middle = *self;
        let data = self.take(length)?;
        proof {
            assert forall|block: Seq<u8>, rest: Seq<u8>| #[trigger]
                start.expects(block_bytes(block) + rest) && block.len() == old(target)@.len() && block.len() <= 0xffff_ffff
                    implies data@ == block && self.expects(rest) && length == target@.len() by {
                assert(start.expects(le32(block.len() as u32) + (block + rest)));
                assert(middle.expects(block + rest));
                lemma_expects_split(middle.bytes(), middle.pos(), block, rest);
            }
        }
        let shared = if length < target.len() {
            length
        } else {
            target.len()
        };
        let mut index: usize = 0;
        while index < shared
            invariant
                shared <= target@.len(),
                shared <= data@.len(),
                index <= shared,
                target@.len() == old(target)@.len(),
                forall|i: int|
                    0 <= i < target@.len() ==> #[trigger] target@[i] == if i < index {
                        data@[i]
                    } else {
                        old(target)@[i]
                    },
            decreases shared - index,
        {
            target[index] = data[index];
            index = index + 1;
        }
        proof {
            assert forall|block: Seq<u8>, rest: Seq<u8>| #[trigger]
                start.expects(block_bytes(block) + rest) && block.len() == old(target)@.len() && block.len() <= 0xffff_ffff
                    implies target@ == block && self.expects(rest) by {
                assert(data@ == block);
                assert(target@ =~= block);
            }
        }
        Ok(())
    }

    /// Reads a length-prefixed block into a vector, resizing it to match.
    pub fn into_vec(&mut self, target: &mut Vec<u8>) -> (result: Result<(), StateError>)
        requires
            old(self).wf(),
        ensures
            final(self).wf(),
            match result {
                Ok(_) => {
                    let n = from_le32(old(self).bytes(), old(self).pos()) as int;
                    let start = old(self).pos() + 4;
                    &&& old(self).fits(4 + n)
                    &&& old(self).advanced(&*final(self), 4 + n)
                    &&& final(target)@ == old(self).bytes().subrange(start, start + n)
                },
                Err(error) => error is Truncated && final(target)@ == old(target)@ && (!old(self).fits(4) || !old(self).fits(4 + from_le32(old(self).bytes(), old(self).pos()))),
            },
            forall|block: Seq<u8>, rest: Seq<u8>| #[trigger]
                old(self).expects(block_bytes(block) + rest) && block.len() <= 0xffff_ffff
                    ==> result is Ok && final(target)@ == block && final(self).expects(rest),
    {
        let ghost start = *self;
        proof {
            assert forall|block: Seq<u8>, rest: Seq<u8>| #[trigger]
                start.expects(block_bytes(block) + rest) implies start.expects(le32(block.len() as u32) + (block + rest)) by {
                assert(block_bytes(block) + rest =~= le32(block.len() as u32) + (block + rest));
            }
        }
        let length = self.usize()?;
        let ghost middle = *self;
        let data = self.take(length)?;
        proof {
            assert forall|block: Seq<u8>, rest: Seq<u8>| #[trigger]
                start.expects(block_bytes(block) + rest) && block.len() <= 0xffff_ffff
                    implies data@ == block && self.expects(rest) by {
                assert(start.expects(le32(block.len() as u32) + (block + rest)));
                assert(middle.expects(block + rest));
                lemma_expects_split(middle.bytes(), middle.pos(), block, rest);
            }
        }
        target.clear();
        let mut index: usize = 0;
        while index < data.len()
            invariant
                index <= data@.len(),
                target@ == data@.subrange(0, index as int),
            decreases data@.len() - index,
        {
            target.push(data[index]);
            index = index + 1;
            assert(target@ =~= data@.subrange(0, index as int));
        }
        assert(data@.subrange(0, data@.len() as int) =~= data@);
        Ok(())
    }

    /// Reads `count` raw bytes, for the fixed-size magic.
    fn magic_matches(&mut self) -> (result: Result<bool, StateError>)
        requires
            old(self).wf(),
        ensures
            final(self).wf(),
            match result {
                Ok(matches) => old(self).fits(4) && old(self).advanced(&*final(self), 4) && matches
                    == (old(self).bytes().subrange(old(self).pos(), old(self).pos() + 4) == MAGIC@),
                Err(error) => !old(self).fits(4) && error is Truncated && *final(self) == *old(self),
            },
    {
        let bytes = self.take(4)?;
        let matches = bytes[0] == MAGIC[0] && bytes[1] == MAGIC[1] && bytes[2] == MAGIC[2]
            && bytes[3] == MAGIC[3];
        proof {
            if matches {
                assert(bytes@ =~= MAGIC@);
            } else {
                assert(bytes@ != MAGIC@) by {
                    if bytes@ == MAGIC@ {
                        assert(bytes@[0] == MAGIC@[0]);
                        assert(bytes@[1] == MAGIC@[1]);
                        assert(bytes@[2] == MAGIC@[2]);
                        assert(bytes@[3] == MAGIC@[3]);
                    }
                }
            }
        }
        Ok(matches)
    }
}

/// Every component that forms part of a save state.
pub trait Snapshot {
    fn save(&self, writer: &mut Writer);

    fn load(&mut self, reader: &mut Reader) -> (result: Result<(), StateError>)
        requires
            old(reader).wf(),
        ensures
            final(reader).wf(),
    ;
}

/// Starts a state: magic, format version and the game it belongs to.
pub fn write_header(writer: &mut Writer, game: u32)
    ensures
        final(writer).data@ == old(writer).data@ + header_bytes(game),
{
    writer.u8(MAGIC[0]);
    writer.u8(MAGIC[1]);
    writer.u8(MAGIC[2]);
    writer.u8(MAGIC[3]);
    writer.u32(VERSION);
    writer.u32(game);
    assert(writer.data@ =~= old(writer).data@ + header_bytes(game));
}

/// Checks a header: the magic first, then the version, then the game.
pub fn read_header(reader: &mut Reader, game: u32) -> (result: Result<(), StateError>)
    requires
        old(reader).wf(),
    ensures
        final(reader).wf(),
        ({
            let b = old(reader).bytes();
            let p = old(reader).pos();
            match result {
                Ok(_) => old(reader).fits(12) && b.subrange(p, p + 4) == MAGIC@ && from_le32(b, p + 4)
                    == VERSION && from_le32(b, p + 8) == game && old(reader).advanced(&*final(reader), 12),
                Err(StateError::Truncated) => !old(reader).fits(4) || (b.subrange(p, p + 4) == MAGIC@
                    && (!old(reader).fits(8) || (from_le32(b, p + 4) == VERSION && !old(reader).fits(
                    12)))),
                Err(StateError::NotAState) => old(reader).fits(4) && b.subrange(p, p + 4) != MAGIC@,
                Err(StateError::WrongVersion(found)) => old(reader).fits(8) && b.subrange(p, p + 4)
                    == MAGIC@ && found == from_le32(b, p + 4) && found != VERSION,
                Err(StateError::WrongGame) => old(reader).fits(12) && b.subrange(p, p + 4) == MAGIC@
                    && from_le32(b, p + 4) == VERSION && from_le32(b, p + 8) != game,
            }
        }),
        forall|rest: Seq<u8>| #[trigger]
            old(reader).expects(header_bytes(game) + rest) ==> result is Ok && final(reader).expects(rest),
{
    let ghost r0 = *reader;
    let result = check_header(reader, game);
    proof {
        assert forall|rest: Seq<u8>| #[trigger]
            r0.expects(header_bytes(game) + rest) implies result is Ok && reader.expects(rest) by {
            let b = r0.bytes();
            let p = r0.pos();
            lemma_expects_split(b, p, header_bytes(game), rest);
            lemma_header_fields(b, p, game);
        }
    }
    result
}

/// Bytes that hold a header hold its magic, version and game.
proof fn lemma_header_fields(b: Seq<u8>, p: int, game: u32)
    requires
        0 <= p,
        p + 12 <= b.len(),
        b.subrange(p, p + 12) == header_bytes(game),
    ensures
        b.subrange(p, p + 4) == MAGIC@,
        from_le32(b, p + 4) == VERSION,
        from_le32(b, p + 8) == game,
{
    lemma_expects_split(b, p, MAGIC@ + le32(VERSION), le32(game));
    lemma_expects_split(b, p, MAGIC@, le32(VERSION));
    lemma_read32(b, p + 4, VERSION);
    lemma_read32(b, p + 8, game);
}

fn check_header(reader: &mut Reader, game: u32) -> (result: Result<(), StateError>)
    requires
        old(reader).wf(),
    ensures
        final(reader).wf(),
        ({
            let b = old(reader).bytes();
            let p = old(reader).pos();
            match result {
                Ok(_) => old(reader).fits(12) && b.subrange(p, p + 4) == MAGIC@ && from_le32(b, p + 4)
                    == VERSION && from_le32(b, p + 8) == game && old(reader).advanced(&*final(reader), 12),
                Err(StateError::Truncated) => !old(reader).fits(4) || (b.subrange(p, p + 4) == MAGIC@
                    && (!old(reader).fits(8) || (from_le32(b, p + 4) == VERSION && !old(reader).fits(
                    12)))),
                Err(StateError::NotAState) => old(reader).fits(4) && b.subrange(p, p + 4) != MAGIC@,
                Err(StateError::WrongVersion(found)) => old(reader).fits(8) && b.subrange(p, p + 4)
                    == MAGIC@ && found == from_le32(b, p + 4) && found != VERSION,
                Err(StateError::WrongGame) => old(reader).fits(12) && b.subrange(p, p + 4) == MAGIC@
                    && from_le32(b, p + 4) == VERSION && from_le32(b, p + 8) != game,
            }
        }),
{
    let matches = reader.magic_matches()?;
    if !matches {
        return Err(StateError::NotAState);
    }
    let version = reader.u32()?;
    if version != VERSION {
        return Err(StateError::WrongVersion(version));
    }
    let stored = reader.u32()?;
    if stored != game {
        return Err(StateError::WrongGame);
    }
    Ok(())
}


/// A header written for a game is accepted for that game and refused for
/// any other.
pub proof fn law_header_identifies_the_game(game: u32, other: u32)
    ensures
        header_bytes(game).subrange(0, 4) == MAGIC@,
        from_le32(header_bytes(game), 4) == VERSION,
        from_le32(header_bytes(game), 8) == game,
        other != game ==> from_le32(header_bytes(game), 8) != other,
{
    let h = header_bytes(game);
    assert(h.subrange(0, 4) =~= MAGIC@);
    law_u32_round_trip(MAGIC@, VERSION);
    assert(h =~= (MAGIC@ + le32(VERSION)) + le32(game));
    law_u32_round_trip(MAGIC@ + le32(VERSION), game);
    assert(from_le32(h, 4) == from_le32(MAGIC@ + le32(VERSION), 4)) by {
        let p = MAGIC@ + le32(VERSION);
        assert(h[4] == p[4]);
        assert(h[5] == p[5]);
        assert(h[6] == p[6]);
        assert(h[7] == p[7]);
    }
}

} // verus!
