//! Decoding and encoding of fixed-width records: the little-endian fields
//! they are made of, and the interface that every record type offers.

use vstd::prelude::*;

verus! {

/// What kind of mismatch stopped a decoder.
#[derive(Debug, Clone, Copy, PartialEq, Eq, Structural)]
pub enum ErrorKind {
    /// The bytes ended before the field that was to be decoded.
    Eof,
    /// A mismatch that a decoder outside this crate tells apart by number.
    Custom(u32),
}

/// A decoder's report of where in its input it stopped, and why.
#[derive(Debug, Clone, Copy, PartialEq, Eq, Structural)]
pub struct DecodeFailure {
    /// How many bytes of the input had been accepted.
    pub offset: usize,
    /// The kind of mismatch.
    pub code: ErrorKind,
}

/// The number that the four bytes at `at` stand for, lowest byte first.
pub open spec fn le_u32(bytes: Seq<u8>, at: int) -> u32
    recommends
        0 <= at,
        at + 4 <= bytes.len(),
{
    (bytes[at] + bytes[at + 1] * 0x100 + bytes[at + 2] * 0x1_0000 + bytes[at + 3] * 0x100_0000) as u32
}

/// The four bytes that stand for `value`, lowest byte first.
pub open spec fn u32_le_bytes(value: u32) -> Seq<u8> {
    seq![
        (value % 0x100) as u8,
        (value / 0x100 % 0x100) as u8,
        (value / 0x1_0000 % 0x100) as u8,
        (value / 0x100_0000) as u8,
    ]
}

/// The number that the eight bytes at `at` stand for, lowest byte first, as
/// an unsigned number.
pub open spec fn le_u64(bytes: Seq<u8>, at: int) -> int
    recommends
        0 <= at,
        at + 8 <= bytes.len(),
{
    le_u32(bytes, at) + le_u32(bytes, at + 4) * 0x1_0000_0000
}

/// The number that the eight bytes at `at` stand for, lowest byte first, in
/// two's complement.
pub open spec fn le_i64(bytes: Seq<u8>, at: int) -> i64
    recommends
        0 <= at,
        at + 8 <= bytes.len(),
{
    if le_u64(bytes, at) < 0x8000_0000_0000_0000 {
        le_u64(bytes, at) as i64
    } else {
        (le_u64(bytes, at) - 0x1_0000_0000_0000_0000) as i64
    }
}

/// The failure of a decoder of four-byte fields on an input of `len` bytes
/// that is too short: it stops before the first field that is not whole.
pub open spec fn short_input(len: nat) -> DecodeFailure {
    DecodeFailure { offset: (len / 4 * 4) as usize, code: ErrorKind::Eof }
}

/// Decoding the bytes of a number gives the number back, also where the
/// bytes stand in the middle of others.
pub proof fn lemma_u32_round_trip(before: Seq<u8>, value: u32, after: Seq<u8>)
    ensures
        u32_le_bytes(value).len() == 4,
        le_u32(before + u32_le_bytes(value) + after, before.len() as int) == value,
{
}

/// Reads the number at `at`.
pub fn read_le_u32(input: &[u8], at: usize) -> (value: u32)
    requires
        at + 4 <= input@.len(),
    ensures
        value == le_u32(input@, at as int),
{
    (input[at] as u32) + (input[at + 1] as u32) * 0x100 + (input[at + 2] as u32) * 0x1_0000 + (
    input[at + 3] as u32) * 0x100_0000
}

/// Reads the signed number at `at`.
pub fn read_le_i64(input: &[u8], at: usize) -> (value: i64)
    requires
        at + 8 <= input@.len(),
    ensures
        value == le_i64(input@, at as int),
{
    assert(input@.len() == input.len());
    let low = read_le_u32(input, at) as u64;
    let high = read_le_u32(input, at + 4) as u64;
    let unsigned: u64 = low + high * 0x1_0000_0000;
    if unsigned < 0x8000_0000_0000_0000 {
        unsigned as i64
    } else {
        ((unsigned - 0x8000_0000_0000_0000) as i64) + i64::MIN
    }
}

/// Appends the four bytes of `value` to `out`.
pub fn write_le_u32(out: &mut Vec<u8>, value: u32)
    ensures
        final(out)@ == old(out)@ + u32_le_bytes(value),
{
    out.push((value % 0x100) as u8);
    out.push((value / 0x100 % 0x100) as u8);
    out.push((value / 0x1_0000 % 0x100) as u8);
    out.push((value / 0x100_0000) as u8);
}

/// The failure that a decoder of four-byte fields reports on an input of
/// `len` bytes that is too short.
pub fn stop_short(len: usize) -> (failure: DecodeFailure)
    ensures
        failure == short_input(len as nat),
        failure.offset <= len,
{
    DecodeFailure { offset: len / 4 * 4, code: ErrorKind::Eof }
}

/// A record of fixed width that can be decoded from bytes and encoded to
/// them.
pub trait ParseFDB: Sized {
    /// The number of bytes that one record takes.
    spec fn byte_count() -> nat;

    /// What decoding `bytes` gives: the record that their first
    /// `byte_count()` bytes hold, or where and why decoding stopped.
    spec fn decoded(bytes: Seq<u8>) -> Result<Self, DecodeFailure>;

    /// The bytes that stand for the record.
    spec fn encoded(&self) -> Seq<u8>;

    /// The number of bytes that one record takes.
    fn width() -> (n: usize)
        ensures
            n == Self::byte_count(),
    ;

    /// Decodes one record from the start of `input`. A failure lies within
    /// the input.
    fn parse(input: &[u8]) -> (r: Result<Self, DecodeFailure>)
        ensures
            r == Self::decoded(input@),
            r matches Err(failure) ==> failure.offset <= input@.len(),
    ;

    /// Encodes the record.
    fn to_bytes(&self) -> (bytes: Vec<u8>)
        ensures
            bytes@ == self.encoded(),
    ;

    /// A record's encoding has the record's width, and decoding it gives
    /// the record back.
    proof fn lemma_round_trip(&self)
        ensures
            self.encoded().len() == Self::byte_count(),
            Self::decoded(self.encoded()) == Ok::<Self, DecodeFailure>(*self),
    ;
}

} // verus!
