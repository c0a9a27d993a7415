//! What holds of the reader on every file: laws that relate the accessors
//! to each other and to the bytes they read.

use super::file::SENTINEL;
use super::parser::{DecodeFailure, ParseFDB};
use super::reader::{
    after_list, after_record, chain_state, chain_step, element_at, i64_at,
    lemma_exhausted_stays, lemma_list_stops, list_at, list_reads, record_at, row_addrs, text_at,
    FileError,
};
use super::source::{lemma_no_delimiter, run, Access, Stream};
use vstd::prelude::*;

verus! {

/// Decoding the bytes that a record encodes to gives the record back.
pub proof fn lemma_decode_inverts_encode<T: ParseFDB>(record: T)
    ensures
        record.encoded().len() == T::byte_count(),
        T::decoded(record.encoded()) == Ok::<T, DecodeFailure>(record),
{
    record.lemma_round_trip();
}

/// A record that was encoded into a file is read back from the address
/// where its bytes start, whatever stands before and behind them.
pub proof fn lemma_record_read_back<T: ParseFDB>(before: Seq<u8>, record: T, after: Seq<u8>)
    requires
        before.len() <= u64::MAX,
    ensures
        record_at::<T>(before + record.encoded() + after, before.len() as u64) == Ok::<
            T,
            FileError,
        >(record),
{
    record.lemma_round_trip();
    let bytes = before + record.encoded() + after;
    assert(bytes.subrange(before.len() as int, (before.len() + T::byte_count()) as int)
        =~= record.encoded());
}

/// Where a list can be read, every one of its records can: the bytes hold
/// all of them.
pub proof fn lemma_list_within<T: ParseFDB>(s: Stream, addr: u64, count: nat)
    requires
        list_at::<T>(s.bytes, addr, count) is Ok,
    ensures
        s.seek(addr).holds(T::byte_count(), count),
    decreases count,
{
    if count > 0 {
        let before = (count - 1) as nat;
        lemma_list_within::<T>(s, addr, before);
        assert(count * T::byte_count() == before * T::byte_count() + T::byte_count())
            by (nonlinear_arith)
            requires
                count == before + 1,
        ;
    }
}

/// Reading a list sets the cursor once and then asks for one record's
/// bytes at a time, never for more records than the list has. Where the
/// list can be read, as many bytes as its records take are consumed, and
/// the cursor stands behind them. A list of no records takes no read at
/// all, and is read as the empty list wherever it is said to stand.
pub proof fn lemma_list_access<T: ParseFDB>(s: Stream, addr: u64, count: nat)
    ensures
        after_list::<T>(s, addr, count).bytes == s.bytes,
        after_list::<T>(s, addr, count).accesses == s.accesses.push(Access::Seek(addr))
            + Seq::new(
            list_reads::<T>(s.bytes, addr, count),
            |i: int| Access::ReadExact(T::byte_count()),
        ),
        list_reads::<T>(s.bytes, addr, count) <= count,
        list_at::<T>(s.bytes, addr, count) is Ok ==> {
            &&& list_reads::<T>(s.bytes, addr, count) == count
            &&& after_list::<T>(s, addr, count).position == addr + count * T::byte_count()
        },
        count == 0 ==> {
            &&& list_at::<T>(s.bytes, addr, count) == Ok::<Seq<T>, FileError>(Seq::empty())
            &&& after_list::<T>(s, addr, count) == s.seek(addr)
        },
{
    lemma_list_reads_bounded::<T>(s.bytes, addr, count);
}

/// No more records are asked for than a list has.
pub proof fn lemma_list_reads_bounded<T: ParseFDB>(bytes: Seq<u8>, addr: u64, count: nat)
    ensures
        list_reads::<T>(bytes, addr, count) <= count,
    decreases count,
{
    if count > 0 {
        lemma_list_reads_bounded::<T>(bytes, addr, (count - 1) as nat);
    }
}

/// A decoding failure in a list is reported with the address of the list
/// and with the distance from there to where decoding stopped: the width
/// of the records before the failing one, and the decoder's own offset.
pub proof fn lemma_list_failure_located<T: ParseFDB>(
    bytes: Seq<u8>,
    addr: u64,
    count: nat,
    index: nat,
    failure: DecodeFailure,
)
    requires
        index < count,
        list_at::<T>(bytes, addr, index) is Ok,
        T::byte_count() == 0 || addr + (index + 1) * T::byte_count() <= bytes.len(),
        T::decoded(run(bytes, (addr + index * T::byte_count()) as nat, T::byte_count())) == Err::<
            T,
            DecodeFailure,
        >(failure),
    ensures
        list_at::<T>(bytes, addr, count) == Err::<Seq<T>, FileError>(
            FileError::Parse {
                addr,
                offset: (index * T::byte_count() + failure.offset) as usize,
                code: failure.code,
            },
        ),
{
    assert((index + 1) * T::byte_count() == index * T::byte_count() + T::byte_count())
        by (nonlinear_arith);
    let done = list_at::<T>(bytes, addr, index)->Ok_0;
    lemma_list_elements::<T>(bytes, addr, index);
    lemma_list_stops::<T>(
        bytes,
        addr,
        done,
        FileError::Parse {
            addr,
            offset: (index * T::byte_count() + failure.offset) as usize,
            code: failure.code,
        },
        count,
    );
}

/// A list that can be read has as many records as were asked for, and the
/// record with the number `i` is the one that stands `i` records behind
/// the address of the list.
pub proof fn lemma_list_elements<T: ParseFDB>(bytes: Seq<u8>, addr: u64, count: nat)
    requires
        list_at::<T>(bytes, addr, count) is Ok,
    ensures
        list_at::<T>(bytes, addr, count)->Ok_0.len() == count,
        forall|i: int|
            0 <= i < count ==> #[trigger] element_at::<T>(bytes, addr, i as nat) == Ok::<
                T,
                FileError,
            >(list_at::<T>(bytes, addr, count)->Ok_0[i]),
    decreases count,
{
    if count > 0 {
        lemma_list_elements::<T>(bytes, addr, (count - 1) as nat);
    }
}

/// Reading a text consumes the text and the zero byte that ends it, and
/// no more; the text itself holds no zero byte. Where no zero byte
/// follows the address there is no text.
pub proof fn lemma_text_access(s: Stream, addr: u64)
    ensures
        s.seek(addr).read_until(0).bytes == s.bytes,
        match text_at(s.bytes, addr) {
            Some(raw) => {
                &&& addr + raw.len() < s.bytes.len()
                &&& raw == s.bytes.subrange(addr as int, addr + raw.len())
                &&& forall|i: int| 0 <= i < raw.len() ==> raw[i] != 0
                &&& s.bytes[addr + raw.len()] == 0
                &&& s.seek(addr).read_until(0).position == addr + raw.len() + 1
            },
            None => forall|j: int| addr <= j < s.bytes.len() ==> s.bytes[j] != 0,
        },
{
    lemma_no_delimiter(s.bytes, addr as nat, 0);
}

/// An accessor leaves the bytes of the source as they were, so the same
/// call made again gives the same result.
pub proof fn lemma_reads_repeat<T: ParseFDB>(s: Stream, addr: u64, count: nat)
    ensures
        record_at::<T>(after_record::<T>(s, addr).bytes, addr) == record_at::<T>(s.bytes, addr),
        list_at::<T>(after_list::<T>(s, addr, count).bytes, addr, count) == list_at::<T>(
            s.bytes,
            addr,
            count,
        ),
        i64_at(s.seek(addr).read_exact(8).bytes, addr) == i64_at(s.bytes, addr),
        text_at(s.seek(addr).read_until(0).bytes, addr) == text_at(s.bytes, addr),
{
}

/// A walk yields at most one item for each step.
pub proof fn lemma_row_addrs_len(bytes: Seq<u8>, next_addr: u32, limit: nat)
    ensures
        row_addrs(bytes, next_addr, limit).len() <= limit,
    decreases limit,
{
    if limit > 0 {
        lemma_row_addrs_len(bytes, chain_step(bytes, next_addr).1, (limit - 1) as nat);
    }
}

/// A walk that yields fewer items than it was given steps is over, and an
/// error is the last item that a walk yields: behind it the walk is over.
pub proof fn lemma_error_ends_walk(bytes: Seq<u8>, next_addr: u32, limit: nat, index: int)
    requires
        0 <= index < row_addrs(bytes, next_addr, limit).len(),
        row_addrs(bytes, next_addr, limit)[index] is Err,
    ensures
        index == row_addrs(bytes, next_addr, limit).len() - 1,
        chain_state(bytes, next_addr, limit) == SENTINEL,
    decreases limit,
{
    let behind = chain_step(bytes, next_addr).1;
    if index == 0 {
        lemma_exhausted_stays(bytes, (limit - 1) as nat);
    } else {
        lemma_error_ends_walk(bytes, behind, (limit - 1) as nat, index - 1);
    }
}

/// The items of a walk are the rows of the chain in order: the walk of one
/// more step yields what the shorter walk yields, and behind it what one
/// step from the shorter walk's end yields.
pub proof fn lemma_walk_extends(bytes: Seq<u8>, next_addr: u32, limit: nat)
    ensures
        row_addrs(bytes, next_addr, limit + 1) == row_addrs(bytes, next_addr, limit) + row_addrs(
            bytes,
            chain_state(bytes, next_addr, limit),
            1,
        ),
        chain_state(bytes, next_addr, limit + 1) == chain_step(
            bytes,
            chain_state(bytes, next_addr, limit),
        ).1,
    decreases limit,
{
    let behind = chain_step(bytes, next_addr).1;
    if limit == 0 {
        assert(chain_state(bytes, behind, 0) == behind);
    } else {
        lemma_walk_extends(bytes, behind, (limit - 1) as nat);
        if chain_step(bytes, next_addr).0 is None {
            lemma_exhausted_stays(bytes, limit);
            lemma_exhausted_stays(bytes, (limit - 1) as nat);
        }
    }
}

} // verus!
