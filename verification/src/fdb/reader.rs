//! The reader: accessors that take an address, position a byte source and
//! decode what stands there.

use super::file::{
    FDBBucketHeader, FDBColumnHeader, FDBFieldData, FDBHeader, FDBRowHeader,
    FDBRowHeaderListEntry, FDBTableDataHeader, FDBTableDefHeader, FDBTableHeader, SENTINEL,
};
use super::parser::{le_i64, read_le_i64, DecodeFailure, ErrorKind, ParseFDB};
use super::source::{
    first_delimiter, lemma_holds_each, lemma_no_delimiter, run, ByteSource, IoError, Stream,
};
use vstd::prelude::*;

verus! {

/// Why an accessor did not return a value.
#[derive(Debug, Clone, Copy, PartialEq, Eq, Structural)]
pub enum FileError {
    /// The byte source could not hand out the bytes.
    Read(IoError),
    /// The bytes did not have the shape of the record.
    Parse {
        /// The address that the accessor was given.
        addr: u64,
        /// How far behind that address decoding stopped.
        offset: usize,
        /// The decoder's own account of the mismatch.
        code: ErrorKind,
    },
}

/// What an accessor returns.
pub type FileResult<T> = Result<T, FileError>;

/// The error for a decoder's failure on a record that starts `base` bytes
/// behind `addr`.
pub open spec fn located(addr: u64, base: nat, failure: DecodeFailure) -> FileError {
    FileError::Parse { addr, offset: (base + failure.offset) as usize, code: failure.code }
}

/// Turns a decoder's failure on a record that starts `base` bytes behind
/// `addr` into an error that says where in the file decoding stopped.
pub fn locate(addr: u64, base: usize, failure: DecodeFailure) -> (e: FileError)
    requires
        base + failure.offset <= usize::MAX,
    ensures
        e == located(addr, base as nat, failure),
{
    FileError::Parse { addr, offset: base + failure.offset, code: failure.code }
}

/// Whether `out` is a result that `parser` can give for an input that holds
/// `window`.
pub open spec fn may_give<T, F: Fn(&[u8]) -> Result<T, DecodeFailure>>(
    parser: F,
    window: Seq<u8>,
    out: Result<T, DecodeFailure>,
) -> bool {
    exists|input: &[u8]| input@ == window && #[trigger] call_ensures(parser, (input,), out)
}

/// Reads the record at `addr`: sets the cursor there, fills `buf` and hands
/// its bytes to `parser`. As many bytes are read as `buf` holds; where that
/// is less than the record takes, the parser's failure comes back located.
pub fn parse_at<T, F: Fn(&[u8]) -> Result<T, DecodeFailure>>(
    reader: &mut ByteSource,
    addr: u64,
    buf: &mut Vec<u8>,
    parser: F,
) -> (r: FileResult<T>)
    requires
        forall|input: &[u8]| input@.len() == old(buf)@.len() ==> call_requires(parser, (input,)),
    ensures
        final(reader)@ == old(reader)@.seek(addr).read_exact(old(buf)@.len()),
        match r {
            Ok(value) => {
                &&& old(reader)@.seek(addr).readable(old(buf)@.len())
                &&& final(buf)@ == old(reader)@.seek(addr).window(old(buf)@.len())
                &&& may_give(parser, final(buf)@, Ok(value))
            },
            Err(FileError::Read(e)) => {
                &&& !old(reader)@.seek(addr).readable(old(buf)@.len())
                &&& e == IoError::UnexpectedEof
                &&& final(buf)@ == old(buf)@
            },
            Err(FileError::Parse { addr: a, offset, code }) => {
                &&& old(reader)@.seek(addr).readable(old(buf)@.len())
                &&& final(buf)@ == old(reader)@.seek(addr).window(old(buf)@.len())
                &&& a == addr
                &&& may_give(parser, final(buf)@, Err(DecodeFailure { offset, code }))
            },
        },
{
    reader.seek(addr);
    match reader.read_exact(buf) {
        Err(e) => {
            return Err(FileError::Read(e));
        },
        Ok(_) => {},
    }
    match parser(buf.as_slice()) {
        Ok(value) => Ok(value),
        Err(failure) => Err(locate(addr, 0, failure)),
    }
}

/// Whether `items` are what `parser` can give for the first runs of `n`
/// bytes each from the cursor of `s` on, one item for each run in order.
pub open spec fn decodes_all<T, F: Fn(&[u8]) -> Result<T, DecodeFailure>>(
    parser: F,
    s: Stream,
    n: nat,
    items: Seq<T>,
) -> bool {
    &&& s.holds(n, items.len())
    &&& forall|i: int|
        0 <= i < items.len() ==> may_give(parser, s.element(n, i as nat), Ok(#[trigger] items[i]))
}

/// Whether `e` is an error that reading the run with the number `index`
/// can end in: the bytes do not hold the run, or `parser` stops in it.
pub open spec fn fails_at<T, F: Fn(&[u8]) -> Result<T, DecodeFailure>>(
    parser: F,
    s: Stream,
    n: nat,
    addr: u64,
    index: nat,
    e: FileError,
) -> bool {
    match e {
        FileError::Read(cause) => cause == IoError::UnexpectedEof && !s.holds(n, index + 1),
        FileError::Parse { addr: a, offset, code } => {
            &&& s.holds(n, index + 1)
            &&& a == addr
            &&& offset >= index * n
            &&& may_give::<T, F>(
                parser,
                s.element(n, index),
                Err(DecodeFailure { offset: (offset - index * n) as usize, code }),
            )
        },
    }
}

/// Reads `count` records of `width` bytes each that stand one behind the
/// other from `addr` on: sets the cursor once, then for each record reads
/// its bytes and hands them to `parser`. The first record that cannot be
/// read or decoded ends the call; what was decoded before it is dropped.
pub fn parse_list_with<T, F: Fn(&[u8]) -> Result<T, DecodeFailure>>(
    reader: &mut ByteSource,
    addr: u64,
    count: u32,
    width: usize,
    parser: F,
) -> (r: FileResult<Vec<T>>)
    requires
        forall|input: &[u8]| input@.len() == width ==> call_requires(parser, (input,)),
        forall|input: &[u8], failure: DecodeFailure|
            call_ensures(parser, (input,), Err(failure)) ==> failure.offset <= input@.len(),
    ensures
        match r {
            Ok(list) => {
                &&& list@.len() == count
                &&& decodes_all(parser, old(reader)@.seek(addr), width as nat, list@)
                &&& final(reader)@ == old(reader)@.after_reads(
                    addr,
                    width as nat,
                    count as nat,
                    true,
                )
            },
            Err(e) => exists|done: Seq<T>|
                {
                    &&& #[trigger] decodes_all(parser, old(reader)@.seek(addr), width as nat, done)
                    &&& done.len() < count
                    &&& fails_at::<T, F>(
                        parser,
                        old(reader)@.seek(addr),
                        width as nat,
                        addr,
                        done.len(),
                        e,
                    )
                    &&& final(reader)@ == old(reader)@.after_reads(
                        addr,
                        width as nat,
                        done.len() + 1,
                        !(e is Read),
                    )
                },
        },
{
    reader.seek(addr);
    let ghost s = reader@;
    let mut buf: Vec<u8> = vec![0u8; width];
    let mut list: Vec<T> = Vec::new();
    let mut offset: usize = 0;
    let mut i: u32 = 0;
    while i < count
        invariant
            i <= count,
            buf@.len() == width,
            s == old(reader)@.seek(addr),
            list@.len() == i,
            offset == i * width,
            reader@ == old(reader)@.after_reads(addr, width as nat, i as nat, true),
            decodes_all(parser, s, width as nat, list@),
            forall|input: &[u8]| input@.len() == width ==> call_requires(parser, (input,)),
            forall|input: &[u8], failure: DecodeFailure|
                call_ensures(parser, (input,), Err(failure)) ==> failure.offset <= input@.len(),
        decreases count - i,
    {
        let ghost before = reader@;
        proof {
            reader.lemma_len_fits();
            assert((i + 1) * width == i * width + width) by (nonlinear_arith);
            assert(0 <= i * width) by (nonlinear_arith);
            assert(before.read_exact(width as nat).accesses =~= old(reader)@.after_reads(
                addr,
                width as nat,
                (i + 1) as nat,
                true,
            ).accesses);
        }
        match reader.read_exact(&mut buf) {
            Err(e) => {
                return Err(FileError::Read(e));
            },
            Ok(_) => {},
        }
        match parser(buf.as_slice()) {
            Err(failure) => {
                let e = locate(addr, offset, failure);
                return Err(e);
            },
            Ok(value) => {
                list.push(value);
            },
        }
        offset += width;
        i += 1;
    }
    Ok(list)
}

/// A buffer for one record of type `T`: as many bytes as the record takes,
/// all of them zero.
pub fn bytes<T: ParseFDB>() -> (buf: Vec<u8>)
    ensures
        buf@ == Seq::new(T::byte_count(), |i: int| 0u8),
{
    let buf = vec![0u8; T::width()];
    buf
}

/// What reading the record with the number `index` of a list at `addr`
/// gives: an I/O failure where the bytes end before the record does, else
/// the record, or where in the list its decoding stopped.
pub open spec fn element_at<T: ParseFDB>(bytes: Seq<u8>, addr: u64, index: nat) -> FileResult<T> {
    let start = addr + index * T::byte_count();
    if T::byte_count() != 0 && start + T::byte_count() > bytes.len() {
        Err(FileError::Read(IoError::UnexpectedEof))
    } else {
        match T::decoded(run(bytes, start as nat, T::byte_count())) {
            Ok(value) => Ok(value),
            Err(failure) => Err(located(addr, index * T::byte_count(), failure)),
        }
    }
}

/// What reading the record at `addr` gives.
pub open spec fn record_at<T: ParseFDB>(bytes: Seq<u8>, addr: u64) -> FileResult<T> {
    element_at::<T>(bytes, addr, 0)
}

/// What reading a list of `count` records at `addr` gives: the records in
/// order, or the error of the first of them that cannot be read.
pub open spec fn list_at<T: ParseFDB>(bytes: Seq<u8>, addr: u64, count: nat) -> FileResult<Seq<T>>
    decreases count,
{
    if count == 0 {
        Ok(Seq::empty())
    } else {
        match list_at::<T>(bytes, addr, (count - 1) as nat) {
            Err(e) => Err(e),
            Ok(front) => match element_at::<T>(bytes, addr, (count - 1) as nat) {
                Err(e) => Err(e),
                Ok(last) => Ok(front.push(last)),
            },
        }
    }
}

/// How many records reading a list of `count` records at `addr` asks the
/// byte source for: all of them, or those up to and including the first
/// that cannot be read.
pub open spec fn list_reads<T: ParseFDB>(bytes: Seq<u8>, addr: u64, count: nat) -> nat
    decreases count,
{
    if count == 0 {
        0
    } else if list_at::<T>(bytes, addr, (count - 1) as nat) is Err {
        list_reads::<T>(bytes, addr, (count - 1) as nat)
    } else {
        count
    }
}

/// The stream after a record of type `T` was read at `addr`: one seek, one
/// read.
pub open spec fn after_record<T: ParseFDB>(s: Stream, addr: u64) -> Stream {
    s.seek(addr).read_exact(T::byte_count())
}

/// The stream after a list of `count` records of type `T` was read at
/// `addr`: one seek, then one read for each record that was asked for.
/// The cursor stands behind the last record that was read, or, where the
/// bytes ended before a record did, at their end.
pub open spec fn after_list<T: ParseFDB>(s: Stream, addr: u64, count: nat) -> Stream {
    s.after_reads(
        addr,
        T::byte_count(),
        list_reads::<T>(s.bytes, addr, count),
        !(list_at::<T>(s.bytes, addr, count) matches Err(FileError::Read(_))),
    )
}

/// A list as a contract sees it.
pub open spec fn viewed<T>(r: FileResult<Vec<T>>) -> FileResult<Seq<T>> {
    match r {
        Ok(list) => Ok(list@),
        Err(e) => Err(e),
    }
}

/// Where every record of a list can be read, the list is those records,
/// and each was asked for once.
pub proof fn lemma_list_reads_all<T: ParseFDB>(bytes: Seq<u8>, addr: u64, items: Seq<T>)
    requires
        forall|i: int|
            0 <= i < items.len() ==> element_at::<T>(bytes, addr, i as nat) == Ok::<T, FileError>(
                #[trigger] items[i],
            ),
    ensures
        list_at::<T>(bytes, addr, items.len()) == Ok::<Seq<T>, FileError>(items),
        list_reads::<T>(bytes, addr, items.len()) == items.len(),
    decreases items.len(),
{
    if items.len() > 0 {
        lemma_list_reads_all::<T>(bytes, addr, items.drop_last());
        assert(items.drop_last().push(items.last()) =~= items);
    } else {
        assert(items =~= Seq::empty());
    }
}

/// Where the records before the one with the number `done.len()` can be
/// read and that one cannot, every longer list fails with its error, and
/// no record behind it is asked for.
pub proof fn lemma_list_stops<T: ParseFDB>(
    bytes: Seq<u8>,
    addr: u64,
    done: Seq<T>,
    e: FileError,
    count: nat,
)
    requires
        list_at::<T>(bytes, addr, done.len()) == Ok::<Seq<T>, FileError>(done),
        element_at::<T>(bytes, addr, done.len()) == Err::<T, FileError>(e),
        done.len() < count,
    ensures
        list_at::<T>(bytes, addr, count) == Err::<Seq<T>, FileError>(e),
        list_reads::<T>(bytes, addr, count) == done.len() + 1,
    decreases count,
{
    if count > done.len() + 1 {
        lemma_list_stops::<T>(bytes, addr, done, e, (count - 1) as nat);
    }
}

/// Reads the list of `count` records of type `T` that stands at `addr`.
/// The cursor is set once; the records are then read one behind the other.
pub fn parse_list_at<T: ParseFDB>(reader: &mut ByteSource, addr: u64, count: u32) -> (r: FileResult<
    Vec<T>,
>)
    ensures
        viewed(r) == list_at::<T>(old(reader)@.bytes, addr, count as nat),
        final(reader)@ == after_list::<T>(old(reader)@, addr, count as nat),
{
    let r = parse_list_with(reader, addr, count, T::width(), T::parse);
    proof {
        let s = old(reader)@.seek(addr);
        let width = T::byte_count();
        assert forall|window: Seq<u8>, out: Result<T, DecodeFailure>|
            may_give(T::parse, window, out) implies out == T::decoded(window) by {
            let input = choose|input: &[u8]|
                input@ == window && #[trigger] call_ensures(T::parse, (input,), out);
        }
        match &r {
            Ok(list) => {
                assert forall|i: int| 0 <= i < list@.len() implies element_at::<T>(
                    s.bytes,
                    addr,
                    i as nat,
                ) == Ok::<T, FileError>(#[trigger] list@[i]) by {
                    lemma_holds_each(s, width, list@.len(), i as nat);
                }
                lemma_list_reads_all::<T>(s.bytes, addr, list@);
            },
            Err(e) => {
                let done = choose|done: Seq<T>|
                    {
                        &&& #[trigger] decodes_all(T::parse, s, width, done)
                        &&& done.len() < count
                        &&& fails_at::<T, _>(T::parse, s, width, addr, done.len(), *e)
                        &&& final(reader)@ == old(reader)@.after_reads(
                            addr,
                            width,
                            done.len() + 1,
                            !(*e is Read),
                        )
                    };
                assert forall|i: int| 0 <= i < done.len() implies element_at::<T>(
                    s.bytes,
                    addr,
                    i as nat,
                ) == Ok::<T, FileError>(#[trigger] done[i]) by {
                    lemma_holds_each(s, width, done.len(), i as nat);
                }
                lemma_list_reads_all::<T>(s.bytes, addr, done);
                assert(0 <= done.len() * width) by (nonlinear_arith);
                assert((done.len() + 1) * width == done.len() * width + width)
                    by (nonlinear_arith);
                lemma_list_stops::<T>(s.bytes, addr, done, *e, count as nat);
            },
        }
    }
    r
}

/// What reading the signed 64-bit number at `addr` gives.
pub open spec fn i64_at(bytes: Seq<u8>, addr: u64) -> Result<i64, IoError> {
    if addr + 8 > bytes.len() {
        Err(IoError::UnexpectedEof)
    } else {
        Ok(le_i64(run(bytes, addr as nat, 8), 0))
    }
}

/// The bytes of the text at `addr`: those from `addr` up to the first zero
/// byte, which is not one of them. There is no text where no zero byte
/// follows.
pub open spec fn text_at(bytes: Seq<u8>, addr: u64) -> Option<Seq<u8>> {
    match first_delimiter(bytes, addr as nat, 0) {
        Some(at) => Some(bytes.subrange(addr as int, at as int)),
        None => None,
    }
}

/// The longest text that can be decoded: the decoder asks for several
/// bytes of memory for each byte of text.
pub open spec fn max_text_len() -> nat {
    (usize::MAX / 16) as nat
}

/// Whether every one of `bytes` is below 0x80.
pub open spec fn is_ascii(bytes: Seq<u8>) -> bool {
    forall|i: int| 0 <= i < bytes.len() ==> bytes[i] < 0x80
}

/// The characters with the numbers that `bytes` hold.
pub open spec fn ascii_text(bytes: Seq<u8>) -> Seq<char> {
    Seq::new(bytes.len(), |i: int| bytes[i] as char)
}

/// The text that `encoding_rs` makes of `bytes` when it decodes them as
/// Windows-1252: one character for each byte, unless the bytes start with
/// a byte order mark, which makes it decode the rest as UTF-8 or UTF-16.
pub uninterp spec fn windows_1252_text(bytes: Seq<u8>) -> Seq<char>;

/// Decodes `bytes` with `Encoding::decode` of `encoding_rs`, called on
/// `WINDOWS_1252`; the text it returns is `windows_1252_text`. Bytes below
/// 0x80 alone come back as the characters with their numbers: the decoder
/// then hands out its input as it is. The length is bounded because the
/// decoder panics where the size of its output buffer, a small multiple of
/// the input's length, does not fit the machine.
#[verifier::external_body]
fn decode_windows_1252(bytes: &[u8]) -> (text: String)
    requires
        bytes@.len() <= max_text_len(),
    ensures
        text@ == windows_1252_text(bytes@),
        is_ascii(bytes@) ==> text@ == ascii_text(bytes@),
{
    let (decoded, _, _) = encoding_rs::WINDOWS_1252.decode(bytes);
    decoded.into_owned()
}

/// The walk along one bucket's chain of rows: `next_addr` is the address
/// of the entry that the next step reads, or the sentinel when the walk
/// is over.
///
/// The walk trusts the file: on a chain that leads back into itself it
/// never ends. `take` bounds the number of steps.
pub struct FDBRowHeaderAddrIterator<'a, T: ?Sized> {
    pub next_addr: u32,
    pub file: &'a mut T,
}

/// A reader of FDB files: the accessors for the headers, lists and rows of
/// a file, each of which reads at an address that an earlier one returned.
pub trait DatabaseReader: Sized {
    /// The byte source that the reader reads from, as contracts see it.
    spec fn stream(&self) -> Stream;

    /// Reads the header of the file, which stands at its start.
    fn get_header(&mut self) -> (r: FileResult<FDBHeader>)
        ensures
            r == record_at::<FDBHeader>(old(self).stream().bytes, 0),
            final(self).stream() == after_record::<FDBHeader>(old(self).stream(), 0),
    ;

    /// Reads the list of table headers that `header` points to.
    fn get_table_header_list(&mut self, header: FDBHeader) -> (r: FileResult<Vec<FDBTableHeader>>)
        ensures
            viewed(r) == list_at::<FDBTableHeader>(
                old(self).stream().bytes,
                header.table_header_list_addr as u64,
                header.table_count as nat,
            ),
            final(self).stream() == after_list::<FDBTableHeader>(
                old(self).stream(),
                header.table_header_list_addr as u64,
                header.table_count as nat,
            ),
    ;

    /// Reads the definition header of a table.
    fn get_table_def_header(&mut self, addr: u32) -> (r: FileResult<FDBTableDefHeader>)
        ensures
            r == record_at::<FDBTableDefHeader>(old(self).stream().bytes, addr as u64),
            final(self).stream() == after_record::<FDBTableDefHeader>(
                old(self).stream(),
                addr as u64,
            ),
    ;

    /// Reads the signed 64-bit number at `addr`, lowest byte first.
    fn get_i64(&mut self, addr: u32) -> (r: Result<i64, IoError>)
        ensures
            r == i64_at(old(self).stream().bytes, addr as u64),
            final(self).stream() == old(self).stream().seek(addr as u64).read_exact(8),
    ;

    /// Reads the list of column headers that `header` points to.
    fn get_column_header_list(&mut self, header: &FDBTableDefHeader) -> (r: FileResult<
        Vec<FDBColumnHeader>,
    >)
        ensures
            viewed(r) == list_at::<FDBColumnHeader>(
                old(self).stream().bytes,
                header.column_header_list_addr as u64,
                header.column_count as nat,
            ),
            final(self).stream() == after_list::<FDBColumnHeader>(
                old(self).stream(),
                header.column_header_list_addr as u64,
                header.column_count as nat,
            ),
    ;

    /// Reads the data header of a table.
    fn get_table_data_header(&mut self, addr: u32) -> (r: FileResult<FDBTableDataHeader>)
        ensures
            r == record_at::<FDBTableDataHeader>(old(self).stream().bytes, addr as u64),
            final(self).stream() == after_record::<FDBTableDataHeader>(
                old(self).stream(),
                addr as u64,
            ),
    ;

    /// Reads the list of bucket headers that `header` points to.
    fn get_bucket_header_list(&mut self, header: &FDBTableDataHeader) -> (r: FileResult<
        Vec<FDBBucketHeader>,
    >)
        ensures
            viewed(r) == list_at::<FDBBucketHeader>(
                old(self).stream().bytes,
                header.bucket_header_list_addr as u64,
                header.bucket_count as nat,
            ),
            final(self).stream() == after_list::<FDBBucketHeader>(
                old(self).stream(),
                header.bucket_header_list_addr as u64,
                header.bucket_count as nat,
            ),
    ;

    /// Reads one entry of a bucket's chain of rows.
    fn get_row_header_list_entry(&mut self, addr: u32) -> (r: FileResult<FDBRowHeaderListEntry>)
        ensures
            r == record_at::<FDBRowHeaderListEntry>(old(self).stream().bytes, addr as u64),
            final(self).stream() == after_record::<FDBRowHeaderListEntry>(
                old(self).stream(),
                addr as u64,
            ),
    ;

    /// Reads the header of a row.
    fn get_row_header(&mut self, addr: u32) -> (r: FileResult<FDBRowHeader>)
        ensures
            r == record_at::<FDBRowHeader>(old(self).stream().bytes, addr as u64),
            final(self).stream() == after_record::<FDBRowHeader>(old(self).stream(), addr as u64),
    ;

    /// Reads the list of field values that `header` points to, in the
    /// order in which the file holds them.
    fn get_field_data_list(&mut self, header: FDBRowHeader) -> (r: FileResult<Vec<FDBFieldData>>)
        ensures
            viewed(r) == list_at::<FDBFieldData>(
                old(self).stream().bytes,
                header.field_data_list_addr as u64,
                header.field_count as nat,
            ),
            final(self).stream() == after_list::<FDBFieldData>(
                old(self).stream(),
                header.field_data_list_addr as u64,
                header.field_count as nat,
            ),
    ;

    /// Starts a walk along the chain of rows whose first entry stands at
    /// `addr`. Nothing is read yet.
    fn get_row_header_addr_iterator<'a>(&'a mut self, addr: u32) -> (it: FDBRowHeaderAddrIterator<
        'a,
        Self,
    >)
        ensures
            it.next_addr == addr,
            *it.file == *old(self),
            *final(self) == *final(it.file),
    ;
}

/// A reader of FDB files that can also read the texts that a file refers
/// to by address.
pub trait DatabaseBufReader: DatabaseReader {
    /// Reads the text at `addr`: the bytes up to the next zero byte,
    /// decoded as Windows-1252. A text that no zero byte ends is an I/O
    /// failure.
    fn get_string(&mut self, addr: u32) -> (r: Result<String, IoError>)
        requires
            text_at(old(self).stream().bytes, addr as u64) matches Some(raw) ==> raw.len()
                <= max_text_len(),
        ensures
            final(self).stream() == old(self).stream().seek(addr as u64).read_until(0),
            match text_at(old(self).stream().bytes, addr as u64) {
                Some(raw) => r matches Ok(text) && text@ == windows_1252_text(raw) && (is_ascii(
                    raw,
                ) ==> text@ == ascii_text(raw)),
                None => r matches Err(e) && e == IoError::UnexpectedEof,
            },
    ;
}

impl DatabaseReader for ByteSource {
    open spec fn stream(&self) -> Stream {
        self@
    }

    fn get_header(&mut self) -> (r: FileResult<FDBHeader>) {
        let mut buf = bytes::<FDBHeader>();
        parse_at(self, 0, &mut buf, FDBHeader::parse)
    }

    fn get_table_header_list(&mut self, header: FDBHeader) -> (r: FileResult<Vec<FDBTableHeader>>) {
        let addr = header.table_header_list_addr;
        let count = header.table_count;
        parse_list_at(self, addr as u64, count)
    }

    fn get_table_def_header(&mut self, addr: u32) -> (r: FileResult<FDBTableDefHeader>) {
        let mut buf = bytes::<FDBTableDefHeader>();
        parse_at(self, addr as u64, &mut buf, FDBTableDefHeader::parse)
    }

    fn get_i64(&mut self, addr: u32) -> (r: Result<i64, IoError>) {
        let mut buf: Vec<u8> = vec![0u8; 8];
        self.seek(addr as u64);
        match self.read_exact(&mut buf) {
            Err(e) => Err(e),
            Ok(_) => Ok(read_le_i64(buf.as_slice(), 0)),
        }
    }

    fn get_column_header_list(&mut self, header: &FDBTableDefHeader) -> (r: FileResult<
        Vec<FDBColumnHeader>,
    >) {
        parse_list_at(self, header.column_header_list_addr as u64, header.column_count)
    }

    fn get_table_data_header(&mut self, addr: u32) -> (r: FileResult<FDBTableDataHeader>) {
        let mut buf = bytes::<FDBTableDataHeader>();
        parse_at(self, addr as u64, &mut buf, FDBTableDataHeader::parse)
    }

    fn get_bucket_header_list(&mut self, header: &FDBTableDataHeader) -> (r: FileResult<
        Vec<FDBBucketHeader>,
    >) {
        let addr = header.bucket_header_list_addr;
        let count = header.bucket_count;
        parse_list_at(self, addr as u64, count)
    }

    fn get_row_header_list_entry(&mut self, addr: u32) -> (r: FileResult<FDBRowHeaderListEntry>) {
        let mut buf = bytes::<FDBRowHeaderListEntry>();
        parse_at(self, addr as u64, &mut buf, FDBRowHeaderListEntry::parse)
    }

    fn get_row_header(&mut self, addr: u32) -> (r: FileResult<FDBRowHeader>) {
        let mut buf = bytes::<FDBRowHeader>();
        parse_at(self, addr as u64, &mut buf, FDBRowHeader::parse)
    }

    fn get_field_data_list(&mut self, header: FDBRowHeader) -> (r: FileResult<Vec<FDBFieldData>>) {
        parse_list_at(self, header.field_data_list_addr as u64, header.field_count)
    }

    fn get_row_header_addr_iterator<'a>(&'a mut self, addr: u32) -> (it: FDBRowHeaderAddrIterator<
        'a,
        Self,
    >) {
        FDBRowHeaderAddrIterator { file: self, next_addr: addr }
    }
}

impl DatabaseBufReader for ByteSource {
    fn get_string(&mut self, addr: u32) -> (r: Result<String, IoError>) {
        let mut string: Vec<u8> = Vec::new();
        self.seek(addr as u64);
        self.read_until(0, &mut string);
        proof {
            lemma_no_delimiter(old(self)@.bytes, addr as nat, 0);
        }
        let len = string.len();
        if len == 0 || string[len - 1] != 0 {
            return Err(IoError::UnexpectedEof);
        }
        string.pop();
        assert(string@ =~= text_at(old(self)@.bytes, addr as u64)->0);
        Ok(decode_windows_1252(string.as_slice()))
    }
}

/// One step of a walk that is to read the entry at `next_addr`: what the
/// step yields, and the address that the step behind it is to read. At the
/// sentinel the walk is over and stays so; an error ends it.
pub open spec fn chain_step(bytes: Seq<u8>, next_addr: u32) -> (Option<FileResult<u32>>, u32) {
    if next_addr == SENTINEL {
        (None, SENTINEL)
    } else {
        match record_at::<FDBRowHeaderListEntry>(bytes, next_addr as u64) {
            Ok(entry) => (Some(Ok(entry.row_header_addr)), entry.row_header_list_next_addr),
            Err(e) => (Some(Err(e)), SENTINEL),
        }
    }
}

/// The stream after one step of a walk: where the walk is over nothing is
/// read, else one entry.
pub open spec fn after_step(s: Stream, next_addr: u32) -> Stream {
    if next_addr == SENTINEL {
        s
    } else {
        after_record::<FDBRowHeaderListEntry>(s, next_addr as u64)
    }
}

/// What the first `limit` steps of a walk from `next_addr` yield.
pub open spec fn row_addrs(bytes: Seq<u8>, next_addr: u32, limit: nat) -> Seq<FileResult<u32>>
    decreases limit,
{
    if limit == 0 {
        Seq::empty()
    } else {
        match chain_step(bytes, next_addr).0 {
            None => Seq::empty(),
            Some(item) => seq![item] + row_addrs(
                bytes,
                chain_step(bytes, next_addr).1,
                (limit - 1) as nat,
            ),
        }
    }
}

/// The address that a walk from `next_addr` is to read behind its first
/// `steps` steps.
pub open spec fn chain_state(bytes: Seq<u8>, next_addr: u32, steps: nat) -> u32
    decreases steps,
{
    if steps == 0 {
        next_addr
    } else {
        chain_state(bytes, chain_step(bytes, next_addr).1, (steps - 1) as nat)
    }
}

/// The stream after the first `steps` steps of a walk from `next_addr`.
pub open spec fn after_steps(s: Stream, next_addr: u32, steps: nat) -> Stream
    decreases steps,
{
    if steps == 0 {
        s
    } else {
        after_steps(
            after_step(s, next_addr),
            chain_step(s.bytes, next_addr).1,
            (steps - 1) as nat,
        )
    }
}

/// A walk that is over stays over: it yields nothing more, however many
/// steps are asked of it.
pub proof fn lemma_exhausted_stays(bytes: Seq<u8>, steps: nat)
    ensures
        row_addrs(bytes, SENTINEL, steps) == Seq::<FileResult<u32>>::empty(),
        chain_state(bytes, SENTINEL, steps) == SENTINEL,
    decreases steps,
{
    if steps > 0 {
        lemma_exhausted_stays(bytes, (steps - 1) as nat);
    }
}

/// A walk that is over reads nothing and leaves the cursor where it is.
pub proof fn lemma_exhausted_reads_nothing(s: Stream, steps: nat)
    ensures
        after_steps(s, SENTINEL, steps) == s,
    decreases steps,
{
    if steps > 0 {
        lemma_exhausted_reads_nothing(s, (steps - 1) as nat);
    }
}

impl<'a, T: DatabaseReader> FDBRowHeaderAddrIterator<'a, T> {
    /// Takes one step: reads the entry at `next_addr` and yields the
    /// address of its row, or the error that reading it gave. Where
    /// `next_addr` is the sentinel, nothing is read and nothing yielded.
    pub fn next(&mut self) -> (r: Option<FileResult<u32>>)
        ensures
            *final(final(self).file) == *final(old(self).file),
            r == chain_step(old(self).file.stream().bytes, old(self).next_addr).0,
            final(self).next_addr == chain_step(
                old(self).file.stream().bytes,
                old(self).next_addr,
            ).1,
            final(self).file.stream() == after_step(old(self).file.stream(), old(self).next_addr),
    {
        let addr = self.next_addr;
        if addr == SENTINEL {
            None
        } else {
            match self.file.get_row_header_list_entry(addr) {
                Ok(entry) => {
                    self.next_addr = entry.row_header_list_next_addr;
                    Some(Ok(entry.row_header_addr))
                },
                Err(e) => {
                    self.next_addr = SENTINEL;
                    Some(Err(e))
                },
            }
        }
    }

    /// Takes steps until `limit` items were yielded or the walk is over,
    /// and returns the items in order. The limit is what ends the walk on
    /// a chain that leads back into itself.
    pub fn take(&mut self, limit: usize) -> (items: Vec<FileResult<u32>>)
        ensures
            *final(final(self).file) == *final(old(self).file),
            items@ == row_addrs(old(self).file.stream().bytes, old(self).next_addr, limit as nat),
            final(self).next_addr == chain_state(
                old(self).file.stream().bytes,
                old(self).next_addr,
                limit as nat,
            ),
            final(self).file.stream() == after_steps(
                old(self).file.stream(),
                old(self).next_addr,
                limit as nat,
            ),
            final(self).file.stream().bytes == old(self).file.stream().bytes,
    {
        let mut items: Vec<FileResult<u32>> = Vec::new();
        let ghost bytes = self.file.stream().bytes;
        let ghost all = row_addrs(bytes, self.next_addr, limit as nat);
        let ghost end = chain_state(bytes, self.next_addr, limit as nat);
        let ghost last = after_steps(self.file.stream(), self.next_addr, limit as nat);
        let mut over = false;
        while items.len() < limit && !over
            invariant
                items@.len() <= limit,
                *final(self.file) == *final(old(self).file),
                self.file.stream().bytes == bytes,
                over ==> self.next_addr == SENTINEL,
                all == items@ + row_addrs(bytes, self.next_addr, (limit - items@.len()) as nat),
                end == chain_state(bytes, self.next_addr, (limit - items@.len()) as nat),
                last == after_steps(
                    self.file.stream(),
                    self.next_addr,
                    (limit - items@.len()) as nat,
                ),
            decreases limit - items@.len() + if over { 0int } else { 1int },
        {
            let ghost rest = row_addrs(
                bytes,
                chain_step(bytes, self.next_addr).1,
                (limit - items@.len() - 1) as nat,
            );
            match self.next() {
                None => {
                    over = true;
                },
                Some(item) => {
                    items.push(item);
                },
            }
        }
        proof {
            lemma_exhausted_stays(bytes, (limit - items@.len()) as nat);
            lemma_exhausted_reads_nothing(self.file.stream(), (limit - items@.len()) as nat);
        }
        items
    }
}

/// Reads the fields of the row whose header stands at `addr`: the header
/// first, then the list of field values that it points to.
pub fn get_row_fields<R: DatabaseReader>(reader: &mut R, addr: u32) -> (r: FileResult<
    Vec<FDBFieldData>,
>)
    ensures
        match record_at::<FDBRowHeader>(old(reader).stream().bytes, addr as u64) {
            Err(e) => r matches Err(x) && x == e && final(reader).stream() == after_record::<
                FDBRowHeader,
            >(old(reader).stream(), addr as u64),
            Ok(header) => {
                &&& viewed(r) == list_at::<FDBFieldData>(
                    old(reader).stream().bytes,
                    header.field_data_list_addr as u64,
                    header.field_count as nat,
                )
                &&& final(reader).stream() == after_list::<FDBFieldData>(
                    after_record::<FDBRowHeader>(old(reader).stream(), addr as u64),
                    header.field_data_list_addr as u64,
                    header.field_count as nat,
                )
            },
        },
{
    match reader.get_row_header(addr) {
        Err(e) => Err(e),
        Ok(header) => reader.get_field_data_list(header),
    }
}

} // verus!
