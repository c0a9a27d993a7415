//! The byte source: a seekable run of bytes held in memory, and the
//! mathematical model that the contracts of this crate are stated over.

use vstd::prelude::*;

verus! {

/// Why an operation on a byte source did not complete.
#[derive(Debug, Clone, Copy, PartialEq, Eq, Structural)]
pub enum IoError {
    /// The source ended before the bytes that were asked for.
    UnexpectedEof,
}

/// One operation that was issued to a byte source.
pub enum Access {
    /// The cursor was set to an absolute offset.
    Seek(u64),
    /// That many bytes were asked for, all or nothing.
    ReadExact(nat),
    /// Bytes were asked for up to and including the next such byte.
    ReadUntil(u8),
}

/// The `n` bytes of `bytes` from `start` on, where there are as many.
pub open spec fn run(bytes: Seq<u8>, start: nat, n: nat) -> Seq<u8> {
    if start + n <= bytes.len() {
        bytes.subrange(start as int, (start + n) as int)
    } else {
        Seq::empty()
    }
}

/// Whether `at` is where the first `delimiter` at or behind `from` stands.
pub open spec fn delimiter_at(bytes: Seq<u8>, from: nat, delimiter: u8, at: nat) -> bool {
    &&& from <= at < bytes.len()
    &&& bytes[at as int] == delimiter
    &&& forall|j: int| from <= j < at ==> bytes[j] != delimiter
}

/// Where the first `delimiter` at or behind `from` stands, if there is one.
pub open spec fn first_delimiter(bytes: Seq<u8>, from: nat, delimiter: u8) -> Option<nat> {
    if exists|at: nat| delimiter_at(bytes, from, delimiter, at) {
        Some(choose|at: nat| delimiter_at(bytes, from, delimiter, at))
    } else {
        None
    }
}

/// What a byte source is to a contract: its bytes, its cursor and the
/// operations that have been issued to it so far, oldest first.
pub struct Stream {
    pub bytes: Seq<u8>,
    pub position: nat,
    pub accesses: Seq<Access>,
}

impl Stream {
    /// The cursor after a read that ran into the end of the bytes.
    pub open spec fn end(self) -> nat {
        if self.position <= self.bytes.len() {
            self.bytes.len()
        } else {
            self.position
        }
    }

    /// The stream after the cursor was set to `addr`.
    pub open spec fn seek(self, addr: u64) -> Stream {
        Stream {
            bytes: self.bytes,
            position: addr as nat,
            accesses: self.accesses.push(Access::Seek(addr)),
        }
    }

    /// Whether `n` bytes can be read at the cursor. A read of no bytes
    /// succeeds wherever the cursor stands.
    pub open spec fn readable(self, n: nat) -> bool {
        n == 0 || self.position + n <= self.bytes.len()
    }

    /// The `n` bytes at the cursor, where there are as many.
    pub open spec fn window(self, n: nat) -> Seq<u8>
        recommends
            self.readable(n),
    {
        run(self.bytes, self.position, n)
    }

    /// The stream after `n` bytes were asked for: the cursor stands behind
    /// them, or at the end of the bytes if there were not as many.
    pub open spec fn read_exact(self, n: nat) -> Stream {
        Stream {
            bytes: self.bytes,
            position: if self.readable(n) {
                self.position + n
            } else {
                self.end()
            },
            accesses: self.accesses.push(Access::ReadExact(n)),
        }
    }

    /// Whether `count` runs of `n` bytes each, one behind the other, lie
    /// between the cursor and the end of the bytes.
    pub open spec fn holds(self, n: nat, count: nat) -> bool {
        n == 0 || count == 0 || self.position + count * n <= self.bytes.len()
    }

    /// The run with the number `index` of the runs of `n` bytes each that
    /// lie one behind the other from the cursor on.
    pub open spec fn element(self, n: nat, index: nat) -> Seq<u8>
        recommends
            self.holds(n, index + 1),
    {
        run(self.bytes, self.position + index * n, n)
    }

    /// The stream after the cursor was set to `addr` and `reads` runs of `n`
    /// bytes each were asked for, one behind the other. All of them were
    /// there if `complete` says so; else all but the last, and the cursor
    /// stands at the end of the bytes, or behind it if it already did.
    pub open spec fn after_reads(self, addr: u64, n: nat, reads: nat, complete: bool) -> Stream {
        Stream {
            bytes: self.bytes,
            position: if complete {
                (addr + reads * n) as nat
            } else if addr + (reads - 1) * n <= self.bytes.len() {
                self.bytes.len()
            } else {
                (addr + (reads - 1) * n) as nat
            },
            accesses: self.accesses.push(Access::Seek(addr)) + Seq::new(
                reads,
                |i: int| Access::ReadExact(n),
            ),
        }
    }

    /// Where the first `delimiter` at or behind the cursor stands, if there
    /// is one.
    pub open spec fn find(self, delimiter: u8) -> Option<nat> {
        first_delimiter(self.bytes, self.position, delimiter)
    }

    /// The bytes that a read up to `delimiter` takes: those from the cursor
    /// up to and including the delimiter, or up to the end where there is
    /// none.
    pub open spec fn run_until(self, delimiter: u8) -> Seq<u8> {
        match self.find(delimiter) {
            Some(at) => self.bytes.subrange(self.position as int, (at + 1) as int),
            None => if self.position <= self.bytes.len() {
                self.bytes.subrange(self.position as int, self.bytes.len() as int)
            } else {
                Seq::empty()
            },
        }
    }

    /// The stream after a read up to `delimiter`.
    pub open spec fn read_until(self, delimiter: u8) -> Stream {
        Stream {
            bytes: self.bytes,
            position: match self.find(delimiter) {
                Some(at) => at + 1,
                None => self.end(),
            },
            accesses: self.accesses.push(Access::ReadUntil(delimiter)),
        }
    }
}

/// Where the bytes hold `count` runs, they hold each of them: the run with
/// the number `index` ends within the bytes.
pub proof fn lemma_holds_each(s: Stream, n: nat, count: nat, index: nat)
    requires
        s.holds(n, count),
        index < count,
    ensures
        s.holds(n, index + 1),
        n != 0 ==> s.position + index * n + n <= s.bytes.len(),
{
    assert((index + 1) * n <= count * n) by (nonlinear_arith)
        requires
            index + 1 <= count,
    ;
    assert((index + 1) * n == index * n + n) by (nonlinear_arith);
}

/// There is at most one first delimiter: `first_delimiter` gives the place
/// that `delimiter_at` describes.
pub proof fn lemma_first_delimiter(bytes: Seq<u8>, from: nat, delimiter: u8, at: nat)
    requires
        delimiter_at(bytes, from, delimiter, at),
    ensures
        first_delimiter(bytes, from, delimiter) == Some(at),
{
}

/// `first_delimiter` gives nothing if and only if no byte at or behind
/// `from` is the delimiter.
pub proof fn lemma_no_delimiter(bytes: Seq<u8>, from: nat, delimiter: u8)
    ensures
        first_delimiter(bytes, from, delimiter) is None <==> forall|j: int|
            from <= j < bytes.len() ==> bytes[j] != delimiter,
{
    if forall|j: int| from <= j < bytes.len() ==> bytes[j] != delimiter {
        assert forall|at: nat| !delimiter_at(bytes, from, delimiter, at) by {}
    }
    if first_delimiter(bytes, from, delimiter) is None {
        lemma_none_before(bytes, from, delimiter, bytes.len());
    }
}

/// Where there is no first delimiter, there is none before `upto` either.
proof fn lemma_none_before(bytes: Seq<u8>, from: nat, delimiter: u8, upto: nat)
    requires
        first_delimiter(bytes, from, delimiter) is None,
        upto <= bytes.len(),
    ensures
        forall|j: int| from <= j < upto ==> bytes[j] != delimiter,
    decreases upto,
{
    if upto > from {
        let last = (upto - 1) as nat;
        lemma_none_before(bytes, from, delimiter, last);
        if bytes[last as int] == delimiter {
            assert(delimiter_at(bytes, from, delimiter, last));
        }
    }
}

/// A seekable source of bytes that lives in memory. Its view is a `Stream`.
pub struct ByteSource {
    data: Vec<u8>,
    pos: u64,
    log: Ghost<Seq<Access>>,
}

impl View for ByteSource {
    type V = Stream;

    closed spec fn view(&self) -> Stream {
        Stream { bytes: self.data@, position: self.pos as nat, accesses: self.log@ }
    }
}

impl ByteSource {
    /// A source over `data`, with the cursor at its start.
    pub fn new(data: Vec<u8>) -> (source: ByteSource)
        ensures
            source@.bytes == data@,
            source@.position == 0,
            source@.accesses == Seq::<Access>::empty(),
    {
        ByteSource { data, pos: 0, log: Ghost(Seq::empty()) }
    }

    /// The number of bytes that the source holds.
    pub fn len(&self) -> (n: usize)
        ensures
            n == self@.bytes.len(),
    {
        self.data.len()
    }

    /// The bytes of a source are no more than the machine can address.
    pub proof fn lemma_len_fits(&self)
        ensures
            self@.bytes.len() <= usize::MAX,
    {
        assert(self.data.len() == self.data@.len());
    }

    /// Where the cursor stands.
    pub fn position(&self) -> (p: u64)
        ensures
            p == self@.position,
    {
        self.pos
    }

    /// The bytes that the source holds.
    pub fn into_inner(self) -> (data: Vec<u8>)
        ensures
            data@ == self@.bytes,
    {
        self.data
    }

    /// Sets the cursor to `addr`. Any offset is accepted, also one behind
    /// the last byte.
    pub fn seek(&mut self, addr: u64)
        ensures
            final(self)@ == old(self)@.seek(addr),
    {
        self.pos = addr;
        proof {
            self.log@ = self.log@.push(Access::Seek(addr));
        }
    }

    /// Fills `buf` with the bytes at the cursor and moves the cursor behind
    /// them. Where fewer bytes are left than `buf` holds, nothing is
    /// written to `buf`, and the cursor is left at the end of the bytes, or
    /// where it was if it stood behind them.
    pub fn read_exact(&mut self, buf: &mut Vec<u8>) -> (r: Result<(), IoError>)
        ensures
            final(self)@ == old(self)@.read_exact(old(buf)@.len()),
            match r {
                Ok(_) => old(self)@.readable(old(buf)@.len()) && final(buf)@ == old(self)@.window(
                    old(buf)@.len(),
                ),
                Err(e) => !old(self)@.readable(old(buf)@.len()) && e == IoError::UnexpectedEof
                    && final(buf)@ == old(buf)@,
            },
    {
        let n = buf.len();
        let len = self.data.len();
        proof {
            self.log@ = self.log@.push(Access::ReadExact(n as nat));
        }
        if n == 0 {
            return Ok(());
        }
        if self.pos > len as u64 || len as u64 - self.pos < n as u64 {
            if self.pos < len as u64 {
                self.pos = len as u64;
            }
            return Err(IoError::UnexpectedEof);
        }
        let start = self.pos as usize;
        let mut i: usize = 0;
        while i < n
            invariant
                i <= n,
                n == buf@.len(),
                start + n <= len,
                len == self.data@.len(),
                forall|j: int| 0 <= j < i ==> buf@[j] == self.data@[start + j],
            decreases n - i,
        {
            buf[i] = self.data[start + i];
            i += 1;
        }
        self.pos = self.pos + n as u64;
        Ok(())
    }

    /// Appends to `out` the bytes from the cursor up to and including the
    /// first `delimiter`, or up to the end of the bytes where there is
    /// none, and moves the cursor behind them. Returns how many bytes were
    /// appended.
    pub fn read_until(&mut self, delimiter: u8, out: &mut Vec<u8>) -> (count: usize)
        ensures
            final(self)@ == old(self)@.read_until(delimiter),
            final(out)@ == old(out)@ + old(self)@.run_until(delimiter),
            count == old(self)@.run_until(delimiter).len(),
    {
        let len = self.data.len();
        proof {
            self.log@ = self.log@.push(Access::ReadUntil(delimiter));
        }
        if self.pos >= len as u64 {
            proof {
                lemma_no_delimiter(self.data@, self.pos as nat, delimiter);
            }
            return 0;
        }
        let start = self.pos as usize;
        let mut i: usize = start;
        let mut found = false;
        while i < len && !found
            invariant
                start <= i <= len,
                len == self.data@.len(),
                out@ == old(out)@ + self.data@.subrange(start as int, i as int),
                found ==> i > start && self.data@[i - 1] == delimiter,
                forall|j: int| start <= j < i - if found { 1int } else { 0int } ==> self.data@[j] != delimiter,
            decreases len - i + if found { 0int } else { 1int },
        {
            let b = self.data[i];
            out.push(b);
            if b == delimiter {
                found = true;
            }
            i += 1;
        }
        proof {
            if found {
                lemma_first_delimiter(self.data@, start as nat, delimiter, (i - 1) as nat);
            } else {
                lemma_no_delimiter(self.data@, start as nat, delimiter);
            }
        }
        self.pos = i as u64;
        i - start
    }
}

} // verus!
