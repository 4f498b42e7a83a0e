//! Reusable byte buffers for network I/O.

use vstd::prelude::*;
use vstd::slice::*;

verus! {

/// Default buffer size: 64KB
pub const DEFAULT_BUFFER_SIZE: usize = 65_536;

/// A pre-allocated, reusable buffer for network I/O.
///
/// Bytes are written at the back and consumed at the front; the view is what
/// was written and not yet consumed. Space that consumed bytes took is
/// reclaimed by compaction.
#[derive(Debug)]
pub struct Buffer {
    data: Vec<u8>,
    /// Read position: data before this has been consumed
    read_pos: usize,
    /// Write position: data has been written up to here
    write_pos: usize,
}

/// There was no space left to read into.
#[derive(Clone, Copy, Debug, PartialEq, Eq, Structural)]
pub struct BufferFull;

impl View for Buffer {
    type V = Seq<u8>;

    closed spec fn view(&self) -> Seq<u8> {
        self.data@.subrange(self.read_pos as int, self.write_pos as int)
    }
}

impl Buffer {
    /// Positions are in order and within the capacity; an empty buffer that
    /// was consumed starts over.
    pub closed spec fn wf(&self) -> bool {
        self.read_pos <= self.write_pos <= self.data@.len()
    }

    /// The total capacity in bytes.
    pub closed spec fn cap(&self) -> nat {
        self.data@.len()
    }

    /// How many bytes can be written before the buffer is compacted or grows.
    pub closed spec fn room(&self) -> nat {
        (self.data@.len() - self.write_pos) as nat
    }

    /// How many consumed bytes have not been reclaimed.
    pub closed spec fn consumed(&self) -> nat {
        self.read_pos as nat
    }

    /// The capacity is made up of consumed bytes, readable ones and room.
    pub proof fn parts_make_up_the_capacity(&self)
        requires
            self.wf(),
        ensures
            self.consumed() + self@.len() + self.room() == self.cap(),
    {
    }

    /// Create a new buffer with the default size (64KB).
    pub fn new() -> (r: Self)
        ensures
            r.wf(),
            r@ == Seq::<u8>::empty(),
            r.cap() == 65_536,
            r.room() == 65_536,
    {
        Self::with_capacity(DEFAULT_BUFFER_SIZE)
    }

    /// Create a new buffer with the specified capacity.
    pub fn with_capacity(capacity: usize) -> (r: Self)
        ensures
            r.wf(),
            r@ == Seq::<u8>::empty(),
            r.cap() == capacity,
            r.room() == capacity,
    {
        let r = Buffer { data: vec![0u8; capacity], read_pos: 0, write_pos: 0 };
        assert(r@ =~= Seq::<u8>::empty());
        r
    }

    /// Returns the total capacity of the buffer.
    pub fn capacity(&self) -> (r: usize)
        ensures
            r == self.cap(),
    {
        self.data.len()
    }

    /// Returns the number of bytes available to read.
    pub fn readable(&self) -> (r: usize)
        requires
            self.wf(),
        ensures
            r == self@.len(),
    {
        self.write_pos - self.read_pos
    }

    /// Returns the number of bytes available to write.
    pub fn writable(&self) -> (r: usize)
        requires
            self.wf(),
        ensures
            r == self.room(),
    {
        self.data.len() - self.write_pos
    }

    /// Returns true if there is no data to read.
    pub fn is_empty(&self) -> (r: bool)
        requires
            self.wf(),
        ensures
            r == (self@.len() == 0),
    {
        self.read_pos == self.write_pos
    }

    /// Returns a slice of the readable data.
    pub fn as_slice(&self) -> (r: &[u8])
        requires
            self.wf(),
        ensures
            r@ == self@,
    {
        slice_subrange(self.data.as_slice(), self.read_pos, self.write_pos)
    }

    /// Returns a mutable slice of the writable space. What is written there
    /// becomes readable once `advance` takes it in.
    pub fn spare_mut(&mut self) -> (r: &mut [u8])
        requires
            old(self).wf(),
        ensures
            r@ == old(self).spare(),
            r@.len() == old(self).room(),
            final(self)@ == old(self)@,
            final(self).wf(),
            final(self).consumed() == old(self).consumed(),
            final(self).spare() == final(r)@,
            final(r)@.len() == r@.len() ==> final(self).cap() == old(self).cap()
                && final(self).room() == old(self).room(),
    {
        let pos = self.write_pos;
        let (_front, back) = self.data.as_mut_slice().split_at_mut(pos);
        back
    }

    /// The bytes that lie in the writable space.
    pub closed spec fn spare(&self) -> Seq<u8> {
        self.data@.skip(self.write_pos as int)
    }

    /// Advances the read position, consuming data.
    pub fn consume(&mut self, n: usize)
        requires
            old(self).wf(),
            n <= old(self)@.len(),
        ensures
            final(self).wf(),
            final(self)@ == old(self)@.skip(n as int),
            final(self).cap() == old(self).cap(),
            n == old(self)@.len() ==> final(self).room() == final(self).cap(),
            n < old(self)@.len() ==> final(self).room() == old(self).room(),
            n < old(self)@.len() ==> final(self).spare() == old(self).spare(),
    {
        self.read_pos = self.read_pos + n;
        // If everything was consumed, reset to start
        if self.read_pos == self.write_pos {
            self.read_pos = 0;
            self.write_pos = 0;
        }
        assert(self@ =~= old(self)@.skip(n as int));
    }

    /// Advances the write position after writing data.
    pub fn advance(&mut self, n: usize)
        requires
            old(self).wf(),
            n <= old(self).room(),
        ensures
            final(self).wf(),
            final(self)@ == old(self)@ + old(self).spare().take(n as int),
            final(self).cap() == old(self).cap(),
            final(self).room() == old(self).room() - n,
            final(self).consumed() == old(self).consumed(),
            final(self).spare() == old(self).spare().skip(n as int),
    {
        let cap: usize = self.data.len();
        assert(self.write_pos + n <= cap);
        self.write_pos = self.write_pos + n;
        assert(self.spare() =~= old(self).spare().skip(n as int));
        assert(self@ =~= old(self)@ + old(self).spare().take(n as int));
    }

    /// Compacts the buffer by moving unread data to the start.
    ///
    /// This reclaims space from consumed data without allocating.
    pub fn compact(&mut self)
        requires
            old(self).wf(),
        ensures
            final(self).wf(),
            final(self)@ == old(self)@,
            final(self).cap() == old(self).cap(),
            final(self).consumed() == 0,
            final(self).room() == old(self).cap() - old(self)@.len(),
    {
        if self.read_pos == 0 {
            return;
        }
        let readable: usize = self.readable();
        let from: usize = self.read_pos;
        let mut i: usize = 0;
        while i < readable
            invariant
                i <= readable,
                from == old(self).read_pos,
                from + readable == old(self).write_pos,
                from > 0,
                old(self).wf(),
                self.read_pos == old(self).read_pos,
                self.write_pos == old(self).write_pos,
                self.data@.len() == old(self).data@.len(),
                forall|j: int| 0 <= j < i ==> self.data@[j] == old(self).data@[from + j],
                forall|j: int|
                    from + i <= j < self.data@.len() ==> self.data@[j] == old(self).data@[j],
            decreases readable - i,
        {
            let b: u8 = self.data[from + i];
            self.data.set(i, b);
            i = i + 1;
        }
        self.read_pos = 0;
        self.write_pos = readable;
        assert(self@ =~= old(self)@);
    }

    /// Clears the buffer, resetting both positions.
    pub fn clear(&mut self)
        ensures
            final(self).wf(),
            final(self)@ == Seq::<u8>::empty(),
            final(self).cap() == old(self).cap(),
            final(self).room() == old(self).cap(),
    {
        self.read_pos = 0;
        self.write_pos = 0;
        assert(self@ =~= Seq::<u8>::empty());
    }

    /// Grows the buffer to ensure at least `needed` bytes of writable space.
    ///
    /// The new capacity is the maximum of:
    /// - Current capacity * 2 (to avoid frequent reallocations)
    /// - Current readable data + needed bytes
    pub fn grow(&mut self, needed: usize)
        requires
            old(self).wf(),
            old(self)@.len() + needed <= usize::MAX,
            2 * old(self).cap() <= usize::MAX,
        ensures
            final(self).wf(),
            final(self)@ == old(self)@,
            final(self).cap() == if 2 * old(self).cap() >= old(self)@.len() + needed {
                2 * old(self).cap()
            } else {
                (old(self)@.len() + needed) as nat
            },
            final(self).consumed() == 0,
            final(self).room() == final(self).cap() - old(self)@.len(),
            final(self).room() >= needed,
    {
        let readable: usize = self.readable();
        let min_capacity: usize = readable + needed;
        let doubled: usize = self.data.len() * 2;
        let new_capacity: usize = if doubled > min_capacity {
            doubled
        } else {
            min_capacity
        };
        let mut new_data: Vec<u8> = vec![0u8; new_capacity];
        let from: usize = self.read_pos;
        let mut i: usize = 0;
        while i < readable
            invariant
                i <= readable <= new_capacity,
                self.wf(),
                from == self.read_pos,
                from + readable == self.write_pos,
                new_data@.len() == new_capacity,
                forall|j: int| 0 <= j < i ==> new_data@[j] == self.data@[from + j],
            decreases readable - i,
        {
            let b: u8 = self.data[from + i];
            new_data.set(i, b);
            i = i + 1;
        }
        self.data = new_data;
        self.read_pos = 0;
        self.write_pos = readable;
        assert(self@ =~= old(self)@);
    }

    /// The room to read into: consumed bytes are reclaimed when less than a
    /// quarter of the capacity is writable, or nothing.
    pub open spec fn room_to_read(&self) -> nat {
        if self.room() < self.cap() / 4 || self.room() == 0 {
            (self.cap() - self@.len()) as nat
        } else {
            self.room()
        }
    }

    /// Makes room to read into: compacts when less than a quarter of the
    /// capacity is writable, or nothing. Fails when the buffer is full all the
    /// same.
    pub fn begin_read(&mut self) -> (r: Result<(), BufferFull>)
        requires
            old(self).wf(),
        ensures
            final(self).wf(),
            final(self)@ == old(self)@,
            final(self).cap() == old(self).cap(),
            final(self).room() == old(self).room_to_read(),
            r is Ok <==> final(self).room() > 0,
            r is Ok <==> old(self)@.len() < old(self).cap(),
            final(self).room() >= old(self).room(),
    {
        if self.writable() < self.capacity() / 4 || self.writable() == 0 {
            self.compact();
        }
        if self.writable() == 0 {
            Err(BufferFull)
        } else {
            Ok(())
        }
    }

    /// Reads what a reader delivers into the buffer: as many bytes of
    /// `reader` as there is room for.
    ///
    /// Returns the number of bytes read. If the buffer is full or short of
    /// space, compacts first to make some.
    pub fn read_from(&mut self, reader: &[u8]) -> (r: Result<usize, BufferFull>)
        requires
            old(self).wf(),
        ensures
            final(self).wf(),
            final(self).cap() == old(self).cap(),
            ({
                let room = old(self).room_to_read();
                match r {
                    Err(_) => room == 0 && final(self)@ == old(self)@,
                    Ok(n) => {
                        &&& room > 0
                        &&& n == if reader@.len() <= room {
                            reader@.len()
                        } else {
                            room
                        }
                        &&& final(self)@ == old(self)@ + reader@.take(n as int)
                        &&& final(self).room() == room - n
                    },
                }
            }),
    {
        match self.begin_read() {
            Err(e) => Err(e),
            Ok(()) => {
                let n: usize = if reader.len() <= self.writable() {
                    reader.len()
                } else {
                    self.writable()
                };
                self.extend_from_slice(slice_subrange(reader, 0, n));
                Ok(n)
            },
        }
    }

    /// Writes from the buffer to a writer that takes at most `limit` bytes.
    ///
    /// Returns the number of bytes written.
    pub fn write_to(&mut self, writer: &mut Vec<u8>, limit: usize) -> (r: usize)
        requires
            old(self).wf(),
        ensures
            final(self).wf(),
            r == if old(self)@.len() <= limit {
                old(self)@.len()
            } else {
                limit as nat
            },
            final(writer)@ == old(writer)@ + old(self)@.take(r as int),
            final(self)@ == old(self)@.skip(r as int),
            final(self).cap() == old(self).cap(),
            final(self).room() == if old(self)@.len() > 0 && r == old(self)@.len() {
                old(self).cap()
            } else {
                old(self).room()
            },
            r < old(self)@.len() || old(self)@.len() == 0 ==> final(self).spare() == old(
                self,
            ).spare(),
    {
        if self.is_empty() {
            assert(writer@ =~= old(writer)@ + old(self)@.take(0));
            assert(self@ =~= old(self)@.skip(0));
            return 0;
        }
        let n: usize = if self.readable() <= limit {
            self.readable()
        } else {
            limit
        };
        let from: usize = self.read_pos;
        let mut i: usize = 0;
        assert(writer@ =~= old(writer)@ + self@.take(0));
        while i < n
            invariant
                i <= n <= self@.len(),
                self.wf(),
                from == self.read_pos,
                *self == *old(self),
                writer@ == old(writer)@ + self@.take(i as int),
            decreases n - i,
        {
            writer.push(self.data[from + i]);
            i = i + 1;
            assert(writer@ =~= old(writer)@ + self@.take(i as int));
        }
        self.consume(n);
        n
    }

    /// Extends the buffer with the given data.
    pub fn extend_from_slice(&mut self, data: &[u8])
        requires
            old(self).wf(),
            data@.len() <= old(self).room(),
        ensures
            final(self).wf(),
            final(self)@ == old(self)@ + data@,
            final(self).cap() == old(self).cap(),
            final(self).room() == old(self).room() - data@.len(),
            final(self).consumed() == old(self).consumed(),
            final(self).spare() == old(self).spare().skip(data@.len() as int),
    {
        let at: usize = self.write_pos;
        let cap: usize = self.data.len();
        let mut i: usize = 0;
        while i < data.len()
            invariant
                i <= data@.len(),
                at == old(self).write_pos,
                at + data@.len() <= cap,
                cap == old(self).data@.len(),
                self.read_pos == old(self).read_pos,
                self.write_pos == old(self).write_pos,
                self.data@.len() == old(self).data@.len(),
                forall|j: int| 0 <= j < at ==> self.data@[j] == old(self).data@[j],
                forall|j: int| 0 <= j < i ==> self.data@[at + j] == data@[j],
                forall|j: int| at + data@.len() <= j < cap ==> self.data@[j] == old(self).data@[j],
            decreases data@.len() - i,
        {
            self.data.set(at + i, data[i]);
            i = i + 1;
        }
        self.write_pos = at + data.len();
        assert(self@ =~= old(self)@ + data@);
        assert(self.spare() =~= old(self).spare().skip(data@.len() as int));
    }
}

impl Default for Buffer {
    fn default() -> (r: Self)
        ensures
            r.wf(),
            r@ == Seq::<u8>::empty(),
            r.cap() == 65_536,
    {
        Self::new()
    }
}

/// A pair of buffers for bidirectional I/O.
#[derive(Debug)]
pub struct BufferPair {
    pub send: Buffer,
    pub recv: Buffer,
}

impl BufferPair {
    /// Two buffers of the default size.
    pub fn new() -> (r: Self)
        ensures
            r.send.wf() && r.send@ == Seq::<u8>::empty() && r.send.cap() == 65_536,
            r.recv.wf() && r.recv@ == Seq::<u8>::empty() && r.recv.cap() == 65_536,
    {
        BufferPair { send: Buffer::new(), recv: Buffer::new() }
    }

    /// Two buffers of the given sizes.
    pub fn with_capacity(send_cap: usize, recv_cap: usize) -> (r: Self)
        ensures
            r.send.wf() && r.send@ == Seq::<u8>::empty() && r.send.cap() == send_cap,
            r.recv.wf() && r.recv@ == Seq::<u8>::empty() && r.recv.cap() == recv_cap,
    {
        BufferPair {
            send: Buffer::with_capacity(send_cap),
            recv: Buffer::with_capacity(recv_cap),
        }
    }
}

impl Default for BufferPair {
    fn default() -> (r: Self)
        ensures
            r.send.wf() && r.send@ == Seq::<u8>::empty() && r.send.cap() == 65_536,
            r.recv.wf() && r.recv@ == Seq::<u8>::empty() && r.recv.cap() == 65_536,
    {
        Self::new()
    }
}

} // verus!
