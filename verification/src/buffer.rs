use vstd::prelude::*;
use vstd::slice::slice_subrange;

verus! {

/// Capacity of a [`BufferReader`] in bytes.
pub const BUFFER_SIZE: usize = 2048;

/// Why bytes could not be added to a [`BufferReader`].
#[derive(Debug, Clone, Copy, PartialEq, Eq, Structural)]
pub enum BufferError {
    /// The unread bytes and the new ones together exceed the capacity.
    SourceTooBig,
}

/// A fixed-capacity byte buffer read from the front: the bytes at indices
/// `pos..len` of `buf` are the ones not read yet.
pub struct BufferReader {
    buf: [u8; BUFFER_SIZE],
    pos: usize,
    len: usize,
}

/// The buffer `buf` after its bytes `pos..len` are moved to its front; the
/// bytes from index `len - pos` on keep their places.
pub open spec fn compacted(buf: Seq<u8>, pos: nat, len: nat) -> Seq<u8> {
    Seq::new(buf.len(), |i: int| if i < len - pos { buf[pos + i] } else { buf[i] })
}

impl BufferReader {
    /// Every byte of the buffer, read or not.
    pub closed spec fn spec_buf(&self) -> Seq<u8> {
        self.buf@
    }

    /// Index of the next byte to read.
    pub closed spec fn spec_pos(&self) -> nat {
        self.pos as nat
    }

    /// Count of bytes of the buffer that hold data.
    pub closed spec fn spec_len(&self) -> nat {
        self.len as nat
    }

    /// The bytes not read yet.
    pub open spec fn unread_view(&self) -> Seq<u8> {
        self.spec_buf().subrange(self.spec_pos() as int, self.spec_len() as int)
    }

    /// The position never passes the filled length, which never passes the
    /// capacity.
    pub open spec fn wf(&self) -> bool {
        &&& self.spec_buf().len() == BUFFER_SIZE
        &&& self.spec_pos() <= self.spec_len()
        &&& self.spec_len() <= BUFFER_SIZE
    }

    /// An empty buffer of zeroes.
    pub fn new() -> (r: Self)
        ensures
            r.wf(),
            r.spec_buf() == Seq::new(BUFFER_SIZE as nat, |i: int| 0u8),
            r.spec_pos() == 0,
            r.spec_len() == 0,
    {
        let r = Self { buf: [0u8; BUFFER_SIZE], pos: 0, len: 0 };
        assert(r.buf@ =~= Seq::new(BUFFER_SIZE as nat, |i: int| 0u8));
        r
    }

    /// A buffer over `buf` whose first `len` bytes hold data, none read yet.
    pub fn from_list(buf: [u8; BUFFER_SIZE], len: usize) -> (r: Self)
        requires
            len <= BUFFER_SIZE,
        ensures
            r.wf(),
            r.spec_buf() == buf@,
            r.spec_pos() == 0,
            r.spec_len() == len,
    {
        Self { buf, len, pos: 0 }
    }

    fn next_byte(&mut self)
        requires
            old(self).wf(),
            old(self).spec_pos() < old(self).spec_len(),
        ensures
            final(self).wf(),
            final(self).spec_buf() == old(self).spec_buf(),
            final(self).spec_len() == old(self).spec_len(),
            final(self).spec_pos() == old(self).spec_pos() + 1,
    {
        self.pos += 1;
    }

    /// Marks the first `n` bytes of the buffer as data, none read yet.
    pub fn set_filled_len(&mut self, n: usize)
        requires
            old(self).wf(),
            n <= BUFFER_SIZE,
        ensures
            final(self).wf(),
            final(self).spec_buf() == old(self).spec_buf(),
            final(self).spec_pos() == 0,
            final(self).spec_len() == n,
    {
        self.pos = 0;
        self.len = n;
    }

    /// Takes the next unread byte, if there is one.
    pub fn read_byte(&mut self) -> (r: Option<u8>)
        requires
            old(self).wf(),
        ensures
            final(self).wf(),
            final(self).spec_buf() == old(self).spec_buf(),
            final(self).spec_len() == old(self).spec_len(),
            old(self).unread_view().len() == 0 ==> r == None::<u8> && final(self).spec_pos()
                == old(self).spec_pos(),
            old(self).unread_view().len() > 0 ==> r == Some(old(self).unread_view()[0])
                && final(self).spec_pos() == old(self).spec_pos() + 1,
    {
        if self.pos >= self.len {
            return None;
        }
        let byte: u8 = self.buf[self.pos];
        self.next_byte();
        Some(byte)
    }

    /// Moves the unread bytes to the front of the buffer.
    fn compact(&mut self)
        requires
            old(self).wf(),
        ensures
            final(self).wf(),
            old(self).spec_pos() == 0 ==> *final(self) == *old(self),
            old(self).spec_pos() != 0 ==> final(self).spec_buf() == compacted(
                old(self).spec_buf(),
                old(self).spec_pos(),
                old(self).spec_len(),
            ) && final(self).spec_pos() == 0 && final(self).spec_len() == old(self).spec_len()
                - old(self).spec_pos(),
    {
        if self.pos == 0 {
            return;
        }
        let rem = self.len - self.pos;
        let ghost old_buf = self.buf@;
        let mut i: usize = 0;
        while i < rem
            invariant
                self.pos + rem == self.len,
                self.pos == old(self).spec_pos(),
                self.len == old(self).spec_len(),
                self.len <= BUFFER_SIZE,
                i <= rem,
                old_buf.len() == BUFFER_SIZE,
                self.buf@.len() == BUFFER_SIZE,
                forall|j: int| 0 <= j < i ==> self.buf@[j] == old_buf[self.pos + j],
                forall|j: int| i <= j < BUFFER_SIZE ==> self.buf@[j] == old_buf[j],
            decreases rem - i,
        {
            let b = self.buf[self.pos + i];
            self.buf[i] = b;
            i += 1;
        }
        assert(self.buf@ =~= compacted(old_buf, self.pos as nat, self.len as nat));
        self.pos = 0;
        self.len = rem;
    }

    /// Adds the first `n` bytes of `src` after the unread bytes, first moving
    /// the unread bytes to the front when they would not fit otherwise.
    pub fn append(&mut self, src: [u8; BUFFER_SIZE], n: usize) -> (r: Result<(), BufferError>)
        requires
            old(self).wf(),
        ensures
            final(self).wf(),
            r is Ok <==> old(self).unread_view().len() + n <= BUFFER_SIZE,
            r is Ok ==> final(self).unread_view() == old(self).unread_view() + src@.take(n as int),
            r is Err ==> final(self).unread_view() == old(self).unread_view(),
            ({
                let b = if old(self).spec_len() + n > BUFFER_SIZE && old(self).spec_pos() != 0 {
                    compacted(old(self).spec_buf(), old(self).spec_pos(), old(self).spec_len())
                } else {
                    old(self).spec_buf()
                };
                let p = if old(self).spec_len() + n > BUFFER_SIZE { 0 } else { old(self).spec_pos() };
                let l = (old(self).spec_len() - old(self).spec_pos() + p) as nat;
                &&& final(self).spec_pos() == p
                &&& r is Ok ==> final(self).spec_len() == l + n && final(self).spec_buf() == b.subrange(
                    0,
                    l as int,
                ) + src@.take(n as int) + b.skip(l + n)
                &&& r is Err ==> final(self).spec_len() == l && final(self).spec_buf() == b
            }),
    {
        if n > BUFFER_SIZE - self.len {
            self.compact();
        }
        if n > BUFFER_SIZE - self.len {
            return Err(BufferError::SourceTooBig);
        }
        let ghost before = self.buf@;
        let ghost pos0 = self.pos;
        let ghost mid = *self;
        let start = self.len;
        let mut i: usize = 0;
        while i < n
            invariant
                start == self.len,
                self.pos == pos0,
                self.pos <= self.len,
                start + n <= BUFFER_SIZE,
                i <= n,
                self.buf@.len() == BUFFER_SIZE,
                before.len() == BUFFER_SIZE,
                forall|j: int| 0 <= j < start + i ==> self.buf@[j] == if j < start {
                    before[j]
                } else {
                    src@[j - start]
                },
                forall|j: int| start + i <= j < BUFFER_SIZE ==> self.buf@[j] == before[j],
            decreases n - i,
        {
            self.buf[start + i] = src[i];
            i += 1;
        }
        assert(self.buf@ =~= before.subrange(0, start as int) + src@.take(n as int) + before.skip(
            start + n,
        ));
        self.len += n;
        assert(self.unread_view() =~= mid.unread_view() + src@.take(n as int));
        Ok(())
    }

    /// The bytes not read yet.
    pub fn unread(&self) -> (r: &[u8])
        requires
            self.wf(),
        ensures
            r@ == self.unread_view(),
    {
        slice_subrange(self.buf.as_slice(), self.pos, self.len)
    }

    /// Marks the next `n` unread bytes as read.
    pub fn advance(&mut self, n: usize)
        requires
            old(self).wf(),
            old(self).spec_pos() + n <= old(self).spec_len(),
        ensures
            final(self).wf(),
            final(self).spec_buf() == old(self).spec_buf(),
            final(self).spec_len() == old(self).spec_len(),
            final(self).spec_pos() == old(self).spec_pos() + n,
            final(self).unread_view() == old(self).unread_view().skip(n as int),
    {
        self.pos += n;
        assert(self.unread_view() =~= old(self).unread_view().skip(n as int));
    }
}

} // verus!
