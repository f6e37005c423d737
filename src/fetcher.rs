//! Sources of file content for a transfer. A file is served from its mapped
//! bytes; a memory source holds a copy of its bytes.
use vstd::prelude::*;
use crate::errors::Result;

verus! {

/// Bytes with a read cursor.
#[derive(Debug)]
pub struct Memory {
    buf: Vec<u8>,
    pos: usize,
}

impl Memory {
    /// The whole content.
    pub closed spec fn data(&self) -> Seq<u8> {
        self.buf@
    }

    /// How much of the content was read.
    pub closed spec fn cursor(&self) -> int {
        self.pos as int
    }

    pub closed spec fn wf(&self) -> bool {
        self.pos <= self.buf.len()
    }

    pub fn new(data: &[u8]) -> (r: Memory)
        ensures
            r.wf(),
            r.data() == data@,
            r.cursor() == 0,
    {
        let mut buf: Vec<u8> = Vec::with_capacity(data.len());
        let mut i: usize = 0;
        while i < data.len()
            invariant
                i <= data.len(),
                buf@ == data@.subrange(0, i as int),
            decreases data.len() - i,
        {
            buf.push(data[i]);
            assert(data@.subrange(0, i + 1) =~= data@.subrange(0, i as int).push(data@[i as int]));
            i += 1;
        }
        assert(data@.subrange(0, data.len() as int) =~= data@);
        Memory { buf, pos: 0 }
    }

    /// Takes the bytes as the content.
    pub fn from_vec(buf: Vec<u8>) -> (r: Memory)
        ensures
            r.wf(),
            r.data() == buf@,
            r.cursor() == 0,
    {
        Memory { buf, pos: 0 }
    }

    pub fn open(&mut self) -> (r: Result<()>)
        ensures
            r is Ok,
            *final(self) == *old(self),
    {
        Ok(())
    }

    pub fn get_size(&self) -> (r: Option<u64>)
        ensures
            r == Some(self.data().len() as u64),
    {
        Some(self.buf.len() as u64)
    }

    /// Hands out the next `min(sz, remaining)` bytes.
    pub fn read_mmap(&mut self, sz: usize) -> (r: Vec<u8>)
        requires
            old(self).wf(),
        ensures
            final(self).wf(),
            final(self).data() == old(self).data(),
            final(self).cursor() == next_cursor(old(self).data().len() as int, old(self).cursor(), sz as int),
            r@ == old(self).data().subrange(old(self).cursor(), final(self).cursor()),
    {
        let rest = self.buf.len() - self.pos;
        let n = if sz < rest {
            sz
        } else {
            rest
        };
        let mut r: Vec<u8> = Vec::with_capacity(n);
        let mut i: usize = 0;
        while i < n
            invariant
                self.pos + n <= self.buf.len(),
                i <= n,
                r@ == self.buf@.subrange(self.pos as int, self.pos + i),
            decreases n - i,
        {
            r.push(self.buf[self.pos + i]);
            assert(self.buf@.subrange(self.pos as int, self.pos + i + 1) =~= self.buf@.subrange(
                self.pos as int,
                self.pos + i,
            ).push(self.buf@[self.pos + i]));
            i += 1;
        }
        self.pos = self.pos + n;
        r
    }

    /// Copies the next bytes into a buffer of `cap` bytes.
    pub fn read(&mut self, cap: usize) -> (r: Result<Vec<u8>>)
        requires
            old(self).wf(),
        ensures
            final(self).wf(),
            final(self).data() == old(self).data(),
            final(self).cursor() == next_cursor(old(self).data().len() as int, old(self).cursor(), cap as int),
            r is Ok,
            r->Ok_0@ == old(self).data().subrange(old(self).cursor(), final(self).cursor()),
    {
        Ok(self.read_mmap(cap))
    }

    pub fn is_eof(&self) -> (r: bool)
        ensures
            r == (self.cursor() == self.data().len()),
    {
        self.pos == self.buf.len()
    }
}

/// The cursor after reading up to `sz` bytes at `pos` from `len` bytes.
pub open spec fn next_cursor(len: int, pos: int, sz: int) -> int {
    if pos + sz < len {
        pos + sz
    } else {
        len
    }
}

/// A source of content for a transfer.
#[derive(Debug)]
pub enum Fetcher {
    /// The mapped content of a local file.
    File(Memory),
    /// Content held in memory.
    Memory(Memory),
}

impl Fetcher {
    pub open spec fn source(&self) -> Memory {
        match self {
            Fetcher::File(m) => *m,
            Fetcher::Memory(m) => *m,
        }
    }

    pub open spec fn data(&self) -> Seq<u8> {
        self.source().data()
    }

    pub open spec fn cursor(&self) -> int {
        self.source().cursor()
    }

    pub open spec fn wf(&self) -> bool {
        &&& self.source().wf()
        &&& 0 <= self.cursor() <= self.data().len()
    }

    /// A source over the mapped content of a file.
    pub fn new_file(content: Vec<u8>) -> (r: Fetcher)
        ensures
            r.wf(),
            r.data() == content@,
            r.cursor() == 0,
            r is File,
    {
        Fetcher::File(Memory::from_vec(content))
    }

    pub fn new_memory(buf: &[u8]) -> (r: Fetcher)
        ensures
            r.wf(),
            r.data() == buf@,
            r.cursor() == 0,
            r is Memory,
    {
        Fetcher::Memory(Memory::new(buf))
    }

    /// Whether blocks can be taken from the source without a copy.
    pub fn is_mmaped(&self) -> (r: bool)
        ensures
            r,
    {
        true
    }

    pub fn open(&mut self) -> (r: Result<()>)
        ensures
            r is Ok,
            *final(self) == *old(self),
    {
        Ok(())
    }

    pub fn get_size(&self) -> (r: Option<u64>)
        ensures
            r == Some(self.data().len() as u64),
    {
        match self {
            Fetcher::File(m) => m.get_size(),
            Fetcher::Memory(m) => m.get_size(),
        }
    }

    /// Hands out the next `min(cnt, remaining)` bytes.
    pub fn read_mmap(&mut self, cnt: usize) -> (r: Vec<u8>)
        requires
            old(self).wf(),
        ensures
            final(self).wf(),
            final(self).data() == old(self).data(),
            final(self).cursor() == next_cursor(old(self).data().len() as int, old(self).cursor(), cnt as int),
            r@ == old(self).data().subrange(old(self).cursor(), final(self).cursor()),
    {
        match self {
            Fetcher::File(m) => m.read_mmap(cnt),
            Fetcher::Memory(m) => m.read_mmap(cnt),
        }
    }

    /// Copies the next bytes into a buffer of `cap` bytes.
    pub fn read(&mut self, cap: usize) -> (r: Result<Vec<u8>>)
        requires
            old(self).wf(),
        ensures
            final(self).wf(),
            final(self).data() == old(self).data(),
            final(self).cursor() == next_cursor(old(self).data().len() as int, old(self).cursor(), cap as int),
            r is Ok,
            r->Ok_0@ == old(self).data().subrange(old(self).cursor(), final(self).cursor()),
    {
        match self {
            Fetcher::File(m) => m.read(cap),
            Fetcher::Memory(m) => m.read(cap),
        }
    }

    pub fn is_eof(&self) -> (r: bool)
        ensures
            r == (self.cursor() == self.data().len()),
    {
        match self {
            Fetcher::File(m) => m.is_eof(),
            Fetcher::Memory(m) => m.is_eof(),
        }
    }
}

} // verus!
