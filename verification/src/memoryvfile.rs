//! An in-memory byte-stream source: the whole content sits in one buffer and
//! reads copy out of it. Caching another source's content into such a buffer
//! is the unverified shell's concern, since it takes real reads.

use vstd::prelude::*;
use crate::error::RustructError;
use crate::vfile::{SeekFrom, VFile, VFileBuilder};

verus! {

/// Builds in-memory streams over one fixed buffer.
#[derive(Debug)]
pub struct MemoryVFileBuilder {
    buffer: Vec<u8>,
}

impl MemoryVFileBuilder {
    /// The stored content.
    pub closed spec fn spec_buffer(&self) -> Seq<u8> {
        self.buffer@
    }

    /// Hold the given content.
    pub fn new(buffer: Vec<u8>) -> (r: MemoryVFileBuilder)
        ensures
            r.spec_buffer() == buffer@,
    {
        MemoryVFileBuilder { buffer }
    }
}

impl VFileBuilder for MemoryVFileBuilder {
    type File = MemoryVFile;

    /// The size of the stored content.
    fn size(&self) -> (r: u64)
        ensures
            r == self.spec_buffer().len(),
    {
        proof {
            vstd::std_specs::vec::axiom_spec_len(&self.buffer);
        }
        self.buffer.len() as u64
    }

    /// A fresh stream over a copy of the content.
    fn open(&self) -> (r: Result<MemoryVFile, RustructError>)
        ensures
            r matches Ok(f) ==> f.spec_pos() == 0 && f.spec_buffer() == self.spec_buffer(),
    {
        let copy = self.buffer.clone();
        proof {
            assert(copy@ =~= self.buffer@);
        }
        Ok(MemoryVFile::new(copy))
    }
}

/// A seekable reader over one in-memory buffer.
#[derive(Debug)]
pub struct MemoryVFile {
    buffer: Vec<u8>,
    pos: u64,
}

impl MemoryVFile {
    /// The content read from.
    pub closed spec fn spec_buffer(&self) -> Seq<u8> {
        self.buffer@
    }

    /// A stream over the given content, at position zero.
    pub fn new(buffer: Vec<u8>) -> (r: MemoryVFile)
        ensures
            r.spec_buffer() == buffer@,
            r.spec_pos() == 0,
    {
        MemoryVFile { buffer, pos: 0 }
    }

    /// The bytes from the cursor to the end of the buffer; empty when the
    /// cursor sits at or past the end.
    pub fn remaining_slice(&self) -> (r: &[u8])
        ensures
            r@ == self.spec_buffer().skip(
                if self.spec_pos() < self.spec_buffer().len() {
                    self.spec_pos()
                } else {
                    self.spec_buffer().len() as int
                },
            ),
    {
        proof {
            vstd::std_specs::vec::axiom_spec_len(&self.buffer);
        }
        let len = self.buffer.len();
        let start: usize = if self.pos < (len as u64) {
            self.pos as usize
        } else {
            len
        };
        let whole = self.buffer.as_slice();
        let r = vstd::slice::slice_subrange(whole, start, len);
        proof {
            assert(r@ =~= self.spec_buffer().skip(start as int));
        }
        r
    }
}

impl VFile for MemoryVFile {
    /// The cursor position, which may sit past the end of the buffer.
    closed spec fn spec_pos(&self) -> int {
        self.pos as int
    }

    /// Copy exactly `count` bytes at the cursor; fails when fewer remain.
    fn read_exact(&mut self, count: usize) -> (r: Result<Vec<u8>, RustructError>)
        ensures
            r matches Ok(data) ==> {
                &&& data@.len() == count
                &&& final(self).spec_pos() == old(self).spec_pos() + count
                &&& data@ == old(self).spec_buffer().subrange(
                    old(self).spec_pos(),
                    old(self).spec_pos() + count,
                )
                &&& final(self).spec_buffer() == old(self).spec_buffer()
            },
            r is Err <==> old(self).spec_pos() + count > old(self).spec_buffer().len(),
            r is Err ==> *final(self) == *old(self),
    {
        proof {
            vstd::std_specs::vec::axiom_spec_len(&self.buffer);
        }
        let len = self.buffer.len();
        if self.pos > (len as u64) || (count as u64) > (len as u64) - self.pos {
            return Err(RustructError::Unknown("read past end of buffer".to_owned()));
        }
        let start = self.pos as usize;
        let mut data: Vec<u8> = Vec::new();
        let mut k: usize = 0;
        while k < count
            invariant
                k <= count,
                len == self.spec_buffer().len(),
                start + count <= len,
                data@.len() == k,
                forall|j: int| 0 <= j < k ==> data@[j] == self.spec_buffer()[start + j],
            decreases count - k,
        {
            data.push(self.buffer[start + k]);
            k = k + 1;
        }
        self.pos = self.pos + (count as u64);
        proof {
            assert(data@ =~= self.spec_buffer().subrange(start as int, start + count));
        }
        Ok(data)
    }

    /// Move the cursor: an absolute position, or a checked offset from the
    /// end of the buffer or from the cursor; an out-of-range target fails
    /// without moving the cursor.
    fn seek(&mut self, pos: SeekFrom) -> (r: Result<u64, RustructError>)
        ensures
            r matches Ok(p) ==> match pos {
                SeekFrom::Start(n) => p == n,
                SeekFrom::End(n) => p == old(self).spec_buffer().len() + n,
                SeekFrom::Current(n) => p == old(self).spec_pos() + n,
            },
            r is Err ==> *final(self) == *old(self) && (match pos {
                SeekFrom::Start(_) => false,
                SeekFrom::End(n) => !(0 <= old(self).spec_buffer().len() + n <= u64::MAX),
                SeekFrom::Current(n) => !(0 <= old(self).spec_pos() + n <= u64::MAX),
            }),
    {
        proof {
            vstd::std_specs::vec::axiom_spec_len(&self.buffer);
        }
        match pos {
            SeekFrom::Start(n) => {
                self.pos = n;
                Ok(n)
            },
            SeekFrom::End(n) => {
                let base = self.buffer.len() as u64;
                match checked_add_offset(base, n) {
                    Some(p) => {
                        self.pos = p;
                        Ok(p)
                    },
                    None => Err(
                        RustructError::Unknown(
                            "invalid seek to a negative or overflowing position".to_owned(),
                        ),
                    ),
                }
            },
            SeekFrom::Current(n) => {
                match checked_add_offset(self.pos, n) {
                    Some(p) => {
                        self.pos = p;
                        Ok(p)
                    },
                    None => Err(
                        RustructError::Unknown(
                            "invalid seek to a negative or overflowing position".to_owned(),
                        ),
                    ),
                }
            },
        }
    }
}

/// Add a signed offset to an unsigned position, refusing a result outside
/// the unsigned range.
pub fn checked_add_offset(base: u64, offset: i64) -> (r: Option<u64>)
    ensures
        match r {
            Some(p) => p == base + offset,
            None => !(0 <= base + offset <= u64::MAX),
        },
{
    if offset >= 0 {
        let add = offset as u64;
        if base <= u64::MAX - add {
            Some(base + add)
        } else {
            None
        }
    } else {
        let sub = if offset == i64::MIN {
            9223372036854775808u64
        } else {
            (-offset) as u64
        };
        if base >= sub {
            Some(base - sub)
        } else {
            None
        }
    }
}

} // verus!
