//! A byte-stream source of unbounded size whose every byte reads as zero;
//! useful for standing in for sparse regions of a mapped file.

use vstd::prelude::*;
use crate::error::RustructError;
use crate::memoryvfile::checked_add_offset;
use crate::vfile::{SeekFrom, VFile, VFileBuilder};

verus! {

/// Builds zero-filled streams.
#[derive(Debug, Clone, Copy, PartialEq, Eq, Structural)]
pub struct ZeroVFileBuilder {
}

impl VFileBuilder for ZeroVFileBuilder {
    type File = ZeroVFile;

    /// The declared size: as large as a size can be.
    fn size(&self) -> (r: u64)
        ensures
            r == u64::MAX,
    {
        u64::MAX
    }

    /// A fresh zero-filled stream at position zero.
    fn open(&self) -> (r: Result<ZeroVFile, RustructError>)
        ensures
            r matches Ok(f) ==> f.spec_pos() == 0,
    {
        Ok(ZeroVFile { pos: 0 })
    }
}

/// A stream whose every byte reads as zero.
#[derive(Debug, Clone, Copy, PartialEq, Eq, Structural)]
pub struct ZeroVFile {
    /// The cursor position.
    pub pos: u64,
}

impl VFile for ZeroVFile {
    /// The cursor position.
    closed spec fn spec_pos(&self) -> int {
        self.pos as int
    }

    /// Produce `count` zero bytes; fails only when the cursor would leave
    /// the unsigned range.
    fn read_exact(&mut self, count: usize) -> (r: Result<Vec<u8>, RustructError>)
        ensures
            r matches Ok(data) ==> {
                &&& data@.len() == count
                &&& final(self).spec_pos() == old(self).spec_pos() + count
                &&& forall|j: int| 0 <= j < count ==> data@[j] == 0u8
            },
            r is Err <==> old(self).spec_pos() + count > u64::MAX,
            r is Err ==> *final(self) == *old(self),
    {
        if (count as u64) > u64::MAX - self.pos {
            return Err(RustructError::Unknown("read past end of stream".to_owned()));
        }
        let mut data: Vec<u8> = Vec::new();
        let mut k: usize = 0;
        while k < count
            invariant
                k <= count,
                data@.len() == k,
                forall|j: int| 0 <= j < k ==> data@[j] == 0u8,
            decreases count - k,
        {
            data.push(0);
            k = k + 1;
        }
        self.pos = self.pos + (count as u64);
        Ok(data)
    }

    /// Move the cursor: an absolute position or a checked offset from the
    /// cursor; the stream has no end to seek from.
    fn seek(&mut self, pos: SeekFrom) -> (r: Result<u64, RustructError>)
        ensures
            r matches Ok(p) ==> match pos {
                SeekFrom::Start(n) => p == n,
                SeekFrom::End(_) => false,
                SeekFrom::Current(n) => p == old(self).spec_pos() + n,
            },
            r is Err ==> *final(self) == *old(self) && (match pos {
                SeekFrom::Start(_) => false,
                SeekFrom::End(_) => true,
                SeekFrom::Current(n) => !(0 <= old(self).spec_pos() + n <= u64::MAX),
            }),
    {
        match pos {
            SeekFrom::Start(n) => {
                self.pos = n;
                Ok(n)
            },
            SeekFrom::End(_) => Err(
                RustructError::Unknown("can't seek from the end of an endless stream".to_owned()),
            ),
            SeekFrom::Current(n) => {
                match checked_add_offset(self.pos, n) {
                    Some(p) => {
                        self.pos = p;
                        Ok(p)
                    },
                    None => Err(
                        RustructError::Unknown(
                            "invalid seek to a negative or overflowing position".to_owned(),
                        ),
                    ),
                }
            },
        }
    }
}

} // verus!
