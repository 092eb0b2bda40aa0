//! The layout logic of a mapped byte stream built from chunks of other
//! sources: ranges of the new stream, each backed by an offset into a parent
//! source. The chunk table and every read decision are verified here; the
//! unverified shell keeps the parent sources, opens and caches their streams,
//! and performs the actual reads the plan calls for.

use vstd::prelude::*;
use core::ops::Range;
use crate::error::{RustructError, RustructErrorView};

verus! {

/// One chunk's backing: which source (by its number) and from which offset
/// in it the chunk's bytes are read.
#[derive(Debug, Clone, Copy, PartialEq, Eq, Structural)]
pub struct FileOffset {
    /// Offset of the chunk's data within the backing source.
    pub offset: u64,
    /// The number of the backing source, assigned in push order.
    pub id: u32,
}

/// The chunk list of a stream under construction: each pushed range of the
/// new stream is backed by one source at one offset.
#[derive(Debug)]
pub struct FileRanges {
    /// The pushed chunks, in push order.
    pub ranges: Vec<(Range<u64>, FileOffset)>,
    /// The number the next pushed chunk's backing source receives.
    pub id: u32,
}

impl FileRanges {
    /// An empty chunk list.
    pub fn new() -> (r: FileRanges)
        ensures
            r.ranges@.len() == 0,
            r.id == 0,
    {
        FileRanges { ranges: Vec::new(), id: 0 }
    }

    /// Add a chunk: the bytes of `offset_range` in the new stream come from
    /// the next numbered source, starting at `builder_offset` in it.
    pub fn push(&mut self, offset_range: Range<u64>, builder_offset: u64)
        requires
            old(self).id < u32::MAX,
        ensures
            final(self).id == old(self).id + 1,
            final(self).ranges@ == old(self).ranges@.push(
                (offset_range, FileOffset { offset: builder_offset, id: old(self).id }),
            ),
    {
        let file_offset = FileOffset { offset: builder_offset, id: self.id };
        self.id = self.id + 1;
        self.ranges.push((offset_range, file_offset));
    }
}

/// Whether chunk `k` of a chunk list covers position `pos`.
pub open spec fn spec_chunk_contains(
    ranges: Seq<(Range<u64>, FileOffset)>,
    k: int,
    pos: u64,
) -> bool {
    ranges[k].0.start <= pos < ranges[k].0.end
}

/// The total size of a chunk list: the sum of its range lengths.
pub open spec fn spec_total_size(ranges: Seq<(Range<u64>, FileOffset)>) -> int
    decreases ranges.len(),
{
    if ranges.len() == 0 {
        0
    } else {
        spec_total_size(ranges.drop_last()) + (ranges.last().0.end - ranges.last().0.start)
    }
}

/// What one step of filling a read buffer should do next.
#[derive(Debug, Clone, Copy, PartialEq, Eq, Structural)]
pub enum ReadStep {
    /// No chunk covers the position: the read ends here.
    End,
    /// Read from source `source_id`, at `source_offset` in it, `count`
    /// bytes.
    Read { source_id: u32, source_offset: u64, count: u64 },
}

/// The chunk table of a mapped stream: the pushed chunks and the total size
/// they spell.
#[derive(Debug)]
pub struct Mapper {
    ranges: Vec<(Range<u64>, FileOffset)>,
    size: u64,
}

impl Mapper {
    /// The chunk list.
    pub closed spec fn spec_ranges(&self) -> Seq<(Range<u64>, FileOffset)> {
        self.ranges@
    }

    /// The stored total size.
    pub closed spec fn spec_size(&self) -> int {
        self.size as int
    }

    /// Build the table from a chunk list and add up its size. A chunk whose
    /// range runs backwards, or a total beyond the unsigned range, is
    /// rejected.
    pub fn new(file_ranges: FileRanges) -> (r: Result<Mapper, RustructError>)
        ensures
            r matches Ok(m) ==> {
                &&& m.spec_ranges() == file_ranges.ranges@
                &&& m.spec_size() == spec_total_size(file_ranges.ranges@)
                &&& forall|k: int|
                    0 <= k < file_ranges.ranges@.len() ==> (#[trigger] file_ranges.ranges@[k]).0.start
                        <= file_ranges.ranges@[k].0.end
            },
    {
        let n = file_ranges.ranges.len();
        let mut size: u64 = 0;
        let mut k: usize = 0;
        while k < n
            invariant
                k <= n,
                n == file_ranges.ranges@.len(),
                size == spec_total_size(file_ranges.ranges@.take(k as int)),
                forall|j: int|
                    0 <= j < k ==> (#[trigger] file_ranges.ranges@[j]).0.start
                        <= file_ranges.ranges@[j].0.end,
            decreases n - k,
        {
            let start = file_ranges.ranges[k].0.start;
            let end = file_ranges.ranges[k].0.end;
            if end < start {
                return Err(RustructError::Unknown("mapped chunk runs backwards".to_owned()));
            }
            let chunk = end - start;
            if chunk > u64::MAX - size {
                return Err(RustructError::Unknown("mapped size overflows".to_owned()));
            }
            size = size + chunk;
            proof {
                assert(file_ranges.ranges@.take(k as int + 1).drop_last() =~= file_ranges.ranges@.take(
                    k as int,
                ));
                assert(file_ranges.ranges@.take(k as int + 1).last() == file_ranges.ranges@[k as int]);
            }
            k = k + 1;
        }
        proof {
            assert(file_ranges.ranges@.take(n as int) =~= file_ranges.ranges@);
        }
        Ok(Mapper { ranges: file_ranges.ranges, size })
    }

    /// The total size of the mapped stream.
    pub fn size(&self) -> (r: u64)
        ensures
            r == self.spec_size(),
    {
        self.size
    }

    /// Decide one read step at `pos` with `left` bytes still wanted: nothing
    /// to read when no chunk covers the position, an error when chunks
    /// overlap there, else the backing source, the offset in it, and how
    /// many bytes this chunk can still serve.
    pub fn plan_read(&self, pos: u64, left: u64) -> (r: Result<ReadStep, RustructError>)
        ensures
            match r {
                Ok(step) => match step {
                    ReadStep::End => forall|k: int|
                        0 <= k < self.spec_ranges().len() ==> !spec_chunk_contains(
                            self.spec_ranges(),
                            k,
                            pos,
                        ),
                    ReadStep::Read { source_id, source_offset, count } => exists|k: int|
                        {
                            &&& 0 <= k < self.spec_ranges().len()
                            &&& #[trigger] spec_chunk_contains(self.spec_ranges(), k, pos)
                            &&& forall|j: int|
                                0 <= j < self.spec_ranges().len() && j != k
                                    ==> !spec_chunk_contains(self.spec_ranges(), j, pos)
                            &&& source_id == self.spec_ranges()[k].1.id
                            &&& source_offset == self.spec_ranges()[k].1.offset + (pos
                                - self.spec_ranges()[k].0.start)
                            &&& count == (if left <= self.spec_ranges()[k].0.end - pos {
                                left as int
                            } else {
                                self.spec_ranges()[k].0.end - pos
                            })
                        },
                },
                Err(e) => {
                    ||| {
                        &&& e@ == RustructErrorView::Unknown("Chunk overlap"@)
                        &&& exists|k1: int, k2: int|
                            0 <= k1 < k2 < self.spec_ranges().len()
                                && #[trigger] spec_chunk_contains(self.spec_ranges(), k1, pos)
                                && #[trigger] spec_chunk_contains(self.spec_ranges(), k2, pos)
                    }
                    ||| {
                        &&& e@ == RustructErrorView::Unknown("mapped offset overflows"@)
                        &&& exists|k: int|
                            0 <= k < self.spec_ranges().len() && #[trigger] spec_chunk_contains(
                                self.spec_ranges(),
                                k,
                                pos,
                            ) && self.spec_ranges()[k].1.offset + (pos
                                - self.spec_ranges()[k].0.start) > u64::MAX
                    }
                },
            },
    {
        let n = self.ranges.len();
        let mut found: Option<usize> = None;
        let mut k: usize = 0;
        while k < n
            invariant
                k <= n,
                n == self.spec_ranges().len(),
                match found {
                    Some(f) => {
                        &&& f < k
                        &&& spec_chunk_contains(self.spec_ranges(), f as int, pos)
                        &&& forall|j: int|
                            0 <= j < k && j != f ==> !spec_chunk_contains(
                                self.spec_ranges(),
                                j,
                                pos,
                            )
                    },
                    None => forall|j: int|
                        0 <= j < k ==> !spec_chunk_contains(self.spec_ranges(), j, pos),
                },
            decreases n - k,
        {
            let start = self.ranges[k].0.start;
            let end = self.ranges[k].0.end;
            if start <= pos && pos < end {
                match found {
                    Some(f) => {
                        proof {
                            assert(spec_chunk_contains(self.spec_ranges(), f as int, pos)
                                && spec_chunk_contains(self.spec_ranges(), k as int, pos));
                        }
                        return Err(RustructError::Unknown("Chunk overlap".to_owned()));
                    },
                    None => {
                        found = Some(k);
                    },
                }
            }
            k = k + 1;
        }
        match found {
            Some(f) => {
                let start = self.ranges[f].0.start;
                let end = self.ranges[f].0.end;
                let avail = end - pos;
                let count = if left <= avail {
                    left
                } else {
                    avail
                };
                let shift = pos - start;
                let offset = self.ranges[f].1.offset;
                if shift > u64::MAX - offset {
                    return Err(RustructError::Unknown("mapped offset overflows".to_owned()));
                }
                Ok(
                    ReadStep::Read {
                        source_id: self.ranges[f].1.id,
                        source_offset: offset + shift,
                        count,
                    },
                )
            },
            None => Ok(ReadStep::End),
        }
    }
}

} // verus!
