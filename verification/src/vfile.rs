//! Virtual byte-stream sources: a seekable reader abstraction, the builders
//! that open them, and helpers that read UTF-16 text out of them. The
//! in-memory and zero-filled implementations live beside it; anything backed
//! by real I/O implements the same traits in the unverified shell.

use vstd::prelude::*;
use crate::error::RustructError;

verus! {

/// A target position for [`VFile::seek`].
#[derive(Debug, Clone, Copy, PartialEq, Eq, Structural)]
pub enum SeekFrom {
    /// An offset from the start of the stream.
    Start(u64),
    /// An offset from the end of the stream.
    End(i64),
    /// An offset from the current cursor.
    Current(i64),
}

/// A readable, seekable byte stream with a cursor.
pub trait VFile: Sized {
    /// The cursor position.
    spec fn spec_pos(&self) -> int;

    /// Read exactly `count` bytes at the cursor, advancing it; fails without
    /// moving the cursor beyond what was available.
    fn read_exact(&mut self, count: usize) -> (r: Result<Vec<u8>, RustructError>)
        ensures
            r matches Ok(data) ==> data@.len() == count && final(self).spec_pos() == old(
                self,
            ).spec_pos() + count,
    ;

    /// Move the cursor; a successful seek reports the new position, and
    /// seeking zero bytes from the current position reports the cursor
    /// unmoved.
    fn seek(&mut self, pos: SeekFrom) -> (r: Result<u64, RustructError>)
        ensures
            r matches Ok(p) ==> final(self).spec_pos() == p,
            (r matches Ok(p) && pos == SeekFrom::Current(0)) ==> (r matches Ok(p2) && p2 == old(
                self,
            ).spec_pos()),
    ;

    /// The current cursor position.
    fn tell(&mut self) -> (r: Result<u64, RustructError>)
        ensures
            r matches Ok(p) ==> p == old(self).spec_pos() && final(self).spec_pos() == old(
                self,
            ).spec_pos(),
    {
        self.seek(SeekFrom::Current(0))
    }
}

/// A source of byte streams with a declared size.
pub trait VFileBuilder: Sized {
    /// The stream type this builder opens.
    type File: VFile;

    /// The declared size of the streams this builder opens.
    fn size(&self) -> u64;

    /// Open a fresh stream at position zero.
    fn open(&self) -> (r: Result<Self::File, RustructError>)
        ensures
            r matches Ok(f) ==> f.spec_pos() == 0,
    ;
}

/// The sixteen-bit word two little-endian bytes spell.
pub open spec fn spec_u16_le(b0: u8, b1: u8) -> u16 {
    (b0 + b1 * 256) as u16
}

/// The sixteen-bit words of a byte string read pairwise little-endian; a
/// trailing odd byte is dropped.
pub open spec fn spec_utf16_units(data: Seq<u8>) -> Seq<u16> {
    Seq::new(data.len() / 2, |i: int| spec_u16_le(data[2 * i], data[2 * i + 1]))
}

/// The prefix of a word sequence before its first zero word.
pub open spec fn spec_take_until_nul(units: Seq<u16>) -> Seq<u16>
    decreases units.len(),
{
    if units.len() == 0 {
        Seq::empty()
    } else if units[0] == 0 {
        Seq::empty()
    } else {
        seq![units[0]] + spec_take_until_nul(units.drop_first())
    }
}

/// The characters a UTF-16 word sequence spells, or nothing on an unpaired
/// surrogate.
pub open spec fn spec_decode_utf16(units: Seq<u16>) -> Option<Seq<char>>
    decreases units.len(),
{
    if units.len() == 0 {
        Some(Seq::empty())
    } else {
        let u = units[0];
        if u < 0xD800 || u > 0xDFFF {
            match spec_decode_utf16(units.drop_first()) {
                Some(rest) => Some(seq![(u as u32) as char] + rest),
                None => None,
            }
        } else if u < 0xDC00 {
            if units.len() >= 2 && 0xDC00 <= units[1] <= 0xDFFF {
                let cp = 0x10000 + (u - 0xD800) * 0x400 + (units[1] - 0xDC00);
                match spec_decode_utf16(units.skip(2)) {
                    Some(rest) => Some(seq![(cp as u32) as char] + rest),
                    None => None,
                }
            } else {
                None
            }
        } else {
            None
        }
    }
}

/// The sixteen-bit words of a byte string, read pairwise little-endian.
pub fn utf16_units(data: &Vec<u8>) -> (r: Vec<u16>)
    ensures
        r@ == spec_utf16_units(data@),
{
    let len = data.len();
    let n = len / 2;
    let mut units: Vec<u16> = Vec::new();
    let mut i: usize = 0;
    while i < n
        invariant
            i <= n,
            len == data@.len(),
            n == len / 2,
            units@.len() == i,
            forall|j: int| 0 <= j < i ==> units@[j] == spec_utf16_units(data@)[j],
        decreases n - i,
    {
        proof {
            assert(2 * (i as int) + 1 < data@.len());
        }
        let b0 = data[2 * i];
        let b1 = data[2 * i + 1];
        units.push((b0 as u16) + (b1 as u16) * 256);
        i = i + 1;
    }
    proof {
        assert(units@ =~= spec_utf16_units(data@));
    }
    units
}

/// Decode a UTF-16 word sequence into text; an unpaired surrogate is
/// rejected.
pub fn utf16_decode(units: &Vec<u16>) -> (r: Result<String, RustructError>)
    ensures
        match (r, spec_decode_utf16(units@)) {
            (Ok(text), Some(chars)) => text@ == chars,
            (Err(_), None) => true,
            _ => false,
        },
{
    let n = units.len();
    let mut out = String::new();
    let mut i: usize = 0;
    proof {
        assert(units@.skip(0) =~= units@);
        match spec_decode_utf16(units@) {
            Some(rest) => {
                assert(Seq::<char>::empty() + rest =~= rest);
            },
            None => {},
        }
    }
    loop
        invariant
            n == units@.len(),
            i <= n,
            (match spec_decode_utf16(units@.skip(i as int)) {
                Some(rest) => spec_decode_utf16(units@) == Some(out@ + rest),
                None => spec_decode_utf16(units@) is None,
            }),
        decreases n - i,
    {
        if i >= n {
            proof {
                assert(units@.skip(n as int) =~= Seq::<u16>::empty());
                assert(out@ + Seq::<char>::empty() =~= out@);
            }
            return Ok(out);
        }
        let ghost tail0 = units@.skip(i as int);
        let u = units[i];
        proof {
            assert(tail0[0] == u);
        }
        if u < 0xD800 || u > 0xDFFF {
            let c = match char::from_u32(u as u32) {
                Some(c) => c,
                None => vstd::pervasive::unreached(),
            };
            let ghost out0 = out@;
            out.push(c);
            i = i + 1;
            proof {
                assert(tail0.drop_first() =~= units@.skip(i as int));
                match spec_decode_utf16(units@.skip(i as int)) {
                    Some(rest) => {
                        assert(spec_decode_utf16(tail0) == Some(seq![c] + rest));
                        assert(out0 + (seq![c] + rest) =~= out@ + rest);
                    },
                    None => {},
                }
            }
        } else if u < 0xDC00 {
            if i + 1 >= n {
                proof {
                    assert(tail0.len() < 2);
                    assert(spec_decode_utf16(tail0) is None);
                }
                return Err(RustructError::Unknown("unpaired UTF-16 surrogate".to_owned()));
            }
            let u2 = units[i + 1];
            proof {
                assert(tail0[1] == u2);
            }
            if u2 < 0xDC00 || u2 > 0xDFFF {
                proof {
                    assert(spec_decode_utf16(tail0) is None);
                }
                return Err(RustructError::Unknown("unpaired UTF-16 surrogate".to_owned()));
            }
            let cp: u32 = 0x10000 + ((u as u32) - 0xD800) * 0x400 + ((u2 as u32) - 0xDC00);
            let c = match char::from_u32(cp) {
                Some(c) => c,
                None => vstd::pervasive::unreached(),
            };
            let ghost out0 = out@;
            out.push(c);
            i = i + 2;
            proof {
                assert(tail0.skip(2) =~= units@.skip(i as int));
                assert(cp == 0x10000 + (u - 0xD800) * 0x400 + (u2 - 0xDC00));
                match spec_decode_utf16(units@.skip(i as int)) {
                    Some(rest) => {
                        assert(spec_decode_utf16(tail0) == Some(seq![c] + rest));
                        assert(out0 + (seq![c] + rest) =~= out@ + rest);
                    },
                    None => {},
                }
            }
        } else {
            proof {
                assert(spec_decode_utf16(tail0) is None);
            }
            return Err(RustructError::Unknown("unpaired UTF-16 surrogate".to_owned()));
        }
    }
}

/// The text spelled by a little-endian UTF-16 byte string, up to its first
/// zero word.
pub fn utf16le_to_string(data: &Vec<u8>) -> (r: Result<String, RustructError>)
    ensures
        match (r, spec_decode_utf16(spec_take_until_nul(spec_utf16_units(data@)))) {
            (Ok(text), Some(chars)) => text@ == chars,
            (Err(_), None) => true,
            _ => false,
        },
{
    let units = utf16_units(data);
    let mut prefix: Vec<u16> = Vec::new();
    let n = units.len();
    let mut i: usize = 0;
    proof {
        assert(units@.skip(0) =~= units@);
        assert(Seq::<u16>::empty() + spec_take_until_nul(units@) =~= spec_take_until_nul(units@));
    }
    loop
        invariant_except_break
            n == units@.len(),
            i <= n,
            spec_take_until_nul(units@) == prefix@ + spec_take_until_nul(units@.skip(i as int)),
        ensures
            spec_take_until_nul(units@) == prefix@,
        decreases n - i,
    {
        if i >= n {
            proof {
                assert(units@.skip(n as int) =~= Seq::<u16>::empty());
                assert(spec_take_until_nul(units@) =~= prefix@);
            }
            break ;
        }
        let u = units[i];
        let ghost tail0 = units@.skip(i as int);
        proof {
            assert(tail0[0] == u);
        }
        if u == 0 {
            proof {
                assert(spec_take_until_nul(tail0) =~= Seq::<u16>::empty());
                assert(spec_take_until_nul(units@) =~= prefix@);
            }
            break ;
        }
        let ghost p0 = prefix@;
        prefix.push(u);
        i = i + 1;
        proof {
            assert(tail0.drop_first() =~= units@.skip(i as int));
            assert(spec_take_until_nul(tail0) == seq![u] + spec_take_until_nul(
                units@.skip(i as int),
            ));
            assert(p0 + (seq![u] + spec_take_until_nul(units@.skip(i as int))) =~= prefix@
                + spec_take_until_nul(units@.skip(i as int)));
        }
    }
    utf16_decode(&prefix)
}

/// Read a UTF-16 string of `size` bytes from a stream: the bytes are read
/// exactly and decoded up to their first zero word.
pub fn read_utf16_exact<T: VFile>(file: &mut T, size: usize) -> (r: Result<String, RustructError>)
    ensures
        r matches Ok(text) ==> exists|data: Seq<u8>|
            data.len() == size && spec_decode_utf16(
                spec_take_until_nul(spec_utf16_units(data)),
            ) == Some(text@),
{
    let data = match file.read_exact(size) {
        Ok(data) => data,
        Err(err) => {
            return Err(err);
        },
    };
    let text = match utf16le_to_string(&data) {
        Ok(text) => text,
        Err(err) => {
            return Err(err);
        },
    };
    proof {
        assert(data@.len() == size && spec_decode_utf16(
            spec_take_until_nul(spec_utf16_units(data@)),
        ) == Some(text@));
    }
    Ok(text)
}

/// Read a length-prefixed UTF-16 string: first a little-endian sixteen-bit
/// character count, then that many characters and a terminator.
pub fn read_sized_utf16<T: VFile>(file: &mut T) -> (r: Result<String, RustructError>)
    ensures
        r matches Ok(text) ==> exists|data: Seq<u8>|
            spec_decode_utf16(spec_take_until_nul(spec_utf16_units(data))) == Some(text@),
{
    let header = match file.read_exact(2) {
        Ok(header) => header,
        Err(err) => {
            return Err(err);
        },
    };
    let size: usize = (header[0] as usize) + (header[1] as usize) * 256;
    read_utf16_exact(file, size * 2 + 2)
}

/// The completed zero-terminated word segments of a word sequence; words
/// after the last zero are dropped.
pub open spec fn spec_nul_segments(units: Seq<u16>) -> Seq<Seq<u16>>
    decreases units.len(),
{
    if units.len() == 0 {
        Seq::empty()
    } else if units.last() == 0 {
        spec_nul_segments(units.drop_last()).push(spec_last_segment(units.drop_last()))
    } else {
        spec_nul_segments(units.drop_last())
    }
}

/// The words of the unfinished segment at the end of a word sequence.
pub open spec fn spec_last_segment(units: Seq<u16>) -> Seq<u16>
    decreases units.len(),
{
    if units.len() == 0 || units.last() == 0 {
        Seq::empty()
    } else {
        spec_last_segment(units.drop_last()).push(units.last())
    }
}

/// Decode a consecutive list of zero-terminated UTF-16 strings out of a byte
/// string; an unpaired surrogate in any segment is rejected.
pub fn utf16le_list(data: &Vec<u8>) -> (r: Result<Vec<String>, RustructError>)
    ensures
        r matches Ok(list) ==> {
            let segs = spec_nul_segments(spec_utf16_units(data@));
            &&& list@.len() == segs.len()
            &&& forall|k: int|
                0 <= k < segs.len() ==> spec_decode_utf16(#[trigger] segs[k]) == Some(list@[k]@)
        },
{
    let units = utf16_units(data);
    let n = units.len();
    let mut list: Vec<String> = Vec::new();
    let mut current: Vec<u16> = Vec::new();
    let mut i: usize = 0;
    while i < n
        invariant
            n == units@.len(),
            i <= n,
            current@ == spec_last_segment(units@.take(i as int)),
            list@.len() == spec_nul_segments(units@.take(i as int)).len(),
            forall|k: int|
                0 <= k < list@.len() ==> spec_decode_utf16(
                    #[trigger] spec_nul_segments(units@.take(i as int))[k],
                ) == Some(list@[k]@),
        decreases n - i,
    {
        let u = units[i];
        let ghost before = units@.take(i as int);
        proof {
            assert(units@.take(i as int + 1).drop_last() =~= before);
            assert(units@.take(i as int + 1).last() == u);
        }
        if u == 0 {
            let decoded = match utf16_decode(&current) {
                Ok(decoded) => decoded,
                Err(err) => {
                    return Err(err);
                },
            };
            list.push(decoded);
            current = Vec::new();
            proof {
                let now = units@.take(i as int + 1);
                assert(spec_nul_segments(now) == spec_nul_segments(before).push(
                    spec_last_segment(before),
                ));
                assert(spec_last_segment(now) =~= Seq::<u16>::empty());
                assert(current@ =~= spec_last_segment(now));
                assert forall|k: int| 0 <= k < list@.len() implies spec_decode_utf16(
                    #[trigger] spec_nul_segments(now)[k],
                ) == Some(list@[k]@) by {
                    if k < list@.len() - 1 {
                        assert(spec_nul_segments(now)[k] == spec_nul_segments(before)[k]);
                    } else {
                        assert(spec_nul_segments(now)[k] == spec_last_segment(before));
                    }
                }
            }
        } else {
            current.push(u);
            proof {
                let now = units@.take(i as int + 1);
                assert(spec_nul_segments(now) == spec_nul_segments(before));
                assert(spec_last_segment(now) == spec_last_segment(before).push(u));
            }
        }
        i = i + 1;
    }
    proof {
        assert(units@.take(n as int) =~= units@);
    }
    Ok(list)
}

/// Read a consecutive list of zero-terminated UTF-16 strings from a slice of
/// a stream of `size` bytes.
pub fn read_utf16_list<T: VFile>(file: &mut T, size: usize) -> (r: Result<
    Vec<String>,
    RustructError,
>)
    ensures
        r matches Ok(list) ==> exists|data: Seq<u8>|
            {
                let segs = #[trigger] spec_nul_segments(spec_utf16_units(data));
                &&& data.len() == size
                &&& list@.len() == segs.len()
                &&& forall|k: int|
                    0 <= k < segs.len() ==> spec_decode_utf16(#[trigger] segs[k]) == Some(
                        list@[k]@,
                    )
            },
{
    let data = match file.read_exact(size) {
        Ok(data) => data,
        Err(err) => {
            return Err(err);
        },
    };
    match utf16le_list(&data) {
        Ok(list) => {
            proof {
                let segs = spec_nul_segments(spec_utf16_units(data@));
                assert(data@.len() == size && list@.len() == segs.len());
            }
            Ok(list)
        },
        Err(err) => Err(err),
    }
}

} // verus!
