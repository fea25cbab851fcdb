//! Backing-stream abstraction: a byte-addressable random-access volume with
//! sector-aware seeks, plus a verified in-memory implementation.
//!
//! A backing stream is modelled by two ghost quantities: `data()`, the byte
//! content of the volume, and `pos()`, the cursor. Sector size is fixed at
//! 1024 bytes; byte offsets are limited to the device's 64-bit range.

use vstd::prelude::*;

verus! {

/// Error taxonomy of the engine and of backing streams.
///
/// `Interrupted` is transient: operations retry it internally, a bounded
/// number of times per call. The other kinds are terminal. Backing streams
/// never produce `InvalidData` or `NotFound`; those two kinds always come
/// from the engine's own validation and lookups.
#[derive(Copy, Clone, Debug, Hash, PartialEq, Eq, Structural)]
pub enum Error {
    /// Unclassified backing error.
    Unknown,
    /// A read or write could not satisfy a required length.
    UnexpectedEof,
    /// Transient failure; retried internally.
    Interrupted,
    /// Arithmetic overflow in sector/byte conversion, an unsupported seek, or
    /// an unimplemented operation.
    Unsupported,
    /// Malformed caller argument, or a seek before the start of the volume.
    InvalidInput,
    /// On-disk validation failure.
    InvalidData,
    /// Object slot empty, stream id out of range, or name absent.
    NotFound,
}

/// How many times a transient `Interrupted` failure is retried within one
/// operation before it is surfaced to the caller.
pub const RETRY_LIMIT: u64 = 64;

/// A position on the volume as (sector, offset-within-sector).
#[derive(Copy, Clone, Debug, Hash, PartialEq, Eq, Structural)]
pub struct VolLocation {
    pub sector: u128,
    pub offset: u64,
}

/// Seek request: absolute byte, absolute sector, composite location, or
/// displacement from the cursor or from the end of the volume.
#[derive(Copy, Clone, Debug, Hash, PartialEq, Eq, Structural)]
pub enum SeekPos {
    Start(u64),
    StartSector(u128),
    AbsPos(VolLocation),
    Curr(i64),
    End(i64),
    EndSector(i128),
}

/// The byte offset that a seek request resolves to, given the volume length
/// and the current cursor (both in bytes).
pub open spec fn seek_offset(p: SeekPos, len: int, cur: int) -> int {
    match p {
        SeekPos::Start(n) => n as int,
        SeekPos::StartSector(s) => (s as int) * 1024,
        SeekPos::AbsPos(loc) => (loc.sector as int) * 1024 + loc.offset,
        SeekPos::Curr(d) => cur + d,
        SeekPos::End(d) => len + d,
        SeekPos::EndSector(s) => len + (s as int) * 1024,
    }
}

/// The error owed for an unsatisfiable seek request, or `None` when the
/// request resolves to a representable offset. An offset within a sector at
/// or past 1024 is `InvalidInput`; a resolved offset before byte 0 is
/// `InvalidInput`; one past the device's 64-bit byte range is `Unsupported`.
pub open spec fn seek_error(p: SeekPos, len: int, cur: int) -> Option<Error> {
    if p matches SeekPos::AbsPos(loc) && loc.offset >= 1024 {
        Some(Error::InvalidInput)
    } else if seek_offset(p, len, cur) < 0 {
        Some(Error::InvalidInput)
    } else if seek_offset(p, len, cur) > u64::MAX {
        Some(Error::Unsupported)
    } else {
        None
    }
}

/// Ghost model of a backing stream: its byte content and its cursor.
/// Verified implementations override both to expose their real state; an
/// implementation that keeps the defaults models an empty volume, of which
/// the stream contracts promise nothing useful.
pub trait Backing: Sized {
    open spec fn data(&self) -> Seq<u8> {
        Seq::empty()
    }

    open spec fn pos(&self) -> int {
        0
    }
}

/// Reading from a backing stream.
pub trait Read: Backing {
    /// Fills some prefix of `out` with the bytes at the cursor and advances
    /// the cursor by the count returned. A zero count on a non-empty target
    /// means the cursor is at or past the end of the volume.
    fn read(&mut self, out: &mut Vec<u8>) -> (r: Result<usize, Error>)
        ensures
            final(self).data() == old(self).data(),
            final(out)@.len() == old(out)@.len(),
            match r {
                Ok(n) => {
                    &&& n <= old(out)@.len()
                    &&& final(self).pos() == old(self).pos() + n
                    &&& n > 0 ==> 0 <= old(self).pos() && old(self).pos() + n
                        <= old(self).data().len()
                    &&& forall|i: int|
                        0 <= i < n ==> final(out)@[i] == old(self).data()[old(self).pos() + i]
                    &&& forall|i: int|
                        n <= i < old(out)@.len() ==> final(out)@[i] == old(out)@[i]
                    &&& n == 0 ==> old(out)@.len() == 0 || old(self).pos() >= old(
                        self,
                    ).data().len()
                },
                Err(e) => {
                    &&& final(self).pos() == old(self).pos()
                    &&& e != Error::InvalidData
                    &&& e != Error::NotFound
                    &&& e != Error::UnexpectedEof
                },
            },
    ;

    /// Loops `read` until `out` is filled. A short volume surfaces
    /// `UnexpectedEof`; transient interruptions are retried up to
    /// `RETRY_LIMIT` times.
    #[verifier::loop_isolation(false)]
    fn read_fully(&mut self, out: &mut Vec<u8>) -> (r: Result<(), Error>)
        ensures
            final(self).data() == old(self).data(),
            final(out)@.len() == old(out)@.len(),
            match r {
                Ok(()) => {
                    &&& old(out)@.len() > 0 ==> 0 <= old(self).pos() && old(self).pos() + old(
                        out,
                    )@.len() <= old(self).data().len()
                    &&& final(self).pos() == old(self).pos() + old(out)@.len()
                    &&& forall|i: int|
                        0 <= i < old(out)@.len() ==> final(out)@[i] == old(self).data()[old(
                            self,
                        ).pos() + i]
                },
                Err(e) => {
                    &&& e != Error::InvalidData
                    &&& e != Error::NotFound
                    &&& e == Error::UnexpectedEof ==> old(self).pos() + old(out)@.len() > old(
                        self,
                    ).data().len() || old(self).pos() < 0
                },
            },
    {
        let ghost start_pos = self.pos();
        let mut acc: Vec<u8> = Vec::new();
        let mut budget: u64 = RETRY_LIMIT;
        loop
            invariant
                self.data() == old(self).data(),
                acc@.len() <= old(out)@.len(),
                acc@.len() > 0 ==> 0 <= start_pos && start_pos + acc@.len() <= self.data().len(),
                self.pos() == start_pos + acc@.len(),
                forall|i: int| 0 <= i < acc@.len() ==> acc@[i] == self.data()[start_pos + i],
                out@.len() == old(out)@.len(),
                budget <= RETRY_LIMIT,
            decreases old(out)@.len() - acc@.len() + budget,
        {
            if acc.len() == out.len() {
                let ghost accs = acc@;
                *out = acc;
                proof {
                    assert(out@ =~= accs);
                }
                return Ok(());
            }
            let want = out.len() - acc.len();
            let mut scratch: Vec<u8> = vec![0u8; want];
            match self.read(&mut scratch) {
                Ok(0) => {
                    return Err(Error::UnexpectedEof);
                },
                Ok(n) => {
                    let chunk = vstd::slice::slice_subrange(scratch.as_slice(), 0, n);
                    acc.extend_from_slice(chunk);
                },
                Err(Error::Interrupted) => {
                    if budget == 0 {
                        return Err(Error::Interrupted);
                    }
                    budget = budget - 1;
                },
                Err(e) => {
                    return Err(e);
                },
            }
        }
    }
}

/// Seeking within a backing stream.
pub trait Seek: Backing {
    /// Positions the cursor and returns the resulting (sector, offset).
    /// The volume content is never changed; a failed seek leaves the cursor
    /// where it was.
    fn seek(&mut self, pos: SeekPos) -> (r: Result<VolLocation, Error>)
        ensures
            final(self).data() == old(self).data(),
            match r {
                Ok(loc) => {
                    &&& seek_error(pos, old(self).data().len() as int, old(self).pos()) is None
                    &&& final(self).pos() == seek_offset(
                        pos,
                        old(self).data().len() as int,
                        old(self).pos(),
                    )
                    &&& loc.sector as int == final(self).pos() / 1024
                    &&& loc.offset as int == final(self).pos() % 1024
                },
                Err(e) => {
                    &&& final(self).pos() == old(self).pos()
                    &&& e != Error::InvalidData
                    &&& e != Error::NotFound
                    &&& match seek_error(pos, old(self).data().len() as int, old(self).pos()) {
                        Some(k) => e == k,
                        None => true,
                    }
                },
            },
            seek_error(pos, old(self).data().len() as int, old(self).pos()) is Some ==> r is Err,
    ;

    /// The current cursor as a (sector, offset) pair; the cursor is not moved.
    fn stream_position(&mut self) -> (r: Result<VolLocation, Error>)
        ensures
            final(self).data() == old(self).data(),
            final(self).pos() == old(self).pos(),
            match r {
                Ok(loc) => {
                    &&& 0 <= old(self).pos() <= u64::MAX
                    &&& loc.sector as int == old(self).pos() / 1024
                    &&& loc.offset as int == old(self).pos() % 1024
                },
                Err(e) => {
                    &&& e != Error::InvalidData
                    &&& e != Error::NotFound
                },
            },
    {
        self.seek(SeekPos::Curr(0))
    }

    /// The volume length as a (sector, offset) pair. On success the cursor
    /// is restored to where it was before the call.
    fn stream_length(&mut self) -> (r: Result<VolLocation, Error>)
        ensures
            final(self).data() == old(self).data(),
            match r {
                Ok(loc) => {
                    &&& final(self).pos() == old(self).pos()
                    &&& old(self).data().len() <= u64::MAX
                    &&& loc.sector as int == old(self).data().len() as int / 1024
                    &&& loc.offset as int == old(self).data().len() as int % 1024
                },
                Err(e) => {
                    &&& e != Error::InvalidData
                    &&& e != Error::NotFound
                },
            },
    {
        let curpos = self.seek(SeekPos::Curr(0))?;
        let len = self.seek(SeekPos::End(0))?;
        self.seek(SeekPos::AbsPos(curpos))?;
        Ok(len)
    }
}

/// Writing to a backing stream. The volume is fixed-size: writes never grow
/// it, and a write at or past the end reports a zero count.
pub trait Write: Backing {
    /// Writes some prefix of `buf` at the cursor and advances the cursor by
    /// the count returned. A zero count on a non-empty buffer means the
    /// cursor is at or past the end of the volume.
    fn write(&mut self, buf: &[u8]) -> (r: Result<usize, Error>)
        ensures
            final(self).data().len() == old(self).data().len(),
            match r {
                Ok(n) => {
                    &&& n <= buf@.len()
                    &&& final(self).pos() == old(self).pos() + n
                    &&& n > 0 ==> 0 <= old(self).pos() && old(self).pos() + n
                        <= old(self).data().len()
                    &&& forall|i: int|
                        0 <= i < n ==> final(self).data()[old(self).pos() + i] == buf@[i]
                    &&& forall|i: int|
                        0 <= i < old(self).data().len() && !(old(self).pos() <= i < old(self).pos()
                            + n) ==> final(self).data()[i] == old(self).data()[i]
                    &&& n == 0 ==> buf@.len() == 0 || old(self).pos() >= old(self).data().len()
                },
                Err(e) => {
                    &&& final(self).data() == old(self).data()
                    &&& final(self).pos() == old(self).pos()
                    &&& e != Error::InvalidData
                    &&& e != Error::NotFound
                    &&& e != Error::UnexpectedEof
                },
            },
    ;

    /// Flushes buffered state; content and cursor are unchanged.
    fn flush(&mut self) -> (r: Result<(), Error>)
        ensures
            final(self).data() == old(self).data(),
            final(self).pos() == old(self).pos(),
            match r {
                Ok(()) => true,
                Err(e) => {
                    &&& e != Error::InvalidData
                    &&& e != Error::NotFound
                },
            },
    ;

    /// Loops `write` until all of `buf` is written. Running past the end of
    /// the volume surfaces `UnexpectedEof`; transient interruptions are
    /// retried up to `RETRY_LIMIT` times. Bytes outside the written range
    /// are never changed.
    #[verifier::loop_isolation(false)]
    fn write_all(&mut self, buf: &[u8]) -> (r: Result<(), Error>)
        ensures
            final(self).data().len() == old(self).data().len(),
            forall|i: int|
                0 <= i < old(self).data().len() && !(old(self).pos() <= i < old(self).pos()
                    + buf@.len()) ==> final(self).data()[i] == old(self).data()[i],
            match r {
                Ok(()) => {
                    &&& buf@.len() > 0 ==> 0 <= old(self).pos() && old(self).pos() + buf@.len()
                        <= old(self).data().len()
                    &&& final(self).pos() == old(self).pos() + buf@.len()
                    &&& forall|i: int|
                        0 <= i < buf@.len() ==> final(self).data()[old(self).pos() + i] == buf@[i]
                },
                Err(e) => {
                    &&& e != Error::InvalidData
                    &&& e != Error::NotFound
                    &&& e == Error::UnexpectedEof ==> old(self).pos() + buf@.len() > old(
                        self,
                    ).data().len() || old(self).pos() < 0
                },
            },
    {
        let ghost start_pos = self.pos();
        let ghost start_data = self.data();
        let mut filled: usize = 0;
        let mut budget: u64 = RETRY_LIMIT;
        loop
            invariant
                self.data().len() == start_data.len(),
                filled <= buf@.len(),
                filled > 0 ==> 0 <= start_pos && start_pos + filled <= self.data().len(),
                self.pos() == start_pos + filled,
                forall|i: int| 0 <= i < filled ==> self.data()[start_pos + i] == buf@[i],
                forall|i: int|
                    0 <= i < start_data.len() && !(start_pos <= i < start_pos + buf@.len())
                        ==> self.data()[i] == start_data[i],
                budget <= RETRY_LIMIT,
            decreases buf@.len() - filled + budget,
        {
            if filled == buf.len() {
                return Ok(());
            }
            let rest = vstd::slice::slice_subrange(buf, filled, buf.len());
            match self.write(rest) {
                Ok(0) => {
                    return Err(Error::UnexpectedEof);
                },
                Ok(n) => {
                    proof {
                        assert forall|i: int| 0 <= i < filled + n implies self.data()[start_pos
                            + i] == buf@[i] by {
                            if filled <= i {
                                assert(self.data()[start_pos + filled + (i - filled)] == rest@[i
                                    - filled]);
                            }
                        }
                    }
                    filled = filled + n;
                },
                Err(Error::Interrupted) => {
                    if budget == 0 {
                        return Err(Error::Interrupted);
                    }
                    budget = budget - 1;
                },
                Err(e) => {
                    return Err(e);
                },
            }
        }
    }

    /// Writes exactly `num` zero bytes at the cursor, tolerating a bounded
    /// number of transient interruptions.
    fn write_zeroes(&mut self, num: usize) -> (r: Result<(), Error>)
        ensures
            final(self).data().len() == old(self).data().len(),
            forall|i: int|
                0 <= i < old(self).data().len() && !(old(self).pos() <= i < old(self).pos() + num)
                    ==> final(self).data()[i] == old(self).data()[i],
            match r {
                Ok(()) => {
                    &&& num > 0 ==> 0 <= old(self).pos() && old(self).pos() + num <= old(
                        self,
                    ).data().len()
                    &&& final(self).pos() == old(self).pos() + num
                    &&& forall|i: int|
                        0 <= i < num ==> #[trigger] final(self).data()[old(self).pos() + i] == 0u8
                },
                Err(e) => {
                    &&& e != Error::InvalidData
                    &&& e != Error::NotFound
                    &&& e == Error::UnexpectedEof ==> old(self).pos() + num > old(
                        self,
                    ).data().len() || old(self).pos() < 0
                },
            },
    {
        let zeros: Vec<u8> = vec![0u8; num];
        proof {
            assert(forall|i: int| 0 <= i < num ==> zeros@[i] == 0u8);
        }
        let r = self.write_all(zeros.as_slice());
        proof {
            if r is Ok {
                assert forall|i: int| 0 <= i < num implies #[trigger] self.data()[old(
                    self,
                ).pos() + i] == 0u8 by {
                    assert(self.data()[old(self).pos() + i] == zeros@[i]);
                }
            }
        }
        r
    }
}

/// An in-memory volume: a fixed-size byte buffer with a cursor. This is the
/// reference implementation of the backing traits; tests build volumes with
/// it and inspect or corrupt the raw bytes directly.
pub struct MemVolume {
    pub bytes: Vec<u8>,
    pub cursor: u64,
}

impl MemVolume {
    /// A zero-filled volume of `size` bytes with the cursor at byte 0.
    pub fn new(size: usize) -> (v: MemVolume)
        ensures
            v.bytes@.len() == size,
            forall|i: int| 0 <= i < size ==> v.bytes@[i] == 0u8,
            v.cursor == 0,
    {
        MemVolume { bytes: vec![0u8; size], cursor: 0 }
    }
}

impl Backing for MemVolume {
    open spec fn data(&self) -> Seq<u8> {
        self.bytes@
    }

    open spec fn pos(&self) -> int {
        self.cursor as int
    }
}

impl Read for MemVolume {
    #[verifier::loop_isolation(false)]
    fn read(&mut self, out: &mut Vec<u8>) -> (r: Result<usize, Error>) {
        let blen = self.bytes.len();
        let here: usize = if self.cursor <= usize::MAX as u64 {
            self.cursor as usize
        } else {
            return Ok(0);
        };
        if here >= blen {
            return Ok(0);
        }
        let avail = blen - here;
        let n = if out.len() < avail {
            out.len()
        } else {
            avail
        };
        let mut i: usize = 0;
        while i < n
            invariant
                n <= out@.len(),
                here + n <= self.bytes@.len(),
                i <= n,
                out@.len() == old(out)@.len(),
                self == old(self),
                forall|k: int| 0 <= k < i ==> out@[k] == self.bytes@[here + k],
                forall|k: int| i <= k < out@.len() ==> out@[k] == old(out)@[k],
            decreases n - i,
        {
            let b = self.bytes[here + i];
            out[i] = b;
            i = i + 1;
        }
        self.cursor = self.cursor + n as u64;
        Ok(n)
    }
}

impl Seek for MemVolume {
    fn seek(&mut self, pos: SeekPos) -> (r: Result<VolLocation, Error>) {
        let vol_len = self.bytes.len();
        let target: u64 = match pos {
            SeekPos::Start(n) => n,
            SeekPos::StartSector(s) => {
                if s > (u64::MAX / 1024) as u128 {
                    return Err(Error::Unsupported);
                }
                (s as u64) * 1024
            },
            SeekPos::AbsPos(loc) => {
                if loc.offset >= 1024 {
                    return Err(Error::InvalidInput);
                }
                if loc.sector > (u64::MAX / 1024) as u128 {
                    return Err(Error::Unsupported);
                }
                (loc.sector as u64) * 1024 + loc.offset
            },
            SeekPos::Curr(d) => {
                let t: i128 = self.cursor as i128 + d as i128;
                if t < 0 {
                    return Err(Error::InvalidInput);
                }
                if t > u64::MAX as i128 {
                    return Err(Error::Unsupported);
                }
                t as u64
            },
            SeekPos::End(d) => {
                let t: i128 = vol_len as i128 + d as i128;
                if t < 0 {
                    return Err(Error::InvalidInput);
                }
                if t > u64::MAX as i128 {
                    return Err(Error::Unsupported);
                }
                t as u64
            },
            SeekPos::EndSector(s) => {
                if s > (u64::MAX / 1024) as i128 {
                    return Err(Error::Unsupported);
                }
                if s < -((u64::MAX / 1024) as i128) - 1 {
                    return Err(Error::InvalidInput);
                }
                let t: i128 = vol_len as i128 + s * 1024;
                if t < 0 {
                    return Err(Error::InvalidInput);
                }
                if t > u64::MAX as i128 {
                    return Err(Error::Unsupported);
                }
                t as u64
            },
        };
        self.cursor = target;
        Ok(VolLocation { sector: (target / 1024) as u128, offset: target % 1024 })
    }
}

impl Write for MemVolume {
    #[verifier::loop_isolation(false)]
    fn write(&mut self, buf: &[u8]) -> (r: Result<usize, Error>) {
        let blen = self.bytes.len();
        let here: usize = if self.cursor <= usize::MAX as u64 {
            self.cursor as usize
        } else {
            return Ok(0);
        };
        if here >= blen {
            return Ok(0);
        }
        let avail = blen - here;
        let buf_len = buf.len();
        let n = if buf_len < avail {
            buf_len
        } else {
            avail
        };
        let mut i: usize = 0;
        while i < n
            invariant
                n <= buf@.len(),
                here + n <= self.bytes@.len(),
                i <= n,
                self.bytes@.len() == old(self).bytes@.len(),
                self.cursor == old(self).cursor,
                forall|k: int| 0 <= k < i ==> self.bytes@[here + k] == buf@[k],
                forall|k: int|
                    0 <= k < self.bytes@.len() && !(here <= k < here + i) ==> self.bytes@[k] == old(
                        self,
                    ).bytes@[k],
            decreases n - i,
        {
            let b = *vstd::slice::slice_index_get(buf, i);
            self.bytes[here + i] = b;
            i = i + 1;
        }
        self.cursor = self.cursor + n as u64;
        Ok(n)
    }

    fn flush(&mut self) -> (r: Result<(), Error>) {
        Ok(())
    }
}

} // verus!
