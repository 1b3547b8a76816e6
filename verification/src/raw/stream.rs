//! A bounded, seekable reader over an in-memory byte buffer.
use vstd::prelude::*;

use crate::raw::error::IoErrorKind;
use crate::raw::le::{read_i32_le, read_u16_le, read_u32_le, spec_i32_at, spec_u16_at, spec_u32_at};

verus! {

/// A position relative to the window of a [`BoundedStream`].
#[derive(Debug, Clone, Copy, PartialEq, Eq, Structural)]
pub enum SeekFrom {
    /// Offset from the window start.
    Start(u64),
    /// Offset from the window end.
    End(i64),
    /// Offset from the current position.
    Current(i64),
}

/// A reader that restricts all operations to a shrinking window
/// `[start, end]` of an underlying byte buffer.
///
/// The window may only shrink, never expand. `SeekFrom::Start` is relative to
/// the window start.
#[derive(Debug)]
pub struct BoundedStream<'a> {
    inner: &'a [u8],
    pos: u64,
    abs_start: u64,
    abs_end: u64,
}

impl<'a> BoundedStream<'a> {
    /// The underlying bytes.
    pub closed spec fn spec_data(&self) -> Seq<u8> {
        self.inner@
    }

    /// The current absolute position in the underlying bytes.
    pub closed spec fn spec_pos(&self) -> u64 {
        self.pos
    }

    /// The absolute window start.
    pub closed spec fn spec_start(&self) -> u64 {
        self.abs_start
    }

    /// The absolute window end.
    pub closed spec fn spec_end(&self) -> u64 {
        self.abs_end
    }

    /// The absolute position below which the window and the buffer both
    /// still have bytes.
    pub open spec fn spec_avail(&self) -> int {
        if self.spec_end() < self.spec_data().len() {
            self.spec_end() as int
        } else {
            self.spec_data().len() as int
        }
    }

    /// Whether `n` more bytes can be read at the current position.
    pub open spec fn spec_can_read(&self, n: int) -> bool {
        self.spec_pos() + n <= self.spec_avail()
    }

    /// Creates a stream positioned at the start of `inner` whose window is
    /// `[0, u64::MAX]`.
    pub fn new(inner: &'a [u8]) -> (r: Self)
        ensures
            r.spec_data() == inner@,
            r.spec_pos() == 0,
            r.spec_start() == 0,
            r.spec_end() == u64::MAX,
    {
        BoundedStream { inner, pos: 0, abs_start: 0, abs_end: u64::MAX }
    }

    /// The absolute position that `pos` designates, or `None` on overflow.
    pub open spec fn spec_absolute(&self, pos: SeekFrom) -> Option<u64> {
        match pos {
            SeekFrom::Start(off) => if self.spec_start() + off <= u64::MAX {
                Some((self.spec_start() + off) as u64)
            } else {
                None
            },
            SeekFrom::End(off) => if 0 <= self.spec_end() + off <= u64::MAX {
                Some((self.spec_end() + off) as u64)
            } else {
                None
            },
            SeekFrom::Current(off) => if 0 <= self.spec_pos() + off <= u64::MAX {
                Some((self.spec_pos() + off) as u64)
            } else {
                None
            },
        }
    }

    /// Whether `abs` lies within the window.
    pub open spec fn spec_in_bounds(&self, abs: u64) -> bool {
        self.spec_start() <= abs <= self.spec_end()
    }

    /// Converts a relative position into an absolute one.
    fn get_absolute(&self, relative_pos: SeekFrom) -> (r: Result<u64, IoErrorKind>)
        ensures
            match self.spec_absolute(relative_pos) {
                Some(a) => r == Ok::<u64, IoErrorKind>(a),
                None => r == Err::<u64, IoErrorKind>(IoErrorKind::InvalidInput),
            },
    {
        match relative_pos {
            SeekFrom::Start(off) => match self.abs_start.checked_add(off) {
                Some(a) => Ok(a),
                None => Err(IoErrorKind::InvalidInput),
            },
            SeekFrom::End(off) => {
                if off >= 0 {
                    match self.abs_end.checked_add(off as u64) {
                        Some(a) => Ok(a),
                        None => Err(IoErrorKind::InvalidInput),
                    }
                } else {
                    let mag: u64 = if off == i64::MIN {
                        0x8000_0000_0000_0000u64
                    } else {
                        (-off) as u64
                    };
                    match self.abs_end.checked_sub(mag) {
                        Some(a) => Ok(a),
                        None => Err(IoErrorKind::InvalidInput),
                    }
                }
            },
            SeekFrom::Current(off) => {
                if off >= 0 {
                    match self.pos.checked_add(off as u64) {
                        Some(a) => Ok(a),
                        None => Err(IoErrorKind::InvalidInput),
                    }
                } else {
                    let mag: u64 = if off == i64::MIN {
                        0x8000_0000_0000_0000u64
                    } else {
                        (-off) as u64
                    };
                    match self.pos.checked_sub(mag) {
                        Some(a) => Ok(a),
                        None => Err(IoErrorKind::InvalidInput),
                    }
                }
            },
        }
    }

    /// Validates that `absolute` lies within `[start, end]`.
    fn check_bounds(&self, absolute: u64) -> (r: Result<(), IoErrorKind>)
        ensures
            r is Ok <==> self.spec_in_bounds(absolute),
            r is Err ==> r == Err::<(), IoErrorKind>(IoErrorKind::InvalidInput),
    {
        if absolute < self.abs_start {
            return Err(IoErrorKind::InvalidInput);
        }
        if absolute > self.abs_end {
            return Err(IoErrorKind::InvalidInput);
        }
        Ok(())
    }

    /// Shrinks the window's upper bound to the end of the underlying bytes,
    /// when that end lies within the window; otherwise leaves it unchanged.
    pub fn cap_to_stream_end(self) -> (r: Self)
        ensures
            r.spec_data() == self.spec_data(),
            r.spec_pos() == self.spec_pos(),
            r.spec_start() == self.spec_start(),
            r.spec_end() == (if self.spec_in_bounds(self.spec_data().len() as u64) {
                self.spec_data().len() as u64
            } else {
                self.spec_end()
            }),
    {
        let end = self.inner.len() as u64;
        let mut s = self;
        if s.check_bounds(end).is_ok() {
            s.abs_end = end;
        }
        s
    }

    /// Shrinks the lower bound to the position `pos` designates; fails when
    /// that position overflows or lies outside the window.
    pub fn shrink_start(self, pos: SeekFrom) -> (r: Result<Self, IoErrorKind>)
        ensures
            match self.spec_absolute(pos) {
                Some(a) => if self.spec_in_bounds(a) {
                    r is Ok && r->Ok_0.spec_start() == a && r->Ok_0.spec_end() == self.spec_end()
                        && r->Ok_0.spec_pos() == self.spec_pos() && r->Ok_0.spec_data() == self.spec_data()
                } else {
                    r == Err::<Self, IoErrorKind>(IoErrorKind::InvalidInput)
                },
                None => r == Err::<Self, IoErrorKind>(IoErrorKind::InvalidInput),
            },
    {
        let absolute = match self.get_absolute(pos) {
            Ok(a) => a,
            Err(e) => return Err(e),
        };
        if let Err(e) = self.check_bounds(absolute) {
            return Err(e);
        }
        let mut s = self;
        s.abs_start = absolute;
        Ok(s)
    }

    /// Shrinks the upper bound to the position `pos` designates; fails when
    /// that position overflows or lies outside the window.
    pub fn shrink_end(self, pos: SeekFrom) -> (r: Result<Self, IoErrorKind>)
        ensures
            match self.spec_absolute(pos) {
                Some(a) => if self.spec_in_bounds(a) {
                    r is Ok && r->Ok_0.spec_end() == a && r->Ok_0.spec_start() == self.spec_start()
                        && r->Ok_0.spec_pos() == self.spec_pos() && r->Ok_0.spec_data() == self.spec_data()
                } else {
                    r == Err::<Self, IoErrorKind>(IoErrorKind::InvalidInput)
                },
                None => r == Err::<Self, IoErrorKind>(IoErrorKind::InvalidInput),
            },
    {
        let absolute = match self.get_absolute(pos) {
            Ok(a) => a,
            Err(e) => return Err(e),
        };
        if let Err(e) = self.check_bounds(absolute) {
            return Err(e);
        }
        let mut s = self;
        s.abs_end = absolute;
        Ok(s)
    }

    /// Returns the number of bytes from the current position to the window
    /// end.
    pub fn remaining(&self) -> (r: u64)
        requires
            self.spec_pos() <= self.spec_end(),
        ensures
            r == self.spec_end() - self.spec_pos(),
    {
        self.abs_end - self.pos
    }

    /// Moves to the position `pos` designates and returns it relative to the
    /// window start; fails, without moving, when it overflows or lies outside
    /// the window.
    pub fn seek(&mut self, pos: SeekFrom) -> (r: Result<u64, IoErrorKind>)
        ensures
            final(self).spec_data() == old(self).spec_data(),
            final(self).spec_start() == old(self).spec_start(),
            final(self).spec_end() == old(self).spec_end(),
            match old(self).spec_absolute(pos) {
                Some(a) => if old(self).spec_in_bounds(a) {
                    r == Ok::<u64, IoErrorKind>((a - old(self).spec_start()) as u64)
                        && final(self).spec_pos() == a
                } else {
                    r == Err::<u64, IoErrorKind>(IoErrorKind::InvalidInput)
                        && final(self).spec_pos() == old(self).spec_pos()
                },
                None => r == Err::<u64, IoErrorKind>(IoErrorKind::InvalidInput)
                    && final(self).spec_pos() == old(self).spec_pos(),
            },
    {
        let absolute = match self.get_absolute(pos) {
            Ok(a) => a,
            Err(e) => return Err(e),
        };
        if let Err(e) = self.check_bounds(absolute) {
            return Err(e);
        }
        self.pos = absolute;
        Ok(absolute - self.abs_start)
    }

    /// Whether `n` bytes are readable at the current position; computed
    /// without overflow.
    fn readable(&self, n: u64) -> (r: bool)
        ensures
            r == self.spec_can_read(n as int),
    {
        let len = self.inner.len() as u64;
        let avail = if self.abs_end < len {
            self.abs_end
        } else {
            len
        };
        self.pos <= avail && n <= avail - self.pos
    }

    /// Reads exactly `n` bytes; fails with `UnexpectedEof` when the window or
    /// the buffer ends first.
    pub fn read_bytes(&mut self, n: usize) -> (r: Result<Vec<u8>, IoErrorKind>)
        ensures
            final(self).spec_data() == old(self).spec_data(),
            final(self).spec_start() == old(self).spec_start(),
            final(self).spec_end() == old(self).spec_end(),
            old(self).spec_can_read(n as int) ==> r is Ok && r->Ok_0@ == old(self).spec_data().subrange(
                old(self).spec_pos() as int,
                old(self).spec_pos() + n,
            ) && final(self).spec_pos() == old(self).spec_pos() + n,
            !old(self).spec_can_read(n as int) ==> r == Err::<Vec<u8>, IoErrorKind>(
                IoErrorKind::UnexpectedEof,
            ),
    {
        if !self.readable(n as u64) {
            return Err(IoErrorKind::UnexpectedEof);
        }
        let len = self.inner.len();
        assert(self.pos <= len);
        let start = self.pos as usize;
        let mut out: Vec<u8> = Vec::with_capacity(n);
        let mut i: usize = 0;
        while i < n
            invariant
                self.spec_can_read(n as int),
                start == self.spec_pos(),
                start + n <= self.inner@.len(),
                len == self.inner@.len(),
                i <= n,
                out@ == self.spec_data().subrange(start as int, start + i),
            decreases n - i,
        {
            out.push(self.inner[start + i]);
            i += 1;
            assert(out@ =~= self.spec_data().subrange(start as int, start + i));
        }
        self.pos = self.pos + n as u64;
        Ok(out)
    }

    /// Reads one byte.
    pub fn read_u8(&mut self) -> (r: Result<u8, IoErrorKind>)
        ensures
            final(self).spec_data() == old(self).spec_data(),
            final(self).spec_start() == old(self).spec_start(),
            final(self).spec_end() == old(self).spec_end(),
            old(self).spec_can_read(1) ==> r == Ok::<u8, IoErrorKind>(
                old(self).spec_data()[old(self).spec_pos() as int],
            ) && final(self).spec_pos() == old(self).spec_pos() + 1,
            !old(self).spec_can_read(1) ==> r == Err::<u8, IoErrorKind>(IoErrorKind::UnexpectedEof),
    {
        if !self.readable(1) {
            return Err(IoErrorKind::UnexpectedEof);
        }
        let len = self.inner.len();
        assert(self.pos <= len);
        let p = self.pos as usize;
        let v = self.inner[p];
        self.pos = self.pos + 1;
        Ok(v)
    }

    /// Reads a little-endian `u16`.
    pub fn read_u16(&mut self) -> (r: Result<u16, IoErrorKind>)
        ensures
            final(self).spec_data() == old(self).spec_data(),
            final(self).spec_start() == old(self).spec_start(),
            final(self).spec_end() == old(self).spec_end(),
            old(self).spec_can_read(2) ==> r == Ok::<u16, IoErrorKind>(
                spec_u16_at(old(self).spec_data(), old(self).spec_pos() as int),
            ) && final(self).spec_pos() == old(self).spec_pos() + 2,
            !old(self).spec_can_read(2) ==> r == Err::<u16, IoErrorKind>(IoErrorKind::UnexpectedEof),
    {
        if !self.readable(2) {
            return Err(IoErrorKind::UnexpectedEof);
        }
        let len = self.inner.len();
        assert(self.pos <= len);
        let p = self.pos as usize;
        let v = read_u16_le(self.inner, p);
        self.pos = self.pos + 2;
        Ok(v)
    }

    /// Reads a little-endian `u32`.
    pub fn read_u32(&mut self) -> (r: Result<u32, IoErrorKind>)
        ensures
            final(self).spec_data() == old(self).spec_data(),
            final(self).spec_start() == old(self).spec_start(),
            final(self).spec_end() == old(self).spec_end(),
            old(self).spec_can_read(4) ==> r == Ok::<u32, IoErrorKind>(
                spec_u32_at(old(self).spec_data(), old(self).spec_pos() as int),
            ) && final(self).spec_pos() == old(self).spec_pos() + 4,
            !old(self).spec_can_read(4) ==> r == Err::<u32, IoErrorKind>(IoErrorKind::UnexpectedEof),
    {
        if !self.readable(4) {
            return Err(IoErrorKind::UnexpectedEof);
        }
        let len = self.inner.len();
        assert(self.pos <= len);
        let p = self.pos as usize;
        let v = read_u32_le(self.inner, p);
        self.pos = self.pos + 4;
        Ok(v)
    }

    /// Reads a little-endian `i32`.
    pub fn read_i32(&mut self) -> (r: Result<i32, IoErrorKind>)
        ensures
            final(self).spec_data() == old(self).spec_data(),
            final(self).spec_start() == old(self).spec_start(),
            final(self).spec_end() == old(self).spec_end(),
            old(self).spec_can_read(4) ==> r == Ok::<i32, IoErrorKind>(
                spec_i32_at(old(self).spec_data(), old(self).spec_pos() as int),
            ) && final(self).spec_pos() == old(self).spec_pos() + 4,
            !old(self).spec_can_read(4) ==> r == Err::<i32, IoErrorKind>(IoErrorKind::UnexpectedEof),
    {
        if !self.readable(4) {
            return Err(IoErrorKind::UnexpectedEof);
        }
        let len = self.inner.len();
        assert(self.pos <= len);
        let p = self.pos as usize;
        let v = read_i32_le(self.inner, p);
        self.pos = self.pos + 4;
        Ok(v)
    }
}

} // verus!
