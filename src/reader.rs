//! A bounds-checked cursor over a borrowed byte buffer that sits at a known
//! absolute offset. Every read either succeeds and moves the cursor past
//! what it consumed, or fails and leaves the cursor where it was.
use crate::error::DecodeError;
use crate::kinds::{arg_kind_of_byte, export_kind_of_byte, ExternalKind, CORE_INSTANCE_SORT};
use crate::leb::{parse_u32, pow128, u32_groups};
use vstd::prelude::*;
use vstd::string::StringSliceAdditionalSpecFns;
use vstd::utf8::*;

verus! {

broadcast use vstd::utf8::group_utf8_lib;

/// What a cursor is: the bytes, the position relative to their start, and
/// the absolute offset of their first byte.
pub struct ReaderView {
    pub data: Seq<u8>,
    pub pos: int,
    pub base: int,
}

/// A read that goes from cursor `a` to cursor `b` and returns `r` has the
/// outcome `s` (a value and the position after it, or an error): on success
/// the cursor moves to that position, on failure it stays put.
pub open spec fn stepped<T>(
    a: ReaderView,
    b: ReaderView,
    r: Result<T, DecodeError>,
    s: Result<(T, int), DecodeError>,
) -> bool {
    match s {
        Ok((v, p)) => r == Ok::<T, DecodeError>(v) && b == ReaderView { pos: p, ..a },
        Err(e) => r == Err::<T, DecodeError>(e) && b == a,
    }
}

/// Reading one byte.
pub open spec fn parse_u8(data: Seq<u8>, pos: int, base: int) -> Result<(u8, int), DecodeError> {
    if pos >= data.len() {
        Err(DecodeError::UnexpectedEof { offset: (base + pos) as usize })
    } else {
        Ok((data[pos], pos + 1))
    }
}

/// Reading a text: a 32-bit length, then that many bytes, which must be
/// valid UTF-8. Both later errors point at the first byte of the text.
pub open spec fn parse_text(data: Seq<u8>, pos: int, base: int) -> Result<
    (Seq<char>, int),
    DecodeError,
> {
    match parse_u32(data, pos, base) {
        Err(e) => Err(e),
        Ok((len, p)) => if p + len > data.len() {
            Err(DecodeError::UnexpectedEof { offset: (base + p) as usize })
        } else if !valid_utf8(data.subrange(p, p + len)) {
            Err(DecodeError::InvalidUtf8 { offset: (base + p) as usize })
        } else {
            Ok((decode_utf8(data.subrange(p, p + len)), p + len))
        },
    }
}

/// Reading a kind tag of the export family.
pub open spec fn parse_export_kind(data: Seq<u8>, pos: int, base: int) -> Result<
    (ExternalKind, int),
    DecodeError,
> {
    match parse_u8(data, pos, base) {
        Err(e) => Err(e),
        Ok((b, p)) => match export_kind_of_byte(b) {
            Some(k) => Ok((k, p)),
            None => Err(DecodeError::InvalidTag { byte: b, offset: (base + pos) as usize }),
        },
    }
}

/// Reading a kind tag of the instantiation-argument family.
pub open spec fn parse_arg_kind(data: Seq<u8>, pos: int, base: int) -> Result<
    (ExternalKind, int),
    DecodeError,
> {
    match parse_u8(data, pos, base) {
        Err(e) => Err(e),
        Ok((b, p)) => match arg_kind_of_byte(b) {
            Some(k) => Ok((k, p)),
            None => Err(DecodeError::InvalidTag { byte: b, offset: (base + pos) as usize }),
        },
    }
}

/// The view of a decoded text result.
pub open spec fn text_result(r: Result<&str, DecodeError>) -> Result<Seq<char>, DecodeError> {
    match r {
        Ok(s) => Ok(s@),
        Err(e) => Err(e),
    }
}

/// Relies on `core::str::from_utf8`: it accepts exactly the valid UTF-8
/// byte sequences, and the text it returns is made of those same bytes.
#[verifier::external_body]
fn str_from_utf8<'a>(bytes: &'a [u8]) -> (r: Option<&'a str>)
    ensures
        match r {
            Some(s) => valid_utf8(bytes@) && s.spec_bytes() == bytes@,
            None => !valid_utf8(bytes@),
        },
{
    core::str::from_utf8(bytes).ok()
}

/// A cursor over a borrowed byte buffer.
#[derive(Clone, Copy, Debug)]
pub struct BinaryReader<'a> {
    data: &'a [u8],
    position: usize,
    original_offset: usize,
}

impl<'a> View for BinaryReader<'a> {
    type V = ReaderView;

    closed spec fn view(&self) -> ReaderView {
        ReaderView {
            data: self.data@,
            pos: self.position as int,
            base: self.original_offset as int,
        }
    }
}

impl<'a> BinaryReader<'a> {
    /// The position lies within the data, and every absolute offset of the
    /// buffer fits a `usize`.
    pub open spec fn wf(&self) -> bool {
        0 <= self@.pos <= self@.data.len() && 0 <= self@.base && self@.base + self@.data.len()
            <= usize::MAX
    }

    /// A cursor at the start of `data`, whose first byte is at absolute
    /// offset `original_offset`.
    pub fn new_with_offset(data: &'a [u8], original_offset: usize) -> (r: Self)
        requires
            original_offset + data@.len() <= usize::MAX,
        ensures
            r.wf(),
            r@ == (ReaderView { data: data@, pos: 0, base: original_offset as int }),
    {
        BinaryReader { data, position: 0, original_offset }
    }

    /// The absolute offset of the cursor.
    pub fn original_position(&self) -> (r: usize)
        requires
            self.wf(),
        ensures
            r == self@.base + self@.pos,
    {
        self.original_offset + self.position
    }

    /// Whether no bytes remain.
    pub fn eof(&self) -> (r: bool)
        requires
            self.wf(),
        ensures
            r == (self@.pos >= self@.data.len()),
    {
        self.position >= self.data.len()
    }

    /// The number of bytes that remain.
    pub fn bytes_remaining(&self) -> (r: usize)
        requires
            self.wf(),
        ensures
            r == self@.data.len() - self@.pos,
    {
        self.data.len() - self.position
    }

    /// The absolute span of the whole buffer, from its first byte to its
    /// end; reads do not change it.
    pub fn range(&self) -> (r: (usize, usize))
        requires
            self.wf(),
        ensures
            r.0 == self@.base,
            r.1 == self@.base + self@.data.len(),
    {
        (self.original_offset, self.original_offset + self.data.len())
    }

    /// Reads one byte.
    pub fn read_u8(&mut self) -> (r: Result<u8, DecodeError>)
        requires
            old(self).wf(),
        ensures
            final(self).wf(),
            final(self)@.pos >= old(self)@.pos,
            stepped(old(self)@, final(self)@, r, parse_u8(old(self)@.data, old(self)@.pos, old(self)@.base)),
    {
        if self.position >= self.data.len() {
            return Err(DecodeError::UnexpectedEof { offset: self.original_offset + self.position });
        }
        let b = self.data[self.position];
        self.position = self.position + 1;
        Ok(b)
    }

    /// Reads a 32-bit uvarint.
    pub fn read_var_u32(&mut self) -> (r: Result<u32, DecodeError>)
        requires
            old(self).wf(),
        ensures
            final(self).wf(),
            final(self)@.pos >= old(self)@.pos,
            stepped(old(self)@, final(self)@, r, parse_u32(old(self)@.data, old(self)@.pos, old(self)@.base)),
    {
        let ghost start = self@;
        let mut i: usize = 0;
        let mut acc: u64 = 0;
        let mut mult: u64 = 1;
        loop
            invariant
                self@ == start,
                start == old(self)@,
                self.wf(),
                i <= 4,
                self@.pos + i <= self@.data.len(),
                mult == pow128(i as nat),
                acc < pow128(i as nat),
                u32_groups(start.data, start.pos, start.base, i as nat, acc as nat) == parse_u32(
                    start.data,
                    start.pos,
                    start.base,
                ),
            decreases 4 - i,
        {
            if i >= self.data.len() - self.position {
                return Err(
                    DecodeError::UnexpectedEof { offset: self.original_offset + self.position + i },
                );
            }
            let b = self.data[self.position + i];
            if i >= 4 && b >= 16 {
                if b >= 128 {
                    return Err(
                        DecodeError::MalformedInteger {
                            offset: self.original_offset + self.position + i,
                        },
                    );
                } else {
                    return Err(
                        DecodeError::IntegerTooLarge {
                            offset: self.original_offset + self.position + i,
                        },
                    );
                }
            }
            let low: u64 = (b % 128) as u64;
            assert(pow128(1) == 128);
            assert(pow128(2) == 16384);
            assert(pow128(3) == 2097152);
            assert(pow128(4) == 268435456);
            assert(mult <= 268435456) by {
                if i == 0 {
                } else if i == 1 {
                } else if i == 2 {
                } else if i == 3 {
                } else {
                }
            }
            assert(low * mult <= 127 * mult) by (nonlinear_arith)
                requires
                    low <= 127,
            ;
            assert(i < 4 ==> acc + low * mult < pow128((i + 1) as nat));
            assert(i >= 4 ==> low <= 15);
            assert(i >= 4 ==> low * mult <= 15 * mult) by (nonlinear_arith)
                requires
                    i >= 4 ==> low <= 15,
            ;
            let acc2: u64 = acc + low * mult;
            if b < 128 || i >= 4 {
                self.position = self.position + i + 1;
                return Ok(acc2 as u32);
            }
            acc = acc2;
            mult = mult * 128;
            i = i + 1;
        }
    }

    /// Reads a text: a 32-bit length, then that many UTF-8 bytes, returned
    /// as a view into the buffer.
    pub fn read_string(&mut self) -> (r: Result<&'a str, DecodeError>)
        requires
            old(self).wf(),
        ensures
            final(self).wf(),
            final(self)@.pos >= old(self)@.pos,
            stepped(
                old(self)@,
                final(self)@,
                text_result(r),
                parse_text(old(self)@.data, old(self)@.pos, old(self)@.base),
            ),
    {
        let mut rd = *self;
        let len = match rd.read_var_u32() {
            Ok(n) => n,
            Err(e) => {
                return Err(e);
            },
        };
        let start = rd.position;
        let data: &'a [u8] = rd.data;
        if len as usize > data.len() - start {
            return Err(DecodeError::UnexpectedEof { offset: rd.original_offset + start });
        }
        let end: usize = start + len as usize;
        let bytes: &'a [u8] = &data[start..end];
        match str_from_utf8(bytes) {
            Some(s) => {
                proof {
                    encode_utf8_decode_utf8(s@);
                }
                rd.position = end;
                *self = rd;
                Ok(s)
            },
            None => Err(DecodeError::InvalidUtf8 { offset: rd.original_offset + start }),
        }
    }

    /// Reads a kind tag of the export family.
    pub fn read_external_kind(&mut self) -> (r: Result<ExternalKind, DecodeError>)
        requires
            old(self).wf(),
        ensures
            final(self).wf(),
            final(self)@.pos >= old(self)@.pos,
            stepped(
                old(self)@,
                final(self)@,
                r,
                parse_export_kind(old(self)@.data, old(self)@.pos, old(self)@.base),
            ),
    {
        let offset = self.original_position();
        let mut rd = *self;
        let b = match rd.read_u8() {
            Ok(b) => b,
            Err(e) => {
                return Err(e);
            },
        };
        let k = match b {
            0x00 => ExternalKind::Func,
            0x01 => ExternalKind::Table,
            0x02 => ExternalKind::Memory,
            0x03 => ExternalKind::Global,
            0x04 => ExternalKind::Tag,
            _ => {
                return Err(DecodeError::InvalidTag { byte: b, offset });
            },
        };
        *self = rd;
        Ok(k)
    }

    /// Reads a kind tag of the instantiation-argument family.
    pub fn read_arg_kind(&mut self) -> (r: Result<ExternalKind, DecodeError>)
        requires
            old(self).wf(),
        ensures
            final(self).wf(),
            final(self)@.pos >= old(self)@.pos,
            stepped(
                old(self)@,
                final(self)@,
                r,
                parse_arg_kind(old(self)@.data, old(self)@.pos, old(self)@.base),
            ),
    {
        let offset = self.original_position();
        let mut rd = *self;
        let b = match rd.read_u8() {
            Ok(b) => b,
            Err(e) => {
                return Err(e);
            },
        };
        let k = match b {
            0x00 => ExternalKind::Func,
            0x01 => ExternalKind::Table,
            0x02 => ExternalKind::Memory,
            0x03 => ExternalKind::Global,
            0x04 => ExternalKind::Tag,
            CORE_INSTANCE_SORT => ExternalKind::Instance,
            _ => {
                return Err(DecodeError::InvalidTag { byte: b, offset });
            },
        };
        *self = rd;
        Ok(k)
    }
}

} // verus!
