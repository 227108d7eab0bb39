//! Variable-length unsigned integers (LEB128) and length-prefixed UTF-8 text:
//! their byte-level models, the encoders, and the exact decoding rule for
//! 32-bit values.
use crate::error::DecodeError;
use vstd::prelude::*;
use vstd::utf8::*;

verus! {

broadcast use vstd::utf8::group_utf8_lib;

/// `128` raised to the power `i`.
pub open spec fn pow128(i: nat) -> nat
    decreases i,
{
    if i == 0 {
        1
    } else {
        128 * pow128((i - 1) as nat)
    }
}

/// The minimal LEB128 encoding of `v`: seven data bits per byte, low group
/// first, the continuation bit set on every byte but the last.
pub open spec fn uvarint(v: nat) -> Seq<u8>
    decreases v,
{
    if v < 128 {
        seq![v as u8]
    } else {
        seq![((v % 128) + 128) as u8] + uvarint(v / 128)
    }
}

/// The UTF-8 bytes of a text.
pub open spec fn utf8_of(s: Seq<char>) -> Seq<u8> {
    encode_utf8(s)
}

/// A text on the wire: its UTF-8 byte length as a uvarint, then the bytes.
pub open spec fn text_bytes(s: Seq<char>) -> Seq<u8> {
    uvarint(utf8_of(s).len()) + utf8_of(s)
}

/// A text whose byte length fits the 32-bit length prefix.
pub open spec fn text_fits(s: Seq<char>) -> bool {
    utf8_of(s).len() <= u32::MAX
}

/// Decoding a 32-bit uvarint whose groups `0..i` have already been read into
/// `acc`, from `data` at relative position `pos` of a buffer that starts at
/// absolute offset `base`. The result is the value and the position after
/// the last byte, or the error at the offending byte: the end of the data,
/// a fifth byte with bits above the 32nd that also asks to continue
/// (`MalformedInteger`), or one that does not (`IntegerTooLarge`).
pub open spec fn u32_groups(data: Seq<u8>, pos: int, base: int, i: nat, acc: nat) -> Result<
    (u32, int),
    DecodeError,
>
    decreases 5 - i,
{
    if pos + i >= data.len() {
        Err(DecodeError::UnexpectedEof { offset: (base + pos + i) as usize })
    } else {
        let b = data[pos + i];
        if i >= 4 && b >= 16 {
            if b >= 128 {
                Err(DecodeError::MalformedInteger { offset: (base + pos + i) as usize })
            } else {
                Err(DecodeError::IntegerTooLarge { offset: (base + pos + i) as usize })
            }
        } else {
            let acc2 = acc + (b % 128) as nat * pow128(i);
            if b < 128 || i >= 4 {
                Ok((acc2 as u32, pos + i + 1))
            } else {
                u32_groups(data, pos, base, i + 1, acc2)
            }
        }
    }
}

/// Decoding a 32-bit uvarint at relative position `pos`.
pub open spec fn parse_u32(data: Seq<u8>, pos: int, base: int) -> Result<(u32, int), DecodeError> {
    u32_groups(data, pos, base, 0, 0)
}

/// Appends the minimal uvarint encoding of `value` to `sink`.
pub fn encode_u32(value: u32, sink: &mut Vec<u8>)
    ensures
        final(sink)@ == old(sink)@ + uvarint(value as nat),
{
    let mut x: u32 = value;
    loop
        invariant
            sink@ + uvarint(x as nat) == old(sink)@ + uvarint(value as nat),
        decreases x,
    {
        if x < 128 {
            sink.push(x as u8);
            assert(sink@ =~= old(sink)@ + uvarint(value as nat));
            return;
        }
        let b: u8 = (x % 128 + 128) as u8;
        let ghost before = sink@;
        sink.push(b);
        assert(uvarint(x as nat) == seq![b] + uvarint((x / 128) as nat));
        assert(sink@ + uvarint((x / 128) as nat) =~= before + uvarint(x as nat));
        x = x / 128;
    }
}

/// Appends the text `s` to `sink`: its byte length as a uvarint, then its
/// UTF-8 bytes.
pub fn encode_str(s: &str, sink: &mut Vec<u8>)
    requires
        text_fits(s@),
    ensures
        final(sink)@ == old(sink)@ + text_bytes(s@),
{
    let bytes: &[u8] = s.as_bytes();
    encode_u32(bytes.len() as u32, sink);
    let ghost mid = sink@;
    let mut i: usize = 0;
    while i < bytes.len()
        invariant
            bytes@ == utf8_of(s@),
            i <= bytes@.len(),
            sink@ == mid + bytes@.subrange(0, i as int),
        decreases bytes@.len() - i,
    {
        sink.push(bytes[i]);
        assert(bytes@.subrange(0, i + 1) =~= bytes@.subrange(0, i as int).push(bytes@[i as int]));
        i = i + 1;
    }
    assert(bytes@.subrange(0, bytes@.len() as int) =~= bytes@);
    assert(sink@ =~= old(sink)@ + text_bytes(s@));
}

} // verus!
