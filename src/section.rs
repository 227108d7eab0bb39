//! Section framing: a section's content is its item count as a uvarint,
//! followed by the items' encodings.
use crate::leb::{encode_u32, uvarint};
use vstd::prelude::*;

verus! {

/// What a section builder holds: the encodings of the items added so far,
/// one after the other, and how many items they are.
pub struct SectionView {
    pub bytes: Seq<u8>,
    pub count: nat,
}

/// The content of a section with `count` items encoded as `bytes`.
pub open spec fn section_bytes(count: nat, bytes: Seq<u8>) -> Seq<u8> {
    uvarint(count) + bytes
}

/// Appends the content of a section, `count` items encoded as `bytes`, to
/// `sink`.
pub fn encode_section(sink: &mut Vec<u8>, count: u32, bytes: &[u8])
    ensures
        final(sink)@ == old(sink)@ + section_bytes(count as nat, bytes@),
{
    encode_u32(count, sink);
    let ghost mid = sink@;
    let mut i: usize = 0;
    while i < bytes.len()
        invariant
            i <= bytes@.len(),
            sink@ == mid + bytes@.subrange(0, i as int),
        decreases bytes@.len() - i,
    {
        sink.push(bytes[i]);
        assert(bytes@.subrange(0, i + 1) =~= bytes@.subrange(0, i as int).push(bytes@[i as int]));
        i = i + 1;
    }
    assert(bytes@.subrange(0, bytes@.len() as int) =~= bytes@);
    assert(sink@ =~= old(sink)@ + section_bytes(count as nat, bytes@));
}

} // verus!
