use vstd::prelude::*;

verus! {

/// Why a decode step failed, with the absolute byte offset at which the
/// violation was detected.
#[derive(Clone, Copy, Debug, PartialEq, Eq, Structural)]
pub enum DecodeError {
    /// Fewer bytes are available than the item needs.
    UnexpectedEof { offset: usize },
    /// A variable-length integer does not terminate within five bytes.
    MalformedInteger { offset: usize },
    /// A variable-length integer holds a value above `u32::MAX`.
    IntegerTooLarge { offset: usize },
    /// The bytes of a name are not valid UTF-8.
    InvalidUtf8 { offset: usize },
    /// A kind byte lies outside the table of the family being decoded.
    InvalidTag { byte: u8, offset: usize },
    /// An instance record starts with a byte other than `0x00` or `0x01`.
    InvalidDiscriminant { byte: u8, offset: usize },
}

impl DecodeError {
    /// The absolute offset at which the error was detected.
    pub fn offset(&self) -> (r: usize)
        ensures
            r == self.spec_offset(),
    {
        match *self {
            DecodeError::UnexpectedEof { offset } => offset,
            DecodeError::MalformedInteger { offset } => offset,
            DecodeError::IntegerTooLarge { offset } => offset,
            DecodeError::InvalidUtf8 { offset } => offset,
            DecodeError::InvalidTag { offset, .. } => offset,
            DecodeError::InvalidDiscriminant { offset, .. } => offset,
        }
    }

    pub open spec fn spec_offset(&self) -> usize {
        match *self {
            DecodeError::UnexpectedEof { offset } => offset,
            DecodeError::MalformedInteger { offset } => offset,
            DecodeError::IntegerTooLarge { offset } => offset,
            DecodeError::InvalidUtf8 { offset } => offset,
            DecodeError::InvalidTag { offset, .. } => offset,
            DecodeError::InvalidDiscriminant { offset, .. } => offset,
        }
    }
}

} // verus!
