use vstd::prelude::*;

verus! {

/// Why a byte sequence is not a container that can be opened.
#[derive(Clone, Copy, Debug, PartialEq, Eq, Structural)]
pub enum FormatError {
    /// The first eight bytes are not the magic tag.
    BadMagic,
    /// The input ends before a field or a token that has to be there.
    Truncated,
    /// The block coder found the compressed block inconsistent.
    CorruptBlock,
    /// The block decoded to a length other than the one the header records.
    LengthMismatch,
}

/// Why `compress` or `decompress` returned no bytes.
#[derive(Clone, Copy, Debug, PartialEq, Eq, Structural)]
pub enum CodecError {
    /// The input is not a valid container.
    Format(FormatError),
    /// A length is beyond what the block coder can be handed, or the block
    /// coder gave up. Nothing can be said about the data itself.
    Resource,
}

/// A result with its bytes as a sequence.
pub open spec fn outcome(r: Result<Vec<u8>, CodecError>) -> Result<Seq<u8>, CodecError> {
    match r {
        Ok(bytes) => Ok(bytes@),
        Err(e) => Err(e),
    }
}

impl FormatError {
    /// The text of `message`.
    pub open spec fn message_text(self) -> Seq<char> {
        match self {
            FormatError::BadMagic => "not a mozLz4 container: magic tag missing"@,
            FormatError::Truncated => "input ends too early"@,
            FormatError::CorruptBlock => "compressed block is corrupt"@,
            FormatError::LengthMismatch => "decoded length differs from the length in the header"@,
        }
    }

    /// A short description for a person to read.
    pub fn message(&self) -> (text: &'static str)
        ensures
            text@ == self.message_text(),
    {
        match self {
            FormatError::BadMagic => "not a mozLz4 container: magic tag missing",
            FormatError::Truncated => "input ends too early",
            FormatError::CorruptBlock => "compressed block is corrupt",
            FormatError::LengthMismatch => "decoded length differs from the length in the header",
        }
    }
}

impl CodecError {
    /// The text of `message`.
    pub open spec fn message_text(self) -> Seq<char> {
        match self {
            CodecError::Format(e) => e.message_text(),
            CodecError::Resource => "data too large for the block coder"@,
        }
    }

    /// A short description for a person to read.
    pub fn message(&self) -> (text: &'static str)
        ensures
            text@ == self.message_text(),
    {
        match self {
            CodecError::Format(e) => e.message(),
            CodecError::Resource => "data too large for the block coder",
        }
    }
}

} // verus!
