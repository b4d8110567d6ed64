use vstd::prelude::*;
use vstd::slice::slice_to_vec;
use crate::error::{outcome, CodecError, FormatError};
use crate::header::{
    build, header_bytes, lemma_parse_of_built, parse, parsed, recorded_length, HEADER_LEN,
};

verus! {

/// The greatest length that the block coder can be handed to decode, for a
/// block and for the data that a block stands for: it counts bytes in signed
/// 32-bit integers.
pub const MAX_BLOCK_LEN: usize = 0x7FFF_FFFF;

/// The greatest length of data that the block coder compresses.
pub const MAX_INPUT_LEN: usize = 0x7E00_0000;

/// What `mozlz4::decompress` makes of a container: the bytes that it decodes
/// the container to, or `None` where it refuses the container. Nothing but
/// the container's bytes enters into it.
pub uninterp spec fn lz4_unpacked(container: Seq<u8>) -> Option<Seq<u8>>;

/// What the block coder returned, without the text of a refusal.
pub open spec fn answer(r: Result<Vec<u8>, String>) -> Option<Seq<u8>> {
    match r {
        Ok(bytes) => Some(bytes@),
        Err(_) => None,
    }
}

/// `mozlz4::decompress`, which reads the length field of a container and has
/// LZ4 decode the block behind the header into a buffer of that length.
///
/// Believed, not proved: the outcome is a function of the container's bytes,
/// named `lz4_unpacked`.
///
/// Asked of the caller: the block's length and the length field are numbers
/// that the function passes on to LZ4 unchanged, as signed 32-bit integers;
/// and the block is not empty, since LZ4 reads a block's first byte without
/// looking at the block's length.
#[verifier::external_body]
fn lz4_unpack(container: Vec<u8>) -> (r: Result<Vec<u8>, String>)
    requires
        HEADER_LEN < container@.len() <= HEADER_LEN + MAX_BLOCK_LEN,
        recorded_length(container@) <= MAX_BLOCK_LEN,
    ensures
        answer(r) == lz4_unpacked(container@),
{
    mozlz4::decompress(container)
}

/// `mozlz4::compress`, which writes the header for the input's length and
/// has LZ4 compress the input into a buffer of the size that LZ4 asks for.
///
/// Believed, not proved: a container is returned, since LZ4 promises to
/// succeed with a buffer of that size on an input of at most `MAX_INPUT_LEN`
/// bytes; the container begins with the header that records the input's
/// length; a block follows, of a length that fits a signed 32-bit integer;
/// and, LZ4 being lossless, `mozlz4::decompress` decodes the container to the
/// input. Which bytes the block holds is left open.
#[verifier::external_body]
fn lz4_pack(input: &[u8]) -> (r: Result<Vec<u8>, String>)
    requires
        input@.len() <= MAX_INPUT_LEN,
    ensures
        r is Ok,
        r matches Ok(container) ==> {
            &&& HEADER_LEN < container@.len() <= HEADER_LEN + MAX_BLOCK_LEN
            &&& container@.subrange(0, HEADER_LEN as int) == header_bytes(input@.len() as u32)
            &&& lz4_unpacked(container@) == Some(input@)
        },
{
    mozlz4::compress(input.to_vec())
}

/// What is made of the block coder's answer to a block that should decode to
/// `expected_length` bytes: a refusal means a corrupt block, and bytes are
/// accepted only in the expected number.
pub open spec fn accepted(expected_length: u32, unpacked: Option<Seq<u8>>) -> Result<
    Seq<u8>,
    CodecError,
> {
    match unpacked {
        None => Err(CodecError::Format(FormatError::CorruptBlock)),
        Some(data) => if data.len() == expected_length {
            Ok(data)
        } else {
            Err(CodecError::Format(FormatError::LengthMismatch))
        },
    }
}

/// What `decompress_block` returns for a block and the length expected of
/// its data. An empty block lacks its first token. A block, or an expected
/// length, over `MAX_BLOCK_LEN` is not handed to the block coder. Any other
/// block is framed by the header for `expected_length` and decoded.
pub open spec fn block_decoded(block: Seq<u8>, expected_length: u32) -> Result<
    Seq<u8>,
    CodecError,
> {
    if block.len() == 0 {
        Err(CodecError::Format(FormatError::Truncated))
    } else if block.len() > MAX_BLOCK_LEN || expected_length > MAX_BLOCK_LEN {
        Err(CodecError::Resource)
    } else {
        accepted(expected_length, lz4_unpacked(header_bytes(expected_length) + block))
    }
}

/// Judges what the block coder returned for a block that should decode to
/// `expected_length` bytes.
///
/// The bytes are passed on where there are exactly `expected_length` of
/// them. Another number of them is a `LengthMismatch`, and a refusal by the
/// block coder a `CorruptBlock`.
pub fn unpacked_data(expected_length: u32, unpacked: Result<Vec<u8>, String>) -> (r: Result<
    Vec<u8>,
    CodecError,
>)
    ensures
        outcome(r) == accepted(expected_length, answer(unpacked)),
{
    match unpacked {
        Ok(data) => {
            if data.len() == expected_length as usize {
                Ok(data)
            } else {
                Err(CodecError::Format(FormatError::LengthMismatch))
            }
        },
        Err(_) => Err(CodecError::Format(FormatError::CorruptBlock)),
    }
}

/// Takes the block out of what the block coder returned for some input.
///
/// A refusal by the block coder is a `Resource` error, and so is an answer
/// that does not begin with a header.
pub fn packed_block(packed: Result<Vec<u8>, String>) -> (r: Result<Vec<u8>, CodecError>)
    ensures
        outcome(r) == match packed {
            Ok(container) => match parsed(container@) {
                Ok((_, block)) => Ok(block),
                Err(_) => Err(CodecError::Resource),
            },
            Err(_) => Err(CodecError::Resource),
        },
{
    match packed {
        Ok(container) => match parse(container.as_slice()) {
            Ok((_, block)) => Ok(slice_to_vec(block)),
            Err(_) => Err(CodecError::Resource),
        },
        Err(_) => Err(CodecError::Resource),
    }
}

/// Decodes a compressed block that should stand for `expected_length` bytes.
///
/// Returns the bytes only where the block decodes to exactly
/// `expected_length` of them. Fails with `Truncated` on an empty block, with
/// `CorruptBlock` where the block coder refuses the block, with
/// `LengthMismatch` where it decodes to another number of bytes, and with
/// `Resource` where the block or `expected_length` is over `MAX_BLOCK_LEN`.
pub fn decompress_block(compressed: &[u8], expected_length: u32) -> (r: Result<
    Vec<u8>,
    CodecError,
>)
    ensures
        outcome(r) == block_decoded(compressed@, expected_length),
{
    if compressed.len() == 0 {
        return Err(CodecError::Format(FormatError::Truncated));
    }
    if compressed.len() > MAX_BLOCK_LEN || expected_length as usize > MAX_BLOCK_LEN {
        return Err(CodecError::Resource);
    }
    let mut container = build(expected_length);
    container.extend_from_slice(compressed);
    // Before the block coder notices that a block has ended too early, it may
    // have read up to two bytes behind it: they are to lie inside the buffer.
    container.reserve(2);
    proof {
        lemma_parse_of_built(expected_length, compressed@);
        assert(container@ == header_bytes(expected_length) + compressed@);
    }
    let unpacked = lz4_unpack(container);
    unpacked_data(expected_length, unpacked)
}

/// Compresses `input` into a block.
///
/// A block is returned for every input of at most `MAX_INPUT_LEN` bytes, and
/// for no other; the error is `Resource`. The block is not empty, and
/// `decompress_block` decodes it back to `input` when told the length of
/// `input`.
pub fn compress_block(input: &[u8]) -> (r: Result<Vec<u8>, CodecError>)
    ensures
        r is Ok <==> input@.len() <= MAX_INPUT_LEN,
        r matches Err(e) ==> e == CodecError::Resource,
        r matches Ok(block) ==> {
            &&& 0 < block@.len() <= MAX_BLOCK_LEN
            &&& block_decoded(block@, input@.len() as u32) == Ok::<Seq<u8>, CodecError>(input@)
        },
{
    if input.len() > MAX_INPUT_LEN {
        return Err(CodecError::Resource);
    }
    let packed = lz4_pack(input);
    proof {
        let container = packed->Ok_0@;
        assert(container =~= container.subrange(0, 12) + container.skip(12));
        lemma_parse_of_built(input@.len() as u32, container.skip(12));
    }
    packed_block(packed)
}

} // verus!
