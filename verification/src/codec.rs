use vstd::prelude::*;
use crate::block::{
    block_decoded, compress_block, decompress_block, MAX_BLOCK_LEN, MAX_INPUT_LEN,
};
use crate::error::{outcome, CodecError, FormatError};
use crate::header::{
    build, header_bytes, lemma_le_bytes_of_value, lemma_parse_of_built, lemma_parsed_is_built,
    magic, parse, parsed, recorded_length, HEADER_LEN, MAGIC_LEN,
};

verus! {

/// What `decompress` returns for a container: the header is taken off, and
/// the block behind it is decoded to the length that the header records.
pub open spec fn decompressed(container: Seq<u8>) -> Result<Seq<u8>, CodecError> {
    match parsed(container) {
        Ok((header, block)) => block_decoded(block, header.uncompressed_length),
        Err(e) => Err(CodecError::Format(e)),
    }
}

/// `container` holds `data`: it is the header that records the length of
/// `data`, followed by a block that decodes to `data`.
pub open spec fn is_container_of(container: Seq<u8>, data: Seq<u8>) -> bool {
    &&& data.len() <= MAX_BLOCK_LEN
    &&& container.len() >= HEADER_LEN
    &&& container.subrange(0, HEADER_LEN as int) == header_bytes(data.len() as u32)
    &&& block_decoded(container.skip(HEADER_LEN as int), data.len() as u32) == Ok::<
        Seq<u8>,
        CodecError,
    >(data)
}

/// Round trip: a container of some data decompresses to that data.
pub proof fn lemma_round_trip(container: Seq<u8>, data: Seq<u8>)
    requires
        is_container_of(container, data),
    ensures
        decompressed(container) == Ok::<Seq<u8>, CodecError>(data),
{
    assert(container =~= container.subrange(0, 12) + container.skip(12));
    lemma_parse_of_built(data.len() as u32, container.skip(12));
}

/// What decompresses to some data is a container of that data; so the data
/// has exactly the length that the header records.
pub proof fn lemma_decompressed_is_contained(container: Seq<u8>)
    requires
        decompressed(container) is Ok,
    ensures
        is_container_of(container, decompressed(container)->Ok_0),
        decompressed(container)->Ok_0.len() == recorded_length(container),
{
    let header = parsed(container)->Ok_0.0;
    let block = parsed(container)->Ok_0.1;
    lemma_parsed_is_built(container);
    lemma_le_bytes_of_value(container.subrange(8, 12));
    assert(container.subrange(0, 12) =~= header_bytes(header.uncompressed_length));
}

/// An input of twelve bytes or more that begins with other bytes than the
/// magic tag is refused with `BadMagic`, whatever the rest holds.
pub proof fn lemma_wrong_magic_is_refused(container: Seq<u8>)
    requires
        container.len() >= HEADER_LEN,
        container.subrange(0, MAGIC_LEN as int) != magic(),
    ensures
        decompressed(container) == Err::<Seq<u8>, CodecError>(
            CodecError::Format(FormatError::BadMagic),
        ),
{
}

/// An input shorter than a header is refused with `Truncated`.
pub proof fn lemma_short_input_is_truncated(container: Seq<u8>)
    requires
        container.len() < HEADER_LEN,
    ensures
        decompressed(container) == Err::<Seq<u8>, CodecError>(
            CodecError::Format(FormatError::Truncated),
        ),
{
}

/// A header without a block behind it is refused with `Truncated`.
pub proof fn lemma_missing_block_is_truncated(n: u32)
    ensures
        decompressed(header_bytes(n)) == Err::<Seq<u8>, CodecError>(
            CodecError::Format(FormatError::Truncated),
        ),
{
    lemma_parse_of_built(n, Seq::<u8>::empty());
    assert(header_bytes(n) + Seq::<u8>::empty() =~= header_bytes(n));
}

/// Where a block decompresses under the header for `n`, putting the header
/// for another length `m` in front of it never gives the same data, nor data
/// of another length than `m`: the outcome is `CorruptBlock`,
/// `LengthMismatch`, `Resource` (only for `m` over `MAX_BLOCK_LEN`), or
/// exactly `m` bytes.
pub proof fn lemma_changed_length_is_noticed(block: Seq<u8>, n: u32, m: u32)
    requires
        decompressed(header_bytes(n) + block) is Ok,
        m != n,
    ensures
        match decompressed(header_bytes(m) + block) {
            Ok(data) => data.len() == m && data != decompressed(header_bytes(n) + block)->Ok_0,
            Err(e) => {
                ||| e == CodecError::Format(FormatError::CorruptBlock)
                ||| e == CodecError::Format(FormatError::LengthMismatch)
                ||| e == CodecError::Resource && m > MAX_BLOCK_LEN
            },
        },
{
    lemma_parse_of_built(n, block);
    lemma_parse_of_built(m, block);
}

/// Compressing what a container decompresses to gives a container of the
/// data that the first one was made of.
pub proof fn lemma_second_container_holds_the_same(
    data: Seq<u8>,
    first: Seq<u8>,
    second: Seq<u8>,
)
    requires
        is_container_of(first, data),
        decompressed(first) is Ok,
        is_container_of(second, decompressed(first)->Ok_0),
    ensures
        decompressed(second) == Ok::<Seq<u8>, CodecError>(data),
{
    lemma_round_trip(first, data);
    lemma_round_trip(second, data);
}

/// Compresses `input` into a container: the header that records the length
/// of `input`, and behind it the block that stands for `input`.
///
/// A container is returned for every input of at most `MAX_INPUT_LEN`
/// bytes, and for no other; the error is `Resource`. The container
/// decompresses to `input`.
pub fn compress(input: &[u8]) -> (r: Result<Vec<u8>, CodecError>)
    ensures
        r is Ok <==> input@.len() <= MAX_INPUT_LEN,
        r matches Err(e) ==> e == CodecError::Resource,
        r matches Ok(container) ==> {
            &&& is_container_of(container@, input@)
            &&& container@.len() > HEADER_LEN
            &&& decompressed(container@) == Ok::<Seq<u8>, CodecError>(input@)
        },
{
    match compress_block(input) {
        Ok(block) => {
            let mut container = build(input.len() as u32);
            container.extend_from_slice(block.as_slice());
            proof {
                assert(container@.subrange(0, 12) =~= header_bytes(input@.len() as u32));
                assert(container@.skip(12) =~= block@);
                lemma_round_trip(container@, input@);
            }
            Ok(container)
        },
        Err(e) => Err(e),
    }
}

/// Decompresses a container into the data that it was made of.
///
/// Returns the data only where the block decodes to exactly the length that
/// the header records. Fails with `Truncated` where the input is shorter
/// than a header or ends with the header, with `BadMagic` where twelve bytes
/// or more begin with other bytes than the magic tag, with `CorruptBlock`
/// where the block coder refuses the block, with `LengthMismatch` where the
/// block decodes to another length than recorded, and with `Resource` where
/// the block or the recorded length is over `MAX_BLOCK_LEN`.
pub fn decompress(container: &[u8]) -> (r: Result<Vec<u8>, CodecError>)
    ensures
        outcome(r) == decompressed(container@),
{
    match parse(container) {
        Ok((header, block)) => decompress_block(block, header.uncompressed_length),
        Err(e) => Err(CodecError::Format(e)),
    }
}

} // verus!
