use vstd::prelude::*;
use crate::error::FormatError;

verus! {

/// Length of the magic tag.
pub const MAGIC_LEN: usize = 8;

/// Length of the header: the magic tag and the four bytes of the length field.
pub const HEADER_LEN: usize = 12;

/// The magic tag: the ASCII text `mozLz40` and a zero byte.
pub const MAGIC: [u8; 8] = [0x6d, 0x6f, 0x7a, 0x4c, 0x7a, 0x34, 0x30, 0x00];

/// What a header records beside the magic tag.
#[derive(Clone, Copy, Debug, PartialEq, Eq, Structural)]
pub struct Header {
    /// Length in bytes of the data before compression.
    pub uncompressed_length: u32,
}

/// The magic tag as a sequence.
pub open spec fn magic() -> Seq<u8> {
    MAGIC@
}

/// The four bytes of `n`, least significant first.
pub open spec fn le_bytes(n: u32) -> Seq<u8> {
    seq![
        (n % 256) as u8,
        (n / 256 % 256) as u8,
        (n / 65536 % 256) as u8,
        (n / 16777216) as u8,
    ]
}

/// The number whose four bytes, least significant first, are `b`.
pub open spec fn le_value(b: Seq<u8>) -> int
    recommends
        b.len() == 4,
{
    b[0] + 256 * b[1] + 65536 * b[2] + 16777216 * b[3]
}

/// The twelve bytes of the header that records `n`.
pub open spec fn header_bytes(n: u32) -> Seq<u8> {
    magic() + le_bytes(n)
}

/// The number in the length field of a container.
pub open spec fn recorded_length(container: Seq<u8>) -> int
    recommends
        container.len() >= HEADER_LEN,
{
    le_value(container.subrange(MAGIC_LEN as int, HEADER_LEN as int))
}

/// What `parse` makes of `bytes`: the header and the bytes behind it, or the
/// reason why there is no header. Too short an input is reported before a
/// wrong tag.
pub open spec fn parsed(bytes: Seq<u8>) -> Result<(Header, Seq<u8>), FormatError> {
    if bytes.len() < HEADER_LEN {
        Err(FormatError::Truncated)
    } else if bytes.subrange(0, MAGIC_LEN as int) != magic() {
        Err(FormatError::BadMagic)
    } else {
        Ok(
            (
                Header { uncompressed_length: recorded_length(bytes) as u32 },
                bytes.skip(HEADER_LEN as int),
            ),
        )
    }
}

/// Reading four bytes gives back the number they were written from.
pub proof fn lemma_le_value_of_bytes(n: u32)
    ensures
        le_bytes(n).len() == 4,
        le_value(le_bytes(n)) == n,
{
}

/// Four bytes are the bytes of the number they spell.
pub proof fn lemma_le_bytes_of_value(b: Seq<u8>)
    requires
        b.len() == 4,
    ensures
        0 <= le_value(b) <= u32::MAX,
        le_bytes(le_value(b) as u32) == b,
{
    let b0 = b[0] as int;
    let b1 = b[1] as int;
    let b2 = b[2] as int;
    let b3 = b[3] as int;
    let hi2 = b2 + 256 * b3;
    let hi1 = b1 + 256 * hi2;
    let v = b0 + 256 * hi1;
    assert(v == le_value(b));
    assert(v % 256 == b0 && v / 256 == hi1);
    assert(hi1 % 256 == b1 && hi1 / 256 == hi2);
    assert(hi2 % 256 == b2 && hi2 / 256 == b3);
    assert(v / 65536 == hi2);
    assert(v / 16777216 == b3);
    assert(le_bytes(v as u32) =~= b);
}

/// A header in front of any bytes is read back as it was written: `parse`
/// after `build` gives the recorded length and the bytes that follow.
pub proof fn lemma_parse_of_built(n: u32, block: Seq<u8>)
    ensures
        header_bytes(n).len() == 12,
        parsed(header_bytes(n) + block) == Ok::<(Header, Seq<u8>), FormatError>(
            (Header { uncompressed_length: n }, block),
        ),
{
    let bytes = header_bytes(n) + block;
    assert(bytes.subrange(0, 8) =~= magic());
    assert(bytes.subrange(8, 12) =~= le_bytes(n));
    assert(bytes.skip(12) =~= block);
    lemma_le_value_of_bytes(n);
}

/// Whatever `parse` accepts is the header that `build` writes for the length
/// found, followed by the block found.
pub proof fn lemma_parsed_is_built(bytes: Seq<u8>)
    requires
        parsed(bytes) is Ok,
    ensures
        bytes == header_bytes(parsed(bytes)->Ok_0.0.uncompressed_length) + parsed(bytes)->Ok_0.1,
{
    let header = parsed(bytes)->Ok_0.0;
    let block = parsed(bytes)->Ok_0.1;
    lemma_le_bytes_of_value(bytes.subrange(8, 12));
    assert(bytes.subrange(0, 8) == magic());
    assert(bytes =~= bytes.subrange(0, 8) + bytes.subrange(8, 12) + bytes.skip(12));
    assert(header_bytes(header.uncompressed_length) + block =~= bytes.subrange(0, 8)
        + bytes.subrange(8, 12) + bytes.skip(12));
}

/// Whether `bytes` begins with the magic tag.
fn starts_with_magic(bytes: &[u8]) -> (r: bool)
    requires
        bytes@.len() >= MAGIC_LEN,
    ensures
        r == (bytes@.subrange(0, MAGIC_LEN as int) == magic()),
{
    let mut i: usize = 0;
    while i < MAGIC_LEN
        invariant
            i <= MAGIC_LEN,
            bytes@.len() >= MAGIC_LEN,
            forall|j: int| 0 <= j < i ==> bytes@[j] == magic()[j],
        decreases MAGIC_LEN - i,
    {
        if bytes[i] != MAGIC[i] {
            assert(bytes@.subrange(0, 8)[i as int] != magic()[i as int]);
            return false;
        }
        i += 1;
    }
    assert(bytes@.subrange(0, 8) =~= magic());
    true
}

/// The number that the four bytes from `at` on spell, least significant first.
fn read_le32(bytes: &[u8], at: usize) -> (n: u32)
    requires
        at + 4 <= bytes@.len(),
    ensures
        n == le_value(bytes@.subrange(at as int, at + 4)),
{
    let b0: u32 = bytes[at] as u32;
    let b1: u32 = bytes[at + 1] as u32;
    let b2: u32 = bytes[at + 2] as u32;
    let b3: u32 = bytes[at + 3] as u32;
    b0 + 256 * b1 + 65536 * b2 + 16777216 * b3
}

/// Takes a container apart: the header it begins with, and the compressed
/// block behind it, which is borrowed from `bytes`.
///
/// Fails with `Truncated` where `bytes` is shorter than a header, and with
/// `BadMagic` where it is long enough but begins with other bytes than the
/// magic tag.
pub fn parse(bytes: &[u8]) -> (r: Result<(Header, &[u8]), FormatError>)
    ensures
        match r {
            Ok((header, block)) => parsed(bytes@) == Ok::<(Header, Seq<u8>), FormatError>(
                (header, block@),
            ),
            Err(e) => parsed(bytes@) == Err::<(Header, Seq<u8>), FormatError>(e),
        },
{
    if bytes.len() < HEADER_LEN {
        return Err(FormatError::Truncated);
    }
    if !starts_with_magic(bytes) {
        return Err(FormatError::BadMagic);
    }
    let uncompressed_length = read_le32(bytes, MAGIC_LEN);
    let block = vstd::slice::slice_subrange(bytes, HEADER_LEN, bytes.len());
    Ok((Header { uncompressed_length }, block))
}

/// The twelve bytes of the header that records `uncompressed_length`: the
/// magic tag, then the length, least significant byte first.
pub fn build(uncompressed_length: u32) -> (header: Vec<u8>)
    ensures
        header@ == header_bytes(uncompressed_length),
{
    let n: u32 = uncompressed_length;
    let mut header: Vec<u8> = Vec::with_capacity(HEADER_LEN);
    let mut i: usize = 0;
    while i < MAGIC_LEN
        invariant
            i <= MAGIC_LEN,
            header@ == magic().subrange(0, i as int),
        decreases MAGIC_LEN - i,
    {
        header.push(MAGIC[i]);
        assert(header@ =~= magic().subrange(0, i + 1));
        i += 1;
    }
    header.push((n % 256) as u8);
    header.push((n / 256 % 256) as u8);
    header.push((n / 65536 % 256) as u8);
    header.push((n / 16777216) as u8);
    assert(header@ =~= header_bytes(n));
    header
}

} // verus!
