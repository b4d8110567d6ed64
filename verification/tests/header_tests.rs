use mozlz4_codec::error::FormatError;
use mozlz4_codec::header::{build, parse, Header, HEADER_LEN, MAGIC, MAGIC_LEN};

#[test]
fn magic_is_the_ascii_tag_and_a_zero() {
    assert_eq!(MAGIC_LEN, 8);
    assert_eq!(HEADER_LEN, 12);
    assert_eq!(&MAGIC[..], &b"mozLz40\0"[..]);
}

#[test]
fn build_writes_tag_then_length_least_significant_first() {
    assert_eq!(
        build(0),
        vec![0x6d, 0x6f, 0x7a, 0x4c, 0x7a, 0x34, 0x30, 0x00, 0, 0, 0, 0]
    );
    assert_eq!(
        build(0x0102_0304),
        vec![0x6d, 0x6f, 0x7a, 0x4c, 0x7a, 0x34, 0x30, 0x00, 4, 3, 2, 1]
    );
    assert_eq!(
        build(1000),
        vec![0x6d, 0x6f, 0x7a, 0x4c, 0x7a, 0x34, 0x30, 0x00, 0xe8, 0x03, 0, 0]
    );
    assert_eq!(
        build(u32::MAX),
        vec![0x6d, 0x6f, 0x7a, 0x4c, 0x7a, 0x34, 0x30, 0x00, 0xff, 0xff, 0xff, 0xff]
    );
}

#[test]
fn build_agrees_with_the_standard_encoding() {
    for n in [0u32, 1, 255, 256, 65535, 65536, 0x00ff_ffff, 0x0100_0000, 0x7fff_ffff, 0x8000_0000, u32::MAX] {
        let header = build(n);
        assert_eq!(header.len(), 12);
        assert_eq!(&header[..8], &MAGIC[..]);
        assert_eq!(&header[8..], &n.to_le_bytes()[..]);
    }
}

#[test]
fn parse_reads_length_and_borrows_the_block() {
    let bytes = vec![0x6d, 0x6f, 0x7a, 0x4c, 0x7a, 0x34, 0x30, 0x00, 5, 1, 0, 0, 9, 8, 7];
    let (header, block) = parse(&bytes).unwrap();
    assert_eq!(header, Header { uncompressed_length: 261 });
    assert_eq!(block, &[9u8, 8, 7][..]);
}

#[test]
fn parse_accepts_a_header_with_nothing_behind_it() {
    let bytes = build(7);
    let (header, block) = parse(&bytes).unwrap();
    assert_eq!(header.uncompressed_length, 7);
    assert!(block.is_empty());
}

#[test]
fn parse_after_build_gives_back_length_and_block() {
    for n in [0u32, 1, 12, 1000, 0x1234_5678, u32::MAX] {
        let mut bytes = build(n);
        bytes.extend_from_slice(&[0xaa, 0xbb, 0xcc]);
        let (header, block) = parse(&bytes).unwrap();
        assert_eq!(header.uncompressed_length, n);
        assert_eq!(block, &[0xaau8, 0xbb, 0xcc][..]);
    }
}

#[test]
fn parse_reports_short_input_as_truncated() {
    let full = build(3);
    for len in 0..12 {
        assert_eq!(parse(&full[..len]), Err(FormatError::Truncated));
    }
}

#[test]
fn parse_reports_short_input_as_truncated_before_looking_at_the_tag() {
    assert_eq!(parse(&[0u8; 10]), Err(FormatError::Truncated));
    assert_eq!(parse(&[]), Err(FormatError::Truncated));
}

#[test]
fn parse_reports_any_changed_tag_byte_as_bad_magic() {
    for at in 0..8 {
        let mut bytes = build(3);
        bytes.extend_from_slice(&[1, 2, 3]);
        bytes[at] ^= 0x01;
        assert_eq!(parse(&bytes), Err(FormatError::BadMagic));
    }
}

#[test]
fn parse_does_not_mind_the_length_field_or_the_block() {
    let mut bytes = build(0);
    bytes[8] = 0xff;
    bytes[11] = 0x80;
    let (header, block) = parse(&bytes).unwrap();
    assert_eq!(header.uncompressed_length, 0x8000_00ff);
    assert!(block.is_empty());
}
