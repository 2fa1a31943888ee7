use hayabusa_evtx::err::{ReadKind, TokenName};
use hayabusa_evtx::{BinXmlName, BinXmlNameLink, BinXmlNameRef, ByteCursor, DeserializationError, ReadFailure};
use quick_xml::events::{BytesEnd, BytesStart};

fn name_data(len: u16) -> Vec<u8> {
    let mut data = len.to_le_bytes().to_vec();
    for _ in 0..len {
        data.extend_from_slice(&[b'A', 0]);
    }
    data.extend_from_slice(&[0, 0]);
    data
}

fn inline_name_data(len: u16) -> Vec<u8> {
    let mut data = 4_u32.to_le_bytes().to_vec();
    // Next-string offset and name hash.
    data.extend_from_slice(&[0; 6]);
    data.extend_from_slice(&name_data(len));
    data
}

#[test]
fn test_inline_name_length_boundaries() {
    for len in [0, 1, 32767, 32768, u16::MAX] {
        let data = inline_name_data(len);
        let mut cursor = ByteCursor::new(data.as_slice());
        let name_ref = BinXmlNameRef::from_stream(&mut cursor).unwrap();
        assert_eq!(name_ref.offset, 4);
        assert_eq!(cursor.position(), data.len() as u64, "length {len}");
    }
}

#[test]
fn test_truncated_inline_name_returns_error() {
    for len in [0, 1, 32767, 32768, u16::MAX] {
        let data = inline_name_data(len);
        // A missing terminator byte must not be skipped past the input either.
        for available in [12, data.len() - 1] {
            let mut cursor = ByteCursor::new(&data[..available]);
            let error = BinXmlNameRef::from_stream(&mut cursor).unwrap_err();
            assert!(matches!(error, DeserializationError::Io(ReadFailure::UnexpectedEof)));
            assert_eq!(cursor.position(), 12);
        }
    }
}

#[test]
fn test_out_of_line_name_does_not_skip_input() {
    let data = 0_u32.to_le_bytes();
    let mut cursor = ByteCursor::new(data.as_slice());
    let name_ref = BinXmlNameRef::from_stream(&mut cursor).unwrap();
    assert_eq!(name_ref.offset, 0);
    assert_eq!(cursor.position(), 4);
}

#[test]
fn test_cached_name_length_boundaries() {
    for len in [0, 1, 32767, 32768, u16::MAX] {
        let data = name_data(len);
        let mut cursor = ByteCursor::new(data.as_slice());
        let name = BinXmlName::from_stream(&mut cursor).unwrap();
        assert_eq!(name.as_str(), "A".repeat(usize::from(len)));
        assert_eq!(cursor.position(), data.len() as u64, "length {len}");
    }
}

#[test]
fn test_truncated_large_cached_name_returns_error() {
    let data = [0, 0x80, 0, 0]; // Length 32768, but only one UTF-16 code unit.
    let mut cursor = ByteCursor::new(data.as_slice());
    assert!(BinXmlName::from_stream(&mut cursor).is_err());
}

#[test]
fn link_reads_offset_and_hash_little_endian() {
    let data = [0x04, 0x03, 0x02, 0x01, 0x34, 0x12, 0xff];
    let mut cursor = ByteCursor::new(&data);
    let link = BinXmlNameLink::from_stream(&mut cursor).unwrap();
    assert_eq!(link.next_string, Some(0x0102_0304));
    assert_eq!(link.hash, 0x1234);
    assert_eq!(cursor.position(), u64::from(BinXmlNameLink::data_size()));
}

#[test]
fn link_with_zero_next_offset_has_no_next_string() {
    let data = [0, 0, 0, 0, 0xcd, 0xab];
    let mut cursor = ByteCursor::new(&data);
    let link = BinXmlNameLink::from_stream(&mut cursor).unwrap();
    assert_eq!(link.next_string, None);
    assert_eq!(link.hash, 0xabcd);
}

#[test]
fn truncated_link_reports_the_failed_field() {
    let data = [1, 0, 0];
    let mut cursor = ByteCursor::new(&data);
    let error = BinXmlNameLink::from_stream(&mut cursor).unwrap_err();
    assert_eq!(
        error,
        DeserializationError::FailedToRead {
            t: ReadKind::U32,
            token_name: TokenName::Unknown,
            offset: 3,
            source: ReadFailure::UnexpectedEof,
        }
    );
    assert_eq!(cursor.position(), 3);

    let data = [1, 0, 0, 0, 7];
    let mut cursor = ByteCursor::new(&data);
    let error = BinXmlNameLink::from_stream(&mut cursor).unwrap_err();
    assert_eq!(
        error,
        DeserializationError::FailedToRead {
            t: ReadKind::U16,
            token_name: TokenName::NameHash,
            offset: 5,
            source: ReadFailure::UnexpectedEof,
        }
    );
}

#[test]
fn truncated_name_offset_is_reported() {
    let data = [4, 0];
    let mut cursor = ByteCursor::new(&data);
    let error = BinXmlNameRef::from_stream(&mut cursor).unwrap_err();
    assert_eq!(
        error,
        DeserializationError::FailedToRead {
            t: ReadKind::U32,
            token_name: TokenName::NameOffset,
            offset: 2,
            source: ReadFailure::UnexpectedEof,
        }
    );
}

#[test]
fn inline_name_with_truncated_length_is_an_io_error() {
    // Offset points inline, link complete, length missing one byte.
    let mut data = 4_u32.to_le_bytes().to_vec();
    data.extend_from_slice(&[0; 6]);
    data.push(3);
    let mut cursor = ByteCursor::new(&data);
    let error = BinXmlNameRef::from_stream(&mut cursor).unwrap_err();
    assert_eq!(error, DeserializationError::Io(ReadFailure::UnexpectedEof));
    assert_eq!(cursor.position(), data.len() as u64);
}

#[test]
fn inline_name_skip_matches_reading_link_and_name() {
    // A name "Ab" stored inline at offset 4.
    let mut data = 4_u32.to_le_bytes().to_vec();
    data.extend_from_slice(&[0, 0, 0, 0, 0x11, 0x22]);
    data.extend_from_slice(&[2, 0, b'A', 0, b'b', 0, 0, 0]);
    data.extend_from_slice(&[0xee; 3]);
    let mut skipping = ByteCursor::new(&data);
    BinXmlNameRef::from_stream(&mut skipping).unwrap();

    let mut reading = ByteCursor::new(&data);
    reading.set_position(4);
    BinXmlNameLink::from_stream(&mut reading).unwrap();
    let name = BinXmlName::from_stream(&mut reading).unwrap();
    assert_eq!(name.as_str(), "Ab");
    assert_eq!(skipping.position(), reading.position());
    assert_eq!(skipping.position(), 18);
}

#[test]
fn name_reference_elsewhere_in_chunk_reads_only_offset() {
    let data = [0x00, 0x02, 0x00, 0x00, 0xaa, 0xbb];
    let mut cursor = ByteCursor::new(&data);
    let name_ref = BinXmlNameRef::from_stream(&mut cursor).unwrap();
    assert_eq!(name_ref.offset, 0x200);
    assert_eq!(cursor.position(), 4);
}

#[test]
fn reads_never_leave_cursor_past_input() {
    let data = [4, 0, 0, 0, 0, 0, 0, 0, 0, 0, 0xff, 0xff];
    let mut cursor = ByteCursor::new(&data);
    assert!(BinXmlNameRef::from_stream(&mut cursor).is_err());
    assert!(cursor.position() <= data.len() as u64);

    let mut cursor = ByteCursor::new(&data);
    cursor.set_position(100);
    assert!(BinXmlName::from_stream(&mut cursor).is_err());
    assert_eq!(cursor.position(), data.len() as u64);
}

#[test]
fn cached_name_decodes_surrogate_pairs() {
    // "a" U+1F600 "z" followed by the terminator.
    let data = [4, 0, b'a', 0, 0x3d, 0xd8, 0x00, 0xde, b'z', 0, 0, 0];
    let mut cursor = ByteCursor::new(&data);
    let name = BinXmlName::from_stream(&mut cursor).unwrap();
    assert_eq!(name.as_str(), "a\u{1F600}z");
    assert_eq!(cursor.position(), 12);
}

#[test]
fn cached_name_stops_at_first_nul_unit() {
    let data = [3, 0, b'h', 0, 0, 0, b'x', 0, 0, 0];
    let mut cursor = ByteCursor::new(&data);
    let name = BinXmlName::from_stream(&mut cursor).unwrap();
    assert_eq!(name.as_str(), "h");
    assert_eq!(cursor.position(), 10);
}

#[test]
fn cached_name_with_unpaired_surrogate_is_invalid_data() {
    let data = [1, 0, 0x00, 0xdc, 0, 0];
    let mut cursor = ByteCursor::new(&data);
    let error = BinXmlName::from_stream(&mut cursor).unwrap_err();
    assert_eq!(
        error,
        DeserializationError::FailedToRead {
            t: ReadKind::LenPrefixedUtf16StrNulTerminated,
            token_name: TokenName::Name,
            offset: 4,
            source: ReadFailure::InvalidData,
        }
    );
}

#[test]
fn cached_name_missing_terminator_is_an_error() {
    let data = [1, 0, b'q', 0, 0];
    let mut cursor = ByteCursor::new(&data);
    let error = BinXmlName::from_stream(&mut cursor).unwrap_err();
    assert_eq!(
        error,
        DeserializationError::FailedToRead {
            t: ReadKind::LenPrefixedUtf16StrNulTerminated,
            token_name: TokenName::Name,
            offset: 5,
            source: ReadFailure::UnexpectedEof,
        }
    );
}

#[test]
fn names_from_text() {
    assert_eq!(BinXmlName::from_str("Event").as_str(), "Event");
    assert_eq!(BinXmlName::from_string(String::from("Data")).as_str(), "Data");
}

#[test]
fn xml_tags_are_named_after_the_name() {
    let name = BinXmlName::from_str("EventData");
    let start = BytesStart::from(&name);
    assert_eq!(start.name().as_ref(), b"EventData");
    let end = BytesEnd::from(&name);
    assert_eq!(end.name().as_ref(), b"EventData");
}
