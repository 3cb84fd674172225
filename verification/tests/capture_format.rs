use tachtalk::capture_format::{
    CaptureBuffer, CaptureHeader, HeaderError, ReadErrorKind, RecordError, RecordIter, RecordType,
    FLAG_NTP_SYNCED, FLAG_OVERFLOW, HEADER_SIZE, VERSION,
};

#[test]
fn header_roundtrip() {
    let mut header = CaptureHeader {
        record_count: 42,
        data_length: 1234,
        dongle_ip: [192, 168, 1, 100],
        dongle_port: 35000,
        flags: FLAG_OVERFLOW,
        ..CaptureHeader::default()
    };
    header.set_firmware_version("0.1.0");

    let bytes = header.to_bytes();
    let parsed = CaptureHeader::from_bytes(&bytes)
        .expect("should not fail")
        .expect("should parse");

    assert_eq!(parsed.version, VERSION);
    let expected_header_size = u16::try_from(HEADER_SIZE).expect("HEADER_SIZE fits in u16");
    assert_eq!(parsed.header_size, expected_header_size);
    assert_eq!(parsed.record_count, 42);
    assert_eq!(parsed.data_length, 1234);
    assert_eq!(parsed.dongle_ip, [192, 168, 1, 100]);
    assert_eq!(parsed.dongle_port, 35000);
    assert!(parsed.overflow());
    assert!(!parsed.ntp_synced());
    assert_eq!(parsed.firmware_version_str(), "0.1.0");
}

#[test]
fn bad_magic_rejected() {
    let mut bytes = [0u8; HEADER_SIZE];
    bytes[0..8].copy_from_slice(b"NotValid");
    let result = CaptureHeader::from_bytes(&bytes);
    assert!(result.is_err());
    assert!(matches!(result, Err(HeaderError::InvalidMagic)));
}

#[test]
fn too_short_rejected() {
    let bytes = [0u8; 32];
    let result = CaptureHeader::from_bytes(&bytes);
    assert!(result.is_err());
    assert!(matches!(result, Err(HeaderError::UnexpectedEof)));
}

#[test]
fn record_iter_basic() {
    let mut data = Vec::new();
    // Record: timestamp=100ms, type=TX, len=3, data="ATZ"
    data.extend_from_slice(&100u32.to_le_bytes());
    data.push(RecordType::ClientToDongle.to_u8());
    data.extend_from_slice(&3u16.to_le_bytes());
    data.extend_from_slice(b"ATZ");

    // Record: timestamp=150ms, type=RX, len=5, data="ELM\r>"
    data.extend_from_slice(&150u32.to_le_bytes());
    data.push(RecordType::DongleToClient.to_u8());
    data.extend_from_slice(&5u16.to_le_bytes());
    data.extend_from_slice(b"ELM\r>");

    let records: Vec<_> = RecordIter::new(data.as_slice())
        .collect()
        .expect("should parse");
    assert_eq!(records.len(), 2);
    assert_eq!(records[0].timestamp_ms, 100);
    assert_eq!(records[0].record_type, RecordType::ClientToDongle);
    assert_eq!(records[0].data, b"ATZ".as_slice());
    assert_eq!(records[1].timestamp_ms, 150);
    assert_eq!(records[1].record_type, RecordType::DongleToClient);
    assert_eq!(records[1].data, b"ELM\r>".as_slice());
}

#[test]
fn record_iter_connect_disconnect() {
    let mut data = Vec::new();
    // Connect event: no data
    data.extend_from_slice(&0u32.to_le_bytes());
    data.push(RecordType::Connect.to_u8());
    data.extend_from_slice(&0u16.to_le_bytes());

    // Disconnect event: no data
    data.extend_from_slice(&5000u32.to_le_bytes());
    data.push(RecordType::Disconnect.to_u8());
    data.extend_from_slice(&0u16.to_le_bytes());

    let records: Vec<_> = RecordIter::new(data.as_slice())
        .collect()
        .expect("should parse");
    assert_eq!(records.len(), 2);
    assert_eq!(records[0].record_type, RecordType::Connect);
    assert!(records[0].data.is_empty());
    assert_eq!(records[1].record_type, RecordType::Disconnect);
    assert_eq!(records[1].timestamp_ms, 5000);
}

#[test]
fn record_iter_truncated_header() {
    let data = [0u8; 5]; // less than RECORD_HEADER_SIZE
    let result: Result<Vec<_>, _> = RecordIter::new(data.as_slice()).collect();
    let err = result.unwrap_err();
    match err {
        RecordError::Io(ref e) => {
            assert_eq!(*e, ReadErrorKind::UnexpectedEof);
        }
        RecordError::InvalidType { .. } => panic!("expected IO error, got: {err:?}"),
    }
}

#[test]
fn nothing_is_no_header() {
    assert!(CaptureHeader::from_bytes(&[]).expect("no error").is_none());
}

#[test]
fn header_layout_is_fixed() {
    let mut header = CaptureHeader {
        record_count: 0x0102_0304,
        capture_start_ms: 0x1122_3344_5566_7788,
        flags: FLAG_NTP_SYNCED,
        ..CaptureHeader::default()
    };
    header.set_firmware_version("v1");
    let bytes = header.to_bytes();
    assert_eq!(bytes.len(), 64);
    assert_eq!(bytes[12..16], [4, 3, 2, 1]);
    assert_eq!(bytes[20..28], [0x88, 0x77, 0x66, 0x55, 0x44, 0x33, 0x22, 0x11]);
    assert_eq!(bytes[34..39], [2, 0, b'v', b'1', 0]);
    let again = CaptureHeader::from_bytes(&bytes).unwrap().unwrap();
    assert_eq!(again.capture_start_ms, 0x1122_3344_5566_7788);
    assert_eq!(again.record_count, 0x0102_0304);
    assert!(again.ntp_synced());
    assert_eq!(again.to_bytes(), bytes);
}

#[test]
fn long_firmware_version_is_cut() {
    let mut header = CaptureHeader::default();
    header.set_firmware_version("0123456789abcdef0123456789abcdef");
    assert_eq!(header.firmware_version_str(), "0123456789abcde");
}

#[test]
fn unknown_record_type_is_reported_with_its_place() {
    let mut data = vec![0, 0, 0, 0, RecordType::Connect.to_u8(), 0, 0];
    data.extend_from_slice(&[0, 0, 0, 0, 0xee, 0, 0]);
    let err = RecordIter::new(&data).collect().unwrap_err();
    assert!(matches!(
        err,
        RecordError::InvalidType {
            offset: 7,
            type_byte: 0xee,
        }
    ));
    assert_eq!(err.message(), "invalid record type 0xee at offset 7");
}

#[test]
fn record_types_have_codes_and_labels() {
    for (record_type, label) in [
        (RecordType::ClientToDongle, "TX"),
        (RecordType::DongleToClient, "RX"),
        (RecordType::Connect, "CONNECT"),
        (RecordType::Disconnect, "DISCONNECT"),
    ] {
        assert_eq!(record_type.label(), label);
        assert_eq!(RecordType::from_u8(record_type.to_u8()), Some(record_type));
    }
    assert_eq!(RecordType::from_u8(0xff), None);
}

#[test]
fn recorded_events_read_back() {
    let mut buffer = CaptureBuffer::default();
    buffer.record_event(5, RecordType::Connect, &[], 1000);
    buffer.record_event(17, RecordType::ClientToDongle, b"010C\r", 1000);
    assert_eq!(buffer.record_count, 2);
    let records = RecordIter::new(&buffer.bytes).collect().unwrap();
    assert_eq!(records.len(), 2);
    assert_eq!(records[1].timestamp_ms, 17);
    assert_eq!(records[1].data, b"010C\r");

    // One byte too many: the record is dropped, and the overflow is noted.
    let full = u32::try_from(buffer.bytes.len()).unwrap() + 7;
    buffer.record_event(20, RecordType::DongleToClient, b">", full);
    assert!(buffer.overflow);
    assert_eq!(buffer.record_count, 2);

    let len = u32::try_from(buffer.bytes.len()).unwrap();
    let header = buffer.build_capture_header(len, [10, 0, 0, 1], 35000, "v2");
    let parsed = CaptureHeader::from_bytes(&header).unwrap().unwrap();
    assert_eq!(parsed.record_count, 2);
    assert_eq!(parsed.data_length, len);
    assert_eq!(parsed.firmware_version_str(), "v2");
    assert!(parsed.overflow());

    buffer.clear();
    assert!(buffer.bytes.is_empty() && !buffer.overflow && buffer.record_count == 0);
}
