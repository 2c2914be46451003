use disk_buffer::checksum::generate_checksum;
use disk_buffer::config::{default_endpoint, default_scrape_interval_secs};
use disk_buffer::endian::{push_be_u32, push_be_u64, push_le_u32, push_le_u64, read_be_u32, read_le_u32, read_le_u64};
use disk_buffer::events::CoercerConversionFailed;
use disk_buffer::record::{try_as_archive, try_as_record_archive, DeserializeError, Record, RecordStatus};

fn archive_of(id: u64, payload: &[u8]) -> Vec<u8> {
    Record::with_checksum(id, payload).to_archive()
}

fn expected_checksum(id: u64, payload: &[u8]) -> u32 {
    let mut data = id.to_be_bytes().to_vec();
    data.extend_from_slice(payload);
    crc32fast::hash(&data)
}

#[test]
fn checksum_covers_big_endian_id_then_payload() {
    assert_eq!(generate_checksum(1, b"hello"), expected_checksum(1, b"hello"));
    assert_ne!(generate_checksum(1, b"hello"), generate_checksum(2, b"hello"));
    assert_ne!(generate_checksum(1, b"hello"), generate_checksum(1, b"hellp"));
    assert_eq!(generate_checksum(0, b""), crc32fast::hash(&[0u8; 8]));
}

#[test]
fn archive_layout_is_exact() {
    let archive = archive_of(1, b"hello");
    let c = expected_checksum(1, b"hello").to_le_bytes();
    let expected: Vec<u8> = vec![
        b'h', b'e', b'l', b'l', b'o', 0, 0, 0,
        c[0], c[1], c[2], c[3], 0, 0, 0, 0,
        1, 0, 0, 0, 0, 0, 0, 0,
        0xe8, 0xff, 0xff, 0xff, 5, 0, 0, 0,
    ];
    assert_eq!(archive, expected);
}

#[test]
fn frame_prefixes_archive_length_big_endian() {
    let frame = Record::with_checksum(7, b"abc").to_frame();
    assert_eq!(&frame[..4], &[0, 0, 0, 32]);
    assert_eq!(&frame[4..], archive_of(7, b"abc").as_slice());
}

#[test]
fn empty_payload_archive_is_root_only() {
    let archive = archive_of(3, b"");
    assert_eq!(archive.len(), 24);
    assert_eq!(try_as_record_archive(&archive), RecordStatus::Valid(3));
}

#[test]
fn round_trip_gives_id_and_payload() {
    for (id, payload) in [(1u64, &b"hello"[..]), (u64::MAX, &b"12345678"[..]), (42, &[0u8, 255, 7][..])] {
        let archive = archive_of(id, payload);
        assert_eq!(try_as_record_archive(&archive), RecordStatus::Valid(id));
        let record = try_as_archive(&archive).ok().unwrap();
        assert_eq!(record.id(), id);
        assert_eq!(record.payload(), payload);
        assert_eq!(record.checksum(), expected_checksum(id, payload));
        assert_eq!(record.verify_checksum(), RecordStatus::Valid(id));
    }
}

#[test]
fn flipped_checksum_byte_is_corrupted() {
    let mut archive = archive_of(2, b"world");
    archive[8] ^= 0xff;
    let calculated = expected_checksum(2, b"world");
    let mut stored = calculated.to_le_bytes();
    stored[0] ^= 0xff;
    assert_eq!(
        try_as_record_archive(&archive),
        RecordStatus::Corrupted { calculated, actual: u32::from_le_bytes(stored) }
    );
}

#[test]
fn flipped_payload_bit_is_corrupted() {
    let mut archive = archive_of(2, b"world");
    archive[1] ^= 0x04;
    assert!(matches!(try_as_record_archive(&archive), RecordStatus::Corrupted { .. }));
}

#[test]
fn flipped_id_bit_is_corrupted() {
    let mut archive = archive_of(2, b"world");
    archive[16] ^= 0x01;
    assert!(matches!(try_as_record_archive(&archive), RecordStatus::Corrupted { .. }));
}

#[test]
fn status_with_compares_stored_checksum() {
    let record = try_as_archive(&archive_of(9, b"x")).ok().unwrap();
    let stored = record.checksum();
    assert_eq!(record.status_with(stored), RecordStatus::Valid(9));
    assert_eq!(
        record.status_with(stored ^ 1),
        RecordStatus::Corrupted { calculated: stored ^ 1, actual: stored }
    );
}

#[test]
fn too_short_buffer_fails() {
    assert_eq!(
        try_as_record_archive(&[0u8; 23]),
        RecordStatus::FailedDeserialization(DeserializeError::TooShort)
    );
    assert_eq!(
        try_as_record_archive(&[]),
        RecordStatus::FailedDeserialization(DeserializeError::TooShort)
    );
}

#[test]
fn misaligned_buffer_fails() {
    let mut archive = archive_of(1, b"hello");
    archive.insert(0, 0);
    assert_eq!(
        try_as_record_archive(&archive),
        RecordStatus::FailedDeserialization(DeserializeError::Misaligned)
    );
}

#[test]
fn bad_payload_offset_fails() {
    let mut archive = archive_of(1, b"hello");
    archive[24] ^= 0x08;
    assert_eq!(
        try_as_record_archive(&archive),
        RecordStatus::FailedDeserialization(DeserializeError::BadPayloadOffset)
    );
}

#[test]
fn bad_payload_length_fails() {
    let mut archive = archive_of(1, b"hello");
    archive[28] = 9;
    assert_eq!(
        try_as_record_archive(&archive),
        RecordStatus::FailedDeserialization(DeserializeError::BadPayloadLength)
    );
}

#[test]
fn non_zero_padding_fails() {
    let mut archive = archive_of(1, b"hello");
    archive[13] = 1;
    assert_eq!(
        try_as_record_archive(&archive),
        RecordStatus::FailedDeserialization(DeserializeError::NonZeroPadding)
    );
    let mut archive = archive_of(1, b"hello");
    archive[6] = 1;
    assert_eq!(
        try_as_record_archive(&archive),
        RecordStatus::FailedDeserialization(DeserializeError::NonZeroPadding)
    );
}

#[test]
fn byte_orders() {
    let mut out = Vec::new();
    push_le_u32(&mut out, 0x0102_0304);
    push_be_u32(&mut out, 0x0102_0304);
    push_le_u64(&mut out, 0x0102_0304_0506_0708);
    push_be_u64(&mut out, 0x0102_0304_0506_0708);
    assert_eq!(&out[..8], &[4, 3, 2, 1, 1, 2, 3, 4]);
    assert_eq!(&out[8..16], &[8, 7, 6, 5, 4, 3, 2, 1]);
    assert_eq!(&out[16..], &[1, 2, 3, 4, 5, 6, 7, 8]);
    assert_eq!(read_le_u32(&out, 0), 0x0102_0304);
    assert_eq!(read_be_u32(&out, 4), 0x0102_0304);
    assert_eq!(read_le_u64(&out, 8), 0x0102_0304_0506_0708);
}

#[test]
fn source_defaults() {
    assert_eq!(default_scrape_interval_secs(), 15);
    assert_eq!(default_endpoint(), "https://localhost:2113/stats");
}

#[test]
fn coercer_event_holds_field_and_error() {
    let event = CoercerConversionFailed { field: "status", error: "not a number".to_string() };
    assert_eq!(event.field, "status");
    assert_eq!(event.error, "not a number");
}
