use disk_buffer::reader::{IdUpdate, NextStep, ReadToken, Reader, RecordEntry, RecordReader};
use disk_buffer::record::Record;

const MAX: usize = 1 << 20;

fn frame(id: u64, payload: &[u8]) -> Vec<u8> {
    Record::with_checksum(id, payload).to_frame()
}

fn frames(ids: std::ops::RangeInclusive<u64>) -> Vec<u8> {
    let mut out = Vec::new();
    for id in ids {
        out.extend(frame(id, format!("record {}", id).as_bytes()));
    }
    out
}

fn ready_reader(file: &[u8]) -> Reader {
    let mut reader = Reader::new(MAX);
    assert!(reader.finish_seek(0));
    reader.open_file();
    reader.fill(file);
    reader
}

fn deliver(reader: &mut Reader, writer: u64, current: u64) -> (u64, IdUpdate, Vec<u8>) {
    match reader.poll_next(writer, current) {
        NextStep::Deliver { token, update } => {
            let id = token.record_id();
            let payload = reader.read_record(token).payload().to_vec();
            (id, update, payload)
        }
        other => panic!("expected a record, got {:?}", other),
    }
}

#[test]
fn single_record() {
    let mut reader = ready_reader(&frame(1, b"hello"));
    let (id, update, payload) = deliver(&mut reader, 0, 0);
    assert_eq!(id, 1);
    assert_eq!(payload, b"hello");
    assert_eq!(update, IdUpdate::Acknowledge(1));
}

#[test]
fn file_boundary() {
    let mut file0 = frame(1, b"a");
    file0.extend(frame(2, b"b"));
    let mut reader = ready_reader(&file0);
    assert_eq!(deliver(&mut reader, 1, 0).0, 1);
    assert_eq!(deliver(&mut reader, 1, 0).0, 2);
    assert!(matches!(reader.poll_next(1, 0), NextStep::WaitForWriter { roll: true }));
    assert!(reader.needs_file());
    reader.open_file();
    reader.fill(&frame(3, b"c"));
    let (id, update, payload) = deliver(&mut reader, 1, 1);
    assert_eq!((id, update, payload), (3, IdUpdate::Acknowledge(3), b"c".to_vec()));
}

#[test]
fn mid_file_corruption_rolls_and_reports_skips() {
    let mut file0 = frame(1, b"one");
    let mut second = frame(2, b"two");
    second[4 + 8] ^= 0xff;
    file0.extend(second);
    file0.extend(frame(3, b"three"));
    let mut reader = ready_reader(&file0);
    assert_eq!(deliver(&mut reader, 1, 0).0, 1);
    assert!(matches!(reader.poll_next(1, 0), NextStep::RollFile));
    assert!(reader.needs_file());
    reader.open_file();
    reader.fill(&frame(4, b"four"));
    let (id, update, _) = deliver(&mut reader, 1, 1);
    assert_eq!(id, 4);
    assert_eq!(update, IdUpdate::Skipped { previous: 1, current: 4, count: 2 });
}

#[test]
fn restart_seek_resumes_after_acknowledged() {
    let mut reader = Reader::new(MAX);
    reader.open_file();
    reader.fill(&frames(1..=10));
    let mut seen = Vec::new();
    while !reader.finish_seek(5) {
        let (id, update, _) = deliver(&mut reader, 0, 0);
        assert_eq!(update, IdUpdate::Seeking);
        seen.push(id);
    }
    assert_eq!(seen, vec![1, 2, 3, 4, 5]);
    assert!(reader.finish_seek(5));
    let (id, update, payload) = deliver(&mut reader, 0, 0);
    assert_eq!(id, 6);
    assert_eq!(update, IdUpdate::Acknowledge(6));
    assert_eq!(payload, b"record 6");
}

#[test]
fn empty_buffer_waits_then_delivers() {
    let mut reader = ready_reader(&[]);
    assert!(matches!(reader.poll_next(0, 0), NextStep::WaitForWriter { roll: false }));
    assert!(!reader.needs_file());
    reader.fill(&frame(1, b"x"));
    assert_eq!(deliver(&mut reader, 0, 0).0, 1);
    assert!(matches!(reader.poll_next(0, 0), NextStep::WaitForWriter { roll: false }));
}

#[test]
fn truncated_tail_rolls_file() {
    let mut file0 = frames(1..=2);
    file0.extend([0u8, 0, 1]);
    let mut reader = ready_reader(&file0);
    assert_eq!(deliver(&mut reader, 0, 0).0, 1);
    assert_eq!(deliver(&mut reader, 0, 0).0, 2);
    assert!(matches!(reader.poll_next(0, 0), NextStep::RollFile));
    assert!(reader.needs_file());
}

#[test]
fn truncated_archive_rolls_file() {
    let mut file0 = frame(1, b"hello");
    file0.truncate(file0.len() - 1);
    let mut reader = ready_reader(&file0);
    assert!(matches!(reader.poll_next(0, 0), NextStep::RollFile));
}

#[test]
fn oversized_length_prefix_rolls_without_reading() {
    let mut reader = Reader::new(64);
    assert!(reader.finish_seek(0));
    reader.open_file();
    reader.fill(&[0, 0, 0, 65]);
    assert!(matches!(reader.poll_next(0, 0), NextStep::RollFile));
    let mut file = RecordReader::new(16);
    file.fill(&frame(1, b"hello"));
    assert!(matches!(file.try_next_record(), Some(RecordEntry::Corrupted)));
    assert!(file.try_next_record().is_none());
}

#[test]
fn undecodable_frame_reports_failed_deserialization() {
    let mut file = RecordReader::new(MAX);
    file.fill(&[0, 0, 0, 8, 1, 2, 3, 4, 5, 6, 7, 8]);
    assert!(matches!(file.try_next_record(), Some(RecordEntry::FailedDeserialization(_))));
    assert!(file.try_next_record().is_none());
}

#[test]
fn record_reader_token_reads_current_record() {
    let mut file = RecordReader::new(MAX);
    file.fill(&frames(1..=2));
    let first = match file.try_next_record() {
        Some(RecordEntry::Valid(token)) => token,
        other => panic!("expected a record, got {:?}", other),
    };
    assert_eq!(first.record_id(), 1);
    let token: ReadToken = match file.try_next_record() {
        Some(RecordEntry::Valid(token)) => token,
        other => panic!("expected a record, got {:?}", other),
    };
    assert_eq!(token.record_id(), 2);
    let record = file.read_record(token);
    assert_eq!(record.id(), 2);
    assert_eq!(record.payload(), b"record 2");
}

#[test]
fn repeated_id_is_an_invariant_violation() {
    let mut file0 = frame(2, b"a");
    file0.extend(frame(2, b"b"));
    let mut reader = ready_reader(&file0);
    let (id, update, _) = deliver(&mut reader, 0, 0);
    assert_eq!((id, update), (2, IdUpdate::Resumed));
    assert!(matches!(
        reader.poll_next(0, 0),
        NextStep::IdRegressed { previous: 2, current: 2 }
    ));
}

#[test]
fn id_updates() {
    let mut reader = Reader::new(MAX);
    assert_eq!(reader.update_reader_last_record_id(3), IdUpdate::Seeking);
    assert!(reader.finish_seek(3));
    assert_eq!(reader.update_reader_last_record_id(4), IdUpdate::Acknowledge(4));
    assert_eq!(
        reader.update_reader_last_record_id(10),
        IdUpdate::Skipped { previous: 4, current: 10, count: 5 }
    );
    let mut fresh = Reader::new(MAX);
    assert!(fresh.finish_seek(0));
    assert_eq!(fresh.update_reader_last_record_id(7), IdUpdate::Resumed);
}

#[test]
fn delivered_ids_strictly_increase() {
    let mut reader = ready_reader(&frames(1..=20));
    let mut last = 0;
    for _ in 0..20 {
        let (id, _, _) = deliver(&mut reader, 0, 0);
        assert!(id > last);
        last = id;
    }
}
