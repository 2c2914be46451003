//! Reading records: the file-scoped record reader, which frames and validates records from
//! the bytes of one data file, and the decisions of the log-scoped buffer reader, which
//! drives record readers across data files.
//!
//! The caller owns the files, the ledger and the wakeups. It hands the bytes of the current
//! data file to the reader and performs the steps that the reader asks for.
use vstd::prelude::*;
use vstd::slice::slice_subrange;
use crate::checksum::record_checksum;
use crate::endian::{be_u32, read_be_u32, u32_be_bytes, lemma_be_u32_round_trip};
use crate::record::{
    archive_bytes, archive_status, frame_bytes, lemma_record_round_trip, padded_len,
    parse_archive, try_as_archive, ArchivedRecord, DeserializeError, RecordStatus,
    MAX_PAYLOAD_LEN, ROOT_SIZE,
};

verus! {

/// A capability to read the record that a record reader validated last.
#[derive(Debug)]
pub struct ReadToken(u64);

impl View for ReadToken {
    type V = u64;

    closed spec fn view(&self) -> u64 {
        self.0
    }
}

impl ReadToken {
    /// The id of the record this token gives access to.
    pub fn record_id(&self) -> (r: u64)
        ensures
            r == self@,
    {
        self.0
    }
}

/// What reading the next frame of a data file found.
#[derive(Debug)]
pub enum RecordEntry {
    /// A valid record, readable with the token.
    Valid(ReadToken),
    /// A frame whose archive failed its checksum, or a truncated or oversized frame.
    Corrupted,
    /// A frame whose bytes are not a record archive.
    FailedDeserialization(DeserializeError),
}

/// The length that the prefix of a frame announces.
pub open spec fn frame_len(pending: Seq<u8>) -> int {
    be_u32(pending.subrange(0, 4)) as int
}

/// Whether `pending` starts with a whole frame whose length is within `max`.
pub open spec fn frame_complete(pending: Seq<u8>, max: int) -> bool {
    &&& pending.len() >= 4
    &&& frame_len(pending) <= max
    &&& pending.len() >= 4 + frame_len(pending)
}

/// The archive carried by the frame at the start of `pending`.
pub open spec fn frame_archive(pending: Seq<u8>) -> Seq<u8> {
    pending.subrange(4, 4 + frame_len(pending))
}

/// How an entry reflects the status of the archive it was read from.
pub open spec fn entry_matches(e: RecordEntry, s: RecordStatus) -> bool {
    match s {
        RecordStatus::Valid(id) => e matches RecordEntry::Valid(t) && t@ == id,
        RecordStatus::Corrupted { .. } => e is Corrupted,
        RecordStatus::FailedDeserialization(d) => e == RecordEntry::FailedDeserialization(d),
    }
}

/// Streams records from the bytes of one data file.
pub struct RecordReader {
    buffer: Vec<u8>,
    position: usize,
    current: Option<ArchivedRecord>,
    current_record_id: u64,
    max_record_size: usize,
}

impl RecordReader {
    /// The bytes handed in and not yet consumed.
    pub closed spec fn pending(&self) -> Seq<u8> {
        self.buffer@.subrange(self.position as int, self.buffer@.len() as int)
    }

    /// The record validated last, while its read token is live.
    pub closed spec fn current(&self) -> Option<(u32, u64, Seq<u8>)> {
        match self.current {
            Some(r) => Some(r@),
            None => None,
        }
    }

    /// The id of the record validated last.
    pub closed spec fn current_record_id(&self) -> u64 {
        self.current_record_id
    }

    /// The longest archive a frame may announce.
    pub closed spec fn max_record_size(&self) -> usize {
        self.max_record_size
    }

    pub closed spec fn wf(&self) -> bool {
        &&& self.position <= self.buffer@.len()
        &&& self.current matches Some(r) ==> r@.1 == self.current_record_id
    }

    /// Creates a reader positioned at the start of an empty data file.
    pub fn new(max_record_size: usize) -> (r: Self)
        ensures
            r.wf(),
            r.pending() == Seq::<u8>::empty(),
            r.current() is None,
            r.current_record_id() == 0,
            r.max_record_size() == max_record_size,
    {
        let r = RecordReader {
            buffer: Vec::new(),
            position: 0,
            current: None,
            current_record_id: 0,
            max_record_size,
        };
        assert(r.pending() =~= Seq::<u8>::empty());
        r
    }

    /// Appends bytes read from the data file.
    pub fn fill(&mut self, bytes: &[u8])
        requires
            old(self).wf(),
        ensures
            final(self).wf(),
            final(self).pending() == old(self).pending() + bytes@,
            final(self).current() == old(self).current(),
            final(self).current_record_id() == old(self).current_record_id(),
            final(self).max_record_size() == old(self).max_record_size(),
    {
        let mut i: usize = 0;
        while i < bytes.len()
            invariant
                self.wf(),
                i <= bytes@.len(),
                self.buffer@ == old(self).buffer@ + bytes@.subrange(0, i as int),
                self.position == old(self).position,
                self.current() == old(self).current(),
                self.current_record_id() == old(self).current_record_id(),
                self.max_record_size() == old(self).max_record_size(),
            decreases bytes@.len() - i,
        {
            self.buffer.push(bytes[i]);
            i = i + 1;
            assert(self.buffer@ =~= old(self).buffer@ + bytes@.subrange(0, i as int));
        }
        assert(bytes@.subrange(0, bytes@.len() as int) =~= bytes@);
        assert(self.pending() =~= old(self).pending() + bytes@);
    }

    /// Reads the next frame.
    ///
    /// With nothing pending this is `None`. A frame cut short, or one whose length prefix
    /// exceeds the maximum record size, is `Corrupted` and consumes everything pending,
    /// without reading its archive. A whole frame is consumed and its archive checked.
    pub fn try_next_record(&mut self) -> (r: Option<RecordEntry>)
        requires
            old(self).wf(),
        ensures
            final(self).wf(),
            final(self).max_record_size() == old(self).max_record_size(),
            old(self).pending().len() == 0 ==> r is None && *final(self) == *old(self),
            old(self).pending().len() > 0 && !frame_complete(
                old(self).pending(),
                old(self).max_record_size() as int,
            ) ==> r == Some(RecordEntry::Corrupted) && final(self).pending().len() == 0
                && final(self).current() is None && final(self).current_record_id() == old(
                self,
            ).current_record_id(),
            frame_complete(old(self).pending(), old(self).max_record_size() as int) ==> {
                let pending = old(self).pending();
                let archive = frame_archive(pending);
                &&& r matches Some(e) && entry_matches(e, archive_status(archive))
                &&& final(self).pending() == pending.subrange(
                    4 + frame_len(pending),
                    pending.len() as int,
                )
                &&& match archive_status(archive) {
                    RecordStatus::Valid(id) => {
                        &&& final(self).current_record_id() == id
                        &&& final(self).current() == Some(parse_archive(archive)->Ok_0)
                    },
                    _ => {
                        &&& final(self).current_record_id() == old(self).current_record_id()
                        &&& final(self).current() is None
                    },
                }
            },
    {
        let available = self.buffer.len() - self.position;
        if available == 0 {
            return None;
        }
        let start = self.position;
        if available < 4 {
            self.position = self.buffer.len();
            self.current = None;
            return Some(RecordEntry::Corrupted);
        }
        let len = read_be_u32(self.buffer.as_slice(), start);
        assert(self.buffer@.subrange(start as int, start + 4) =~= old(self).pending().subrange(
            0,
            4,
        ));
        if len as usize > self.max_record_size || available - 4 < len as usize {
            self.position = self.buffer.len();
            self.current = None;
            return Some(RecordEntry::Corrupted);
        }
        let end = start + 4 + len as usize;
        let archive = slice_subrange(self.buffer.as_slice(), start + 4, end);
        assert(archive@ =~= frame_archive(old(self).pending()));
        self.position = end;
        assert(self.pending() =~= old(self).pending().subrange(
            4 + frame_len(old(self).pending()),
            old(self).pending().len() as int,
        ));
        match try_as_archive(archive) {
            Err(e) => {
                self.current = None;
                Some(RecordEntry::FailedDeserialization(e))
            },
            Ok(record) => {
                match record.verify_checksum() {
                    RecordStatus::Valid(id) => {
                        self.current_record_id = id;
                        self.current = Some(record);
                        Some(RecordEntry::Valid(ReadToken(id)))
                    },
                    _ => {
                        self.current = None;
                        Some(RecordEntry::Corrupted)
                    },
                }
            },
        }
    }

    /// Gives access to the record that `token` was issued for.
    pub fn read_record(&self, token: ReadToken) -> (r: &ArchivedRecord)
        requires
            self.wf(),
            self.current() is Some,
            token@ == self.current_record_id(),
        ensures
            Some(r@) == self.current(),
            r@.1 == token@,
    {
        self.current.as_ref().unwrap()
    }
}

/// What delivering a record means for the acknowledged record id.
#[derive(Debug, Clone, Copy, PartialEq, Eq, Structural)]
pub enum IdUpdate {
    /// Still seeking after a restart: the id is below the acknowledged one; persist nothing.
    Seeking,
    /// The id follows the previous one: persist it as the last reader record id.
    Acknowledge(u64),
    /// Records between `previous` and `current` were skipped, `count` of them, after
    /// corruption was detected.
    Skipped { previous: u64, current: u64, count: u64 },
    /// The first record after starting from id zero: the gap is the replay, not a loss.
    Resumed,
}

/// The id update for delivering `id` after `previous`.
pub open spec fn id_update(ready: bool, previous: u64, id: u64) -> IdUpdate {
    if !ready {
        IdUpdate::Seeking
    } else if id - previous == 1 {
        IdUpdate::Acknowledge(id)
    } else if id - previous == id {
        IdUpdate::Resumed
    } else {
        IdUpdate::Skipped { previous, current: id, count: (id - previous - 1) as u64 }
    }
}

/// The next thing the caller does on behalf of the buffer reader.
#[derive(Debug)]
pub enum NextStep {
    /// A record is ready: apply `update` to the ledger and read it with `read_record`.
    Deliver { token: ReadToken, update: IdUpdate },
    /// The current data file is finished: delete it, advance the ledger's reader file id,
    /// flush the ledger and notify waiting writers. Then ask again.
    RollFile,
    /// Wait for the writer to signal progress. Then, if `roll`, roll the data file as for
    /// `RollFile`, and ask again.
    WaitForWriter { roll: bool },
    /// A record id did not move forward: the buffer's ids are broken.
    IdRegressed { previous: u64, current: u64 },
}

/// The log-scoped buffer reader: delivers records in write order across data files.
pub struct Reader {
    reader: Option<RecordReader>,
    last_reader_record_id: u64,
    ready_to_read: bool,
    max_record_size: usize,
}

impl Reader {
    /// Whether a data file is open.
    pub closed spec fn has_file(&self) -> bool {
        self.reader is Some
    }

    /// The record reader of the open data file.
    pub closed spec fn file(&self) -> RecordReader {
        self.reader->Some_0
    }

    /// The id of the record delivered last.
    pub closed spec fn last_reader_record_id(&self) -> u64 {
        self.last_reader_record_id
    }

    /// Whether the seek after a restart is done.
    pub closed spec fn ready_to_read(&self) -> bool {
        self.ready_to_read
    }

    /// The longest archive a frame may announce.
    pub closed spec fn max_record_size(&self) -> usize {
        self.max_record_size
    }

    pub closed spec fn wf(&self) -> bool {
        self.reader matches Some(r) ==> r.wf() && r.max_record_size() == self.max_record_size
    }

    /// Creates a reader with no data file open, before its seek.
    pub fn new(max_record_size: usize) -> (r: Self)
        ensures
            r.wf(),
            !r.has_file(),
            r.last_reader_record_id() == 0,
            !r.ready_to_read(),
            r.max_record_size() == max_record_size,
    {
        Reader { reader: None, last_reader_record_id: 0, ready_to_read: false, max_record_size }
    }

    /// Whether the caller must open the ledger's current reader data file first.
    pub fn needs_file(&self) -> (r: bool)
        ensures
            r == !self.has_file(),
    {
        self.reader.is_none()
    }

    /// Starts reading a data file that the caller opened, from its first byte.
    pub fn open_file(&mut self)
        requires
            old(self).wf(),
        ensures
            final(self).wf(),
            final(self).has_file(),
            final(self).file().pending() == Seq::<u8>::empty(),
            final(self).file().current() is None,
            final(self).last_reader_record_id() == old(self).last_reader_record_id(),
            final(self).ready_to_read() == old(self).ready_to_read(),
            final(self).max_record_size() == old(self).max_record_size(),
    {
        self.reader = Some(RecordReader::new(self.max_record_size));
    }

    /// Hands bytes read from the open data file to the reader.
    pub fn fill(&mut self, bytes: &[u8])
        requires
            old(self).wf(),
            old(self).has_file(),
        ensures
            final(self).wf(),
            final(self).has_file(),
            final(self).file().pending() == old(self).file().pending() + bytes@,
            final(self).file().current() == old(self).file().current(),
            final(self).file().current_record_id() == old(self).file().current_record_id(),
            final(self).last_reader_record_id() == old(self).last_reader_record_id(),
            final(self).ready_to_read() == old(self).ready_to_read(),
            final(self).max_record_size() == old(self).max_record_size(),
    {
        let mut file = self.reader.take().unwrap();
        file.fill(bytes);
        self.reader = Some(file);
    }

    /// Records `record_id` as delivered and says what that means for the ledger.
    pub fn update_reader_last_record_id(&mut self, record_id: u64) -> (r: IdUpdate)
        requires
            old(self).ready_to_read() ==> record_id > old(self).last_reader_record_id(),
        ensures
            r == id_update(old(self).ready_to_read(), old(self).last_reader_record_id(), record_id),
            final(self).last_reader_record_id() == record_id,
            final(self).ready_to_read() == old(self).ready_to_read(),
            final(self).has_file() == old(self).has_file(),
            final(self).file() == old(self).file(),
            final(self).max_record_size() == old(self).max_record_size(),
    {
        let previous_id = self.last_reader_record_id;
        self.last_reader_record_id = record_id;
        if !self.ready_to_read {
            return IdUpdate::Seeking;
        }
        let id_delta = record_id - previous_id;
        if id_delta == 1 {
            IdUpdate::Acknowledge(record_id)
        } else if id_delta == record_id {
            IdUpdate::Resumed
        } else {
            IdUpdate::Skipped { previous: previous_id, current: record_id, count: id_delta - 1 }
        }
    }

    /// Takes one step towards the next record.
    ///
    /// `writer_file_id` and `reader_file_id` are the ledger's file ids, read before the
    /// step. With nothing left to read the reader waits for the writer; if the writer had
    /// already moved to another file, this file is drained and is rolled after the wait.
    /// A corrupted, truncated, oversized or undecodable frame rolls the file at once.
    pub fn poll_next(&mut self, writer_file_id: u64, reader_file_id: u64) -> (r: NextStep)
        requires
            old(self).wf(),
            old(self).has_file(),
        ensures
            final(self).wf(),
            final(self).ready_to_read() == old(self).ready_to_read(),
            final(self).max_record_size() == old(self).max_record_size(),
            r matches NextStep::Deliver { token, .. } ==> final(self).last_reader_record_id()
                == token@ && (old(self).ready_to_read() ==> token@ > old(
                self,
            ).last_reader_record_id()),
            !final(self).has_file() ==> (r == NextStep::RollFile || r == NextStep::WaitForWriter {
                roll: true,
            }),
            ({
                let pending = old(self).file().pending();
                let max = old(self).max_record_size() as int;
                if pending.len() == 0 {
                    &&& r == NextStep::WaitForWriter { roll: writer_file_id != reader_file_id }
                    &&& writer_file_id != reader_file_id ==> !final(self).has_file()
                        && final(self).last_reader_record_id() == old(
                        self,
                    ).last_reader_record_id()
                    &&& writer_file_id == reader_file_id ==> *final(self) == *old(self)
                } else if !frame_complete(pending, max) {
                    &&& r == NextStep::RollFile
                    &&& !final(self).has_file()
                    &&& final(self).last_reader_record_id() == old(self).last_reader_record_id()
                } else {
                    let archive = frame_archive(pending);
                    match archive_status(archive) {
                        RecordStatus::Valid(id) => if old(self).ready_to_read() && id <= old(
                            self,
                        ).last_reader_record_id() {
                            r == NextStep::IdRegressed {
                                previous: old(self).last_reader_record_id(),
                                current: id,
                            }
                        } else {
                            &&& r matches NextStep::Deliver { token, update } && token@ == id
                                && update == id_update(
                                old(self).ready_to_read(),
                                old(self).last_reader_record_id(),
                                id,
                            )
                            &&& final(self).last_reader_record_id() == id
                            &&& final(self).has_file()
                            &&& final(self).file().current() == Some(parse_archive(archive)->Ok_0)
                            &&& final(self).file().current_record_id() == id
                            &&& final(self).file().pending() == pending.subrange(
                                4 + frame_len(pending),
                                pending.len() as int,
                            )
                        },
                        _ => {
                            &&& r == NextStep::RollFile
                            &&& !final(self).has_file()
                            &&& final(self).last_reader_record_id() == old(
                                self,
                            ).last_reader_record_id()
                        },
                    }
                }
            }),
    {
        let mut file = self.reader.take().unwrap();
        match file.try_next_record() {
            None => {
                if writer_file_id != reader_file_id {
                    NextStep::WaitForWriter { roll: true }
                } else {
                    self.reader = Some(file);
                    NextStep::WaitForWriter { roll: false }
                }
            },
            Some(RecordEntry::Valid(token)) => {
                let id = token.record_id();
                self.reader = Some(file);
                if self.ready_to_read && id <= self.last_reader_record_id {
                    return NextStep::IdRegressed { previous: self.last_reader_record_id, current: id };
                }
                let update = self.update_reader_last_record_id(id);
                NextStep::Deliver { token, update }
            },
            Some(_) => NextStep::RollFile,
        }
    }

    /// Gives access to the record that `poll_next` delivered with `token`.
    pub fn read_record(&self, token: ReadToken) -> (r: &ArchivedRecord)
        requires
            self.wf(),
            self.has_file(),
            self.file().current() is Some,
            token@ == self.file().current_record_id(),
        ensures
            Some(r@) == self.file().current(),
            r@.1 == token@,
    {
        self.reader.as_ref().unwrap().read_record(token)
    }

    /// Ends the seek after a restart once the delivered records have caught up with the
    /// ledger's last reader record id; until then the caller keeps taking records.
    pub fn finish_seek(&mut self, ledger_last_record_id: u64) -> (done: bool)
        ensures
            done == (old(self).ready_to_read() || old(self).last_reader_record_id()
                >= ledger_last_record_id),
            final(self).ready_to_read() == (old(self).ready_to_read() || done),
            final(self).has_file() == old(self).has_file(),
            final(self).file() == old(self).file(),
            final(self).last_reader_record_id() == old(self).last_reader_record_id(),
            final(self).max_record_size() == old(self).max_record_size(),
    {
        if self.ready_to_read {
            return true;
        }
        if self.last_reader_record_id < ledger_last_record_id {
            return false;
        }
        self.ready_to_read = true;
        true
    }
}

/// The frame of a record written with its checksum.
pub open spec fn record_frame(id: u64, payload: Seq<u8>) -> Seq<u8> {
    frame_bytes(record_checksum(id, payload), id, payload)
}

/// A data file holding the frames of `records`, in order.
pub open spec fn frames(records: Seq<(u64, Seq<u8>)>) -> Seq<u8>
    decreases records.len(),
{
    if records.len() == 0 {
        Seq::empty()
    } else {
        record_frame(records[0].0, records[0].1) + frames(records.drop_first())
    }
}

/// Whether a record of this payload fits a frame that a reader with `max` accepts.
pub open spec fn fits(payload: Seq<u8>, max: int) -> bool {
    &&& payload.len() <= MAX_PAYLOAD_LEN
    &&& padded_len(payload.len() as int) + ROOT_SIZE <= max
}

/// Encode, then read back through the framing: the frame of a record, followed by any
/// bytes, is a whole frame whose archive reports `Valid` with the record's id and decodes
/// to its payload; reading it leaves exactly the bytes that followed.
pub proof fn lemma_frame_round_trip(id: u64, payload: Seq<u8>, rest: Seq<u8>, max: int)
    requires
        fits(payload, max),
    ensures
        ({
            let f = record_frame(id, payload) + rest;
            &&& frame_complete(f, max)
            &&& frame_archive(f) == archive_bytes(record_checksum(id, payload), id, payload)
            &&& archive_status(frame_archive(f)) == RecordStatus::Valid(id)
            &&& parse_archive(frame_archive(f))->Ok_0 == (record_checksum(id, payload), id, payload)
            &&& f.subrange(4 + frame_len(f), f.len() as int) == rest
        }),
{
    let a = archive_bytes(record_checksum(id, payload), id, payload);
    let f = record_frame(id, payload) + rest;
    lemma_be_u32_round_trip(a.len() as u32);
    assert(f.subrange(0, 4) =~= u32_be_bytes(a.len() as u32));
    assert(frame_len(f) == a.len());
    assert(frame_archive(f) =~= a);
    assert(f.subrange(4 + frame_len(f), f.len() as int) =~= rest);
    lemma_record_round_trip(id, payload);
}

/// Resuming after a wait on an empty file: once the writer appends the frame of a record
/// to a file with nothing pending, the pending bytes are a whole frame that reports `Valid`
/// with that record's id, so the next step delivers it and leaves nothing pending.
pub proof fn lemma_wait_then_deliver(r: Reader, id: u64, payload: Seq<u8>)
    requires
        r.wf(),
        r.has_file(),
        r.file().pending().len() == 0,
        fits(payload, r.max_record_size() as int),
    ensures
        ({
            let pending = r.file().pending() + record_frame(id, payload);
            &&& frame_complete(pending, r.max_record_size() as int)
            &&& archive_status(frame_archive(pending)) == RecordStatus::Valid(id)
            &&& pending.subrange(4 + frame_len(pending), pending.len() as int) == Seq::<
                u8,
            >::empty()
        }),
{
    let max = r.max_record_size() as int;
    lemma_frame_round_trip(id, payload, Seq::empty(), max);
    assert(r.file().pending() + record_frame(id, payload) =~= record_frame(id, payload)
        + Seq::<u8>::empty());
}

/// Restart and resume: take a data file holding records with consecutive ids from 1, and
/// a ledger whose last reader record id `k` is below the last of them. A fresh reader
/// reads its frames in order: the `j`-th is whole, reports `Valid(j + 1)` and leaves the
/// frames after it. While seeking it delivers ids `1..=k`, which acknowledge nothing, and
/// the seek ends exactly once id `k` was delivered. The first record read after the seek
/// is `k + 1`, and it is acknowledged as following `k`.
pub proof fn lemma_restart_resumes_after(records: Seq<(u64, Seq<u8>)>, k: u64, max: int)
    requires
        forall|i: int| 0 <= i < records.len() ==> #[trigger] records[i].0 == i + 1,
        forall|i: int| 0 <= i < records.len() ==> fits(#[trigger] records[i].1, max),
        k < records.len(),
    ensures
        forall|j: int|
            0 <= j < records.len() ==> {
                let f = #[trigger] frames(records.subrange(j, records.len() as int));
                &&& frame_complete(f, max)
                &&& archive_status(frame_archive(f)) == RecordStatus::Valid((j + 1) as u64)
                &&& f.subrange(4 + frame_len(f), f.len() as int) == frames(
                    records.subrange(j + 1, records.len() as int),
                )
            },
        forall|j: int|
            0 <= j < k ==> #[trigger] id_update(false, j as u64, (j + 1) as u64)
                == IdUpdate::Seeking && j + 1 <= k,
        id_update(true, k, (k + 1) as u64) == IdUpdate::Acknowledge((k + 1) as u64),
{
    assert forall|j: int| 0 <= j < records.len() implies {
        let f = #[trigger] frames(records.subrange(j, records.len() as int));
        &&& frame_complete(f, max)
        &&& archive_status(frame_archive(f)) == RecordStatus::Valid((j + 1) as u64)
        &&& f.subrange(4 + frame_len(f), f.len() as int) == frames(
            records.subrange(j + 1, records.len() as int),
        )
    } by {
        assert(records[j].0 == j + 1);
        assert(fits(records[j].1, max));
        lemma_frame_at(records, j, max);
    }
    assert(records[k as int].0 == k + 1);
}

/// Reading the frames of `records` from the `j`-th on gives the `j`-th record.
proof fn lemma_frame_at(records: Seq<(u64, Seq<u8>)>, j: int, max: int)
    requires
        0 <= j < records.len(),
        fits(records[j].1, max),
    ensures
        ({
            let f = frames(records.subrange(j, records.len() as int));
            &&& frame_complete(f, max)
            &&& archive_status(frame_archive(f)) == RecordStatus::Valid(records[j].0)
            &&& f.subrange(4 + frame_len(f), f.len() as int) == frames(
                records.subrange(j + 1, records.len() as int),
            )
        }),
{
    let tail = records.subrange(j, records.len() as int);
    assert(tail[0] == records[j]);
    assert(tail.drop_first() =~= records.subrange(j + 1, records.len() as int));
    lemma_frame_round_trip(
        records[j].0,
        records[j].1,
        frames(records.subrange(j + 1, records.len() as int)),
        max,
    );
}

} // verus!
