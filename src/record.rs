//! The record archive: a checksummed, fixed-layout image of `{checksum, id, payload}`.
//!
//! An archive of a record whose payload has `n` bytes is laid out as follows,
//! where `p` is `n` rounded up to a multiple of eight:
//!
//! ```text
//! [0, n)        payload
//! [n, p)        zero padding
//! [p, p+4)      checksum, u32 little-endian
//! [p+4, p+8)    zero padding
//! [p+8, p+16)   id, u64 little-endian
//! [p+16, p+20)  offset of the payload relative to p+16, i32 little-endian
//! [p+20, p+24)  payload length, u32 little-endian
//! ```
//!
//! The record's root is the last 24 bytes of the archive, aligned to eight bytes.
//! Decoding accepts exactly the images that encoding produces.
use vstd::prelude::*;
use crate::checksum::{generate_checksum, record_checksum};
use crate::endian::{
    le_u32, le_u64, push_le_u32, push_le_u64, read_le_u32, read_le_u64, u32_le_bytes,
    u64_le_bytes, lemma_le_u32_round_trip, lemma_le_u64_round_trip, lemma_le_u32_bytes_of_value,
    push_be_u32, u32_be_bytes,
};

verus! {

/// Size of the fixed root of an archive.
pub const ROOT_SIZE: usize = 24;

/// The longest archive the codec handles: payload offsets must fit an `i32`.
pub const MAX_ARCHIVE_LEN: usize = 0x8000_0000;

/// The longest payload a record can carry.
pub const MAX_PAYLOAD_LEN: usize = 0x7fff_ffe0;

/// Why a buffer does not hold a record archive.
#[derive(Debug, Clone, Copy, PartialEq, Eq, Structural)]
pub enum DeserializeError {
    /// The buffer is shorter than an archive root.
    TooShort,
    /// The buffer is longer than any archive.
    TooLong,
    /// The root does not start on an eight-byte boundary.
    Misaligned,
    /// The payload offset does not point at the start of the buffer.
    BadPayloadOffset,
    /// The payload length does not match the space before the root.
    BadPayloadLength,
    /// A padding byte is not zero.
    NonZeroPadding,
}

/// Result of checking if a buffer contained a valid record.
#[derive(Debug, Clone, Copy, PartialEq, Eq, Structural)]
pub enum RecordStatus {
    /// The record was able to be read from the buffer, and the checksum is valid.
    ///
    /// Contains the record ID for the given record.
    Valid(u64),
    /// The record was able to be read from the buffer, but the checksum was not valid.
    Corrupted { calculated: u32, actual: u32 },
    /// The record was not able to be read from the buffer.
    FailedDeserialization(DeserializeError),
}

/// `n` rounded up to a multiple of eight.
pub open spec fn padded_len(n: int) -> int {
    n + (8 - n % 8) % 8
}

/// The payload offset stored at root position `root`: `-(root + 16)` as an `i32`'s bits.
pub open spec fn relative_offset(root: int) -> u32 {
    (0x1_0000_0000 - (root + 16)) as u32
}

pub open spec fn zeros(n: int) -> Seq<u8> {
    Seq::new(n as nat, |i: int| 0u8)
}

pub open spec fn all_zero(s: Seq<u8>) -> bool {
    forall|i: int| 0 <= i < s.len() ==> s[i] == 0
}

/// The archive image of a record.
pub open spec fn archive_bytes(checksum: u32, id: u64, payload: Seq<u8>) -> Seq<u8> {
    let n = payload.len() as int;
    let p = padded_len(n);
    payload + zeros(p - n) + u32_le_bytes(checksum) + zeros(4) + u64_le_bytes(id) + u32_le_bytes(
        relative_offset(p),
    ) + u32_le_bytes(n as u32)
}

/// The on-disk frame of a record: the big-endian length of its archive, then the archive.
pub open spec fn frame_bytes(checksum: u32, id: u64, payload: Seq<u8>) -> Seq<u8> {
    let a = archive_bytes(checksum, id, payload);
    u32_be_bytes(a.len() as u32) + a
}

/// What a buffer decodes to: the checksum, id and payload it holds, or why it holds none.
pub open spec fn parse_archive(b: Seq<u8>) -> Result<(u32, u64, Seq<u8>), DeserializeError> {
    if b.len() < ROOT_SIZE {
        Err(DeserializeError::TooShort)
    } else if b.len() > MAX_ARCHIVE_LEN {
        Err(DeserializeError::TooLong)
    } else if b.len() % 8 != 0 {
        Err(DeserializeError::Misaligned)
    } else {
        let root = b.len() - ROOT_SIZE;
        let n = le_u32(b.subrange(root + 20, root + 24)) as int;
        if le_u32(b.subrange(root + 16, root + 20)) != relative_offset(root) {
            Err(DeserializeError::BadPayloadOffset)
        } else if padded_len(n) != root {
            Err(DeserializeError::BadPayloadLength)
        } else if !all_zero(b.subrange(n, root)) || !all_zero(b.subrange(root + 4, root + 8)) {
            Err(DeserializeError::NonZeroPadding)
        } else {
            Ok(
                (
                    le_u32(b.subrange(root, root + 4)),
                    le_u64(b.subrange(root + 8, root + 16)),
                    b.subrange(0, n),
                ),
            )
        }
    }
}

/// The status a decoded record earns, given the checksum calculated from its id and payload.
pub open spec fn status_for(calculated: u32, checksum: u32, id: u64) -> RecordStatus {
    if calculated == checksum {
        RecordStatus::Valid(id)
    } else {
        RecordStatus::Corrupted { calculated, actual: checksum }
    }
}

/// What checking a buffer as a record archive reports.
pub open spec fn archive_status(b: Seq<u8>) -> RecordStatus {
    match parse_archive(b) {
        Ok((c, id, p)) => status_for(record_checksum(id, p), c, id),
        Err(e) => RecordStatus::FailedDeserialization(e),
    }
}

/// Record header.
///
/// Stores the relevant metadata for a single record. Its archived layout is part of the
/// on-disk format: do not add, remove, retype or reorder fields.
pub struct Record<'a> {
    /// The checksum of the record: the CRC of the big-endian id followed by the payload.
    checksum: u32,
    /// The record ID, monotonic across records.
    id: u64,
    /// The record payload.
    payload: &'a [u8],
}

impl<'a> Record<'a> {
    pub closed spec fn spec_checksum(&self) -> u32 {
        self.checksum
    }

    pub closed spec fn spec_id(&self) -> u64 {
        self.id
    }

    pub closed spec fn spec_payload(&self) -> Seq<u8> {
        self.payload@
    }

    /// Creates a `Record<'a>` from the ID and payload, and calculates the checksum.
    pub fn with_checksum(id: u64, payload: &'a [u8]) -> (r: Self)
        ensures
            r.spec_id() == id,
            r.spec_payload() == payload@,
            r.spec_checksum() == record_checksum(id, payload@),
    {
        let checksum = generate_checksum(id, payload);
        Record { checksum, id, payload }
    }

    /// Produces the archive image of this record.
    pub fn to_archive(&self) -> (r: Vec<u8>)
        requires
            self.spec_payload().len() <= MAX_PAYLOAD_LEN,
        ensures
            r@ == archive_bytes(self.spec_checksum(), self.spec_id(), self.spec_payload()),
    {
        let n = self.payload.len();
        let p = n + (8 - n % 8) % 8;
        let mut out: Vec<u8> = Vec::new();
        let mut i: usize = 0;
        while i < n
            invariant
                n == self.payload@.len(),
                i <= n,
                out@ == self.payload@.subrange(0, i as int),
            decreases n - i,
        {
            out.push(self.payload[i]);
            i = i + 1;
            assert(out@ =~= self.payload@.subrange(0, i as int));
        }
        while i < p
            invariant
                n == self.payload@.len(),
                n <= i <= p,
                p == padded_len(n as int),
                p <= MAX_PAYLOAD_LEN,
                out@ == self.payload@ + zeros(i - n),
            decreases p - i,
        {
            out.push(0u8);
            i = i + 1;
            assert(out@ =~= self.payload@ + zeros(i - n));
        }
        push_le_u32(&mut out, self.checksum);
        let mut k: usize = 0;
        while k < 4
            invariant
                k <= 4,
                out@ == self.payload@ + zeros(p - n) + u32_le_bytes(self.checksum) + zeros(
                    k as int,
                ),
            decreases 4 - k,
        {
            out.push(0u8);
            k = k + 1;
            assert(out@ =~= self.payload@ + zeros(p - n) + u32_le_bytes(self.checksum) + zeros(
                k as int,
            ));
        }
        push_le_u64(&mut out, self.id);
        let offset: u32 = (u32::MAX - (p as u32 + 16)) + 1;
        push_le_u32(&mut out, offset);
        push_le_u32(&mut out, n as u32);
        out
    }

    /// Produces the on-disk frame of this record: the archive's length, then the archive.
    pub fn to_frame(&self) -> (r: Vec<u8>)
        requires
            self.spec_payload().len() <= MAX_PAYLOAD_LEN,
        ensures
            r@ == frame_bytes(self.spec_checksum(), self.spec_id(), self.spec_payload()),
    {
        let archive = self.to_archive();
        let mut out: Vec<u8> = Vec::new();
        push_be_u32(&mut out, archive.len() as u32);
        let mut i: usize = 0;
        while i < archive.len()
            invariant
                i <= archive@.len(),
                out@ == u32_be_bytes(archive@.len() as u32) + archive@.subrange(0, i as int),
            decreases archive@.len() - i,
        {
            out.push(archive[i]);
            i = i + 1;
            assert(out@ =~= u32_be_bytes(archive@.len() as u32) + archive@.subrange(0, i as int));
        }
        assert(archive@.subrange(0, archive@.len() as int) =~= archive@);
        out
    }
}

/// A record decoded from a structurally valid archive.
pub struct ArchivedRecord {
    checksum: u32,
    id: u64,
    payload: Vec<u8>,
}

impl View for ArchivedRecord {
    /// The stored checksum, the id and the payload.
    type V = (u32, u64, Seq<u8>);

    closed spec fn view(&self) -> (u32, u64, Seq<u8>) {
        (self.checksum, self.id, self.payload@)
    }
}

impl ArchivedRecord {
    /// Gets the payload of this record.
    pub fn payload(&self) -> (r: &[u8])
        ensures
            r@ == self@.2,
    {
        self.payload.as_slice()
    }

    /// Gets the id of this record.
    pub fn id(&self) -> (r: u64)
        ensures
            r == self@.1,
    {
        self.id
    }

    /// Gets the checksum stored in this record.
    pub fn checksum(&self) -> (r: u32)
        ensures
            r == self@.0,
    {
        self.checksum
    }

    /// The status of this record, given the checksum calculated from its id and payload.
    pub fn status_with(&self, calculated: u32) -> (r: RecordStatus)
        ensures
            r == status_for(calculated, self@.0, self@.1),
    {
        if self.checksum == calculated {
            RecordStatus::Valid(self.id)
        } else {
            RecordStatus::Corrupted { calculated, actual: self.checksum }
        }
    }

    /// Verifies if the stored checksum of this record matches the record itself.
    pub fn verify_checksum(&self) -> (r: RecordStatus)
        ensures
            r == status_for(record_checksum(self@.1, self@.2), self@.0, self@.1),
    {
        let calculated = generate_checksum(self.id, self.payload.as_slice());
        self.status_with(calculated)
    }
}

/// Checks that every byte of `b[from..to]` is zero.
fn zero_between(b: &[u8], from: usize, to: usize) -> (r: bool)
    requires
        from <= to <= b@.len(),
    ensures
        r == all_zero(b@.subrange(from as int, to as int)),
{
    let mut i: usize = from;
    while i < to
        invariant
            from <= i <= to <= b@.len(),
            all_zero(b@.subrange(from as int, i as int)),
        decreases to - i,
    {
        if b[i] != 0 {
            assert(b@.subrange(from as int, to as int)[i - from] != 0);
            return false;
        }
        i = i + 1;
        assert(all_zero(b@.subrange(from as int, i as int))) by {
            assert forall|j: int| 0 <= j < i - from implies b@.subrange(from as int, i as int)[j]
                == 0 by {
                if j < i - 1 - from {
                    assert(b@.subrange(from as int, i - 1)[j] == 0);
                }
            }
        }
    }
    true
}

/// Decodes a record archive that starts at index 0 of `buf` and fills it entirely.
pub fn try_as_archive(buf: &[u8]) -> (r: Result<ArchivedRecord, DeserializeError>)
    ensures
        match parse_archive(buf@) {
            Ok(fields) => r is Ok && r->Ok_0@ == fields,
            Err(e) => r == Err::<ArchivedRecord, DeserializeError>(e),
        },
{
    let len = buf.len();
    if len < ROOT_SIZE {
        return Err(DeserializeError::TooShort);
    }
    if len > MAX_ARCHIVE_LEN {
        return Err(DeserializeError::TooLong);
    }
    if len % 8 != 0 {
        return Err(DeserializeError::Misaligned);
    }
    let root = len - ROOT_SIZE;
    let offset = read_le_u32(buf, root + 16);
    let n = read_le_u32(buf, root + 20) as usize;
    let expected: u32 = (u32::MAX - (root as u32 + 16)) + 1;
    if offset != expected {
        return Err(DeserializeError::BadPayloadOffset);
    }
    if n > root || n + (8 - n % 8) % 8 != root {
        return Err(DeserializeError::BadPayloadLength);
    }
    if !zero_between(buf, n, root) || !zero_between(buf, root + 4, root + 8) {
        return Err(DeserializeError::NonZeroPadding);
    }
    let checksum = read_le_u32(buf, root);
    let id = read_le_u64(buf, root + 8);
    let mut payload: Vec<u8> = Vec::new();
    let mut i: usize = 0;
    while i < n
        invariant
            n <= root < buf@.len(),
            i <= n,
            payload@ == buf@.subrange(0, i as int),
        decreases n - i,
    {
        payload.push(buf[i]);
        i = i + 1;
        assert(payload@ =~= buf@.subrange(0, i as int));
    }
    Ok(ArchivedRecord { checksum, id, payload })
}

/// Checks whether the given buffer contains a valid `Record` archive.
///
/// The record archive is assumed to exist starting at index 0 of the buffer. If a record
/// archive was able to be read from the buffer, then the status tells whether the checksum
/// in the record matched the recalculated checksum; otherwise it carries the reason.
pub fn try_as_record_archive(buf: &[u8]) -> (r: RecordStatus)
    ensures
        r == archive_status(buf@),
{
    match try_as_archive(buf) {
        Ok(archive) => archive.verify_checksum(),
        Err(e) => RecordStatus::FailedDeserialization(e),
    }
}

/// Decoding the archive of a record gives back its checksum, id and payload.
pub proof fn lemma_archive_round_trip(checksum: u32, id: u64, payload: Seq<u8>)
    requires
        payload.len() <= MAX_PAYLOAD_LEN,
    ensures
        parse_archive(archive_bytes(checksum, id, payload)) == Ok::<
            (u32, u64, Seq<u8>),
            DeserializeError,
        >((checksum, id, payload)),
{
    let b = archive_bytes(checksum, id, payload);
    let n = payload.len() as int;
    let p = padded_len(n);
    let root = b.len() - ROOT_SIZE;
    assert(root == p);
    assert(b.subrange(root + 20, root + 24) =~= u32_le_bytes(n as u32));
    assert(b.subrange(root + 16, root + 20) =~= u32_le_bytes(relative_offset(p)));
    assert(b.subrange(root, root + 4) =~= u32_le_bytes(checksum));
    assert(b.subrange(root + 8, root + 16) =~= u64_le_bytes(id));
    assert(b.subrange(0, n) =~= payload);
    assert(b.subrange(n, root) =~= zeros(p - n));
    assert(b.subrange(root + 4, root + 8) =~= zeros(4));
    lemma_le_u32_round_trip(n as u32);
    lemma_le_u32_round_trip(relative_offset(p));
    lemma_le_u32_round_trip(checksum);
    lemma_le_u64_round_trip(id);
}

/// Encode then decode: the archive of a record built with its checksum reports `Valid`
/// with the record's id, and decodes to the same id and a byte-equal payload.
pub proof fn lemma_record_round_trip(id: u64, payload: Seq<u8>)
    requires
        payload.len() <= MAX_PAYLOAD_LEN,
    ensures
        archive_status(archive_bytes(record_checksum(id, payload), id, payload))
            == RecordStatus::Valid(id),
        parse_archive(archive_bytes(record_checksum(id, payload), id, payload)) == Ok::<
            (u32, u64, Seq<u8>),
            DeserializeError,
        >((record_checksum(id, payload), id, payload)),
{
    lemma_archive_round_trip(record_checksum(id, payload), id, payload);
}

/// Flipping bits of the checksum field of a valid archive makes it report `Corrupted`:
/// the archive still decodes, and its stored checksum no longer matches its contents.
pub proof fn lemma_checksum_flip_is_corrupted(
    id: u64,
    payload: Seq<u8>,
    k: int,
    mask: u8,
)
    requires
        payload.len() <= MAX_PAYLOAD_LEN,
        0 <= k < 4,
        mask != 0,
    ensures
        ({
            let b = archive_bytes(record_checksum(id, payload), id, payload);
            let at = padded_len(payload.len() as int) + k;
            archive_status(b.update(at, b[at] ^ mask)) is Corrupted
        }),
{
    let c = record_checksum(id, payload);
    let b = archive_bytes(c, id, payload);
    let p = padded_len(payload.len() as int);
    let at = p + k;
    let flipped = b.update(at, b[at] ^ mask);
    let field = u32_le_bytes(c).update(k, u32_le_bytes(c)[k] ^ mask);
    let c2 = le_u32(field);
    lemma_le_u32_bytes_of_value(field);
    let x = u32_le_bytes(c)[k];
    assert(x ^ mask != x) by (bit_vector)
        requires
            mask != 0,
    ;
    assert(c2 != c) by {
        if c2 == c {
            assert(u32_le_bytes(c2)[k] == field[k]);
        }
    }
    assert(flipped =~= archive_bytes(c2, id, payload));
    lemma_archive_round_trip(c2, id, payload);
}

/// Flipping bits of the padding inside the root of an archive makes it fail to decode.
pub proof fn lemma_root_padding_flip_fails(
    checksum: u32,
    id: u64,
    payload: Seq<u8>,
    k: int,
    mask: u8,
)
    requires
        payload.len() <= MAX_PAYLOAD_LEN,
        4 <= k < 8,
        mask != 0,
    ensures
        ({
            let b = archive_bytes(checksum, id, payload);
            let at = padded_len(payload.len() as int) + k;
            archive_status(b.update(at, b[at] ^ mask)) == RecordStatus::FailedDeserialization(
                DeserializeError::NonZeroPadding,
            )
        }),
{
    let b = archive_bytes(checksum, id, payload);
    let n = payload.len() as int;
    let p = padded_len(n);
    let at = p + k;
    let flipped = b.update(at, b[at] ^ mask);
    lemma_archive_round_trip(checksum, id, payload);
    let root = p;
    assert(flipped.subrange(root + 20, root + 24) =~= b.subrange(root + 20, root + 24));
    assert(flipped.subrange(root + 16, root + 20) =~= b.subrange(root + 16, root + 20));
    assert(flipped.subrange(n, root) =~= b.subrange(n, root));
    assert(b[at] == 0);
    let x = b[at];
    assert(x ^ mask != 0) by (bit_vector)
        requires
            x == 0,
            mask != 0,
    ;
    assert(flipped.subrange(root + 4, root + 8)[k - 4] != 0);
}

} // verus!
