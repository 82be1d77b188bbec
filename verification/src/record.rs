//! Record framing: the byte-level layout of one record and the shape of a
//! whole log.
//!
//! A record is a fixed-size header followed by the body bytes the header
//! announces.  The header starts with a magic byte and a one-byte payload
//! tag, and carries the body length twice: a reader that finds the two
//! copies in disagreement, or the magic byte wrong, knows the bytes at that
//! offset are not a record boundary.  A header whose body has not fully
//! reached the log yet (a torn tail) is recognised by comparing the
//! announced length against the bytes that are actually there.

use vstd::prelude::*;
use vstd::assert_seqs_equal;

verus! {

/// Number of bytes in a record header: magic, tag, and the body length twice.
pub const HEADER_SIZE: usize = 18;

/// First byte of every record header.
pub const MAGIC: u8 = 0xA7;

/// Header tag for a text payload.
pub const TAG_STRING: u8 = 83;

/// Header tag for a binary object payload.
pub const TAG_OBJECT: u8 = 79;

/// Access mode a queue or cursor is opened with.
#[derive(Clone, Copy, PartialEq, Eq, Structural, Debug)]
pub enum Mode {
    /// Open existing state only; appending is forbidden.
    Read,
    /// Open or create; reading and appending both permitted.
    ReadWrite,
    /// The most permissive mode practical for the handle's role.
    Default,
}

/// Payload kind carried in a record header.  The engine never interprets the
/// body; the tag only tells the caller how to treat the bytes.
#[derive(Clone, Copy, PartialEq, Eq, Structural, Debug)]
pub enum MsgType {
    String,
    Object,
}

impl Mode {
    /// Stable display name of this mode.
    pub fn as_str(&self) -> (r: &'static str)
        ensures
            r@ =~= self.text(),
    {
        match self {
            Mode::Read => "READ",
            Mode::ReadWrite => "READ_WRITE",
            Mode::Default => "DEFAULT",
        }
    }

    /// The text `as_str` returns for each mode.
    pub open spec fn text(self) -> Seq<char> {
        match self {
            Mode::Read => "READ"@,
            Mode::ReadWrite => "READ_WRITE"@,
            Mode::Default => "DEFAULT"@,
        }
    }
}

impl MsgType {
    /// Stable display name of this payload kind.
    pub fn as_str(&self) -> (r: &'static str)
        ensures
            r@ =~= self.text(),
    {
        match self {
            MsgType::String => "STRING",
            MsgType::Object => "OBJECT",
        }
    }

    /// The text `as_str` returns for each payload kind.
    pub open spec fn text(self) -> Seq<char> {
        match self {
            MsgType::String => "STRING"@,
            MsgType::Object => "OBJECT"@,
        }
    }
}

/// Errors raised by queue and cursor operations.
#[derive(Clone, Copy, PartialEq, Eq, Structural, Debug)]
pub enum ErrorQueue {
    /// Opened in `Read` mode but no durable state exists.
    NotFound,
    /// The handle's mode forbids the requested operation.
    NotReady,
    /// A body read was asked for while no header is cached.
    NoPendingHeader,
    /// The body bytes a header announces are not all durable yet; retry later.
    FailReadTailMessage,
    /// Bytes that should form a record do not; the log is corrupt.
    MalformedRecord,
}

impl ErrorQueue {
    /// Short diagnostic text for this error.
    pub fn as_str(&self) -> (r: &'static str)
        ensures
            r@ =~= self.text(),
    {
        match self {
            ErrorQueue::NotFound => "not found",
            ErrorQueue::NotReady => "not ready",
            ErrorQueue::NoPendingHeader => "no pending header",
            ErrorQueue::FailReadTailMessage => "fail read tail message",
            ErrorQueue::MalformedRecord => "malformed record",
        }
    }

    /// The text `as_str` returns for each variant.
    pub open spec fn text(self) -> Seq<char> {
        match self {
            ErrorQueue::NotFound => "not found"@,
            ErrorQueue::NotReady => "not ready"@,
            ErrorQueue::NoPendingHeader => "no pending header"@,
            ErrorQueue::FailReadTailMessage => "fail read tail message"@,
            ErrorQueue::MalformedRecord => "malformed record"@,
        }
    }
}

/// A decoded record header: the payload tag and the body length in bytes.
#[derive(Clone, Copy, PartialEq, Eq, Structural, Debug)]
pub struct RecordHeader {
    pub msg_type: MsgType,
    pub msg_length: u64,
}

/// Why a header could not be decoded at an offset.
#[derive(Clone, Copy, PartialEq, Eq, Structural, Debug)]
pub enum HeaderError {
    /// Fewer than `HEADER_SIZE` bytes at the offset: end of log or torn tail.
    Incomplete,
    /// A full header's worth of bytes is present but they are not a header.
    Malformed,
}

/// The byte a payload tag is stored as.
pub open spec fn tag_of(t: MsgType) -> u8 {
    match t {
        MsgType::String => TAG_STRING,
        MsgType::Object => TAG_OBJECT,
    }
}

/// The payload kind a tag byte stands for, if any.
pub open spec fn type_of_tag(b: u8) -> Option<MsgType> {
    if b == TAG_STRING {
        Some(MsgType::String)
    } else if b == TAG_OBJECT {
        Some(MsgType::Object)
    } else {
        None
    }
}

/// The eight little-endian bytes of a length.
pub open spec fn le_bytes_of(n: u64) -> Seq<u8> {
    seq![
        (n & 0xff) as u8,
        ((n >> 8) & 0xff) as u8,
        ((n >> 16) & 0xff) as u8,
        ((n >> 24) & 0xff) as u8,
        ((n >> 32) & 0xff) as u8,
        ((n >> 40) & 0xff) as u8,
        ((n >> 48) & 0xff) as u8,
        ((n >> 56) & 0xff) as u8,
    ]
}

/// The length eight little-endian bytes store.
pub open spec fn le_value_of(b: Seq<u8>) -> u64
    recommends
        b.len() == 8,
{
    (b[0] as u64) | ((b[1] as u64) << 8) | ((b[2] as u64) << 16) | ((b[3] as u64) << 24)
        | ((b[4] as u64) << 32) | ((b[5] as u64) << 40) | ((b[6] as u64) << 48)
        | ((b[7] as u64) << 56)
}

/// The header bytes for a body of length `len` and tag `t`.
pub open spec fn spec_header(t: MsgType, len: u64) -> Seq<u8> {
    seq![MAGIC, tag_of(t)] + le_bytes_of(len) + le_bytes_of(len)
}

/// The full wire bytes of one record.
pub open spec fn spec_record(t: MsgType, body: Seq<u8>) -> Seq<u8>
    recommends
        body.len() <= u64::MAX,
{
    spec_header(t, body.len() as u64) + body
}

/// A full header's worth of bytes lies at `pos`.
pub open spec fn header_present(log: Seq<u8>, pos: int) -> bool {
    0 <= pos && pos + HEADER_SIZE <= log.len()
}

/// The body length the header at `pos` announces (first copy).
pub open spec fn stored_len(log: Seq<u8>, pos: int) -> u64 {
    le_value_of(log.subrange(pos + 2, pos + 10))
}

/// The second copy of the body length in the header at `pos`.
pub open spec fn stored_len_copy(log: Seq<u8>, pos: int) -> u64 {
    le_value_of(log.subrange(pos + 10, pos + 18))
}

/// The bytes at `pos` form a well-formed record header: magic byte right,
/// tag known, and the two length copies in agreement.
pub open spec fn header_well_formed(log: Seq<u8>, pos: int) -> bool {
    &&& header_present(log, pos)
    &&& log[pos] == MAGIC
    &&& type_of_tag(log[pos + 1]) is Some
    &&& stored_len(log, pos) == stored_len_copy(log, pos)
}

/// The payload kind the header at `pos` announces.
pub open spec fn stored_type(log: Seq<u8>, pos: int) -> MsgType
    recommends
        header_well_formed(log, pos),
{
    type_of_tag(log[pos + 1]).unwrap()
}

/// A whole record lies at `pos`: a well-formed header and every body byte.
pub open spec fn record_complete(log: Seq<u8>, pos: int) -> bool {
    &&& header_well_formed(log, pos)
    &&& pos + HEADER_SIZE + stored_len(log, pos) <= log.len()
}

/// The offset just past the record at `pos`.
pub open spec fn record_end(log: Seq<u8>, pos: int) -> int {
    pos + HEADER_SIZE + stored_len(log, pos)
}

/// The body bytes of the record at `pos`.
pub open spec fn body_at(log: Seq<u8>, pos: int) -> Seq<u8>
    recommends
        record_complete(log, pos),
{
    log.subrange(pos + HEADER_SIZE, record_end(log, pos))
}

/// How many whole records lie one after another starting at `pos`, stopping
/// at the first offset that does not hold a complete record (end of log, a
/// torn tail, or corruption).
pub open spec fn records_ahead(log: Seq<u8>, pos: int) -> nat
    decreases log.len() - pos,
{
    if record_complete(log, pos) {
        (1 + records_ahead(log, record_end(log, pos))) as nat
    } else {
        0
    }
}

/// The bodies of the whole records from `pos`, in log order, up to the
/// first offset that does not hold a complete record.
pub open spec fn bodies_from(log: Seq<u8>, pos: int) -> Seq<Seq<u8>>
    decreases log.len() - pos,
{
    if record_complete(log, pos) {
        seq![body_at(log, pos)] + bodies_from(log, record_end(log, pos))
    } else {
        Seq::<Seq<u8>>::empty()
    }
}

/// There are exactly as many bodies ahead of `pos` as records.
pub proof fn lemma_bodies_count(log: Seq<u8>, pos: int)
    ensures
        bodies_from(log, pos).len() == records_ahead(log, pos),
    decreases log.len() - pos,
{
    if record_complete(log, pos) {
        lemma_bodies_count(log, record_end(log, pos));
    }
}

/// From `pos` the log parses as whole records that end exactly at the log's
/// end: no torn tail and no trailing garbage.
pub open spec fn wf_from(log: Seq<u8>, pos: int) -> bool
    decreases log.len() - pos,
{
    if pos == log.len() {
        true
    } else if record_complete(log, pos) {
        wf_from(log, record_end(log, pos))
    } else {
        false
    }
}

/// The whole log is a clean concatenation of records.
pub open spec fn wf_log(log: Seq<u8>) -> bool {
    wf_from(log, 0)
}

/// Appends the eight little-endian bytes of `n` to `out`.
fn le_write(out: &mut Vec<u8>, n: u64)
    ensures
        final(out)@ == old(out)@ + le_bytes_of(n),
{
    proof {
        assert((n & 0xff) <= 0xff && ((n >> 8) & 0xff) <= 0xff && ((n >> 16) & 0xff) <= 0xff
            && ((n >> 24) & 0xff) <= 0xff && ((n >> 32) & 0xff) <= 0xff
            && ((n >> 40) & 0xff) <= 0xff && ((n >> 48) & 0xff) <= 0xff
            && ((n >> 56) & 0xff) <= 0xff) by (bit_vector);
    }
    out.push((n & 0xff) as u8);
    out.push(((n >> 8) & 0xff) as u8);
    out.push(((n >> 16) & 0xff) as u8);
    out.push(((n >> 24) & 0xff) as u8);
    out.push(((n >> 32) & 0xff) as u8);
    out.push(((n >> 40) & 0xff) as u8);
    out.push(((n >> 48) & 0xff) as u8);
    out.push(((n >> 56) & 0xff) as u8);
    proof {
        assert_seqs_equal!(out@ == old(out)@ + le_bytes_of(n));
    }
}

/// Reads the length stored little-endian in the eight bytes at `pos`.
fn le_read(log: &Vec<u8>, pos: usize) -> (r: u64)
    requires
        pos + 8 <= log@.len(),
    ensures
        r == le_value_of(log@.subrange(pos as int, pos as int + 8)),
{
    // Pins the log length to a machine word so the index sums below are
    // known not to overflow.
    let _log_len: usize = log.len();
    let r = (log[pos] as u64) | ((log[pos + 1] as u64) << 8) | ((log[pos + 2] as u64) << 16)
        | ((log[pos + 3] as u64) << 24) | ((log[pos + 4] as u64) << 32)
        | ((log[pos + 5] as u64) << 40) | ((log[pos + 6] as u64) << 48)
        | ((log[pos + 7] as u64) << 56);
    proof {
        let b = log@.subrange(pos as int, pos as int + 8);
        assert(b[0] == log@[pos as int]);
        assert(b[1] == log@[pos as int + 1]);
        assert(b[2] == log@[pos as int + 2]);
        assert(b[3] == log@[pos as int + 3]);
        assert(b[4] == log@[pos as int + 4]);
        assert(b[5] == log@[pos as int + 5]);
        assert(b[6] == log@[pos as int + 6]);
        assert(b[7] == log@[pos as int + 7]);
    }
    r
}

/// Reading back the eight bytes a length was written as gives that length.
pub proof fn lemma_le_roundtrip(n: u64)
    ensures
        le_value_of(le_bytes_of(n)) == n,
{
    let b = le_bytes_of(n);
    assert(b[0] == (n & 0xff) as u8);
    assert(b[1] == ((n >> 8) & 0xff) as u8);
    assert(b[2] == ((n >> 16) & 0xff) as u8);
    assert(b[3] == ((n >> 24) & 0xff) as u8);
    assert(b[4] == ((n >> 32) & 0xff) as u8);
    assert(b[5] == ((n >> 40) & 0xff) as u8);
    assert(b[6] == ((n >> 48) & 0xff) as u8);
    assert(b[7] == ((n >> 56) & 0xff) as u8);
    assert((((n & 0xff) as u8) as u64) | (((((n >> 8) & 0xff) as u8) as u64) << 8)
        | (((((n >> 16) & 0xff) as u8) as u64) << 16) | (((((n >> 24) & 0xff) as u8) as u64) << 24)
        | (((((n >> 32) & 0xff) as u8) as u64) << 32) | (((((n >> 40) & 0xff) as u8) as u64) << 40)
        | (((((n >> 48) & 0xff) as u8) as u64) << 48) | (((((n >> 56) & 0xff) as u8) as u64) << 56)
        == n) by (bit_vector);
}

/// Encodes one record: header bytes, body length stored twice, body bytes.
pub fn encode_record(body: &Vec<u8>, msg_type: MsgType) -> (r: Vec<u8>)
    ensures
        r@ == spec_record(msg_type, body@),
        r@.len() == HEADER_SIZE + body@.len(),
{
    let len: u64 = body.len() as u64;
    let mut r: Vec<u8> = Vec::new();
    r.push(MAGIC);
    r.push(match msg_type {
        MsgType::String => TAG_STRING,
        MsgType::Object => TAG_OBJECT,
    });
    le_write(&mut r, len);
    le_write(&mut r, len);
    let mut i: usize = 0;
    while i < body.len()
        invariant
            i <= body@.len(),
            r@ == spec_header(msg_type, body@.len() as u64) + body@.subrange(0, i as int),
        decreases body@.len() - i,
    {
        r.push(body[i]);
        i = i + 1;
        proof {
            assert_seqs_equal!(r@ == spec_header(msg_type, body@.len() as u64)
                + body@.subrange(0, i as int));
        }
    }
    proof {
        assert_seqs_equal!(r@ == spec_record(msg_type, body@));
    }
    r
}

/// Decodes the header at `pos`, telling a missing header (too few bytes:
/// end of log or torn tail) apart from a malformed one (bytes present but
/// not a record boundary).
pub fn decode_header(log: &Vec<u8>, pos: usize) -> (r: Result<RecordHeader, HeaderError>)
    ensures
        (r matches Ok(h) ==> header_well_formed(log@, pos as int)
            && h.msg_type == stored_type(log@, pos as int)
            && h.msg_length == stored_len(log@, pos as int)),
        header_well_formed(log@, pos as int) ==> r is Ok,
        r == Err::<RecordHeader, HeaderError>(HeaderError::Incomplete)
            <==> !header_present(log@, pos as int),
        r == Err::<RecordHeader, HeaderError>(HeaderError::Malformed)
            <==> header_present(log@, pos as int) && !header_well_formed(log@, pos as int),
{
    if pos > log.len() || log.len() - pos < HEADER_SIZE {
        return Err(HeaderError::Incomplete);
    }
    if log[pos] != MAGIC {
        return Err(HeaderError::Malformed);
    }
    let tag = log[pos + 1];
    let msg_type = if tag == TAG_STRING {
        MsgType::String
    } else if tag == TAG_OBJECT {
        MsgType::Object
    } else {
        return Err(HeaderError::Malformed);
    };
    let len = le_read(log, pos + 2);
    let len_copy = le_read(log, pos + 10);
    if len != len_copy {
        return Err(HeaderError::Malformed);
    }
    Ok(RecordHeader { msg_type, msg_length: len })
}

/// Copies the `len` body bytes at `offset` out of the log, or reports that
/// fewer than `len` bytes are durable there (a torn or in-flight write).
pub fn decode_body(log: &Vec<u8>, offset: usize, len: u64) -> (r: Option<Vec<u8>>)
    ensures
        r is Some <==> offset + len <= log@.len(),
        (r matches Some(b) ==> b@ == log@.subrange(offset as int, offset + len)),
{
    if offset > log.len() {
        return None;
    }
    let avail: usize = log.len() - offset;
    if len > avail as u64 {
        return None;
    }
    let n = len as usize;
    let log_len: usize = log.len();
    let mut b: Vec<u8> = Vec::new();
    let mut i: usize = 0;
    while i < n
        invariant
            i <= n,
            n == len,
            offset + n <= log_len,
            log_len == log@.len(),
            b@ == log@.subrange(offset as int, offset + i),
        decreases n - i,
    {
        b.push(log[offset + i]);
        i = i + 1;
        proof {
            assert_seqs_equal!(b@ == log@.subrange(offset as int, offset + i as int));
        }
    }
    Some(b)
}

/// Bytes appended past a header never change how it reads: every header
/// fact at `pos` is the same in `log` and in `log + ext`.
pub proof fn lemma_header_extend(log: Seq<u8>, ext: Seq<u8>, pos: int)
    requires
        header_present(log, pos),
    ensures
        header_present(log + ext, pos),
        (log + ext)[pos] == log[pos],
        (log + ext)[pos + 1] == log[pos + 1],
        stored_len(log + ext, pos) == stored_len(log, pos),
        stored_len_copy(log + ext, pos) == stored_len_copy(log, pos),
        header_well_formed(log + ext, pos) == header_well_formed(log, pos),
        header_well_formed(log, pos) ==> stored_type(log + ext, pos) == stored_type(log, pos),
{
    let log2 = log + ext;
    assert_seqs_equal!(log2.subrange(pos + 2, pos + 10) == log.subrange(pos + 2, pos + 10));
    assert_seqs_equal!(log2.subrange(pos + 10, pos + 18) == log.subrange(pos + 10, pos + 18));
}

/// A record once whole stays whole, with the same header and the same body
/// bytes, however much the writer appends after it.  A cursor that read a
/// record but did not commit re-reads the identical record later, even if
/// the log has grown in between.
pub proof fn lemma_record_read_stable(log: Seq<u8>, ext: Seq<u8>, pos: int)
    requires
        record_complete(log, pos),
    ensures
        record_complete(log + ext, pos),
        stored_type(log + ext, pos) == stored_type(log, pos),
        stored_len(log + ext, pos) == stored_len(log, pos),
        record_end(log + ext, pos) == record_end(log, pos),
        body_at(log + ext, pos) == body_at(log, pos),
{
    let log2 = log + ext;
    lemma_header_extend(log, ext, pos);
    assert_seqs_equal!(log2.subrange(pos + HEADER_SIZE, record_end(log2, pos))
        == log.subrange(pos + HEADER_SIZE, record_end(log, pos)));
}

/// At the old end of the log, a freshly appended record reads back exactly
/// as it was encoded: its header is well formed, it is complete, its body
/// is the pushed body, and it ends at the new end of the log.
pub proof fn lemma_record_at_append(log: Seq<u8>, t: MsgType, body: Seq<u8>)
    requires
        body.len() <= u64::MAX,
    ensures
        header_well_formed(log + spec_record(t, body), log.len() as int),
        stored_type(log + spec_record(t, body), log.len() as int) == t,
        stored_len(log + spec_record(t, body), log.len() as int) == body.len(),
        record_complete(log + spec_record(t, body), log.len() as int),
        record_end(log + spec_record(t, body), log.len() as int)
            == (log + spec_record(t, body)).len(),
        body_at(log + spec_record(t, body), log.len() as int) == body,
{
    let lenb = body.len() as u64;
    let rec = spec_record(t, body);
    let log2 = log + rec;
    let p = log.len() as int;
    lemma_le_roundtrip(lenb);
    assert(rec.len() == HEADER_SIZE + body.len());
    assert(log2[p] == rec[0]);
    assert(rec[0] == MAGIC);
    assert(log2[p + 1] == rec[1]);
    assert(rec[1] == tag_of(t));
    assert_seqs_equal!(log2.subrange(p + 2, p + 10) == le_bytes_of(lenb), i => {
        assert(log2[p + 2 + i] == rec[2 + i]);
        assert(rec[2 + i] == spec_header(t, lenb)[2 + i]);
        assert(spec_header(t, lenb)[2 + i] == le_bytes_of(lenb)[i]);
    });
    assert_seqs_equal!(log2.subrange(p + 10, p + 18) == le_bytes_of(lenb), i => {
        assert(log2[p + 10 + i] == rec[10 + i]);
        assert(rec[10 + i] == spec_header(t, lenb)[10 + i]);
        assert(spec_header(t, lenb)[10 + i] == le_bytes_of(lenb)[i]);
    });
    assert(stored_len(log2, p) == lenb);
    assert(stored_len_copy(log2, p) == lenb);
    assert_seqs_equal!(log2.subrange(p + HEADER_SIZE, record_end(log2, p)) == body, i => {
        assert(log2[p + HEADER_SIZE + i] == rec[HEADER_SIZE + i]);
    });
}

/// Appending one whole record to a log that parses cleanly from `pos`
/// leaves a log that still parses cleanly from `pos`.
pub proof fn lemma_wf_from_append(log: Seq<u8>, pos: int, t: MsgType, body: Seq<u8>)
    requires
        wf_from(log, pos),
        0 <= pos,
        body.len() <= u64::MAX,
    ensures
        wf_from(log + spec_record(t, body), pos),
    decreases log.len() - pos,
{
    let log2 = log + spec_record(t, body);
    if pos == log.len() {
        lemma_record_at_append(log, t, body);
        assert(wf_from(log2, record_end(log2, pos)));
    } else {
        lemma_record_read_stable(log, spec_record(t, body), pos);
        lemma_wf_from_append(log, record_end(log, pos), t, body);
    }
}

/// Pushing one whole record raises by exactly one the number of records a
/// cursor at `pos` has ahead of it, for any `pos` the log parses cleanly
/// from.  Pushing N records therefore raises it by exactly N.
pub proof fn lemma_records_ahead_append(log: Seq<u8>, pos: int, t: MsgType, body: Seq<u8>)
    requires
        wf_from(log, pos),
        0 <= pos,
        body.len() <= u64::MAX,
    ensures
        records_ahead(log + spec_record(t, body), pos) == records_ahead(log, pos) + 1,
    decreases log.len() - pos,
{
    let log2 = log + spec_record(t, body);
    if pos == log.len() {
        lemma_record_at_append(log, t, body);
        assert(records_ahead(log, pos) == 0);
        assert(records_ahead(log2, record_end(log2, pos)) == 0);
    } else {
        lemma_record_read_stable(log, spec_record(t, body), pos);
        lemma_records_ahead_append(log, record_end(log, pos), t, body);
    }
}

/// The wire bytes of a run of records, each a payload kind and a body.
pub open spec fn concat_records(recs: Seq<(MsgType, Seq<u8>)>) -> Seq<u8>
    decreases recs.len(),
{
    if recs.len() == 0 {
        Seq::<u8>::empty()
    } else {
        spec_record(recs[0].0, recs[0].1) + concat_records(recs.drop_first())
    }
}

/// Every body in the run fits a record's length field.
pub open spec fn bodies_fit(recs: Seq<(MsgType, Seq<u8>)>) -> bool {
    forall|i: int| 0 <= i < recs.len() ==> (#[trigger] recs[i]).1.len() <= u64::MAX
}

/// Pushing N whole records raises by exactly N the number of records a
/// cursor at `pos` has ahead of it, and leaves a log that still parses
/// cleanly from `pos`.
pub proof fn lemma_records_ahead_append_many(log: Seq<u8>, pos: int, recs: Seq<(MsgType, Seq<u8>)>)
    requires
        wf_from(log, pos),
        0 <= pos,
        bodies_fit(recs),
    ensures
        records_ahead(log + concat_records(recs), pos) == records_ahead(log, pos) + recs.len(),
        wf_from(log + concat_records(recs), pos),
    decreases recs.len(),
{
    if recs.len() == 0 {
        assert_seqs_equal!(log + concat_records(recs) == log);
    } else {
        let t = recs[0].0;
        let body = recs[0].1;
        let first = spec_record(t, body);
        lemma_records_ahead_append(log, pos, t, body);
        lemma_wf_from_append(log, pos, t, body);
        assert(bodies_fit(recs.drop_first())) by {
            let rest = recs.drop_first();
            assert forall|i: int| 0 <= i < rest.len() implies (#[trigger] rest[i]).1.len()
                <= u64::MAX by {
                assert(rest[i] == recs[i + 1]);
            }
        }
        lemma_records_ahead_append_many(log + first, pos, recs.drop_first());
        assert_seqs_equal!((log + first) + concat_records(recs.drop_first())
            == log + concat_records(recs));
    }
}

/// A torn tail is invisible to batch counting: appending any strict prefix
/// of a record's bytes — the writer's append still in flight — leaves the
/// number of records ahead of `pos` unchanged.
pub proof fn lemma_records_ahead_torn(log: Seq<u8>, pos: int, t: MsgType, body: Seq<u8>, cut: int)
    requires
        wf_from(log, pos),
        0 <= pos,
        body.len() <= u64::MAX,
        0 <= cut < spec_record(t, body).len(),
    ensures
        records_ahead(log + spec_record(t, body).take(cut), pos) == records_ahead(log, pos),
    decreases log.len() - pos,
{
    let part = spec_record(t, body).take(cut);
    let log2 = log + part;
    if pos == log.len() {
        assert(records_ahead(log, pos) == 0);
        if cut < HEADER_SIZE {
            assert(!header_present(log2, pos));
        } else {
            let rec = spec_record(t, body);
            let lenb = body.len() as u64;
            lemma_le_roundtrip(lenb);
            assert_seqs_equal!(log2.subrange(pos + 2, pos + 10) == le_bytes_of(lenb), i => {
                assert(log2[pos + 2 + i] == part[2 + i]);
                assert(part[2 + i] == rec[2 + i]);
                assert(rec[2 + i] == spec_header(t, lenb)[2 + i]);
                assert(spec_header(t, lenb)[2 + i] == le_bytes_of(lenb)[i]);
            });
            assert(stored_len(log2, pos) == lenb);
            assert(pos + HEADER_SIZE + stored_len(log2, pos) > log2.len());
            assert(!record_complete(log2, pos));
        }
    } else {
        lemma_record_read_stable(log, part, pos);
        lemma_records_ahead_torn(log, record_end(log, pos), t, body, cut);
    }
}

/// A commit consumes exactly one of the records ahead of the cursor: the
/// whole record at `pos` and nothing more, so stepping the cursor to that
/// record's end skips nothing and lowers the batch ahead by exactly one.
pub proof fn lemma_commit_no_skip(log: Seq<u8>, pos: int)
    requires
        record_complete(log, pos),
    ensures
        records_ahead(log, pos) == 1 + records_ahead(log, record_end(log, pos)),
        pos < record_end(log, pos),
{
}

/// Over a clean log a cursor has nothing ahead of it exactly when it
/// stands at the log's end: a cursor that drained its batch to zero has
/// read every record, and one short of the end always has a record to
/// read — none can be skipped.
pub proof fn lemma_drained_cursor_at_end(log: Seq<u8>, pos: int)
    requires
        wf_from(log, pos),
    ensures
        records_ahead(log, pos) == 0 <==> pos == log.len(),
{
}

/// Every push strictly grows the log, and a push returns the old end of
/// the log as the new record's position: positions returned by successive
/// pushes on one queue strictly increase.
pub proof fn lemma_positions_monotonic(log: Seq<u8>, t: MsgType, body: Seq<u8>)
    requires
        body.len() <= u64::MAX,
    ensures
        log.len() < (log + spec_record(t, body)).len(),
        (log + spec_record(t, body)).len() == log.len() + HEADER_SIZE + body.len(),
{
}

} // verus!
