//! The producer side: an append-only log of records.
//!
//! A `Queue` owns the log bytes of one named queue.  The caller is in
//! charge of the storage edge: it hands `open` the durable bytes it read
//! back (or `None` when no log exists yet) and writes the bytes of
//! `log_bytes` out after a push.  Every push appends one whole record, so
//! the log a `Queue` builds always parses as a clean run of records.

use vstd::prelude::*;
use crate::record::{
    ErrorQueue, Mode, MsgType, HEADER_SIZE, decode_header, encode_record, lemma_wf_from_append,
    record_complete, record_end, spec_record, wf_from, wf_log,
};

verus! {

/// Whether a handle opened with mode `m` may append.  Producers opened with
/// the default mode are writable.
pub open spec fn mode_allows_write(m: Mode) -> bool {
    m != Mode::Read
}

/// A producer handle over one queue's append-only log.
pub struct Queue {
    /// Stable identifier of the queue; also names its on-disk log.
    pub name: String,
    /// Root directory the queue's files live under.
    pub base_path: String,
    /// The mode this handle was opened with.
    pub mode: Mode,
    /// The log bytes themselves; use `log_bytes` and the record layer to read them.
    pub log: Vec<u8>,
    /// Records appended through this handle since it was opened.
    pub count_pushed: u64,
    /// True when the log was verified on open and this handle may append.
    pub is_ready: bool,
}

impl View for Queue {
    type V = Seq<u8>;

    /// A queue is abstractly its log bytes.
    open spec fn view(&self) -> Seq<u8> {
        self.log@
    }
}

impl Queue {
    /// Invariant of every open queue: the log is a clean run of whole
    /// records, and each record this handle pushed took at least a header's
    /// worth of them.
    pub open spec fn wf(&self) -> bool {
        &&& wf_log(self@)
        &&& HEADER_SIZE * (self.count_pushed as int) <= self@.len()
    }

    /// Opens a queue over the durable log bytes the caller read back, or
    /// over nothing when no log exists yet.  In `Read` mode a missing log
    /// is an error; in a writable mode it is created empty.  Existing bytes
    /// are verified: a log that does not parse as whole records is reported
    /// as corrupt, never silently accepted.
    pub fn open(base_path: String, name: String, mode: Mode, existing: Option<Vec<u8>>) -> (r:
        Result<Queue, ErrorQueue>)
        ensures
            r is Ok <==> (existing matches Some(b) && wf_log(b@)) || (existing is None
                && mode_allows_write(mode)),
            existing is None && !mode_allows_write(mode) ==> r == Err::<Queue, ErrorQueue>(
                ErrorQueue::NotFound,
            ),
            (existing matches Some(b) && !wf_log(b@)) ==> r == Err::<Queue, ErrorQueue>(
                ErrorQueue::MalformedRecord,
            ),
            r matches Ok(q) ==> {
                &&& q.wf()
                &&& q@ == (match existing {
                    Some(b) => b@,
                    None => Seq::<u8>::empty(),
                })
                &&& q.count_pushed == 0
                &&& q.is_ready == mode_allows_write(mode)
                &&& q.name@ == name@
                &&& q.base_path@ == base_path@
                &&& q.mode == mode
            },
    {
        match existing {
            None => {
                if let Mode::Read = mode {
                    Err(ErrorQueue::NotFound)
                } else {
                    Ok(
                        Queue {
                            name,
                            base_path,
                            mode,
                            log: Vec::new(),
                            count_pushed: 0,
                            is_ready: true,
                        },
                    )
                }
            },
            Some(bytes) => {
                if !check_log(&bytes) {
                    return Err(ErrorQueue::MalformedRecord);
                }
                let ready = !matches!(mode, Mode::Read);
                Ok(Queue { name, base_path, mode, log: bytes, count_pushed: 0, is_ready: ready })
            },
        }
    }

    /// Appends one record and returns its position: the byte offset of the
    /// record's start, which is the old end of the log.  Positions returned
    /// by successive pushes therefore strictly increase.  A handle that may
    /// not append refuses and leaves the log untouched.
    pub fn push(&mut self, data: &Vec<u8>, msg_type: MsgType) -> (r: Result<u64, ErrorQueue>)
        requires
            old(self).wf(),
        ensures
            final(self).wf(),
            final(self).name@ == old(self).name@,
            final(self).base_path@ == old(self).base_path@,
            final(self).mode == old(self).mode,
            final(self).is_ready == old(self).is_ready,
            old(self).is_ready ==> {
                &&& r matches Ok(pos) && pos == old(self)@.len()
                &&& final(self)@ == old(self)@ + spec_record(msg_type, data@)
                &&& final(self).count_pushed == old(self).count_pushed + 1
            },
            !old(self).is_ready ==> r == Err::<u64, ErrorQueue>(ErrorQueue::NotReady)
                && final(self)@ == old(self)@
                && final(self).count_pushed == old(self).count_pushed,
    {
        if !self.is_ready {
            return Err(ErrorQueue::NotReady);
        }
        let pos = self.log.len() as u64;
        let dlen: usize = data.len();
        let mut rec = encode_record(data, msg_type);
        self.log.append(&mut rec);
        proof {
            assert(data@.len() == dlen <= u64::MAX);
            lemma_wf_from_append(old(self)@, 0, msg_type, data@);
        }
        self.count_pushed = self.count_pushed + 1;
        Ok(pos)
    }

    /// The durable bytes of the log.  The caller persists these (every push
    /// appends, so only the new suffix need be written out) and hands them
    /// to the consumers that scan this queue.
    pub fn log_bytes(&self) -> (r: &Vec<u8>)
        ensures
            r@ == self@,
    {
        &self.log
    }
}

/// Scans `log` from its start and reports whether it is a clean run of
/// whole records: no torn tail, no trailing bytes, no corruption.
pub fn check_log(log: &Vec<u8>) -> (r: bool)
    ensures
        r == wf_log(log@),
{
    let len: usize = log.len();
    let mut p: usize = 0;
    while p < len
        invariant
            p <= len,
            len == log@.len(),
            wf_log(log@) == wf_from(log@, p as int),
        decreases len - p,
    {
        match decode_header(log, p) {
            Ok(h) => {
                if h.msg_length <= (len - p - HEADER_SIZE) as u64 {
                    assert(record_complete(log@, p as int));
                    let next = p + HEADER_SIZE + (h.msg_length as usize);
                    assert(next == record_end(log@, p as int));
                    p = next;
                } else {
                    assert(!record_complete(log@, p as int));
                    return false;
                }
            },
            Err(_) => {
                assert(!record_complete(log@, p as int));
                return false;
            },
        }
    }
    true
}

} // verus!
