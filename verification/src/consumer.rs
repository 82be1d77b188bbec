//! The reader side: a named, persisted cursor over one queue's log.
//!
//! A `Consumer` scans the durable log bytes the caller hands it and runs a
//! two-phase read per record: `pop_header` peeks the header at the cursor,
//! `pop_body` reads the body without moving the cursor (so the caller can
//! inspect, retry, or walk away), and only `commit` advances the cursor —
//! past exactly the one record whose body was read.  The caller persists
//! `position` after a commit and hands it back on reopen; a crash before
//! commit therefore replays the same record (at-least-once delivery).

use vstd::prelude::*;
use crate::record::{
    ErrorQueue, HeaderError, Mode, RecordHeader, HEADER_SIZE, bodies_from, body_at, decode_body,
    decode_header, header_present, header_well_formed, record_complete, record_end, records_ahead,
    stored_len, stored_type, wf_from,
};
use vstd::assert_seqs_equal;

verus! {

/// The byte contents of each body in a vector of bodies.
pub open spec fn views_of(v: Seq<Vec<u8>>) -> Seq<Seq<u8>> {
    v.map_values(|b: Vec<u8>| b@)
}

/// A cursor handle over one queue's log.
pub struct Consumer {
    /// Name of this cursor; cursors with distinct names are independent.
    pub name: String,
    /// Name of the queue this cursor scans.
    pub queue_name: String,
    /// Root directory the cursor's state lives under.
    pub base_path: String,
    /// The mode this handle was opened with.
    pub mode: Mode,
    /// Byte offset of the next unread record; advances only on `commit`.
    pub position: u64,
    /// The header peeked at `position` and not yet committed past, if any.
    pub header: Option<RecordHeader>,
    /// True once the pending record's body was read in full.
    pub body_popped: bool,
    /// Where `commit` will move the cursor: just past the pending record.
    pub next_position: u64,
    /// Records read and committed through this handle since it was opened.
    pub count_popped: u64,
    /// Set when bytes at the cursor were present but were not a record
    /// header: log corruption, reported rather than read past.
    pub corrupted: bool,
    /// The positions this handle committed, in order: the ghost record of
    /// what `count_popped` counts.
    pub committed: Ghost<Seq<u64>>,
}

/// The fields that identify a cursor and never change while it is open.
pub open spec fn same_identity(a: Consumer, b: Consumer) -> bool {
    &&& a.name@ == b.name@
    &&& a.queue_name@ == b.queue_name@
    &&& a.base_path@ == b.base_path@
    &&& a.mode == b.mode
}

impl Consumer {
    /// Invariant of every open cursor: commits so far each consumed at
    /// least a header's worth of bytes; while a body has been read the
    /// recorded commit target is just past that record; and the committed
    /// positions are exactly `count_popped` many, all behind the cursor,
    /// in strictly increasing order.
    pub open spec fn wf(&self) -> bool {
        &&& HEADER_SIZE * (self.count_popped as int) <= self.position
        &&& self.body_popped ==> (self.header matches Some(h) && self.next_position
            == self.position + HEADER_SIZE + h.msg_length)
        &&& self.count_popped == self.committed@.len()
        &&& forall|i: int|
            0 <= i < self.committed@.len() ==> #[trigger] self.committed@[i] < self.position
        &&& forall|i: int, j: int|
            0 <= i < j < self.committed@.len() ==> self.committed@[i] < self.committed@[j]
    }

    /// Opens a cursor.  `stored_position` is the persisted cursor state the
    /// caller read back, or `None` when none exists yet.  In `Read` mode a
    /// missing cursor is an error; otherwise a fresh cursor starts at the
    /// head of the log.  Reopening with the position persisted by the last
    /// commit resumes exactly where that commit left the cursor.
    pub fn new_with_mode(
        base_path: String,
        consumer_name: String,
        queue_name: String,
        mode: Mode,
        stored_position: Option<u64>,
    ) -> (r: Result<Consumer, ErrorQueue>)
        ensures
            r is Ok <==> !(stored_position is None && mode == Mode::Read),
            r is Err ==> r == Err::<Consumer, ErrorQueue>(ErrorQueue::NotFound),
            r matches Ok(c) ==> {
                &&& c.wf()
                &&& c.position == (match stored_position {
                    Some(p) => p,
                    None => 0u64,
                })
                &&& c.header is None
                &&& !c.body_popped
                &&& c.count_popped == 0
                &&& !c.corrupted
                &&& c.committed@ == Seq::<u64>::empty()
                &&& c.name@ == consumer_name@
                &&& c.queue_name@ == queue_name@
                &&& c.base_path@ == base_path@
                &&& c.mode == mode
            },
    {
        let position = match stored_position {
            Some(p) => p,
            None => {
                if let Mode::Read = mode {
                    return Err(ErrorQueue::NotFound);
                }
                0u64
            },
        };
        Ok(
            Consumer {
                name: consumer_name,
                queue_name,
                base_path,
                mode,
                position,
                header: None,
                body_popped: false,
                next_position: 0,
                count_popped: 0,
                corrupted: false,
                committed: Ghost(Seq::empty()),
            },
        )
    }

    /// Opens a cursor in the default mode: reading, with cursor state
    /// created on first use.  Never fails.
    pub fn new(
        base_path: String,
        consumer_name: String,
        queue_name: String,
        stored_position: Option<u64>,
    ) -> (r: Result<Consumer, ErrorQueue>)
        ensures
            r matches Ok(c) ==> {
                &&& c.wf()
                &&& c.position == (match stored_position {
                    Some(p) => p,
                    None => 0u64,
                })
                &&& c.header is None
                &&& !c.body_popped
                &&& c.count_popped == 0
                &&& !c.corrupted
                &&& c.committed@ == Seq::<u64>::empty()
                &&& c.name@ == consumer_name@
                &&& c.queue_name@ == queue_name@
                &&& c.base_path@ == base_path@
                &&& c.mode == Mode::Default
            },
            r is Ok,
    {
        Consumer::new_with_mode(base_path, consumer_name, queue_name, Mode::Default, stored_position)
    }

    /// Peeks for a record header at the cursor.  `true` caches the decoded
    /// header; `false` means no complete header lies at the cursor yet —
    /// the normal "no new data" poll result, not an error.  Bytes that are
    /// present but are no header also answer `false` and set `corrupted`:
    /// corruption is reported, never read past and never mistaken for data.
    /// The cursor itself does not move.
    pub fn pop_header(&mut self, log: &Vec<u8>) -> (r: bool)
        requires
            old(self).wf(),
        ensures
            final(self).wf(),
            same_identity(*final(self), *old(self)),
            final(self).position == old(self).position,
            final(self).count_popped == old(self).count_popped,
            final(self).committed == old(self).committed,
            old(self).header is Some ==> *final(self) == *old(self) && r,
            old(self).header is None ==> {
                &&& r == header_well_formed(log@, old(self).position as int)
                &&& (r ==> final(self).header == Some(
                    RecordHeader {
                        msg_type: stored_type(log@, old(self).position as int),
                        msg_length: stored_len(log@, old(self).position as int),
                    },
                ) && !final(self).body_popped)
                &&& (!r ==> final(self).header is None && !final(self).body_popped)
                &&& final(self).corrupted == (old(self).corrupted || (header_present(
                    log@,
                    old(self).position as int,
                ) && !header_well_formed(log@, old(self).position as int)))
            },
    {
        if self.header.is_some() {
            return true;
        }
        let log_len: usize = log.len();
        if self.position > log_len as u64 {
            return false;
        }
        let pos = self.position as usize;
        match decode_header(log, pos) {
            Ok(h) => {
                self.header = Some(h);
                self.body_popped = false;
                true
            },
            Err(HeaderError::Incomplete) => false,
            Err(HeaderError::Malformed) => {
                self.corrupted = true;
                false
            },
        }
    }

    /// Reads the body of the record whose header was peeked, into fresh
    /// bytes.  The cursor does not move, so the same body can be read again
    /// before the commit.  When the announced body bytes are not all in the
    /// log yet — the writer's append still in flight, a torn tail — the
    /// distinguished retry condition comes back, never a short or garbled
    /// body.  Asking without a peeked header is refused.
    pub fn pop_body(&mut self, log: &Vec<u8>) -> (r: Result<Vec<u8>, ErrorQueue>)
        requires
            old(self).wf(),
        ensures
            final(self).wf(),
            same_identity(*final(self), *old(self)),
            final(self).position == old(self).position,
            final(self).count_popped == old(self).count_popped,
            final(self).committed == old(self).committed,
            final(self).header == old(self).header,
            final(self).corrupted == old(self).corrupted,
            old(self).header is None ==> r == Err::<Vec<u8>, ErrorQueue>(
                ErrorQueue::NoPendingHeader,
            ) && *final(self) == *old(self),
            old(self).header matches Some(h) ==> {
                &&& (r is Ok <==> old(self).position + HEADER_SIZE + h.msg_length <= log@.len())
                &&& (r matches Ok(b) ==> b@ == log@.subrange(
                    old(self).position + HEADER_SIZE,
                    old(self).position + HEADER_SIZE + h.msg_length,
                ) && final(self).body_popped && final(self).next_position == old(self).position
                    + HEADER_SIZE + h.msg_length)
                &&& (r is Err ==> r == Err::<Vec<u8>, ErrorQueue>(ErrorQueue::FailReadTailMessage)
                    && final(self).body_popped == old(self).body_popped
                    && final(self).next_position == old(self).next_position)
            },
    {
        let h = match self.header {
            None => {
                return Err(ErrorQueue::NoPendingHeader);
            },
            Some(h) => h,
        };
        let log_len: usize = log.len();
        if self.position > log_len as u64 {
            return Err(ErrorQueue::FailReadTailMessage);
        }
        let pos = self.position as usize;
        if log_len - pos < HEADER_SIZE {
            return Err(ErrorQueue::FailReadTailMessage);
        }
        let offset = pos + HEADER_SIZE;
        match decode_body(log, offset, h.msg_length) {
            Some(b) => {
                self.body_popped = true;
                self.next_position = (offset as u64) + h.msg_length;
                Ok(b)
            },
            None => Err(ErrorQueue::FailReadTailMessage),
        }
    }

    /// Commits the record whose header and body were both read: the cursor
    /// moves to just past that one record — skipping nothing — the cached
    /// header is dropped, and the count of committed records grows by one.
    /// With nothing fully read there is nothing to commit and the cursor
    /// stays put.  The caller persists the new `position`; a crash before
    /// that, as before the commit itself, replays the record.
    pub fn commit(&mut self) -> (r: bool)
        requires
            old(self).wf(),
        ensures
            final(self).wf(),
            same_identity(*final(self), *old(self)),
            final(self).corrupted == old(self).corrupted,
            r == (old(self).header is Some && old(self).body_popped),
            r ==> {
                &&& final(self).position == old(self).next_position
                &&& final(self).position == old(self).position + HEADER_SIZE + old(
                    self,
                ).header.unwrap().msg_length
                &&& final(self).count_popped == old(self).count_popped + 1
                &&& final(self).committed@ == old(self).committed@.push(old(self).position)
                &&& final(self).header is None
                &&& !final(self).body_popped
            },
            !r ==> *final(self) == *old(self),
    {
        if self.header.is_some() && self.body_popped {
            self.committed = Ghost(self.committed@.push(self.position));
            self.position = self.next_position;
            self.count_popped = self.count_popped + 1;
            self.header = None;
            self.body_popped = false;
            true
        } else {
            false
        }
    }

    /// Counts the whole records between the cursor and the log's end: how
    /// many reads can succeed right now without another push.  A torn tail
    /// — a header whose body is still in flight — is not counted, and
    /// nothing is consumed.
    pub fn get_batch_size(&self, log: &Vec<u8>) -> (r: u64)
        ensures
            r == records_ahead(log@, self.position as int),
    {
        let log_len: usize = log.len();
        if self.position > log_len as u64 {
            return 0;
        }
        let start = self.position as usize;
        let mut p: usize = start;
        let mut count: u64 = 0;
        loop
            invariant_except_break
                start <= p <= log_len,
                log_len == log@.len(),
                records_ahead(log@, start as int) == count + records_ahead(log@, p as int),
                HEADER_SIZE * (count as int) <= p - start,
            ensures
                count == records_ahead(log@, start as int),
            decreases log_len - p,
        {
            match decode_header(log, p) {
                Ok(h) => {
                    if h.msg_length <= (log_len - p - HEADER_SIZE) as u64 {
                        assert(record_complete(log@, p as int));
                        let next = p + HEADER_SIZE + (h.msg_length as usize);
                        assert(next == record_end(log@, p as int));
                        count = count + 1;
                        p = next;
                    } else {
                        assert(!record_complete(log@, p as int));
                        break;
                    }
                },
                Err(_) => {
                    assert(!record_complete(log@, p as int));
                    break;
                },
            }
        }
        count
    }

    /// Reads and commits every whole record ahead of the cursor, returning
    /// the bodies in log order.  Over a log that parses cleanly from the
    /// cursor, any cursor — whatever its name — ends at the log's end
    /// having committed exactly the records that were ahead of it: each
    /// body is delivered once, none skipped, none repeated.  Two
    /// independently named cursors draining the same log therefore commit
    /// the same count and read the same bodies.
    pub fn drain(&mut self, log: &Vec<u8>) -> (r: Vec<Vec<u8>>)
        requires
            old(self).wf(),
            old(self).header is None,
            wf_from(log@, old(self).position as int),
        ensures
            final(self).wf(),
            same_identity(*final(self), *old(self)),
            final(self).corrupted == old(self).corrupted,
            final(self).header is None,
            r@.len() == records_ahead(log@, old(self).position as int),
            final(self).count_popped == old(self).count_popped + r@.len(),
            final(self).position == log@.len(),
            views_of(r@) == bodies_from(log@, old(self).position as int),
    {
        let mut out: Vec<Vec<u8>> = Vec::new();
        proof {
            assert(self.position <= log@.len());
        }
        loop
            invariant_except_break
                self.wf(),
                self.header is None,
                same_identity(*self, *old(self)),
                self.corrupted == old(self).corrupted,
                wf_from(log@, self.position as int),
                self.position <= log@.len(),
                self.count_popped == old(self).count_popped + out@.len(),
                records_ahead(log@, old(self).position as int) == out@.len() + records_ahead(
                    log@,
                    self.position as int,
                ),
                bodies_from(log@, old(self).position as int) == views_of(out@) + bodies_from(
                    log@,
                    self.position as int,
                ),
            ensures
                self.wf(),
                self.header is None,
                same_identity(*self, *old(self)),
                self.corrupted == old(self).corrupted,
                self.count_popped == old(self).count_popped + out@.len(),
                out@.len() == records_ahead(log@, old(self).position as int),
                views_of(out@) == bodies_from(log@, old(self).position as int),
                self.position == log@.len(),
            decreases log@.len() - self.position,
        {
            let ghost p = self.position as int;
            if !self.pop_header(log) {
                proof {
                    assert(!record_complete(log@, p));
                    assert(self.position == log@.len());
                    assert_seqs_equal!(views_of(out@)
                        == bodies_from(log@, old(self).position as int));
                }
                break;
            }
            proof {
                assert(p < log@.len());
                assert(record_complete(log@, p));
            }
            let body = match self.pop_body(log) {
                Ok(b) => b,
                Err(_) => {
                    proof {
                        assert(false);
                    }
                    return Vec::new();
                },
            };
            let committed_now = self.commit();
            proof {
                assert(committed_now);
                assert(self.position as int == record_end(log@, p));
                assert(body@ == body_at(log@, p));
                let ghost prev = out@;
                assert_seqs_equal!(views_of(prev.push(body)) == views_of(prev).push(body@));
            }
            out.push(body);
            proof {
                assert_seqs_equal!(views_of(out@) + bodies_from(log@, self.position as int)
                    == bodies_from(log@, old(self).position as int));
            }
        }
        out
    }
}

/// A cursor's count of popped records equals the number of positions it
/// has committed since open, and those positions are pairwise distinct:
/// commits happen at strictly increasing positions, so no commit is lost
/// and none is counted twice.
pub proof fn lemma_count_popped_counts_commits(c: Consumer)
    requires
        c.wf(),
    ensures
        c.count_popped == c.committed@.len(),
        forall|i: int, j: int|
            0 <= i < j < c.committed@.len() ==> c.committed@[i] != c.committed@[j],
{
}

} // verus!
