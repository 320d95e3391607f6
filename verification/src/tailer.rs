//! Log tailer core: the cursor and the read pass.
//!
//! The tailer owns a byte cursor into a growing log file. A read pass is
//! handed the bytes found from the cursor to the end of the file; it splits
//! them at newlines, parses each complete line, and advances the cursor past
//! exactly the lines it consumed. A trailing line with no newline yet is
//! left for the next pass, so a line split across two writes is parsed once,
//! whole. Running a pass on an empty chunk emits nothing and leaves the
//! cursor where it was.
//!
//! Opening the file, watching its directory and sleeping between passes is
//! the caller's loop; everything the loop decides is here.

use vstd::prelude::*;
use vstd::utf8::{valid_utf8, decode_utf8};
use crate::events::{LogEvent, LogEventV, opt_event_view};
use crate::parser;

verus! {

/// What one complete line contributes: its event when its bytes are valid
/// UTF-8 and match a pattern, nothing otherwise.
pub open spec fn parse_bytes(line: Seq<u8>) -> Option<LogEventV> {
    if valid_utf8(line) {
        parser::spec_parse(decode_utf8(line))
    } else {
        None
    }
}

pub open spec fn opt_to_seq(o: Option<LogEventV>) -> Seq<LogEventV> {
    match o {
        Some(ev) => seq![ev],
        None => Seq::empty(),
    }
}

/// Events of a byte chunk, walked left to right with `cur` as the partial
/// line carried in: each newline closes a line, and a partial line at the
/// end contributes nothing.
pub open spec fn events_acc(bs: Seq<u8>, cur: Seq<u8>) -> Seq<LogEventV>
    decreases bs.len(),
{
    if bs.len() == 0 {
        Seq::empty()
    } else if bs[0] == 10u8 {
        opt_to_seq(parse_bytes(cur)) + events_acc(bs.drop_first(), Seq::empty())
    } else {
        events_acc(bs.drop_first(), cur.push(bs[0]))
    }
}

/// All events of a chunk's complete lines, in file order.
pub open spec fn events_of_chunk(bs: Seq<u8>) -> Seq<LogEventV> {
    events_acc(bs, Seq::empty())
}

/// How many bytes of a chunk a read pass consumes: everything up to and
/// including the last newline, nothing when there is none.
pub open spec fn consumed_len(bs: Seq<u8>) -> int
    decreases bs.len(),
{
    if bs.len() == 0 {
        0
    } else if bs.last() == 10u8 {
        bs.len() as int
    } else {
        consumed_len(bs.drop_last())
    }
}

/// `consumed_len` is the unique cut that sits just after a newline (or at
/// the start) and has no newline after it.
pub proof fn lemma_consumed_len_is(bs: Seq<u8>, c: int)
    requires
        0 <= c <= bs.len(),
        c == 0 || bs[c - 1] == 10u8,
        forall|j: int| c <= j < bs.len() ==> bs[j] != 10u8,
    ensures
        consumed_len(bs) == c,
    decreases bs.len(),
{
    if bs.len() == 0 {
    } else if bs.last() == 10u8 {
        assert(c == bs.len());
    } else {
        assert(c < bs.len());
        lemma_consumed_len_is(bs.drop_last(), c);
    }
}

/// A chunk without a newline contributes no event, whatever partial line is
/// carried in.
pub proof fn lemma_no_newline_no_events(bs: Seq<u8>, cur: Seq<u8>)
    requires
        forall|j: int| 0 <= j < bs.len() ==> bs[j] != 10u8,
    ensures
        events_acc(bs, cur) == Seq::<LogEventV>::empty(),
    decreases bs.len(),
{
    if bs.len() > 0 {
        lemma_no_newline_no_events(bs.drop_first(), cur.push(bs[0]));
    }
}

/// What `consumed_len` names really is the cut just after the last
/// newline: nothing follows it but newline-free bytes, and it sits right
/// after a newline unless it is the start.
pub proof fn lemma_consumed_len_props(bs: Seq<u8>)
    ensures
        0 <= consumed_len(bs) <= bs.len(),
        consumed_len(bs) == 0 || bs[consumed_len(bs) - 1] == 10u8,
        forall|j: int| consumed_len(bs) <= j < bs.len() ==> #[trigger] bs[j] != 10u8,
    decreases bs.len(),
{
    if bs.len() > 0 && bs.last() != 10u8 {
        lemma_consumed_len_props(bs.drop_last());
        assert forall|j: int|
            consumed_len(bs) <= j < bs.len() implies #[trigger] bs[j] != 10u8 by {
            if j < bs.len() - 1 {
                assert(bs.drop_last()[j] == bs[j]);
                assert(bs.drop_last()[j] != 10u8);
            }
        }
    }
}

/// Walking a chunk that ends at a line boundary and then more bytes is
/// the same as walking the two one after the other: the boundary hands an
/// empty partial line to the second part.
proof fn lemma_events_acc_append(x: Seq<u8>, y: Seq<u8>, cur: Seq<u8>)
    requires
        x.len() > 0,
        x.last() == 10u8,
    ensures
        events_acc(x + y, cur) == events_acc(x, cur) + events_acc(y, Seq::empty()),
    decreases x.len(),
{
    assert((x + y).len() > 0);
    assert((x + y)[0] == x[0]);
    assert((x + y).drop_first() =~= x.drop_first() + y);
    if x.len() == 1 {
        assert(x[0] == 10u8);
        assert(x.drop_first() =~= Seq::<u8>::empty());
        assert((x + y).drop_first() =~= y);
        assert(events_acc(x, cur) =~= opt_to_seq(parse_bytes(cur)) + events_acc(
            Seq::empty(),
            Seq::empty(),
        ));
        assert(events_acc(x + y, cur) =~= events_acc(x, cur) + events_acc(y, Seq::empty()));
    } else {
        assert(x.drop_first().last() == x.last());
        if x[0] == 10u8 {
            lemma_events_acc_append(x.drop_first(), y, Seq::empty());
            assert(events_acc(x + y, cur) =~= events_acc(x, cur) + events_acc(
                y,
                Seq::empty(),
            ));
        } else {
            lemma_events_acc_append(x.drop_first(), y, cur.push(x[0]));
            assert(events_acc(x + y, cur) =~= events_acc(x, cur) + events_acc(
                y,
                Seq::empty(),
            ));
        }
    }
}

/// Across passes nothing is lost, duplicated or reordered: a pass over
/// any prefix of the appended bytes, followed by a pass over everything
/// from the first pass's advanced cursor on, yields exactly the events of
/// the whole, in file order.
pub proof fn lemma_read_passes_compose(bs: Seq<u8>, k: int)
    requires
        0 <= k <= bs.len(),
    ensures
        0 <= consumed_len(bs.take(k)) <= k,
        events_of_chunk(bs.take(k)) + events_of_chunk(bs.skip(consumed_len(bs.take(k))))
            == events_of_chunk(bs),
{
    let v = bs.take(k);
    lemma_consumed_len_props(v);
    let c1 = consumed_len(v);
    if c1 == 0 {
        assert(forall|j: int| 0 <= j < v.len() ==> #[trigger] v[j] != 10u8);
        lemma_no_newline_no_events(v, Seq::empty());
        assert(bs.skip(0) =~= bs);
        assert(events_of_chunk(v) + events_of_chunk(bs) =~= events_of_chunk(bs));
    } else {
        let x = bs.take(c1);
        assert(x.last() == v[c1 - 1]);
        let mid = bs.subrange(c1, k);
        assert(v =~= x + mid);
        lemma_events_acc_append(x, mid, Seq::empty());
        assert(forall|j: int| 0 <= j < mid.len() ==> #[trigger] mid[j] != 10u8) by {
            assert forall|j: int| 0 <= j < mid.len() implies #[trigger] mid[j] != 10u8 by {
                assert(mid[j] == v[c1 + j]);
                assert(v[c1 + j] != 10u8);
            }
        }
        lemma_no_newline_no_events(mid, Seq::empty());
        assert(events_of_chunk(v) =~= events_of_chunk(x));
        assert(bs =~= x + bs.skip(c1));
        lemma_events_acc_append(x, bs.skip(c1), Seq::empty());
        assert(events_of_chunk(v) + events_of_chunk(bs.skip(c1)) =~= events_of_chunk(bs));
    }
}

/// View of a vector of events.
pub open spec fn events_view(evs: Seq<LogEvent>) -> Seq<LogEventV> {
    evs.map_values(|e: LogEvent| e@)
}

/// Relies on `str::from_utf8`: it succeeds exactly on valid UTF-8 and
/// decodes those bytes to their characters.
#[verifier::external_body]
fn bytes_to_str(v: &[u8]) -> (r: Option<&str>)
    ensures
        r is Some <==> valid_utf8(v@),
        (match r {
            Some(s) => s@ == decode_utf8(v@),
            None => true,
        }),
{
    std::str::from_utf8(v).ok()
}

/// One complete line's worth of parsing, from raw bytes.
fn parse_line_bytes(line: &[u8]) -> (r: Option<LogEvent>)
    ensures
        opt_event_view(r) == parse_bytes(line@),
{
    match bytes_to_str(line) {
        Some(s) => parser::parse_line(s),
        None => None,
    }
}

/// The tailer's state: which file it follows, the byte offset up to which
/// that file has been consumed, and the polling cadence of the caller's
/// loop.
pub struct LogWatcher {
    pub log_path: String,
    pub position: u64,
    pub fast_polling: bool,
}

impl LogWatcher {
    /// A tailer for the given path, with the cursor at the start of the
    /// file.
    pub fn new(log_path: String) -> (r: LogWatcher)
        ensures
            r.log_path@ == log_path@,
            r.position == 0,
            !r.fast_polling,
    {
        LogWatcher { log_path, position: 0, fast_polling: false }
    }

    /// Begin a session against a file currently `file_len` bytes long: the
    /// cursor starts at the end, so history already in the file is not
    /// replayed.
    pub fn start(&mut self, file_len: u64)
        ensures
            final(self).position == file_len,
            final(self).log_path == old(self).log_path,
            final(self).fast_polling == old(self).fast_polling,
    {
        self.position = file_len;
    }

    /// Reconcile the cursor with the file's current length before a read
    /// pass: a file shorter than the cursor was truncated or rotated, and
    /// the cursor resets to the start so the new content is read.
    pub fn note_file_len(&mut self, file_len: u64)
        ensures
            final(self).position == if file_len < old(self).position {
                0u64
            } else {
                old(self).position
            },
            final(self).log_path == old(self).log_path,
            final(self).fast_polling == old(self).fast_polling,
    {
        if file_len < self.position {
            self.position = 0;
        }
    }

    /// Trade polling latency against CPU: fast polling shortens the
    /// caller's wait between checks. Affects only latency, never which
    /// events are produced.
    pub fn set_fast_polling(&mut self, enabled: bool)
        ensures
            final(self).fast_polling == enabled,
            final(self).log_path == old(self).log_path,
            final(self).position == old(self).position,
    {
        self.fast_polling = enabled;
    }

    /// How long the caller's loop should wait for a change notification
    /// before re-checking its stop signal, in milliseconds.
    pub fn poll_interval_ms(&self) -> (r: u64)
        ensures
            r == if self.fast_polling {
                25u64
            } else {
                100u64
            },
    {
        if self.fast_polling {
            25
        } else {
            100
        }
    }

    /// One read pass over `chunk`, the bytes from the cursor to the current
    /// end of the file: parse every complete line in file order and advance
    /// the cursor past the last newline. A chunk without a newline — in
    /// particular an empty chunk, when nothing was appended — produces no
    /// event and leaves the cursor unchanged.
    pub fn process_chunk(&mut self, chunk: &[u8]) -> (events: Vec<LogEvent>)
        requires
            old(self).position + chunk@.len() <= u64::MAX,
        ensures
            events_view(events@) == events_of_chunk(chunk@),
            final(self).position == old(self).position + consumed_len(chunk@),
            final(self).log_path == old(self).log_path,
            final(self).fast_polling == old(self).fast_polling,
            (forall|j: int| 0 <= j < chunk@.len() ==> chunk@[j] != 10u8) ==> {
                &&& events@.len() == 0
                &&& final(self).position == old(self).position
            },
    {
        let n = chunk.len();
        let mut events: Vec<LogEvent> = Vec::new();
        let mut cur_line: Vec<u8> = Vec::new();
        let mut line_start: usize = 0;
        let mut i: usize = 0;
        proof {
            assert(chunk@.skip(0) =~= chunk@);
            assert(events_view(events@) =~= Seq::<LogEventV>::empty());
            assert(cur_line@ =~= chunk@.subrange(0, 0));
        }
        while i < n
            invariant
                n == chunk@.len(),
                0 <= line_start <= i <= n,
                cur_line@ =~= chunk@.subrange(line_start as int, i as int),
                line_start == 0 || chunk@[line_start - 1] == 10u8,
                forall|j: int| line_start <= j < i ==> chunk@[j] != 10u8,
                events_of_chunk(chunk@) =~= events_view(events@) + events_acc(
                    chunk@.skip(i as int),
                    cur_line@,
                ),
            decreases n - i,
        {
            let b = chunk[i];
            proof {
                assert(chunk@.skip(i as int)[0] == chunk@[i as int]);
                assert(chunk@.skip(i as int).drop_first() =~= chunk@.skip(i + 1));
            }
            if b == 10 {
                let ev = parse_line_bytes(cur_line.as_slice());
                proof {
                    assert(events_acc(chunk@.skip(i as int), cur_line@) == opt_to_seq(
                        parse_bytes(cur_line@),
                    ) + events_acc(chunk@.skip(i + 1), Seq::empty()));
                }
                match ev {
                    Some(e) => {
                        events.push(e);
                        proof {
                            assert(events_view(events@) =~= events_view(events@.drop_last())
                                + opt_to_seq(parse_bytes(cur_line@)));
                        }
                    },
                    None => {
                    },
                }
                cur_line = Vec::new();
                line_start = i + 1;
                proof {
                    assert(events_of_chunk(chunk@) =~= events_view(events@) + events_acc(
                        chunk@.skip(line_start as int),
                        cur_line@,
                    ));
                }
            } else {
                cur_line.push(b);
                proof {
                    assert(cur_line@ =~= chunk@.subrange(line_start as int, i + 1));
                }
            }
            i = i + 1;
            proof {
                assert(cur_line@ =~= chunk@.subrange(line_start as int, i as int));
            }
        }
        proof {
            assert(chunk@.skip(n as int) =~= Seq::<u8>::empty());
            assert(events_acc(Seq::empty(), cur_line@) =~= Seq::<LogEventV>::empty());
            assert(events_view(events@) =~= events_of_chunk(chunk@));
            lemma_consumed_len_is(chunk@, line_start as int);
            if forall|j: int| 0 <= j < chunk@.len() ==> chunk@[j] != 10u8 {
                lemma_consumed_len_is(chunk@, 0);
                lemma_no_newline_no_events(chunk@, Seq::empty());
                assert(events_view(events@).len() == events@.len());
            }
        }
        self.position = self.position + line_start as u64;
        events
    }

    /// Parse one log line; see the parser module for the grammar.
    pub fn parse_line(line: &str) -> (r: Option<LogEvent>)
        ensures
            opt_event_view(r) == parser::spec_parse(line@),
    {
        parser::parse_line(line)
    }
}

} // verus!
