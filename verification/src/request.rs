//! The client's HTTP upgrade request: collecting its header up to the first
//! blank line, within a size limit.
use vstd::prelude::*;

verus! {

/// The most bytes of request header that are accepted.
pub const LIMIT: usize = 5120;

/// How much of a line ending has just been seen.
#[derive(Debug, Clone, Copy, PartialEq, Eq, Structural)]
pub enum StatusMachine {
    Others,
    CR,
    CRLF,
    CRLFCR,
    CRLFCRLF,
}

/// The state after one more byte.
pub open spec fn next_status(status: StatusMachine, byte: u8) -> StatusMachine {
    if byte == 0x0D {
        if status == StatusMachine::CRLF {
            StatusMachine::CRLFCR
        } else {
            StatusMachine::CR
        }
    } else if byte == 0x0A {
        if status == StatusMachine::CR {
            StatusMachine::CRLF
        } else if status == StatusMachine::CRLFCR {
            StatusMachine::CRLFCRLF
        } else {
            StatusMachine::Others
        }
    } else {
        StatusMachine::Others
    }
}

/// The state after all of `s`, from the start state.
pub open spec fn status_after(s: Seq<u8>) -> StatusMachine
    decreases s.len(),
{
    if s.len() == 0 {
        StatusMachine::Others
    } else {
        next_status(status_after(s.drop_last()), s.last())
    }
}

/// The last byte of `s`, counted from the end (`back(s, 1)` is the last).
pub open spec fn back(s: Seq<u8>, i: int) -> u8 {
    s[s.len() - i]
}

/// `s` ends with a blank line, CR LF CR LF.
pub open spec fn ends_with_blank_line(s: Seq<u8>) -> bool {
    &&& s.len() >= 4
    &&& back(s, 4) == 0x0D && back(s, 3) == 0x0A && back(s, 2) == 0x0D && back(s, 1) == 0x0A
}

/// What the end of `s` says of a line ending in progress.
pub open spec fn line_ending_seen(s: Seq<u8>) -> StatusMachine {
    if ends_with_blank_line(s) {
        StatusMachine::CRLFCRLF
    } else if s.len() >= 3 && back(s, 3) == 0x0D && back(s, 2) == 0x0A && back(s, 1) == 0x0D {
        StatusMachine::CRLFCR
    } else if s.len() >= 2 && back(s, 2) == 0x0D && back(s, 1) == 0x0A {
        StatusMachine::CRLF
    } else if s.len() >= 1 && back(s, 1) == 0x0D {
        StatusMachine::CR
    } else {
        StatusMachine::Others
    }
}

/// No proper prefix of `s` has reached a blank line.
pub open spec fn no_earlier_blank_line(s: Seq<u8>) -> bool {
    forall|k: int|
        0 <= k < s.len() ==> status_after(#[trigger] s.take(k)) != StatusMachine::CRLFCRLF
}

/// The line-ending state of the header read so far.
pub struct Status {
    pub status: StatusMachine,
}

impl Status {
    pub fn new() -> (r: Status)
        ensures
            r.status == StatusMachine::Others,
    {
        Status { status: StatusMachine::Others }
    }

    /// Moves on by one byte.
    pub fn advance(&mut self, byte: u8)
        ensures
            final(self).status == next_status(old(self).status, byte),
    {
        if byte == 0x0D {
            match self.status {
                StatusMachine::CRLF => self.status = StatusMachine::CRLFCR,
                _ => self.status = StatusMachine::CR,
            }
        } else if byte == 0x0A {
            match self.status {
                StatusMachine::CR => self.status = StatusMachine::CRLF,
                StatusMachine::CRLFCR => self.status = StatusMachine::CRLFCRLF,
                _ => self.status = StatusMachine::Others,
            }
        } else {
            self.status = StatusMachine::Others;
        }
    }
}

/// What feeding a chunk of the stream came to.
#[derive(Debug, Clone, Copy, PartialEq, Eq, Structural)]
pub enum HeaderProgress {
    /// Every byte of the chunk was taken; the header may go on.
    NeedMore,
    /// The header ended at a blank line before the next byte.
    Complete,
    /// The header reached the limit before its end.
    TooLarge,
}

/// The header as read so far, and its line-ending state.
pub ghost struct ReaderView {
    pub raw: Seq<u8>,
    pub status: StatusMachine,
}

/// What holds of every header reader: its state is that of its bytes, it is
/// within the limit, and no shorter part of it ended in a blank line.
pub open spec fn reader_wf(v: ReaderView) -> bool {
    &&& v.status == status_after(v.raw)
    &&& v.raw.len() <= LIMIT
    &&& no_earlier_blank_line(v.raw)
}

/// Collects the bytes of a request header from successive chunks.
pub struct HeaderReader {
    raw: Vec<u8>,
    current: Status,
}

impl View for HeaderReader {
    type V = ReaderView;

    closed spec fn view(&self) -> ReaderView {
        ReaderView { raw: self.raw@, status: self.current.status }
    }
}

impl HeaderReader {
    pub fn new() -> (r: HeaderReader)
        ensures
            r@.raw == Seq::<u8>::empty(),
            r@.status == StatusMachine::Others,
            reader_wf(r@),
    {
        let r = HeaderReader { raw: Vec::new(), current: Status::new() };
        assert(reader_wf(r@));
        r
    }

    /// The header bytes read so far.
    pub fn raw_headers(&self) -> (r: &Vec<u8>)
        ensures
            r@ == self@.raw,
    {
        &self.raw
    }

    /// Takes the bytes of `chunk` one at a time until the header ends. It
    /// stops on the byte that ends the first blank line (`Complete`); it
    /// stops before a byte that would go past `LIMIT` bytes (`TooLarge`); else
    /// it takes the whole chunk (`NeedMore`). A header whose blank line ends
    /// at or before byte `LIMIT` is complete.
    pub fn feed(&mut self, chunk: &[u8]) -> (r: HeaderProgress)
        requires
            reader_wf(old(self)@),
        ensures
            reader_wf(final(self)@),
            old(self)@.raw.len() <= final(self)@.raw.len() <= old(self)@.raw.len() + chunk@.len(),
            final(self)@.raw == old(self)@.raw + chunk@.take(
                final(self)@.raw.len() - old(self)@.raw.len(),
            ),
            forall|j: int|
                old(self)@.raw.len() <= j < final(self)@.raw.len() ==> j < LIMIT && status_after(
                    #[trigger] final(self)@.raw.take(j),
                ) != StatusMachine::CRLFCRLF,
            (r == HeaderProgress::Complete) <==> final(self)@.status == StatusMachine::CRLFCRLF,
            (r == HeaderProgress::NeedMore) <==> (final(self)@.status != StatusMachine::CRLFCRLF
                && final(self)@.raw.len() == old(self)@.raw.len() + chunk@.len()),
            (r == HeaderProgress::TooLarge) <==> (final(self)@.status != StatusMachine::CRLFCRLF
                && final(self)@.raw.len() < old(self)@.raw.len() + chunk@.len()),
            r == HeaderProgress::Complete ==> ends_with_blank_line(final(self)@.raw) && forall|
                k: int,
            |
                0 <= k < final(self)@.raw.len() ==> !ends_with_blank_line(
                    #[trigger] final(self)@.raw.take(k),
                ),
            r == HeaderProgress::TooLarge ==> final(self)@.raw.len() == LIMIT && forall|k: int|
                0 <= k <= final(self)@.raw.len() ==> !ends_with_blank_line(
                    #[trigger] final(self)@.raw.take(k),
                ),
    {
        let ghost start = self@.raw;
        let mut i: usize = 0;
        while i < chunk.len()
            invariant
                i <= chunk@.len(),
                start == old(self)@.raw,
                reader_wf(self@),
                self@.raw == start + chunk@.take(i as int),
                forall|j: int|
                    start.len() <= j < self@.raw.len() ==> j < LIMIT && status_after(
                        #[trigger] self@.raw.take(j),
                    ) != StatusMachine::CRLFCRLF,
            decreases chunk@.len() - i,
        {
            if let StatusMachine::CRLFCRLF = self.current.status {
                proof {
                    law_complete_header_ends_at_first_blank_line(self@);
                }
                return HeaderProgress::Complete;
            }
            if self.raw.len() >= LIMIT {
                proof {
                    lemma_no_blank_line_yet(self@);
                }
                return HeaderProgress::TooLarge;
            }
            let byte = chunk[i];
            let ghost before = self@.raw;
            self.raw.push(byte);
            self.current.advance(byte);
            i = i + 1;
            proof {
                let after = self@.raw;
                assert(after.drop_last() =~= before);
                assert(after =~= start + chunk@.take(i as int));
                assert forall|k: int| 0 <= k < after.len() implies status_after(
                    #[trigger] after.take(k),
                ) != StatusMachine::CRLFCRLF by {
                    if k < before.len() {
                        assert(after.take(k) =~= before.take(k));
                    } else {
                        assert(after.take(k) =~= before);
                    }
                }
                assert forall|j: int| start.len() <= j < after.len() implies j < LIMIT
                    && status_after(#[trigger] after.take(j)) != StatusMachine::CRLFCRLF by {
                    if j < before.len() {
                        assert(after.take(j) =~= before.take(j));
                    } else {
                        assert(after.take(j) =~= before);
                    }
                }
            }
        }
        if let StatusMachine::CRLFCRLF = self.current.status {
            proof {
                law_complete_header_ends_at_first_blank_line(self@);
            }
            HeaderProgress::Complete
        } else {
            HeaderProgress::NeedMore
        }
    }
}

/// A reader that has not reached a blank line has none in any part of what
/// it read.
proof fn lemma_no_blank_line_yet(v: ReaderView)
    requires
        reader_wf(v),
        v.status != StatusMachine::CRLFCRLF,
    ensures
        forall|k: int| 0 <= k <= v.raw.len() ==> !ends_with_blank_line(#[trigger] v.raw.take(k)),
{
    assert forall|k: int| 0 <= k <= v.raw.len() implies !ends_with_blank_line(
        #[trigger] v.raw.take(k),
    ) by {
        let p = v.raw.take(k);
        assert forall|m: int| 0 <= m < p.len() implies status_after(#[trigger] p.take(m))
            != StatusMachine::CRLFCRLF by {
            assert(p.take(m) =~= v.raw.take(m));
        }
        if k == v.raw.len() {
            assert(p =~= v.raw);
        }
        law_status_tracks_line_ending(p);
    }
}

/// Along a stream that has not passed a blank line, the state is what the
/// end of the bytes read says.
pub proof fn law_status_tracks_line_ending(s: Seq<u8>)
    requires
        no_earlier_blank_line(s),
    ensures
        status_after(s) == line_ending_seen(s),
    decreases s.len(),
{
    if s.len() > 0 {
        let p = s.drop_last();
        let b = s.last();
        assert forall|k: int| 0 <= k < p.len() implies status_after(#[trigger] p.take(k))
            != StatusMachine::CRLFCRLF by {
            assert(p.take(k) =~= s.take(k));
        }
        law_status_tracks_line_ending(p);
        assert(s.take(p.len() as int) =~= p);
        assert(forall|i: int| 0 <= i < p.len() ==> p[i] == s[i]);
    }
}

/// A header that the reader reports complete ends with a blank line, and no
/// shorter part of it does: it ends at the first blank line of the stream.
pub proof fn law_complete_header_ends_at_first_blank_line(v: ReaderView)
    requires
        reader_wf(v),
        v.status == StatusMachine::CRLFCRLF,
    ensures
        ends_with_blank_line(v.raw),
        forall|k: int| 0 <= k < v.raw.len() ==> !ends_with_blank_line(#[trigger] v.raw.take(k)),
{
    law_status_tracks_line_ending(v.raw);
    assert forall|k: int| 0 <= k < v.raw.len() implies !ends_with_blank_line(
        #[trigger] v.raw.take(k),
    ) by {
        let p = v.raw.take(k);
        assert forall|m: int| 0 <= m < p.len() implies status_after(#[trigger] p.take(m))
            != StatusMachine::CRLFCRLF by {
            assert(p.take(m) =~= v.raw.take(m));
        }
        law_status_tracks_line_ending(p);
    }
}

} // verus!
