//! The echo session: what the server does with each frame a client sends.
//! A text frame is sent back, a ping is answered with a pong, a close frame
//! ends the session, and a message in fragments is sent back whole once its
//! last fragment has come.
use vstd::prelude::*;

use crate::big_endian::be_bytes;
use crate::frame::{header_bytes, OperationCode, WebSocketHeader};

verus! {

/// The payload that a pong carries: the UTF-8 text "卧槽，pong还能带数据？".
pub open spec fn pong_payload() -> Seq<u8> {
    seq![
        229u8, 141, 167, 230, 167, 189, 239, 188, 140, 112, 111, 110, 103, 232, 191, 152, 232,
        131, 189, 229, 184, 166, 230, 149, 176, 230, 141, 174, 239, 188, 159,
    ]
}

/// The reason that the server's close frame gives: the UTF-8 text
/// "这水厂要倒闭了，哎...".
pub open spec fn close_reason() -> Seq<u8> {
    seq![
        232u8, 191, 153, 230, 176, 180, 229, 142, 130, 232, 166, 129, 229, 128, 146, 233, 151,
        173, 228, 186, 134, 239, 188, 140, 229, 147, 142, 46, 46, 46,
    ]
}

/// The status code of the server's close frame: 1000, normal closure.
pub open spec fn close_code() -> u16 {
    1000
}

/// The payload of the server's close frame: the status code, most
/// significant byte first, then the reason.
pub open spec fn close_payload() -> Seq<u8> {
    be_bytes(close_code() as nat, 2) + close_reason()
}

/// The header and payload of the close frame that the server sends.
pub fn close_websocket_frame() -> (r: (WebSocketHeader, Vec<u8>))
    ensures
        r.1@ == close_payload(),
        r.0@.bytes == header_bytes(true, OperationCode::Close, r.1@.len() as u64),
        r.0@.payload_length == r.1@.len(),
        r.0@.mask == 0,
{
    let reason: Vec<u8> = vec![
        232u8, 191, 153, 230, 176, 180, 229, 142, 130, 232, 166, 129, 229, 128, 146, 233, 151,
        173, 228, 186, 134, 239, 188, 140, 229, 147, 142, 46, 46, 46,
    ];
    let mut payload: Vec<u8> = Vec::new();
    payload.push(0x03);
    payload.push(0xE8);
    let mut i: usize = 0;
    while i < reason.len()
        invariant
            i <= reason@.len(),
            payload@ == seq![0x03u8, 0xE8u8] + reason@.take(i as int),
        decreases reason@.len() - i,
    {
        payload.push(reason[i]);
        i = i + 1;
        assert(payload@ =~= seq![0x03u8, 0xE8u8] + reason@.take(i as int));
    }
    assert(reason@ =~= close_reason());
    assert(reason@.take(i as int) =~= reason@);
    assert(be_bytes(close_code() as nat, 2) =~= seq![0x03u8, 0xE8u8]) by {
        reveal_with_fuel(be_bytes, 3);
    }
    let header = WebSocketHeader::new(true, OperationCode::Close, 2 + reason.len() as u64);
    (header, payload)
}

/// The state of an echo session.
pub ghost struct SessionView {
    /// A message in fragments is being received.
    pub receiving: bool,
    /// The opcode of the first fragment of that message.
    pub continued_op: OperationCode,
    /// The payloads of its fragments so far, in order.
    pub assembled: Seq<u8>,
    /// The session is over.
    pub ended: bool,
}

/// A frame as the session sees it.
pub ghost struct FrameView {
    pub fin: u8,
    pub op: OperationCode,
    pub payload: Seq<u8>,
}

/// What the server sends in answer to a frame.
pub ghost enum ReplyView {
    Nothing,
    Send { op: OperationCode, payload: Seq<u8> },
    Close,
}

/// A frame whose FIN bit is set comes in the middle of a message in
/// fragments, and is not its last fragment: the session cannot go on.
pub open spec fn breaks_fragments(v: SessionView, fin: u8, op: OperationCode) -> bool {
    v.receiving && fin == 1 && !(op is Continue)
}

/// A whole frame (outside a message in fragments) of an opcode that the
/// server does not answer: the session closes without reading its payload.
pub open spec fn closes_unread(v: SessionView, fin: u8, op: OperationCode) -> bool {
    !v.receiving && fin == 1 && !(op is Text || op is Close || op is Ping)
}

/// The state after a frame whose payload was read.
pub open spec fn after_frame(v: SessionView, fin: u8, op: OperationCode, payload: Seq<u8>) -> SessionView {
    if fin == 1 {
        if !v.receiving {
            if op is Close {
                SessionView { ended: true, ..v }
            } else {
                v
            }
        } else {
            SessionView { receiving: false, assembled: v.assembled + payload, ..v }
        }
    } else if !v.receiving {
        SessionView { receiving: true, continued_op: op, assembled: payload, ..v }
    } else {
        SessionView { assembled: v.assembled + payload, ..v }
    }
}

/// The answer to a frame whose payload was read.
pub open spec fn reply_to(v: SessionView, fin: u8, op: OperationCode, payload: Seq<u8>) -> ReplyView {
    if fin == 1 {
        if !v.receiving {
            if op is Text {
                ReplyView::Send { op: OperationCode::Text, payload }
            } else if op is Close {
                ReplyView::Close
            } else {
                ReplyView::Send { op: OperationCode::Pong, payload: pong_payload() }
            }
        } else {
            ReplyView::Send { op: v.continued_op, payload: v.assembled + payload }
        }
    } else {
        ReplyView::Nothing
    }
}

/// Why a frame cannot be taken in the middle of a message in fragments.
#[derive(Debug, Clone, Copy, PartialEq, Eq, Structural)]
pub enum FragmentViolation {
    /// A frame of a reserved opcode.
    Reserved,
    /// A whole frame of any other opcode but `Continue`.
    Unexpected,
}

/// What to do once a frame header has come.
#[derive(Debug, Clone, Copy, PartialEq, Eq, Structural)]
pub enum FrameStep {
    /// Read the payload and hand it to `on_payload`.
    ReadPayload,
    /// Send the close frame; the session is over.
    CloseNow,
}

/// What to send once a payload has been read.
pub enum Reply {
    Nothing,
    /// A frame with this header and payload.
    Send(WebSocketHeader, Vec<u8>),
    /// The close frame; the session is over.
    Close,
}

/// `r` is the reply that `rv` describes: a frame is sent whole (FIN set),
/// unmasked, with the header that `WebSocketHeader::new` writes for it.
pub open spec fn reply_is(r: Reply, rv: ReplyView) -> bool {
    match rv {
        ReplyView::Nothing => r is Nothing,
        ReplyView::Close => r is Close,
        ReplyView::Send { op, payload } => match r {
            Reply::Send(h, p) => {
                &&& p@ == payload
                &&& h@.bytes == header_bytes(true, op, payload.len() as u64)
                &&& h@.payload_length == payload.len()
                &&& h@.mask == 0
            },
            _ => false,
        },
    }
}

/// An echo session.
pub struct EchoSession {
    receiving_continue_frame: bool,
    op_code_of_continue: OperationCode,
    whole_payload: Vec<u8>,
    end: bool,
}

impl View for EchoSession {
    type V = SessionView;

    closed spec fn view(&self) -> SessionView {
        SessionView {
            receiving: self.receiving_continue_frame,
            continued_op: self.op_code_of_continue,
            assembled: self.whole_payload@,
            ended: self.end,
        }
    }
}

impl EchoSession {
    pub fn new() -> (r: EchoSession)
        ensures
            r@ == (SessionView {
                receiving: false,
                continued_op: OperationCode::Text,
                assembled: Seq::empty(),
                ended: false,
            }),
    {
        EchoSession {
            receiving_continue_frame: false,
            op_code_of_continue: OperationCode::Text,
            whole_payload: Vec::new(),
            end: false,
        }
    }

    pub fn is_ended(&self) -> (r: bool)
        ensures
            r == self@.ended,
    {
        self.end
    }

    /// Whether a frame with this FIN bit and opcode breaks a message in
    /// fragments, and how.
    pub fn violation(&self, fin: u8, op_code: OperationCode) -> (r: Option<FragmentViolation>)
        ensures
            r is None <==> !breaks_fragments(self@, fin, op_code),
            r matches Some(x) ==> x == (if op_code is NonContorlPreserve
                || op_code is PreserveControl {
                FragmentViolation::Reserved
            } else {
                FragmentViolation::Unexpected
            }),
    {
        if fin == 1 && self.receiving_continue_frame {
            match op_code {
                OperationCode::Continue => None,
                OperationCode::NonContorlPreserve(_) | OperationCode::PreserveControl(_) => Some(
                    FragmentViolation::Reserved,
                ),
                _ => Some(FragmentViolation::Unexpected),
            }
        } else {
            None
        }
    }

    /// Decides, from a frame's header, whether its payload is read.
    pub fn on_header(&mut self, fin: u8, op_code: OperationCode) -> (r: FrameStep)
        requires
            !breaks_fragments(old(self)@, fin, op_code),
        ensures
            closes_unread(old(self)@, fin, op_code) ==> r == FrameStep::CloseNow
                && final(self)@ == (SessionView { ended: true, ..old(self)@ }),
            !closes_unread(old(self)@, fin, op_code) ==> r == FrameStep::ReadPayload
                && final(self)@ == old(self)@,
    {
        if fin == 1 && !self.receiving_continue_frame {
            match op_code {
                OperationCode::Text | OperationCode::Close | OperationCode::Ping => {
                    FrameStep::ReadPayload
                },
                _ => {
                    self.end = true;
                    FrameStep::CloseNow
                },
            }
        } else {
            FrameStep::ReadPayload
        }
    }

    /// Takes the payload of a frame and says what to send back.
    pub fn on_payload(&mut self, fin: u8, op_code: OperationCode, payload: Vec<u8>) -> (r: Reply)
        requires
            !breaks_fragments(old(self)@, fin, op_code),
            !closes_unread(old(self)@, fin, op_code),
        ensures
            final(self)@ == after_frame(old(self)@, fin, op_code, payload@),
            reply_is(r, reply_to(old(self)@, fin, op_code, payload@)),
    {
        if fin == 1 {
            if !self.receiving_continue_frame {
                match op_code {
                    OperationCode::Text => {
                        let header = WebSocketHeader::new(true, op_code, payload.len() as u64);
                        Reply::Send(header, payload)
                    },
                    OperationCode::Close => {
                        self.end = true;
                        Reply::Close
                    },
                    _ => {
                        let pong: Vec<u8> = vec![
                            229u8, 141, 167, 230, 167, 189, 239, 188, 140, 112, 111, 110, 103, 232,
                            191, 152, 232, 131, 189, 229, 184, 166, 230, 149, 176, 230, 141, 174,
                            239, 188, 159,
                        ];
                        assert(pong@ =~= pong_payload());
                        let header = WebSocketHeader::new(
                            true,
                            OperationCode::Pong,
                            pong.len() as u64,
                        );
                        Reply::Send(header, pong)
                    },
                }
            } else {
                self.receiving_continue_frame = false;
                let mut fragment = payload;
                self.whole_payload.append(&mut fragment);
                let whole = self.whole_payload.clone();
                assert(whole@ =~= self.whole_payload@);
                let header = WebSocketHeader::new(
                    true,
                    self.op_code_of_continue,
                    whole.len() as u64,
                );
                Reply::Send(header, whole)
            }
        } else {
            if !self.receiving_continue_frame {
                self.receiving_continue_frame = true;
                self.whole_payload = Vec::new();
                self.op_code_of_continue = op_code;
            }
            let mut fragment = payload;
            self.whole_payload.append(&mut fragment);
            Reply::Nothing
        }
    }
}

/// Only a whole close frame, outside a message in fragments, ends the
/// session among frames whose payload is read; in particular the last
/// fragment of a message leaves the session going on.
pub proof fn law_only_close_ends(v: SessionView, fin: u8, op: OperationCode, payload: Seq<u8>)
    ensures
        after_frame(v, fin, op, payload).ended == (v.ended || (fin == 1 && !v.receiving
            && op is Close)),
        v.receiving && fin == 1 ==> after_frame(v, fin, op, payload).ended == v.ended,
{
}

/// A frame without its FIN bit never breaks a message in fragments and is
/// never closed on unread, whatever its opcode: it is a first or middle
/// fragment, and its payload is appended to what came before.
pub proof fn law_middle_fragments_accepted(v: SessionView, fin: u8, op: OperationCode, payload: Seq<u8>)
    requires
        fin != 1,
    ensures
        !breaks_fragments(v, fin, op),
        !closes_unread(v, fin, op),
        reply_to(v, fin, op, payload) == ReplyView::Nothing,
        after_frame(v, fin, op, payload).receiving,
        after_frame(v, fin, op, payload).ended == v.ended,
        v.receiving ==> after_frame(v, fin, op, payload).assembled == v.assembled + payload
            && after_frame(v, fin, op, payload).continued_op == v.continued_op,
        !v.receiving ==> after_frame(v, fin, op, payload).assembled == payload
            && after_frame(v, fin, op, payload).continued_op == op,
{
}

/// A whole frame outside a message in fragments never breaks one; inside
/// one, only its last fragment (`Continue`) is taken.
pub proof fn law_whole_frames(v: SessionView, op: OperationCode)
    ensures
        !v.receiving ==> !breaks_fragments(v, 1, op),
        v.receiving ==> (breaks_fragments(v, 1, op) <==> !(op is Continue)),
{
}

/// The state after a sequence of frames, each with its payload read.
pub open spec fn after_frames(v: SessionView, frames: Seq<FrameView>) -> SessionView
    decreases frames.len(),
{
    if frames.len() == 0 {
        v
    } else {
        let f = frames.last();
        after_frame(after_frames(v, frames.drop_last()), f.fin, f.op, f.payload)
    }
}

/// The payloads of a sequence of frames, one after the other.
pub open spec fn payloads(frames: Seq<FrameView>) -> Seq<u8>
    decreases frames.len(),
{
    if frames.len() == 0 {
        Seq::empty()
    } else {
        payloads(frames.drop_last()) + frames.last().payload
    }
}

/// A message in fragments: outside a message in fragments, frames without
/// their FIN bit are taken in, none of them breaking it, and collect the
/// payloads under the first one's opcode; the last fragment (FIN set,
/// `Continue`) is then answered with one frame of that opcode whose payload
/// is all of the fragments' payloads in order, and ends the message.
pub proof fn law_fragments_reassembled(v: SessionView, frames: Seq<FrameView>, last: FrameView)
    requires
        !v.receiving,
        frames.len() >= 1,
        forall|i: int| 0 <= i < frames.len() ==> (#[trigger] frames[i]).fin != 1,
        last.fin == 1,
        last.op is Continue,
    ensures
        ({
            let w = after_frames(v, frames);
            &&& forall|i: int|
                0 <= i < frames.len() ==> !breaks_fragments(
                    after_frames(v, frames.take(i)),
                    #[trigger] frames[i].fin,
                    frames[i].op,
                ) && !closes_unread(after_frames(v, frames.take(i)), frames[i].fin, frames[i].op)
            &&& w.ended == v.ended
            &&& !after_frame(w, last.fin, last.op, last.payload).ended || v.ended
            &&& w.receiving
            &&& w.continued_op == frames[0].op
            &&& w.assembled == payloads(frames)
            &&& !breaks_fragments(w, last.fin, last.op)
            &&& !closes_unread(w, last.fin, last.op)
            &&& reply_to(w, last.fin, last.op, last.payload) == (ReplyView::Send {
                op: frames[0].op,
                payload: payloads(frames) + last.payload,
            })
            &&& !after_frame(w, last.fin, last.op, last.payload).receiving
        }),
    decreases frames.len(),
{
    let p = frames.drop_last();
    let f = frames.last();
    if p.len() == 0 {
        assert(f == frames[0]);
        assert(payloads(p) =~= Seq::<u8>::empty());
        assert(payloads(frames) =~= f.payload);
    } else {
        assert forall|i: int| 0 <= i < p.len() implies (#[trigger] p[i]).fin != 1 by {
            assert(p[i] == frames[i]);
        }
        law_fragments_reassembled(v, p, last);
        assert(p[0] == frames[0]);
    }
    assert(frames[frames.len() - 1].fin != 1);
}

} // verus!
