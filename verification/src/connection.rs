//! The connection engine: the decision core of the full-duplex loop.
//!
//! The engine holds the per-connection protocol state — the closing
//! state machine and the reassembly buffer — and, for each incoming
//! frame, decides what to deliver to the application, what to send back
//! to the peer, and whether the connection terminates.  It performs no
//! I/O: the task that owns the byte stream decodes a frame, hands it to
//! `on_frame`, writes whatever reply comes back (ahead of any pending
//! data), and stops when the engine says it is done.  The whole
//! transition is specified by `spec_step` and proved, so the
//! reassembly and close rules hold for every frame sequence.

use vstd::prelude::*;
use vstd::utf8::valid_utf8;

use crate::error::{InvalidFrame, WebSocketError};
use crate::frame::{FrameView, Opcode, RawFrame, StatusCode};
use crate::frame::Role;
use crate::message::{Binary, Message, MessageView, Text};
use crate::{MAX_FRAME_PAYLOAD_SIZE, MAX_MESSAGE_SIZE};

verus! {

/// Where the connection stands in its life cycle.  `Open` after the
/// handshake; `LocalClosing` once this side has sent its Close and
/// awaits the peer's; `Closed` once the exchange of Close frames is
/// complete or a fatal error ended the connection.
#[derive(Debug, Clone, Copy, PartialEq, Eq, Structural)]
pub enum EngineState {
    Open,
    LocalClosing,
    Closed,
}

/// The mathematical value of the reassembly buffer: the kind of the
/// message under reassembly and the bytes accumulated so far.
#[verifier::ext_equal]
pub struct ReassemblyView {
    pub is_text: bool,
    pub data: Seq<u8>,
}

/// The mathematical value of the engine.
#[verifier::ext_equal]
pub struct EngineView {
    pub role: Role,
    pub state: EngineState,
    pub reassembly: Option<ReassemblyView>,
}

/// The connection engine's state.
#[derive(Debug)]
pub struct Engine {
    role: Role,
    state: EngineState,
    has_buf: bool,
    buf_is_text: bool,
    buf: Vec<u8>,
}

impl View for Engine {
    type V = EngineView;

    closed spec fn view(&self) -> EngineView {
        EngineView {
            role: self.role,
            state: self.state,
            reassembly: if self.has_buf {
                Some(ReassemblyView { is_text: self.buf_is_text, data: self.buf@ })
            } else {
                None
            },
        }
    }
}

/// The mathematical value of one engine step's outputs.
#[verifier::ext_equal]
pub struct StepView {
    pub deliver: Option<MessageView>,
    pub reply: Option<FrameView>,
    pub done: bool,
    pub fault: Option<WebSocketError>,
}

/// What one engine step produced: at most one message for the
/// application, at most one frame owed to the peer ahead of any pending
/// data, whether the engine terminated, and the fault that ended it.
#[derive(Debug)]
pub struct StepResult {
    pub deliver: Option<Message>,
    pub reply: Option<RawFrame>,
    pub done: bool,
    pub fault: Option<WebSocketError>,
}

impl View for StepResult {
    type V = StepView;

    open spec fn view(&self) -> StepView {
        StepView {
            deliver: match self.deliver {
                Some(m) => Some(m@),
                None => None,
            },
            reply: match self.reply {
                Some(f) => Some(f@),
                None => None,
            },
            done: self.done,
            fault: self.fault,
        }
    }
}

/// A step and the engine state it leads to.
#[verifier::ext_equal]
pub struct StepOutcome {
    pub next: EngineView,
    pub out: StepView,
}

/// The two-byte payload of a Close frame carrying a status code.
pub open spec fn close_payload(code: u16) -> Seq<u8> {
    seq![(code / 0x100 % 0x100) as u8, (code % 0x100) as u8]
}

/// The Close frame the engine sends for a given status code.
pub open spec fn close_frame_view(status: StatusCode) -> FrameView {
    FrameView { fin: true, opcode: Opcode::Close, payload: close_payload(status.value()) }
}

/// A step that changes nothing and reports nothing.
pub open spec fn silent_step(m: EngineView) -> StepOutcome {
    StepOutcome { next: m, out: StepView { deliver: None, reply: None, done: false, fault: None } }
}

/// A fatal protocol step: the engine sends a Close with the given
/// status — unless its own Close is already on the wire — reports the
/// fault, and terminates.
pub open spec fn fatal_step(m: EngineView, status: StatusCode, fault: WebSocketError) -> StepOutcome {
    StepOutcome {
        next: EngineView { state: EngineState::Closed, reassembly: None, ..m },
        out: StepView {
            deliver: None,
            reply: if m.state == EngineState::Open {
                Some(close_frame_view(status))
            } else {
                None
            },
            done: true,
            fault: Some(fault),
        },
    }
}

/// A step that delivers a completed message and clears the buffer.
pub open spec fn deliver_step(m: EngineView, msg: MessageView) -> StepOutcome {
    StepOutcome {
        next: EngineView { reassembly: None, ..m },
        out: StepView { deliver: Some(msg), reply: None, done: false, fault: None },
    }
}

/// The engine's transition function: what receiving one well-formed
/// frame does to the state, the application, and the peer.
///
/// Control frames act at once, whatever the reassembly buffer holds: a
/// Ping is answered by a Pong carrying the same payload, a Pong is
/// ignored, and a Close completes the closing handshake — echoed with
/// its payload preserved when this side has not yet sent its own Close,
/// unechoed when it has.  After this side's Close is on the wire
/// (`LocalClosing`) data frames are no longer accepted and are
/// discarded.  While open, a first data frame either delivers at once
/// (fin set; Text only after the whole payload validates as UTF-8) or
/// opens the reassembly buffer; a Continuation extends the buffer and,
/// on its final frame, delivers the whole; a data frame inside a
/// fragmented message, a stray Continuation, an oversized message and
/// invalid UTF-8 are fatal, each with its own Close status.
pub open spec fn spec_step(m: EngineView, f: FrameView) -> StepOutcome
    recommends
        m.state != EngineState::Closed,
        f.wf(),
{
    if f.opcode == Opcode::Ping {
        StepOutcome {
            next: m,
            out: StepView {
                deliver: None,
                reply: Some(FrameView { fin: true, opcode: Opcode::Pong, payload: f.payload }),
                done: false,
                fault: None,
            },
        }
    } else if f.opcode == Opcode::Pong {
        silent_step(m)
    } else if f.opcode == Opcode::Close {
        StepOutcome {
            next: EngineView { state: EngineState::Closed, reassembly: None, ..m },
            out: StepView {
                deliver: None,
                reply: if m.state == EngineState::Open {
                    Some(FrameView { fin: true, opcode: Opcode::Close, payload: f.payload })
                } else {
                    None
                },
                done: true,
                fault: None,
            },
        }
    } else if m.state == EngineState::LocalClosing {
        silent_step(m)
    } else if f.opcode == Opcode::Continuation {
        match m.reassembly {
            None => fatal_step(
                m,
                StatusCode::ProtocolError,
                WebSocketError::InvalidFrame(InvalidFrame::Inconsistent),
            ),
            Some(r) => {
                if r.data.len() + f.payload.len() > MAX_MESSAGE_SIZE {
                    fatal_step(m, StatusCode::MessageTooBig, WebSocketError::InvalidMessageSize)
                } else {
                    let d = r.data + f.payload;
                    if !f.fin {
                        StepOutcome {
                            next: EngineView {
                                reassembly: Some(ReassemblyView { is_text: r.is_text, data: d }),
                                ..m
                            },
                            out: StepView { deliver: None, reply: None, done: false, fault: None },
                        }
                    } else if r.is_text {
                        if valid_utf8(d) {
                            deliver_step(m, MessageView::Text(d))
                        } else {
                            fatal_step(
                                m,
                                StatusCode::InconsistentData,
                                WebSocketError::InvalidFrame(InvalidFrame::Text),
                            )
                        }
                    } else {
                        deliver_step(m, MessageView::Binary(d))
                    }
                }
            },
        }
    } else {
        // A Text or Binary frame.
        if m.reassembly is Some {
            fatal_step(
                m,
                StatusCode::ProtocolError,
                WebSocketError::InvalidFrame(InvalidFrame::Inconsistent),
            )
        } else if f.fin {
            if f.opcode == Opcode::Text {
                if valid_utf8(f.payload) {
                    deliver_step(m, MessageView::Text(f.payload))
                } else {
                    fatal_step(
                        m,
                        StatusCode::InconsistentData,
                        WebSocketError::InvalidFrame(InvalidFrame::Text),
                    )
                }
            } else {
                deliver_step(m, MessageView::Binary(f.payload))
            }
        } else {
            StepOutcome {
                next: EngineView {
                    reassembly: Some(
                        ReassemblyView { is_text: f.opcode == Opcode::Text, data: f.payload },
                    ),
                    ..m
                },
                out: StepView { deliver: None, reply: None, done: false, fault: None },
            }
        }
    }
}

impl Engine {
    /// The invariant the engine maintains: whatever sits in the
    /// reassembly buffer respects the message size limit.
    pub open spec fn wf(self) -> bool {
        self@.reassembly matches Some(r) ==> r.data.len() <= MAX_MESSAGE_SIZE
    }

    /// A fresh engine for a connection of the given role, in the `Open`
    /// state with no reassembly in progress.
    pub fn new(role: Role) -> (e: Engine)
        ensures
            e@ == (EngineView { role, state: EngineState::Open, reassembly: None }),
            e.wf(),
    {
        Engine { role, state: EngineState::Open, has_buf: false, buf_is_text: false, buf: Vec::new() }
    }

    /// The connection's role.
    pub fn role(&self) -> (r: Role)
        ensures
            r == self@.role,
    {
        self.role
    }

    /// The current life-cycle state.
    pub fn state(&self) -> (s: EngineState)
        ensures
            s == self@.state,
    {
        self.state
    }

    /// Feeds one decoded frame to the engine.  The new state and the
    /// outputs are exactly what `spec_step` says.
    pub fn on_frame(&mut self, frame: RawFrame) -> (r: StepResult)
        requires
            old(self)@.state != EngineState::Closed,
            old(self).wf(),
            frame@.wf(),
        ensures
            final(self)@ == spec_step(old(self)@, frame@).next,
            r@ == spec_step(old(self)@, frame@).out,
            final(self).wf(),
    {
        let ghost pre = self@;
        let RawFrame { fin, opcode, payload } = frame;
        match opcode {
            Opcode::Ping => {
                let pong = RawFrame { fin: true, opcode: Opcode::Pong, payload };
                StepResult { deliver: None, reply: Some(pong), done: false, fault: None }
            },
            Opcode::Pong => StepResult { deliver: None, reply: None, done: false, fault: None },
            Opcode::Close => {
                let was_open = self.state == EngineState::Open;
                self.state = EngineState::Closed;
                self.has_buf = false;
                self.buf = Vec::new();
                let reply = if was_open {
                    Some(RawFrame { fin: true, opcode: Opcode::Close, payload })
                } else {
                    None
                };
                proof {
                    assert(self@ =~= spec_step(pre, frame@).next);
                }
                StepResult { deliver: None, reply, done: true, fault: None }
            },
            Opcode::Continuation => {
                if self.state == EngineState::LocalClosing {
                    return StepResult { deliver: None, reply: None, done: false, fault: None };
                }
                if !self.has_buf {
                    return self.fail(StatusCode::ProtocolError, WebSocketError::InvalidFrame(
                        InvalidFrame::Inconsistent,
                    ));
                }
                if MAX_MESSAGE_SIZE - self.buf.len() < payload.len() {
                    return self.fail(StatusCode::MessageTooBig, WebSocketError::InvalidMessageSize);
                }
                let mut tail = payload;
                self.buf.append(&mut tail);
                if !fin {
                    proof {
                        assert(self@ =~= spec_step(pre, frame@).next);
                    }
                    return StepResult { deliver: None, reply: None, done: false, fault: None };
                }
                self.has_buf = false;
                let mut data: Vec<u8> = Vec::new();
                core::mem::swap(&mut data, &mut self.buf);
                if self.buf_is_text {
                    match Text::try_from_bytes(data) {
                        Ok(t) => {
                            proof {
                                assert(self@ =~= spec_step(pre, frame@).next);
                            }
                            StepResult {
                                deliver: Some(Message::Text(t)),
                                reply: None,
                                done: false,
                                fault: None,
                            }
                        },
                        Err(_) => self.fail(StatusCode::InconsistentData, WebSocketError::InvalidFrame(
                            InvalidFrame::Text,
                        )),
                    }
                } else {
                    proof {
                        assert(self@ =~= spec_step(pre, frame@).next);
                    }
                    StepResult {
                        deliver: Some(Message::Binary(Binary::from_bytes(data))),
                        reply: None,
                        done: false,
                        fault: None,
                    }
                }
            },
            _ => {
                // Text or Binary.
                if self.state == EngineState::LocalClosing {
                    return StepResult { deliver: None, reply: None, done: false, fault: None };
                }
                if self.has_buf {
                    return self.fail(StatusCode::ProtocolError, WebSocketError::InvalidFrame(
                        InvalidFrame::Inconsistent,
                    ));
                }
                let is_text = match opcode {
                    Opcode::Text => true,
                    _ => false,
                };
                if fin {
                    if is_text {
                        match Text::try_from_bytes(payload) {
                            Ok(t) => StepResult {
                                deliver: Some(Message::Text(t)),
                                reply: None,
                                done: false,
                                fault: None,
                            },
                            Err(_) => self.fail(
                                StatusCode::InconsistentData,
                                WebSocketError::InvalidFrame(InvalidFrame::Text),
                            ),
                        }
                    } else {
                        StepResult {
                            deliver: Some(Message::Binary(Binary::from_bytes(payload))),
                            reply: None,
                            done: false,
                            fault: None,
                        }
                    }
                } else {
                    self.has_buf = true;
                    self.buf_is_text = is_text;
                    self.buf = payload;
                    proof {
                        assert(self@ =~= spec_step(pre, frame@).next);
                    }
                    StepResult { deliver: None, reply: None, done: false, fault: None }
                }
            },
        }
    }

    /// Ends the connection on a fatal condition: a Close with the given
    /// status is owed to the peer unless this side's Close is already
    /// out, and the fault is reported.
    fn fail(&mut self, status: StatusCode, fault: WebSocketError) -> (r: StepResult)
        requires
            old(self)@.state != EngineState::Closed,
        ensures
            final(self)@ == (EngineView {
                state: EngineState::Closed,
                reassembly: None,
                ..old(self)@
            }),
            r@ == (StepView {
                deliver: None,
                reply: if old(self)@.state == EngineState::Open {
                    Some(close_frame_view(status))
                } else {
                    None
                },
                done: true,
                fault: Some(fault),
            }),
            final(self).wf(),
    {
        let was_open = self.state == EngineState::Open;
        self.state = EngineState::Closed;
        self.has_buf = false;
        self.buf = Vec::new();
        let reply = if was_open {
            Some(close_frame(status))
        } else {
            None
        };
        StepResult { deliver: None, reply, done: true, fault: Some(fault) }
    }

    /// A fatal condition found before a frame could be decoded: the
    /// engine closes with the status mapped from the framing error.
    pub fn on_decode_error(&mut self, e: InvalidFrame) -> (r: StepResult)
        requires
            old(self)@.state != EngineState::Closed,
        ensures
            final(self)@ == (EngineView {
                state: EngineState::Closed,
                reassembly: None,
                ..old(self)@
            }),
            r@ == (StepView {
                deliver: None,
                reply: if old(self)@.state == EngineState::Open {
                    Some(close_frame_view(close_status_for(e)))
                } else {
                    None
                },
                done: true,
                fault: Some(WebSocketError::InvalidFrame(e)),
            }),
            final(self).wf(),
    {
        let status = status_for_error(e);
        self.fail(status, WebSocketError::InvalidFrame(e))
    }

    /// Begins an orderly local close: the engine enters `LocalClosing`
    /// and owes the peer a `1000 NormalClosure` Close frame.  The caller
    /// then waits, up to its grace period, for the peer's Close.
    pub fn start_close(&mut self) -> (r: RawFrame)
        requires
            old(self)@.state == EngineState::Open,
            old(self).wf(),
        ensures
            final(self)@ == (EngineView { state: EngineState::LocalClosing, ..old(self)@ }),
            r@ == close_frame_view(StatusCode::NormalClosure),
            final(self).wf(),
    {
        self.state = EngineState::LocalClosing;
        close_frame(StatusCode::NormalClosure)
    }
}

/// The Close status the engine answers each framing error with:
/// an unknown opcode is an unknown type of data; invalid UTF-8 is
/// inconsistent data; an oversized or mask-violating payload is too
/// big; everything else is a plain protocol error.
pub open spec fn close_status_for(e: InvalidFrame) -> StatusCode {
    match e {
        InvalidFrame::Opcode(_) => StatusCode::UnknownType,
        InvalidFrame::Text => StatusCode::InconsistentData,
        InvalidFrame::PayloadSize => StatusCode::MessageTooBig,
        InvalidFrame::Code(_) => StatusCode::ProtocolError,
        InvalidFrame::Inconsistent => StatusCode::ProtocolError,
    }
}

/// The executable twin of `close_status_for`.
fn status_for_error(e: InvalidFrame) -> (s: StatusCode)
    ensures
        s == close_status_for(e),
{
    match e {
        InvalidFrame::Opcode(_) => StatusCode::UnknownType,
        InvalidFrame::Text => StatusCode::InconsistentData,
        InvalidFrame::PayloadSize => StatusCode::MessageTooBig,
        InvalidFrame::Code(_) => StatusCode::ProtocolError,
        InvalidFrame::Inconsistent => StatusCode::ProtocolError,
    }
}

/// The opcode of a data frame: the message's own kind on the first
/// frame, Continuation afterwards.
pub open spec fn data_opcode(first: bool, is_text: bool) -> Opcode {
    if !first {
        Opcode::Continuation
    } else if is_text {
        Opcode::Text
    } else {
        Opcode::Binary
    }
}

/// How an outgoing message of the given kind is split into frames:
/// chunks of at most `chunk` bytes, the first carrying the data opcode,
/// the rest Continuations, the last one final.  An empty message is one
/// empty final frame.
pub open spec fn spec_fragment(is_text: bool, p: Seq<u8>, chunk: int, first: bool) -> Seq<FrameView>
    decreases p.len(),
{
    if p.len() <= chunk || chunk < 1 {
        seq![FrameView { fin: true, opcode: data_opcode(first, is_text), payload: p }]
    } else {
        seq![
            FrameView { fin: false, opcode: data_opcode(first, is_text), payload: p.take(chunk) },
        ] + spec_fragment(is_text, p.skip(chunk), chunk, false)
    }
}

/// The payload bytes of a frame sequence, in order.
pub open spec fn payloads_concat(fs: Seq<FrameView>) -> Seq<u8>
    decreases fs.len(),
{
    if fs.len() == 0 {
        Seq::<u8>::empty()
    } else {
        fs[0].payload + payloads_concat(fs.drop_first())
    }
}

/// Fragmenting never loses or reorders a byte: the payloads of the
/// fragments, concatenated, are the original message.
pub proof fn lemma_fragment_payloads(is_text: bool, p: Seq<u8>, chunk: int, first: bool)
    ensures
        payloads_concat(spec_fragment(is_text, p, chunk, first)) == p,
    decreases p.len(),
{
    let fs = spec_fragment(is_text, p, chunk, first);
    if p.len() <= chunk || chunk < 1 {
        assert(fs.drop_first() =~= Seq::<FrameView>::empty());
        assert(payloads_concat(Seq::<FrameView>::empty()) == Seq::<u8>::empty());
        assert(payloads_concat(fs) =~= p);
    } else {
        lemma_fragment_payloads(is_text, p.skip(chunk), chunk, false);
        assert(fs.drop_first() =~= spec_fragment(is_text, p.skip(chunk), chunk, false));
        assert(p.take(chunk) + p.skip(chunk) =~= p);
    }
}

/// The engine run over a frame sequence: the state it ends in and the
/// outputs of each step, in order.
pub open spec fn run_engine(m: EngineView, fs: Seq<FrameView>) -> (EngineView, Seq<StepView>)
    decreases fs.len(),
{
    if fs.len() == 0 {
        (m, Seq::<StepView>::empty())
    } else {
        let so = spec_step(m, fs[0]);
        let rest = run_engine(so.next, fs.drop_first());
        (rest.0, seq![so.out] + rest.1)
    }
}

/// A step that neither delivers, replies, faults nor terminates.
pub open spec fn silent_out() -> StepView {
    StepView { deliver: None, reply: None, done: false, fault: None }
}

/// Reassembling the continuations of a message already begun: every
/// step but the last is silent, the last delivers the buffered bytes
/// followed by the remaining payload, and the engine is back to `Open`
/// with no buffer.
proof fn lemma_run_continuations(m: EngineView, is_text: bool, acc: Seq<u8>, rem: Seq<u8>, chunk: int)
    requires
        m.state == EngineState::Open,
        m.reassembly == Some(ReassemblyView { is_text, data: acc }),
        acc.len() + rem.len() <= MAX_MESSAGE_SIZE,
        is_text ==> valid_utf8(acc + rem),
    ensures
        ({
            let fs = spec_fragment(is_text, rem, chunk, false);
            let r = run_engine(m, fs);
            &&& r.0 == (EngineView { reassembly: None, ..m })
            &&& r.1.len() == fs.len()
            &&& forall|i: int| 0 <= i < r.1.len() - 1 ==> r.1[i] == silent_out()
            &&& r.1[r.1.len() - 1] == (StepView {
                deliver: Some(
                    if is_text {
                        MessageView::Text(acc + rem)
                    } else {
                        MessageView::Binary(acc + rem)
                    },
                ),
                reply: None,
                done: false,
                fault: None,
            })
        }),
    decreases rem.len(),
{
    let fs = spec_fragment(is_text, rem, chunk, false);
    if rem.len() <= chunk || chunk < 1 {
        let f = fs[0];
        let so = spec_step(m, f);
        assert(fs.drop_first() =~= Seq::<FrameView>::empty());
        assert(run_engine(so.next, Seq::<FrameView>::empty()) == (
            so.next,
            Seq::<StepView>::empty(),
        ));
        assert(so.next =~= (EngineView { reassembly: None, ..m }));
        assert(run_engine(m, fs).0 == so.next);
        assert(run_engine(m, fs).1 =~= seq![so.out]);
    } else {
        let f = fs[0];
        let so = spec_step(m, f);
        let acc2 = acc + rem.take(chunk);
        let m2 = EngineView {
            reassembly: Some(ReassemblyView { is_text, data: acc2 }),
            ..m
        };
        assert(so.next =~= m2);
        assert(so.out =~= silent_out());
        assert(acc2 + rem.skip(chunk) =~= acc + rem);
        lemma_run_continuations(m2, is_text, acc2, rem.skip(chunk), chunk);
        assert(fs.drop_first() =~= spec_fragment(is_text, rem.skip(chunk), chunk, false));
        assert((EngineView { reassembly: None, ..m2 }) =~= (EngineView {
            reassembly: None,
            ..m
        }));
        let rest = run_engine(m2, fs.drop_first());
        assert(run_engine(m, fs).0 == rest.0);
        assert(run_engine(m, fs).1 =~= seq![so.out] + rest.1);
        assert forall|i: int| 0 <= i < run_engine(m, fs).1.len() - 1 implies run_engine(
            m,
            fs,
        ).1[i] == silent_out() by {
            if i > 0 {
                assert(run_engine(m, fs).1[i] == rest.1[i - 1]);
            }
        }
    }
}

/// Fragmenting a message and feeding the fragments back through the
/// engine returns exactly the original message: every step but the last
/// is silent, the last delivers the whole payload as one message, and
/// the engine is left as it started.
pub proof fn lemma_fragment_reassemble(m: EngineView, is_text: bool, p: Seq<u8>, chunk: int)
    requires
        m.state == EngineState::Open,
        m.reassembly is None,
        p.len() <= MAX_MESSAGE_SIZE,
        is_text ==> valid_utf8(p),
    ensures
        ({
            let fs = spec_fragment(is_text, p, chunk, true);
            let r = run_engine(m, fs);
            &&& r.0 == m
            &&& r.1.len() == fs.len()
            &&& forall|i: int| 0 <= i < r.1.len() - 1 ==> r.1[i] == silent_out()
            &&& r.1[r.1.len() - 1] == (StepView {
                deliver: Some(
                    if is_text {
                        MessageView::Text(p)
                    } else {
                        MessageView::Binary(p)
                    },
                ),
                reply: None,
                done: false,
                fault: None,
            })
        }),
{
    let fs = spec_fragment(is_text, p, chunk, true);
    if p.len() <= chunk || chunk < 1 {
        let so = spec_step(m, fs[0]);
        assert(fs.drop_first() =~= Seq::<FrameView>::empty());
        assert(run_engine(so.next, Seq::<FrameView>::empty()) == (
            so.next,
            Seq::<StepView>::empty(),
        ));
        assert(so.next =~= m);
        assert(run_engine(m, fs).0 == so.next);
        assert(run_engine(m, fs).1 =~= seq![so.out]);
    } else {
        let so = spec_step(m, fs[0]);
        let acc = p.take(chunk);
        let m2 = EngineView { reassembly: Some(ReassemblyView { is_text, data: acc }), ..m };
        assert(so.next =~= m2);
        assert(so.out =~= silent_out());
        assert(acc + p.skip(chunk) =~= p);
        lemma_run_continuations(m2, is_text, acc, p.skip(chunk), chunk);
        assert(fs.drop_first() =~= spec_fragment(is_text, p.skip(chunk), chunk, false));
        assert((EngineView { reassembly: None, ..m2 }) =~= m);
        let rest = run_engine(m2, fs.drop_first());
        assert(run_engine(m, fs).0 == rest.0);
        assert(run_engine(m, fs).1 =~= seq![so.out] + rest.1);
        assert forall|i: int| 0 <= i < run_engine(m, fs).1.len() - 1 implies run_engine(
            m,
            fs,
        ).1[i] == silent_out() by {
            if i > 0 {
                assert(run_engine(m, fs).1[i] == rest.1[i - 1]);
            }
        }
    }
}

/// The payload bytes of a message value.
pub open spec fn view_payload(mv: MessageView) -> Seq<u8> {
    match mv {
        MessageView::Text(p) => p,
        MessageView::Binary(p) => p,
    }
}

/// The single unfragmented frame carrying a message.
pub open spec fn message_frame(mv: MessageView) -> FrameView {
    FrameView {
        fin: true,
        opcode: if mv matches MessageView::Text(_) {
            Opcode::Text
        } else {
            Opcode::Binary
        },
        payload: view_payload(mv),
    }
}

/// Decoding an encoded message returns the message: the single frame
/// carrying it survives the wire byte-exactly (whatever bytes follow it
/// on the stream), and the receiving engine delivers exactly the
/// original message, with nothing else to report.
pub proof fn lemma_message_round_trip(
    masked: bool,
    key: u32,
    m: EngineView,
    mv: MessageView,
    extra: Seq<u8>,
)
    requires
        m.state == EngineState::Open,
        m.reassembly is None,
        view_payload(mv).len() <= MAX_FRAME_PAYLOAD_SIZE,
        mv matches MessageView::Text(p) ==> valid_utf8(p),
    ensures
        ({
            let f = message_frame(mv);
            let enc = crate::frame::frame_bytes(masked, key, f);
            &&& crate::frame::parse_spec(masked, enc + extra) == crate::frame::ParseOut::Done(
                f,
                enc.len() as int,
            )
            &&& spec_step(m, f) == (StepOutcome {
                next: m,
                out: StepView { deliver: Some(mv), reply: None, done: false, fault: None },
            })
        }),
{
    let f = message_frame(mv);
    crate::frame::lemma_frame_round_trip(masked, key, f, extra);
    assert(spec_step(m, f) =~= (StepOutcome {
        next: m,
        out: StepView { deliver: Some(mv), reply: None, done: false, fault: None },
    }));
}

/// Splits an outgoing message into frames of at most `chunk` payload
/// bytes, exactly as `spec_fragment` lays them out.
pub fn fragment_message(msg: Message, chunk: usize) -> (frames: Vec<RawFrame>)
    requires
        1 <= chunk <= MAX_FRAME_PAYLOAD_SIZE,
        msg.payload().len() <= MAX_MESSAGE_SIZE,
    ensures
        frames@.map_values(|f: RawFrame| f@) == spec_fragment(
            msg@ matches MessageView::Text(_),
            msg.payload(),
            chunk as int,
            true,
        ),
        forall|i: int| 0 <= i < frames@.len() ==> (#[trigger] frames@[i])@.wf(),
{
    let ghost is_text_g = msg@ matches MessageView::Text(_);
    let ghost p = msg.payload();
    let (is_text, data): (bool, Vec<u8>) = match msg {
        Message::Text(t) => (true, t.into_bytes()),
        Message::Binary(b) => (false, b.into_bytes()),
    };
    let n = data.len();
    let mut frames: Vec<RawFrame> = Vec::new();
    let mut i: usize = 0;
    proof {
        assert(p.skip(0) =~= p);
        assert(frames@.map_values(|f: RawFrame| f@) =~= Seq::<FrameView>::empty());
        assert(Seq::<FrameView>::empty() + spec_fragment(is_text_g, p, chunk as int, true)
            =~= spec_fragment(is_text_g, p, chunk as int, true));
    }
    while n - i > chunk
        invariant
            i <= n,
            n == data@.len() <= MAX_MESSAGE_SIZE,
            1 <= chunk <= MAX_FRAME_PAYLOAD_SIZE,
            is_text == is_text_g,
            data@ == p,
            i > 0 <==> frames@.len() > 0,
            spec_fragment(is_text_g, p, chunk as int, true) == frames@.map_values(
                |f: RawFrame| f@,
            ) + spec_fragment(is_text_g, p.skip(i as int), chunk as int, i == 0),
            forall|j: int| 0 <= j < frames@.len() ==> (#[trigger] frames@[j])@.wf(),
        decreases n - i,
    {
        let first = i == 0;
        let op = if !first {
            Opcode::Continuation
        } else if is_text {
            Opcode::Text
        } else {
            Opcode::Binary
        };
        let payload = crate::frame::copy_range(&data, i, i + chunk);
        let fr = RawFrame { fin: false, opcode: op, payload };
        proof {
            let rest = p.skip(i as int);
            assert(rest.take(chunk as int) =~= p.subrange(i as int, i as int + chunk as int));
            assert(rest.skip(chunk as int) =~= p.skip(i as int + chunk as int));
            assert(fr@ =~= (FrameView {
                fin: false,
                opcode: data_opcode(first, is_text_g),
                payload: rest.take(chunk as int),
            }));
            assert(frames@.push(fr).map_values(|f: RawFrame| f@) =~= frames@.map_values(
                |f: RawFrame| f@,
            ).push(fr@));
        }
        frames.push(fr);
        i = i + chunk;
    }
    let first = i == 0;
    let op = if !first {
        Opcode::Continuation
    } else if is_text {
        Opcode::Text
    } else {
        Opcode::Binary
    };
    let payload = crate::frame::copy_range(&data, i, n);
    let fr = RawFrame { fin: true, opcode: op, payload };
    proof {
        let rest = p.skip(i as int);
        assert(rest =~= p.subrange(i as int, n as int));
        assert(fr@ =~= (FrameView {
            fin: true,
            opcode: data_opcode(first, is_text_g),
            payload: rest,
        }));
        assert(frames@.push(fr).map_values(|f: RawFrame| f@) =~= frames@.map_values(
            |f: RawFrame| f@,
        ).push(fr@));
        assert(frames@.map_values(|f: RawFrame| f@).push(fr@) =~= frames@.map_values(
            |f: RawFrame| f@,
        ) + seq![fr@]);
    }
    frames.push(fr);
    frames
}

/// Builds the Close frame for a status code: fin set, two-byte
/// big-endian status payload.
pub fn close_frame(status: StatusCode) -> (r: RawFrame)
    ensures
        r@ == close_frame_view(status),
        r@.wf(),
{
    let code = status.to_u16();
    let mut payload: Vec<u8> = Vec::new();
    payload.push((code / 0x100 % 0x100) as u8);
    payload.push((code % 0x100) as u8);
    proof {
        assert(payload@ =~= close_payload(status.value()));
        assert(RawFrame { fin: true, opcode: Opcode::Close, payload }@ =~= close_frame_view(
            status,
        ));
    }
    RawFrame { fin: true, opcode: Opcode::Close, payload }
}

} // verus!
