//! Whole connections over bytes held in memory: everything a client sent goes
//! in, everything the server answers comes out, and the store is served in
//! between.

use crate::error::{End, Fault};
use crate::export::{Export, Registry, RegistryView};
use crate::handshake::{lemma_haggle_ends, negotiate, negotiation, Negotiation};
use crate::bytes::{lemma_u32_field, u32_bytes};
use crate::store::MemStore;
use crate::transmission::{
    lemma_step_answers, lemma_step_echoes_handle, respond, step, Outcome, ReplyView, Turn,
};
use crate::wire::{
    decode_request, greeting_bytes, lemma_option_roundtrip, lemma_request_roundtrip,
    option_bytes, option_reply_bytes, parse_request, request_bytes, Command, Request,
    CLIENT_FLAGS_LEN, MAX_OPTION_LEN, OPT_ABORT, REP_ACK, REQUEST_LEN,
};
use vstd::prelude::*;
use vstd::slice::slice_subrange;

verus! {

/// A request as it lies in a stream: its header and the payload after it.
pub struct Frame {
    pub request: Request,
    pub payload: Seq<u8>,
}

impl Frame {
    /// Bytes that the frame takes in the stream.
    pub open spec fn len(self) -> nat {
        REQUEST_LEN as nat + self.payload.len()
    }

    /// The frame as a client sends it.
    pub open spec fn bytes(self) -> Seq<u8> {
        request_bytes(self.request) + self.payload
    }

    /// Whether the payload is as long as the header says.
    pub open spec fn well_formed(self) -> bool {
        self.payload.len() == self.request.payload_len()
    }
}

/// The frame at the front of `input`: a header, and after a write header as
/// many bytes of payload as it announces.
pub open spec fn parse_frame(input: Seq<u8>) -> Result<Frame, Fault> {
    match parse_request(input) {
        Err(f) => Err(f),
        Ok(request) => if input.len() < REQUEST_LEN + request.payload_len() {
            Err(Fault::Truncated)
        } else {
            Ok(
                Frame {
                    request,
                    payload: input.subrange(
                        REQUEST_LEN as int,
                        REQUEST_LEN + request.payload_len(),
                    ),
                },
            )
        },
    }
}

/// The requests that lie in `input`, in order, up to the first thing that is
/// not a whole request.
pub open spec fn requests(input: Seq<u8>) -> Seq<Request>
    decreases input.len(),
{
    match parse_frame(input) {
        Err(_) => Seq::empty(),
        Ok(frame) => seq![frame.request] + requests(input.skip(frame.len() as int)),
    }
}

/// Frames as a client sends them, one after the other.
pub open spec fn stream(frames: Seq<Frame>) -> Seq<u8>
    decreases frames.len(),
{
    if frames.len() == 0 {
        Seq::empty()
    } else {
        frames[0].bytes() + stream(frames.drop_first())
    }
}

/// A transmission phase from start to end: the store it leaves, the replies it
/// sent, and how it ended.
pub struct Run {
    pub store: Seq<u8>,
    pub replies: Seq<ReplyView>,
    pub end: End,
}

impl Run {
    /// This run after one in which `replies` were sent.
    pub open spec fn after(self, replies: Seq<ReplyView>) -> Run {
        Run { store: self.store, replies: replies + self.replies, end: self.end }
    }
}

/// The transmission phase over a client's bytes: request after request, each
/// answered before the next is looked at, until a disconnect request, the end of
/// the bytes, or a fault.
pub open spec fn run(export: Export, store: Seq<u8>, input: Seq<u8>) -> Run
    decreases input.len(),
{
    if input.len() == 0 {
        Run { store, replies: Seq::empty(), end: End::Closed }
    } else {
        match parse_frame(input) {
            Err(f) => Run { store, replies: Seq::empty(), end: End::Failed(f) },
            Ok(frame) => {
                let s = step(export, store, frame.request, frame.payload);
                match s.turn {
                    Turn::Answered(reply) => run(
                        export,
                        s.store,
                        input.skip(frame.len() as int),
                    ).after(seq![reply]),
                    Turn::Disconnected => Run {
                        store: s.store,
                        replies: Seq::empty(),
                        end: End::Disconnected,
                    },
                    Turn::Failed(f) => Run {
                        store: s.store,
                        replies: Seq::empty(),
                        end: End::Failed(f),
                    },
                }
            },
        }
    }
}

/// Replies on the wire, one after the other.
pub open spec fn wire(replies: Seq<ReplyView>) -> Seq<u8>
    decreases replies.len(),
{
    if replies.len() == 0 {
        Seq::empty()
    } else {
        wire(replies.drop_last()) + replies.last().frame()
    }
}

/// A whole connection: what the server sent, the store it leaves, the replies
/// among what it sent, and how it ended.
pub struct Session {
    pub sent: Seq<u8>,
    pub store: Seq<u8>,
    pub replies: Seq<ReplyView>,
    pub end: End,
}

/// A connection over a client's bytes: the negotiation and, if it agreed on an
/// export, the transmission phase on the bytes that follow.
pub open spec fn session(registry: RegistryView, store: Seq<u8>, input: Seq<u8>) -> Session {
    let talk = negotiation(registry, input);
    match talk.state {
        Negotiation::Transmission { export } => {
            let r = run(export, store, input.skip(talk.used as int));
            Session {
                sent: talk.sent + wire(r.replies),
                store: r.store,
                replies: r.replies,
                end: r.end,
            }
        },
        Negotiation::Closed(end) => Session { sent: talk.sent, store, replies: Seq::empty(), end },
        _ => Session {
            sent: talk.sent,
            store,
            replies: Seq::empty(),
            end: End::Failed(Fault::Truncated),
        },
    }
}

/// What the server said on a connection, and how the connection ended.
#[derive(Debug, PartialEq, Eq)]
pub struct Transcript {
    pub output: Vec<u8>,
    pub end: End,
}

/// The run from byte `pos` of the client's bytes on, by what the frame there is.
proof fn lemma_run_at(export: Export, store: Seq<u8>, input: Seq<u8>, pos: int)
    requires
        0 <= pos < input.len(),
    ensures
        match parse_request(input.skip(pos)) {
            Err(f) => run(export, store, input.skip(pos)) == (Run {
                store,
                replies: Seq::empty(),
                end: End::Failed(f),
            }),
            Ok(request) => {
                let len = REQUEST_LEN + request.payload_len();
                if input.len() < pos + len {
                    run(export, store, input.skip(pos)) == (Run {
                        store,
                        replies: Seq::empty(),
                        end: End::Failed(Fault::Truncated),
                    })
                } else {
                    let s = step(
                        export,
                        store,
                        request,
                        input.subrange(pos + REQUEST_LEN, pos + len),
                    );
                    match s.turn {
                        Turn::Answered(reply) => run(export, store, input.skip(pos)) == run(
                            export,
                            s.store,
                            input.skip(pos + len),
                        ).after(seq![reply]),
                        Turn::Disconnected => run(export, store, input.skip(pos)) == (Run {
                            store: s.store,
                            replies: Seq::empty(),
                            end: End::Disconnected,
                        }),
                        Turn::Failed(f) => run(export, store, input.skip(pos)) == (Run {
                            store: s.store,
                            replies: Seq::empty(),
                            end: End::Failed(f),
                        }),
                    }
                }
            },
        },
{
    let rest = input.skip(pos);
    if let Ok(request) = parse_request(rest) {
        let len = REQUEST_LEN + request.payload_len();
        if rest.len() >= len {
            assert(rest.subrange(REQUEST_LEN as int, len) =~= input.subrange(
                pos + REQUEST_LEN,
                pos + len,
            ));
            assert(rest.skip(len) =~= input.skip(pos + len));
        }
    }
}

/// Serves the transmission phase of a connection whose client sent `input`.
pub fn transmit(export: &Export, store: &mut MemStore, input: &[u8]) -> (t: Transcript)
    ensures
        t.output@ == wire(run(*export, old(store)@, input@).replies),
        t.end == run(*export, old(store)@, input@).end,
        final(store)@ == run(*export, old(store)@, input@).store,
{
    let mut output: Vec<u8> = Vec::new();
    let total = input.len();
    let mut pos: usize = 0;
    let ghost done: Seq<ReplyView> = Seq::empty();
    assert(input@.skip(0) =~= input@);
    assert(done + run(*export, store@, input@).replies =~= run(*export, store@, input@).replies);
    while pos < total
        invariant
            pos <= total == input@.len(),
            output@ == wire(done),
            run(*export, old(store)@, input@) == run(*export, store@, input@.skip(pos as int)).after(
                done,
            ),
        decreases total - pos,
    {
        proof {
            lemma_run_at(*export, store@, input@, pos as int);
        }
        let ghost here = run(*export, store@, input@.skip(pos as int));
        let request = match decode_request(slice_subrange(input, pos, total)) {
            Ok(request) => request,
            Err(f) => {
                assert(done + here.replies =~= done);
                return Transcript { output, end: End::Failed(f) };
            },
        };
        let len = request.payload_length() as usize;
        if total - pos - REQUEST_LEN < len {
            assert(done + here.replies =~= done);
            return Transcript { output, end: End::Failed(Fault::Truncated) };
        }
        let next = pos + REQUEST_LEN + len;
        let outcome = respond(export, store, &request, slice_subrange(input, pos + REQUEST_LEN, next));
        match outcome {
            Outcome::Reply(reply) => {
                let mut bytes = reply.encode();
                output.append(&mut bytes);
                proof {
                    let grown = done.push(reply@);
                    assert(grown.drop_last() =~= done);
                    let ahead = run(*export, store@, input@.skip(next as int));
                    assert(done + (seq![reply@] + ahead.replies) =~= grown + ahead.replies);
                    done = grown;
                }
                pos = next;
            },
            Outcome::Disconnect => {
                assert(done + here.replies =~= done);
                return Transcript { output, end: End::Disconnected };
            },
            Outcome::Fail(f) => {
                assert(done + here.replies =~= done);
                return Transcript { output, end: End::Failed(f) };
            },
        }
    }
    assert(input@.skip(pos as int).len() == 0);
    assert(done + Seq::<ReplyView>::empty() =~= done);
    Transcript { output, end: End::Closed }
}

/// Serves a whole connection whose client sent `input`: negotiates, and serves
/// the export that was agreed on from `store`.
pub fn serve(registry: &Registry, store: &mut MemStore, input: &[u8]) -> (t: Transcript)
    ensures
        t.output@ == session(registry@, old(store)@, input@).sent,
        t.end == session(registry@, old(store)@, input@).end,
        final(store)@ == session(registry@, old(store)@, input@).store,
{
    let h = negotiate(registry, input);
    let mut output = h.output;
    match h.state {
        Negotiation::Transmission { export } => {
            let rest = slice_subrange(input, h.consumed, input.len());
            let t = transmit(&export, store, rest);
            let mut replies = t.output;
            output.append(&mut replies);
            Transcript { output, end: t.end }
        },
        Negotiation::Closed(end) => Transcript { output, end },
        _ => Transcript { output, end: End::Failed(Fault::Truncated) },
    }
}

/// A frame read back from its own bytes is the frame, whatever follows it.
pub proof fn lemma_frame_roundtrip(frame: Frame, rest: Seq<u8>)
    requires
        frame.well_formed(),
    ensures
        parse_frame(frame.bytes() + rest) == Ok::<Frame, Fault>(frame),
        (frame.bytes() + rest).skip(frame.len() as int) == rest,
{
    let head = request_bytes(frame.request);
    crate::wire::lemma_frame_lengths(
        frame.request,
        crate::wire::ReplyHeader { error: 0, handle: 0 },
        0,
        0,
    );
    lemma_request_roundtrip(frame.request, frame.payload + rest);
    assert(frame.bytes() + rest =~= head + (frame.payload + rest));
    assert((frame.bytes() + rest).subrange(REQUEST_LEN as int, REQUEST_LEN + frame.payload.len())
        =~= frame.payload);
    assert((frame.bytes() + rest).skip(frame.len() as int) =~= rest);
}

/// Replies come in the order of the requests, each with the handle of its
/// request: the replies of a run answer the first requests of the stream, one
/// for one, and all of them if the run lasted until the stream ended.
pub proof fn lemma_replies_follow_requests(export: Export, store: Seq<u8>, input: Seq<u8>)
    ensures
        run(export, store, input).replies.len() <= requests(input).len(),
        forall|i: int|
            0 <= i < run(export, store, input).replies.len() ==> run(
                export,
                store,
                input,
            ).replies[i].handle == requests(input)[i].handle,
        run(export, store, input).end == End::Closed ==> run(export, store, input).replies.len()
            == requests(input).len(),
    decreases input.len(),
{
    if input.len() > 0 {
        if let Ok(frame) = parse_frame(input) {
            let s = step(export, store, frame.request, frame.payload);
            lemma_step_echoes_handle(export, store, frame.request, frame.payload);
            if let Turn::Answered(reply) = s.turn {
                let rest = input.skip(frame.len() as int);
                lemma_replies_follow_requests(export, s.store, rest);
                let r = run(export, store, input);
                let q = requests(input);
                assert forall|i: int| 0 <= i < r.replies.len() implies r.replies[i].handle
                    == q[i].handle by {
                    if i > 0 {
                        assert(r.replies[i] == run(export, s.store, rest).replies[i - 1]);
                        assert(q[i] == requests(rest)[i - 1]);
                    }
                }
            }
        }
    }
}

/// A run leaves a store of the length it found, and on a read-only export the
/// very store it found.
pub proof fn lemma_run_keeps_store(export: Export, store: Seq<u8>, input: Seq<u8>)
    ensures
        run(export, store, input).store.len() == store.len(),
        export.readonly ==> run(export, store, input).store == store,
    decreases input.len(),
{
    if input.len() > 0 {
        if let Ok(frame) = parse_frame(input) {
            let s = step(export, store, frame.request, frame.payload);
            lemma_step_echoes_handle(export, store, frame.request, frame.payload);
            if export.readonly {
                crate::transmission::lemma_readonly_store_is_kept(
                    export,
                    store,
                    frame.request,
                    frame.payload,
                );
            }
            if s.turn is Answered {
                lemma_run_keeps_store(export, s.store, input.skip(frame.len() as int));
            }
        }
    }
}

/// A connection whose negotiation agrees on no export never reaches the
/// transmission phase: the store is left as it was, no reply is sent, and the
/// server sends nothing beyond the negotiation.
pub proof fn lemma_no_export_no_transmission(
    registry: RegistryView,
    store: Seq<u8>,
    input: Seq<u8>,
)
    requires
        negotiation(registry, input).state !is Transmission,
    ensures
        session(registry, store, input).store == store,
        session(registry, store, input).replies.len() == 0,
        session(registry, store, input).sent == negotiation(registry, input).sent,
        session(registry, store, input).end != End::Disconnected,
        session(registry, store, input).end != End::Closed,
{
    if let Ok(flags) = crate::wire::parse_client_flags(input) {
        if let Negotiation::Haggling { no_zeroes } = crate::handshake::after_flags(flags) {
            lemma_haggle_ends(registry, no_zeroes, input.skip(CLIENT_FLAGS_LEN as int));
        }
    }
}

/// A client that disconnects as soon as the transmission phase begins, or sends
/// nothing at all, has no reply sent to it and leaves the store as it was.
pub proof fn lemma_disconnect_at_once(export: Export, store: Seq<u8>, input: Seq<u8>)
    requires
        input.len() == 0 || (parse_frame(input) matches Ok(frame) && frame.request.kind()
            == Command::Disconnect),
    ensures
        run(export, store, input).store == store,
        run(export, store, input).replies.len() == 0,
        run(export, store, input).end == if input.len() == 0 {
            End::Closed
        } else {
            End::Disconnected
        },
{
}

/// Any number of requests, none of them a disconnect, sent to a store that holds
/// the whole export, get as many replies, in the order of the requests, each
/// with the handle of its request; and the connection is still open when the
/// stream ends.
pub proof fn lemma_every_request_is_answered(export: Export, store: Seq<u8>, frames: Seq<Frame>)
    requires
        export.size <= store.len(),
        forall|i: int|
            0 <= i < frames.len() ==> (#[trigger] frames[i]).well_formed()
                && frames[i].request.kind() != Command::Disconnect,
    ensures
        run(export, store, stream(frames)).replies.len() == frames.len(),
        run(export, store, stream(frames)).end == End::Closed,
        forall|i: int|
            0 <= i < frames.len() ==> (#[trigger] run(
                export,
                store,
                stream(frames),
            ).replies[i]).handle == frames[i].request.handle,
        requests(stream(frames)) == frames.map_values(|f: Frame| f.request),
    decreases frames.len(),
{
    let r = run(export, store, stream(frames));
    if frames.len() == 0 {
        assert(requests(stream(frames)) =~= frames.map_values(|f: Frame| f.request));
    } else {
        let first = frames[0];
        let rest = frames.drop_first();
        assert(first.well_formed() && first.request.kind() != Command::Disconnect);
        assert forall|i: int| 0 <= i < rest.len() implies (#[trigger] rest[i]).well_formed()
            && rest[i].request.kind() != Command::Disconnect by {
            assert(rest[i] == frames[i + 1]);
        }
        lemma_frame_roundtrip(first, stream(rest));
        crate::wire::lemma_frame_lengths(
            first.request,
            crate::wire::ReplyHeader { error: 0, handle: 0 },
            0,
            0,
        );
        lemma_step_answers(export, store, first.request, first.payload);
        lemma_step_echoes_handle(export, store, first.request, first.payload);
        let s = step(export, store, first.request, first.payload);
        lemma_every_request_is_answered(export, s.store, rest);
        let tail = run(export, s.store, stream(rest));
        assert(r == tail.after(seq![s.turn->Answered_0]));
        assert forall|i: int| 0 <= i < frames.len() implies (#[trigger] r.replies[i]).handle
            == frames[i].request.handle by {
            if i > 0 {
                assert(r.replies[i] == tail.replies[i - 1]);
                assert(frames[i] == rest[i - 1]);
            }
        }
        assert(requests(stream(frames)) =~= frames.map_values(|f: Frame| f.request)) by {
            assert(requests(stream(frames)) == seq![first.request] + requests(stream(rest)));
            assert forall|i: int| 0 <= i < frames.len() implies requests(stream(frames))[i]
                == frames[i].request by {
                if i > 0 {
                    assert(requests(stream(rest))[i - 1] == rest[i - 1].request);
                    assert(frames[i] == rest[i - 1]);
                }
            }
        }
    }
}

/// A client that gives up as its first option is acknowledged and nothing more:
/// the connection ends there, whatever the client sends after, and the store is
/// left as it was.
pub proof fn lemma_abort_closes_connection(
    registry: RegistryView,
    store: Seq<u8>,
    flags: u32,
    data: Seq<u8>,
    rest: Seq<u8>,
)
    requires
        flags == 1 || flags == 3,
        data.len() <= MAX_OPTION_LEN,
    ensures
        session(registry, store, u32_bytes(flags) + option_bytes(OPT_ABORT, data) + rest) == (
        Session {
            sent: greeting_bytes() + option_reply_bytes(OPT_ABORT, REP_ACK),
            store,
            replies: Seq::empty(),
            end: End::Aborted,
        }),
{
    let input = u32_bytes(flags) + option_bytes(OPT_ABORT, data) + rest;
    let e = Seq::<u8>::empty();
    lemma_u32_field(e, flags, option_bytes(OPT_ABORT, data) + rest);
    assert(input =~= e + u32_bytes(flags) + (option_bytes(OPT_ABORT, data) + rest));
    assert(input.skip(CLIENT_FLAGS_LEN as int) =~= option_bytes(OPT_ABORT, data) + rest);
    lemma_option_roundtrip(OPT_ABORT, data, rest);
}

/// Nothing is sent in answer to bytes that do not begin with a whole request,
/// and nothing after them is looked at: the run ends there with the fault, and
/// the store is left as it was.
pub proof fn lemma_fault_ends_run(export: Export, store: Seq<u8>, input: Seq<u8>)
    requires
        input.len() > 0,
        parse_frame(input) is Err,
    ensures
        run(export, store, input) == (Run {
            store,
            replies: Seq::empty(),
            end: End::Failed(parse_frame(input)->Err_0),
        }),
{
}

} // verus!
