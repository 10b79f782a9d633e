//! The transmission phase, one request at a time: what to do with a request, and
//! what to send once the store has done its part.
//!
//! `plan` decides and `finish_read`, `finish_write` and `finish_flush` conclude,
//! for a caller that owns the store. `respond` does all of it on a `MemStore`.

use crate::error::Fault;
use crate::export::Export;
use crate::store::{overwrite, MemStore, StoreError};
use crate::wire::{encode_reply, reply_bytes, Command, ReplyHeader, Request};
use vstd::prelude::*;

verus! {

/// Error code: the operation is not permitted.
pub const EPERM: u32 = 1;

/// Error code: the request is not valid.
pub const EINVAL: u32 = 22;

/// Error code: the operation is not implemented.
pub const ENOSYS: u32 = 38;

/// Why a request is answered with an error. The connection stays open.
#[derive(Debug, Clone, Copy, PartialEq, Eq, Structural)]
pub enum Refusal {
    /// The export cannot be written.
    ReadOnly,
    /// The range reaches past the end of the export.
    OutOfRange,
    /// The command is known and not served.
    Unsupported,
    /// The command is not known.
    InvalidCommand,
}

impl Refusal {
    /// The error code that the reply carries. Never zero.
    pub open spec fn code(self) -> u32 {
        match self {
            Refusal::ReadOnly => EPERM,
            Refusal::OutOfRange => EINVAL,
            Refusal::Unsupported => ENOSYS,
            Refusal::InvalidCommand => EINVAL,
        }
    }

    /// The error code that the reply carries.
    pub fn errno(self) -> (c: u32)
        ensures
            c == self.code(),
            c != 0,
    {
        match self {
            Refusal::ReadOnly => EPERM,
            Refusal::OutOfRange => EINVAL,
            Refusal::Unsupported => ENOSYS,
            Refusal::InvalidCommand => EINVAL,
        }
    }
}

/// What the engine will do with a request.
#[derive(Debug, Clone, Copy, PartialEq, Eq, Structural)]
pub enum Plan {
    /// Read `length` bytes at `offset` from the store and send them.
    Read { offset: u64, length: u32 },
    /// Take `length` bytes of payload and write them at `offset`.
    Write { offset: u64, length: u32 },
    /// Flush the store.
    Flush,
    /// Leave the store alone, drop `discard` bytes of payload and reply with
    /// the error.
    Refuse { error: Refusal, discard: u32 },
    /// Close the connection without a reply.
    Disconnect,
}

/// The plan for `req` on `export`.
///
/// A write to a read-only export is refused before its range is looked at. A
/// flush is served only where the export advertises it, and never on a
/// read-only export. A trim is never served.
pub open spec fn plan_for(export: Export, req: Request) -> Plan {
    match req.kind() {
        Command::Read => if export.holds(req.offset, req.length) {
            Plan::Read { offset: req.offset, length: req.length }
        } else {
            Plan::Refuse { error: Refusal::OutOfRange, discard: 0 }
        },
        Command::Write => if export.readonly {
            Plan::Refuse { error: Refusal::ReadOnly, discard: req.length }
        } else if !export.holds(req.offset, req.length) {
            Plan::Refuse { error: Refusal::OutOfRange, discard: req.length }
        } else {
            Plan::Write { offset: req.offset, length: req.length }
        },
        Command::Flush => if !export.send_flush {
            Plan::Refuse { error: Refusal::Unsupported, discard: 0 }
        } else if export.readonly {
            Plan::Refuse { error: Refusal::ReadOnly, discard: 0 }
        } else {
            Plan::Flush
        },
        Command::Trim => Plan::Refuse { error: Refusal::Unsupported, discard: 0 },
        Command::Disconnect => Plan::Disconnect,
        Command::Unknown => Plan::Refuse { error: Refusal::InvalidCommand, discard: 0 },
    }
}

/// Decides what to do with `req` on `export`. The store is not consulted.
pub fn plan(export: &Export, req: &Request) -> (p: Plan)
    ensures
        p == plan_for(*export, *req),
{
    match req.command() {
        Command::Read => {
            if export.contains(req.offset, req.length) {
                Plan::Read { offset: req.offset, length: req.length }
            } else {
                Plan::Refuse { error: Refusal::OutOfRange, discard: 0 }
            }
        },
        Command::Write => {
            if export.readonly {
                Plan::Refuse { error: Refusal::ReadOnly, discard: req.length }
            } else if !export.contains(req.offset, req.length) {
                Plan::Refuse { error: Refusal::OutOfRange, discard: req.length }
            } else {
                Plan::Write { offset: req.offset, length: req.length }
            }
        },
        Command::Flush => {
            if !export.send_flush {
                Plan::Refuse { error: Refusal::Unsupported, discard: 0 }
            } else if export.readonly {
                Plan::Refuse { error: Refusal::ReadOnly, discard: 0 }
            } else {
                Plan::Flush
            }
        },
        Command::Trim => Plan::Refuse { error: Refusal::Unsupported, discard: 0 },
        Command::Disconnect => Plan::Disconnect,
        Command::Unknown => Plan::Refuse { error: Refusal::InvalidCommand, discard: 0 },
    }
}

/// The store is only ever asked for what the export allows: a planned read or
/// write lies inside the export, and nothing that changes the store is planned
/// on a read-only export. Payload is expected after a write header only.
pub proof fn lemma_plan_respects_export(export: Export, req: Request)
    ensures
        plan_for(export, req) matches Plan::Read { offset, length } ==> offset + length
            <= export.size && req.kind() == Command::Read,
        plan_for(export, req) matches Plan::Write { offset, length } ==> offset + length
            <= export.size && !export.readonly && req.kind() == Command::Write,
        plan_for(export, req) is Flush ==> export.send_flush && !export.readonly,
        plan_for(export, req) matches Plan::Refuse { error, discard } ==> discard
            == req.payload_len(),
        plan_for(export, req) is Disconnect <==> req.kind() == Command::Disconnect,
{
}

/// A reply: the error code, zero for success; the handle of the request it
/// answers; and the data of a successful read.
#[derive(Debug, PartialEq, Eq)]
pub struct Reply {
    pub error: u32,
    pub handle: u64,
    pub payload: Vec<u8>,
}

/// A reply with its payload as a sequence.
pub struct ReplyView {
    pub error: u32,
    pub handle: u64,
    pub payload: Seq<u8>,
}

impl ReplyView {
    /// The reply on the wire: its header, then its payload.
    pub open spec fn frame(self) -> Seq<u8> {
        reply_bytes(ReplyHeader { error: self.error, handle: self.handle }) + self.payload
    }

    /// The reply that says `req` was done, with the data it asked for.
    pub open spec fn done(req: Request, payload: Seq<u8>) -> ReplyView {
        ReplyView { error: 0, handle: req.handle, payload }
    }

    /// The reply that refuses `req`.
    pub open spec fn refused(req: Request, error: Refusal) -> ReplyView {
        ReplyView { error: error.code(), handle: req.handle, payload: Seq::empty() }
    }
}

impl View for Reply {
    type V = ReplyView;

    open spec fn view(&self) -> ReplyView {
        ReplyView { error: self.error, handle: self.handle, payload: self.payload@ }
    }
}

impl Reply {
    /// The bytes to send for this reply.
    pub fn encode(&self) -> (out: Vec<u8>)
        ensures
            out@ == self@.frame(),
    {
        let mut out = encode_reply(&ReplyHeader { error: self.error, handle: self.handle });
        out.extend_from_slice(self.payload.as_slice());
        assert(out@ =~= self@.frame());
        out
    }
}

/// A result with the bytes it may hold as a sequence.
pub open spec fn seen<E>(r: Result<Vec<u8>, E>) -> Result<Seq<u8>, E> {
    match r {
        Ok(v) => Ok(v@),
        Err(e) => Err(e),
    }
}

/// A result with the reply it may hold as its view.
pub open spec fn shown(r: Result<Reply, Fault>) -> Result<ReplyView, Fault> {
    match r {
        Ok(reply) => Ok(reply@),
        Err(f) => Err(f),
    }
}

/// What follows a read of the store: the data goes out if it is all there; a
/// short read or a failure ends the connection.
pub open spec fn after_read(req: Request, outcome: Result<Seq<u8>, StoreError>) -> Result<
    ReplyView,
    Fault,
> {
    match outcome {
        Ok(data) => if data.len() == req.length {
            Ok(ReplyView::done(req, data))
        } else {
            Err(Fault::ShortRead)
        },
        Err(_) => Err(Fault::Store),
    }
}

/// What follows a write to the store: success is reported if every byte was
/// taken; a partial write or a failure ends the connection.
pub open spec fn after_write(req: Request, outcome: Result<usize, StoreError>) -> Result<
    ReplyView,
    Fault,
> {
    match outcome {
        Ok(written) => if written == req.length {
            Ok(ReplyView::done(req, Seq::empty()))
        } else {
            Err(Fault::ShortWrite)
        },
        Err(_) => Err(Fault::Store),
    }
}

/// What follows a flush of the store: success is reported, or a failure ends
/// the connection.
pub open spec fn after_flush(req: Request, outcome: Result<(), StoreError>) -> Result<
    ReplyView,
    Fault,
> {
    match outcome {
        Ok(_) => Ok(ReplyView::done(req, Seq::empty())),
        Err(_) => Err(Fault::Store),
    }
}

/// Concludes a planned read with what the store gave.
pub fn finish_read(req: &Request, outcome: Result<Vec<u8>, StoreError>) -> (r: Result<
    Reply,
    Fault,
>)
    ensures
        shown(r) == after_read(*req, seen(outcome)),
{
    match outcome {
        Ok(data) => {
            if data.len() == req.length as usize {
                Ok(Reply { error: 0, handle: req.handle, payload: data })
            } else {
                Err(Fault::ShortRead)
            }
        },
        Err(_) => Err(Fault::Store),
    }
}

/// Concludes a planned write with the number of bytes the store took.
pub fn finish_write(req: &Request, outcome: Result<usize, StoreError>) -> (r: Result<Reply, Fault>)
    ensures
        shown(r) == after_write(*req, outcome),
{
    match outcome {
        Ok(written) => {
            if written == req.length as usize {
                Ok(Reply { error: 0, handle: req.handle, payload: Vec::new() })
            } else {
                Err(Fault::ShortWrite)
            }
        },
        Err(_) => Err(Fault::Store),
    }
}

/// Concludes a planned flush.
pub fn finish_flush(req: &Request, outcome: Result<(), StoreError>) -> (r: Result<Reply, Fault>)
    ensures
        shown(r) == after_flush(*req, outcome),
{
    match outcome {
        Ok(_) => Ok(Reply { error: 0, handle: req.handle, payload: Vec::new() }),
        Err(_) => Err(Fault::Store),
    }
}

/// The reply that refuses `req`.
pub fn refuse(req: &Request, error: Refusal) -> (r: Reply)
    ensures
        r@ == ReplyView::refused(*req, error),
{
    Reply { error: error.errno(), handle: req.handle, payload: Vec::new() }
}

/// How the engine's turn on one request ends.
pub enum Turn {
    /// One reply goes out and the connection stays open.
    Answered(ReplyView),
    /// The client asked to disconnect. Nothing goes out.
    Disconnected,
    /// The connection is dropped. Nothing goes out.
    Failed(Fault),
}

/// The store after one request, and how the turn ended.
pub struct Step {
    pub store: Seq<u8>,
    pub turn: Turn,
}

/// How a store operation's conclusion ends the turn.
pub open spec fn turn_of(r: Result<ReplyView, Fault>) -> Turn {
    match r {
        Ok(reply) => Turn::Answered(reply),
        Err(f) => Turn::Failed(f),
    }
}

/// One request served from a store in memory.
///
/// `payload` is what followed the header on the wire. A write whose payload is
/// not as long as its header says is a truncated frame.
pub open spec fn step(export: Export, store: Seq<u8>, req: Request, payload: Seq<u8>) -> Step {
    match plan_for(export, req) {
        Plan::Read { offset, length } => Step {
            store,
            turn: if offset + length <= store.len() {
                Turn::Answered(ReplyView::done(req, store.subrange(offset as int, offset + length)))
            } else {
                Turn::Failed(Fault::Store)
            },
        },
        Plan::Write { offset, length } => if payload.len() != length {
            Step { store, turn: Turn::Failed(Fault::Truncated) }
        } else if offset + length <= store.len() {
            Step {
                store: overwrite(store, offset as int, payload),
                turn: Turn::Answered(ReplyView::done(req, Seq::empty())),
            }
        } else {
            Step { store, turn: Turn::Failed(Fault::Store) }
        },
        Plan::Flush => Step { store, turn: Turn::Answered(ReplyView::done(req, Seq::empty())) },
        Plan::Refuse { error, discard } => Step {
            store,
            turn: Turn::Answered(ReplyView::refused(req, error)),
        },
        Plan::Disconnect => Step { store, turn: Turn::Disconnected },
    }
}

/// What `respond` hands back.
#[derive(Debug, PartialEq, Eq)]
pub enum Outcome {
    /// Send this reply and go on.
    Reply(Reply),
    /// Close the connection: the client asked for it.
    Disconnect,
    /// Close the connection: it cannot go on.
    Fail(Fault),
}

impl View for Outcome {
    type V = Turn;

    open spec fn view(&self) -> Turn {
        match self {
            Outcome::Reply(reply) => Turn::Answered(reply@),
            Outcome::Disconnect => Turn::Disconnected,
            Outcome::Fail(f) => Turn::Failed(*f),
        }
    }
}

/// What a store operation's conclusion means for the connection.
fn conclude(r: Result<Reply, Fault>) -> (out: Outcome)
    ensures
        out@ == turn_of(shown(r)),
{
    match r {
        Ok(reply) => Outcome::Reply(reply),
        Err(f) => Outcome::Fail(f),
    }
}

/// Serves one request from a store in memory: plans it, performs it and
/// concludes it.
pub fn respond(export: &Export, store: &mut MemStore, req: &Request, payload: &[u8]) -> (out:
    Outcome)
    ensures
        out@ == step(*export, old(store)@, *req, payload@).turn,
        final(store)@ == step(*export, old(store)@, *req, payload@).store,
{
    match plan(export, req) {
        Plan::Read { offset, length } => conclude(finish_read(req, store.read_at(offset, length))),
        Plan::Write { offset, length } => {
            if payload.len() != length as usize {
                Outcome::Fail(Fault::Truncated)
            } else {
                conclude(finish_write(req, store.write_at(offset, payload)))
            }
        },
        Plan::Flush => conclude(finish_flush(req, store.flush())),
        Plan::Refuse { error, discard } => Outcome::Reply(refuse(req, error)),
        Plan::Disconnect => Outcome::Disconnect,
    }
}

/// A read inside the export, from a store that holds the whole export, is
/// answered with success and with the bytes that the store holds at that range
/// when the request is served. The store is left as it was.
pub proof fn lemma_read_returns_stored_bytes(
    export: Export,
    store: Seq<u8>,
    req: Request,
    payload: Seq<u8>,
)
    requires
        req.kind() == Command::Read,
        req.offset + req.length <= export.size,
        export.size <= store.len(),
    ensures
        step(export, store, req, payload).turn == Turn::Answered(
            ReplyView {
                error: 0,
                handle: req.handle,
                payload: store.subrange(req.offset as int, req.offset + req.length),
            },
        ),
        step(export, store, req, payload).store == store,
{
}

/// A read or a write that reaches past the end of the export is answered with
/// an error and no payload, and the store is left as it was.
pub proof fn lemma_out_of_range_is_refused(
    export: Export,
    store: Seq<u8>,
    req: Request,
    payload: Seq<u8>,
)
    requires
        req.kind() == Command::Read || req.kind() == Command::Write,
        req.offset + req.length > export.size,
    ensures
        step(export, store, req, payload).turn matches Turn::Answered(reply) && reply.error != 0
            && reply.handle == req.handle && reply.payload.len() == 0,
        !(req.kind() == Command::Write && export.readonly) ==> step(
            export,
            store,
            req,
            payload,
        ).turn == Turn::Answered(ReplyView::refused(req, Refusal::OutOfRange)),
        step(export, store, req, payload).store == store,
{
}

/// A write to a read-only export is answered with an error, whatever its
/// range, and the store is left as it was.
pub proof fn lemma_readonly_write_is_refused(
    export: Export,
    store: Seq<u8>,
    req: Request,
    payload: Seq<u8>,
)
    requires
        req.kind() == Command::Write,
        export.readonly,
    ensures
        step(export, store, req, payload).turn == Turn::Answered(
            ReplyView::refused(req, Refusal::ReadOnly),
        ),
        Refusal::ReadOnly.code() != 0,
        step(export, store, req, payload).store == store,
{
}

/// On a read-only export nothing a client sends changes the store.
pub proof fn lemma_readonly_store_is_kept(
    export: Export,
    store: Seq<u8>,
    req: Request,
    payload: Seq<u8>,
)
    requires
        export.readonly,
    ensures
        step(export, store, req, payload).store == store,
{
}

/// Whatever the request, a reply carries the request's handle; only a
/// disconnect request ends the turn without a reply or a fault; and only a
/// write changes the store.
pub proof fn lemma_step_echoes_handle(
    export: Export,
    store: Seq<u8>,
    req: Request,
    payload: Seq<u8>,
)
    ensures
        step(export, store, req, payload).turn matches Turn::Answered(reply) ==> reply.handle
            == req.handle,
        step(export, store, req, payload).turn is Disconnected <==> req.kind()
            == Command::Disconnect,
        req.kind() != Command::Write ==> step(export, store, req, payload).store == store,
        step(export, store, req, payload).store.len() == store.len(),
{
    if let Plan::Write { offset, length } = plan_for(export, req) {
        if payload.len() == length && offset + length <= store.len() {
            crate::store::lemma_overwrite(store, offset as int, payload);
        }
    }
}

/// On a store that holds the whole export, every request but a disconnect gets
/// a reply: nothing a client sends in a whole frame can end the connection.
pub proof fn lemma_step_answers(export: Export, store: Seq<u8>, req: Request, payload: Seq<u8>)
    requires
        export.size <= store.len(),
        payload.len() == req.payload_len(),
        req.kind() != Command::Disconnect,
    ensures
        step(export, store, req, payload).turn is Answered,
        export.size <= step(export, store, req, payload).store.len(),
{
    lemma_step_echoes_handle(export, store, req, payload);
}

/// A write inside a writable export succeeds, and a read of the same range
/// right after it returns what was written.
pub proof fn lemma_read_after_write(
    export: Export,
    store: Seq<u8>,
    write: Request,
    payload: Seq<u8>,
    read: Request,
)
    requires
        !export.readonly,
        export.size <= store.len(),
        write.kind() == Command::Write,
        read.kind() == Command::Read,
        write.offset + write.length <= export.size,
        payload.len() == write.length,
        read.offset == write.offset,
        read.length == write.length,
    ensures
        step(export, store, write, payload).turn == Turn::Answered(
            ReplyView::done(write, Seq::empty()),
        ),
        step(export, step(export, store, write, payload).store, read, Seq::empty()).turn
            == Turn::Answered(ReplyView::done(read, payload)),
{
    crate::store::lemma_overwrite(store, write.offset as int, payload);
}

} // verus!
