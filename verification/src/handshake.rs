//! Fixed-newstyle negotiation: the greeting, the client's flags, and the options
//! a client sends until it names an export or gives up.

use crate::error::{End, Fault};
use crate::export::{Export, Registry, RegistryView};
use crate::wire::{
    decode_client_flags, decode_option_header, encode_export_info, encode_greeting,
    encode_option_reply, export_info_bytes, greeting_bytes, option_reply_bytes,
    parse_client_flags, parse_option_header, CLIENT_FIXED_NEWSTYLE, CLIENT_FLAGS_LEN,
    CLIENT_NO_ZEROES, OPTION_HEADER_LEN, OPT_ABORT, OPT_EXPORT_NAME, REP_ACK, REP_ERR_UNSUP,
};
use vstd::prelude::*;
use vstd::slice::slice_subrange;
use vstd::utf8::valid_utf8;

verus! {

/// The three things a connection can be doing.
#[derive(Debug, Clone, Copy, PartialEq, Eq, Structural)]
pub enum Phase {
    Handshake,
    Transmission,
    Closed,
}

/// Where a negotiation stands.
#[derive(Debug, Clone, Copy, PartialEq, Eq, Structural)]
pub enum Negotiation {
    /// The greeting goes out and the client's flags are awaited.
    Greeting,
    /// Options are awaited. `no_zeroes` says that the padding after the export
    /// information was negotiated away.
    Haggling { no_zeroes: bool },
    /// The client named an export, and what the name resolves to is awaited.
    Resolving { no_zeroes: bool },
    /// The client named an export and was told its size and flags.
    Transmission { export: Export },
    /// The negotiation is over and no export was agreed.
    Closed(End),
}

impl Negotiation {
    pub open spec fn phase_of(self) -> Phase {
        match self {
            Negotiation::Greeting => Phase::Handshake,
            Negotiation::Haggling { .. } => Phase::Handshake,
            Negotiation::Resolving { .. } => Phase::Handshake,
            Negotiation::Transmission { .. } => Phase::Transmission,
            Negotiation::Closed(_) => Phase::Closed,
        }
    }

    /// The phase of a connection whose negotiation stands here.
    pub fn phase(&self) -> (p: Phase)
        ensures
            p == self.phase_of(),
    {
        match self {
            Negotiation::Greeting => Phase::Handshake,
            Negotiation::Haggling { .. } => Phase::Handshake,
            Negotiation::Resolving { .. } => Phase::Handshake,
            Negotiation::Transmission { .. } => Phase::Transmission,
            Negotiation::Closed(_) => Phase::Closed,
        }
    }
}

/// The options, by what is done with them.
#[derive(Debug, Clone, Copy, PartialEq, Eq, Structural)]
pub enum OptionKind {
    /// The client names the export it wants. Ends the negotiation.
    ExportName,
    /// The client gives up.
    Abort,
    /// Every other option: answered as unsupported.
    Unsupported,
}

pub open spec fn option_kind(code: u32) -> OptionKind {
    if code == OPT_EXPORT_NAME {
        OptionKind::ExportName
    } else if code == OPT_ABORT {
        OptionKind::Abort
    } else {
        OptionKind::Unsupported
    }
}

/// Sorts an option code.
pub fn classify(code: u32) -> (kind: OptionKind)
    ensures
        kind == option_kind(code),
{
    if code == OPT_EXPORT_NAME {
        OptionKind::ExportName
    } else if code == OPT_ABORT {
        OptionKind::Abort
    } else {
        OptionKind::Unsupported
    }
}

/// Opens a negotiation: the greeting is to be sent.
pub fn open() -> (m: Move)
    ensures
        m@ == (MoveView { send: greeting_bytes(), next: Negotiation::Greeting }),
{
    Move { send: encode_greeting(), next: Negotiation::Greeting }
}

/// The negotiation after the client's flags. Only the two sets of flags that ask
/// for fixed-newstyle are served: with and without the padding.
pub open spec fn after_flags(flags: u32) -> Negotiation {
    if flags == CLIENT_FIXED_NEWSTYLE {
        Negotiation::Haggling { no_zeroes: false }
    } else if flags == CLIENT_FIXED_NEWSTYLE + CLIENT_NO_ZEROES {
        Negotiation::Haggling { no_zeroes: true }
    } else {
        Negotiation::Closed(End::Failed(Fault::ClientFlags))
    }
}

/// Takes the client's flags.
pub fn on_client_flags(flags: u32) -> (next: Negotiation)
    ensures
        next == after_flags(flags),
{
    if flags == CLIENT_FIXED_NEWSTYLE {
        Negotiation::Haggling { no_zeroes: false }
    } else if flags == CLIENT_FIXED_NEWSTYLE + CLIENT_NO_ZEROES {
        Negotiation::Haggling { no_zeroes: true }
    } else {
        Negotiation::Closed(End::Failed(Fault::ClientFlags))
    }
}

/// One move of the server: what it sends and where the negotiation then stands.
pub struct Move {
    pub send: Vec<u8>,
    pub next: Negotiation,
}

pub struct MoveView {
    pub send: Seq<u8>,
    pub next: Negotiation,
}

impl View for Move {
    type V = MoveView;

    open spec fn view(&self) -> MoveView {
        MoveView { send: self.send@, next: self.next }
    }
}

/// The server's move on one option, before any name is resolved.
///
/// An export name that is UTF-8 is to be resolved; one that is not ends the
/// negotiation. Giving up is acknowledged. Every other option is answered as
/// unsupported, and the negotiation goes on.
pub open spec fn option_step(no_zeroes: bool, code: u32, data: Seq<u8>) -> MoveView {
    match option_kind(code) {
        OptionKind::ExportName => MoveView {
            send: Seq::empty(),
            next: if valid_utf8(data) {
                Negotiation::Resolving { no_zeroes }
            } else {
                Negotiation::Closed(End::Failed(Fault::ExportName))
            },
        },
        OptionKind::Abort => MoveView {
            send: option_reply_bytes(code, REP_ACK),
            next: Negotiation::Closed(End::Aborted),
        },
        OptionKind::Unsupported => MoveView {
            send: option_reply_bytes(code, REP_ERR_UNSUP),
            next: Negotiation::Haggling { no_zeroes },
        },
    }
}

/// The server's move once the name is resolved: the export's size and flags
/// end the negotiation; a name that resolves to nothing ends it with nothing
/// sent.
pub open spec fn export_step(no_zeroes: bool, found: Option<Export>) -> MoveView {
    match found {
        Some(export) => MoveView {
            send: export_info_bytes(export.size, export.flags(), no_zeroes),
            next: Negotiation::Transmission { export },
        },
        None => MoveView {
            send: Seq::empty(),
            next: Negotiation::Closed(End::Failed(Fault::UnknownExport)),
        },
    }
}

/// The server's move on one option when names are resolved by `registry`.
pub open spec fn option_move(registry: RegistryView, no_zeroes: bool, code: u32, data: Seq<u8>)
    -> MoveView {
    let m = option_step(no_zeroes, code, data);
    if m.next is Resolving {
        export_step(no_zeroes, registry.resolve(data))
    } else {
        m
    }
}

/// `core::str::from_utf8`, asked only whether it succeeds: it does exactly on
/// the byte strings that are well-formed UTF-8.
#[verifier::external_body]
fn is_utf8(bytes: &[u8]) -> (valid: bool)
    ensures
        valid == valid_utf8(bytes@),
{
    core::str::from_utf8(bytes).is_ok()
}

/// Makes the server's move on one option of a client that is haggling. Where
/// the negotiation then stands at `Resolving`, the caller resolves the name,
/// which is `data`, and goes on with `on_export`.
pub fn on_option(no_zeroes: bool, code: u32, data: &[u8]) -> (m: Move)
    ensures
        m@ == option_step(no_zeroes, code, data@),
{
    match classify(code) {
        OptionKind::ExportName => Move {
            send: Vec::new(),
            next: if is_utf8(data) {
                Negotiation::Resolving { no_zeroes }
            } else {
                Negotiation::Closed(End::Failed(Fault::ExportName))
            },
        },
        OptionKind::Abort => Move {
            send: encode_option_reply(code, REP_ACK),
            next: Negotiation::Closed(End::Aborted),
        },
        OptionKind::Unsupported => Move {
            send: encode_option_reply(code, REP_ERR_UNSUP),
            next: Negotiation::Haggling { no_zeroes },
        },
    }
}

/// Makes the server's move once the requested name is resolved.
pub fn on_export(no_zeroes: bool, found: Option<Export>) -> (m: Move)
    ensures
        m@ == export_step(no_zeroes, found),
{
    match found {
        Some(export) => Move {
            send: encode_export_info(export.size, export.transmission_flags(), no_zeroes),
            next: Negotiation::Transmission { export },
        },
        None => Move {
            send: Vec::new(),
            next: Negotiation::Closed(End::Failed(Fault::UnknownExport)),
        },
    }
}

/// Makes the server's move on one option, resolving an export name in
/// `registry`.
pub fn resolve_option(registry: &Registry, no_zeroes: bool, code: u32, data: &[u8]) -> (m: Move)
    ensures
        m@ == option_move(registry@, no_zeroes, code, data@),
{
    let m = on_option(no_zeroes, code, data);
    match m.next {
        Negotiation::Resolving { .. } => on_export(no_zeroes, registry.resolve(data)),
        _ => m,
    }
}

/// A stretch of negotiation: what the server sent, how much of the client's
/// bytes it took, and where the negotiation then stands.
pub struct Talk {
    pub sent: Seq<u8>,
    pub used: nat,
    pub state: Negotiation,
}

/// The haggling over a client's bytes, option by option, until one ends it or
/// the bytes do.
pub open spec fn haggle(registry: RegistryView, no_zeroes: bool, input: Seq<u8>) -> Talk
    decreases input.len(),
{
    match parse_option_header(input) {
        Err(f) => Talk { sent: Seq::empty(), used: 0, state: Negotiation::Closed(End::Failed(f)) },
        Ok(header) => {
            let end = OPTION_HEADER_LEN + header.length;
            if input.len() < end {
                Talk {
                    sent: Seq::empty(),
                    used: 0,
                    state: Negotiation::Closed(End::Failed(Fault::Truncated)),
                }
            } else {
                let m = option_move(
                    registry,
                    no_zeroes,
                    header.code,
                    input.subrange(OPTION_HEADER_LEN as int, end),
                );
                if m.next is Haggling {
                    let rest = haggle(registry, no_zeroes, input.skip(end));
                    Talk {
                        sent: m.send + rest.sent,
                        used: (end + rest.used) as nat,
                        state: rest.state,
                    }
                } else {
                    Talk { sent: m.send, used: end as nat, state: m.next }
                }
            }
        },
    }
}

/// A whole negotiation over a client's bytes: the greeting, the client's flags,
/// the haggling.
pub open spec fn negotiation(registry: RegistryView, input: Seq<u8>) -> Talk {
    match parse_client_flags(input) {
        Err(f) => Talk {
            sent: greeting_bytes(),
            used: 0,
            state: Negotiation::Closed(End::Failed(f)),
        },
        Ok(flags) => match after_flags(flags) {
            Negotiation::Haggling { no_zeroes } => {
                let rest = haggle(registry, no_zeroes, input.skip(CLIENT_FLAGS_LEN as int));
                Talk {
                    sent: greeting_bytes() + rest.sent,
                    used: CLIENT_FLAGS_LEN as nat + rest.used,
                    state: rest.state,
                }
            },
            other => Talk { sent: greeting_bytes(), used: CLIENT_FLAGS_LEN as nat, state: other },
        },
    }
}

/// What `negotiate` hands back: the bytes for the client, how many of the
/// client's bytes were taken, and where the negotiation stands.
pub struct Handshake {
    pub output: Vec<u8>,
    pub consumed: usize,
    pub state: Negotiation,
}

impl View for Handshake {
    type V = Talk;

    open spec fn view(&self) -> Talk {
        Talk { sent: self.output@, used: self.consumed as nat, state: self.state }
    }
}

impl Talk {
    /// This stretch after one in which `sent` went out and `used` bytes were
    /// taken.
    pub open spec fn after(self, sent: Seq<u8>, used: nat) -> Talk {
        Talk { sent: sent + self.sent, used: used + self.used, state: self.state }
    }
}

/// The haggling from byte `pos` of the client's bytes on, by what the option
/// there is.
proof fn lemma_haggle_at(registry: RegistryView, no_zeroes: bool, input: Seq<u8>, pos: int)
    requires
        0 <= pos <= input.len(),
    ensures
        match parse_option_header(input.skip(pos)) {
            Err(f) => haggle(registry, no_zeroes, input.skip(pos)) == (Talk {
                sent: Seq::empty(),
                used: 0,
                state: Negotiation::Closed(End::Failed(f)),
            }),
            Ok(header) => {
                let len = OPTION_HEADER_LEN + header.length;
                if input.len() < pos + len {
                    haggle(registry, no_zeroes, input.skip(pos)) == (Talk {
                        sent: Seq::empty(),
                        used: 0,
                        state: Negotiation::Closed(End::Failed(Fault::Truncated)),
                    })
                } else {
                    let m = option_move(
                        registry,
                        no_zeroes,
                        header.code,
                        input.subrange(pos + OPTION_HEADER_LEN, pos + len),
                    );
                    if m.next is Haggling {
                        haggle(registry, no_zeroes, input.skip(pos)) == haggle(
                            registry,
                            no_zeroes,
                            input.skip(pos + len),
                        ).after(m.send, len as nat)
                    } else {
                        haggle(registry, no_zeroes, input.skip(pos)) == (Talk {
                            sent: m.send,
                            used: len as nat,
                            state: m.next,
                        })
                    }
                }
            },
        },
{
    let rest = input.skip(pos);
    if let Ok(header) = parse_option_header(rest) {
        let len = OPTION_HEADER_LEN + header.length;
        if rest.len() >= len {
            assert(rest.subrange(OPTION_HEADER_LEN as int, len) =~= input.subrange(
                pos + OPTION_HEADER_LEN,
                pos + len,
            ));
            assert(rest.skip(len) =~= input.skip(pos + len));
        }
    }
}

/// Two stretches in a row are one stretch.
proof fn lemma_after_after(t: Talk, sent: Seq<u8>, used: nat, before: Seq<u8>, earlier: nat)
    ensures
        t.after(sent, used).after(before, earlier) == t.after(before + sent, earlier + used),
{
    assert(before + (sent + t.sent) =~= (before + sent) + t.sent);
}

/// Runs a whole negotiation over bytes that a client sent.
pub fn negotiate(registry: &Registry, input: &[u8]) -> (h: Handshake)
    ensures
        h@ == negotiation(registry@, input@),
        h.consumed <= input@.len(),
        h.state is Transmission || h.state is Closed,
{
    let mut output = open().send;
    let flags = match decode_client_flags(input) {
        Ok(flags) => flags,
        Err(f) => {
            return Handshake { output, consumed: 0, state: Negotiation::Closed(End::Failed(f)) };
        },
    };
    let no_zeroes = match on_client_flags(flags) {
        Negotiation::Haggling { no_zeroes } => no_zeroes,
        other => {
            return Handshake { output, consumed: CLIENT_FLAGS_LEN, state: other };
        },
    };
    let total = input.len();
    let mut pos: usize = CLIENT_FLAGS_LEN;
    loop
        invariant
            CLIENT_FLAGS_LEN <= pos <= total == input@.len(),
            negotiation(registry@, input@) == haggle(registry@, no_zeroes, input@.skip(pos as int)).after(
                output@,
                pos as nat,
            ),
        decreases total - pos,
    {
        proof {
            lemma_haggle_at(registry@, no_zeroes, input@, pos as int);
        }
        let ghost here = haggle(registry@, no_zeroes, input@.skip(pos as int));
        let rest = slice_subrange(input, pos, total);
        let header = match decode_option_header(rest) {
            Ok(header) => header,
            Err(f) => {
                assert(output@ + here.sent =~= output@);
                return Handshake {
                    output,
                    consumed: pos,
                    state: Negotiation::Closed(End::Failed(f)),
                };
            },
        };
        if total - pos - OPTION_HEADER_LEN < header.length as usize {
            assert(output@ + here.sent =~= output@);
            return Handshake {
                output,
                consumed: pos,
                state: Negotiation::Closed(End::Failed(Fault::Truncated)),
            };
        }
        let end = pos + OPTION_HEADER_LEN + header.length as usize;
        let m = resolve_option(
            registry,
            no_zeroes,
            header.code,
            slice_subrange(input, pos + OPTION_HEADER_LEN, end),
        );
        let mut send = m.send;
        let ghost before = output@;
        output.append(&mut send);
        match m.next {
            Negotiation::Haggling { .. } => {
                proof {
                    lemma_after_after(
                        haggle(registry@, no_zeroes, input@.skip(end as int)),
                        m@.send,
                        (end - pos) as nat,
                        before,
                        pos as nat,
                    );
                }
                pos = end;
            },
            other => {
                return Handshake { output, consumed: end, state: other };
            },
        }
    }
}

/// A client that gives up gets an acknowledgement, and the negotiation is over
/// without an export.
pub proof fn lemma_abort_ends_negotiation(registry: RegistryView, no_zeroes: bool, data: Seq<u8>)
    ensures
        option_move(registry, no_zeroes, OPT_ABORT, data).next == Negotiation::Closed(End::Aborted),
        option_move(registry, no_zeroes, OPT_ABORT, data).send == option_reply_bytes(
            OPT_ABORT,
            REP_ACK,
        ),
{
}

/// A name that resolves to nothing ends the negotiation with nothing sent: the
/// client never sees a size or flags.
pub proof fn lemma_unknown_export_sends_nothing(
    registry: RegistryView,
    no_zeroes: bool,
    name: Seq<u8>,
)
    requires
        registry.resolve(name).is_none(),
    ensures
        option_move(registry, no_zeroes, OPT_EXPORT_NAME, name).send == Seq::<u8>::empty(),
        option_move(registry, no_zeroes, OPT_EXPORT_NAME, name).next is Closed,
{
}

/// Haggling ends with an export agreed, with the client giving up, or with a
/// fault, and never takes more bytes than it was given.
pub proof fn lemma_haggle_ends(registry: RegistryView, no_zeroes: bool, input: Seq<u8>)
    ensures
        haggle(registry, no_zeroes, input).state is Transmission || haggle(
            registry,
            no_zeroes,
            input,
        ).state is Closed,
        haggle(registry, no_zeroes, input).state matches Negotiation::Closed(end) ==> end
            == End::Aborted || end is Failed,
        haggle(registry, no_zeroes, input).used <= input.len(),
    decreases input.len(),
{
    if let Ok(header) = parse_option_header(input) {
        let end = OPTION_HEADER_LEN + header.length;
        if input.len() >= end {
            lemma_haggle_ends(registry, no_zeroes, input.skip(end));
        }
    }
}

} // verus!
