//! The fixed-layout structures of the protocol and their byte form. Every field
//! is big-endian; every structure that a peer sends begins with a magic number.

use crate::bytes::{
    get_u16, get_u32, get_u64, lemma_u16_field, lemma_u32_field, lemma_u64_field, put_u16,
    put_u32, put_u64, u16_at, u16_bytes, u32_at, u32_bytes, u64_at, u64_bytes,
};
use crate::error::Fault;
use vstd::prelude::*;

verus! {

/// `NBDMAGIC`, the first eight bytes a server sends.
pub const INIT_MAGIC: u64 = 0x4e42_444d_4147_4943;

/// `IHAVEOPT`: second half of the greeting, and the start of every option.
pub const OPTS_MAGIC: u64 = 0x4948_4156_454f_5054;

/// Start of every reply to an option.
pub const OPTION_REPLY_MAGIC: u64 = 0x0003_e889_0455_65a9;

/// Start of every request.
pub const REQUEST_MAGIC: u32 = 0x2560_9513;

/// Start of every reply to a request.
pub const REPLY_MAGIC: u32 = 0x6744_6698;

/// Handshake flag of the server: fixed-newstyle negotiation.
pub const FLAG_FIXED_NEWSTYLE: u16 = 1;

/// Handshake flag of the server: the padding after the export information may
/// be negotiated away.
pub const FLAG_NO_ZEROES: u16 = 2;

/// The flags that the greeting advertises: both.
pub const HANDSHAKE_FLAGS: u16 = 3;

/// Handshake flag of the client: it negotiates in fixed-newstyle.
pub const CLIENT_FIXED_NEWSTYLE: u32 = 1;

/// Handshake flag of the client: it wants no padding after the export
/// information.
pub const CLIENT_NO_ZEROES: u32 = 2;

pub const OPT_EXPORT_NAME: u32 = 1;

pub const OPT_ABORT: u32 = 2;

/// Option reply type: acknowledged.
pub const REP_ACK: u32 = 1;

/// Option reply type: the option is not supported.
pub const REP_ERR_UNSUP: u32 = 0x8000_0001;

pub const CMD_READ: u16 = 0;

pub const CMD_WRITE: u16 = 1;

pub const CMD_DISCONNECT: u16 = 2;

pub const CMD_FLUSH: u16 = 3;

pub const CMD_TRIM: u16 = 4;

/// The most data an option may announce.
pub const MAX_OPTION_LEN: u32 = 100_000;

/// Bytes in the client's handshake flags.
pub const CLIENT_FLAGS_LEN: usize = 4;

/// Bytes in an option header.
pub const OPTION_HEADER_LEN: usize = 16;

/// Bytes in a request header.
pub const REQUEST_LEN: usize = 28;

/// Bytes in a reply header.
pub const REPLY_LEN: usize = 16;

/// Zero bytes that follow the export information unless both sides agreed to
/// leave them out.
pub const EXPORT_PADDING: usize = 124;

/// What a request asks for.
#[derive(Debug, Clone, Copy, PartialEq, Eq, Structural)]
pub enum Command {
    Read,
    Write,
    Disconnect,
    Flush,
    Trim,
    /// Any other command code.
    Unknown,
}

/// A request header as it came off the wire.
#[derive(Debug, Clone, Copy, PartialEq, Eq, Structural)]
pub struct Request {
    /// Command flags. The engine gives them no meaning.
    pub flags: u16,
    /// The command code.
    pub command: u16,
    /// The client's cookie, echoed in the reply.
    pub handle: u64,
    pub offset: u64,
    pub length: u32,
}

/// A reply header.
#[derive(Debug, Clone, Copy, PartialEq, Eq, Structural)]
pub struct ReplyHeader {
    /// Zero for success.
    pub error: u32,
    pub handle: u64,
}

/// An option header: which option, and how much data follows it.
#[derive(Debug, Clone, Copy, PartialEq, Eq, Structural)]
pub struct OptionHeader {
    pub code: u32,
    pub length: u32,
}

pub open spec fn command_of(code: u16) -> Command {
    if code == CMD_READ {
        Command::Read
    } else if code == CMD_WRITE {
        Command::Write
    } else if code == CMD_DISCONNECT {
        Command::Disconnect
    } else if code == CMD_FLUSH {
        Command::Flush
    } else if code == CMD_TRIM {
        Command::Trim
    } else {
        Command::Unknown
    }
}

impl Request {
    /// What this request asks for.
    pub open spec fn kind(self) -> Command {
        command_of(self.command)
    }

    /// Bytes of payload that follow the header: the data of a write.
    pub open spec fn payload_len(self) -> nat {
        if self.kind() == Command::Write {
            self.length as nat
        } else {
            0
        }
    }

    /// What this request asks for.
    pub fn command(&self) -> (c: Command)
        ensures
            c == self.kind(),
    {
        let code = self.command;
        if code == CMD_READ {
            Command::Read
        } else if code == CMD_WRITE {
            Command::Write
        } else if code == CMD_DISCONNECT {
            Command::Disconnect
        } else if code == CMD_FLUSH {
            Command::Flush
        } else if code == CMD_TRIM {
            Command::Trim
        } else {
            Command::Unknown
        }
    }

    /// Bytes of payload that the client sends after this header.
    pub fn payload_length(&self) -> (n: u32)
        ensures
            n == self.payload_len(),
    {
        if self.command == CMD_WRITE {
            self.length
        } else {
            0
        }
    }
}

/// The server's greeting: both magics, then the handshake flags.
pub open spec fn greeting_bytes() -> Seq<u8> {
    u64_bytes(INIT_MAGIC) + u64_bytes(OPTS_MAGIC) + u16_bytes(HANDSHAKE_FLAGS)
}

/// A reply to an option, with no data.
pub open spec fn option_reply_bytes(code: u32, reply_type: u32) -> Seq<u8> {
    u64_bytes(OPTION_REPLY_MAGIC) + u32_bytes(code) + u32_bytes(reply_type) + u32_bytes(0)
}

/// The zero bytes after the export information.
pub open spec fn padding() -> Seq<u8> {
    Seq::new(EXPORT_PADDING as nat, |i: int| 0u8)
}

/// What ends a successful negotiation: the export's size and transmission flags,
/// then the padding unless `no_zeroes`.
pub open spec fn export_info_bytes(size: u64, flags: u16, no_zeroes: bool) -> Seq<u8> {
    u64_bytes(size) + u16_bytes(flags) + if no_zeroes {
        Seq::<u8>::empty()
    } else {
        padding()
    }
}

pub open spec fn request_bytes(r: Request) -> Seq<u8> {
    u32_bytes(REQUEST_MAGIC) + u16_bytes(r.flags) + u16_bytes(r.command) + u64_bytes(r.handle)
        + u64_bytes(r.offset) + u32_bytes(r.length)
}

pub open spec fn reply_bytes(h: ReplyHeader) -> Seq<u8> {
    u32_bytes(REPLY_MAGIC) + u32_bytes(h.error) + u64_bytes(h.handle)
}

/// An option with its data, as a client sends it.
pub open spec fn option_bytes(code: u32, data: Seq<u8>) -> Seq<u8> {
    u64_bytes(OPTS_MAGIC) + u32_bytes(code) + u32_bytes(data.len() as u32) + data
}

/// The client's handshake flags, read from the front of `b`.
pub open spec fn parse_client_flags(b: Seq<u8>) -> Result<u32, Fault> {
    if b.len() < CLIENT_FLAGS_LEN {
        Err(Fault::Truncated)
    } else {
        Ok(u32_at(b, 0))
    }
}

/// The option header at the front of `b`.
pub open spec fn parse_option_header(b: Seq<u8>) -> Result<OptionHeader, Fault> {
    if b.len() < OPTION_HEADER_LEN {
        Err(Fault::Truncated)
    } else if u64_at(b, 0) != OPTS_MAGIC {
        Err(Fault::BadMagic)
    } else if u32_at(b, 12) > MAX_OPTION_LEN {
        Err(Fault::OversizedOption)
    } else {
        Ok(OptionHeader { code: u32_at(b, 8), length: u32_at(b, 12) })
    }
}

/// The request header at the front of `b`.
pub open spec fn parse_request(b: Seq<u8>) -> Result<Request, Fault> {
    if b.len() < REQUEST_LEN {
        Err(Fault::Truncated)
    } else if u32_at(b, 0) != REQUEST_MAGIC {
        Err(Fault::BadMagic)
    } else {
        Ok(
            Request {
                flags: u16_at(b, 4),
                command: u16_at(b, 6),
                handle: u64_at(b, 8),
                offset: u64_at(b, 16),
                length: u32_at(b, 24),
            },
        )
    }
}

/// The reply header at the front of `b`.
pub open spec fn parse_reply(b: Seq<u8>) -> Result<ReplyHeader, Fault> {
    if b.len() < REPLY_LEN {
        Err(Fault::Truncated)
    } else if u32_at(b, 0) != REPLY_MAGIC {
        Err(Fault::BadMagic)
    } else {
        Ok(ReplyHeader { error: u32_at(b, 4), handle: u64_at(b, 8) })
    }
}

pub fn encode_greeting() -> (out: Vec<u8>)
    ensures
        out@ == greeting_bytes(),
{
    let mut out: Vec<u8> = Vec::new();
    put_u64(&mut out, INIT_MAGIC);
    put_u64(&mut out, OPTS_MAGIC);
    put_u16(&mut out, HANDSHAKE_FLAGS);
    out
}

pub fn encode_option_reply(code: u32, reply_type: u32) -> (out: Vec<u8>)
    ensures
        out@ == option_reply_bytes(code, reply_type),
{
    let mut out: Vec<u8> = Vec::new();
    put_u64(&mut out, OPTION_REPLY_MAGIC);
    put_u32(&mut out, code);
    put_u32(&mut out, reply_type);
    put_u32(&mut out, 0);
    out
}

pub fn encode_export_info(size: u64, flags: u16, no_zeroes: bool) -> (out: Vec<u8>)
    ensures
        out@ == export_info_bytes(size, flags, no_zeroes),
{
    let mut out: Vec<u8> = Vec::new();
    put_u64(&mut out, size);
    put_u16(&mut out, flags);
    if !no_zeroes {
        let ghost head = out@;
        let mut i: usize = 0;
        while i < EXPORT_PADDING
            invariant
                i <= EXPORT_PADDING,
                out@ == head + padding().subrange(0, i as int),
            decreases EXPORT_PADDING - i,
        {
            out.push(0u8);
            i = i + 1;
        }
        assert(padding().subrange(0, EXPORT_PADDING as int) == padding());
    }
    out
}

pub fn encode_request(r: &Request) -> (out: Vec<u8>)
    ensures
        out@ == request_bytes(*r),
{
    let mut out: Vec<u8> = Vec::new();
    put_u32(&mut out, REQUEST_MAGIC);
    put_u16(&mut out, r.flags);
    put_u16(&mut out, r.command);
    put_u64(&mut out, r.handle);
    put_u64(&mut out, r.offset);
    put_u32(&mut out, r.length);
    out
}

pub fn encode_reply(h: &ReplyHeader) -> (out: Vec<u8>)
    ensures
        out@ == reply_bytes(*h),
{
    let mut out: Vec<u8> = Vec::new();
    put_u32(&mut out, REPLY_MAGIC);
    put_u32(&mut out, h.error);
    put_u64(&mut out, h.handle);
    out
}

/// An option as a client sends it. `None` when the data is longer than a length
/// field can say.
pub fn encode_option(code: u32, data: &[u8]) -> (out: Option<Vec<u8>>)
    ensures
        out.is_some() <==> data@.len() <= u32::MAX,
        out matches Some(o) ==> o@ == option_bytes(code, data@),
{
    if data.len() > u32::MAX as usize {
        return None;
    }
    let mut o: Vec<u8> = Vec::new();
    put_u64(&mut o, OPTS_MAGIC);
    put_u32(&mut o, code);
    put_u32(&mut o, data.len() as u32);
    o.extend_from_slice(data);
    Some(o)
}

pub fn decode_client_flags(b: &[u8]) -> (r: Result<u32, Fault>)
    ensures
        r == parse_client_flags(b@),
{
    if b.len() < CLIENT_FLAGS_LEN {
        return Err(Fault::Truncated);
    }
    Ok(get_u32(b, 0))
}

pub fn decode_option_header(b: &[u8]) -> (r: Result<OptionHeader, Fault>)
    ensures
        r == parse_option_header(b@),
{
    if b.len() < OPTION_HEADER_LEN {
        return Err(Fault::Truncated);
    }
    if get_u64(b, 0) != OPTS_MAGIC {
        return Err(Fault::BadMagic);
    }
    let code = get_u32(b, 8);
    let length = get_u32(b, 12);
    if length > MAX_OPTION_LEN {
        return Err(Fault::OversizedOption);
    }
    Ok(OptionHeader { code, length })
}

pub fn decode_request(b: &[u8]) -> (r: Result<Request, Fault>)
    ensures
        r == parse_request(b@),
{
    if b.len() < REQUEST_LEN {
        return Err(Fault::Truncated);
    }
    if get_u32(b, 0) != REQUEST_MAGIC {
        return Err(Fault::BadMagic);
    }
    Ok(
        Request {
            flags: get_u16(b, 4),
            command: get_u16(b, 6),
            handle: get_u64(b, 8),
            offset: get_u64(b, 16),
            length: get_u32(b, 24),
        },
    )
}

pub fn decode_reply(b: &[u8]) -> (r: Result<ReplyHeader, Fault>)
    ensures
        r == parse_reply(b@),
{
    if b.len() < REPLY_LEN {
        return Err(Fault::Truncated);
    }
    if get_u32(b, 0) != REPLY_MAGIC {
        return Err(Fault::BadMagic);
    }
    Ok(ReplyHeader { error: get_u32(b, 4), handle: get_u64(b, 8) })
}

/// The byte forms have the lengths that the protocol fixes.
pub proof fn lemma_frame_lengths(r: Request, h: ReplyHeader, code: u32, reply_type: u32)
    ensures
        greeting_bytes().len() == 18,
        request_bytes(r).len() == REQUEST_LEN,
        reply_bytes(h).len() == REPLY_LEN,
        option_reply_bytes(code, reply_type).len() == 20,
{
    let e = Seq::<u8>::empty();
    lemma_u64_field(e, INIT_MAGIC, e);
    lemma_u64_field(e, OPTS_MAGIC, e);
    lemma_u64_field(e, OPTION_REPLY_MAGIC, e);
    lemma_u64_field(e, r.handle, e);
    lemma_u64_field(e, r.offset, e);
    lemma_u64_field(e, h.handle, e);
    lemma_u32_field(e, REQUEST_MAGIC, e);
    lemma_u32_field(e, REPLY_MAGIC, e);
    lemma_u32_field(e, r.length, e);
    lemma_u32_field(e, h.error, e);
    lemma_u32_field(e, code, e);
    lemma_u32_field(e, reply_type, e);
    lemma_u32_field(e, 0, e);
    lemma_u16_field(e, HANDSHAKE_FLAGS, e);
    lemma_u16_field(e, r.flags, e);
    lemma_u16_field(e, r.command, e);
}

/// A request header read back from its own bytes is the header that was written,
/// whatever follows it.
pub proof fn lemma_request_roundtrip(r: Request, rest: Seq<u8>)
    ensures
        parse_request(request_bytes(r) + rest) == Ok::<Request, Fault>(r),
{
    let frame = request_bytes(r) + rest;
    let magic = u32_bytes(REQUEST_MAGIC);
    let flags = u16_bytes(r.flags);
    let command = u16_bytes(r.command);
    let handle = u64_bytes(r.handle);
    let offset = u64_bytes(r.offset);
    let length = u32_bytes(r.length);
    let e = Seq::<u8>::empty();
    lemma_frame_lengths(r, ReplyHeader { error: 0, handle: 0 }, 0, 0);
    lemma_u32_field(e, REQUEST_MAGIC, flags + command + handle + offset + length + rest);
    assert(frame =~= e + magic + (flags + command + handle + offset + length + rest));
    lemma_u16_field(magic, r.flags, command + handle + offset + length + rest);
    assert(frame =~= magic + flags + (command + handle + offset + length + rest));
    lemma_u16_field(magic + flags, r.command, handle + offset + length + rest);
    assert(frame =~= magic + flags + command + (handle + offset + length + rest));
    lemma_u64_field(magic + flags + command, r.handle, offset + length + rest);
    assert(frame =~= magic + flags + command + handle + (offset + length + rest));
    lemma_u64_field(magic + flags + command + handle, r.offset, length + rest);
    assert(frame =~= magic + flags + command + handle + offset + (length + rest));
    lemma_u32_field(magic + flags + command + handle + offset, r.length, rest);
}

/// A reply header read back from its own bytes is the header that was written,
/// whatever follows it.
pub proof fn lemma_reply_roundtrip(h: ReplyHeader, rest: Seq<u8>)
    ensures
        parse_reply(reply_bytes(h) + rest) == Ok::<ReplyHeader, Fault>(h),
{
    let frame = reply_bytes(h) + rest;
    let magic = u32_bytes(REPLY_MAGIC);
    let error = u32_bytes(h.error);
    let handle = u64_bytes(h.handle);
    let e = Seq::<u8>::empty();
    lemma_frame_lengths(Request { flags: 0, command: 0, handle: 0, offset: 0, length: 0 }, h, 0, 0);
    lemma_u32_field(e, REPLY_MAGIC, error + handle + rest);
    assert(frame =~= e + magic + (error + handle + rest));
    lemma_u32_field(magic, h.error, handle + rest);
    assert(frame =~= magic + error + (handle + rest));
    lemma_u64_field(magic + error, h.handle, rest);
}

/// An option within the limit, read back from its own bytes, gives its code and
/// the length of its data, whatever follows it.
pub proof fn lemma_option_roundtrip(code: u32, data: Seq<u8>, rest: Seq<u8>)
    requires
        data.len() <= MAX_OPTION_LEN,
    ensures
        parse_option_header(option_bytes(code, data) + rest) == Ok::<OptionHeader, Fault>(
            OptionHeader { code, length: data.len() as u32 },
        ),
        option_bytes(code, data).len() == OPTION_HEADER_LEN + data.len(),
        (option_bytes(code, data) + rest).subrange(
            OPTION_HEADER_LEN as int,
            OPTION_HEADER_LEN + data.len(),
        ) == data,
{
    let frame = option_bytes(code, data) + rest;
    let magic = u64_bytes(OPTS_MAGIC);
    let c = u32_bytes(code);
    let n = u32_bytes(data.len() as u32);
    let e = Seq::<u8>::empty();
    lemma_u64_field(e, OPTS_MAGIC, c + n + data + rest);
    assert(frame =~= e + magic + (c + n + data + rest));
    lemma_u32_field(magic, code, n + data + rest);
    assert(frame =~= magic + c + (n + data + rest));
    lemma_u32_field(magic + c, data.len() as u32, data + rest);
    assert(frame =~= magic + c + n + (data + rest));
    assert(frame.subrange(OPTION_HEADER_LEN as int, OPTION_HEADER_LEN + data.len()) =~= data);
}

} // verus!
