use nbd::client::{handshake, NbdClient};
use nbd_serve::export::{Export, Registry};
use nbd_serve::handshake::{negotiate, Negotiation};
use nbd_serve::session::transmit;
use nbd_serve::store::MemStore;
use nbd_serve::wire::{encode_option, encode_request, Request, OPT_ABORT, OPT_EXPORT_NAME};
use std::io::{Cursor, Read, Result, Seek, SeekFrom, Write};

/// A stream whose far end is this library serving `store`: what the client
/// writes is served when the client next reads.
struct Loopback {
    export: Export,
    store: MemStore,
    pending: Vec<u8>,
    answers: Vec<u8>,
    sent: Vec<u8>,
}

impl Loopback {
    fn new(export: Export, store: MemStore, answers: Vec<u8>) -> Loopback {
        Loopback { export, store, pending: Vec::new(), answers, sent: Vec::new() }
    }
}

impl Write for Loopback {
    fn write(&mut self, buf: &[u8]) -> Result<usize> {
        self.pending.extend_from_slice(buf);
        self.sent.extend_from_slice(buf);
        Ok(buf.len())
    }

    fn flush(&mut self) -> Result<()> {
        Ok(())
    }
}

impl Read for Loopback {
    fn read(&mut self, buf: &mut [u8]) -> Result<usize> {
        if self.answers.is_empty() && !self.pending.is_empty() {
            let t = transmit(&self.export, &mut self.store, &self.pending);
            self.pending.clear();
            self.answers = t.output;
        }
        let n = buf.len().min(self.answers.len());
        buf[..n].copy_from_slice(&self.answers[..n]);
        self.answers.drain(..n);
        Ok(n)
    }
}

fn plain(size: u64) -> Export {
    Export {
        size,
        readonly: false,
        rotational: false,
        send_trim: false,
        send_flush: false,
        resizeable: false,
    }
}

#[test]
fn a_client_of_the_protocol_accepts_the_negotiation() {
    let export = Export { rotational: true, send_flush: true, ..plain(1 << 20) };
    let mut registry = Registry::new();
    assert!(registry.register(b"disk".to_vec(), export));

    let mut said = 1u32.to_be_bytes().to_vec();
    said.extend_from_slice(&encode_option(OPT_EXPORT_NAME, b"disk").unwrap());
    let h = negotiate(&registry, &said);
    assert_eq!(h.state, Negotiation::Transmission { export });

    let mut stream = Loopback::new(export, MemStore::new(0), h.output);
    let seen = handshake(&mut stream, b"disk").unwrap();
    assert_eq!(stream.sent, said);
    assert!(stream.answers.is_empty());
    assert_eq!(seen.size, 1 << 20);
    assert!(!seen.readonly);
    assert!(seen.rotational);
    assert!(seen.send_flush);
    assert!(!seen.send_trim);
    assert!(!seen.resizeable);
}

#[test]
fn a_client_of_the_protocol_sees_a_readonly_export() {
    let export = Export { readonly: true, ..plain(512) };
    let mut said = 1u32.to_be_bytes().to_vec();
    said.extend_from_slice(&encode_option(OPT_EXPORT_NAME, b"").unwrap());
    let h = negotiate(&Registry::single(export), &said);
    let mut stream = Loopback::new(export, MemStore::new(0), h.output);
    let seen = handshake(&mut stream, b"").unwrap();
    assert_eq!(seen.size, 512);
    assert!(seen.readonly);
    assert!(!seen.send_flush);
    assert!(!seen.rotational);
}

#[test]
fn a_client_of_the_protocol_writes_and_reads_back() {
    let export = plain(1024);
    let stream = Loopback::new(export, MemStore::new(1024), Vec::new());
    let described = nbd::Export { size: 1024, ..Default::default() };
    let mut client = NbdClient::new(stream, &described);

    assert_eq!(client.write(&[0xaa; 16]).unwrap(), 16);
    client.seek(SeekFrom::Start(0)).unwrap();
    let mut back = [0u8; 16];
    client.read_exact(&mut back).unwrap();
    assert_eq!(back, [0xaa; 16]);

    client.seek(SeekFrom::Start(1000)).unwrap();
    assert_eq!(client.write(&[0xbb; 24]).unwrap(), 24);
    client.seek(SeekFrom::Start(996)).unwrap();
    let mut tail = [0u8; 28];
    client.read_exact(&mut tail).unwrap();
    assert_eq!(&tail[..4], &[0; 4]);
    assert_eq!(&tail[4..], &[0xbb; 24]);
}

#[test]
fn a_client_of_the_protocol_is_told_of_a_readonly_write() {
    let export = Export { readonly: true, ..plain(64) };
    let stream = Loopback::new(export, MemStore::from_bytes(vec![3; 64]), Vec::new());
    let described = nbd::Export { size: 64, ..Default::default() };
    let mut client = NbdClient::new(stream, &described);
    let refused = client.write(&[1; 8]).unwrap_err();
    assert_eq!(refused.kind(), std::io::ErrorKind::PermissionDenied);
    client.seek(SeekFrom::Start(0)).unwrap();
    let mut back = [0u8; 8];
    client.read_exact(&mut back).unwrap();
    assert_eq!(back, [3; 8]);
}

#[test]
fn a_client_of_the_protocol_is_told_that_flush_is_not_served() {
    let stream = Loopback::new(plain(64), MemStore::new(64), Vec::new());
    let described = nbd::Export { size: 64, ..Default::default() };
    let mut client = NbdClient::new(stream, &described);
    assert!(client.flush().is_err());

    let flushing = Export { send_flush: true, ..plain(64) };
    let stream = Loopback::new(flushing, MemStore::new(64), Vec::new());
    let mut client = NbdClient::new(stream, &described);
    assert!(client.flush().is_ok());
}

/// A stream that plays back what a client sent and records what a server says.
struct Playback {
    said: Cursor<Vec<u8>>,
    heard: Vec<u8>,
}

impl Playback {
    fn new(said: Vec<u8>) -> Playback {
        Playback { said: Cursor::new(said), heard: Vec::new() }
    }
}

impl Read for Playback {
    fn read(&mut self, buf: &mut [u8]) -> Result<usize> {
        self.said.read(buf)
    }
}

impl Write for Playback {
    fn write(&mut self, buf: &[u8]) -> Result<usize> {
        self.heard.extend_from_slice(buf);
        Ok(buf.len())
    }

    fn flush(&mut self) -> Result<()> {
        Ok(())
    }
}

fn described(e: &Export) -> Result<nbd::Export<()>> {
    Ok(nbd::Export {
        size: e.size,
        readonly: e.readonly,
        resizeable: e.resizeable,
        rotational: e.rotational,
        send_trim: e.send_trim,
        send_flush: e.send_flush,
        data: (),
    })
}

fn frame(command: u16, handle: u64, offset: u64, length: u32, payload: &[u8]) -> Vec<u8> {
    let mut v = encode_request(&Request { flags: 0, command, handle, offset, length });
    v.extend_from_slice(payload);
    v
}

#[test]
fn negotiation_matches_the_nbd_server_on_an_export_name() {
    for bits in 0u8..16 {
        let readonly = bits & 1 != 0;
        let export = Export {
            size: 0x0102_0304_0506 + u64::from(bits),
            readonly,
            rotational: bits & 2 != 0,
            send_trim: bits & 4 != 0,
            send_flush: !readonly,
            resizeable: bits & 8 != 0,
        };
        for flags in [1u32, 3] {
            let mut said = flags.to_be_bytes().to_vec();
            said.extend_from_slice(&encode_option(7, b"disk").unwrap());
            said.extend_from_slice(&encode_option(8, b"").unwrap());
            said.extend_from_slice(&encode_option(6, b"disk").unwrap());
            said.extend_from_slice(&encode_option(OPT_EXPORT_NAME, b"disk").unwrap());

            let mut stream = Playback::new(said.clone());
            nbd::server::handshake(&mut stream, |_name| described(&export)).unwrap();

            let h = negotiate(&Registry::single(export), &said);
            assert_eq!(h.state, Negotiation::Transmission { export });
            assert_eq!(h.output, stream.heard);
            assert_eq!(h.consumed as u64, stream.said.position());
        }
    }
}

#[test]
fn negotiation_matches_the_nbd_server_on_an_abort() {
    let mut said = 3u32.to_be_bytes().to_vec();
    said.extend_from_slice(&encode_option(OPT_ABORT, b"").unwrap());
    let mut stream = Playback::new(said.clone());
    assert!(nbd::server::handshake(&mut stream, |_name| described(&plain(1))).is_err());
    let h = negotiate(&Registry::single(plain(1)), &said);
    assert_eq!(h.output, stream.heard);
}

#[test]
fn negotiation_matches_the_nbd_server_on_refused_clients() {
    for said in [
        0u32.to_be_bytes().to_vec(),
        2u32.to_be_bytes().to_vec(),
        vec![0, 0, 0, 1, b'X', b'H', b'A', b'V', b'E', b'O', b'P', b'T', 0, 0, 0, 1, 0, 0, 0, 0],
        vec![0, 0, 0, 1, b'I', b'H', b'A', b'V', b'E', b'O', b'P', b'T', 0, 0, 0, 1, 0, 0, 0, 1, 0xff],
        vec![0, 0, 0, 1, b'I', b'H', b'A', b'V', b'E', b'O', b'P', b'T', 0, 0, 0, 1, 0xff, 0, 0, 0],
    ] {
        let mut stream = Playback::new(said.clone());
        assert!(nbd::server::handshake(&mut stream, |_name| described(&plain(1))).is_err());
        let h = negotiate(&Registry::single(plain(1)), &said);
        assert!(matches!(h.state, Negotiation::Closed(_)));
        assert_eq!(h.output, stream.heard);
    }
}

#[test]
fn transmission_matches_the_nbd_server_on_requests_inside_the_export() {
    let export = Export { send_flush: true, ..plain(64) };
    let mut said = Vec::new();
    said.extend_from_slice(&frame(0, 1, 0, 64, &[]));
    said.extend_from_slice(&frame(1, 2, 8, 8, &[0x11; 8]));
    said.extend_from_slice(&frame(1, 3, 56, 8, &[0x22; 8]));
    said.extend_from_slice(&frame(0, 4, 4, 16, &[]));
    said.extend_from_slice(&frame(3, 5, 0, 0, &[]));
    said.extend_from_slice(&frame(1, 6, 12, 0, &[]));
    said.extend_from_slice(&frame(4, 7, 0, 32, &[]));
    said.extend_from_slice(&frame(0, u64::MAX, 0, 64, &[]));
    said.extend_from_slice(&frame(2, 8, 0, 0, &[]));
    said.extend_from_slice(&frame(0, 9, 0, 64, &[]));

    let initial: Vec<u8> = (100..164u8).collect();
    let mut stream = Playback::new(said.clone());
    let mut disk = Cursor::new(initial.clone());
    nbd::server::transmission(&mut stream, &mut disk).unwrap();

    let mut store = MemStore::from_bytes(initial);
    let t = transmit(&export, &mut store, &said);
    assert_eq!(t.end, nbd_serve::error::End::Disconnected);
    assert_eq!(t.output, stream.heard);
    assert_eq!(store.bytes(), &disk.into_inner()[..]);
}
