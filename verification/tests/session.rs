use nbd_serve::error::{End, Fault};
use nbd_serve::export::{Export, Registry};
use nbd_serve::session::{serve, transmit, Transcript};
use nbd_serve::store::MemStore;
use nbd_serve::wire::{
    decode_reply, encode_greeting, encode_option, encode_request, ReplyHeader, Request,
    OPT_ABORT, OPT_EXPORT_NAME,
};

fn plain(size: u64) -> Export {
    Export {
        size,
        readonly: false,
        rotational: false,
        send_trim: false,
        send_flush: false,
        resizeable: false,
    }
}

fn frame(command: u16, handle: u64, offset: u64, length: u32, payload: &[u8]) -> Vec<u8> {
    let mut v = encode_request(&Request { flags: 0, command, handle, offset, length });
    v.extend_from_slice(payload);
    v
}

fn reply(error: u32, handle: u64, payload: &[u8]) -> Vec<u8> {
    let mut v = vec![0x67, 0x44, 0x66, 0x98];
    v.extend_from_slice(&error.to_be_bytes());
    v.extend_from_slice(&handle.to_be_bytes());
    v.extend_from_slice(payload);
    v
}

fn hello(flags: u32, name: &[u8]) -> Vec<u8> {
    let mut v = flags.to_be_bytes().to_vec();
    v.extend_from_slice(&encode_option(OPT_EXPORT_NAME, name).unwrap());
    v
}

#[test]
fn no_requests_no_replies() {
    let mut store = MemStore::from_bytes(vec![1; 8]);
    let t = transmit(&plain(8), &mut store, &[]);
    assert_eq!(t, Transcript { output: vec![], end: End::Closed });
    assert_eq!(store.bytes(), &[1; 8][..]);
}

#[test]
fn write_then_read_over_the_wire() {
    let mut store = MemStore::new(1024);
    let mut input = frame(1, 0x11, 0, 16, &[0xaa; 16]);
    input.extend_from_slice(&frame(0, 0x22, 0, 16, &[]));
    let t = transmit(&plain(1024), &mut store, &input);
    let mut expected = reply(0, 0x11, &[]);
    expected.extend_from_slice(&reply(0, 0x22, &[0xaa; 16]));
    assert_eq!(t, Transcript { output: expected, end: End::Closed });
}

#[test]
fn replies_come_in_request_order_with_their_handles() {
    let mut store = MemStore::from_bytes((0..64u8).collect());
    let export = Export { send_flush: true, ..plain(64) };
    let handles = [7u64, 7, 0, u64::MAX, 0xdead_beef, 3, 2, 1];
    let mut input = Vec::new();
    input.extend_from_slice(&frame(0, handles[0], 0, 4, &[]));
    input.extend_from_slice(&frame(1, handles[1], 4, 2, &[9, 9]));
    input.extend_from_slice(&frame(0, handles[2], 100, 4, &[]));
    input.extend_from_slice(&frame(3, handles[3], 0, 0, &[]));
    input.extend_from_slice(&frame(4, handles[4], 0, 8, &[]));
    input.extend_from_slice(&frame(77, handles[5], 0, 0, &[]));
    input.extend_from_slice(&frame(1, handles[6], 60, 8, &[1; 8]));
    input.extend_from_slice(&frame(0, handles[7], 3, 4, &[]));
    let t = transmit(&export, &mut store, &input);
    assert_eq!(t.end, End::Closed);

    let mut expected = Vec::new();
    expected.extend_from_slice(&reply(0, handles[0], &[0, 1, 2, 3]));
    expected.extend_from_slice(&reply(0, handles[1], &[]));
    expected.extend_from_slice(&reply(22, handles[2], &[]));
    expected.extend_from_slice(&reply(0, handles[3], &[]));
    expected.extend_from_slice(&reply(38, handles[4], &[]));
    expected.extend_from_slice(&reply(22, handles[5], &[]));
    expected.extend_from_slice(&reply(22, handles[6], &[]));
    expected.extend_from_slice(&reply(0, handles[7], &[3, 9, 9, 6]));
    assert_eq!(t.output, expected);

    let mut at = 0;
    let payloads = [4usize, 0, 0, 0, 0, 0, 0, 4];
    for (handle, payload) in handles.iter().zip(payloads) {
        let header = decode_reply(&t.output[at..]).unwrap();
        assert_eq!(header.handle, *handle);
        at += 16 + payload;
    }
    assert_eq!(at, t.output.len());
}

#[test]
fn disconnect_ends_the_connection_without_a_reply() {
    let mut store = MemStore::new(16);
    let mut input = frame(0, 1, 0, 4, &[]);
    input.extend_from_slice(&frame(2, 2, 0, 0, &[]));
    input.extend_from_slice(&frame(1, 3, 0, 4, &[1, 2, 3, 4]));
    let t = transmit(&plain(16), &mut store, &input);
    assert_eq!(t, Transcript { output: reply(0, 1, &[0; 4]), end: End::Disconnected });
    assert_eq!(store.bytes(), &[0; 16][..]);
}

#[test]
fn disconnect_right_after_the_handshake_touches_nothing() {
    let mut store = MemStore::from_bytes(vec![5; 16]);
    let t = transmit(&plain(16), &mut store, &frame(2, 9, 0, 0, &[]));
    assert_eq!(t, Transcript { output: vec![], end: End::Disconnected });
    assert_eq!(store.bytes(), &[5; 16][..]);

    let mut input = hello(3, b"");
    input.extend_from_slice(&frame(2, 9, 0, 0, &[]));
    let t = serve(&Registry::single(plain(16)), &mut store, &input);
    let mut expected = encode_greeting();
    expected.extend_from_slice(&[0, 0, 0, 0, 0, 0, 0, 16, 0, 1]);
    assert_eq!(t, Transcript { output: expected, end: End::Disconnected });
    assert_eq!(store.bytes(), &[5; 16][..]);
}

#[test]
fn abort_during_negotiation_never_reaches_the_store() {
    let mut store = MemStore::from_bytes(vec![5; 16]);
    let mut input = 3u32.to_be_bytes().to_vec();
    input.extend_from_slice(&encode_option(OPT_ABORT, b"").unwrap());
    input.extend_from_slice(&frame(1, 1, 0, 4, &[1, 2, 3, 4]));
    let t = serve(&Registry::single(plain(16)), &mut store, &input);
    let mut expected = encode_greeting();
    expected.extend_from_slice(&[
        0x00, 0x03, 0xe8, 0x89, 0x04, 0x55, 0x65, 0xa9, 0, 0, 0, 2, 0, 0, 0, 1, 0, 0, 0, 0,
    ]);
    assert_eq!(t, Transcript { output: expected, end: End::Aborted });
    assert_eq!(store.bytes(), &[5; 16][..]);
}

#[test]
fn unregistered_export_name_closes_without_size_or_flags() {
    let mut registry = Registry::new();
    assert!(registry.register(b"disk".to_vec(), plain(16)));
    let mut store = MemStore::from_bytes(vec![5; 16]);
    let mut input = hello(3, b"floppy");
    input.extend_from_slice(&frame(1, 1, 0, 4, &[1, 2, 3, 4]));
    let t = serve(&registry, &mut store, &input);
    assert_eq!(
        t,
        Transcript { output: encode_greeting(), end: End::Failed(Fault::UnknownExport) }
    );
    assert_eq!(store.bytes(), &[5; 16][..]);
}

#[test]
fn whole_connection_write_then_read() {
    let mut store = MemStore::new(1024);
    let mut input = hello(1, b"disk");
    input.extend_from_slice(&frame(1, 1, 0, 16, &[0xaa; 16]));
    input.extend_from_slice(&frame(0, 2, 0, 16, &[]));
    input.extend_from_slice(&frame(2, 3, 0, 0, &[]));
    let t = serve(&Registry::single(plain(1024)), &mut store, &input);
    let mut expected = encode_greeting();
    expected.extend_from_slice(&[0, 0, 0, 0, 0, 0, 4, 0, 0, 1]);
    expected.extend_from_slice(&[0; 124]);
    expected.extend_from_slice(&reply(0, 1, &[]));
    expected.extend_from_slice(&reply(0, 2, &[0xaa; 16]));
    assert_eq!(t, Transcript { output: expected, end: End::Disconnected });
}

#[test]
fn two_connections_write_apart_and_read_their_own() {
    let export = plain(64);
    let mut store = MemStore::new(64);
    let a_write = transmit(&export, &mut store, &frame(1, 0xa1, 0, 16, &[0xaa; 16]));
    let b_write = transmit(&export, &mut store, &frame(1, 0xb1, 32, 16, &[0xbb; 16]));
    assert_eq!(a_write.output, reply(0, 0xa1, &[]));
    assert_eq!(b_write.output, reply(0, 0xb1, &[]));
    let b_read = transmit(&export, &mut store, &frame(0, 0xb2, 32, 16, &[]));
    let a_read = transmit(&export, &mut store, &frame(0, 0xa2, 0, 16, &[]));
    assert_eq!(a_read.output, reply(0, 0xa2, &[0xaa; 16]));
    assert_eq!(b_read.output, reply(0, 0xb2, &[0xbb; 16]));

    let mut other_order = MemStore::new(64);
    transmit(&export, &mut other_order, &frame(1, 0xb1, 32, 16, &[0xbb; 16]));
    transmit(&export, &mut other_order, &frame(1, 0xa1, 0, 16, &[0xaa; 16]));
    assert_eq!(store.bytes(), other_order.bytes());
}

#[test]
fn wrong_magic_ends_the_connection_after_the_replies_before_it() {
    let mut store = MemStore::new(16);
    let mut input = frame(0, 1, 0, 2, &[]);
    let mut broken = frame(0, 2, 0, 2, &[]);
    broken[0] = 0;
    input.extend_from_slice(&broken);
    input.extend_from_slice(&frame(0, 3, 0, 2, &[]));
    let t = transmit(&plain(16), &mut store, &input);
    assert_eq!(t, Transcript { output: reply(0, 1, &[0, 0]), end: End::Failed(Fault::BadMagic) });
}

#[test]
fn stream_that_stops_inside_a_header_is_truncated() {
    let mut store = MemStore::new(16);
    let mut input = frame(0, 1, 0, 2, &[]);
    input.extend_from_slice(&frame(0, 2, 0, 2, &[])[..27]);
    let t = transmit(&plain(16), &mut store, &input);
    assert_eq!(t, Transcript { output: reply(0, 1, &[0, 0]), end: End::Failed(Fault::Truncated) });
}

#[test]
fn stream_that_stops_inside_a_payload_is_truncated_and_nothing_is_written() {
    let mut store = MemStore::new(16);
    let input = frame(1, 1, 0, 8, &[9; 7]);
    let t = transmit(&plain(16), &mut store, &input);
    assert_eq!(t, Transcript { output: vec![], end: End::Failed(Fault::Truncated) });
    assert_eq!(store.bytes(), &[0; 16][..]);
}

#[test]
fn payload_of_a_refused_write_is_skipped() {
    let mut store = MemStore::new(16);
    let mut input = frame(1, 1, 12, 8, &[0x25, 0x60, 0x95, 0x13, 0, 0, 0, 2]);
    input.extend_from_slice(&frame(0, 2, 0, 2, &[]));
    let t = transmit(&plain(16), &mut store, &input);
    let mut expected = reply(22, 1, &[]);
    expected.extend_from_slice(&reply(0, 2, &[0, 0]));
    assert_eq!(t, Transcript { output: expected, end: End::Closed });

    let readonly = Export { readonly: true, ..plain(16) };
    let t = transmit(&readonly, &mut store, &input);
    let mut expected = reply(1, 1, &[]);
    expected.extend_from_slice(&reply(0, 2, &[0, 0]));
    assert_eq!(t, Transcript { output: expected, end: End::Closed });
    assert_eq!(store.bytes(), &[0; 16][..]);
}

#[test]
fn the_connection_stays_open_after_an_error_reply() {
    let mut store = MemStore::from_bytes(vec![8; 4]);
    let mut input = frame(99, 1, 0, 0, &[]);
    input.extend_from_slice(&frame(4, 2, 0, 4, &[]));
    input.extend_from_slice(&frame(3, 3, 0, 0, &[]));
    input.extend_from_slice(&frame(0, 4, 4, 1, &[]));
    input.extend_from_slice(&frame(0, 5, 0, 4, &[]));
    let t = transmit(&plain(4), &mut store, &input);
    let mut expected = reply(22, 1, &[]);
    expected.extend_from_slice(&reply(38, 2, &[]));
    expected.extend_from_slice(&reply(38, 3, &[]));
    expected.extend_from_slice(&reply(22, 4, &[]));
    expected.extend_from_slice(&reply(0, 5, &[8; 4]));
    assert_eq!(t, Transcript { output: expected, end: End::Closed });
}

#[test]
fn store_failure_ends_the_connection_without_a_reply() {
    let mut store = MemStore::new(8);
    let mut input = frame(0, 1, 0, 8, &[]);
    input.extend_from_slice(&frame(0, 2, 8, 8, &[]));
    input.extend_from_slice(&frame(0, 3, 0, 8, &[]));
    let t = transmit(&plain(16), &mut store, &input);
    assert_eq!(t, Transcript { output: reply(0, 1, &[0; 8]), end: End::Failed(Fault::Store) });
}

#[test]
fn reply_header_of_the_first_reply_parses() {
    let mut store = MemStore::new(8);
    let t = transmit(&plain(8), &mut store, &frame(0, 0x0123_4567_89ab_cdef, 0, 8, &[]));
    assert_eq!(
        decode_reply(&t.output),
        Ok(ReplyHeader { error: 0, handle: 0x0123_4567_89ab_cdef })
    );
    assert_eq!(t.output.len(), 24);
}
