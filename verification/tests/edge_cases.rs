//! Boundary behavior: a retransmitted FIN whose data was already consumed,
//! and a connection whose sequence numbers cross the 2^32 wrap.

use trust::conn::{Connection, State};
use trust::wire::{Ipv4Repr, TcpHeaderRepr};

fn iph() -> Ipv4Repr {
    Ipv4Repr { source: 0x0a00_0001, destination: 0x0a00_0002, payload_len: 20, time_to_live: 64 }
}

fn tcph(seq: u32, ack: u32, syn: bool, ack_flag: bool, fin: bool) -> TcpHeaderRepr {
    TcpHeaderRepr {
        source_port: 55000,
        destination_port: 4000,
        sequence_number: seq,
        acknowledgment_number: ack,
        window_size: 1024,
        checksum: 0,
        syn,
        ack: ack_flag,
        fin,
        rst: false,
    }
}

fn fin_wait_2_with_consumed_data() -> Connection {
    // reach FinWait2: handshake, data, close, FIN out, FIN acked
    let (mut c, _) = Connection::accept(&iph(), &tcph(1000, 0, true, false, false), 0).unwrap();
    let empty: Vec<u8> = Vec::new();
    let (_, _) = c.on_packet(&tcph(1001, 1, false, true, false), &empty, 100);
    let (_, _) = c.on_packet(&tcph(1001, 1, false, true, false), b"hello", 200);
    c.close().unwrap();
    let _ = c.on_tick(300).expect("the tick emits the FIN");
    let (_, _) = c.on_packet(&tcph(1006, 2, false, true, false), &empty, 400);
    assert_eq!(c.state, State::FinWait2);
    assert_eq!(c.read_available(512), b"hello".to_vec());
    assert_eq!(c.recv.nxt, 1006);
    c
}

/// A segment landing one virtual byte past its payload (a retransmitted FIN
/// whose data was already consumed) delivers nothing, leaves RCV.NXT in
/// place, and only draws a fresh acknowledgment.
#[test]
fn retransmitted_fin_skip_path_delivers_nothing() {
    let mut c = fin_wait_2_with_consumed_data();
    let empty: Vec<u8> = Vec::new();
    // a SYN+FIN+ACK probe whose only in-window byte is its virtual FIN:
    // skip works out to payload_len + 1
    let (_, out) = c.on_packet(&tcph(1005, 2, true, true, true), &empty, 500);
    assert_eq!(c.state, State::FinWait2);
    assert_eq!(c.recv.nxt, 1006);
    assert!(c.read_available(512).is_empty());
    assert_eq!(out.len(), 1);
    let ack = etherparse::TcpHeaderSlice::from_slice(&out[0][20..]).unwrap();
    assert!(ack.ack());
    assert_eq!(ack.acknowledgment_number(), 1006);
}

/// The same path with payload: a segment whose bytes all lie below RCV.NXT
/// re-delivers none of them.
#[test]
fn consumed_bytes_are_never_delivered_twice() {
    let mut c = fin_wait_2_with_consumed_data();
    // three already-consumed bytes plus the virtual SYN and FIN: the last
    // virtual byte lands exactly on RCV.NXT, so the segment is acceptable
    // and skip works out to payload_len + 1
    let (_, out) = c.on_packet(&tcph(1002, 2, true, true, true), b"llo", 600);
    assert_eq!(c.state, State::FinWait2);
    assert_eq!(c.recv.nxt, 1006);
    assert!(c.read_available(512).is_empty());
    assert_eq!(out.len(), 1);
}

/// A connection whose peer ISN sits ten below 2^32 moves 100 bytes across
/// the wrap: every segment passes the acceptability checks and the data
/// arrives intact and in order.
#[test]
fn sequence_numbers_cross_the_wrap() {
    let isn: u32 = u32::MAX - 9;  // 2^32 - 10
    let (mut c, _) = Connection::accept(&iph(), &tcph(isn, 0, true, false, false), 0).unwrap();
    assert_eq!(c.recv.nxt, isn.wrapping_add(1));
    let empty: Vec<u8> = Vec::new();
    let (_, _) = c.on_packet(&tcph(isn.wrapping_add(1), 1, false, true, false), &empty, 100);
    assert_eq!(c.state, State::Estab);

    // 60 bytes up to and across the wrap, then 40 more
    let chunk1: Vec<u8> = (0u8..60).collect();
    let (avail, out) = c.on_packet(&tcph(isn.wrapping_add(1), 1, false, true, false), &chunk1, 200);
    assert!(avail.read);
    assert_eq!(out.len(), 1);
    assert_eq!(c.recv.nxt, isn.wrapping_add(61));
    assert_eq!(c.recv.nxt, 51);  // wrapped: 2^32 - 10 + 61 = 51 (mod 2^32)

    let chunk2: Vec<u8> = (60u8..100).collect();
    let (_, out2) = c.on_packet(&tcph(51, 1, false, true, false), &chunk2, 300);
    assert_eq!(out2.len(), 1);
    assert_eq!(c.recv.nxt, 91);

    let got = c.read_available(512);
    let want: Vec<u8> = (0u8..100).collect();
    assert_eq!(got, want);
}

/// A fully retransmitted data segment delivers only the unseen suffix.
#[test]
fn overlapping_retransmission_delivers_only_new_bytes() {
    let (mut c, _) = Connection::accept(&iph(), &tcph(1000, 0, true, false, false), 0).unwrap();
    let empty: Vec<u8> = Vec::new();
    let (_, _) = c.on_packet(&tcph(1001, 1, false, true, false), &empty, 100);
    let (_, _) = c.on_packet(&tcph(1001, 1, false, true, false), b"hell", 200);
    assert_eq!(c.recv.nxt, 1005);
    // the peer resends the same four bytes plus one new one
    let (_, _) = c.on_packet(&tcph(1001, 1, false, true, false), b"hello", 300);
    assert_eq!(c.recv.nxt, 1006);
    assert_eq!(c.read_available(512), b"hello".to_vec());
}

/// A segment wholly past RCV.NXT is dropped: no data, no ACK, no state
/// change. Only in-order data is accepted.
#[test]
fn out_of_order_segment_is_dropped() {
    let (mut c, _) = Connection::accept(&iph(), &tcph(1000, 0, true, false, false), 0).unwrap();
    let empty: Vec<u8> = Vec::new();
    let (_, _) = c.on_packet(&tcph(1001, 1, false, true, false), &empty, 100);
    // in the window, but two bytes past the expected sequence number
    let (avail, out) = c.on_packet(&tcph(1003, 1, false, true, false), b"xyz", 200);
    assert!(out.is_empty());
    assert!(!avail.read);
    assert_eq!(c.recv.nxt, 1001);
    assert!(c.read_available(512).is_empty());
}

/// A partial read hands out the prefix in order and keeps the rest.
#[test]
fn partial_reads_preserve_order() {
    let (mut c, _) = Connection::accept(&iph(), &tcph(1000, 0, true, false, false), 0).unwrap();
    let empty: Vec<u8> = Vec::new();
    let (_, _) = c.on_packet(&tcph(1001, 1, false, true, false), &empty, 100);
    let (_, _) = c.on_packet(&tcph(1001, 1, false, true, false), b"abcdef", 200);
    assert_eq!(c.read_available(2), b"ab".to_vec());
    assert!(c.availability().read);
    assert_eq!(c.read_available(3), b"cde".to_vec());
    assert_eq!(c.read_available(100), b"f".to_vec());
    assert!(c.read_available(100).is_empty());
    assert!(!c.availability().read);
}
