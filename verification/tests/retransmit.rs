//! The retransmission scheduler: the timer condition (over one second and
//! over one and a half times SRTT), resending data from SND.UNA, and
//! re-emitting the FIN without moving `closed_at`.

use trust::conn::{Connection, State};
use trust::wire::{Ipv4Repr, TcpHeaderRepr};

fn iph() -> Ipv4Repr {
    Ipv4Repr { source: 0x0a00_0001, destination: 0x0a00_0002, payload_len: 20, time_to_live: 64 }
}

fn tcph(seq: u32, ack: u32, syn: bool, ack_flag: bool, fin: bool) -> TcpHeaderRepr {
    TcpHeaderRepr {
        source_port: 55000,
        destination_port: 4000,
        sequence_number: seq,
        acknowledgment_number: ack,
        window_size: 1024,
        checksum: 0,
        syn,
        ack: ack_flag,
        fin,
        rst: false,
    }
}

fn parse_tcp(frame: &[u8]) -> (etherparse::TcpHeader, Vec<u8>) {
    let ip = etherparse::Ipv4HeaderSlice::from_slice(frame).expect("valid IPv4 header");
    let ip_len = ip.slice().len();
    let tcp = etherparse::TcpHeaderSlice::from_slice(&frame[ip_len..]).expect("valid TCP header");
    let tcp_len = tcp.slice().len();
    (tcp.to_header(), frame[ip_len + tcp_len..].to_vec())
}

fn with_data_in_flight() -> Connection {
    let (mut c, _) = Connection::accept(&iph(), &tcph(1000, 0, true, false, false), 0).unwrap();
    let empty: Vec<u8> = Vec::new();
    let (_, _) = c.on_packet(&tcph(1001, 1, false, true, false), &empty, 1000);
    c.queue_write(b"hi").unwrap();
    let _ = c.on_tick(2000).expect("new data goes out");
    c
}

/// Before both thresholds have passed, the tick does not retransmit (and
/// with nothing new to send and the window open it sends nothing at all,
/// since `unsent` is zero).
#[test]
fn no_retransmission_before_timeout() {
    let mut c = with_data_in_flight();
    // 58 s after the send: over one second, but under 1.5 * SRTT
    // (the handshake sample left SRTT at 48.2 s, so the bar is 72.3 s)
    if let Some(frame) = c.on_tick(60_000) {
        let (h, payload) = parse_tcp(&frame);
        // whatever goes out is not a retransmission of seq 1
        assert!(payload.is_empty());
        assert_eq!(h.sequence_number, 3);
    }
    assert_eq!(c.send.nxt, 3);
}

/// Once the oldest outstanding send time has waited out both thresholds,
/// the tick resends everything unacknowledged starting at SND.UNA.
#[test]
fn data_is_retransmitted_from_una() {
    let mut c = with_data_in_flight();
    // well past 1.5 * SRTT (72.3 s) after the send at t=2 s
    let frame = c.on_tick(95_000).expect("the retransmission goes out");
    let (h, payload) = parse_tcp(&frame);
    assert_eq!(h.sequence_number, 1);
    assert_eq!(payload, b"hi".to_vec());
    assert_eq!(c.send.una, 1);
    assert_eq!(c.send.nxt, 3);
}

/// A retransmitted FIN keeps its sequence number: `closed_at`, once set, is
/// never cleared or moved while the FIN is outstanding.
#[test]
fn fin_is_retransmitted_at_the_same_sequence_number() {
    let mut c = with_data_in_flight();
    let empty: Vec<u8> = Vec::new();
    // the peer ACKs the two bytes; the user closes; the FIN goes out
    let (_, _) = c.on_packet(&tcph(1001, 3, false, true, false), &empty, 2500);
    c.close().unwrap();
    let fin_frame = c.on_tick(3000).expect("the tick emits the FIN");
    let (h, _) = parse_tcp(&fin_frame);
    assert!(h.fin);
    assert_eq!(h.sequence_number, 3);
    assert_eq!(c.closed_at, Some(3));
    assert_eq!(c.state, State::FinWait1);

    // the FIN is not acknowledged; much later the timer fires again
    let again = c.on_tick(180_000).expect("the FIN is retransmitted");
    let (h2, payload2) = parse_tcp(&again);
    assert!(h2.fin);
    assert_eq!(h2.sequence_number, 3);
    assert!(payload2.is_empty());
    assert_eq!(c.closed_at, Some(3));
    assert_eq!(c.state, State::FinWait1);
    assert_eq!(c.send.nxt, 4);
}

/// Once the FIN itself is acknowledged, a due retransmission timer neither
/// moves `closed_at` nor emits another FIN: the empty segment that goes out
/// carries no FIN bit.
#[test]
fn no_second_fin_after_the_fin_is_acked() {
    let mut c = with_data_in_flight();
    let empty: Vec<u8> = Vec::new();
    let (_, _) = c.on_packet(&tcph(1001, 3, false, true, false), &empty, 2500);
    c.close().unwrap();
    let _ = c.on_tick(3000).expect("the tick emits the FIN");
    assert_eq!(c.closed_at, Some(3));
    // the peer acknowledges the FIN
    let (_, _) = c.on_packet(&tcph(1006, 4, false, true, false), &empty, 3500);
    assert_eq!(c.state, State::FinWait2);
    assert_eq!(c.send.una, 4);
    // an ordinary in-window segment draws an ACK, whose send-time entry at
    // SND.NXT will later make the retransmission timer fire
    let (_, _) = c.on_packet(&tcph(1001, 4, false, true, false), &empty, 3600);
    // much later that entry makes the timer fire
    let frame = c.on_tick(200_000).expect("the due tick still emits a segment");
    let (h, payload) = parse_tcp(&frame);
    assert!(!h.fin);
    assert!(payload.is_empty());
    assert_eq!(h.sequence_number, 4);
    assert_eq!(c.closed_at, Some(3));
    assert_eq!(c.send.nxt, 4);
    assert_eq!(c.state, State::FinWait2);
}

/// `send_rst` emits a segment with the RST bit set at the current SND.NXT.
#[test]
fn send_rst_sets_the_rst_bit() {
    let mut c = with_data_in_flight();
    let frame = c.send_rst(2600);
    let (h, payload) = parse_tcp(&frame);
    assert!(h.rst);
    assert!(payload.is_empty());
    assert_eq!(h.sequence_number, 3);
}
