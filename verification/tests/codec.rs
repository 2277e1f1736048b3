//! The header codec path: the emit/parse round trip, and cross-checks of the
//! emitted wire bytes (field placement, IPv4 totals, TCP checksum) against an
//! independent reading of the frame.

use trust::conn::Connection;
use trust::wire::{tcp_header_round_trip, Ipv4Repr, TcpHeaderRepr};

fn sample_header() -> TcpHeaderRepr {
    TcpHeaderRepr {
        source_port: 4000,
        destination_port: 55000,
        sequence_number: 0xdead_beef,
        acknowledgment_number: 0x0102_0304,
        window_size: 777,
        checksum: 0xabcd,
        syn: true,
        ack: true,
        fin: false,
        rst: false,
    }
}

/// Emitting a TCP header and re-parsing the bytes yields identical fields,
/// the checksum field included.
#[test]
fn tcp_header_round_trips() {
    let h = sample_header();
    assert_eq!(tcp_header_round_trip(&h), Some(h));
    let h2 = TcpHeaderRepr { syn: false, fin: true, rst: true, checksum: 0, ..h };
    assert_eq!(tcp_header_round_trip(&h2), Some(h2));
}

fn handshake_frames() -> Vec<Vec<u8>> {
    let iph = Ipv4Repr {
        source: 0xc0a8_0101,
        destination: 0xc0a8_0102,
        payload_len: 20,
        time_to_live: 64,
    };
    let syn = TcpHeaderRepr {
        source_port: 61000,
        destination_port: 443,
        sequence_number: 31337,
        acknowledgment_number: 0,
        window_size: 2048,
        checksum: 0,
        syn: true,
        ack: false,
        fin: false,
        rst: false,
    };
    let (mut c, syn_ack) = Connection::accept(&iph, &syn, 0).expect("a SYN opens a connection");
    let ack = TcpHeaderRepr { sequence_number: 31338, acknowledgment_number: 1, syn: false, ack: true, ..syn };
    let empty: Vec<u8> = Vec::new();
    let (_, _) = c.on_packet(&ack, &empty, 100);
    c.queue_write(b"some payload bytes").expect("the connection is open");
    let data = c.on_tick(200).expect("queued data goes out");
    vec![syn_ack, data]
}

/// Every emitted frame is one IPv4 header, one TCP header, then the payload,
/// with consistent lengths and the TCP protocol number.
#[test]
fn frames_carry_consistent_ipv4_totals() {
    for frame in handshake_frames() {
        let ip = etherparse::Ipv4HeaderSlice::from_slice(&frame).expect("valid IPv4 header");
        assert_eq!(ip.slice().len(), 20);
        assert_eq!(ip.version(), 4);
        assert_eq!(ip.protocol(), etherparse::IpTrafficClass::Tcp as u8);
        assert_eq!(ip.ttl(), 64);
        assert_eq!(ip.payload_len() as usize, frame.len() - 20);
    }
}

/// The TCP checksum written into each emitted frame matches an independent
/// computation over the pseudo-header, the header and the payload.
#[test]
fn frames_carry_correct_tcp_checksums() {
    for frame in handshake_frames() {
        let ip_slice = etherparse::Ipv4HeaderSlice::from_slice(&frame).expect("valid IPv4 header");
        let ip = ip_slice.to_header();
        let tcp_slice =
            etherparse::TcpHeaderSlice::from_slice(&frame[20..]).expect("valid TCP header");
        let tcp = tcp_slice.to_header();
        let payload = &frame[20 + tcp_slice.slice().len()..];
        let expected = tcp.calc_checksum_ipv4(&ip, payload).expect("payload fits");
        assert_eq!(tcp.checksum, expected);
        assert_ne!(tcp.checksum, 0);
    }
}

/// The data frame lays the payload bytes out verbatim after the headers.
#[test]
fn data_frame_carries_payload_verbatim() {
    let frames = handshake_frames();
    let data = &frames[1];
    assert_eq!(&data[40..], b"some payload bytes");
    assert_eq!(data.len(), 40 + 18);
}
