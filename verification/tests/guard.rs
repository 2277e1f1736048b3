//! The `can_handle` guard: which segments the engine implements, and which
//! would reach an unimplemented transition and must be refused up front.

use trust::conn::{Connection, State};
use trust::wire::{Ipv4Repr, TcpHeaderRepr};

fn iph() -> Ipv4Repr {
    Ipv4Repr { source: 0x0a00_0001, destination: 0x0a00_0002, payload_len: 20, time_to_live: 64 }
}

fn tcph(seq: u32, ack: u32, syn: bool, ack_flag: bool, fin: bool) -> TcpHeaderRepr {
    TcpHeaderRepr {
        source_port: 55000,
        destination_port: 4000,
        sequence_number: seq,
        acknowledgment_number: ack,
        window_size: 1024,
        checksum: 0,
        syn,
        ack: ack_flag,
        fin,
        rst: false,
    }
}

fn established() -> Connection {
    let (mut c, _) = Connection::accept(&iph(), &tcph(1000, 0, true, false, false), 0).unwrap();
    let empty: Vec<u8> = Vec::new();
    let (_, _) = c.on_packet(&tcph(1001, 1, false, true, false), &empty, 100);
    assert_eq!(c.state, State::Estab);
    c
}

/// Ordinary data and ACK segments are handled.
#[test]
fn plain_segments_are_handled() {
    let c = established();
    assert!(c.can_handle(&tcph(1001, 1, false, true, false), 5));
    assert!(c.can_handle(&tcph(1001, 1, false, true, false), 0));
}

/// An acceptable FIN in Estab reaches a transition this engine does not
/// implement: the guard refuses it.
#[test]
fn fin_in_estab_is_refused() {
    let c = established();
    assert!(!c.can_handle(&tcph(1001, 1, false, true, true), 0));
}

/// A FIN in FinWait2 is the one implemented FIN handling: accepted.
#[test]
fn fin_in_fin_wait_2_is_handled() {
    let mut c = established();
    c.close().unwrap();
    let _ = c.on_tick(1500).expect("the tick emits the FIN");
    let empty: Vec<u8> = Vec::new();
    let (_, _) = c.on_packet(&tcph(1001, 2, false, true, false), &empty, 1600);
    assert_eq!(c.state, State::FinWait2);
    assert!(c.can_handle(&tcph(1001, 2, false, true, true), 0));
}

/// A bare SYN carrying payload violates the engine's assumption and is
/// refused; without payload it is handled.
#[test]
fn bare_syn_with_data_is_refused() {
    let c = established();
    assert!(!c.can_handle(&tcph(1001, 0, true, false, false), 3));
    assert!(c.can_handle(&tcph(1001, 0, true, false, false), 0));
}

/// Unacceptable segments are always handled (they only draw a bare ACK),
/// FIN bit or not.
#[test]
fn unacceptable_segments_are_always_handled() {
    let c = established();
    assert!(c.can_handle(&tcph(900, 1, false, true, true), 0));
}
