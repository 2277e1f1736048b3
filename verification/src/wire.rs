//! The header codec path: plain-value models of the IPv4 and TCP headers the
//! engine reads and writes, and the serialization, parsing and checksum calls
//! into etherparse behind trusted contracts.
//!
//! Every frame the engine emits is `IPv4 header ++ TCP header ++ payload`,
//! with the default 20-byte headers and no options; the concatenation itself
//! is assembled in verified code.

use vstd::prelude::*;

verus! {

/// The fields of an IPv4 header that the engine sets. The addresses are kept
/// as big-endian `u32` values (`a.b.c.d` is `a<<24 | b<<16 | c<<8 | d`); the
/// protocol is always TCP and the header carries no options.
#[derive(Clone, Copy, Debug, PartialEq, Eq, Structural)]
pub struct Ipv4Repr {
    pub source: u32,
    pub destination: u32,
    /// Length in bytes of everything after the IPv4 header (TCP header plus
    /// TCP payload).
    pub payload_len: u16,
    pub time_to_live: u8,
}

/// The fields of a TCP header that the engine reads or sets. Flags other than
/// SYN, ACK, FIN and RST are never set on emitted segments and are ignored on
/// inbound ones.
#[derive(Clone, Copy, Debug, PartialEq, Eq, Structural)]
pub struct TcpHeaderRepr {
    pub source_port: u16,
    pub destination_port: u16,
    pub sequence_number: u32,
    pub acknowledgment_number: u32,
    pub window_size: u16,
    pub checksum: u16,
    pub syn: bool,
    pub ack: bool,
    pub fin: bool,
    pub rst: bool,
}

/// The serialized 20-byte TCP header holding exactly the fields of `h`
/// (defaults everywhere else), as etherparse writes it.
pub uninterp spec fn tcp_wire_of(h: TcpHeaderRepr) -> Seq<u8>;

/// The serialized 20-byte IPv4 header holding the fields of `ip`, protocol
/// TCP, with its header checksum filled in, as etherparse writes it.
pub uninterp spec fn ipv4_wire_of(ip: Ipv4Repr) -> Seq<u8>;

/// The TCP checksum over the IPv4 pseudo-header of `ip`, the header fields of
/// `h`, and `payload`. The stored checksum field does not enter the sum, so
/// the name is only ever applied to headers whose checksum field is zero.
pub uninterp spec fn tcp_checksum_of(ip: Ipv4Repr, h: TcpHeaderRepr, payload: Seq<u8>) -> u16;

/// `h` with its checksum field replaced.
pub open spec fn with_checksum(h: TcpHeaderRepr, checksum: u16) -> TcpHeaderRepr {
    TcpHeaderRepr { checksum, ..h }
}

/// Relies on `etherparse::TcpHeader::write`: serializes the header fields
/// (data offset 5, so exactly 20 bytes, and a write into a `Vec` cannot
/// fail); fields absent from the repr keep `TcpHeader::new`'s defaults.
#[verifier::external_body]
pub(crate) fn tcp_header_bytes(h: &TcpHeaderRepr) -> (r: Vec<u8>)
    ensures
        r@ == tcp_wire_of(*h),
        r@.len() == 20,
{
    let mut t = etherparse::TcpHeader::new(
        h.source_port, h.destination_port, h.sequence_number, h.window_size);
    t.acknowledgment_number = h.acknowledgment_number;
    t.checksum = h.checksum;
    t.syn = h.syn;
    t.ack = h.ack;
    t.fin = h.fin;
    t.rst = h.rst;
    let mut r = Vec::new();
    t.write(&mut r).expect("writing to a Vec cannot fail");
    r
}

/// Relies on `etherparse::Ipv4Header::write`: serializes the 20-byte header
/// (protocol TCP, no options), computing the IPv4 header checksum. The
/// payload length must leave room for the header in the 16-bit total-length
/// field, or etherparse refuses to write.
#[verifier::external_body]
pub(crate) fn ipv4_header_bytes(ip: &Ipv4Repr) -> (r: Vec<u8>)
    requires
        ip.payload_len <= 65515,
    ensures
        r@ == ipv4_wire_of(*ip),
        r@.len() == 20,
{
    let h = etherparse::Ipv4Header::new(
        ip.payload_len,
        ip.time_to_live,
        etherparse::IpTrafficClass::Tcp,
        ip.source.to_be_bytes(),
        ip.destination.to_be_bytes(),
    );
    let mut r = Vec::new();
    h.write(&mut r).expect("a 20-byte header with a small payload length is in range");
    r
}

/// Relies on `etherparse::TcpHeader::calc_checksum_ipv4_raw`: computes the
/// TCP checksum from the two addresses, the header fields (the stored
/// checksum field is skipped) and the payload. It refuses a payload that
/// would not fit the 16-bit TCP length of the pseudo-header.
#[verifier::external_body]
pub(crate) fn tcp_checksum(ip: &Ipv4Repr, h: &TcpHeaderRepr, payload: &[u8]) -> (r: u16)
    requires
        payload@.len() + 20 <= 65535,
    ensures
        r == tcp_checksum_of(*ip, with_checksum(*h, 0), payload@),
{
    let mut t = etherparse::TcpHeader::new(
        h.source_port, h.destination_port, h.sequence_number, h.window_size);
    t.acknowledgment_number = h.acknowledgment_number;
    t.syn = h.syn;
    t.ack = h.ack;
    t.fin = h.fin;
    t.rst = h.rst;
    t.calc_checksum_ipv4_raw(ip.source.to_be_bytes(), ip.destination.to_be_bytes(), payload)
        .expect("the payload fits the 16-bit TCP length")
}

/// Relies on `etherparse::TcpHeaderSlice::from_slice`: checks the length and
/// data offset, then reads each field back out of the wire bytes; on the
/// exact output of `TcpHeader::write` for some repr it returns that repr's
/// fields (fields absent from the repr were written as defaults).
#[verifier::external_body]
pub(crate) fn parse_tcp_header(b: &[u8]) -> (r: Option<TcpHeaderRepr>)
    ensures
        forall|h: TcpHeaderRepr| b@ == #[trigger] tcp_wire_of(h) ==> r == Some(h),
{
    match etherparse::TcpHeaderSlice::from_slice(b) {
        Ok(s) => Some(TcpHeaderRepr {
            source_port: s.source_port(),
            destination_port: s.destination_port(),
            sequence_number: s.sequence_number(),
            acknowledgment_number: s.acknowledgment_number(),
            window_size: s.window_size(),
            checksum: s.checksum(),
            syn: s.syn(),
            ack: s.ack(),
            fin: s.fin(),
            rst: s.rst(),
        }),
        Err(_) => None,
    }
}

/// Law: emitting a TCP header and re-parsing the bytes yields the identical
/// fields, the checksum field included.
pub fn tcp_header_round_trip(h: &TcpHeaderRepr) -> (r: Option<TcpHeaderRepr>)
    ensures
        r == Some(*h),
{
    let bytes = tcp_header_bytes(h);
    parse_tcp_header(bytes.as_slice())
}

/// An emitted wire frame: the IPv4 header, the TCP header, then the payload.
pub open spec fn frame_bytes(ip: Ipv4Repr, h: TcpHeaderRepr, payload: Seq<u8>) -> Seq<u8> {
    ipv4_wire_of(ip) + tcp_wire_of(h) + payload
}

/// Assembles a frame from its already-serialized parts in verified code.
pub(crate) fn assemble_frame(ip: &Ipv4Repr, h: &TcpHeaderRepr, payload: &[u8]) -> (r: Vec<u8>)
    requires
        ip.payload_len <= 65515,
    ensures
        r@ == frame_bytes(*ip, *h, payload@),
{
    let mut r = ipv4_header_bytes(ip);
    let t = tcp_header_bytes(h);
    r.extend_from_slice(t.as_slice());
    r.extend_from_slice(payload);
    assert(r@ == frame_bytes(*ip, *h, payload@));
    r
}

} // verus!
