//! The per-connection TCP engine: the state machine driving the three-way
//! handshake and teardown, the send/receive sequence spaces of RFC 793 with
//! their modular-arithmetic window checks, the receive and retransmission
//! buffers, and the segment emission path.
//!
//! The engine performs no I/O: `accept`, `on_packet` and `on_tick` return the
//! wire frames to transmit, and the caller owns the tunnel device and the
//! clock (times are passed in as milliseconds).

use vstd::prelude::*;

use crate::seq_space::{
    in_between_wrapped, lemma_dist_add_chain, lemma_dist_inj, lemma_dist_pred, lemma_dist_sub,
    lemma_dist_sub_wrap, lemma_ring_lt, lemma_wadd_nat_step, lemma_wadd_nat_zero,
    lemma_wrapping_lt_dist, spec_in_between_wrapped, spec_wrapping_lt, wadd_nat, wrapping_lt,
};
use crate::timer::{
    acked_key, lemma_drain_entries, lemma_insert_entries, sat_sub, sorted_by_key, spec_drain,
    spec_insert, spec_oldest_from, Timers,
};
use crate::wire::{
    assemble_frame, frame_bytes, tcp_checksum, tcp_checksum_of, with_checksum, Ipv4Repr,
    TcpHeaderRepr,
};

verus! {

/// The most payload one segment can carry: the 1500-byte MTU minus the two
/// 20-byte headers.
pub const MAX_SEGMENT_PAYLOAD: usize = 1460;

/// The window this end advertises, and the send window assumed until the
/// peer updates it.
pub const INITIAL_WINDOW: u16 = 1024;

/// Time-to-live of every emitted IPv4 frame.
pub const DEFAULT_TTL: u8 = 64;

/// The connection states this engine implements. Closed and Listen are not
/// represented: absence of a `Connection` means closed, and listening is the
/// demultiplexer's pending-queue per bound port.
#[derive(Clone, Copy, Debug, PartialEq, Eq, Structural)]
pub enum State {
    SynRcvd,
    Estab,
    FinWait1,
    FinWait2,
    TimeWait,
}

impl State {
    /// Every state but SynRcvd has completed the handshake.
    pub open spec fn spec_is_synchronized(&self) -> bool {
        !(self is SynRcvd)
    }

    #[verifier::when_used_as_spec(spec_is_synchronized)]
    pub fn is_synchronized(&self) -> (r: bool)
        ensures
            r == self.spec_is_synchronized(),
    {
        match *self {
            State::SynRcvd => false,
            State::Estab | State::FinWait1 | State::FinWait2 | State::TimeWait => true,
        }
    }
}

/// What would not block right now: `read` is set when received data is
/// waiting or the receive side is closed. `write` is reserved and never set.
#[derive(Clone, Copy, Debug, PartialEq, Eq, Structural)]
pub struct Available {
    pub read: bool,
    pub write: bool,
}

/// The error surfaced for user misuse, such as closing a connection that is
/// already torn down or writing after shutdown.
#[derive(Clone, Copy, Debug, PartialEq, Eq, Structural)]
pub enum TcpError {
    NotConnected,
}

/// The send sequence space of RFC 793: `una <= nxt <= una + wnd` on the ring.
/// `up`, `wl1` and `wl2` are tracked but not acted on.
#[derive(Clone, Copy, Debug, PartialEq, Eq, Structural)]
pub struct SendSequenceSpace {
    /// oldest unacknowledged sequence number
    pub una: u32,
    /// next sequence number to be sent
    pub nxt: u32,
    /// send window
    pub wnd: u16,
    /// send urgent pointer
    pub up: bool,
    /// sequence number of the last window update
    pub wl1: usize,
    /// acknowledgment number of the last window update
    pub wl2: usize,
    /// initial send sequence number
    pub iss: u32,
}

/// The receive sequence space of RFC 793: the byte at `nxt` is the next one
/// expected.
#[derive(Clone, Copy, Debug, PartialEq, Eq, Structural)]
pub struct RecvSequenceSpace {
    /// next expected sequence number
    pub nxt: u32,
    /// receive window
    pub wnd: u16,
    /// receive urgent pointer
    pub up: bool,
    /// initial receive sequence number
    pub irs: u32,
}

/// One TCP connection: its state, sequence spaces, header templates (mutated
/// in place between sends), buffers, shutdown bookkeeping and timers.
///
/// `delivered` is ghost bookkeeping: how many received bytes the user has
/// already taken out of `incoming`.
pub struct Connection {
    pub state: State,
    pub recv: RecvSequenceSpace,
    pub send: SendSequenceSpace,
    pub ip: Ipv4Repr,
    pub tcp: TcpHeaderRepr,
    pub timers: Timers,
    /// bytes received in order and not yet read by the user
    pub incoming: Vec<u8>,
    /// bytes written by the user and not yet acknowledged
    pub unacked: Vec<u8>,
    /// the user has shut the write side down
    pub closed: bool,
    /// the sequence number of the virtual FIN byte, once scheduled
    pub closed_at: Option<u32>,
    pub delivered: Ghost<nat>,
}

/// Segment length: payload bytes plus one for SYN and one for FIN.
pub open spec fn spec_slen(payload_len: nat, syn: bool, fin: bool) -> nat {
    payload_len + (if syn {
        1nat
    } else {
        0nat
    }) + (if fin {
        1nat
    } else {
        0nat
    })
}

/// The acceptability test of RFC 793: does the segment overlap the receive
/// window `[RCV.NXT, RCV.NXT + RCV.WND)`?  A zero-length segment at exactly
/// `RCV.NXT` is acceptable even against a zero window; a non-empty segment
/// never is.
pub open spec fn spec_segment_acceptable(rcv_nxt: u32, rcv_wnd: u16, seqn: u32, slen: nat) -> bool {
    let wend = rcv_nxt.wrapping_add(rcv_wnd as u32);
    if slen == 0 {
        if rcv_wnd == 0 {
            seqn == rcv_nxt
        } else {
            spec_in_between_wrapped(rcv_nxt.wrapping_sub(1), seqn, wend)
        }
    } else {
        if rcv_wnd == 0 {
            false
        } else {
            spec_in_between_wrapped(rcv_nxt.wrapping_sub(1), seqn, wend)
                || spec_in_between_wrapped(
                rcv_nxt.wrapping_sub(1),
                seqn.wrapping_add(((slen - 1) as nat) as u32),
                wend,
            )
        }
    }
}

/// Law: against a zero receive window, exactly the empty segment at
/// `RCV.NXT` is acceptable; any other zero-window segment is not.
pub proof fn lemma_zero_window_acceptability(rcv_nxt: u32, seqn: u32, slen: nat)
    ensures
        spec_segment_acceptable(rcv_nxt, 0, seqn, slen) == (slen == 0 && seqn == rcv_nxt),
{
}

/// The executable acceptability check.
pub fn segment_acceptable(
    rcv_nxt: u32,
    rcv_wnd: u16,
    seqn: u32,
    payload_len: usize,
    syn: bool,
    fin: bool,
) -> (r: bool)
    requires
        payload_len + 2 <= u32::MAX,
    ensures
        r == spec_segment_acceptable(
            rcv_nxt,
            rcv_wnd,
            seqn,
            spec_slen(payload_len as nat, syn, fin),
        ),
{
    let mut slen: u32 = payload_len as u32;
    if syn {
        slen = slen + 1;
    }
    if fin {
        slen = slen + 1;
    }
    let wend = rcv_nxt.wrapping_add(rcv_wnd as u32);
    if slen == 0 {
        if rcv_wnd == 0 {
            seqn == rcv_nxt
        } else {
            in_between_wrapped(rcv_nxt.wrapping_sub(1), seqn, wend)
        }
    } else {
        if rcv_wnd == 0 {
            false
        } else {
            in_between_wrapped(rcv_nxt.wrapping_sub(1), seqn, wend) || in_between_wrapped(
                rcv_nxt.wrapping_sub(1),
                seqn.wrapping_add(slen - 1),
                wend,
            )
        }
    }
}

/// Offset into the send buffer where sequence number `seq` starts: normally
/// its distance past SND.UNA. Retransmitting the sequence number just past
/// the virtual FIN is special-cased back to the buffer head (the buffer is
/// drained by then, so no payload comes of it).
pub open spec fn send_offset_of(una: u32, closed_at: Option<u32>, seq: u32) -> nat {
    match closed_at {
        Some(c) => if seq == c.wrapping_add(1) {
            0nat
        } else {
            seq.wrapping_sub(una) as nat
        },
        None => seq.wrapping_sub(una) as nat,
    }
}

/// How much payload one emission carries: at most `limit`, at most what the
/// buffer holds past the offset, and at most one MTU's worth.
pub open spec fn payload_size_of(
    buf_len: nat,
    una: u32,
    closed_at: Option<u32>,
    seq: u32,
    limit: nat,
) -> nat {
    let off = send_offset_of(una, closed_at, seq);
    let avail = if off <= buf_len {
        (buf_len - off) as nat
    } else {
        0nat
    };
    let lim = if limit <= avail {
        limit
    } else {
        avail
    };
    if lim <= MAX_SEGMENT_PAYLOAD as nat {
        lim
    } else {
        MAX_SEGMENT_PAYLOAD as nat
    }
}

/// The payload bytes one emission carries.
pub open spec fn payload_bytes_of(
    buf: Seq<u8>,
    una: u32,
    closed_at: Option<u32>,
    seq: u32,
    limit: nat,
) -> Seq<u8> {
    let off = send_offset_of(una, closed_at, seq);
    let offc = if off <= buf.len() {
        off
    } else {
        buf.len()
    };
    buf.subrange(
        offc as int,
        offc as int + payload_size_of(buf.len(), una, closed_at, seq, limit) as int,
    )
}

/// The TCP header as it goes on the wire: the template with the segment's
/// sequence and acknowledgment numbers, and the checksum over the
/// pseudo-header and payload.
pub open spec fn emitted_header_of(
    ip: Ipv4Repr,
    tpl: TcpHeaderRepr,
    seq: u32,
    rcv_nxt: u32,
    payload: Seq<u8>,
) -> TcpHeaderRepr {
    let h0 = TcpHeaderRepr { sequence_number: seq, acknowledgment_number: rcv_nxt, ..tpl };
    with_checksum(h0, tcp_checksum_of(ip, with_checksum(h0, 0), payload))
}

/// The sequence number just past an emitted segment: its payload plus one for
/// each virtual byte sent.
pub open spec fn next_seq_of(seq: u32, pb: nat, syn: bool, fin: bool) -> u32 {
    let a = seq.wrapping_add(pb as u32);
    let b = if syn {
        a.wrapping_add(1)
    } else {
        a
    };
    if fin {
        b.wrapping_add(1)
    } else {
        b
    }
}

/// An acceptable ACK lies at or before SND.NXT: advancing SND.UNA to it
/// shrinks the in-flight range.
proof fn lemma_ack_advance(una: u32, ackn: u32, nxt: u32, wnd: u16)
    requires
        nxt.wrapping_sub(una) <= wnd,
        spec_in_between_wrapped(una, ackn, nxt.wrapping_add(1)),
    ensures
        ackn.wrapping_sub(una) <= nxt.wrapping_sub(una),
        nxt.wrapping_sub(ackn) == nxt.wrapping_sub(una) - ackn.wrapping_sub(una),
{
    let d_n = nxt.wrapping_sub(una);
    let d_a = ackn.wrapping_sub(una);
    let nxt1 = nxt.wrapping_add(1);
    lemma_wrapping_lt_dist(una, ackn);
    lemma_wrapping_lt_dist(ackn, nxt1);
    lemma_dist_add_chain(una, nxt, 1);
    assert(nxt1.wrapping_sub(una) == d_n + 1);
    if d_a > d_n {
        if d_a == d_n + 1 {
            lemma_dist_inj(una, ackn, nxt1);
            assert(false);
        } else {
            lemma_dist_sub_wrap(una, ackn, nxt1);
            assert(false);
        }
    }
    lemma_dist_sub(una, ackn, nxt);
}

/// A key still in the send-time map after an acceptable ACK stays within the
/// shrunken in-flight window `[ACKN, SND.NXT]`.
proof fn lemma_ack_window_shift(una: u32, ackn: u32, nxt: u32, wnd: u16, k: u32)
    requires
        nxt.wrapping_sub(una) <= wnd,
        spec_in_between_wrapped(una, ackn, nxt.wrapping_add(1)),
        k.wrapping_sub(una) <= nxt.wrapping_sub(una),
        !acked_key(k, una, ackn),
    ensures
        k.wrapping_sub(ackn) <= nxt.wrapping_sub(ackn),
{
    let d_n = nxt.wrapping_sub(una);
    let d_a = ackn.wrapping_sub(una);
    let d_k = k.wrapping_sub(una);
    lemma_ack_advance(una, ackn, nxt, wnd);
    lemma_wrapping_lt_dist(una, ackn);
    // The surviving key lies at or past the acknowledgment.
    if d_k < d_a {
        lemma_wrapping_lt_dist(una.wrapping_sub(1), k);
        lemma_dist_pred(una, k);
        lemma_dist_pred(una, una);
        lemma_wrapping_lt_dist(k, ackn);
        lemma_dist_sub(una, k, ackn);
        assert(acked_key(k, una, ackn));
        assert(false);
    }
    lemma_dist_sub(una, ackn, k);
}

/// Copies `src[from..to]` into a fresh vector.
pub(crate) fn copy_range(src: &Vec<u8>, from: usize, to: usize) -> (r: Vec<u8>)
    requires
        from <= to <= src@.len(),
    ensures
        r@ == src@.subrange(from as int, to as int),
{
    let mut r: Vec<u8> = Vec::new();
    let mut i = from;
    while i < to
        invariant
            from <= i <= to <= src@.len(),
            r@ == src@.subrange(from as int, i as int),
        decreases to - i,
    {
        let b = src[i];
        r.push(b);
        assert(src@.subrange(from as int, i + 1 as int) =~= src@.subrange(
            from as int,
            i as int,
        ).push(src@[i as int]));
        i += 1;
    }
    r
}

impl Connection {
    /// Sequence numbers in flight (virtual SYN/FIN bytes included): the
    /// forward distance from SND.UNA to SND.NXT.
    pub open spec fn in_flight(self) -> u32 {
        self.send.nxt.wrapping_sub(self.send.una)
    }

    /// Every send-time entry lies in `[SND.UNA, SND.NXT]` on the ring: an
    /// in-window ACK drains everything acknowledged, and each emission
    /// records its own sequence number, which an empty segment leaves at
    /// exactly SND.NXT.
    pub open spec fn timers_in_window(self) -> bool {
        forall|i: int|
            0 <= i < self.timers.send_times@.len() ==> (#[trigger] self.timers.send_times@[i]).0.wrapping_sub(
                self.send.una,
            ) <= self.in_flight()
    }

    /// Well-formedness, kept by every operation:
    /// `SND.UNA <= SND.NXT <= SND.UNA + SND.WND` on the ring, the send buffer
    /// small enough for the 32-bit bookkeeping, and the send-time entries
    /// sorted by key and within the in-flight window.
    pub open spec fn wf(self) -> bool {
        &&& self.in_flight() <= self.send.wnd
        &&& self.unacked@.len() <= u32::MAX
        &&& sorted_by_key(self.timers.send_times@)
        &&& self.timers_in_window()
    }

    /// Both one-shot control flags on the template are clear, as they are
    /// between calls: SYN and FIN are set just before one emission and
    /// cleared by it.
    pub open spec fn flags_clear(self) -> bool {
        !self.tcp.syn && !self.tcp.fin
    }

    /// A FIN from the peer has been counted into RCV.NXT.
    pub open spec fn fin_seen(self) -> bool {
        self.state is TimeWait
    }

    /// The receive-side bookkeeping balances: RCV.NXT is IRS plus one (the
    /// peer's SYN), plus the bytes already read by the user, plus the bytes
    /// waiting in `incoming`, plus one more if the peer's FIN was counted.
    /// Equivalently: the bytes in `incoming` carry strictly increasing
    /// sequence numbers ending at `RCV.NXT - 1`, or `RCV.NXT - 2` past a FIN.
    pub open spec fn recv_consistent(self) -> bool {
        self.recv.nxt == wadd_nat(
            self.recv.irs,
            1 + self.delivered@ + self.incoming@.len() + (if self.fin_seen() {
                1nat
            } else {
                0nat
            }),
        )
    }

    /// The receive side is done once the peer's FIN has been processed.
    pub open spec fn spec_is_rcv_closed(&self) -> bool {
        self.state is TimeWait
    }

    #[verifier::when_used_as_spec(spec_is_rcv_closed)]
    pub fn is_rcv_closed(&self) -> (r: bool)
        ensures
            r == self.spec_is_rcv_closed(),
    {
        match self.state {
            State::TimeWait => true,
            _ => false,
        }
    }

    /// The availability snapshot returned to the demultiplexer so it can wake
    /// waiting readers.
    pub open spec fn spec_availability(self) -> Available {
        Available { read: self.spec_is_rcv_closed() || self.incoming@.len() > 0, write: false }
    }

    pub fn availability(&self) -> (a: Available)
        ensures
            a == self.spec_availability(),
    {
        let read = self.is_rcv_closed() || !self.incoming.is_empty();
        Available { read, write: false }
    }

    /// Marks the write side shut. The FIN itself is emitted by a later tick
    /// once the send window allows, and the state moves to FinWait1 at that
    /// emission. Closing an already torn-down connection is misuse.
    pub fn close(&mut self) -> (r: Result<(), TcpError>)
        ensures
            r == (if old(self).state is TimeWait {
                Err::<(), TcpError>(TcpError::NotConnected)
            } else {
                Ok::<(), TcpError>(())
            }),
            old(self).state is TimeWait ==> *final(self) == *old(self),
            !(old(self).state is TimeWait) ==> *final(self) == (Connection {
                closed: true,
                ..*old(self)
            }),
    {
        match self.state {
            State::SynRcvd | State::Estab | State::FinWait1 | State::FinWait2 => {
                self.closed = true;
                Ok(())
            },
            State::TimeWait => Err(TcpError::NotConnected),
        }
    }

    /// Appends user data to the send buffer. Writing after shutdown is
    /// refused as misuse; the engine sends the bytes out on later ticks.
    pub fn queue_write(&mut self, data: &[u8]) -> (r: Result<usize, TcpError>)
        requires
            old(self).unacked@.len() + data@.len() <= u32::MAX,
        ensures
            old(self).closed ==> r == Err::<usize, TcpError>(TcpError::NotConnected)
                && *final(self) == *old(self),
            !old(self).closed ==> r == Ok::<usize, TcpError>(data@.len() as usize)
                && *final(self) == (Connection { unacked: final(self).unacked, ..*old(self) })
                && final(self).unacked@ == old(self).unacked@ + data@,
    {
        if self.closed {
            return Err(TcpError::NotConnected);
        }
        self.unacked.extend_from_slice(data);
        Ok(data.len())
    }

    /// The IPv4 header of a segment with `pb` payload bytes: the template
    /// with the total TCP length filled in.
    pub open spec fn spec_emit_ip(self, pb: nat) -> Ipv4Repr {
        Ipv4Repr { payload_len: (20 + pb) as u16, ..self.ip }
    }

    /// Payload byte count of `write(seq, limit)` from this state.
    pub open spec fn spec_payload_size(self, seq: u32, limit: nat) -> nat {
        payload_size_of(self.unacked@.len(), self.send.una, self.closed_at, seq, limit)
    }

    /// Payload bytes of `write(seq, limit)` from this state.
    pub open spec fn spec_payload_bytes(self, seq: u32, limit: nat) -> Seq<u8> {
        payload_bytes_of(self.unacked@, self.send.una, self.closed_at, seq, limit)
    }

    /// The whole frame `write(seq, limit)` emits from this state.
    pub open spec fn spec_frame(self, seq: u32, limit: nat) -> Seq<u8> {
        let payload = self.spec_payload_bytes(seq, limit);
        let ip2 = self.spec_emit_ip(payload.len());
        frame_bytes(ip2, emitted_header_of(ip2, self.tcp, seq, self.recv.nxt, payload), payload)
    }

    /// SND.NXT after `write(seq, limit)`: advanced past the emitted segment,
    /// never rewound.
    pub open spec fn spec_next_nxt(self, seq: u32, limit: nat) -> u32 {
        let ns = next_seq_of(seq, self.spec_payload_size(seq, limit), self.tcp.syn, self.tcp.fin);
        if spec_wrapping_lt(self.send.nxt, ns) {
            ns
        } else {
            self.send.nxt
        }
    }

    /// Emits one segment carrying up to `limit` bytes of payload starting at
    /// sequence number `seq`, drawn from `unacked`. The template's one-shot
    /// SYN and FIN flags ride along and are cleared. Returns the payload byte
    /// count and the assembled frame; the send time of `seq` is recorded, and
    /// SND.NXT advances to the end of the segment (never rewinding). The
    /// caller keeps the whole segment inside the send window.
    #[verifier::rlimit(100)]
    #[verifier::spinoff_prover]
    pub fn write(&mut self, seq: u32, limit: usize, now_ms: u64) -> (r: (usize, Vec<u8>))
        requires
            old(self).wf(),
            seq.wrapping_sub(old(self).send.una) + limit + (if old(self).tcp.syn {
                1int
            } else {
                0int
            }) + (if old(self).tcp.fin {
                1int
            } else {
                0int
            }) <= old(self).send.wnd,
        ensures
            final(self).wf(),
            final(self).flags_clear(),
            r.0 == old(self).spec_payload_size(seq, limit as nat),
            r.1@ == old(self).spec_frame(seq, limit as nat),
            *final(self) == (Connection {
                send: SendSequenceSpace {
                    nxt: old(self).spec_next_nxt(seq, limit as nat),
                    ..old(self).send
                },
                ip: old(self).spec_emit_ip(r.0 as nat),
                tcp: TcpHeaderRepr {
                    syn: false,
                    fin: false,
                    ..emitted_header_of(
                        old(self).spec_emit_ip(r.0 as nat),
                        old(self).tcp,
                        seq,
                        old(self).recv.nxt,
                        old(self).spec_payload_bytes(seq, limit as nat),
                    )
                },
                timers: final(self).timers,
                ..*old(self)
            }),
            final(self).timers.send_times@ == spec_insert(
                old(self).timers.send_times@,
                seq,
                now_ms,
            ),
            final(self).timers.srtt == old(self).timers.srtt,
    {
        let ghost c0 = *old(self);
        self.tcp.sequence_number = seq;
        self.tcp.acknowledgment_number = self.recv.nxt;

        // Offset into the send buffer, special-casing a retransmitted FIN.
        let mut offset = seq.wrapping_sub(self.send.una) as usize;
        match self.closed_at {
            Some(c) => {
                if seq == c.wrapping_add(1) {
                    offset = 0;
                }
            },
            None => {},
        }
        let ulen = self.unacked.len();
        let offc = if offset <= ulen {
            offset
        } else {
            ulen
        };
        let avail = ulen - offc;
        let lim = if limit <= avail {
            limit
        } else {
            avail
        };
        let max_data = if lim <= MAX_SEGMENT_PAYLOAD {
            lim
        } else {
            MAX_SEGMENT_PAYLOAD
        };
        assert(max_data == c0.spec_payload_size(seq, limit as nat));
        let payload = copy_range(&self.unacked, offc, offc + max_data);
        assert(payload@ == c0.spec_payload_bytes(seq, limit as nat));

        // Size the IPv4 payload-length field to the TCP header plus payload.
        self.ip.payload_len = (20 + max_data) as u16;
        // The checksum covers the pseudo-header and the final payload bytes.
        self.tcp.checksum = tcp_checksum(&self.ip, &self.tcp, payload.as_slice());
        assert(self.ip == c0.spec_emit_ip(max_data as nat));
        assert(self.tcp == emitted_header_of(
            c0.spec_emit_ip(max_data as nat),
            c0.tcp,
            seq,
            c0.recv.nxt,
            payload@,
        ));
        let frame = assemble_frame(&self.ip, &self.tcp, payload.as_slice());
        assert(frame@ == c0.spec_frame(seq, limit as nat));

        // The one-shot control flags are transmitted once per call.
        let mut next_seq = seq.wrapping_add(max_data as u32);
        if self.tcp.syn {
            next_seq = next_seq.wrapping_add(1);
            self.tcp.syn = false;
        }
        if self.tcp.fin {
            next_seq = next_seq.wrapping_add(1);
            self.tcp.fin = false;
        }
        assert(next_seq == next_seq_of(seq, max_data as nat, c0.tcp.syn, c0.tcp.fin));

        proof {
            let una = c0.send.una;
            let ds = seq.wrapping_sub(una) as int;
            let sf: int = (if c0.tcp.syn {
                1int
            } else {
                0int
            }) + (if c0.tcp.fin {
                1int
            } else {
                0int
            });
            lemma_dist_add_chain(una, seq, max_data as u32);
            if c0.tcp.syn {
                lemma_dist_add_chain(una, seq.wrapping_add(max_data as u32), 1);
            }
            if c0.tcp.fin {
                let b = if c0.tcp.syn {
                    seq.wrapping_add(max_data as u32).wrapping_add(1)
                } else {
                    seq.wrapping_add(max_data as u32)
                };
                lemma_dist_add_chain(una, b, 1);
            }
            assert(next_seq.wrapping_sub(una) == ds + max_data + sf);
            lemma_ring_lt(una, c0.send.nxt, next_seq);
        }

        if wrapping_lt(self.send.nxt, next_seq) {
            self.send.nxt = next_seq;
        }
        proof {
            lemma_insert_entries(c0.timers.send_times@, seq, now_ms);
        }
        self.timers.insert(seq, now_ms);

        proof {
            assert forall|i: int| 0 <= i < self.timers.send_times@.len() implies (
            #[trigger] self.timers.send_times@[i]).0.wrapping_sub(self.send.una)
                <= self.in_flight() by {
                let e = self.timers.send_times@[i];
                if e != (seq, now_ms) {
                    assert(c0.timers.send_times@.contains(e));
                    let j = choose|j: int|
                        0 <= j < c0.timers.send_times@.len() && c0.timers.send_times@[j] == e;
                    assert(c0.timers.send_times@[j].0.wrapping_sub(c0.send.una)
                        <= c0.in_flight());
                }
            }
        }
        (max_data, frame)
    }

    /// The segment is acceptable against the current receive window.
    pub open spec fn spec_acceptable(self, tcph: TcpHeaderRepr, payload_len: nat) -> bool {
        spec_segment_acceptable(
            self.recv.nxt,
            self.recv.wnd,
            tcph.sequence_number,
            spec_slen(payload_len, tcph.syn, tcph.fin),
        )
    }

    /// The acceptable-ACK test: `SND.UNA < SEG.ACK <= SND.NXT` on the ring.
    pub open spec fn spec_ack_in_window(self, ackn: u32) -> bool {
        spec_in_between_wrapped(self.send.una, ackn, self.send.nxt.wrapping_add(1))
    }

    /// The state and SND.UNA after the ACK-processing step: a SynRcvd
    /// connection whose SYN is acked becomes Estab; an in-window ACK in a
    /// synchronized state moves SND.UNA up to it; a FinWait1 connection whose
    /// FIN is acked becomes FinWait2.
    pub open spec fn spec_ack_step(self, tcph: TcpHeaderRepr) -> (State, u32) {
        let ackn = tcph.acknowledgment_number;
        let s1 = if self.state is SynRcvd && spec_in_between_wrapped(
            self.send.una.wrapping_sub(1),
            ackn,
            self.send.nxt.wrapping_add(1),
        ) {
            State::Estab
        } else {
            self.state
        };
        let una2 = if (s1 is Estab || s1 is FinWait1 || s1 is FinWait2)
            && self.spec_ack_in_window(ackn) {
            ackn
        } else {
            self.send.una
        };
        let s2 = if s1 is FinWait1 && (match self.closed_at {
            Some(c) => una2 == c.wrapping_add(1),
            None => false,
        }) {
            State::FinWait2
        } else {
            s1
        };
        (s2, una2)
    }

    /// The inputs `on_packet` implements. Outside them the engine hits an
    /// unimplemented transition or a violated assumption and the process is
    /// expected to abort instead: a bare SYN carrying data, or an acceptable
    /// FIN arriving with an ACK in any state whose FIN handling is not yet
    /// written (everything but FinWait2 after ACK bookkeeping).
    pub open spec fn spec_can_handle(self, tcph: TcpHeaderRepr, payload_len: nat) -> bool {
        &&& !(self.spec_acceptable(tcph, payload_len) && !tcph.ack && tcph.syn && payload_len > 0)
        &&& !(self.spec_acceptable(tcph, payload_len) && tcph.ack && tcph.fin && !(self.spec_ack_step(
            tcph,
        ).0 is FinWait2))
    }

    /// The executable mirror of `spec_can_handle`, for a caller to test
    /// before handing a segment in.
    pub fn can_handle(&self, tcph: &TcpHeaderRepr, payload_len: usize) -> (r: bool)
        requires
            payload_len + 2 <= u32::MAX,
        ensures
            r == self.spec_can_handle(*tcph, payload_len as nat),
    {
        let acceptable = segment_acceptable(
            self.recv.nxt,
            self.recv.wnd,
            tcph.sequence_number,
            payload_len,
            tcph.syn,
            tcph.fin,
        );
        if !acceptable {
            return true;
        }
        if !tcph.ack {
            return !(tcph.syn && payload_len > 0);
        }
        if !tcph.fin {
            return true;
        }
        let ackn = tcph.acknowledgment_number;
        let s1 = if matches!(self.state, State::SynRcvd) && in_between_wrapped(
            self.send.una.wrapping_sub(1),
            ackn,
            self.send.nxt.wrapping_add(1),
        ) {
            State::Estab
        } else {
            self.state
        };
        let una2 = if matches!(s1, State::Estab | State::FinWait1 | State::FinWait2)
            && in_between_wrapped(self.send.una, ackn, self.send.nxt.wrapping_add(1)) {
            ackn
        } else {
            self.send.una
        };
        let s2 = if matches!(s1, State::FinWait1) && (match self.closed_at {
            Some(c) => una2 == c.wrapping_add(1),
            None => false,
        }) {
            State::FinWait2
        } else {
            s1
        };
        matches!(s2, State::FinWait2)
    }

    /// Handles the first SYN of a passive open: builds a SynRcvd connection
    /// (ISS 0, window 1024, addresses and ports mirrored from the inbound
    /// frame) and emits its SYN+ACK. A segment without SYN makes no
    /// connection.
    pub fn accept(iph: &Ipv4Repr, tcph: &TcpHeaderRepr, now_ms: u64) -> (r: Option<
        (Connection, Vec<u8>),
    >)
        ensures
            r is Some <==> tcph.syn,
            r matches Some(p) ==> ({
                let c = p.0;
                let irs = tcph.sequence_number;
                let ip2 = Ipv4Repr {
                    source: iph.destination,
                    destination: iph.source,
                    payload_len: 20,
                    time_to_live: DEFAULT_TTL,
                };
                let tpl = TcpHeaderRepr {
                    source_port: tcph.destination_port,
                    destination_port: tcph.source_port,
                    sequence_number: 0,
                    acknowledgment_number: 0,
                    window_size: INITIAL_WINDOW,
                    checksum: 0,
                    syn: true,
                    ack: true,
                    fin: false,
                    rst: false,
                };
                let hdr = emitted_header_of(ip2, tpl, 0, irs.wrapping_add(1), Seq::<u8>::empty());
                &&& c.wf()
                &&& c.flags_clear()
                &&& c.recv_consistent()
                &&& c.state is SynRcvd
                &&& c.send == (SendSequenceSpace {
                    iss: 0u32,
                    una: 0u32,
                    nxt: 1u32,
                    wnd: INITIAL_WINDOW,
                    up: false,
                    wl1: 0usize,
                    wl2: 0usize,
                })
                &&& c.recv == (RecvSequenceSpace {
                    irs,
                    nxt: irs.wrapping_add(1),
                    wnd: tcph.window_size,
                    up: false,
                })
                &&& c.ip == ip2
                &&& c.tcp == (TcpHeaderRepr { syn: false, fin: false, ..hdr })
                &&& c.timers.srtt == crate::timer::INITIAL_SRTT_MS
                &&& c.timers.send_times@ == seq![(0u32, now_ms)]
                &&& c.incoming@ == Seq::<u8>::empty()
                &&& c.unacked@ == Seq::<u8>::empty()
                &&& c.closed == false
                &&& c.closed_at is None
                &&& c.delivered@ == 0
                &&& p.1@ == frame_bytes(ip2, hdr, Seq::<u8>::empty())
            }),
    {
        if !tcph.syn {
            // only a SYN opens a connection
            return None;
        }
        let iss: u32 = 0;
        let mut c = Connection {
            state: State::SynRcvd,
            send: SendSequenceSpace {
                iss,
                una: iss,
                nxt: iss,
                wnd: INITIAL_WINDOW,
                up: false,
                wl1: 0,
                wl2: 0,
            },
            recv: RecvSequenceSpace {
                irs: tcph.sequence_number,
                nxt: tcph.sequence_number.wrapping_add(1),
                wnd: tcph.window_size,
                up: false,
            },
            tcp: TcpHeaderRepr {
                source_port: tcph.destination_port,
                destination_port: tcph.source_port,
                sequence_number: iss,
                acknowledgment_number: 0,
                window_size: INITIAL_WINDOW,
                checksum: 0,
                syn: false,
                ack: false,
                fin: false,
                rst: false,
            },
            ip: Ipv4Repr {
                source: iph.destination,
                destination: iph.source,
                payload_len: 0,
                time_to_live: DEFAULT_TTL,
            },
            timers: Timers::new(),
            incoming: Vec::new(),
            unacked: Vec::new(),
            closed: false,
            closed_at: None,
            delivered: Ghost(0nat),
        };
        c.tcp.syn = true;
        c.tcp.ack = true;
        let ghost c0 = c;
        let seq = c.send.nxt;
        let (_, frame) = c.write(seq, 0, now_ms);
        proof {
            lemma_wadd_nat_zero(tcph.sequence_number);
            lemma_wadd_nat_step(tcph.sequence_number, 0, 1);
            assert(c.recv_consistent());
            assert(c0.spec_payload_size(0, 0) == 0);
            assert(c0.spec_payload_bytes(0, 0) =~= Seq::<u8>::empty());
            assert(c0.timers.send_times@ =~= Seq::<(u32, u64)>::empty());
            assert(spec_insert(c0.timers.send_times@, 0u32, now_ms) =~= seq![(0u32, now_ms)]);
            assert(c.send == (SendSequenceSpace {
                iss: 0u32,
                una: 0u32,
                nxt: 1u32,
                wnd: INITIAL_WINDOW,
                up: false,
                wl1: 0usize,
                wl2: 0usize,
            }));
        }
        Some((c, frame))
    }

    /// Prepares a reset: sets RST on the template (where it stays: this
    /// engine never clears it) and emits an empty segment at SND.NXT. The
    /// zeroed template sequence numbers are overwritten by the emission
    /// itself, which stamps the current SND.NXT and RCV.NXT.
    pub fn send_rst(&mut self, now_ms: u64) -> (r: Vec<u8>)
        requires
            old(self).wf(),
            old(self).flags_clear(),
        ensures
            final(self).wf(),
            final(self).flags_clear(),
            ({
                let tpl = TcpHeaderRepr {
                    rst: true,
                    sequence_number: 0,
                    acknowledgment_number: 0,
                    ..old(self).tcp
                };
                let ip2 = Ipv4Repr { payload_len: 20, ..old(self).ip };
                let hdr = emitted_header_of(
                    ip2,
                    tpl,
                    old(self).send.nxt,
                    old(self).recv.nxt,
                    Seq::<u8>::empty(),
                );
                &&& r@ == frame_bytes(ip2, hdr, Seq::<u8>::empty())
                &&& *final(self) == (Connection {
                    ip: ip2,
                    tcp: TcpHeaderRepr { syn: false, fin: false, ..hdr },
                    timers: final(self).timers,
                    ..*old(self)
                })
                &&& final(self).timers.send_times@ == spec_insert(
                    old(self).timers.send_times@,
                    old(self).send.nxt,
                    now_ms,
                )
                &&& final(self).timers.srtt == old(self).timers.srtt
            }),
    {
        self.tcp.rst = true;
        self.tcp.sequence_number = 0;
        self.tcp.acknowledgment_number = 0;
        let ghost c1 = *self;
        let seq = self.send.nxt;
        let (_, frame) = self.write(seq, 0, now_ms);
        proof {
            assert(c1.spec_payload_size(seq, 0) == 0);
            assert(c1.spec_payload_bytes(seq, 0) =~= Seq::<u8>::empty());
            assert(self.send == old(self).send);
        }
        frame
    }

    /// Bytes queued in `unacked` but not yet on the wire.
    pub open spec fn spec_unsent(self) -> u32 {
        if self.unacked@.len() >= self.in_flight() {
            (self.unacked@.len() - self.in_flight()) as u32
        } else {
            0u32
        }
    }

    /// A retransmission is due when the oldest outstanding send time has
    /// waited longer than one second and longer than one and a half times the
    /// smoothed round-trip time.
    pub open spec fn spec_retransmit_due(self, now: u64) -> bool {
        match spec_oldest_from(self.timers.send_times@, self.send.una) {
            Some(e) => sat_sub(now, e.1) > 1000 && 2 * sat_sub(now, e.1) > 3 * self.timers.srtt,
            None => false,
        }
    }

    /// The periodic outbound scheduler. When the oldest outstanding segment
    /// has waited out the retransmission timer, everything unacknowledged is
    /// resent (up to the send window); otherwise new bytes are sent as the
    /// window allows. Either path attaches the FIN once the user has closed
    /// and the window leaves room, records where the virtual FIN byte sits in
    /// `closed_at`, and moves the state to FinWait1 at that first emission.
    ///
    /// `closed_at`, once set, is never cleared or moved, and no further FIN
    /// is scheduled: a retransmission sets the FIN bit again only while the
    /// recorded FIN is still outstanding (it then sits just past the send
    /// buffer), so the bit only ever re-sends the same virtual byte.
    #[verifier::rlimit(100)]
    #[verifier::spinoff_prover]
    pub fn on_tick(&mut self, now_ms: u64) -> (r: Option<Vec<u8>>)
        requires
            old(self).wf(),
            old(self).flags_clear(),
        ensures
            final(self).wf(),
            final(self).flags_clear(),
            final(self).recv == old(self).recv,
            final(self).incoming@ == old(self).incoming@,
            final(self).unacked@ == old(self).unacked@,
            final(self).delivered == old(self).delivered,
            final(self).closed == old(self).closed,
            final(self).send.una == old(self).send.una,
            old(self).recv_consistent() ==> final(self).recv_consistent(),
            old(self).closed_at is Some ==> final(self).closed_at == old(self).closed_at,
            // idle: nothing due, nothing to send
            (!old(self).spec_retransmit_due(now_ms) && (old(self).spec_unsent() == 0 && old(
                self,
            ).closed_at is Some || old(self).send.wnd == old(self).in_flight()) ==> r is None
                && *final(self) == *old(self)),
            // retransmission
            (old(self).spec_retransmit_due(now_ms) ==> ({
                let len = old(self).unacked@.len();
                let wnd = old(self).send.wnd as nat;
                let resend = if len <= wnd {
                    len
                } else {
                    wnd
                };
                // the FIN bit goes on a fresh FIN, or re-sends the recorded
                // one while it is still outstanding; an acknowledged FIN is
                // never re-armed and closed_at never moves
                let fin_fresh = resend < wnd && old(self).closed && old(self).closed_at is None;
                let fin_bit = resend < wnd && old(self).closed && (match old(self).closed_at {
                    Some(c) => c == old(self).send.una.wrapping_add(len as u32),
                    None => true,
                });
                let ca1 = if fin_fresh {
                    Some(old(self).send.una.wrapping_add(len as u32))
                } else {
                    old(self).closed_at
                };
                let tpl1 = TcpHeaderRepr { fin: fin_bit, ..old(self).tcp };
                let pb = payload_size_of(len, old(self).send.una, ca1, old(self).send.una, resend);
                let payload = payload_bytes_of(
                    old(self).unacked@,
                    old(self).send.una,
                    ca1,
                    old(self).send.una,
                    resend,
                );
                let ip2 = Ipv4Repr { payload_len: (20 + pb) as u16, ..old(self).ip };
                let hdr = emitted_header_of(ip2, tpl1, old(self).send.una, old(self).recv.nxt, payload);
                let ns = next_seq_of(old(self).send.una, pb, false, fin_bit);
                &&& r is Some
                &&& (r matches Some(f) ==> f@ == frame_bytes(ip2, hdr, payload))
                &&& *final(self) == (Connection {
                    state: if fin_fresh && (old(self).state is SynRcvd || old(self).state is Estab) {
                        State::FinWait1
                    } else {
                        old(self).state
                    },
                    send: SendSequenceSpace {
                        nxt: if spec_wrapping_lt(old(self).send.nxt, ns) {
                            ns
                        } else {
                            old(self).send.nxt
                        },
                        ..old(self).send
                    },
                    ip: ip2,
                    tcp: TcpHeaderRepr { syn: false, fin: false, ..hdr },
                    timers: final(self).timers,
                    closed_at: ca1,
                    ..*old(self)
                })
                &&& final(self).timers.send_times@ == spec_insert(
                    old(self).timers.send_times@,
                    old(self).send.una,
                    now_ms,
                )
                &&& final(self).timers.srtt == old(self).timers.srtt
            })),
            // new data, window permitting
            (!old(self).spec_retransmit_due(now_ms) && !(old(self).spec_unsent() == 0 && old(
                self,
            ).closed_at is Some) && old(self).send.wnd != old(self).in_flight() ==> ({
                let unsent = old(self).spec_unsent();
                let allowed = (old(self).send.wnd - old(self).in_flight()) as u32;
                let send_n = if unsent <= allowed {
                    unsent
                } else {
                    allowed
                };
                let fin_attach = send_n < allowed && old(self).closed && old(self).closed_at
                    is None;
                let ca1 = if fin_attach {
                    Some(old(self).send.nxt.wrapping_add(unsent))
                } else {
                    old(self).closed_at
                };
                let tpl1 = TcpHeaderRepr { fin: fin_attach, ..old(self).tcp };
                let pb = payload_size_of(
                    old(self).unacked@.len(),
                    old(self).send.una,
                    ca1,
                    old(self).send.nxt,
                    send_n as nat,
                );
                let payload = payload_bytes_of(
                    old(self).unacked@,
                    old(self).send.una,
                    ca1,
                    old(self).send.nxt,
                    send_n as nat,
                );
                let ip2 = Ipv4Repr { payload_len: (20 + pb) as u16, ..old(self).ip };
                let hdr = emitted_header_of(ip2, tpl1, old(self).send.nxt, old(self).recv.nxt, payload);
                let ns = next_seq_of(old(self).send.nxt, pb, false, fin_attach);
                &&& r is Some
                &&& (r matches Some(f) ==> f@ == frame_bytes(ip2, hdr, payload))
                &&& *final(self) == (Connection {
                    state: if fin_attach && (old(self).state is SynRcvd || old(self).state is Estab) {
                        State::FinWait1
                    } else {
                        old(self).state
                    },
                    send: SendSequenceSpace {
                        nxt: if spec_wrapping_lt(old(self).send.nxt, ns) {
                            ns
                        } else {
                            old(self).send.nxt
                        },
                        ..old(self).send
                    },
                    ip: ip2,
                    tcp: TcpHeaderRepr { syn: false, fin: false, ..hdr },
                    timers: final(self).timers,
                    closed_at: ca1,
                    ..*old(self)
                })
                &&& final(self).timers.send_times@ == spec_insert(
                    old(self).timers.send_times@,
                    old(self).send.nxt,
                    now_ms,
                )
                &&& final(self).timers.srtt == old(self).timers.srtt
            })),
    {
        let nunacked = self.send.nxt.wrapping_sub(self.send.una);
        let ulen = self.unacked.len();
        assert(ulen <= u32::MAX);
        let ulen32 = ulen as u32;
        let unsent: u32 = if ulen32 >= nunacked {
            ulen32 - nunacked
        } else {
            0
        };
        assert(unsent == self.spec_unsent());

        let should_retransmit: bool = match self.timers.oldest_from(self.send.una) {
            Some(e) => {
                let waited: u64 = if now_ms >= e.1 {
                    now_ms - e.1
                } else {
                    0
                };
                waited > 1000 && 2 * (waited as u128) > 3 * (self.timers.srtt as u128)
            },
            None => false,
        };
        assert(should_retransmit == self.spec_retransmit_due(now_ms));

        if should_retransmit {
            // resend everything outstanding, as far as the window reaches
            let resend: u32 = if ulen32 <= self.send.wnd as u32 {
                ulen32
            } else {
                self.send.wnd as u32
            };
            let mut fin_fresh = false;
            if resend < self.send.wnd as u32 && self.closed {
                match self.closed_at {
                    None => {
                        // the FIN is scheduled here, once, just past the data
                        self.tcp.fin = true;
                        fin_fresh = true;
                        self.closed_at = Some(self.send.una.wrapping_add(ulen32));
                    },
                    Some(c) => {
                        if c == self.send.una.wrapping_add(ulen32) {
                            // the recorded FIN is still outstanding: resend it
                            self.tcp.fin = true;
                        }
                        // an acknowledged FIN is never re-armed
                    },
                }
            }
            let seq = self.send.una;
            let (_, frame) = self.write(seq, resend as usize, now_ms);
            if fin_fresh {
                match self.state {
                    State::SynRcvd | State::Estab => {
                        self.state = State::FinWait1;
                    },
                    _ => {},
                }
            }
            Some(frame)
        } else {
            // the FIN is scheduled and nothing new remains: stay quiet
            if unsent == 0 && self.closed_at.is_some() {
                return None;
            }
            let allowed: u32 = self.send.wnd as u32 - nunacked;
            if allowed == 0 {
                return None;
            }
            let send_n: u32 = if unsent <= allowed {
                unsent
            } else {
                allowed
            };
            let mut fin_attach = false;
            if send_n < allowed && self.closed && self.closed_at.is_none() {
                self.tcp.fin = true;
                fin_attach = true;
                self.closed_at = Some(self.send.nxt.wrapping_add(unsent));
            }
            let seq = self.send.nxt;
            let (_, frame) = self.write(seq, send_n as usize, now_ms);
            if fin_attach {
                match self.state {
                    State::SynRcvd | State::Estab => {
                        self.state = State::FinWait1;
                    },
                    _ => {},
                }
            }
            Some(frame)
        }
    }

    /// The segments after which the receive-side bookkeeping provably stays
    /// balanced: everything except an acceptable bare SYN (no ACK bit) that
    /// re-seats RCV.NXT somewhere new. In-order data extends the ledger,
    /// anything already consumed — the retransmitted-FIN special case
    /// included — delivers nothing, and anything past RCV.NXT is dropped
    /// whole.
    pub open spec fn spec_recv_clean(self, tcph: TcpHeaderRepr, payload_len: nat) -> bool {
        ||| !self.spec_acceptable(tcph, payload_len)
        ||| tcph.ack
        ||| !tcph.syn
        ||| tcph.sequence_number.wrapping_add(1) == self.recv.nxt
    }

    /// Emits the empty acknowledgment segment `<SEQ=SND.NXT><ACK=RCV.NXT>`.
    fn emit_ack(&mut self, now_ms: u64) -> (frame: Vec<u8>)
        requires
            old(self).wf(),
            old(self).flags_clear(),
        ensures
            final(self).wf(),
            final(self).flags_clear(),
            ({
                let ip2 = Ipv4Repr { payload_len: 20, ..old(self).ip };
                let hdr = emitted_header_of(
                    ip2,
                    old(self).tcp,
                    old(self).send.nxt,
                    old(self).recv.nxt,
                    Seq::<u8>::empty(),
                );
                &&& frame@ == frame_bytes(ip2, hdr, Seq::<u8>::empty())
                &&& *final(self) == (Connection {
                    ip: ip2,
                    tcp: TcpHeaderRepr { syn: false, fin: false, ..hdr },
                    timers: final(self).timers,
                    ..*old(self)
                })
                &&& final(self).timers.send_times@ == spec_insert(
                    old(self).timers.send_times@,
                    old(self).send.nxt,
                    now_ms,
                )
                &&& final(self).timers.srtt == old(self).timers.srtt
            }),
    {
        let seq = self.send.nxt;
        let ghost c1 = *self;
        let (_, frame) = self.write(seq, 0, now_ms);
        proof {
            assert(c1.spec_payload_bytes(seq, 0) =~= Seq::<u8>::empty());
            assert(self.send == c1.send);
        }
        frame
    }

    /// The ACK-processing step of the inbound handler: SynRcvd becomes Estab
    /// on a valid ACK of our SYN; every in-window ACK in a synchronized state
    /// drains the acknowledged prefix of `unacked` and every acknowledged
    /// send-time entry (feeding each round-trip sample to the estimator — the
    /// SYN's own entry goes this way too) and advances SND.UNA; and FinWait1
    /// becomes FinWait2 once our FIN is acknowledged.
    fn process_ack(&mut self, tcph: &TcpHeaderRepr, now_ms: u64)
        requires
            old(self).wf(),
            tcph.ack,
        ensures
            final(self).wf(),
            final(self).state == old(self).spec_ack_step(*tcph).0,
            final(self).send == (SendSequenceSpace {
                una: old(self).spec_ack_step(*tcph).1,
                ..old(self).send
            }),
            final(self).send.una.wrapping_sub(old(self).send.una) <= old(self).in_flight(),
            final(self).recv == old(self).recv,
            final(self).incoming@ == old(self).incoming@,
            final(self).delivered == old(self).delivered,
            final(self).closed == old(self).closed,
            final(self).closed_at == old(self).closed_at,
            final(self).tcp == old(self).tcp,
            final(self).ip == old(self).ip,
            ({
                let ackn = tcph.acknowledgment_number;
                let s2 = old(self).spec_ack_step(*tcph).0;
                let delivery = s2 is Estab || s2 is FinWait1 || s2 is FinWait2;
                let stepped = delivery && old(self).spec_ack_in_window(ackn);
                let nack = ackn.wrapping_sub(old(self).send.una) as nat;
                let nack_c = if nack <= old(self).unacked@.len() {
                    nack
                } else {
                    old(self).unacked@.len()
                };
                let tdrain = spec_drain(
                    old(self).timers.send_times@,
                    old(self).send.una,
                    ackn,
                    old(self).timers.srtt,
                    now_ms,
                );
                &&& final(self).unacked@ == (if stepped {
                    old(self).unacked@.subrange(nack_c as int, old(self).unacked@.len() as int)
                } else {
                    old(self).unacked@
                })
                &&& final(self).timers.send_times@ == (if stepped {
                    tdrain.0
                } else {
                    old(self).timers.send_times@
                })
                &&& final(self).timers.srtt == (if stepped {
                    tdrain.1
                } else {
                    old(self).timers.srtt
                })
            }),
    {
        let ghost c0 = *old(self);
        let ackn = tcph.acknowledgment_number;
        if matches!(self.state, State::SynRcvd) {
            if in_between_wrapped(
                self.send.una.wrapping_sub(1),
                ackn,
                self.send.nxt.wrapping_add(1),
            ) {
                // the peer ACKed our SYN
                self.state = State::Estab;
            } else {
                // an invalid ACK in SynRcvd is ignored (no RST in this engine)
            }
        }
        if matches!(self.state, State::Estab | State::FinWait1 | State::FinWait2) {
            if in_between_wrapped(self.send.una, ackn, self.send.nxt.wrapping_add(1)) {
                proof {
                    lemma_ack_advance(c0.send.una, ackn, c0.send.nxt, c0.send.wnd);
                }
                let nack32 = ackn.wrapping_sub(self.send.una);
                let nack = nack32 as usize;
                let ulen = self.unacked.len();
                let nack_c = if nack <= ulen {
                    nack
                } else {
                    ulen
                };
                let rest = copy_range(&self.unacked, nack_c, ulen);
                self.unacked = rest;
                self.timers.drain_acked(self.send.una, ackn, now_ms);
                proof {
                    lemma_drain_entries(
                        c0.timers.send_times@,
                        c0.send.una,
                        ackn,
                        c0.timers.srtt,
                        now_ms,
                    );
                    assert forall|i: int| 0 <= i < self.timers.send_times@.len() implies (
                    #[trigger] self.timers.send_times@[i]).0.wrapping_sub(ackn)
                        <= c0.send.nxt.wrapping_sub(ackn) by {
                        let e = self.timers.send_times@[i];
                        assert(c0.timers.send_times@.contains(e) && !acked_key(
                            e.0,
                            c0.send.una,
                            ackn,
                        ));
                        let j = choose|j: int|
                            0 <= j < c0.timers.send_times@.len() && c0.timers.send_times@[j] == e;
                        lemma_ack_window_shift(
                            c0.send.una,
                            ackn,
                            c0.send.nxt,
                            c0.send.wnd,
                            e.0,
                        );
                    }
                }
                self.send.una = ackn;
            }
        }
        // our FIN is acknowledged once SND.UNA passes it
        if matches!(self.state, State::FinWait1) {
            match self.closed_at {
                Some(c) => {
                    if self.send.una == c.wrapping_add(1) {
                        self.state = State::FinWait2;
                    }
                },
                None => {},
            }
        }
    }

    /// The inbound-segment handler. In order: the RFC 793 acceptability
    /// check (failure answers with an empty ACK); a bare SYN advances RCV.NXT
    /// past the peer's ISN; ACK processing (SynRcvd to Estab on a valid ACK
    /// of our SYN, draining `unacked` and the send timers and advancing
    /// SND.UNA on an in-window ACK, FinWait1 to FinWait2 once our FIN is
    /// acked); in-order data delivery into `incoming` with an ACK emitted
    /// (a retransmitted FIN whose data was already consumed is only
    /// re-acknowledged — no byte is delivered twice and RCV.NXT stays put —
    /// and segments past RCV.NXT are dropped whole); and the peer's FIN in
    /// FinWait2, acknowledged and answered with TimeWait.
    ///
    /// Returns the availability snapshot and the frames to transmit.
    #[verifier::rlimit(100)]
    #[verifier::spinoff_prover]
    pub fn on_packet(&mut self, tcph: &TcpHeaderRepr, payload: &[u8], now_ms: u64) -> (r: (
        Available,
        Vec<Vec<u8>>,
    ))
        requires
            old(self).wf(),
            old(self).flags_clear(),
            payload@.len() + 2 <= u32::MAX,
            old(self).spec_can_handle(*tcph, payload@.len()),
        ensures
            final(self).wf(),
            final(self).flags_clear(),
            final(self).closed == old(self).closed,
            final(self).closed_at == old(self).closed_at,
            final(self).delivered == old(self).delivered,
            final(self).send == (SendSequenceSpace { una: final(self).send.una, ..old(self).send }),
            // SND.UNA never rewinds, and moves at most up to SND.NXT
            final(self).send.una.wrapping_sub(old(self).send.una) <= old(self).in_flight(),
            // the receive ledger survives every clean segment
            old(self).recv_consistent() && old(self).spec_recv_clean(*tcph, payload@.len())
                ==> final(self).recv_consistent(),
            r.0 == final(self).spec_availability(),
            // unacceptable: answer with the current empty ACK, change nothing else
            (!old(self).spec_acceptable(*tcph, payload@.len()) ==> ({
                let ip2 = Ipv4Repr { payload_len: 20, ..old(self).ip };
                let hdr = emitted_header_of(
                    ip2,
                    old(self).tcp,
                    old(self).send.nxt,
                    old(self).recv.nxt,
                    Seq::<u8>::empty(),
                );
                &&& r.1@.len() == 1
                &&& r.1@[0]@ == frame_bytes(ip2, hdr, Seq::<u8>::empty())
                &&& *final(self) == (Connection {
                    ip: ip2,
                    tcp: TcpHeaderRepr { syn: false, fin: false, ..hdr },
                    timers: final(self).timers,
                    ..*old(self)
                })
                &&& final(self).timers.send_times@ == spec_insert(
                    old(self).timers.send_times@,
                    old(self).send.nxt,
                    now_ms,
                )
                &&& final(self).timers.srtt == old(self).timers.srtt
            })),
            // no ACK: a bare SYN re-seats RCV.NXT, nothing is sent
            (old(self).spec_acceptable(*tcph, payload@.len()) && !tcph.ack ==> r.1@.len() == 0
                && *final(self) == (Connection {
                recv: RecvSequenceSpace {
                    nxt: if tcph.syn {
                        tcph.sequence_number.wrapping_add(1)
                    } else {
                        old(self).recv.nxt
                    },
                    ..old(self).recv
                },
                ..*old(self)
            })),
            // ACK processing, data delivery, FIN handling
            (old(self).spec_acceptable(*tcph, payload@.len()) && tcph.ack ==> ({
                let ackn = tcph.acknowledgment_number;
                let s2 = old(self).spec_ack_step(*tcph).0;
                let una2 = old(self).spec_ack_step(*tcph).1;
                let delivery = s2 is Estab || s2 is FinWait1 || s2 is FinWait2;
                let stepped = delivery && old(self).spec_ack_in_window(ackn);
                let nack = ackn.wrapping_sub(old(self).send.una) as nat;
                let nack_c = if nack <= old(self).unacked@.len() {
                    nack
                } else {
                    old(self).unacked@.len()
                };
                let unacked2 = if stepped {
                    old(self).unacked@.subrange(nack_c as int, old(self).unacked@.len() as int)
                } else {
                    old(self).unacked@
                };
                let tdrain = spec_drain(
                    old(self).timers.send_times@,
                    old(self).send.una,
                    ackn,
                    old(self).timers.srtt,
                    now_ms,
                );
                let ts2 = if stepped {
                    tdrain.0
                } else {
                    old(self).timers.send_times@
                };
                let srtt2 = if stepped {
                    tdrain.1
                } else {
                    old(self).timers.srtt
                };
                let plen = payload@.len();
                let skip0 = old(self).recv.nxt.wrapping_sub(tcph.sequence_number);
                &&& final(self).send.una == una2
                &&& final(self).unacked@ == unacked2
                &&& final(self).timers.srtt == srtt2
                // no delivery state, or a segment wholly past RCV.NXT: silent
                &&& (!(delivery && skip0 <= plen + 1) ==> ({
                    &&& r.1@.len() == 0
                    &&& final(self).state == s2
                    &&& final(self).recv == old(self).recv
                    &&& final(self).incoming@ == old(self).incoming@
                    &&& final(self).timers.send_times@ == ts2
                    &&& final(self).tcp == old(self).tcp
                    &&& final(self).ip == old(self).ip
                }))
                // a segment wholly below RCV.NXT (a retransmitted FIN whose
                // data was already consumed): nothing delivered twice, RCV.NXT
                // in place, one fresh acknowledgment
                &&& (delivery && skip0 == plen + 1 ==> ({
                    let ip2 = Ipv4Repr { payload_len: 20, ..old(self).ip };
                    let hdr = emitted_header_of(
                        ip2,
                        old(self).tcp,
                        old(self).send.nxt,
                        old(self).recv.nxt,
                        Seq::<u8>::empty(),
                    );
                    &&& final(self).incoming@ == old(self).incoming@
                    &&& final(self).recv == old(self).recv
                    &&& final(self).state == s2
                    &&& r.1@.len() == 1
                    &&& r.1@[0]@ == frame_bytes(ip2, hdr, Seq::<u8>::empty())
                    &&& final(self).timers.send_times@ == spec_insert(
                        ts2,
                        old(self).send.nxt,
                        now_ms,
                    )
                    &&& final(self).tcp == (TcpHeaderRepr { syn: false, fin: false, ..hdr })
                    &&& final(self).ip == ip2
                }))
                // in-order data: deliver the unseen suffix and acknowledge
                &&& (delivery && skip0 <= plen ==> ({
                    let rcv_nxt2 = tcph.sequence_number.wrapping_add(plen as u32).wrapping_add(
                        if tcph.fin {
                            1u32
                        } else {
                            0u32
                        },
                    );
                    let ip2 = Ipv4Repr { payload_len: 20, ..old(self).ip };
                    let hdr = emitted_header_of(
                        ip2,
                        old(self).tcp,
                        old(self).send.nxt,
                        rcv_nxt2,
                        Seq::<u8>::empty(),
                    );
                    &&& final(self).incoming@ == old(self).incoming@ + payload@.subrange(
                        skip0 as int,
                        plen as int,
                    )
                    &&& final(self).recv == (RecvSequenceSpace { nxt: rcv_nxt2, ..old(self).recv })
                    &&& final(self).state == (if tcph.fin {
                        State::TimeWait
                    } else {
                        s2
                    })
                    &&& r.1@[0]@ == frame_bytes(ip2, hdr, Seq::<u8>::empty())
                    &&& (!tcph.fin ==> r.1@.len() == 1 && final(self).timers.send_times@
                        == spec_insert(ts2, old(self).send.nxt, now_ms))
                    &&& (tcph.fin ==> r.1@.len() == 2 && r.1@[1]@ == frame_bytes(
                        ip2,
                        hdr,
                        Seq::<u8>::empty(),
                    ) && final(self).timers.send_times@ == spec_insert(
                        spec_insert(ts2, old(self).send.nxt, now_ms),
                        old(self).send.nxt,
                        now_ms,
                    ))
                    &&& final(self).tcp == (TcpHeaderRepr { syn: false, fin: false, ..hdr })
                    &&& final(self).ip == ip2
                }))
            })),
    {
        let ghost c0 = *old(self);
        let seqn = tcph.sequence_number;
        let plen = payload.len();
        let okay = segment_acceptable(self.recv.nxt, self.recv.wnd, seqn, plen, tcph.syn, tcph.fin);
        let mut out: Vec<Vec<u8>> = Vec::new();

        if !okay {
            // answer an unacceptable segment with the current empty ACK
            let frame = self.emit_ack(now_ms);
            out.push(frame);
            let a = self.availability();
            return (a, out);
        }
        if !tcph.ack {
            if tcph.syn {
                // a bare SYN: treat its sequence number as the peer's ISN
                self.recv.nxt = seqn.wrapping_add(1);
            }
            let a = self.availability();
            return (a, out);
        }

        self.process_ack(tcph, now_ms);

        if matches!(self.state, State::Estab | State::FinWait1 | State::FinWait2) {
            let skip = self.recv.nxt.wrapping_sub(seqn) as usize;
            if skip > plen + 1 {
                // past RCV.NXT: only in-order data is accepted
                let a = self.availability();
                return (a, out);
            }
            if skip <= plen {
                self.incoming.extend_from_slice(&payload[skip..plen]);
                self.recv.nxt = seqn.wrapping_add(plen as u32).wrapping_add(
                    if tcph.fin {
                        1
                    } else {
                        0
                    },
                );
            } else {
                // a retransmitted FIN whose data was already consumed: the
                // whole segment sits below RCV.NXT, so nothing is delivered
                // twice and RCV.NXT stays put; it is only re-acknowledged
            }
            let frame = self.emit_ack(now_ms);
            out.push(frame);
            if tcph.fin && skip <= plen {
                assert(matches!(self.state, State::FinWait2));
                // the peer's FIN was counted: acknowledge and wait out 2 MSL
                let frame2 = self.emit_ack(now_ms);
                out.push(frame2);
                self.state = State::TimeWait;
            }
        }
        let a = self.availability();
        (a, out)
    }

    /// Hands up to `max` received bytes to the user, in order, removing them
    /// from `incoming`.
    pub fn read_available(&mut self, max: usize) -> (r: Vec<u8>)
        ensures
            old(self).recv_consistent() ==> final(self).recv_consistent(),
            ({
                let n = if max <= old(self).incoming@.len() {
                    max as nat
                } else {
                    old(self).incoming@.len()
                };
                &&& r@ == old(self).incoming@.subrange(0, n as int)
                &&& final(self).incoming@ == old(self).incoming@.subrange(
                    n as int,
                    old(self).incoming@.len() as int,
                )
                &&& final(self).delivered@ == old(self).delivered@ + n
                &&& *final(self) == (Connection {
                    incoming: final(self).incoming,
                    delivered: final(self).delivered,
                    ..*old(self)
                })
            }),
    {
        let n = if max <= self.incoming.len() {
            max
        } else {
            self.incoming.len()
        };
        let r = copy_range(&self.incoming, 0, n);
        let rest = copy_range(&self.incoming, n, self.incoming.len());
        self.incoming = rest;
        proof {
            self.delivered@ = self.delivered@ + n as nat;
        }
        r
    }
}

} // verus!
