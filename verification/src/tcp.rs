//! The engine that owns the socket table and drives the TCP state machine.
//!
//! Every call here is a pure step: it mutates the table and reports, in an
//! [`Effects`] value, the segments to transmit and the events to publish.
//! The surrounding application performs the raw-IP sends, publishes the
//! events on its condition variable, and does the blocking that the
//! synchronous socket calls need.
use vstd::prelude::*;
use vstd::slice::slice_subrange;
use crate::packet::{seq_of, ack_of, flag_of, dest_of, src_of, payload_of, checksum_ok, window_of, has_flag, TCPPacket};
use crate::socket::{
    SockID, Socket, TcpStatus, Transmission, SOCKET_BUFFER_SIZE, RetransmissionQueueEntry, SendParam,
    queue_payload_sum, lemma_queue_sum_nonneg, lemma_queue_sum_push, lemma_queue_sum_drop_first,
};
use crate::tcpflags;

verus! {

/// The wildcard remote address of a listening socket.
pub const UNDETERMINED_IP_ADDR: u32 = 0;

/// The wildcard remote port of a listening socket.
pub const UNDETERMINED_PORT: u16 = 0;

/// How many times a segment is handed to the network before it is given up.
pub const MAX_TRANSMISSION: u8 = 5;

/// How long a segment may wait unacknowledged before it is resent.
pub const RETRANSMISSION_TIMEOUT_MS: u64 = 3000;

/// Maximum number of payload bytes in one segment.
pub const MSS: usize = 1460;

/// First local port that `connect` may pick.
pub const PORT_RANGE_START: u16 = 40000;

/// First local port past the range that `connect` may pick.
pub const PORT_RANGE_END: u16 = 60000;

/// Smallest allowed initial send sequence number.
pub const ISS_MIN: u32 = 1;

/// One past the largest allowed initial send sequence number.
pub const ISS_END: u32 = 0x8000_0000;

/// What a blocked caller is waiting to happen on a socket.
#[derive(PartialEq, Eq, Structural, Clone, Copy, Debug)]
pub enum TCPEventKind {
    ConnectionCompleted,
    Acked,
    DataArrived,
    ConnectionClosed,
}

/// An event to publish on the wait channel: a socket and what happened.
#[derive(PartialEq, Eq, Structural, Clone, Copy, Debug)]
pub struct TCPEvent {
    pub sock_id: SockID,
    pub kind: TCPEventKind,
}

impl TCPEvent {
    pub fn new(sock_id: SockID, kind: TCPEventKind) -> (r: Self)
        ensures
            r.sock_id == sock_id,
            r.kind == kind,
    {
        Self { sock_id, kind }
    }
}

/// What a step asks the surrounding application to do: segments to put on
/// the wire and events to publish to waiting callers, each in order.
pub struct Effects {
    pub transmissions: Vec<Transmission>,
    pub events: Vec<TCPEvent>,
}

impl Effects {
    pub fn new() -> (r: Self)
        ensures
            r.transmissions@.len() == 0,
            r.events@.len() == 0,
    {
        Self { transmissions: Vec::new(), events: Vec::new() }
    }

    /// Records an event for the application to publish.
    pub fn publish_event(&mut self, sock_id: SockID, kind: TCPEventKind)
        ensures
            final(self).events@ == old(self).events@.push(TCPEvent { sock_id, kind }),
            final(self).transmissions@ == old(self).transmissions@,
    {
        self.events.push(TCPEvent { sock_id, kind });
    }
}

/// What a `close` call asks of its caller: wait for `ConnectionClosed`
/// and then remove the socket, nothing (the socket was removed here), or
/// nothing at all.
#[derive(PartialEq, Eq, Structural, Clone, Copy, Debug)]
pub enum CloseStep {
    /// Wait for `ConnectionClosed` on this socket, then remove it.
    AwaitClose,
    /// The socket was removed; the close is complete.
    Removed,
    /// The socket was in no state a close acts on.
    Ignored,
}

/// The errors the API surfaces to callers.
#[derive(PartialEq, Eq, Structural, Clone, Copy, Debug)]
pub enum TcpError {
    /// The given identifier is not in the socket table.
    NoSuchSocket,
    /// `accept` found the listener's queue of completed connections empty.
    NoConnectedSocket,
    /// Every candidate local port was already taken.
    NoAvailablePort,
    /// No usable local source address was produced for the remote.
    AddressResolutionFailed,
    /// The raw-socket send or receive failed.
    IoFailure,
}


/// In-order bytes sitting unread at the front of the receive buffer.
pub open spec fn received_size(s: Socket) -> int {
    SOCKET_BUFFER_SIZE - s.recv_param.window
}

/// Where a segment's payload lands in the receive buffer.
pub open spec fn buffer_offset(s: Socket, p: Seq<u8>) -> int {
    received_size(s) + seq_of(p) - s.recv_param.next
}

/// How many of the segment's payload bytes fit in the buffer.
pub open spec fn copy_size(s: Socket, p: Seq<u8>) -> int {
    if payload_of(p).len() <= SOCKET_BUFFER_SIZE - buffer_offset(s, p) {
        payload_of(p).len() as int
    } else {
        SOCKET_BUFFER_SIZE - buffer_offset(s, p)
    }
}

/// The segment carries data the buffer can place: it starts at or after
/// the next expected byte, within the open window, and what fits of it
/// ends inside the sequence space.
pub open spec fn data_placeable(s: Socket, p: Seq<u8>) -> bool {
    &&& payload_of(p).len() > 0
    &&& seq_of(p) >= s.recv_param.next
    &&& seq_of(p) - s.recv_param.next <= s.recv_param.window
    &&& seq_of(p) + copy_size(s, p) <= u32::MAX
}

/// Payload placement preserves the stream's order: against one receive
/// state, the buffer offsets at which two segments' bytes land differ by
/// exactly the distance of their sequence numbers.  Bytes therefore sit
/// in the receive buffer in sequence order whatever order the segments
/// arrive in, and a reader that takes prefixes of the buffer reads the
/// stream in the sender's order.
pub proof fn lemma_placement_preserves_stream_order(s: Socket, p1: Seq<u8>, p2: Seq<u8>)
    ensures
        buffer_offset(s, p2) - buffer_offset(s, p1) == seq_of(p2) - seq_of(p1),
{
}

/// An acknowledgment that advances the send window: past the current
/// mark, no further than what was sent.
pub open spec fn ack_advances(s: Socket, p: Seq<u8>) -> bool {
    s.send_param.unacked_seq < ack_of(p) <= s.send_param.next
}

/// The placed tail after a segment's payload is handled: pushed to the end
/// of what fits of the payload, where that passes it.
pub open spec fn tail_after_data(s: Socket, p: Seq<u8>) -> int {
    if data_placeable(s, p) && s.recv_param.tail < seq_of(p) + copy_size(s, p) {
        seq_of(p) + copy_size(s, p)
    } else {
        s.recv_param.tail as int
    }
}

/// The in-order mark after a segment's payload is handled: advanced to the
/// tail exactly when the payload arrived in order.
pub open spec fn next_after_data(s: Socket, p: Seq<u8>) -> int {
    if data_placeable(s, p) && seq_of(p) == s.recv_param.next {
        tail_after_data(s, p)
    } else {
        s.recv_param.next as int
    }
}

/// The receive window after a segment's payload is handled: narrowed by
/// the newly contiguous bytes exactly when the payload arrived in order.
pub open spec fn window_after_data(s: Socket, p: Seq<u8>) -> int {
    if data_placeable(s, p) && seq_of(p) == s.recv_param.next {
        s.recv_param.window - (tail_after_data(s, p) - seq_of(p))
    } else {
        s.recv_param.window as int
    }
}

/// The unacknowledged mark after a segment's acknowledgment is handled.
pub open spec fn unacked_after_ack(s: Socket, p: Seq<u8>) -> int {
    if ack_advances(s, p) {
        ack_of(p)
    } else {
        s.send_param.unacked_seq as int
    }
}

/// A closing segment this side will act on: the peer's FIN, at or past
/// everything received so far.
pub open spec fn fin_acceptable(s: Socket, p: Seq<u8>) -> bool {
    &&& has_flag(p, crate::tcpflags::FIN)
    &&& seq_of(p) >= next_after_data(s, p)
    &&& seq_of(p) < u32::MAX
}

/// `t` resends, byte for byte, a segment that sits in some socket's
/// retransmission queue of `pre`, has waited out the timeout by `now_ms`,
/// still has attempts left, and is not yet acknowledged.
pub open spec fn retransmission_of(pre: TCP, t: Transmission, now_ms: u64) -> bool {
    exists|j: int, e: int|
        #![auto]
        {
            &&& 0 <= j < pre.sockets@.len()
            &&& 0 <= e < pre.sockets@[j].retransmission_queue@.len()
            &&& t.packet@ == pre.sockets@[j].retransmission_queue@[e].packet@
            &&& now_ms >= pre.sockets@[j].retransmission_queue@[e].latest_transmission_time
                + RETRANSMISSION_TIMEOUT_MS
            &&& pre.sockets@[j].retransmission_queue@[e].transmission_count < MAX_TRANSMISSION
            &&& seq_of(t.packet@) >= pre.sockets@[j].send_param.unacked_seq
            &&& t.remote_addr == pre.sockets@[j].remote_addr
        }
}

/// The events one timer pass publishes while discarding the first `k`
/// entries of queue `q`, for the socket `id` in state `status` with
/// unacknowledged mark `un`: an `Acked` for each entry already
/// acknowledged, followed by `ConnectionClosed` when that entry carried
/// FIN and the socket stands in `LastAck`; a given-up entry publishes
/// nothing.
pub open spec fn timer_discard_events(q: Seq<RetransmissionQueueEntry>, k: int, id: SockID,
    status: TcpStatus, un: u32) -> Seq<TCPEvent>
    decreases k,
{
    if k <= 0 {
        Seq::empty()
    } else {
        timer_discard_events(q, k - 1, id, status, un) + (if seq_of(q[k - 1].packet@) < un {
            seq![TCPEvent { sock_id: id, kind: TCPEventKind::Acked }] + (if has_flag(
                q[k - 1].packet@,
                tcpflags::FIN,
            ) && status == TcpStatus::LastAck {
                seq![TCPEvent { sock_id: id, kind: TCPEventKind::ConnectionClosed }]
            } else {
                Seq::empty()
            })
        } else {
            Seq::empty()
        })
    }
}

/// What one timer pass does to a socket's retransmission queue: some
/// front run of entries — each either acknowledged (sequence before the
/// unacknowledged mark) or out of attempts after its timeout — is
/// discarded; then either the pass stops (at a front entry still waiting
/// in its timeout, or an empty queue) with nothing sent, or the front
/// entry, timed out with attempts left, is resent and goes to the back
/// with its attempt count raised and its clock reset.
pub open spec fn timer_queue_step(pre: Socket, post: Socket, now_ms: u64, tx_appended: int,
    appended_events: Seq<TCPEvent>) -> bool {
    let q = pre.retransmission_queue@;
    let q2 = post.retransmission_queue@;
    let un = pre.send_param.unacked_seq;
    exists|k: int|
        #![auto]
        {
            &&& 0 <= k <= q.len()
            &&& (forall|j: int|
                0 <= j < k ==> seq_of(q[j].packet@) < un || (now_ms
                    >= q[j].latest_transmission_time + RETRANSMISSION_TIMEOUT_MS
                    && q[j].transmission_count >= MAX_TRANSMISSION))
            &&& appended_events == timer_discard_events(q, k, pre.sock_id(), pre.status, un)
            &&& ((q2 == q.skip(k) && tx_appended == 0 && (k < q.len() ==> seq_of(q[k].packet@)
                >= un && now_ms < q[k].latest_transmission_time + RETRANSMISSION_TIMEOUT_MS))
                || (k < q.len() && seq_of(q[k].packet@) >= un && now_ms
                    >= q[k].latest_transmission_time + RETRANSMISSION_TIMEOUT_MS
                    && q[k].transmission_count < MAX_TRANSMISSION && tx_appended == 1 && q2
                    == q.skip(k + 1).push(RetransmissionQueueEntry {
                    packet: q[k].packet,
                    latest_transmission_time: now_ms,
                    transmission_count: (q[k].transmission_count + 1) as u8,
                })))
        }
}

/// The first `n` sockets of `pre` were each stepped as one timer pass
/// allows: the queue evolved per [`timer_queue_step`], the events that
/// step publishes stand as one contiguous segment of the appended events,
/// and when the step resent a segment, a transmission of exactly those
/// bytes toward that socket's peer was appended.
pub open spec fn timer_pass_upto(pre: TCP, post: TCP, now_ms: u64, tx0: Seq<Transmission>,
    tx1: Seq<Transmission>, ev0: Seq<TCPEvent>, ev1: Seq<TCPEvent>, n: int) -> bool {
    forall|j: int|
        #![trigger pre.sockets@[j]]
        0 <= j < n ==> exists|a: int, b: int|
            #![auto]
            {
                &&& ev0.len() <= a <= b <= ev1.len()
                &&& (timer_queue_step(
                    pre.sockets@[j],
                    post.sockets@[j],
                    now_ms,
                    0,
                    ev1.subrange(a, b),
                ) || (timer_queue_step(
                    pre.sockets@[j],
                    post.sockets@[j],
                    now_ms,
                    1,
                    ev1.subrange(a, b),
                ) && exists|m: int, e: int|
                    #![auto]
                    {
                        &&& tx0.len() <= m < tx1.len()
                        &&& 0 <= e < pre.sockets@[j].retransmission_queue@.len()
                        &&& tx1[m].packet@ == pre.sockets@[j].retransmission_queue@[e].packet@
                        &&& tx1[m].remote_addr == pre.sockets@[j].remote_addr
                    }))
            }
}

/// The retransmission queue holds its segments in sequence order.
pub open spec fn queue_sorted(q: Seq<RetransmissionQueueEntry>) -> bool {
    forall|a: int, b: int|
        0 <= a < b < q.len() ==> seq_of((#[trigger] q[a]).packet@) <= seq_of(
            (#[trigger] q[b]).packet@)
}

/// What handling a segment in `CloseWait` or `LastAck` guarantees.
pub open spec fn close_handler_post(pre: TCP, post: TCP, i: int, p: Seq<u8>) -> bool {
    &&& post.sockets@.len() == pre.sockets@.len()
    &&& (forall|j: int|
        0 <= j < pre.sockets@.len() && j != i ==> post.sockets@[j] == pre.sockets@[j])
    &&& ({
        let s0 = pre.sockets@[i];
        let s1 = post.sockets@[i];
        &&& (s0.send_param.unacked_seq <= ack_of(p) <= s0.send_param.next ==> s1 == (Socket {
            send_param: s1.send_param,
            ..s0
        }) && s1.send_param == (SendParam {
            unacked_seq: s1.send_param.unacked_seq,
            ..s0.send_param
        }) && s1.send_param.unacked_seq == ack_of(p))
        &&& (!(s0.send_param.unacked_seq <= ack_of(p) <= s0.send_param.next) ==> s1 == s0)
    })
}

/// What handling a segment in `FinWait1` guarantees.
pub open spec fn finwait1_handler_post(pre: TCP, post: TCP, i: int, p: Seq<u8>, tx0: Seq<
    Transmission>, tx1: Seq<Transmission>, ev0: Seq<TCPEvent>, ev1: Seq<TCPEvent>) -> bool {
    &&& post.sockets@.len() == pre.sockets@.len()
    &&& (forall|j: int|
        0 <= j < pre.sockets@.len() && j != i ==> post.sockets@[j] == pre.sockets@[j])
    &&& ({
        let s0 = pre.sockets@[i];
        let s1 = post.sockets@[i];
        let fin_acked = unacked_after_ack(s0, p) == s0.send_param.next;
        &&& s1.sock_id() == s0.sock_id()
        &&& (!has_flag(p, tcpflags::ACK) ==> s1 == s0 && tx1 == tx0 && ev1 == ev0)
        &&& (has_flag(p, tcpflags::ACK) ==> {
            &&& s1.send_param.unacked_seq == unacked_after_ack(s0, p)
            &&& (data_placeable(s0, p) ==> (forall|j: int|
                buffer_offset(s0, p) <= j < buffer_offset(s0, p) + copy_size(s0, p)
                    ==> s1.recv_buffer@[j] == payload_of(p)[j - buffer_offset(s0, p)]))
            &&& (forall|j: int|
                0 <= j < SOCKET_BUFFER_SIZE && !(data_placeable(s0, p) && buffer_offset(s0, p)
                    <= j < buffer_offset(s0, p) + copy_size(s0, p)) ==> s1.recv_buffer@[j]
                    == s0.recv_buffer@[j])
            &&& (fin_acked ==> s1.status == TcpStatus::FinWait2)
            &&& (!fin_acked ==> s1.status == TcpStatus::FinWait1)
            &&& (fin_acked && has_flag(p, tcpflags::FIN) && next_after_data(s0, p) < u32::MAX
                ==> {
                &&& s1.recv_param.next == next_after_data(s0, p) + 1
                &&& ev1.len() > ev0.len()
                &&& ev1.last() == (TCPEvent {
                    sock_id: s0.sock_id(),
                    kind: TCPEventKind::ConnectionClosed,
                })
                &&& tx1.len() > tx0.len()
                &&& ({
                    let t = tx1.last();
                    &&& t.remote_addr == s0.remote_addr
                    &&& seq_of(t.packet@) == s0.send_param.next
                    &&& ack_of(t.packet@) == next_after_data(s0, p) + 1
                    &&& flag_of(t.packet@) == tcpflags::ACK
                    &&& payload_of(t.packet@).len() == 0
                    &&& window_of(t.packet@) == window_after_data(s0, p)
                    &&& checksum_ok(s0.local_addr, s0.remote_addr, t.packet@)
                })
            })
        })
    })
    &&& (forall|j: int| 0 <= j < tx0.len() ==> tx1[j] == tx0[j])
    &&& (forall|j: int| 0 <= j < ev0.len() ==> ev1[j] == ev0[j])
}

/// What handling a segment in `FinWait2` guarantees.
pub open spec fn finwait2_handler_post(pre: TCP, post: TCP, i: int, p: Seq<u8>, tx0: Seq<
    Transmission>, tx1: Seq<Transmission>, ev0: Seq<TCPEvent>, ev1: Seq<TCPEvent>) -> bool {
    &&& post.sockets@.len() == pre.sockets@.len()
    &&& (forall|j: int|
        0 <= j < pre.sockets@.len() && j != i ==> post.sockets@[j] == pre.sockets@[j])
    &&& ({
        let s0 = pre.sockets@[i];
        let s1 = post.sockets@[i];
        &&& s1.sock_id() == s0.sock_id()
        &&& s1.status == TcpStatus::FinWait2
        &&& (!has_flag(p, tcpflags::ACK) ==> s1 == s0 && tx1 == tx0 && ev1 == ev0)
        &&& (has_flag(p, tcpflags::ACK) ==> {
            &&& s1.send_param.unacked_seq == unacked_after_ack(s0, p)
            &&& (data_placeable(s0, p) ==> (forall|j: int|
                buffer_offset(s0, p) <= j < buffer_offset(s0, p) + copy_size(s0, p)
                    ==> s1.recv_buffer@[j] == payload_of(p)[j - buffer_offset(s0, p)]))
            &&& (forall|j: int|
                0 <= j < SOCKET_BUFFER_SIZE && !(data_placeable(s0, p) && buffer_offset(s0, p)
                    <= j < buffer_offset(s0, p) + copy_size(s0, p)) ==> s1.recv_buffer@[j]
                    == s0.recv_buffer@[j])
            &&& (has_flag(p, tcpflags::FIN) && next_after_data(s0, p) < u32::MAX ==> {
                &&& s1.recv_param.next == next_after_data(s0, p) + 1
                &&& ev1.len() > ev0.len()
                &&& ev1.last() == (TCPEvent {
                    sock_id: s0.sock_id(),
                    kind: TCPEventKind::ConnectionClosed,
                })
                &&& tx1.len() > tx0.len()
                &&& ({
                    let t = tx1.last();
                    &&& t.remote_addr == s0.remote_addr
                    &&& ack_of(t.packet@) == next_after_data(s0, p) + 1
                    &&& flag_of(t.packet@) == tcpflags::ACK
                    &&& payload_of(t.packet@).len() == 0
                    &&& window_of(t.packet@) == window_after_data(s0, p)
                    &&& checksum_ok(s0.local_addr, s0.remote_addr, t.packet@)
                })
            })
        })
    })
    &&& (forall|j: int| 0 <= j < tx0.len() ==> tx1[j] == tx0[j])
    &&& (forall|j: int| 0 <= j < ev0.len() ==> ev1[j] == ev0[j])
}

/// What handling a segment in `SynSent` guarantees.
pub open spec fn synsent_handler_post(pre: TCP, post: TCP, i: int, p: Seq<u8>, tx0: Seq<
    Transmission>, tx1: Seq<Transmission>, ev0: Seq<TCPEvent>, ev1: Seq<TCPEvent>) -> bool {
    &&& post.sockets@.len() == pre.sockets@.len()
    &&& (forall|j: int|
        0 <= j < pre.sockets@.len() && j != i ==> post.sockets@[j] == pre.sockets@[j])
    &&& ({
        let s0 = pre.sockets@[i];
        let s1 = post.sockets@[i];
        let accepts = has_flag(p, tcpflags::ACK) && s0.send_param.unacked_seq <= ack_of(p)
            <= s0.send_param.next && has_flag(p, tcpflags::SYN) && seq_of(p) < u32::MAX;
        &&& s1.sock_id() == s0.sock_id()
        &&& (!accepts ==> s1 == s0 && tx1 == tx0 && ev1 == ev0)
        &&& (accepts ==> {
            let opened = ack_of(p) > s0.send_param.initial_seq;
            &&& s1.recv_param.next == seq_of(p) + 1
            &&& s1.recv_param.initial_seq == seq_of(p)
            &&& s1.send_param.unacked_seq == ack_of(p)
            &&& s1.send_param.window == window_of(p)
            &&& s1.send_param.next == s0.send_param.next
            &&& s1.status == (if opened {
                TcpStatus::Established
            } else {
                TcpStatus::SynRcvd
            })
            &&& s1.retransmission_queue@ == s0.retransmission_queue@
            &&& tx1.len() == tx0.len() + 1
            &&& ({
                let t = tx1.last();
                &&& t.remote_addr == s0.remote_addr
                &&& src_of(t.packet@) == s0.local_port
                &&& dest_of(t.packet@) == s0.remote_port
                &&& seq_of(t.packet@) == s0.send_param.next
                &&& ack_of(t.packet@) == seq_of(p) + 1
                &&& flag_of(t.packet@) == tcpflags::ACK
                &&& payload_of(t.packet@).len() == 0
                &&& window_of(t.packet@) == s0.recv_param.window
                &&& checksum_ok(s0.local_addr, s0.remote_addr, t.packet@)
            })
            &&& (opened ==> ev1 == ev0.push(TCPEvent {
                sock_id: s0.sock_id(),
                kind: TCPEventKind::ConnectionCompleted,
            }))
            &&& (!opened ==> ev1 == ev0)
        })
    })
    &&& (forall|j: int| 0 <= j < tx0.len() ==> tx1[j] == tx0[j])
}

/// What handling a segment in `SynRcvd` guarantees.
pub open spec fn synrcvd_handler_post(pre: TCP, post: TCP, i: int, p: Seq<u8>, tx0: Seq<
    Transmission>, tx1: Seq<Transmission>, ev0: Seq<TCPEvent>, ev1: Seq<TCPEvent>) -> bool {
    &&& tx1 == tx0
    &&& ({
        let s0 = pre.sockets@[i];
        let accepts = has_flag(p, tcpflags::ACK) && s0.send_param.unacked_seq <= ack_of(p)
            <= s0.send_param.next;
        &&& (has_flag(p, tcpflags::SYN) ==> post.sockets@ == pre.sockets@.remove(i) && ev1
            == ev0)
        &&& (!has_flag(p, tcpflags::SYN) ==> {
            let s1 = post.sockets@[i];
            &&& post.sockets@.len() == pre.sockets@.len()
            &&& s1.sock_id() == s0.sock_id()
            &&& (!accepts ==> s1 == s0 && ev1 == ev0)
            &&& (accepts ==> {
                &&& s1.status == TcpStatus::Established
                &&& s1.send_param.unacked_seq == ack_of(p)
                &&& s1.recv_param.next == seq_of(p)
                &&& s1.retransmission_queue@ == s0.retransmission_queue@
                &&& (s0.listening_socket is Some && pre.has_socket(s0.listening_socket->0)
                    && s0.listening_socket->0 != s0.sock_id() ==> {
                    let ls = s0.listening_socket->0;
                    &&& post.socket_of(ls).connected_connection_queue@ == pre.socket_of(
                        ls).connected_connection_queue@.push(s0.sock_id())
                    &&& ev1 == ev0.push(TCPEvent {
                        sock_id: ls,
                        kind: TCPEventKind::ConnectionCompleted,
                    })
                })
                &&& (s0.listening_socket is None ==> ev1 == ev0)
                &&& (s0.listening_socket is Some && !(pre.has_socket(s0.listening_socket->0)
                    && s0.listening_socket->0 != s0.sock_id()) ==> ev1 == ev0 && (forall|j: int|
                    0 <= j < pre.sockets@.len() && j != i ==> post.sockets@[j]
                        == pre.sockets@[j]))
            })
            &&& (forall|j: int|
                0 <= j < pre.sockets@.len() && j != i && pre.sockets@[j].sock_id() != (match
                    s0.listening_socket {
                    Some(ls) => ls,
                    None => s0.sock_id(),
                }) ==> post.sockets@[j] == pre.sockets@[j])
        })
    })
}

/// What handling a segment on a listener guarantees.
pub open spec fn listen_handler_post(pre: TCP, post: TCP, i: int, p: Seq<u8>, remote_addr: u32,
    iss: u32, now_ms: u64, tx0: Seq<Transmission>, tx1: Seq<Transmission>, ev0: Seq<TCPEvent>,
    ev1: Seq<TCPEvent>) -> bool {
    &&& ({
        let s0 = pre.sockets@[i];
        let accepts = !has_flag(p, tcpflags::ACK) && has_flag(p, tcpflags::SYN) && seq_of(p)
            < u32::MAX;
        let child_id = SockID(s0.local_addr, remote_addr, s0.local_port, src_of(p) as u16);
        &&& (!accepts ==> post.sockets@ == pre.sockets@ && tx1 == tx0 && ev1 == ev0)
        &&& (accepts ==> {
            let child = post.socket_of(child_id);
            &&& post.has_socket(child_id)
            &&& child.status == TcpStatus::SynRcvd
            &&& child.local_addr == s0.local_addr
            &&& child.local_port == s0.local_port
            &&& child.remote_addr == remote_addr
            &&& child.remote_port == src_of(p)
            &&& child.recv_param.next == seq_of(p) + 1
            &&& child.recv_param.initial_seq == seq_of(p)
            &&& child.send_param.initial_seq == iss
            &&& child.send_param.unacked_seq == iss
            &&& child.send_param.next == iss + 1
            &&& child.send_param.window == window_of(p)
            &&& child.listening_socket == Some(s0.sock_id())
            &&& child.retransmission_queue@.len() == 1
            &&& seq_of(child.retransmission_queue@[0].packet@) == iss
            &&& child.retransmission_queue@[0].latest_transmission_time == now_ms
            &&& child.retransmission_queue@[0].transmission_count == 1
            &&& ev1 == ev0
            &&& tx1.len() == tx0.len() + 1
            &&& ({
                let t = tx1.last();
                &&& t.remote_addr == remote_addr
                &&& src_of(t.packet@) == s0.local_port
                &&& dest_of(t.packet@) == src_of(p)
                &&& seq_of(t.packet@) == iss
                &&& ack_of(t.packet@) == seq_of(p) + 1
                &&& flag_of(t.packet@) == (tcpflags::SYN | tcpflags::ACK)
                &&& payload_of(t.packet@).len() == 0
                &&& window_of(t.packet@) == SOCKET_BUFFER_SIZE
                &&& checksum_ok(s0.local_addr, remote_addr, t.packet@)
            })
            &&& (forall|j: int|
                0 <= j < pre.sockets@.len() && pre.sockets@[j].sock_id() != child_id
                    ==> exists|m: int|
                    0 <= m < post.sockets@.len() && post.sockets@[m] == (
                    #[trigger] pre.sockets@[j]))
        })
    })
    &&& (forall|j: int| 0 <= j < tx0.len() ==> tx1[j] == tx0[j])
}

/// What handling a segment in `Established` guarantees, relating the
/// table, the segment bytes and the effect queues before and after.
pub open spec fn established_handler_post(pre: TCP, post: TCP, i: int, p: Seq<u8>, tx0: Seq<
    Transmission>, tx1: Seq<Transmission>, ev0: Seq<TCPEvent>, ev1: Seq<TCPEvent>) -> bool {
    &&& post.sockets@.len() == pre.sockets@.len()
    &&& (forall|j: int|
        0 <= j < pre.sockets@.len() && j != i ==> post.sockets@[j] == pre.sockets@[j])
    &&& ({
        let s0 = pre.sockets@[i];
        let s1 = post.sockets@[i];
        &&& s1.sock_id() == s0.sock_id()
        &&& (!has_flag(p, tcpflags::ACK) ==> s1 == s0 && tx1 == tx0 && ev1 == ev0)
        &&& (has_flag(p, tcpflags::ACK) ==> {
            &&& s1.send_param.unacked_seq == unacked_after_ack(s0, p)
            &&& s1.send_param.next == s0.send_param.next
            &&& (data_placeable(s0, p) ==> (forall|j: int|
                buffer_offset(s0, p) <= j < buffer_offset(s0, p) + copy_size(s0, p)
                    ==> s1.recv_buffer@[j] == payload_of(p)[j - buffer_offset(s0, p)]))
            &&& (forall|j: int|
                0 <= j < SOCKET_BUFFER_SIZE && !(data_placeable(s0, p) && buffer_offset(s0, p)
                    <= j < buffer_offset(s0, p) + copy_size(s0, p)) ==> s1.recv_buffer@[j]
                    == s0.recv_buffer@[j])
            &&& (fin_acceptable(s0, p) ==> {
                &&& s1.status == TcpStatus::CloseWait
                &&& s1.recv_param.next == seq_of(p) + 1
                &&& ev1.len() > ev0.len()
                &&& ev1.last() == (TCPEvent {
                    sock_id: s0.sock_id(),
                    kind: TCPEventKind::DataArrived,
                })
                &&& tx1.len() > tx0.len()
                &&& ({
                    let t = tx1.last();
                    &&& t.remote_addr == s0.remote_addr
                    &&& seq_of(t.packet@) == s0.send_param.next
                    &&& ack_of(t.packet@) == seq_of(p) + 1
                    &&& flag_of(t.packet@) == tcpflags::ACK
                    &&& payload_of(t.packet@).len() == 0
                    &&& window_of(t.packet@) == window_after_data(s0, p)
                    &&& checksum_ok(s0.local_addr, s0.remote_addr, t.packet@)
                })
            })
            &&& (!fin_acceptable(s0, p) ==> {
                &&& s1.status == TcpStatus::Established
                &&& s1.recv_param.next == next_after_data(s0, p)
                &&& s1.recv_param.tail == tail_after_data(s0, p)
                &&& (data_placeable(s0, p) && seq_of(p) == s0.recv_param.next
                    ==> s1.recv_param.window as int == s0.recv_param.window - (tail_after_data(
                    s0,
                    p,
                ) - seq_of(p)))
                &&& (!(data_placeable(s0, p) && seq_of(p) == s0.recv_param.next)
                    ==> s1.recv_param.window == s0.recv_param.window)
                &&& (data_placeable(s0, p) && copy_size(s0, p) > 0 ==> tx1.len() > tx0.len())
                &&& (data_placeable(s0, p) ==> ev1.len() > ev0.len() && ev1.last() == (TCPEvent {
                    sock_id: s0.sock_id(),
                    kind: TCPEventKind::DataArrived,
                }))
            })
        })
    })
    &&& (forall|j: int| 0 <= j < tx0.len() ==> tx1[j] == tx0[j])
    &&& (forall|j: int| 0 <= j < ev0.len() ==> ev1[j] == ev0[j])
    &&& (forall|j: int|
        ev0.len() <= j < ev1.len() ==> (#[trigger] ev1[j]).sock_id
            == pre.sockets@[i].sock_id() && (ev1[j].kind == TCPEventKind::Acked || ev1[j].kind
            == TCPEventKind::DataArrived))
}

/// The socket table and the state machine that drives it.
pub struct TCP {
    pub sockets: Vec<Socket>,
}

impl TCP {
    /// There is a socket under this identifier.
    pub open spec fn has_socket(&self, id: SockID) -> bool {
        exists|i: int| 0 <= i < self.sockets@.len() && self.sockets@[i].sock_id() == id
    }

    /// The index of the socket with this identifier.
    pub open spec fn idx_of(&self, id: SockID) -> int {
        choose|i: int| 0 <= i < self.sockets@.len() && self.sockets@[i].sock_id() == id
    }

    /// The socket with this identifier.
    pub open spec fn socket_of(&self, id: SockID) -> Socket {
        self.sockets@[self.idx_of(id)]
    }

    /// No two sockets share an identifier.
    pub open spec fn ids_unique(&self) -> bool {
        forall|i: int, j: int|
            0 <= i < j < self.sockets@.len() ==> (#[trigger] self.sockets@[i]).sock_id() != (
            #[trigger] self.sockets@[j]).sock_id()
    }

    /// Some socket uses this local port.
    pub open spec fn port_in_use(&self, port: u16) -> bool {
        exists|i: int|
            0 <= i < self.sockets@.len() && (#[trigger] self.sockets@[i]).local_port == port
    }

    /// The table's invariant: identifiers are unique and every control
    /// block is well formed.
    pub open spec fn wf(&self) -> bool {
        &&& self.ids_unique()
        &&& forall|i: int| 0 <= i < self.sockets@.len() ==> (#[trigger] self.sockets@[i]).wf()
        &&& forall|i: int|
            0 <= i < self.sockets@.len() ==> (#[trigger] self.sockets@[i]).budget_ok()
    }

    /// The table keeps the same identifiers at the same indices, and every
    /// socket other than `id` is untouched.
    pub open spec fn same_table_except(pre: TCP, post: TCP, id: SockID) -> bool {
        &&& post.sockets@.len() == pre.sockets@.len()
        &&& forall|i: int|
            0 <= i < pre.sockets@.len() ==> (#[trigger] post.sockets@[i]).sock_id() == (
            #[trigger] pre.sockets@[i]).sock_id()
        &&& forall|i: int|
            0 <= i < pre.sockets@.len() && (#[trigger] pre.sockets@[i]).sock_id() != id
                ==> post.sockets@[i] == pre.sockets@[i]
    }

    /// `post` is `pre` with `s` inserted: replacing the socket that had the
    /// same identifier, or appended when none did.
    pub open spec fn table_after_insert(pre: TCP, post: TCP, s: Socket) -> bool {
        if pre.has_socket(s.sock_id()) {
            post.sockets@ == pre.sockets@.update(pre.idx_of(s.sock_id()), s)
        } else {
            post.sockets@ == pre.sockets@.push(s)
        }
    }

    /// The invariants every operation of this engine preserves, read off a
    /// well-formed table: in each socket the unacknowledged mark never
    /// passes the send cursor and the in-order mark never passes the
    /// placed tail; the send window and the queued payload bytes together
    /// never exceed a 16-bit window; and no two sockets share an
    /// identifier.
    pub proof fn lemma_table_invariants(&self)
        requires
            self.wf(),
        ensures
            forall|i: int|
                0 <= i < self.sockets@.len() ==> (
                #[trigger] self.sockets@[i]).send_param.unacked_seq
                    <= self.sockets@[i].send_param.next,
            forall|i: int|
                0 <= i < self.sockets@.len() ==> (
                #[trigger] self.sockets@[i]).recv_param.next
                    <= self.sockets@[i].recv_param.tail,
            forall|i: int|
                0 <= i < self.sockets@.len() ==> (
                #[trigger] self.sockets@[i]).send_param.window as int + queue_payload_sum(
                    self.sockets@[i].retransmission_queue@,
                ) <= 0xFFFF,
            forall|i: int, j: int|
                0 <= i < j < self.sockets@.len() ==> (#[trigger] self.sockets@[i]).sock_id()
                    != (#[trigger] self.sockets@[j]).sock_id(),
    {
    }

    /// An index that holds an identifier is the index the specification
    /// names for it.
    pub proof fn lemma_idx_of(&self, i: int)
        requires
            self.ids_unique(),
            0 <= i < self.sockets@.len(),
        ensures
            self.idx_of(self.sockets@[i].sock_id()) == i,
            self.has_socket(self.sockets@[i].sock_id()),
    {
        let id = self.sockets@[i].sock_id();
        assert(self.has_socket(id));
        let j = self.idx_of(id);
        if i != j {
            assert(self.sockets@[i].sock_id() != self.sockets@[j].sock_id());
        }
    }

    /// An empty table.
    pub fn new() -> (r: Self)
        ensures
            r.wf(),
            r.sockets@.len() == 0,
    {
        Self { sockets: Vec::new() }
    }

    /// The index of the socket with this identifier, if any.
    pub fn lookup(&self, id: SockID) -> (r: Option<usize>)
        requires
            self.wf(),
        ensures
            match r {
                Some(i) => 0 <= i < self.sockets@.len() && self.sockets@[i as int].sock_id()
                    == id && self.has_socket(id) && self.idx_of(id) == i,
                None => !self.has_socket(id),
            },
    {
        let mut i: usize = 0;
        while i < self.sockets.len()
            invariant
                self.wf(),
                i <= self.sockets@.len(),
                forall|j: int| 0 <= j < i ==> (#[trigger] self.sockets@[j]).sock_id() != id,
            decreases self.sockets@.len() - i,
        {
            if self.sockets[i].get_sock_id() == id {
                proof {
                    self.lemma_idx_of(i as int);
                }
                return Some(i);
            }
            i = i + 1;
        }
        None
    }

    /// Puts a socket in the table, replacing any socket that already had
    /// its identifier.
    fn insert_socket(&mut self, socket: Socket)
        requires
            old(self).wf(),
            socket.wf(),
            socket.budget_ok(),
        ensures
            final(self).wf(),
            final(self).has_socket(socket.sock_id()),
            final(self).socket_of(socket.sock_id()) == socket,
            TCP::table_after_insert(*old(self), *final(self), socket),
    {
        let id = socket.get_sock_id();
        let ghost pre = *self;
        match self.lookup(id) {
            Some(i) => {
                self.sockets.set(i, socket);
                proof {
                    assert(self.sockets@[i as int].sock_id() == id);
                    self.lemma_idx_of(i as int);
                }
            },
            None => {
                self.sockets.push(socket);
                proof {
                    let n = pre.sockets@.len() as int;
                    assert(self.sockets@[n].sock_id() == id);
                    assert forall|a: int, b: int|
                        0 <= a < b < self.sockets@.len() implies (
                    #[trigger] self.sockets@[a]).sock_id() != (
                    #[trigger] self.sockets@[b]).sock_id() by {
                        if b == n {
                            assert(self.sockets@[a] == pre.sockets@[a]);
                        }
                    }
                    self.lemma_idx_of(n);
                }
            },
        }
    }

    /// Removes the socket with this identifier, if it is there.
    pub fn remove_socket(&mut self, id: SockID)
        requires
            old(self).wf(),
        ensures
            final(self).wf(),
            !final(self).has_socket(id),
            old(self).has_socket(id) ==> final(self).sockets@ == old(self).sockets@.remove(
                old(self).idx_of(id)),
            !old(self).has_socket(id) ==> final(self).sockets@ == old(self).sockets@,
    {
        let ghost pre = *self;
        match self.lookup(id) {
            Some(i) => {
                self.sockets.remove(i);
                proof {
                    assert forall|k: int|
                        0 <= k < self.sockets@.len() implies (
                    #[trigger] self.sockets@[k]).sock_id() != id by {
                        if k < i {
                            assert(self.sockets@[k] == pre.sockets@[k]);
                            if pre.sockets@[k].sock_id() == id {
                                pre.lemma_idx_of(k);
                            }
                        } else {
                            assert(self.sockets@[k] == pre.sockets@[k + 1]);
                            if pre.sockets@[k + 1].sock_id() == id {
                                pre.lemma_idx_of(k + 1);
                            }
                        }
                    }
                }
            },
            None => {},
        }
    }

    /// Creates a listening socket on the given local address and port and
    /// returns its identifier.
    pub fn listen(&mut self, local_addr: u32, local_port: u16) -> (r: Result<SockID, TcpError>)
        requires
            old(self).wf(),
        ensures
            final(self).wf(),
            r == Ok::<SockID, TcpError>(SockID(
                local_addr,
                UNDETERMINED_IP_ADDR,
                local_port,
                UNDETERMINED_PORT,
            )),
            final(self).has_socket(r->Ok_0),
            ({
                let s = final(self).socket_of(r->Ok_0);
                &&& s.status == TcpStatus::Listen
                &&& s.local_addr == local_addr
                &&& s.local_port == local_port
                &&& s.remote_addr == UNDETERMINED_IP_ADDR
                &&& s.remote_port == UNDETERMINED_PORT
                &&& s.connected_connection_queue@.len() == 0
                &&& s.retransmission_queue@.len() == 0
                &&& s.send_param.window == SOCKET_BUFFER_SIZE
                &&& s.recv_param.window == SOCKET_BUFFER_SIZE
                &&& s.send_param.next == 0
                &&& s.send_param.unacked_seq == 0
            }),
            TCP::table_after_insert(
                *old(self),
                *final(self),
                final(self).socket_of(r->Ok_0),
            ),
    {
        let socket = Socket::new(
            local_addr,
            UNDETERMINED_IP_ADDR,
            local_port,
            UNDETERMINED_PORT,
            TcpStatus::Listen,
        );
        let sock_id = socket.get_sock_id();
        self.insert_socket(socket);
        Ok(sock_id)
    }

    /// Pops the identifier of a completed connection from the listener's
    /// queue.  The caller is expected to have waited for a
    /// `ConnectionCompleted` event on the listener first.
    pub fn accept(&mut self, sock_id: SockID) -> (r: Result<SockID, TcpError>)
        requires
            old(self).wf(),
        ensures
            final(self).wf(),
            !old(self).has_socket(sock_id) ==> r == Err::<SockID, TcpError>(
                TcpError::NoSuchSocket,
            ) && final(self).sockets@ == old(self).sockets@,
            old(self).has_socket(sock_id) ==> ({
                let q = old(self).socket_of(sock_id).connected_connection_queue@;
                &&& TCP::same_table_except(*old(self), *final(self), sock_id)
                &&& (q.len() == 0 ==> {
                    &&& r == Err::<SockID, TcpError>(TcpError::NoConnectedSocket)
                    &&& final(self).socket_of(sock_id).connected_connection_queue@ == q
                    &&& Socket::only_conn_queue_changed(
                        old(self).socket_of(sock_id),
                        final(self).socket_of(sock_id),
                    )
                })
                &&& (q.len() > 0 ==> {
                    &&& r == Ok::<SockID, TcpError>(q.first())
                    &&& final(self).socket_of(sock_id).connected_connection_queue@
                        == q.drop_first()
                    &&& Socket::only_conn_queue_changed(
                        old(self).socket_of(sock_id),
                        final(self).socket_of(sock_id),
                    )
                })
            }),
    {
        let ghost pre = *self;
        match self.lookup(sock_id) {
            None => Err(TcpError::NoSuchSocket),
            Some(i) => {
                let s = &mut self.sockets[i];
                let popped = s.connected_connection_queue.pop_front();
                proof {
                    pre.lemma_idx_of(i as int);
                    self.lemma_idx_of(i as int);
                }
                match popped {
                    Some(id) => Ok(id),
                    None => Err(TcpError::NoConnectedSocket),
                }
            },
        }
    }

    /// Picks the first of the candidate ports that no socket in the table
    /// uses as its local port; fails with `NoAvailablePort` when every
    /// candidate is taken.
    pub fn select_unused_port(&self, candidates: &Vec<u16>) -> (r: Result<u16, TcpError>)
        requires
            self.wf(),
        ensures
            match r {
                Ok(p) => !self.port_in_use(p) && exists|k: int|
                    0 <= k < candidates@.len() && candidates@[k] == p,
                Err(e) => e == TcpError::NoAvailablePort && forall|k: int|
                    0 <= k < candidates@.len() ==> self.port_in_use(#[trigger] candidates@[k]),
            },
    {
        let mut k: usize = 0;
        while k < candidates.len()
            invariant
                self.wf(),
                k <= candidates@.len(),
                forall|j: int| 0 <= j < k ==> self.port_in_use(#[trigger] candidates@[j]),
            decreases candidates@.len() - k,
        {
            let p = candidates[k];
            let mut i: usize = 0;
            let mut taken = false;
            while i < self.sockets.len()
                invariant
                    self.wf(),
                    i <= self.sockets@.len(),
                    taken ==> self.port_in_use(p),
                    !taken ==> forall|j: int|
                        0 <= j < i ==> (#[trigger] self.sockets@[j]).local_port != p,
                decreases self.sockets@.len() - i,
            {
                if self.sockets[i].local_port == p {
                    taken = true;
                }
                i = i + 1;
            }
            if !taken {
                return Ok(p);
            }
            k = k + 1;
        }
        Err(TcpError::NoAvailablePort)
    }

    /// Creates a connection socket to the remote in `SynSent`, sends the
    /// opening SYN carrying the given initial sequence number, and returns
    /// the identifier the caller then waits on for `ConnectionCompleted`.
    pub fn connect(&mut self, local_addr: u32, remote_addr: u32, local_port: u16, remote_port:
        u16, iss: u32, now_ms: u64, fx: &mut Effects) -> (r: SockID)
        requires
            old(self).wf(),
            ISS_MIN <= iss < ISS_END,
        ensures
            final(self).wf(),
            r == SockID(local_addr, remote_addr, local_port, remote_port),
            final(self).has_socket(r),
            ({
                let s = final(self).socket_of(r);
                &&& s.status == TcpStatus::SynSent
                &&& s.send_param.initial_seq == iss
                &&& s.send_param.unacked_seq == iss
                &&& s.send_param.next == iss + 1
                &&& s.recv_param.window == SOCKET_BUFFER_SIZE
                &&& s.retransmission_queue@.len() == 1
                &&& seq_of(s.retransmission_queue@[0].packet@) == iss
                &&& flag_of(s.retransmission_queue@[0].packet@) == tcpflags::SYN
                &&& s.retransmission_queue@[0].latest_transmission_time == now_ms
                &&& s.retransmission_queue@[0].transmission_count == 1
            }),
            TCP::table_after_insert(*old(self), *final(self), final(self).socket_of(r)),
            final(fx).events@ == old(fx).events@,
            final(fx).transmissions@.len() == old(fx).transmissions@.len() + 1,
            forall|i: int|
                0 <= i < old(fx).transmissions@.len() ==> final(fx).transmissions@[i] == old(
                fx).transmissions@[i],
            ({
                let t = final(fx).transmissions@.last();
                &&& t.remote_addr == remote_addr
                &&& t.packet.wf()
                &&& src_of(t.packet@) == local_port
                &&& dest_of(t.packet@) == remote_port
                &&& seq_of(t.packet@) == iss
                &&& ack_of(t.packet@) == 0
                &&& flag_of(t.packet@) == tcpflags::SYN
                &&& payload_of(t.packet@).len() == 0
                &&& window_of(t.packet@) == SOCKET_BUFFER_SIZE
                &&& checksum_ok(local_addr, remote_addr, t.packet@)
            }),
    {
        let mut socket = Socket::new(
            local_addr,
            remote_addr,
            local_port,
            remote_port,
            TcpStatus::SynSent,
        );
        socket.send_param.initial_seq = iss;
        let empty: Vec<u8> = Vec::new();
        socket.send_tcp_packet(iss, 0, tcpflags::SYN, empty.as_slice(), now_ms, &mut
            fx.transmissions);
        socket.send_param.unacked_seq = iss;
        socket.send_param.next = iss + 1;
        proof {
            assert(socket.retransmission_queue@ =~= Seq::empty().push(
                socket.retransmission_queue@.last()));
            lemma_queue_sum_push(Seq::empty(), socket.retransmission_queue@.last());
            assert(queue_payload_sum(socket.retransmission_queue@) == 0);
        }
        let sock_id = socket.get_sock_id();
        self.insert_socket(socket);
        sock_id
    }

    /// Pops acknowledged segments — those whose sequence number is now
    /// before `unacked_seq` — off the front of the retransmission queue,
    /// crediting the send window with each one's payload length and
    /// publishing an `Acked` event for each.
    pub fn delete_acked_segment_from_retransmission_queue(&mut self, i: usize, fx: &mut Effects)
        requires
            old(self).wf(),
            i < old(self).sockets@.len(),
        ensures
            final(self).wf(),
            final(self).sockets@.len() == old(self).sockets@.len(),
            forall|j: int|
                0 <= j < old(self).sockets@.len() && j != i ==> final(self).sockets@[j] == old(
                self).sockets@[j],
            Socket::same_except_queue_and_send_window(
                old(self).sockets@[i as int],
                final(self).sockets@[i as int],
            ),
            final(fx).transmissions@ == old(fx).transmissions@,
            ({
                let pre = old(self).sockets@[i as int];
                let post = final(self).sockets@[i as int];
                let q = pre.retransmission_queue@;
                let q2 = post.retransmission_queue@;
                exists|k: int|
                    #![auto]
                    {
                        &&& 0 <= k <= q.len()
                        &&& q2 == q.skip(k)
                        &&& (forall|j: int|
                            0 <= j < k ==> seq_of(q[j].packet@)
                                < pre.send_param.unacked_seq)
                        &&& (k < q.len() ==> seq_of(q[k].packet@)
                            >= pre.send_param.unacked_seq)
                        &&& post.send_param.window as int == pre.send_param.window as int
                            + queue_payload_sum(q) - queue_payload_sum(q2)
                        &&& final(fx).events@.len() == old(fx).events@.len() + k
                    }
            }),
            forall|j: int|
                0 <= j < old(fx).events@.len() ==> final(fx).events@[j] == old(fx).events@[j],
            forall|j: int|
                old(fx).events@.len() <= j < final(fx).events@.len() ==> final(fx).events@[j]
                    == (TCPEvent {
                    sock_id: old(self).sockets@[i as int].sock_id(),
                    kind: TCPEventKind::Acked,
                }),
    {
        let ghost pre_t = *old(self);
        let ghost pre = pre_t.sockets@[i as int];
        let ghost q = pre.retransmission_queue@;
        let ghost mut k: int = 0;
        let sock_id = self.sockets[i].get_sock_id();
        proof {
            assert(q.skip(0) =~= q);
            assert(fx.events@ =~= old(fx).events@ + timer_discard_events(
                q,
                0,
                pre.sock_id(),
                pre.status,
                pre.send_param.unacked_seq,
            ));
        }
        loop
            invariant
                i < self.sockets@.len(),
                self.sockets@.len() == pre_t.sockets@.len(),
                forall|j: int|
                    0 <= j < pre_t.sockets@.len() && j != i ==> self.sockets@[j]
                        == pre_t.sockets@[j],
                pre_t.wf(),
                self.wf(),
                pre == pre_t.sockets@[i as int],
                q == pre.retransmission_queue@,
                sock_id == pre.sock_id(),
                Socket::same_except_queue_and_send_window(pre, self.sockets@[i as int]),
                0 <= k <= q.len(),
                self.sockets@[i as int].retransmission_queue@ == q.skip(k),
                forall|j: int|
                    0 <= j < k ==> seq_of(q[j].packet@) < pre.send_param.unacked_seq,
                self.sockets@[i as int].send_param.window as int == pre.send_param.window as int
                    + queue_payload_sum(q) - queue_payload_sum(q.skip(k)),
                fx.transmissions@ == old(fx).transmissions@,
                fx.events@.len() == old(fx).events@.len() + k,
                forall|j: int|
                    0 <= j < old(fx).events@.len() ==> fx.events@[j] == old(fx).events@[j],
                forall|j: int|
                    old(fx).events@.len() <= j < fx.events@.len() ==> fx.events@[j] == (TCPEvent {
                        sock_id: pre.sock_id(),
                        kind: TCPEventKind::Acked,
                    }),
            ensures
                0 <= k <= q.len(),
                k == q.len() || seq_of(q[k].packet@) >= pre.send_param.unacked_seq,
            decreases q.len() - k,
        {
            let s = &mut self.sockets[i];
            if s.retransmission_queue.len() == 0 {
                break;
            }
            let front_seq = s.retransmission_queue[0].packet.get_seq();
            if front_seq >= s.send_param.unacked_seq {
                break;
            }
            let item = s.retransmission_queue.pop_front();
            proof {
                lemma_queue_sum_drop_first(q.skip(k));
                assert(q.skip(k).drop_first() =~= q.skip(k + 1));
                assert forall|j: int|
                    0 <= j < q.skip(k + 1).len() implies (
                #[trigger] q.skip(k + 1)[j]).packet.wf() by {
                    assert(q.skip(k + 1)[j] == q[k + 1 + j]);
                }
                lemma_queue_sum_nonneg(q.skip(k + 1));
            }
            match item {
                Some(e) => {
                    let credit = e.packet.payload_len();
                    s.send_param.window = s.send_param.window + credit as u16;
                    fx.publish_event(sock_id, TCPEventKind::Acked);
                    proof {
                        k = k + 1;
                    }
                },
                None => {
                    break;
                },
            }
        }
        proof {
            let post = self.sockets@[i as int];
            assert({
                &&& 0 <= k <= q.len()
                &&& post.retransmission_queue@ == q.skip(k)
                &&& (forall|j: int|
                    0 <= j < k ==> seq_of(q[j].packet@) < pre.send_param.unacked_seq)
                &&& (k < q.len() ==> seq_of(q[k].packet@) >= pre.send_param.unacked_seq)
                &&& post.send_param.window as int == pre.send_param.window as int
                    + queue_payload_sum(q) - queue_payload_sum(post.retransmission_queue@)
                &&& fx.events@.len() == old(fx).events@.len() + k
            });
        }
    }

    /// Handles the acknowledgment and payload of one segment for the
    /// socket at index `i`: an acknowledgment in `(unacked_seq, next]`
    /// advances `unacked_seq` and prunes the retransmission queue; a
    /// placeable payload is copied into the receive buffer at its
    /// sequence-determined offset, the in-order mark advances over the now
    /// contiguous bytes, a bare acknowledgment is sent back when anything
    /// was copied, and `DataArrived` is published.
    #[verifier::rlimit(60)]
    pub fn process_ack_segment(&mut self, i: usize, packet: &TCPPacket, now_ms:
        u64, fx: &mut Effects)
        requires
            old(self).wf(),
            i < old(self).sockets@.len(),
            packet.wf(),
        ensures
            final(self).wf(),
            final(self).sockets@.len() == old(self).sockets@.len(),
            final(fx).events@.len() >= old(fx).events@.len(),
            final(fx).transmissions@.len() >= old(fx).transmissions@.len(),
            forall|j: int|
                0 <= j < old(self).sockets@.len() && j != i ==> final(self).sockets@[j] == old(
                self).sockets@[j],
            ({
                let pre = old(self).sockets@[i as int];
                let post = final(self).sockets@[i as int];
                let p = packet@;
                &&& post.local_addr == pre.local_addr
                &&& post.remote_addr == pre.remote_addr
                &&& post.local_port == pre.local_port
                &&& post.remote_port == pre.remote_port
                &&& post.status == pre.status
                &&& post.listening_socket == pre.listening_socket
                &&& post.connected_connection_queue@ == pre.connected_connection_queue@
                &&& post.send_buffer@ == pre.send_buffer@
                &&& post.send_param.next == pre.send_param.next
                &&& post.send_param.initial_seq == pre.send_param.initial_seq
                &&& post.recv_param.initial_seq == pre.recv_param.initial_seq
                &&& (ack_advances(pre, p) ==> post.send_param.unacked_seq == ack_of(p))
                &&& (!ack_advances(pre, p) ==> post.send_param.unacked_seq
                    == pre.send_param.unacked_seq && post.retransmission_queue@
                    == pre.retransmission_queue@ && post.send_param.window
                    == pre.send_param.window)
                &&& (data_placeable(pre, p) ==> {
                    let off = buffer_offset(pre, p);
                    let c = copy_size(pre, p);
                    &&& (forall|j: int|
                        off <= j < off + c ==> post.recv_buffer@[j] == payload_of(p)[j - off])
                    &&& (forall|j: int|
                        0 <= j < SOCKET_BUFFER_SIZE && !(off <= j < off + c)
                            ==> post.recv_buffer@[j] == pre.recv_buffer@[j])
                    &&& post.recv_param.tail == (if pre.recv_param.tail >= seq_of(p) + c {
                        pre.recv_param.tail as int
                    } else {
                        seq_of(p) + c
                    })
                    &&& (seq_of(p) == pre.recv_param.next ==> post.recv_param.next
                        == post.recv_param.tail && post.recv_param.window as int
                        == pre.recv_param.window - (post.recv_param.tail - seq_of(p)))
                    &&& (seq_of(p) != pre.recv_param.next ==> post.recv_param.next
                        == pre.recv_param.next && post.recv_param.window
                        == pre.recv_param.window)
                    &&& (c > 0 ==> {
                        &&& final(fx).transmissions@.len() == old(fx).transmissions@.len() + 1
                        &&& ({
                            let t = final(fx).transmissions@.last();
                            &&& t.remote_addr == pre.remote_addr
                            &&& src_of(t.packet@) == pre.local_port
                            &&& dest_of(t.packet@) == pre.remote_port
                            &&& seq_of(t.packet@) == post.send_param.next
                            &&& ack_of(t.packet@) == post.recv_param.next
                            &&& flag_of(t.packet@) == tcpflags::ACK
                            &&& payload_of(t.packet@).len() == 0
                            &&& window_of(t.packet@) == post.recv_param.window
                            &&& checksum_ok(pre.local_addr, pre.remote_addr, t.packet@)
                        })
                    })
                    &&& (c == 0 ==> final(fx).transmissions@ == old(fx).transmissions@)
                    &&& final(fx).events@.len() > old(fx).events@.len()
                    &&& final(fx).events@.last() == (TCPEvent {
                        sock_id: pre.sock_id(),
                        kind: TCPEventKind::DataArrived,
                    })
                })
                &&& (!data_placeable(pre, p) ==> {
                    &&& post.recv_param == pre.recv_param
                    &&& post.recv_buffer@ == pre.recv_buffer@
                    &&& final(fx).transmissions@ == old(fx).transmissions@
                })
            }),
            forall|j: int|
                0 <= j < old(fx).transmissions@.len() ==> final(fx).transmissions@[j] == old(
                fx).transmissions@[j],
            forall|j: int|
                0 <= j < old(fx).events@.len() ==> final(fx).events@[j] == old(fx).events@[j],
            forall|j: int|
                old(fx).events@.len() <= j < final(fx).events@.len() ==> (
                #[trigger] final(fx).events@[j]).sock_id == old(
                self).sockets@[i as int].sock_id() && (final(fx).events@[j].kind
                    == TCPEventKind::Acked || final(fx).events@[j].kind
                    == TCPEventKind::DataArrived),
    {
        let ghost pre = old(self).sockets@[i as int];
        let ack = packet.get_ack();
        let unacked = self.sockets[i].send_param.unacked_seq;
        let next = self.sockets[i].send_param.next;
        if unacked < ack && ack <= next {
            let s = &mut self.sockets[i];
            s.send_param.unacked_seq = ack;
            self.delete_acked_segment_from_retransmission_queue(i, fx);
        }
        let plen = packet.payload_len();
        if plen > 0 {
            let seq = packet.get_seq();
            let r_next = self.sockets[i].recv_param.next;
            let r_window = self.sockets[i].recv_param.window;
            if seq >= r_next && (seq - r_next) as usize <= r_window as usize {
                let gap = (seq - r_next) as usize;
                let received = SOCKET_BUFFER_SIZE - r_window as usize;
                let offset = received + gap;
                let cap = SOCKET_BUFFER_SIZE - offset;
                let c = if plen <= cap {
                    plen
                } else {
                    cap
                };
                if (seq as u64) + (c as u64) <= u32::MAX as u64 {
                    let payload = packet.payload();
                    let ghost mid = self.sockets@[i as int];
                    let s = &mut self.sockets[i];
                    let mut j: usize = 0;
                    while j < c
                        invariant
                            j <= c,
                            offset + c <= SOCKET_BUFFER_SIZE,
                            c <= payload@.len(),
                            s.recv_buffer@.len() == SOCKET_BUFFER_SIZE,
                            forall|m: int|
                                offset <= m < offset + j ==> s.recv_buffer@[m] == payload@[m
                                    - offset],
                            forall|m: int|
                                0 <= m < SOCKET_BUFFER_SIZE && !(offset <= m < offset + j)
                                    ==> s.recv_buffer@[m] == mid.recv_buffer@[m],
                            *s == (Socket { recv_buffer: s.recv_buffer, ..mid }),
                        decreases c - j,
                    {
                        let b = payload[j];
                        s.recv_buffer.set(offset + j, b);
                        j = j + 1;
                    }
                    let end = seq + c as u32;
                    if end > s.recv_param.tail {
                        s.recv_param.tail = end;
                    }
                    if seq == r_next {
                        let adv = s.recv_param.tail - seq;
                        s.recv_param.next = s.recv_param.tail;
                        s.recv_param.window = s.recv_param.window - adv as u16;
                    }
                    if c > 0 {
                        let sp_next = s.send_param.next;
                        let rp_next = s.recv_param.next;
                        let empty: Vec<u8> = Vec::new();
                        s.send_tcp_packet(sp_next, rp_next, tcpflags::ACK, empty.as_slice(),
                            now_ms, &mut fx.transmissions);
                    }
                    let sid = self.sockets[i].get_sock_id();
                    fx.publish_event(sid, TCPEventKind::DataArrived);
                }
            }
        }
    }

    /// Handles a segment for an `Established` socket: segments without an
    /// acknowledgment are dropped; otherwise the acknowledgment and any
    /// payload are processed, and an acceptable FIN acknowledges the
    /// peer's close, moves the socket to `CloseWait`, and wakes readers.
    ///
    /// A FIN whose sequence number sits before the in-order mark (after
    /// any payload on the same segment is placed) is dropped silently:
    /// acting on it would move the mark backwards, breaking the mark/tail
    /// invariant and the ordering of delivered bytes.  The peer's clean
    /// retransmission of the FIN at the right number is handled normally.
    pub fn established_handler(&mut self, i: usize, packet: &TCPPacket, now_ms: u64, fx: &mut
        Effects)
        requires
            old(self).wf(),
            i < old(self).sockets@.len(),
            packet.wf(),
            old(self).sockets@[i as int].status == TcpStatus::Established,
        ensures
            final(self).wf(),
            established_handler_post(
                *old(self),
                *final(self),
                i as int,
                packet@,
                old(fx).transmissions@,
                final(fx).transmissions@,
                old(fx).events@,
                final(fx).events@,
            ),
    {
        if packet.get_flag() & tcpflags::ACK == 0 {
            return ;
        }
        self.process_ack_segment(i, packet, now_ms, fx);
        if packet.get_flag() & tcpflags::FIN > 0 {
            let seq = packet.get_seq();
            let r_next = self.sockets[i].recv_param.next;
            if seq >= r_next && seq < u32::MAX {
                let s = &mut self.sockets[i];
                s.recv_param.next = seq + 1;
                if s.recv_param.tail < seq + 1 {
                    s.recv_param.tail = seq + 1;
                }
                let sp_next = s.send_param.next;
                let rp_next = s.recv_param.next;
                let empty: Vec<u8> = Vec::new();
                s.send_tcp_packet(sp_next, rp_next, tcpflags::ACK, empty.as_slice(), now_ms,
                    &mut fx.transmissions);
                s.status = TcpStatus::CloseWait;
                let sid = self.sockets[i].get_sock_id();
                fx.publish_event(sid, TCPEventKind::DataArrived);
            }
        }
    }

    /// Handles a segment for a `CloseWait` or `LastAck` socket: an
    /// in-window acknowledgment advances the unacknowledged mark; the
    /// timer publishes `ConnectionClosed` once the FIN itself is
    /// acknowledged.
    ///
    /// An acknowledgment outside `[unacked_seq, next]` is dropped
    /// silently: writing it through would let the unacknowledged mark
    /// pass the send cursor, breaking the invariant that holds between
    /// them at all times.
    pub fn close_handler(&mut self, i: usize, packet: &TCPPacket)
        requires
            old(self).wf(),
            i < old(self).sockets@.len(),
            packet.wf(),
        ensures
            final(self).wf(),
            close_handler_post(*old(self), *final(self), i as int, packet@),
    {
        let ack = packet.get_ack();
        let s = &mut self.sockets[i];
        if s.send_param.unacked_seq <= ack && ack <= s.send_param.next {
            s.send_param.unacked_seq = ack;
        }
    }

    /// Handles a segment for a `FinWait1` socket: processes the
    /// acknowledgment and payload; once everything sent (the FIN included)
    /// is acknowledged the socket moves to `FinWait2`, and a FIN arriving
    /// on that same segment is acknowledged and completes the close.
    pub fn finwait1_handler(&mut self, i: usize, packet: &TCPPacket, now_ms: u64, fx: &mut
        Effects)
        requires
            old(self).wf(),
            i < old(self).sockets@.len(),
            packet.wf(),
            old(self).sockets@[i as int].status == TcpStatus::FinWait1,
        ensures
            final(self).wf(),
            finwait1_handler_post(
                *old(self),
                *final(self),
                i as int,
                packet@,
                old(fx).transmissions@,
                final(fx).transmissions@,
                old(fx).events@,
                final(fx).events@,
            ),
    {
        if packet.get_flag() & tcpflags::ACK == 0 {
            return ;
        }
        self.process_ack_segment(i, packet, now_ms, fx);
        let s = &mut self.sockets[i];
        if s.send_param.next == s.send_param.unacked_seq {
            s.status = TcpStatus::FinWait2;
            if packet.get_flag() & tcpflags::FIN > 0 {
                if s.recv_param.next < u32::MAX {
                    s.recv_param.next = s.recv_param.next + 1;
                    if s.recv_param.tail < s.recv_param.next {
                        s.recv_param.tail = s.recv_param.next;
                    }
                    let sp_next = s.send_param.next;
                    let rp_next = s.recv_param.next;
                    let empty: Vec<u8> = Vec::new();
                    s.send_tcp_packet(sp_next, rp_next, tcpflags::ACK, empty.as_slice(), now_ms,
                        &mut fx.transmissions);
                    let sid = self.sockets[i].get_sock_id();
                    fx.publish_event(sid, TCPEventKind::ConnectionClosed);
                }
            }
        }
    }

    /// Handles a segment for a `FinWait2` socket: processes the
    /// acknowledgment and payload, and a FIN is acknowledged and completes
    /// the close.
    pub fn finwait2_handler(&mut self, i: usize, packet: &TCPPacket, now_ms: u64, fx: &mut
        Effects)
        requires
            old(self).wf(),
            i < old(self).sockets@.len(),
            packet.wf(),
            old(self).sockets@[i as int].status == TcpStatus::FinWait2,
        ensures
            final(self).wf(),
            finwait2_handler_post(
                *old(self),
                *final(self),
                i as int,
                packet@,
                old(fx).transmissions@,
                final(fx).transmissions@,
                old(fx).events@,
                final(fx).events@,
            ),
    {
        if packet.get_flag() & tcpflags::ACK == 0 {
            return ;
        }
        self.process_ack_segment(i, packet, now_ms, fx);
        if packet.get_flag() & tcpflags::FIN > 0 {
            let s = &mut self.sockets[i];
            if s.recv_param.next < u32::MAX {
                s.recv_param.next = s.recv_param.next + 1;
                if s.recv_param.tail < s.recv_param.next {
                    s.recv_param.tail = s.recv_param.next;
                }
                let sp_next = s.send_param.next;
                let rp_next = s.recv_param.next;
                let empty: Vec<u8> = Vec::new();
                s.send_tcp_packet(sp_next, rp_next, tcpflags::ACK, empty.as_slice(), now_ms,
                    &mut fx.transmissions);
                let sid = self.sockets[i].get_sock_id();
                fx.publish_event(sid, TCPEventKind::ConnectionClosed);
            }
        }
    }

    /// Handles a segment for a `SynSent` socket.  A SYN-bearing segment
    /// whose acknowledgment covers our SYN completes the handshake: the
    /// receive side is initialised from the peer's sequence number, a bare
    /// acknowledgment is returned, and the socket becomes `Established`
    /// (or `SynRcvd` when the peer has not yet acknowledged our SYN).
    pub fn synsent_handler(&mut self, i: usize, packet: &TCPPacket, now_ms: u64, fx: &mut
        Effects)
        requires
            old(self).wf(),
            i < old(self).sockets@.len(),
            packet.wf(),
            old(self).sockets@[i as int].status == TcpStatus::SynSent,
        ensures
            final(self).wf(),
            synsent_handler_post(
                *old(self),
                *final(self),
                i as int,
                packet@,
                old(fx).transmissions@,
                final(fx).transmissions@,
                old(fx).events@,
                final(fx).events@,
            ),
    {
        let flag = packet.get_flag();
        if flag & tcpflags::ACK == 0 {
            return ;
        }
        let ack = packet.get_ack();
        let unacked = self.sockets[i].send_param.unacked_seq;
        let next = self.sockets[i].send_param.next;
        if !(unacked <= ack && ack <= next) {
            return ;
        }
        if flag & tcpflags::SYN == 0 {
            return ;
        }
        let seq = packet.get_seq();
        if seq == u32::MAX {
            return ;
        }
        let window = packet.get_window_size();
        let s = &mut self.sockets[i];
        s.recv_param.next = seq + 1;
        s.recv_param.tail = seq + 1;
        s.recv_param.initial_seq = seq;
        s.send_param.unacked_seq = ack;
        s.send_param.window = window;
        let sp_next = s.send_param.next;
        let rp_next = s.recv_param.next;
        let empty: Vec<u8> = Vec::new();
        if ack > s.send_param.initial_seq {
            s.status = TcpStatus::Established;
            s.send_tcp_packet(sp_next, rp_next, tcpflags::ACK, empty.as_slice(), now_ms, &mut
                fx.transmissions);
            let sid = self.sockets[i].get_sock_id();
            fx.publish_event(sid, TCPEventKind::ConnectionCompleted);
        } else {
            s.status = TcpStatus::SynRcvd;
            s.send_tcp_packet(sp_next, rp_next, tcpflags::ACK, empty.as_slice(), now_ms, &mut
                fx.transmissions);
        }
    }

    /// Handles a segment for a `SynRcvd` socket.  A SYN resets the
    /// half-open connection, which is dropped from the table.  An
    /// acknowledgment that covers our SYN-ACK completes the handshake: the
    /// socket becomes `Established`, its identifier is queued on the
    /// listener that created it, and the listener's waiters are woken.
    pub fn synrcvd_handler(&mut self, i: usize, packet: &TCPPacket, fx: &mut Effects)
        requires
            old(self).wf(),
            i < old(self).sockets@.len(),
            packet.wf(),
            old(self).sockets@[i as int].status == TcpStatus::SynRcvd,
        ensures
            final(self).wf(),
            synrcvd_handler_post(
                *old(self),
                *final(self),
                i as int,
                packet@,
                old(fx).transmissions@,
                final(fx).transmissions@,
                old(fx).events@,
                final(fx).events@,
            ),
    {
        let flag = packet.get_flag();
        let sock_id = self.sockets[i].get_sock_id();
        if flag & tcpflags::SYN > 0 {
            let ghost pre_t = *self;
            self.sockets.remove(i);
            proof {
                assert forall|a: int, b: int|
                    0 <= a < b < self.sockets@.len() implies (
                #[trigger] self.sockets@[a]).sock_id() != (
                #[trigger] self.sockets@[b]).sock_id() by {
                    let a0: int = if a < i as int {
                        a
                    } else {
                        a + 1
                    };
                    let b0: int = if b < i as int {
                        b
                    } else {
                        b + 1
                    };
                    assert(self.sockets@[a] == pre_t.sockets@[a0]);
                    assert(self.sockets@[b] == pre_t.sockets@[b0]);
                }
            }
            return ;
        }
        if flag & tcpflags::ACK > 0 {
            let ack = packet.get_ack();
            let unacked = self.sockets[i].send_param.unacked_seq;
            let next = self.sockets[i].send_param.next;
            if unacked <= ack && ack <= next {
                let seq = packet.get_seq();
                let s = &mut self.sockets[i];
                s.recv_param.next = seq;
                s.recv_param.tail = seq;
                s.send_param.unacked_seq = ack;
                s.status = TcpStatus::Established;
                let listening = self.sockets[i].listening_socket;
                proof {
                    assert forall|j: int|
                        0 <= j < self.sockets@.len() implies (
                    #[trigger] self.sockets@[j]).sock_id() == old(
                    self).sockets@[j].sock_id() by {}
                }
                match listening {
                    Some(ls_id) => {
                        if !(ls_id == sock_id) {
                            let ghost mid = *self;
                            match self.lookup(ls_id) {
                                Some(li) => {
                                    let l = &mut self.sockets[li];
                                    l.connected_connection_queue.push_back(sock_id);
                                    proof {
                                        mid.lemma_idx_of(li as int);
                                        self.lemma_idx_of(li as int);
                                        old(self).lemma_idx_of(li as int);
                                    }
                                    fx.publish_event(ls_id, TCPEventKind::ConnectionCompleted);
                                },
                                None => {
                                    proof {
                                        if old(self).has_socket(ls_id) {
                                            let w = old(self).idx_of(ls_id);
                                            assert(mid.sockets@[w].sock_id() == ls_id);
                                        }
                                    }
                                },
                            }
                        }
                    },
                    None => {},
                }
            }
        }
    }

    /// Handles a segment for a listening socket.  A segment with an
    /// acknowledgment is dropped (a reset would be in order); a SYN
    /// creates the connection socket for the new peer in `SynRcvd`,
    /// answers with SYN-ACK carrying the given initial sequence number,
    /// and puts the new socket in the table.
    pub fn listen_handler(&mut self, i: usize, packet: &TCPPacket, remote_addr: u32, iss: u32,
        now_ms: u64, fx: &mut Effects)
        requires
            old(self).wf(),
            i < old(self).sockets@.len(),
            packet.wf(),
            old(self).sockets@[i as int].status == TcpStatus::Listen,
            ISS_MIN <= iss < ISS_END,
        ensures
            final(self).wf(),
            listen_handler_post(
                *old(self),
                *final(self),
                i as int,
                packet@,
                remote_addr,
                iss,
                now_ms,
                old(fx).transmissions@,
                final(fx).transmissions@,
                old(fx).events@,
                final(fx).events@,
            ),
    {
        let flag = packet.get_flag();
        if flag & tcpflags::ACK > 0 {
            return ;
        }
        if flag & tcpflags::SYN == 0 {
            return ;
        }
        let seq = packet.get_seq();
        if seq == u32::MAX {
            return ;
        }
        let local_addr = self.sockets[i].local_addr;
        let local_port = self.sockets[i].local_port;
        let listener_id = self.sockets[i].get_sock_id();
        let mut connection_socket = Socket::new(
            local_addr,
            remote_addr,
            local_port,
            packet.get_src(),
            TcpStatus::SynRcvd,
        );
        connection_socket.recv_param.next = seq + 1;
        connection_socket.recv_param.tail = seq + 1;
        connection_socket.recv_param.initial_seq = seq;
        connection_socket.send_param.initial_seq = iss;
        connection_socket.send_param.window = packet.get_window_size();
        let rp_next = connection_socket.recv_param.next;
        let empty: Vec<u8> = Vec::new();
        connection_socket.send_tcp_packet(iss, rp_next, tcpflags::SYN | tcpflags::ACK,
            empty.as_slice(), now_ms, &mut fx.transmissions);
        connection_socket.send_param.next = iss + 1;
        connection_socket.send_param.unacked_seq = iss;
        connection_socket.listening_socket = Some(listener_id);
        proof {
            assert(tcpflags::SYN | tcpflags::ACK != tcpflags::ACK) by (bit_vector);
            assert(connection_socket.retransmission_queue@ =~= Seq::empty().push(
                connection_socket.retransmission_queue@.last()));
            lemma_queue_sum_push(Seq::empty(), connection_socket.retransmission_queue@.last());
        }
        let ghost pre_t = *self;
        self.insert_socket(connection_socket);
        proof {
            if pre_t.has_socket(connection_socket.sock_id()) {
                assert(final(self).sockets@ == pre_t.sockets@.update(
                    pre_t.idx_of(connection_socket.sock_id()),
                    connection_socket,
                ));
                assert forall|j: int|
                    0 <= j < pre_t.sockets@.len() && pre_t.sockets@[j].sock_id()
                        != connection_socket.sock_id() implies exists|m: int|
                    0 <= m < self.sockets@.len() && self.sockets@[m] == (
                #[trigger] pre_t.sockets@[j]) by {
                    assert(self.sockets@[j] == pre_t.sockets@[j]);
                }
            } else {
                assert forall|j: int|
                    0 <= j < pre_t.sockets@.len() && pre_t.sockets@[j].sock_id()
                        != connection_socket.sock_id() implies exists|m: int|
                    0 <= m < self.sockets@.len() && self.sockets@[m] == (
                #[trigger] pre_t.sockets@[j]) by {
                    assert(self.sockets@[j] == pre_t.sockets@[j]);
                }
            }
        }
    }

    /// Decodes where an inbound segment belongs and drives the state
    /// machine: the owning socket is found by exact 4-tuple, then by
    /// wildcard listener; segments for no socket or with a bad checksum
    /// are dropped silently; otherwise the handler for the socket's state
    /// runs.  `iss` is the initial sequence number a new connection
    /// created by a listener would use.
    pub fn receive_handler(&mut self, local_addr: u32, remote_addr: u32, packet: &TCPPacket,
        iss: u32, now_ms: u64, fx: &mut Effects)
        requires
            old(self).wf(),
            packet.wf(),
            ISS_MIN <= iss < ISS_END,
        ensures
            final(self).wf(),
            ({
                let p = packet@;
                let exact = SockID(local_addr, remote_addr, dest_of(p) as u16, src_of(p) as u16);
                let wild = SockID(
                    local_addr,
                    UNDETERMINED_IP_ADDR,
                    dest_of(p) as u16,
                    UNDETERMINED_PORT,
                );
                !old(self).has_socket(exact) && !old(self).has_socket(wild) || !checksum_ok(
                    local_addr,
                    remote_addr,
                    p,
                ) ==> final(self).sockets@ == old(self).sockets@ && final(fx).transmissions@
                    == old(fx).transmissions@ && final(fx).events@ == old(fx).events@
            }),
            ({
                let p = packet@;
                let exact = SockID(local_addr, remote_addr, dest_of(p) as u16, src_of(p) as u16);
                let wild = SockID(
                    local_addr,
                    UNDETERMINED_IP_ADDR,
                    dest_of(p) as u16,
                    UNDETERMINED_PORT,
                );
                let matched = if old(self).has_socket(exact) {
                    exact
                } else {
                    wild
                };
                let i = old(self).idx_of(matched);
                let tx0 = old(fx).transmissions@;
                let tx1 = final(fx).transmissions@;
                let ev0 = old(fx).events@;
                let ev1 = final(fx).events@;
                (old(self).has_socket(exact) || old(self).has_socket(wild)) && checksum_ok(
                    local_addr,
                    remote_addr,
                    p,
                ) ==> ({
                    let st = old(self).sockets@[i].status;
                    &&& (st == TcpStatus::Listen ==> listen_handler_post(
                        *old(self),
                        *final(self),
                        i,
                        p,
                        remote_addr,
                        iss,
                        now_ms,
                        tx0,
                        tx1,
                        ev0,
                        ev1,
                    ))
                    &&& (st == TcpStatus::SynRcvd ==> synrcvd_handler_post(
                        *old(self),
                        *final(self),
                        i,
                        p,
                        tx0,
                        tx1,
                        ev0,
                        ev1,
                    ))
                    &&& (st == TcpStatus::SynSent ==> synsent_handler_post(
                        *old(self),
                        *final(self),
                        i,
                        p,
                        tx0,
                        tx1,
                        ev0,
                        ev1,
                    ))
                    &&& (st == TcpStatus::Established ==> established_handler_post(
                        *old(self),
                        *final(self),
                        i,
                        p,
                        tx0,
                        tx1,
                        ev0,
                        ev1,
                    ))
                    &&& (st == TcpStatus::CloseWait || st == TcpStatus::LastAck
                        ==> close_handler_post(*old(self), *final(self), i, p) && tx1 == tx0
                        && ev1 == ev0)
                    &&& (st == TcpStatus::FinWait1 ==> finwait1_handler_post(
                        *old(self),
                        *final(self),
                        i,
                        p,
                        tx0,
                        tx1,
                        ev0,
                        ev1,
                    ))
                    &&& (st == TcpStatus::FinWait2 ==> finwait2_handler_post(
                        *old(self),
                        *final(self),
                        i,
                        p,
                        tx0,
                        tx1,
                        ev0,
                        ev1,
                    ))
                    &&& (st == TcpStatus::Closing || st == TcpStatus::TimeWait || st
                        == TcpStatus::Closed ==> final(self).sockets@ == old(self).sockets@
                        && tx1 == tx0 && ev1 == ev0)
                })
            }),
    {
        let exact_id = SockID(local_addr, remote_addr, packet.get_dest(), packet.get_src());
        let wild_id = SockID(
            local_addr,
            UNDETERMINED_IP_ADDR,
            packet.get_dest(),
            UNDETERMINED_PORT,
        );
        let idx = match self.lookup(exact_id) {
            Some(i) => i,
            None => match self.lookup(wild_id) {
                Some(i) => i,
                None => {
                    return ;
                },
            },
        };
        if !packet.is_correct_checksum(local_addr, remote_addr) {
            return ;
        }
        let status = self.sockets[idx].status;
        match status {
            TcpStatus::Listen => self.listen_handler(idx, packet, remote_addr, iss, now_ms, fx),
            TcpStatus::SynRcvd => self.synrcvd_handler(idx, packet, fx),
            TcpStatus::SynSent => self.synsent_handler(idx, packet, now_ms, fx),
            TcpStatus::Established => self.established_handler(idx, packet, now_ms, fx),
            TcpStatus::CloseWait => self.close_handler(idx, packet),
            TcpStatus::LastAck => self.close_handler(idx, packet),
            TcpStatus::FinWait1 => self.finwait1_handler(idx, packet, now_ms, fx),
            TcpStatus::FinWait2 => self.finwait2_handler(idx, packet, now_ms, fx),
            _ => {},
        }
    }

    /// One timer pass over the socket at index `i`.  Acknowledged
    /// segments at the front of its queue are discarded, crediting the
    /// send window and publishing `Acked` (and `ConnectionClosed` for an
    /// acknowledged FIN in `LastAck`).  Then, if the front segment has
    /// waited out the timeout and has attempts left, its bytes are resent
    /// verbatim and it goes to the back of the queue; a segment out of
    /// attempts is given up.  Processing stops at the first segment that
    /// is still within its timeout.
    pub fn timer_socket(&mut self, i: usize, now_ms: u64, fx: &mut Effects)
        requires
            old(self).wf(),
            i < old(self).sockets@.len(),
        ensures
            final(self).wf(),
            final(self).sockets@.len() == old(self).sockets@.len(),
            forall|j: int|
                0 <= j < old(self).sockets@.len() && j != i ==> final(self).sockets@[j] == old(
                self).sockets@[j],
            Socket::same_except_queue_and_send_window(
                old(self).sockets@[i as int],
                final(self).sockets@[i as int],
            ),
            final(fx).events@.len() >= old(fx).events@.len(),
            final(fx).transmissions@.len() >= old(fx).transmissions@.len(),
            timer_queue_step(
                old(self).sockets@[i as int],
                final(self).sockets@[i as int],
                now_ms,
                final(fx).transmissions@.len() - old(fx).transmissions@.len(),
                final(fx).events@.skip(old(fx).events@.len() as int),
            ),
            ({
                let pre = old(self).sockets@[i as int];
                let post = final(self).sockets@[i as int];
                queue_sorted(pre.retransmission_queue@) ==> forall|j: int|
                    0 <= j < post.retransmission_queue@.len() ==> seq_of(
                        (#[trigger] post.retransmission_queue@[j]).packet@)
                        >= pre.send_param.unacked_seq
            }),
            forall|j: int|
                0 <= j < old(fx).events@.len() ==> final(fx).events@[j] == old(fx).events@[j],
            forall|j: int|
                old(fx).events@.len() <= j < final(fx).events@.len() ==> (
                #[trigger] final(fx).events@[j]).sock_id == old(
                self).sockets@[i as int].sock_id() && (final(fx).events@[j].kind
                    == TCPEventKind::Acked || final(fx).events@[j].kind
                    == TCPEventKind::ConnectionClosed),
            forall|j: int|
                0 <= j < old(fx).transmissions@.len() ==> final(fx).transmissions@[j] == old(
                fx).transmissions@[j],
            final(fx).transmissions@.len() <= old(fx).transmissions@.len() + 1,
            final(fx).transmissions@.len() == old(fx).transmissions@.len() + 1 ==> ({
                let pre = old(self).sockets@[i as int];
                let t = final(fx).transmissions@.last();
                exists|j: int|
                    #![auto]
                    {
                        &&& 0 <= j < pre.retransmission_queue@.len()
                        &&& t.packet@ == pre.retransmission_queue@[j].packet@
                        &&& now_ms >= pre.retransmission_queue@[j].latest_transmission_time
                            + RETRANSMISSION_TIMEOUT_MS
                        &&& pre.retransmission_queue@[j].transmission_count < MAX_TRANSMISSION
                        &&& seq_of(t.packet@) >= pre.send_param.unacked_seq
                        &&& t.remote_addr == pre.remote_addr
                    }
            }),
    {
        let ghost pre_t = *old(self);
        let ghost pre = pre_t.sockets@[i as int];
        let ghost q = pre.retransmission_queue@;
        let ghost mut k: int = 0;
        let sock_id = self.sockets[i].get_sock_id();
        proof {
            assert(q.skip(0) =~= q);
            assert(fx.events@ =~= old(fx).events@ + timer_discard_events(
                q,
                0,
                pre.sock_id(),
                pre.status,
                pre.send_param.unacked_seq,
            ));
        }
        loop
            invariant_except_break
                fx.transmissions@ == old(fx).transmissions@,
                self.sockets@[i as int].retransmission_queue@ == q.skip(k),
            invariant
                fx.transmissions@.len() >= old(fx).transmissions@.len(),
                i < self.sockets@.len(),
                self.sockets@.len() == pre_t.sockets@.len(),
                forall|j: int|
                    0 <= j < pre_t.sockets@.len() && j != i ==> self.sockets@[j]
                        == pre_t.sockets@[j],
                pre_t.wf(),
                self.wf(),
                pre == pre_t.sockets@[i as int],
                q == pre.retransmission_queue@,
                sock_id == pre.sock_id(),
                Socket::same_except_queue_and_send_window(pre, self.sockets@[i as int]),
                0 <= k <= q.len(),
                forall|j: int|
                    0 <= j < k ==> seq_of((#[trigger] q[j]).packet@)
                        < pre.send_param.unacked_seq || (now_ms
                        >= q[j].latest_transmission_time + RETRANSMISSION_TIMEOUT_MS
                        && q[j].transmission_count >= MAX_TRANSMISSION),
                fx.events@ == old(fx).events@ + timer_discard_events(
                    q,
                    k,
                    pre.sock_id(),
                    pre.status,
                    pre.send_param.unacked_seq,
                ),
                fx.events@.len() >= old(fx).events@.len(),
                forall|j: int|
                    0 <= j < old(fx).events@.len() ==> fx.events@[j] == old(fx).events@[j],
                forall|j: int|
                    old(fx).events@.len() <= j < fx.events@.len() ==> (
                    #[trigger] fx.events@[j]).sock_id == pre.sock_id() && (fx.events@[j].kind
                        == TCPEventKind::Acked || fx.events@[j].kind
                        == TCPEventKind::ConnectionClosed),
                forall|j: int|
                    0 <= j < old(fx).transmissions@.len() ==> fx.transmissions@[j] == old(
                    fx).transmissions@[j],
            ensures
                0 <= k <= q.len(),
                fx.transmissions@.len() <= old(fx).transmissions@.len() + 1,
                fx.events@ == old(fx).events@ + timer_discard_events(
                    q,
                    k,
                    pre.sock_id(),
                    pre.status,
                    pre.send_param.unacked_seq,
                ),
                forall|j: int|
                    0 <= j < k ==> seq_of((#[trigger] q[j]).packet@)
                        < pre.send_param.unacked_seq || (now_ms
                        >= q[j].latest_transmission_time + RETRANSMISSION_TIMEOUT_MS
                        && q[j].transmission_count >= MAX_TRANSMISSION),
                ({
                    let q2 = self.sockets@[i as int].retransmission_queue@;
                    (q2 == q.skip(k) && fx.transmissions@.len() == old(
                        fx).transmissions@.len() && (k < q.len() ==> seq_of(q[k].packet@)
                        >= pre.send_param.unacked_seq && now_ms < q[k].latest_transmission_time
                        + RETRANSMISSION_TIMEOUT_MS)) || (k < q.len() && seq_of(q[k].packet@)
                        >= pre.send_param.unacked_seq && now_ms >= q[k].latest_transmission_time
                        + RETRANSMISSION_TIMEOUT_MS && q[k].transmission_count
                        < MAX_TRANSMISSION && fx.transmissions@.len() == old(
                        fx).transmissions@.len() + 1 && q2 == q.skip(k + 1).push(
                        RetransmissionQueueEntry {
                            packet: q[k].packet,
                            latest_transmission_time: now_ms,
                            transmission_count: (q[k].transmission_count + 1) as u8,
                        },
                    ))
                }),
                queue_sorted(q) ==> forall|j: int|
                    0 <= j < self.sockets@[i as int].retransmission_queue@.len() ==> seq_of(
                        (#[trigger] self.sockets@[i as int].retransmission_queue@[j]).packet@)
                        >= pre.send_param.unacked_seq,
                fx.transmissions@.len() == old(fx).transmissions@.len() + 1 ==> ({
                    let t = fx.transmissions@.last();
                    exists|j: int|
                        #![auto]
                        {
                            &&& 0 <= j < q.len()
                            &&& t.packet@ == q[j].packet@
                            &&& now_ms >= q[j].latest_transmission_time
                                + RETRANSMISSION_TIMEOUT_MS
                            &&& q[j].transmission_count < MAX_TRANSMISSION
                            &&& seq_of(t.packet@) >= pre.send_param.unacked_seq
                            &&& t.remote_addr == pre.remote_addr
                        }
                }),
            decreases q.len() - k,
        {
            let s = &mut self.sockets[i];
            if s.retransmission_queue.len() == 0 {
                proof {
                    assert(q.skip(k).len() == 0);
                }
                break;
            }
            let front_seq = s.retransmission_queue[0].packet.get_seq();
            let front_flag = s.retransmission_queue[0].packet.get_flag();
            if s.send_param.unacked_seq > front_seq {
                let item = s.retransmission_queue.pop_front();
                proof {
                    lemma_queue_sum_drop_first(q.skip(k));
                    assert(q.skip(k).drop_first() =~= q.skip(k + 1));
                    assert forall|j: int|
                        0 <= j < q.skip(k + 1).len() implies (
                    #[trigger] q.skip(k + 1)[j]).packet.wf() by {
                        assert(q.skip(k + 1)[j] == q[k + 1 + j]);
                    }
                    lemma_queue_sum_nonneg(q.skip(k + 1));
                }
                match item {
                    Some(e) => {
                        let credit = e.packet.payload_len();
                        s.send_param.window = s.send_param.window + credit as u16;
                        let is_last_ack = match s.status {
                            TcpStatus::LastAck => true,
                            _ => false,
                        };
                        fx.publish_event(sock_id, TCPEventKind::Acked);
                        if front_flag & tcpflags::FIN > 0 && is_last_ack {
                            fx.publish_event(sock_id, TCPEventKind::ConnectionClosed);
                        }
                        proof {
                            assert(q.skip(k)[0] == q[k]);
                            assert(fx.events@ =~= old(fx).events@ + timer_discard_events(
                                q,
                                k + 1,
                                pre.sock_id(),
                                pre.status,
                                pre.send_param.unacked_seq,
                            ));
                            k = k + 1;
                        }
                    },
                    None => {
                        break;
                    },
                }
                continue;
            }
            let front_time = s.retransmission_queue[0].latest_transmission_time;
            if now_ms < front_time || now_ms - front_time < RETRANSMISSION_TIMEOUT_MS {
                proof {
                    if queue_sorted(q) {
                        assert forall|j: int|
                            0 <= j < q.skip(k).len() implies seq_of(
                            (#[trigger] q.skip(k)[j]).packet@)
                            >= pre.send_param.unacked_seq by {
                            assert(q.skip(k)[j] == q[k + j]);
                            assert(seq_of(q[k].packet@) <= seq_of(q[k + j].packet@));
                        }
                    }
                }
                break;
            }
            let front_count = s.retransmission_queue[0].transmission_count;
            if front_count < MAX_TRANSMISSION {
                let item = s.retransmission_queue.pop_front();
                proof {
                    lemma_queue_sum_drop_first(q.skip(k));
                    assert(q.skip(k).drop_first() =~= q.skip(k + 1));
                }
                match item {
                    Some(mut e) => {
                        let remote = s.remote_addr;
                        fx.transmissions.push(Transmission {
                            remote_addr: remote,
                            packet: e.packet.clone(),
                        });
                        e.transmission_count = e.transmission_count + 1;
                        e.latest_transmission_time = now_ms;
                        let ghost e2 = e;
                        s.retransmission_queue.push_back(e);
                        proof {
                            lemma_queue_sum_push(q.skip(k + 1), e2);
                            assert(payload_of(e2.packet@) == payload_of(q[k].packet@));
                            if queue_sorted(q) {
                                assert forall|j: int|
                                    0 <= j < self.sockets@[i as int].retransmission_queue@.len()
                                    implies seq_of((#[trigger] self.sockets@[i as
                                    int].retransmission_queue@[j]).packet@)
                                    >= pre.send_param.unacked_seq by {
                                    let q2 = self.sockets@[i as int].retransmission_queue@;
                                    if j < q2.len() - 1 {
                                        assert(q2[j] == q.skip(k + 1)[j]);
                                        assert(q.skip(k + 1)[j] == q[k + 1 + j]);
                                        assert(seq_of(q[k].packet@) <= seq_of(
                                            q[k + 1 + j].packet@));
                                    } else {
                                        assert(q2[j] == e2);
                                    }
                                }
                            }
                        }
                        break;
                    },
                    None => {
                        break;
                    },
                }
            } else {
                let _given_up = s.retransmission_queue.pop_front();
                proof {
                    lemma_queue_sum_drop_first(q.skip(k));
                    assert(q.skip(k).drop_first() =~= q.skip(k + 1));
                    assert forall|j: int|
                        0 <= j < q.skip(k + 1).len() implies (
                    #[trigger] q.skip(k + 1)[j]).packet.wf() by {
                        assert(q.skip(k + 1)[j] == q[k + 1 + j]);
                    }
                    lemma_queue_sum_nonneg(q.skip(k + 1));
                    assert(q.skip(k)[0] == q[k]);
                    assert(fx.events@ =~= old(fx).events@ + timer_discard_events(
                        q,
                        k + 1,
                        pre.sock_id(),
                        pre.status,
                        pre.send_param.unacked_seq,
                    ));
                    k = k + 1;
                }
            }
        }
        proof {
            let un = pre.send_param.unacked_seq;
            let appended = fx.events@.skip(old(fx).events@.len() as int);
            assert(appended =~= timer_discard_events(q, k, pre.sock_id(), pre.status, un));
            let q2 = self.sockets@[i as int].retransmission_queue@;
            let txd = fx.transmissions@.len() - old(fx).transmissions@.len();
            assert({
                &&& 0 <= k <= q.len()
                &&& (forall|j: int|
                    0 <= j < k ==> seq_of(q[j].packet@) < un || (now_ms
                        >= q[j].latest_transmission_time + RETRANSMISSION_TIMEOUT_MS
                        && q[j].transmission_count >= MAX_TRANSMISSION))
                &&& appended == timer_discard_events(q, k, pre.sock_id(), pre.status, un)
                &&& ((q2 == q.skip(k) && txd == 0 && (k < q.len() ==> seq_of(q[k].packet@)
                    >= un && now_ms < q[k].latest_transmission_time
                    + RETRANSMISSION_TIMEOUT_MS)) || (k < q.len() && seq_of(q[k].packet@)
                    >= un && now_ms >= q[k].latest_transmission_time
                    + RETRANSMISSION_TIMEOUT_MS && q[k].transmission_count < MAX_TRANSMISSION
                    && txd == 1 && q2 == q.skip(k + 1).push(RetransmissionQueueEntry {
                    packet: q[k].packet,
                    latest_transmission_time: now_ms,
                    transmission_count: (q[k].transmission_count + 1) as u8,
                })))
            });
            assert(timer_queue_step(pre, self.sockets@[i as int], now_ms, txd, appended));
        }
    }

    /// One pass of the retransmission timer over every socket.
    pub fn timer(&mut self, now_ms: u64, fx: &mut Effects)
        requires
            old(self).wf(),
        ensures
            final(self).wf(),
            final(self).sockets@.len() == old(self).sockets@.len(),
            forall|j: int|
                0 <= j < old(self).sockets@.len() ==> Socket::same_except_queue_and_send_window(
                    old(self).sockets@[j],
                    final(self).sockets@[j],
                ),
            timer_pass_upto(
                *old(self),
                *final(self),
                now_ms,
                old(fx).transmissions@,
                final(fx).transmissions@,
                old(fx).events@,
                final(fx).events@,
                old(self).sockets@.len() as int,
            ),
            forall|j: int|
                0 <= j < old(self).sockets@.len() && queue_sorted(
                    (#[trigger] old(self).sockets@[j]).retransmission_queue@,
                ) ==> forall|m: int|
                    0 <= m < final(self).sockets@[j].retransmission_queue@.len() ==> seq_of(
                        (#[trigger] final(self).sockets@[j].retransmission_queue@[m]).packet@)
                        >= old(self).sockets@[j].send_param.unacked_seq,
            forall|j: int|
                0 <= j < old(fx).events@.len() ==> final(fx).events@[j] == old(fx).events@[j],
            forall|j: int|
                old(fx).events@.len() <= j < final(fx).events@.len() ==> (
                #[trigger] final(fx).events@[j]).kind == TCPEventKind::Acked || final(
                fx).events@[j].kind == TCPEventKind::ConnectionClosed,
            forall|j: int|
                0 <= j < old(fx).transmissions@.len() ==> final(fx).transmissions@[j] == old(
                fx).transmissions@[j],
            forall|m: int|
                old(fx).transmissions@.len() <= m < final(fx).transmissions@.len()
                    ==> retransmission_of(
                    *old(self),
                    #[trigger] final(fx).transmissions@[m],
                    now_ms,
                ),
    {
        let mut i: usize = 0;
        while i < self.sockets.len()
            invariant
                old(self).wf(),
                self.wf(),
                i <= self.sockets@.len(),
                self.sockets@.len() == old(self).sockets@.len(),
                forall|j: int|
                    i <= j < old(self).sockets@.len() ==> self.sockets@[j] == old(
                    self).sockets@[j],
                forall|j: int|
                    0 <= j < i ==> Socket::same_except_queue_and_send_window(
                        old(self).sockets@[j],
                        (#[trigger] self.sockets@[j]),
                    ),
                timer_pass_upto(
                    *old(self),
                    *self,
                    now_ms,
                    old(fx).transmissions@,
                    fx.transmissions@,
                    old(fx).events@,
                    fx.events@,
                    i as int,
                ),
                forall|j: int|
                    0 <= j < i && queue_sorted(
                        (#[trigger] old(self).sockets@[j]).retransmission_queue@,
                    ) ==> forall|m: int|
                        0 <= m < self.sockets@[j].retransmission_queue@.len() ==> seq_of(
                            (#[trigger] self.sockets@[j].retransmission_queue@[m]).packet@)
                            >= old(self).sockets@[j].send_param.unacked_seq,
                fx.events@.len() >= old(fx).events@.len(),
                fx.transmissions@.len() >= old(fx).transmissions@.len(),
                forall|j: int|
                    0 <= j < old(fx).events@.len() ==> fx.events@[j] == old(fx).events@[j],
                forall|j: int|
                    old(fx).events@.len() <= j < fx.events@.len() ==> (
                    #[trigger] fx.events@[j]).kind == TCPEventKind::Acked || fx.events@[j].kind
                        == TCPEventKind::ConnectionClosed,
                forall|j: int|
                    0 <= j < old(fx).transmissions@.len() ==> fx.transmissions@[j] == old(
                    fx).transmissions@[j],
                forall|m: int|
                    old(fx).transmissions@.len() <= m < fx.transmissions@.len()
                        ==> retransmission_of(*old(self), #[trigger] fx.transmissions@[m],
                        now_ms),
            decreases self.sockets@.len() - i,
        {
            let ghost mid = *self;
            let ghost tx_mid = fx.transmissions@;
            let ghost ev_mid = fx.events@;
            self.timer_socket(i, now_ms, fx);
            proof {
                assert(mid.sockets@[i as int] == old(self).sockets@[i as int]);
                if fx.transmissions@.len() == tx_mid.len() + 1 {
                    let t = fx.transmissions@.last();
                    let q = mid.sockets@[i as int].retransmission_queue@;
                    let e = choose|e: int|
                        #![auto]
                        {
                            &&& 0 <= e < q.len()
                            &&& t.packet@ == q[e].packet@
                            &&& now_ms >= q[e].latest_transmission_time
                                + RETRANSMISSION_TIMEOUT_MS
                            &&& q[e].transmission_count < MAX_TRANSMISSION
                            &&& seq_of(t.packet@) >= mid.sockets@[i as
                                int].send_param.unacked_seq
                            &&& t.remote_addr == mid.sockets@[i as int].remote_addr
                        };
                    assert(retransmission_of(*old(self), t, now_ms));
                    assert(fx.transmissions@[tx_mid.len() as int] == t);
                }
                // the pass over socket i holds of the event segment it appended
                let a0 = ev_mid.len() as int;
                let b0 = fx.events@.len() as int;
                assert(fx.events@.subrange(a0, b0) =~= fx.events@.skip(a0));
                // segments recorded for earlier sockets are untouched appends
                assert forall|j: int|
                    #![trigger old(self).sockets@[j]]
                    0 <= j < i + 1 implies exists|a: int, b: int|
                    #![auto]
                    {
                        &&& old(fx).events@.len() <= a <= b <= fx.events@.len()
                        &&& (timer_queue_step(
                            old(self).sockets@[j],
                            self.sockets@[j],
                            now_ms,
                            0,
                            fx.events@.subrange(a, b),
                        ) || (timer_queue_step(
                            old(self).sockets@[j],
                            self.sockets@[j],
                            now_ms,
                            1,
                            fx.events@.subrange(a, b),
                        ) && exists|m: int, e: int|
                            #![auto]
                            {
                                &&& old(fx).transmissions@.len() <= m
                                    < fx.transmissions@.len()
                                &&& 0 <= e < old(
                                    self).sockets@[j].retransmission_queue@.len()
                                &&& fx.transmissions@[m].packet@ == old(
                                    self).sockets@[j].retransmission_queue@[e].packet@
                                &&& fx.transmissions@[m].remote_addr == old(
                                    self).sockets@[j].remote_addr
                            }))
                    } by {
                    if j == i as int {
                        assert(old(fx).events@.len() <= a0 <= b0 <= fx.events@.len());
                    } else {
                        let (a, b) = choose|a: int, b: int|
                            #![auto]
                            {
                                &&& old(fx).events@.len() <= a <= b <= ev_mid.len()
                                &&& (timer_queue_step(
                                    old(self).sockets@[j],
                                    mid.sockets@[j],
                                    now_ms,
                                    0,
                                    ev_mid.subrange(a, b),
                                ) || (timer_queue_step(
                                    old(self).sockets@[j],
                                    mid.sockets@[j],
                                    now_ms,
                                    1,
                                    ev_mid.subrange(a, b),
                                ) && exists|m: int, e: int|
                                    #![auto]
                                    {
                                        &&& old(fx).transmissions@.len() <= m < tx_mid.len()
                                        &&& 0 <= e < old(
                                            self).sockets@[j].retransmission_queue@.len()
                                        &&& tx_mid[m].packet@ == old(
                                            self).sockets@[j].retransmission_queue@[e].packet@
                                        &&& tx_mid[m].remote_addr == old(
                                            self).sockets@[j].remote_addr
                                    }))
                            };
                        assert(self.sockets@[j] == mid.sockets@[j]);
                        assert(fx.events@.subrange(a, b) =~= ev_mid.subrange(a, b));
                    }
                }
                assert(timer_pass_upto(
                    *old(self),
                    *self,
                    now_ms,
                    old(fx).transmissions@,
                    fx.transmissions@,
                    old(fx).events@,
                    fx.events@,
                    i as int + 1,
                ));
            }
            i = i + 1;
        }
    }

    /// One step of a blocking `send`: hands at most one segment's worth of
    /// `buffer`, starting at `cursor`, to the network — as much as the
    /// maximum segment size and the open send window allow — and returns
    /// the new cursor.  A returned cursor equal to `cursor` means the
    /// window is closed: the caller waits for `Acked` and calls again.
    pub fn send(&mut self, sock_id: SockID, buffer: &[u8], cursor: usize, now_ms: u64, fx: &mut
        Effects) -> (r: Result<usize, TcpError>)
        requires
            old(self).wf(),
            cursor <= buffer@.len(),
            old(self).has_socket(sock_id) ==> old(self).socket_of(
                sock_id).send_param.next as int + MSS as int <= u32::MAX as int,
            old(self).has_socket(sock_id) ==> ({
                let st = old(self).socket_of(sock_id).status;
                !(st == TcpStatus::Listen || st == TcpStatus::SynSent || st
                    == TcpStatus::SynRcvd)
            }),
        ensures
            final(self).wf(),
            !old(self).has_socket(sock_id) ==> r == Err::<usize, TcpError>(
                TcpError::NoSuchSocket,
            ) && final(self).sockets@ == old(self).sockets@ && final(fx).transmissions@ == old(
                fx).transmissions@,
            old(self).has_socket(sock_id) ==> ({
                let pre = old(self).socket_of(sock_id);
                let post = final(self).socket_of(sock_id);
                let n = if MSS <= pre.send_param.window && MSS <= buffer@.len() - cursor {
                    MSS as int
                } else if pre.send_param.window as int <= buffer@.len() - cursor {
                    pre.send_param.window as int
                } else {
                    buffer@.len() - cursor
                };
                &&& TCP::same_table_except(*old(self), *final(self), sock_id)
                &&& r == Ok::<usize, TcpError>((cursor + n) as usize)
                &&& (n == 0 ==> final(self).sockets@ == old(self).sockets@ && final(
                    fx).transmissions@ == old(fx).transmissions@)
                &&& (n > 0 ==> {
                    &&& post.send_param.next == pre.send_param.next + n
                    &&& post.send_param.window == pre.send_param.window - n
                    &&& post.send_param.unacked_seq == pre.send_param.unacked_seq
                    &&& post.status == pre.status
                    &&& post.recv_param == pre.recv_param
                    &&& final(fx).transmissions@.len() == old(fx).transmissions@.len() + 1
                    &&& ({
                        let t = final(fx).transmissions@.last();
                        &&& t.remote_addr == pre.remote_addr
                        &&& src_of(t.packet@) == pre.local_port
                        &&& dest_of(t.packet@) == pre.remote_port
                        &&& seq_of(t.packet@) == pre.send_param.next
                        &&& ack_of(t.packet@) == pre.recv_param.next
                        &&& flag_of(t.packet@) == tcpflags::ACK
                        &&& payload_of(t.packet@) == buffer@.subrange(
                            cursor as int,
                            cursor + n,
                        )
                        &&& checksum_ok(pre.local_addr, pre.remote_addr, t.packet@)
                    })
                    &&& post.retransmission_queue@.len() == pre.retransmission_queue@.len() + 1
                    &&& post.retransmission_queue@.last().packet@ == final(
                        fx).transmissions@.last().packet@
                    &&& post.retransmission_queue@.last().latest_transmission_time == now_ms
                    &&& post.retransmission_queue@.last().transmission_count == 1
                    &&& (forall|j: int|
                        0 <= j < pre.retransmission_queue@.len()
                            ==> post.retransmission_queue@[j]
                            == pre.retransmission_queue@[j])
                })
            }),
            final(fx).events@ == old(fx).events@,
            forall|j: int|
                0 <= j < old(fx).transmissions@.len() ==> final(fx).transmissions@[j] == old(
                fx).transmissions@[j],
    {
        let ghost pre_t = *old(self);
        let idx = match self.lookup(sock_id) {
            None => {
                return Err(TcpError::NoSuchSocket);
            },
            Some(i) => i,
        };
        let window = self.sockets[idx].send_param.window as usize;
        let remaining = buffer.len() - cursor;
        let mut send_size: usize = MSS;
        if window < send_size {
            send_size = window;
        }
        if remaining < send_size {
            send_size = remaining;
        }
        if send_size == 0 {
            return Ok(cursor);
        }
        let payload = slice_subrange(buffer, cursor, cursor + send_size);
        let ghost mid = *self;
        let s = &mut self.sockets[idx];
        let ghost q_pre = s.retransmission_queue@;
        let sp_next = s.send_param.next;
        let rp_next = s.recv_param.next;
        s.send_tcp_packet(sp_next, rp_next, tcpflags::ACK, payload, now_ms, &mut
            fx.transmissions);
        s.send_param.next = sp_next + send_size as u32;
        s.send_param.window = s.send_param.window - send_size as u16;
        proof {
            let q_post = s.retransmission_queue@;
            assert(q_post =~= q_pre.push(q_post.last()));
            lemma_queue_sum_push(q_pre, q_post.last());
            pre_t.lemma_idx_of(idx as int);
            self.lemma_idx_of(idx as int);
        }
        Ok(cursor + send_size)
    }

    /// One step of a blocking `receive`: copies what in-order data is
    /// ready into the front of `buffer` (its length is unchanged), slides
    /// the receive buffer down, reopens the receive window by the amount
    /// taken, and returns how many bytes were copied.  `None` means
    /// nothing is ready and the connection is open: the caller waits for
    /// `DataArrived` and calls again.  `Some(0)` means the peer has
    /// closed.
    pub fn receive(&mut self, sock_id: SockID, buffer: &mut Vec<u8>) -> (r: Result<
        Option<usize>,
        TcpError,
    >)
        requires
            old(self).wf(),
        ensures
            final(self).wf(),
            final(buffer)@.len() == old(buffer)@.len(),
            !old(self).has_socket(sock_id) ==> r == Err::<Option<usize>, TcpError>(
                TcpError::NoSuchSocket,
            ) && final(self).sockets@ == old(self).sockets@ && final(buffer)@ == old(buffer)@,
            old(self).has_socket(sock_id) ==> ({
                let pre = old(self).socket_of(sock_id);
                let post = final(self).socket_of(sock_id);
                let ready = received_size(pre);
                &&& TCP::same_table_except(*old(self), *final(self), sock_id)
                &&& (ready == 0 && (pre.status == TcpStatus::CloseWait || pre.status
                    == TcpStatus::LastAck || pre.status == TcpStatus::TimeWait) ==> r == Ok::<
                    Option<usize>,
                    TcpError,
                >(Some(0)) && final(self).sockets@ == old(self).sockets@ && final(buffer)@
                    == old(buffer)@)
                &&& (ready == 0 && !(pre.status == TcpStatus::CloseWait || pre.status
                    == TcpStatus::LastAck || pre.status == TcpStatus::TimeWait) ==> r == Ok::<
                    Option<usize>,
                    TcpError,
                >(None) && final(self).sockets@ == old(self).sockets@ && final(buffer)@ == old(
                    buffer)@)
                &&& (ready > 0 ==> ({
                    let n = if old(buffer)@.len() <= ready {
                        old(buffer)@.len() as int
                    } else {
                        ready
                    };
                    &&& r == Ok::<Option<usize>, TcpError>(Some(n as usize))
                    &&& (forall|j: int|
                        0 <= j < n ==> final(buffer)@[j] == pre.recv_buffer@[j])
                    &&& (forall|j: int|
                        n <= j < old(buffer)@.len() ==> final(buffer)@[j] == old(buffer)@[j])
                    &&& (forall|j: int|
                        0 <= j < SOCKET_BUFFER_SIZE - n ==> post.recv_buffer@[j]
                            == pre.recv_buffer@[j + n])
                    &&& post.recv_param.window as int == pre.recv_param.window + n
                    &&& post.recv_param.next == pre.recv_param.next
                    &&& post.recv_param.tail == pre.recv_param.tail
                    &&& post.send_param == pre.send_param
                    &&& post.status == pre.status
                    &&& post.retransmission_queue@ == pre.retransmission_queue@
                }))
            }),
    {
        let ghost pre_t = *old(self);
        let idx = match self.lookup(sock_id) {
            None => {
                return Err(TcpError::NoSuchSocket);
            },
            Some(i) => i,
        };
        let window = self.sockets[idx].recv_param.window as usize;
        let received = SOCKET_BUFFER_SIZE - window;
        if received == 0 {
            let terminal = match self.sockets[idx].status {
                TcpStatus::CloseWait => true,
                TcpStatus::LastAck => true,
                TcpStatus::TimeWait => true,
                _ => false,
            };
            if terminal {
                return Ok(Some(0));
            } else {
                return Ok(None);
            }
        }
        let n = if buffer.len() <= received {
            buffer.len()
        } else {
            received
        };
        let ghost mid = *self;
        let s = &mut self.sockets[idx];
        let mut j: usize = 0;
        while j < n
            invariant
                j <= n,
                n <= SOCKET_BUFFER_SIZE,
                n <= buffer@.len(),
                buffer@.len() == old(buffer)@.len(),
                s.recv_buffer@.len() == SOCKET_BUFFER_SIZE,
                forall|m: int| 0 <= m < j ==> buffer@[m] == s.recv_buffer@[m],
                forall|m: int| j <= m < buffer@.len() ==> buffer@[m] == old(buffer)@[m],
                *s == mid.sockets@[idx as int],
            decreases n - j,
        {
            let b = s.recv_buffer[j];
            buffer.set(j, b);
            j = j + 1;
        }
        let ghost buf_filled = *buffer;
        let mut m: usize = 0;
        let limit = SOCKET_BUFFER_SIZE - n;
        while m < limit
            invariant
                m <= limit,
                limit == SOCKET_BUFFER_SIZE - n,
                n <= SOCKET_BUFFER_SIZE,
                s.recv_buffer@.len() == SOCKET_BUFFER_SIZE,
                forall|t: int|
                    0 <= t < m ==> s.recv_buffer@[t] == mid.sockets@[idx as int].recv_buffer@[t
                        + n],
                forall|t: int|
                    m <= t < SOCKET_BUFFER_SIZE ==> s.recv_buffer@[t]
                        == mid.sockets@[idx as int].recv_buffer@[t],
                *s == (Socket { recv_buffer: s.recv_buffer, ..mid.sockets@[idx as int] }),
            decreases limit - m,
        {
            let b = s.recv_buffer[m + n];
            s.recv_buffer.set(m, b);
            m = m + 1;
        }
        s.recv_param.window = s.recv_param.window + n as u16;
        proof {
            pre_t.lemma_idx_of(idx as int);
            self.lemma_idx_of(idx as int);
        }
        Ok(Some(n))
    }

    /// Closes a connection: a FIN is sent and the socket moves toward the
    /// closed side of the state machine.  From `Established` or
    /// `CloseWait` the caller is asked to wait for `ConnectionClosed` and
    /// then remove the socket; a listener is removed at once.
    pub fn close(&mut self, sock_id: SockID, now_ms: u64, fx: &mut Effects) -> (r: Result<
        CloseStep,
        TcpError,
    >)
        requires
            old(self).wf(),
            old(self).has_socket(sock_id) ==> old(self).socket_of(sock_id).send_param.next
                < u32::MAX,
        ensures
            final(self).wf(),
            !old(self).has_socket(sock_id) ==> r == Err::<CloseStep, TcpError>(
                TcpError::NoSuchSocket,
            ) && final(self).sockets@ == old(self).sockets@ && final(fx).transmissions@ == old(
                fx).transmissions@,
            old(self).has_socket(sock_id) ==> ({
                let pre = old(self).socket_of(sock_id);
                &&& final(fx).transmissions@.len() == old(fx).transmissions@.len() + 1
                &&& ({
                    let t = final(fx).transmissions@.last();
                    &&& t.remote_addr == pre.remote_addr
                    &&& src_of(t.packet@) == pre.local_port
                    &&& dest_of(t.packet@) == pre.remote_port
                    &&& seq_of(t.packet@) == pre.send_param.next
                    &&& ack_of(t.packet@) == pre.recv_param.next
                    &&& flag_of(t.packet@) == (tcpflags::FIN | tcpflags::ACK)
                    &&& payload_of(t.packet@).len() == 0
                    &&& window_of(t.packet@) == pre.recv_param.window
                    &&& checksum_ok(pre.local_addr, pre.remote_addr, t.packet@)
                })
                &&& (pre.status != TcpStatus::Listen ==> ({
                    let q2 = final(self).socket_of(sock_id).retransmission_queue@;
                    &&& q2.len() == pre.retransmission_queue@.len() + 1
                    &&& (forall|j: int|
                        0 <= j < pre.retransmission_queue@.len() ==> q2[j]
                            == pre.retransmission_queue@[j])
                    &&& q2.last().packet@ == final(fx).transmissions@.last().packet@
                    &&& q2.last().latest_transmission_time == now_ms
                    &&& q2.last().transmission_count == 1
                }))
                &&& (pre.status == TcpStatus::Established ==> {
                    &&& r == Ok::<CloseStep, TcpError>(CloseStep::AwaitClose)
                    &&& final(self).has_socket(sock_id)
                    &&& final(self).socket_of(sock_id).status == TcpStatus::FinWait1
                    &&& final(self).socket_of(sock_id).send_param.next
                        == pre.send_param.next + 1
                    &&& TCP::same_table_except(*old(self), *final(self), sock_id)
                })
                &&& (pre.status == TcpStatus::CloseWait ==> {
                    &&& r == Ok::<CloseStep, TcpError>(CloseStep::AwaitClose)
                    &&& final(self).has_socket(sock_id)
                    &&& final(self).socket_of(sock_id).status == TcpStatus::LastAck
                    &&& final(self).socket_of(sock_id).send_param.next
                        == pre.send_param.next + 1
                    &&& TCP::same_table_except(*old(self), *final(self), sock_id)
                })
                &&& (pre.status == TcpStatus::Listen ==> r == Ok::<CloseStep, TcpError>(
                    CloseStep::Removed,
                ) && !final(self).has_socket(sock_id))
                &&& (!(pre.status == TcpStatus::Established || pre.status
                    == TcpStatus::CloseWait || pre.status == TcpStatus::Listen) ==> {
                    &&& r == Ok::<CloseStep, TcpError>(CloseStep::Ignored)
                    &&& final(self).socket_of(sock_id).status == pre.status
                    &&& TCP::same_table_except(*old(self), *final(self), sock_id)
                })
            }),
            final(fx).events@ == old(fx).events@,
            forall|j: int|
                0 <= j < old(fx).transmissions@.len() ==> final(fx).transmissions@[j] == old(
                fx).transmissions@[j],
    {
        let ghost pre_t = *old(self);
        let idx = match self.lookup(sock_id) {
            None => {
                return Err(TcpError::NoSuchSocket);
            },
            Some(i) => i,
        };
        let ghost mid0 = *self;
        let s = &mut self.sockets[idx];
        let ghost q_pre = s.retransmission_queue@;
        let sp_next = s.send_param.next;
        let rp_next = s.recv_param.next;
        let empty: Vec<u8> = Vec::new();
        s.send_tcp_packet(sp_next, rp_next, tcpflags::FIN | tcpflags::ACK, empty.as_slice(),
            now_ms, &mut fx.transmissions);
        s.send_param.next = sp_next + 1;
        proof {
            assert(tcpflags::FIN | tcpflags::ACK != tcpflags::ACK) by (bit_vector);
            let q_post = s.retransmission_queue@;
            assert(q_post =~= q_pre.push(q_post.last()));
            lemma_queue_sum_push(q_pre, q_post.last());
            pre_t.lemma_idx_of(idx as int);
        }
        let status = self.sockets[idx].status;
        match status {
            TcpStatus::Established => {
                let s = &mut self.sockets[idx];
                s.status = TcpStatus::FinWait1;
                proof {
                    self.lemma_idx_of(idx as int);
                }
                Ok(CloseStep::AwaitClose)
            },
            TcpStatus::CloseWait => {
                let s = &mut self.sockets[idx];
                s.status = TcpStatus::LastAck;
                proof {
                    self.lemma_idx_of(idx as int);
                }
                Ok(CloseStep::AwaitClose)
            },
            TcpStatus::Listen => {
                self.remove_socket(sock_id);
                Ok(CloseStep::Removed)
            },
            _ => {
                proof {
                    self.lemma_idx_of(idx as int);
                }
                Ok(CloseStep::Ignored)
            },
        }
    }
}

} // verus!
