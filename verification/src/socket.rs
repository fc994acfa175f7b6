//! Per-connection state: the socket identifier, send and receive
//! parameters, buffers, the retransmission queue, and segment construction.
use vstd::prelude::*;
use std::collections::VecDeque;
use crate::packet::{
    TCPPacket, TCP_HEADER_SIZE, MAX_SEGMENT_SIZE, src_of, dest_of, seq_of, ack_of, flag_of,
    window_of, payload_of, checksum_ok, compute_checksum, lemma_sum_words_ignores_checksum_field,
    num_words,
};
use crate::tcpflags;

verus! {

/// Bytes of buffering on each side of a connection.
pub const SOCKET_BUFFER_SIZE: usize = 14600;

/// Header length in 32-bit words: five, since no options are sent.
pub const TCP_DATA_OFFSET: u8 = 5;

/// The 4-tuple that identifies a socket: local address, remote address,
/// local port, remote port.  Listeners use address 0 and port 0 as the
/// wildcard remote.
#[derive(PartialEq, Eq, Structural, Clone, Copy, Hash, Debug)]
pub struct SockID(pub u32, pub u32, pub u16, pub u16);

/// Send-side sequence state.
#[derive(Clone, Copy, Debug)]
pub struct SendParam {
    /// Oldest byte sent but not yet acknowledged.
    pub unacked_seq: u32,
    /// Next sequence number to use.
    pub next: u32,
    /// Bytes we may still put in flight.
    pub window: u16,
    /// Initial send sequence number.
    pub initial_seq: u32,
}

/// Receive-side sequence state.
#[derive(Clone, Copy, Debug)]
pub struct RecvParam {
    /// Next byte expected in order.
    pub next: u32,
    /// Highest byte placed in the buffer, contiguous or not.
    pub tail: u32,
    /// Bytes still free in the receive buffer.
    pub window: u16,
    /// Initial receive sequence number.
    pub initial_seq: u32,
}

/// The TCP connection states.
#[derive(PartialEq, Eq, Structural, Clone, Copy, Debug)]
pub enum TcpStatus {
    Listen,
    SynSent,
    SynRcvd,
    Established,
    FinWait1,
    FinWait2,
    Closing,
    TimeWait,
    CloseWait,
    LastAck,
    Closed,
}

impl TcpStatus {
    /// The usual upper-case rendering of the state's name.
    pub fn as_str(&self) -> (r: &'static str)
        ensures
            match self {
                TcpStatus::Listen => r@ == "LISTEN"@,
                TcpStatus::SynSent => r@ == "SYNSENT"@,
                TcpStatus::SynRcvd => r@ == "SYNRCVD"@,
                TcpStatus::Established => r@ == "ESTABLISHED"@,
                TcpStatus::FinWait1 => r@ == "FINWAIT1"@,
                TcpStatus::FinWait2 => r@ == "FINWAIT2"@,
                TcpStatus::Closing => r@ == "CLOSING"@,
                TcpStatus::TimeWait => r@ == "TIMEWAIT"@,
                TcpStatus::CloseWait => r@ == "CLOSEWAIT"@,
                TcpStatus::LastAck => r@ == "LASTACK"@,
                TcpStatus::Closed => r@ == "CLOSED"@,
            },
    {
        match self {
            TcpStatus::Listen => "LISTEN",
            TcpStatus::SynSent => "SYNSENT",
            TcpStatus::SynRcvd => "SYNRCVD",
            TcpStatus::Established => "ESTABLISHED",
            TcpStatus::FinWait1 => "FINWAIT1",
            TcpStatus::FinWait2 => "FINWAIT2",
            TcpStatus::Closing => "CLOSING",
            TcpStatus::TimeWait => "TIMEWAIT",
            TcpStatus::CloseWait => "CLOSEWAIT",
            TcpStatus::LastAck => "LASTACK",
            TcpStatus::Closed => "CLOSED",
        }
    }
}

/// One segment awaiting acknowledgment, kept for retransmission.
pub struct RetransmissionQueueEntry {
    pub packet: TCPPacket,
    /// When the segment was last handed to the network, in milliseconds.
    pub latest_transmission_time: u64,
    pub transmission_count: u8,
}

impl RetransmissionQueueEntry {
    pub fn new(packet: TCPPacket, now_ms: u64) -> (r: Self)
        ensures
            r.packet@ == packet@,
            r.latest_transmission_time == now_ms,
            r.transmission_count == 1,
    {
        Self { packet, latest_transmission_time: now_ms, transmission_count: 1 }
    }
}

/// Total payload bytes held in a retransmission queue.
pub open spec fn queue_payload_sum(q: Seq<RetransmissionQueueEntry>) -> int
    decreases q.len(),
{
    if q.len() == 0 {
        0
    } else {
        queue_payload_sum(q.drop_last()) + payload_of(q.last().packet@).len()
    }
}

/// A queue of well-formed segments holds a non-negative number of bytes.
pub proof fn lemma_queue_sum_nonneg(q: Seq<RetransmissionQueueEntry>)
    requires
        forall|i: int| 0 <= i < q.len() ==> (#[trigger] q[i]).packet.wf(),
    ensures
        queue_payload_sum(q) >= 0,
    decreases q.len(),
{
    if q.len() > 0 {
        lemma_queue_sum_nonneg(q.drop_last());
    }
}

/// Appending an entry adds its payload length to the queue's byte count.
pub proof fn lemma_queue_sum_push(q: Seq<RetransmissionQueueEntry>, e: RetransmissionQueueEntry)
    ensures
        queue_payload_sum(q.push(e)) == queue_payload_sum(q) + payload_of(e.packet@).len(),
{
    assert(q.push(e).drop_last() =~= q);
}

/// Removing the front entry subtracts its payload length from the queue's
/// byte count.
pub proof fn lemma_queue_sum_drop_first(q: Seq<RetransmissionQueueEntry>)
    requires
        q.len() > 0,
    ensures
        queue_payload_sum(q.drop_first()) == queue_payload_sum(q) - payload_of(
            q.first().packet@).len(),
    decreases q.len(),
{
    if q.len() == 1 {
        assert(q.drop_first().len() == 0);
    } else {
        lemma_queue_sum_drop_first(q.drop_last());
        assert(q.drop_first().drop_last() =~= q.drop_last().drop_first());
        assert(q.drop_first().last() == q.last());
        assert(q.drop_last().first() == q.first());
        assert(q.drop_first().len() > 0);
        assert(queue_payload_sum(q.drop_first()) == queue_payload_sum(q.drop_first().drop_last())
            + payload_of(q.drop_first().last().packet@).len());
        assert(queue_payload_sum(q) == queue_payload_sum(q.drop_last()) + payload_of(
            q.last().packet@).len());
    }
}

/// An encoded segment to hand to the raw-IP sender, with its destination.
pub struct Transmission {
    pub remote_addr: u32,
    pub packet: TCPPacket,
}

/// A per-connection (or listening) control block.
pub struct Socket {
    pub local_addr: u32,
    pub remote_addr: u32,
    pub local_port: u16,
    pub remote_port: u16,
    pub send_param: SendParam,
    pub recv_param: RecvParam,
    pub status: TcpStatus,
    pub send_buffer: Vec<u8>,
    pub recv_buffer: Vec<u8>,
    pub retransmission_queue: VecDeque<RetransmissionQueueEntry>,
    /// Identifiers of connections completed on behalf of this listener.
    pub connected_connection_queue: VecDeque<SockID>,
    /// The listener that created this socket, if any.
    pub listening_socket: Option<SockID>,
}

/// A vector of `len` zero bytes.
fn zero_vec(len: usize) -> (r: Vec<u8>)
    ensures
        r@.len() == len,
        forall|i: int| 0 <= i < len ==> r@[i] == 0u8,
{
    let mut r: Vec<u8> = Vec::new();
    let mut i: usize = 0;
    while i < len
        invariant
            i <= len,
            r@.len() == i,
            forall|j: int| 0 <= j < i ==> r@[j] == 0u8,
        decreases len - i,
    {
        r.push(0u8);
        i = i + 1;
    }
    r
}

impl Socket {
    /// The identifier of this socket.
    pub open spec fn sock_id(&self) -> SockID {
        SockID(self.local_addr, self.remote_addr, self.local_port, self.remote_port)
    }

    /// Well-formedness of a control block.  The first two clauses are the
    /// window invariants (the unacknowledged sequence never passes the send
    /// cursor; the in-order mark never passes the placed tail); the rest
    /// keep the buffers and queue usable.
    pub open spec fn wf(&self) -> bool {
        &&& self.send_param.unacked_seq <= self.send_param.next
        &&& self.recv_param.next <= self.recv_param.tail
        &&& self.recv_param.tail as int <= self.recv_param.next as int
            + self.recv_param.window as int
        &&& self.recv_param.window <= SOCKET_BUFFER_SIZE
        &&& self.recv_buffer@.len() == SOCKET_BUFFER_SIZE
        &&& self.send_buffer@.len() == SOCKET_BUFFER_SIZE
        &&& forall|i: int|
            0 <= i < self.retransmission_queue@.len() ==> (
            #[trigger] self.retransmission_queue@[i]).packet.wf()
    }

    /// The send window plus the bytes awaiting acknowledgment never exceed
    /// a 16-bit window, and a socket still in its handshake holds no
    /// payload bytes in its queue.  This is what lets an acknowledgment
    /// credit the window without overflow.
    pub open spec fn budget_ok(&self) -> bool {
        &&& self.send_param.window as int + queue_payload_sum(self.retransmission_queue@)
            <= 0xFFFF
        &&& (self.status == TcpStatus::Listen || self.status == TcpStatus::SynSent
            || self.status == TcpStatus::SynRcvd) ==> queue_payload_sum(
            self.retransmission_queue@) == 0
    }

    /// Everything but the retransmission queue is the same in `post` as in
    /// `pre`.
    pub open spec fn only_queue_changed(pre: Socket, post: Socket) -> bool {
        &&& post.local_addr == pre.local_addr
        &&& post.remote_addr == pre.remote_addr
        &&& post.local_port == pre.local_port
        &&& post.remote_port == pre.remote_port
        &&& post.send_param == pre.send_param
        &&& post.recv_param == pre.recv_param
        &&& post.status == pre.status
        &&& post.send_buffer@ == pre.send_buffer@
        &&& post.recv_buffer@ == pre.recv_buffer@
        &&& post.connected_connection_queue@ == pre.connected_connection_queue@
        &&& post.listening_socket == pre.listening_socket
    }

    /// Everything but the retransmission queue and the send window is the
    /// same in `post` as in `pre`.
    pub open spec fn same_except_queue_and_send_window(pre: Socket, post: Socket) -> bool {
        &&& post.local_addr == pre.local_addr
        &&& post.remote_addr == pre.remote_addr
        &&& post.local_port == pre.local_port
        &&& post.remote_port == pre.remote_port
        &&& post.send_param.unacked_seq == pre.send_param.unacked_seq
        &&& post.send_param.next == pre.send_param.next
        &&& post.send_param.initial_seq == pre.send_param.initial_seq
        &&& post.recv_param == pre.recv_param
        &&& post.status == pre.status
        &&& post.send_buffer@ == pre.send_buffer@
        &&& post.recv_buffer@ == pre.recv_buffer@
        &&& post.connected_connection_queue@ == pre.connected_connection_queue@
        &&& post.listening_socket == pre.listening_socket
    }

    /// Everything but the queue of completed connections is the same in
    /// `post` as in `pre`.
    pub open spec fn only_conn_queue_changed(pre: Socket, post: Socket) -> bool {
        &&& post.local_addr == pre.local_addr
        &&& post.remote_addr == pre.remote_addr
        &&& post.local_port == pre.local_port
        &&& post.remote_port == pre.remote_port
        &&& post.send_param == pre.send_param
        &&& post.recv_param == pre.recv_param
        &&& post.status == pre.status
        &&& post.send_buffer@ == pre.send_buffer@
        &&& post.recv_buffer@ == pre.recv_buffer@
        &&& post.retransmission_queue@ == pre.retransmission_queue@
        &&& post.listening_socket == pre.listening_socket
    }

    /// A fresh control block: windows open to the whole buffer, sequence
    /// numbers zero, queues empty.
    pub fn new(local_addr: u32, remote_addr: u32, local_port: u16, remote_port: u16, status:
        TcpStatus) -> (r: Self)
        ensures
            r.wf(),
            r.local_addr == local_addr,
            r.remote_addr == remote_addr,
            r.local_port == local_port,
            r.remote_port == remote_port,
            r.status == status,
            r.send_param.unacked_seq == 0,
            r.send_param.next == 0,
            r.send_param.initial_seq == 0,
            r.send_param.window == SOCKET_BUFFER_SIZE,
            r.recv_param.next == 0,
            r.recv_param.tail == 0,
            r.recv_param.initial_seq == 0,
            r.recv_param.window == SOCKET_BUFFER_SIZE,
            r.retransmission_queue@.len() == 0,
            r.connected_connection_queue@.len() == 0,
            r.listening_socket is None,
            forall|i: int| 0 <= i < SOCKET_BUFFER_SIZE ==> r.send_buffer@[i] == 0u8,
            forall|i: int| 0 <= i < SOCKET_BUFFER_SIZE ==> r.recv_buffer@[i] == 0u8,
    {
        Self {
            local_addr,
            remote_addr,
            local_port,
            remote_port,
            send_param: SendParam {
                unacked_seq: 0,
                next: 0,
                window: SOCKET_BUFFER_SIZE as u16,
                initial_seq: 0,
            },
            recv_param: RecvParam {
                next: 0,
                tail: 0,
                window: SOCKET_BUFFER_SIZE as u16,
                initial_seq: 0,
            },
            status,
            send_buffer: zero_vec(SOCKET_BUFFER_SIZE),
            recv_buffer: zero_vec(SOCKET_BUFFER_SIZE),
            retransmission_queue: VecDeque::new(),
            connected_connection_queue: VecDeque::new(),
            listening_socket: None,
        }
    }

    /// The identifier of this socket, as a value.
    pub fn get_sock_id(&self) -> (r: SockID)
        ensures
            r == self.sock_id(),
    {
        SockID(self.local_addr, self.remote_addr, self.local_port, self.remote_port)
    }

    /// Builds one segment from this socket's ports, window and addresses,
    /// hands it to `out` for transmission, and — unless it is a bare
    /// acknowledgment with no payload — queues it for retransmission.
    /// Returns the number of bytes handed to the network.
    pub fn send_tcp_packet(&mut self, seq: u32, ack: u32, flag: u8, payload: &[u8], now_ms: u64,
        out: &mut Vec<Transmission>) -> (r: usize)
        requires
            old(self).wf(),
            payload@.len() <= MAX_SEGMENT_SIZE - TCP_HEADER_SIZE,
        ensures
            final(self).wf(),
            Socket::only_queue_changed(*old(self), *final(self)),
            r == TCP_HEADER_SIZE + payload@.len(),
            final(out)@.len() == old(out)@.len() + 1,
            forall|i: int| 0 <= i < old(out)@.len() ==> final(out)@[i] == old(out)@[i],
            ({
                let t = final(out)@.last();
                &&& t.remote_addr == old(self).remote_addr
                &&& t.packet.wf()
                &&& t.packet@.len() == TCP_HEADER_SIZE + payload@.len()
                &&& src_of(t.packet@) == old(self).local_port
                &&& dest_of(t.packet@) == old(self).remote_port
                &&& seq_of(t.packet@) == seq
                &&& ack_of(t.packet@) == ack
                &&& flag_of(t.packet@) == flag
                &&& t.packet@[12] == 80u8
                &&& window_of(t.packet@) == old(self).recv_param.window
                &&& payload_of(t.packet@) == payload@
                &&& checksum_ok(old(self).local_addr, old(self).remote_addr, t.packet@)
            }),
            payload@.len() > 0 || flag != tcpflags::ACK ==> {
                &&& final(self).retransmission_queue@.len() == old(
                    self).retransmission_queue@.len() + 1
                &&& forall|i: int|
                    0 <= i < old(self).retransmission_queue@.len() ==> final(
                    self).retransmission_queue@[i] == old(self).retransmission_queue@[i]
                &&& final(self).retransmission_queue@.last().packet@ == final(
                    out)@.last().packet@
                &&& final(self).retransmission_queue@.last().latest_transmission_time == now_ms
                &&& final(self).retransmission_queue@.last().transmission_count == 1
            },
            payload@.len() == 0 && flag == tcpflags::ACK ==> final(self).retransmission_queue@
                == old(self).retransmission_queue@,
    {
        proof {
            assert(0u8 | (TCP_DATA_OFFSET << 4) == 80u8) by (bit_vector);
        }
        let mut tcp_packet = TCPPacket::new(payload.len());
        tcp_packet.set_src(self.local_port);
        tcp_packet.set_dest(self.remote_port);
        tcp_packet.set_seq(seq);
        tcp_packet.set_ack(ack);
        tcp_packet.set_data_offset(TCP_DATA_OFFSET);
        tcp_packet.set_flag(flag);
        tcp_packet.set_window_size(self.recv_param.window);
        tcp_packet.set_payload(payload);
        let ghost unsummed = tcp_packet@;
        let checksum = compute_checksum(self.local_addr, self.remote_addr, tcp_packet.packet());
        tcp_packet.set_checksum(checksum);
        proof {
            lemma_sum_words_ignores_checksum_field(tcp_packet@, unsummed, num_words(unsummed));
            assert(payload_of(tcp_packet@) =~= payload@);
        }
        let r = tcp_packet.packet().len();
        out.push(Transmission { remote_addr: self.remote_addr, packet: tcp_packet.clone() });
        if payload.len() > 0 || flag != tcpflags::ACK {
            self.retransmission_queue.push_back(RetransmissionQueueEntry::new(
                tcp_packet,
                now_ms,
            ));
        }
        r
    }
}

} // verus!
