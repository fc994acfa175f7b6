use toytcp::packet::{compute_checksum, TCPPacket};
use toytcp::socket::{SockID, Socket, TcpStatus, SOCKET_BUFFER_SIZE};
use toytcp::tcp::{CloseStep, Effects, TCPEventKind, TcpError, MSS, TCP};
use toytcp::tcpflags;

const SERVER_IP: u32 = 0x0A00_0001; // 10.0.0.1
const CLIENT_IP: u32 = 0x0A00_0002; // 10.0.0.2
const SERVER_PORT: u16 = 40000;
const CLIENT_PORT: u16 = 50000;
const SERVER_ISS: u32 = 7777;
const CLIENT_ISS: u32 = 1234;

/// Builds a fully encoded segment as a peer at `src_ip` would send it.
fn seg(
    src_ip: u32,
    dst_ip: u32,
    src: u16,
    dst: u16,
    seq: u32,
    ack: u32,
    flag: u8,
    window: u16,
    payload: &[u8],
) -> TCPPacket {
    let mut p = TCPPacket::new(payload.len());
    p.set_src(src);
    p.set_dest(dst);
    p.set_seq(seq);
    p.set_ack(ack);
    p.set_data_offset(5);
    p.set_flag(flag);
    p.set_window_size(window);
    p.set_payload(payload);
    let c = compute_checksum(src_ip, dst_ip, p.packet());
    p.set_checksum(c);
    p
}

fn socket<'a>(tcp: &'a TCP, id: SockID) -> &'a Socket {
    tcp.sockets
        .iter()
        .find(|s| s.get_sock_id() == id)
        .expect("socket not in table")
}

/// A server that has completed the handshake: returns the engine, the
/// listener id, and the connected socket id.  The peer's first sequence
/// number for data is 101.
fn established_server() -> (TCP, SockID, SockID, Effects) {
    let mut tcp = TCP::new();
    let mut fx = Effects::new();
    let lid = tcp.listen(SERVER_IP, SERVER_PORT).unwrap();
    let syn = seg(
        CLIENT_IP, SERVER_IP, CLIENT_PORT, SERVER_PORT, 100, 0, tcpflags::SYN, 14600, &[],
    );
    tcp.receive_handler(SERVER_IP, CLIENT_IP, &syn, SERVER_ISS, 0, &mut fx);
    let ack = seg(
        CLIENT_IP,
        SERVER_IP,
        CLIENT_PORT,
        SERVER_PORT,
        101,
        SERVER_ISS + 1,
        tcpflags::ACK,
        14600,
        &[],
    );
    tcp.receive_handler(SERVER_IP, CLIENT_IP, &ack, SERVER_ISS, 0, &mut fx);
    let cid = tcp.accept(lid).unwrap();
    (tcp, lid, cid, fx)
}

/// A client that has completed the handshake against a peer whose initial
/// sequence number is `SERVER_ISS`.  The client's first data byte is
/// `CLIENT_ISS + 1`.
fn established_client() -> (TCP, SockID, Effects) {
    let mut tcp = TCP::new();
    let mut fx = Effects::new();
    let sid = tcp.connect(
        CLIENT_IP,
        SERVER_IP,
        45000,
        SERVER_PORT,
        CLIENT_ISS,
        0,
        &mut fx,
    );
    let synack = seg(
        SERVER_IP,
        CLIENT_IP,
        SERVER_PORT,
        45000,
        SERVER_ISS,
        CLIENT_ISS + 1,
        tcpflags::SYN | tcpflags::ACK,
        14600,
        &[],
    );
    tcp.receive_handler(CLIENT_IP, SERVER_IP, &synack, SERVER_ISS, 0, &mut fx);
    assert_eq!(socket(&tcp, sid).status, TcpStatus::Established);
    (tcp, sid, fx)
}

#[test]
fn handshake_echo_as_server() {
    let mut tcp = TCP::new();
    let mut fx = Effects::new();
    let lid = tcp.listen(SERVER_IP, SERVER_PORT).unwrap();
    assert_eq!(lid, SockID(SERVER_IP, 0, SERVER_PORT, 0));

    // client SYN, seq 100
    let syn = seg(
        CLIENT_IP, SERVER_IP, CLIENT_PORT, SERVER_PORT, 100, 0, tcpflags::SYN, 14600, &[],
    );
    tcp.receive_handler(SERVER_IP, CLIENT_IP, &syn, SERVER_ISS, 0, &mut fx);
    assert_eq!(fx.transmissions.len(), 1);
    let synack = &fx.transmissions[0].packet;
    assert_eq!(synack.get_flag(), tcpflags::SYN | tcpflags::ACK);
    assert_eq!(synack.get_seq(), SERVER_ISS);
    assert_eq!(synack.get_ack(), 101);
    assert_eq!(synack.get_src(), SERVER_PORT);
    assert_eq!(synack.get_dest(), CLIENT_PORT);
    assert!(synack.is_correct_checksum(SERVER_IP, CLIENT_IP));

    // client completes with ACK
    let ack = seg(
        CLIENT_IP,
        SERVER_IP,
        CLIENT_PORT,
        SERVER_PORT,
        101,
        SERVER_ISS + 1,
        tcpflags::ACK,
        14600,
        &[],
    );
    tcp.receive_handler(SERVER_IP, CLIENT_IP, &ack, SERVER_ISS, 0, &mut fx);
    let last = fx.events.last().unwrap();
    assert_eq!(last.sock_id, lid);
    assert_eq!(last.kind, TCPEventKind::ConnectionCompleted);

    let cid = tcp.accept(lid).unwrap();
    assert_eq!(cid, SockID(SERVER_IP, CLIENT_IP, SERVER_PORT, CLIENT_PORT));
    assert_eq!(socket(&tcp, cid).status, TcpStatus::Established);

    // client data "hi\n", seq 101
    let data = seg(
        CLIENT_IP,
        SERVER_IP,
        CLIENT_PORT,
        SERVER_PORT,
        101,
        SERVER_ISS + 1,
        tcpflags::ACK,
        14600,
        b"hi\n",
    );
    tcp.receive_handler(SERVER_IP, CLIENT_IP, &data, SERVER_ISS, 0, &mut fx);
    assert_eq!(
        fx.events.last().unwrap().kind,
        TCPEventKind::DataArrived
    );

    let mut buf = vec![0u8; 1024];
    let n = tcp.receive(cid, &mut buf).unwrap();
    assert_eq!(n, Some(3));
    assert_eq!(&buf[..3], b"hi\n");

    // echo the bytes back; the reply starts at our iss + 1
    let before = fx.transmissions.len();
    let cursor = tcp.send(cid, b"hi\n", 0, 0, &mut fx).unwrap();
    assert_eq!(cursor, 3);
    assert_eq!(fx.transmissions.len(), before + 1);
    let echo = &fx.transmissions[before].packet;
    assert_eq!(echo.get_seq(), SERVER_ISS + 1);
    assert_eq!(echo.payload(), b"hi\n".to_vec());
    assert_eq!(echo.get_ack(), 104);
}

#[test]
fn client_connect_sends_syn_and_completes() {
    let mut tcp = TCP::new();
    let mut fx = Effects::new();
    let sid = tcp.connect(
        CLIENT_IP,
        SERVER_IP,
        45000,
        SERVER_PORT,
        CLIENT_ISS,
        0,
        &mut fx,
    );
    assert_eq!(sid, SockID(CLIENT_IP, SERVER_IP, 45000, SERVER_PORT));
    assert!(45000 >= 40000 && 45000 < 60000);
    assert_eq!(fx.transmissions.len(), 1);
    let syn = &fx.transmissions[0].packet;
    assert_eq!(syn.get_flag(), tcpflags::SYN);
    assert_eq!(syn.get_seq(), CLIENT_ISS);
    assert_eq!(socket(&tcp, sid).status, TcpStatus::SynSent);

    let synack = seg(
        SERVER_IP,
        CLIENT_IP,
        SERVER_PORT,
        45000,
        SERVER_ISS,
        CLIENT_ISS + 1,
        tcpflags::SYN | tcpflags::ACK,
        14600,
        &[],
    );
    tcp.receive_handler(CLIENT_IP, SERVER_IP, &synack, SERVER_ISS, 0, &mut fx);
    assert_eq!(socket(&tcp, sid).status, TcpStatus::Established);
    // a bare acknowledgment went out
    let ack = &fx.transmissions[1].packet;
    assert_eq!(ack.get_flag(), tcpflags::ACK);
    assert_eq!(ack.get_seq(), CLIENT_ISS + 1);
    assert_eq!(ack.get_ack(), SERVER_ISS + 1);
    // and the caller was woken
    let last = fx.events.last().unwrap();
    assert_eq!(last.sock_id, sid);
    assert_eq!(last.kind, TCPEventKind::ConnectionCompleted);
}

#[test]
fn select_unused_port_skips_taken_ports() {
    let mut tcp = TCP::new();
    tcp.listen(SERVER_IP, 40000).unwrap();
    let candidates = vec![40000u16, 40001u16];
    assert_eq!(tcp.select_unused_port(&candidates), Ok(40001));
    let only_taken = vec![40000u16];
    assert_eq!(
        tcp.select_unused_port(&only_taken),
        Err(TcpError::NoAvailablePort)
    );
}

#[test]
fn lost_segment_is_retransmitted_after_timeout() {
    let (mut tcp, sid, mut fx) = established_client();
    let payload = vec![0x5A_u8; 1460];
    let before = fx.transmissions.len();
    tcp.send(sid, &payload, 0, 1000, &mut fx).unwrap();
    assert_eq!(fx.transmissions.len(), before + 1);
    let first = fx.transmissions[before].packet.packet().clone();

    // just under the timeout: nothing is resent
    tcp.timer(3999, &mut fx);
    assert_eq!(fx.transmissions.len(), before + 1);

    // at the timeout: the identical bytes go out again
    tcp.timer(4000, &mut fx);
    assert_eq!(fx.transmissions.len(), before + 2);
    assert_eq!(fx.transmissions[before + 1].packet.packet(), &first);

    // the peer acknowledges; the waiting sender is woken
    let ack = seg(
        SERVER_IP,
        CLIENT_IP,
        SERVER_PORT,
        45000,
        SERVER_ISS + 1,
        CLIENT_ISS + 1 + 1460,
        tcpflags::ACK,
        14600,
        &[],
    );
    tcp.receive_handler(CLIENT_IP, SERVER_IP, &ack, SERVER_ISS, 4000, &mut fx);
    assert!(fx
        .events
        .iter()
        .any(|e| e.sock_id == sid && e.kind == TCPEventKind::Acked));
    assert_eq!(socket(&tcp, sid).retransmission_queue.len(), 0);
}

#[test]
fn window_full_backpressure_caps_bytes_in_flight() {
    let (mut tcp, sid, mut fx) = established_client();
    let data = vec![0xAB_u8; 30000];
    let mut cursor = 0usize;
    let mut stalled = 0usize;
    while cursor < data.len() {
        let s = socket(&tcp, sid);
        let in_flight = s.send_param.next.wrapping_sub(s.send_param.unacked_seq);
        assert!(in_flight <= SOCKET_BUFFER_SIZE as u32);
        let next_cursor = tcp.send(sid, &data, cursor, 0, &mut fx).unwrap();
        if next_cursor == cursor {
            // window closed: exactly the whole buffer is in flight
            let s = socket(&tcp, sid);
            assert_eq!(
                s.send_param.next.wrapping_sub(s.send_param.unacked_seq),
                SOCKET_BUFFER_SIZE as u32
            );
            // the peer drains its buffer and acknowledges everything
            let ack = seg(
                SERVER_IP,
                CLIENT_IP,
                SERVER_PORT,
                45000,
                SERVER_ISS + 1,
                s.send_param.next,
                tcpflags::ACK,
                14600,
                &[],
            );
            tcp.receive_handler(CLIENT_IP, SERVER_IP, &ack, SERVER_ISS, 0, &mut fx);
            assert_eq!(socket(&tcp, sid).send_param.window, 14600);
            stalled += 1;
        } else {
            assert!(next_cursor - cursor <= MSS);
            cursor = next_cursor;
        }
    }
    assert!(stalled >= 1);
    assert_eq!(cursor, 30000);
}

#[test]
fn out_of_order_segments_are_delivered_in_order() {
    let (mut tcp, _lid, cid, mut fx) = established_server();
    let mk = |seq: u32, payload: &[u8]| {
        seg(
            CLIENT_IP,
            SERVER_IP,
            CLIENT_PORT,
            SERVER_PORT,
            seq,
            SERVER_ISS + 1,
            tcpflags::ACK,
            14600,
            payload,
        )
    };
    // in order, then a gap, then the gap filled: 101, 105, 103
    tcp.receive_handler(SERVER_IP, CLIENT_IP, &mk(101, b"aa"), SERVER_ISS, 0, &mut fx);
    assert_eq!(socket(&tcp, cid).recv_param.window, 14598);
    tcp.receive_handler(SERVER_IP, CLIENT_IP, &mk(105, b"ee"), SERVER_ISS, 0, &mut fx);
    // the out-of-order bytes are buffered without shrinking the window
    assert_eq!(socket(&tcp, cid).recv_param.window, 14598);
    assert_eq!(socket(&tcp, cid).recv_param.next, 103);
    tcp.receive_handler(SERVER_IP, CLIENT_IP, &mk(103, b"cc"), SERVER_ISS, 0, &mut fx);
    assert_eq!(socket(&tcp, cid).recv_param.next, 107);
    assert_eq!(socket(&tcp, cid).recv_param.window, 14594);

    let mut buf = vec![0u8; 16];
    let n = tcp.receive(cid, &mut buf).unwrap();
    assert_eq!(n, Some(6));
    assert_eq!(&buf[..6], b"aaccee");
}

#[test]
fn fin_while_established_makes_receive_return_zero() {
    let (mut tcp, _lid, cid, mut fx) = established_server();
    let fin = seg(
        CLIENT_IP,
        SERVER_IP,
        CLIENT_PORT,
        SERVER_PORT,
        101,
        SERVER_ISS + 1,
        tcpflags::FIN | tcpflags::ACK,
        14600,
        &[],
    );
    tcp.receive_handler(SERVER_IP, CLIENT_IP, &fin, SERVER_ISS, 0, &mut fx);
    assert_eq!(socket(&tcp, cid).status, TcpStatus::CloseWait);
    assert_eq!(socket(&tcp, cid).recv_param.next, 102);
    let mut buf = vec![0u8; 8];
    assert_eq!(tcp.receive(cid, &mut buf), Ok(Some(0)));
}

#[test]
fn graceful_close_from_client() {
    let (mut tcp, sid, mut fx) = established_client();
    let before = fx.transmissions.len();
    let step = tcp.close(sid, 0, &mut fx).unwrap();
    assert_eq!(step, CloseStep::AwaitClose);
    assert_eq!(socket(&tcp, sid).status, TcpStatus::FinWait1);
    let fin = &fx.transmissions[before].packet;
    assert_eq!(fin.get_flag(), tcpflags::FIN | tcpflags::ACK);
    assert_eq!(fin.get_seq(), CLIENT_ISS + 1);

    // the peer acknowledges our FIN
    let ack = seg(
        SERVER_IP,
        CLIENT_IP,
        SERVER_PORT,
        45000,
        SERVER_ISS + 1,
        CLIENT_ISS + 2,
        tcpflags::ACK,
        14600,
        &[],
    );
    tcp.receive_handler(CLIENT_IP, SERVER_IP, &ack, SERVER_ISS, 0, &mut fx);
    assert_eq!(socket(&tcp, sid).status, TcpStatus::FinWait2);

    // then closes its own side
    let peer_fin = seg(
        SERVER_IP,
        CLIENT_IP,
        SERVER_PORT,
        45000,
        SERVER_ISS + 1,
        CLIENT_ISS + 2,
        tcpflags::FIN | tcpflags::ACK,
        14600,
        &[],
    );
    tcp.receive_handler(CLIENT_IP, SERVER_IP, &peer_fin, SERVER_ISS, 0, &mut fx);
    assert!(fx
        .events
        .iter()
        .any(|e| e.sock_id == sid && e.kind == TCPEventKind::ConnectionClosed));
    // the waiting caller removes the socket
    tcp.remove_socket(sid);
    assert!(tcp.sockets.iter().all(|s| s.get_sock_id() != sid));
}

#[test]
fn passive_close_reaches_connection_closed() {
    let (mut tcp, _lid, cid, mut fx) = established_server();
    // peer closes first
    let fin = seg(
        CLIENT_IP,
        SERVER_IP,
        CLIENT_PORT,
        SERVER_PORT,
        101,
        SERVER_ISS + 1,
        tcpflags::FIN | tcpflags::ACK,
        14600,
        &[],
    );
    tcp.receive_handler(SERVER_IP, CLIENT_IP, &fin, SERVER_ISS, 0, &mut fx);
    assert_eq!(socket(&tcp, cid).status, TcpStatus::CloseWait);

    // we close: FIN goes out, socket waits in LastAck
    let step = tcp.close(cid, 0, &mut fx).unwrap();
    assert_eq!(step, CloseStep::AwaitClose);
    assert_eq!(socket(&tcp, cid).status, TcpStatus::LastAck);

    // peer acknowledges our FIN; the timer notices and completes the close
    let ack = seg(
        CLIENT_IP,
        SERVER_IP,
        CLIENT_PORT,
        SERVER_PORT,
        102,
        SERVER_ISS + 2,
        tcpflags::ACK,
        14600,
        &[],
    );
    tcp.receive_handler(SERVER_IP, CLIENT_IP, &ack, SERVER_ISS, 0, &mut fx);
    tcp.timer(100, &mut fx);
    assert!(fx
        .events
        .iter()
        .any(|e| e.sock_id == cid && e.kind == TCPEventKind::ConnectionClosed));
    tcp.remove_socket(cid);
    assert!(tcp.sockets.iter().all(|s| s.get_sock_id() != cid));
}

#[test]
fn five_retry_ceiling_then_drop() {
    let (mut tcp, sid, mut fx) = established_client();
    let payload = vec![0x11_u8; 100];
    tcp.send(sid, &payload, 0, 0, &mut fx).unwrap();
    let base = fx.transmissions.len();

    // the peer is a black hole: four retransmissions, three seconds apart
    for round in 1..=4u64 {
        tcp.timer(3000 * round, &mut fx);
        assert_eq!(fx.transmissions.len(), base + round as usize);
        assert_eq!(
            socket(&tcp, sid).retransmission_queue[0].transmission_count,
            1 + round as u8
        );
    }
    // the fifth attempt was the last: the next timeout gives the segment up
    tcp.timer(15000, &mut fx);
    assert_eq!(fx.transmissions.len(), base + 4);
    assert_eq!(socket(&tcp, sid).retransmission_queue.len(), 0);
}

#[test]
fn pure_ack_is_never_queued_for_retransmission() {
    let (mut tcp, _lid, cid, mut fx) = established_server();
    // only the handshake's SYN-ACK sits in the queue so far; the bare
    // acknowledgment provoked by a data segment must not join it
    let q_before: Vec<u32> = socket(&tcp, cid)
        .retransmission_queue
        .iter()
        .map(|e| e.packet.get_seq())
        .collect();
    assert_eq!(q_before, vec![SERVER_ISS]);
    let data = seg(
        CLIENT_IP,
        SERVER_IP,
        CLIENT_PORT,
        SERVER_PORT,
        101,
        SERVER_ISS + 1,
        tcpflags::ACK,
        14600,
        b"xy",
    );
    tcp.receive_handler(SERVER_IP, CLIENT_IP, &data, SERVER_ISS, 0, &mut fx);
    // a bare ACK went out for the data, yet the queue gained nothing
    let q_after: Vec<u32> = socket(&tcp, cid)
        .retransmission_queue
        .iter()
        .map(|e| e.packet.get_seq())
        .collect();
    assert_eq!(q_after, vec![SERVER_ISS]);
    let reply = &fx.transmissions.last().unwrap().packet;
    assert_eq!(reply.get_flag(), tcpflags::ACK);
    assert_eq!(reply.payload_len(), 0);
}

#[test]
fn bad_checksum_and_unknown_tuple_are_dropped() {
    let (mut tcp, _lid, cid, mut fx) = established_server();
    let mut corrupt = seg(
        CLIENT_IP,
        SERVER_IP,
        CLIENT_PORT,
        SERVER_PORT,
        101,
        SERVER_ISS + 1,
        tcpflags::ACK,
        14600,
        b"zz",
    );
    corrupt.set_checksum(corrupt.get_checksum() ^ 0x0001);
    let events = fx.events.len();
    let txs = fx.transmissions.len();
    tcp.receive_handler(SERVER_IP, CLIENT_IP, &corrupt, SERVER_ISS, 0, &mut fx);
    assert_eq!(fx.events.len(), events);
    assert_eq!(fx.transmissions.len(), txs);
    assert_eq!(socket(&tcp, cid).recv_param.next, 101);

    // a segment for a tuple nobody owns is ignored
    let stray = seg(CLIENT_IP, SERVER_IP, 1, 2, 5, 6, tcpflags::ACK, 7, b"q");
    tcp.receive_handler(SERVER_IP, CLIENT_IP, &stray, SERVER_ISS, 0, &mut fx);
    assert_eq!(fx.events.len(), events);
    assert_eq!(fx.transmissions.len(), txs);
}

#[test]
fn api_errors_name_their_causes() {
    let mut tcp = TCP::new();
    let mut fx = Effects::new();
    let ghost = SockID(1, 2, 3, 4);
    assert_eq!(tcp.accept(ghost), Err(TcpError::NoSuchSocket));
    let mut buf = vec![0u8; 4];
    assert_eq!(tcp.receive(ghost, &mut buf), Err(TcpError::NoSuchSocket));
    assert_eq!(tcp.send(ghost, b"x", 0, 0, &mut fx), Err(TcpError::NoSuchSocket));
    assert_eq!(tcp.close(ghost, 0, &mut fx), Err(TcpError::NoSuchSocket));

    let lid = tcp.listen(SERVER_IP, SERVER_PORT).unwrap();
    assert_eq!(tcp.accept(lid), Err(TcpError::NoConnectedSocket));
}

#[test]
fn closing_a_listener_removes_it() {
    let mut tcp = TCP::new();
    let mut fx = Effects::new();
    let lid = tcp.listen(SERVER_IP, SERVER_PORT).unwrap();
    assert_eq!(tcp.close(lid, 0, &mut fx), Ok(CloseStep::Removed));
    assert!(tcp.sockets.is_empty());
}

#[test]
fn syn_in_synrcvd_resets_the_half_open_connection() {
    let mut tcp = TCP::new();
    let mut fx = Effects::new();
    tcp.listen(SERVER_IP, SERVER_PORT).unwrap();
    let syn = seg(
        CLIENT_IP, SERVER_IP, CLIENT_PORT, SERVER_PORT, 100, 0, tcpflags::SYN, 14600, &[],
    );
    tcp.receive_handler(SERVER_IP, CLIENT_IP, &syn, SERVER_ISS, 0, &mut fx);
    let cid = SockID(SERVER_IP, CLIENT_IP, SERVER_PORT, CLIENT_PORT);
    assert!(tcp.sockets.iter().any(|s| s.get_sock_id() == cid));
    // a second SYN resets the half-open socket
    tcp.receive_handler(SERVER_IP, CLIENT_IP, &syn, SERVER_ISS, 0, &mut fx);
    assert!(tcp.sockets.iter().all(|s| s.get_sock_id() != cid));
}

#[test]
fn receive_in_small_chunks_keeps_order() {
    let (mut tcp, _lid, cid, mut fx) = established_server();
    let data = seg(
        CLIENT_IP,
        SERVER_IP,
        CLIENT_PORT,
        SERVER_PORT,
        101,
        SERVER_ISS + 1,
        tcpflags::ACK,
        14600,
        b"abcdef",
    );
    tcp.receive_handler(SERVER_IP, CLIENT_IP, &data, SERVER_ISS, 0, &mut fx);
    let mut buf = vec![0u8; 2];
    assert_eq!(tcp.receive(cid, &mut buf), Ok(Some(2)));
    assert_eq!(&buf[..], b"ab");
    let mut buf = vec![0u8; 3];
    assert_eq!(tcp.receive(cid, &mut buf), Ok(Some(3)));
    assert_eq!(&buf[..], b"cde");
    let mut buf = vec![0u8; 8];
    assert_eq!(tcp.receive(cid, &mut buf), Ok(Some(1)));
    assert_eq!(&buf[..1], b"f");
    assert_eq!(socket(&tcp, cid).recv_param.window, 14600);
}

#[test]
fn duplicate_acknowledgment_is_ignored() {
    let (mut tcp, sid, mut fx) = established_client();
    let payload = vec![0x42_u8; 200];
    tcp.send(sid, &payload, 0, 0, &mut fx).unwrap();
    let ack = seg(
        SERVER_IP,
        CLIENT_IP,
        SERVER_PORT,
        45000,
        SERVER_ISS + 1,
        CLIENT_ISS + 1 + 200,
        tcpflags::ACK,
        14600,
        &[],
    );
    tcp.receive_handler(CLIENT_IP, SERVER_IP, &ack, SERVER_ISS, 0, &mut fx);
    let after_first = socket(&tcp, sid).send_param;
    assert_eq!(after_first.unacked_seq, CLIENT_ISS + 201);
    let events = fx.events.len();
    // the same acknowledgment again changes nothing
    tcp.receive_handler(CLIENT_IP, SERVER_IP, &ack, SERVER_ISS, 0, &mut fx);
    let after_second = socket(&tcp, sid).send_param;
    assert_eq!(after_second.unacked_seq, after_first.unacked_seq);
    assert_eq!(after_second.window, after_first.window);
    assert_eq!(fx.events.len(), events);
}

#[test]
fn fin_riding_on_data_delivers_the_data_and_keeps_the_connection() {
    let (mut tcp, _lid, cid, mut fx) = established_server();
    let seg_with_fin = seg(
        CLIENT_IP,
        SERVER_IP,
        CLIENT_PORT,
        SERVER_PORT,
        101,
        SERVER_ISS + 1,
        tcpflags::FIN | tcpflags::ACK,
        14600,
        b"bye",
    );
    tcp.receive_handler(SERVER_IP, CLIENT_IP, &seg_with_fin, SERVER_ISS, 0, &mut fx);
    // the payload arrives in order; the FIN, whose sequence number sits
    // before the advanced in-order mark, is left for a clean retransmission
    assert_eq!(socket(&tcp, cid).status, TcpStatus::Established);
    let mut buf = vec![0u8; 8];
    assert_eq!(tcp.receive(cid, &mut buf), Ok(Some(3)));
    assert_eq!(&buf[..3], b"bye");
    // the peer retransmits the FIN alone at the next sequence number
    let fin = seg(
        CLIENT_IP,
        SERVER_IP,
        CLIENT_PORT,
        SERVER_PORT,
        104,
        SERVER_ISS + 1,
        tcpflags::FIN | tcpflags::ACK,
        14600,
        &[],
    );
    tcp.receive_handler(SERVER_IP, CLIENT_IP, &fin, SERVER_ISS, 0, &mut fx);
    assert_eq!(socket(&tcp, cid).status, TcpStatus::CloseWait);
    assert_eq!(tcp.receive(cid, &mut buf), Ok(Some(0)));
}
