use dev_tunnel::checksum::internet_checksum;
use dev_tunnel::engine::{DropReason, ForwardDecision, TunnelEngine};
use dev_tunnel::flow::{FlowError, FlowKey, FlowTable, TcpState};
use dev_tunnel::packet::{
    classify, encode_ipv4, encode_tcp_header, encode_udp_header, ClassifyError, Protocol,
    Transport,
};
use dev_tunnel::session::{
    handshake_message, session_step, SessionAction, SessionEvent, SessionState,
};

fn addr(a: u8, b: u8, c: u8, d: u8) -> u32 {
    ((a as u32) << 24) | ((b as u32) << 16) | ((c as u32) << 8) | (d as u32)
}

fn tcp_frame(
    src: u32,
    dst: u32,
    src_port: u16,
    dst_port: u16,
    seq: u32,
    fin: bool,
    syn: bool,
    rst: bool,
) -> Vec<u8> {
    let tcp = encode_tcp_header(src_port, dst_port, seq, fin, syn, rst, false);
    encode_ipv4(src, dst, 6, tcp.as_slice())
}

fn udp_frame(src: u32, dst: u32, src_port: u16, dst_port: u16) -> Vec<u8> {
    let udp = encode_udp_header(src_port, dst_port, 0);
    encode_ipv4(src, dst, 17, udp.as_slice())
}

#[test]
fn classify_recovers_tcp_fields() {
    let client = addr(10, 0, 0, 7);
    let server = addr(93, 184, 216, 34);
    let frame = tcp_frame(client, server, 51000, 443, 12345, false, true, false);
    let p = classify(frame.as_slice()).expect("valid frame must classify");
    assert_eq!(p.src_addr, client);
    assert_eq!(p.dst_addr, server);
    assert_eq!(p.protocol, Protocol::Tcp);
    assert_eq!(p.header_len, 20);
    assert_eq!(p.total_len, 40);
    match p.transport {
        Transport::Tcp { src_port, dst_port, seq, fin, syn, rst } => {
            assert_eq!(src_port, 51000);
            assert_eq!(dst_port, 443);
            assert_eq!(seq, 12345);
            assert!(!fin && syn && !rst);
        }
        other => panic!("expected TCP transport, got {:?}", other),
    }
}

#[test]
fn classify_recovers_udp_fields() {
    let frame = udp_frame(addr(10, 0, 0, 7), addr(8, 8, 8, 8), 40000, 53);
    let p = classify(frame.as_slice()).expect("valid frame must classify");
    assert_eq!(p.protocol, Protocol::Udp);
    match p.transport {
        Transport::Udp { src_port, dst_port } => {
            assert_eq!(src_port, 40000);
            assert_eq!(dst_port, 53);
        }
        other => panic!("expected UDP transport, got {:?}", other),
    }
}

#[test]
fn classify_other_protocol() {
    let frame = encode_ipv4(addr(1, 2, 3, 4), addr(5, 6, 7, 8), 1, &[0u8; 8]);
    let p = classify(frame.as_slice()).expect("valid frame must classify");
    assert_eq!(p.protocol, Protocol::Other(1));
    assert_eq!(p.transport, Transport::Opaque);
}

#[test]
fn classify_empty_is_malformed() {
    assert_eq!(classify(&[]), Err(ClassifyError::Malformed));
}

#[test]
fn classify_ipv6_is_unsupported() {
    let buf = [0x60u8; 40];
    assert_eq!(classify(&buf), Err(ClassifyError::Unsupported));
}

#[test]
fn classify_bad_version_is_malformed() {
    let buf = [0x50u8; 40];
    assert_eq!(classify(&buf), Err(ClassifyError::Malformed));
}

#[test]
fn classify_short_header_is_malformed() {
    // Declared header length 24 bytes (IHL 6) but only 20 bytes of buffer.
    let mut frame = tcp_frame(addr(1, 1, 1, 1), addr(2, 2, 2, 2), 1, 2, 0, false, false, false);
    frame[0] = 0x4f; // IHL 15: 60-byte header declared
    frame.truncate(20);
    assert_eq!(classify(frame.as_slice()), Err(ClassifyError::Malformed));
}

#[test]
fn classify_truncated_buffer_is_malformed() {
    let mut frame = tcp_frame(addr(1, 1, 1, 1), addr(2, 2, 2, 2), 1, 2, 0, false, false, false);
    frame.truncate(30); // shorter than the declared total length of 40
    assert_eq!(classify(frame.as_slice()), Err(ClassifyError::Malformed));
}

#[test]
fn internet_checksum_known_value() {
    // Words 0x0001 f203 f4f5 f6f7 sum to 0x2ddf0; folding gives 0xddf2,
    // whose one's complement is 0x220d.
    let data = [0x00u8, 0x01, 0xf2, 0x03, 0xf4, 0xf5, 0xf6, 0xf7];
    assert_eq!(internet_checksum(&data, 0, 8), 0x220d);
}

#[test]
fn encoded_header_checksum_verifies() {
    // Summing all header words of a well-formed header, checksum included,
    // must fold to 0xffff.
    let frame = tcp_frame(addr(10, 0, 0, 1), addr(10, 0, 0, 2), 1000, 80, 1, false, true, false);
    let mut sum: u32 = 0;
    for i in 0..10 {
        sum += ((frame[2 * i] as u32) << 8) | (frame[2 * i + 1] as u32);
    }
    while sum > 0xffff {
        sum = (sum & 0xffff) + (sum >> 16);
    }
    assert_eq!(sum, 0xffff);
}

fn key(protocol: Protocol, src: u32, sp: u16, dst: u32, dp: u16) -> FlowKey {
    FlowKey { protocol, src_addr: src, src_port: sp, dst_addr: dst, dst_port: dp }
}

#[test]
fn lookup_or_create_is_idempotent() {
    let mut t = FlowTable::new(addr(192, 168, 1, 10), Vec::new(), 16);
    let k = key(Protocol::Tcp, addr(10, 0, 0, 7), 51000, addr(1, 1, 1, 1), 443);
    let first = t.lookup_or_create(k, 1, 100).expect("creation must succeed");
    let second = t.lookup_or_create(k, 1, 200).expect("lookup must succeed");
    assert_eq!(first, second);
    assert_eq!(t.entries.len(), 1);
}

#[test]
fn dmz_allow_list_denies_and_admits() {
    let mut t = FlowTable::new(addr(192, 168, 1, 10), vec![80, 443], 16);
    let denied = key(Protocol::Tcp, addr(10, 0, 0, 7), 51000, addr(1, 1, 1, 1), 22);
    assert_eq!(t.lookup_or_create(denied, 1, 0), Err(FlowError::PolicyDenied));
    assert_eq!(t.entries.len(), 0);
    let admitted = key(Protocol::Tcp, addr(10, 0, 0, 7), 51000, addr(1, 1, 1, 1), 443);
    let e = t.lookup_or_create(admitted, 1, 0).expect("allowed port must be admitted");
    assert_eq!(e.session_id, 1);
    assert_eq!(t.entries.len(), 1);
}

#[test]
fn table_full_sheds_new_flows_only() {
    let mut t = FlowTable::new(addr(192, 168, 1, 10), Vec::new(), 1);
    let k1 = key(Protocol::Tcp, addr(10, 0, 0, 7), 1, addr(1, 1, 1, 1), 80);
    let k2 = key(Protocol::Tcp, addr(10, 0, 0, 7), 2, addr(1, 1, 1, 1), 80);
    t.lookup_or_create(k1, 1, 0).expect("first flow fits");
    assert_eq!(t.lookup_or_create(k2, 1, 0), Err(FlowError::TableFull));
    // The existing flow is unaffected.
    let e = t.lookup_or_create(k1, 1, 0).expect("existing flow survives");
    assert_eq!(e.session_id, 1);
}

#[test]
fn idle_flows_are_evicted_and_active_ones_retained() {
    let mut t = FlowTable::new(addr(192, 168, 1, 10), Vec::new(), 16);
    let idle = key(Protocol::Tcp, addr(10, 0, 0, 7), 1, addr(1, 1, 1, 1), 80);
    let busy = key(Protocol::Tcp, addr(10, 0, 0, 7), 2, addr(1, 1, 1, 1), 80);
    t.lookup_or_create(idle, 1, 0).unwrap();
    t.lookup_or_create(busy, 1, 0).unwrap();
    assert!(t.touch(busy, 150));
    let removed = t.evict_idle(200, 120);
    assert_eq!(removed.len(), 1);
    assert_eq!(removed[0].0, idle);
    assert_eq!(t.entries.len(), 1);
    assert_eq!(t.entries[0].0, busy);
}

#[test]
fn translated_ports_are_distinct() {
    let mut t = FlowTable::new(addr(192, 168, 1, 10), Vec::new(), 16);
    let k1 = key(Protocol::Tcp, addr(10, 0, 0, 7), 1, addr(1, 1, 1, 1), 80);
    let k2 = key(Protocol::Tcp, addr(10, 0, 0, 7), 2, addr(1, 1, 1, 1), 80);
    let e1 = t.lookup_or_create(k1, 1, 0).unwrap();
    let e2 = t.lookup_or_create(k2, 1, 0).unwrap();
    assert_ne!(e1.translated_port, e2.translated_port);
    assert_eq!(e1.translated_addr, addr(192, 168, 1, 10));
}

#[test]
fn session_state_machine_table() {
    assert_eq!(
        session_step(SessionState::Handshaking, SessionEvent::Accepted),
        (SessionState::Active, SessionAction::SendHandshake)
    );
    assert_eq!(
        session_step(SessionState::Active, SessionEvent::BinaryFrame),
        (SessionState::Active, SessionAction::ProcessFrame)
    );
    assert_eq!(
        session_step(SessionState::Active, SessionEvent::Ping),
        (SessionState::Active, SessionAction::SendPong)
    );
    assert_eq!(
        session_step(SessionState::Active, SessionEvent::TextMessage),
        (SessionState::Active, SessionAction::Ignore)
    );
    assert_eq!(
        session_step(SessionState::Active, SessionEvent::CloseRequested),
        (SessionState::Closing, SessionAction::Ignore)
    );
    assert_eq!(
        session_step(SessionState::Active, SessionEvent::TransportError),
        (SessionState::Closing, SessionAction::Ignore)
    );
    assert_eq!(
        session_step(SessionState::Closing, SessionEvent::TransportError),
        (SessionState::Closed, SessionAction::TeardownFlows)
    );
    assert_eq!(
        session_step(SessionState::Closed, SessionEvent::BinaryFrame),
        (SessionState::Closed, SessionAction::Ignore)
    );
}

#[test]
fn handshake_message_format() {
    let ip = addr(192, 168, 1, 10);
    let mask = addr(255, 255, 255, 0);
    let s = handshake_message(ip, mask);
    assert_eq!(s.as_str(), "ip: 192.168.1.10, mask: 255.255.255.0");
}

#[test]
fn end_to_end_syn_and_reply() {
    let local = addr(192, 168, 1, 10);
    let client = addr(10, 0, 0, 7);
    let server = addr(93, 184, 216, 34);
    let mut engine = TunnelEngine::new(local, vec![80, 443], 64);
    let sid = engine
        .open_session(String::from("203.0.113.9:51823"), local, addr(255, 255, 255, 0))
        .expect("session id available");
    let hello = handshake_message(local, addr(255, 255, 255, 0));
    assert_eq!(hello.as_str(), "ip: 192.168.1.10, mask: 255.255.255.0");

    // Client sends a TCP SYN to port 443 through the tunnel.
    let syn = tcp_frame(client, server, 51000, 443, 7, false, true, false);
    let out = match engine.forward_to_network(sid, syn.as_slice(), 10) {
        ForwardDecision::Forward(bytes) => bytes,
        other => panic!("expected a forwarded frame, got {:?}", other),
    };
    let p = classify(out.as_slice()).expect("forwarded frame is valid");
    assert_eq!(p.src_addr, local);
    assert_eq!(p.dst_addr, server);
    let translated_port = match p.transport {
        Transport::Tcp { src_port, dst_port, syn, .. } => {
            assert_eq!(dst_port, 443);
            assert!(syn);
            src_port
        }
        other => panic!("expected TCP, got {:?}", other),
    };

    // The sink answers with a SYN-ACK aimed at the translated identity.
    let reply = tcp_frame(server, local, 443, translated_port, 99, false, true, false);
    let (rsid, back) = engine
        .forward_from_network(reply.as_slice(), 11)
        .expect("reply must map back to the flow");
    assert_eq!(rsid, sid);
    let q = classify(back.as_slice()).expect("translated reply is valid");
    assert_eq!(q.src_addr, server);
    assert_eq!(q.dst_addr, client);
    match q.transport {
        Transport::Tcp { src_port, dst_port, .. } => {
            assert_eq!(src_port, 443);
            assert_eq!(dst_port, 51000);
        }
        other => panic!("expected TCP, got {:?}", other),
    }
}

#[test]
fn fin_marks_closing_and_sweep_reaps() {
    let local = addr(192, 168, 1, 10);
    let client = addr(10, 0, 0, 7);
    let server = addr(93, 184, 216, 34);
    let mut engine = TunnelEngine::new(local, Vec::new(), 64);
    let sid = engine
        .open_session(String::from("203.0.113.9:51823"), local, addr(255, 255, 255, 0))
        .unwrap();
    let syn = tcp_frame(client, server, 51000, 443, 1, false, true, false);
    assert!(matches!(
        engine.forward_to_network(sid, syn.as_slice(), 10),
        ForwardDecision::Forward(_)
    ));
    let fin = tcp_frame(client, server, 51000, 443, 2, true, false, false);
    assert!(matches!(
        engine.forward_to_network(sid, fin.as_slice(), 11),
        ForwardDecision::Forward(_)
    ));
    assert_eq!(engine.table.entries[0].1.tcp_state, TcpState::Closing);
    // The next sweep removes the closing flow even with no further traffic
    // and no idle time elapsed.
    let removed = engine.sweep(12, 120);
    assert_eq!(removed.len(), 1);
    assert_eq!(engine.table.entries.len(), 0);
}

#[test]
fn abrupt_disconnect_removes_both_flows() {
    let local = addr(192, 168, 1, 10);
    let client = addr(10, 0, 0, 7);
    let mut engine = TunnelEngine::new(local, Vec::new(), 64);
    let sid = engine
        .open_session(String::from("203.0.113.9:51823"), local, addr(255, 255, 255, 0))
        .unwrap();
    let f1 = tcp_frame(client, addr(1, 1, 1, 1), 51000, 443, 1, false, true, false);
    let f2 = udp_frame(client, addr(8, 8, 8, 8), 40000, 53);
    assert!(matches!(
        engine.forward_to_network(sid, f1.as_slice(), 10),
        ForwardDecision::Forward(_)
    ));
    assert!(matches!(
        engine.forward_to_network(sid, f2.as_slice(), 10),
        ForwardDecision::Forward(_)
    ));
    assert_eq!(engine.table.entries.len(), 2);
    let removed = engine.close_session(sid);
    assert_eq!(removed.len(), 2);
    assert_eq!(engine.table.entries.len(), 0);
    assert!(!engine.registry.contains(sid));
}

#[test]
fn engine_policy_denied_and_admitted() {
    let local = addr(192, 168, 1, 10);
    let client = addr(10, 0, 0, 7);
    let mut engine = TunnelEngine::new(local, vec![80, 443], 64);
    let sid = engine
        .open_session(String::from("203.0.113.9:51823"), local, addr(255, 255, 255, 0))
        .unwrap();
    let ssh = tcp_frame(client, addr(1, 1, 1, 1), 51000, 22, 1, false, true, false);
    assert!(matches!(
        engine.forward_to_network(sid, ssh.as_slice(), 10),
        ForwardDecision::Drop(DropReason::PolicyDenied)
    ));
    assert_eq!(engine.table.entries.len(), 0);
    let https = tcp_frame(client, addr(1, 1, 1, 1), 51000, 443, 1, false, true, false);
    assert!(matches!(
        engine.forward_to_network(sid, https.as_slice(), 10),
        ForwardDecision::Forward(_)
    ));
    assert_eq!(engine.table.entries.len(), 1);
}

#[test]
fn engine_drops_unknown_session_and_skips_ipv6() {
    let mut engine = TunnelEngine::new(addr(192, 168, 1, 10), Vec::new(), 64);
    let frame = tcp_frame(addr(10, 0, 0, 7), addr(1, 1, 1, 1), 1, 2, 0, false, true, false);
    assert!(matches!(
        engine.forward_to_network(77, frame.as_slice(), 0),
        ForwardDecision::Drop(DropReason::UnknownSession)
    ));
    let sid = engine
        .open_session(String::from("203.0.113.9:51823"), addr(192, 168, 1, 10), 0)
        .unwrap();
    let v6 = [0x60u8; 40];
    assert!(matches!(
        engine.forward_to_network(sid, &v6, 0),
        ForwardDecision::Unsupported
    ));
    let garbage = [0xabu8; 3];
    assert!(matches!(
        engine.forward_to_network(sid, &garbage, 0),
        ForwardDecision::Drop(DropReason::Malformed)
    ));
}

#[test]
fn unsolicited_network_traffic_is_dropped() {
    let mut engine = TunnelEngine::new(addr(192, 168, 1, 10), Vec::new(), 64);
    let stray = tcp_frame(addr(5, 5, 5, 5), addr(192, 168, 1, 10), 443, 50000, 0, false, false, false);
    assert!(engine.forward_from_network(stray.as_slice(), 0).is_none());
}

#[test]
fn udp_flow_is_translated_both_ways() {
    let local = addr(192, 168, 1, 10);
    let client = addr(10, 0, 0, 7);
    let dns = addr(8, 8, 8, 8);
    let mut engine = TunnelEngine::new(local, Vec::new(), 64);
    let sid = engine
        .open_session(String::from("203.0.113.9:51823"), local, addr(255, 255, 255, 0))
        .unwrap();
    let query = udp_frame(client, dns, 40000, 53);
    let out = match engine.forward_to_network(sid, query.as_slice(), 5) {
        ForwardDecision::Forward(bytes) => bytes,
        other => panic!("expected forward, got {:?}", other),
    };
    let p = classify(out.as_slice()).unwrap();
    assert_eq!(p.src_addr, local);
    let tport = match p.transport {
        Transport::Udp { src_port, dst_port } => {
            assert_eq!(dst_port, 53);
            src_port
        }
        other => panic!("expected UDP, got {:?}", other),
    };
    let answer = udp_frame(dns, local, 53, tport);
    let (rsid, back) = engine.forward_from_network(answer.as_slice(), 6).unwrap();
    assert_eq!(rsid, sid);
    let q = classify(back.as_slice()).unwrap();
    assert_eq!(q.dst_addr, client);
    match q.transport {
        Transport::Udp { src_port, dst_port } => {
            assert_eq!(src_port, 53);
            assert_eq!(dst_port, 40000);
        }
        other => panic!("expected UDP, got {:?}", other),
    }
}

#[test]
fn short_transport_header_is_malformed() {
    // Declared lengths consistent, but a TCP packet whose transport part is
    // shorter than a TCP header.
    let frame = encode_ipv4(addr(1, 1, 1, 1), addr(2, 2, 2, 2), 6, &[0u8; 8]);
    assert_eq!(classify(frame.as_slice()), Err(ClassifyError::Malformed));
}

#[test]
fn fin_on_reply_leg_marks_closing() {
    let local = addr(192, 168, 1, 10);
    let client = addr(10, 0, 0, 7);
    let server = addr(93, 184, 216, 34);
    let mut engine = TunnelEngine::new(local, Vec::new(), 64);
    let sid = engine
        .open_session(String::from("203.0.113.9:51823"), local, addr(255, 255, 255, 0))
        .unwrap();
    let syn = tcp_frame(client, server, 51000, 443, 1, false, true, false);
    let out = match engine.forward_to_network(sid, syn.as_slice(), 10) {
        ForwardDecision::Forward(bytes) => bytes,
        other => panic!("expected forward, got {:?}", other),
    };
    let tport = match classify(out.as_slice()).unwrap().transport {
        Transport::Tcp { src_port, .. } => src_port,
        other => panic!("expected TCP, got {:?}", other),
    };
    // The server side closes: FIN arrives on the network leg.
    let fin = tcp_frame(server, local, 443, tport, 2, true, false, false);
    assert!(engine.forward_from_network(fin.as_slice(), 11).is_some());
    assert_eq!(engine.table.entries[0].1.tcp_state, TcpState::Closing);
    let removed = engine.sweep(12, 120);
    assert_eq!(removed.len(), 1);
    assert_eq!(engine.table.entries.len(), 0);
}

#[test]
fn registry_enumerates_and_records_state() {
    let local = addr(192, 168, 1, 10);
    let mut engine = TunnelEngine::new(local, Vec::new(), 8);
    let a = engine.open_session(String::from("203.0.113.9:1"), local, 0).unwrap();
    let b = engine.open_session(String::from("203.0.113.9:2"), local, 0).unwrap();
    assert_eq!(engine.registry.session_ids(), vec![a, b]);
    assert!(engine.set_session_state(a, SessionState::Active));
    assert!(!engine.set_session_state(999, SessionState::Active));
    engine.close_session(a);
    assert_eq!(engine.registry.session_ids(), vec![b]);
}
