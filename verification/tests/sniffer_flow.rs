use sni_spoof_rs::net::IpAddr;
use sni_spoof_rs::packet::tcp::{self, ones_complement_sum};
use sni_spoof_rs::packet::tls::{build_client_hello, parse_sni, CLIENT_HELLO_SIZE};
use sni_spoof_rs::packet::{detect_ip_version, ipv4, FrameKind, IpVersion};
use sni_spoof_rs::proto::{ConnId, SnifferResult};
use sni_spoof_rs::sniffer::{parse_frame, Sniffer, SnifferAction};

const LOCAL: u32 = 0x0a00_0002; // 10.0.0.2
const REMOTE: u32 = 0x0102_0304; // 1.2.3.4

fn frame_v4(src: u32, dst: u32, sport: u16, dport: u16, seq: u32, ack: u32, flags: u8) -> Vec<u8> {
    let mut f = vec![0u8; 14];
    f[12] = 0x08;
    f[13] = 0x00;
    let total: u16 = 40;
    let mut ip = vec![0x45, 0, (total >> 8) as u8, total as u8, 0x12, 0x34, 0x40, 0, 64, 6, 0, 0];
    ip.extend_from_slice(&src.to_be_bytes());
    ip.extend_from_slice(&dst.to_be_bytes());
    let sum = ones_complement_sum(&ip);
    ip[10] = (sum >> 8) as u8;
    ip[11] = sum as u8;
    f.extend_from_slice(&ip);
    let mut t = Vec::new();
    t.extend_from_slice(&sport.to_be_bytes());
    t.extend_from_slice(&dport.to_be_bytes());
    t.extend_from_slice(&seq.to_be_bytes());
    t.extend_from_slice(&ack.to_be_bytes());
    t.push(0x50);
    t.push(flags);
    t.extend_from_slice(&[0xff, 0xff, 0, 0, 0, 0]);
    f.extend_from_slice(&t);
    f
}

fn conn() -> ConnId {
    ConnId {
        src_ip: IpAddr::V4(LOCAL),
        src_port: 50000,
        dst_ip: IpAddr::V4(REMOTE),
        dst_port: 443,
    }
}

fn sniffer() -> Sniffer {
    Sniffer::new(
        vec![IpAddr::V4(LOCAL)],
        vec![(IpAddr::V4(REMOTE), 443)],
        FrameKind::Ethernet,
        false,
    )
}

fn tcp_checksum_ok(frame: &[u8]) -> bool {
    let ip = &frame[14..34];
    let seg = &frame[34..];
    let ph = ipv4::pseudo_header(ip, seg.len() as u16);
    let mut all = ph.to_vec();
    all.extend_from_slice(seg);
    ones_complement_sum(&all) == 0
}

#[test]
fn detects_ipv4_in_ethernet_frame() {
    let f = frame_v4(LOCAL, REMOTE, 50000, 443, 1, 0, tcp::SYN);
    assert_eq!(detect_ip_version(&f, FrameKind::Ethernet), Some(IpVersion::V4));
    assert_eq!(detect_ip_version(&f[..10], FrameKind::Ethernet), None);
}

#[test]
fn parses_outbound_and_inbound_frames() {
    let local = vec![IpAddr::V4(LOCAL)];
    let ups = vec![(IpAddr::V4(REMOTE), 443)];
    let out = parse_frame(&frame_v4(LOCAL, REMOTE, 50000, 443, 1, 0, tcp::SYN), &local, &ups, FrameKind::Ethernet)
        .expect("outbound");
    assert!(out.is_outbound);
    assert_eq!(out.outbound_id, conn());
    let back = parse_frame(&frame_v4(REMOTE, LOCAL, 443, 50000, 9, 2, tcp::SYN | tcp::ACK), &local, &ups, FrameKind::Ethernet)
        .expect("inbound");
    assert!(!back.is_outbound);
    assert_eq!(back.outbound_id, conn());
    assert!(parse_frame(&frame_v4(LOCAL, 0x0808_0808, 50000, 443, 1, 0, tcp::SYN), &local, &ups, FrameKind::Ethernet).is_none());
}

#[test]
fn injects_fake_after_handshake_and_confirms_on_server_ack() {
    let mut s = sniffer();
    let fake = build_client_hello("security.vercel.com");
    s.register(conn(), fake.clone());

    assert!(matches!(
        s.handle_frame(&frame_v4(LOCAL, REMOTE, 50000, 443, 1000, 0, tcp::SYN)),
        SnifferAction::Nothing
    ));
    assert!(matches!(
        s.handle_frame(&frame_v4(REMOTE, LOCAL, 443, 50000, 5000, 1001, tcp::SYN | tcp::ACK)),
        SnifferAction::Nothing
    ));
    let third = frame_v4(LOCAL, REMOTE, 50000, 443, 1001, 5001, tcp::ACK);
    assert!(!s.frame_crashes(&third));
    let injected = match s.handle_frame(&third) {
        SnifferAction::Inject { conn_id, frame } => {
            assert_eq!(conn_id, conn());
            frame
        }
        other => panic!("expected an injection, got {:?}", other),
    };
    assert_eq!(injected.len(), 14 + 20 + 20 + CLIENT_HELLO_SIZE);
    // The fake's sequence number ends exactly where the real stream starts.
    let seq = tcp::seq_num(&injected[34..]);
    assert_eq!(seq.wrapping_add(CLIENT_HELLO_SIZE as u32), 1001);
    assert_eq!(tcp::flags(&injected[34..]) & tcp::ACK, tcp::ACK);
    assert_eq!(tcp::flags(&injected[34..]) & tcp::PSH, tcp::PSH);
    assert_eq!(&injected[54..], &fake[..]);
    assert_eq!(parse_sni(&injected[54..]).as_deref(), Some("security.vercel.com"));
    // Both checksums of the injected frame verify.
    assert_eq!(ones_complement_sum(&injected[14..34]), 0);
    assert!(tcp_checksum_ok(&injected));
    assert_eq!(ipv4::total_length(&injected[14..]) as usize, 20 + 20 + CLIENT_HELLO_SIZE);

    // A second bare ACK does not inject again.
    assert!(matches!(s.handle_frame(&third), SnifferAction::Nothing));

    match s.handle_frame(&frame_v4(REMOTE, LOCAL, 443, 50000, 5001, 1001, tcp::ACK)) {
        SnifferAction::Report { conn_id, result: SnifferResult::FakeConfirmed } => {
            assert_eq!(conn_id, conn())
        }
        other => panic!("expected confirmation, got {:?}", other),
    }
    // The connection is no longer watched.
    assert!(matches!(
        s.handle_frame(&frame_v4(REMOTE, LOCAL, 443, 50000, 5001, 1001, tcp::RST)),
        SnifferAction::Nothing
    ));
}

#[test]
fn failed_injection_is_reported_and_drops_the_connection() {
    let mut s = sniffer();
    s.register(conn(), build_client_hello("security.vercel.com"));
    s.handle_frame(&frame_v4(LOCAL, REMOTE, 50000, 443, 1000, 0, tcp::SYN));
    assert!(matches!(
        s.handle_frame(&frame_v4(LOCAL, REMOTE, 50000, 443, 1001, 5001, tcp::ACK)),
        SnifferAction::Inject { .. }
    ));
    match s.inject_failed(conn(), "failed to inject fake packet: No buffer space available") {
        SnifferAction::Report { conn_id, result: SnifferResult::Failed(m) } => {
            assert_eq!(conn_id, conn());
            assert_eq!(m, "inject failed: failed to inject fake packet: No buffer space available");
        }
        other => panic!("expected a failure report, got {:?}", other),
    }
    // The server's ACK no longer confirms anything: the connection is gone.
    assert!(matches!(
        s.handle_frame(&frame_v4(REMOTE, LOCAL, 443, 50000, 5001, 1001, tcp::ACK)),
        SnifferAction::Nothing
    ));
}

#[test]
fn reports_reset_from_server() {
    let mut s = sniffer();
    s.register(conn(), build_client_hello("a.b"));
    s.handle_frame(&frame_v4(LOCAL, REMOTE, 50000, 443, 7, 0, tcp::SYN));
    match s.handle_frame(&frame_v4(REMOTE, LOCAL, 443, 50000, 0, 8, tcp::RST | tcp::ACK)) {
        SnifferAction::Report { result: SnifferResult::Failed(m), .. } => {
            assert_eq!(m, "RST from server")
        }
        other => panic!("expected a reset report, got {:?}", other),
    }
}

#[test]
fn ignores_unregistered_and_deregistered_connections() {
    let mut s = sniffer();
    assert!(matches!(
        s.handle_frame(&frame_v4(LOCAL, REMOTE, 50000, 443, 1000, 0, tcp::SYN)),
        SnifferAction::Nothing
    ));
    s.register(conn(), build_client_hello("a.b"));
    s.deregister(conn());
    s.handle_frame(&frame_v4(LOCAL, REMOTE, 50000, 443, 1000, 0, tcp::SYN));
    assert!(matches!(
        s.handle_frame(&frame_v4(LOCAL, REMOTE, 50000, 443, 1001, 1, tcp::ACK)),
        SnifferAction::Nothing
    ));
}

#[test]
fn ipv4_header_helpers() {
    let mut f = frame_v4(LOCAL, REMOTE, 50000, 443, 1, 0, tcp::SYN);
    let ip = &mut f[14..34];
    assert_eq!(ipv4::header_len(ip), 20);
    assert_eq!(ipv4::protocol(ip), 6);
    assert_eq!(ipv4::src_addr(ip), LOCAL);
    assert_eq!(ipv4::dst_addr(ip), REMOTE);
    ipv4::set_total_length(ip, 1000);
    assert_eq!(ipv4::total_length(ip), 1000);
    ipv4::increment_ident(ip);
    assert_eq!((ip[4], ip[5]), (0x12, 0x35));
    ipv4::recompute_checksum(ip);
    assert_eq!(ones_complement_sum(ip), 0);
}
