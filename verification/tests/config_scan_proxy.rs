use sni_spoof_rs::bpf::{bpf_wordalign, next_record, tcp_filter, BpfInsn};
use sni_spoof_rs::config::{connects_to_listener, validate, Config, ListenerConfig};
use sni_spoof_rs::error::{ConfigError, HandlerError, ProxyError};
use sni_spoof_rs::handler::{confirmation, conn_id_for, relay_buffer_bytes};
use sni_spoof_rs::net::{IpAddr, SocketAddr};
use sni_spoof_rs::packet::{frame_kind_for_dlt, FrameKind};
use sni_spoof_rs::proto::SnifferResult;
use sni_spoof_rs::proxy::{local_ips_from, platform_privilege_hint, prepare_start, upstream_targets};
use sni_spoof_rs::scan::{
    default_snis, parse_sni_list, precheck_sni, response_outcome, ProbeOutcome,
};

fn v4(ip: u32, port: u16) -> SocketAddr {
    SocketAddr::V4 { ip, port }
}

#[test]
fn default_config_is_valid() {
    let cfg = Config::default();
    assert_eq!(cfg.listeners.len(), 1);
    assert_eq!(cfg.buffer_size, 8);
    assert_eq!(cfg.graceful_shutdown_sec, 0);
    assert_eq!(cfg.idle_timeout, None);
    let l = &cfg.listeners[0];
    assert_eq!(l.listen.to_text(), "127.0.0.1:40443");
    assert_eq!(l.connect.to_text(), "172.67.139.236:443");
    assert_eq!(l.fake_sni, "security.vercel.com");
    assert_eq!(
        (l.conn_timeout_sec, l.handshake_timeout_sec, l.keepalive_time_sec, l.keepalive_interval_sec),
        (5, 2, 11, 2)
    );
    assert!(validate(&cfg).is_ok());
}

#[test]
fn validate_refuses_each_fault() {
    let mut cfg = Config::default();
    cfg.listeners.clear();
    let e = validate(&cfg).unwrap_err();
    assert!(matches!(e, ConfigError::Empty));
    assert_eq!(e.message(), "config has no listeners");

    let mut cfg = Config::default();
    cfg.listeners[0].fake_sni = "a".repeat(220);
    match validate(&cfg).unwrap_err() {
        ConfigError::SniTooLong(s) => assert_eq!(s.len(), 220),
        other => panic!("unexpected {:?}", other),
    }
    cfg.listeners[0].fake_sni = "a".repeat(219);
    assert!(validate(&cfg).is_ok());

    let mut cfg = Config::default();
    cfg.listeners[0].connect = v4(0x7f00_0001, 40443);
    let e = validate(&cfg).unwrap_err();
    assert_eq!(
        e.message(),
        "listener connects back to itself: 127.0.0.1:40443 -> 127.0.0.1:40443"
    );

    let mut cfg = Config::default();
    let mut second = ListenerConfig::default();
    second.listen = v4(0, 9000);
    second.connect = v4(0x7f00_0002, 9000);
    cfg.listeners.push(second);
    match validate(&cfg).unwrap_err() {
        ConfigError::SelfLoop(s) => assert_eq!(s, "0.0.0.0:9000 -> 127.0.0.2:9000"),
        other => panic!("unexpected {:?}", other),
    }
}

#[test]
fn loop_detection() {
    let a = v4(0x7f00_0001, 40443);
    assert!(connects_to_listener(a, a));
    assert!(connects_to_listener(v4(0, 80), v4(0x7f00_0001, 80)));
    assert!(!connects_to_listener(v4(0, 80), v4(0x7f00_0001, 81)));
    assert!(!connects_to_listener(v4(0x0a00_0001, 80), v4(0x7f00_0001, 80)));
    assert!(!connects_to_listener(v4(0, 80), v4(0x0102_0304, 80)));
}

#[test]
fn sni_lists() {
    let list = parse_sni_list("# comment\n  a.example  \n\nb.example\r\n#x\n");
    assert_eq!(list, vec!["a.example".to_string(), "b.example".to_string()]);
    assert!(parse_sni_list("#only\n\n").is_empty());
    assert_eq!(default_snis(), vec!["security.vercel.com".to_string()]);
}

#[test]
fn probe_outcomes() {
    assert!(precheck_sni(&"a".repeat(219)).is_none());
    match precheck_sni(&"a".repeat(220)) {
        Some(ProbeOutcome::HandshakeFailed(m)) => assert_eq!(m, "sni too long"),
        other => panic!("unexpected {:?}", other),
    }
    assert!(matches!(response_outcome(0x16), ProbeOutcome::Passed));
    assert!(matches!(response_outcome(0x15), ProbeOutcome::BadResponse(0x15)));
    assert_eq!(ProbeOutcome::Passed.describe(), "ok");
    assert_eq!(ProbeOutcome::BadResponse(0x0a).describe(), "bad response: 0x0a");
    assert_eq!(ProbeOutcome::BadResponse(0xff).describe(), "bad response: 0xff");
    assert_eq!(ProbeOutcome::ConnectFailed("x".into()).describe(), "connect failed: x");
    assert_eq!(ProbeOutcome::ConnectTimeout.describe(), "connect timeout");
    assert_eq!(ProbeOutcome::HandshakeFailed("y".into()).describe(), "handshake failed: y");
    assert_eq!(ProbeOutcome::ReadTimeout.describe(), "read timeout");
    assert_eq!(ProbeOutcome::EmptyResponse.describe(), "empty response");
    assert!(ProbeOutcome::Passed.is_ok());
    assert!(!ProbeOutcome::ReadTimeout.is_ok());
}

#[test]
fn proxy_start_checks() {
    let cfg = Config::default();
    let targets = prepare_start(&cfg).unwrap();
    assert_eq!(targets, vec![(IpAddr::V4(0xac43_8bec), 443)]);
    assert_eq!(upstream_targets(&cfg), targets);
    let mut bad = Config::default();
    bad.listeners.clear();
    assert!(matches!(prepare_start(&bad), Err(ProxyError::Config(ConfigError::Empty))));
    // The refusal carries the error of the first faulty listener, as `validate` gives it.
    let mut two = Config::default();
    let mut looped = two.listeners[0].clone();
    looped.connect = looped.listen;
    let mut long = two.listeners[0].clone();
    long.fake_sni = "x".repeat(220);
    two.listeners.push(looped);
    two.listeners.push(long);
    match prepare_start(&two) {
        Err(ProxyError::Config(ConfigError::SelfLoop(s))) => {
            assert_eq!(s, "127.0.0.1:40443 -> 127.0.0.1:40443")
        }
        other => panic!("expected a self-loop refusal, got {:?}", other.err()),
    }
    two.listeners.swap(1, 2);
    match prepare_start(&two) {
        Err(ProxyError::Config(ConfigError::SniTooLong(s))) => assert_eq!(s, "x".repeat(220)),
        other => panic!("expected a long-SNI refusal, got {:?}", other.err()),
    }
    assert!(matches!(local_ips_from(&vec![None, None]), Err(ProxyError::NoLocalIp)));
    assert!(matches!(local_ips_from(&vec![]), Err(ProxyError::NoLocalIp)));
    let ips = local_ips_from(&vec![None, Some(IpAddr::V4(5)), Some(IpAddr::V6(1))]).unwrap();
    assert_eq!(ips, vec![IpAddr::V4(5), IpAddr::V6(1)]);
    assert_eq!(platform_privilege_hint("linux"), "Run as root or grant CAP_NET_RAW to the binary.");
    assert_eq!(platform_privilege_hint("macos"), "Run with sudo so the BPF device can be opened.");
    assert_eq!(
        platform_privilege_hint("windows"),
        "Run as Administrator with WinDivert next to the executable."
    );
    assert_eq!(
        platform_privilege_hint("freebsd"),
        "This platform does not have a packet injection backend."
    );
}

#[test]
fn handler_decisions() {
    let id = conn_id_for(IpAddr::V4(1), 5000, v4(2, 443));
    assert_eq!((id.src_ip, id.src_port, id.dst_ip, id.dst_port), (IpAddr::V4(1), 5000, IpAddr::V4(2), 443));
    assert!(confirmation(Some(SnifferResult::FakeConfirmed)).is_ok());
    match confirmation(Some(SnifferResult::Failed("RST from server".into()))) {
        Err(HandlerError::SnifferFailed(m)) => assert_eq!(m, "RST from server"),
        other => panic!("unexpected {:?}", other),
    }
    assert!(matches!(confirmation(None), Err(HandlerError::Registration)));
    assert_eq!(relay_buffer_bytes(8), 8192);
}

#[test]
fn bpf_helpers() {
    assert_eq!(bpf_wordalign(0), 0);
    assert_eq!(bpf_wordalign(1), 4);
    assert_eq!(bpf_wordalign(18), 20);
    assert_eq!(bpf_wordalign(20), 20);
    let eth = tcp_filter(FrameKind::Ethernet);
    assert_eq!(eth.len(), 12);
    assert_eq!(eth[0], BpfInsn { code: 0x28, jt: 0, jf: 0, k: 0x0c });
    assert_eq!(eth[10], BpfInsn { code: 0x06, jt: 0, jf: 0, k: 0x40000 });
    assert_eq!(tcp_filter(FrameKind::RawIp), vec![BpfInsn { code: 0x06, jt: 0, jf: 0, k: 0x40000 }]);

    let mut buf = vec![0u8; 64];
    // record: caplen 10 at offset 8, hdrlen 18 at offset 16
    buf[8] = 10;
    buf[16] = 18;
    assert_eq!(next_record(&buf, 0, 64), Some((18, 10, 28)));
    assert_eq!(next_record(&buf, 0, 27), None);
    assert_eq!(next_record(&buf, 50, 64), None);
    assert_eq!(next_record(&buf, 64, 64), None);
}

#[test]
fn bpf_datalink_types_map_to_framings() {
    assert_eq!(frame_kind_for_dlt(1), Some(FrameKind::Ethernet));
    assert_eq!(frame_kind_for_dlt(0), Some(FrameKind::NullLoopback));
    assert_eq!(frame_kind_for_dlt(108), Some(FrameKind::NullLoopback));
    assert_eq!(frame_kind_for_dlt(12), Some(FrameKind::RawIp));
    assert_eq!(frame_kind_for_dlt(105), None);
}
