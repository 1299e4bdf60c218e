use sni_spoof_rs::config::{Config, ListenerConfig};
use sni_spoof_rs::desktop::{
    autosave_due, checker_stopped, choose_upstream, clamp_selection, if_empty, import_labels,
    ip_check_outcome, ip_from_response, local_check_addr, log_export_body, log_export_file_name,
    parse_optional_socket, parse_optional_u64, parse_u64, parse_usize, plan_import,
    public_ip_from_attempts, restore_settings, scan_failed_text, scan_settings, selected_label,
    share_label, share_lines, snapshot_state, truncate_middle, tun_mode_text, xray_binary_name,
    xray_download_url, xray_path_is_default, ConnectionStatus, FormState, ScanProgress, UiLog,
    UiState, LOG_MAX, RESULT_MAX,
};
use sni_spoof_rs::net::{IpAddr, SocketAddr};
use sni_spoof_rs::scan::{ProbeOutcome, ProbeResult};
use sni_spoof_rs::xray::{pad_base64, parse_share_link, XrayShare};
use sni_spoof_rs::error::XrayParseError;
use sni_spoof_rs::json::json_string;
use sni_spoof_rs::xray_config::{build_xray_config, xray_config_model, Transport};

fn v4(ip: u32, port: u16) -> SocketAddr {
    SocketAddr::V4 { ip, port }
}

#[test]
fn log_keeps_newest_lines() {
    let mut log = UiLog::new();
    assert_eq!(log.revision(), 0);
    for i in 0..(LOG_MAX + 5) {
        log.push(format!("line {}", i));
    }
    let lines = log.snapshot();
    assert_eq!(lines.len(), LOG_MAX);
    assert_eq!(lines[0], "line 5");
    assert_eq!(lines[LOG_MAX - 1], format!("line {}", LOG_MAX + 4));
    assert_eq!(log.revision(), (LOG_MAX + 5) as u64);
    let snap = log.snapshot();
    log.restore(snap.clone());
    assert_eq!(log.snapshot(), snap);
    log.set_enabled(false);
    assert!(log.snapshot().is_empty());
    log.push("ignored".into());
    assert!(log.snapshot().is_empty());
    log.set_enabled(true);
    log.push("kept".into());
    assert_eq!(log.snapshot(), vec!["kept".to_string()]);
    let many: Vec<String> = (0..400).map(|i| i.to_string()).collect();
    log.restore(many);
    let lines = log.snapshot();
    assert_eq!(lines.len(), LOG_MAX);
    assert_eq!(lines[0], "100");
    log.clear();
    assert!(log.snapshot().is_empty());
}

#[test]
fn connection_status_texts() {
    assert_eq!(ConnectionStatus::Idle.detail(), "IP: unchecked");
    assert_eq!(ConnectionStatus::Checking.detail(), "IP: checking");
    assert_eq!(ConnectionStatus::Connected("1.2.3.4".into()).detail(), "IP: 1.2.3.4");
    assert_eq!(ConnectionStatus::Failed("x".into()).detail(), "IP check failed: x");
    assert_eq!(ConnectionStatus::Idle.pill_text(), "IP unchecked");
    assert_eq!(ConnectionStatus::Connected("1.2.3.4".into()).pill_text(), "IP 1.2.3.4");
    let (status, line, log) = ip_check_outcome(Ok("1.2.3.4".into()));
    assert!(matches!(status, ConnectionStatus::Connected(ref ip) if ip == "1.2.3.4"));
    assert_eq!(line, "Connected. Public IP via proxy: 1.2.3.4");
    assert_eq!(log, "connection check ok; public IP 1.2.3.4");
    let (status, line, _) = ip_check_outcome(Err("boom".into()));
    assert!(matches!(status, ConnectionStatus::Failed(ref e) if e == "boom"));
    assert_eq!(line, "Connection check failed: boom");
    assert!(matches!(checker_stopped(), ConnectionStatus::Failed(ref e) if e == "checker stopped"));
}

#[test]
fn share_lines_and_labels() {
    let text = "  vless://u@example.com:443?security=tls#Home \n\nnot a link at all, just some rather long words here\n";
    assert_eq!(share_lines(text).len(), 2);
    assert_eq!(share_label(0, "vless://u@example.com:443?security=tls#Home"), "1. VLESS Home");
    assert_eq!(share_label(4, "trojan://p@host.example:443"), "5. TROJAN host.example");
    assert_eq!(
        share_label(1, "not a link at all, just some rather long words here"),
        "2. not a link at all, j...ther long words here"
    );
    let labels = import_labels(text);
    assert_eq!(labels.len(), 2);
    assert_eq!(labels[0], "1. VLESS Home");
    assert_eq!(selected_label(&labels, 0), "1. VLESS Home");
    assert_eq!(selected_label(&labels, 2), "No config selected");
    assert_eq!(clamp_selection(0, 3), 0);
    assert_eq!(clamp_selection(2, 3), 1);
    assert_eq!(clamp_selection(2, 1), 1);
}

#[test]
fn truncates_in_the_middle() {
    assert_eq!(truncate_middle("short", 44), "short");
    assert_eq!(truncate_middle("abcdefghij", 9), "abc...hij");
    assert_eq!(truncate_middle("abcdefghij", 2), "...");
    assert!(truncate_middle(&"x".repeat(100), 44).chars().count() <= 44);
}

#[test]
fn form_fields() {
    assert_eq!(parse_u64("conn_timeout_sec", " 5 "), Ok(5));
    assert_eq!(
        parse_u64("conn_timeout_sec", "x"),
        Err("invalid conn_timeout_sec: invalid digit found in string".to_string())
    );
    assert_eq!(
        parse_u64("a", ""),
        Err("invalid a: cannot parse integer from empty string".to_string())
    );
    assert_eq!(
        parse_usize("buffer_size", "99999999999999999999999"),
        Err("invalid buffer_size: number too large to fit in target type".to_string())
    );
    assert_eq!(parse_optional_u64("idle_timeout", "  "), Ok(None));
    assert_eq!(parse_optional_u64("idle_timeout", "30"), Ok(Some(30)));
    assert!(parse_optional_u64("idle_timeout", "-1").is_err());
    assert_eq!(if_empty("  ", "warning"), "warning");
    assert_eq!(if_empty(" debug ", "warning"), "debug");
    assert_eq!(parse_optional_socket("x", " "), Ok(None));
    assert_eq!(parse_optional_socket("x", "1.2.3.4:5"), Ok(Some(v4(0x0102_0304, 5))));
    assert_eq!(
        parse_optional_socket("Xray SOCKS5 proxy", "nope"),
        Err("invalid Xray SOCKS5 proxy address: invalid socket address syntax".to_string())
    );
}

#[test]
fn proxy_check_urls() {
    assert_eq!(local_check_addr(v4(0, 80)), "127.0.0.1:80");
    assert_eq!(local_check_addr(v4(0x0a00_0001, 80)), "10.0.0.1:80");
    assert_eq!(
        local_check_addr(SocketAddr::V6 { ip: 0, port: 1080, flowinfo: 0, scope_id: 3 }),
        "[::1]:1080"
    );
    assert_eq!(
        sni_spoof_rs::desktop::connection_check_proxy_url("", ""),
        Err("enable an Xray HTTP/HTTPS or SOCKS5 proxy before checking IP".to_string())
    );
    assert_eq!(
        sni_spoof_rs::desktop::connection_check_proxy_url("bad", "0.0.0.0:1081"),
        Err("invalid Xray HTTP/HTTPS proxy address: invalid socket address syntax".to_string())
    );
}

#[test]
fn public_ip_answers() {
    assert_eq!(
        public_ip_from_attempts(&vec![Err("a".into()), Ok("1.1.1.1".into())]),
        Ok("1.1.1.1".to_string())
    );
    assert_eq!(
        public_ip_from_attempts(&vec![Err("a".into()), Err("b".into())]),
        Err("b".to_string())
    );
    assert_eq!(
        public_ip_from_attempts(&vec![]),
        Err("no IP endpoints were configured".to_string())
    );
    assert_eq!(ip_from_response("e", " 1.2.3.4\n"), Ok("1.2.3.4".to_string()));
    assert_eq!(ip_from_response("e", "2001:DB8::1 extra"), Ok("2001:db8::1".to_string()));
    assert_eq!(
        ip_from_response("https://api.ipify.org", " <html> "),
        Err("https://api.ipify.org returned unexpected response: <html>".to_string())
    );
}

fn form() -> FormState {
    FormState::from_config(&Config::default())
}

#[test]
fn form_reads_back_a_valid_config() {
    let cfg = Config {
        idle_timeout: Some(30),
        buffer_size: 65536,
        listeners: vec![ListenerConfig {
            listen: v4(0x0a00_0001, 1080),
            connect: v4(0xc0a8_0102, 8443),
            fake_sni: "cdn.example.net".to_string(),
            conn_timeout_sec: 7,
            handshake_timeout_sec: 3,
            keepalive_time_sec: 60,
            keepalive_interval_sec: 0,
        }],
        graceful_shutdown_sec: 18446744073709551615,
    };
    let back = FormState::from_config(&cfg).to_config().unwrap();
    assert_eq!(back.idle_timeout, Some(30));
    assert_eq!(back.buffer_size, 65536);
    assert_eq!(back.graceful_shutdown_sec, u64::MAX);
    assert_eq!(back.listeners.len(), 1);
    let (a, b) = (&back.listeners[0], &cfg.listeners[0]);
    assert_eq!(a.listen, b.listen);
    assert_eq!(a.connect, b.connect);
    assert_eq!(a.fake_sni, b.fake_sni);
    assert_eq!(a.conn_timeout_sec, 7);
    assert_eq!(a.handshake_timeout_sec, 3);
    assert_eq!(a.keepalive_time_sec, 60);
    assert_eq!(a.keepalive_interval_sec, 0);
}

#[test]
fn form_round_trip() {
    let f = form();
    assert_eq!(f.listen, "127.0.0.1:40443");
    assert_eq!(f.connect, "172.67.139.236:443");
    assert_eq!(f.buffer_size, "8");
    assert_eq!(f.idle_timeout, "");
    let cfg = f.to_config().unwrap();
    assert_eq!(cfg.listeners[0].listen, v4(0x7f00_0001, 40443));
    assert_eq!(cfg.listeners[0].fake_sni, "security.vercel.com");
    assert_eq!(cfg.idle_timeout, None);
    assert!(f.ensure_no_proxy_loop().is_ok());

    let mut bad = form();
    bad.listen = "x".into();
    assert_eq!(bad.to_config().err().unwrap(), "invalid listen address: invalid socket address syntax");
    let mut bad = form();
    bad.keepalive_time_sec = "y".into();
    assert_eq!(
        bad.to_config().err().unwrap(),
        "invalid keepalive_time_sec: invalid digit found in string"
    );
    let mut bad = form();
    bad.fake_sni = format!(" {} ", "b".repeat(220));
    assert_eq!(
        bad.to_config().err().unwrap(),
        format!("fake_sni too long (max 219 bytes): '{}'", "b".repeat(220))
    );
    let mut looped = form();
    looped.connect = "127.0.0.1:40443".into();
    assert_eq!(
        looped.to_config().err().unwrap(),
        "listener connects back to itself: 127.0.0.1:40443 -> 127.0.0.1:40443"
    );
    assert_eq!(
        looped.ensure_no_proxy_loop().err().unwrap(),
        "Refusing proxy loop: listen 127.0.0.1:40443 connects to 127.0.0.1:40443"
    );
}

#[test]
fn import_planning() {
    let share = parse_share_link("vless://u@127.0.0.1:40443?security=tls&host=real.example#Work").unwrap();
    let addrs = vec![
        SocketAddr::V6 { ip: 5, port: 443, flowinfo: 0, scope_id: 0 },
        v4(0x0102_0304, 443),
    ];
    let selected = choose_upstream(&addrs).unwrap();
    assert_eq!(selected, v4(0x0102_0304, 443));
    assert_eq!(choose_upstream(&vec![]), None);
    let plan = plan_import(&share, selected, "127.0.0.1:40443", " ").ok().unwrap();
    assert_eq!(plan.connect, "1.2.3.4:443");
    assert_eq!(plan.fake_sni, "security.vercel.com");
    assert_eq!(plan.status, "Imported vless Work via real.example -> 1.2.3.4:443");
    assert_eq!(
        plan_import(&share, v4(0x7f00_0001, 443), "127.0.0.1:40443", "x").err().unwrap(),
        "Could not infer a remote upstream from 127.0.0.1. Add a real host/sni or paste the original remote link."
    );
    assert_eq!(
        plan_import(&share, selected, "bad", "x").err().unwrap(),
        "Invalid listen address: invalid socket address syntax"
    );
}

#[test]
fn scan_form_and_progress() {
    assert_eq!(scan_settings("1.2.3.4:443", "6", "10"), Ok((v4(0x0102_0304, 443), 6, 10)));
    assert_eq!(scan_settings(" 1.2.3.4:443", "6", "10").err().unwrap(), "Invalid scan target: invalid socket address syntax");
    assert_eq!(scan_settings("1.2.3.4:443", "0", "10").err().unwrap(), "Invalid scan timeout");
    assert_eq!(scan_settings("1.2.3.4:443", "6", "0").err().unwrap(), "Invalid scan concurrency");
    let mut p = ScanProgress::new();
    p.start(3);
    p.record(ProbeResult { sni: "a".into(), outcome: ProbeOutcome::Passed });
    p.record(ProbeResult { sni: "b".into(), outcome: ProbeOutcome::ReadTimeout });
    assert_eq!(p.running_text(), "2 / 3 complete, 1 ok");
    assert_eq!(p.finished_text(), "Scan finished: 1 ok out of 2");
    for i in 0..(RESULT_MAX + 3) {
        p.record(ProbeResult { sni: i.to_string(), outcome: ProbeOutcome::ConnectTimeout });
    }
    assert_eq!(p.results.len(), RESULT_MAX);
    assert_eq!(p.results[RESULT_MAX - 1].sni, (RESULT_MAX + 2).to_string());
    assert_eq!(scan_failed_text("x"), "Scan failed: x");
}

#[test]
fn small_desktop_texts() {
    assert_eq!(log_export_body(&vec![]), "");
    assert_eq!(log_export_body(&vec!["a".into(), "b".into()]), "a\nb\n");
    assert_eq!(log_export_file_name(17), "sni-spoof-rs-ui-logs-17.txt");
    assert_eq!(tun_mode_text(false), "Xray TUN mode disabled");
    assert_eq!(
        xray_download_url("linux", "x86_64").unwrap(),
        "https://github.com/XTLS/Xray-core/releases/latest/download/Xray-linux-64.zip"
    );
    assert_eq!(
        xray_download_url("macos", "aarch64").unwrap(),
        "https://github.com/XTLS/Xray-core/releases/latest/download/Xray-macos-arm64-v8a.zip"
    );
    assert_eq!(xray_download_url("windows", "aarch64"), None);
    assert_eq!(xray_binary_name("windows"), "xray.exe");
    assert_eq!(xray_binary_name("linux"), "xray");
    assert!(xray_path_is_default(" xray "));
    assert!(xray_path_is_default(""));
    assert!(!xray_path_is_default("/usr/bin/xray"));
    assert!(autosave_due(3, 2, 2000));
    assert!(!autosave_due(3, 3, 5000));
    assert!(!autosave_due(3, 2, 1999));
}

#[test]
fn settings_restore() {
    let s = restore_settings(None, form(), false, "xray".into());
    assert_eq!(s.xray_http_listen, "127.0.0.1:1080");
    assert_eq!(s.scan_target, "172.67.139.236:443");
    assert_eq!(s.scan_timeout_secs, "6");
    assert_eq!(s.scan_concurrency, "10");
    let mut log = UiLog::new();
    log.push("hello".into());
    let saved: UiState = snapshot_state(&s, &log);
    assert_eq!(saved.log_lines, vec!["hello".to_string()]);
    let mut edited = saved;
    edited.xray_http_listen = "  ".into();
    edited.xray_socks_listen = None;
    edited.scan_target = "".into();
    edited.xray_path = "/opt/xray".into();
    let r = restore_settings(Some(&edited), form(), true, "xray".into());
    assert_eq!(r.xray_http_listen, "127.0.0.1:1080");
    assert_eq!(r.xray_socks_listen, "127.0.0.1:1081");
    assert_eq!(r.scan_target, "172.67.139.236:443");
    assert_eq!(r.xray_path, "/opt/xray");
    let r = restore_settings(Some(&edited), form(), false, "found".into());
    assert_eq!(r.xray_path, "found");
}

#[test]
fn share_link_errors() {
    assert!(matches!(parse_share_link("  "), Err(XrayParseError::Empty)));
    assert!(matches!(parse_share_link("ss://abc@host:1"), Err(XrayParseError::UnsupportedScheme(ref s)) if s == "ss"));
    assert!(matches!(parse_share_link("VLESS://u@h:1"), Ok(ref s) if s.protocol == "vless"));
    assert!(matches!(parse_share_link("not a url"), Err(XrayParseError::Url(_))));
    assert!(matches!(parse_share_link("vmess://@@@@"), Err(XrayParseError::Base64)));
    let not_json = base64::Engine::encode(&base64::engine::general_purpose::STANDARD, "nope");
    assert!(matches!(parse_share_link(&format!("vmess://{}", not_json)), Err(XrayParseError::Json(_))));
    let no_host = base64::Engine::encode(&base64::engine::general_purpose::STANDARD, r#"{"port":1}"#);
    assert!(matches!(parse_share_link(&format!("vmess://{}", no_host)), Err(XrayParseError::MissingHost)));
    let bad_port = base64::Engine::encode(&base64::engine::general_purpose::STANDARD, r#"{"add":"h","port":"x1"}"#);
    assert!(matches!(parse_share_link(&format!("vmess://{}", bad_port)), Err(XrayParseError::InvalidPort(ref p)) if p == "x1"));
    let big_port = base64::Engine::encode(&base64::engine::general_purpose::STANDARD, r#"{"add":"h","port":70000}"#);
    assert!(matches!(parse_share_link(&format!("vmess://{}", big_port)), Err(XrayParseError::InvalidPort(ref p)) if p == "70000"));
    let num_port = base64::Engine::encode(&base64::engine::general_purpose::URL_SAFE_NO_PAD, r#"{"add":"h","port":8443,"tls":"TLS"}"#);
    let share = parse_share_link(&format!("vmess://vmess://{}", num_port)).unwrap();
    assert_eq!(share.port, 8443);
    assert!(share.tls);
    assert_eq!(share.security.as_deref(), Some("TLS"));
    let no_port = base64::Engine::encode(&base64::engine::general_purpose::STANDARD, r#"{"add":"h"}"#);
    assert_eq!(parse_share_link(&format!("vmess://{}", no_port)).unwrap().port, 443);
}

#[test]
fn share_link_fields() {
    let s = parse_share_link("trojan://%20pw%20@Example.COM?allowInsecure=true&security=none#%20").unwrap();
    // a scheme the url crate does not know keeps the host's case
    assert_eq!(s.host, "Example.COM");
    assert_eq!(s.port, 80);
    assert!(!s.tls);
    assert!(s.allow_insecure);
    assert_eq!(s.user_id.as_deref(), Some("%20pw%20"));
    // the fragment is taken as the url crate gives it, still percent-encoded
    assert_eq!(s.name.as_deref(), Some("%20"));
    assert_eq!(s.label(), "%20");
    assert!(!s.endpoint_is_local());
    assert_eq!(s.upstream_host(), "Example.COM");
    assert_eq!(s.upstream_port(), 80);
    let local = parse_share_link("vless://u@localhost:1?sni=real.example").unwrap();
    assert!(local.endpoint_is_local());
    assert_eq!(local.upstream_host(), "real.example");
    assert_eq!(local.upstream_port(), 80);
    let bracketed = parse_share_link("vless://u@[::1]:1").unwrap();
    assert_eq!(bracketed.host, "[::1]");
    assert!(!bracketed.endpoint_is_local());
}

#[test]
fn pads_base64() {
    assert_eq!(pad_base64(" ab\ncd e "), "abcde===");
    assert_eq!(pad_base64("abcd"), "abcd");
    assert_eq!(pad_base64("abc"), "abc=");
    assert_eq!(pad_base64(""), "");
}

fn share(link: &str) -> XrayShare {
    parse_share_link(link).unwrap()
}

#[test]
fn xray_config_checks() {
    let vmess = base64::Engine::encode(&base64::engine::general_purpose::STANDARD, r#"{"add":"h","id":"u"}"#);
    assert_eq!(
        build_xray_config(&share(&format!("vmess://{}", vmess)), "127.0.0.1:40443", "127.0.0.1:1080", "", false, "").err().unwrap(),
        "all-in-one runtime currently supports VLESS and Trojan links"
    );
    assert_eq!(
        build_xray_config(&share("vless://h:1"), "127.0.0.1:40443", "127.0.0.1:1080", "", false, "").err().unwrap(),
        "share link is missing UUID/password user info"
    );
    assert_eq!(
        build_xray_config(&share("vless://u@h:1"), "bad", "127.0.0.1:1080", "", false, "").err().unwrap(),
        "invalid SNI listener address: invalid socket address syntax"
    );
    assert_eq!(
        build_xray_config(&share("vless://u@h:1"), "127.0.0.1:40443", "x", "", false, "").err().unwrap(),
        "invalid Xray HTTP/HTTPS proxy address: invalid socket address syntax"
    );
    let cfg = xray_config_model(&share("vless://u@h:1?type=grpc&path=svc"), "127.0.0.1:40443", "", "127.0.0.1:1081", false, " ").unwrap();
    assert_eq!(cfg.log_level, "warning");
    assert_eq!(cfg.stream.network, "grpc");
    assert_eq!(cfg.stream.security, "none");
    assert!(cfg.stream.tls.is_none());
    assert!(matches!(cfg.stream.transport, Transport::Grpc { ref service_name } if service_name == "svc"));
    let cfg = xray_config_model(&share("vless://u@h:1?security=tls&fp=firefox"), "127.0.0.1:40443", "127.0.0.1:1080", "", false, "info").unwrap();
    let tls = cfg.stream.tls.unwrap();
    assert_eq!(tls.server_name, "h");
    assert_eq!(tls.fingerprint, "firefox");
    assert_eq!(cfg.stream.network, "tcp");
    assert!(matches!(cfg.stream.transport, Transport::Plain));
    assert_eq!(cfg.log_level, "info");
    assert_eq!(IpAddr::V4(0x7f00_0001).to_text(), "127.0.0.1");
}

#[test]
fn share_links_are_read_trimmed() {
    assert!(matches!(parse_share_link("   \n\t"), Err(XrayParseError::Empty)));
    for text in ["ss://x@example.com:8388", "  ss://x@example.com:8388 \n"] {
        assert!(matches!(
            parse_share_link(text),
            Err(XrayParseError::UnsupportedScheme(ref s)) if s == "ss"
        ));
    }
    let a = parse_share_link("vless://u@example.com:443?security=tls#Home").unwrap();
    let b = parse_share_link("\n  vless://u@example.com:443?security=tls#Home  ").unwrap();
    assert_eq!((a.host, a.port, a.tls, a.name), (b.host, b.port, b.tls, b.name));
}

#[test]
fn json_strings_escape_what_json_needs() {
    let text = "a\"b\\c\u{1}\u{1f}é/";
    let s = json_string(text);
    assert_eq!(s, "\"a\\\"b\\\\c\\u0001\\u001fé/\"");
    assert_eq!(json_string("\u{8}\t\n\u{c}\r"), "\"\\b\\t\\n\\f\\r\"");
    let back: String = serde_json::from_str(&s).unwrap();
    assert_eq!(back, text);
}

#[test]
fn xray_json_layout() {
    let share = parse_share_link(
        "vless://id-1@edge.example:443?security=tls&type=grpc&path=svc&fp=firefox&encryption=none",
    )
    .unwrap();
    let model = xray_config_model(&share, "127.0.0.1:40443", "", "[::1]:1081", true, "  debug ")
        .unwrap();
    let body = model.to_json();
    let v: serde_json::Value = serde_json::from_str(&body).unwrap();
    // The file is the same JSON value, pretty-printed with sorted keys.
    let file = build_xray_config(&share, "127.0.0.1:40443", "", "[::1]:1081", true, "  debug ")
        .unwrap();
    assert_eq!(model.to_pretty_json().unwrap(), file);
    assert_eq!(serde_json::from_str::<serde_json::Value>(&file).unwrap(), v);
    assert!(file.starts_with("{\n  \"inbounds\": [\n    {\n      \"listen\": \"::1\",\n"));
    assert!(file.contains("\n  \"log\": {\n    \"loglevel\": \"debug\"\n  },\n  \"outbounds\": ["));
    assert!(file.contains("\"udp\": false\n"));
    assert!(file.ends_with("\n}"));
    assert_eq!(v["log"]["loglevel"], "debug");
    assert_eq!(v["inbounds"].as_array().unwrap().len(), 2);
    assert_eq!(v["inbounds"][0]["protocol"], "socks");
    assert_eq!(v["inbounds"][0]["listen"], "::1");
    assert_eq!(v["inbounds"][0]["port"], 1081);
    assert_eq!(v["inbounds"][0]["settings"]["auth"], "noauth");
    assert_eq!(v["inbounds"][0]["settings"]["udp"], false);
    let tun = &v["inbounds"][1];
    assert_eq!(tun["tag"], "tun-in");
    assert_eq!(tun["settings"]["name"], "sni-spoof-rs-tun");
    assert_eq!(tun["settings"]["mtu"], 1500);
    assert_eq!(tun["settings"]["gateway"][1], "fc00:250::1/64");
    assert_eq!(tun["settings"]["dns"][0], "1.1.1.1");
    assert_eq!(tun["settings"]["userLevel"], 0);
    assert_eq!(tun["settings"]["autoSystemRoutingTable"][1], "::/0");
    assert_eq!(tun["sniffing"]["enabled"], true);
    assert_eq!(tun["sniffing"]["destOverride"][2], "quic");
    let out = &v["outbounds"][0];
    assert_eq!(out["protocol"], "vless");
    assert_eq!(out["settings"]["vnext"][0]["port"], 40443);
    assert_eq!(out["settings"]["vnext"][0]["users"][0]["id"], "id-1");
    assert_eq!(out["settings"]["vnext"][0]["users"][0]["encryption"], "none");
    assert_eq!(out["streamSettings"]["network"], "grpc");
    assert_eq!(out["streamSettings"]["security"], "tls");
    assert_eq!(out["streamSettings"]["tlsSettings"]["serverName"], "edge.example");
    assert_eq!(out["streamSettings"]["tlsSettings"]["fingerprint"], "firefox");
    assert_eq!(out["streamSettings"]["tlsSettings"]["allowInsecure"], false);
    assert_eq!(out["streamSettings"]["grpcSettings"]["serviceName"], "svc");
}
