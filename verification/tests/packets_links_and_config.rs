use sni_spoof_rs::desktop::{
    connection_check_proxy_url, replace_socket_host, selected_share_line, share_line_count,
};
use sni_spoof_rs::net::IpAddr;
use sni_spoof_rs::packet::tcp::ones_complement_sum;
use sni_spoof_rs::packet::tls::{build_client_hello, parse_sni, CLIENT_HELLO_SIZE};
use sni_spoof_rs::xray::parse_share_link;
use serde_json::Value;
use sni_spoof_rs::xray_config::build_xray_config;

#[test]
fn test_ones_complement_basic() {
    let result = ones_complement_sum(&[0x00, 0x01]);
    assert_eq!(result, 0xFFFE);
}

#[test]
fn test_ones_complement_odd_length() {
    let result = ones_complement_sum(&[0x00, 0x01, 0x02]);
    assert_eq!(result, 0xFDFE);
}

#[test]
fn test_client_hello_size() {
    let ch = build_client_hello("example.com");
    assert_eq!(ch.len(), CLIENT_HELLO_SIZE);
}

#[test]
fn test_client_hello_sni() {
    let ch = build_client_hello("security.vercel.com");
    let sni = parse_sni(&ch).unwrap();
    assert_eq!(sni, "security.vercel.com");
}

#[test]
fn test_client_hello_short_sni() {
    let ch = build_client_hello("a.b");
    assert_eq!(ch.len(), CLIENT_HELLO_SIZE);
    let sni = parse_sni(&ch).unwrap();
    assert_eq!(sni, "a.b");
}

#[test]
fn test_client_hello_max_sni() {
    let sni = "a".repeat(219);
    let ch = build_client_hello(&sni);
    assert_eq!(ch.len(), CLIENT_HELLO_SIZE);
    let parsed = parse_sni(&ch).unwrap();
    assert_eq!(parsed, sni);
}

#[test]
fn test_tls_record_header() {
    let ch = build_client_hello("test.com");
    assert_eq!(ch[0], 0x16);
    assert_eq!(ch[1], 0x03);
    assert_eq!(ch[2], 0x01);
}

#[test]
fn parses_vless_cloudflare_style_link() {
    let link = "vless://uuid@example.com:443?security=tls&type=ws&host=edge.example.com&sni=real.example.com#sample";
    let share = parse_share_link(link).unwrap();
    assert_eq!(share.protocol, "vless");
    assert_eq!(share.host, "example.com");
    assert_eq!(share.port, 443);
    assert_eq!(share.user_id.as_deref(), Some("uuid"));
    assert_eq!(share.network.as_deref(), Some("ws"));
    assert_eq!(share.http_host.as_deref(), Some("edge.example.com"));
    assert_eq!(share.sni.as_deref(), Some("real.example.com"));
    assert_eq!(share.name.as_deref(), Some("sample"));
    assert!(share.tls);
}

#[test]
fn parses_cloudip_generated_vless_link() {
    let link = "vless://uuid@172.64.82.114:443?encryption=none&security=tls&sni=cf.cloudip.ggff.net&fp=random&insecure=0&allowInsecure=0&type=ws&host=cf.cloudip.ggff.net&path=pyip%3Dproxyip.cmliussss.net#sample";
    let share = parse_share_link(link).unwrap();
    assert_eq!(share.protocol, "vless");
    assert_eq!(share.host, "172.64.82.114");
    assert_eq!(share.port, 443);
    assert_eq!(share.user_id.as_deref(), Some("uuid"));
    assert_eq!(share.network.as_deref(), Some("ws"));
    assert_eq!(share.http_host.as_deref(), Some("cf.cloudip.ggff.net"));
    assert_eq!(share.sni.as_deref(), Some("cf.cloudip.ggff.net"));
    assert_eq!(share.fingerprint.as_deref(), Some("random"));
    assert_eq!(share.path.as_deref(), Some("pyip=proxyip.cmliussss.net"));
    assert_eq!(share.name.as_deref(), Some("sample"));
    assert!(share.tls);
}

#[test]
fn local_rewritten_vless_uses_host_as_upstream() {
    let link = "vless://uuid@127.0.0.1:40443?mode=auto&path=%2FGoOgLe&security=tls&encryption=none&host=tom.dnstt.space&fp=chrome&type=xhttp&sni=tom.dnstt.space#NET_SPOOF";
    let share = parse_share_link(link).unwrap();
    assert_eq!(share.protocol, "vless");
    assert_eq!(share.host, "127.0.0.1");
    assert_eq!(share.port, 40443);
    assert!(share.endpoint_is_local());
    assert_eq!(share.upstream_host(), "tom.dnstt.space");
    assert_eq!(share.upstream_port(), 443);
    assert_eq!(share.network.as_deref(), Some("xhttp"));
    assert_eq!(share.mode.as_deref(), Some("auto"));
    assert_eq!(share.path.as_deref(), Some("/GoOgLe"));
}

#[test]
fn parses_local_rewritten_trojan_link() {
    let link = "trojan://humanity@127.0.0.1:40443?path=%2Fassignment&security=tls&host=www.ignitelimit.com&type=ws&sni=www.ignitelimit.com#NET_SPOOF";
    let share = parse_share_link(link).unwrap();
    assert_eq!(share.protocol, "trojan");
    assert_eq!(share.user_id.as_deref(), Some("humanity"));
    assert_eq!(share.upstream_host(), "www.ignitelimit.com");
    assert_eq!(share.upstream_port(), 443);
    assert_eq!(share.network.as_deref(), Some("ws"));
    assert_eq!(share.path.as_deref(), Some("/assignment"));
}

#[test]
fn parses_vmess_cloudflare_style_link() {
    let json = r#"{
            "v": "2",
            "ps": "sample",
            "id": "uuid",
            "add": "cf.example.com",
            "port": "443",
            "net": "ws",
            "type": "none",
            "host": "edge.example.com",
            "path": "/",
            "tls": "tls",
            "sni": "real.example.com"
        }"#;
    let encoded = base64::Engine::encode(&base64::engine::general_purpose::STANDARD, json);
    let link = format!("vmess://{}", encoded);
    let share = parse_share_link(&link).unwrap();
    assert_eq!(share.protocol, "vmess");
    assert_eq!(share.host, "cf.example.com");
    assert_eq!(share.port, 443);
    assert_eq!(share.user_id.as_deref(), Some("uuid"));
    assert_eq!(share.network.as_deref(), Some("ws"));
    assert_eq!(share.http_host.as_deref(), Some("edge.example.com"));
    assert_eq!(share.sni.as_deref(), Some("real.example.com"));
    assert_eq!(share.path.as_deref(), Some("/"));
    assert_eq!(share.name.as_deref(), Some("sample"));
    assert!(share.tls);
}

#[test]
fn builds_xray_config_for_local_rewritten_vless_xhttp() {
    let share = parse_share_link("vless://uuid@127.0.0.1:40443?mode=auto&path=%2FGoOgLe&security=tls&encryption=none&host=tom.dnstt.space&fp=chrome&type=xhttp&sni=tom.dnstt.space#NET_SPOOF").unwrap();
    let body = build_xray_config(
        &share,
        "127.0.0.1:40443",
        "127.0.0.1:1080",
        "127.0.0.1:1081",
        false,
        "warning",
    )
    .unwrap();
    let value: Value = serde_json::from_str(&body).unwrap();
    assert_eq!(value["outbounds"][0]["protocol"], "vless");
    assert_eq!(value["inbounds"][0]["protocol"], "http");
    assert_eq!(value["inbounds"][1]["protocol"], "socks");
    assert_eq!(
        value["outbounds"][0]["settings"]["vnext"][0]["address"],
        "127.0.0.1"
    );
    assert_eq!(
        value["outbounds"][0]["streamSettings"]["xhttpSettings"]["host"],
        "tom.dnstt.space"
    );
    assert_eq!(
        value["outbounds"][0]["streamSettings"]["xhttpSettings"]["path"],
        "/GoOgLe"
    );
    assert_eq!(
        value["outbounds"][0]["streamSettings"]["xhttpSettings"]["mode"],
        "auto"
    );
}

#[test]
fn builds_xray_config_for_trojan_ws() {
    let share = parse_share_link("trojan://humanity@127.0.0.1:40443?path=%2Fassignment&security=tls&host=www.ignitelimit.com&type=ws&sni=www.ignitelimit.com#NET_SPOOF").unwrap();
    let body = build_xray_config(
        &share,
        "127.0.0.1:40443",
        "0.0.0.0:1080",
        "0.0.0.0:1081",
        false,
        "warning",
    )
    .unwrap();
    let value: Value = serde_json::from_str(&body).unwrap();
    assert_eq!(value["outbounds"][0]["protocol"], "trojan");
    assert_eq!(value["inbounds"][0]["listen"], "0.0.0.0");
    assert_eq!(value["inbounds"][1]["listen"], "0.0.0.0");
    assert_eq!(
        value["outbounds"][0]["settings"]["servers"][0]["password"],
        "humanity"
    );
    assert_eq!(
        value["outbounds"][0]["streamSettings"]["wsSettings"]["headers"]["Host"],
        "www.ignitelimit.com"
    );
    assert_eq!(
        value["outbounds"][0]["streamSettings"]["wsSettings"]["path"],
        "/assignment"
    );
}

#[test]
fn rejects_xray_config_without_any_inbound_proxy() {
    let share = parse_share_link("trojan://humanity@example.com:443?security=tls").expect("parse share");
    let err = build_xray_config(&share, "127.0.0.1:40443", "", "", false, "warning")
        .expect_err("missing inbounds should fail");
    assert!(err.contains("enable at least one Xray inbound"));
}

#[test]
fn builds_xray_config_with_tun_inbound() {
    let share = parse_share_link("trojan://humanity@example.com:443?security=tls").expect("parse share");
    let body = build_xray_config(&share, "127.0.0.1:40443", "", "", true, "warning")
        .expect("tun-only config should be valid");
    let value: Value = serde_json::from_str(&body).unwrap();
    assert_eq!(value["inbounds"][0]["protocol"], "tun");
    assert_eq!(
        value["inbounds"][0]["settings"]["autoOutboundsInterface"],
        "auto"
    );
}

#[test]
fn rewrites_unspecified_proxy_for_local_ip_check() {
    assert_eq!(
        connection_check_proxy_url("0.0.0.0:1080", "0.0.0.0:1081").unwrap(),
        "http://127.0.0.1:1080"
    );
    assert_eq!(
        connection_check_proxy_url("", "0.0.0.0:1081").unwrap(),
        "socks5h://127.0.0.1:1081"
    );
}

#[test]
fn selects_share_links_from_multiline_import_text() {
    let text = "\n  vless://one@example.com:443?security=tls\n\n  trojan://two@example.com:443?security=tls\n";
    assert_eq!(share_line_count(text), 2);
    assert_eq!(
        selected_share_line(text, 1).as_deref(),
        Some("trojan://two@example.com:443?security=tls")
    );
}

#[test]
fn rewrites_socket_host_for_lan_binding() {
    assert_eq!(
        replace_socket_host("127.0.0.1:40443", "0.0.0.0"),
        "0.0.0.0:40443"
    );
}

#[test]
fn ip_text_of_unspecified_v4() {
    assert_eq!(IpAddr::V4(0).to_text(), "0.0.0.0");
}
