# sni_spoof_rs

A TCP proxy that, for each client connection, injects one fake TLS ClientHello
carrying a chosen SNI just ahead of the real stream, positioned so that the
server drops it while on-path SNI filters read it; plus a scanner for candidate
SNIs and the logic of a desktop front end that imports v2ray/xray share links.

## Layout

- `src/` — the library, verified with Verus.
  - `packet/` — Ethernet, IPv4, IPv6 and TCP header access, one's-complement
    checksums, and the ClientHello template (`build_client_hello`, `parse_sni`).
  - `sniffer.rs` — the sniffer as a state machine: frame parsing, connection
    registration, when to inject, the fake frame, and what the handler is told.
  - `bpf.rs` — the classic-BPF capture filter and an interpreter for it.
  - `config.rs`, `error.rs` — configuration, its defaults and `validate`.
  - `net.rs`, `text.rs` — IP/socket address text in both directions, trimming,
    splitting and integer parsing.
  - `xray.rs`, `xray_config.rs` — share-link parsing (vless, trojan, vmess), the
    xray client configuration built from a link, and its JSON document.
  - `json.rs` — JSON text: strings with their escapes, objects and arrays.
  - `scan.rs`, `proxy.rs`, `handler.rs`, `proto.rs` — decisions of the scanner,
    of starting the proxy and of each connection.
  - `desktop.rs` — the desktop front end's state and decisions: the log, the
    proxy form, imports, the scan progress and saved settings.
- `app/` — the command-line program around the library: sockets, raw capture,
  the async relay, signals and JSON files.
- `tests/` — tests of the library on concrete values.

Laws that span several functions are public proof functions named `lemma_*`
next to the functions they speak of.
