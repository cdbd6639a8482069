use kirblasnoop::classify::classify;
use kirblasnoop::classify::tls::client_hello as read_hello;

/// An extension: type, length and body.
fn extension(ext: &mut Vec<u8>, kind: u16, body: &[u8]) {
    ext.extend_from_slice(&kind.to_be_bytes());
    ext.extend_from_slice(&(body.len() as u16).to_be_bytes());
    ext.extend_from_slice(body);
}

/// A wire-legal ClientHello around some extensions.
fn hello_with(legacy: u16, ext: &[u8]) -> Vec<u8> {
    let mut hs = Vec::new();
    hs.extend_from_slice(&legacy.to_be_bytes()); // legacy version
    hs.extend_from_slice(&[0x11; 32]); // random
    hs.push(0); // session id len
    hs.extend_from_slice(&4u16.to_be_bytes()); // 2 cipher suites
    hs.extend_from_slice(&[0x13, 0x01, 0x13, 0x02]);
    hs.push(1); // compression methods
    hs.push(0);
    hs.extend_from_slice(&(ext.len() as u16).to_be_bytes());
    hs.extend_from_slice(ext);

    let mut rec = vec![0x16, 0x03, 0x01];
    rec.extend_from_slice(&((hs.len() + 4) as u16).to_be_bytes());
    rec.push(0x01);
    rec.extend_from_slice(&(hs.len() as u32).to_be_bytes()[1..]); // 24-bit
    rec.extend_from_slice(&hs);
    rec
}

fn sni_body(host: &str) -> Vec<u8> {
    let mut sni = vec![0x00];
    sni.extend_from_slice(&(host.len() as u16).to_be_bytes());
    sni.extend_from_slice(host.as_bytes());
    let mut body = (sni.len() as u16).to_be_bytes().to_vec();
    body.extend_from_slice(&sni);
    body
}

fn alpn_body(names: &[&str]) -> Vec<u8> {
    let mut protos = Vec::new();
    for p in names {
        protos.push(p.len() as u8);
        protos.extend_from_slice(p.as_bytes());
    }
    let mut body = (protos.len() as u16).to_be_bytes().to_vec();
    body.extend_from_slice(&protos);
    body
}

/// A minimal but wire-legal ClientHello with SNI and ALPN.
fn client_hello(host: &str) -> Vec<u8> {
    let mut ext = Vec::new();
    extension(&mut ext, 0x0000, &sni_body(host));
    extension(&mut ext, 0x0010, &alpn_body(&["h2", "http/1.1"]));
    // supported_versions: GREASE, then TLS 1.3
    extension(&mut ext, 0x002b, &[0x04u8, 0x0a, 0x0a, 0x03, 0x04]);
    hello_with(0x0303, &ext)
}

#[test]
fn pulls_sni_and_alpn_out_of_a_client_hello() {
    let got = classify(&client_hello("api.example.com")).unwrap();
    assert!(got.contains("sni=api.example.com"), "{got}");
    assert!(got.contains("alpn=h2,http/1.1"), "{got}");
    assert!(got.contains("TLS 1.3"), "{got}");
    assert!(got.contains("ciphers=2"), "{got}");
}

#[test]
fn truncated_client_hello_does_not_panic() {
    let full = client_hello("example.com");
    for n in 0..full.len() {
        let _ = classify(&full[..n]);
    }
}

#[test]
fn http_request_with_host() {
    let req = b"GET /v1/status HTTP/1.1\r\nHost: api.example.com\r\nUser-Agent: curl/8.5.0\r\n\r\n";
    let got = classify(req).unwrap();
    assert!(got.starts_with("HTTP GET /v1/status"), "{got}");
    assert!(got.contains("host=api.example.com"), "{got}");
    assert!(got.contains("ua=curl/8.5.0"), "{got}");
}

#[test]
fn dns_query() {
    let mut q = vec![0x12, 0x34, 0x01, 0x00, 0, 1, 0, 0, 0, 0, 0, 0];
    for label in ["telemetry", "example", "com"] {
        q.push(label.len() as u8);
        q.extend_from_slice(label.as_bytes());
    }
    q.push(0);
    q.extend_from_slice(&28u16.to_be_bytes()); // AAAA
    q.extend_from_slice(&1u16.to_be_bytes());
    assert_eq!(
        classify(&q).unwrap(),
        "DNS query AAAA telemetry.example.com"
    );
}

#[test]
fn dns_response_is_not_reported_as_a_query() {
    let mut r = vec![0x12, 0x34, 0x81, 0x80, 0, 1, 0, 1, 0, 0, 0, 0];
    r.extend_from_slice(&[7, b'e', b'x', b'a', b'm', b'p', b'l', b'e', 0, 0, 1, 0, 1]);
    let got = classify(&r);
    assert!(got.as_deref() != Some("DNS query A example"), "{got:?}");
}

#[test]
fn ssh_and_json_and_binary() {
    assert!(
        classify(b"SSH-2.0-OpenSSH_9.6p1\r\n")
            .unwrap()
            .starts_with("SSH banner SSH-2.0-OpenSSH_9.6p1")
    );
    assert_eq!(classify(b"{\"id\":1}").unwrap(), "JSON-ish");
    assert_eq!(classify(&[0xde, 0xad, 0xbe, 0xef, 0x00, 0x01]), None);
}

#[test]
fn empty_input() {
    assert_eq!(classify(&[]), None);
}

#[test]
fn a_hello_is_reported_in_full() {
    assert_eq!(
        classify(&client_hello("api.example.com")).unwrap(),
        "TLS 1.3 ClientHello sni=api.example.com alpn=h2,http/1.1 ciphers=2"
    );
}

#[test]
fn a_hello_reads_back_its_parts() {
    let h = read_hello(&client_hello("example.com")).unwrap();
    assert_eq!(h.version, 0x0304);
    assert_eq!(h.sni.as_deref(), Some(&b"example.com"[..]));
    assert_eq!(h.alpn, vec![b"h2".to_vec(), b"http/1.1".to_vec()]);
    assert_eq!(h.ciphers, 2);
}

#[test]
fn the_legacy_version_counts_only_without_an_offer() {
    assert_eq!(
        classify(&hello_with(0x0303, &[])).unwrap(),
        "TLS 1.2 ClientHello ciphers=2"
    );
    let mut ext = Vec::new();
    extension(&mut ext, 0x002b, &[0x04u8, 0x0a, 0x0a, 0x03, 0x02]);
    assert_eq!(
        classify(&hello_with(0x0303, &ext)).unwrap(),
        "TLS 1.1 ClientHello ciphers=2"
    );
}

#[test]
fn reserved_versions_are_skipped() {
    let mut ext = Vec::new();
    extension(&mut ext, 0x002b, &[0x06u8, 0xfa, 0xfa, 0x03, 0x03, 0x0a, 0x0a]);
    assert_eq!(
        classify(&hello_with(0x0301, &ext)).unwrap(),
        "TLS 1.2 ClientHello ciphers=2"
    );
}

#[test]
fn names_that_are_no_text_are_made_into_text() {
    let mut ext = Vec::new();
    let mut body = vec![0, 5, 0, 0, 2];
    body.extend_from_slice(&[0xff, b'a']);
    extension(&mut ext, 0x0000, &body);
    assert_eq!(
        classify(&hello_with(0x0303, &ext)).unwrap(),
        "TLS 1.2 ClientHello sni=\u{fffd}a ciphers=2"
    );
}

#[test]
fn a_handshake_that_is_no_hello_is_named() {
    assert_eq!(
        classify(&[0x16, 0x03, 0x03, 0, 5, 0x02, 0, 0, 1]).unwrap(),
        "TLS 1.2 handshake"
    );
}

#[test]
fn a_request_that_is_no_text_is_no_request() {
    assert_eq!(classify(b"GET /\xff HTTP/1.1\r\n\r\n\x00\x01"), None);
}

#[test]
fn long_targets_and_agents_are_clipped() {
    let target = "/".repeat(100);
    let agent = "a".repeat(70);
    let req = format!("POST {target} HTTP/1.0\r\nuser-AGENT:  {agent} \r\n\r\n");
    let want = format!("HTTP POST {} ua={}", "/".repeat(80), "a".repeat(60));
    assert_eq!(classify(req.as_bytes()).unwrap(), want);
}

#[test]
fn a_query_for_a_type_without_a_name_is_numbered() {
    let mut q = vec![0, 1, 0, 0, 0, 1, 0, 0, 0, 0, 0, 0];
    q.extend_from_slice(&[1, b'x', 0, 0x01, 0x00, 0, 1]);
    assert_eq!(classify(&q).unwrap(), "DNS query TYPE256 x");
}
