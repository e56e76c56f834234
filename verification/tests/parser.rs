//! The endpoint parser and formatter: round trips, exact values, and every
//! typed error.

use tunnel_core::addr::{format_addr, parse_addr_exec, SockAddr};
use tunnel_core::chars::str_to_chars;
use tunnel_core::endpoint::{format_endpoint, parse_independent_endpoint, EndpointError};

fn key_bytes() -> Vec<u8> {
    (0u8..32u8).collect()
}

fn key_hex() -> String {
    let mut s = String::new();
    for b in key_bytes() {
        s.push_str(&format!("{:02x}", b));
    }
    s
}

#[test]
fn roundtrip_v4_endpoint() {
    let addr = SockAddr::V4 { a: 10, b: 0, c: 200, d: 7, port: 19831 };
    let text = format_endpoint(&key_bytes(), &addr);
    let (got_addr, got_key) = parse_independent_endpoint(&text).unwrap();
    assert_eq!(got_addr, addr);
    assert_eq!(got_key, key_bytes());
}

#[test]
fn roundtrip_v6_endpoint() {
    let addr = SockAddr::V6 {
        g0: 0x2001,
        g1: 0xdb8,
        g2: 0,
        g3: 0,
        g4: 0xdead,
        g5: 0xbeef,
        g6: 1,
        g7: 0xffff,
        port: 443,
    };
    let text = format_endpoint(&key_bytes(), &addr);
    let (got_addr, got_key) = parse_independent_endpoint(&text).unwrap();
    assert_eq!(got_addr, addr);
    assert_eq!(got_key, key_bytes());
}

#[test]
fn parse_exact_value() {
    let text = format!("{}@1.2.3.4:80", key_hex());
    let (addr, key) = parse_independent_endpoint(&text).unwrap();
    assert_eq!(addr, SockAddr::V4 { a: 1, b: 2, c: 3, d: 4, port: 80 });
    assert_eq!(key, key_bytes());
}

#[test]
fn parse_uppercase_hex_accepted() {
    let text = format!("{}@1.2.3.4:80", key_hex().to_uppercase());
    let (_, key) = parse_independent_endpoint(&text).unwrap();
    assert_eq!(key, key_bytes());
}

#[test]
fn malformed_url_without_at() {
    assert_eq!(
        parse_independent_endpoint("no-separator-here"),
        Err(EndpointError::MalformedUrl)
    );
}

#[test]
fn malformed_url_with_two_ats() {
    let text = format!("{}@1.2.3.4:80@extra", key_hex());
    assert_eq!(parse_independent_endpoint(&text), Err(EndpointError::MalformedUrl));
}

#[test]
fn bad_hex_wrong_length() {
    assert_eq!(
        parse_independent_endpoint("abcd@1.2.3.4:80"),
        Err(EndpointError::BadHex)
    );
}

#[test]
fn bad_hex_wrong_characters() {
    let mut k = key_hex();
    k.replace_range(0..1, "z");
    let text = format!("{}@1.2.3.4:80", k);
    assert_eq!(parse_independent_endpoint(&text), Err(EndpointError::BadHex));
}

#[test]
fn bad_addr_rejected() {
    let text = format!("{}@nonsense", key_hex());
    assert_eq!(parse_independent_endpoint(&text), Err(EndpointError::BadAddr));
    let text = format!("{}@1.2.3:80", key_hex());
    assert_eq!(parse_independent_endpoint(&text), Err(EndpointError::BadAddr));
    let text = format!("{}@1.2.3.456:80", key_hex());
    assert_eq!(parse_independent_endpoint(&text), Err(EndpointError::BadAddr));
    let text = format!("{}@1.2.3.4:70000", key_hex());
    assert_eq!(parse_independent_endpoint(&text), Err(EndpointError::BadAddr));
}

#[test]
fn parser_total_on_junk() {
    let junk = [
        "",
        "@",
        "@@",
        "@1.2.3.4:80",
        "hello world",
        "\u{1F980}@\u{1F980}",
        "0123@[:::]:1",
        ":::",
    ];
    for j in junk {
        // every input must come back as Ok or a typed error, never a panic
        let _ = parse_independent_endpoint(j);
    }
}

#[test]
fn format_addr_exact() {
    let a = SockAddr::V4 { a: 1, b: 22, c: 0, d: 255, port: 9 };
    assert_eq!(format_addr(&a), "1.22.0.255:9");
    let b = SockAddr::V6 {
        g0: 0x2001,
        g1: 0xdb8,
        g2: 0,
        g3: 0,
        g4: 0,
        g5: 0,
        g6: 0,
        g7: 1,
        port: 443,
    };
    assert_eq!(format_addr(&b), "[2001:db8:0:0:0:0:0:1]:443");
}

#[test]
fn parse_addr_variants() {
    let chars = str_to_chars("127.0.0.1:65535");
    assert_eq!(
        parse_addr_exec(&chars),
        Some(SockAddr::V4 { a: 127, b: 0, c: 0, d: 1, port: 65535 })
    );
    let chars = str_to_chars("[2001:DB8:0:0:0:0:0:1]:443");
    assert_eq!(
        parse_addr_exec(&chars),
        Some(SockAddr::V6 {
            g0: 0x2001,
            g1: 0xdb8,
            g2: 0,
            g3: 0,
            g4: 0,
            g5: 0,
            g6: 0,
            g7: 1,
            port: 443
        })
    );
    assert_eq!(parse_addr_exec(&str_to_chars("1.2.3.4")), None);
    assert_eq!(parse_addr_exec(&str_to_chars("[1:2:3]:80")), None);
    assert_eq!(parse_addr_exec(&str_to_chars("")), None);
}
