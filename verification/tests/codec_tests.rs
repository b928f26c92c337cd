//! Codec behaviour: base64, URL decoding, HTML escaping, timestamps.

use ljc_relay::base64::{base64_decode, base64_decode_simple, base64_encode};
use ljc_relay::html::{extract_host_ip, extract_host_port, generate_connect_html,
    generate_download_page, html_escape};
use ljc_relay::isotime::{is_leap, parse_iso_to_systemtime};
use ljc_relay::session::chrono_now;
use ljc_relay::urlpath::{dav_path_to_string, hex_val, url_decode};

#[test]
fn base64_encode_groups() {
    assert_eq!(base64_encode(b"Man"), "TWFu");
    assert_eq!(base64_encode(b"M"), "TQ==");
    assert_eq!(base64_encode(b"Ma"), "TWE=");
    assert_eq!(base64_encode(b""), "");
}

#[test]
fn base64_round_trip_all_bytes() {
    let mut data: Vec<u8> = Vec::new();
    let mut i: usize = 0;
    while i < 256 {
        data.push(i as u8);
        i += 1;
    }
    let encoded = base64_encode(data.as_slice());
    assert_eq!(base64_decode(encoded.as_str()), data);
    assert_eq!(base64_decode_simple(encoded.as_str()), data);
}

#[test]
fn base64_decode_skips_padding_and_breaks() {
    assert_eq!(base64_decode("TWFu\r\n"), b"Man".to_vec());
    assert_eq!(base64_decode("TQ=="), b"M".to_vec());
    // the PEM variant also skips spaces
    assert_eq!(base64_decode_simple("T W F u"), b"Man".to_vec());
    // an unknown byte is dropped from its 4-byte group, which then yields
    // one byte fewer (the groups are cut before the byte is dropped)
    assert_eq!(base64_decode("TWF*u"), b"Ma".to_vec());
}

#[test]
fn url_decode_escapes() {
    assert_eq!(url_decode("%2Fa%20b"), "/a b");
    assert_eq!(url_decode("a%41b"), "aAb");
    // malformed escapes pass through verbatim
    assert_eq!(url_decode("a%zzb"), "a%zzb");
    assert_eq!(url_decode("%2"), "%2");
}

#[test]
fn url_decode_identity_without_percent() {
    assert_eq!(url_decode("/plain/ascii/path.txt"), "/plain/ascii/path.txt");
}

#[test]
fn hex_val_digits() {
    assert_eq!(hex_val(b'0'), Some(0));
    assert_eq!(hex_val(b'9'), Some(9));
    assert_eq!(hex_val(b'a'), Some(10));
    assert_eq!(hex_val(b'f'), Some(15));
    assert_eq!(hex_val(b'A'), Some(10));
    assert_eq!(hex_val(b'F'), Some(15));
    assert_eq!(hex_val(b'g'), None);
    assert_eq!(hex_val(b' '), None);
}

#[test]
fn dav_path_gets_leading_slash() {
    assert_eq!(dav_path_to_string("a%20b"), "/a b");
    assert_eq!(dav_path_to_string("/already"), "/already");
}

#[test]
fn html_escape_specials() {
    assert_eq!(html_escape("<a href=\"x\">&'"), "&lt;a href=&quot;x&quot;&gt;&amp;&#x27;");
    assert_eq!(html_escape("plain"), "plain");
}

#[test]
fn iso_parse_ordinary() {
    assert_eq!(parse_iso_to_systemtime("2024-01-15T12:00:00Z"), Some(1705320000));
    assert_eq!(parse_iso_to_systemtime("2024-01-15T12:00:00.123Z"), Some(1705320000));
    assert_eq!(parse_iso_to_systemtime(" 2024-01-15T12:00:00Z "), Some(1705320000));
}

#[test]
fn iso_parse_leap_years() {
    // 2000 is a leap year (divisible by 400), so Feb 29 exists
    assert_eq!(parse_iso_to_systemtime("2000-02-29T00:00:00Z"), Some(951782400));
    // 1900 is not; the parser's epoch starts at 1970, so the pre-epoch year
    // contributes no days and the date lands in early 1970
    assert_eq!(parse_iso_to_systemtime("1900-02-29T00:00:00Z"), Some(5097600));
    assert!(is_leap(2000));
    assert!(!is_leap(1900));
    assert!(is_leap(2024));
    assert!(!is_leap(2023));
}

#[test]
fn iso_parse_rejects_malformed() {
    assert_eq!(parse_iso_to_systemtime("not a date"), None);
    assert_eq!(parse_iso_to_systemtime("2024-13-01T00:00:00Z"), None);
    assert_eq!(parse_iso_to_systemtime("2024-01-15 12:00:00"), None);
    assert_eq!(parse_iso_to_systemtime("2024-01-15T12:00Z"), None);
    assert_eq!(parse_iso_to_systemtime(""), None);
}

#[test]
fn chrono_now_renders_decimal() {
    assert_eq!(chrono_now(0), "0");
    assert_eq!(chrono_now(1234567890), "1234567890");
}

#[test]
fn host_header_parsing() {
    assert_eq!(extract_host_ip(Some("192.168.1.7:17200")), "192.168.1.7");
    assert_eq!(extract_host_ip(Some("myhost")), "myhost");
    assert_eq!(extract_host_ip(None), "");
    assert_eq!(extract_host_port(Some("192.168.1.7:17200")), 17200);
    assert_eq!(extract_host_port(Some("192.168.1.7:9999")), 9999);
    assert_eq!(extract_host_port(Some("myhost")), 17200);
    assert_eq!(extract_host_port(Some("h:notaport")), 17200);
    assert_eq!(extract_host_port(None), 17200);
}

#[test]
fn generated_pages_embed_parameters() {
    let landing = generate_download_page("10.0.0.5", 17200);
    assert!(landing.contains("10.0.0.5:17200"));
    assert!(landing.contains("/api/connect-html"));
    let connect = generate_connect_html("10.0.0.5", 17200, "tok-123");
    assert!(connect.contains("\"10.0.0.5\""));
    assert!(connect.contains("tok-123"));
    assert!(connect.contains("register"));
}
