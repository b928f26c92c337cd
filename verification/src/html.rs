//! The landing and connect pages: HTML-attribute escaping, host-header
//! parsing, and the two generated documents (out of the relay's core; kept
//! small).

use vstd::prelude::*;
use vstd::string::StringSliceAdditionalSpecFns;
use vstd::utf8::*;
use crate::bytesutil::{all_digits, digits_val, first_occ, lemma_first_occ, parse_decimal_capped,
    find_byte};
use crate::frames::{byte_map, lemma_byte_map_add, lemma_byte_map_valid};
use crate::isotime::take_until;
use crate::outside;
use crate::strutil::{ascii_seq, bytes_as_chars, dec_digits, u64_to_string};

verus! {

/// Query parameters of the connect-page download.
pub struct ConnectParams {
    pub ip: Option<String>,
    pub port: Option<u16>,
}

/// How one byte is written inside an HTML attribute value.
pub open spec fn html_esc_byte(b: u8) -> Seq<u8> {
    if b == 38 {
        seq![38u8, 97u8, 109u8, 112u8, 59u8]  // &amp;
    } else if b == 34 {
        seq![38u8, 113u8, 117u8, 111u8, 116u8, 59u8]  // &quot;
    } else if b == 60 {
        seq![38u8, 108u8, 116u8, 59u8]  // &lt;
    } else if b == 62 {
        seq![38u8, 103u8, 116u8, 59u8]  // &gt;
    } else if b == 39 {
        seq![38u8, 35u8, 120u8, 50u8, 55u8, 59u8]  // &#x27;
    } else {
        seq![b]
    }
}

/// The escape map as a function value.
pub open spec fn html_esc_fn() -> spec_fn(u8) -> Seq<u8> {
    |b: u8| html_esc_byte(b)
}

/// A string escaped for embedding in an HTML attribute value.
pub open spec fn spec_html_escape(s: Seq<u8>) -> Seq<u8> {
    byte_map(s, html_esc_fn())
}

/// Escapes a string for safe embedding inside an HTML attribute value.
#[verifier::rlimit(60)]
pub fn html_escape(s: &str) -> (r: String)
    ensures
        encode_utf8(r@) == spec_html_escape(s.spec_bytes()),
{
    let bytes = s.as_bytes();
    let n = bytes.len();
    let mut out: Vec<u8> = Vec::new();
    let mut i: usize = 0;
    proof {
        assert(bytes@.subrange(0, 0) =~= Seq::<u8>::empty());
        assert(out@ =~= spec_html_escape(bytes@.subrange(0, 0)));
    }
    while i < n
        invariant
            0 <= i <= n,
            n == bytes@.len(),
            bytes@ == s.spec_bytes(),
            out@ == spec_html_escape(bytes@.subrange(0, i as int)),
        decreases n - i,
    {
        let b = bytes[i];
        proof {
            reveal_with_fuel(byte_map, 3);
            assert(bytes@.subrange(0, i + 1) =~= bytes@.subrange(0, i as int) + seq![
                bytes@[i as int],
            ]);
            lemma_byte_map_add(bytes@.subrange(0, i as int), seq![bytes@[i as int]], html_esc_fn());
            assert(seq![bytes@[i as int]].skip(1) =~= Seq::<u8>::empty());
            assert(html_esc_fn()(bytes@[i as int]) == html_esc_byte(bytes@[i as int]));
            assert(byte_map(seq![bytes@[i as int]], html_esc_fn()) =~= html_esc_byte(
                bytes@[i as int],
            ));
        }
        if b == 38 {
            out.push(38);
            out.push(97);
            out.push(109);
            out.push(112);
            out.push(59);
        } else if b == 34 {
            out.push(38);
            out.push(113);
            out.push(117);
            out.push(111);
            out.push(116);
            out.push(59);
        } else if b == 60 {
            out.push(38);
            out.push(108);
            out.push(116);
            out.push(59);
        } else if b == 62 {
            out.push(38);
            out.push(103);
            out.push(116);
            out.push(59);
        } else if b == 39 {
            out.push(38);
            out.push(35);
            out.push(120);
            out.push(50);
            out.push(55);
            out.push(59);
        } else {
            out.push(b);
        }
        proof {
            assert(out@ =~= spec_html_escape(bytes@.subrange(0, i + 1)));
        }
        i += 1;
    }
    proof {
        assert(bytes@.subrange(0, n as int) =~= bytes@);
        encode_utf8_valid_utf8(s@);
        assert forall|b: u8| b >= 0x80 implies #[trigger] html_esc_fn()(b) == seq![b] by {
            assert(html_esc_fn()(b) == html_esc_byte(b));
        }
        assert forall|b: u8| b < 0x80 implies ascii_seq(#[trigger] html_esc_fn()(b)) by {
            assert(html_esc_fn()(b) == html_esc_byte(b));
        }
        lemma_byte_map_valid(bytes@, html_esc_fn());
    }
    let ghost ob = out@;
    match outside::vec_to_string(out) {
        Some(t) => {
            proof {
                decode_utf8_encode_utf8(ob);
            }
            t
        },
        None => {
            proof {
                assert(false);
            }
            String::new()
        },
    }
}

/// The IP part of a `Host` header value: everything before the first colon;
/// empty when the header is missing.
pub open spec fn spec_host_ip(h: Option<Seq<u8>>) -> Seq<u8> {
    match h {
        Some(b) => take_until(b, 58),
        None => Seq::empty(),
    }
}

/// Extracts the host IP from a `Host` header value.
pub fn extract_host_ip(host: Option<&str>) -> (r: String)
    ensures
        encode_utf8(r@) == spec_host_ip(
            match host {
                Some(h) => Some(h.spec_bytes()),
                None => None,
            },
        ),
{
    match host {
        None => {
            let r = String::new();
            proof {
                assert(encode_utf8(r@) =~= Seq::<u8>::empty());
            }
            r
        },
        Some(h) => {
            let hb = h.as_bytes();
            proof {
                lemma_first_occ(hb@, 58);
                encode_utf8_valid_utf8(h@);
            }
            match find_byte(hb, 58) {
                None => {
                    let r = h.to_owned();
                    proof {
                        assert(take_until(hb@, 58) =~= hb@);
                    }
                    r
                },
                Some(i) => {
                    proof {
                        is_char_boundary_start_end_of_seq(hb@);
                        let bi = hb@[i as int];
                        assert(!is_continuation_byte(bi)) by {
                            assert(bi == 58 ==> !(bi & 0xc0 == 0x80)) by (bit_vector);
                        }
                        is_char_boundary_iff_not_is_continuation_byte(hb@, i as int);
                    }
                    crate::strutil::substring_bytes(h, 0, i)
                },
            }
        },
    }
}

/// The port part of a `Host` header value: the digits between the first
/// colon and the next one (or the end), defaulting to 17200 when missing or
/// not a port number.
pub open spec fn spec_host_port(h: Option<Seq<u8>>) -> u16 {
    match h {
        None => 17200u16,
        Some(b) => {
            let i = first_occ(b, 58);
            if i < 0 {
                17200u16
            } else {
                let seg = take_until(b.skip(i + 1), 58);
                if all_digits(seg) && digits_val(seg) <= 65535 {
                    digits_val(seg) as u16
                } else {
                    17200u16
                }
            }
        },
    }
}

/// Extracts the port from a `Host` header value.
pub fn extract_host_port(host: Option<&str>) -> (r: u16)
    ensures
        r == spec_host_port(
            match host {
                Some(h) => Some(h.spec_bytes()),
                None => None,
            },
        ),
{
    match host {
        None => 17200,
        Some(h) => {
            let hb = h.as_bytes();
            proof {
                lemma_first_occ(hb@, 58);
            }
            match find_byte(hb, 58) {
                None => 17200,
                Some(i) => {
                    let hn = hb.len();
                    let rest = &hb[i + 1..hn];
                    proof {
                        assert(rest@ =~= hb@.skip(i + 1));
                        lemma_first_occ(rest@, 58);
                    }
                    let seg: &[u8] = match find_byte(rest, 58) {
                        None => rest,
                        Some(j) => {
                            let sg = &rest[0..j];
                            proof {
                                assert(sg@ =~= rest@.subrange(0, j as int));
                            }
                            sg
                        },
                    };
                    proof {
                        assert(seg@ =~= take_until(hb@.skip(i + 1), 58));
                    }
                    match parse_decimal_capped(seg, 65535) {
                        Some(v) => v as u16,
                        None => 17200,
                    }
                },
            }
        },
    }
}

/// The landing page: it offers the connect page for download and shows the
/// address the relay is reachable at.
pub fn generate_download_page(server_ip: &str, port: u16) -> (r: String)
    ensures
        r@ == "<!DOCTYPE html>\n<html lang=\"ja\"><head><meta charset=\"UTF-8\"><title>SnowSync</title></head>\n<body><h1>SnowSync</h1>\n<p>Relay at "@
            + server_ip@ + ":"@ + bytes_as_chars(dec_digits(port as nat)) +
        "</p>\n<p><a href=\"/api/connect-html\" download=\"SnowSync-Connect.html\">\u{63a5}\u{7d9a}HTML\u{3092}\u{30c0}\u{30a6}\u{30f3}\u{30ed}\u{30fc}\u{30c9}</a></p>\n</body></html>\n"@,
{
    let mut page = "<!DOCTYPE html>\n<html lang=\"ja\"><head><meta charset=\"UTF-8\"><title>SnowSync</title></head>\n<body><h1>SnowSync</h1>\n<p>Relay at ".to_owned();
    page.append(server_ip);
    page.append(":");
    let p = u64_to_string(port as u64);
    page.append(p.as_str());
    page.append(
        "</p>\n<p><a href=\"/api/connect-html\" download=\"SnowSync-Connect.html\">\u{63a5}\u{7d9a}HTML\u{3092}\u{30c0}\u{30a6}\u{30f3}\u{30ed}\u{30fc}\u{30c9}</a></p>\n</body></html>\n",
    );
    page
}

/// The standalone connect page a remote browser opens: it carries the relay
/// address and the bearer token, pre-filled for the registration frame the
/// page's script sends over the socket.
pub fn generate_connect_html(server_ip: &str, port: u16, api_token: &str) -> (r: String)
    ensures
        r@ == "<!DOCTYPE html>\n<html lang=\"ja\"><head><meta charset=\"UTF-8\"><title>SnowSync Connect</title></head>\n<body><h1>SnowSync Connect</h1>\n<script>\nconst RELAY = {server: \""@
            + server_ip@ + "\", port: "@ + bytes_as_chars(dec_digits(port as nat))
            + ", token: \""@ + api_token@ +
        "\"};\n// the page opens ws://RELAY.server:RELAY.port/ws and sends\n// {type:\"register\",name,folderName,token}\n</script>\n</body></html>\n"@,
{
    let mut page = "<!DOCTYPE html>\n<html lang=\"ja\"><head><meta charset=\"UTF-8\"><title>SnowSync Connect</title></head>\n<body><h1>SnowSync Connect</h1>\n<script>\nconst RELAY = {server: \"".to_owned();
    page.append(server_ip);
    page.append("\", port: ");
    let p = u64_to_string(port as u64);
    page.append(p.as_str());
    page.append(", token: \"");
    page.append(api_token);
    page.append(
        "\"};\n// the page opens ws://RELAY.server:RELAY.port/ws and sends\n// {type:\"register\",name,folderName,token}\n</script>\n</body></html>\n",
    );
    page
}

} // verus!
