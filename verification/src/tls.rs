//! TLS material bookkeeping: which cached certificate is still usable, the
//! subject-alternative-name set a fresh certificate must carry, and the PEM
//! body codec (strip the dashed header and footer lines, base64-decode the
//! rest into DER).

use vstd::prelude::*;
use vstd::string::StringSliceAdditionalSpecFns;
use crate::base64::spec_b64_decode_simple;
use crate::bytesutil::{first_occ, lemma_first_occ, starts_with_seq, starts_with_bytes, find_byte};
use crate::isotime::{drop_leading_ws, drop_trailing_ws};

verus! {

/// The five dashes that open a PEM header or footer line.
pub open spec fn dashes() -> Seq<u8> {
    seq![45u8, 45u8, 45u8, 45u8, 45u8]
}

/// The PEM text with every line that starts with `-----` dropped and the
/// line breaks between kept lines removed.
pub open spec fn strip_dash_lines(s: Seq<u8>) -> Seq<u8>
    decreases s.len(),
{
    let i = first_occ(s, 10);
    if i < 0 || i >= s.len() {
        if starts_with_seq(s, dashes()) {
            Seq::empty()
        } else {
            s
        }
    } else {
        (if starts_with_seq(s.subrange(0, i), dashes()) {
            Seq::<u8>::empty()
        } else {
            s.subrange(0, i)
        }) + strip_dash_lines(s.skip(i + 1))
    }
}

/// The DER bytes encoded by a PEM document.
pub open spec fn spec_pem_to_der(s: Seq<u8>) -> Seq<u8> {
    spec_b64_decode_simple(strip_dash_lines(s))
}

/// Decodes a PEM document (certificate or PKCS#8 key) into DER bytes.
pub fn pem_to_der(pem: &str) -> (r: Vec<u8>)
    ensures
        r@ == spec_pem_to_der(pem.spec_bytes()),
{
    let bytes = pem.as_bytes();
    let n = bytes.len();
    let dash: [u8; 5] = [45, 45, 45, 45, 45];
    let mut body: Vec<u8> = Vec::new();
    let mut start: usize = 0;
    proof {
        assert(dash@ =~= dashes());
        assert(bytes@.skip(0) =~= bytes@);
        assert(body@ + strip_dash_lines(bytes@.skip(0)) =~= strip_dash_lines(bytes@));
    }
    loop
        invariant_except_break
            0 <= start <= n,
            n == bytes@.len(),
            dash@ == dashes(),
            strip_dash_lines(bytes@) == body@ + strip_dash_lines(bytes@.skip(start as int)),
        ensures
            body@ == strip_dash_lines(bytes@),
        decreases n - start,
    {
        let rest = &bytes[start..n];
        proof {
            assert(rest@ =~= bytes@.skip(start as int));
            lemma_first_occ(rest@, 10);
        }
        match find_byte(rest, 10) {
            None => {
                if !starts_with_bytes(rest, dash.as_slice()) {
                    body.extend_from_slice(rest);
                    proof {
                        assert(strip_dash_lines(rest@) =~= rest@);
                        assert(body@ =~= strip_dash_lines(bytes@));
                    }
                } else {
                    proof {
                        assert(strip_dash_lines(rest@) =~= Seq::<u8>::empty());
                        assert(body@ =~= strip_dash_lines(bytes@));
                    }
                }
                break ;
            },
            Some(i) => {
                let line = &rest[0..i];
                proof {
                    assert(line@ =~= rest@.subrange(0, i as int));
                    assert(rest@.skip(i + 1) =~= bytes@.skip(start + i + 1));
                }
                if !starts_with_bytes(line, dash.as_slice()) {
                    body.extend_from_slice(line);
                }
                start = start + i + 1;
            },
        }
    }
    crate::base64::base64_decode_simple_bytes(body.as_slice())
}

/// Whether the cached certificate can be loaded instead of generating a new
/// one: both PEM files exist and the IP marker, trimmed, equals the detected
/// LAN IP.
pub fn cached_cert_usable(cached_ip: &str, local_ip: &str, cert_exists: bool, key_exists: bool) -> (r:
    bool)
    ensures
        r == (cert_exists && key_exists && drop_trailing_ws(drop_leading_ws(cached_ip.spec_bytes()))
            == local_ip.spec_bytes()),
{
    if !(cert_exists && key_exists) {
        return false;
    }
    let trimmed = crate::strutil::trim_ascii(cached_ip);
    crate::bytesutil::bytes_eq(trimmed.as_str().as_bytes(), local_ip.as_bytes())
}

/// The subject alternative names a fresh certificate is generated with: the
/// detected LAN IP, the `localhost` name, and the loopback IP.
pub fn san_entries(local_ip: &str) -> (r: Vec<String>)
    ensures
        r@.len() == 3,
        r@[0]@ == local_ip@,
        r@[1]@ == "localhost"@,
        r@[2]@ == "127.0.0.1"@,
{
    let mut v: Vec<String> = Vec::new();
    v.push(local_ip.to_owned());
    v.push("localhost".to_owned());
    v.push("127.0.0.1".to_owned());
    v
}

} // verus!
