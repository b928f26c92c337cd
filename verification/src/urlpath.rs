//! Percent-decoding of verb URLs handed down by the DAV layer, and
//! normalisation to a leading-slash path for the remote filesystem.

use vstd::prelude::*;
use vstd::string::StringSliceAdditionalSpecFns;
use vstd::utf8::{decode_utf8, encode_utf8, valid_utf8};
use crate::outside;
use crate::strutil::lemma_ascii_bytes;

verus! {

/// Whether `b` is an ASCII hexadecimal digit.
pub open spec fn is_hex_digit(b: u8) -> bool {
    (48 <= b <= 57) || (97 <= b <= 102) || (65 <= b <= 70)
}

/// The value of an ASCII hexadecimal digit.
pub open spec fn hex_digit_val(b: u8) -> u8
    recommends
        is_hex_digit(b),
{
    if 48 <= b <= 57 {
        (b - 48) as u8
    } else if 97 <= b <= 102 {
        (b - 97 + 10) as u8
    } else {
        (b - 65 + 10) as u8
    }
}

/// Value of one hexadecimal digit byte; `None` for anything else.
pub fn hex_val(b: u8) -> (r: Option<u8>)
    ensures
        r is Some <==> is_hex_digit(b),
        r matches Some(v) ==> v == hex_digit_val(b) && v < 16,
{
    if 48 <= b && b <= 57 {
        Some(b - 48)
    } else if 97 <= b && b <= 102 {
        Some(b - 97 + 10)
    } else if 65 <= b && b <= 70 {
        Some(b - 65 + 10)
    } else {
        None
    }
}

/// Percent-decoding over bytes: `%XY` with two hexadecimal digits (and at
/// least two bytes after the percent sign) becomes
/// one byte; malformed escapes pass through verbatim.
pub open spec fn spec_url_decode(s: Seq<u8>) -> Seq<u8>
    decreases s.len(),
{
    if s.len() == 0 {
        Seq::empty()
    } else if s[0] == 37 && s.len() >= 3 && is_hex_digit(s[1]) && is_hex_digit(s[2]) {
        seq![((hex_digit_val(s[1]) << 4) | hex_digit_val(s[2])) as u8] + spec_url_decode(s.skip(3))
    } else {
        seq![s[0]] + spec_url_decode(s.skip(1))
    }
}

/// URL-decodes a percent-encoded path string. If the decoded bytes are not
/// valid UTF-8 the input is returned unchanged.
pub fn url_decode(s: &str) -> (r: String)
    ensures
        valid_utf8(spec_url_decode(s.spec_bytes())) ==> encode_utf8(r@) == spec_url_decode(
            s.spec_bytes(),
        ) && r@ == decode_utf8(spec_url_decode(s.spec_bytes())),
        !valid_utf8(spec_url_decode(s.spec_bytes())) ==> r@ == s@,
{
    let bytes = s.as_bytes();
    let n = bytes.len();
    let mut out: Vec<u8> = Vec::new();
    let mut i: usize = 0;
    proof {
        assert(bytes@.skip(0) =~= bytes@);
    }
    while i < n
        invariant
            0 <= i <= n,
            n == bytes@.len(),
            spec_url_decode(bytes@) == out@ + spec_url_decode(bytes@.skip(i as int)),
        decreases n - i,
    {
        let ghost rest = bytes@.skip(i as int);
        if bytes[i] == 37 && n - i > 2 {
            match (hex_val(bytes[i + 1]), hex_val(bytes[i + 2])) {
                (Some(hi), Some(lo)) => {
                    out.push((hi << 4u8) | lo);
                    proof {
                        assert(rest.skip(3) =~= bytes@.skip(i + 3));
                    }
                    i += 3;
                    continue ;
                },
                _ => {},
            }
        }
        out.push(bytes[i]);
        proof {
            assert(rest.skip(1) =~= bytes@.skip(i + 1));
            assert(rest[0] == bytes@[i as int]);
        }
        i += 1;
    }
    proof {
        assert(bytes@.skip(n as int) =~= Seq::<u8>::empty());
        assert(out@ =~= spec_url_decode(bytes@));
    }
    let ghost decoded = out@;
    match outside::vec_to_string(out) {
        Some(t) => {
            proof {
                vstd::utf8::decode_utf8_encode_utf8(decoded);
            }
            t
        },
        None => s.to_owned(),
    }
}

/// Percent-decoding leaves a byte sequence without `%` (37) unchanged.
pub proof fn lemma_url_decode_identity(s: Seq<u8>)
    requires
        forall|i: int| 0 <= i < s.len() ==> s[i] != 37,
    ensures
        spec_url_decode(s) == s,
    decreases s.len(),
{
    if s.len() == 0 {
        assert(spec_url_decode(s) =~= s);
    } else {
        lemma_url_decode_identity(s.skip(1));
        assert(spec_url_decode(s) =~= s);
    }
}

/// URL-decoding is the identity on ASCII paths without a percent sign.
pub proof fn lemma_url_decode_ascii_identity(s: &str)
    requires
        vstd::string::is_ascii(s),
        forall|i: int| 0 <= i < s@.len() ==> s@[i] != '%',
    ensures
        spec_url_decode(s.spec_bytes()) == s.spec_bytes(),
        valid_utf8(spec_url_decode(s.spec_bytes())),
        decode_utf8(spec_url_decode(s.spec_bytes())) == s@,
{
    vstd::string::is_ascii_spec_bytes(s);
    assert(forall|i: int| 0 <= i < s.spec_bytes().len() ==> s.spec_bytes()[i] != 37) by {
        assert(forall|i: int| 0 <= i < s@.len() ==> #[trigger] s.spec_bytes()[i] == s@[i] as u8);
    }
    lemma_url_decode_identity(s.spec_bytes());
    vstd::utf8::encode_utf8_valid_utf8(s@);
    vstd::utf8::encode_utf8_decode_utf8(s@);
}

/// The decoded, slash-anchored form of a verb URL: URL-decode, then ensure a
/// leading `/`.
pub open spec fn spec_dav_path(s: Seq<u8>) -> Seq<u8> {
    let d = spec_url_decode(s);
    if d.len() >= 1 && d[0] == 47 {
        d
    } else {
        seq![47u8] + d
    }
}

/// Converts the URL string of a DAV verb to a clean decoded path with a
/// leading slash, as the remote filesystem expects it. When the
/// percent-decoded bytes are not valid UTF-8, the decode falls back to the
/// input, which is then slash-anchored unchanged.
pub fn dav_path_to_string(url_path: &str) -> (r: String)
    ensures
        valid_utf8(spec_url_decode(url_path.spec_bytes())) ==> encode_utf8(r@) == spec_dav_path(
            url_path.spec_bytes(),
        ),
        !valid_utf8(spec_url_decode(url_path.spec_bytes())) ==> encode_utf8(r@) == ({
            let pb = url_path.spec_bytes();
            if pb.len() >= 1 && pb[0] == 47 {
                pb
            } else {
                seq![47u8] + pb
            }
        }),
{
    let decoded = url_decode(url_path);
    let db = decoded.as_str().as_bytes();
    if db.len() >= 1 && db[0] == 47 {
        decoded
    } else {
        let mut prefixed: Vec<u8> = Vec::new();
        prefixed.push(47);
        let mut k: usize = 0;
        while k < db.len()
            invariant
                0 <= k <= db@.len(),
                prefixed@ == seq![47u8] + db@.subrange(0, k as int),
            decreases db@.len() - k,
        {
            prefixed.push(db[k]);
            proof {
                assert(seq![47u8] + db@.subrange(0, k + 1) =~= (seq![47u8] + db@.subrange(
                    0,
                    k as int,
                )).push(db@[k as int]));
            }
            k += 1;
        }
        proof {
            assert(db@.subrange(0, db@.len() as int) =~= db@);
        }
        let ghost pb = prefixed@;
        proof {
            // both the decoded bytes and the fallback (the input itself) are
            // a string's bytes, so the slash-prefixed result is valid UTF-8
            assert(pb =~= seq![47u8] + encode_utf8(decoded@));
            vstd::utf8::encode_utf8_valid_utf8(decoded@);
            lemma_slash_prefix_valid(encode_utf8(decoded@));
        }
        match outside::vec_to_string(prefixed) {
            Some(t) => {
                proof {
                    vstd::utf8::decode_utf8_encode_utf8(pb);
                }
                t
            },
            None => {
                proof {
                    assert(false);
                }
                decoded
            },
        }
    }
}

/// Prepending an ASCII slash keeps a byte sequence valid UTF-8.
proof fn lemma_slash_prefix_valid(b: Seq<u8>)
    requires
        valid_utf8(b),
    ensures
        valid_utf8(seq![47u8] + b),
{
    let sl = seq![47u8];
    lemma_ascii_bytes(sl);
    vstd::utf8::valid_utf8_concat(sl, b);
}

} // verus!
