//! Base64 codec used for file payloads on the relay socket and for PEM
//! decoding of cached TLS material. Decoding is lenient the way the protocol
//! needs it: padding and line breaks are skipped, and any byte outside the
//! alphabet is dropped from its 4-byte group.

use vstd::prelude::*;
use vstd::utf8::encode_utf8;
use crate::strutil::{ascii_seq, ascii_to_string, bytes_as_chars};
use vstd::string::StringSliceAdditionalSpecFns;

verus! {

/// The alphabet byte that encodes the 6-bit value `v`.
pub open spec fn b64_byte_of(v: u8) -> u8
    recommends
        v < 64,
{
    if v < 26 {
        (65 + v) as u8  // 'A'..='Z'
    } else if v < 52 {
        (97 + (v - 26)) as u8  // 'a'..='z'
    } else if v < 62 {
        (48 + (v - 52)) as u8  // '0'..='9'
    } else if v == 62 {
        43u8  // '+'
    } else {
        47u8  // '/'
    }
}

/// Whether `b` is a byte of the standard base64 alphabet.
pub open spec fn is_b64_byte(b: u8) -> bool {
    (65 <= b <= 90) || (97 <= b <= 122) || (48 <= b <= 57) || b == 43 || b == 47
}

/// The 6-bit value of an alphabet byte.
pub open spec fn b64_val(b: u8) -> u8
    recommends
        is_b64_byte(b),
{
    if 65 <= b <= 90 {
        (b - 65) as u8
    } else if 97 <= b <= 122 {
        (b - 97 + 26) as u8
    } else if 48 <= b <= 57 {
        (b - 48 + 52) as u8
    } else if b == 43 {
        62u8
    } else {
        63u8
    }
}

proof fn lemma_vals_bounded(b0: u8, b1: u8, b2: u8)
    ensures
        (b0 >> 2) < 64,
        (((b0 & 3) << 4) | (b1 >> 4)) < 64,
        (((b1 & 15) << 2) | (b2 >> 6)) < 64,
        (b2 & 63) < 64,
{
    assert((b0 >> 2) < 64) by (bit_vector);
    assert((((b0 & 3) << 4) | (b1 >> 4)) < 64) by (bit_vector);
    assert((((b1 & 15) << 2) | (b2 >> 6)) < 64) by (bit_vector);
    assert((b2 & 63) < 64) by (bit_vector);
}

proof fn lemma_b64_byte_val(v: u8)
    requires
        v < 64,
    ensures
        is_b64_byte(b64_byte_of(v)),
        b64_val(b64_byte_of(v)) == v,
        b64_byte_of(v) != 61 && b64_byte_of(v) != 10 && b64_byte_of(v) != 13 && b64_byte_of(v)
            != 32,
        b64_byte_of(v) < 0x80,
{
}

/// The four output bytes for one input group of one to three bytes,
/// right-padded with `=` (61).
pub open spec fn enc_group(c: Seq<u8>) -> Seq<u8>
    recommends
        1 <= c.len() <= 3,
{
    let b0 = c[0];
    let b1: u8 = if c.len() > 1 {
        c[1]
    } else {
        0
    };
    let b2: u8 = if c.len() > 2 {
        c[2]
    } else {
        0
    };
    let o0 = b64_byte_of(b0 >> 2);
    let o1 = b64_byte_of(((b0 & 3) << 4) | (b1 >> 4));
    let o2: u8 = if c.len() > 1 {
        b64_byte_of(((b1 & 15) << 2) | (b2 >> 6))
    } else {
        61u8
    };
    let o3: u8 = if c.len() > 2 {
        b64_byte_of(b2 & 63)
    } else {
        61u8
    };
    seq![o0, o1, o2, o3]
}

/// Base64 encoding of a byte sequence, group by group.
pub open spec fn spec_b64_encode(s: Seq<u8>) -> Seq<u8>
    decreases s.len(),
{
    if s.len() == 0 {
        Seq::empty()
    } else if s.len() <= 3 {
        enc_group(s)
    } else {
        enc_group(s.subrange(0, 3)) + spec_b64_encode(s.skip(3))
    }
}

/// Bytes a decoder keeps before grouping: everything except `=`, newlines
/// and (for the PEM variant) spaces.
pub open spec fn keep_b64(b: u8, drop_space: bool) -> bool {
    b != 61 && b != 10 && b != 13 && !(drop_space && b == 32)
}

/// The input with padding and line-break bytes removed.
pub open spec fn strip_pad(s: Seq<u8>, drop_space: bool) -> Seq<u8>
    decreases s.len(),
{
    if s.len() == 0 {
        Seq::empty()
    } else {
        (if keep_b64(s[0], drop_space) {
            seq![s[0]]
        } else {
            Seq::<u8>::empty()
        }) + strip_pad(s.drop_first(), drop_space)
    }
}

/// The 6-bit values of the alphabet bytes of one group, in order; bytes
/// outside the alphabet are dropped.
pub open spec fn chunk_vals(c: Seq<u8>) -> Seq<u8>
    decreases c.len(),
{
    if c.len() == 0 {
        Seq::empty()
    } else {
        (if is_b64_byte(c[0]) {
            seq![b64_val(c[0])]
        } else {
            Seq::<u8>::empty()
        }) + chunk_vals(c.drop_first())
    }
}

/// The bytes reconstructed from the 6-bit values of one group.
pub open spec fn emit_vals(vals: Seq<u8>) -> Seq<u8> {
    if vals.len() >= 4 {
        seq![
            ((vals[0] << 2) | (vals[1] >> 4)) as u8,
            ((vals[1] << 4) | (vals[2] >> 2)) as u8,
            ((vals[2] << 6) | vals[3]) as u8,
        ]
    } else if vals.len() == 3 {
        seq![((vals[0] << 2) | (vals[1] >> 4)) as u8, ((vals[1] << 4) | (vals[2] >> 2)) as u8]
    } else if vals.len() == 2 {
        seq![((vals[0] << 2) | (vals[1] >> 4)) as u8]
    } else {
        Seq::empty()
    }
}

/// Decoding of an already-stripped input, 4-byte group by 4-byte group.
pub open spec fn decode_groups(s: Seq<u8>) -> Seq<u8>
    decreases s.len(),
{
    if s.len() == 0 {
        Seq::empty()
    } else if s.len() <= 4 {
        emit_vals(chunk_vals(s))
    } else {
        emit_vals(chunk_vals(s.subrange(0, 4))) + decode_groups(s.skip(4))
    }
}

/// Base64 decoding as the socket payload codec performs it.
pub open spec fn spec_b64_decode(s: Seq<u8>) -> Seq<u8> {
    decode_groups(strip_pad(s, false))
}

/// Base64 decoding as the PEM reader performs it (spaces also skipped).
pub open spec fn spec_b64_decode_simple(s: Seq<u8>) -> Seq<u8> {
    decode_groups(strip_pad(s, true))
}

proof fn lemma_strip_pad_add(a: Seq<u8>, b: Seq<u8>, ds: bool)
    ensures
        strip_pad(a + b, ds) == strip_pad(a, ds) + strip_pad(b, ds),
    decreases a.len(),
{
    if a.len() == 0 {
        assert(a + b =~= b);
        assert(strip_pad(a, ds) + strip_pad(b, ds) =~= strip_pad(b, ds));
    } else {
        assert((a + b).drop_first() =~= a.drop_first() + b);
        lemma_strip_pad_add(a.drop_first(), b, ds);
        assert(strip_pad(a + b, ds) =~= strip_pad(a, ds) + strip_pad(b, ds));
    }
}

/// Unfolds `strip_pad` on one group produced by the encoder.
proof fn lemma_strip_enc_group(c: Seq<u8>, ds: bool)
    requires
        1 <= c.len() <= 3,
    ensures
        strip_pad(enc_group(c), ds) == enc_group(c).subrange(0, c.len() as int + 1),
{
    let g = enc_group(c);
    let b0 = c[0];
    let b1: u8 = if c.len() > 1 { c[1] } else { 0 };
    let b2: u8 = if c.len() > 2 { c[2] } else { 0 };
    lemma_vals_bounded(b0, b1, b2);
    lemma_b64_byte_val(b0 >> 2);
    lemma_b64_byte_val(((b0 & 3) << 4) | (b1 >> 4));
    if c.len() > 1 {
        lemma_b64_byte_val(((b1 & 15) << 2) | (b2 >> 6));
    }
    if c.len() > 2 {
        lemma_b64_byte_val(b2 & 63);
    }
    reveal_with_fuel(strip_pad, 6);
    assert(g.drop_first() =~= seq![g[1], g[2], g[3]]);
    assert(g.drop_first().drop_first() =~= seq![g[2], g[3]]);
    assert(g.drop_first().drop_first().drop_first() =~= seq![g[3]]);
    assert(seq![g[3]].drop_first() =~= Seq::<u8>::empty());
    assert(strip_pad(g, ds) =~= g.subrange(0, c.len() as int + 1));
}

/// Unfolds `chunk_vals` on the kept bytes of one encoded group.
proof fn lemma_chunk_vals_enc(c: Seq<u8>)
    requires
        1 <= c.len() <= 3,
    ensures
        chunk_vals(enc_group(c).subrange(0, c.len() as int + 1)) == ({
            let b0 = c[0];
            let b1: u8 = if c.len() > 1 { c[1] } else { 0 };
            let b2: u8 = if c.len() > 2 { c[2] } else { 0 };
            let v0 = b0 >> 2;
            let v1 = ((b0 & 3) << 4) | (b1 >> 4);
            let v2 = ((b1 & 15) << 2) | (b2 >> 6);
            let v3 = b2 & 63;
            if c.len() == 1 {
                seq![v0, v1]
            } else if c.len() == 2 {
                seq![v0, v1, v2]
            } else {
                seq![v0, v1, v2, v3]
            }
        }),
{
    reveal_with_fuel(chunk_vals, 6);
    let g = enc_group(c);
    let s = g.subrange(0, c.len() as int + 1);
    let b0 = c[0];
    let b1: u8 = if c.len() > 1 { c[1] } else { 0 };
    let b2: u8 = if c.len() > 2 { c[2] } else { 0 };
    lemma_vals_bounded(b0, b1, b2);
    lemma_b64_byte_val(b0 >> 2);
    lemma_b64_byte_val(((b0 & 3) << 4) | (b1 >> 4));
    if c.len() > 1 {
        lemma_b64_byte_val(((b1 & 15) << 2) | (b2 >> 6));
    }
    if c.len() > 2 {
        lemma_b64_byte_val(b2 & 63);
    }
    if c.len() == 1 {
        assert(s =~= seq![g[0], g[1]]);
        assert(s.drop_first() =~= seq![g[1]]);
        assert(seq![g[1]].drop_first() =~= Seq::<u8>::empty());
        assert(chunk_vals(s) =~= seq![b64_val(g[0]), b64_val(g[1])]);
    } else if c.len() == 2 {
        assert(s =~= seq![g[0], g[1], g[2]]);
        assert(s.drop_first() =~= seq![g[1], g[2]]);
        assert(s.drop_first().drop_first() =~= seq![g[2]]);
        assert(seq![g[2]].drop_first() =~= Seq::<u8>::empty());
        assert(chunk_vals(s) =~= seq![b64_val(g[0]), b64_val(g[1]), b64_val(g[2])]);
    } else {
        assert(s =~= seq![g[0], g[1], g[2], g[3]]);
        assert(s.drop_first() =~= seq![g[1], g[2], g[3]]);
        assert(s.drop_first().drop_first() =~= seq![g[2], g[3]]);
        assert(s.drop_first().drop_first().drop_first() =~= seq![g[3]]);
        assert(seq![g[3]].drop_first() =~= Seq::<u8>::empty());
        assert(chunk_vals(s) =~= seq![b64_val(g[0]), b64_val(g[1]), b64_val(g[2]), b64_val(
            g[3],
        )]);
    }
}

proof fn lemma_bits_roundtrip(b0: u8, b1: u8, b2: u8)
    ensures
        (((b0 >> 2) << 2) | ((((b0 & 3) << 4) | (b1 >> 4)) >> 4)) == b0,
        (((((b0 & 3) << 4) | (b1 >> 4)) << 4) | (((((b1 & 15) << 2) | (b2 >> 6))) >> 2)) == b1,
        (((((b1 & 15) << 2) | (b2 >> 6)) << 6) | (b2 & 63)) == b2,
{
    assert((((b0 >> 2) << 2) | ((((b0 & 3) << 4) | (b1 >> 4)) >> 4)) == b0) by (bit_vector);
    assert((((((b0 & 3) << 4) | (b1 >> 4)) << 4) | (((((b1 & 15) << 2) | (b2 >> 6))) >> 2))
        == b1) by (bit_vector);
    assert((((((b1 & 15) << 2) | (b2 >> 6)) << 6) | (b2 & 63)) == b2) by (bit_vector);
}

/// One encoded group decodes back to its source bytes.
proof fn lemma_group_roundtrip(c: Seq<u8>, ds: bool)
    requires
        1 <= c.len() <= 3,
    ensures
        emit_vals(chunk_vals(strip_pad(enc_group(c), ds))) == c,
{
    lemma_strip_enc_group(c, ds);
    lemma_chunk_vals_enc(c);
    let b0 = c[0];
    let b1: u8 = if c.len() > 1 { c[1] } else { 0 };
    let b2: u8 = if c.len() > 2 { c[2] } else { 0 };
    lemma_bits_roundtrip(b0, b1, b2);
    if c.len() == 1 {
        assert(b1 == 0 && b2 == 0);
        assert(emit_vals(chunk_vals(strip_pad(enc_group(c), ds))) =~= c);
    } else if c.len() == 2 {
        assert(b2 == 0);
        assert(emit_vals(chunk_vals(strip_pad(enc_group(c), ds))) =~= c);
    } else {
        assert(emit_vals(chunk_vals(strip_pad(enc_group(c), ds))) =~= c);
    }
}

/// Appending one final group to encoded output.
proof fn lemma_encode_append_group(s: Seq<u8>, t: Seq<u8>)
    requires
        s.len() % 3 == 0,
        1 <= t.len() <= 3,
    ensures
        spec_b64_encode(s + t) == spec_b64_encode(s) + enc_group(t),
    decreases s.len(),
{
    if s.len() == 0 {
        assert(s + t =~= t);
        assert(spec_b64_encode(s) + enc_group(t) =~= enc_group(t));
    } else {
        assert((s + t).subrange(0, 3) =~= s.subrange(0, 3));
        assert((s + t).skip(3) =~= s.skip(3) + t);
        lemma_encode_append_group(s.skip(3), t);
        assert(spec_b64_encode(s + t) =~= spec_b64_encode(s) + enc_group(t));
    }
}

/// Every encoded byte is ASCII.
pub proof fn lemma_encode_ascii(s: Seq<u8>)
    ensures
        ascii_seq(spec_b64_encode(s)),
    decreases s.len(),
{
    if s.len() == 0 {
    } else if s.len() <= 3 {
        let b0 = s[0];
        let b1: u8 = if s.len() > 1 { s[1] } else { 0 };
        let b2: u8 = if s.len() > 2 { s[2] } else { 0 };
        lemma_vals_bounded(b0, b1, b2);
        lemma_b64_byte_val(b0 >> 2);
        lemma_b64_byte_val(((b0 & 3) << 4) | (b1 >> 4));
        if s.len() > 1 {
            lemma_b64_byte_val(((b1 & 15) << 2) | (b2 >> 6));
        }
        if s.len() > 2 {
            lemma_b64_byte_val(b2 & 63);
        }
    } else {
        lemma_encode_ascii(s.skip(3));
        let c = s.subrange(0, 3);
        lemma_vals_bounded(c[0], c[1], c[2]);
        lemma_b64_byte_val(c[0] >> 2);
        lemma_b64_byte_val(((c[0] & 3) << 4) | (c[1] >> 4));
        lemma_b64_byte_val(((c[1] & 15) << 2) | (c[2] >> 6));
        lemma_b64_byte_val(c[2] & 63);
    }
}

/// Decoding an encoding yields the original bytes, whichever skip set the
/// decoder uses.
pub proof fn lemma_b64_roundtrip_general(data: Seq<u8>, ds: bool)
    ensures
        decode_groups(strip_pad(spec_b64_encode(data), ds)) == data,
    decreases data.len(),
{
    if data.len() == 0 {
        assert(strip_pad(spec_b64_encode(data), ds) =~= Seq::<u8>::empty());
    } else if data.len() <= 3 {
        lemma_group_roundtrip(data, ds);
        lemma_strip_enc_group(data, ds);
        let stripped = strip_pad(spec_b64_encode(data), ds);
        assert(stripped.len() == data.len() + 1 <= 4);
    } else {
        let c = data.subrange(0, 3);
        let rest = data.skip(3);
        lemma_strip_pad_add(enc_group(c), spec_b64_encode(rest), ds);
        lemma_strip_enc_group(c, ds);
        assert(strip_pad(enc_group(c), ds) =~= enc_group(c));
        let tail = strip_pad(spec_b64_encode(rest), ds);
        let whole = strip_pad(spec_b64_encode(data), ds);
        assert(whole =~= enc_group(c) + tail);
        lemma_b64_roundtrip_general(rest, ds);
        // tail is the stripped encoding of a nonempty sequence, so it is nonempty
        lemma_strip_enc_len(rest, ds);
        assert(whole.len() > 4);
        assert(whole.subrange(0, 4) =~= enc_group(c));
        assert(whole.skip(4) =~= tail);
        lemma_group_roundtrip(c, ds);
        lemma_chunk_vals_enc(c);
        assert(decode_groups(whole) =~= c + rest);
        assert(c + rest =~= data);
    }
}

/// The stripped encoding of a nonempty input has more than one byte.
proof fn lemma_strip_enc_len(data: Seq<u8>, ds: bool)
    requires
        data.len() >= 1,
    ensures
        strip_pad(spec_b64_encode(data), ds).len() >= 2,
    decreases data.len(),
{
    if data.len() <= 3 {
        lemma_strip_enc_group(data, ds);
    } else {
        let c = data.subrange(0, 3);
        let rest = data.skip(3);
        lemma_strip_pad_add(enc_group(c), spec_b64_encode(rest), ds);
        lemma_strip_enc_group(c, ds);
    }
}

/// Base64 encode then decode is the identity on every byte sequence.
pub proof fn lemma_b64_roundtrip(data: Seq<u8>)
    ensures
        spec_b64_decode(spec_b64_encode(data)) == data,
        spec_b64_decode_simple(spec_b64_encode(data)) == data,
{
    lemma_b64_roundtrip_general(data, false);
    lemma_b64_roundtrip_general(data, true);
}

/// 6-bit value to alphabet byte.
fn b64_byte_exec(v: u8) -> (r: u8)
    requires
        v < 64,
    ensures
        r == b64_byte_of(v),
{
    if v < 26 {
        65 + v
    } else if v < 52 {
        97 + (v - 26)
    } else if v < 62 {
        48 + (v - 52)
    } else if v == 62 {
        43
    } else {
        47
    }
}

/// Alphabet byte to 6-bit value; `None` off the alphabet.
pub fn hex_to_b64_val(b: u8) -> (r: Option<u8>)
    ensures
        r is Some <==> is_b64_byte(b),
        r matches Some(v) ==> v == b64_val(b) && v < 64,
{
    if 65 <= b && b <= 90 {
        Some(b - 65)
    } else if 97 <= b && b <= 122 {
        Some(b - 97 + 26)
    } else if 48 <= b && b <= 57 {
        Some(b - 48 + 52)
    } else if b == 43 {
        Some(62)
    } else if b == 47 {
        Some(63)
    } else {
        None
    }
}

/// Drops padding, line breaks and (for the PEM variant) spaces.
fn filter_b64_input(s: &[u8], drop_space: bool) -> (r: Vec<u8>)
    ensures
        r@ == strip_pad(s@, drop_space),
{
    let mut out: Vec<u8> = Vec::new();
    let mut i: usize = 0;
    proof {
        assert(s@.subrange(0, 0) =~= Seq::<u8>::empty());
    }
    while i < s.len()
        invariant
            0 <= i <= s@.len(),
            out@ == strip_pad(s@.subrange(0, i as int), drop_space),
        decreases s@.len() - i,
    {
        let b = s[i];
        proof {
            reveal_with_fuel(strip_pad, 3);
            assert(s@.subrange(0, i + 1) =~= s@.subrange(0, i as int) + seq![s@[i as int]]);
            lemma_strip_pad_add(s@.subrange(0, i as int), seq![s@[i as int]], drop_space);
            assert(seq![s@[i as int]].drop_first() =~= Seq::<u8>::empty());
            if keep_b64(s@[i as int], drop_space) {
                assert(strip_pad(seq![s@[i as int]], drop_space) =~= seq![s@[i as int]]);
            } else {
                assert(strip_pad(seq![s@[i as int]], drop_space) =~= Seq::<u8>::empty());
            }
        }
        if b != 61 && b != 10 && b != 13 && !(drop_space && b == 32) {
            out.push(b);
        }
        i += 1;
    }
    proof {
        assert(s@.subrange(0, s@.len() as int) =~= s@);
    }
    out
}

/// Decodes a stream already stripped of padding and breaks, four bytes a
/// group.
fn decode_filtered(f: &Vec<u8>) -> (r: Vec<u8>)
    ensures
        r@ == decode_groups(f@),
{
    let n = f.len();
    let mut out: Vec<u8> = Vec::new();
    let mut i: usize = 0;
    proof {
        assert(f@.skip(0) =~= f@);
        assert(decode_groups(f@) =~= out@ + decode_groups(f@.skip(0)));
    }
    while i < n
        invariant
            0 <= i <= f@.len(),
            n == f@.len(),
            i % 4 == 0 || i == f@.len(),
            decode_groups(f@) == out@ + decode_groups(f@.skip(i as int)),
        decreases f@.len() - i,
    {
        let glen: usize = if n - i < 4 {
            n - i
        } else {
            4
        };
        let mut vals: Vec<u8> = Vec::new();
        let mut j: usize = 0;
        while j < glen
            invariant
                0 <= j <= glen,
                i + glen <= f@.len(),
                n == f@.len(),
                glen <= 4,
                vals@ == chunk_vals(f@.subrange(i as int, i + j)),
                forall|k: int| 0 <= k < vals@.len() ==> vals@[k] < 64,
            decreases glen - j,
        {
            proof {
                reveal_with_fuel(chunk_vals, 3);
                assert(f@.subrange(i as int, i + j + 1) =~= f@.subrange(i as int, i + j) + seq![
                    f@[i + j],
                ]);
                lemma_chunk_vals_add(f@.subrange(i as int, i + j), seq![f@[i + j]]);
                assert(seq![f@[i + j]].drop_first() =~= Seq::<u8>::empty());
                if is_b64_byte(f@[i + j]) {
                    assert(chunk_vals(seq![f@[i + j]]) =~= seq![b64_val(f@[i + j])]);
                } else {
                    assert(chunk_vals(seq![f@[i + j]]) =~= Seq::<u8>::empty());
                }
            }
            match hex_to_b64_val(f[i + j]) {
                Some(v) => {
                    vals.push(v);
                },
                None => {},
            }
            j += 1;
        }
        let ghost group = f@.subrange(i as int, i + glen as int);
        if vals.len() >= 2 {
            out.push((vals[0] << 2u8) | (vals[1] >> 4u8));
        }
        if vals.len() >= 3 {
            out.push((vals[1] << 4u8) | (vals[2] >> 2u8));
        }
        if vals.len() >= 4 {
            out.push((vals[2] << 6u8) | vals[3]);
        }
        proof {
            lemma_decode_groups_step(f@.skip(i as int));
            assert(f@.skip(i as int).subrange(0, glen as int) =~= group);
            assert(f@.skip(i as int).skip(glen as int) =~= f@.skip(i + glen));
        }
        i += glen;
    }
    proof {
        assert(f@.skip(i as int) =~= Seq::<u8>::empty());
        assert(out@ =~= out@ + decode_groups(f@.skip(i as int)));
    }
    out
}

proof fn lemma_chunk_vals_add(a: Seq<u8>, b: Seq<u8>)
    ensures
        chunk_vals(a + b) == chunk_vals(a) + chunk_vals(b),
    decreases a.len(),
{
    if a.len() == 0 {
        assert(a + b =~= b);
        assert(chunk_vals(a) + chunk_vals(b) =~= chunk_vals(b));
    } else {
        assert((a + b).drop_first() =~= a.drop_first() + b);
        lemma_chunk_vals_add(a.drop_first(), b);
        assert(chunk_vals(a + b) =~= chunk_vals(a) + chunk_vals(b));
    }
}

/// Front-group unfolding of `decode_groups`.
proof fn lemma_decode_groups_step(s: Seq<u8>)
    requires
        s.len() >= 1,
    ensures
        decode_groups(s) == emit_vals(chunk_vals(s.subrange(0, if s.len() <= 4 {
            s.len() as int
        } else {
            4
        }))) + decode_groups(s.skip(if s.len() <= 4 {
            s.len() as int
        } else {
            4
        })),
{
    if s.len() <= 4 {
        assert(s.subrange(0, s.len() as int) =~= s);
        assert(s.skip(s.len() as int) =~= Seq::<u8>::empty());
        assert(emit_vals(chunk_vals(s)) + decode_groups(Seq::<u8>::empty()) =~= emit_vals(
            chunk_vals(s),
        ));
    }
}

/// Base64 encoding of raw bytes; the protocol puts file payloads on the
/// socket in this form.
pub fn base64_encode(data: &[u8]) -> (r: String)
    ensures
        encode_utf8(r@) == spec_b64_encode(data@),
        r@ == bytes_as_chars(spec_b64_encode(data@)),
{
    let mut out: Vec<u8> = Vec::new();
    let mut i: usize = 0;
    proof {
        assert(data@.subrange(0, 0) =~= Seq::<u8>::empty());
    }
    while i < data.len()
        invariant
            0 <= i <= data@.len(),
            i % 3 == 0 || i == data@.len(),
            out@ == spec_b64_encode(data@.subrange(0, i as int)),
        decreases data@.len() - i,
    {
        let glen: usize = if data.len() - i < 3 {
            data.len() - i
        } else {
            3
        };
        let b0 = data[i];
        let b1: u8 = if glen > 1 {
            data[i + 1]
        } else {
            0
        };
        let b2: u8 = if glen > 2 {
            data[i + 2]
        } else {
            0
        };
        proof {
            lemma_vals_bounded(b0, b1, b2);
        }
        out.push(b64_byte_exec(b0 >> 2u8));
        out.push(b64_byte_exec(((b0 & 3) << 4u8) | (b1 >> 4u8)));
        if glen > 1 {
            out.push(b64_byte_exec(((b1 & 15) << 2u8) | (b2 >> 6u8)));
        } else {
            out.push(61);
        }
        if glen > 2 {
            out.push(b64_byte_exec(b2 & 63));
        } else {
            out.push(61);
        }
        proof {
            let ghost group = data@.subrange(i as int, i + glen as int);
            assert(data@.subrange(0, i + glen) =~= data@.subrange(0, i as int) + group);
            lemma_encode_append_group(data@.subrange(0, i as int), group);
            assert(enc_group(group) =~= seq![
                b64_byte_of(group[0] >> 2),
                b64_byte_of(((group[0] & 3) << 4) | ((if glen > 1 {
                    group[1]
                } else {
                    0
                }) >> 4)),
                (if glen > 1 {
                    b64_byte_of(((group[1] & 15) << 2) | ((if glen > 2 {
                        group[2]
                    } else {
                        0
                    }) >> 6))
                } else {
                    61u8
                }),
                (if glen > 2 {
                    b64_byte_of(group[2] & 63)
                } else {
                    61u8
                }),
            ]);
            assert(out@ =~= spec_b64_encode(data@.subrange(0, i + glen)));
        }
        i += glen;
    }
    proof {
        assert(data@.subrange(0, data@.len() as int) =~= data@);
        lemma_encode_ascii(data@);
    }
    ascii_to_string(out)
}

/// Base64 decoding of a socket payload string: padding and line breaks are
/// skipped, other non-alphabet bytes fall out of their group.
pub fn base64_decode(s: &str) -> (r: Vec<u8>)
    ensures
        r@ == spec_b64_decode(s.spec_bytes()),
{
    let bytes = s.as_bytes();
    let filtered = filter_b64_input(bytes, false);
    decode_filtered(&filtered)
}

/// Base64 decoding as used on PEM bodies: like `base64_decode` but spaces are
/// skipped too.
pub fn base64_decode_simple(s: &str) -> (r: Vec<u8>)
    ensures
        r@ == spec_b64_decode_simple(s.spec_bytes()),
{
    base64_decode_simple_bytes(s.as_bytes())
}

/// The PEM decoder over raw bytes.
pub fn base64_decode_simple_bytes(s: &[u8]) -> (r: Vec<u8>)
    ensures
        r@ == spec_b64_decode_simple(s@),
{
    let filtered = filter_b64_input(s, true);
    decode_filtered(&filtered)
}

} // verus!
