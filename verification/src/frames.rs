//! The socket protocol's outbound frames: JSON string escaping and the exact
//! byte shape of every frame the relay writes (object keys in the sorted
//! order a JSON serialiser emits them).

use vstd::prelude::*;
use vstd::string::StringSliceAdditionalSpecFns;
use vstd::utf8::*;
use crate::outside;
use crate::strutil::ascii_seq;

verus! {

/// A lower-case hexadecimal digit byte.
pub open spec fn hex_digit_byte(v: u8) -> u8
    recommends
        v < 16,
{
    if v < 10 {
        (48 + v) as u8
    } else {
        (97 + (v - 10)) as u8
    }
}

/// How one byte of a string is written inside a JSON string literal: quote
/// and backslash get a backslash, the named control characters their short
/// escapes, other control bytes a `\u00XX` escape, and everything else (all
/// non-ASCII bytes included) passes through.
pub open spec fn json_esc_byte(b: u8) -> Seq<u8> {
    if b == 34 {
        seq![92u8, 34u8]
    } else if b == 92 {
        seq![92u8, 92u8]
    } else if b == 8 {
        seq![92u8, 98u8]
    } else if b == 12 {
        seq![92u8, 102u8]
    } else if b == 10 {
        seq![92u8, 110u8]
    } else if b == 13 {
        seq![92u8, 114u8]
    } else if b == 9 {
        seq![92u8, 116u8]
    } else if b < 32 {
        seq![92u8, 117u8, 48u8, 48u8, hex_digit_byte(b >> 4), hex_digit_byte(b & 15)]
    } else {
        seq![b]
    }
}

/// The escape map as a function value, shared by the spec and the lemmas.
pub open spec fn json_esc_fn() -> spec_fn(u8) -> Seq<u8> {
    |b: u8| json_esc_byte(b)
}

/// Maps each byte through `f` and concatenates the results.
pub open spec fn byte_map(s: Seq<u8>, f: spec_fn(u8) -> Seq<u8>) -> Seq<u8>
    decreases s.len(),
{
    if s.len() == 0 {
        Seq::empty()
    } else {
        f(s[0]) + byte_map(s.skip(1), f)
    }
}

/// The escaped body of a JSON string literal.
pub open spec fn spec_json_escape(s: Seq<u8>) -> Seq<u8> {
    byte_map(s, json_esc_fn())
}

pub proof fn lemma_byte_map_add(a: Seq<u8>, b: Seq<u8>, f: spec_fn(u8) -> Seq<u8>)
    ensures
        byte_map(a + b, f) == byte_map(a, f) + byte_map(b, f),
    decreases a.len(),
{
    if a.len() == 0 {
        assert(a + b =~= b);
        assert(byte_map(a, f) + byte_map(b, f) =~= byte_map(b, f));
    } else {
        assert((a + b).skip(1) =~= a.skip(1) + b);
        lemma_byte_map_add(a.skip(1), b, f);
        assert(byte_map(a + b, f) =~= byte_map(a, f) + byte_map(b, f));
    }
}

/// A byte map that leaves non-ASCII bytes alone and sends ASCII bytes to
/// ASCII sequences keeps UTF-8 validity.
pub proof fn lemma_byte_map_valid(s: Seq<u8>, f: spec_fn(u8) -> Seq<u8>)
    requires
        valid_utf8(s),
        forall|b: u8| b >= 0x80 ==> #[trigger] f(b) == seq![b],
        forall|b: u8| b < 0x80 ==> ascii_seq(#[trigger] f(b)),
    ensures
        valid_utf8(byte_map(s, f)),
    decreases s.len(),
{
    if s.len() == 0 {
    } else {
        assert(valid_first_scalar(s) && valid_utf8(pop_first_scalar(s)));
        let w = length_of_first_scalar(s);
        let head = take_first_scalar(s);
        let tail = pop_first_scalar(s);
        assert(1 <= w <= 4);
        assert(s =~= head + tail);
        lemma_byte_map_add(head, tail, f);
        lemma_byte_map_valid(tail, f);
        let s0 = s[0];
        if w == 1 {
            assert(head =~= seq![s[0]]);
            assert(byte_map(head, f) =~= f(s[0]) + byte_map(seq![s[0]].skip(1), f));
            assert(seq![s[0]].skip(1) =~= Seq::<u8>::empty());
            assert(byte_map(head, f) =~= f(s[0]));
            assert(is_leading_byte_width_1(s0));
            assert(s0 < 0x80) by {
                assert(s0 & 0x80 == 0 ==> s0 < 0x80) by (bit_vector);
            }
            crate::strutil::lemma_ascii_bytes(f(s0));
            valid_utf8_concat(byte_map(head, f), byte_map(tail, f));
        } else {
            // every byte of a multi-byte scalar is at or above 0x80: the
            // leading byte by its bit pattern, the continuations likewise
            assert forall|i: int| 0 <= i < head.len() implies #[trigger] f(head[i]) == seq![
                head[i],
            ] by {
                let si = s[i];
                assert(head[i] == s[i]);
                if i == 0 {
                    assert(is_leading_byte_width_2(si) || is_leading_byte_width_3(si)
                        || is_leading_byte_width_4(si));
                    assert((si & 0xe0 == 0xc0 || si & 0xf0 == 0xe0 || si & 0xf8 == 0xf0) ==> si
                        >= 0x80) by (bit_vector);
                } else {
                    assert(is_continuation_byte(si));
                    assert(si & 0xc0 == 0x80 ==> si >= 0x80) by (bit_vector);
                }
            }
            lemma_byte_map_identity(head, f);
            assert(valid_utf8(head)) by {
                assert(is_char_boundary(s, w)) by {
                    reveal_with_fuel(is_char_boundary, 2);
                }
                valid_utf8_split(s, w);
                assert(s.subrange(0, w) =~= head);
            }
            valid_utf8_concat(head, byte_map(tail, f));
        }
    }
}

/// `byte_map` is the identity on a sequence of untouched bytes.
proof fn lemma_byte_map_identity(s: Seq<u8>, f: spec_fn(u8) -> Seq<u8>)
    requires
        forall|i: int| 0 <= i < s.len() ==> #[trigger] f(s[i]) == seq![s[i]],
    ensures
        byte_map(s, f) == s,
    decreases s.len(),
{
    if s.len() > 0 {
        assert forall|i: int| 0 <= i < s.skip(1).len() implies #[trigger] f(s.skip(1)[i]) == seq![
            s.skip(1)[i],
        ] by {
            assert(s.skip(1)[i] == s[i + 1]);
        }
        lemma_byte_map_identity(s.skip(1), f);
        assert(byte_map(s, f) =~= s);
    }
}

/// The escape map touches only ASCII bytes and sends them to ASCII bytes.
proof fn lemma_esc_fn_shape()
    ensures
        forall|b: u8| b >= 0x80 ==> #[trigger] json_esc_fn()(b) == seq![b],
        forall|b: u8| b < 0x80 ==> ascii_seq(#[trigger] json_esc_fn()(b)),
{
    assert forall|b: u8| b >= 0x80 implies #[trigger] json_esc_fn()(b) == seq![b] by {
        assert(json_esc_fn()(b) == json_esc_byte(b));
    }
    assert forall|b: u8| b < 0x80 implies ascii_seq(#[trigger] json_esc_fn()(b)) by {
        assert(json_esc_fn()(b) == json_esc_byte(b));
        if b < 32 && b != 8 && b != 12 && b != 10 && b != 13 && b != 9 {
            assert((b >> 4) < 16 && (b & 15) < 16) by (bit_vector);
        }
    }
}

/// Escaping a string's bytes yields valid UTF-8.
pub proof fn lemma_escape_valid(s: &str)
    ensures
        valid_utf8(spec_json_escape(s.spec_bytes())),
{
    encode_utf8_valid_utf8(s@);
    lemma_esc_fn_shape();
    lemma_byte_map_valid(s.spec_bytes(), json_esc_fn());
}

/// Appends one ASCII byte, keeping the accumulated frame valid UTF-8.
fn push_ascii_byte(out: &mut Vec<u8>, b: u8)
    requires
        b < 0x80,
        valid_utf8(old(out)@),
    ensures
        final(out)@ == old(out)@ + seq![b],
        valid_utf8(final(out)@),
{
    let ghost pre = out@;
    out.push(b);
    proof {
        crate::strutil::lemma_ascii_bytes(seq![b]);
        valid_utf8_concat(pre, seq![b]);
        assert(out@ =~= pre + seq![b]);
    }
}

/// Appends the escaped bytes of `s`, keeping the accumulated frame valid.
fn push_json_escaped(out: &mut Vec<u8>, s: &str)
    requires
        valid_utf8(old(out)@),
    ensures
        final(out)@ == old(out)@ + spec_json_escape(s.spec_bytes()),
        valid_utf8(final(out)@),
{
    let bytes = s.as_bytes();
    let n = bytes.len();
    let mut i: usize = 0;
    let ghost base = out@;
    proof {
        assert(bytes@.subrange(0, 0) =~= Seq::<u8>::empty());
        assert(out@ =~= base + spec_json_escape(bytes@.subrange(0, 0)));
    }
    while i < n
        invariant
            0 <= i <= n,
            n == bytes@.len(),
            bytes@ == s.spec_bytes(),
            out@ == base + spec_json_escape(bytes@.subrange(0, i as int)),
        decreases n - i,
    {
        let b = bytes[i];
        proof {
            reveal_with_fuel(byte_map, 3);
            assert(bytes@.subrange(0, i + 1) =~= bytes@.subrange(0, i as int) + seq![
                bytes@[i as int],
            ]);
            lemma_byte_map_add(
                bytes@.subrange(0, i as int),
                seq![bytes@[i as int]],
                json_esc_fn(),
            );
            assert(seq![bytes@[i as int]].skip(1) =~= Seq::<u8>::empty());
            assert(json_esc_fn()(bytes@[i as int]) == json_esc_byte(bytes@[i as int]));
            assert(byte_map(seq![bytes@[i as int]], json_esc_fn()) =~= json_esc_byte(
                bytes@[i as int],
            ));
            assert((b >> 4) < 16 && (b & 15) < 16) by (bit_vector);
        }
        if b == 34 {
            out.push(92);
            out.push(34);
        } else if b == 92 {
            out.push(92);
            out.push(92);
        } else if b == 8 {
            out.push(92);
            out.push(98);
        } else if b == 12 {
            out.push(92);
            out.push(102);
        } else if b == 10 {
            out.push(92);
            out.push(110);
        } else if b == 13 {
            out.push(92);
            out.push(114);
        } else if b == 9 {
            out.push(92);
            out.push(116);
        } else if b < 32 {
            out.push(92);
            out.push(117);
            out.push(48);
            out.push(48);
            let hi = b >> 4u8;
            let lo = b & 15;
            out.push(
                if hi < 10 {
                    48 + hi
                } else {
                    97 + (hi - 10)
                },
            );
            out.push(
                if lo < 10 {
                    48 + lo
                } else {
                    97 + (lo - 10)
                },
            );
        } else {
            out.push(b);
        }
        proof {
            assert(out@ =~= base + spec_json_escape(bytes@.subrange(0, i + 1)));
        }
        i += 1;
    }
    proof {
        assert(bytes@.subrange(0, n as int) =~= bytes@);
        lemma_escape_valid(s);
        valid_utf8_concat(base, spec_json_escape(s.spec_bytes()));
    }
}

/// Turns the accumulated (valid) frame bytes into the frame string.
fn finish_frame(out: Vec<u8>) -> (r: String)
    requires
        valid_utf8(out@),
    ensures
        encode_utf8(r@) == out@,
{
    let ghost ob = out@;
    match outside::vec_to_string(out) {
        Some(t) => {
            proof {
                decode_utf8_encode_utf8(ob);
            }
            t
        },
        None => {
            proof {
                assert(false);
            }
            String::new()
        },
    }
}

/// The acknowledgement frame of a fresh registration:
/// `{"clientId":"<id>","type":"registered"}`.
pub open spec fn spec_ack_frame(client_id: Seq<u8>) -> Seq<u8> {
    seq![123u8, 34u8, 99u8, 108u8, 105u8, 101u8, 110u8, 116u8, 73u8, 100u8, 34u8, 58u8, 34u8]
        + spec_json_escape(client_id)
        + seq![34u8, 44u8, 34u8, 116u8, 121u8, 112u8, 101u8, 34u8, 58u8, 34u8, 114u8, 101u8, 103u8, 105u8, 115u8, 116u8, 101u8, 114u8, 101u8, 100u8, 34u8, 125u8]
}

#[verifier::rlimit(100)]
pub fn ack_frame(client_id: &str) -> (r: String)
    ensures
        encode_utf8(r@) == spec_ack_frame(client_id.spec_bytes()),
{
    let mut out: Vec<u8> = Vec::new();
    push_ascii_byte(&mut out, 123);
    push_ascii_byte(&mut out, 34);
    push_ascii_byte(&mut out, 99);
    push_ascii_byte(&mut out, 108);
    push_ascii_byte(&mut out, 105);
    push_ascii_byte(&mut out, 101);
    push_ascii_byte(&mut out, 110);
    push_ascii_byte(&mut out, 116);
    push_ascii_byte(&mut out, 73);
    push_ascii_byte(&mut out, 100);
    push_ascii_byte(&mut out, 34);
    push_ascii_byte(&mut out, 58);
    push_ascii_byte(&mut out, 34);
    proof {
        assert(out@ =~= seq![123u8, 34u8, 99u8, 108u8, 105u8, 101u8, 110u8, 116u8, 73u8, 100u8, 34u8, 58u8, 34u8]);
    }
    push_json_escaped(&mut out, client_id);
    proof {
        assert(out@ =~= seq![123u8, 34u8, 99u8, 108u8, 105u8, 101u8, 110u8, 116u8, 73u8, 100u8, 34u8, 58u8, 34u8]
            + spec_json_escape(client_id.spec_bytes()));
    }
    push_ascii_byte(&mut out, 34);
    push_ascii_byte(&mut out, 44);
    push_ascii_byte(&mut out, 34);
    push_ascii_byte(&mut out, 116);
    push_ascii_byte(&mut out, 121);
    push_ascii_byte(&mut out, 112);
    push_ascii_byte(&mut out, 101);
    push_ascii_byte(&mut out, 34);
    push_ascii_byte(&mut out, 58);
    push_ascii_byte(&mut out, 34);
    push_ascii_byte(&mut out, 114);
    push_ascii_byte(&mut out, 101);
    push_ascii_byte(&mut out, 103);
    push_ascii_byte(&mut out, 105);
    push_ascii_byte(&mut out, 115);
    push_ascii_byte(&mut out, 116);
    push_ascii_byte(&mut out, 101);
    push_ascii_byte(&mut out, 114);
    push_ascii_byte(&mut out, 101);
    push_ascii_byte(&mut out, 100);
    push_ascii_byte(&mut out, 34);
    push_ascii_byte(&mut out, 125);
    proof {
        assert(out@ =~= seq![123u8, 34u8, 99u8, 108u8, 105u8, 101u8, 110u8, 116u8, 73u8, 100u8, 34u8, 58u8, 34u8]
            + spec_json_escape(client_id.spec_bytes())
            + seq![34u8, 44u8, 34u8, 116u8, 121u8, 112u8, 101u8, 34u8, 58u8, 34u8, 114u8, 101u8, 103u8, 105u8, 115u8, 116u8, 101u8, 114u8, 101u8, 100u8, 34u8, 125u8]);
    }
    finish_frame(out)
}

/// A path command frame: `{"id":"<id>","path":"<path>","type":"<t>"}`
/// (readdir, readFile, stat, mkdir, delete).
pub open spec fn spec_path_frame(t: Seq<u8>, path: Seq<u8>, id: Seq<u8>) -> Seq<u8> {
    seq![123u8, 34u8, 105u8, 100u8, 34u8, 58u8, 34u8]
        + spec_json_escape(id)
        + seq![34u8, 44u8, 34u8, 112u8, 97u8, 116u8, 104u8, 34u8, 58u8, 34u8]
        + spec_json_escape(path)
        + seq![34u8, 44u8, 34u8, 116u8, 121u8, 112u8, 101u8, 34u8, 58u8, 34u8]
        + spec_json_escape(t)
        + seq![34u8, 125u8]
}

#[verifier::rlimit(100)]
pub fn path_frame(t: &str, path: &str, id: &str) -> (r: String)
    ensures
        encode_utf8(r@) == spec_path_frame(t.spec_bytes(), path.spec_bytes(), id.spec_bytes()),
{
    let mut out: Vec<u8> = Vec::new();
    push_ascii_byte(&mut out, 123);
    push_ascii_byte(&mut out, 34);
    push_ascii_byte(&mut out, 105);
    push_ascii_byte(&mut out, 100);
    push_ascii_byte(&mut out, 34);
    push_ascii_byte(&mut out, 58);
    push_ascii_byte(&mut out, 34);
    proof {
        assert(out@ =~= seq![123u8, 34u8, 105u8, 100u8, 34u8, 58u8, 34u8]);
    }
    push_json_escaped(&mut out, id);
    proof {
        assert(out@ =~= seq![123u8, 34u8, 105u8, 100u8, 34u8, 58u8, 34u8]
            + spec_json_escape(id.spec_bytes()));
    }
    push_ascii_byte(&mut out, 34);
    push_ascii_byte(&mut out, 44);
    push_ascii_byte(&mut out, 34);
    push_ascii_byte(&mut out, 112);
    push_ascii_byte(&mut out, 97);
    push_ascii_byte(&mut out, 116);
    push_ascii_byte(&mut out, 104);
    push_ascii_byte(&mut out, 34);
    push_ascii_byte(&mut out, 58);
    push_ascii_byte(&mut out, 34);
    proof {
        assert(out@ =~= seq![123u8, 34u8, 105u8, 100u8, 34u8, 58u8, 34u8]
            + spec_json_escape(id.spec_bytes())
            + seq![34u8, 44u8, 34u8, 112u8, 97u8, 116u8, 104u8, 34u8, 58u8, 34u8]);
    }
    push_json_escaped(&mut out, path);
    proof {
        assert(out@ =~= seq![123u8, 34u8, 105u8, 100u8, 34u8, 58u8, 34u8]
            + spec_json_escape(id.spec_bytes())
            + seq![34u8, 44u8, 34u8, 112u8, 97u8, 116u8, 104u8, 34u8, 58u8, 34u8]
            + spec_json_escape(path.spec_bytes()));
    }
    push_ascii_byte(&mut out, 34);
    push_ascii_byte(&mut out, 44);
    push_ascii_byte(&mut out, 34);
    push_ascii_byte(&mut out, 116);
    push_ascii_byte(&mut out, 121);
    push_ascii_byte(&mut out, 112);
    push_ascii_byte(&mut out, 101);
    push_ascii_byte(&mut out, 34);
    push_ascii_byte(&mut out, 58);
    push_ascii_byte(&mut out, 34);
    proof {
        assert(out@ =~= seq![123u8, 34u8, 105u8, 100u8, 34u8, 58u8, 34u8]
            + spec_json_escape(id.spec_bytes())
            + seq![34u8, 44u8, 34u8, 112u8, 97u8, 116u8, 104u8, 34u8, 58u8, 34u8]
            + spec_json_escape(path.spec_bytes())
            + seq![34u8, 44u8, 34u8, 116u8, 121u8, 112u8, 101u8, 34u8, 58u8, 34u8]);
    }
    push_json_escaped(&mut out, t);
    proof {
        assert(out@ =~= seq![123u8, 34u8, 105u8, 100u8, 34u8, 58u8, 34u8]
            + spec_json_escape(id.spec_bytes())
            + seq![34u8, 44u8, 34u8, 112u8, 97u8, 116u8, 104u8, 34u8, 58u8, 34u8]
            + spec_json_escape(path.spec_bytes())
            + seq![34u8, 44u8, 34u8, 116u8, 121u8, 112u8, 101u8, 34u8, 58u8, 34u8]
            + spec_json_escape(t.spec_bytes()));
    }
    push_ascii_byte(&mut out, 34);
    push_ascii_byte(&mut out, 125);
    proof {
        assert(out@ =~= seq![123u8, 34u8, 105u8, 100u8, 34u8, 58u8, 34u8]
            + spec_json_escape(id.spec_bytes())
            + seq![34u8, 44u8, 34u8, 112u8, 97u8, 116u8, 104u8, 34u8, 58u8, 34u8]
            + spec_json_escape(path.spec_bytes())
            + seq![34u8, 44u8, 34u8, 116u8, 121u8, 112u8, 101u8, 34u8, 58u8, 34u8]
            + spec_json_escape(t.spec_bytes())
            + seq![34u8, 125u8]);
    }
    finish_frame(out)
}

/// The write command frame:
/// `{"data":"<b64>","id":"<id>","path":"<path>","type":"writeFile"}`.
pub open spec fn spec_write_frame(path: Seq<u8>, data_b64: Seq<u8>, id: Seq<u8>) -> Seq<u8> {
    seq![123u8, 34u8, 100u8, 97u8, 116u8, 97u8, 34u8, 58u8, 34u8]
        + spec_json_escape(data_b64)
        + seq![34u8, 44u8, 34u8, 105u8, 100u8, 34u8, 58u8, 34u8]
        + spec_json_escape(id)
        + seq![34u8, 44u8, 34u8, 112u8, 97u8, 116u8, 104u8, 34u8, 58u8, 34u8]
        + spec_json_escape(path)
        + seq![34u8, 44u8, 34u8, 116u8, 121u8, 112u8, 101u8, 34u8, 58u8, 34u8, 119u8, 114u8, 105u8, 116u8, 101u8, 70u8, 105u8, 108u8, 101u8, 34u8, 125u8]
}

#[verifier::rlimit(100)]
pub fn write_frame(path: &str, data_b64: &str, id: &str) -> (r: String)
    ensures
        encode_utf8(r@) == spec_write_frame(path.spec_bytes(), data_b64.spec_bytes(), id.spec_bytes()),
{
    let mut out: Vec<u8> = Vec::new();
    push_ascii_byte(&mut out, 123);
    push_ascii_byte(&mut out, 34);
    push_ascii_byte(&mut out, 100);
    push_ascii_byte(&mut out, 97);
    push_ascii_byte(&mut out, 116);
    push_ascii_byte(&mut out, 97);
    push_ascii_byte(&mut out, 34);
    push_ascii_byte(&mut out, 58);
    push_ascii_byte(&mut out, 34);
    proof {
        assert(out@ =~= seq![123u8, 34u8, 100u8, 97u8, 116u8, 97u8, 34u8, 58u8, 34u8]);
    }
    push_json_escaped(&mut out, data_b64);
    proof {
        assert(out@ =~= seq![123u8, 34u8, 100u8, 97u8, 116u8, 97u8, 34u8, 58u8, 34u8]
            + spec_json_escape(data_b64.spec_bytes()));
    }
    push_ascii_byte(&mut out, 34);
    push_ascii_byte(&mut out, 44);
    push_ascii_byte(&mut out, 34);
    push_ascii_byte(&mut out, 105);
    push_ascii_byte(&mut out, 100);
    push_ascii_byte(&mut out, 34);
    push_ascii_byte(&mut out, 58);
    push_ascii_byte(&mut out, 34);
    proof {
        assert(out@ =~= seq![123u8, 34u8, 100u8, 97u8, 116u8, 97u8, 34u8, 58u8, 34u8]
            + spec_json_escape(data_b64.spec_bytes())
            + seq![34u8, 44u8, 34u8, 105u8, 100u8, 34u8, 58u8, 34u8]);
    }
    push_json_escaped(&mut out, id);
    proof {
        assert(out@ =~= seq![123u8, 34u8, 100u8, 97u8, 116u8, 97u8, 34u8, 58u8, 34u8]
            + spec_json_escape(data_b64.spec_bytes())
            + seq![34u8, 44u8, 34u8, 105u8, 100u8, 34u8, 58u8, 34u8]
            + spec_json_escape(id.spec_bytes()));
    }
    push_ascii_byte(&mut out, 34);
    push_ascii_byte(&mut out, 44);
    push_ascii_byte(&mut out, 34);
    push_ascii_byte(&mut out, 112);
    push_ascii_byte(&mut out, 97);
    push_ascii_byte(&mut out, 116);
    push_ascii_byte(&mut out, 104);
    push_ascii_byte(&mut out, 34);
    push_ascii_byte(&mut out, 58);
    push_ascii_byte(&mut out, 34);
    proof {
        assert(out@ =~= seq![123u8, 34u8, 100u8, 97u8, 116u8, 97u8, 34u8, 58u8, 34u8]
            + spec_json_escape(data_b64.spec_bytes())
            + seq![34u8, 44u8, 34u8, 105u8, 100u8, 34u8, 58u8, 34u8]
            + spec_json_escape(id.spec_bytes())
            + seq![34u8, 44u8, 34u8, 112u8, 97u8, 116u8, 104u8, 34u8, 58u8, 34u8]);
    }
    push_json_escaped(&mut out, path);
    proof {
        assert(out@ =~= seq![123u8, 34u8, 100u8, 97u8, 116u8, 97u8, 34u8, 58u8, 34u8]
            + spec_json_escape(data_b64.spec_bytes())
            + seq![34u8, 44u8, 34u8, 105u8, 100u8, 34u8, 58u8, 34u8]
            + spec_json_escape(id.spec_bytes())
            + seq![34u8, 44u8, 34u8, 112u8, 97u8, 116u8, 104u8, 34u8, 58u8, 34u8]
            + spec_json_escape(path.spec_bytes()));
    }
    push_ascii_byte(&mut out, 34);
    push_ascii_byte(&mut out, 44);
    push_ascii_byte(&mut out, 34);
    push_ascii_byte(&mut out, 116);
    push_ascii_byte(&mut out, 121);
    push_ascii_byte(&mut out, 112);
    push_ascii_byte(&mut out, 101);
    push_ascii_byte(&mut out, 34);
    push_ascii_byte(&mut out, 58);
    push_ascii_byte(&mut out, 34);
    push_ascii_byte(&mut out, 119);
    push_ascii_byte(&mut out, 114);
    push_ascii_byte(&mut out, 105);
    push_ascii_byte(&mut out, 116);
    push_ascii_byte(&mut out, 101);
    push_ascii_byte(&mut out, 70);
    push_ascii_byte(&mut out, 105);
    push_ascii_byte(&mut out, 108);
    push_ascii_byte(&mut out, 101);
    push_ascii_byte(&mut out, 34);
    push_ascii_byte(&mut out, 125);
    proof {
        assert(out@ =~= seq![123u8, 34u8, 100u8, 97u8, 116u8, 97u8, 34u8, 58u8, 34u8]
            + spec_json_escape(data_b64.spec_bytes())
            + seq![34u8, 44u8, 34u8, 105u8, 100u8, 34u8, 58u8, 34u8]
            + spec_json_escape(id.spec_bytes())
            + seq![34u8, 44u8, 34u8, 112u8, 97u8, 116u8, 104u8, 34u8, 58u8, 34u8]
            + spec_json_escape(path.spec_bytes())
            + seq![34u8, 44u8, 34u8, 116u8, 121u8, 112u8, 101u8, 34u8, 58u8, 34u8, 119u8, 114u8, 105u8, 116u8, 101u8, 70u8, 105u8, 108u8, 101u8, 34u8, 125u8]);
    }
    finish_frame(out)
}

/// The rename command frame:
/// `{"id":"<id>","newPath":"<new>","oldPath":"<old>","type":"rename"}`.
pub open spec fn spec_rename_frame(old_path: Seq<u8>, new_path: Seq<u8>, id: Seq<u8>) -> Seq<u8> {
    seq![123u8, 34u8, 105u8, 100u8, 34u8, 58u8, 34u8]
        + spec_json_escape(id)
        + seq![34u8, 44u8, 34u8, 110u8, 101u8, 119u8, 80u8, 97u8, 116u8, 104u8, 34u8, 58u8, 34u8]
        + spec_json_escape(new_path)
        + seq![34u8, 44u8, 34u8, 111u8, 108u8, 100u8, 80u8, 97u8, 116u8, 104u8, 34u8, 58u8, 34u8]
        + spec_json_escape(old_path)
        + seq![34u8, 44u8, 34u8, 116u8, 121u8, 112u8, 101u8, 34u8, 58u8, 34u8, 114u8, 101u8, 110u8, 97u8, 109u8, 101u8, 34u8, 125u8]
}

#[verifier::rlimit(100)]
pub fn rename_frame(old_path: &str, new_path: &str, id: &str) -> (r: String)
    ensures
        encode_utf8(r@) == spec_rename_frame(old_path.spec_bytes(), new_path.spec_bytes(), id.spec_bytes()),
{
    let mut out: Vec<u8> = Vec::new();
    push_ascii_byte(&mut out, 123);
    push_ascii_byte(&mut out, 34);
    push_ascii_byte(&mut out, 105);
    push_ascii_byte(&mut out, 100);
    push_ascii_byte(&mut out, 34);
    push_ascii_byte(&mut out, 58);
    push_ascii_byte(&mut out, 34);
    proof {
        assert(out@ =~= seq![123u8, 34u8, 105u8, 100u8, 34u8, 58u8, 34u8]);
    }
    push_json_escaped(&mut out, id);
    proof {
        assert(out@ =~= seq![123u8, 34u8, 105u8, 100u8, 34u8, 58u8, 34u8]
            + spec_json_escape(id.spec_bytes()));
    }
    push_ascii_byte(&mut out, 34);
    push_ascii_byte(&mut out, 44);
    push_ascii_byte(&mut out, 34);
    push_ascii_byte(&mut out, 110);
    push_ascii_byte(&mut out, 101);
    push_ascii_byte(&mut out, 119);
    push_ascii_byte(&mut out, 80);
    push_ascii_byte(&mut out, 97);
    push_ascii_byte(&mut out, 116);
    push_ascii_byte(&mut out, 104);
    push_ascii_byte(&mut out, 34);
    push_ascii_byte(&mut out, 58);
    push_ascii_byte(&mut out, 34);
    proof {
        assert(out@ =~= seq![123u8, 34u8, 105u8, 100u8, 34u8, 58u8, 34u8]
            + spec_json_escape(id.spec_bytes())
            + seq![34u8, 44u8, 34u8, 110u8, 101u8, 119u8, 80u8, 97u8, 116u8, 104u8, 34u8, 58u8, 34u8]);
    }
    push_json_escaped(&mut out, new_path);
    proof {
        assert(out@ =~= seq![123u8, 34u8, 105u8, 100u8, 34u8, 58u8, 34u8]
            + spec_json_escape(id.spec_bytes())
            + seq![34u8, 44u8, 34u8, 110u8, 101u8, 119u8, 80u8, 97u8, 116u8, 104u8, 34u8, 58u8, 34u8]
            + spec_json_escape(new_path.spec_bytes()));
    }
    push_ascii_byte(&mut out, 34);
    push_ascii_byte(&mut out, 44);
    push_ascii_byte(&mut out, 34);
    push_ascii_byte(&mut out, 111);
    push_ascii_byte(&mut out, 108);
    push_ascii_byte(&mut out, 100);
    push_ascii_byte(&mut out, 80);
    push_ascii_byte(&mut out, 97);
    push_ascii_byte(&mut out, 116);
    push_ascii_byte(&mut out, 104);
    push_ascii_byte(&mut out, 34);
    push_ascii_byte(&mut out, 58);
    push_ascii_byte(&mut out, 34);
    proof {
        assert(out@ =~= seq![123u8, 34u8, 105u8, 100u8, 34u8, 58u8, 34u8]
            + spec_json_escape(id.spec_bytes())
            + seq![34u8, 44u8, 34u8, 110u8, 101u8, 119u8, 80u8, 97u8, 116u8, 104u8, 34u8, 58u8, 34u8]
            + spec_json_escape(new_path.spec_bytes())
            + seq![34u8, 44u8, 34u8, 111u8, 108u8, 100u8, 80u8, 97u8, 116u8, 104u8, 34u8, 58u8, 34u8]);
    }
    push_json_escaped(&mut out, old_path);
    proof {
        assert(out@ =~= seq![123u8, 34u8, 105u8, 100u8, 34u8, 58u8, 34u8]
            + spec_json_escape(id.spec_bytes())
            + seq![34u8, 44u8, 34u8, 110u8, 101u8, 119u8, 80u8, 97u8, 116u8, 104u8, 34u8, 58u8, 34u8]
            + spec_json_escape(new_path.spec_bytes())
            + seq![34u8, 44u8, 34u8, 111u8, 108u8, 100u8, 80u8, 97u8, 116u8, 104u8, 34u8, 58u8, 34u8]
            + spec_json_escape(old_path.spec_bytes()));
    }
    push_ascii_byte(&mut out, 34);
    push_ascii_byte(&mut out, 44);
    push_ascii_byte(&mut out, 34);
    push_ascii_byte(&mut out, 116);
    push_ascii_byte(&mut out, 121);
    push_ascii_byte(&mut out, 112);
    push_ascii_byte(&mut out, 101);
    push_ascii_byte(&mut out, 34);
    push_ascii_byte(&mut out, 58);
    push_ascii_byte(&mut out, 34);
    push_ascii_byte(&mut out, 114);
    push_ascii_byte(&mut out, 101);
    push_ascii_byte(&mut out, 110);
    push_ascii_byte(&mut out, 97);
    push_ascii_byte(&mut out, 109);
    push_ascii_byte(&mut out, 101);
    push_ascii_byte(&mut out, 34);
    push_ascii_byte(&mut out, 125);
    proof {
        assert(out@ =~= seq![123u8, 34u8, 105u8, 100u8, 34u8, 58u8, 34u8]
            + spec_json_escape(id.spec_bytes())
            + seq![34u8, 44u8, 34u8, 110u8, 101u8, 119u8, 80u8, 97u8, 116u8, 104u8, 34u8, 58u8, 34u8]
            + spec_json_escape(new_path.spec_bytes())
            + seq![34u8, 44u8, 34u8, 111u8, 108u8, 100u8, 80u8, 97u8, 116u8, 104u8, 34u8, 58u8, 34u8]
            + spec_json_escape(old_path.spec_bytes())
            + seq![34u8, 44u8, 34u8, 116u8, 121u8, 112u8, 101u8, 34u8, 58u8, 34u8, 114u8, 101u8, 110u8, 97u8, 109u8, 101u8, 34u8, 125u8]);
    }
    finish_frame(out)
}

} // verus!
