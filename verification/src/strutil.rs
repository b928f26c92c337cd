//! Bridging between byte-level results and `String`s: ASCII reasoning helpers
//! and decimal rendering of integers.

use vstd::prelude::*;
use vstd::string::StringSliceAdditionalSpecFns;
use vstd::utf8::*;
use crate::outside;

verus! {

/// Every byte is in the ASCII range.
pub open spec fn ascii_seq(b: Seq<u8>) -> bool {
    forall|i: int| 0 <= i < b.len() ==> b[i] < 0x80
}

/// The characters spelled by a byte sequence read as ASCII.
pub open spec fn bytes_as_chars(b: Seq<u8>) -> Seq<char> {
    b.map(|i: int, x: u8| x as char)
}

/// ASCII bytes are valid UTF-8 and decode character-for-character.
pub proof fn lemma_ascii_bytes(b: Seq<u8>)
    requires
        ascii_seq(b),
    ensures
        valid_utf8(b),
        decode_utf8(b) == bytes_as_chars(b),
        is_ascii_chars(bytes_as_chars(b)),
{
    let chars = bytes_as_chars(b);
    assert(is_ascii_chars(chars));
    is_ascii_chars_encode_utf8(chars);
    assert(encode_utf8(chars) =~= b);
    encode_utf8_valid_utf8(chars);
    encode_utf8_decode_utf8(chars);
}

/// Builds the `String` whose characters are the given ASCII bytes.
pub fn ascii_to_string(v: Vec<u8>) -> (r: String)
    requires
        ascii_seq(v@),
    ensures
        r@ == bytes_as_chars(v@),
        encode_utf8(r@) == v@,
{
    proof {
        lemma_ascii_bytes(v@);
    }
    let ghost bs = v@;
    match outside::vec_to_string(v) {
        Some(s) => {
            proof {
                is_ascii_chars_encode_utf8(s@);
                assert(encode_utf8(s@) =~= bs);
            }
            s
        },
        None => {
            // unreachable: ASCII bytes are always valid UTF-8
            proof {
                assert(false);
            }
            String::new()
        },
    }
}

/// The decimal digits of `n`, most significant first.
pub open spec fn dec_digits(n: nat) -> Seq<u8>
    decreases n,
{
    if n < 10 {
        seq![(48 + n) as u8]
    } else {
        dec_digits(n / 10) + seq![(48 + n % 10) as u8]
    }
}

pub proof fn lemma_dec_digits_ascii(n: nat)
    ensures
        ascii_seq(dec_digits(n)),
        dec_digits(n).len() >= 1,
    decreases n,
{
    if n >= 10 {
        lemma_dec_digits_ascii(n / 10);
    }
}

/// Renders `n` in decimal as bytes.
pub fn u64_to_dec(n: u64) -> (r: Vec<u8>)
    ensures
        r@ == dec_digits(n as nat),
    decreases n,
{
    let mut v: Vec<u8> = if n >= 10 {
        u64_to_dec(n / 10)
    } else {
        Vec::new()
    };
    v.push(48 + (n % 10) as u8);
    proof {
        if n >= 10 {
            assert(v@ =~= dec_digits(n as nat));
        } else {
            assert(v@ =~= dec_digits(n as nat));
        }
    }
    v
}

/// Renders `n` in decimal as a `String`.
pub fn u64_to_string(n: u64) -> (r: String)
    ensures
        r@ == bytes_as_chars(dec_digits(n as nat)),
        encode_utf8(r@) == dec_digits(n as nat),
{
    let v = u64_to_dec(n);
    proof {
        lemma_dec_digits_ascii(n as nat);
    }
    ascii_to_string(v)
}


/// The decimal spelling of `n`, with a leading minus sign when negative.
pub open spec fn dec_chars_i32(n: i32) -> Seq<char> {
    if n < 0 {
        seq!['-'] + bytes_as_chars(dec_digits((-(n as int)) as nat))
    } else {
        bytes_as_chars(dec_digits(n as nat))
    }
}

/// Renders a signed exit code in decimal.
pub fn i32_to_string(n: i32) -> (r: String)
    ensures
        r@ == dec_chars_i32(n),
{
    if n >= 0 {
        u64_to_string(n as u64)
    } else {
        let m: u64 = (-(n as i64)) as u64;
        let mut v: Vec<u8> = Vec::new();
        v.push(45);
        let digits = u64_to_dec(m);
        let mut k: usize = 0;
        while k < digits.len()
            invariant
                0 <= k <= digits@.len(),
                v@ == seq![45u8] + digits@.subrange(0, k as int),
            decreases digits@.len() - k,
        {
            v.push(digits[k]);
            proof {
                assert(seq![45u8] + digits@.subrange(0, k + 1) =~= (seq![45u8] + digits@.subrange(
                    0,
                    k as int,
                )).push(digits@[k as int]));
            }
            k += 1;
        }
        proof {
            assert(digits@.subrange(0, digits@.len() as int) =~= digits@);
            lemma_dec_digits_ascii(m as nat);
            assert(ascii_seq(v@));
            assert(bytes_as_chars(v@) =~= dec_chars_i32(n));
        }
        ascii_to_string(v)
    }
}


/// In valid UTF-8, any index whose preceding bytes are all ASCII is a
/// character boundary.
pub proof fn lemma_ascii_prefix_boundary(b: Seq<u8>, k: int)
    requires
        valid_utf8(b),
        0 <= k <= b.len(),
        forall|i: int| 0 <= i < k ==> b[i] < 0x80,
    ensures
        is_char_boundary(b, k),
    decreases k,
{
    if k > 0 {
        assert(b.len() != 0);
        assert(valid_first_scalar(b) && valid_utf8(pop_first_scalar(b)));
        let b0 = b[0];
        assert(is_leading_byte_width_1(b0)) by {
            assert(b0 < 0x80 ==> b0 & 0x80 == 0) by (bit_vector);
        }
        assert(length_of_first_scalar(b) == 1);
        let rest = pop_first_scalar(b);
        assert(rest =~= b.subrange(1, b.len() as int));
        lemma_ascii_prefix_boundary(rest, k - 1);
    }
}

/// Trims ASCII whitespace from both ends; the contract is exact and the
/// boundary checks in the body always succeed on valid strings.
pub fn trim_ascii(s: &str) -> (r: String)
    ensures
        encode_utf8(r@) == crate::isotime::drop_trailing_ws(
            crate::isotime::drop_leading_ws(s.spec_bytes()),
        ),
{
    let bytes = s.as_bytes();
    let n = bytes.len();
    let mut start: usize = 0;
    proof {
        assert(bytes@.skip(0) =~= bytes@);
    }
    while start < n && (bytes[start] == 32 || bytes[start] == 9 || bytes[start] == 10
        || bytes[start] == 13)
        invariant
            0 <= start <= n,
            n == bytes@.len(),
            forall|i: int| 0 <= i < start ==> bytes@[i] < 0x80,
            crate::isotime::drop_leading_ws(bytes@) == crate::isotime::drop_leading_ws(
                bytes@.skip(start as int),
            ),
        decreases n - start,
    {
        proof {
            assert(bytes@.skip(start as int).skip(1) =~= bytes@.skip(start + 1));
        }
        start += 1;
    }
    let ghost led = bytes@.skip(start as int);
    let mut end: usize = n;
    proof {
        assert(led.subrange(0, (n - start) as int) =~= led);
    }
    while end > start && (bytes[end - 1] == 32 || bytes[end - 1] == 9 || bytes[end - 1] == 10
        || bytes[end - 1] == 13)
        invariant
            start <= end <= n,
            n == bytes@.len(),
            led == bytes@.skip(start as int),
            forall|i: int| end <= i < n ==> bytes@[i] < 0x80,
            crate::isotime::drop_trailing_ws(led) == crate::isotime::drop_trailing_ws(
                led.subrange(0, (end - start) as int),
            ),
        decreases end,
    {
        proof {
            assert(led.subrange(0, (end - start) as int)[(end - 1 - start) as int] == bytes@[end
                - 1]);
            assert(led.subrange(0, (end - start) as int).drop_last() =~= led.subrange(
                0,
                (end - 1 - start) as int,
            ));
        }
        end -= 1;
    }
    let ghost res = led.subrange(0, (end - start) as int);
    proof {
        if end > start {
            assert(res[(end - start - 1) as int] == bytes@[end - 1]);
        }
        assert(crate::isotime::drop_trailing_ws(led) == res);
        encode_utf8_valid_utf8(s@);
        lemma_ascii_prefix_boundary(bytes@, start as int);
        valid_utf8_split(bytes@, start as int);
        assert(bytes@.subrange(start as int, n as int) =~= led);
        // every trimmed trailing byte is ASCII whitespace
        assert forall|j: int| (end - start) as int <= j < led.len() implies led[j] < 0x80 by {
            assert(led[j] == bytes@[start + j]);
        }
        lemma_ascii_prefix_boundary_rev(led, (end - start) as int);
    }
    let mid = &bytes[start..end];
    proof {
        assert(mid@ =~= res);
    }
    let mut out: Vec<u8> = Vec::new();
    out.extend_from_slice(mid);
    proof {
        assert(out@ =~= res);
    }
    let ghost ob = out@;
    match outside::vec_to_string(out) {
        Some(t) => {
            proof {
                decode_utf8_encode_utf8(ob);
            }
            t
        },
        None => {
            proof {
                assert(valid_utf8(ob));
                assert(false);
            }
            String::new()
        },
    }
}

/// A prefix of a valid UTF-8 sequence that is cut off before a run of ASCII
/// tail bytes is itself valid.
proof fn lemma_ascii_prefix_boundary_rev(b: Seq<u8>, k: int)
    requires
        valid_utf8(b),
        0 <= k <= b.len(),
        forall|i: int| k <= i < b.len() ==> b[i] < 0x80,
    ensures
        valid_utf8(b.subrange(0, k)),
    decreases b.len() - k,
{
    if k == b.len() {
        assert(b.subrange(0, k) =~= b);
    } else {
        lemma_ascii_prefix_boundary_rev2(b, k);
    }
}

proof fn lemma_ascii_prefix_boundary_rev2(b: Seq<u8>, k: int)
    requires
        valid_utf8(b),
        0 <= k < b.len(),
        forall|i: int| k <= i < b.len() ==> b[i] < 0x80,
    ensures
        valid_utf8(b.subrange(0, k)),
{
    // k is a boundary: the byte at k is ASCII, hence not a continuation byte
    let bk = b[k];
    assert(!is_continuation_byte(bk)) by {
        assert(bk < 0x80 ==> !(bk & 0xc0 == 0x80)) by (bit_vector);
    }
    is_char_boundary_iff_not_is_continuation_byte(b, k);
    valid_utf8_split(b, k);
}


/// Character-for-character equality of two string slices.
pub fn str_eq(a: &str, b: &str) -> (r: bool)
    ensures
        r == (a@ == b@),
{
    let r = crate::bytesutil::bytes_eq(a.as_bytes(), b.as_bytes());
    proof {
        if a.spec_bytes() == b.spec_bytes() {
            encode_utf8_valid_utf8(a@);
            encode_utf8_decode_utf8(a@);
            encode_utf8_decode_utf8(b@);
            assert(a@ == b@);
        } else {
            if a@ == b@ {
                assert(a.spec_bytes() == b.spec_bytes());
            }
        }
    }
    r
}


/// Copies the byte range `[from, to)` of `s` into a fresh `String`; both
/// ends must be character boundaries.
pub fn substring_bytes(s: &str, from: usize, to: usize) -> (r: String)
    requires
        from <= to <= s.spec_bytes().len(),
        is_char_boundary(s.spec_bytes(), from as int),
        is_char_boundary(s.spec_bytes(), to as int),
    ensures
        encode_utf8(r@) == s.spec_bytes().subrange(from as int, to as int),
{
    let bytes = s.as_bytes();
    let mid = &bytes[from..to];
    let mut out: Vec<u8> = Vec::new();
    out.extend_from_slice(mid);
    proof {
        encode_utf8_valid_utf8(s@);
        valid_utf8_split(bytes@, to as int);
        let pre = bytes@.subrange(0, to as int);
        assert(is_char_boundary(pre, from as int)) by {
            lemma_boundary_prefix(bytes@, to as int, from as int);
        }
        valid_utf8_split(pre, from as int);
        assert(pre.subrange(from as int, pre.len() as int) =~= bytes@.subrange(
            from as int,
            to as int,
        ));
        assert(out@ =~= bytes@.subrange(from as int, to as int));
    }
    let ghost ob = out@;
    match outside::vec_to_string(out) {
        Some(t) => {
            proof {
                decode_utf8_encode_utf8(ob);
            }
            t
        },
        None => {
            proof {
                assert(false);
            }
            String::new()
        },
    }
}

/// A character boundary below a cut point is still a boundary of the prefix.
proof fn lemma_boundary_prefix(b: Seq<u8>, cut: int, k: int)
    requires
        valid_utf8(b),
        0 <= k <= cut <= b.len(),
        is_char_boundary(b, cut),
        is_char_boundary(b, k),
    ensures
        is_char_boundary(b.subrange(0, cut), k),
    decreases k,
{
    let pre = b.subrange(0, cut);
    valid_utf8_split(b, cut);
    if k == 0 {
        is_char_boundary_start_end_of_seq(pre);
    } else if k == cut {
        is_char_boundary_start_end_of_seq(pre);
    } else {
        is_char_boundary_iff_not_is_continuation_byte(b, k);
        is_char_boundary_iff_not_is_continuation_byte(pre, k);
        assert(pre[k] == b[k]);
    }
}


/// The view of an optional string, field by field.
pub open spec fn opt_chars(o: Option<String>) -> Option<Seq<char>> {
    match o {
        Some(s) => Some(s@),
        None => None,
    }
}

} // verus!
