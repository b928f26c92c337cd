//! Reading the system mount table: which lines belong to the relay's WebDAV
//! shares, and how a line splits into the share URL and the mount point.

use vstd::prelude::*;
use vstd::string::StringSliceAdditionalSpecFns;
use vstd::utf8::*;
use crate::bytesutil::{after_match, contains_seq, contains_bytes, find_byte, find_seq, first_match,
    first_occ, lemma_first_match, lemma_first_occ, take_before};
use crate::isotime::{drop_leading_ws, drop_trailing_ws};
use crate::strutil::{ascii_seq, dec_digits, trim_ascii};

verus! {

/// The ` on ` separator of a mount table line.
pub open spec fn on_sep() -> Seq<u8> {
    seq![32u8, 111u8, 110u8, 32u8]
}

/// The ` (` separator before the flags of a mount table line.
pub open spec fn paren_sep() -> Seq<u8> {
    seq![32u8, 40u8]
}

/// A line with one trailing carriage return dropped, as a line iterator
/// yields it.
pub open spec fn clean_line(l: Seq<u8>) -> Seq<u8> {
    if l.len() > 0 && l.last() == 13 {
        l.drop_last()
    } else {
        l
    }
}

/// Whether a mount table line concerns the relay: it mentions `webdav`, one
/// of the two ports, or a `/webdav/` path.
pub open spec fn spec_line_matches(l: Seq<u8>, port_str: Seq<u8>, tls_port_str: Seq<u8>) -> bool {
    contains_seq(l, seq![119u8, 101u8, 98u8, 100u8, 97u8, 118u8]) || contains_seq(l, port_str)
        || contains_seq(l, tls_port_str) || contains_seq(
        l,
        seq![47u8, 119u8, 101u8, 98u8, 100u8, 97u8, 118u8, 47u8],
    )
}

/// The share URL of a line: everything before the first ` on `, trimmed.
pub open spec fn spec_line_url(l: Seq<u8>) -> Seq<u8> {
    drop_trailing_ws(drop_leading_ws(take_before(l, on_sep())))
}

/// The second `splitn` part of a line: between the first ` on ` and the next
/// one; empty when the line has no ` on `.
pub open spec fn spec_line_second(l: Seq<u8>) -> Seq<u8> {
    take_before(after_match(l, on_sep()), on_sep())
}

/// The mount point of a line as the listing reports it: the second part
/// trimmed, then cut before ` (`.
pub open spec fn spec_line_mount_point(l: Seq<u8>) -> Seq<u8> {
    take_before(drop_trailing_ws(drop_leading_ws(spec_line_second(l))), paren_sep())
}

/// One reported mount: the share URL, the mount point, and the raw line.
pub struct MountLine {
    pub url: String,
    pub mount_point: String,
    pub raw: String,
}

/// Cuts a string before the first occurrence of an ASCII needle.
fn take_before_str(s: &str, needle: &[u8]) -> (r: String)
    requires
        needle@.len() >= 1,
        ascii_seq(needle@),
    ensures
        encode_utf8(r@) == take_before(s.spec_bytes(), needle@),
{
    let sb = s.as_bytes();
    proof {
        lemma_first_match(sb@, needle@);
        encode_utf8_valid_utf8(s@);
    }
    match find_seq(sb, needle) {
        None => s.to_owned(),
        Some(i) => {
            proof {
                is_char_boundary_start_end_of_seq(sb@);
                if i < sb@.len() {
                    assert(sb@.subrange(i as int, i + needle@.len() as int)[0] == sb@[i as int]);
                    assert(sb@[i as int] == needle@[0]);
                    let bi = sb@[i as int];
                    assert(bi < 0x80 ==> !(bi & 0xc0 == 0x80)) by (bit_vector);
                    is_char_boundary_iff_not_is_continuation_byte(sb@, i as int);
                }
            }
            crate::strutil::substring_bytes(s, 0, i)
        },
    }
}

/// The part of a string after the first occurrence of an ASCII needle;
/// empty when absent.
fn after_match_str(s: &str, needle: &[u8]) -> (r: String)
    requires
        needle@.len() >= 1,
        ascii_seq(needle@),
    ensures
        encode_utf8(r@) == after_match(s.spec_bytes(), needle@),
{
    let sb = s.as_bytes();
    let n = sb.len();
    proof {
        lemma_first_match(sb@, needle@);
        encode_utf8_valid_utf8(s@);
    }
    match find_seq(sb, needle) {
        None => {
            let r = String::new();
            proof {
                assert(encode_utf8(r@) =~= Seq::<u8>::empty());
            }
            r
        },
        Some(i) => {
            let cut = i + needle.len();
            proof {
                is_char_boundary_start_end_of_seq(sb@);
                if cut < sb@.len() {
                    // the byte at the cut follows the ASCII needle, whose
                    // last byte is ASCII, so the cut is a boundary
                    lemma_boundary_after_ascii(sb@, i as int, needle@);
                }
                assert(sb@.subrange(cut as int, n as int) =~= sb@.skip(cut as int));
            }
            crate::strutil::substring_bytes(s, cut, n)
        },
    }
}

/// In valid UTF-8, the position right after an embedded ASCII run is a
/// character boundary.
proof fn lemma_boundary_after_ascii(b: Seq<u8>, at: int, needle: Seq<u8>)
    requires
        valid_utf8(b),
        0 <= at,
        at + needle.len() < b.len(),
        needle.len() >= 1,
        ascii_seq(needle),
        b.subrange(at, at + needle.len() as int) == needle,
    ensures
        is_char_boundary(b, at + needle.len() as int),
{
    let cut = at + needle.len() as int;
    // the byte before the cut is ASCII, so the byte at the cut cannot be a
    // continuation byte of a scalar that started earlier; in valid UTF-8 a
    // continuation byte is preceded inside its own scalar, whose leading
    // byte is not ASCII. We argue directly: a continuation byte at `cut`
    // would make `cut` a non-boundary, but the previous byte is ASCII and
    // sits on a boundary, giving a width-1 scalar that must end at `cut`.
    lemma_ascii_boundary_step(b, cut);
    assert(b[cut - 1] == needle[needle.len() - 1]);
}

/// If the byte before `k` is ASCII and `k - 1` is a boundary, then `k` is a
/// boundary. Combined over a whole prefix this is the ASCII-prefix rule; it
/// holds at any depth because boundaries are exactly the non-continuation
/// positions.
proof fn lemma_ascii_boundary_step(b: Seq<u8>, k: int)
    requires
        valid_utf8(b),
        1 <= k < b.len(),
        b[k - 1] < 0x80,
    ensures
        is_char_boundary(b, k),
    decreases k,
{
    // a continuation byte is always preceded, within the same scalar, by a
    // byte at or above 0x80; show the byte at k is not a continuation byte
    // by structural induction over the scalars
    lemma_no_continuation_after_ascii(b, k);
    is_char_boundary_iff_not_is_continuation_byte(b, k);
}

proof fn lemma_no_continuation_after_ascii(b: Seq<u8>, k: int)
    requires
        valid_utf8(b),
        1 <= k < b.len(),
        b[k - 1] < 0x80,
    ensures
        !is_continuation_byte(b[k]),
    decreases b.len(),
{
    assert(valid_first_scalar(b) && valid_utf8(pop_first_scalar(b)));
    let w = length_of_first_scalar(b);
    assert(1 <= w <= 4);
    let tail = pop_first_scalar(b);
    if k < w {
        // inside the first scalar: positions 1..w hold continuation bytes,
        // and their predecessors are at or above 0x80
        assert(1 <= k < w);
        assert(w > 1);
        let b0 = b[0];
        assert(is_leading_byte_width_2(b0) || is_leading_byte_width_3(b0)
            || is_leading_byte_width_4(b0));
        assert((b0 & 0xe0 == 0xc0 || b0 & 0xf0 == 0xe0 || b0 & 0xf8 == 0xf0) ==> b0 >= 0x80)
            by (bit_vector);
        if k == 1 {
            assert(b[0] >= 0x80);
        } else {
            assert(is_continuation_byte(b[k - 1]));
            let bk1 = b[k - 1];
            assert(bk1 & 0xc0 == 0x80 ==> bk1 >= 0x80) by (bit_vector);
        }
    } else if k == w {
        // the byte at k starts the next scalar
        assert(tail =~= b.subrange(w, b.len() as int));
        assert(b[k] == tail[0]);
        lemma_first_byte_not_continuation(tail);
    } else {
        assert(tail =~= b.subrange(w, b.len() as int));
        assert(tail[k - w - 1] == b[k - 1]);
        lemma_no_continuation_after_ascii(tail, k - w);
        assert(tail[k - w] == b[k]);
    }
}

proof fn lemma_first_byte_not_continuation(b: Seq<u8>)
    requires
        valid_utf8(b),
        b.len() >= 1,
    ensures
        !is_continuation_byte(b[0]),
{
    assert(valid_first_scalar(b));
    let b0 = b[0];
    assert(is_leading_byte_width_1(b0) || is_leading_byte_width_2(b0) || is_leading_byte_width_3(
        b0,
    ) || is_leading_byte_width_4(b0));
    assert((b0 & 0x80 == 0 || b0 & 0xe0 == 0xc0 || b0 & 0xf0 == 0xe0 || b0 & 0xf8 == 0xf0) ==> !(
    b0 & 0xc0 == 0x80)) by (bit_vector);
}

/// Whether a cleaned mount table line concerns the relay.
pub fn mount_line_matches(line: &str, port: u16) -> (r: bool)
    requires
        port < 65535,
    ensures
        r == spec_line_matches(
            line.spec_bytes(),
            dec_digits(port as nat),
            dec_digits((port + 1) as nat),
        ),
{
    let lb = line.as_bytes();
    let webdav: [u8; 6] = [119, 101, 98, 100, 97, 118];
    let slash_webdav: [u8; 8] = [47, 119, 101, 98, 100, 97, 118, 47];
    let port_str = crate::strutil::u64_to_dec(port as u64);
    let tls_str = crate::strutil::u64_to_dec((port + 1) as u64);
    proof {
        assert(webdav@ =~= seq![119u8, 101u8, 98u8, 100u8, 97u8, 118u8]);
        assert(slash_webdav@ =~= seq![47u8, 119u8, 101u8, 98u8, 100u8, 97u8, 118u8, 47u8]);
    }
    contains_bytes(lb, webdav.as_slice()) || contains_bytes(lb, port_str.as_slice())
        || contains_bytes(lb, tls_str.as_slice()) || contains_bytes(lb, slash_webdav.as_slice())
}

/// Splits a cleaned mount table line into the share URL and the mount point
/// the listing reports.
pub fn parse_mount_line(line: &str) -> (r: (String, String))
    ensures
        encode_utf8(r.0@) == spec_line_url(line.spec_bytes()),
        encode_utf8(r.1@) == spec_line_mount_point(line.spec_bytes()),
{
    let sep: [u8; 4] = [32, 111, 110, 32];
    let paren: [u8; 2] = [32, 40];
    proof {
        assert(sep@ =~= on_sep());
        assert(paren@ =~= paren_sep());
    }
    let first = take_before_str(line, sep.as_slice());
    let url = trim_ascii(first.as_str());
    let rest = after_match_str(line, sep.as_slice());
    let second = take_before_str(rest.as_str(), sep.as_slice());
    let second_trimmed = trim_ascii(second.as_str());
    let mount_point = take_before_str(second_trimmed.as_str(), paren.as_slice());
    (url, mount_point)
}

/// The mount point a Finder-mounted share actually landed on, from one
/// matching line: the second ` on ` part cut before ` (` and trimmed;
/// `None` when the line has no ` on ` or the result is empty.
pub fn finder_mount_point(line: &str) -> (r: Option<String>)
    ensures
        r matches Some(m) ==> m@.len() > 0 && encode_utf8(m@) == drop_trailing_ws(
            drop_leading_ws(
                take_before(
                    take_before(after_match(line.spec_bytes(), on_sep()), on_sep()),
                    paren_sep(),
                ),
            ),
        ),
        r is None ==> (first_match(line.spec_bytes(), on_sep()) == -1 || drop_trailing_ws(
            drop_leading_ws(
                take_before(
                    take_before(after_match(line.spec_bytes(), on_sep()), on_sep()),
                    paren_sep(),
                ),
            ),
        ).len() == 0),
{
    let sep: [u8; 4] = [32, 111, 110, 32];
    let paren: [u8; 2] = [32, 40];
    proof {
        assert(sep@ =~= on_sep());
        assert(paren@ =~= paren_sep());
        lemma_first_match(line.spec_bytes(), sep@);
    }
    match find_seq(line.as_bytes(), sep.as_slice()) {
        None => None,
        Some(_) => {
            let rest = after_match_str(line, sep.as_slice());
            let second = take_before_str(rest.as_str(), sep.as_slice());
            let cut = take_before_str(second.as_str(), paren.as_slice());
            let trimmed = trim_ascii(cut.as_str());
            if trimmed.as_str().unicode_len() == 0 {
                proof {
                    assert(encode_utf8(trimmed@) =~= Seq::<u8>::empty());
                }
                None
            } else {
                proof {
                    if encode_utf8(trimmed@).len() == 0 {
                        assert(decode_utf8(encode_utf8(trimmed@)) =~= Seq::<char>::empty());
                        encode_utf8_decode_utf8(trimmed@);
                    }
                }
                Some(trimmed)
            }
        },
    }
}


/// What one cleaned line contributes to the mount-point search: the line
/// must mention the client id or a `/webdav/` path, split at ` on `, and
/// yield a nonempty mount point.
pub open spec fn spec_line_find(l: Seq<u8>, cid: Seq<u8>) -> Option<Seq<u8>> {
    if (contains_seq(l, cid) || contains_seq(
        l,
        seq![47u8, 119u8, 101u8, 98u8, 100u8, 97u8, 118u8, 47u8],
    )) && first_match(l, on_sep()) >= 0 {
        let mp = drop_trailing_ws(
            drop_leading_ws(
                take_before(take_before(after_match(l, on_sep()), on_sep()), paren_sep()),
            ),
        );
        if mp.len() > 0 {
            Some(mp)
        } else {
            None
        }
    } else {
        None
    }
}

/// The first mount point the table reports for a client, line by line.
pub open spec fn spec_find_mount(s: Seq<u8>, cid: Seq<u8>) -> Option<Seq<u8>>
    decreases s.len(),
{
    let i = first_occ(s, 10);
    if i < 0 || i >= s.len() {
        spec_line_find(clean_line(s), cid)
    } else {
        match spec_line_find(clean_line(s.subrange(0, i)), cid) {
            Some(m) => Some(m),
            None => spec_find_mount(s.skip(i + 1), cid),
        }
    }
}

/// One line's contribution to the search.
fn line_find(line: &str, client_id: &str) -> (r: Option<String>)
    ensures
        r matches Some(m) ==> spec_line_find(line.spec_bytes(), client_id.spec_bytes()) == Some(
            encode_utf8(m@),
        ),
        r is None ==> spec_line_find(line.spec_bytes(), client_id.spec_bytes()) is None,
{
    let slash_webdav: [u8; 8] = [47, 119, 101, 98, 100, 97, 118, 47];
    proof {
        assert(slash_webdav@ =~= seq![47u8, 119u8, 101u8, 98u8, 100u8, 97u8, 118u8, 47u8]);
    }
    if !(contains_bytes(line.as_bytes(), client_id.as_bytes()) || contains_bytes(
        line.as_bytes(),
        slash_webdav.as_slice(),
    )) {
        return None;
    }
    finder_mount_point(line)
}

/// Carves the cleaned line starting at `start` out of the output: the bytes
/// up to the next newline (or the end), with one trailing carriage return
/// dropped. Returns the line and the start of the next one (the input length
/// when this was the last line).
fn next_line(output: &str, start: usize) -> (r: (String, usize))
    requires
        start <= output.spec_bytes().len(),
        is_char_boundary(output.spec_bytes(), start as int),
    ensures
        ({
            let b = output.spec_bytes();
            let rest = b.skip(start as int);
            let i = first_occ(rest, 10);
            &&& (i < 0 ==> encode_utf8(r.0@) == clean_line(rest) && r.1 == b.len())
            &&& (i >= 0 ==> encode_utf8(r.0@) == clean_line(rest.subrange(0, i)) && r.1 == start
                + i + 1)
            &&& start < r.1 <= b.len() || (i < 0 && r.1 == b.len())
        }),
{
    let bytes = output.as_bytes();
    let n = bytes.len();
    let rest = &bytes[start..n];
    proof {
        assert(rest@ =~= bytes@.skip(start as int));
        lemma_first_occ(rest@, 10);
        encode_utf8_valid_utf8(output@);
        is_char_boundary_start_end_of_seq(bytes@);
    }
    let (line_end, next_start): (usize, usize) = match find_byte(rest, 10) {
        None => (n, n),
        Some(i) => (start + i, start + i + 1),
    };
    // drop one trailing carriage return
    let clean_end: usize = if line_end > start && bytes[line_end - 1] == 13 {
        line_end - 1
    } else {
        line_end
    };
    proof {
        let b = bytes@;
        let restg = b.skip(start as int);
        let i = first_occ(restg, 10);
        if line_end < n {
            assert(b[line_end as int] == restg[(line_end - start) as int]);
            let be = b[line_end as int];
            assert(be == 10 ==> !(be & 0xc0 == 0x80)) by (bit_vector);
            is_char_boundary_iff_not_is_continuation_byte(b, line_end as int);
        }
        if clean_end < line_end {
            let bc = b[clean_end as int];
            assert(bc == 13 ==> !(bc & 0xc0 == 0x80)) by (bit_vector);
            is_char_boundary_iff_not_is_continuation_byte(b, clean_end as int);
        }
        if i < 0 {
            assert(b.subrange(start as int, clean_end as int) =~= clean_line(restg));
        } else {
            assert(restg.subrange(0, i) =~= b.subrange(start as int, line_end as int));
            assert(b.subrange(start as int, clean_end as int) =~= clean_line(
                restg.subrange(0, i),
            ));
        }
    }
    let line = crate::strutil::substring_bytes(output, start, clean_end);
    (line, next_start)
}

/// Searches the mount table output, line by line, for the mount point of a
/// client's share.
pub fn find_webdav_mount(output: &str, client_id: &str) -> (r: Option<String>)
    ensures
        r matches Some(m) ==> spec_find_mount(output.spec_bytes(), client_id.spec_bytes()) == Some(
            encode_utf8(m@),
        ),
        r is None ==> spec_find_mount(output.spec_bytes(), client_id.spec_bytes()) is None,
{
    let bytes = output.as_bytes();
    let n = bytes.len();
    let mut start: usize = 0;
    proof {
        assert(bytes@.skip(0) =~= bytes@);
        encode_utf8_valid_utf8(output@);
        is_char_boundary_start_end_of_seq(bytes@);
    }
    loop
        invariant_except_break
            0 <= start <= n,
            n == bytes@.len(),
            bytes@ == output.spec_bytes(),
            is_char_boundary(bytes@, start as int),
            spec_find_mount(bytes@, client_id.spec_bytes()) == spec_find_mount(
                bytes@.skip(start as int),
                client_id.spec_bytes(),
            ),
        ensures
            spec_find_mount(bytes@, client_id.spec_bytes()) is None,
        decreases n + 1 - start,
    {
        let ghost restg = bytes@.skip(start as int);
        proof {
            lemma_first_occ(restg, 10);
        }
        let (line, next_start) = next_line(output, start);
        let found = line_find(line.as_str(), client_id);
        match found {
            Some(m) => {
                return Some(m);
            },
            None => {},
        }
        if next_start >= n {
            proof {
                let i = first_occ(restg, 10);
                if 0 <= i < restg.len() {
                    assert(restg.skip(i + 1) =~= bytes@.skip(start + i + 1));
                    assert(bytes@.skip(n as int) =~= Seq::<u8>::empty());
                    assert(first_occ(Seq::<u8>::empty(), 10) == -1);
                    assert(clean_line(Seq::<u8>::empty()) =~= Seq::<u8>::empty());
                    assert(first_match(Seq::<u8>::empty(), on_sep()) == -1);
                    assert(spec_line_find(Seq::<u8>::empty(), client_id.spec_bytes()) is None);
                    assert(spec_find_mount(Seq::<u8>::empty(), client_id.spec_bytes()) is None);
                }
            }
            break ;
        }
        proof {
            let i = first_occ(restg, 10);
            assert(restg.skip(i + 1) =~= bytes@.skip(start + i + 1));
            assert(bytes@[next_start - 1] == restg[i]);
            encode_utf8_valid_utf8(output@);
            lemma_ascii_boundary_step(bytes@, next_start as int);
        }
        start = next_start;
    }
    None
}


/// What one cleaned line contributes to the mount listing.
pub open spec fn line_contrib(l: Seq<u8>, p1: Seq<u8>, p2: Seq<u8>) -> Seq<
    (Seq<u8>, Seq<u8>, Seq<u8>),
> {
    if spec_line_matches(l, p1, p2) {
        seq![(spec_line_url(l), spec_line_mount_point(l), l)]
    } else {
        Seq::empty()
    }
}

/// The listing of relay mounts in the table output, line by line.
pub open spec fn spec_mount_lines(s: Seq<u8>, p1: Seq<u8>, p2: Seq<u8>) -> Seq<
    (Seq<u8>, Seq<u8>, Seq<u8>),
>
    decreases s.len(),
{
    let i = first_occ(s, 10);
    if i < 0 || i >= s.len() {
        line_contrib(clean_line(s), p1, p2)
    } else {
        line_contrib(clean_line(s.subrange(0, i)), p1, p2) + spec_mount_lines(s.skip(i + 1), p1, p2)
    }
}

/// The triple of views a listed mount carries.
pub open spec fn mount_line_view(m: MountLine) -> (Seq<u8>, Seq<u8>, Seq<u8>) {
    (encode_utf8(m.url@), encode_utf8(m.mount_point@), encode_utf8(m.raw@))
}

/// Filters and splits the mount table output into the relay's mounts, in
/// order: lines mentioning `webdav`, either port, or a `/webdav/` path, each
/// split into the share URL and the mount point.
pub fn list_mount_lines(output: &str, port: u16) -> (r: Vec<MountLine>)
    requires
        port < 65535,
    ensures
        r@.map_values(|m: MountLine| mount_line_view(m)) == spec_mount_lines(
            output.spec_bytes(),
            dec_digits(port as nat),
            dec_digits((port + 1) as nat),
        ),
{
    let bytes = output.as_bytes();
    let n = bytes.len();
    let ghost p1 = dec_digits(port as nat);
    let ghost p2 = dec_digits((port + 1) as nat);
    let mut out: Vec<MountLine> = Vec::new();
    let mut start: usize = 0;
    proof {
        assert(bytes@.skip(0) =~= bytes@);
        encode_utf8_valid_utf8(output@);
        is_char_boundary_start_end_of_seq(bytes@);
        assert(out@.map_values(|m: MountLine| mount_line_view(m)) =~= Seq::<
            (Seq<u8>, Seq<u8>, Seq<u8>),
        >::empty());
    }
    loop
        invariant_except_break
            0 <= start <= n,
            n == bytes@.len(),
            bytes@ == output.spec_bytes(),
            is_char_boundary(bytes@, start as int),
            spec_mount_lines(bytes@, p1, p2) == out@.map_values(|m: MountLine| mount_line_view(m))
                + spec_mount_lines(bytes@.skip(start as int), p1, p2),
            p1 == dec_digits(port as nat),
            p2 == dec_digits((port + 1) as nat),
            port < 65535,
        ensures
            out@.map_values(|m: MountLine| mount_line_view(m)) == spec_mount_lines(
                bytes@,
                p1,
                p2,
            ),
        decreases n + 1 - start,
    {
        let ghost restg = bytes@.skip(start as int);
        proof {
            lemma_first_occ(restg, 10);
        }
        let (line, next_start) = next_line(output, start);
        let ghost pre = out@;
        if mount_line_matches(line.as_str(), port) {
            let (url, mount_point) = parse_mount_line(line.as_str());
            out.push(MountLine { url, mount_point, raw: line });
        }
        proof {
            let f = |m: MountLine| mount_line_view(m);
            if out@.len() > pre.len() {
                assert(out@.drop_last() =~= pre);
                assert(pre.map_values(f).push(f(out@.last())) =~= out@.map_values(f));
            } else {
                assert(out@ =~= pre);
            }
        }
        if next_start >= n {
            proof {
                let i = first_occ(restg, 10);
                let f = |m: MountLine| mount_line_view(m);
                if 0 <= i < restg.len() {
                    assert(restg.skip(i + 1) =~= bytes@.skip(start + i + 1));
                    assert(bytes@.skip(n as int) =~= Seq::<u8>::empty());
                    assert(first_occ(Seq::<u8>::empty(), 10) == -1);
                    assert(clean_line(Seq::<u8>::empty()) =~= Seq::<u8>::empty());
                    assert(!spec_line_matches(Seq::<u8>::empty(), p1, p2)) by {
                        lemma_empty_no_match(p1);
                        lemma_empty_no_match(p2);
                    }
                    assert(spec_mount_lines(Seq::<u8>::empty(), p1, p2) =~= Seq::<
                        (Seq<u8>, Seq<u8>, Seq<u8>),
                    >::empty());
                }
                assert(out@.map_values(f) =~= spec_mount_lines(bytes@, p1, p2));
            }
            break ;
        }
        proof {
            let i = first_occ(restg, 10);
            assert(restg.skip(i + 1) =~= bytes@.skip(start + i + 1));
            assert(bytes@[next_start - 1] == restg[i]);
            encode_utf8_valid_utf8(output@);
            lemma_ascii_boundary_step(bytes@, next_start as int);
            assert(spec_mount_lines(bytes@, p1, p2) == out@.map_values(
                |m: MountLine| mount_line_view(m),
            ) + spec_mount_lines(bytes@.skip(next_start as int), p1, p2)) by {
                let f = |m: MountLine| mount_line_view(m);
                assert(spec_mount_lines(restg, p1, p2) == line_contrib(
                    clean_line(restg.subrange(0, i)),
                    p1,
                    p2,
                ) + spec_mount_lines(restg.skip(i + 1), p1, p2));
                assert(out@.map_values(f) =~= pre.map_values(f) + line_contrib(
                    clean_line(restg.subrange(0, i)),
                    p1,
                    p2,
                ));
                assert(pre.map_values(f) + (line_contrib(clean_line(restg.subrange(0, i)), p1, p2)
                    + spec_mount_lines(restg.skip(i + 1), p1, p2)) =~= (pre.map_values(f)
                    + line_contrib(clean_line(restg.subrange(0, i)), p1, p2))
                    + spec_mount_lines(restg.skip(i + 1), p1, p2));
            }
        }
        start = next_start;
    }
    out
}

/// A nonempty digit string cannot occur in the empty line.
proof fn lemma_empty_no_match(p: Seq<u8>)
    ensures
        p.len() >= 1 ==> !contains_seq(Seq::<u8>::empty(), p),
        !contains_seq(
            Seq::<u8>::empty(),
            seq![119u8, 101u8, 98u8, 100u8, 97u8, 118u8],
        ),
        !contains_seq(
            Seq::<u8>::empty(),
            seq![47u8, 119u8, 101u8, 98u8, 100u8, 97u8, 118u8, 47u8],
        ),
{
}

} // verus!
