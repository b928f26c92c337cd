//! The WebDAV adapter: translates each DAV verb into a JSON command for the
//! remote, interprets the replies, models the two file-handle shapes, and
//! makes the routing decisions of the `/webdav/` subtree.

use vstd::prelude::*;
use vstd::string::StringSliceAdditionalSpecFns;
use vstd::utf8::*;
use crate::base64::{base64_encode, spec_b64_encode};
use crate::bytesutil::{find_byte, lemma_first_occ, starts_with_seq, starts_with_bytes};
use crate::frames;
use crate::isotime::{spec_parse_iso, take_until, parse_iso_to_systemtime};
use crate::outside;
use crate::strutil::substring_bytes;
use vstd::string::StrSliceExecFns;

verus! {

/// One raw directory entry as the remote reported it, fields missing where
/// the reply lacked them.
pub struct RawEntry {
    pub name: Option<String>,
    pub is_dir: Option<bool>,
    pub size: Option<u64>,
    pub modified: Option<String>,
}

/// The raw fields of a `readFile` reply.
pub struct RawFilePayload {
    pub data_b64: Option<String>,
    pub size: Option<u64>,
    pub modified: Option<String>,
}

/// The view of a raw entry, field by field.
pub open spec fn raw_entry_view(e: RawEntry) -> (
    Option<Seq<char>>,
    Option<bool>,
    Option<u64>,
    Option<Seq<char>>,
) {
    (crate::strutil::opt_chars(e.name), e.is_dir, e.size, crate::strutil::opt_chars(e.modified))
}

/// The view of a raw file payload, field by field.
pub open spec fn raw_payload_view(p: RawFilePayload) -> (
    Option<Seq<char>>,
    Option<u64>,
    Option<Seq<char>>,
) {
    (crate::strutil::opt_chars(p.data_b64), p.size, crate::strutil::opt_chars(p.modified))
}

/// A directory entry as the DAV layer sees it.
pub struct DirEntry {
    pub name: String,
    pub is_dir: bool,
    pub size: u64,
    pub modified: String,
}

/// Metadata of a file or directory.
pub struct RelayMetaData {
    pub is_dir: bool,
    pub size: u64,
    pub modified: String,
}

impl RelayMetaData {
    /// The entry's length in bytes.
    pub fn len(&self) -> (r: u64)
        ensures
            r == self.size,
    {
        self.size
    }

    /// Whether the entry is a directory.
    pub fn is_dir(&self) -> (r: bool)
        ensures
            r == self.is_dir,
    {
        self.is_dir
    }

    /// The modification time in epoch seconds: the parsed timestamp, or the
    /// supplied current time when the field is empty or malformed.
    pub fn modified_epoch(&self, now_secs: u64) -> (r: u64)
        ensures
            self.modified@.len() == 0 ==> r == now_secs,
            self.modified@.len() > 0 ==> r == (match spec_parse_iso(
                encode_utf8(self.modified@),
            ) {
                Some(t) => t,
                None => now_secs,
            }),
    {
        if self.modified.as_str().unicode_len() == 0 {
            now_secs
        } else {
            match parse_iso_to_systemtime(self.modified.as_str()) {
                Some(t) => t,
                None => now_secs,
            }
        }
    }
}

/// The defaults the adapter fills a raw entry with: empty name, a plain
/// file, size zero, no timestamp.
pub open spec fn spec_entry_from_raw(raw: RawEntry) -> (Seq<char>, bool, u64, Seq<char>) {
    (
        match raw.name {
            Some(n) => n@,
            None => Seq::empty(),
        },
        match raw.is_dir {
            Some(d) => d,
            None => false,
        },
        match raw.size {
            Some(s) => s,
            None => 0u64,
        },
        match raw.modified {
            Some(m) => m@,
            None => Seq::empty(),
        },
    )
}

/// Fills one raw entry with the adapter's defaults.
pub fn entry_from_raw(raw: RawEntry) -> (r: DirEntry)
    ensures
        (r.name@, r.is_dir, r.size, r.modified@) == spec_entry_from_raw(raw),
{
    DirEntry {
        name: match raw.name {
            Some(n) => n,
            None => String::new(),
        },
        is_dir: match raw.is_dir {
            Some(d) => d,
            None => false,
        },
        size: match raw.size {
            Some(s) => s,
            None => 0,
        },
        modified: match raw.modified {
            Some(m) => m,
            None => String::new(),
        },
    }
}

/// Fills a whole listing with defaults, keeping order and length.
pub fn entries_from_raw(raw: Vec<RawEntry>) -> (r: Vec<DirEntry>)
    ensures
        r@.len() == raw@.len(),
        forall|i: int|
            0 <= i < raw@.len() ==> (#[trigger] r@[i].name@, r@[i].is_dir, r@[i].size, r@[i].modified@) == spec_entry_from_raw(raw@[i]),
{
    let mut out: Vec<DirEntry> = Vec::new();
    let mut src = raw;
    let n = src.len();
    let mut i: usize = 0;
    let ghost orig = src@;
    while i < n
        invariant
            0 <= i <= n,
            n == orig.len(),
            src@ == orig.skip(i as int),
            out@.len() == i,
            forall|k: int|
                0 <= k < i ==> (#[trigger] out@[k].name@, out@[k].is_dir, out@[k].size, out@[k].modified@) == spec_entry_from_raw(orig[k]),
        decreases n - i,
    {
        let e = src.remove(0);
        proof {
            assert(orig.skip(i as int)[0] == orig[i as int]);
            assert(orig.skip(i as int).remove(0) =~= orig.skip(i + 1));
        }
        let d = entry_from_raw(e);
        let ghost dg = d;
        let ghost preout = out@;
        proof {
            assert(e == orig[i as int]);
            assert((dg.name@, dg.is_dir, dg.size, dg.modified@) == spec_entry_from_raw(
                orig[i as int],
            ));
        }
        out.push(d);
        proof {
            assert(out@ == preout.push(dg));
            assert forall|k: int|
                0 <= k < i + 1 implies (#[trigger] out@[k].name@, out@[k].is_dir, out@[k].size, out@[k].modified@)
                == spec_entry_from_raw(orig[k]) by {
                if k < i {
                    assert(out@[k] == preout[k]);
                    assert((preout[k].name@, preout[k].is_dir, preout[k].size, preout[k].modified@)
                        == spec_entry_from_raw(orig[k]));
                } else {
                    assert(out@[k] == dg);
                }
            }
        }
        i += 1;
    }
    out
}

/// The raw listing of a `readdir` reply: exactly the named extraction of the
/// reply's characters, `None` when it carries no array.
pub fn parse_dir_listing(text: &str) -> (r: Option<Vec<RawEntry>>)
    ensures
        r is Some <==> outside::dir_entries_of(text@) is Some,
        r matches Some(v) ==> ({
            let f = outside::dir_entries_of(text@).unwrap();
            &&& v@.len() == f.len()
            &&& forall|i: int| 0 <= i < f.len() ==> #[trigger] raw_entry_view(v@[i]) == f[i]
        }),
{
    outside::parse_dir_entries(text)
}

/// The raw entry fields of a `stat` reply: exactly the named extraction of
/// the reply's characters.
pub fn parse_stat_reply(text: &str) -> (r: RawEntry)
    ensures
        raw_entry_view(r) == outside::stat_fields_of(text@),
{
    outside::parse_stat_entry(text)
}

/// The raw payload of a `readFile` reply: exactly the named extraction of
/// the reply's characters.
pub fn parse_file_reply(text: &str) -> (r: RawFilePayload)
    ensures
        raw_payload_view(r) == outside::file_payload_of(text@),
{
    outside::parse_file_payload(text)
}

/// The readable file contents decoded from a `readFile` reply: the base64
/// payload decoded, the reported size (or the decoded length), and the
/// reported timestamp (or none).
pub fn open_read_payload(p: RawFilePayload) -> (r: (Vec<u8>, u64, String))
    ensures
        ({
            let decoded = (match p.data_b64 {
                Some(d) => crate::base64::spec_b64_decode(encode_utf8(d@)),
                None => Seq::<u8>::empty(),
            });
            &&& r.0@ == decoded
            &&& r.1 == (match p.size {
                Some(s) => s,
                None => decoded.len() as u64,
            })
            &&& r.2@ == (match p.modified {
                Some(m) => m@,
                None => Seq::<char>::empty(),
            })
        }),
{
    let bytes: Vec<u8> = match &p.data_b64 {
        Some(d) => crate::base64::base64_decode(d.as_str()),
        None => Vec::new(),
    };
    proof {
        if p.data_b64 is None {
            assert(bytes@ =~= Seq::<u8>::empty());
        }
    }
    let size: u64 = match p.size {
        Some(s) => s,
        None => bytes.len() as u64,
    };
    let modified: String = match p.modified {
        Some(m) => m,
        None => String::new(),
    };
    (bytes, size, modified)
}

/// A file handle opened for reading: the decoded contents and a cursor.
pub struct ReadableFile {
    pub data: Vec<u8>,
    pub pos: usize,
    pub size: u64,
    pub modified: String,
}

/// Where a seek starts from.
pub enum SeekWhence {
    FromStart(u64),
    FromEnd(i64),
    FromCurrent(i64),
}

/// The cursor a seek lands on: the target clamps to the end when past it,
/// and a target before the start also lands at the end (the unsigned cursor
/// wraps, and the wrapped value clamps).
pub open spec fn spec_seek_pos(len: int, pos: int, whence: SeekWhence) -> int {
    let target = match whence {
        SeekWhence::FromStart(n) => n as int,
        SeekWhence::FromEnd(n) => len + n,
        SeekWhence::FromCurrent(n) => pos + n,
    };
    if target < 0 {
        len
    } else if target > len {
        len
    } else {
        target
    }
}

impl ReadableFile {
    /// A fresh readable handle over decoded contents.
    pub fn new_readable(data: Vec<u8>, size: u64, modified: String) -> (r: Self)
        ensures
            r.data@ == data@,
            r.pos == 0,
            r.size == size,
            r.modified@ == modified@,
    {
        ReadableFile { data, pos: 0, size, modified }
    }

    /// Reads up to `count` bytes from the cursor, clamped at the end, and
    /// advances the cursor past what was read.
    pub fn read_bytes(&mut self, count: usize) -> (r: Vec<u8>)
        requires
            old(self).pos <= old(self).data@.len(),
        ensures
            ({
                let end = if old(self).pos + count <= old(self).data@.len() {
                    old(self).pos + count
                } else {
                    old(self).data@.len() as int
                };
                &&& r@ == old(self).data@.subrange(old(self).pos as int, end)
                &&& final(self).pos == end
                &&& final(self).data@ == old(self).data@
                &&& final(self).size == old(self).size
                &&& final(self).modified@ == old(self).modified@
            }),
    {
        let len = self.data.len();
        let end = if count <= len - self.pos {
            self.pos + count
        } else {
            len
        };
        let mut chunk: Vec<u8> = Vec::new();
        let mut i = self.pos;
        while i < end
            invariant
                self.pos <= i <= end <= self.data@.len(),
                chunk@ == self.data@.subrange(self.pos as int, i as int),
            decreases end - i,
        {
            chunk.push(self.data[i]);
            proof {
                assert(self.data@.subrange(self.pos as int, i + 1) =~= self.data@.subrange(
                    self.pos as int,
                    i as int,
                ).push(self.data@[i as int]));
            }
            i += 1;
        }
        self.pos = end;
        chunk
    }

    /// Seeks the read cursor; only the cursor moves, and it clamps to the
    /// contents' bounds.
    pub fn seek(&mut self, whence: SeekWhence) -> (r: u64)
        requires
            old(self).pos <= old(self).data@.len(),
            old(self).data@.len() <= 0x7fff_ffff_ffff_ffff,
        ensures
            final(self).pos == spec_seek_pos(
                old(self).data@.len() as int,
                old(self).pos as int,
                whence,
            ),
            r == final(self).pos,
            final(self).data@ == old(self).data@,
            final(self).size == old(self).size,
            final(self).modified@ == old(self).modified@,
    {
        let len = self.data.len();
        let target: i128 = match whence {
            SeekWhence::FromStart(n) => n as i128,
            SeekWhence::FromEnd(n) => len as i128 + n as i128,
            SeekWhence::FromCurrent(n) => self.pos as i128 + n as i128,
        };
        let new_pos: usize = if target < 0 {
            len
        } else if target > len as i128 {
            len
        } else {
            target as usize
        };
        self.pos = new_pos;
        new_pos as u64
    }

    /// The metadata the DAV layer reads off an open readable file: never a
    /// directory.
    pub fn metadata(&self) -> (r: RelayMetaData)
        ensures
            r.is_dir == false,
            r.size == self.size,
            r.modified@ == self.modified@,
    {
        RelayMetaData {
            is_dir: false,
            size: self.size,
            modified: crate::mountpath::clone_string(&self.modified),
        }
    }
}

/// A file handle opened for writing: writes accumulate in memory and flush
/// emits one `writeFile` command with the whole buffer.
pub struct WritableFile {
    pub path: String,
    pub buf: Vec<u8>,
}

impl WritableFile {
    /// A fresh writable handle for a path.
    pub fn new_writable(path: String) -> (r: Self)
        ensures
            r.path@ == path@,
            r.buf@ == Seq::<u8>::empty(),
    {
        WritableFile { path, buf: Vec::new() }
    }

    /// Appends a chunk to the write buffer.
    pub fn write_bytes(&mut self, chunk: &[u8])
        ensures
            final(self).buf@ == old(self).buf@ + chunk@,
            final(self).path@ == old(self).path@,
    {
        self.buf.extend_from_slice(chunk);
    }

    /// The flush frame: `None` when nothing was written; otherwise the
    /// `writeFile` command carrying the whole buffer base64-encoded, and the
    /// buffer is emptied.
    pub fn flush_frame(&mut self, request_id: &str) -> (r: Option<String>)
        ensures
            old(self).buf@.len() == 0 ==> r is None && final(self).buf@ == old(self).buf@,
            old(self).buf@.len() > 0 ==> (r matches Some(f) && encode_utf8(f@)
                == frames::spec_write_frame(
                encode_utf8(old(self).path@),
                spec_b64_encode(old(self).buf@),
                request_id.spec_bytes(),
            ) && final(self).buf@ == Seq::<u8>::empty()),
            final(self).path@ == old(self).path@,
    {
        if self.buf.len() == 0 {
            return None;
        }
        let encoded = base64_encode(self.buf.as_slice());
        self.buf.clear();
        let frame = frames::write_frame(self.path.as_str(), encoded.as_str(), request_id);
        Some(frame)
    }
}

/// The command frame of each DAV verb except write, whose frame carries the
/// flushed buffer (see `WritableFile::flush_frame`). Copy is never
/// dispatched: the adapter reports it unimplemented.
pub fn readdir_frame(path: &str, request_id: &str) -> (r: String)
    ensures
        encode_utf8(r@) == frames::spec_path_frame(
            seq![114u8, 101u8, 97u8, 100u8, 100u8, 105u8, 114u8],
            path.spec_bytes(),
            request_id.spec_bytes(),
        ),
{
    let t = "readdir";
    proof {
        reveal_strlit("readdir");
        vstd::string::is_ascii_spec_bytes(t);
        assert(t.spec_bytes() =~= seq![114u8, 101u8, 97u8, 100u8, 100u8, 105u8, 114u8]);
    }
    frames::path_frame(t, path, request_id)
}

pub fn read_file_frame(path: &str, request_id: &str) -> (r: String)
    ensures
        encode_utf8(r@) == frames::spec_path_frame(
            seq![114u8, 101u8, 97u8, 100u8, 70u8, 105u8, 108u8, 101u8],
            path.spec_bytes(),
            request_id.spec_bytes(),
        ),
{
    let t = "readFile";
    proof {
        reveal_strlit("readFile");
        vstd::string::is_ascii_spec_bytes(t);
        assert(t.spec_bytes() =~= seq![114u8, 101u8, 97u8, 100u8, 70u8, 105u8, 108u8, 101u8]);
    }
    frames::path_frame(t, path, request_id)
}

pub fn mkdir_frame(path: &str, request_id: &str) -> (r: String)
    ensures
        encode_utf8(r@) == frames::spec_path_frame(
            seq![109u8, 107u8, 100u8, 105u8, 114u8],
            path.spec_bytes(),
            request_id.spec_bytes(),
        ),
{
    let t = "mkdir";
    proof {
        reveal_strlit("mkdir");
        vstd::string::is_ascii_spec_bytes(t);
        assert(t.spec_bytes() =~= seq![109u8, 107u8, 100u8, 105u8, 114u8]);
    }
    frames::path_frame(t, path, request_id)
}

pub fn delete_frame(path: &str, request_id: &str) -> (r: String)
    ensures
        encode_utf8(r@) == frames::spec_path_frame(
            seq![100u8, 101u8, 108u8, 101u8, 116u8, 101u8],
            path.spec_bytes(),
            request_id.spec_bytes(),
        ),
{
    let t = "delete";
    proof {
        reveal_strlit("delete");
        vstd::string::is_ascii_spec_bytes(t);
        assert(t.spec_bytes() =~= seq![100u8, 101u8, 108u8, 101u8, 116u8, 101u8]);
    }
    frames::path_frame(t, path, request_id)
}

pub fn stat_frame(path: &str, request_id: &str) -> (r: String)
    ensures
        encode_utf8(r@) == frames::spec_path_frame(
            seq![115u8, 116u8, 97u8, 116u8],
            path.spec_bytes(),
            request_id.spec_bytes(),
        ),
{
    let t = "stat";
    proof {
        reveal_strlit("stat");
        vstd::string::is_ascii_spec_bytes(t);
        assert(t.spec_bytes() =~= seq![115u8, 116u8, 97u8, 116u8]);
    }
    frames::path_frame(t, path, request_id)
}

pub fn rename_frame(old_path: &str, new_path: &str, request_id: &str) -> (r: String)
    ensures
        encode_utf8(r@) == frames::spec_rename_frame(
            old_path.spec_bytes(),
            new_path.spec_bytes(),
            request_id.spec_bytes(),
        ),
{
    frames::rename_frame(old_path, new_path, request_id)
}

/// The copy verb is never relayed: the browser capability cannot copy
/// server-side, so the adapter reports it unimplemented without dispatching.
pub fn copy_unsupported() -> (e: crate::relay::RelayError)
    ensures
        e is NotImplemented,
{
    crate::relay::RelayError::NotImplemented
}

/// Whether an open call wants a writable handle: any of the write-intent
/// options set.
pub fn open_wants_write(write: bool, create: bool, create_new: bool) -> (r: bool)
    ensures
        r == (create || create_new || write),
{
    create || create_new || write
}

/// What a `stat` does for a path: the root is answered with a synthetic
/// directory without touching the remote; everything else round-trips.
pub enum StatPlan {
    SyntheticRoot,
    AskRemote,
}

pub fn stat_plan(path: &str) -> (r: StatPlan)
    ensures
        (path@.len() == 0 || path@ == "/"@) <==> r is SyntheticRoot,
{
    let pb = path.as_bytes();
    proof {
        reveal_strlit("/");
        encode_utf8_valid_utf8(path@);
        if pb@.len() == 0 {
            assert(path@.len() == 0) by {
                if path@.len() > 0 {
                    encode_utf8_decode_utf8(path@);
                    assert(decode_utf8(encode_utf8(path@)) =~= Seq::<char>::empty());
                }
            }
        }
        if pb@.len() == 1 && pb@[0] == 47 {
            crate::strutil::lemma_ascii_bytes(seq![47u8]);
            assert(decode_utf8(pb@) =~= seq!['/']);
            decode_utf8_encode_utf8(pb@);
            encode_utf8_decode_utf8(path@);
            assert(path@ =~= seq!['/']);
            assert("/"@ =~= seq!['/']);
        }
        if path@.len() == 0 {
            assert(encode_utf8(path@) =~= Seq::<u8>::empty());
        }
        if path@ == "/"@ {
            assert(path@ =~= seq!['/']);
            crate::strutil::lemma_ascii_bytes(seq![47u8]);
            assert(encode_utf8(seq!['/']) =~= seq![47u8]) by {
                vstd::utf8::is_ascii_chars_encode_utf8(seq!['/']);
            }
        }
    }
    if pb.len() == 0 || (pb.len() == 1 && pb[0] == 47) {
        StatPlan::SyntheticRoot
    } else {
        StatPlan::AskRemote
    }
}

/// The synthetic directory metadata of the share's root: a directory with no
/// recorded timestamp, whatever the remote's state.
pub fn synthetic_root_meta() -> (r: RelayMetaData)
    ensures
        r.is_dir == true,
        r.size == 0,
        r.modified@.len() == 0,
{
    RelayMetaData { is_dir: true, size: 0, modified: String::new() }
}

/// The client-id segment of a `/webdav/...` request path: the `/webdav/`
/// prefix stripped, then everything before the next slash.
pub open spec fn spec_webdav_client_id(p: Seq<u8>) -> Seq<u8> {
    let stripped = if starts_with_seq(
        p,
        seq![47u8, 119u8, 101u8, 98u8, 100u8, 97u8, 118u8, 47u8],
    ) {
        p.skip(8)
    } else {
        p
    };
    take_until(stripped, 47)
}

/// Extracts the client-id segment of a `/webdav/...` request path.
pub fn webdav_client_id(path: &str) -> (r: String)
    ensures
        encode_utf8(r@) == spec_webdav_client_id(path.spec_bytes()),
{
    let pb = path.as_bytes();
    let n = pb.len();
    let prefix: [u8; 8] = [47, 119, 101, 98, 100, 97, 118, 47];
    proof {
        assert(prefix@ =~= seq![47u8, 119u8, 101u8, 98u8, 100u8, 97u8, 118u8, 47u8]);
        encode_utf8_valid_utf8(path@);
    }
    let has_prefix = starts_with_bytes(pb, prefix.as_slice());
    let start: usize = if has_prefix {
        8
    } else {
        0
    };
    let rest = &pb[start..n];
    proof {
        assert(rest@ =~= pb@.skip(start as int));
        lemma_first_occ(rest@, 47);
        if has_prefix {
            assert forall|k: int| 0 <= k < 8 implies pb@[k] < 0x80 by {
                assert(pb@.subrange(0, 8)[k] == pb@[k]);
                assert(pb@.subrange(0, 8)[k] == prefix@[k]);
            }
        }
        crate::strutil::lemma_ascii_prefix_boundary(pb@, start as int);
    }
    let end: usize = match find_byte(rest, 47) {
        None => n,
        Some(i) => start + i,
    };
    proof {
        is_char_boundary_start_end_of_seq(pb@);
        if end < n {
            assert(pb@[end as int] == rest@[(end - start) as int]);
            assert(rest@[(end - start) as int] == 47);
            let be = pb@[end as int];
            assert(be == 47 ==> !(be & 0xc0 == 0x80)) by (bit_vector);
            is_char_boundary_iff_not_is_continuation_byte(pb@, end as int);
        }
        assert(pb@.subrange(start as int, end as int) =~= take_until(pb@.skip(start as int), 47));
    }
    let out = substring_bytes(path, start, end);
    proof {
        assert(encode_utf8(out@) == pb@.subrange(start as int, end as int));
        assert(pb@.subrange(start as int, end as int) == take_until(pb@.skip(start as int), 47));
        assert(pb@.skip(start as int) == (if starts_with_seq(
            path.spec_bytes(),
            seq![47u8, 119u8, 101u8, 98u8, 100u8, 97u8, 118u8, 47u8],
        ) {
            path.spec_bytes().skip(8)
        } else {
            path.spec_bytes()
        }));
        assert(take_until(pb@.skip(start as int), 47) == spec_webdav_client_id(
            path.spec_bytes(),
        ));
    }
    out
}

/// The front door's decision for a `/webdav/` request, taken before any
/// table is consulted: an empty or non-UUID client id is rejected outright
/// (404); an OPTIONS request is answered with the DAV capability headers
/// even if no endpoint has ever connected; everything else is forwarded to
/// the adapter.
pub enum WebdavRoute {
    InvalidClient,
    OptionsShortCircuit,
    Forward,
}

pub fn route_webdav(method: &str, path: &str) -> (r: WebdavRoute)
    ensures
        ({
            let cid = spec_webdav_client_id(path.spec_bytes());
            &&& (r is InvalidClient <==> (cid.len() == 0 || !outside::uuid_accepts(
                decode_utf8(cid),
            )))
            &&& (r is OptionsShortCircuit <==> (cid.len() > 0 && outside::uuid_accepts(
                decode_utf8(cid),
            ) && method@ == "OPTIONS"@))
            &&& (r is Forward <==> (cid.len() > 0 && outside::uuid_accepts(decode_utf8(cid))
                && method@ != "OPTIONS"@))
        }),
{
    let cid = webdav_client_id(path);
    proof {
        encode_utf8_decode_utf8(cid@);
        if cid@.len() == 0 {
            assert(encode_utf8(cid@) =~= Seq::<u8>::empty());
        }
        if encode_utf8(cid@).len() == 0 && cid@.len() > 0 {
            assert(decode_utf8(encode_utf8(cid@)) =~= Seq::<char>::empty());
        }
    }
    if cid.as_str().unicode_len() == 0 || !outside::is_valid_uuid(cid.as_str()) {
        return WebdavRoute::InvalidClient;
    }
    if crate::strutil::str_eq(method, "OPTIONS") {
        WebdavRoute::OptionsShortCircuit
    } else {
        WebdavRoute::Forward
    }
}

/// The headers of the OPTIONS short-circuit reply: the DAV capability class,
/// the verb list (PROPFIND included), the authoring hint, and an empty body.
pub fn dav_capability_headers() -> (r: Vec<(String, String)>)
    ensures
        r@.len() == 4,
        r@[0].0@ == "DAV"@ && r@[0].1@ == "1, 2"@,
        r@[1].0@ == "Allow"@ && r@[1].1@ ==
        "OPTIONS, GET, HEAD, PUT, DELETE, MKCOL, COPY, MOVE, PROPFIND, PROPPATCH, LOCK, UNLOCK"@,
        r@[2].0@ == "MS-Author-Via"@ && r@[2].1@ == "DAV"@,
        r@[3].0@ == "Content-Length"@ && r@[3].1@ == "0"@,
{
    let mut v: Vec<(String, String)> = Vec::new();
    v.push(("DAV".to_owned(), "1, 2".to_owned()));
    v.push(
        (
            "Allow".to_owned(),
            "OPTIONS, GET, HEAD, PUT, DELETE, MKCOL, COPY, MOVE, PROPFIND, PROPPATCH, LOCK, UNLOCK".to_owned(),
        ),
    );
    v.push(("MS-Author-Via".to_owned(), "DAV".to_owned()));
    v.push(("Content-Length".to_owned(), "0".to_owned()));
    v
}

/// The DAV header every adapter response carries so the host's file browser
/// recognises the share.
pub fn dav_header() -> (r: (String, String))
    ensures
        r.0@ == "DAV"@,
        r.1@ == "1, 2"@,
{
    ("DAV".to_owned(), "1, 2".to_owned())
}

/// The status downgrade applied after the DAV layer: a generic 500 (the
/// layer's rendering of a failed relay probe) becomes 404 so the host's file
/// browser treats it as a missing entry.
pub fn downgrade_status(status: u16) -> (r: u16)
    ensures
        status == 500 ==> r == 404,
        status != 500 ==> r == status,
{
    if status == 500 {
        404
    } else {
        status
    }
}

} // verus!
