//! The authorization and mount-path safety model: tilde expansion,
//! containment under the allowed base, and the decisions of the mount and
//! unmount endpoints.

use vstd::prelude::*;
use vstd::string::StringSliceAdditionalSpecFns;
use vstd::utf8::*;
use crate::bytesutil::{contains_seq, starts_with_seq, trim_end_seq, trimmed_end_len,
    lemma_trimmed_end_len_bounds, contains_bytes, starts_with_bytes, trim_end_len, is_match_at};

use crate::outside;
use crate::strutil::{ascii_seq, bytes_as_chars, dec_chars_i32, dec_digits, i32_to_string,
    u64_to_string};

verus! {

/// Body of `POST /api/mount`.
pub struct MountRequest {
    pub client_id: String,
    pub mount_path: String,
}

/// Body of `POST /api/unmount`.
pub struct UnmountRequest {
    pub mount_path: String,
}

/// The two bytes `..`, whose occurrence anywhere rejects a path.
pub open spec fn dotdot() -> Seq<u8> {
    seq![46u8, 46u8]
}

/// `~` expanded to the home directory when the path is `~` or starts `~/`.
pub open spec fn spec_expand_tilde(p: Seq<u8>, home: Seq<u8>) -> Seq<u8> {
    if p.len() >= 1 && p[0] == 126 && (p.len() == 1 || p[1] == 47) {
        home + p.skip(1)
    } else {
        p
    }
}

/// Expands a leading `~` to the home directory.
pub fn expand_tilde(path: &str, home: &str) -> (r: String)
    ensures
        encode_utf8(r@) == spec_expand_tilde(path.spec_bytes(), home.spec_bytes()),
{
    let pb = path.as_bytes();
    let hb = home.as_bytes();
    if pb.len() >= 1 && pb[0] == 126 && (pb.len() == 1 || pb[1] == 47) {
        let mut out: Vec<u8> = Vec::new();
        out.extend_from_slice(hb);
        let rest = &pb[1..pb.len()];
        out.extend_from_slice(rest);
        proof {
            assert(rest@ =~= pb@.skip(1));
            encode_utf8_valid_utf8(path@);
            encode_utf8_valid_utf8(home@);
            is_char_boundary_start_end_of_seq(pb@);
            if pb@.len() > 1 {
                is_char_boundary_iff_not_is_continuation_byte(pb@, 1);
            }
            valid_utf8_split(pb@, 1);
            assert(pb@.subrange(1, pb@.len() as int) =~= pb@.skip(1));
            valid_utf8_concat(hb@, pb@.skip(1));
            assert(out@ =~= hb@ + pb@.skip(1));
        }
        let ghost ob = out@;
        match outside::vec_to_string(out) {
            Some(t) => {
                proof {
                    decode_utf8_encode_utf8(ob);
                }
                t
            },
            None => {
                proof {
                    assert(false);
                }
                String::new()
            },
        }
    } else {
        path.to_owned()
    }
}

/// The validated (expanded) mount path: `None` when the path holds `..` or
/// its expansion does not lie under the expanded allowed base, both compared
/// with trailing slashes trimmed.
pub open spec fn spec_validate_mount_path(p: Seq<u8>, base: Seq<u8>, home: Seq<u8>) -> Option<
    Seq<u8>,
> {
    if contains_seq(p, dotdot()) {
        None
    } else {
        let e = spec_expand_tilde(p, home);
        let a = spec_expand_tilde(base, home);
        if starts_with_seq(trim_end_seq(e, 47), trim_end_seq(a, 47)) {
            Some(e)
        } else {
            None
        }
    }
}

/// Checks a requested mount path against the allowed base: rejects `..`
/// anywhere, expands `~`, and requires the expansion to lie under the
/// expanded base. Returns the expanded path, or the rejection message.
pub fn validate_mount_path(path: &str, allowed_base: &str, home: &str) -> (r: Result<
    String,
    String,
>)
    ensures
        r matches Ok(e) ==> spec_validate_mount_path(
            path.spec_bytes(),
            allowed_base.spec_bytes(),
            home.spec_bytes(),
        ) == Some(encode_utf8(e@)),
        r is Err ==> spec_validate_mount_path(
            path.spec_bytes(),
            allowed_base.spec_bytes(),
            home.spec_bytes(),
        ) is None,
        r matches Err(m) ==> (m@ == "Path must not contain '..'"@ || m@ ==
        "Mount path must be under '"@ + allowed_base@ + "' (got '"@ + path@ + "')"@),
{
    let pb = path.as_bytes();
    let dd: [u8; 2] = [46, 46];
    if contains_bytes(pb, dd.as_slice()) {
        proof {
            assert(dd@ =~= dotdot());
        }
        return Err("Path must not contain '..'".to_owned());
    }
    proof {
        assert(dd@ =~= dotdot());
    }
    let expanded = expand_tilde(path, home);
    let allowed_expanded = expand_tilde(allowed_base, home);
    let eb = expanded.as_str().as_bytes();
    let ab = allowed_expanded.as_str().as_bytes();
    let e_len = trim_end_len(eb, 47);
    let a_len = trim_end_len(ab, 47);
    proof {
        lemma_trimmed_end_len_bounds(eb@, 47);
        lemma_trimmed_end_len_bounds(ab@, 47);
    }
    let e_trim = &eb[0..e_len];
    let a_trim = &ab[0..a_len];
    proof {
        assert(e_trim@ =~= trim_end_seq(eb@, 47));
        assert(a_trim@ =~= trim_end_seq(ab@, 47));
    }
    if starts_with_bytes(e_trim, a_trim) {
        Ok(expanded)
    } else {
        let mut m = "Mount path must be under '".to_owned();
        m.append(allowed_base);
        m.append("' (got '");
        m.append(path);
        m.append("')");
        Err(m)
    }
}

/// No `..` survives into a validated expansion when the home directory is
/// itself clean: the home path holds no `..` and does not end in `.`.
pub proof fn lemma_validated_path_safe(p: Seq<u8>, base: Seq<u8>, home: Seq<u8>)
    requires
        spec_validate_mount_path(p, base, home) is Some,
        !contains_seq(home, dotdot()),
        home.len() == 0 || home.last() != 46,
    ensures
        !contains_seq(spec_validate_mount_path(p, base, home).unwrap(), dotdot()),
        starts_with_seq(
            trim_end_seq(spec_validate_mount_path(p, base, home).unwrap(), 47),
            trim_end_seq(spec_expand_tilde(base, home), 47),
        ),
{
    let e = spec_validate_mount_path(p, base, home).unwrap();
    assert(!contains_seq(p, dotdot()));
    if p.len() >= 1 && p[0] == 126 && (p.len() == 1 || p[1] == 47) {
        let tail = p.skip(1);
        assert(e == home + tail);
        assert forall|i: int| !is_match_at(e, dotdot(), i) by {
            if 0 <= i && i + 2 <= e.len() {
                if i + 2 <= home.len() {
                    // a match here would be a match inside home
                    if e.subrange(i, i + 2) == dotdot() {
                        assert(home.subrange(i, i + 2) =~= e.subrange(i, i + 2));
                        assert(is_match_at(home, dotdot(), i));
                    }
                } else if i < home.len() {
                    // the match would straddle the seam, but home does not
                    // end in '.'
                    assert(i == home.len() - 1);
                    if e.subrange(i, i + 2) == dotdot() {
                        assert(e[i] == home.last());
                        assert(e.subrange(i, i + 2)[0] == 46);
                    }
                } else {
                    // a match here would be a match inside the path tail
                    if e.subrange(i, i + 2) == dotdot() {
                        let j = i - home.len();
                        assert(tail.subrange(j, j + 2) =~= e.subrange(i, i + 2));
                        assert(is_match_at(tail, dotdot(), j));
                        assert(p.subrange(j + 1, j + 3) =~= tail.subrange(j, j + 2));
                        assert(is_match_at(p, dotdot(), j + 1));
                    }
                }
            }
        }
    } else {
        assert(e == p);
    }
}

/// Validation is idempotent: validating an already-validated path accepts it
/// and returns it unchanged, provided the home directory is clean (no `..`,
/// no trailing `.`, and not itself starting with `~`).
pub proof fn lemma_validate_idempotent(p: Seq<u8>, base: Seq<u8>, home: Seq<u8>)
    requires
        spec_validate_mount_path(p, base, home) is Some,
        !contains_seq(home, dotdot()),
        home.len() == 0 || home.last() != 46,
        home.len() == 0 || home[0] != 126,
    ensures
        spec_validate_mount_path(
            spec_validate_mount_path(p, base, home).unwrap(),
            base,
            home,
        ) == spec_validate_mount_path(p, base, home),
{
    let e = spec_validate_mount_path(p, base, home).unwrap();
    lemma_validated_path_safe(p, base, home);
    assert(spec_expand_tilde(e, home) == e) by {
        if p.len() >= 1 && p[0] == 126 && (p.len() == 1 || p[1] == 47) {
            if home.len() >= 1 {
                assert(e[0] == home[0]);
            } else {
                if e.len() >= 1 {
                    assert(e =~= p.skip(1));
                    assert(e[0] == p[1]);
                }
            }
        }
    }
}

/// The mount point for a client under the validated base path:
/// `{base}/ljc-{first8(client_id)}` with trailing slashes of the base
/// trimmed.
pub open spec fn spec_mount_point(validated: Seq<u8>, id: Seq<u8>) -> Seq<u8> {
    trim_end_seq(validated, 47) + seq![47u8, 108u8, 106u8, 99u8, 45u8] + (if id.len() > 8 {
        id.subrange(0, 8)
    } else {
        id
    })
}

/// Builds the per-client mount point path.
pub fn mount_point_for(validated: &str, client_id: &str) -> (r: String)
    requires
        vstd::string::is_ascii(client_id),
    ensures
        encode_utf8(r@) == spec_mount_point(validated.spec_bytes(), client_id.spec_bytes()),
{
    let vb = validated.as_bytes();
    let ib = client_id.as_bytes();
    let v_len = trim_end_len(vb, 47);
    proof {
        lemma_trimmed_end_len_bounds(vb@, 47);
    }
    let mut out: Vec<u8> = Vec::new();
    out.extend_from_slice(&vb[0..v_len]);
    out.push(47);
    out.push(108);
    out.push(106);
    out.push(99);
    out.push(45);
    let take: usize = if ib.len() > 8 {
        8
    } else {
        ib.len()
    };
    out.extend_from_slice(&ib[0..take]);
    proof {
        assert(out@ =~= spec_mount_point(vb@, ib@));
        encode_utf8_valid_utf8(validated@);
        let tl = trimmed_end_len(vb@, 47);
        if tl < vb@.len() {
            crate::bytesutil::lemma_trimmed_end_suffix(vb@, 47);
            assert(vb@[tl] == 47);
            is_char_boundary_iff_not_is_continuation_byte(vb@, tl);
        } else {
            is_char_boundary_start_end_of_seq(vb@);
        }
        valid_utf8_split(vb@, tl);
        assert(vb@.subrange(0, tl) =~= trim_end_seq(vb@, 47));
        is_ascii_spec_bytes_all(client_id);
        let mid = seq![47u8, 108u8, 106u8, 99u8, 45u8];
        assert(ascii_seq(mid + (if ib@.len() > 8 {
            ib@.subrange(0, 8)
        } else {
            ib@
        })));
        crate::strutil::lemma_ascii_bytes(
            mid + (if ib@.len() > 8 {
                ib@.subrange(0, 8)
            } else {
                ib@
            }),
        );
        valid_utf8_concat(
            trim_end_seq(vb@, 47),
            mid + (if ib@.len() > 8 {
                ib@.subrange(0, 8)
            } else {
                ib@
            }),
        );
        assert(out@ =~= trim_end_seq(vb@, 47) + (mid + (if ib@.len() > 8 {
            ib@.subrange(0, 8)
        } else {
            ib@
        })));
    }
    let ghost ob = out@;
    match outside::vec_to_string(out) {
        Some(t) => {
            proof {
                decode_utf8_encode_utf8(ob);
            }
            t
        },
        None => {
            proof {
                assert(false);
            }
            String::new()
        },
    }
}

/// An ASCII string's bytes are each below 0x80.
proof fn is_ascii_spec_bytes_all(s: &str)
    requires
        vstd::string::is_ascii(s),
    ensures
        ascii_seq(s.spec_bytes()),
{
    vstd::string::is_ascii_spec_bytes(s);
    assert forall|i: int| 0 <= i < s.spec_bytes().len() implies s.spec_bytes()[i] < 0x80 by {
        assert(s.spec_bytes()[i] == s@[i] as u8);
        assert(s@[i] <= '\u{7f}');
        vstd::utf8::char_is_scalar(s@[i]);
    }
}

/// The loopback WebDAV URL for a client: `http` on the plaintext port or
/// `https` on the TLS port (plaintext port + 1).
pub fn webdav_url(tls: bool, port: u16, client_id: &str) -> (r: String)
    ensures
        !tls ==> r@ == "http://127.0.0.1:"@ + bytes_as_chars(dec_digits(port as nat)) +
        "/webdav/"@ + client_id@ + "/"@,
        tls ==> r@ == "https://127.0.0.1:"@ + bytes_as_chars(dec_digits(port as nat)) +
        "/webdav/"@ + client_id@ + "/"@,
{
    let mut u = if tls {
        "https://127.0.0.1:".to_owned()
    } else {
        "http://127.0.0.1:".to_owned()
    };
    let ps = u64_to_string(port as u64);
    u.append(ps.as_str());
    u.append("/webdav/");
    u.append(client_id);
    u.append("/");
    u
}


/// Typed failure of the mount endpoints, carrying the HTTP status it maps
/// to and the user-visible message.
#[derive(Debug)]
pub enum MountError {
    BadRequest(String),
    Forbidden(String),
    NotFound(String),
    Internal(String),
}

impl MountError {
    /// The HTTP status code of this failure.
    pub fn status(&self) -> (s: u16)
        ensures
            self matches MountError::BadRequest(_) ==> s == 400,
            self matches MountError::Forbidden(_) ==> s == 403,
            self matches MountError::NotFound(_) ==> s == 404,
            self matches MountError::Internal(_) ==> s == 500,
    {
        match self {
            MountError::BadRequest(_) => 400,
            MountError::Forbidden(_) => 403,
            MountError::NotFound(_) => 404,
            MountError::Internal(_) => 500,
        }
    }

    /// The message carried by this failure.
    pub fn message(self) -> (m: String)
        ensures
            self matches MountError::BadRequest(x) ==> m == x,
            self matches MountError::Forbidden(x) ==> m == x,
            self matches MountError::NotFound(x) ==> m == x,
            self matches MountError::Internal(x) ==> m == x,
    {
        match self {
            MountError::BadRequest(x) => x,
            MountError::Forbidden(x) => x,
            MountError::NotFound(x) => x,
            MountError::Internal(x) => x,
        }
    }
}

/// What a mount attempt needs: the mount point to create and the two
/// loopback URLs of the share.
pub struct MountPlan {
    pub mount_point: String,
    pub http_url: String,
    pub tls_url: String,
}

/// Result of running one host utility: it ran and exited, or could not be
/// spawned.
pub enum CmdOutcome {
    Ran { ok: bool, exit_code: i32, stderr: String, stdout: String },
    SpawnFailed(String),
}

impl CmdOutcome {
    /// The utility ran and exited successfully.
    pub open spec fn succeeded(&self) -> bool {
        self matches CmdOutcome::Ran { ok: true, .. }
    }

    /// The utility ran (successfully or not).
    pub open spec fn ran(&self) -> bool {
        self matches CmdOutcome::Ran { .. }
    }

    /// Exit code when it ran, -1 otherwise (as the error message reports it).
    pub open spec fn spec_exit_code(&self) -> i32 {
        match self {
            CmdOutcome::Ran { exit_code, .. } => *exit_code,
            CmdOutcome::SpawnFailed(_) => -1i32,
        }
    }

    /// The error text: captured standard error when it ran, the spawn error
    /// otherwise.
    pub open spec fn spec_error_text(&self) -> Seq<char> {
        match self {
            CmdOutcome::Ran { stderr, .. } => stderr@,
            CmdOutcome::SpawnFailed(e) => e@,
        }
    }

    pub fn is_success(&self) -> (r: bool)
        ensures
            r == self.succeeded(),
    {
        match self {
            CmdOutcome::Ran { ok, .. } => *ok,
            CmdOutcome::SpawnFailed(_) => false,
        }
    }
}

/// Validates a mount request and lays out the mount point and URLs. The
/// checks run in order: the client id must be a UUID (400), the path must
/// pass containment (403), and the endpoint must be connected (404).
pub fn plan_mount(
    client_id: &str,
    mount_path: &str,
    allowed_base: &str,
    home: &str,
    port: u16,
    client_known: bool,
) -> (r: Result<MountPlan, MountError>)
    requires
        port < 65535,
    ensures
        !crate::outside::uuid_accepts(client_id@) ==> (r matches Err(e) && e matches
        MountError::BadRequest(m) && m@ == "Invalid client_id format"@),
        crate::outside::uuid_accepts(client_id@) && spec_validate_mount_path(
            mount_path.spec_bytes(),
            allowed_base.spec_bytes(),
            home.spec_bytes(),
        ) is None ==> (r matches Err(e) && e is Forbidden),
        crate::outside::uuid_accepts(client_id@) && spec_validate_mount_path(
            mount_path.spec_bytes(),
            allowed_base.spec_bytes(),
            home.spec_bytes(),
        ) is Some && !client_known ==> (r matches Err(e) && e matches MountError::NotFound(m)
            && m@ == "クライアントが見つかりません"@),
        crate::outside::uuid_accepts(client_id@) && spec_validate_mount_path(
            mount_path.spec_bytes(),
            allowed_base.spec_bytes(),
            home.spec_bytes(),
        ) is Some && client_known ==> (r matches Ok(p) && encode_utf8(p.mount_point@)
            == spec_mount_point(
            spec_validate_mount_path(
                mount_path.spec_bytes(),
                allowed_base.spec_bytes(),
                home.spec_bytes(),
            ).unwrap(),
            client_id@.map(|i: int, c: char| c as u8),
        ) && p.http_url@ == "http://127.0.0.1:"@ + bytes_as_chars(dec_digits(port as nat))
            + "/webdav/"@ + client_id@ + "/"@ && p.tls_url@ == "https://127.0.0.1:"@
            + bytes_as_chars(dec_digits((port + 1) as nat)) + "/webdav/"@ + client_id@ + "/"@),
{
    if !crate::outside::is_valid_uuid(client_id) {
        return Err(MountError::BadRequest("Invalid client_id format".to_owned()));
    }
    let validated = match validate_mount_path(mount_path, allowed_base, home) {
        Ok(v) => v,
        Err(m) => {
            return Err(MountError::Forbidden(m));
        },
    };
    if !client_known {
        return Err(MountError::NotFound("クライアントが見つかりません".to_owned()));
    }
    let mount_point = mount_point_for(validated.as_str(), client_id);
    let http_url = webdav_url(false, port, client_id);
    let tls_url = webdav_url(true, port + 1, client_id);
    proof {
        vstd::string::is_ascii_spec_bytes(client_id);
        assert(client_id.spec_bytes() =~= client_id@.map(|i: int, c: char| c as u8));
    }
    Ok(MountPlan { mount_point, http_url, tls_url })
}

/// The message of a failed directory creation, or `None` when it succeeded.
pub fn mkdir_outcome_error(o: &CmdOutcome) -> (r: Option<String>)
    ensures
        o.succeeded() ==> r is None,
        o.ran() && !o.succeeded() ==> (r matches Some(m) && m@ == "ディレクトリ作成失敗: "@
            + o.spec_error_text()),
        !o.ran() ==> (r matches Some(m) && m@ == "mkdir実行エラー: "@ + o.spec_error_text()),
{
    match o {
        CmdOutcome::Ran { ok, stderr, .. } => {
            if *ok {
                None
            } else {
                let mut m = "ディレクトリ作成失敗: ".to_owned();
                m.append(stderr.as_str());
                Some(m)
            }
        },
        CmdOutcome::SpawnFailed(e) => {
            let mut m = "mkdir実行エラー: ".to_owned();
            m.append(e.as_str());
            Some(m)
        },
    }
}

/// Where the share ends up mounted, or why every strategy failed.
pub enum MountOutcome {
    Mounted { mount_point: String, url: String },
    Failed { message: String },
}

/// Decides the mount response from the three strategy outcomes, first
/// success wins: the host mount utility over loopback HTTP, the same over
/// loopback TLS, then the Finder scripting bridge (whose discovered mount
/// point, when found, replaces the planned one). When all fail, the message
/// quotes the first strategy's exit code and the bridge's trimmed error
/// output.
pub fn decide_mount(
    plan: &MountPlan,
    o1: &CmdOutcome,
    o2: Option<&CmdOutcome>,
    o3: Option<&CmdOutcome>,
    discovered: Option<String>,
) -> (r: MountOutcome)
    requires
        !o1.succeeded() ==> o2 is Some,
        !o1.succeeded() && !o2.unwrap().succeeded() ==> o3 is Some,
    ensures
        o1.succeeded() ==> (r matches MountOutcome::Mounted { mount_point, url } && mount_point@
            == plan.mount_point@ && url@ == plan.http_url@),
        !o1.succeeded() && o2.unwrap().succeeded() ==> (r matches MountOutcome::Mounted {
            mount_point,
            url,
        } && mount_point@ == plan.mount_point@ && url@ == plan.tls_url@),
        !o1.succeeded() && !o2.unwrap().succeeded() && o3.unwrap().succeeded() ==> (r matches
        MountOutcome::Mounted { mount_point, url } && mount_point@ == (if discovered is Some {
            discovered.unwrap()@
        } else {
            plan.mount_point@
        }) && url@ == plan.http_url@),
        !o1.succeeded() && !o2.unwrap().succeeded() && o3.unwrap().ran()
            && !o3.unwrap().succeeded() ==> (r matches MountOutcome::Failed { message } && message@
            == "マウント失敗 (mount_webdav exit "@ + dec_chars_i32(o1.spec_exit_code())
            + ", Finder: "@ + decode_utf8(
            crate::isotime::drop_trailing_ws(
                crate::isotime::drop_leading_ws(encode_utf8(o3.unwrap().spec_error_text())),
            ),
        ) + ")"@),
        !o1.succeeded() && !o2.unwrap().succeeded() && !o3.unwrap().ran() ==> (r matches
        MountOutcome::Failed { message } && message@ == "osascript実行エラー: "@
            + o3.unwrap().spec_error_text()),
{
    if o1.is_success() {
        return MountOutcome::Mounted {
            mount_point: clone_string(&plan.mount_point),
            url: clone_string(&plan.http_url),
        };
    }
    let second = o2.unwrap();
    if second.is_success() {
        return MountOutcome::Mounted {
            mount_point: clone_string(&plan.mount_point),
            url: clone_string(&plan.tls_url),
        };
    }
    let third = o3.unwrap();
    match third {
        CmdOutcome::Ran { ok, stderr, .. } => {
            if *ok {
                let mount_point = match discovered {
                    Some(d) => d,
                    None => clone_string(&plan.mount_point),
                };
                MountOutcome::Mounted { mount_point, url: clone_string(&plan.http_url) }
            } else {
                let code: i32 = match o1 {
                    CmdOutcome::Ran { exit_code, .. } => *exit_code,
                    CmdOutcome::SpawnFailed(_) => -1i32,
                };
                let mut m = "マウント失敗 (mount_webdav exit ".to_owned();
                let cs = i32_to_string(code);
                m.append(cs.as_str());
                m.append(", Finder: ");
                let t = crate::strutil::trim_ascii(stderr.as_str());
                proof {
                    encode_utf8_decode_utf8(t@);
                }
                m.append(t.as_str());
                m.append(")");
                MountOutcome::Failed { message: m }
            }
        },
        CmdOutcome::SpawnFailed(e) => {
            let mut m = "osascript実行エラー: ".to_owned();
            m.append(e.as_str());
            MountOutcome::Failed { message: m }
        },
    }
}

/// A clone of a `String` with the same characters.
pub fn clone_string(s: &String) -> (r: String)
    ensures
        r@ == s@,
{
    s.clone()
}

/// Whether the unmount endpoint may act on this path: it must name one of
/// the relay's own mount points (`/ljc-`) and pass the same containment
/// check as mounting, which already rejects any `..`.
pub enum UnmountDecision {
    Proceed,
    Reject { status: u16, message: String },
}

pub fn check_unmount_path(mount_path: &str, allowed_base: &str, home: &str) -> (r:
    UnmountDecision)
    ensures
        !contains_seq(mount_path.spec_bytes(), seq![47u8, 108u8, 106u8, 99u8, 45u8]) ==> (r
        matches UnmountDecision::Reject { status, message } && status == 403 && message@ ==
        "Can only unmount SnowSync mount points (ljc-*)"@),
        contains_seq(mount_path.spec_bytes(), seq![47u8, 108u8, 106u8, 99u8, 45u8])
            && spec_validate_mount_path(
            mount_path.spec_bytes(),
            allowed_base.spec_bytes(),
            home.spec_bytes(),
        ) is None ==> (r matches UnmountDecision::Reject { status, message } && status == 403),
        contains_seq(mount_path.spec_bytes(), seq![47u8, 108u8, 106u8, 99u8, 45u8])
            && spec_validate_mount_path(
            mount_path.spec_bytes(),
            allowed_base.spec_bytes(),
            home.spec_bytes(),
        ) is Some ==> r is Proceed,
{
    let needle: [u8; 5] = [47, 108, 106, 99, 45];
    if !contains_bytes(mount_path.as_bytes(), needle.as_slice()) {
        proof {
            assert(needle@ =~= seq![47u8, 108u8, 106u8, 99u8, 45u8]);
        }
        return UnmountDecision::Reject {
            status: 403,
            message: "Can only unmount SnowSync mount points (ljc-*)".to_owned(),
        };
    }
    proof {
        assert(needle@ =~= seq![47u8, 108u8, 106u8, 99u8, 45u8]);
    }
    match validate_mount_path(mount_path, allowed_base, home) {
        Ok(_) => UnmountDecision::Proceed,
        Err(m) => UnmountDecision::Reject { status: 403, message: m },
    }
}

/// The unmount utility's outcome mapped to the endpoint's result: `Ok` on
/// success, otherwise the 500 message.
pub fn unmount_outcome(o: &CmdOutcome) -> (r: Result<(), String>)
    ensures
        o.succeeded() ==> r is Ok,
        o.ran() && !o.succeeded() ==> (r matches Err(m) && m@ == "アンマウント失敗: "@
            + o.spec_error_text()),
        !o.ran() ==> (r matches Err(m) && m@ == "umount実行エラー: "@ + o.spec_error_text()),
{
    match o {
        CmdOutcome::Ran { ok, stderr, .. } => {
            if *ok {
                Ok(())
            } else {
                let mut m = "アンマウント失敗: ".to_owned();
                m.append(stderr.as_str());
                Err(m)
            }
        },
        CmdOutcome::SpawnFailed(e) => {
            let mut m = "umount実行エラー: ".to_owned();
            m.append(e.as_str());
            Err(m)
        },
    }
}

} // verus!
