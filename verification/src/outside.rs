//! Trusted declarations for the outside crates the library calls: each item
//! here is believed on the strength of the named function's source or
//! documentation and is never verified.

use vstd::prelude::*;
use vstd::utf8::*;

verus! {

/// Relies on `String::from_utf8`: succeeds exactly on valid UTF-8 input and
/// returns the string spelled by those bytes.
#[verifier::external_body]
pub(crate) fn vec_to_string(v: Vec<u8>) -> (r: Option<String>)
    ensures
        r is Some <==> valid_utf8(v@),
        r matches Some(s) ==> s@ == decode_utf8(v@),
{
    String::from_utf8(v).ok()
}

/// Whether `uuid::Uuid::parse_str` accepts this character sequence; a
/// function of the characters alone.
pub uninterp spec fn uuid_accepts(s: Seq<char>) -> bool;

/// Relies on `uuid::Uuid::parse_str`: accepts exactly the UUID spellings the
/// uuid crate can parse, all of which are ASCII and hold at least 32
/// hexadecimal digits.
#[verifier::external_body]
pub(crate) fn is_valid_uuid(s: &str) -> (r: bool)
    ensures
        r == uuid_accepts(s@),
        r ==> is_ascii_chars(s@) && s@.len() >= 32,
{
    uuid::Uuid::parse_str(s).is_ok()
}

/// Relies on `uuid::Uuid::new_v4` and the uuid crate's `Display`: a fresh
/// random UUID rendered in the 36-character hyphenated form, which
/// `parse_str` accepts.
#[verifier::external_body]
pub(crate) fn new_uuid_string() -> (r: String)
    ensures
        r@.len() == 36,
        is_ascii_chars(r@),
        uuid_accepts(r@),
{
    uuid::Uuid::new_v4().to_string()
}


#[verifier::external_type_specification]
#[verifier::external_body]
#[verifier::reject_recursive_types(T)]
pub struct ExUnboundedSender<T>(tokio::sync::mpsc::UnboundedSender<T>);

#[verifier::external_type_specification]
#[verifier::external_body]
#[verifier::reject_recursive_types(T)]
pub struct ExOneshotSender<T>(tokio::sync::oneshot::Sender<T>);

/// Relies on tokio's `mpsc::UnboundedSender::send`: queues the frame for the
/// per-connection writer task; fails only when the receiver half is gone.
#[verifier::external_body]
pub(crate) fn send_frame(tx: &tokio::sync::mpsc::UnboundedSender<String>, frame: String) -> (ok:
    bool) {
    tx.send(frame).is_ok()
}

/// Relies on tokio's `mpsc::UnboundedSender::clone`: a cheap handle to the
/// same channel.
#[verifier::external_body]
pub(crate) fn clone_frame_sender(tx: &tokio::sync::mpsc::UnboundedSender<String>) -> (r:
    tokio::sync::mpsc::UnboundedSender<String>) {
    tx.clone()
}

/// Relies on tokio's `oneshot::Sender::send`: delivers the payload to the
/// single waiting receiver, consuming the sender; fails only when the
/// receiver is gone.
#[verifier::external_body]
pub(crate) fn fulfil_responder(tx: tokio::sync::oneshot::Sender<String>, payload: String) -> (ok:
    bool) {
    tx.send(payload).is_ok()
}


/// What the JSON parser extracts from a registration frame: the string
/// fields `name`, `folderName` and `token` (each missing when absent), or
/// nothing when the frame is not JSON; a function of the characters alone.
pub uninterp spec fn registration_of(t: Seq<char>) -> Option<
    (Option<Seq<char>>, Option<Seq<char>>, Option<Seq<char>>),
>;

/// Relies on `serde_json::from_str` and the `Value` accessors: pulls the
/// string fields `name`, `folderName` and `token` out of a registration
/// frame; `None` when the frame is not JSON.
#[verifier::external_body]
pub(crate) fn parse_registration(text: &str) -> (r: Option<crate::session::Registration>)
    ensures
        r is Some <==> registration_of(text@) is Some,
        r matches Some(g) ==> crate::session::registration_view(g) == registration_of(
            text@,
        ).unwrap(),
{
    let v: serde_json::Value = match serde_json::from_str(text) {
        Ok(v) => v,
        Err(_) => return None,
    };
    Some(crate::session::Registration {
        name: v.get("name").and_then(|x| x.as_str()).map(|s| s.to_string()),
        folder_name: v.get("folderName").and_then(|x| x.as_str()).map(|s| s.to_string()),
        token: v.get("token").and_then(|x| x.as_str()).map(|s| s.to_string()),
    })
}

/// What the JSON parser extracts from a response frame: the envelope fields
/// `id`, `ok` and `error` (each missing when absent), or nothing when the
/// frame is not JSON; a function of the characters alone.
pub uninterp spec fn envelope_of(t: Seq<char>) -> Option<
    (Option<Seq<char>>, Option<bool>, Option<Seq<char>>),
>;

/// Relies on `serde_json::from_str` and the `Value` accessors: the response
/// envelope fields (`id`, `ok`, `error`) of an inbound frame; `None` when
/// the frame is not JSON.
#[verifier::external_body]
pub(crate) fn parse_envelope(text: &str) -> (r: Option<crate::relay::Envelope>)
    ensures
        r is Some <==> envelope_of(text@) is Some,
        r matches Some(e) ==> crate::relay::envelope_view(e) == envelope_of(text@).unwrap(),
{
    let v: serde_json::Value = match serde_json::from_str(text) {
        Ok(v) => v,
        Err(_) => return None,
    };
    Some(crate::relay::Envelope {
        id: v.get("id").and_then(|x| x.as_str()).map(|s| s.to_string()),
        ok: v.get("ok").and_then(|x| x.as_bool()),
        error: v.get("error").and_then(|x| x.as_str()).map(|s| s.to_string()),
    })
}

/// The arbitrary JSON command with the correlation id injected under `id`,
/// re-serialised; nothing when the body parses to other than an object or
/// null; a function of the characters alone.
pub uninterp spec fn inject_of(body: Seq<char>, id: Seq<char>) -> Option<Seq<char>>;

/// Relies on `serde_json`: injects the correlation id into an arbitrary JSON
/// command object; `None` when the body is not a JSON object (or null, which
/// indexing turns into an object).
#[verifier::external_body]
pub(crate) fn inject_id(body: &str, id: &str) -> (r: Option<String>)
    ensures
        r is Some <==> inject_of(body@, id@) is Some,
        r matches Some(f) ==> Some(f@) == inject_of(body@, id@),
{
    let mut v: serde_json::Value = match serde_json::from_str(body) {
        Ok(v) => v,
        Err(_) => return None,
    };
    match &v {
        serde_json::Value::Object(_) | serde_json::Value::Null => {},
        _ => return None,
    }
    v["id"] = serde_json::Value::String(id.to_string());
    Some(v.to_string())
}


/// What the JSON parser extracts from a `readdir` reply: the `data` array's
/// entries, each as its `name`, `is_dir`, `size` and `modified` fields, or
/// nothing when the reply is not JSON or carries no array; a function of the
/// characters alone.
pub uninterp spec fn dir_entries_of(t: Seq<char>) -> Option<
    Seq<(Option<Seq<char>>, Option<bool>, Option<u64>, Option<Seq<char>>)>,
>;

/// Relies on `serde_json::from_str` and the `Value` accessors: the entry
/// array of a `readdir` reply, each entry's fields copied out; `None` when
/// the reply is not JSON or carries no array.
#[verifier::external_body]
pub(crate) fn parse_dir_entries(text: &str) -> (r: Option<Vec<crate::webdav::RawEntry>>)
    ensures
        r is Some <==> dir_entries_of(text@) is Some,
        r matches Some(v) ==> ({
            let f = dir_entries_of(text@).unwrap();
            &&& v@.len() == f.len()
            &&& forall|i: int|
                0 <= i < f.len() ==> #[trigger] crate::webdav::raw_entry_view(v@[i]) == f[i]
        }),
{
    let v: serde_json::Value = serde_json::from_str(text).ok()?;
    let arr = v.get("data")?.as_array()?;
    Some(arr.iter().map(|e| crate::webdav::RawEntry {
        name: e.get("name").and_then(|x| x.as_str()).map(|s| s.to_string()),
        is_dir: e.get("is_dir").and_then(|x| x.as_bool()),
        size: e.get("size").and_then(|x| x.as_u64()),
        modified: e.get("modified").and_then(|x| x.as_str()).map(|s| s.to_string()),
    }).collect())
}

/// What the JSON parser extracts from a `stat` reply's data object: its
/// `name`, `is_dir`, `size` and `modified` fields, each missing when absent
/// (or when the reply is not JSON); a function of the characters alone.
pub uninterp spec fn stat_fields_of(t: Seq<char>) -> (
    Option<Seq<char>>,
    Option<bool>,
    Option<u64>,
    Option<Seq<char>>,
);

/// Relies on `serde_json::from_str` and the `Value` accessors: the entry
/// fields of a `stat` reply's data object, each missing when absent.
#[verifier::external_body]
pub(crate) fn parse_stat_entry(text: &str) -> (r: crate::webdav::RawEntry)
    ensures
        crate::webdav::raw_entry_view(r) == stat_fields_of(text@),
{
    let v: serde_json::Value = serde_json::from_str(text).unwrap_or(serde_json::Value::Null);
    let d = v.get("data");
    crate::webdav::RawEntry {
        name: d.and_then(|x| x.get("name")).and_then(|x| x.as_str()).map(|s| s.to_string()),
        is_dir: d.and_then(|x| x.get("is_dir")).and_then(|x| x.as_bool()),
        size: d.and_then(|x| x.get("size")).and_then(|x| x.as_u64()),
        modified: d.and_then(|x| x.get("modified")).and_then(|x| x.as_str()).map(|s| s.to_string()),
    }
}

/// What the JSON parser extracts from a `readFile` reply's data object: the
/// base64 `data`, `size` and `modified` fields, each missing when absent (or
/// when the reply is not JSON); a function of the characters alone.
pub uninterp spec fn file_payload_of(t: Seq<char>) -> (
    Option<Seq<char>>,
    Option<u64>,
    Option<Seq<char>>,
);

/// Relies on `serde_json::from_str` and the `Value` accessors: the base64
/// payload, size and timestamp of a `readFile` reply's data object.
#[verifier::external_body]
pub(crate) fn parse_file_payload(text: &str) -> (r: crate::webdav::RawFilePayload)
    ensures
        crate::webdav::raw_payload_view(r) == file_payload_of(text@),
{
    let v: serde_json::Value = serde_json::from_str(text).unwrap_or(serde_json::Value::Null);
    let d = v.get("data");
    crate::webdav::RawFilePayload {
        data_b64: d.and_then(|x| x.get("data")).and_then(|x| x.as_str()).map(|s| s.to_string()),
        size: d.and_then(|x| x.get("size")).and_then(|x| x.as_u64()),
        modified: d.and_then(|x| x.get("modified")).and_then(|x| x.as_str()).map(|s| s.to_string()),
    }
}

} // verus!
