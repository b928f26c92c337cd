//! The registry, the pending-responder table, the relay engine, and the
//! WebDAV front-door decisions, exercised end to end on concrete frames.

use ljc_relay::auth::check_bearer;
use ljc_relay::config::port_from_env;
use ljc_relay::relay::{begin_dispatch, cancel_pending, classify_response, deliver_response,
    finish_dispatch, inject_correlation_id, map_remote_error, parse_response_envelope,
    route_frame, RelayError, RelayWait};
use ljc_relay::session::{chrono_now, parse_registration_frame, register_endpoint,
    teardown_endpoint, Registration};
use ljc_relay::state::{client_infos, AppState};
use ljc_relay::webdav::{dav_capability_headers, dav_header, downgrade_status, entries_from_raw,
    open_read_payload, parse_dir_listing, parse_file_reply, parse_stat_reply, readdir_frame,
    route_webdav, stat_plan, synthetic_root_meta, webdav_client_id, copy_unsupported,
    delete_frame, mkdir_frame, rename_frame, stat_frame, ReadableFile, SeekWhence, StatPlan,
    WebdavRoute, WritableFile};

fn fresh_state() -> AppState {
    AppState::new(17200, "~/Public/mount".to_string())
}

fn register(state: &mut AppState) -> (String, tokio::sync::mpsc::UnboundedReceiver<String>) {
    let (tx, rx) = tokio::sync::mpsc::unbounded_channel();
    let reg = Registration {
        name: Some("Desk".to_string()),
        folder_name: Some("Share".to_string()),
        token: Some(state.api_token.clone()),
    };
    let id = register_endpoint(state, reg, 1700000000, tx).unwrap();
    (id, rx)
}

#[test]
fn register_and_list() {
    let mut state = fresh_state();
    let (id, mut rx) = register(&mut state);
    // the minted id is a well-formed UUID
    assert!(uuid::Uuid::parse_str(id.as_str()).is_ok());
    // the acknowledgement frame went out before the insert
    let ack = rx.try_recv().unwrap();
    let expected = {
        let mut s = "{\"clientId\":\"".to_string();
        s.push_str(id.as_str());
        s.push_str("\",\"type\":\"registered\"}");
        s
    };
    assert_eq!(ack, expected);
    // the endpoint is listed with its registration record
    assert!(state.clients.contains(id.as_str()));
    assert_eq!(state.clients.len(), 1);
    let listed = client_infos(&state);
    assert_eq!(listed.len(), 1);
    assert_eq!(listed[0].id, id);
    assert_eq!(listed[0].name, "Desk");
    assert_eq!(listed[0].folder_name, "Share");
    assert_eq!(listed[0].connected_at, chrono_now(1700000000));
}

#[test]
fn registration_requires_the_process_token() {
    let mut state = fresh_state();
    let (tx, _rx) = tokio::sync::mpsc::unbounded_channel();
    let reg = Registration {
        name: Some("Desk".to_string()),
        folder_name: Some("Share".to_string()),
        token: Some("wrong".to_string()),
    };
    assert!(register_endpoint(&mut state, reg, 0, tx).is_err());
    assert_eq!(state.clients.len(), 0);
}

#[test]
fn registration_frame_fields() {
    let r = parse_registration_frame(
        "{\"type\":\"register\",\"name\":\"Desk\",\"folderName\":\"Share\",\"token\":\"t\"}",
    )
    .unwrap();
    assert_eq!(r.name, Some("Desk".to_string()));
    assert_eq!(r.folder_name, Some("Share".to_string()));
    assert_eq!(r.token, Some("t".to_string()));
    assert!(parse_registration_frame("not json").is_none());
}

#[test]
fn teardown_removes_the_endpoint() {
    let mut state = fresh_state();
    let (id, _rx) = register(&mut state);
    assert!(state.clients.contains(id.as_str()));
    teardown_endpoint(&mut state, id.as_str());
    assert!(!state.clients.contains(id.as_str()));
}

#[test]
fn dispatch_to_unknown_endpoint_is_not_found() {
    let mut state = fresh_state();
    let (resp_tx, _resp_rx) = tokio::sync::oneshot::channel();
    let r = begin_dispatch(&mut state, "550e8400-e29b-41d4-a716-446655440000", resp_tx);
    assert!(matches!(r, Err(RelayError::NotFound)));
    // the pending table was never touched
    assert_eq!(state.pending.len(), 0);
}

#[test]
fn readdir_round_trip() {
    let mut state = fresh_state();
    let (id, mut rx) = register(&mut state);
    let (resp_tx, mut resp_rx) = tokio::sync::oneshot::channel();
    let (rid, tx) = begin_dispatch(&mut state, id.as_str(), resp_tx).unwrap();
    // the relay writes the command frame on the endpoint's channel
    let frame = readdir_frame("/", rid.as_str());
    let expected = {
        let mut s = "{\"id\":\"".to_string();
        s.push_str(rid.as_str());
        s.push_str("\",\"path\":\"/\",\"type\":\"readdir\"}");
        s
    };
    assert_eq!(frame, expected);
    assert!(tx.send(frame).is_ok());
    assert!(rx.try_recv().is_ok());
    // the remote answers; the reader routes the frame by its id
    let reply = {
        let mut s = "{\"id\":\"".to_string();
        s.push_str(rid.as_str());
        s.push_str(
            "\",\"ok\":true,\"data\":[{\"name\":\"a.txt\",\"is_dir\":false,\"size\":3,\"modified\":\"2024-01-15T12:00:00Z\"}]}",
        );
        s
    };
    assert!(route_frame(&mut state, reply.clone()));
    let delivered = resp_rx.try_recv().unwrap();
    assert_eq!(delivered, reply);
    // the listing decodes into entries with the documented defaults
    let raw = parse_dir_listing(delivered.as_str()).unwrap();
    let entries = entries_from_raw(raw);
    assert_eq!(entries.len(), 1);
    assert_eq!(entries[0].name, "a.txt");
    assert!(!entries[0].is_dir);
    assert_eq!(entries[0].size, 3);
    assert_eq!(entries[0].modified, "2024-01-15T12:00:00Z");
}

#[test]
fn responders_fire_exactly_once() {
    let mut state = fresh_state();
    let (id, _rx) = register(&mut state);
    let (resp_tx, mut resp_rx) = tokio::sync::oneshot::channel();
    let (rid, _tx) = begin_dispatch(&mut state, id.as_str(), resp_tx).unwrap();
    assert!(deliver_response(&mut state, rid.as_str(), "{\"ok\":true}".to_string()));
    assert!(resp_rx.try_recv().is_ok());
    // the entry was removed before the signal: a second response is discarded
    assert!(!deliver_response(&mut state, rid.as_str(), "{\"ok\":true}".to_string()));
}

#[test]
fn timeout_reaps_and_late_responses_are_ignored() {
    let mut state = fresh_state();
    let (id, _rx) = register(&mut state);
    let (resp_tx, _resp_rx) = tokio::sync::oneshot::channel();
    let (rid, _tx) = begin_dispatch(&mut state, id.as_str(), resp_tx).unwrap();
    assert_eq!(state.pending.len(), 1);
    let r = finish_dispatch(&mut state, rid.as_str(), RelayWait::TimedOut);
    match r {
        Err(e) => assert_eq!(e.http_status(), 504),
        Ok(_) => panic!("expected a timeout"),
    }
    assert_eq!(state.pending.len(), 0);
    // the response arriving after the deadline finds nothing
    assert!(!deliver_response(&mut state, rid.as_str(), "{\"ok\":true}".to_string()));
}

#[test]
fn rollback_after_failed_write() {
    let mut state = fresh_state();
    let (id, rx) = register(&mut state);
    drop(rx);
    let (resp_tx, _resp_rx) = tokio::sync::oneshot::channel();
    let (rid, _tx) = begin_dispatch(&mut state, id.as_str(), resp_tx).unwrap();
    cancel_pending(&mut state, rid.as_str());
    assert_eq!(state.pending.len(), 0);
}

#[test]
fn remote_errors_map_to_the_taxonomy() {
    assert!(matches!(map_remote_error("ENOENT: not found"), RelayError::NotFound));
    assert!(matches!(map_remote_error("NotFound"), RelayError::NotFound));
    assert!(matches!(map_remote_error("permission denied"), RelayError::Forbidden));
    assert!(matches!(map_remote_error("Permission refused"), RelayError::Forbidden));
    assert!(matches!(map_remote_error("disk on fire"), RelayError::GeneralFailure));
    assert!(matches!(
        classify_response(Some(true), &None),
        Ok(())
    ));
    assert!(matches!(
        classify_response(Some(false), &Some("not found".to_string())),
        Err(RelayError::NotFound)
    ));
    assert!(matches!(
        classify_response(None, &None),
        Err(RelayError::GeneralFailure)
    ));
    assert_eq!(map_remote_error("not found").http_status(), 404);
    assert_eq!(RelayError::Timeout.http_status(), 504);
    assert_eq!(RelayError::BadGateway.http_status(), 502);
}

#[test]
fn five_hundred_downgrades_to_not_found() {
    assert_eq!(downgrade_status(500), 404);
    assert_eq!(downgrade_status(404), 404);
    assert_eq!(downgrade_status(207), 207);
    let (name, value) = dav_header();
    assert_eq!(name, "DAV");
    assert_eq!(value, "1, 2");
}

#[test]
fn options_short_circuit_without_any_endpoint() {
    // no endpoint has ever connected, yet OPTIONS is answered
    let r = route_webdav("OPTIONS", "/webdav/550e8400-e29b-41d4-a716-446655440000/");
    assert!(matches!(r, WebdavRoute::OptionsShortCircuit));
    let headers = dav_capability_headers();
    assert_eq!(headers[0], ("DAV".to_string(), "1, 2".to_string()));
    assert!(headers[1].1.contains("PROPFIND"));
    assert_eq!(headers[2], ("MS-Author-Via".to_string(), "DAV".to_string()));
}

#[test]
fn non_uuid_client_id_is_rejected_without_the_table() {
    assert!(matches!(route_webdav("PROPFIND", "/webdav/x/.DS_Store"), WebdavRoute::InvalidClient));
    assert!(matches!(route_webdav("OPTIONS", "/webdav//"), WebdavRoute::InvalidClient));
    assert!(matches!(
        route_webdav("GET", "/webdav/550e8400-e29b-41d4-a716-446655440000/f.txt"),
        WebdavRoute::Forward
    ));
    assert_eq!(
        webdav_client_id("/webdav/550e8400-e29b-41d4-a716-446655440000/f.txt"),
        "550e8400-e29b-41d4-a716-446655440000"
    );
}

#[test]
fn stat_of_root_is_synthesized() {
    assert!(matches!(stat_plan("/"), StatPlan::SyntheticRoot));
    assert!(matches!(stat_plan(""), StatPlan::SyntheticRoot));
    assert!(matches!(stat_plan("/a"), StatPlan::AskRemote));
    let meta = synthetic_root_meta();
    assert!(meta.is_dir());
    assert_eq!(meta.len(), 0);
    // regardless of remote state: nothing was dispatched to build it
}

#[test]
fn repeated_mkdir_interpretation_is_stable() {
    // the remote's capability makes mkdir idempotent: the same successful
    // reply classifies as success every time
    let reply_ok = Some(true);
    assert!(classify_response(reply_ok, &None).is_ok());
    assert!(classify_response(reply_ok, &None).is_ok());
}

#[test]
fn readable_file_cursor() {
    let mut f = ReadableFile::new_readable(b"hello".to_vec(), 5, String::new());
    assert_eq!(f.read_bytes(2), b"he".to_vec());
    assert_eq!(f.read_bytes(10), b"llo".to_vec());
    assert_eq!(f.seek(SeekWhence::FromStart(1)), 1);
    assert_eq!(f.read_bytes(2), b"el".to_vec());
    // seeks past the end clamp to the end
    assert_eq!(f.seek(SeekWhence::FromEnd(10)), 5);
    assert_eq!(f.seek(SeekWhence::FromCurrent(-2)), 3);
    let meta = f.metadata();
    assert!(!meta.is_dir());
    assert_eq!(meta.len(), 5);
}

#[test]
fn writable_file_flushes_whole_buffer() {
    let mut f = WritableFile::new_writable("/a.txt".to_string());
    assert_eq!(f.flush_frame("rid"), None);
    f.write_bytes(b"Ma");
    f.write_bytes(b"n");
    let frame = f.flush_frame("rid-1").unwrap();
    assert_eq!(
        frame,
        "{\"data\":\"TWFu\",\"id\":\"rid-1\",\"path\":\"/a.txt\",\"type\":\"writeFile\"}"
    );
    // the buffer is spent
    assert_eq!(f.flush_frame("rid-2"), None);
}

#[test]
fn file_reply_decodes_payload() {
    let p = parse_file_reply(
        "{\"id\":\"x\",\"ok\":true,\"data\":{\"data\":\"TWFu\",\"size\":3,\"modified\":\"2024-01-15T12:00:00Z\"}}",
    );
    let (bytes, size, modified) = open_read_payload(p);
    assert_eq!(bytes, b"Man".to_vec());
    assert_eq!(size, 3);
    assert_eq!(modified, "2024-01-15T12:00:00Z");
    // sizes default to the decoded length
    let p2 = parse_file_reply("{\"data\":{\"data\":\"TWFu\"}}");
    let (bytes2, size2, modified2) = open_read_payload(p2);
    assert_eq!(bytes2.len(), 3);
    assert_eq!(size2, 3);
    assert_eq!(modified2, "");
}

#[test]
fn stat_reply_fields_default() {
    let raw = parse_stat_reply("{\"data\":{\"is_dir\":true,\"size\":7}}");
    assert_eq!(raw.is_dir, Some(true));
    assert_eq!(raw.size, Some(7));
    assert_eq!(raw.name, None);
    let raw2 = parse_stat_reply("{}");
    assert_eq!(raw2.is_dir, None);
}

#[test]
fn bearer_token_check() {
    assert!(check_bearer(Some("Bearer tok-1"), "tok-1"));
    assert!(!check_bearer(Some("Bearer other"), "tok-1"));
    assert!(!check_bearer(Some("tok-1"), "tok-1"));
    assert!(!check_bearer(None, "tok-1"));
    // a missing header presents the empty token
    assert!(check_bearer(None, ""));
}

#[test]
fn command_frames_are_exact() {
    assert_eq!(mkdir_frame("/d", "r1"), "{\"id\":\"r1\",\"path\":\"/d\",\"type\":\"mkdir\"}");
    assert_eq!(delete_frame("/f", "r2"), "{\"id\":\"r2\",\"path\":\"/f\",\"type\":\"delete\"}");
    assert_eq!(stat_frame("/f", "r3"), "{\"id\":\"r3\",\"path\":\"/f\",\"type\":\"stat\"}");
    assert_eq!(
        rename_frame("/old", "/new", "r4"),
        "{\"id\":\"r4\",\"newPath\":\"/new\",\"oldPath\":\"/old\",\"type\":\"rename\"}"
    );
    // paths with JSON specials are escaped the way a JSON serialiser writes
    // them
    assert_eq!(
        mkdir_frame("/a\"b\\c", "r5"),
        "{\"id\":\"r5\",\"path\":\"/a\\\"b\\\\c\",\"type\":\"mkdir\"}"
    );
}

#[test]
fn registration_defaults_fill_missing_names() {
    let mut state = fresh_state();
    let (tx, _rx) = tokio::sync::mpsc::unbounded_channel();
    let reg = Registration { name: None, folder_name: None, token: Some(state.api_token.clone()) };
    let id = register_endpoint(&mut state, reg, 5, tx).unwrap();
    let listed = client_infos(&state);
    assert_eq!(listed[0].name, "Unknown PC");
    assert_eq!(listed[0].folder_name, "Unknown");
    assert_eq!(listed[0].id, id);
}

#[test]
fn frames_without_id_change_nothing() {
    let mut state = fresh_state();
    let (id, _rx) = register(&mut state);
    let (resp_tx, _resp_rx) = tokio::sync::oneshot::channel();
    let (_rid, _tx) = begin_dispatch(&mut state, id.as_str(), resp_tx).unwrap();
    assert!(!route_frame(&mut state, "{\"ok\":true}".to_string()));
    assert!(!route_frame(&mut state, "not json".to_string()));
    assert_eq!(state.pending.len(), 1);
}

#[test]
fn seek_before_the_start_lands_at_the_end() {
    // the unsigned cursor wraps and the wrapped value clamps
    let mut f = ReadableFile::new_readable(b"abcde".to_vec(), 5, String::new());
    assert_eq!(f.seek(SeekWhence::FromEnd(-100)), 5);
    assert_eq!(f.seek(SeekWhence::FromCurrent(-1)), 4);
}

#[test]
fn correlation_id_injection() {
    assert_eq!(
        inject_correlation_id("{\"type\":\"readdir\",\"path\":\"/\"}", "rid-9"),
        Some("{\"id\":\"rid-9\",\"path\":\"/\",\"type\":\"readdir\"}".to_string())
    );
    // a null body becomes an object holding only the id
    assert_eq!(
        inject_correlation_id("null", "rid-9"),
        Some("{\"id\":\"rid-9\"}".to_string())
    );
    // anything but an object or null is rejected
    assert_eq!(inject_correlation_id("5", "rid-9"), None);
    assert_eq!(inject_correlation_id("[1,2]", "rid-9"), None);
    assert_eq!(inject_correlation_id("not json", "rid-9"), None);
}

#[test]
fn response_envelope_fields() {
    let e = parse_response_envelope("{\"id\":\"r\",\"ok\":false,\"error\":\"not found\"}")
        .unwrap();
    assert_eq!(e.id, Some("r".to_string()));
    assert_eq!(e.ok, Some(false));
    assert_eq!(e.error, Some("not found".to_string()));
    assert!(parse_response_envelope("]").is_none());
}

#[test]
fn copy_is_never_relayed() {
    assert_eq!(copy_unsupported().http_status(), 501);
}

#[test]
fn port_environment_parsing() {
    assert_eq!(port_from_env(None), 17200);
    assert_eq!(port_from_env(Some("9999")), 9999);
    assert_eq!(port_from_env(Some("+9999")), 9999);
    assert_eq!(port_from_env(Some("70000")), 17200);
    assert_eq!(port_from_env(Some("-1")), 17200);
    assert_eq!(port_from_env(Some("abc")), 17200);
    assert_eq!(port_from_env(Some("")), 17200);
}
