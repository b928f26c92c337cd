//! The relay engine: correlates outbound commands with inbound responses,
//! rolls back or reaps pending responders, and maps remote error strings to
//! typed failures.

use vstd::prelude::*;
use vstd::string::StringSliceAdditionalSpecFns;
use crate::bytesutil::{contains_seq, contains_bytes};
use crate::outside;
use crate::state::AppState;

verus! {

/// The relay's failure taxonomy and the HTTP status each case renders as.
#[derive(Debug)]
pub enum RelayError {
    BadRequest,
    Unauthorized,
    Forbidden,
    NotFound,
    BadGateway,
    Timeout,
    NotImplemented,
    GeneralFailure,
}

impl RelayError {
    pub fn http_status(&self) -> (s: u16)
        ensures
            self is BadRequest ==> s == 400,
            self is Unauthorized ==> s == 401,
            self is Forbidden ==> s == 403,
            self is NotFound ==> s == 404,
            self is BadGateway ==> s == 502,
            self is Timeout ==> s == 504,
            self is NotImplemented ==> s == 501,
            self is GeneralFailure ==> s == 500,
    {
        match self {
            RelayError::BadRequest => 400,
            RelayError::Unauthorized => 401,
            RelayError::Forbidden => 403,
            RelayError::NotFound => 404,
            RelayError::BadGateway => 502,
            RelayError::Timeout => 504,
            RelayError::NotImplemented => 501,
            RelayError::GeneralFailure => 500,
        }
    }
}

/// The envelope fields of an inbound response frame, each missing when the
/// frame did not carry it.
pub struct Envelope {
    pub id: Option<String>,
    pub ok: Option<bool>,
    pub error: Option<String>,
}

/// The view of an envelope, field by field.
pub open spec fn envelope_view(e: Envelope) -> (
    Option<Seq<char>>,
    Option<bool>,
    Option<Seq<char>>,
) {
    (crate::strutil::opt_chars(e.id), e.ok, crate::strutil::opt_chars(e.error))
}

/// The correlation id an inbound frame routes by: the envelope's `id` field,
/// when the frame parses and carries one.
pub open spec fn frame_correlation_id(t: Seq<char>) -> Option<Seq<char>> {
    match outside::envelope_of(t) {
        Some(f) => f.0,
        None => None,
    }
}

/// Whether routing a frame against this state signals a responder: the frame
/// carries a correlation id and the pending table holds it.
pub open spec fn spec_route_delivers(t: Seq<char>, s: AppState) -> bool {
    match frame_correlation_id(t) {
        Some(i) => s.pending.spec_contains(i),
        None => false,
    }
}

/// Starts a dispatch: looks up the endpoint's outbound channel, mints a
/// fresh correlation id, and installs the responder in the pending table. A
/// command to an unknown endpoint fails with `NotFound` at once, without
/// touching the pending table.
pub fn begin_dispatch(
    state: &mut AppState,
    client_id: &str,
    responder: tokio::sync::oneshot::Sender<String>,
) -> (r: Result<(String, tokio::sync::mpsc::UnboundedSender<String>), RelayError>)
    requires
        old(state).wf(),
    ensures
        final(state).wf(),
        final(state).clients.entries@ == old(state).clients.entries@,
        final(state).api_token@ == old(state).api_token@,
        !old(state).clients.spec_contains(client_id@) ==> (r matches Err(e) && e is NotFound
            && final(state).pending.entries@ == old(state).pending.entries@),
        old(state).clients.spec_contains(client_id@) ==> (r matches Ok(p) && ({
            let (rid, _) = p;
            &&& outside::uuid_accepts(rid@)
            &&& final(state).pending.spec_lookup(rid@) == Some(responder)
            &&& forall|k: Seq<char>|
                k != rid@ ==> final(state).pending.spec_lookup(k) == old(state).pending.spec_lookup(k)
        })),
{
    let tx = match state.clients.get(client_id) {
        Some(c) => outside::clone_frame_sender(&c.tx),
        None => {
            return Err(RelayError::NotFound);
        },
    };
    let request_id = outside::new_uuid_string();
    state.pending.insert(crate::mountpath::clone_string(&request_id), responder);
    Ok((request_id, tx))
}

/// Drops the pending responder for a correlation id: the rollback after a
/// failed channel write, and the reaper on timeout. A response that arrives
/// later finds no entry and is discarded.
pub fn cancel_pending(state: &mut AppState, request_id: &str)
    requires
        old(state).wf(),
    ensures
        final(state).wf(),
        final(state).clients.entries@ == old(state).clients.entries@,
        final(state).pending.spec_lookup(request_id@) is None,
        forall|k: Seq<char>|
            k != request_id@ ==> final(state).pending.spec_lookup(k) == old(state).pending.spec_lookup(k),
{
    state.pending.remove(request_id);
}

/// Routes a response payload to its pending responder: the entry is removed
/// from the table before the responder is signalled, so each responder fires
/// at most once; an unknown correlation id (late or unsolicited response)
/// changes nothing and is discarded.
pub fn deliver_response(state: &mut AppState, request_id: &str, payload: String) -> (delivered:
    bool)
    requires
        old(state).wf(),
    ensures
        final(state).wf(),
        final(state).clients.entries@ == old(state).clients.entries@,
        delivered == old(state).pending.spec_contains(request_id@),
        final(state).pending.spec_lookup(request_id@) is None,
        forall|k: Seq<char>|
            k != request_id@ ==> final(state).pending.spec_lookup(k) == old(state).pending.spec_lookup(k),
        !old(state).pending.spec_contains(request_id@) ==> final(state).pending.entries@ == old(state).pending.entries@,
{
    match state.pending.take(request_id) {
        Some(responder) => {
            let _ = outside::fulfil_responder(responder, payload);
            true
        },
        None => false,
    }
}

/// Routes one inbound text frame: when it parses and carries an `id`, the
/// matching responder (if any) is removed and fulfilled with the frame;
/// exactly the frame's own correlation id leaves the pending table, and a
/// frame without one changes nothing.
pub fn route_frame(state: &mut AppState, text: String) -> (delivered: bool)
    requires
        old(state).wf(),
    ensures
        final(state).wf(),
        final(state).clients.entries@ == old(state).clients.entries@,
        delivered == spec_route_delivers(text@, *old(state)),
        frame_correlation_id(text@) matches Some(i) ==> (final(state).pending.spec_lookup(i)
            is None && forall|k: Seq<char>|
            k != i ==> final(state).pending.spec_lookup(k) == old(state).pending.spec_lookup(k)),
        !spec_route_delivers(text@, *old(state)) ==> final(state).pending.entries@ == old(
            state,
        ).pending.entries@,
{
    let env = outside::parse_envelope(text.as_str());
    match env {
        Some(e) => match e.id {
            Some(id) => deliver_response(state, id.as_str(), text),
            None => false,
        },
        None => false,
    }
}

/// The remote error string mapped to the typed taxonomy by substring match:
/// missing entries are `NotFound`, permission complaints are `Forbidden`,
/// anything else a general failure.
pub open spec fn spec_map_remote_error(e: Seq<u8>) -> RelayError {
    if contains_seq(e, seq![110u8, 111u8, 116u8, 32u8, 102u8, 111u8, 117u8, 110u8, 100u8])
        || contains_seq(e, seq![78u8, 111u8, 116u8, 70u8, 111u8, 117u8, 110u8, 100u8]) {
        RelayError::NotFound
    } else if contains_seq(
        e,
        seq![112u8, 101u8, 114u8, 109u8, 105u8, 115u8, 115u8, 105u8, 111u8, 110u8],
    ) || contains_seq(
        e,
        seq![80u8, 101u8, 114u8, 109u8, 105u8, 115u8, 115u8, 105u8, 111u8, 110u8],
    ) {
        RelayError::Forbidden
    } else {
        RelayError::GeneralFailure
    }
}

/// Maps a remote error string to its typed failure.
pub fn map_remote_error(err: &str) -> (r: RelayError)
    ensures
        r == spec_map_remote_error(err.spec_bytes()),
{
    let eb = err.as_bytes();
    let nf1: [u8; 9] = [110, 111, 116, 32, 102, 111, 117, 110, 100];
    let nf2: [u8; 8] = [78, 111, 116, 70, 111, 117, 110, 100];
    let pm1: [u8; 10] = [112, 101, 114, 109, 105, 115, 115, 105, 111, 110];
    let pm2: [u8; 10] = [80, 101, 114, 109, 105, 115, 115, 105, 111, 110];
    proof {
        assert(nf1@ =~= seq![110u8, 111u8, 116u8, 32u8, 102u8, 111u8, 117u8, 110u8, 100u8]);
        assert(nf2@ =~= seq![78u8, 111u8, 116u8, 70u8, 111u8, 117u8, 110u8, 100u8]);
        assert(pm1@ =~= seq![112u8, 101u8, 114u8, 109u8, 105u8, 115u8, 115u8, 105u8, 111u8,
            110u8]);
        assert(pm2@ =~= seq![80u8, 101u8, 114u8, 109u8, 105u8, 115u8, 115u8, 105u8, 111u8, 110u8]);
    }
    if contains_bytes(eb, nf1.as_slice()) || contains_bytes(eb, nf2.as_slice()) {
        RelayError::NotFound
    } else if contains_bytes(eb, pm1.as_slice()) || contains_bytes(eb, pm2.as_slice()) {
        RelayError::Forbidden
    } else {
        RelayError::GeneralFailure
    }
}

/// The bytes of a reported error string.
pub open spec fn spec_error_bytes(e: Option<String>) -> Seq<u8> {
    match e {
        Some(m) => vstd::utf8::encode_utf8(m@),
        None => Seq::empty(),
    }
}

/// What a response envelope means for the command that awaited it: success
/// exactly when the remote reported `ok == true`; otherwise the error string
/// (or its absence, read as an unknown error) is mapped to the taxonomy.
pub fn classify_response(ok_field: Option<bool>, error_field: &Option<String>) -> (r: Result<
    (),
    RelayError,
>)
    ensures
        ok_field == Some(true) ==> r is Ok,
        ok_field != Some(true) && error_field is None ==> (r matches Err(e) && e
            is GeneralFailure),
        ok_field != Some(true) && error_field is Some ==> (r matches Err(e) && e
            == spec_map_remote_error(spec_error_bytes(*error_field))),
{
    match ok_field {
        Some(true) => Ok(()),
        _ => {
            match error_field {
                Some(msg) => Err(map_remote_error(msg.as_str())),
                None => Err(RelayError::GeneralFailure),
            }
        },
    }
}

/// How the relay endpoint finished waiting for its response.
pub enum RelayWait {
    Delivered(String),
    ChannelClosed,
    TimedOut,
}

/// Finishes a dispatched relay command once the wait ends: a delivered
/// payload is the response body; a closed responder channel means the
/// session died (502); a timeout reaps the pending entry and reports 504. A
/// response arriving after the timeout finds no entry and is discarded.
pub fn finish_dispatch(state: &mut AppState, request_id: &str, w: RelayWait) -> (r: Result<
    String,
    RelayError,
>)
    requires
        old(state).wf(),
    ensures
        final(state).wf(),
        final(state).clients.entries@ == old(state).clients.entries@,
        w matches RelayWait::Delivered(text) ==> (r matches Ok(t) && t@ == text@ && final(state).pending.entries@ == old(state).pending.entries@),
        w is ChannelClosed ==> (r matches Err(e) && e is BadGateway && final(state).pending.entries@
            == old(state).pending.entries@),
        w is TimedOut ==> (r matches Err(e) && e is Timeout && final(state).pending.spec_lookup(
            request_id@,
        ) is None && forall|k: Seq<char>|
            k != request_id@ ==> final(state).pending.spec_lookup(k) == old(state).pending.spec_lookup(k)),
{
    match w {
        RelayWait::Delivered(text) => Ok(text),
        RelayWait::ChannelClosed => Err(RelayError::BadGateway),
        RelayWait::TimedOut => {
            cancel_pending(state, request_id);
            Err(RelayError::Timeout)
        },
    }
}


/// The envelope fields of an inbound frame: exactly the named extraction of
/// the frame's characters.
pub fn parse_response_envelope(text: &str) -> (r: Option<Envelope>)
    ensures
        r is Some <==> outside::envelope_of(text@) is Some,
        r matches Some(e) ==> envelope_view(e) == outside::envelope_of(text@).unwrap(),
{
    outside::parse_envelope(text)
}

/// An arbitrary JSON command with the correlation id injected, as the relay
/// endpoint forwards it: exactly the named re-serialisation, `None` when the
/// body is not a JSON object (or null).
pub fn inject_correlation_id(body: &str, id: &str) -> (r: Option<String>)
    ensures
        r is Some <==> outside::inject_of(body@, id@) is Some,
        r matches Some(f) ==> Some(f@) == outside::inject_of(body@, id@),
{
    outside::inject_id(body, id)
}

} // verus!
