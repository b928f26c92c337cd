//! The per-connection session: registration handshake, acknowledgement, and
//! teardown. A socket session moves from awaiting-registration to registered
//! to torn-down, never back.

use vstd::prelude::*;
use vstd::string::StringSliceAdditionalSpecFns;
use vstd::utf8::encode_utf8;
use crate::frames;
use crate::outside;
use crate::state::{AppState, ClientInfo, ConnectedClient};
use crate::strutil::{bytes_as_chars, dec_digits, u64_to_string};

verus! {

/// The fields of a registration frame, each missing when the frame did not
/// carry it.
pub struct Registration {
    pub name: Option<String>,
    pub folder_name: Option<String>,
    pub token: Option<String>,
}

/// The view of a registration record, field by field.
pub open spec fn registration_view(r: Registration) -> (
    Option<Seq<char>>,
    Option<Seq<char>>,
    Option<Seq<char>>,
) {
    (
        crate::strutil::opt_chars(r.name),
        crate::strutil::opt_chars(r.folder_name),
        crate::strutil::opt_chars(r.token),
    )
}

/// Reads the registration fields out of the first text frame of a session:
/// exactly the named extraction of the frame's characters.
pub fn parse_registration_frame(text: &str) -> (r: Option<Registration>)
    ensures
        r is Some <==> outside::registration_of(text@) is Some,
        r matches Some(g) ==> registration_view(g) == outside::registration_of(text@).unwrap(),
{
    outside::parse_registration(text)
}

/// A timestamp rendered the way the registry reports it: seconds since the
/// epoch in decimal.
pub fn chrono_now(now_secs: u64) -> (r: String)
    ensures
        r@ == bytes_as_chars(dec_digits(now_secs as nat)),
{
    u64_to_string(now_secs)
}

/// Registration: checks the supplied token against the process token, mints
/// a fresh endpoint id, sends the acknowledgement frame, and only then
/// inserts the endpoint into the registry. Missing names fall back to
/// placeholders. Returns the new id.
pub fn register_endpoint(
    state: &mut AppState,
    reg: Registration,
    now_secs: u64,
    tx: tokio::sync::mpsc::UnboundedSender<String>,
) -> (r: Result<String, ()>)
    requires
        old(state).wf(),
    ensures
        final(state).wf(),
        final(state).pending.entries@ == old(state).pending.entries@,
        final(state).port == old(state).port,
        final(state).api_token@ == old(state).api_token@,
        final(state).allowed_mount_base@ == old(state).allowed_mount_base@,
        // a wrong or missing token registers nothing
        !(reg.token matches Some(t) && t@ == old(state).api_token@) ==> r is Err && final(state).clients.entries@ == old(state).clients.entries@,
        // on success the endpoint is in the table under a fresh well-formed
        // UUID, with the supplied names (placeholders when absent) and the
        // rendered timestamp
        r matches Ok(id) ==> ({
            &&& outside::uuid_accepts(id@)
            &&& final(state).clients.spec_contains(id@)
            &&& ({
                let c = final(state).clients.spec_lookup(id@).unwrap();
                &&& c.info.id@ == id@
                &&& c.info.name@ == (if reg.name is Some {
                    reg.name.unwrap()@
                } else {
                    "Unknown PC"@
                })
                &&& c.info.folder_name@ == (if reg.folder_name is Some {
                    reg.folder_name.unwrap()@
                } else {
                    "Unknown"@
                })
                &&& c.info.connected_at@ == bytes_as_chars(dec_digits(now_secs as nat))
            })
            &&& forall|k: Seq<char>|
                k != id@ ==> final(state).clients.spec_lookup(k) == old(state).clients.spec_lookup(
                    k,
                )
        }),
        // an endpoint is only ever added, never removed here
        r is Err ==> final(state).clients.entries@ == old(state).clients.entries@,
        // ids stay well-formed across registration
        old(state).ids_wellformed() ==> final(state).ids_wellformed(),
{
    let token_ok = match &reg.token {
        Some(t) => crate::strutil::str_eq(t.as_str(), state.api_token.as_str()),
        None => false,
    };
    if !token_ok {
        return Err(());
    }
    let client_id = outside::new_uuid_string();
    let name = match reg.name {
        Some(n) => n,
        None => "Unknown PC".to_owned(),
    };
    let folder_name = match reg.folder_name {
        Some(f) => f,
        None => "Unknown".to_owned(),
    };
    let connected_at = chrono_now(now_secs);
    let ack = frames::ack_frame(client_id.as_str());
    if !outside::send_frame(&tx, ack) {
        return Err(());
    }
    let info = ClientInfo {
        id: crate::mountpath::clone_string(&client_id),
        name,
        folder_name,
        connected_at,
    };
    state.clients.insert(crate::mountpath::clone_string(&client_id), ConnectedClient { info, tx });
    proof {
        if old(state).ids_wellformed() {
            assert forall|k: Seq<char>|
                #[trigger] state.clients.spec_contains(k) implies outside::uuid_accepts(k) by {
                if k != client_id@ {
                    assert(old(state).clients.spec_contains(k));
                }
            }
        }
    }
    Ok(client_id)
}

/// Teardown: removes the endpoint from the registry before returning.
/// Pending responders for in-flight requests are left to their timeouts.
pub fn teardown_endpoint(state: &mut AppState, client_id: &str)
    requires
        old(state).wf(),
    ensures
        final(state).wf(),
        !final(state).clients.spec_contains(client_id@),
        forall|k: Seq<char>|
            k != client_id@ ==> final(state).clients.spec_lookup(k) == old(state).clients.spec_lookup(k),
        final(state).pending.entries@ == old(state).pending.entries@,
        final(state).api_token@ == old(state).api_token@,
{
    state.clients.remove(client_id);
}

} // verus!
