//! Process configuration: the plaintext port (the TLS listener always uses
//! the next port), the bind address, and the allowed mount base.

use vstd::prelude::*;
use vstd::string::StringSliceAdditionalSpecFns;
use crate::bytesutil::{all_digits, digits_val, parse_decimal_capped};

verus! {

/// Runtime configuration, loaded from the environment by the program around
/// the library.
pub struct AppConfig {
    pub port: u16,
    pub bind_address: String,
    pub allowed_mount_base: String,
}

/// The default plaintext port.
pub fn default_port() -> (r: u16)
    ensures
        r == 17200,
{
    17200
}

/// The default bind address.
pub fn default_bind() -> (r: String)
    ensures
        r@ == "0.0.0.0"@,
{
    "0.0.0.0".to_owned()
}

/// The default allowed mount base.
pub fn default_allowed_mount_base() -> (r: String)
    ensures
        r@ == "~/Public/mount"@,
{
    "~/Public/mount".to_owned()
}

/// The port a raw environment value selects: an unsigned decimal (one
/// leading `+` allowed) that fits a port number; anything else, or a missing
/// value, falls back to the default.
pub open spec fn spec_port_from_env(raw: Option<Seq<u8>>) -> u16 {
    match raw {
        None => 17200u16,
        Some(b) => {
            let d = if b.len() >= 1 && b[0] == 43 {
                b.skip(1)
            } else {
                b
            };
            if all_digits(d) && digits_val(d) <= 65535 {
                digits_val(d) as u16
            } else {
                17200u16
            }
        },
    }
}

/// Parses the port environment value, falling back to the default port.
pub fn port_from_env(raw: Option<&str>) -> (r: u16)
    ensures
        r == spec_port_from_env(
            match raw {
                Some(v) => Some(v.spec_bytes()),
                None => None,
            },
        ),
{
    match raw {
        None => default_port(),
        Some(v) => {
            let vb = v.as_bytes();
            let digits: &[u8] = if vb.len() >= 1 && vb[0] == 43 {
                let n = vb.len();
                let rest = &vb[1..n];
                proof {
                    assert(rest@ =~= vb@.skip(1));
                }
                rest
            } else {
                vb
            };
            match parse_decimal_capped(digits, 65535) {
                Some(p) => p as u16,
                None => default_port(),
            }
        },
    }
}

impl Default for AppConfig {
    /// The configuration used when no environment variables are set.
    fn default() -> (r: Self)
        ensures
            r.port == 17200,
            r.bind_address@ == "0.0.0.0"@,
            r.allowed_mount_base@ == "~/Public/mount"@,
    {
        AppConfig {
            port: default_port(),
            bind_address: default_bind(),
            allowed_mount_base: default_allowed_mount_base(),
        }
    }
}

} // verus!
