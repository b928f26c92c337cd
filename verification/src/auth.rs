//! The bearer-token check of the protected API routes.

use vstd::prelude::*;
use vstd::string::StringSliceAdditionalSpecFns;
use crate::bytesutil::starts_with_seq;

verus! {

/// The `Bearer ` prefix of an authorization header.
pub open spec fn bearer_prefix() -> Seq<u8> {
    seq![66u8, 101u8, 97u8, 114u8, 101u8, 114u8, 32u8]
}

/// The token presented by a request: the bytes after `Bearer `, or empty
/// when the header is missing or shaped otherwise.
pub open spec fn spec_presented_token(header: Option<Seq<u8>>) -> Seq<u8> {
    match header {
        Some(h) => if starts_with_seq(h, bearer_prefix()) {
            h.skip(7)
        } else {
            Seq::empty()
        },
        None => Seq::empty(),
    }
}

/// Byte equality that examines every position of equal-length inputs, so a
/// prefix match costs the same time as a mismatch.
fn ct_bytes_eq(a: &[u8], b: &[u8]) -> (r: bool)
    ensures
        r == (a@ == b@),
{
    if a.len() != b.len() {
        return false;
    }
    let n = a.len();
    let mut acc: u8 = 0;
    let mut i: usize = 0;
    while i < n
        invariant
            0 <= i <= n,
            n == a@.len() == b@.len(),
            (acc == 0) <==> (forall|j: int| 0 <= j < i ==> a@[j] == b@[j]),
        decreases n - i,
    {
        let x = a[i];
        let y = b[i];
        let d = x ^ y;
        proof {
            assert((x ^ y) == 0 <==> x == y) by (bit_vector);
            let a0 = acc;
            assert((a0 | d) == 0 <==> (a0 == 0 && d == 0)) by (bit_vector);
        }
        acc = acc | d;
        i += 1;
    }
    if acc == 0 {
        proof {
            assert(a@ =~= b@);
        }
        true
    } else {
        false
    }
}

/// Whether a request's authorization header carries the process token:
/// exactly when the header is `Bearer ` followed by the token (a missing or
/// differently shaped header counts as an empty presented token). The
/// comparison looks at every byte.
pub fn check_bearer(auth_header: Option<&str>, token: &str) -> (r: bool)
    ensures
        r == (spec_presented_token(
            match auth_header {
                Some(h) => Some(h.spec_bytes()),
                None => None,
            },
        ) == token.spec_bytes()),
{
    let presented: &[u8] = match auth_header {
        Some(h) => {
            let hb = h.as_bytes();
            let prefix: [u8; 7] = [66, 101, 97, 114, 101, 114, 32];
            proof {
                assert(prefix@ =~= bearer_prefix());
            }
            if crate::bytesutil::starts_with_bytes(hb, prefix.as_slice()) {
                let rest = &hb[7..hb.len()];
                proof {
                    assert(rest@ =~= hb@.skip(7));
                }
                rest
            } else {
                let empty: &[u8] = &[];
                proof {
                    assert(empty@ =~= Seq::<u8>::empty());
                }
                empty
            }
        },
        None => {
            let empty: &[u8] = &[];
            proof {
                assert(empty@ =~= Seq::<u8>::empty());
            }
            empty
        },
    };
    ct_bytes_eq(presented, token.as_bytes())
}

} // verus!
