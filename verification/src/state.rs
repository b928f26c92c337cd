//! Shared state of the relay: the registry of connected endpoints and the
//! table of in-flight request responders, each an association table with
//! unique keys, plus the process-wide configuration record.

use vstd::prelude::*;
use crate::outside;
use crate::strutil::str_eq;

verus! {

/// What `GET /api/clients` reports of a connected endpoint.
pub struct ClientInfo {
    pub id: String,
    pub name: String,
    pub folder_name: String,
    pub connected_at: String,
}

/// A connected endpoint: its public record and the outbound channel to its
/// writer task.
pub struct ConnectedClient {
    pub info: ClientInfo,
    pub tx: tokio::sync::mpsc::UnboundedSender<String>,
}

/// The value stored for `key` in an association list, first match wins.
pub open spec fn seq_lookup<V>(s: Seq<(String, V)>, key: Seq<char>) -> Option<V>
    decreases s.len(),
{
    if s.len() == 0 {
        None
    } else if s[0].0@ == key {
        Some(s[0].1)
    } else {
        seq_lookup(s.drop_first(), key)
    }
}

/// An association table from string keys to values, with unique keys.
pub struct Table<V> {
    pub entries: Vec<(String, V)>,
}

impl<V> Table<V> {
    /// No key occurs twice.
    pub open spec fn keys_unique(&self) -> bool {
        forall|i: int, j: int|
            0 <= i < j < self.entries@.len() ==> self.entries@[i].0@ != self.entries@[j].0@
    }

    pub open spec fn spec_lookup(&self, key: Seq<char>) -> Option<V> {
        seq_lookup(self.entries@, key)
    }

    pub open spec fn spec_contains(&self, key: Seq<char>) -> bool {
        self.spec_lookup(key) is Some
    }

    /// An empty table.
    pub fn new() -> (r: Self)
        ensures
            r.entries@.len() == 0,
            r.keys_unique(),
            forall|k: Seq<char>| !r.spec_contains(k),
    {
        Table { entries: Vec::new() }
    }

    pub fn len(&self) -> (r: usize)
        ensures
            r == self.entries@.len(),
    {
        self.entries.len()
    }

    /// Index of the key, if present.
    fn find_index(&self, key: &str) -> (r: Option<usize>)
        ensures
            r matches Some(i) ==> i < self.entries@.len() && self.entries@[i as int].0@ == key@
                && self.spec_lookup(key@) == Some(self.entries@[i as int].1),
            r is None ==> self.spec_lookup(key@) is None,
    {
        let n = self.entries.len();
        let mut i: usize = 0;
        proof {
            assert(self.entries@.skip(0) =~= self.entries@);
        }
        while i < n
            invariant
                0 <= i <= n,
                n == self.entries@.len(),
                seq_lookup(self.entries@, key@) == seq_lookup(
                    self.entries@.skip(i as int),
                    key@,
                ),
            decreases n - i,
        {
            if str_eq(self.entries[i].0.as_str(), key) {
                return Some(i);
            }
            proof {
                assert(self.entries@.skip(i as int).drop_first() =~= self.entries@.skip(i + 1));
            }
            i += 1;
        }
        None
    }

    /// Borrows the value for a key.
    pub fn get<'a>(&'a self, key: &str) -> (r: Option<&'a V>)
        ensures
            r matches Some(v) ==> self.spec_lookup(key@) == Some(*v),
            r is None ==> self.spec_lookup(key@) is None,
    {
        match self.find_index(key) {
            Some(i) => Some(&self.entries[i].1),
            None => None,
        }
    }

    pub fn contains(&self, key: &str) -> (r: bool)
        ensures
            r == self.spec_contains(key@),
    {
        self.find_index(key).is_some()
    }

    /// Inserts a key, replacing any existing entry for it (the table keeps
    /// unique keys).
    pub fn insert(&mut self, key: String, value: V)
        requires
            old(self).keys_unique(),
        ensures
            final(self).keys_unique(),
            final(self).spec_lookup(key@) == Some(value),
            forall|k: Seq<char>|
                k != key@ ==> final(self).spec_lookup(k) == old(self).spec_lookup(k),
    {
        self.remove(key.as_str());
        let ghost pre = self.entries@;
        self.entries.push((key, value));
        proof {
            lemma_lookup_push(pre, (key, value));
            assert forall|i: int, j: int|
                0 <= i < j < self.entries@.len() implies self.entries@[i].0@
                != self.entries@[j].0@ by {
                if j < pre.len() {
                } else {
                    assert(self.entries@[j].0@ == key@);
                    lemma_absent_no_index(pre, key@, i);
                }
            }
        }
    }

    /// Removes a key if present; afterwards the table does not hold it.
    pub fn remove(&mut self, key: &str)
        requires
            old(self).keys_unique(),
        ensures
            final(self).keys_unique(),
            final(self).spec_lookup(key@) is None,
            forall|k: Seq<char>|
                k != key@ ==> final(self).spec_lookup(k) == old(self).spec_lookup(k),
    {
        match self.find_index(key) {
            None => {
                proof {
                    assert(self.spec_lookup(key@) is None);
                }
            },
            Some(i) => {
                let ghost pre = self.entries@;
                let _ = self.entries.remove(i);
                proof {
                    lemma_first_match_unique(pre, key@, i as int);
                    lemma_lookup_remove(pre, i as int);
                }
            },
        }
    }

    /// Removes and returns the value for a key: the entry is taken out of
    /// the table before the value is handed to the caller, so nothing can be
    /// handed out twice.
    pub fn take(&mut self, key: &str) -> (r: Option<V>)
        requires
            old(self).keys_unique(),
        ensures
            final(self).keys_unique(),
            r == old(self).spec_lookup(key@),
            final(self).spec_lookup(key@) is None,
            forall|k: Seq<char>|
                k != key@ ==> final(self).spec_lookup(k) == old(self).spec_lookup(k),
            old(self).spec_lookup(key@) is None ==> final(self).entries@ == old(self).entries@,
    {
        match self.find_index(key) {
            None => None,
            Some(i) => {
                let ghost pre = self.entries@;
                let (_, v) = self.entries.remove(i);
                proof {
                    lemma_first_match_unique(pre, key@, i as int);
                    lemma_lookup_remove(pre, i as int);
                }
                Some(v)
            },
        }
    }
}

/// The first index holding the key is the one `find_index` returns: with the
/// lookup a match, no earlier entry holds the key.
proof fn lemma_first_match_unique<V>(s: Seq<(String, V)>, key: Seq<char>, i: int)
    requires
        0 <= i < s.len(),
        s[i].0@ == key,
        forall|a: int, b: int| 0 <= a < b < s.len() ==> s[a].0@ != s[b].0@,
    ensures
        seq_lookup(s, key) == Some(s[i].1),
        forall|j: int| 0 <= j < s.len() && j != i ==> s[j].0@ != key,
    decreases i,
{
    assert forall|j: int| 0 <= j < s.len() && j != i implies s[j].0@ != key by {
        if j < i {
            assert(s[j].0@ != s[i].0@);
        } else {
            assert(s[i].0@ != s[j].0@);
        }
    }
    if i == 0 {
    } else {
        assert(s.drop_first()[i - 1] == s[i]);
        assert forall|a: int, b: int|
            0 <= a < b < s.drop_first().len() implies s.drop_first()[a].0@
            != s.drop_first()[b].0@ by {
            assert(s.drop_first()[a] == s[a + 1]);
            assert(s.drop_first()[b] == s[b + 1]);
        }
        lemma_first_match_unique(s.drop_first(), key, i - 1);
    }
}

/// Removing the only entry for a key removes that key and nothing else.
proof fn lemma_lookup_remove<V>(s: Seq<(String, V)>, i: int)
    requires
        0 <= i < s.len(),
        forall|j: int| 0 <= j < s.len() && j != i ==> s[j].0@ != s[i].0@,
        forall|a: int, b: int| 0 <= a < b < s.len() ==> s[a].0@ != s[b].0@,
    ensures
        seq_lookup(s.remove(i), s[i].0@) is None,
        forall|k: Seq<char>| k != s[i].0@ ==> seq_lookup(s.remove(i), k) == seq_lookup(s, k),
        forall|a: int, b: int|
            0 <= a < b < s.remove(i).len() ==> (#[trigger] s.remove(i)[a]).0@ != (
            #[trigger] s.remove(i)[b]).0@,
    decreases i,
{
    assert forall|a: int, b: int|
        0 <= a < b < s.remove(i).len() implies (#[trigger] s.remove(i)[a]).0@ != (
    #[trigger] s.remove(i)[b]).0@ by {
        let x: int = if a < i {
            a
        } else {
            a + 1
        };
        let y: int = if b < i {
            b
        } else {
            b + 1
        };
        assert(s.remove(i)[a] == s[x]);
        assert(s.remove(i)[b] == s[y]);
    }
    if i == 0 {
        assert(s.remove(0) =~= s.drop_first());
        lemma_lookup_absent(s.drop_first(), s[0].0@);
    } else {
        assert(s.remove(i).drop_first() =~= s.drop_first().remove(i - 1));
        assert forall|j: int|
            0 <= j < s.drop_first().len() && j != i - 1 implies (#[trigger] s.drop_first()[j]).0@
            != s.drop_first()[i - 1].0@ by {
            assert(s.drop_first()[j] == s[j + 1]);
        }
        assert(s.drop_first()[i - 1] == s[i]);
        assert forall|a: int, b: int|
            0 <= a < b < s.drop_first().len() implies s.drop_first()[a].0@
            != s.drop_first()[b].0@ by {
            assert(s.drop_first()[a] == s[a + 1]);
            assert(s.drop_first()[b] == s[b + 1]);
        }
        lemma_lookup_remove(s.drop_first(), i - 1);
        assert(s.remove(i)[0] == s[0]);
        assert(s.remove(i).len() > 0);
        assert forall|k: Seq<char>|
            k != s[i].0@ implies seq_lookup(s.remove(i), k) == seq_lookup(s, k) by {
            if s[0].0@ == k {
                assert(seq_lookup(s.remove(i), k) == Some(s.remove(i)[0].1));
                assert(seq_lookup(s, k) == Some(s[0].1));
            } else {
                assert(seq_lookup(s.remove(i), k) == seq_lookup(s.remove(i).drop_first(), k));
                assert(seq_lookup(s, k) == seq_lookup(s.drop_first(), k));
            }
        }
        assert(s[0].0@ != s[i].0@);
        assert(seq_lookup(s.remove(i), s[i].0@) == seq_lookup(s.remove(i).drop_first(), s[i].0@));
    }
}

/// A key absent from every entry looks up to nothing.
proof fn lemma_lookup_absent<V>(s: Seq<(String, V)>, key: Seq<char>)
    requires
        forall|j: int| 0 <= j < s.len() ==> s[j].0@ != key,
    ensures
        seq_lookup(s, key) is None,
    decreases s.len(),
{
    if s.len() > 0 {
        assert forall|j: int| 0 <= j < s.drop_first().len() implies s.drop_first()[j].0@
            != key by {
            assert(s.drop_first()[j] == s[j + 1]);
        }
        lemma_lookup_absent(s.drop_first(), key);
    }
}

/// The reverse: an absent key occurs at no index.
proof fn lemma_absent_no_index<V>(s: Seq<(String, V)>, key: Seq<char>, i: int)
    requires
        seq_lookup(s, key) is None,
        0 <= i < s.len(),
    ensures
        s[i].0@ != key,
    decreases i,
{
    if i > 0 {
        assert(s.drop_first()[i - 1] == s[i]);
        lemma_absent_no_index(s.drop_first(), key, i - 1);
    }
}

/// Pushing a fresh entry adds its key and keeps every other lookup.
proof fn lemma_lookup_push<V>(s: Seq<(String, V)>, e: (String, V))
    requires
        seq_lookup(s, e.0@) is None,
    ensures
        seq_lookup(s.push(e), e.0@) == Some(e.1),
        forall|k: Seq<char>| k != e.0@ ==> seq_lookup(s.push(e), k) == seq_lookup(s, k),
    decreases s.len(),
{
    if s.len() == 0 {
        assert(s.push(e).drop_first() =~= Seq::<(String, V)>::empty());
        assert(s.push(e)[0] == e);
        assert forall|k: Seq<char>|
            k != e.0@ implies seq_lookup(s.push(e), k) == seq_lookup(s, k) by {
            assert(seq_lookup(s.push(e), k) == seq_lookup(s.push(e).drop_first(), k));
        }
    } else {
        assert(s.push(e)[0] == s[0]);
        assert(s.push(e).drop_first() =~= s.drop_first().push(e));
        lemma_lookup_push(s.drop_first(), e);
        assert forall|k: Seq<char>|
            k != e.0@ implies seq_lookup(s.push(e), k) == seq_lookup(s, k) by {
            if s[0].0@ == k {
                assert(seq_lookup(s.push(e), k) == Some(s.push(e)[0].1));
            } else {
                assert(seq_lookup(s.push(e), k) == seq_lookup(s.push(e).drop_first(), k));
                assert(seq_lookup(s, k) == seq_lookup(s.drop_first(), k));
            }
        }
        assert(s[0].0@ != e.0@);
        assert(seq_lookup(s.push(e), e.0@) == seq_lookup(s.push(e).drop_first(), e.0@));
    }
}

/// Process-wide state: the endpoint registry, the pending-responder table,
/// and the immutable configuration (plaintext port, allowed mount base, and
/// the bearer token minted at startup).
pub struct AppState {
    pub clients: Table<ConnectedClient>,
    pub pending: Table<tokio::sync::oneshot::Sender<String>>,
    pub port: u16,
    pub api_token: String,
    pub allowed_mount_base: String,
}

impl AppState {
    /// Every client id in the registry is a well-formed UUID.
    pub open spec fn ids_wellformed(&self) -> bool {
        forall|k: Seq<char>|
            #[trigger] self.clients.spec_contains(k) ==> outside::uuid_accepts(k)
    }

    /// Both tables keep unique keys.
    pub open spec fn wf(&self) -> bool {
        self.clients.keys_unique() && self.pending.keys_unique()
    }

    /// Fresh state: empty tables and a newly minted bearer token (a UUID).
    pub fn new(port: u16, allowed_mount_base: String) -> (r: Self)
        ensures
            r.wf(),
            r.ids_wellformed(),
            r.clients.entries@.len() == 0,
            r.pending.entries@.len() == 0,
            r.port == port,
            r.allowed_mount_base@ == allowed_mount_base@,
            outside::uuid_accepts(r.api_token@),
    {
        let token = outside::new_uuid_string();
        AppState {
            clients: Table::new(),
            pending: Table::new(),
            port,
            api_token: token,
            allowed_mount_base,
        }
    }
}


/// The listing `GET /api/clients` reports: each connected endpoint's public
/// record, in table order.
pub fn client_infos(state: &AppState) -> (r: Vec<ClientInfo>)
    ensures
        r@.len() == state.clients.entries@.len(),
        forall|i: int|
            0 <= i < r@.len() ==> {
                let info = #[trigger] state.clients.entries@[i].1.info;
                r@[i].id@ == info.id@ && r@[i].name@ == info.name@ && r@[i].folder_name@
                    == info.folder_name@ && r@[i].connected_at@ == info.connected_at@
            },
{
    let n = state.clients.entries.len();
    let mut out: Vec<ClientInfo> = Vec::new();
    let mut i: usize = 0;
    while i < n
        invariant
            0 <= i <= n,
            n == state.clients.entries@.len(),
            out@.len() == i,
            forall|k: int|
                0 <= k < i ==> {
                    let info = #[trigger] state.clients.entries@[k].1.info;
                    out@[k].id@ == info.id@ && out@[k].name@ == info.name@ && out@[k].folder_name@
                        == info.folder_name@ && out@[k].connected_at@ == info.connected_at@
                },
        decreases n - i,
    {
        let info = &state.clients.entries[i].1.info;
        out.push(
            ClientInfo {
                id: crate::mountpath::clone_string(&info.id),
                name: crate::mountpath::clone_string(&info.name),
                folder_name: crate::mountpath::clone_string(&info.folder_name),
                connected_at: crate::mountpath::clone_string(&info.connected_at),
            },
        );
        i += 1;
    }
    out
}

} // verus!
