//! The server registry: alias → connection descriptor, and the field-level
//! comparison that decides which pooled sessions a reload must drop.
use vstd::prelude::*;

use crate::seqs::{lemma_index_of, lemma_push_contains};
use crate::metadata::{copy_opt, opt_eq, opt_view, MetadataSpec, SystemMetadata};

verus! {

/// The default SSH port.
pub const DEFAULT_SSH_PORT: u16 = 22;

/// How a server is authenticated.
#[derive(Debug, Clone, Copy, PartialEq, Eq, Structural)]
pub enum AuthMethod {
    Auto,
    Agent,
    Key,
}

impl Default for AuthMethod {
    fn default() -> (r: Self)
        ensures
            r == AuthMethod::Auto,
    {
        AuthMethod::Auto
    }
}

impl AuthMethod {
    /// The method's name as the registry file writes it.
    pub fn name(&self) -> (r: &'static str)
        ensures
            r@ == auth_name(*self),
    {
        proof {
            reveal_strlit("auto");
            reveal_strlit("agent");
            reveal_strlit("key");
        }
        match self {
            AuthMethod::Auto => "auto",
            AuthMethod::Agent => "agent",
            AuthMethod::Key => "key",
        }
    }
}

/// The name of each method.
pub open spec fn auth_name(m: AuthMethod) -> Seq<char> {
    match m {
        AuthMethod::Auto => seq!['a', 'u', 't', 'o'],
        AuthMethod::Agent => seq!['a', 'g', 'e', 'n', 't'],
        AuthMethod::Key => seq!['k', 'e', 'y'],
    }
}

/// The connection descriptor for one alias.
#[derive(Debug, Clone)]
pub struct ServerEntry {
    pub host: String,
    pub user: String,
    pub port: u16,
    pub remote_path: String,
    pub identity: Option<String>,
    pub auth: AuthMethod,
    pub metadata: Option<SystemMetadata>,
}

/// The fields of a `ServerEntry`, over plain values.
pub ghost struct EntrySpec {
    pub host: Seq<char>,
    pub user: Seq<char>,
    pub port: u16,
    pub remote_path: Seq<char>,
    pub identity: Option<Seq<char>>,
    pub auth: AuthMethod,
    pub metadata: Option<MetadataSpec>,
}

impl View for ServerEntry {
    type V = EntrySpec;

    open spec fn view(&self) -> EntrySpec {
        EntrySpec {
            host: self.host@,
            user: self.user@,
            port: self.port,
            remote_path: self.remote_path@,
            identity: opt_view(self.identity),
            auth: self.auth,
            metadata: match self.metadata {
                Some(m) => Some(m@),
                None => None,
            },
        }
    }
}

/// Whether two entries agree on every field that a connection depends on:
/// all but `metadata`.
pub open spec fn same_connection(a: EntrySpec, b: EntrySpec) -> bool {
    &&& a.host == b.host
    &&& a.user == b.user
    &&& a.port == b.port
    &&& a.remote_path == b.remote_path
    &&& a.identity == b.identity
    &&& a.auth == b.auth
}

impl ServerEntry {
    /// A field-for-field copy.
    pub fn copy(&self) -> (r: Self)
        ensures
            r@ == self@,
    {
        ServerEntry {
            host: self.host.clone(),
            user: self.user.clone(),
            port: self.port,
            remote_path: self.remote_path.clone(),
            identity: copy_opt(&self.identity),
            auth: self.auth,
            metadata: match &self.metadata {
                Some(m) => Some(m.copy()),
                None => None,
            },
        }
    }

    /// Whether `self` and `other` agree on every connection-relevant field.
    pub fn same_connection_as(&self, other: &ServerEntry) -> (r: bool)
        ensures
            r == same_connection(self@, other@),
    {
        self.host == other.host && self.user == other.user && self.port == other.port
            && self.remote_path == other.remote_path && opt_eq(&self.identity, &other.identity)
            && self.auth == other.auth
    }
}

/// Mapping alias → entry, each alias at most once.
#[derive(Debug, Clone)]
pub struct ServerRegistry {
    servers: Vec<(String, ServerEntry)>,
}

/// The aliases of `s`, in order.
pub open spec fn names_of(s: Seq<(String, ServerEntry)>) -> Seq<Seq<char>> {
    s.map_values(|e: (String, ServerEntry)| e.0@)
}

impl ServerRegistry {
    /// Each alias stands at most once.
    pub closed spec fn wf(&self) -> bool {
        names_of(self.servers@).no_duplicates()
    }

    /// The entries, in the order they are held.
    pub closed spec fn items(&self) -> Seq<(String, ServerEntry)> {
        self.servers@
    }

    /// The registry as a map from alias to entry.
    pub closed spec fn map(&self) -> Map<Seq<char>, EntrySpec> {
        Map::new(
            |k: Seq<char>| names_of(self.servers@).contains(k),
            |k: Seq<char>| self.servers@[names_of(self.servers@).index_of(k)].1@,
        )
    }

    /// The empty registry.
    pub fn new() -> (r: Self)
        ensures
            r.wf(),
            r.map() == Map::<Seq<char>, EntrySpec>::empty(),
    {
        let r = ServerRegistry { servers: Vec::new() };
        assert(names_of(r.servers@) =~= Seq::<Seq<char>>::empty());
        assert(r.map() =~= Map::<Seq<char>, EntrySpec>::empty());
        r
    }

    /// The number of aliases.
    pub fn len(&self) -> (r: usize)
        requires
            self.wf(),
        ensures
            r == self.map().dom().len(),
    {
        proof {
            self.lemma_dom_len();
        }
        self.servers.len()
    }

    /// Whether no alias is configured.
    pub fn is_empty(&self) -> (r: bool)
        requires
            self.wf(),
        ensures
            r == (self.map().dom().len() == 0),
    {
        self.len() == 0
    }

    proof fn lemma_dom_len(&self)
        requires
            self.wf(),
        ensures
            self.map().dom().len() == self.servers@.len(),
            self.map().dom() == names_of(self.servers@).to_set(),
    {
        let ns = names_of(self.servers@);
        assert(self.map().dom() =~= ns.to_set());
        ns.unique_seq_to_set();
    }

    proof fn lemma_map_at(&self, i: int)
        requires
            self.wf(),
            0 <= i < self.servers@.len(),
        ensures
            self.map().contains_key(self.servers@[i].0@),
            self.map()[self.servers@[i].0@] == self.servers@[i].1@,
    {
        let ns = names_of(self.servers@);
        assert(ns[i] == self.servers@[i].0@);
        lemma_index_of(ns, i);
    }

    /// Position of `name` among the entries, if present.
    fn position(&self, name: &str) -> (r: Option<usize>)
        ensures
            match r {
                Some(i) => i < self.servers@.len() && self.servers@[i as int].0@ == name@
                    && (self.wf() ==> names_of(self.servers@).index_of(name@) == i),
                None => !names_of(self.servers@).contains(name@),
            },
    {
        let key = name.to_owned();
        let mut i: usize = 0;
        while i < self.servers.len()
            invariant
                key@ == name@,
                i <= self.servers@.len(),
                forall|j: int| 0 <= j < i ==> self.servers@[j].0@ != name@,
            decreases self.servers@.len() - i,
        {
            if self.servers[i].0 == key {
                proof {
                    let ns = names_of(self.servers@);
                    assert(ns[i as int] == name@);
                    if self.wf() {
                        assert(ns.contains(name@));
                        let k = ns.index_of(name@);
                        assert(ns[k] == name@);
                    }
                }
                return Some(i);
            }
            i = i + 1;
        }
        proof {
            let ns = names_of(self.servers@);
            if ns.contains(name@) {
                let k = choose|k: int| 0 <= k < ns.len() && ns[k] == name@;
                assert(self.servers@[k].0@ == name@);
            }
        }
        None
    }

    /// Looks up an entry by alias.
    pub fn get(&self, name: &str) -> (r: Option<&ServerEntry>)
        requires
            self.wf(),
        ensures
            match r {
                Some(e) => self.map().contains_key(name@) && self.map()[name@] == e@,
                None => !self.map().contains_key(name@),
            },
    {
        match self.position(name) {
            Some(i) => {
                proof {
                    self.lemma_map_at(i as int);
                }
                Some(&self.servers[i].1)
            },
            None => None,
        }
    }

    /// Inserts an entry, replacing any entry under the same alias.
    pub fn insert(&mut self, name: String, entry: ServerEntry)
        requires
            old(self).wf(),
        ensures
            final(self).wf(),
            final(self).map() == old(self).map().insert(name@, entry@),
    {
        let ghost e = entry@;
        match self.position(name.as_str()) {
            Some(i) => {
                let ghost before = self.servers@;
                self.servers.set(i, (name, entry));
                proof {
                    assert(names_of(self.servers@) =~= names_of(before));
                    old(self).lemma_map_at(i as int);
                    self.lemma_map_at(i as int);
                    assert(self.map().dom() =~= old(self).map().insert(name@, e).dom());
                    assert forall|k: Seq<char>| #[trigger] self.map().contains_key(k) implies
                        self.map()[k] == old(self).map().insert(name@, e)[k] by {
                        let ns = names_of(self.servers@);
                        if k != name@ {
                            assert(ns.index_of(k) != i);
                        }
                    }
                    assert(self.map() =~= old(self).map().insert(name@, e));
                }
            },
            None => {
                let ghost before = self.servers@;
                self.servers.push((name, entry));
                proof {
                    let ns = names_of(self.servers@);
                    let nb = names_of(before);
                    assert(ns =~= nb.push(name@));
                    assert(ns.no_duplicates()) by {
                        assert forall|a: int, b: int| 0 <= a < b < ns.len() implies ns[a]
                            != ns[b] by {
                            if b == ns.len() - 1 {
                                assert(nb.contains(ns[a]));
                            }
                        }
                    }
                    assert forall|k: Seq<char>| #[trigger] self.map().contains_key(k) implies
                        self.map()[k] == old(self).map().insert(name@, e)[k] by {
                        if k == name@ {
                            assert(ns[ns.len() - 1] == k);
                            lemma_index_of(ns, ns.len() - 1);
                        } else {
                            assert(nb.contains(k));
                            let j = nb.index_of(k);
                            assert(ns[j] == k);
                            lemma_index_of(ns, j);
                        }
                    }
                    assert forall|k: Seq<char>| #[trigger] old(self).map().insert(name@, e).contains_key(k)
                        implies self.map().contains_key(k) by {
                        if k == name@ {
                            assert(ns[ns.len() - 1] == k);
                        } else {
                            let j = nb.index_of(k);
                            assert(ns[j] == k);
                        }
                    }
                    assert(self.map().dom() =~= old(self).map().insert(name@, e).dom());
                    assert(self.map() =~= old(self).map().insert(name@, e));
                }
            },
        }
    }

    /// Removes an entry, returning it if it existed.
    pub fn remove(&mut self, name: &str) -> (r: Option<ServerEntry>)
        requires
            old(self).wf(),
        ensures
            final(self).wf(),
            final(self).map() == old(self).map().remove(name@),
            match r {
                Some(e) => old(self).map().contains_key(name@) && old(self).map()[name@] == e@,
                None => !old(self).map().contains_key(name@),
            },
    {
        match self.position(name) {
            Some(i) => {
                proof {
                    self.lemma_map_at(i as int);
                }
                let ghost before = self.servers@;
                let (_, e) = self.servers.remove(i);
                proof {
                    let ns = names_of(self.servers@);
                    let nb = names_of(before);
                    assert(ns =~= nb.remove(i as int));
                    assert forall|a: int, b: int| 0 <= a < b < ns.len() implies ns[a] != ns[b] by {
                        let a2 = if a < i { a } else { a + 1 };
                        let b2 = if b < i { b } else { b + 1 };
                        assert(ns[a] == nb[a2] && ns[b] == nb[b2]);
                    }
                    assert forall|k: Seq<char>| #[trigger] self.map().contains_key(k) implies
                        self.map()[k] == old(self).map().remove(name@)[k] && k != name@
                        && old(self).map().contains_key(k) by {
                        let j = ns.index_of(k);
                        let j2 = if j < i { j } else { j + 1 };
                        assert(ns[j] == k);
                        assert(nb[j2] == k);
                        lemma_index_of(nb, j2);
                        assert(j2 != i);
                    }
                    assert forall|k: Seq<char>| #[trigger] old(self).map().contains_key(k) && k
                        != name@ implies self.map().contains_key(k) by {
                        let j = nb.index_of(k);
                        assert(nb[j] == k);
                        assert(j != i);
                        let j2 = if j < i { j } else { j - 1 };
                        assert(ns[j2] == k);
                    }
                    assert(self.map() =~= old(self).map().remove(name@));
                }
                Some(e)
            },
            None => {
                assert(old(self).map().remove(name@) =~= old(self).map());
                None
            },
        }
    }
}

impl Default for ServerRegistry {
    fn default() -> (r: Self)
        ensures
            r.wf(),
            r.map() == Map::<Seq<char>, EntrySpec>::empty(),
    {
        ServerRegistry::new()
    }
}

/// The aliases whose sessions a change from `old` to `new` invalidates:
/// those removed, and those whose connection-relevant fields differ.
pub open spec fn changed_aliases(
    old: Map<Seq<char>, EntrySpec>,
    new: Map<Seq<char>, EntrySpec>,
) -> Set<Seq<char>> {
    Set::new(
        |a: Seq<char>|
            old.contains_key(a) && (!new.contains_key(a) || !same_connection(old[a], new[a])),
    )
}

/// The views of a list of strings.
pub open spec fn views(v: Seq<String>) -> Seq<Seq<char>> {
    v.map_values(|s: String| s@)
}

impl ServerRegistry {
    /// The entries, in the order they are held.
    pub fn entries(&self) -> (r: &Vec<(String, ServerEntry)>)
        ensures
            r@ == self.items(),
    {
        &self.servers
    }

    /// The aliases in the order they are held.
    pub closed spec fn alias_order(&self) -> Seq<Seq<char>> {
        names_of(self.servers@)
    }

    /// The configured aliases, each once.
    pub fn names(&self) -> (r: Vec<String>)
        requires
            self.wf(),
        ensures
            views(r@) == self.alias_order(),
            views(r@).to_set() == self.map().dom(),
            views(r@).no_duplicates(),
    {
        let mut r: Vec<String> = Vec::new();
        let mut i: usize = 0;
        while i < self.servers.len()
            invariant
                self.wf(),
                i <= self.servers@.len(),
                views(r@) == names_of(self.servers@).take(i as int),
            decreases self.servers@.len() - i,
        {
            let ghost before = views(r@);
            let n = self.servers[i].0.clone();
            r.push(n);
            assert(views(r@) =~= before.push(names_of(self.servers@)[i as int]));
            i = i + 1;
            assert(views(r@) =~= names_of(self.servers@).take(i as int));
        }
        proof {
            assert(names_of(self.servers@).take(i as int) =~= names_of(self.servers@));
            self.lemma_dom_len();
        }
        r
    }

    /// The aliases whose pooled sessions must go when the registry changes
    /// from `self` to `new`: those that `new` lacks, and those whose `host`,
    /// `user`, `port`, `remote_path`, `identity` or `auth` differ. A change
    /// in `metadata` alone keeps the session.
    pub fn changed_servers(&self, new: &ServerRegistry) -> (r: Vec<String>)
        requires
            self.wf(),
            new.wf(),
        ensures
            views(r@).to_set() == changed_aliases(self.map(), new.map()),
            views(r@).no_duplicates(),
    {
        let mut r: Vec<String> = Vec::new();
        let mut i: usize = 0;
        let ghost ch = changed_aliases(self.map(), new.map());
        while i < self.servers.len()
            invariant
                self.wf(),
                new.wf(),
                ch == changed_aliases(self.map(), new.map()),
                i <= self.servers@.len(),
                views(r@).no_duplicates(),
                forall|k: Seq<char>| #[trigger] views(r@).contains(k) <==> ch.contains(k)
                    && names_of(self.servers@).take(i as int).contains(k),
            decreases self.servers@.len() - i,
        {
            let name = &self.servers[i].0;
            let entry = &self.servers[i].1;
            proof {
                self.lemma_map_at(i as int);
            }
            let changed = match new.get(name.as_str()) {
                None => true,
                Some(e2) => !entry.same_connection_as(e2),
            };
            let ghost ns = names_of(self.servers@);
            let ghost before = views(r@);
            proof {
                assert(ns.take(i + 1) =~= ns.take(i as int).push(ns[i as int]));
                assert(ch.contains(ns[i as int]) == changed);
            }
            if changed {
                r.push(name.clone());
                proof {
                    assert(views(r@) =~= before.push(ns[i as int]));
                    if before.contains(ns[i as int]) {
                        let t = choose|t: int| 0 <= t < i && ns.take(i as int)[t] == ns[i as int];
                        assert(ns[t] == ns[i as int]);
                        assert(false);
                    }
                    assert forall|a: int, b: int| 0 <= a < b < views(r@).len() implies views(r@)[a]
                        != views(r@)[b] by {
                        if b == views(r@).len() - 1 {
                            assert(views(r@)[a] == before[a]);
                            assert(before.contains(before[a]));
                        } else {
                            assert(views(r@)[a] == before[a] && views(r@)[b] == before[b]);
                        }
                    }
                }
            } else {
                assert(views(r@) == before);
            }
            proof {
                assert forall|k: Seq<char>| #[trigger] views(r@).contains(k) <==> ch.contains(k)
                    && ns.take(i + 1).contains(k) by {
                    lemma_push_contains(ns.take(i as int), ns[i as int], k);
                    if changed {
                        lemma_push_contains(before, ns[i as int], k);
                    }
                }
            }
            i = i + 1;
        }
        proof {
            let ns = names_of(self.servers@);
            assert(ns.take(i as int) =~= ns);
            assert forall|k: Seq<char>| ch.contains(k) implies views(r@).contains(k) by {
                assert(self.map().contains_key(k));
                self.lemma_dom_len();
                assert(ns.to_set().contains(k));
            }
            assert(views(r@).to_set() =~= ch);
        }
        r
    }
}

/// Two registries that hold the same aliases and differ at most in
/// `metadata` invalidate no session.
pub proof fn lemma_metadata_changes_evict_nothing(
    old: Map<Seq<char>, EntrySpec>,
    new: Map<Seq<char>, EntrySpec>,
)
    requires
        old.dom() == new.dom(),
        forall|a: Seq<char>| old.contains_key(a) ==> same_connection(old[a], new[a]),
    ensures
        changed_aliases(old, new) == Set::<Seq<char>>::empty(),
{
    assert(changed_aliases(old, new) =~= Set::<Seq<char>>::empty());
}

/// An alias keeps its session across a change exactly when it stays in the
/// registry with the same connection-relevant fields.
pub proof fn lemma_reload_keeps_unchanged(
    old: Map<Seq<char>, EntrySpec>,
    new: Map<Seq<char>, EntrySpec>,
    a: Seq<char>,
)
    requires
        old.contains_key(a),
    ensures
        !changed_aliases(old, new).contains(a) <==> (new.contains_key(a) && same_connection(
            old[a],
            new[a],
        )),
{
}


/// The fields of one `[servers.<alias>]` table as read from the registry
/// file, before defaults and checks.
#[derive(Debug, Clone)]
pub struct EntryFields {
    pub host: Option<String>,
    pub user: Option<String>,
    pub port: Option<i64>,
    pub remote_path: Option<String>,
    pub identity: Option<String>,
    pub auth: Option<String>,
    pub metadata: Option<SystemMetadata>,
}

/// Why a registry record was refused.
#[derive(Debug, Clone, PartialEq, Eq)]
pub enum RegistryError {
    /// No `host`, or an empty one.
    MissingHost(String),
    /// No `user`, or an empty one.
    MissingUser(String),
    /// A `port` outside 1–65535.
    BadPort(String, i64),
    /// An `auth` other than `auto`, `agent` or `key`.
    UnknownAuth(String, String),
}

/// The fields of an `EntryFields`, over plain values.
pub ghost struct FieldsSpec {
    pub host: Option<Seq<char>>,
    pub user: Option<Seq<char>>,
    pub port: Option<i64>,
    pub remote_path: Option<Seq<char>>,
    pub identity: Option<Seq<char>>,
    pub auth: Option<Seq<char>>,
    pub metadata: Option<MetadataSpec>,
}

impl View for EntryFields {
    type V = FieldsSpec;

    open spec fn view(&self) -> FieldsSpec {
        FieldsSpec {
            host: opt_view(self.host),
            user: opt_view(self.user),
            port: self.port,
            remote_path: opt_view(self.remote_path),
            identity: opt_view(self.identity),
            auth: opt_view(self.auth),
            metadata: match self.metadata {
                Some(m) => Some(m@),
                None => None,
            },
        }
    }
}

/// The error kinds over plain values.
pub enum RegistryErrorSpec {
    MissingHost(Seq<char>),
    MissingUser(Seq<char>),
    BadPort(Seq<char>, i64),
    UnknownAuth(Seq<char>, Seq<char>),
}

impl View for RegistryError {
    type V = RegistryErrorSpec;

    open spec fn view(&self) -> RegistryErrorSpec {
        match self {
            RegistryError::MissingHost(a) => RegistryErrorSpec::MissingHost(a@),
            RegistryError::MissingUser(a) => RegistryErrorSpec::MissingUser(a@),
            RegistryError::BadPort(a, p) => RegistryErrorSpec::BadPort(a@, *p),
            RegistryError::UnknownAuth(a, s) => RegistryErrorSpec::UnknownAuth(a@, s@),
        }
    }
}

/// The method that a registry file names.
pub open spec fn auth_of_name(s: Seq<char>) -> Option<AuthMethod> {
    if s == auth_name(AuthMethod::Auto) {
        Some(AuthMethod::Auto)
    } else if s == auth_name(AuthMethod::Agent) {
        Some(AuthMethod::Agent)
    } else if s == auth_name(AuthMethod::Key) {
        Some(AuthMethod::Key)
    } else {
        None
    }
}

/// The entry that the record `f` of alias `alias` gives: `host` and `user`
/// are required and non-empty, `port` defaults to 22 and must lie in
/// 1–65535, `remote_path` defaults to `~`, `auth` defaults to `auto`.
pub open spec fn entry_of_fields(alias: Seq<char>, f: FieldsSpec) -> Result<EntrySpec, RegistryErrorSpec> {
    match (f.host, f.user) {
        (Some(h), Some(u)) => if h.len() == 0 {
            Err(RegistryErrorSpec::MissingHost(alias))
        } else if u.len() == 0 {
            Err(RegistryErrorSpec::MissingUser(alias))
        } else {
            let port = match f.port { Some(p) => p, None => 22 };
            if port < 1 || port > 65535 {
                Err(RegistryErrorSpec::BadPort(alias, port))
            } else {
                let auth = match f.auth {
                    Some(s) => auth_of_name(s),
                    None => Some(AuthMethod::Auto),
                };
                match auth {
                    None => Err(RegistryErrorSpec::UnknownAuth(alias, f.auth->0)),
                    Some(a) => Ok(
                        EntrySpec {
                            host: h,
                            user: u,
                            port: port as u16,
                            remote_path: match f.remote_path { Some(p) => p, None => seq!['~'] },
                            identity: f.identity,
                            auth: a,
                            metadata: f.metadata,
                        },
                    ),
                }
            }
        },
        (None, _) => Err(RegistryErrorSpec::MissingHost(alias)),
        (Some(h), None) => if h.len() == 0 {
            Err(RegistryErrorSpec::MissingHost(alias))
        } else {
            Err(RegistryErrorSpec::MissingUser(alias))
        },
    }
}

/// The record written for entry `e`: every field present but `identity` and
/// `metadata` when absent.
pub open spec fn fields_of_entry(e: EntrySpec) -> FieldsSpec {
    FieldsSpec {
        host: Some(e.host),
        user: Some(e.user),
        port: Some(e.port as i64),
        remote_path: Some(e.remote_path),
        identity: e.identity,
        auth: Some(auth_name(e.auth)),
        metadata: e.metadata,
    }
}

fn parse_auth(s: &String) -> (r: Option<AuthMethod>)
    ensures
        r == auth_of_name(s@),
{
    let v = crate::text::chars_of(s.as_str());
    let n = v.len();
    proof {
        assert(v@.subrange(0, n as int) =~= v@);
        reveal_strlit("auto");
        reveal_strlit("agent");
        reveal_strlit("key");
        assert("auto"@ =~= auth_name(AuthMethod::Auto));
        assert("agent"@ =~= auth_name(AuthMethod::Agent));
        assert("key"@ =~= auth_name(AuthMethod::Key));
    }
    if crate::text::range_is(&v, 0, n, "auto") {
        Some(AuthMethod::Auto)
    } else if crate::text::range_is(&v, 0, n, "agent") {
        Some(AuthMethod::Agent)
    } else if crate::text::range_is(&v, 0, n, "key") {
        Some(AuthMethod::Key)
    } else {
        None
    }
}

impl ServerEntry {
    /// Builds the entry of `alias` from its record, applying the defaults and
    /// checks of the registry file.
    pub fn from_fields(alias: &str, f: EntryFields) -> (r: Result<ServerEntry, RegistryError>)
        ensures
            match r {
                Ok(e) => entry_of_fields(alias@, f@) == Ok::<EntrySpec, RegistryErrorSpec>(e@),
                Err(err) => entry_of_fields(alias@, f@) == Err::<EntrySpec, RegistryErrorSpec>(err@),
            },
    {
        let ghost fv = f@;
        let EntryFields { host, user, port, remote_path, identity, auth, metadata } = f;
        let h = match host {
            Some(h) => h,
            None => return Err(RegistryError::MissingHost(alias.to_owned())),
        };
        if h.as_str().is_empty() {
            return Err(RegistryError::MissingHost(alias.to_owned()));
        }
        let u = match user {
            Some(u) => u,
            None => return Err(RegistryError::MissingUser(alias.to_owned())),
        };
        if u.as_str().is_empty() {
            return Err(RegistryError::MissingUser(alias.to_owned()));
        }
        let p: i64 = match port {
            Some(p) => p,
            None => 22,
        };
        if p < 1 || p > 65535 {
            return Err(RegistryError::BadPort(alias.to_owned(), p));
        }
        let a = match &auth {
            Some(s) => match parse_auth(s) {
                Some(a) => a,
                None => return Err(RegistryError::UnknownAuth(alias.to_owned(), s.clone())),
            },
            None => AuthMethod::Auto,
        };
        let rp = match remote_path {
            Some(rp) => rp,
            None => {
                let mut t = String::new();
                crate::text::push_char(&mut t, '~');
                t
            },
        };
        Ok(ServerEntry { host: h, user: u, port: p as u16, remote_path: rp, identity, auth: a, metadata })
    }

    /// The record written to the registry file for this entry.
    pub fn to_fields(&self) -> (r: EntryFields)
        ensures
            r@ == fields_of_entry(self@),
    {
        let mut auth = String::new();
        crate::text::push_str(&mut auth, self.auth.name());
        EntryFields {
            host: Some(self.host.clone()),
            user: Some(self.user.clone()),
            port: Some(self.port as i64),
            remote_path: Some(self.remote_path.clone()),
            identity: copy_opt(&self.identity),
            auth: Some(auth),
            metadata: match &self.metadata {
                Some(m) => Some(m.copy()),
                None => None,
            },
        }
    }
}

/// The views of registry records.
pub open spec fn record_views(r: Seq<(String, EntryFields)>) -> Seq<(Seq<char>, FieldsSpec)> {
    r.map_values(|x: (String, EntryFields)| (x.0@, x.1@))
}

/// The registry that records give, read in order: each valid record sets
/// its alias, a later record of an alias replacing an earlier one.
pub open spec fn map_of_records(rs: Seq<(Seq<char>, FieldsSpec)>) -> Map<Seq<char>, EntrySpec>
    decreases rs.len(),
{
    if rs.len() == 0 {
        Map::empty()
    } else {
        match entry_of_fields(rs.last().0, rs.last().1) {
            Ok(e) => map_of_records(rs.drop_last()).insert(rs.last().0, e),
            Err(_) => map_of_records(rs.drop_last()),
        }
    }
}

/// Whether `e` can be written to the registry file and read back: a
/// non-empty host and user and a port from 1 up.
pub open spec fn storable(e: EntrySpec) -> bool {
    e.host.len() > 0 && e.user.len() > 0 && e.port >= 1
}

/// Writing an entry's record and reading it back gives the entry again.
pub proof fn lemma_fields_round_trip(alias: Seq<char>, e: EntrySpec)
    requires
        storable(e),
    ensures
        entry_of_fields(alias, fields_of_entry(e)) == Ok::<EntrySpec, RegistryErrorSpec>(e),
{
    let f = fields_of_entry(e);
    assert(auth_name(AuthMethod::Auto) != auth_name(AuthMethod::Agent));
    assert(auth_name(AuthMethod::Auto) != auth_name(AuthMethod::Key));
    assert(auth_name(AuthMethod::Agent) != auth_name(AuthMethod::Key));
    assert(auth_of_name(auth_name(e.auth)) == Some(e.auth));
}

impl ServerRegistry {
    /// The records to write for this registry, one per alias.
    pub fn to_records(&self) -> (r: Vec<(String, EntryFields)>)
        ensures
            record_views(r@) == self.written_records(),
            r@.len() == self.items().len(),
            forall|i: int| 0 <= i < r@.len() ==> {
                &&& (#[trigger] r@[i]).0@ == self.items()[i].0@
                &&& r@[i].1@ == fields_of_entry(self.items()[i].1@)
            },
    {
        let mut r: Vec<(String, EntryFields)> = Vec::new();
        let mut i: usize = 0;
        while i < self.servers.len()
            invariant
                i <= self.servers@.len(),
                r@.len() == i,
                forall|j: int| 0 <= j < i ==> {
                    &&& (#[trigger] r@[j]).0@ == self.servers@[j].0@
                    &&& r@[j].1@ == fields_of_entry(self.servers@[j].1@)
                },
            decreases self.servers@.len() - i,
        {
            let (name, e) = (&self.servers[i].0, &self.servers[i].1);
            r.push((name.clone(), e.to_fields()));
            i = i + 1;
        }
        assert(record_views(r@) =~= self.written_records());
        r
    }

    /// Builds a registry from the records read from the file, in order; the
    /// first record that fails its checks is reported.
    pub fn from_records(records: &Vec<(String, EntryFields)>) -> (r: Result<ServerRegistry, RegistryError>)
        ensures
            match r {
                Ok(reg) => reg.wf() && reg.map() == map_of_records(record_views(records@))
                    && forall|i: int| 0 <= i < records@.len() ==>
                    #[trigger] entry_of_fields(records@[i].0@, records@[i].1@) is Ok,
                Err(e) => exists|i: int| 0 <= i < records@.len() &&
                    #[trigger] entry_of_fields(records@[i].0@, records@[i].1@) == Err::<EntrySpec, RegistryErrorSpec>(e@),
            },
    {
        let mut reg = ServerRegistry::new();
        let mut i: usize = 0;
        while i < records.len()
            invariant
                reg.wf(),
                i <= records@.len(),
                reg.map() == map_of_records(record_views(records@).take(i as int)),
                forall|k: int| 0 <= k < i ==> #[trigger] entry_of_fields(records@[k].0@, records@[k].1@) is Ok,
            decreases records@.len() - i,
        {
            let name = &records[i].0;
            let fields = records[i].1.copy();
            proof {
                let rv = record_views(records@);
                assert(rv.take(i + 1).drop_last() =~= rv.take(i as int));
                assert(rv.take(i + 1).last() == (name@, fields@));
            }
            match ServerEntry::from_fields(name.as_str(), fields) {
                Ok(e) => reg.insert(name.clone(), e),
                Err(err) => return Err(err),
            }
            i = i + 1;
        }
        assert(record_views(records@).take(i as int) =~= record_views(records@));
        Ok(reg)
    }
}

impl ServerRegistry {
    /// The records written for this registry, in the order held.
    pub closed spec fn written_records(&self) -> Seq<(Seq<char>, FieldsSpec)> {
        self.servers@.map_values(|x: (String, ServerEntry)| (x.0@, fields_of_entry(x.1@)))
    }

    proof fn lemma_written_prefix(&self, n: int)
        requires
            self.wf(),
            0 <= n <= self.servers@.len(),
            forall|k: Seq<char>| #[trigger] self.map().contains_key(k) ==> storable(self.map()[k]),
        ensures
            map_of_records(self.written_records().take(n)) == self.map().restrict(
                names_of(self.servers@).take(n).to_set(),
            ),
            forall|i: int| 0 <= i < n ==> #[trigger] entry_of_fields(self.written_records()[i].0, self.written_records()[i].1) is Ok,
        decreases n,
    {
        let w = self.written_records();
        let ns = names_of(self.servers@);
        if n == 0 {
            assert(w.take(0) =~= Seq::<(Seq<char>, FieldsSpec)>::empty());
            assert(self.map().restrict(ns.take(0).to_set()) =~= Map::<Seq<char>, EntrySpec>::empty());
        } else {
            self.lemma_written_prefix(n - 1);
            self.lemma_map_at(n - 1);
            let name = self.servers@[n - 1].0@;
            let e = self.servers@[n - 1].1@;
            assert(self.map()[name] == e);
            lemma_fields_round_trip(name, e);
            assert(w.take(n).drop_last() =~= w.take(n - 1));
            assert(w.take(n).last() == (name, fields_of_entry(e)));
            assert(ns.take(n) =~= ns.take(n - 1).push(name));
            assert forall|k: Seq<char>| #[trigger] ns.take(n).to_set().contains(k) <==> ns.take(n - 1).to_set().insert(name).contains(k) by {
                crate::seqs::lemma_push_contains(ns.take(n - 1), name, k);
            }
            assert(ns.take(n).to_set() =~= ns.take(n - 1).to_set().insert(name));
            assert(self.map().restrict(ns.take(n).to_set()) =~= self.map().restrict(
                ns.take(n - 1).to_set(),
            ).insert(name, e));
        }
    }
}

/// Writing a registry's records and reading them back gives the same
/// registry: every record is valid, and the registry they give maps each
/// alias to its entry, provided every entry is storable.
pub proof fn lemma_registry_round_trip(reg: ServerRegistry)
    requires
        reg.wf(),
        forall|k: Seq<char>| #[trigger] reg.map().contains_key(k) ==> storable(reg.map()[k]),
    ensures
        map_of_records(reg.written_records()) == reg.map(),
        forall|i: int| 0 <= i < reg.written_records().len() ==> #[trigger] entry_of_fields(
            reg.written_records()[i].0,
            reg.written_records()[i].1,
        ) is Ok,
{
    let n = reg.items().len() as int;
    reg.lemma_written_prefix(n);
    reg.lemma_dom_len();
    assert(names_of(reg.items()).take(n) =~= names_of(reg.items()));
    assert(reg.written_records().take(n) =~= reg.written_records());
    assert(reg.map().restrict(reg.map().dom()) =~= reg.map());
}

impl EntryFields {
    /// A field-for-field copy.
    pub fn copy(&self) -> (r: Self)
        ensures
            r@ == self@,
    {
        EntryFields {
            host: copy_opt(&self.host),
            user: copy_opt(&self.user),
            port: self.port,
            remote_path: copy_opt(&self.remote_path),
            identity: copy_opt(&self.identity),
            auth: copy_opt(&self.auth),
            metadata: match &self.metadata {
                Some(m) => Some(m.copy()),
                None => None,
            },
        }
    }
}

} // verus!
