//! The dispatcher's decisions: where a tool call's session comes from, what
//! happens to it after the call, and which sessions a registry reload drops.
//! The caller performs the I/O (connecting, checking liveness, reading the
//! registry file) and hands the outcomes back.
use vstd::prelude::*;

use crate::cli::connection::{params_from_config, params_of_entry};
use crate::connection::pool::{ConnectionPool, PoolEntry};
use crate::connection::session::ConnectionParams;
use crate::metadata::join_strings;
use crate::server_registry::{changed_aliases, views, EntrySpec, ServerRegistry};
use crate::text::{join, push_str};

verus! {

/// Where the session for a call comes from.
pub enum Resolution {
    /// A pooled session, with its identity; check its liveness before use.
    Pooled { id: u64 },
    /// No session is pooled; connect with these parameters.
    Connect(ConnectionParams),
    /// The alias is not configured; the message says what is.
    Missing(String),
}

/// The message for an alias that is not configured.
pub open spec fn not_found_text(server: Seq<char>, configured: Seq<Seq<char>>) -> Seq<char> {
    if configured.len() == 0 {
        "Error: server '"@ + server
            + "' not found. No servers are configured. Add servers via 'ssh-hub add <name> <connection>'."@
    } else {
        "Error: server '"@ + server + "' not found. Configured servers: "@ + join(configured, ", "@)
            + "."@
    }
}

/// Builds the message for an alias that is not configured, listing the
/// configured ones.
pub fn not_found_message(server: &str, configured: &Vec<String>) -> (r: String)
    ensures
        r@ == not_found_text(server@, views(configured@)),
{
    let mut r = String::new();
    push_str(&mut r, "Error: server '");
    push_str(&mut r, server);
    if configured.len() == 0 {
        push_str(
            &mut r,
            "' not found. No servers are configured. Add servers via 'ssh-hub add <name> <connection>'.",
        );
    } else {
        push_str(&mut r, "' not found. Configured servers: ");
        let list = join_strings(configured, ", ");
        push_str(&mut r, list.as_str());
        push_str(&mut r, ".");
    }
    assert(views(configured@) =~= configured@.map_values(|s: String| s@));
    r
}

/// The message for a configured alias whose automatic connection failed.
pub open spec fn connect_failed_text(server: Seq<char>, cause: Seq<char>) -> Seq<char> {
    "Error: server '"@ + server + "' is configured but auto-connect failed: "@ + cause
}

/// Builds the message for a configured alias whose automatic connection
/// failed with `cause`.
pub fn connect_failed_message(server: &str, cause: &str) -> (r: String)
    ensures
        r@ == connect_failed_text(server@, cause@),
{
    let mut r = String::new();
    push_str(&mut r, "Error: server '");
    push_str(&mut r, server);
    push_str(&mut r, "' is configured but auto-connect failed: ");
    push_str(&mut r, cause);
    r
}

/// The dispatcher's state: the pool of live sessions, the registry, and the
/// registry file's last observed modification time.
pub struct Dispatcher<T> {
    pool: ConnectionPool<T>,
    config: ServerRegistry,
    config_mtime: Option<u128>,
    connecting: Vec<String>,
}

/// What a call on an alias may do next.
pub enum Claim {
    /// Use the pooled session with this identity; check its liveness first.
    Pooled { id: u64 },
    /// Connect with these parameters; the alias is now claimed until
    /// `connected` or `connect_failed` releases it.
    Connect(ConnectionParams),
    /// Another call is connecting this alias; wait for it and claim again.
    Wait,
    /// The alias is not configured; the message says what is.
    Missing(String),
}

impl<T> Dispatcher<T> {
    /// The pooled sessions by alias.
    pub closed spec fn sessions(&self) -> Map<Seq<char>, PoolEntry<T>> {
        self.pool.map()
    }

    /// The registry in use, by alias.
    pub closed spec fn registry(&self) -> Map<Seq<char>, EntrySpec> {
        self.config.map()
    }

    /// The registry's aliases in the order they are held.
    pub closed spec fn registry_order(&self) -> Seq<Seq<char>> {
        self.config.alias_order()
    }

    /// The last observed modification time of the registry file.
    pub closed spec fn mtime(&self) -> Option<u128> {
        self.config_mtime
    }

    /// Whether another session can be given a fresh identity.
    pub closed spec fn fresh_ids_left(&self) -> bool {
        self.pool.next_id() < u64::MAX
    }

    /// The aliases with a connection in progress.
    pub closed spec fn pending(&self) -> Set<Seq<char>> {
        views(self.connecting@).to_set()
    }

    /// The internal invariants hold.
    pub closed spec fn wf(&self) -> bool {
        self.pool.wf() && self.pool.ids_fresh() && self.config.wf()
    }

    /// A dispatcher with an empty pool over `config`, whose file was last
    /// seen modified at `mtime`.
    pub fn new(config: ServerRegistry, mtime: Option<u128>) -> (r: Self)
        requires
            config.wf(),
        ensures
            r.wf(),
            r.sessions() == Map::<Seq<char>, PoolEntry<T>>::empty(),
            r.registry() == config.map(),
            r.mtime() == mtime,
            r.pending() == Set::<Seq<char>>::empty(),
    {
        let d = Dispatcher { pool: ConnectionPool::new(), config, config_mtime: mtime, connecting: Vec::new() };
        assert(views(d.connecting@).to_set() =~= Set::<Seq<char>>::empty());
        d
    }

    /// The registry in use.
    pub fn config(&self) -> (r: &ServerRegistry)
        ensures
            r.map() == self.registry(),
            self.wf() ==> r.wf(),
    {
        &self.config
    }

    /// The pool of live sessions.
    pub fn pool(&self) -> (r: &ConnectionPool<T>)
        ensures
            r.map() == self.sessions(),
            self.wf() ==> r.wf() && r.ids_fresh(),
    {
        &self.pool
    }

    /// Where the session for a call on `server` comes from: the pooled one,
    /// else a new connection from the registry entry, else a message naming
    /// the configured aliases.
    pub fn resolve(&self, server: &str) -> (r: Resolution)
        requires
            self.wf(),
        ensures
            match r {
                Resolution::Pooled { id } => self.sessions().contains_key(server@)
                    && self.sessions()[server@].id == id,
                Resolution::Connect(p) => !self.sessions().contains_key(server@)
                    && self.registry().contains_key(server@) && exists|home: Option<Seq<char>>|
                    p@ == #[trigger] params_of_entry(server@, self.registry()[server@], home),
                Resolution::Missing(msg) => !self.sessions().contains_key(server@)
                    && !self.registry().contains_key(server@) && msg@ == not_found_text(
                    server@,
                    self.registry_order(),
                ),
            },
    {
        match self.pool.lookup(server) {
            Some(e) => Resolution::Pooled { id: e.id },
            None => match self.config.get(server) {
                Some(entry) => Resolution::Connect(params_from_config(server, entry)),
                None => {
                    let names = self.config.names();
                    Resolution::Missing(not_found_message(server, &names))
                },
            },
        }
    }

    /// Whether another session can be pooled with a fresh identity.
    pub fn can_store(&self) -> (r: bool)
        requires
            self.wf(),
        ensures
            r == (self.fresh_ids_left()),
    {
        self.pool.can_insert()
    }

    /// Pools a newly connected session under `server`; returns its identity,
    /// which differs from that of every session pooled before.
    pub fn connected(&mut self, server: String, session: T) -> (id: u64)
        requires
            old(self).wf(),
            old(self).fresh_ids_left(),
        ensures
            final(self).wf(),
            final(self).sessions() == old(self).sessions().insert(
                server@,
                PoolEntry { id, session },
            ),
            forall|k: Seq<char>| #[trigger] old(self).sessions().contains_key(k) ==> old(
                self,
            ).sessions()[k].id != id,
            final(self).registry() == old(self).registry(),
            final(self).mtime() == old(self).mtime(),
            final(self).pending() == old(self).pending().remove(server@),
    {
        self.release(server.as_str());
        self.pool.insert(server, session)
    }

    /// Records a liveness check of the session with identity `id` found
    /// under `server`, before or after a call. A closed session leaves the
    /// pool, unless another session has already replaced it. Returns whether
    /// the session may be used.
    pub fn checked(&mut self, server: &str, id: u64, closed: bool) -> (usable: bool)
        requires
            old(self).wf(),
        ensures
            final(self).wf(),
            usable == !closed,
            closed ==> !(final(self).sessions().contains_key(server@)
                && final(self).sessions()[server@].id == id),
            closed ==> final(self).sessions() == if old(self).sessions().contains_key(server@)
                && old(self).sessions()[server@].id == id {
                old(self).sessions().remove(server@)
            } else {
                old(self).sessions()
            },
            !closed ==> final(self).sessions() == old(self).sessions(),
            final(self).registry() == old(self).registry(),
            final(self).mtime() == old(self).mtime(),
            final(self).pending() == old(self).pending(),
            final(self).fresh_ids_left() == old(self).fresh_ids_left(),
    {
        self.pool.check_liveness(server, id, closed)
    }

    /// Removes the session pooled under `server`, if any.
    pub fn disconnect(&mut self, server: &str) -> (r: Option<T>)
        requires
            old(self).wf(),
        ensures
            final(self).wf(),
            final(self).sessions() == old(self).sessions().remove(server@),
            r is Some <==> old(self).sessions().contains_key(server@),
            final(self).registry() == old(self).registry(),
            final(self).mtime() == old(self).mtime(),
            final(self).pending() == old(self).pending(),
            final(self).fresh_ids_left() == old(self).fresh_ids_left(),
    {
        match self.pool.remove(server) {
            Some(e) => Some(e.session),
            None => None,
        }
    }

    /// Whether the registry file, now modified at `current`, must be read
    /// again: it must unless `current` is the time last observed.
    pub fn needs_reload(&self, current: u128) -> (r: bool)
        ensures
            r == (self.mtime() != Some(current)),
    {
        match self.config_mtime {
            Some(m) => m != current,
            None => true,
        }
    }

    /// Swaps in the registry `new`, read from a file modified at `mtime`,
    /// and drops the sessions of aliases that `new` removed or whose
    /// connection-relevant fields changed; every other session stays. The
    /// dropped sessions are returned, with their aliases, for the caller to
    /// close: exactly one for each evicted alias that had a session.
    pub fn reload(&mut self, new: ServerRegistry, mtime: u128) -> (dropped: Vec<(String, T)>)
        requires
            old(self).wf(),
            new.wf(),
        ensures
            final(self).wf(),
            final(self).registry() == new.map(),
            final(self).mtime() == Some(mtime),
            final(self).pending() == old(self).pending(),
            final(self).fresh_ids_left() == old(self).fresh_ids_left(),
            forall|k: Seq<char>|
                #[trigger] final(self).sessions().contains_key(k) <==> (old(
                    self,
                ).sessions().contains_key(k) && !changed_aliases(old(self).registry(), new.map()).contains(k)),
            forall|k: Seq<char>|
                #[trigger] final(self).sessions().contains_key(k) ==> final(self).sessions()[k]
                    == old(self).sessions()[k],
            dropped_names(dropped@).no_duplicates(),
            forall|j: int|
                0 <= j < dropped@.len() ==> {
                    let k = (#[trigger] dropped@[j]).0@;
                    &&& old(self).sessions().contains_key(k)
                    &&& changed_aliases(old(self).registry(), new.map()).contains(k)
                    &&& dropped@[j].1 == old(self).sessions()[k].session
                },
            forall|k: Seq<char>|
                old(self).sessions().contains_key(k) && changed_aliases(old(self).registry(), new.map()).contains(k)
                    ==> #[trigger] dropped_names(dropped@).contains(k),
    {
        let evict = self.config.changed_servers(&new);
        let ghost ch = changed_aliases(self.config.map(), new.map());
        let ghost start = self.pool.map();
        let ghost nm = new.map();
        self.config = new;
        self.config_mtime = Some(mtime);
        let mut dropped: Vec<(String, T)> = Vec::new();
        let mut i: usize = 0;
        while i < evict.len()
            invariant
                self.pool.wf(),
                self.pool.ids_fresh(),
                self.pool.next_id() == old(self).pool.next_id(),
                self.config.wf(),
                self.config.map() == nm,
                self.config_mtime == Some(mtime),
                self.connecting@ == old(self).connecting@,
                i <= evict@.len(),
                views(evict@).to_set() == ch,
                views(evict@).no_duplicates(),
                forall|k: Seq<char>|
                    #[trigger] self.pool.map().contains_key(k) <==> (start.contains_key(k)
                        && !views(evict@).take(i as int).contains(k)),
                forall|k: Seq<char>|
                    #[trigger] self.pool.map().contains_key(k) ==> self.pool.map()[k] == start[k],
                dropped_names(dropped@).no_duplicates(),
                forall|j: int|
                    0 <= j < dropped@.len() ==> {
                        let k = (#[trigger] dropped@[j]).0@;
                        &&& start.contains_key(k)
                        &&& views(evict@).take(i as int).contains(k)
                        &&& dropped@[j].1 == start[k].session
                    },
                forall|k: Seq<char>|
                    start.contains_key(k) && views(evict@).take(i as int).contains(k)
                        ==> #[trigger] dropped_names(dropped@).contains(k),
            decreases evict@.len() - i,
        {
            let ghost ev = views(evict@);
            let ghost name = ev[i as int];
            let ghost before = dropped@;
            proof {
                assert(ev.take(i + 1) =~= ev.take(i as int).push(name));
                if ev.take(i as int).contains(name) {
                    let t = choose|t: int| 0 <= t < i && ev.take(i as int)[t] == name;
                    assert(ev[t] == ev[i as int]);
                }
            }
            let ghost pm = self.pool.map();
            match self.pool.remove(evict[i].as_str()) {
                Some(e) => {
                    dropped.push((evict[i].clone(), e.session));
                    proof {
                        assert(dropped_names(dropped@) =~= dropped_names(before).push(name));
                        if dropped_names(before).contains(name) {
                            let t = choose|t: int| 0 <= t < dropped_names(before).len() && dropped_names(before)[t] == name;
                            assert(before[t].0@ == name);
                        }
                        assert forall|a: int, c: int| 0 <= a < c < dropped_names(dropped@).len()
                            implies dropped_names(dropped@)[a] != dropped_names(dropped@)[c] by {
                            if c == dropped_names(dropped@).len() - 1 {
                                assert(dropped_names(before)[a] == dropped_names(dropped@)[a]);
                                assert(dropped_names(before).contains(dropped_names(before)[a]));
                            } else {
                                assert(dropped_names(before)[a] == dropped_names(dropped@)[a]);
                                assert(dropped_names(before)[c] == dropped_names(dropped@)[c]);
                            }
                        }
                    }
                },
                None => {},
            }
            proof {
                assert forall|k: Seq<char>| #[trigger] self.pool.map().contains_key(k) <==> (
                    start.contains_key(k) && !ev.take(i + 1).contains(k)) by {
                    crate::seqs::lemma_push_contains(ev.take(i as int), name, k);
                }
                assert forall|j: int| 0 <= j < dropped@.len() implies {
                    let k = (#[trigger] dropped@[j]).0@;
                    &&& start.contains_key(k)
                    &&& ev.take(i + 1).contains(k)
                    &&& dropped@[j].1 == start[k].session
                } by {
                    let k = dropped@[j].0@;
                    crate::seqs::lemma_push_contains(ev.take(i as int), name, k);
                    if j < before.len() {
                        assert(dropped@[j] == before[j]);
                    }
                }
                assert forall|k: Seq<char>| start.contains_key(k) && ev.take(i + 1).contains(k)
                    implies #[trigger] dropped_names(dropped@).contains(k) by {
                    crate::seqs::lemma_push_contains(ev.take(i as int), name, k);
                    if ev.take(i as int).contains(k) {
                        assert(dropped_names(before).contains(k));
                        let t = choose|t: int| 0 <= t < dropped_names(before).len() && dropped_names(before)[t] == k;
                        assert(dropped@[t] == before[t]);
                        assert(dropped_names(dropped@)[t] == k);
                    } else {
                        assert(pm.contains_key(name));
                        assert(dropped@.len() == before.len() + 1);
                        assert(dropped_names(dropped@)[dropped@.len() - 1] == k);
                    }
                }
            }
            i = i + 1;
        }
        proof {
            let ev = views(evict@);
            assert(ev.take(i as int) =~= ev);
            assert forall|k: Seq<char>| ev.contains(k) <==> ch.contains(k) by {
                assert(ev.to_set().contains(k) == ev.contains(k));
            }
        }
        dropped
    }
}

/// The aliases of dropped sessions.
pub open spec fn dropped_names<T>(d: Seq<(String, T)>) -> Seq<Seq<char>> {
    d.map_values(|p: (String, T)| p.0@)
}

fn position_of(v: &Vec<String>, name: &str) -> (r: Option<usize>)
    ensures
        match r {
            Some(i) => i < v@.len() && v@[i as int]@ == name@,
            None => !views(v@).contains(name@),
        },
{
    let key = name.to_owned();
    let mut i: usize = 0;
    while i < v.len()
        invariant
            key@ == name@,
            i <= v@.len(),
            forall|j: int| 0 <= j < i ==> v@[j]@ != name@,
        decreases v@.len() - i,
    {
        if v[i] == key {
            return Some(i);
        }
        i = i + 1;
    }
    proof {
        if views(v@).contains(name@) {
            let k = choose|k: int| 0 <= k < views(v@).len() && views(v@)[k] == name@;
            assert(v@[k]@ == name@);
        }
    }
    None
}

proof fn lemma_remove_keeps_others(v: Seq<String>, i: int, name: Seq<char>)
    requires
        0 <= i < v.len(),
        v[i]@ == name,
    ensures
        views(v.remove(i)).to_set().remove(name) == views(v).to_set().remove(name),
{
    let w = v.remove(i);
    assert forall|k: Seq<char>| views(w).to_set().remove(name).contains(k) <==> views(v).to_set().remove(name).contains(k) by {
        if views(w).contains(k) {
            let t = choose|t: int| 0 <= t < views(w).len() && views(w)[t] == k;
            let t2 = if t < i { t } else { t + 1 };
            assert(views(v)[t2] == k);
        }
        if views(v).contains(k) && k != name {
            let t = choose|t: int| 0 <= t < views(v).len() && views(v)[t] == k;
            assert(t != i);
            let t2 = if t < i { t } else { t - 1 };
            assert(views(w)[t2] == k);
        }
    }
    assert(views(w).to_set().remove(name) =~= views(v).to_set().remove(name));
}

impl<T> Dispatcher<T> {
    /// Releases the claim on `server`, if any.
    fn release(&mut self, server: &str)
        ensures
            final(self).pending() == old(self).pending().remove(server@),
            final(self).pool == old(self).pool,
            final(self).config == old(self).config,
            final(self).config_mtime == old(self).config_mtime,
        decreases old(self).connecting@.len(),
    {
        match position_of(&self.connecting, server) {
            Some(i) => {
                let ghost before = self.connecting@;
                self.connecting.remove(i);
                proof {
                    lemma_remove_keeps_others(before, i as int, server@);
                }
                if position_of(&self.connecting, server).is_some() {
                    self.release(server);
                } else {
                    assert(self.pending().remove(server@) =~= self.pending());
                }
            },
            None => {
                assert(old(self).pending().remove(server@) =~= old(self).pending());
            },
        }
    }

    /// Decides the next step of a call on `server`: the pooled session if
    /// there is one; otherwise, when the alias is configured, a connection,
    /// unless another call is already connecting it, in which case wait.
    /// At most one call at a time is told to connect a given alias.
    pub fn claim(&mut self, server: &str) -> (r: Claim)
        requires
            old(self).wf(),
        ensures
            final(self).wf(),
            final(self).sessions() == old(self).sessions(),
            final(self).registry() == old(self).registry(),
            final(self).mtime() == old(self).mtime(),
            match r {
                Claim::Pooled { id } => old(self).sessions().contains_key(server@)
                    && old(self).sessions()[server@].id == id
                    && final(self).pending() == old(self).pending(),
                Claim::Connect(p) => !old(self).sessions().contains_key(server@)
                    && old(self).registry().contains_key(server@)
                    && !old(self).pending().contains(server@)
                    && final(self).pending() == old(self).pending().insert(server@)
                    && exists|home: Option<Seq<char>>|
                    p@ == #[trigger] params_of_entry(server@, old(self).registry()[server@], home),
                Claim::Wait => !old(self).sessions().contains_key(server@)
                    && old(self).registry().contains_key(server@)
                    && old(self).pending().contains(server@)
                    && final(self).pending() == old(self).pending(),
                Claim::Missing(msg) => !old(self).sessions().contains_key(server@)
                    && !old(self).registry().contains_key(server@)
                    && msg@ == not_found_text(server@, old(self).registry_order())
                    && final(self).pending() == old(self).pending(),
            },
            final(self).fresh_ids_left() == old(self).fresh_ids_left(),
    {
        match self.resolve(server) {
            Resolution::Pooled { id } => {
                assert(self.pending() == old(self).pending());
                Claim::Pooled { id }
            },
            Resolution::Missing(msg) => Claim::Missing(msg),
            Resolution::Connect(p) => {
                if let Some(i) = position_of(&self.connecting, server) {
                    assert(views(self.connecting@)[i as int] == server@);
                    assert(views(self.connecting@).contains(server@));
                    Claim::Wait
                } else {
                    let ghost before = self.connecting@;
                    self.connecting.push(server.to_owned());
                    proof {
                        assert(views(self.connecting@) =~= views(before).push(server@));
                        assert forall|k: Seq<char>| views(self.connecting@).to_set().contains(k) <==> views(before).to_set().insert(server@).contains(k) by {
                            crate::seqs::lemma_push_contains(views(before), server@, k);
                        }
                        assert(views(self.connecting@).to_set() =~= views(before).to_set().insert(server@));
                    }
                    Claim::Connect(p)
                }
            },
        }
    }

    /// Releases the claim on `server` after its connection attempt failed.
    pub fn connect_failed(&mut self, server: &str)
        requires
            old(self).wf(),
        ensures
            final(self).wf(),
            final(self).pending() == old(self).pending().remove(server@),
            final(self).sessions() == old(self).sessions(),
            final(self).registry() == old(self).registry(),
            final(self).mtime() == old(self).mtime(),
            final(self).fresh_ids_left() == old(self).fresh_ids_left(),
    {
        self.release(server);
    }
}

} // verus!
