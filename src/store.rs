use vstd::prelude::*;

use crate::assoc::{assoc, keys_unique, lemma_assoc_contains, lemma_assoc_prepend, lemma_assoc_index, lemma_assoc_len, lemma_assoc_push, lemma_assoc_remove};
use crate::record::{fresh_view, put_view, take_view, SessionData, SessionView};
use crate::token::{parse_token, parsed_token, random_token};

verus! {

/// How many fresh identifiers minting draws before it gives up.
pub const MINT_ATTEMPTS: u32 = 32;

/// Failures of store-level operations.
#[derive(Debug, PartialEq, Eq, Structural)]
pub enum SessionError {
    /// Every identifier drawn was already in use.
    TokenExhausted,
}

pub open spec fn record_id() -> spec_fn(SessionData) -> u128 {
    |r: SessionData| r@.id
}

pub open spec fn record_view() -> spec_fn(SessionData) -> SessionView {
    |r: SessionData| r@
}

/// `m` with the record of `id` replaced by `r`, when `id` is loaded.
pub open spec fn apply_at(m: Map<u128, SessionView>, id: u128, r: SessionView) -> Map<u128, SessionView> {
    if m.contains_key(id) {
        m.insert(id, r)
    } else {
        m
    }
}

/// `now` moved on by `span`, held at the largest timestamp.
pub open spec fn later(now: u64, span: u64) -> u64 {
    if now + span > u64::MAX {
        u64::MAX
    } else {
        (now + span) as u64
    }
}

/// Whether reconciliation at `now` drops a record from the table: it was
/// destroyed, it expired, or it may not be kept by a persistent store.
pub open spec fn evicted(persistent: bool, r: SessionView, now: u64) -> bool {
    r.destroy || r.expires <= now || (persistent && !r.storable)
}

/// Whether reconciliation deletes a dropped record from the backend.
pub open spec fn deleted(persistent: bool, r: SessionView, now: u64) -> bool {
    persistent && r.storable && evicted(persistent, r, now)
}

/// Whether reconciliation writes a kept record through to the backend.
pub open spec fn saved(persistent: bool, r: SessionView, now: u64) -> bool {
    persistent && r.storable && r.dirty && !evicted(persistent, r, now)
}

/// A kept record after reconciliation: clean once it has been written.
pub open spec fn synced_view(persistent: bool, r: SessionView, now: u64) -> SessionView {
    if saved(persistent, r, now) {
        SessionView { dirty: false, ..r }
    } else {
        r
    }
}

/// The loaded sessions after reconciliation at `now`.
pub open spec fn synced(m: Map<u128, SessionView>, persistent: bool, now: u64) -> Map<u128, SessionView> {
    Map::new(
        |id: u128| m.contains_key(id) && !evicted(persistent, m[id], now),
        |id: u128| synced_view(persistent, m[id], now),
    )
}

/// What the backend has to be told after a reconciliation pass.
pub struct SyncPlan {
    /// Sessions to delete from the backend.
    pub deletes: Vec<u128>,
    /// Sessions whose records are to be written to the backend.
    pub saves: Vec<u128>,
}

/// The table of loaded sessions and the store's configuration.
pub struct SessionStore {
    /// The loaded records, each identifier once. Reconciliation walks and
    /// filters the whole table, and every handle operation takes a record
    /// out and puts it back, so a vector serves as well as a keyed map here.
    table: Vec<SessionData>,
    persistent: bool,
    lifespan: u64,
    longterm_lifespan: u64,
    storable_default: bool,
}

impl SessionStore {
    #[verifier::type_invariant]
    spec fn ids_distinct(&self) -> bool {
        keys_unique(self.table@, record_id())
    }

    /// The loaded sessions, by identifier.
    pub closed spec fn sessions(&self) -> Map<u128, SessionView> {
        assoc(self.table@, record_id(), record_view())
    }

    pub closed spec fn persists(&self) -> bool {
        self.persistent
    }

    pub closed spec fn lifespan(&self) -> u64 {
        self.lifespan
    }

    pub closed spec fn longterm_lifespan(&self) -> u64 {
        self.longterm_lifespan
    }

    pub closed spec fn storable_default(&self) -> bool {
        self.storable_default
    }

    /// When a session that is used at `now` expires.
    pub open spec fn expiry(&self, longterm: bool, now: u64) -> u64 {
        later(now, if longterm { self.longterm_lifespan() } else { self.lifespan() })
    }

    /// The same configuration with a different table.
    pub open spec fn same_config(&self, other: &SessionStore) -> bool {
        &&& self.persists() == other.persists()
        &&& self.lifespan() == other.lifespan()
        &&& self.longterm_lifespan() == other.longterm_lifespan()
        &&& self.storable_default() == other.storable_default()
    }

    /// An empty store. `persistent` says whether a durable backend stands
    /// behind it; `lifespan` and `longterm_lifespan` are in seconds.
    pub fn new(persistent: bool, lifespan: u64, longterm_lifespan: u64, storable_default: bool) -> (r: SessionStore)
        ensures
            r.sessions() == Map::<u128, SessionView>::empty(),
            r.persists() == persistent,
            r.lifespan() == lifespan,
            r.longterm_lifespan() == longterm_lifespan,
            r.storable_default() == storable_default,
    {
        let r = SessionStore { table: Vec::new(), persistent, lifespan, longterm_lifespan, storable_default };
        assert(r.sessions() =~= Map::empty());
        r
    }

    pub fn is_persistent(&self) -> (r: bool)
        ensures
            r == self.persists(),
    {
        self.persistent
    }

    /// The number of loaded sessions.
    pub fn len(&self) -> (r: usize)
        ensures
            self.sessions().dom().finite(),
            r == self.sessions().dom().len(),
    {
        proof {
            use_type_invariant(self);
            lemma_assoc_len(self.table@, record_id(), record_view());
        }
        self.table.len()
    }

    fn position(&self, id: u128) -> (r: Option<usize>)
        ensures
            match r {
                Some(i) => {
                    &&& i < self.table@.len()
                    &&& self.table@[i as int]@.id == id
                    &&& self.sessions().contains_key(id)
                    &&& self.sessions()[id] == self.table@[i as int]@
                },
                None => !self.sessions().contains_key(id),
            },
    {
        proof {
            use_type_invariant(self);
        }
        let mut i: usize = 0;
        while i < self.table.len()
            invariant
                i <= self.table@.len(),
                keys_unique(self.table@, record_id()),
                forall|j: int| 0 <= j < i ==> self.table@[j]@.id != id,
            decreases self.table@.len() - i,
        {
            if self.table[i].id() == id {
                proof {
                    lemma_assoc_index(self.table@, record_id(), record_view(), i as int);
                }
                return Some(i);
            }
            i = i + 1;
        }
        proof {
            lemma_assoc_contains(self.table@, record_id(), record_view(), id);
        }
        None
    }

    /// Whether a session is loaded for `id`.
    pub fn contains(&self, id: u128) -> (r: bool)
        ensures
            r == self.sessions().contains_key(id),
    {
        self.position(id).is_some()
    }

    /// Takes the record of `id` out of the table.
    fn detach(&mut self, id: u128) -> (r: Option<SessionData>)
        ensures
            final(self).same_config(old(self)),
            final(self).sessions() == old(self).sessions().remove(id),
            match r {
                Some(rec) => old(self).sessions().contains_key(id) && rec@ == old(self).sessions()[id]
                    && rec@.id == id,
                None => !old(self).sessions().contains_key(id),
            },
    {
        proof {
            use_type_invariant(&*self);
        }
        match self.position(id) {
            Some(i) => {
                let mut table: Vec<SessionData> = Vec::new();
                std::mem::swap(&mut table, &mut self.table);
                proof {
                    lemma_assoc_remove(table@, i as int, record_id(), record_view());
                }
                let rec = table.remove(i);
                self.table = table;
                Some(rec)
            },
            None => {
                proof {
                    assert(self.sessions() =~= old(self).sessions().remove(id));
                }
                None
            },
        }
    }

    /// Puts a record for an identifier that is not loaded into the table.
    fn attach(&mut self, rec: SessionData)
        requires
            !old(self).sessions().contains_key(rec@.id),
        ensures
            final(self).same_config(old(self)),
            final(self).sessions() == old(self).sessions().insert(rec@.id, rec@),
    {
        proof {
            use_type_invariant(&*self);
        }
        let mut table: Vec<SessionData> = Vec::new();
        std::mem::swap(&mut table, &mut self.table);
        let ghost s = table@;
        table.push(rec);
        proof {
            lemma_assoc_push(s, rec, record_id(), record_view());
            lemma_assoc_contains(s, record_id(), record_view(), rec@.id);
            assert forall|a: int, b: int| 0 <= a < b < table@.len() implies
                record_id()(table@[a]) != record_id()(table@[b]) by {
                if b == s.len() {
                    assert(record_id()(s[a]) == s[a]@.id);
                }
            }
        }
        self.table = table;
    }

    /// The stored text under `key` in the session of `id`.
    pub fn value(&self, id: u128, key: &str) -> (r: Option<String>)
        ensures
            match r {
                Some(v) => self.sessions().contains_key(id) && self.sessions()[id].data.contains_key(key@)
                    && v@ == self.sessions()[id].data[key@],
                None => !self.sessions().contains_key(id) || !self.sessions()[id].data.contains_key(key@),
            },
    {
        match self.position(id) {
            Some(i) => self.table[i].value(key),
            None => None,
        }
    }

    /// Gives `key` the text `value` in the session of `id`.
    pub fn put_value(&mut self, id: u128, key: &str, value: String)
        ensures
            final(self).same_config(old(self)),
            final(self).sessions() == apply_at(old(self).sessions(), id, put_view(old(self).sessions()[id], key@, value@)),
    {
        match self.detach(id) {
            Some(mut rec) => {
                rec.put(key, value);
                self.attach(rec);
                proof {
                    assert(self.sessions() =~= apply_at(old(self).sessions(), id, put_view(old(self).sessions()[id], key@, value@)));
                }
            },
            None => {},
        }
    }

    /// Takes `key` out of the session of `id`.
    pub fn take_value(&mut self, id: u128, key: &str)
        ensures
            final(self).same_config(old(self)),
            final(self).sessions() == apply_at(old(self).sessions(), id, take_view(old(self).sessions()[id], key@)),
    {
        match self.detach(id) {
            Some(mut rec) => {
                rec.take(key);
                self.attach(rec);
                proof {
                    assert(self.sessions() =~= apply_at(old(self).sessions(), id, take_view(old(self).sessions()[id], key@)));
                }
            },
            None => {},
        }
    }

    /// Empties the data of the session of `id`.
    pub fn clear_values(&mut self, id: u128)
        ensures
            final(self).same_config(old(self)),
            final(self).sessions() == apply_at(old(self).sessions(), id,
                (SessionView { data: Map::empty(), dirty: true, ..old(self).sessions()[id] })),
    {
        match self.detach(id) {
            Some(mut rec) => {
                rec.clear();
                self.attach(rec);
                proof {
                    assert(self.sessions() =~= apply_at(old(self).sessions(), id,
                        (SessionView { data: Map::empty(), dirty: true, ..old(self).sessions()[id] })));
                }
            },
            None => {},
        }
    }

    /// Marks the session of `id` to be dropped at the next reconciliation.
    pub fn mark_destroy(&mut self, id: u128)
        ensures
            final(self).same_config(old(self)),
            final(self).sessions() == apply_at(old(self).sessions(), id,
                (SessionView { destroy: true, ..old(self).sessions()[id] })),
    {
        match self.detach(id) {
            Some(mut rec) => {
                rec.set_destroy();
                self.attach(rec);
                proof {
                    assert(self.sessions() =~= apply_at(old(self).sessions(), id,
                        (SessionView { destroy: true, ..old(self).sessions()[id] })));
                }
            },
            None => {},
        }
    }

    /// Sets the long-term flag of the session of `id`.
    pub fn mark_longterm(&mut self, id: u128, longterm: bool)
        ensures
            final(self).same_config(old(self)),
            final(self).sessions() == apply_at(old(self).sessions(), id,
                (SessionView {
                    longterm,
                    dirty: old(self).sessions()[id].dirty || old(self).sessions()[id].longterm != longterm,
                    ..old(self).sessions()[id]
                })),
    {
        match self.detach(id) {
            Some(mut rec) => {
                rec.set_longterm(longterm);
                self.attach(rec);
                proof {
                    assert(self.sessions() =~= apply_at(old(self).sessions(), id,
                        (SessionView {
                            longterm,
                            dirty: old(self).sessions()[id].dirty || old(self).sessions()[id].longterm != longterm,
                            ..old(self).sessions()[id]
                        })));
                }
            },
            None => {},
        }
    }

    /// Sets the storable flag of the session of `id`.
    pub fn mark_storable(&mut self, id: u128, storable: bool)
        ensures
            final(self).same_config(old(self)),
            final(self).sessions() == apply_at(old(self).sessions(), id,
                (SessionView {
                    storable,
                    dirty: old(self).sessions()[id].dirty || old(self).sessions()[id].storable != storable,
                    ..old(self).sessions()[id]
                })),
    {
        match self.detach(id) {
            Some(mut rec) => {
                rec.set_storable(storable);
                self.attach(rec);
                proof {
                    assert(self.sessions() =~= apply_at(old(self).sessions(), id,
                        (SessionView {
                            storable,
                            dirty: old(self).sessions()[id].dirty || old(self).sessions()[id].storable != storable,
                            ..old(self).sessions()[id]
                        })));
                }
            },
            None => {},
        }
    }

    fn expiry_at(&self, longterm: bool, now: u64) -> (r: u64)
        ensures
            r == self.expiry(longterm, now),
    {
        if longterm {
            now.saturating_add(self.longterm_lifespan)
        } else {
            now.saturating_add(self.lifespan)
        }
    }

    /// Moves the expiry of the session of `id` to a full lifespan after `now`.
    pub fn refresh(&mut self, id: u128, now: u64)
        ensures
            final(self).same_config(old(self)),
            final(self).sessions() == apply_at(old(self).sessions(), id,
                (SessionView {
                    expires: old(self).expiry(old(self).sessions()[id].longterm, now),
                    ..old(self).sessions()[id]
                })),
    {
        match self.detach(id) {
            Some(mut rec) => {
                let expires = self.expiry_at(rec.is_longterm(), now);
                rec.set_expires(expires);
                self.attach(rec);
                proof {
                    assert(self.sessions() =~= apply_at(old(self).sessions(), id,
                        (SessionView {
                            expires: old(self).expiry(old(self).sessions()[id].longterm, now),
                            ..old(self).sessions()[id]
                        })));
                }
            },
            None => {},
        }
    }

    /// Loads an empty session under `candidate`, unless that identifier is
    /// already in use.
    pub fn insert_fresh(&mut self, candidate: u128, now: u64) -> (r: bool)
        ensures
            final(self).same_config(old(self)),
            r == !old(self).sessions().contains_key(candidate),
            r ==> final(self).sessions() == old(self).sessions().insert(candidate,
                fresh_view(candidate, old(self).expiry(false, now), old(self).storable_default())),
            !r ==> final(self).sessions() == old(self).sessions(),
    {
        if self.contains(candidate) {
            false
        } else {
            let expires = self.expiry_at(false, now);
            let rec = SessionData::new(candidate, expires, self.storable_default);
            self.attach(rec);
            true
        }
    }

    /// Loads an empty session under an identifier that was not in use and
    /// is not `avoid`, drawing random identifiers until one fits. Fails,
    /// changing nothing, when every draw misses, which cannot happen on an
    /// empty table with nothing to avoid.
    pub fn mint(&mut self, now: u64, avoid: Option<u128>) -> (r: Result<u128, SessionError>)
        ensures
            final(self).same_config(old(self)),
            match r {
                Ok(id) => {
                    &&& !old(self).sessions().contains_key(id)
                    &&& avoid != Some(id)
                    &&& final(self).sessions() == old(self).sessions().insert(id,
                        fresh_view(id, old(self).expiry(false, now), old(self).storable_default()))
                },
                Err(e) => e == SessionError::TokenExhausted && final(self).sessions() == old(self).sessions(),
            },
            old(self).sessions() == Map::<u128, SessionView>::empty() && avoid is None ==> r is Ok,
    {
        let mut attempts: u32 = 0;
        while attempts < MINT_ATTEMPTS
            invariant
                self.same_config(old(self)),
                self.sessions() == old(self).sessions(),
                attempts > 0 ==> old(self).sessions() != Map::<u128, SessionView>::empty() || avoid is Some,
            decreases MINT_ATTEMPTS - attempts,
        {
            let candidate = random_token();
            let allowed = match avoid {
                Some(a) => a != candidate,
                None => true,
            };
            if allowed && self.insert_fresh(candidate, now) {
                return Ok(candidate);
            }
            attempts = attempts + 1;
        }
        Err(SessionError::TokenExhausted)
    }

    /// The identifier that a cookie's text names, when the backend has to be
    /// asked for it: the store persists and no session is loaded for it.
    pub fn pending_load(&self, cookie_value: &str) -> (r: Option<u128>)
        ensures
            r == (match parsed_token(cookie_value@) {
                Some(id) => if self.persists() && !self.sessions().contains_key(id) {
                    Some(id)
                } else {
                    None
                },
                None => None,
            }),
    {
        match parse_token(cookie_value) {
            Some(id) => {
                if self.persistent && !self.contains(id) {
                    Some(id)
                } else {
                    None
                }
            },
            None => None,
        }
    }

    /// Takes in the record that the backend held for `id`, unless it is
    /// for another identifier or a session for `id` was loaded meanwhile.
    /// The record starts a new lifespan at `now` and is clean.
    pub fn admit_loaded(&mut self, id: u128, rec: SessionData, now: u64) -> (r: bool)
        ensures
            final(self).same_config(old(self)),
            r == (rec@.id == id && !old(self).sessions().contains_key(id)),
            r ==> final(self).sessions() == old(self).sessions().insert(id,
                (SessionView { expires: old(self).expiry(rec@.longterm, now), dirty: false, ..rec@ })),
            !r ==> final(self).sessions() == old(self).sessions(),
    {
        let mut rec = rec;
        if rec.id() != id || self.contains(id) {
            false
        } else {
            let expires = self.expiry_at(rec.is_longterm(), now);
            rec.set_expires(expires);
            rec.set_dirty(false);
            self.attach(rec);
            true
        }
    }

    /// How many sessions exist: in a persistent store what the backend
    /// counted (none when it could not answer), otherwise the loaded ones,
    /// held at the largest `i64`.
    pub open spec fn count_spec(&self, backend_count: Option<i64>) -> i64 {
        if self.persists() {
            match backend_count {
                Some(c) => c,
                None => 0,
            }
        } else if self.sessions().dom().len() <= i64::MAX {
            self.sessions().dom().len() as i64
        } else {
            i64::MAX
        }
    }

    /// How many sessions exist; `backend_count` is the backend's answer,
    /// read only when the store persists.
    pub fn count(&self, backend_count: Option<i64>) -> (r: i64)
        ensures
            r == self.count_spec(backend_count),
            !self.persists() ==> r >= 0,
    {
        if self.persistent {
            match backend_count {
                Some(c) => c,
                None => 0,
            }
        } else {
            let n = self.len();
            if n as u128 <= i64::MAX as u128 {
                n as i64
            } else {
                i64::MAX
            }
        }
    }

    /// A copy of the record of `id`, for writing it to the backend.
    pub fn snapshot(&self, id: u128) -> (r: Option<SessionData>)
        ensures
            match r {
                Some(rec) => self.sessions().contains_key(id) && rec@ == self.sessions()[id],
                None => !self.sessions().contains_key(id),
            },
    {
        match self.position(id) {
            Some(i) => Some(self.table[i].duplicate()),
            None => None,
        }
    }

    /// One reconciliation pass at `now`: drops destroyed and expired records,
    /// and in a persistent store those that may not be stored; marks the
    /// written ones clean; and says which sessions the backend has to delete
    /// and which it has to save.
    pub fn reconcile(&mut self, now: u64) -> (plan: SyncPlan)
        ensures
            final(self).same_config(old(self)),
            final(self).sessions() == synced(old(self).sessions(), old(self).persists(), now),
            forall|id: u128| #[trigger] plan.deletes@.contains(id) <==> old(self).sessions().contains_key(id)
                && deleted(old(self).persists(), old(self).sessions()[id], now),
            forall|id: u128| #[trigger] plan.saves@.contains(id) <==> old(self).sessions().contains_key(id)
                && saved(old(self).persists(), old(self).sessions()[id], now),
    {
        proof {
            use_type_invariant(&*self);
        }
        let persistent = self.persistent;
        let mut table: Vec<SessionData> = Vec::new();
        std::mem::swap(&mut table, &mut self.table);
        let ghost s = table@;
        let ghost n = s.len();
        let mut kept: Vec<SessionData> = Vec::new();
        let mut deletes: Vec<u128> = Vec::new();
        let mut saves: Vec<u128> = Vec::new();
        proof {
            assert(s.subrange(n as int, n as int) =~= Seq::<SessionData>::empty());
            assert(assoc(kept@, record_id(), record_view()) =~= synced(
                assoc(s.subrange(n as int, n as int), record_id(), record_view()), persistent, now));
        }
        while table.len() > 0
            invariant
                n == s.len(),
                keys_unique(s, record_id()),
                table@.len() <= n,
                table@ == s.subrange(0, table@.len() as int),
                keys_unique(kept@, record_id()),
                assoc(kept@, record_id(), record_view()) == synced(
                    assoc(s.subrange(table@.len() as int, n as int), record_id(), record_view()), persistent, now),
                forall|id: u128| #[trigger] deletes@.contains(id) <==> ({
                    let m = assoc(s.subrange(table@.len() as int, n as int), record_id(), record_view());
                    m.contains_key(id) && deleted(persistent, m[id], now)
                }),
                forall|id: u128| #[trigger] saves@.contains(id) <==> ({
                    let m = assoc(s.subrange(table@.len() as int, n as int), record_id(), record_view());
                    m.contains_key(id) && saved(persistent, m[id], now)
                }),
            decreases table@.len(),
        {
            let ghost i = table@.len() - 1;
            let ghost before = s.subrange(i + 1, n as int);
            let ghost m0 = assoc(before, record_id(), record_view());
            let ghost k0 = assoc(kept@, record_id(), record_view());
            let ghost d0 = deletes@;
            let ghost v0 = saves@;
            let mut rec = match table.pop() {
                Some(r) => r,
                None => {
                    proof {
                        assert(false);
                    }
                    return SyncPlan { deletes, saves };
                },
            };
            let ghost x = rec;
            proof {
                assert(x == s[i]);
                assert(s.subrange(i, n as int) =~= seq![x] + before);
                assert forall|j: int| 0 <= j < before.len() implies record_id()(before[j]) != record_id()(x) by {
                    assert(before[j] == s[i + 1 + j]);
                }
                lemma_assoc_prepend(x, before, record_id(), record_view());
                lemma_assoc_contains(before, record_id(), record_view(), x@.id);
                lemma_assoc_contains(kept@, record_id(), record_view(), x@.id);
                assert(!m0.contains_key(x@.id));
                assert(!k0.contains_key(x@.id));
            }
            let id = rec.id();
            let evict = rec.is_destroyed() || rec.expires() <= now || (persistent && !rec.is_storable());
            if evict {
                if persistent && rec.is_storable() {
                    deletes.push(id);
                    proof {
                        assert forall|y: u128| deletes@.contains(y) <==> d0.contains(y) || y == id by {
                            vstd::seq_lib::lemma_seq_contains_after_push(d0, id, y);
                        }
                    }
                }
                proof {
                    assert(synced(m0.insert(id, x@), persistent, now) =~= synced(m0, persistent, now));
                }
            } else {
                if persistent && rec.is_storable() && rec.is_dirty() {
                    saves.push(id);
                    proof {
                        assert forall|y: u128| saves@.contains(y) <==> v0.contains(y) || y == id by {
                            vstd::seq_lib::lemma_seq_contains_after_push(v0, id, y);
                        }
                    }
                    rec.set_dirty(false);
                }
                let ghost k = kept@;
                kept.push(rec);
                proof {
                    lemma_assoc_push(k, rec, record_id(), record_view());
                    assert forall|a: int, b: int| 0 <= a < b < kept@.len() implies
                        record_id()(kept@[a]) != record_id()(kept@[b]) by {
                        if b == k.len() {
                            assert(record_id()(k[a]) == k[a]@.id);
                        }
                    }
                    assert(synced(m0.insert(id, x@), persistent, now) =~= synced(m0, persistent, now).insert(id, rec@));
                }
            }
            proof {
                let m1 = m0.insert(x@.id, x@);
                assert(evict == evicted(persistent, x@, now));
                assert forall|y: u128| #[trigger] deletes@.contains(y) <==> m1.contains_key(y) && deleted(persistent, m1[y], now) by {
                    assert(d0.contains(y) <==> m0.contains_key(y) && deleted(persistent, m0[y], now));
                    if y != x@.id {
                        assert(m1.contains_key(y) == m0.contains_key(y));
                    }
                }
                assert forall|y: u128| #[trigger] saves@.contains(y) <==> m1.contains_key(y) && saved(persistent, m1[y], now) by {
                    assert(v0.contains(y) <==> m0.contains_key(y) && saved(persistent, m0[y], now));
                    if y != x@.id {
                        assert(m1.contains_key(y) == m0.contains_key(y));
                    }
                }
            }
        }
        proof {
            assert(s.subrange(0, n as int) =~= s);
        }
        self.table = kept;
        SyncPlan { deletes, saves }
    }
}

} // verus!
