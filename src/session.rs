use vstd::prelude::*;

use crate::record::{fresh_view, put_view, take_view, SessionView};
use crate::store::{apply_at, SessionError, SessionStore};
use crate::token::{format_token, parse_token, parsed_token, token_text};

verus! {

/// The identifier that a request's cookie presents, if it holds one.
pub open spec fn presented(cookie_value: Option<&str>) -> Option<u128> {
    match cookie_value {
        Some(c) => parsed_token(c@),
        None => None,
    }
}

/// The text stored under `key` in the session of `id`.
pub open spec fn value_at(m: Map<u128, SessionView>, id: u128, key: Seq<char>) -> Option<Seq<char>> {
    if m.contains_key(id) && m[id].data.contains_key(key) {
        Some(m[id].data[key])
    } else {
        None
    }
}

/// Whether a request resumes a loaded session rather than starting one.
pub open spec fn resumes(m: Map<u128, SessionView>, cookie_value: Option<&str>) -> bool {
    presented(cookie_value) is Some && m.contains_key(presented(cookie_value)->Some_0)
}

/// A per-request handle on the session of one token. Every operation goes
/// through the store's table; when the session is no longer loaded it does
/// nothing and reads find nothing.
#[derive(Clone, Copy, Debug)]
pub struct AxumSession {
    id: u128,
}

impl AxumSession {
    pub closed spec fn token(&self) -> u128 {
        self.id
    }

    /// The session for a request whose cookie holds `cookie_value`: the
    /// loaded session it names, with the table left as it was, or else a
    /// freshly minted one. A client's identifier that names no loaded
    /// session is never taken over: the minted token differs from it.
    pub fn new(store: &mut SessionStore, cookie_value: Option<&str>, now: u64) -> (r: Result<AxumSession, SessionError>)
        ensures
            final(store).same_config(old(store)),
            resumes(old(store).sessions(), cookie_value) ==> {
                &&& r is Ok
                &&& r->Ok_0.token() == presented(cookie_value)->Some_0
                &&& final(store).sessions() == old(store).sessions()
            },
            !resumes(old(store).sessions(), cookie_value) ==> match r {
                Ok(s) => {
                    &&& !old(store).sessions().contains_key(s.token())
                    &&& presented(cookie_value) != Some(s.token())
                    &&& final(store).sessions() == old(store).sessions().insert(s.token(),
                        fresh_view(s.token(), old(store).expiry(false, now), old(store).storable_default()))
                },
                Err(e) => e == SessionError::TokenExhausted && final(store).sessions() == old(store).sessions(),
            },
            presented(cookie_value) is None && old(store).sessions() == Map::<u128, SessionView>::empty()
                ==> r is Ok,
    {
        let known = match cookie_value {
            Some(c) => parse_token(c),
            None => None,
        };
        match known {
            Some(id) => {
                if store.contains(id) {
                    return Ok(AxumSession { id });
                }
            },
            None => {},
        }
        match store.mint(now, known) {
            Ok(id) => Ok(AxumSession { id }),
            Err(e) => Err(e),
        }
    }

    pub fn id(&self) -> (r: u128)
        ensures
            r == self.token(),
    {
        self.id
    }

    /// The canonical text of the token, as the cookie carries it.
    pub fn token_string(&self) -> (r: String)
        ensures
            r@ == token_text(self.token()),
            parsed_token(r@) == Some(self.token()),
    {
        format_token(self.id)
    }

    /// Marks the session to be destroyed at the next reconciliation; until
    /// then it reads and writes as before.
    pub fn destroy(&self, store: &mut SessionStore)
        ensures
            final(store).same_config(old(store)),
            final(store).sessions() == apply_at(old(store).sessions(), self.token(),
                (SessionView { destroy: true, ..old(store).sessions()[self.token()] })),
    {
        store.mark_destroy(self.id);
    }

    /// Sets the session to the long-term expiration policy, or back.
    pub fn set_longterm(&self, store: &mut SessionStore, longterm: bool)
        ensures
            final(store).same_config(old(store)),
            final(store).sessions() == apply_at(old(store).sessions(), self.token(),
                (SessionView {
                    longterm,
                    dirty: old(store).sessions()[self.token()].dirty
                        || old(store).sessions()[self.token()].longterm != longterm,
                    ..old(store).sessions()[self.token()]
                })),
    {
        store.mark_longterm(self.id, longterm);
    }

    /// Sets whether the session may be written to the backend.
    pub fn set_store(&self, store: &mut SessionStore, storable: bool)
        ensures
            final(store).same_config(old(store)),
            final(store).sessions() == apply_at(old(store).sessions(), self.token(),
                (SessionView {
                    storable,
                    dirty: old(store).sessions()[self.token()].dirty
                        || old(store).sessions()[self.token()].storable != storable,
                    ..old(store).sessions()[self.token()]
                })),
    {
        store.mark_storable(self.id, storable);
    }

    /// The serialized text stored under `key`.
    pub fn get(&self, store: &SessionStore, key: &str) -> (r: Option<String>)
        ensures
            match r {
                Some(v) => value_at(store.sessions(), self.token(), key@) == Some(v@),
                None => value_at(store.sessions(), self.token(), key@) is None,
            },
    {
        store.value(self.id, key)
    }

    /// Stores the serialized text `value` under `key`; writing the text that
    /// is already stored leaves the session untouched.
    pub fn set(&self, store: &mut SessionStore, key: &str, value: String)
        ensures
            final(store).same_config(old(store)),
            final(store).sessions() == apply_at(old(store).sessions(), self.token(),
                put_view(old(store).sessions()[self.token()], key@, value@)),
    {
        store.put_value(self.id, key, value);
    }

    /// Removes `key` from the session, if it is there.
    pub fn remove(&self, store: &mut SessionStore, key: &str)
        ensures
            final(store).same_config(old(store)),
            final(store).sessions() == apply_at(old(store).sessions(), self.token(),
                take_view(old(store).sessions()[self.token()], key@)),
    {
        store.take_value(self.id, key);
    }

    /// Clears the session's data. The result says whether the backend must
    /// now be cleared as well, which in a persistent store wipes every
    /// session's stored data, not this session's alone.
    pub fn clear_all(&self, store: &mut SessionStore) -> (clear_backend: bool)
        ensures
            final(store).same_config(old(store)),
            final(store).sessions() == apply_at(old(store).sessions(), self.token(),
                (SessionView { data: Map::empty(), dirty: true, ..old(store).sessions()[self.token()] })),
            clear_backend == old(store).persists(),
    {
        store.clear_values(self.id);
        store.is_persistent()
    }

    /// How many sessions exist, as the store counts them.
    pub fn count(&self, store: &SessionStore, backend_count: Option<i64>) -> (r: i64)
        ensures
            r == store.count_spec(backend_count),
    {
        store.count(backend_count)
    }
}

} // verus!
