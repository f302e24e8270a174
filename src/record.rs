use vstd::prelude::*;

use crate::assoc::{assoc, keys_unique, lemma_assoc_congruent, lemma_assoc_contains, lemma_assoc_index, lemma_assoc_len, lemma_assoc_push, lemma_assoc_remove, lemma_assoc_update};

verus! {

/// What a session record holds, as mathematical values.
pub struct SessionView {
    pub id: u128,
    pub data: Map<Seq<char>, Seq<char>>,
    pub expires: u64,
    pub longterm: bool,
    pub storable: bool,
    pub destroy: bool,
    pub dirty: bool,
}

pub open spec fn pair_key() -> spec_fn((String, String)) -> Seq<char> {
    |p: (String, String)| p.0@
}

pub open spec fn pair_val() -> spec_fn((String, String)) -> Seq<char> {
    |p: (String, String)| p.1@
}

/// The view of a record that has just been created for `id`.
pub open spec fn fresh_view(id: u128, expires: u64, storable: bool) -> SessionView {
    SessionView {
        id,
        data: Map::empty(),
        expires,
        longterm: false,
        storable,
        destroy: false,
        dirty: false,
    }
}

/// The record after `key` has been given `value`: untouched when the key
/// already holds exactly that value, otherwise updated and marked dirty.
pub open spec fn put_view(r: SessionView, key: Seq<char>, value: Seq<char>) -> SessionView {
    if r.data.contains_key(key) && r.data[key] == value {
        r
    } else {
        SessionView { data: r.data.insert(key, value), dirty: true, ..r }
    }
}

/// The record after `key` has been taken out.
pub open spec fn take_view(r: SessionView, key: Seq<char>) -> SessionView {
    if r.data.contains_key(key) {
        SessionView { data: r.data.remove(key), dirty: true, ..r }
    } else {
        r
    }
}

/// The per-token data bag of one session and its lifecycle flags.
pub struct SessionData {
    id: u128,
    data: Vec<(String, String)>,
    expires: u64,
    longterm: bool,
    storable: bool,
    destroy: bool,
    dirty: bool,
}

impl View for SessionData {
    type V = SessionView;

    closed spec fn view(&self) -> SessionView {
        SessionView {
            id: self.id,
            data: assoc(self.data@, pair_key(), pair_val()),
            expires: self.expires,
            longterm: self.longterm,
            storable: self.storable,
            destroy: self.destroy,
            dirty: self.dirty,
        }
    }
}

impl SessionData {
    #[verifier::type_invariant]
    spec fn keys_distinct(&self) -> bool {
        keys_unique(self.data@, pair_key())
    }

    /// An empty record for `id`.
    pub fn new(id: u128, expires: u64, storable: bool) -> (r: SessionData)
        ensures
            r@ == fresh_view(id, expires, storable),
    {
        let r = SessionData {
            id,
            data: Vec::new(),
            expires,
            longterm: false,
            storable,
            destroy: false,
            dirty: false,
        };
        assert(r@.data =~= Map::empty());
        r
    }

    pub fn id(&self) -> (r: u128)
        ensures
            r == self@.id,
    {
        self.id
    }

    pub fn expires(&self) -> (r: u64)
        ensures
            r == self@.expires,
    {
        self.expires
    }

    pub fn is_longterm(&self) -> (r: bool)
        ensures
            r == self@.longterm,
    {
        self.longterm
    }

    pub fn is_storable(&self) -> (r: bool)
        ensures
            r == self@.storable,
    {
        self.storable
    }

    pub fn is_destroyed(&self) -> (r: bool)
        ensures
            r == self@.destroy,
    {
        self.destroy
    }

    pub fn is_dirty(&self) -> (r: bool)
        ensures
            r == self@.dirty,
    {
        self.dirty
    }

    /// The number of keys in the record.
    pub fn len(&self) -> (r: usize)
        ensures
            self@.data.dom().finite(),
            r == self@.data.dom().len(),
    {
        proof {
            use_type_invariant(self);
            lemma_assoc_len(self.data@, pair_key(), pair_val());
        }
        self.data.len()
    }

    /// Where `key` stands among the entries, if anywhere.
    fn position(&self, key: &String) -> (r: Option<usize>)
        ensures
            match r {
                Some(i) => i < self.data@.len() && self.data@[i as int].0@ == key@,
                None => !self@.data.contains_key(key@),
            },
    {
        let mut i: usize = 0;
        while i < self.data.len()
            invariant
                i <= self.data@.len(),
                forall|j: int| 0 <= j < i ==> self.data@[j].0@ != key@,
            decreases self.data@.len() - i,
        {
            if self.data[i].0 == *key {
                return Some(i);
            }
            i = i + 1;
        }
        proof {
            lemma_assoc_contains(self.data@, pair_key(), pair_val(), key@);
        }
        None
    }

    /// The stored text under `key`.
    pub fn value(&self, key: &str) -> (r: Option<String>)
        ensures
            match r {
                Some(v) => self@.data.contains_key(key@) && v@ == self@.data[key@],
                None => !self@.data.contains_key(key@),
            },
    {
        proof {
            use_type_invariant(self);
        }
        let k = key.to_owned();
        match self.position(&k) {
            Some(i) => {
                proof {
                    lemma_assoc_index(self.data@, pair_key(), pair_val(), i as int);
                }
                Some(self.data[i].1.clone())
            },
            None => None,
        }
    }

    /// Gives `key` the stored text `value`; a write of the text already
    /// stored changes nothing.
    pub fn put(&mut self, key: &str, value: String)
        ensures
            final(self)@ == put_view(old(self)@, key@, value@),
    {
        proof {
            use_type_invariant(&*self);
        }
        let k = key.to_owned();
        match self.position(&k) {
            Some(i) => {
                proof {
                    lemma_assoc_index(self.data@, pair_key(), pair_val(), i as int);
                }
                if self.data[i].1 != value {
                    let mut entries: Vec<(String, String)> = Vec::new();
                    std::mem::swap(&mut entries, &mut self.data);
                    let ghost s = entries@;
                    entries.remove(i);
                    entries.insert(i, (k, value));
                    proof {
                        lemma_assoc_update(s, entries@, i as int, pair_key(), pair_val());
                    }
                    self.data = entries;
                    self.dirty = true;
                }
            },
            None => {
                let mut entries: Vec<(String, String)> = Vec::new();
                std::mem::swap(&mut entries, &mut self.data);
                let ghost s = entries@;
                let pair = (k, value);
                entries.push(pair);
                proof {
                    lemma_assoc_push(s, pair, pair_key(), pair_val());
                    assert forall|a: int, b: int| 0 <= a < b < entries@.len() implies
                        pair_key()(entries@[a]) != pair_key()(entries@[b]) by {
                        if b == s.len() {
                            lemma_assoc_contains(s, pair_key(), pair_val(), key@);
                            assert(pair_key()(s[a]) == s[a].0@);
                        }
                    }
                }
                self.data = entries;
                self.dirty = true;
            },
        }
        proof {
            assert(self@ == put_view(old(self)@, key@, value@));
        }
    }

    /// Takes `key` out of the record, handing back what it held.
    pub fn take(&mut self, key: &str) -> (r: Option<String>)
        ensures
            final(self)@ == take_view(old(self)@, key@),
            match r {
                Some(v) => old(self)@.data.contains_key(key@) && v@ == old(self)@.data[key@],
                None => !old(self)@.data.contains_key(key@),
            },
    {
        proof {
            use_type_invariant(&*self);
        }
        let k = key.to_owned();
        match self.position(&k) {
            Some(i) => {
                let mut entries: Vec<(String, String)> = Vec::new();
                std::mem::swap(&mut entries, &mut self.data);
                let ghost s = entries@;
                proof {
                    lemma_assoc_index(s, pair_key(), pair_val(), i as int);
                    lemma_assoc_remove(s, i as int, pair_key(), pair_val());
                }
                let (_, v) = entries.remove(i);
                self.data = entries;
                self.dirty = true;
                Some(v)
            },
            None => None,
        }
    }

    /// Empties the record's data and marks it dirty.
    pub fn clear(&mut self)
        ensures
            final(self)@ == (SessionView { data: Map::empty(), dirty: true, ..old(self)@ }),
    {
        proof {
            use_type_invariant(&*self);
        }
        self.data = Vec::new();
        self.dirty = true;
        proof {
            assert(self@.data =~= Map::empty());
        }
    }

    pub fn set_destroy(&mut self)
        ensures
            final(self)@ == (SessionView { destroy: true, ..old(self)@ }),
    {
        proof {
            use_type_invariant(&*self);
        }
        self.destroy = true;
    }

    /// Sets the long-term flag, marking the record dirty when it changes.
    pub fn set_longterm(&mut self, longterm: bool)
        ensures
            final(self)@ == (SessionView {
                longterm,
                dirty: old(self)@.dirty || old(self)@.longterm != longterm,
                ..old(self)@
            }),
    {
        proof {
            use_type_invariant(&*self);
        }
        if self.longterm != longterm {
            self.longterm = longterm;
            self.dirty = true;
        }
    }

    /// Sets the storable flag, marking the record dirty when it changes.
    pub fn set_storable(&mut self, storable: bool)
        ensures
            final(self)@ == (SessionView {
                storable,
                dirty: old(self)@.dirty || old(self)@.storable != storable,
                ..old(self)@
            }),
    {
        proof {
            use_type_invariant(&*self);
        }
        if self.storable != storable {
            self.storable = storable;
            self.dirty = true;
        }
    }

    pub fn set_expires(&mut self, expires: u64)
        ensures
            final(self)@ == (SessionView { expires, ..old(self)@ }),
    {
        proof {
            use_type_invariant(&*self);
        }
        self.expires = expires;
    }

    pub fn set_dirty(&mut self, dirty: bool)
        ensures
            final(self)@ == (SessionView { dirty, ..old(self)@ }),
    {
        proof {
            use_type_invariant(&*self);
        }
        self.dirty = dirty;
    }

    /// A copy of the record.
    pub fn duplicate(&self) -> (r: SessionData)
        ensures
            r@ == self@,
    {
        proof {
            use_type_invariant(self);
        }
        let mut data: Vec<(String, String)> = Vec::new();
        let mut i: usize = 0;
        while i < self.data.len()
            invariant
                i <= self.data@.len(),
                data@.len() == i,
                forall|j: int| 0 <= j < i ==> data@[j].0@ == self.data@[j].0@ && data@[j].1@ == self.data@[j].1@,
            decreases self.data@.len() - i,
        {
            let entry = (self.data[i].0.clone(), self.data[i].1.clone());
            data.push(entry);
            i = i + 1;
        }
        proof {
            lemma_assoc_congruent(data@, self.data@, pair_key(), pair_val());
        }
        SessionData {
            id: self.id,
            data,
            expires: self.expires,
            longterm: self.longterm,
            storable: self.storable,
            destroy: self.destroy,
            dirty: self.dirty,
        }
    }

    /// The record's entries, each key once.
    pub fn entries(&self) -> (r: Vec<(String, String)>)
        ensures
            forall|j: int| 0 <= j < r@.len() ==> self@.data.contains_key(#[trigger] r@[j].0@)
                && self@.data[r@[j].0@] == r@[j].1@,
            forall|k: Seq<char>| self@.data.contains_key(k) ==> exists|j: int| 0 <= j < r@.len() && #[trigger] r@[j].0@ == k,
            forall|a: int, b: int| 0 <= a < b < r@.len() ==> r@[a].0@ != r@[b].0@,
    {
        proof {
            use_type_invariant(self);
        }
        let mut out: Vec<(String, String)> = Vec::new();
        let mut i: usize = 0;
        while i < self.data.len()
            invariant
                i <= self.data@.len(),
                keys_unique(self.data@, pair_key()),
                out@.len() == i,
                forall|j: int| 0 <= j < i ==> out@[j].0@ == self.data@[j].0@ && out@[j].1@ == self.data@[j].1@,
            decreases self.data@.len() - i,
        {
            let entry = (self.data[i].0.clone(), self.data[i].1.clone());
            out.push(entry);
            i = i + 1;
        }
        proof {
            assert forall|j: int| 0 <= j < out@.len() implies self@.data.contains_key(#[trigger] out@[j].0@)
                && self@.data[out@[j].0@] == out@[j].1@ by {
                lemma_assoc_index(self.data@, pair_key(), pair_val(), j);
            }
            assert forall|k: Seq<char>| self@.data.contains_key(k) implies exists|j: int| 0 <= j < out@.len() && #[trigger] out@[j].0@ == k by {
                lemma_assoc_contains(self.data@, pair_key(), pair_val(), k);
                let j = choose|j: int| 0 <= j < self.data@.len() && pair_key()(self.data@[j]) == k;
                assert(out@[j].0@ == k);
            }
        }
        out
    }
}

} // verus!
