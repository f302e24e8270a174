use vstd::prelude::*;

use crate::record::{put_view, take_view, SessionView};
use crate::store::{apply_at, deleted, synced};
use crate::session::value_at;

verus! {

/// Tokens minted one after another, with nothing unloaded in between, are
/// pairwise distinct. `loaded[i]` is the table of sessions before the `i`-th
/// mint: as `SessionStore::mint` and `AxumSession::new` state, minting
/// returns a token that is not loaded and loads it, and steps in between may
/// only load more.
pub proof fn lemma_minted_tokens_distinct(loaded: Seq<Map<u128, SessionView>>, ids: Seq<u128>)
    requires
        loaded.len() == ids.len() + 1,
        forall|i: int| 0 <= i < ids.len() ==> !loaded[i].contains_key(#[trigger] ids[i]),
        forall|i: int| 0 <= i < ids.len() ==> loaded[i].dom().insert(#[trigger] ids[i]).subset_of(loaded[i + 1].dom()),
    ensures
        ids.no_duplicates(),
{
    assert forall|a: int, b: int| 0 <= a < b < ids.len() implies ids[a] != ids[b] by {
        lemma_loaded_grows(loaded, ids, a + 1, b);
        assert(loaded[a].dom().insert(ids[a]).subset_of(loaded[a + 1].dom()));
        assert(loaded[a + 1].dom().contains(ids[a]));
    }
}

proof fn lemma_loaded_grows(loaded: Seq<Map<u128, SessionView>>, ids: Seq<u128>, a: int, b: int)
    requires
        loaded.len() == ids.len() + 1,
        forall|i: int| 0 <= i < ids.len() ==> loaded[i].dom().insert(#[trigger] ids[i]).subset_of(loaded[i + 1].dom()),
        0 <= a <= b < loaded.len(),
    ensures
        loaded[a].dom().subset_of(loaded[b].dom()),
    decreases b - a,
{
    if a < b {
        lemma_loaded_grows(loaded, ids, a, b - 1);
        assert(loaded[b - 1].dom().insert(ids[b - 1]).subset_of(loaded[b].dom()));
    }
}

/// Reading a key of a loaded session right after setting it gives back the
/// text that was set.
pub proof fn lemma_set_then_get(m: Map<u128, SessionView>, id: u128, key: Seq<char>, value: Seq<char>)
    requires
        m.contains_key(id),
    ensures
        value_at(apply_at(m, id, put_view(m[id], key, value)), id, key) == Some(value),
{
}

/// Setting the same text twice leaves the sessions, dirty marker included,
/// as the first set left them.
pub proof fn lemma_set_twice(m: Map<u128, SessionView>, id: u128, key: Seq<char>, value: Seq<char>)
    ensures
        ({
            let once = apply_at(m, id, put_view(m[id], key, value));
            apply_at(once, id, put_view(once[id], key, value)) == once
        }),
{
    let once = apply_at(m, id, put_view(m[id], key, value));
    if m.contains_key(id) {
        assert(once.insert(id, put_view(once[id], key, value)) =~= once);
    }
}

/// After a key is removed, reading it finds nothing, whatever it held.
pub proof fn lemma_remove_then_get(m: Map<u128, SessionView>, id: u128, key: Seq<char>)
    ensures
        value_at(apply_at(m, id, take_view(m[id], key)), id, key) is None,
{
}

/// Destroying a session is deferred: the session stays loaded and its data
/// reads and writes as before, until reconciliation drops it, deleting it
/// from the backend exactly when the store persists and the session is
/// storable.
pub proof fn lemma_destroy_deferred(
    m: Map<u128, SessionView>,
    id: u128,
    key: Seq<char>,
    value: Seq<char>,
    persistent: bool,
    now: u64,
)
    requires
        m.contains_key(id),
    ensures
        ({
            let d = apply_at(m, id, (SessionView { destroy: true, ..m[id] }));
            &&& d.contains_key(id)
            &&& forall|k: Seq<char>| value_at(d, id, k) == value_at(m, id, k)
            &&& value_at(apply_at(d, id, put_view(d[id], key, value)), id, key) == Some(value)
            &&& !synced(d, persistent, now).contains_key(id)
            &&& deleted(persistent, d[id], now) == (persistent && m[id].storable)
        }),
{
}

/// The sessions after `keys[i]` has been set to `values[i]` in the session
/// of `id`, in order.
pub open spec fn put_all(m: Map<u128, SessionView>, id: u128, keys: Seq<Seq<char>>, values: Seq<Seq<char>>) -> Map<
    u128,
    SessionView,
>
    decreases keys.len(),
{
    if keys.len() == 0 || values.len() == 0 {
        m
    } else {
        let before = put_all(m, id, keys.drop_last(), values.drop_last());
        apply_at(before, id, put_view(before[id], keys.last(), values.last()))
    }
}

/// Sets of distinct keys on one session lose no update: however they are
/// ordered, each key then reads back the text that was set under it.
pub proof fn lemma_distinct_keys_all_visible(
    m: Map<u128, SessionView>,
    id: u128,
    keys: Seq<Seq<char>>,
    values: Seq<Seq<char>>,
)
    requires
        m.contains_key(id),
        keys.len() == values.len(),
        keys.no_duplicates(),
    ensures
        put_all(m, id, keys, values).contains_key(id),
        forall|i: int| 0 <= i < keys.len() ==> value_at(put_all(m, id, keys, values), id, #[trigger] keys[i]) == Some(values[i]),
    decreases keys.len(),
{
    if keys.len() > 0 {
        let ks = keys.drop_last();
        let vs = values.drop_last();
        assert(ks.no_duplicates());
        lemma_distinct_keys_all_visible(m, id, ks, vs);
        assert forall|i: int| 0 <= i < keys.len() implies value_at(put_all(m, id, keys, values), id, #[trigger] keys[i]) == Some(values[i]) by {
            if i < keys.len() - 1 {
                assert(ks[i] == keys[i]);
                assert(keys[i] != keys.last());
            }
        }
    }
}

} // verus!
