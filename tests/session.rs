use axum_sessions_core::{AxumSession, SessionData, SessionStore};

const LIFESPAN: u64 = 3600;
const LONGTERM: u64 = 86400;

fn memory_store() -> SessionStore {
    SessionStore::new(false, LIFESPAN, LONGTERM, true)
}

fn persistent_store() -> SessionStore {
    SessionStore::new(true, LIFESPAN, LONGTERM, true)
}

#[test]
fn minted_tokens_are_distinct() {
    let mut store = memory_store();
    let mut ids = Vec::new();
    for _ in 0..50 {
        let s = AxumSession::new(&mut store, None, 100).unwrap();
        assert!(!ids.contains(&s.id()));
        ids.push(s.id());
    }
    assert_eq!(store.len(), 50);
}

#[test]
fn set_then_get_round_trips_serialized_value() {
    let mut store = memory_store();
    let s = AxumSession::new(&mut store, None, 0).unwrap();
    let text = serde_json::to_string(&vec![1u8, 2, 3]).unwrap();
    s.set(&mut store, "list", text.clone());
    let back: Vec<u8> = serde_json::from_str(&s.get(&store, "list").unwrap()).unwrap();
    assert_eq!(back, vec![1u8, 2, 3]);
    assert_eq!(s.get(&store, "list"), Some(text));
}

#[test]
fn user_id_scenario() {
    let mut store = memory_store();
    let s = AxumSession::new(&mut store, None, 0).unwrap();
    s.set(&mut store, "user-id", serde_json::to_string(&42i64).unwrap());
    let got: Option<i64> = s.get(&store, "user-id").and_then(|t| serde_json::from_str(&t).ok());
    assert_eq!(got, Some(42));
    s.remove(&mut store, "user-id");
    assert_eq!(s.get(&store, "user-id"), None);
}

#[test]
fn remove_of_absent_key_is_harmless() {
    let mut store = memory_store();
    let s = AxumSession::new(&mut store, None, 0).unwrap();
    s.remove(&mut store, "missing");
    assert_eq!(s.get(&store, "missing"), None);
    assert!(!store.snapshot(s.id()).unwrap().is_dirty());
}

#[test]
fn mismatched_type_reads_as_no_value() {
    let mut store = memory_store();
    let s = AxumSession::new(&mut store, None, 0).unwrap();
    s.set(&mut store, "name", serde_json::to_string("alice").unwrap());
    let got: Option<i64> = s.get(&store, "name").and_then(|t| serde_json::from_str(&t).ok());
    assert_eq!(got, None);
}

#[test]
fn overwrite_with_same_value_keeps_record_clean() {
    let mut store = persistent_store();
    let s = AxumSession::new(&mut store, None, 0).unwrap();
    s.set(&mut store, "k", "1".to_string());
    assert!(store.snapshot(s.id()).unwrap().is_dirty());
    let plan = store.reconcile(10);
    assert_eq!(plan.saves, vec![s.id()]);
    assert!(!store.snapshot(s.id()).unwrap().is_dirty());
    s.set(&mut store, "k", "1".to_string());
    assert!(!store.snapshot(s.id()).unwrap().is_dirty());
    s.set(&mut store, "k", "2".to_string());
    assert!(store.snapshot(s.id()).unwrap().is_dirty());
}

#[test]
fn destroy_is_deferred_until_reconciliation() {
    let mut store = persistent_store();
    let s = AxumSession::new(&mut store, None, 0).unwrap();
    s.set(&mut store, "a", "1".to_string());
    s.destroy(&mut store);
    assert!(store.contains(s.id()));
    assert_eq!(s.get(&store, "a"), Some("1".to_string()));
    s.set(&mut store, "b", "2".to_string());
    assert_eq!(s.get(&store, "b"), Some("2".to_string()));
    let plan = store.reconcile(10);
    assert!(!store.contains(s.id()));
    assert_eq!(plan.deletes, vec![s.id()]);
    assert!(plan.saves.is_empty());
    assert_eq!(s.get(&store, "a"), None);
}

#[test]
fn destroyed_session_of_memory_store_needs_no_backend_delete() {
    let mut store = memory_store();
    let s = AxumSession::new(&mut store, None, 0).unwrap();
    s.destroy(&mut store);
    let plan = store.reconcile(10);
    assert!(!store.contains(s.id()));
    assert!(plan.deletes.is_empty());
}

#[test]
fn count_without_persistence_is_loaded_sessions() {
    let mut store = memory_store();
    let a = AxumSession::new(&mut store, None, 0).unwrap();
    AxumSession::new(&mut store, None, 0).unwrap();
    AxumSession::new(&mut store, None, 0).unwrap();
    assert_eq!(a.count(&store, Some(99)), 3);
}

#[test]
fn count_with_persistence_is_backend_count() {
    let mut store = persistent_store();
    let a = AxumSession::new(&mut store, None, 0).unwrap();
    assert_eq!(a.count(&store, Some(7)), 7);
    assert_eq!(a.count(&store, None), 0);
}

#[test]
fn unknown_presented_token_gets_fresh_record() {
    let mut store = persistent_store();
    let presented = "550e8400-e29b-41d4-a716-446655440000";
    let wanted = store.pending_load(presented);
    assert_eq!(wanted, Some(0x550e8400e29b41d4a716446655440000));
    // the backend holds nothing for it
    let s = AxumSession::new(&mut store, Some(presented), 0).unwrap();
    assert_ne!(s.id(), 0x550e8400e29b41d4a716446655440000);
    assert!(store.is_persistent());
    s.set_store(&mut store, false);
    let plan = store.reconcile(10);
    assert!(plan.saves.is_empty());
    assert!(plan.deletes.is_empty());
    assert!(!store.contains(s.id()));
}

#[test]
fn malformed_cookie_mints_new_token() {
    let mut store = persistent_store();
    assert_eq!(store.pending_load("not-a-token"), None);
    assert_eq!(store.pending_load(""), None);
    let s = AxumSession::new(&mut store, Some("not-a-token"), 0).unwrap();
    assert!(store.contains(s.id()));
    assert_eq!(store.len(), 1);
}

#[test]
fn known_cookie_resumes_session() {
    let mut store = memory_store();
    let s = AxumSession::new(&mut store, None, 0).unwrap();
    s.set(&mut store, "x", "1".to_string());
    let cookie = s.token_string();
    let again = AxumSession::new(&mut store, Some(&cookie), 50).unwrap();
    assert_eq!(again.id(), s.id());
    assert_eq!(again.get(&store, "x"), Some("1".to_string()));
    assert_eq!(store.len(), 1);
    assert_eq!(store.snapshot(s.id()).unwrap().expires(), LIFESPAN);
    store.refresh(s.id(), 50);
    assert_eq!(store.snapshot(s.id()).unwrap().expires(), 50 + LIFESPAN);
    assert_eq!(store.pending_load(&cookie), None);
}

#[test]
fn token_string_is_canonical_text() {
    let mut store = persistent_store();
    let s = AxumSession::new(&mut store, None, 0).unwrap();
    let text = s.token_string();
    assert_eq!(text.len(), 36);
    assert_eq!(text, uuid::Uuid::from_u128(s.id()).to_string());
    let mut other = persistent_store();
    assert_eq!(other.pending_load(&text), Some(s.id()));
    assert!(AxumSession::new(&mut other, None, 0).is_ok());
}

#[test]
fn loaded_record_is_admitted_once() {
    let mut store = persistent_store();
    let id: u128 = 0x1234;
    let mut rec = SessionData::new(id, 5, true);
    rec.put("user", "\"bob\"".to_string());
    rec.set_longterm(true);
    assert!(store.admit_loaded(id, rec, 1000));
    let snap = store.snapshot(id).unwrap();
    assert!(!snap.is_dirty());
    assert_eq!(snap.expires(), 1000 + LONGTERM);
    assert_eq!(snap.value("user"), Some("\"bob\"".to_string()));
    assert!(!store.admit_loaded(id, SessionData::new(id, 0, true), 2000));
    assert!(!store.admit_loaded(0x99, SessionData::new(0x98, 0, true), 2000));
    assert!(!store.contains(0x98));
    assert_eq!(store.snapshot(id).unwrap().value("user"), Some("\"bob\"".to_string()));
}

#[test]
fn expired_sessions_are_dropped() {
    let mut store = persistent_store();
    let s = AxumSession::new(&mut store, None, 100).unwrap();
    let plan = store.reconcile(100 + LIFESPAN - 1);
    assert!(store.contains(s.id()));
    assert!(plan.deletes.is_empty());
    let plan = store.reconcile(100 + LIFESPAN);
    assert!(!store.contains(s.id()));
    assert_eq!(plan.deletes, vec![s.id()]);
}

#[test]
fn expiry_saturates() {
    let mut store = SessionStore::new(false, u64::MAX, u64::MAX, true);
    let s = AxumSession::new(&mut store, None, 10).unwrap();
    assert_eq!(store.snapshot(s.id()).unwrap().expires(), u64::MAX);
}

#[test]
fn longterm_session_gets_longer_lifespan() {
    let mut store = memory_store();
    let s = AxumSession::new(&mut store, None, 0).unwrap();
    s.set_longterm(&mut store, true);
    assert!(store.snapshot(s.id()).unwrap().is_longterm());
    store.refresh(s.id(), 10);
    assert_eq!(store.snapshot(s.id()).unwrap().expires(), 10 + LONGTERM);
}

#[test]
fn distinct_keys_all_visible() {
    let mut store = memory_store();
    let s = AxumSession::new(&mut store, None, 0).unwrap();
    for i in 0..20 {
        s.set(&mut store, &format!("k{}", i), format!("{}", i * 3));
    }
    for i in 0..20 {
        assert_eq!(s.get(&store, &format!("k{}", i)), Some(format!("{}", i * 3)));
    }
    assert_eq!(store.snapshot(s.id()).unwrap().len(), 20);
}

#[test]
fn clear_all_reports_backend_wipe_only_when_persistent() {
    let mut store = memory_store();
    let s = AxumSession::new(&mut store, None, 0).unwrap();
    s.set(&mut store, "a", "1".to_string());
    assert!(!s.clear_all(&mut store));
    assert_eq!(s.get(&store, "a"), None);
    let mut p = persistent_store();
    let t = AxumSession::new(&mut p, None, 0).unwrap();
    assert!(t.clear_all(&mut p));
}

#[test]
fn operations_on_unloaded_session_do_nothing() {
    let mut store = memory_store();
    let s = AxumSession::new(&mut store, None, 0).unwrap();
    s.destroy(&mut store);
    store.reconcile(1);
    s.set(&mut store, "a", "1".to_string());
    s.set_store(&mut store, false);
    assert_eq!(s.get(&store, "a"), None);
    assert_eq!(store.len(), 0);
}

#[test]
fn non_storable_kept_in_memory_store() {
    let mut store = memory_store();
    let s = AxumSession::new(&mut store, None, 0).unwrap();
    s.set_store(&mut store, false);
    let plan = store.reconcile(1);
    assert!(store.contains(s.id()));
    assert!(plan.saves.is_empty());
}

#[test]
fn record_entries_and_copy() {
    let mut rec = SessionData::new(9, 0, false);
    rec.put("a", "1".to_string());
    rec.put("b", "2".to_string());
    rec.put("a", "3".to_string());
    let mut entries = rec.entries();
    entries.sort();
    assert_eq!(entries, vec![("a".to_string(), "3".to_string()), ("b".to_string(), "2".to_string())]);
    let copy = rec.duplicate();
    assert_eq!(copy.value("a"), Some("3".to_string()));
    assert_eq!(copy.id(), 9);
    assert_eq!(rec.take("a"), Some("3".to_string()));
    assert_eq!(rec.take("a"), None);
}

#[test]
fn mint_on_empty_store_succeeds() {
    let mut store = persistent_store();
    let id = store.mint(7, None).unwrap();
    assert!(store.contains(id));
    let snap = store.snapshot(id).unwrap();
    assert_eq!(snap.expires(), 7 + LIFESPAN);
    assert!(snap.is_storable());
    assert!(!snap.is_dirty());
}

#[test]
fn own_cookie_resumes_after_other_sessions() {
    let mut store = memory_store();
    let a = AxumSession::new(&mut store, None, 0).unwrap();
    let b = AxumSession::new(&mut store, None, 0).unwrap();
    let again = AxumSession::new(&mut store, Some(&a.token_string()), 1).unwrap();
    assert_eq!(again.id(), a.id());
    assert_ne!(again.id(), b.id());
    assert_eq!(store.len(), 2);
}

#[test]
fn mint_avoids_given_token() {
    let mut store = memory_store();
    for _ in 0..20 {
        let id = store.mint(0, Some(5)).unwrap();
        assert_ne!(id, 5);
    }
    assert_eq!(store.len(), 20);
}

#[test]
fn store_count_follows_mode() {
    let mut store = memory_store();
    store.mint(0, None).unwrap();
    store.mint(0, None).unwrap();
    assert_eq!(store.count(Some(40)), 2);
    let p = persistent_store();
    assert_eq!(p.count(Some(40)), 40);
    assert_eq!(p.count(None), 0);
}
