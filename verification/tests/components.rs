use shortlink::cache::MappingCache;
use shortlink::service::credential_ok;
use shortlink::service::resolve_in;
use shortlink::store::{Mapping, Store};

fn row(name: &str, target: &str, active: bool) -> Mapping {
    Mapping { name: name.to_string(), target: target.to_string(), active }
}

#[test]
fn new_cache_is_empty() {
    let cache = MappingCache::new();
    assert!(cache.get(&"anything".to_string()).is_none());
}

#[test]
fn cache_set_then_get() {
    let mut cache = MappingCache::new();
    cache.set(&"k".to_string(), &"https://v.example".to_string());
    assert_eq!(cache.get(&"k".to_string()), Some(&"https://v.example".to_string()));
    assert!(cache.get(&"other".to_string()).is_none());
}

#[test]
fn cache_set_overwrites() {
    let mut cache = MappingCache::new();
    cache.set(&"k".to_string(), &"https://first.example".to_string());
    cache.set(&"k".to_string(), &"https://second.example".to_string());
    assert_eq!(cache.get(&"k".to_string()), Some(&"https://second.example".to_string()));
}

#[test]
fn bulk_load_caches_only_active_rows() {
    let rows = vec![
        row("a", "https://a.example", true),
        row("b", "https://b.example", false),
        row("c", "https://c.example", true),
    ];
    let cache = MappingCache::bulk_load(&rows);
    assert_eq!(cache.get(&"a".to_string()), Some(&"https://a.example".to_string()));
    assert!(cache.get(&"b".to_string()).is_none());
    assert_eq!(cache.get(&"c".to_string()), Some(&"https://c.example".to_string()));
}

#[test]
fn resolve_in_prefers_cache_and_falls_back() {
    let mut cache = MappingCache::new();
    cache.set(&"hit".to_string(), &"https://hit.example".to_string());
    let default_target = "https://default.example".to_string();
    assert_eq!(resolve_in(&cache, &default_target, &"hit".to_string()), "https://hit.example");
    assert_eq!(resolve_in(&cache, &default_target, &"miss".to_string()), "https://default.example");
}

#[test]
fn credential_check() {
    assert!(credential_ok(&Some("s3cr3t".to_string()), &"s3cr3t".to_string()));
    assert!(!credential_ok(&Some("s3cr3t".to_string()), &"nope".to_string()));
    assert!(!credential_ok(&Some("s3cr3t".to_string()), &"".to_string()));
    assert!(!credential_ok(&None, &"s3cr3t".to_string()));
    assert!(!credential_ok(&None, &"".to_string()));
}

#[test]
fn store_upsert_inserts_and_replaces() {
    let mut store = Store::new();
    store.upsert(&"n".to_string(), &"https://one.example".to_string());
    let rows = store.fetch_all();
    assert_eq!(rows.len(), 1);
    assert_eq!(rows[0].name, "n");
    assert_eq!(rows[0].target, "https://one.example");
    assert!(rows[0].active);

    store.upsert(&"n".to_string(), &"https://two.example".to_string());
    let rows = store.fetch_all();
    assert_eq!(rows.len(), 1);
    assert_eq!(rows[0].target, "https://two.example");
}

#[test]
fn store_upsert_reactivates() {
    let mut store = Store::new();
    store.put_row(row("n", "https://one.example", false));
    store.upsert(&"n".to_string(), &"https://two.example".to_string());
    let rows = store.fetch_all();
    assert_eq!(rows.len(), 1);
    assert!(rows[0].active);
    assert_eq!(rows[0].target, "https://two.example");
}

#[test]
fn store_put_row_keeps_given_flag() {
    let mut store = Store::new();
    store.put_row(row("a", "https://a.example", false));
    store.put_row(row("b", "https://b.example", true));
    let rows = store.fetch_all();
    assert_eq!(rows.len(), 2);
    let a = rows.iter().find(|r| r.name == "a").unwrap();
    let b = rows.iter().find(|r| r.name == "b").unwrap();
    assert!(!a.active);
    assert!(b.active);
}
