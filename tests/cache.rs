use std::cell::RefCell;

use protocol_common::cache::TransactionScopedCache;
use protocol_common::time::Instant;

type Scope = [u8; 32];

fn scope(n: u8) -> Scope {
    [n; 32]
}

// A remote source answering every key with its length times 10, except "gone".
fn answer(keys: &[&'static str]) -> Vec<(&'static str, Option<u128>)> {
    keys.iter()
        .map(|k| (*k, if *k == "gone" { None } else { Some(k.len() as u128 * 10) }))
        .collect()
}

#[test]
fn one_remote_call_per_scope() {
    let mut cache: TransactionScopedCache<&'static str, Scope, u128> = TransactionScopedCache::new();
    let calls: RefCell<Vec<Vec<&'static str>>> = RefCell::new(Vec::new());
    let keys = vec!["A", "BB"];

    let r = cache.batched_get(&keys, scope(1), Instant::new(100), |ks: Vec<&'static str>| {
        calls.borrow_mut().push(ks.clone());
        answer(&ks)
    });
    assert_eq!(calls.borrow().len(), 1);
    assert_eq!(calls.borrow()[0], vec!["A", "BB"]);
    assert_eq!(r.get(&"A"), Some(&10));
    assert_eq!(r.get(&"BB"), Some(&20));
    assert_eq!(r.len(), 2);

    let r = cache.batched_get(&keys, scope(1), Instant::new(101), |ks: Vec<&'static str>| {
        calls.borrow_mut().push(ks.clone());
        answer(&ks)
    });
    assert_eq!(calls.borrow().len(), 1);
    assert_eq!(r.get(&"A"), Some(&10));
    assert_eq!(r.get(&"BB"), Some(&20));

    let r = cache.batched_get(&keys, scope(2), Instant::new(102), |ks: Vec<&'static str>| {
        calls.borrow_mut().push(ks.clone());
        answer(&ks)
    });
    assert_eq!(calls.borrow().len(), 2);
    assert_eq!(calls.borrow()[1], vec!["A", "BB"]);
    assert_eq!(r.len(), 2);
}

#[test]
fn only_missing_keys_are_fetched() {
    let mut cache: TransactionScopedCache<&'static str, Scope, u128> = TransactionScopedCache::new();
    let calls: RefCell<Vec<Vec<&'static str>>> = RefCell::new(Vec::new());

    let _ = cache.batched_get(&vec!["A"], scope(1), Instant::new(0), |ks: Vec<&'static str>| {
        calls.borrow_mut().push(ks.clone());
        answer(&ks)
    });
    let r = cache.batched_get(&vec!["A", "CCC", "BB"], scope(1), Instant::new(0), |ks: Vec<&'static str>| {
        calls.borrow_mut().push(ks.clone());
        answer(&ks)
    });
    assert_eq!(calls.borrow().len(), 2);
    assert_eq!(calls.borrow()[1], vec!["CCC", "BB"]);
    assert_eq!(r.get(&"A"), Some(&10));
    assert_eq!(r.get(&"CCC"), Some(&30));
    assert_eq!(r.get(&"BB"), Some(&20));
}

#[test]
fn absent_answers_are_not_cached() {
    let mut cache: TransactionScopedCache<&'static str, Scope, u128> = TransactionScopedCache::new();
    let calls: RefCell<Vec<Vec<&'static str>>> = RefCell::new(Vec::new());

    let r = cache.batched_get(&vec!["gone", "A"], scope(1), Instant::new(0), |ks: Vec<&'static str>| {
        calls.borrow_mut().push(ks.clone());
        answer(&ks)
    });
    assert_eq!(r.get(&"gone"), None);
    assert_eq!(r.get(&"A"), Some(&10));
    assert_eq!(r.len(), 1);

    let r = cache.batched_get(&vec!["gone", "A"], scope(1), Instant::new(0), |ks: Vec<&'static str>| {
        calls.borrow_mut().push(ks.clone());
        answer(&ks)
    });
    assert_eq!(calls.borrow().len(), 2);
    assert_eq!(calls.borrow()[1], vec!["gone"]);
    assert_eq!(r.len(), 1);
}

#[test]
fn lookup_splits_hits_from_misses() {
    let mut cache: TransactionScopedCache<&'static str, Scope, u128> = TransactionScopedCache::new();
    let (found, missing) = cache.lookup(&vec!["A", "BB"], &scope(1));
    assert_eq!(found.len(), 0);
    assert_eq!(missing, vec!["A", "BB"]);

    let mut found = found;
    cache.store_fetched(&mut found, vec![("A", Some(7)), ("BB", None)], scope(1), Instant::new(5));
    assert_eq!(found.get(&"A"), Some(&7));
    assert_eq!(found.len(), 1);

    let (found, missing) = cache.lookup(&vec!["A", "BB"], &scope(1));
    assert_eq!(found.get(&"A"), Some(&7));
    assert_eq!(missing, vec!["BB"]);

    let (found, missing) = cache.lookup(&vec!["A", "BB"], &scope(2));
    assert_eq!(found.len(), 0);
    assert_eq!(missing, vec!["A", "BB"]);
}
