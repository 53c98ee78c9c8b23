use logical_clock::{Dot, KvStore, Value, VersionVector};

fn sibling_count(kv: &KvStore, key: &str) -> usize {
    kv.read(key).0.map(|v| v.len()).unwrap_or(0)
}

#[test]
fn concurrent_writers_keep_siblings() {
    let mut kv = KvStore::new();

    let (none, ctx_a) = kv.read("x");
    assert!(none.is_none());
    let (_, ctx_b) = kv.read("x");

    kv = kv.write("A", &ctx_a, "x", 10);
    assert_eq!(sibling_count(&kv, "x"), 1);
    kv = kv.write("B", &ctx_b, "x", 15);
    assert_eq!(sibling_count(&kv, "x"), 2);

    let (_, ctx_c) = kv.read("x");
    assert_eq!(ctx_c.get("A"), Some(1));
    assert_eq!(ctx_c.get("B"), Some(1));
    kv = kv.write("C", &ctx_c, "x", 20);
    assert_eq!(sibling_count(&kv, "x"), 1);

    kv = kv.write("B", &ctx_b, "x", 30);
    assert_eq!(sibling_count(&kv, "x"), 2);

    let (vals, vv) = kv.read("x");
    let vals = vals.unwrap();
    assert_eq!(vals[0].val, 20);
    assert_eq!(vals[0].dot.0, "C");
    assert_eq!(vals[0].dot.1, 1);
    assert_eq!(vals[1].val, 30);
    assert_eq!(vals[1].dot.0, "B");
    assert_eq!(vals[1].dot.1, 2);
    assert_eq!(vv.counter("A"), 1);
    assert_eq!(vv.counter("B"), 2);
    assert_eq!(vv.counter("C"), 1);
}

#[test]
fn fast_path_replaces_and_advances_context() {
    let kv = KvStore::new();
    let (_, ctx) = kv.read("k");
    let kv = kv.write("A", &ctx, "k", 1);
    let (vals, vv) = kv.read("k");
    let vals = vals.unwrap();
    assert_eq!(vals.len(), 1);
    assert_eq!(vals[0].val, 1);
    assert_eq!(vals[0].dot.0, "A");
    assert_eq!(vals[0].dot.1, 1);
    assert_eq!(vv.get("A"), Some(1));

    let kv = kv.write("A", &vv, "k", 2);
    let (vals, vv) = kv.read("k");
    let vals = vals.unwrap();
    assert_eq!(vals.len(), 1);
    assert_eq!(vals[0].val, 2);
    assert_eq!(vals[0].dot.1, 2);
    assert_eq!(vv.get("A"), Some(2));
}

#[test]
fn stale_write_drops_only_seen_siblings() {
    let kv = KvStore::new();
    let (_, empty) = kv.read("k");
    let kv = kv.write("A", &empty, "k", 1);
    let (_, after_a) = kv.read("k");
    let kv = kv.write("B", &empty, "k", 2);
    assert_eq!(sibling_count(&kv, "k"), 2);
    // This writer has seen A's value but not B's.
    let kv = kv.write("C", &after_a, "k", 3);
    let (vals, vv) = kv.read("k");
    let vals = vals.unwrap();
    assert_eq!(vals.len(), 2);
    assert_eq!(vals[0].val, 2);
    assert_eq!(vals[1].val, 3);
    assert_eq!(vals[1].dot.0, "C");
    assert_eq!(vv.counter("C"), 1);
}

#[test]
fn keys_are_independent() {
    let kv = KvStore::new();
    let (_, ctx) = kv.read("a");
    let kv = kv.write("A", &ctx, "a", 1);
    let (none, vv) = kv.read("b");
    assert!(none.is_none());
    assert_eq!(vv.counter("A"), 1);
    let kv = kv.write("A", &vv, "b", 2);
    assert_eq!(sibling_count(&kv, "a"), 1);
    assert_eq!(sibling_count(&kv, "b"), 1);
    assert_eq!(kv.read("a").0.unwrap()[0].val, 1);
}

#[test]
fn merge_siblings_filters_by_context() {
    let ctx = VersionVector::new().increment("A").increment("A");
    let sibs = vec![
        Value { val: 1, dot: Dot("A".to_string(), 1) },
        Value { val: 2, dot: Dot("B".to_string(), 1) },
        Value { val: 3, dot: Dot("A".to_string(), 3) },
    ];
    let out = logical_clock::kv::merge_siblings(sibs, &ctx, Value { val: 4, dot: Dot("C".to_string(), 1) });
    let vals: Vec<i64> = out.iter().map(|v| v.val).collect();
    assert_eq!(vals, vec![2, 3, 4]);
}
