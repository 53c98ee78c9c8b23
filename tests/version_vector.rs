use logical_clock::{Dot, VersionVector};

#[test]
fn dvv_test_vv_new() {
    let mut vv = VersionVector::new();
    vv = vv.increment("A").increment("B");

    assert_eq!(vv.get("A").unwrap(), 1_u64);
    assert_eq!(vv.get("B").unwrap(), 1_u64);

    vv = vv.increment("A").increment("C");

    assert_eq!(vv.get("A").unwrap(), 2_u64);
    assert_eq!(vv.get("C").unwrap(), 1_u64);
}

#[test]
fn dvv_test_vv_merge() {
    // [2, 1]
    let v1 = VersionVector::new().increment("A").increment("A").increment("B");
    // [1, 2]
    let v2 = VersionVector::new().increment("B").increment("B").increment("A");

    let v3 = v1.merge(&v2);

    // [2, 2]
    assert_eq!(v3.get("A").unwrap(), 2_u64);
    assert_eq!(v3.get("B").unwrap(), 2_u64);
}

#[test]
fn test_vv_descends() {
    // [2, 3, 2]
    let v1 = VersionVector::new().increment("A").increment("A").increment("B").increment("B").increment("B").increment("C").increment("C");
    // [1, 2, 1]
    let v2 = VersionVector::new().increment("A").increment("B").increment("B").increment("C");
    assert!(v1.descends(&v2));
    assert!(!v2.descends(&v1));

    // [2, 3, 2]
    let v1 = VersionVector::new().increment("A").increment("A").increment("B").increment("B").increment("B").increment("C").increment("C");
    // [1, 4, 1]
    let v2 = VersionVector::new().increment("A").increment("B").increment("B").increment("B").increment("B").increment("C");
    assert!(!v1.descends(&v2));
    assert!(!v2.descends(&v1));
}

#[test]
fn dvv_test_vv_concurrent() {
    // [2, 3, 2]
    let v1 = VersionVector::new().increment("A").increment("A").increment("B").increment("B").increment("B").increment("C").increment("C");
    // [1, 2, 1]
    let v2 = VersionVector::new().increment("A").increment("B").increment("B").increment("C");
    assert!(!v1.concurrent(&v2));
    assert!(!v2.concurrent(&v1));

    // [2, 3, 2]
    let v1 = VersionVector::new().increment("A").increment("A").increment("B").increment("B").increment("B").increment("C").increment("C");
    // [1, 4, 1]
    let v2 = VersionVector::new().increment("A").increment("B").increment("B").increment("B").increment("B").increment("C");
    assert!(v1.concurrent(&v2));
    assert!(v2.concurrent(&v1));
}

#[test]
fn test_get_dot() {
    let v = VersionVector::new().increment("A").increment("B");
    let dot = v.get_dot("A");

    assert_eq!("A", dot.0);
    assert_eq!(1, dot.1);
}

#[test]
fn test_descends_dot() {
    let v = VersionVector::new().increment("A").increment("A").increment("B");

    let dot = Dot("A".to_string(), 3);

    assert!(dot.descends_vv(&v));
    assert!(!v.descends_dot(&dot));

    let v = VersionVector::new().increment("A").increment("A").increment("B");

    let dot = Dot("A".to_string(), 1);
    assert!(!dot.descends_vv(&v));
    assert!(v.descends_dot(&dot));
}

#[test]
fn empty_vector_has_no_counters() {
    let v = VersionVector::new();
    assert_eq!(v.get("A"), None);
    assert_eq!(v.counter("A"), 0);
    let d = v.get_dot("A");
    assert_eq!(d.0, "A");
    assert_eq!(d.1, 0);
    assert!(v.descends(&VersionVector::new()));
    assert!(!v.concurrent(&VersionVector::new()));
}

#[test]
fn increment_leaves_other_actors_alone() {
    let v = VersionVector::new().increment("A").increment("B").increment("B");
    let w = v.snapshot().increment("A");
    assert_eq!(w.counter("A"), 2);
    assert_eq!(w.counter("B"), 2);
    assert_eq!(v.counter("A"), 1);
}

#[test]
fn merge_laws_on_values() {
    let a = VersionVector::new().increment("A").increment("A").increment("B");
    let b = VersionVector::new().increment("B").increment("B").increment("C");
    let c = VersionVector::new().increment("C").increment("C").increment("C").increment("A");

    let ab = a.merge(&b);
    let ba = b.merge(&a);
    assert!(ab.descends(&ba) && ba.descends(&ab));
    assert_eq!(ab.counter("A"), 2);
    assert_eq!(ab.counter("B"), 2);
    assert_eq!(ab.counter("C"), 1);
    assert_eq!(ab.counter("D"), 0);

    let left = a.merge(&b).merge(&c);
    let right = a.merge(&b.merge(&c));
    for actor in ["A", "B", "C"] {
        assert_eq!(left.get(actor), right.get(actor));
    }
    assert_eq!(left.counter("C"), 3);

    let aa = a.merge(&a);
    assert_eq!(aa.get("A"), Some(2));
    assert_eq!(aa.get("B"), Some(1));
    assert_eq!(aa.get("C"), None);
}

#[test]
fn descends_reflexive_and_transitive_on_values() {
    let a = VersionVector::new().increment("A").increment("A").increment("B").increment("B");
    let b = VersionVector::new().increment("A").increment("B").increment("B");
    let c = VersionVector::new().increment("A");
    assert!(a.descends(&a));
    assert!(a.descends(&b));
    assert!(b.descends(&c));
    assert!(a.descends(&c));
    assert!(!c.descends(&a));
}

#[test]
fn concurrent_is_symmetric_on_values() {
    let a = VersionVector::new().increment("A");
    let b = VersionVector::new().increment("B");
    assert!(a.concurrent(&b));
    assert!(b.concurrent(&a));
    assert!(!a.descends(&b));
    assert!(!b.descends(&a));
}

#[test]
fn increment_contains_next_dot() {
    let v = VersionVector::new().increment("A").increment("B");
    let next = Dot("A".to_string(), v.counter("A") + 1);
    assert!(!v.descends_dot(&next));
    let v = v.increment("A");
    assert!(v.descends_dot(&next));
    let fresh = Dot("Z".to_string(), 1);
    assert!(!v.descends_dot(&fresh));
    assert!(v.increment("Z").descends_dot(&fresh));
}

#[test]
fn happened_before_on_version_vectors() {
    let a = VersionVector::new().increment("A");
    let b = a.snapshot().increment("B");
    assert!(a.happened_before(&b));
    assert!(!b.happened_before(&a));
    assert!(!a.happened_before(&a));
    assert!(a.descends(&a));
}
