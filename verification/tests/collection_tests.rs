use std::collections::hash_map::RandomState;
use std::collections::{HashMap, HashSet, VecDeque};

use captrack::ctor::{
    btreemap_new_named, btreeset_new_named, hashmap_owned_with_capacity_named, hashmap_with_capacity_and_hasher_named,
    hashmap_with_capacity_named, hashset_owned_with_capacity_named, hashset_with_capacity_and_hasher_named,
    vec_owned_with_capacity_named, vec_with_capacity_named, vecdeque_owned_with_capacity_named, vecdeque_with_capacity_named,
    wrap_from, CapInspect, IntoInner,
};
use captrack::registry::Registry;

fn reg() -> Registry {
    Registry::new(4096)
}

#[test]
fn tvec_off_feature_is_plain_vec() {
    let mut r = reg();
    let mut v = vec_with_capacity_named::<u32>(&mut r, 16, "test/vec", "collection_tests.rs", 11, 1);
    v.inner.push(1u32);
    assert_eq!(v.inner.len(), 1);
}

#[test]
fn tvecdeque_expands_with_capacity() {
    let mut r = reg();
    let mut v = vecdeque_with_capacity_named::<u32>(&mut r, 8, "test/vecdeque", "collection_tests.rs", 12, 1);
    v.inner.push_back(42u32);
    assert_eq!(v.inner.len(), 1);
}

#[test]
fn tbtreemap_expands_to_btreemap() {
    let mut r = reg();
    let mut m = btreemap_new_named::<u32, u32>(&mut r, 0, "test/btreemap", "collection_tests.rs", 13, 1);
    m.inner.insert(1u32, 2u32);
    assert_eq!(m.inner.len(), 1);
}

#[test]
fn tbtreeset_expands_to_btreeset() {
    let mut r = reg();
    let mut s = btreeset_new_named::<u32>(&mut r, 0, "test/btreeset", "collection_tests.rs", 14, 1);
    s.inner.insert(1u32);
    assert_eq!(s.inner.len(), 1);
}

#[test]
fn tfxmap_expands_with_hasher() {
    let mut r = reg();
    let mut m = hashmap_with_capacity_and_hasher_named::<u32, u32, RandomState>(
        &mut r,
        16,
        RandomState::new(),
        "test/fxmap",
        "collection_tests.rs", 15, 1,
    );
    m.inner.insert(1u32, 2u32);
    assert!(m.inner.capacity() >= 16, "capacity must be at least the requested amount");
    assert_eq!(m.inner.len(), 1);
}

#[test]
fn tfxset_expands_with_hasher() {
    let mut r = reg();
    let mut s = hashset_with_capacity_and_hasher_named::<u32, RandomState>(
        &mut r,
        8,
        RandomState::new(),
        "test/fxset",
        "collection_tests.rs", 16, 1,
    );
    s.inner.insert(1u32);
    assert!(s.inner.capacity() >= 8, "capacity must be at least the requested amount");
    assert_eq!(s.inner.len(), 1);
}

#[test]
fn into_inner_identity_in_off_feature() {
    let mut r = reg();
    let mut v = vec_with_capacity_named::<u32>(&mut r, 8, "test/into_inner", "collection_tests.rs", 17, 1);
    v.inner.push(1u32);
    v.inner.push(2u32);
    let raw: Vec<u32> = v.into_inner(&mut r);
    assert_eq!(raw.len(), 2);
    assert!(raw.capacity() >= 8);
}

#[test]
fn into_inner_supports_chained_method_inference() {
    let mut r = reg();
    let mut v = vec_with_capacity_named(&mut r, 8, "test/chained", "collection_tests.rs", 18, 1);
    v.inner.push(1u32);
    let len = v.into_inner(&mut r).len();
    assert_eq!(len, 1);
    let mut v2 = vec_with_capacity_named(&mut r, 4, "test/chained2", "collection_tests.rs", 19, 1);
    v2.inner.push(7u32);
    let raw = v2.into_inner(&mut r);
    assert_eq!(raw.capacity(), 4);
    let _: Vec<u32> = raw;
}

#[test]
fn off_feature_into_inner_is_pure_identity() {
    let mut r = reg();
    let v: Vec<u32> = vec_owned_with_capacity_named(&mut r, 32, "test/identity", "collection_tests.rs", 26, 1);
    let ptr_before = v.as_ptr();
    let cap_before = v.capacity();
    let w = IntoInner::into_inner(v);
    assert_eq!(w.as_ptr(), ptr_before);
    assert_eq!(w.capacity(), cap_before);
}

#[test]
fn tvec_owned_returns_plain_vec() {
    let mut r = reg();
    let v: Vec<u32> = vec_owned_with_capacity_named(&mut r, 8, "test/owned/vec", "collection_tests.rs", 20, 1);
    assert_eq!(v.capacity(), 8);
}

#[test]
fn tvecdeque_owned_returns_plain_vecdeque() {
    let mut r = reg();
    let d: VecDeque<u32> = vecdeque_owned_with_capacity_named(&mut r, 8, "test/owned/vecdeque", "collection_tests.rs", 21, 1);
    assert_eq!(d.capacity(), 8);
}

#[test]
fn deref_works_like_vec() {
    let mut r = reg();
    let mut v = vec_with_capacity_named::<u32>(&mut r, 4, "on/deref", "collection_tests.rs", 22, 1);
    v.inner.push(10u32);
    v.inner.push(20);
    v.inner.push(30);
    assert_eq!(v.inner.len(), 3);
    assert_eq!(v.inner[0], 10);
    assert_eq!(v.inner[2], 30);
    let sum: u32 = v.inner.iter().sum();
    assert_eq!(sum, 60);
}

#[test]
fn wrap_from_vec_list_literal() {
    let mut r = reg();
    let t = wrap_from(&mut r, vec![10u8, 20, 30], "wrap/vec/literal", "collection_tests.rs", 23, 1);
    assert_eq!(t.inner.len(), 3);
    assert_eq!(t.inner, [10u8, 20, 30]);
}

#[test]
fn cap_inspect_off_feature_is_noop_or_records_nothing_visible() {
    let mut r = reg();
    let v: Vec<u32> = Vec::with_capacity(8);
    CapInspect::cap_inspect_at(&v, &mut r, "test:noop_check", "collection_tests.rs", 24, 1);
    let vd: VecDeque<u32> = VecDeque::with_capacity(4);
    CapInspect::cap_inspect_at(&vd, &mut r, "test:noop_check_vd", "collection_tests.rs", 25, 1);
    assert_eq!(r.len(), 0);
}

#[test]
fn owned_constructor_records_the_requested_capacity() {
    let mut r = reg();
    let _v: Vec<u8> = vec_owned_with_capacity_named(&mut r, 24, "owned", "o.rs", 1, 1);
    let st = r.get("o.rs", 1, 1).unwrap();
    assert_eq!(st.creation_count, 1);
    assert_eq!(st.samples.snapshot(), vec![24]);
}

#[test]
fn default_hasher_is_random_state() {
    let mut r = reg();
    let mut m = hashmap_with_capacity_named(&mut r, 4, "test/random_state", "collection_tests.rs", 27, 1);
    m.inner.insert(String::from("key"), 42u32);
    assert_eq!(m.inner.get("key"), Some(&42u32));
    let _: &HashMap<String, u32, RandomState> = &m.inner;
}

#[test]
fn tfxmap_owned_returns_plain_hashmap() {
    let mut r = reg();
    let m: HashMap<u32, u32, RandomState> =
        hashmap_owned_with_capacity_named(&mut r, 16, "test/owned/fxmap", "collection_tests.rs", 28, 1);
    assert!(m.capacity() >= 16);
}

#[test]
fn tfxset_owned_returns_plain_hashset() {
    let mut r = reg();
    let s: HashSet<u32, RandomState> =
        hashset_owned_with_capacity_named(&mut r, 8, "test/owned/fxset", "collection_tests.rs", 29, 1);
    assert!(s.capacity() >= 8);
}
