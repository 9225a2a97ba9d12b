use std::collections::hash_map::RandomState;
use std::collections::{BTreeMap, BTreeSet, HashMap, HashSet, VecDeque};

use captrack::ctor::{
    btreemap_new_named, btreeset_new_named, hashmap_with_capacity_and_hasher_named, hashset_with_capacity_and_hasher_named,
    vec_with_capacity_named, vecdeque_with_capacity_named, wrap_from, CapInspect,
};
use captrack::registry::{record_creation, Registry};

fn reg() -> Registry {
    Registry::new(4096)
}

/// Constructions counted under `name`, over all its sites.
fn count(r: &Registry, name: &str) -> u64 {
    r.entries().iter().filter(|e| e.name == name).map(|e| e.creation_count).sum()
}

/// The largest observation recorded under `name`, over all its sites.
fn peak(r: &Registry, name: &str) -> usize {
    r.entries().iter().filter(|e| e.name == name).flat_map(|e| e.samples.clone()).max().unwrap_or(0)
}

/// Observations counted under `name`, over all its sites.
fn total_observed(r: &Registry, name: &str) -> u64 {
    let mut t = 0;
    for e in r.entries().iter().filter(|e| e.name == name) {
        t += r.get(&e.file, e.line, e.column).unwrap().samples.total_observed();
    }
    t
}

// ── wrap_from ─────────────────────────────────────────────────────────────

#[test]
fn wrap_from_vec_records_creation() {
    let mut r = reg();
    let before = count(&r, "wrap/vec/creation");
    let inner: Vec<u32> = vec![1, 2, 3];
    let _t = wrap_from(&mut r, inner, "wrap/vec/creation", "tracking_tests.rs", 40, 14);
    let after = count(&r, "wrap/vec/creation");
    assert_eq!(after - before, 1, "wrap_from must increment creation_count");
}

#[test]
fn wrap_from_vec_preserves_capacity() {
    let mut r = reg();
    let inner: Vec<u8> = Vec::with_capacity(64);
    let cap = inner.capacity();
    let t = wrap_from(&mut r, inner, "wrap/vec/cap", "tracking_tests.rs", 50, 13);
    assert_eq!(t.inner.capacity(), cap, "wrap_from must not reallocate");
    let _ = t.into_inner(&mut r);
    assert!(peak(&r, "wrap/vec/cap") >= cap, "drop must record sample >= initial capacity");
}

#[test]
fn wrap_from_vecdeque_records_creation() {
    let mut r = reg();
    let before = count(&r, "wrap/vecdeque/creation");
    let inner: VecDeque<u32> = VecDeque::with_capacity(8);
    let _t = wrap_from(&mut r, inner, "wrap/vecdeque/creation", "tracking_tests.rs", 60, 14);
    let after = count(&r, "wrap/vecdeque/creation");
    assert_eq!(after - before, 1);
}

#[test]
fn wrap_from_vecdeque_preserves_capacity() {
    let mut r = reg();
    let inner: VecDeque<u8> = VecDeque::with_capacity(32);
    let cap = inner.capacity();
    let t = wrap_from(&mut r, inner, "wrap/vecdeque/cap", "tracking_tests.rs", 70, 13);
    assert!(t.inner.capacity() >= cap);
    let _ = t.into_inner(&mut r);
    assert!(peak(&r, "wrap/vecdeque/cap") >= cap);
}

#[test]
fn wrap_from_hashmap_records_creation() {
    let mut r = reg();
    let before = count(&r, "wrap/hashmap/creation");
    let inner: HashMap<u32, u32> = HashMap::with_capacity(16);
    let _t = wrap_from(&mut r, inner, "wrap/hashmap/creation", "tracking_tests.rs", 80, 14);
    let after = count(&r, "wrap/hashmap/creation");
    assert_eq!(after - before, 1);
}

#[test]
fn wrap_from_hashmap_preserves_capacity() {
    let mut r = reg();
    let inner: HashMap<u32, u32> = HashMap::with_capacity(32);
    let cap = inner.capacity();
    let t = wrap_from(&mut r, inner, "wrap/hashmap/cap", "tracking_tests.rs", 90, 13);
    assert!(t.inner.capacity() >= cap);
    let _ = t.into_inner(&mut r);
    assert!(peak(&r, "wrap/hashmap/cap") >= cap);
}

#[test]
fn wrap_from_hashset_records_creation() {
    let mut r = reg();
    let before = count(&r, "wrap/hashset/creation");
    let inner: HashSet<u32> = HashSet::with_capacity(8);
    let _t = wrap_from(&mut r, inner, "wrap/hashset/creation", "tracking_tests.rs", 100, 14);
    let after = count(&r, "wrap/hashset/creation");
    assert_eq!(after - before, 1);
}

#[test]
fn wrap_from_btreemap_records_creation() {
    let mut r = reg();
    let before = count(&r, "wrap/btreemap/creation");
    let mut inner: BTreeMap<u32, u32> = BTreeMap::new();
    inner.insert(1, 10);
    inner.insert(2, 20);
    let _t = wrap_from(&mut r, inner, "wrap/btreemap/creation", "tracking_tests.rs", 110, 14);
    let after = count(&r, "wrap/btreemap/creation");
    assert_eq!(after - before, 1);
}

#[test]
fn wrap_from_btreemap_preserves_elements() {
    let mut r = reg();
    let mut inner: BTreeMap<u32, u32> = BTreeMap::new();
    inner.insert(5, 50);
    inner.insert(6, 60);
    let t = wrap_from(&mut r, inner, "wrap/btreemap/elems", "tracking_tests.rs", 120, 13);
    assert_eq!(t.inner.len(), 2);
    assert_eq!(t.inner.get(&5), Some(&50));
    let _ = t.into_inner(&mut r);
    assert!(peak(&r, "wrap/btreemap/elems") >= 2);
}

#[test]
fn wrap_from_btreeset_records_creation() {
    let mut r = reg();
    let before = count(&r, "wrap/btreeset/creation");
    let inner: BTreeSet<u32> = [1u32, 2, 3].into_iter().collect();
    let _t = wrap_from(&mut r, inner, "wrap/btreeset/creation", "tracking_tests.rs", 130, 14);
    let after = count(&r, "wrap/btreeset/creation");
    assert_eq!(after - before, 1);
}

// ── named constructors ────────────────────────────────────────────────────

#[test]
fn tvec_records_peak_on_drop() {
    let mut r = reg();
    {
        let mut v = vec_with_capacity_named::<u32>(&mut r, 32, "on/peak_on_drop", "tracking_tests.rs", 140, 21);
        for i in 0..10u32 {
            v.inner.push(i);
        }
        let _ = v.into_inner(&mut r);
    }
    assert!(peak(&r, "on/peak_on_drop") >= 32, "peak must be at least the initial capacity");
}

#[test]
fn tvec_records_creation_count() {
    let mut r = reg();
    let before = count(&r, "on/creation_count");
    for _ in 0..5 {
        let _v = vec_with_capacity_named::<u8>(&mut r, 4, "on/creation_count", "tracking_tests.rs", 150, 17);
    }
    let after = count(&r, "on/creation_count");
    assert_eq!(after - before, 5, "creation_count must increment 5 times");
}

#[test]
fn peak_is_max_across_instances() {
    let mut r = reg();
    let before = peak(&r, "on/peak_is_max");
    {
        let v1 = vec_with_capacity_named::<u8>(&mut r, 10, "on/peak_is_max", "tracking_tests.rs", 160, 18);
        let v2 = vec_with_capacity_named::<u8>(&mut r, 50, "on/peak_is_max", "tracking_tests.rs", 161, 18);
        let v3 = vec_with_capacity_named::<u8>(&mut r, 20, "on/peak_is_max", "tracking_tests.rs", 162, 18);
        let _ = v3.into_inner(&mut r);
        let _ = v2.into_inner(&mut r);
        let _ = v1.into_inner(&mut r);
    }
    let after = peak(&r, "on/peak_is_max");
    assert!(after >= before.max(50), "peak must equal the largest capacity seen, got {after}");
}

#[test]
fn tvecdeque_records_peak_and_count() {
    let mut r = reg();
    let before = count(&r, "on/vecdeque_pc");
    {
        let mut v = vecdeque_with_capacity_named::<u32>(&mut r, 16, "on/vecdeque_pc", "tracking_tests.rs", 170, 21);
        v.inner.push_back(1u32);
        let _ = v.into_inner(&mut r);
    }
    assert!(peak(&r, "on/vecdeque_pc") >= 16);
    assert_eq!(count(&r, "on/vecdeque_pc") - before, 1);
}

#[test]
fn tbtreemap_records_peak_and_count() {
    let mut r = reg();
    let before = count(&r, "on/btreemap_pc");
    {
        let mut m = btreemap_new_named::<u32, u32>(&mut r, 0, "on/btreemap_pc", "tracking_tests.rs", 180, 21);
        m.inner.insert(1, 10);
        m.inner.insert(2, 20);
        m.inner.insert(3, 30);
        let _ = m.into_inner(&mut r);
    }
    assert!(peak(&r, "on/btreemap_pc") >= 3);
    assert_eq!(count(&r, "on/btreemap_pc") - before, 1);
}

#[test]
fn tbtreeset_records_peak_and_count() {
    let mut r = reg();
    let before = count(&r, "on/btreeset_pc");
    {
        let mut s = btreeset_new_named::<u32>(&mut r, 0, "on/btreeset_pc", "tracking_tests.rs", 190, 21);
        s.inner.insert(1);
        s.inner.insert(2);
        s.inner.insert(3);
        s.inner.insert(4);
        let _ = s.into_inner(&mut r);
    }
    assert!(peak(&r, "on/btreeset_pc") >= 4);
    assert_eq!(count(&r, "on/btreeset_pc") - before, 1);
}

#[test]
fn tfxmap_records_peak_and_count() {
    let mut r = reg();
    let before = count(&r, "on/fxmap_pc");
    {
        let mut m = hashmap_with_capacity_and_hasher_named::<u32, u32, RandomState>(
            &mut r,
            16,
            RandomState::new(),
            "on/fxmap_pc",
            "tracking_tests.rs",
            200,
            21,
        );
        m.inner.insert(1, 2);
        let _ = m.into_inner(&mut r);
    }
    assert!(peak(&r, "on/fxmap_pc") >= 16);
    assert_eq!(count(&r, "on/fxmap_pc") - before, 1);
}

#[test]
fn tfxset_records_peak_and_count() {
    let mut r = reg();
    let before = count(&r, "on/fxset_pc");
    {
        let mut s = hashset_with_capacity_and_hasher_named::<u32, RandomState>(
            &mut r,
            16,
            RandomState::new(),
            "on/fxset_pc",
            "tracking_tests.rs",
            210,
            21,
        );
        s.inner.insert(1);
        let _ = s.into_inner(&mut r);
    }
    assert!(peak(&r, "on/fxset_pc") >= 16);
    assert_eq!(count(&r, "on/fxset_pc") - before, 1);
}

#[test]
fn tvec_into_iter_records_peak_before_consume() {
    let mut r = reg();
    {
        let v = vec_with_capacity_named::<u32>(&mut r, 32, "on/vec_iter", "tracking_tests.rs", 220, 17);
        let _collected: Vec<u32> = v.into_inner(&mut r).into_iter().collect();
    }
    assert!(peak(&r, "on/vec_iter") >= 32, "peak must be recorded before inner is consumed by into_iter");
}

#[test]
fn tfxmap_into_iter_records_peak_before_consume() {
    let mut r = reg();
    {
        let mut m = hashmap_with_capacity_and_hasher_named::<u32, u32, RandomState>(
            &mut r,
            16,
            RandomState::new(),
            "on/fxmap_iter",
            "tracking_tests.rs",
            230,
            21,
        );
        m.inner.insert(1, 10);
        m.inner.insert(2, 20);
        let _collected: Vec<(u32, u32)> = m.into_inner(&mut r).into_iter().collect();
    }
    assert!(peak(&r, "on/fxmap_iter") >= 16, "peak must be recorded before inner is consumed by into_iter");
}

#[test]
fn untrack_records_sample_on_conversion() {
    let mut r = reg();
    let before = count(&r, "on/untrack");
    {
        let mut v = vec_with_capacity_named::<u32>(&mut r, 64, "on/untrack", "tracking_tests.rs", 240, 21);
        v.inner.push(1);
        let raw: Vec<u32> = v.into_inner(&mut r);
        assert_eq!(raw.len(), 1);
        assert!(raw.capacity() >= 64);
    }
    assert!(peak(&r, "on/untrack") >= 64, "untrack!() must record capacity sample before unwrapping inner");
    assert_eq!(count(&r, "on/untrack") - before, 1);
}

#[test]
fn tbtreemap_into_iter_records_peak_before_consume() {
    let mut r = reg();
    {
        let mut m = btreemap_new_named::<u32, u32>(&mut r, 0, "on/btreemap_iter", "tracking_tests.rs", 250, 21);
        m.inner.insert(1, 10);
        m.inner.insert(2, 20);
        m.inner.insert(3, 30);
        let _collected: Vec<(u32, u32)> = m.into_inner(&mut r).into_iter().collect();
    }
    assert!(peak(&r, "on/btreemap_iter") >= 3, "peak must be recorded (via len) before inner is consumed by into_iter");
}

// ── creation counts and observations ──────────────────────────────────────

#[test]
fn safe_only_binding_creation_count_equals_one() {
    let mut r = reg();
    let name = "creation_count_tests:safe_only";
    let before_cc = count(&r, name);
    let before_to = total_observed(&r, name);
    {
        let mut v = wrap_from(&mut r, Vec::<u32>::with_capacity(32), name, "tracking_tests.rs", 260, 21);
        v.inner.push(1u32);
        v.inner.push(2);
        let _len = v.inner.len();
        let _ref: &[u32] = &v.inner;
        let _ = v.into_inner(&mut r);
    }
    assert_eq!(count(&r, name) - before_cc, 1, "wrap_from must increment creation_count exactly once");
    assert_eq!(total_observed(&r, name) - before_to, 1, "safe-only binding: exactly one Drop sample");
}

#[test]
fn mixed_consumption_samples_in_reservoir() {
    let mut r = reg();
    let name = "creation_count_tests:reservoir_samples";
    let (ctor_file, ctor_line, ctor_col) = ("tracking_tests.rs", 270u32, 44u32);
    record_creation(&mut r, name, ctor_file, ctor_line, ctor_col);
    let before_to = total_observed(&r, name);
    let caps: &[usize] = &[8, 16, 32, 64];
    for &cap in caps {
        let v: Vec<u8> = Vec::with_capacity(cap);
        CapInspect::cap_inspect_at(&v, &mut r, name, ctor_file, ctor_line, ctor_col);
    }
    assert_eq!(
        total_observed(&r, name) - before_to,
        caps.len() as u64,
        "total_observed must equal the number of cap_inspect_at calls"
    );
    let snapshot_max = peak(&r, name);
    assert!(snapshot_max >= 64, "reservoir must contain the largest cap_inspect sample (64), got {snapshot_max}");
}

#[test]
fn wrap_from_construction_count_one() {
    let mut r = reg();
    let name = "creation_count_tests:wrap_from_count_one";
    let before = count(&r, name);
    let inner: Vec<u32> = Vec::with_capacity(64);
    let _t = wrap_from(&mut r, inner, name, "tracking_tests.rs", 280, 14);
    assert_eq!(count(&r, name) - before, 1, "wrap_from must increment creation_count exactly once");
}
