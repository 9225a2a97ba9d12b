use std::collections::hash_map::RandomState;
use std::collections::HashMap;
use std::hash::{BuildHasher, Hasher};
use std::sync::atomic::{AtomicU64, Ordering};
use std::sync::Arc;

use bytes::BytesMut;
use dashmap::DashMap;
use indexmap::{IndexMap, IndexSet};

use captrack::collections::{
    bytesmut_owned_with_capacity_named, bytesmut_with_capacity_named, dashmap_owned_with_capacity_and_hasher_named,
    dashmap_with_capacity_and_hasher_named, indexmap_owned_with_capacity_and_hasher_named,
    indexmap_with_capacity_and_hasher_named, indexset_owned_with_capacity_and_hasher_named,
    indexset_with_capacity_and_hasher_named, sccmap_owned_with_capacity_and_hasher_named,
    sccmap_with_capacity_and_hasher_named, sccset_owned_with_capacity_and_hasher_named,
    sccset_with_capacity_and_hasher_named, scctree_new_named,
};
use captrack::ctor::{hashmap_with_capacity_and_hasher_named, wrap_from, CapInspect};
use captrack::registry::Registry;

fn reg() -> Registry {
    Registry::new(4096)
}

/// Constructions counted under `name`, over all its sites.
fn count(r: &Registry, name: &str) -> u64 {
    r.entries().iter().filter(|e| e.name == name).map(|e| e.creation_count).sum()
}

/// The largest observation recorded under `name`, over all its sites.
fn peak(r: &Registry, name: &str) -> usize {
    r.entries().iter().filter(|e| e.name == name).flat_map(|e| e.samples.clone()).max().unwrap_or(0)
}

// ── constructors ──────────────────────────────────────────────────────────

#[test]
fn tmap_expands_to_indexmap() {
    let mut r = reg();
    let mut m = indexmap_with_capacity_and_hasher_named(&mut r, 16, RandomState::new(), "test/map", "o.rs", 1, 1);
    m.inner.insert(1u32, 2u32);
    assert_eq!(m.inner.capacity(), 16);
    assert_eq!(m.inner.len(), 1);
}

#[test]
fn tset_expands_to_indexset() {
    let mut r = reg();
    let mut s = indexset_with_capacity_and_hasher_named(&mut r, 8, RandomState::new(), "test/set", "o.rs", 2, 1);
    s.inner.insert(1u32);
    assert_eq!(s.inner.capacity(), 8);
    assert_eq!(s.inner.len(), 1);
}

#[test]
fn tdashmap_expands_to_dashmap() {
    let mut r = reg();
    let d = dashmap_with_capacity_and_hasher_named(&mut r, 16, RandomState::new(), "test/dashmap", "o.rs", 3, 1);
    d.inner.insert(1u32, 2u32);
    assert_eq!(d.inner.len(), 1);
}

#[test]
fn tsccmap_expands_to_scc_hashmap() {
    let mut r = reg();
    let m = sccmap_with_capacity_and_hasher_named(&mut r, 16, RandomState::new(), "test/sccmap", "o.rs", 4, 1);
    let _ = m.inner.insert(1u32, 2u32);
    let len = m.inner.len();
    assert_eq!(len, 1);
}

#[test]
fn tsccset_expands_to_scc_hashset() {
    let mut r = reg();
    let s = sccset_with_capacity_and_hasher_named(&mut r, 8, RandomState::new(), "test/sccset", "o.rs", 5, 1);
    let _ = s.inner.insert(1u32);
    let len = s.inner.len();
    assert_eq!(len, 1);
}

#[test]
fn tscctree_expands_to_scc_treeindex() {
    let mut r = reg();
    let t = scctree_new_named(&mut r, 0, "test/scctree", "o.rs", 6, 1);
    let _ = t.inner.insert(1u32, 2u32);
    let len = t.inner.len();
    assert_eq!(len, 1);
}

#[test]
fn tbytesmut_expands_with_capacity() {
    let mut r = reg();
    let mut b = bytesmut_with_capacity_named(&mut r, 64, "test/bytesmut", "o.rs", 7, 1);
    assert!(b.inner.capacity() >= 64);
    b.inner.extend_from_slice(b"hello");
    assert_eq!(&b.inner[..], b"hello");
}

#[test]
fn tbytesmut_owned_returns_plain_bytesmut() {
    let mut r = reg();
    let b: BytesMut = bytesmut_owned_with_capacity_named(&mut r, 64, "test/owned/bytesmut", "o.rs", 8, 1);
    assert!(b.capacity() >= 64);
}

#[test]
fn tmap_owned_returns_plain_indexmap() {
    let mut r = reg();
    let m: IndexMap<u32, u32, RandomState> =
        indexmap_owned_with_capacity_and_hasher_named(&mut r, 16, RandomState::new(), "test/owned/imap", "o.rs", 9, 1);
    assert_eq!(m.capacity(), 16);
}

#[test]
fn tset_owned_returns_plain_indexset() {
    let mut r = reg();
    let s: IndexSet<u32, RandomState> =
        indexset_owned_with_capacity_and_hasher_named(&mut r, 8, RandomState::new(), "test/owned/iset", "o.rs", 10, 1);
    assert_eq!(s.capacity(), 8);
}

#[test]
fn tdashmap_owned_returns_plain_dashmap() {
    let mut r = reg();
    let d: DashMap<u32, u32, RandomState> =
        dashmap_owned_with_capacity_and_hasher_named(&mut r, 16, RandomState::new(), "test/owned/dashmap", "o.rs", 11, 1);
    d.insert(1u32, 2u32);
    assert_eq!(d.len(), 1);
}

#[test]
fn tsccmap_owned_returns_plain_scc_hashmap() {
    let mut r = reg();
    let m: scc::HashMap<u32, u32, RandomState> =
        sccmap_owned_with_capacity_and_hasher_named(&mut r, 16, RandomState::new(), "test/owned/sccmap", "o.rs", 12, 1);
    let _ = m.insert(1u32, 2u32);
    let len = m.len();
    assert_eq!(len, 1);
}

#[test]
fn tsccset_owned_returns_plain_scc_hashset() {
    let mut r = reg();
    let s: scc::HashSet<u32, RandomState> =
        sccset_owned_with_capacity_and_hasher_named(&mut r, 8, RandomState::new(), "test/owned/sccset", "o.rs", 13, 1);
    let _ = s.insert(1u32);
    let len = s.len();
    assert_eq!(len, 1);
}

#[test]
fn owned_outside_constructors_record_the_requested_capacity() {
    let mut r = reg();
    let _m: IndexMap<u32, u32, RandomState> =
        indexmap_owned_with_capacity_and_hasher_named(&mut r, 48, RandomState::new(), "owned/imap", "p.rs", 1, 1);
    let _b: BytesMut = bytesmut_owned_with_capacity_named(&mut r, 96, "owned/bytes", "p.rs", 2, 1);
    let st = r.get("p.rs", 1, 1).unwrap();
    assert_eq!(st.creation_count, 1);
    assert_eq!(st.samples.snapshot(), vec![48]);
    assert_eq!(r.get("p.rs", 2, 1).unwrap().samples.snapshot(), vec![96]);
}

// ── released and inspected collections ────────────────────────────────────

#[test]
fn tbytesmut_records_peak_and_count() {
    let mut r = reg();
    let before = count(&r, "on/bytesmut_pc");
    {
        let b = bytesmut_with_capacity_named(&mut r, 64, "on/bytesmut_pc", "q.rs", 1, 1);
        let _ = b.into_inner(&mut r);
    }
    assert!(peak(&r, "on/bytesmut_pc") >= 64);
    assert_eq!(count(&r, "on/bytesmut_pc") - before, 1);
}

#[test]
fn tmap_records_peak_and_count() {
    let mut r = reg();
    let before = count(&r, "on/map_pc");
    {
        let mut m = indexmap_with_capacity_and_hasher_named::<u32, u32, RandomState>(
            &mut r,
            8,
            RandomState::new(),
            "on/map_pc",
            "q.rs",
            2,
            1,
        );
        m.inner.insert(1, 2);
        let _ = m.into_inner(&mut r);
    }
    assert!(peak(&r, "on/map_pc") >= 8);
    assert_eq!(count(&r, "on/map_pc") - before, 1);
}

#[test]
fn tset_records_peak_and_count() {
    let mut r = reg();
    let before = count(&r, "on/set_pc");
    {
        let mut s = indexset_with_capacity_and_hasher_named::<u32, RandomState>(&mut r, 8, RandomState::new(), "on/set_pc", "q.rs", 3, 1);
        s.inner.insert(42);
        let _ = s.into_inner(&mut r);
    }
    assert!(peak(&r, "on/set_pc") >= 8);
    assert_eq!(count(&r, "on/set_pc") - before, 1);
}

#[test]
fn tdashmap_records_peak_and_count() {
    let mut r = reg();
    let before = count(&r, "on/dashmap_pc");
    {
        let m = dashmap_with_capacity_and_hasher_named::<u32, u32, RandomState>(
            &mut r,
            0,
            RandomState::new(),
            "on/dashmap_pc",
            "q.rs",
            4,
            1,
        );
        m.inner.insert(1, 10);
        m.inner.insert(2, 20);
        m.inner.insert(3, 30);
        let _ = m.into_inner(&mut r);
    }
    assert!(peak(&r, "on/dashmap_pc") >= 3);
    assert_eq!(count(&r, "on/dashmap_pc") - before, 1);
}

#[test]
fn tsccmap_records_peak_and_count() {
    let mut r = reg();
    let before = count(&r, "on/sccmap_pc");
    {
        let m = sccmap_with_capacity_and_hasher_named::<u32, u32, RandomState>(
            &mut r,
            0,
            RandomState::new(),
            "on/sccmap_pc",
            "q.rs",
            5,
            1,
        );
        let _ = m.inner.insert(1, 10);
        let _ = m.inner.insert(2, 20);
        let _ = m.inner.insert(3, 30);
        let _ = m.into_inner(&mut r);
    }
    assert!(peak(&r, "on/sccmap_pc") >= 3);
    assert_eq!(count(&r, "on/sccmap_pc") - before, 1);
}

#[test]
fn tsccset_records_peak_and_count() {
    let mut r = reg();
    let before = count(&r, "on/sccset_pc");
    {
        let s = sccset_with_capacity_and_hasher_named::<u32, RandomState>(&mut r, 0, RandomState::new(), "on/sccset_pc", "q.rs", 6, 1);
        let _ = s.inner.insert(1);
        let _ = s.inner.insert(2);
        let _ = s.inner.insert(3);
        let _ = s.into_inner(&mut r);
    }
    assert!(peak(&r, "on/sccset_pc") >= 3);
    assert_eq!(count(&r, "on/sccset_pc") - before, 1);
}

#[test]
fn tscctree_records_peak_and_count() {
    let mut r = reg();
    let before = count(&r, "on/scctree_pc");
    {
        let t = scctree_new_named::<u32, u32>(&mut r, 0, "on/scctree_pc", "q.rs", 7, 1);
        let _ = t.inner.insert(1, 10);
        let _ = t.inner.insert(2, 20);
        let _ = t.inner.insert(3, 30);
        let _ = t.into_inner(&mut r);
    }
    assert!(peak(&r, "on/scctree_pc") >= 3);
    assert_eq!(count(&r, "on/scctree_pc") - before, 1);
}

#[test]
fn tmap_into_iter_records_peak_before_consume() {
    let mut r = reg();
    {
        let mut m = indexmap_with_capacity_and_hasher_named::<u32, u32, RandomState>(
            &mut r,
            16,
            RandomState::new(),
            "on/map_iter",
            "q.rs",
            8,
            1,
        );
        m.inner.insert(1, 10);
        m.inner.insert(2, 20);
        let _collected: Vec<(u32, u32)> = m.into_inner(&mut r).into_iter().collect();
    }
    assert!(peak(&r, "on/map_iter") >= 16, "peak must be recorded before inner is consumed by into_iter");
}

#[test]
fn outside_collections_are_inspected_at_registered_sites() {
    let mut r = reg();
    let b = bytesmut_with_capacity_named(&mut r, 32, "inspect/bytes", "s.rs", 1, 1);
    b.inner.cap_inspect_at(&mut r, "inspect/bytes", "s.rs", 1, 1);
    let t = scctree_new_named::<u32, u32>(&mut r, 0, "inspect/tree", "s.rs", 2, 1);
    let _ = t.inner.insert(5, 6);
    t.inner.cap_inspect_at(&mut r, "inspect/tree", "s.rs", 2, 1);
    assert!(r.get("s.rs", 1, 1).unwrap().samples.snapshot()[0] >= 32);
    assert_eq!(r.get("s.rs", 2, 1).unwrap().samples.snapshot(), vec![1]);
    assert_eq!(r.get("s.rs", 2, 1).unwrap().creation_count, 1);
}

// ── wrap_from ─────────────────────────────────────────────────────────────

#[test]
fn wrap_from_bytesmut_records_creation() {
    let mut r = reg();
    let before = count(&r, "wrap/bytesmut/creation");
    let inner = BytesMut::with_capacity(128);
    let _t = wrap_from(&mut r, inner, "wrap/bytesmut/creation", "w.rs", 1, 1);
    let after = count(&r, "wrap/bytesmut/creation");
    assert_eq!(after - before, 1);
}

#[test]
fn wrap_from_bytesmut_preserves_capacity() {
    let mut r = reg();
    let inner = BytesMut::with_capacity(256);
    let cap = inner.capacity();
    let t = wrap_from(&mut r, inner, "wrap/bytesmut/cap", "w.rs", 2, 1);
    assert!(t.inner.capacity() >= cap);
    let _ = t.into_inner(&mut r);
    assert!(peak(&r, "wrap/bytesmut/cap") >= cap);
}

#[test]
fn wrap_from_indexmap_records_creation() {
    let mut r = reg();
    let before = count(&r, "wrap/indexmap/creation");
    let inner: IndexMap<u32, u32> = IndexMap::with_capacity(8);
    let _t = wrap_from(&mut r, inner, "wrap/indexmap/creation", "w.rs", 3, 1);
    let after = count(&r, "wrap/indexmap/creation");
    assert_eq!(after - before, 1);
}

#[test]
fn wrap_from_indexset_records_creation() {
    let mut r = reg();
    let before = count(&r, "wrap/indexset/creation");
    let inner: IndexSet<u32> = IndexSet::with_capacity(4);
    let _t = wrap_from(&mut r, inner, "wrap/indexset/creation", "w.rs", 4, 1);
    let after = count(&r, "wrap/indexset/creation");
    assert_eq!(after - before, 1);
}

#[test]
fn wrap_from_dashmap_records_creation() {
    let mut r = reg();
    let before = count(&r, "wrap/dashmap/creation");
    let inner: DashMap<u32, u32> = DashMap::new();
    let _t = wrap_from(&mut r, inner, "wrap/dashmap/creation", "w.rs", 5, 1);
    let after = count(&r, "wrap/dashmap/creation");
    assert_eq!(after - before, 1);
}

#[test]
fn wrap_from_scc_hashmap_records_creation() {
    let mut r = reg();
    let before = count(&r, "wrap/scc_hashmap/creation");
    let inner: scc::HashMap<u32, u32> = scc::HashMap::new();
    let _t = wrap_from(&mut r, inner, "wrap/scc_hashmap/creation", "w.rs", 6, 1);
    let after = count(&r, "wrap/scc_hashmap/creation");
    assert_eq!(after - before, 1);
}

#[test]
fn wrap_from_scc_hashset_records_creation() {
    let mut r = reg();
    let before = count(&r, "wrap/scc_hashset/creation");
    let inner: scc::HashSet<u32> = scc::HashSet::new();
    let _t = wrap_from(&mut r, inner, "wrap/scc_hashset/creation", "w.rs", 7, 1);
    let after = count(&r, "wrap/scc_hashset/creation");
    assert_eq!(after - before, 1);
}

#[test]
fn wrap_from_scc_treeindex_records_creation() {
    let mut r = reg();
    let before = count(&r, "wrap/scc_treeindex/creation");
    let inner: scc::TreeIndex<u32, u32> = scc::TreeIndex::new();
    let _t = wrap_from(&mut r, inner, "wrap/scc_treeindex/creation", "w.rs", 8, 1);
    let after = count(&r, "wrap/scc_treeindex/creation");
    assert_eq!(after - before, 1);
}

// ── hashers ───────────────────────────────────────────────────────────────

#[test]
fn fxmap_uses_fxhasher_when_feature_active() {
    let mut r = reg();
    let mut m = hashmap_with_capacity_and_hasher_named(&mut r, 8, fxhash::FxBuildHasher::default(), "fxhash_test/map", "h.rs", 1, 1);
    m.inner.insert(1u32, "hello");
    assert_eq!(m.inner.get(&1), Some(&"hello"));
    assert!(m.inner.capacity() >= 8);
    let _: &HashMap<u32, &str, fxhash::FxBuildHasher> = &m.inner;
}

struct CountingHasher {
    inner: fxhash::FxHasher,
}

impl Hasher for CountingHasher {
    fn finish(&self) -> u64 {
        self.inner.finish()
    }
    fn write(&mut self, bytes: &[u8]) {
        self.inner.write(bytes);
    }
}

#[derive(Clone)]
struct CountingBuildHasher {
    count: Arc<AtomicU64>,
}

impl CountingBuildHasher {
    fn new() -> Self {
        Self { count: Arc::new(AtomicU64::new(0)) }
    }

    fn build_count(&self) -> u64 {
        self.count.load(Ordering::Relaxed)
    }
}

impl BuildHasher for CountingBuildHasher {
    type Hasher = CountingHasher;

    fn build_hasher(&self) -> CountingHasher {
        self.count.fetch_add(1, Ordering::Relaxed);
        CountingHasher { inner: fxhash::FxHasher::default() }
    }
}

#[test]
fn semicolon_arm_uses_provided_hasher() {
    let mut r = reg();
    let builder = CountingBuildHasher::new();
    let mut m = indexmap_with_capacity_and_hasher_named(&mut r, 4, builder.clone(), "override_test/map", "h.rs", 2, 1);
    m.inner.insert(1u32, "hello");
    m.inner.insert(2u32, "world");
    assert!(builder.build_count() > 0, "custom hasher must be used (build_count = {})", builder.build_count());
    assert_eq!(m.inner.get(&1), Some(&"hello"));
    assert_eq!(m.inner.get(&2), Some(&"world"));
}

#[test]
fn default_arm_does_not_use_counting_hasher() {
    let mut r = reg();
    let builder = CountingBuildHasher::new();
    let mut _m = indexmap_with_capacity_and_hasher_named(&mut r, 4, RandomState::new(), "override_test/default", "h.rs", 3, 1);
    _m.inner.insert(0u32, "placeholder");
    assert_eq!(builder.build_count(), 0, "default arm must not call counting hasher");
}
