//! Named constructors and capacity observations for the collections of
//! other crates: `indexmap`'s `IndexMap` and `IndexSet`, `dashmap`'s
//! `DashMap`, `scc`'s `HashMap`, `HashSet` and `TreeIndex`, and `bytes`'
//! `BytesMut`.
//!
//! They behave as the standard ones of `ctor` do: a named constructor
//! counts one construction at its call-site; an owned one also records the
//! requested capacity, as nothing observes the collection afterwards; and
//! releasing a traced collection, or inspecting one, records its capacity
//! (`TreeIndex`, which has none, its length).  What a collection holds is
//! never read here.
use std::hash::{BuildHasher, Hash};

use bytes::BytesMut;
use dashmap::DashMap;
use indexmap::{IndexMap, IndexSet};
use scc::TreeIndex;
use vstd::prelude::*;

use crate::ctor::{counted, counted_with_initial, may_observe, site_of, CapInspect, IntoInner, Traced};
use crate::registry::{loc_view, record_creation, record_initial, record_sample, Registry};

verus! {

#[verifier::external_type_specification]
#[verifier::external_body]
#[verifier::reject_recursive_types(K)]
#[verifier::reject_recursive_types(V)]
#[verifier::reject_recursive_types(S)]
pub struct ExIndexMap<K, V, S>(IndexMap<K, V, S>);

#[verifier::external_type_specification]
#[verifier::external_body]
#[verifier::reject_recursive_types(T)]
#[verifier::reject_recursive_types(S)]
pub struct ExIndexSet<T, S>(IndexSet<T, S>);

#[verifier::external_type_specification]
#[verifier::external_body]
#[verifier::reject_recursive_types(K)]
#[verifier::reject_recursive_types(V)]
#[verifier::reject_recursive_types(S)]
pub struct ExDashMap<K, V, S>(DashMap<K, V, S>);

#[verifier::external_type_specification]
#[verifier::external_body]
#[verifier::reject_recursive_types(K)]
#[verifier::reject_recursive_types(V)]
#[verifier::reject_recursive_types(H)]
pub struct ExSccHashMap<K, V, H: BuildHasher>(scc::HashMap<K, V, H>);

#[verifier::external_type_specification]
#[verifier::external_body]
#[verifier::reject_recursive_types(K)]
#[verifier::reject_recursive_types(H)]
pub struct ExSccHashSet<K, H: BuildHasher>(scc::HashSet<K, H>);

#[verifier::external_type_specification]
#[verifier::external_body]
#[verifier::reject_recursive_types(K)]
#[verifier::reject_recursive_types(V)]
pub struct ExTreeIndex<K, V>(TreeIndex<K, V>);

#[verifier::external_type_specification]
#[verifier::external_body]
pub struct ExBytesMut(BytesMut);

// ───────────────────────────── outside calls ─────────────────────────────

/// `IndexMap::with_capacity_and_hasher`: an empty map with room for `n`
/// entries that uses `hasher`.
/// Nothing is said of the result: the type is opaque here, and the room
/// an allocator gave gets no name.
#[verifier::external_body]
fn indexmap_with_hasher<K, V, S>(n: usize, hasher: S) -> (r: IndexMap<K, V, S>) {
    IndexMap::with_capacity_and_hasher(n, hasher)
}

/// `IndexMap::capacity`.
/// Nothing is said of the result: the type is opaque here, and the room
/// an allocator gave gets no name.
#[verifier::external_body]
fn indexmap_capacity<K, V, S>(m: &IndexMap<K, V, S>) -> (r: usize) {
    m.capacity()
}

/// `IndexSet::with_capacity_and_hasher`: an empty set with room for `n`
/// elements that uses `hasher`.
/// Nothing is said of the result: the type is opaque here, and the room
/// an allocator gave gets no name.
#[verifier::external_body]
fn indexset_with_hasher<T, S>(n: usize, hasher: S) -> (r: IndexSet<T, S>) {
    IndexSet::with_capacity_and_hasher(n, hasher)
}

/// `IndexSet::capacity`.
/// Nothing is said of the result: the type is opaque here, and the room
/// an allocator gave gets no name.
#[verifier::external_body]
fn indexset_capacity<T, S>(s: &IndexSet<T, S>) -> (r: usize) {
    s.capacity()
}

/// `DashMap::with_capacity_and_hasher`: an empty concurrent map with room
/// for `n` entries that uses `hasher`.
/// Nothing is said of the result: the type is opaque here, and the room
/// an allocator gave gets no name.
#[verifier::external_body]
fn dashmap_with_hasher<K: Eq + Hash, V, S: BuildHasher + Clone>(n: usize, hasher: S) -> (r: DashMap<K, V, S>) {
    DashMap::with_capacity_and_hasher(n, hasher)
}

/// `DashMap::capacity`.
/// Nothing is said of the result: the type is opaque here, and the room
/// an allocator gave gets no name.
#[verifier::external_body]
fn dashmap_capacity<K: Eq + Hash, V, S: BuildHasher + Clone>(m: &DashMap<K, V, S>) -> (r: usize) {
    m.capacity()
}

/// `scc::HashMap::with_capacity_and_hasher`: an empty concurrent map with
/// room for `n` entries that uses `hasher`.
/// Nothing is said of the result: the type is opaque here, and the room
/// an allocator gave gets no name.
#[verifier::external_body]
fn scc_map_with_hasher<K, V, H: BuildHasher>(n: usize, hasher: H) -> (r: scc::HashMap<K, V, H>) {
    scc::HashMap::with_capacity_and_hasher(n, hasher)
}

/// `scc::HashMap::capacity`.
/// Nothing is said of the result: the type is opaque here, and the room
/// an allocator gave gets no name.
#[verifier::external_body]
fn scc_map_capacity<K: Eq + Hash, V, H: BuildHasher>(m: &scc::HashMap<K, V, H>) -> (r: usize) {
    m.capacity()
}

/// `scc::HashSet::with_capacity_and_hasher`: an empty concurrent set with
/// room for `n` elements that uses `hasher`.
/// Nothing is said of the result: the type is opaque here, and the room
/// an allocator gave gets no name.
#[verifier::external_body]
fn scc_set_with_hasher<K, H: BuildHasher>(n: usize, hasher: H) -> (r: scc::HashSet<K, H>) {
    scc::HashSet::with_capacity_and_hasher(n, hasher)
}

/// `scc::HashSet::capacity`.
/// Nothing is said of the result: the type is opaque here, and the room
/// an allocator gave gets no name.
#[verifier::external_body]
fn scc_set_capacity<K: Eq + Hash, H: BuildHasher>(s: &scc::HashSet<K, H>) -> (r: usize) {
    s.capacity()
}

/// `TreeIndex::new`: an empty concurrent ordered map.
/// Nothing is said of the result: the type is opaque here.
#[verifier::external_body]
fn tree_index_new<K, V>() -> (r: TreeIndex<K, V>) {
    TreeIndex::new()
}

/// `TreeIndex::len`: the number of entries (counted by a scan).
/// Nothing is said of the result: the type is opaque here.
#[verifier::external_body]
fn tree_index_len<K: 'static + Clone + Ord, V: 'static + Clone>(t: &TreeIndex<K, V>) -> (r: usize) {
    t.len()
}

/// `BytesMut::with_capacity`: an empty buffer with room for `n` bytes.
/// Nothing is said of the result: the type is opaque here, and the room
/// an allocator gave gets no name.
#[verifier::external_body]
fn bytesmut_with_capacity(n: usize) -> (r: BytesMut) {
    BytesMut::with_capacity(n)
}

/// `BytesMut::capacity`.
/// Nothing is said of the result: the type is opaque here, and the room
/// an allocator gave gets no name.
#[verifier::external_body]
fn bytesmut_capacity(b: &BytesMut) -> (r: usize) {
    b.capacity()
}

// ───────────────────────────── named constructors ─────────────────────────────

/// An insertion-ordered map with room for `cap` entries that uses
/// `hasher`, built at a named call-site.
pub fn indexmap_with_capacity_and_hasher_named<K, V, S>(
    reg: &mut Registry,
    cap: usize,
    hasher: S,
    name: &str,
    file: &str,
    line: u32,
    column: u32,
) -> (r: Traced<IndexMap<K, V, S>>)
    requires
        old(reg).wf(),
    ensures
        counted(old(reg), final(reg), name@, file@, line, column),
        loc_view(r.site) == (file@, line, column),
{
    record_creation(reg, name, file, line, column);
    Traced { inner: indexmap_with_hasher(cap, hasher), site: site_of(file, line, column) }
}

/// A bare insertion-ordered map with room for `cap` entries that uses
/// `hasher`: the construction and the requested capacity are recorded at
/// once.
pub fn indexmap_owned_with_capacity_and_hasher_named<K, V, S>(
    reg: &mut Registry,
    cap: usize,
    hasher: S,
    name: &str,
    file: &str,
    line: u32,
    column: u32,
) -> (r: IndexMap<K, V, S>)
    requires
        may_observe(old(reg), (file@, line, column)),
    ensures
        counted_with_initial(old(reg), final(reg), name@, file@, line, column, cap),
{
    record_initial(reg, name, file, line, column, cap);
    indexmap_with_hasher(cap, hasher)
}

/// An insertion-ordered set with room for `cap` elements that uses
/// `hasher`, built at a named call-site.
pub fn indexset_with_capacity_and_hasher_named<T, S>(
    reg: &mut Registry,
    cap: usize,
    hasher: S,
    name: &str,
    file: &str,
    line: u32,
    column: u32,
) -> (r: Traced<IndexSet<T, S>>)
    requires
        old(reg).wf(),
    ensures
        counted(old(reg), final(reg), name@, file@, line, column),
        loc_view(r.site) == (file@, line, column),
{
    record_creation(reg, name, file, line, column);
    Traced { inner: indexset_with_hasher(cap, hasher), site: site_of(file, line, column) }
}

/// A bare insertion-ordered set, recorded as
/// `indexmap_owned_with_capacity_and_hasher_named` records.
pub fn indexset_owned_with_capacity_and_hasher_named<T, S>(
    reg: &mut Registry,
    cap: usize,
    hasher: S,
    name: &str,
    file: &str,
    line: u32,
    column: u32,
) -> (r: IndexSet<T, S>)
    requires
        may_observe(old(reg), (file@, line, column)),
    ensures
        counted_with_initial(old(reg), final(reg), name@, file@, line, column, cap),
{
    record_initial(reg, name, file, line, column, cap);
    indexset_with_hasher(cap, hasher)
}

/// A concurrent map with room for `cap` entries that uses `hasher`, built
/// at a named call-site.
pub fn dashmap_with_capacity_and_hasher_named<K: Eq + Hash, V, S: BuildHasher + Clone>(
    reg: &mut Registry,
    cap: usize,
    hasher: S,
    name: &str,
    file: &str,
    line: u32,
    column: u32,
) -> (r: Traced<DashMap<K, V, S>>)
    requires
        old(reg).wf(),
    ensures
        counted(old(reg), final(reg), name@, file@, line, column),
        loc_view(r.site) == (file@, line, column),
{
    record_creation(reg, name, file, line, column);
    Traced { inner: dashmap_with_hasher(cap, hasher), site: site_of(file, line, column) }
}

/// A bare concurrent map, recorded as
/// `indexmap_owned_with_capacity_and_hasher_named` records.
pub fn dashmap_owned_with_capacity_and_hasher_named<K: Eq + Hash, V, S: BuildHasher + Clone>(
    reg: &mut Registry,
    cap: usize,
    hasher: S,
    name: &str,
    file: &str,
    line: u32,
    column: u32,
) -> (r: DashMap<K, V, S>)
    requires
        may_observe(old(reg), (file@, line, column)),
    ensures
        counted_with_initial(old(reg), final(reg), name@, file@, line, column, cap),
{
    record_initial(reg, name, file, line, column, cap);
    dashmap_with_hasher(cap, hasher)
}

/// A lock-free map with room for `cap` entries that uses `hasher`, built
/// at a named call-site.
pub fn sccmap_with_capacity_and_hasher_named<K, V, H: BuildHasher>(
    reg: &mut Registry,
    cap: usize,
    hasher: H,
    name: &str,
    file: &str,
    line: u32,
    column: u32,
) -> (r: Traced<scc::HashMap<K, V, H>>)
    requires
        old(reg).wf(),
    ensures
        counted(old(reg), final(reg), name@, file@, line, column),
        loc_view(r.site) == (file@, line, column),
{
    record_creation(reg, name, file, line, column);
    Traced { inner: scc_map_with_hasher(cap, hasher), site: site_of(file, line, column) }
}

/// A bare lock-free map, recorded as
/// `indexmap_owned_with_capacity_and_hasher_named` records.
pub fn sccmap_owned_with_capacity_and_hasher_named<K, V, H: BuildHasher>(
    reg: &mut Registry,
    cap: usize,
    hasher: H,
    name: &str,
    file: &str,
    line: u32,
    column: u32,
) -> (r: scc::HashMap<K, V, H>)
    requires
        may_observe(old(reg), (file@, line, column)),
    ensures
        counted_with_initial(old(reg), final(reg), name@, file@, line, column, cap),
{
    record_initial(reg, name, file, line, column, cap);
    scc_map_with_hasher(cap, hasher)
}

/// A lock-free set with room for `cap` elements that uses `hasher`, built
/// at a named call-site.
pub fn sccset_with_capacity_and_hasher_named<K, H: BuildHasher>(
    reg: &mut Registry,
    cap: usize,
    hasher: H,
    name: &str,
    file: &str,
    line: u32,
    column: u32,
) -> (r: Traced<scc::HashSet<K, H>>)
    requires
        old(reg).wf(),
    ensures
        counted(old(reg), final(reg), name@, file@, line, column),
        loc_view(r.site) == (file@, line, column),
{
    record_creation(reg, name, file, line, column);
    Traced { inner: scc_set_with_hasher(cap, hasher), site: site_of(file, line, column) }
}

/// A bare lock-free set, recorded as
/// `indexmap_owned_with_capacity_and_hasher_named` records.
pub fn sccset_owned_with_capacity_and_hasher_named<K, H: BuildHasher>(
    reg: &mut Registry,
    cap: usize,
    hasher: H,
    name: &str,
    file: &str,
    line: u32,
    column: u32,
) -> (r: scc::HashSet<K, H>)
    requires
        may_observe(old(reg), (file@, line, column)),
    ensures
        counted_with_initial(old(reg), final(reg), name@, file@, line, column, cap),
{
    record_initial(reg, name, file, line, column, cap);
    scc_set_with_hasher(cap, hasher)
}

/// An empty lock-free ordered map built at a named call-site; the capacity
/// hint is ignored, as the tree has none.
pub fn scctree_new_named<K, V>(
    reg: &mut Registry,
    cap: usize,
    name: &str,
    file: &str,
    line: u32,
    column: u32,
) -> (r: Traced<TreeIndex<K, V>>)
    requires
        old(reg).wf(),
    ensures
        counted(old(reg), final(reg), name@, file@, line, column),
        loc_view(r.site) == (file@, line, column),
{
    record_creation(reg, name, file, line, column);
    Traced { inner: tree_index_new(), site: site_of(file, line, column) }
}

/// A byte buffer with room for `cap` bytes, built at a named call-site.
pub fn bytesmut_with_capacity_named(
    reg: &mut Registry,
    cap: usize,
    name: &str,
    file: &str,
    line: u32,
    column: u32,
) -> (r: Traced<BytesMut>)
    requires
        old(reg).wf(),
    ensures
        counted(old(reg), final(reg), name@, file@, line, column),
        loc_view(r.site) == (file@, line, column),
{
    record_creation(reg, name, file, line, column);
    Traced { inner: bytesmut_with_capacity(cap), site: site_of(file, line, column) }
}

/// A bare byte buffer, recorded as
/// `indexmap_owned_with_capacity_and_hasher_named` records.
pub fn bytesmut_owned_with_capacity_named(
    reg: &mut Registry,
    cap: usize,
    name: &str,
    file: &str,
    line: u32,
    column: u32,
) -> (r: BytesMut)
    requires
        may_observe(old(reg), (file@, line, column)),
    ensures
        counted_with_initial(old(reg), final(reg), name@, file@, line, column, cap),
{
    record_initial(reg, name, file, line, column, cap);
    bytesmut_with_capacity(cap)
}

// ───────────────────────────── observations ─────────────────────────────

impl<K, V, S> CapInspect for IndexMap<K, V, S> {
    fn cap_inspect_at(&self, reg: &mut Registry, name: &str, file: &str, line: u32, column: u32) {
        let c = indexmap_capacity(self);
        record_sample(reg, file, line, column, c);
    }
}

impl<T, S> CapInspect for IndexSet<T, S> {
    fn cap_inspect_at(&self, reg: &mut Registry, name: &str, file: &str, line: u32, column: u32) {
        let c = indexset_capacity(self);
        record_sample(reg, file, line, column, c);
    }
}

impl<K: Eq + Hash, V, S: BuildHasher + Clone> CapInspect for DashMap<K, V, S> {
    fn cap_inspect_at(&self, reg: &mut Registry, name: &str, file: &str, line: u32, column: u32) {
        let c = dashmap_capacity(self);
        record_sample(reg, file, line, column, c);
    }
}

impl<K: Eq + Hash, V, H: BuildHasher> CapInspect for scc::HashMap<K, V, H> {
    fn cap_inspect_at(&self, reg: &mut Registry, name: &str, file: &str, line: u32, column: u32) {
        let c = scc_map_capacity(self);
        record_sample(reg, file, line, column, c);
    }
}

impl<K: Eq + Hash, H: BuildHasher> CapInspect for scc::HashSet<K, H> {
    fn cap_inspect_at(&self, reg: &mut Registry, name: &str, file: &str, line: u32, column: u32) {
        let c = scc_set_capacity(self);
        record_sample(reg, file, line, column, c);
    }
}

impl<K: 'static + Clone + Ord, V: 'static + Clone> CapInspect for TreeIndex<K, V> {
    fn cap_inspect_at(&self, reg: &mut Registry, name: &str, file: &str, line: u32, column: u32) {
        let c = tree_index_len(self);
        record_sample(reg, file, line, column, c);
    }
}

impl CapInspect for BytesMut {
    fn cap_inspect_at(&self, reg: &mut Registry, name: &str, file: &str, line: u32, column: u32) {
        let c = bytesmut_capacity(self);
        record_sample(reg, file, line, column, c);
    }
}

// ───────────────────────────── bare conversions ─────────────────────────────

impl<K, V, S> IntoInner for IndexMap<K, V, S> {
    type Inner = IndexMap<K, V, S>;

    fn into_inner(self) -> (r: IndexMap<K, V, S>)
        ensures
            r == self,
    {
        self
    }
}

impl<T, S> IntoInner for IndexSet<T, S> {
    type Inner = IndexSet<T, S>;

    fn into_inner(self) -> (r: IndexSet<T, S>)
        ensures
            r == self,
    {
        self
    }
}

impl<K, V, S> IntoInner for DashMap<K, V, S> {
    type Inner = DashMap<K, V, S>;

    fn into_inner(self) -> (r: DashMap<K, V, S>)
        ensures
            r == self,
    {
        self
    }
}

impl<K, V, H: BuildHasher> IntoInner for scc::HashMap<K, V, H> {
    type Inner = scc::HashMap<K, V, H>;

    fn into_inner(self) -> (r: scc::HashMap<K, V, H>)
        ensures
            r == self,
    {
        self
    }
}

impl<K, H: BuildHasher> IntoInner for scc::HashSet<K, H> {
    type Inner = scc::HashSet<K, H>;

    fn into_inner(self) -> (r: scc::HashSet<K, H>)
        ensures
            r == self,
    {
        self
    }
}

impl<K, V> IntoInner for TreeIndex<K, V> {
    type Inner = TreeIndex<K, V>;

    fn into_inner(self) -> (r: TreeIndex<K, V>)
        ensures
            r == self,
    {
        self
    }
}

impl IntoInner for BytesMut {
    type Inner = BytesMut;

    fn into_inner(self) -> (r: BytesMut)
        ensures
            r == self,
    {
        self
    }
}

} // verus!
