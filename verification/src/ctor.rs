//! Named constructors for the standard collections, and the capacity
//! observations that feed the registry.
//!
//! A named constructor counts one construction at its call-site and hands
//! back the empty collection together with that site.  When the collection
//! is released (`Traced::into_inner`), or whenever it escapes at a
//! consumption point (`CapInspect::cap_inspect_at`), its capacity is
//! recorded as one observation of the site; ordered collections, which have
//! no capacity, report their length instead.
use std::collections::{BTreeMap, BTreeSet, HashMap, HashSet, VecDeque};
use std::collections::hash_map::RandomState;
use vstd::prelude::*;
use crate::registry::{
    Loc, LocKey, Registry, created_at, loc_view, record_creation, record_initial, record_sample, sampled,
};

verus! {

/// A collection built by a named constructor, with its call-site.
pub struct Traced<C> {
    pub inner: C,
    pub site: Loc,
}

/// The location `(file, line, column)`.
pub fn site_of(file: &str, line: u32, column: u32) -> (r: Loc)
    ensures
        loc_view(r) == (file@, line, column),
{
    (file.to_string(), line, column)
}

/// `Vec::capacity`: the number of elements the vector can hold without
/// reallocating, which the documentation guarantees is at least its length.
#[verifier::external_body]
fn vec_capacity<T>(v: &Vec<T>) -> (r: usize)
    ensures
        r >= v@.len(),
{
    v.capacity()
}

/// `VecDeque::capacity`: the number of elements the deque can hold without
/// reallocating, so at least the number it holds.  What the allocator gave
/// beyond that is left unsaid.
#[verifier::external_body]
fn deque_capacity<T>(v: &VecDeque<T>) -> (r: usize)
    ensures
        r >= v@.len(),
{
    v.capacity()
}

/// `HashMap::capacity`: a lower bound on the number of entries the map can
/// hold without reallocating, so at least the number it holds.  What the
/// allocator gave beyond that is left unsaid.
#[verifier::external_body]
fn map_capacity<K, V, S>(m: &HashMap<K, V, S>) -> (r: usize)
    ensures
        r >= m@.len(),
{
    m.capacity()
}

/// `HashSet::capacity`: a lower bound on the number of elements the set can
/// hold without reallocating, so at least the number it holds.  What the
/// allocator gave beyond that is left unsaid.
#[verifier::external_body]
fn set_capacity<K, S>(m: &HashSet<K, S>) -> (r: usize)
    ensures
        r >= m@.len(),
{
    m.capacity()
}

/// `HashMap::with_capacity_and_hasher`: an empty map that uses `hasher`.
/// Its room (at least `cap`) is left unsaid: nothing here names the
/// capacity an allocator gave.
#[verifier::external_body]
fn map_with_hasher<K, V, S>(cap: usize, hasher: S) -> (r: HashMap<K, V, S>)
    ensures
        r@.dom() == Set::<K>::empty(),
{
    HashMap::with_capacity_and_hasher(cap, hasher)
}

/// `HashSet::with_capacity_and_hasher`: an empty set that uses `hasher`.
/// Its room (at least `cap`) is left unsaid: nothing here names the
/// capacity an allocator gave.
#[verifier::external_body]
fn set_with_hasher<K, S>(cap: usize, hasher: S) -> (r: HashSet<K, S>)
    ensures
        r@ == Set::<K>::empty(),
{
    HashSet::with_capacity_and_hasher(cap, hasher)
}

/// `String::with_capacity`: an empty string with room for `cap` bytes; the
/// documentation states that the string is empty.
#[verifier::external_body]
fn string_with_capacity(cap: usize) -> (r: String)
    ensures
        r@ == Seq::<char>::empty(),
{
    String::with_capacity(cap)
}

/// `String::capacity`: the room of the string in bytes, so at least its
/// length in bytes, which is at least its number of characters.  What the
/// allocator gave beyond that is left unsaid.
#[verifier::external_body]
fn string_capacity(s: &String) -> (r: usize)
    ensures
        r >= s@.len(),
{
    s.capacity()
}

/// What a named constructor does to the registry: one construction counted
/// at `(file, line, column)`.
pub open spec fn counted(
    before: &Registry,
    after: &Registry,
    name: Seq<char>,
    file: Seq<char>,
    line: u32,
    column: u32,
) -> bool {
    &&& after.wf()
    &&& after.cap_spec() == before.cap_spec()
    &&& after@ == before@.insert(
        (file, line, column),
        created_at(before@, (file, line, column), name, before.cap_spec()),
    )
}

/// What one observation does to the registry: a recorded site gains the
/// observation `c` (some value), an unknown site is left alone.
pub open spec fn observed(before: &Registry, after: &Registry, k: LocKey) -> bool {
    &&& after.wf()
    &&& after.cap_spec() == before.cap_spec()
    &&& after.order() == before.order()
    &&& before@.contains_key(k) ==> exists|c: usize, j: u64|
        j <= before@[k].samples.seen && after@ == before@.insert(k, #[trigger] sampled(before@[k], c, j))
    &&& !before@.contains_key(k) ==> after@ == before@
}

/// Whether an observation of site `k` is allowed: the site's count of
/// observations has room to grow.
pub open spec fn may_observe(reg: &Registry, k: LocKey) -> bool {
    reg.wf() && (reg@.contains_key(k) ==> reg@[k].samples.seen < u64::MAX)
}

/// A vector with room for `cap` elements, built at a named call-site.
pub fn vec_with_capacity_named<T>(
    reg: &mut Registry,
    cap: usize,
    name: &str,
    file: &str,
    line: u32,
    column: u32,
) -> (r: Traced<Vec<T>>)
    requires
        old(reg).wf(),
    ensures
        counted(old(reg), final(reg), name@, file@, line, column),
        r.inner@ == Seq::<T>::empty(),
        loc_view(r.site) == (file@, line, column),
{
    record_creation(reg, name, file, line, column);
    Traced { inner: Vec::with_capacity(cap), site: site_of(file, line, column) }
}

/// A deque with room for `cap` elements, built at a named call-site.
pub fn vecdeque_with_capacity_named<T>(
    reg: &mut Registry,
    cap: usize,
    name: &str,
    file: &str,
    line: u32,
    column: u32,
) -> (r: Traced<VecDeque<T>>)
    requires
        old(reg).wf(),
    ensures
        counted(old(reg), final(reg), name@, file@, line, column),
        r.inner@ == Seq::<T>::empty(),
        loc_view(r.site) == (file@, line, column),
{
    record_creation(reg, name, file, line, column);
    Traced { inner: VecDeque::with_capacity(cap), site: site_of(file, line, column) }
}

/// An empty ordered map built at a named call-site; the capacity hint is
/// ignored, as ordered maps have none.
pub fn btreemap_new_named<K, V>(
    reg: &mut Registry,
    cap: usize,
    name: &str,
    file: &str,
    line: u32,
    column: u32,
) -> (r: Traced<BTreeMap<K, V>>)
    requires
        old(reg).wf(),
    ensures
        counted(old(reg), final(reg), name@, file@, line, column),
        r.inner@ == Map::<K, V>::empty(),
        loc_view(r.site) == (file@, line, column),
{
    record_creation(reg, name, file, line, column);
    Traced { inner: BTreeMap::new(), site: site_of(file, line, column) }
}

/// An empty ordered set built at a named call-site; the capacity hint is
/// ignored.
pub fn btreeset_new_named<T>(
    reg: &mut Registry,
    cap: usize,
    name: &str,
    file: &str,
    line: u32,
    column: u32,
) -> (r: Traced<BTreeSet<T>>)
    requires
        old(reg).wf(),
    ensures
        counted(old(reg), final(reg), name@, file@, line, column),
        r.inner@ == Set::<T>::empty(),
        loc_view(r.site) == (file@, line, column),
{
    record_creation(reg, name, file, line, column);
    Traced { inner: BTreeSet::new(), site: site_of(file, line, column) }
}

/// An empty hash map with room for `cap` entries and the default hasher,
/// built at a named call-site.
pub fn hashmap_with_capacity_named<K, V>(
    reg: &mut Registry,
    cap: usize,
    name: &str,
    file: &str,
    line: u32,
    column: u32,
) -> (r: Traced<HashMap<K, V, RandomState>>)
    requires
        old(reg).wf(),
    ensures
        counted(old(reg), final(reg), name@, file@, line, column),
        r.inner@ == Map::<K, V>::empty(),
        loc_view(r.site) == (file@, line, column),
{
    record_creation(reg, name, file, line, column);
    Traced { inner: HashMap::with_capacity(cap), site: site_of(file, line, column) }
}

/// An empty hash map with room for `cap` entries that uses `hasher`, built
/// at a named call-site.
pub fn hashmap_with_capacity_and_hasher_named<K, V, S>(
    reg: &mut Registry,
    cap: usize,
    hasher: S,
    name: &str,
    file: &str,
    line: u32,
    column: u32,
) -> (r: Traced<HashMap<K, V, S>>)
    requires
        old(reg).wf(),
    ensures
        counted(old(reg), final(reg), name@, file@, line, column),
        r.inner@ == Map::<K, V>::empty(),
        loc_view(r.site) == (file@, line, column),
{
    record_creation(reg, name, file, line, column);
    let inner: HashMap<K, V, S> = map_with_hasher(cap, hasher);
    assert(inner@ =~= Map::<K, V>::empty());
    Traced { inner, site: site_of(file, line, column) }
}

/// An empty hash set with room for `cap` elements and the default hasher,
/// built at a named call-site.
pub fn hashset_with_capacity_named<T>(
    reg: &mut Registry,
    cap: usize,
    name: &str,
    file: &str,
    line: u32,
    column: u32,
) -> (r: Traced<HashSet<T, RandomState>>)
    requires
        old(reg).wf(),
    ensures
        counted(old(reg), final(reg), name@, file@, line, column),
        r.inner@ == Set::<T>::empty(),
        loc_view(r.site) == (file@, line, column),
{
    record_creation(reg, name, file, line, column);
    Traced { inner: HashSet::with_capacity(cap), site: site_of(file, line, column) }
}

/// An empty hash set with room for `cap` elements that uses `hasher`, built
/// at a named call-site.
pub fn hashset_with_capacity_and_hasher_named<T, S>(
    reg: &mut Registry,
    cap: usize,
    hasher: S,
    name: &str,
    file: &str,
    line: u32,
    column: u32,
) -> (r: Traced<HashSet<T, S>>)
    requires
        old(reg).wf(),
    ensures
        counted(old(reg), final(reg), name@, file@, line, column),
        r.inner@ == Set::<T>::empty(),
        loc_view(r.site) == (file@, line, column),
{
    record_creation(reg, name, file, line, column);
    Traced { inner: set_with_hasher(cap, hasher), site: site_of(file, line, column) }
}

/// An empty string with room for `cap` bytes, built at a named call-site.
pub fn string_with_capacity_named(
    reg: &mut Registry,
    cap: usize,
    name: &str,
    file: &str,
    line: u32,
    column: u32,
) -> (r: Traced<String>)
    requires
        old(reg).wf(),
    ensures
        counted(old(reg), final(reg), name@, file@, line, column),
        r.inner@ == Seq::<char>::empty(),
        loc_view(r.site) == (file@, line, column),
{
    record_creation(reg, name, file, line, column);
    Traced { inner: string_with_capacity(cap), site: site_of(file, line, column) }
}

/// Wrap a collection built elsewhere, counting one construction at the
/// named call-site; the collection is kept as it is.
pub fn wrap_from<C>(reg: &mut Registry, inner: C, name: &str, file: &str, line: u32, column: u32) -> (r: Traced<C>)
    requires
        old(reg).wf(),
    ensures
        counted(old(reg), final(reg), name@, file@, line, column),
        r.inner == inner,
        loc_view(r.site) == (file@, line, column),
{
    record_creation(reg, name, file, line, column);
    Traced { inner, site: site_of(file, line, column) }
}

/// What a bare named constructor does to the registry: one construction
/// counted, and the requested capacity `cap` as the site's only
/// observation (drawn slot `j` when its reservoir is full).
pub open spec fn counted_with_initial(
    before: &Registry,
    after: &Registry,
    name: Seq<char>,
    file: Seq<char>,
    line: u32,
    column: u32,
    cap: usize,
) -> bool {
    &&& after.wf()
    &&& after.cap_spec() == before.cap_spec()
    &&& exists|j: u64|
        after@ == before@.insert(
            (file, line, column),
            #[trigger] sampled(created_at(before@, (file, line, column), name, before.cap_spec()), cap, j),
        )
}

/// A bare vector with room for `cap` elements: the construction and the
/// requested capacity are recorded at once, as nothing observes the vector
/// afterwards.
pub fn vec_owned_with_capacity_named<T>(
    reg: &mut Registry,
    cap: usize,
    name: &str,
    file: &str,
    line: u32,
    column: u32,
) -> (r: Vec<T>)
    requires
        may_observe(old(reg), (file@, line, column)),
    ensures
        counted_with_initial(old(reg), final(reg), name@, file@, line, column, cap),
        r@ == Seq::<T>::empty(),
{
    record_initial(reg, name, file, line, column, cap);
    Vec::with_capacity(cap)
}

/// A bare deque with room for `cap` elements, recorded as
/// `vec_owned_with_capacity_named` records.
pub fn vecdeque_owned_with_capacity_named<T>(
    reg: &mut Registry,
    cap: usize,
    name: &str,
    file: &str,
    line: u32,
    column: u32,
) -> (r: VecDeque<T>)
    requires
        may_observe(old(reg), (file@, line, column)),
    ensures
        counted_with_initial(old(reg), final(reg), name@, file@, line, column, cap),
        r@ == Seq::<T>::empty(),
{
    record_initial(reg, name, file, line, column, cap);
    VecDeque::with_capacity(cap)
}

/// A bare hash map with room for `cap` entries and the default hasher,
/// recorded as `vec_owned_with_capacity_named` records.
pub fn hashmap_owned_with_capacity_named<K, V>(
    reg: &mut Registry,
    cap: usize,
    name: &str,
    file: &str,
    line: u32,
    column: u32,
) -> (r: HashMap<K, V, RandomState>)
    requires
        may_observe(old(reg), (file@, line, column)),
    ensures
        counted_with_initial(old(reg), final(reg), name@, file@, line, column, cap),
        r@ == Map::<K, V>::empty(),
{
    record_initial(reg, name, file, line, column, cap);
    HashMap::with_capacity(cap)
}

/// A bare hash map with room for `cap` entries that uses `hasher`,
/// recorded as `vec_owned_with_capacity_named` records.
pub fn hashmap_owned_with_capacity_and_hasher_named<K, V, S>(
    reg: &mut Registry,
    cap: usize,
    hasher: S,
    name: &str,
    file: &str,
    line: u32,
    column: u32,
) -> (r: HashMap<K, V, S>)
    requires
        may_observe(old(reg), (file@, line, column)),
    ensures
        counted_with_initial(old(reg), final(reg), name@, file@, line, column, cap),
        r@ == Map::<K, V>::empty(),
{
    record_initial(reg, name, file, line, column, cap);
    let m: HashMap<K, V, S> = map_with_hasher(cap, hasher);
    assert(m@ =~= Map::<K, V>::empty());
    m
}

/// A bare hash set with room for `cap` elements and the default hasher,
/// recorded as `vec_owned_with_capacity_named` records.
pub fn hashset_owned_with_capacity_named<T>(
    reg: &mut Registry,
    cap: usize,
    name: &str,
    file: &str,
    line: u32,
    column: u32,
) -> (r: HashSet<T, RandomState>)
    requires
        may_observe(old(reg), (file@, line, column)),
    ensures
        counted_with_initial(old(reg), final(reg), name@, file@, line, column, cap),
        r@ == Set::<T>::empty(),
{
    record_initial(reg, name, file, line, column, cap);
    HashSet::with_capacity(cap)
}

/// A bare hash set with room for `cap` elements that uses `hasher`,
/// recorded as `vec_owned_with_capacity_named` records.
pub fn hashset_owned_with_capacity_and_hasher_named<T, S>(
    reg: &mut Registry,
    cap: usize,
    hasher: S,
    name: &str,
    file: &str,
    line: u32,
    column: u32,
) -> (r: HashSet<T, S>)
    requires
        may_observe(old(reg), (file@, line, column)),
    ensures
        counted_with_initial(old(reg), final(reg), name@, file@, line, column, cap),
        r@ == Set::<T>::empty(),
{
    record_initial(reg, name, file, line, column, cap);
    set_with_hasher(cap, hasher)
}

/// Recording the current capacity (or, for ordered collections, length) of
/// a collection as one observation of a call-site.
pub trait CapInspect {
    /// Record this collection's capacity or length as an observation of the
    /// site `(file, line, column)`.  The site's construction count is left
    /// alone; an observation for a site never constructed is discarded.
    fn cap_inspect_at(&self, reg: &mut Registry, name: &str, file: &str, line: u32, column: u32)
        requires
            may_observe(old(reg), (file@, line, column)),
        ensures
            observed(old(reg), final(reg), (file@, line, column)),
    ;
}

impl<T> CapInspect for Vec<T> {
    /// The observation is the capacity, which is at least the length.
    fn cap_inspect_at(&self, reg: &mut Registry, name: &str, file: &str, line: u32, column: u32)
        ensures
            old(reg)@.contains_key((file@, line, column)) ==> exists|c: usize, j: u64|
                c >= self@.len() && final(reg)@ == old(reg)@.insert(
                    (file@, line, column),
                    #[trigger] sampled(old(reg)@[(file@, line, column)], c, j),
                ),
    {
        let c = vec_capacity(self);
        record_sample(reg, file, line, column, c);
    }
}

impl<T> CapInspect for VecDeque<T> {
    /// The observation is the capacity, which is at least the length.
    fn cap_inspect_at(&self, reg: &mut Registry, name: &str, file: &str, line: u32, column: u32)
        ensures
            old(reg)@.contains_key((file@, line, column)) ==> exists|c: usize, j: u64|
                c >= self@.len() && final(reg)@ == old(reg)@.insert(
                    (file@, line, column),
                    #[trigger] sampled(old(reg)@[(file@, line, column)], c, j),
                ),
    {
        let c = deque_capacity(self);
        record_sample(reg, file, line, column, c);
    }
}

impl<K, V, S> CapInspect for HashMap<K, V, S> {
    /// The observation is the capacity, which is at least the length.
    fn cap_inspect_at(&self, reg: &mut Registry, name: &str, file: &str, line: u32, column: u32)
        ensures
            old(reg)@.contains_key((file@, line, column)) ==> exists|c: usize, j: u64|
                c >= self@.len() && final(reg)@ == old(reg)@.insert(
                    (file@, line, column),
                    #[trigger] sampled(old(reg)@[(file@, line, column)], c, j),
                ),
    {
        let c = map_capacity(self);
        record_sample(reg, file, line, column, c);
    }
}

impl<K, S> CapInspect for HashSet<K, S> {
    /// The observation is the capacity, which is at least the length.
    fn cap_inspect_at(&self, reg: &mut Registry, name: &str, file: &str, line: u32, column: u32)
        ensures
            old(reg)@.contains_key((file@, line, column)) ==> exists|c: usize, j: u64|
                c >= self@.len() && final(reg)@ == old(reg)@.insert(
                    (file@, line, column),
                    #[trigger] sampled(old(reg)@[(file@, line, column)], c, j),
                ),
    {
        let c = set_capacity(self);
        record_sample(reg, file, line, column, c);
    }
}

impl<K, V> CapInspect for BTreeMap<K, V> {
    /// The observation is the length.
    fn cap_inspect_at(&self, reg: &mut Registry, name: &str, file: &str, line: u32, column: u32)
        ensures
            old(reg)@.contains_key((file@, line, column)) ==> exists|j: u64|
                final(reg)@ == old(reg)@.insert(
                    (file@, line, column),
                    #[trigger] sampled(old(reg)@[(file@, line, column)], self.len(), j),
                ),
    {
        let c = self.len();
        record_sample(reg, file, line, column, c);
    }
}

impl<K> CapInspect for BTreeSet<K> {
    /// The observation is the length.
    fn cap_inspect_at(&self, reg: &mut Registry, name: &str, file: &str, line: u32, column: u32)
        ensures
            old(reg)@.contains_key((file@, line, column)) ==> exists|j: u64|
                final(reg)@ == old(reg)@.insert(
                    (file@, line, column),
                    #[trigger] sampled(old(reg)@[(file@, line, column)], self.len(), j),
                ),
    {
        let c = self.len();
        record_sample(reg, file, line, column, c);
    }
}

impl CapInspect for String {
    fn cap_inspect_at(&self, reg: &mut Registry, name: &str, file: &str, line: u32, column: u32) {
        let c = string_capacity(self);
        record_sample(reg, file, line, column, c);
    }
}

impl<C: CapInspect> Traced<C> {
    /// Release the collection: its final capacity (or length) is recorded
    /// as an observation of its call-site, and the bare collection is
    /// handed back.
    pub fn into_inner(self, reg: &mut Registry) -> (r: C)
        requires
            may_observe(old(reg), loc_view(self.site)),
        ensures
            observed(old(reg), final(reg), loc_view(self.site)),
            r == self.inner,
    {
        let Traced { inner, site } = self;
        inner.cap_inspect_at(reg, "", site.0.as_str(), site.1, site.2);
        inner
    }
}

/// Conversion into the bare collection.  A bare collection is already
/// bare: the conversion is the identity.
pub trait IntoInner: Sized {
    type Inner;

    fn into_inner(self) -> Self::Inner;
}

impl<T> IntoInner for Vec<T> {
    type Inner = Vec<T>;

    fn into_inner(self) -> (r: Vec<T>)
        ensures
            r == self,
    {
        self
    }
}

impl<T> IntoInner for VecDeque<T> {
    type Inner = VecDeque<T>;

    fn into_inner(self) -> (r: VecDeque<T>)
        ensures
            r == self,
    {
        self
    }
}

impl<K, V> IntoInner for BTreeMap<K, V> {
    type Inner = BTreeMap<K, V>;

    fn into_inner(self) -> (r: BTreeMap<K, V>)
        ensures
            r == self,
    {
        self
    }
}

impl<T> IntoInner for BTreeSet<T> {
    type Inner = BTreeSet<T>;

    fn into_inner(self) -> (r: BTreeSet<T>)
        ensures
            r == self,
    {
        self
    }
}

impl<K, V, S> IntoInner for HashMap<K, V, S> {
    type Inner = HashMap<K, V, S>;

    fn into_inner(self) -> (r: HashMap<K, V, S>)
        ensures
            r == self,
    {
        self
    }
}

impl<T, S> IntoInner for HashSet<T, S> {
    type Inner = HashSet<T, S>;

    fn into_inner(self) -> (r: HashSet<T, S>)
        ensures
            r == self,
    {
        self
    }
}

impl IntoInner for String {
    type Inner = String;

    fn into_inner(self) -> (r: String)
        ensures
            r == self,
    {
        self
    }
}

} // verus!
