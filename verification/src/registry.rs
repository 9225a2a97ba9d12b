//! The capacity-telemetry registry: per call-site statistics keyed by the
//! site's `(file, line, column)`.
//!
//! Each site counts the instances constructed there and keeps a bounded
//! reservoir of capacity observations.  The registry is an ordinary value:
//! a process that wants one global registry holds it behind its own lock.
use vstd::prelude::*;
use crate::merge::{DumpEntry, DumpEntryView, dump_views, by_max_desc};
use crate::reservoir::{Reservoir, ReservoirView, reservoir_inv, after_record};
use crate::text::str_eq;

verus! {

/// A call-site location: `(file, line, column)`.
pub type Loc = (String, u32, u32);

/// The mathematical value of a location.
pub type LocKey = (Seq<char>, u32, u32);

/// Per-location statistics accumulated over the life of a registry.
pub struct CapStats {
    /// The name given at the first construction; never changed.
    pub name: String,
    /// Instances constructed at this site (wrapping at `u64::MAX`).
    pub creation_count: u64,
    /// Bounded reservoir of capacity observations.
    pub samples: Reservoir,
}

/// The mathematical value of `CapStats`.
pub struct CapStatsView {
    pub name: Seq<char>,
    pub creation_count: u64,
    pub samples: ReservoirView,
}

impl View for CapStats {
    type V = CapStatsView;

    open spec fn view(&self) -> CapStatsView {
        CapStatsView {
            name: self.name@,
            creation_count: self.creation_count,
            samples: self.samples@,
        }
    }
}

/// The statistics of a site seen for the first time.
pub open spec fn fresh_stats(name: Seq<char>, cap: usize) -> CapStatsView {
    CapStatsView {
        name,
        creation_count: 0,
        samples: ReservoirView {
            samples: Seq::empty(),
            seen: 0,
            cap,
            offered: Seq::empty(),
        },
    }
}

/// The statistics after one more construction.
pub open spec fn created(v: CapStatsView) -> CapStatsView {
    CapStatsView { creation_count: (if v.creation_count == u64::MAX {
        0
    } else {
        (v.creation_count + 1) as u64
    }), ..v }
}

/// The statistics of site `k` of `m` after one more construction there; a
/// site not in `m` starts from `fresh_stats(name, cap)`.
pub open spec fn created_at(
    m: Map<LocKey, CapStatsView>,
    k: LocKey,
    name: Seq<char>,
    cap: usize,
) -> CapStatsView {
    created(
        if m.contains_key(k) {
            m[k]
        } else {
            fresh_stats(name, cap)
        },
    )
}

/// The statistics after a capacity observation `value`, with `j` the slot
/// drawn for a full reservoir.
pub open spec fn sampled(v: CapStatsView, value: usize, j: u64) -> CapStatsView {
    CapStatsView {
        samples: ReservoirView {
            samples: after_record(v.samples, value, j),
            seen: (v.samples.seen + 1) as u64,
            cap: v.samples.cap,
            offered: v.samples.offered.push(value),
        },
        ..v
    }
}

/// Whether a site's statistics are sound for a registry with bound `cap`.
pub open spec fn stats_ok(v: CapStatsView, cap: usize) -> bool {
    reservoir_inv(v.samples) && v.samples.cap == cap
}

impl CapStats {
    /// Statistics for a new site: no construction counted, no sample.
    pub fn new(name: &str, cap: usize) -> (r: CapStats)
        ensures
            r@ == fresh_stats(name@, cap),
            r.samples.wf(),
    {
        CapStats { name: name.to_string(), creation_count: 0, samples: Reservoir::new(cap) }
    }
}

/// The map denoted by a sequence of key/value pairs; a later pair wins.
pub open spec fn map_of(s: Seq<(LocKey, CapStatsView)>) -> Map<LocKey, CapStatsView>
    decreases s.len(),
{
    if s.len() == 0 {
        Map::empty()
    } else {
        map_of(s.drop_last()).insert(s.last().0, s.last().1)
    }
}

/// Whether no key occurs twice.
pub open spec fn keys_distinct(s: Seq<(LocKey, CapStatsView)>) -> bool {
    forall|i: int, j: int| 0 <= i < j < s.len() ==> #[trigger] s[i].0 != #[trigger] s[j].0
}

/// The keys in order.
pub open spec fn keys_of(s: Seq<(LocKey, CapStatsView)>) -> Seq<LocKey> {
    Seq::new(s.len(), |i: int| s[i].0)
}

proof fn lemma_map_of_dom(s: Seq<(LocKey, CapStatsView)>, k: LocKey)
    ensures
        map_of(s).contains_key(k) <==> exists|i: int| 0 <= i < s.len() && s[i].0 == k,
    decreases s.len(),
{
    if s.len() > 0 {
        lemma_map_of_dom(s.drop_last(), k);
        if map_of(s.drop_last()).contains_key(k) {
            let i = choose|i: int| 0 <= i < s.drop_last().len() && s.drop_last()[i].0 == k;
            assert(s[i].0 == k);
        }
        if exists|i: int| 0 <= i < s.len() && s[i].0 == k {
            let i = choose|i: int| 0 <= i < s.len() && s[i].0 == k;
            if i < s.len() - 1 {
                assert(s.drop_last()[i].0 == k);
            }
        }
    }
}

proof fn lemma_map_of_at(s: Seq<(LocKey, CapStatsView)>, i: int)
    requires
        keys_distinct(s),
        0 <= i < s.len(),
    ensures
        map_of(s).contains_key(s[i].0),
        map_of(s)[s[i].0] == s[i].1,
    decreases s.len(),
{
    if i < s.len() - 1 {
        let d = s.drop_last();
        lemma_drop_last_distinct(s);
        lemma_map_of_at(d, i);
        assert(d[i] == s[i]);
        assert(s[i].0 != s[s.len() - 1].0);
    }
}

proof fn lemma_drop_last_distinct(s: Seq<(LocKey, CapStatsView)>)
    requires
        keys_distinct(s),
        s.len() > 0,
    ensures
        keys_distinct(s.drop_last()),
{
    let d = s.drop_last();
    assert forall|a: int, b: int| 0 <= a < b < d.len() implies #[trigger] d[a].0
        != #[trigger] d[b].0 by {
        assert(d[a] == s[a] && d[b] == s[b]);
    }
}

proof fn lemma_map_of_update(s: Seq<(LocKey, CapStatsView)>, i: int, v: CapStatsView)
    requires
        keys_distinct(s),
        0 <= i < s.len(),
    ensures
        map_of(s.update(i, (s[i].0, v))) == map_of(s).insert(s[i].0, v),
    decreases s.len(),
{
    let u = s.update(i, (s[i].0, v));
    let d = s.drop_last();
    if i == s.len() - 1 {
        assert(u.drop_last() =~= d);
        assert(u.last() == (s[i].0, v));
        assert(map_of(s) == map_of(d).insert(s.last().0, s.last().1));
        assert(map_of(u) == map_of(d).insert(s[i].0, v));
        assert(map_of(d).insert(s[i].0, s[i].1).insert(s[i].0, v) =~= map_of(d).insert(s[i].0, v));
    } else {
        assert(u.drop_last() =~= d.update(i, (d[i].0, v)));
        lemma_drop_last_distinct(s);
        lemma_map_of_update(d, i, v);
        assert(u.last() == s.last());
        assert(s[i].0 != s[s.len() - 1].0);
        assert(map_of(u) == map_of(d).insert(s[i].0, v).insert(s.last().0, s.last().1));
        assert(map_of(s) == map_of(d).insert(s.last().0, s.last().1));
        assert(map_of(u) =~= map_of(s).insert(s[i].0, v));
    }
}

/// Process-wide capacity statistics, one entry per call-site.
pub struct Registry {
    entries: Vec<(Loc, CapStats)>,
    sample_cap: usize,
}

/// The key of a location.
pub open spec fn loc_view(l: Loc) -> LocKey {
    (l.0@, l.1, l.2)
}

impl Registry {
    /// The entries as key/value pairs, in the order the sites were first
    /// recorded.
    pub closed spec fn pairs(&self) -> Seq<(LocKey, CapStatsView)> {
        Seq::new(self.entries@.len(), |i: int| (loc_view(self.entries@[i].0), self.entries@[i].1@))
    }

    /// The reservoir bound given to every new site.
    pub closed spec fn cap_spec(&self) -> usize {
        self.sample_cap
    }

    /// The registry's invariant: one entry per site, each with a sound
    /// reservoir bounded by `cap_spec()`.
    pub open spec fn wf(&self) -> bool {
        &&& keys_distinct(self.pairs())
        &&& forall|i: int| 0 <= i < self.pairs().len() ==> stats_ok(#[trigger] self.pairs()[i].1, self.cap_spec())
    }

    /// The sites in the order they were first recorded.
    pub open spec fn order(&self) -> Seq<LocKey> {
        keys_of(self.pairs())
    }
}

impl View for Registry {
    type V = Map<LocKey, CapStatsView>;

    open spec fn view(&self) -> Map<LocKey, CapStatsView> {
        map_of(self.pairs())
    }
}

/// Every site of a sound registry has sound statistics, and its sites are
/// exactly those listed by `order()`.
pub proof fn lemma_registry_sites(reg: &Registry, k: LocKey)
    requires
        reg.wf(),
    ensures
        reg@.contains_key(k) <==> reg.order().contains(k),
        reg@.contains_key(k) ==> stats_ok(reg@[k], reg.cap_spec()),
{
    let s = reg.pairs();
    lemma_map_of_dom(s, k);
    if reg@.contains_key(k) {
        let i = choose|i: int| 0 <= i < s.len() && s[i].0 == k;
        lemma_map_of_at(s, i);
        assert(reg.order()[i] == k);
    }
    if reg.order().contains(k) {
        let i = choose|i: int| 0 <= i < reg.order().len() && reg.order()[i] == k;
        assert(s[i].0 == k);
    }
}

impl Registry {
    /// An empty registry whose sites keep at most `sample_cap` samples.
    pub fn new(sample_cap: usize) -> (r: Registry)
        ensures
            r.wf(),
            r@ == Map::<LocKey, CapStatsView>::empty(),
            r.order() == Seq::<LocKey>::empty(),
            r.cap_spec() == sample_cap,
    {
        let r = Registry { entries: Vec::new(), sample_cap };
        assert(r.pairs() =~= Seq::<(LocKey, CapStatsView)>::empty());
        assert(r.order() =~= Seq::<LocKey>::empty());
        r
    }

    /// The position of the site `(file, line, column)`, if it is recorded.
    fn find(&self, file: &str, line: u32, column: u32) -> (r: Option<usize>)
        requires
            self.wf(),
        ensures
            match r {
                Some(i) => i < self.pairs().len() && self.pairs()[i as int].0 == (file@, line, column),
                None => !self@.contains_key((file@, line, column)),
            },
    {
        let ghost k: LocKey = (file@, line, column);
        let mut i: usize = 0;
        while i < self.entries.len()
            invariant
                i <= self.entries@.len() == self.pairs().len(),
                k == (file@, line, column),
                forall|t: int| 0 <= t < i ==> #[trigger] self.pairs()[t].0 != k,
            decreases self.entries.len() - i,
        {
            let e = &self.entries[i];
            assert(self.pairs()[i as int].0 == loc_view(e.0));
            let same_file = str_eq(e.0.0.as_str(), file);
            if e.0.1 == line && e.0.2 == column && same_file {
                return Some(i);
            }
            proof {
                let pk = self.pairs()[i as int].0;
                assert(pk == loc_view(e.0));
                assert(pk.0 == e.0.0@ && pk.1 == e.0.1 && pk.2 == e.0.2);
                if e.0.1 == line && e.0.2 == column {
                    assert(!same_file);
                    assert(pk.0 != k.0);
                }
                assert(pk != k);
            }
            i = i + 1;
        }
        proof {
            lemma_map_of_dom(self.pairs(), k);
        }
        None
    }

    /// The statistics of the site `(file, line, column)`, if it is recorded.
    pub fn get(&self, file: &str, line: u32, column: u32) -> (r: Option<&CapStats>)
        requires
            self.wf(),
        ensures
            match r {
                Some(st) => self@.contains_key((file@, line, column)) && st@ == self@[(
                    file@,
                    line,
                    column,
                )],
                None => !self@.contains_key((file@, line, column)),
            },
    {
        match self.find(file, line, column) {
            Some(i) => {
                proof {
                    lemma_map_of_at(self.pairs(), i as int);
                }
                Some(&self.entries[i].1)
            },
            None => None,
        }
    }

    /// The number of recorded sites.
    pub fn len(&self) -> (r: usize)
        ensures
            r == self.order().len(),
    {
        self.entries.len()
    }

    /// The bound on each site's samples.
    pub fn sample_cap(&self) -> (r: usize)
        ensures
            r == self.cap_spec(),
    {
        self.sample_cap
    }

    /// The sites as dump entries, in the order they were first recorded.
    pub fn entries(&self) -> (r: Vec<DumpEntry>)
        requires
            self.wf(),
        ensures
            dump_views(r@) == registry_entries(self),
    {
        let mut out: Vec<DumpEntry> = Vec::new();
        let mut i: usize = 0;
        while i < self.entries.len()
            invariant
                i <= self.entries@.len() == self.pairs().len(),
                self.wf(),
                dump_views(out@) == registry_entries(self).take(i as int),
            decreases self.entries.len() - i,
        {
            let e = &self.entries[i];
            proof {
                lemma_map_of_at(self.pairs(), i as int);
            }
            let d = entry_from(&e.0, &e.1);
            let ghost old = out@;
            out.push(d);
            assert(dump_views(out@) =~= dump_views(old).push(d@));
            i = i + 1;
            assert(dump_views(out@) =~= registry_entries(self).take(i as int));
        }
        assert(registry_entries(self).take(i as int) =~= registry_entries(self));
        out
    }
}

/// The number of values offered at each site, in the order the sites were
/// first recorded.
pub open spec fn registry_observed(reg: &Registry) -> Seq<u64> {
    Seq::new(reg.order().len(), |i: int| reg@[reg.order()[i]].samples.seen)
}

/// Each site has been offered at least as many values as its reservoir
/// keeps.
pub proof fn lemma_observed_covers_samples(reg: &Registry, i: int)
    requires
        reg.wf(),
        0 <= i < reg.order().len(),
    ensures
        registry_observed(reg)[i] >= registry_entries(reg)[i].samples.len(),
{
    lemma_map_of_at(reg.pairs(), i);
    assert(stats_ok(reg.pairs()[i].1, reg.cap_spec()));
}

impl Registry {
    /// The number of values offered at each site, in the order the sites
    /// were first recorded.
    pub fn observed_counts(&self) -> (r: Vec<u64>)
        requires
            self.wf(),
        ensures
            r@ == registry_observed(self),
    {
        let mut out: Vec<u64> = Vec::new();
        let mut i: usize = 0;
        while i < self.entries.len()
            invariant
                i <= self.entries@.len() == self.pairs().len(),
                self.wf(),
                out@ == registry_observed(self).take(i as int),
            decreases self.entries.len() - i,
        {
            proof {
                lemma_map_of_at(self.pairs(), i as int);
            }
            out.push(self.entries[i].1.samples.total_observed());
            i = i + 1;
            assert(out@ =~= registry_observed(self).take(i as int));
        }
        assert(registry_observed(self).take(i as int) =~= registry_observed(self));
        out
    }
}

/// A site as written to a dump.
pub open spec fn entry_view(k: LocKey, v: CapStatsView) -> DumpEntryView {
    DumpEntryView {
        name: v.name,
        file: k.0,
        line: k.1,
        column: k.2,
        creation_count: v.creation_count,
        samples: v.samples.samples,
    }
}

/// The sites of a registry as dump entries, in the order they were first
/// recorded.
pub open spec fn registry_entries(reg: &Registry) -> Seq<DumpEntryView> {
    Seq::new(reg.order().len(), |i: int| entry_view(reg.order()[i], reg@[reg.order()[i]]))
}

/// The dump entry of one site: its location, name, construction count and
/// the samples its reservoir currently keeps.
pub fn entry_from(loc: &Loc, stats: &CapStats) -> (r: DumpEntry)
    ensures
        r@ == entry_view(loc_view(*loc), stats@),
{
    DumpEntry {
        name: stats.name.clone(),
        file: loc.0.clone(),
        line: loc.1,
        column: loc.2,
        creation_count: stats.creation_count,
        samples: stats.samples.snapshot(),
    }
}

/// Count one construction at the site `(file, line, column)`.  A site seen
/// for the first time is registered under `name`, with no samples; the
/// name of a known site is left as it was.
pub fn record_creation(reg: &mut Registry, name: &str, file: &str, line: u32, column: u32)
    requires
        old(reg).wf(),
    ensures
        final(reg).wf(),
        final(reg).cap_spec() == old(reg).cap_spec(),
        final(reg)@ == old(reg)@.insert(
            (file@, line, column),
            created_at(old(reg)@, (file@, line, column), name@, old(reg).cap_spec()),
        ),
        final(reg).order() == if old(reg)@.contains_key((file@, line, column)) {
            old(reg).order()
        } else {
            old(reg).order().push((file@, line, column))
        },
{
    let ghost k: LocKey = (file@, line, column);
    match reg.find(file, line, column) {
        Some(i) => {
            let ghost p0 = reg.pairs();
            proof {
                lemma_map_of_at(p0, i as int);
            }
            let (loc, old_st) = reg.entries.remove(i);
            assert(old_st@ == p0[i as int].1);
            let st2 = CapStats {
                name: old_st.name,
                creation_count: old_st.creation_count.wrapping_add(1),
                samples: old_st.samples,
            };
            assert(st2@ == created(p0[i as int].1));
            reg.entries.insert(i, (loc, st2));
            assert(reg.pairs() =~= p0.update(i as int, (p0[i as int].0, st2@)));
            proof {
                lemma_map_of_update(p0, i as int, st2@);
            }
            assert(reg.order() =~= keys_of(p0));
        },
        None => {
            let ghost p0 = reg.pairs();
            let mut st = CapStats::new(name, reg.sample_cap);
            st.creation_count = 1;
            let loc: Loc = (file.to_string(), line, column);
            reg.entries.push((loc, st));
            assert(reg.pairs() =~= p0.push((k, st@)));
            proof {
                lemma_map_of_dom(p0, k);
                assert(reg.pairs().drop_last() =~= p0);
            }
            assert(reg.order() =~= keys_of(p0).push(k));
        },
    }
}

/// Record a capacity observation for the site `(file, line, column)`.  An
/// observation for a site that was never registered is discarded.
pub fn record_sample(reg: &mut Registry, file: &str, line: u32, column: u32, cap: usize)
    requires
        old(reg).wf(),
        old(reg)@.contains_key((file@, line, column)) ==> old(reg)@[(
            file@,
            line,
            column,
        )].samples.seen < u64::MAX,
    ensures
        final(reg).wf(),
        final(reg).cap_spec() == old(reg).cap_spec(),
        final(reg).order() == old(reg).order(),
        old(reg)@.contains_key((file@, line, column)) ==> exists|j: u64|
            j <= old(reg)@[(file@, line, column)].samples.seen && final(reg)@ == old(reg)@.insert(
                (file@, line, column),
                sampled(old(reg)@[(file@, line, column)], cap, j),
            ),
        !old(reg)@.contains_key((file@, line, column)) ==> final(reg)@ == old(reg)@,
{
    match reg.find(file, line, column) {
        Some(i) => {
            let ghost p0 = reg.pairs();
            proof {
                lemma_map_of_at(p0, i as int);
            }
            let (loc, mut st) = reg.entries.remove(i);
            assert(st@ == p0[i as int].1);
            st.samples.record(cap);
            let ghost j = choose|j: u64|
                j <= p0[i as int].1.samples.seen && st.samples@.samples == after_record(
                    p0[i as int].1.samples,
                    cap,
                    j,
                );
            assert(st@ == sampled(p0[i as int].1, cap, j));
            reg.entries.insert(i, (loc, st));
            assert(reg.pairs() =~= p0.update(i as int, (p0[i as int].0, st@)));
            proof {
                lemma_map_of_update(p0, i as int, st@);
            }
            assert(reg.order() =~= keys_of(p0));
        },
        None => {},
    }
}

/// Record a construction and, in the same step, its capacity as the
/// site's observation: `record_creation` followed by `record_sample`.
pub fn record_initial(
    reg: &mut Registry,
    name: &str,
    file: &str,
    line: u32,
    column: u32,
    cap: usize,
)
    requires
        old(reg).wf(),
        old(reg)@.contains_key((file@, line, column)) ==> old(reg)@[(
            file@,
            line,
            column,
        )].samples.seen < u64::MAX,
    ensures
        final(reg).wf(),
        final(reg).cap_spec() == old(reg).cap_spec(),
        exists|j: u64|
            final(reg)@ == old(reg)@.insert(
                (file@, line, column),
                #[trigger] sampled(
                    created_at(old(reg)@, (file@, line, column), name@, old(reg).cap_spec()),
                    cap,
                    j,
                ),
            ),
{
    record_creation(reg, name, file, line, column);
    let ghost mid = reg@;
    proof {
        let k: LocKey = (file@, line, column);
        assert(mid.contains_key(k));
        if old(reg)@.contains_key(k) {
            assert(mid[k].samples == old(reg)@[k].samples);
        }
    }
    record_sample(reg, file, line, column, cap);
    proof {
        let k: LocKey = (file@, line, column);
        let j = choose|j: u64|
            j <= mid[k].samples.seen && reg@ == mid.insert(k, sampled(mid[k], cap, j));
        assert(reg@ =~= old(reg)@.insert(
            k,
            sampled(created_at(old(reg)@, k, name@, old(reg).cap_spec()), cap, j),
        ));
    }
}

} // verus!
