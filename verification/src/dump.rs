//! The capacity dump: every recorded site with its samples, largest
//! allocations first.
use vstd::prelude::*;
use crate::merge::{DumpEntry, DumpEntryView, by_max_desc, dump_views, max_sample_exec, max_keys};
use crate::order::{lemma_stable_order, stable_order, stable_order_exec};
use crate::registry::{Registry, lemma_observed_covers_samples, registry_entries, registry_observed};

verus! {

/// The version written at the head of every dump.
pub const DUMP_VERSION: u32 = 1;

/// A dump document: the format version and the sites, with, for each
/// site, the number of values it was offered (`observed[i]` belongs to
/// `stats[i]`; the reservoir keeps at most that many).
pub struct CapacityDump {
    pub version: u32,
    pub stats: Vec<DumpEntry>,
    pub observed: Vec<u64>,
}

/// The counts `t` of the sites `m`, put in the order `by_max_desc` puts
/// the sites in.
pub open spec fn counts_by_max_desc(m: Seq<DumpEntryView>, t: Seq<u64>) -> Seq<u64> {
    let o = stable_order(max_keys(m), true, m.len());
    Seq::new(m.len(), |k: int| t[o[k] as int])
}

/// The dump of a registry: its sites ordered by largest sample, descending,
/// a site with no sample counting as zero; sites that tie keep the order in
/// which they were first recorded.
pub fn dump_capacity_stats(reg: &Registry) -> (r: CapacityDump)
    requires
        reg.wf(),
    ensures
        r.version == DUMP_VERSION,
        dump_views(r.stats@) == by_max_desc(registry_entries(reg)),
        r.observed@ == counts_by_max_desc(registry_entries(reg), registry_observed(reg)),
        forall|i: int| 0 <= i < r.stats@.len() ==> r.observed@[i] >= (#[trigger] r.stats@[i]).samples@.len(),
{
    let entries = reg.entries();
    let counts = reg.observed_counts();
    let ghost m = dump_views(entries@);
    let n = entries.len();
    let mut keys: Vec<usize> = Vec::new();
    let mut j: usize = 0;
    while j < n
        invariant
            j <= n == entries.len(),
            dump_views(entries@) == m,
            keys@ == max_keys(m).take(j as int),
        decreases n - j,
    {
        assert(entries@[j as int]@ == m[j as int]);
        keys.push(max_sample_exec(&entries[j].samples));
        j = j + 1;
        assert(keys@ =~= max_keys(m).take(j as int));
    }
    assert(keys@ =~= max_keys(m));
    let o = stable_order_exec(&keys, true);
    proof {
        lemma_stable_order(keys@, true, n as nat);
    }
    let mut out: Vec<DumpEntry> = Vec::new();
    let mut observed: Vec<u64> = Vec::new();
    let mut q: usize = 0;
    while q < n
        invariant
            q <= n == entries.len(),
            reg.wf(),
            m == registry_entries(reg),
            counts@ == registry_observed(reg),
            counts@.len() == n,
            observed@ == counts_by_max_desc(m, counts@).take(q as int),
            out@.len() == q,
            forall|t: int| 0 <= t < q ==> observed@[t] >= (#[trigger] out@[t]).samples@.len(),
            dump_views(entries@) == m,
            o@ == stable_order(max_keys(m), true, n as nat),
            o@.len() == n,
            forall|t: int| 0 <= t < n ==> #[trigger] o@[t] < n,
            dump_views(out@) == by_max_desc(m).take(q as int),
        decreases n - q,
    {
        let idx = o[q];
        assert(entries@[idx as int]@ == m[idx as int]);
        let ghost old = out@;
        let c = crate::merge::copy_entry(&entries[idx]);
        out.push(c);
        assert(dump_views(out@) =~= dump_views(old).push(c@));
        proof {
            lemma_observed_covers_samples(reg, idx as int);
        }
        observed.push(counts[idx]);
        q = q + 1;
        assert(observed@ =~= counts_by_max_desc(m, counts@).take(q as int));
        assert(dump_views(out@) =~= by_max_desc(m).take(q as int));
    }
    assert(by_max_desc(m).take(n as int) =~= by_max_desc(m));
    assert(counts_by_max_desc(m, counts@).take(n as int) =~= counts_by_max_desc(m, counts@));
    CapacityDump { version: DUMP_VERSION, stats: out, observed }
}

} // verus!
