//! The planner: match scanned allocation sites against profile statistics,
//! apply the capacity rules to each, and collect the patches and the skips
//! (with their reasons).
//!
//! A site without profile data was not exercised by the measurement and is
//! passed over silently.  Profile entries that match no site (generated
//! code, macro expansions) are reported by `unmatched_stats`.
use vstd::prelude::*;

use crate::model::{
    cap_expr_copy, site_key_clone, site_key_eq, AllocSite, PatchEntry, PatchEntryView, PatchPlan,
    SiteKey, SiteKeyView, SiteStats,
};
use crate::rules::{decision_ok, propose_cap_with, Decision, DecisionView, RuleConfig};

verus! {

/// The statistics a profile holds for `k`: the last entry with that key,
/// as a map filled in profile order keeps it.
pub open spec fn last_stat(stats: Seq<SiteStats>, k: SiteKeyView, n: int) -> Option<int>
    decreases n,
{
    if n <= 0 {
        None
    } else if stats[n - 1].key@ == k {
        Some(n - 1)
    } else {
        last_stat(stats, k, n - 1)
    }
}

/// An earlier site has the same key (and has taken its statistics).
pub open spec fn key_taken(sites: Seq<AllocSite>, i: int) -> bool {
    exists|j: int| 0 <= j < i && #[trigger] sites[j].key@ == sites[i].key@
}

/// The index of the statistics site `i` is planned with, if any.
pub open spec fn stat_for(sites: Seq<AllocSite>, stats: Seq<SiteStats>, i: int) -> Option<int> {
    if key_taken(sites, i) {
        None
    } else {
        last_stat(stats, sites[i].key@, stats.len() as int)
    }
}

/// The patch entry a site gets.
pub open spec fn entry_for(site: AllocSite, to: usize, reason: Seq<char>) -> PatchEntryView {
    PatchEntryView {
        key: site.key@,
        ctor: site.ctor,
        from: site.current_cap@,
        to: to,
        start: site.span_bytes.start,
        end: site.span_bytes.end,
        reason: reason,
    }
}

/// `ents` and `skips` are what planning the first `n` sites gives: each
/// site with statistics gets the decision of the rules, a patch or a skip,
/// in site order.
pub open spec fn planned(
    sites: Seq<AllocSite>,
    stats: Seq<SiteStats>,
    cfg: RuleConfig,
    n: int,
    ents: Seq<PatchEntryView>,
    skips: Seq<(SiteKeyView, Seq<char>)>,
) -> bool
    decreases n,
{
    if n <= 0 {
        ents.len() == 0 && skips.len() == 0
    } else {
        let i = n - 1;
        match stat_for(sites, stats, i) {
            None => planned(sites, stats, cfg, i, ents, skips),
            Some(s) => {
                let st = stats[s];
                exists|d: DecisionView|
                    #[trigger] decision_ok(
                        st.count,
                        st.peak,
                        st.p95,
                        st.unit,
                        sites[i].current_cap,
                        cfg.min_count,
                        cfg.growth_factor,
                        cfg.rounding,
                        d,
                    ) && match d {
                        DecisionView::Patch { to, reason } => ents.len() > 0 && ents.last()
                            == entry_for(sites[i], to, reason) && planned(
                            sites,
                            stats,
                            cfg,
                            i,
                            ents.drop_last(),
                            skips,
                        ),
                        DecisionView::Skip { reason } => skips.len() > 0 && skips.last() == (
                            sites[i].key@,
                            reason,
                        ) && planned(sites, stats, cfg, i, ents, skips.drop_last()),
                    }
            },
        }
    }
}

/// The views of a plan's entries.
pub open spec fn plan_entries(p: PatchPlan) -> Seq<PatchEntryView> {
    Seq::new(p.entries@.len(), |i: int| p.entries@[i]@)
}

/// The views of a plan's skips.
pub open spec fn plan_skips(p: PatchPlan) -> Seq<(SiteKeyView, Seq<char>)> {
    Seq::new(p.skipped@.len(), |i: int| (p.skipped@[i].0@, p.skipped@[i].1@))
}

fn find_last_stat(stats: &Vec<SiteStats>, k: &SiteKey) -> (r: Option<usize>)
    ensures
        match r {
            Some(i) => i < stats.len() && last_stat(stats@, k@, stats.len() as int) == Some(i as int),
            None => last_stat(stats@, k@, stats.len() as int) is None,
        },
{
    let mut i = stats.len();
    while i > 0
        invariant
            i <= stats.len(),
            last_stat(stats@, k@, stats.len() as int) == last_stat(stats@, k@, i as int),
        decreases i,
    {
        if site_key_eq(&stats[i - 1].key, k) {
            return Some(i - 1);
        }
        i = i - 1;
    }
    None
}

fn key_seen(sites: &Vec<AllocSite>, i: usize) -> (r: bool)
    requires
        i < sites.len(),
    ensures
        r == key_taken(sites@, i as int),
{
    let mut j: usize = 0;
    while j < i
        invariant
            j <= i < sites.len(),
            forall|t: int| 0 <= t < j ==> sites@[t].key@ != sites@[i as int].key@,
        decreases i - j,
    {
        if site_key_eq(&sites[j].key, &sites[i].key) {
            return true;
        }
        j = j + 1;
    }
    false
}

/// Build a patch plan from scanned sites and profile statistics with the
/// default rules.
pub fn build_plan(sites: Vec<AllocSite>, stats: Vec<SiteStats>) -> (p: PatchPlan)
    ensures
        planned(
            sites@,
            stats@,
            RuleConfig {
                min_count: crate::rules::DEFAULT_MIN_COUNT,
                growth_factor: crate::rules::DEFAULT_GROWTH_FACTOR,
                rounding: crate::rules::Rounding::NextPow2,
            },
            sites.len() as int,
            plan_entries(p),
            plan_skips(p),
        ),
{
    build_plan_with(sites, stats, RuleConfig::default())
}

/// Build a patch plan with an explicit rule configuration: every site, in
/// order, that has statistics (the last profile entry with its key, taken
/// by the first site with that key) gets the rules' decision.
pub fn build_plan_with(sites: Vec<AllocSite>, stats: Vec<SiteStats>, cfg: RuleConfig) -> (p: PatchPlan)
    ensures
        planned(sites@, stats@, cfg, sites.len() as int, plan_entries(p), plan_skips(p)),
{
    let mut entries: Vec<PatchEntry> = Vec::new();
    let mut skipped: Vec<(SiteKey, String)> = Vec::new();
    let mut i: usize = 0;
    while i < sites.len()
        invariant
            i <= sites.len(),
            planned(
                sites@,
                stats@,
                cfg,
                i as int,
                plan_entries(PatchPlan { entries, skipped }),
                plan_skips(PatchPlan { entries, skipped }),
            ),
        decreases sites.len() - i,
    {
        let ghost ents0 = plan_entries(PatchPlan { entries, skipped });
        let ghost skips0 = plan_skips(PatchPlan { entries, skipped });
        let site = &sites[i];
        let taken = key_seen(&sites, i);
        if !taken {
            match find_last_stat(&stats, &site.key) {
                None => {},
                Some(s) => {
                    let d = propose_cap_with(&stats[s], &site.current_cap, cfg);
                    let ghost dv = d@;
                    match d {
                        Decision::Patch { to, reason } => {
                            let e = PatchEntry {
                                key: site_key_clone(&site.key),
                                ctor: site.ctor,
                                from: cap_expr_copy(&site.current_cap),
                                to,
                                span_bytes: std::ops::Range {
                                    start: site.span_bytes.start,
                                    end: site.span_bytes.end,
                                },
                                reason,
                            };
                            entries.push(e);
                            proof {
                                let ents1 = plan_entries(PatchPlan { entries, skipped });
                                assert(ents1 =~= ents0.push(e@));
                                assert(ents1.drop_last() =~= ents0);
                                assert(plan_skips(PatchPlan { entries, skipped }) =~= skips0);
                                assert(decision_ok(
                                    stats@[s as int].count,
                                    stats@[s as int].peak,
                                    stats@[s as int].p95,
                                    stats@[s as int].unit,
                                    sites@[i as int].current_cap,
                                    cfg.min_count,
                                    cfg.growth_factor,
                                    cfg.rounding,
                                    dv,
                                ));
                            }
                        },
                        Decision::Skip { reason } => {
                            let ghost r = reason@;
                            skipped.push((site_key_clone(&site.key), reason));
                            proof {
                                let sk1 = plan_skips(PatchPlan { entries, skipped });
                                assert(sk1 =~= skips0.push((site.key@, r)));
                                assert(sk1.drop_last() =~= skips0);
                                assert(plan_entries(PatchPlan { entries, skipped }) =~= ents0);
                                assert(decision_ok(
                                    stats@[s as int].count,
                                    stats@[s as int].peak,
                                    stats@[s as int].p95,
                                    stats@[s as int].unit,
                                    sites@[i as int].current_cap,
                                    cfg.min_count,
                                    cfg.growth_factor,
                                    cfg.rounding,
                                    dv,
                                ));
                            }
                        },
                    }
                },
            }
        }
        i = i + 1;
    }
    PatchPlan { entries, skipped }
}

/// Some site has key `k`.
pub open spec fn site_has_key(sites: Seq<AllocSite>, k: SiteKeyView) -> bool {
    exists|j: int| 0 <= j < sites.len() && #[trigger] sites[j].key@ == k
}

/// The keys of the first `n` profile entries that stand for their key (the
/// last with it) and that no site has, in profile order.
pub open spec fn unmatched_spec(sites: Seq<AllocSite>, stats: Seq<SiteStats>, n: int) -> Seq<
    SiteKeyView,
>
    decreases n,
{
    if n <= 0 {
        seq![]
    } else {
        let s = n - 1;
        let rest = unmatched_spec(sites, stats, s);
        if last_stat(stats, stats[s].key@, stats.len() as int) == Some(s) && !site_has_key(
            sites,
            stats[s].key@,
        ) {
            rest.push(stats[s].key@)
        } else {
            rest
        }
    }
}

/// The views of a list of keys.
pub open spec fn key_views(ks: Seq<SiteKey>) -> Seq<SiteKeyView> {
    Seq::new(ks.len(), |i: int| ks[i]@)
}

/// The profile entries that no site matched, in profile order, each key
/// once (where a key occurs several times, its last entry stands).
pub fn unmatched_stats(sites: &Vec<AllocSite>, stats: &Vec<SiteStats>) -> (r: Vec<SiteKey>)
    ensures
        key_views(r@) == unmatched_spec(sites@, stats@, stats.len() as int),
{
    let mut out: Vec<SiteKey> = Vec::new();
    let mut s: usize = 0;
    while s < stats.len()
        invariant
            s <= stats.len(),
            key_views(out@) == unmatched_spec(sites@, stats@, s as int),
        decreases stats.len() - s,
    {
        let k = &stats[s].key;
        let last = find_last_stat(stats, k);
        let mut matched = false;
        let mut j: usize = 0;
        while j < sites.len()
            invariant
                j <= sites.len(),
                s < stats.len(),
                k == stats@[s as int].key,
                !matched ==> forall|t: int| 0 <= t < j ==> sites@[t].key@ != k@,
                matched ==> site_has_key(sites@, k@),
            decreases sites.len() - j,
        {
            if site_key_eq(&sites[j].key, k) {
                matched = true;
                assert(sites@[j as int].key@ == k@);
            }
            j = j + 1;
        }
        let is_last = match last {
            Some(t) => t == s,
            None => false,
        };
        if is_last && !matched {
            let ghost old = out@;
            let c = site_key_clone(k);
            out.push(c);
            assert(key_views(out@) =~= key_views(old).push(c@));
        }
        s = s + 1;
    }
    out
}

} // verus!
