//! Reading `dhat-heap.json` profiles: each program point's backtrace is
//! attributed to its topmost frame in user code (outside the standard
//! library and the cargo registry, inside the workspace), and the points
//! are aggregated per call site.  `dhat` records no distribution, so p50
//! and p95 collapse to the peak.
use vstd::prelude::*;

use crate::model::{SiteKey, SiteKeyView, SiteStats, Unit};
use crate::paths::{lemma_path_less_irreflexive, lemma_path_less_total, lemma_path_less_transitive, path_less};
use crate::text::{
    chars_of, contains, contains_exec, last_index_of, parse_u32_chars, parse_u32_spec, rfind_char,
    slice_vec, starts_with, string_of,
};

verus! {

/// The only `dhatFileVersion` understood.
pub const DHAT_FILE_VERSION: u32 = 2;

/// Whether a `dhat` file version is understood.
pub fn dhat_version_supported(v: u32) -> (r: bool)
    ensures
        r == (v == 2),
{
    v == DHAT_FILE_VERSION
}

/// One program point of a `dhat` profile.
pub struct Pp {
    /// Maximum bytes live at once.
    pub mb: u64,
    /// Total blocks allocated.
    pub tbk: u64,
    /// Frame-table indices of the backtrace, innermost first.
    pub fs: Vec<usize>,
}

// ───────────────────────────── frames ─────────────────────────────

/// The file, line and column a frame's text ends with:
/// `... (path/to/file.rs:LINE:COL)`.  The location is the text between the
/// last `(` and the last `)`, split at its last two colons; the file part
/// may itself hold colons (a Windows drive), and must not be empty.
pub open spec fn frame_location(frame: Seq<char>) -> Option<(Seq<char>, u32, u32)> {
    match (last_index_of(frame, '('), last_index_of(frame, ')')) {
        (Some(open), Some(close)) => if close <= open + 1 {
            None
        } else {
            let inner = frame.subrange(open + 1, close);
            match last_index_of(inner, ':') {
                None => None,
                Some(c2) => match last_index_of(inner.take(c2), ':') {
                    None => None,
                    Some(c1) => {
                        let file = inner.take(c1);
                        match (
                            parse_u32_spec(inner.subrange(c1 + 1, c2)),
                            parse_u32_spec(inner.skip(c2 + 1)),
                        ) {
                            (Some(line), Some(col)) => if file.len() == 0 {
                                None
                            } else {
                                Some((file, line, col))
                            },
                            _ => None,
                        }
                    },
                },
            }
        },
        _ => None,
    }
}

/// Parse `(path:LINE:COL)` from the end of a `dhat` frame.
pub fn parse_frame_location(frame: &str) -> (r: Option<(String, u32, u32)>)
    ensures
        match r {
            Some((f, l, c)) => frame_location(frame@) == Some((f@, l, c)),
            None => frame_location(frame@) is None,
        },
{
    let v = chars_of(frame);
    let open = match rfind_char(&v, '(') {
        Some(i) => i,
        None => {
            return None;
        },
    };
    let close = match rfind_char(&v, ')') {
        Some(i) => i,
        None => {
            return None;
        },
    };
    if close <= open + 1 {
        return None;
    }
    let inner = slice_vec(&v, open + 1, close);
    let c2 = match rfind_char(&inner, ':') {
        Some(i) => i,
        None => {
            return None;
        },
    };
    let head = slice_vec(&inner, 0, c2);
    assert(head@ =~= inner@.take(c2 as int));
    let c1 = match rfind_char(&head, ':') {
        Some(i) => i,
        None => {
            return None;
        },
    };
    let file = slice_vec(&inner, 0, c1);
    let line_s = slice_vec(&inner, c1 + 1, c2);
    let col_s = slice_vec(&inner, c2 + 1, inner.len());
    assert(file@ =~= inner@.take(c1 as int));
    assert(col_s@ =~= inner@.skip(c2 + 1));
    let col = match parse_u32_chars(&col_s) {
        Some(n) => n,
        None => {
            return None;
        },
    };
    let line = match parse_u32_chars(&line_s) {
        Some(n) => n,
        None => {
            return None;
        },
    };
    if file.len() == 0 {
        return None;
    }
    Some((string_of(&file), line, col))
}

/// A path in the standard library's sources or in the cargo registry or
/// git checkouts, in either separator style.
pub open spec fn is_std_path_spec(p: Seq<char>) -> bool {
    contains(p, "/rustc/"@) || contains(p, "\\rustc\\"@) || contains(p, "/.cargo/registry/"@)
        || contains(p, "\\.cargo\\registry\\"@) || contains(p, "/.cargo/git/"@) || contains(
        p,
        "\\.cargo\\git\\"@,
    ) || (is_absolute(p) && contains(p, "/library/"@)) || (is_absolute(p) && contains(
        p,
        "\\library\\"@,
    ))
}

/// A Unix path is absolute when it starts at the root.
pub open spec fn is_absolute(p: Seq<char>) -> bool {
    p.len() > 0 && p[0] == '/'
}

/// Whether a path is the standard library's or a dependency's.
pub fn is_std_path(path: &str) -> (r: bool)
    ensures
        r == is_std_path_spec(path@),
{
    let s = chars_of(path);
    let abs = s.len() > 0 && s[0] == '/';
    contains_exec(&s, &chars_of("/rustc/")) || contains_exec(&s, &chars_of("\\rustc\\"))
        || contains_exec(&s, &chars_of("/.cargo/registry/")) || contains_exec(
        &s,
        &chars_of("\\.cargo\\registry\\"),
    ) || contains_exec(&s, &chars_of("/.cargo/git/")) || contains_exec(
        &s,
        &chars_of("\\.cargo\\git\\"),
    ) || (abs && contains_exec(&s, &chars_of("/library/"))) || (abs && contains_exec(
        &s,
        &chars_of("\\library\\"),
    ))
}

/// Whether `base` is a prefix of `p` in whole path components, as
/// `Path::starts_with` decides.
pub uninterp spec fn path_starts_with_spec(p: Seq<char>, base: Seq<char>) -> bool;

/// Calls `Path::starts_with`; the contract names its result, a function of
/// the two paths.
#[verifier::external_body]
fn path_starts_with(p: &str, base: &str) -> (r: bool)
    ensures
        r == path_starts_with_spec(p@, base@),
{
    std::path::Path::new(p).starts_with(std::path::Path::new(base))
}

/// Frame `idx`'s location, when the frame exists and is user code: not in
/// the standard library, and inside the workspace when absolute.
pub open spec fn user_frame(ftbl: Seq<Seq<char>>, idx: usize, root: Seq<char>) -> Option<
    (Seq<char>, u32, u32),
> {
    if idx >= ftbl.len() {
        None
    } else {
        match frame_location(ftbl[idx as int]) {
            None => None,
            Some(loc) => if is_std_path_spec(loc.0) {
                None
            } else if is_absolute(loc.0) && !path_starts_with_spec(loc.0, root) {
                None
            } else {
                Some(loc)
            },
        }
    }
}

/// The first user frame of the backtrace `fs[k..]`.
pub open spec fn top_user_frame(fs: Seq<usize>, ftbl: Seq<Seq<char>>, root: Seq<char>, k: int) -> Option<
    (Seq<char>, u32, u32),
>
    decreases fs.len() - k,
{
    if k >= fs.len() || k < 0 {
        None
    } else {
        match user_frame(ftbl, fs[k], root) {
            Some(loc) => Some(loc),
            None => top_user_frame(fs, ftbl, root, k + 1),
        }
    }
}

/// The values of a frame table.
pub open spec fn table_views(ftbl: Seq<String>) -> Seq<Seq<char>> {
    Seq::new(ftbl.len(), |i: int| ftbl[i]@)
}

/// The site a backtrace is attributed to: its topmost frame that parses,
/// is not in the standard library or a dependency, and lies inside the
/// workspace when its path is absolute.
pub fn user_top_frame(fs: &Vec<usize>, ftbl: &Vec<String>, workspace_root: &str) -> (r: Option<
    SiteKey,
>)
    ensures
        match r {
            Some(k) => top_user_frame(fs@, table_views(ftbl@), workspace_root@, 0) == Some(
                (k.file@, k.line, k.col),
            ),
            None => top_user_frame(fs@, table_views(ftbl@), workspace_root@, 0) is None,
        },
{
    let ghost tv = table_views(ftbl@);
    let mut k: usize = 0;
    while k < fs.len()
        invariant
            k <= fs.len(),
            tv == table_views(ftbl@),
            top_user_frame(fs@, tv, workspace_root@, 0) == top_user_frame(
                fs@,
                tv,
                workspace_root@,
                k as int,
            ),
        decreases fs.len() - k,
    {
        let idx = fs[k];
        if idx < ftbl.len() {
            assert(tv[idx as int] == ftbl@[idx as int]@);
            match parse_frame_location(ftbl[idx].as_str()) {
                None => {},
                Some((file, line, col)) => {
                    if !is_std_path(file.as_str()) {
                        let fc = chars_of(file.as_str());
                        let abs = fc.len() > 0 && fc[0] == '/';
                        assert(abs == is_absolute(file@));
                        if !abs || path_starts_with(file.as_str(), workspace_root) {
                            return Some(SiteKey { file, line, col });
                        }
                    }
                },
            }
        }
        k = k + 1;
    }
    None
}

// ───────────────────────────── aggregation ─────────────────────────────

/// The order of site keys: by file in path order, then line, then column.
pub open spec fn key_less(a: SiteKeyView, b: SiteKeyView) -> bool {
    path_less(a.file, b.file) || (a.file == b.file && (a.line < b.line || (a.line == b.line && a.col
        < b.col)))
}

proof fn lemma_key_less_transitive(a: SiteKeyView, b: SiteKeyView, c: SiteKeyView)
    requires
        key_less(a, b),
        key_less(b, c),
    ensures
        key_less(a, c),
{
    if path_less(a.file, b.file) && path_less(b.file, c.file) {
        lemma_path_less_transitive(a.file, b.file, c.file);
    }
}

proof fn lemma_key_less_total(a: SiteKeyView, b: SiteKeyView)
    requires
        a != b,
    ensures
        key_less(a, b) || key_less(b, a),
{
    if a.file != b.file {
        lemma_path_less_total(a.file, b.file);
    }
}

proof fn lemma_key_less_irreflexive(a: SiteKeyView)
    ensures
        !key_less(a, a),
{
    lemma_path_less_irreflexive(a.file);
}

fn key_less_exec(a: &SiteKey, b: &SiteKey) -> (r: bool)
    ensures
        r == key_less(a@, b@),
{
    crate::paths::path_less_exec(a.file.as_str(), b.file.as_str()) || (a.file == b.file && (a.line
        < b.line || (a.line == b.line && a.col < b.col)))
}

/// The site program point `i` is attributed to.
pub open spec fn pp_site(pps: Seq<Pp>, ftbl: Seq<Seq<char>>, root: Seq<char>, i: int) -> Option<
    SiteKeyView,
> {
    match top_user_frame(pps[i].fs@, ftbl, root, 0) {
        Some(loc) => Some(SiteKeyView { file: loc.0, line: loc.1, col: loc.2 }),
        None => None,
    }
}

/// The largest `mb` of the first `n` points attributed to `k`.
pub open spec fn peak_at(pps: Seq<Pp>, ftbl: Seq<Seq<char>>, root: Seq<char>, k: SiteKeyView, n: int) -> u64
    decreases n,
{
    if n <= 0 {
        0
    } else {
        let m = peak_at(pps, ftbl, root, k, n - 1);
        if pp_site(pps, ftbl, root, n - 1) == Some(k) && pps[n - 1].mb > m {
            pps[n - 1].mb
        } else {
            m
        }
    }
}

/// The saturating sum of `tbk` of the first `n` points attributed to `k`.
pub open spec fn blocks_at(pps: Seq<Pp>, ftbl: Seq<Seq<char>>, root: Seq<char>, k: SiteKeyView, n: int) -> u64
    decreases n,
{
    if n <= 0 {
        0
    } else {
        let c = blocks_at(pps, ftbl, root, k, n - 1);
        if pp_site(pps, ftbl, root, n - 1) == Some(k) {
            if c + pps[n - 1].tbk > u64::MAX {
                u64::MAX
            } else {
                (c + pps[n - 1].tbk) as u64
            }
        } else {
            c
        }
    }
}

/// Some of the first `n` points is attributed to `k`.
pub open spec fn site_seen(pps: Seq<Pp>, ftbl: Seq<Seq<char>>, root: Seq<char>, k: SiteKeyView, n: int) -> bool {
    exists|i: int| 0 <= i < n && #[trigger] pp_site(pps, ftbl, root, i) == Some(k)
}

/// The statistics of site `k` over the first `n` points, in bytes.
pub open spec fn site_stats_ok(st: SiteStats, pps: Seq<Pp>, ftbl: Seq<Seq<char>>, root: Seq<char>, n: int) -> bool {
    let peak = peak_at(pps, ftbl, root, st.key@, n) as usize;
    &&& st.unit == Unit::Bytes
    &&& st.peak == peak
    &&& st.p50 == peak
    &&& st.p95 == peak
    &&& st.count == blocks_at(pps, ftbl, root, st.key@, n)
    &&& st.mean is None
    &&& st.p99 is None
    &&& st.policy is None
}

/// `out` aggregates the first `n` points: one entry per attributed site,
/// in key order.
pub open spec fn is_aggregate(out: Seq<SiteStats>, pps: Seq<Pp>, ftbl: Seq<Seq<char>>, root: Seq<char>, n: int) -> bool {
    &&& forall|a: int, b: int| 0 <= a < b < out.len() ==> key_less(#[trigger] out[a].key@, #[trigger] out[b].key@)
    &&& forall|a: int| 0 <= a < out.len() ==> site_seen(pps, ftbl, root, #[trigger] out[a].key@, n)
    &&& forall|i: int|
        #![trigger pp_site(pps, ftbl, root, i)]
        0 <= i < n && pp_site(pps, ftbl, root, i) is Some ==> exists|a: int|
            0 <= a < out.len() && Some(#[trigger] out[a].key@) == pp_site(pps, ftbl, root, i)
    &&& forall|a: int| 0 <= a < out.len() ==> #[trigger] site_stats_ok(out[a], pps, ftbl, root, n)
}

proof fn lemma_unseen(pps: Seq<Pp>, ftbl: Seq<Seq<char>>, root: Seq<char>, k: SiteKeyView, n: int)
    requires
        !site_seen(pps, ftbl, root, k, n),
    ensures
        peak_at(pps, ftbl, root, k, n) == 0,
        blocks_at(pps, ftbl, root, k, n) == 0,
    decreases n,
{
    if n > 0 {
        assert(!site_seen(pps, ftbl, root, k, n - 1)) by {
            if site_seen(pps, ftbl, root, k, n - 1) {
                let i = choose|i: int| 0 <= i < n - 1 && #[trigger] pp_site(pps, ftbl, root, i) == Some(k);
                assert(pp_site(pps, ftbl, root, i) == Some(k));
            }
        }
        lemma_unseen(pps, ftbl, root, k, n - 1);
    }
}

proof fn lemma_other_site(pps: Seq<Pp>, ftbl: Seq<Seq<char>>, root: Seq<char>, k: SiteKeyView, i: int)
    requires
        0 <= i,
        pp_site(pps, ftbl, root, i) != Some(k),
    ensures
        peak_at(pps, ftbl, root, k, i + 1) == peak_at(pps, ftbl, root, k, i),
        blocks_at(pps, ftbl, root, k, i + 1) == blocks_at(pps, ftbl, root, k, i),
        site_seen(pps, ftbl, root, k, i + 1) == site_seen(pps, ftbl, root, k, i),
{
    if site_seen(pps, ftbl, root, k, i + 1) {
        let j = choose|j: int| 0 <= j < i + 1 && #[trigger] pp_site(pps, ftbl, root, j) == Some(k);
        assert(j < i);
    }
}

/// `m` is the largest `mb` among the first `n` points attributed to `k`:
/// one of them has it, and none has more.
pub open spec fn largest_mb(pps: Seq<Pp>, ftbl: Seq<Seq<char>>, root: Seq<char>, k: SiteKeyView, n: int, m: u64) -> bool {
    &&& exists|i: int| 0 <= i < n && #[trigger] pp_site(pps, ftbl, root, i) == Some(k) && pps[i].mb == m
    &&& forall|j: int| 0 <= j < n && #[trigger] pp_site(pps, ftbl, root, j) == Some(k) ==> pps[j].mb <= m
}

/// The peak at a site over the first `n` points is the largest `mb` among
/// the points attributed to it, when some point is.
pub proof fn lemma_peak_at_is_max(pps: Seq<Pp>, ftbl: Seq<Seq<char>>, root: Seq<char>, k: SiteKeyView, n: int)
    requires
        0 <= n <= pps.len(),
        site_seen(pps, ftbl, root, k, n),
    ensures
        largest_mb(pps, ftbl, root, k, n, peak_at(pps, ftbl, root, k, n)),
    decreases n,
{
    let p = peak_at(pps, ftbl, root, k, n);
    let p0 = peak_at(pps, ftbl, root, k, n - 1);
    if site_seen(pps, ftbl, root, k, n - 1) {
        lemma_peak_at_is_max(pps, ftbl, root, k, n - 1);
        let i0 = choose|i: int| 0 <= i < n - 1 && #[trigger] pp_site(pps, ftbl, root, i) == Some(k) && pps[i].mb == p0;
        if pp_site(pps, ftbl, root, n - 1) == Some(k) && pps[n - 1].mb > p0 {
            assert(pp_site(pps, ftbl, root, n - 1) == Some(k) && pps[n - 1].mb == p);
        } else {
            assert(pp_site(pps, ftbl, root, i0) == Some(k) && pps[i0].mb == p);
        }
        assert forall|j: int| 0 <= j < n && #[trigger] pp_site(pps, ftbl, root, j) == Some(k) implies pps[j].mb <= p by {
            if j < n - 1 {
                assert(pps[j].mb <= p0);
            }
        }
    } else {
        lemma_unseen(pps, ftbl, root, k, n - 1);
        let i = choose|i: int| 0 <= i < n && #[trigger] pp_site(pps, ftbl, root, i) == Some(k);
        if i < n - 1 {
            assert(site_seen(pps, ftbl, root, k, n - 1));
        }
        assert(pp_site(pps, ftbl, root, n - 1) == Some(k));
        assert forall|j: int| 0 <= j < n && #[trigger] pp_site(pps, ftbl, root, j) == Some(k) implies pps[j].mb <= p by {
            if j < n - 1 {
                assert(site_seen(pps, ftbl, root, k, n - 1));
            }
        }
    }
}

/// What a site's aggregated peak is: the largest `mb` of the program points
/// attributed to the site (at least each one's, and one's exactly); the
/// p50 and p95 given for the site are that same peak.
pub proof fn lemma_aggregate_peak_is_largest(
    out: Seq<SiteStats>,
    pps: Seq<Pp>,
    ftbl: Seq<Seq<char>>,
    root: Seq<char>,
    n: int,
    a: int,
)
    requires
        0 <= n <= pps.len(),
        is_aggregate(out, pps, ftbl, root, n),
        0 <= a < out.len(),
    ensures
        exists|m: u64|
            largest_mb(pps, ftbl, root, out[a].key@, n, m) && #[trigger] (m as usize) == out[a].peak,
        out[a].p50 == out[a].peak,
        out[a].p95 == out[a].peak,
{
    let k = out[a].key@;
    assert(site_stats_ok(out[a], pps, ftbl, root, n));
    assert(site_seen(pps, ftbl, root, k, n));
    lemma_peak_at_is_max(pps, ftbl, root, k, n);
    let m = peak_at(pps, ftbl, root, k, n);
    assert(largest_mb(pps, ftbl, root, k, n, m) && (m as usize) == out[a].peak);
}

#[verifier::rlimit(100)]
/// Aggregate program points per site: the largest `mb` as the peak (and
/// as p50 and p95), the saturating sum of `tbk` as the count, sites in key
/// order.  Points with no user frame are passed over.
pub fn aggregate_pps(pps: &Vec<Pp>, ftbl: &Vec<String>, workspace_root: &str) -> (out: Vec<SiteStats>)
    ensures
        is_aggregate(out@, pps@, table_views(ftbl@), workspace_root@, pps.len() as int),
{
    let ghost tv = table_views(ftbl@);
    let ghost root = workspace_root@;
    let mut out: Vec<SiteStats> = Vec::new();
    let mut peaks: Vec<u64> = Vec::new();
    let mut i: usize = 0;
    while i < pps.len()
        invariant
            i <= pps.len(),
            tv == table_views(ftbl@),
            root == workspace_root@,
            is_aggregate(out@, pps@, tv, root, i as int),
            peaks@.len() == out@.len(),
            forall|a: int|
                0 <= a < out@.len() ==> #[trigger] peaks@[a] == peak_at(
                    pps@,
                    tv,
                    root,
                    out@[a].key@,
                    i as int,
                ),
        decreases pps.len() - i,
    {
        let ghost m = out@;
        let ghost pk = peaks@;
        let pp = &pps[i];
        match user_top_frame(&pp.fs, ftbl, workspace_root) {
            None => {
                proof {
                    assert(pp_site(pps@, tv, root, i as int) is None);
                    assert forall|a: int| 0 <= a < m.len() implies #[trigger] site_stats_ok(
                        m[a],
                        pps@,
                        tv,
                        root,
                        i + 1,
                    ) && site_seen(pps@, tv, root, m[a].key@, i + 1) && peaks@[a] == peak_at(
                        pps@,
                        tv,
                        root,
                        m[a].key@,
                        i + 1,
                    ) by {
                        assert(site_stats_ok(m[a], pps@, tv, root, i as int));
                        lemma_other_site(pps@, tv, root, m[a].key@, i as int);
                    }
                }
            },
            Some(key) => {
                let ghost k = key@;
                assert(pp_site(pps@, tv, root, i as int) == Some(k));
                let mut p: usize = 0;
                while p < out.len() && key_less_exec(&out[p].key, &key)
                    invariant
                        p <= out.len(),
                        m == out@,
                        k == key@,
                        forall|a: int| 0 <= a < p ==> key_less(#[trigger] m[a].key@, k),
                    decreases out.len() - p,
                {
                    p = p + 1;
                }
                let found = p < out.len() && crate::model::site_key_eq(&out[p].key, &key);
                if found {
                    let mut st = out.remove(p);
                    assert(st == m[p as int]);
                    assert(site_stats_ok(st, pps@, tv, root, i as int));
                    let old_peak = peaks[p];
                    let peak: u64 = if pp.mb > old_peak {
                        pp.mb
                    } else {
                        old_peak
                    };
                    peaks.set(p, peak);
                    proof {
                        assert(site_seen(pps@, tv, root, k, i as int));
                        assert(peak == peak_at(pps@, tv, root, k, i + 1));
                    }
                    st.peak = peak as usize;
                    st.p50 = peak as usize;
                    st.p95 = peak as usize;
                    st.count = st.count.saturating_add(pp.tbk);
                    out.insert(p, st);
                    proof {
                        let m2 = out@;
                        assert(site_stats_ok(m2[p as int], pps@, tv, root, i + 1));
                        assert forall|a: int| 0 <= a < m2.len() && a != p implies #[trigger] site_stats_ok(
                            m2[a],
                            pps@,
                            tv,
                            root,
                            i + 1,
                        ) && site_seen(pps@, tv, root, m2[a].key@, i + 1) && peaks@[a] == peak_at(
                            pps@,
                            tv,
                            root,
                            m2[a].key@,
                            i + 1,
                        ) by {
                            assert(m2[a] == m[a]);
                            assert(site_stats_ok(m[a], pps@, tv, root, i as int));
                            if a < p {
                                assert(key_less(m[a].key@, m[p as int].key@));
                            } else {
                                assert(key_less(m[p as int].key@, m[a].key@));
                            }
                            lemma_key_less_irreflexive(k);
                            lemma_other_site(pps@, tv, root, m2[a].key@, i as int);
                        }
                        assert forall|a: int, b: int| 0 <= a < b < m2.len() implies key_less(
                            #[trigger] m2[a].key@,
                            #[trigger] m2[b].key@,
                        ) by {
                            assert(m2[a].key@ == m[a].key@ && m2[b].key@ == m[b].key@);
                        }
                        assert forall|j: int|
                            #![trigger pp_site(pps@, tv, root, j)]
                            0 <= j < i + 1 && pp_site(pps@, tv, root, j) is Some implies exists|a: int|
                                0 <= a < m2.len() && Some(#[trigger] m2[a].key@) == pp_site(
                                    pps@,
                                    tv,
                                    root,
                                    j,
                                ) by {
                            if j == i {
                                assert(Some(m2[p as int].key@) == pp_site(pps@, tv, root, j));
                            } else {
                                let a = choose|a: int|
                                    0 <= a < m.len() && Some(#[trigger] m[a].key@) == pp_site(
                                        pps@,
                                        tv,
                                        root,
                                        j,
                                    );
                                assert(Some(m2[a].key@) == pp_site(pps@, tv, root, j));
                            }
                        }
                    }
                } else {
                    proof {
                        assert forall|a: int| 0 <= a < m.len() implies #[trigger] m[a].key@ != k by {
                            lemma_key_less_irreflexive(k);
                            if a >= p {
                                assert(!key_less(m[p as int].key@, k));
                                assert(m[p as int].key@ != k);
                                lemma_key_less_total(m[p as int].key@, k);
                                if a > p {
                                    lemma_key_less_transitive(k, m[p as int].key@, m[a].key@);
                                }
                            }
                        }
                        assert(!site_seen(pps@, tv, root, k, i as int)) by {
                            if site_seen(pps@, tv, root, k, i as int) {
                                let j = choose|j: int| 0 <= j < i && #[trigger] pp_site(pps@, tv, root, j) == Some(k);
                                let a = choose|a: int|
                                    0 <= a < m.len() && Some(#[trigger] m[a].key@) == pp_site(
                                        pps@,
                                        tv,
                                        root,
                                        j,
                                    );
                                assert(m[a].key@ == k);
                            }
                        }
                        lemma_unseen(pps@, tv, root, k, i as int);
                    }
                    let st = SiteStats {
                        key,
                        unit: Unit::Bytes,
                        peak: pp.mb as usize,
                        p50: pp.mb as usize,
                        p95: pp.mb as usize,
                        count: pp.tbk,
                        mean: None,
                        p99: None,
                        policy: None,
                    };
                    out.insert(p, st);
                    peaks.insert(p, pp.mb);
                    proof {
                        let m2 = out@;
                        assert(m2 =~= m.insert(p as int, st));
                        assert(peaks@ =~= pk.insert(p as int, pp.mb));
                        assert(site_stats_ok(st, pps@, tv, root, i + 1));
                        assert(site_seen(pps@, tv, root, k, i + 1));
                        assert forall|a: int| 0 <= a < m2.len() && a != p implies #[trigger] site_stats_ok(
                            m2[a],
                            pps@,
                            tv,
                            root,
                            i + 1,
                        ) && site_seen(pps@, tv, root, m2[a].key@, i + 1) && peaks@[a] == peak_at(
                            pps@,
                            tv,
                            root,
                            m2[a].key@,
                            i + 1,
                        ) by {
                            let a0 = if a < p {
                                a
                            } else {
                                a - 1
                            };
                            assert(m2[a] == m[a0]);
                            assert(peaks@[a] == pk[a0]);
                            assert(site_stats_ok(m[a0], pps@, tv, root, i as int));
                            assert(m[a0].key@ != k);
                            lemma_other_site(pps@, tv, root, m2[a].key@, i as int);
                        }
                        assert forall|a: int, b: int| 0 <= a < b < m2.len() implies key_less(
                            #[trigger] m2[a].key@,
                            #[trigger] m2[b].key@,
                        ) by {
                            if b < p {
                                assert(m2[a] == m[a] && m2[b] == m[b]);
                            } else if b == p {
                                assert(m2[a] == m[a]);
                            } else if a < p {
                                assert(m2[a] == m[a] && m2[b] == m[b - 1]);
                            } else if a == p {
                                assert(m2[b] == m[b - 1]);
                                lemma_key_less_irreflexive(k);
                                assert(!key_less(m[p as int].key@, k));
                                assert(m[p as int].key@ != k);
                                lemma_key_less_total(m[p as int].key@, k);
                                if b - 1 > p {
                                    lemma_key_less_transitive(k, m[p as int].key@, m[b - 1].key@);
                                }
                            } else {
                                assert(m2[a] == m[a - 1] && m2[b] == m[b - 1]);
                            }
                        }
                        assert forall|j: int|
                            #![trigger pp_site(pps@, tv, root, j)]
                            0 <= j < i + 1 && pp_site(pps@, tv, root, j) is Some implies exists|a: int|
                                0 <= a < m2.len() && Some(#[trigger] m2[a].key@) == pp_site(
                                    pps@,
                                    tv,
                                    root,
                                    j,
                                ) by {
                            if j == i {
                                assert(Some(m2[p as int].key@) == pp_site(pps@, tv, root, j));
                            } else {
                                let a = choose|a: int|
                                    0 <= a < m.len() && Some(#[trigger] m[a].key@) == pp_site(
                                        pps@,
                                        tv,
                                        root,
                                        j,
                                    );
                                if a < p {
                                    assert(Some(m2[a].key@) == pp_site(pps@, tv, root, j));
                                } else {
                                    assert(Some(m2[a + 1].key@) == pp_site(pps@, tv, root, j));
                                }
                            }
                        }
                    }
                }
            },
        }
        i = i + 1;
    }
    out
}

} // verus!
