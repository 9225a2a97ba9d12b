//! Paths as strings, with the `/`-separated joining that `Path::join` does
//! on Unix, and the conventional manifest locations under a workspace.
use vstd::prelude::*;

use crate::text::{chars_of, push_all, push_str, string_of};

verus! {

/// `Path::join` on Unix: an absolute `seg` replaces `base`; otherwise `seg`
/// is appended after a `/` unless `base` is empty or already ends in `/`.
pub open spec fn join_spec(base: Seq<char>, seg: Seq<char>) -> Seq<char> {
    if seg.len() > 0 && seg[0] == '/' {
        seg
    } else if base.len() == 0 || base.last() == '/' {
        base + seg
    } else {
        base + seq!['/'] + seg
    }
}

/// `Path::join` of two string paths.
pub fn path_join(base: &str, seg: &str) -> (r: String)
    ensures
        r@ == join_spec(base@, seg@),
{
    let b = chars_of(base);
    let s = chars_of(seg);
    let mut out: Vec<char> = Vec::new();
    if s.len() > 0 && s[0] == '/' {
        push_all(&mut out, &s);
        assert(out@ =~= join_spec(base@, seg@));
        return string_of(&out);
    }
    push_all(&mut out, &b);
    if !(b.len() == 0 || b[b.len() - 1] == '/') {
        out.push('/');
    }
    push_all(&mut out, &s);
    assert(out@ =~= join_spec(base@, seg@));
    string_of(&out)
}

/// `<root>/target/captrack-pgo/<name>`.
pub open spec fn pgo_file_spec(root: Seq<char>, name: Seq<char>) -> Seq<char> {
    join_spec(join_spec(join_spec(root, "target"@), "captrack-pgo"@), name)
}

fn pgo_file(root: &str, name: &str) -> (r: String)
    ensures
        r@ == pgo_file_spec(root@, name@),
{
    let t = path_join(root, "target");
    let c = path_join(t.as_str(), "captrack-pgo");
    path_join(c.as_str(), name)
}

/// The `lint-apply` manifest: `<root>/target/captrack-pgo/last-lint-apply.json`.
pub fn default_lint_manifest_path(workspace_root: &str) -> (r: String)
    ensures
        r@ == pgo_file_spec(workspace_root@, "last-lint-apply.json"@),
{
    pgo_file(workspace_root, "last-lint-apply.json")
}

/// The `apply` manifest: `<root>/target/captrack-pgo/last-apply.json`.
pub fn default_manifest_path(workspace_root: &str) -> (r: String)
    ensures
        r@ == pgo_file_spec(workspace_root@, "last-apply.json"@),
{
    pgo_file(workspace_root, "last-apply.json")
}

/// The `instrument` manifest: `<root>/target/captrack-pgo/last-instrument.json`.
pub fn default_instrument_manifest_path(workspace_root: &str) -> (r: String)
    ensures
        r@ == pgo_file_spec(workspace_root@, "last-instrument.json"@),
{
    pgo_file(workspace_root, "last-instrument.json")
}

/// The staleness snapshot: `<root>/target/captrack-pgo/last-instrument-hashes.json`.
pub fn default_staleness_manifest_path(workspace_root: &str) -> (r: String)
    ensures
        r@ == pgo_file_spec(workspace_root@, "last-instrument-hashes.json"@),
{
    pgo_file(workspace_root, "last-instrument-hashes.json")
}

/// The `wire` manifest: `<root>/target/captrack-pgo/last-wire.json`.
pub fn default_wire_manifest_path(workspace_root: &str) -> (r: String)
    ensures
        r@ == pgo_file_spec(workspace_root@, "last-wire.json"@),
{
    pgo_file(workspace_root, "last-wire.json")
}

/// Whether `name` stands in `p` at index `i` as a whole `/`-separated component.
pub open spec fn component_at(p: Seq<char>, name: Seq<char>, i: int) -> bool {
    0 <= i && i + name.len() <= p.len() && p.subrange(i, i + name.len()) == name && (i == 0
        || p[i - 1] == '/') && (i + name.len() == p.len() || p[i + name.len()] == '/')
}

/// Whether a path, split at `/`, has a component equal to `name`.
pub open spec fn has_component(p: Seq<char>, name: Seq<char>) -> bool {
    exists|i: int| component_at(p, name, i)
}

/// Whether `p` has a path component equal to `name`.
pub fn has_component_exec(p: &Vec<char>, name: &Vec<char>) -> (b: bool)
    ensures
        b == has_component(p@, name@),
{
    let mut i: usize = 0;
    loop
        invariant
            i <= p.len(),
            forall|k: int| 0 <= k < i ==> !component_at(p@, name@, k),
        decreases p.len() - i,
    {
        if crate::text::occurs_at_exec(p, name, i) {
            let left_ok = i == 0 || p[i - 1] == '/';
            let right_ok = i + name.len() == p.len() || p[i + name.len()] == '/';
            if left_ok && right_ok {
                assert(component_at(p@, name@, i as int));
                return true;
            }
        }
        assert(!component_at(p@, name@, i as int));
        if i == p.len() {
            assert forall|k: int| !component_at(p@, name@, k) by {
                if 0 <= k && k <= p@.len() {
                    assert(k <= i);
                }
            }
            return false;
        }
        i = i + 1;
    }
}

/// Whether a path lies in a `tests/fixtures`-style directory: it has both a
/// `fixtures` and a `tests` component.
pub fn is_fixture_path(p: &str) -> (b: bool)
    ensures
        b == (has_component(p@, "fixtures"@) && has_component(p@, "tests"@)),
{
    let v = chars_of(p);
    let f = chars_of("fixtures");
    let t = chars_of("tests");
    has_component_exec(&v, &f) && has_component_exec(&v, &t)
}

// ───────────────────────────── path order ─────────────────────────────

/// `a` comes before `b` in path order: character by character with the
/// separator before every other character, which compares two paths
/// component by component as `Path` does (for paths without empty or `.`
/// components).
pub open spec fn path_less(a: Seq<char>, b: Seq<char>) -> bool
    decreases a.len(),
{
    if a.len() == 0 {
        b.len() > 0
    } else if b.len() == 0 {
        false
    } else if a[0] == b[0] {
        path_less(a.drop_first(), b.drop_first())
    } else if a[0] == '/' {
        true
    } else if b[0] == '/' {
        false
    } else {
        a[0] < b[0]
    }
}

pub proof fn lemma_path_less_irreflexive(a: Seq<char>)
    ensures
        !path_less(a, a),
    decreases a.len(),
{
    if a.len() > 0 {
        lemma_path_less_irreflexive(a.drop_first());
    }
}

pub proof fn lemma_path_less_transitive(a: Seq<char>, b: Seq<char>, c: Seq<char>)
    requires
        path_less(a, b),
        path_less(b, c),
    ensures
        path_less(a, c),
    decreases a.len(),
{
    if a.len() > 0 && b.len() > 0 && c.len() > 0 && a[0] == b[0] && b[0] == c[0] {
        lemma_path_less_transitive(a.drop_first(), b.drop_first(), c.drop_first());
    }
}

pub proof fn lemma_path_less_total(a: Seq<char>, b: Seq<char>)
    requires
        a != b,
    ensures
        path_less(a, b) || path_less(b, a),
    decreases a.len(),
{
    if a.len() > 0 && b.len() > 0 && a[0] == b[0] {
        if a.drop_first() == b.drop_first() {
            assert(a =~= seq![a[0]] + a.drop_first());
            assert(b =~= seq![b[0]] + b.drop_first());
        }
        lemma_path_less_total(a.drop_first(), b.drop_first());
    } else if a.len() == 0 && b.len() == 0 {
        assert(a =~= b);
    }
}

/// Whether `a` comes before `b` in path order.
pub fn path_less_exec(a: &str, b: &str) -> (r: bool)
    ensures
        r == path_less(a@, b@),
{
    let x = chars_of(a);
    let y = chars_of(b);
    let mut i: usize = 0;
    assert(x@.skip(0) =~= x@ && y@.skip(0) =~= y@);
    loop
        invariant
            i <= x.len(),
            i <= y.len(),
            x@ == a@,
            y@ == b@,
            path_less(a@, b@) == path_less(x@.skip(i as int), y@.skip(i as int)),
        decreases x.len() - i,
    {
        let ghost xs = x@.skip(i as int);
        let ghost ys = y@.skip(i as int);
        if i == x.len() {
            return i < y.len();
        }
        if i == y.len() {
            return false;
        }
        let cx = x[i];
        let cy = y[i];
        assert(xs[0] == cx && ys[0] == cy);
        if cx != cy {
            if cx == '/' {
                return true;
            }
            if cy == '/' {
                return false;
            }
            return cx < cy;
        }
        assert(xs.drop_first() =~= x@.skip(i + 1));
        assert(ys.drop_first() =~= y@.skip(i + 1));
        i = i + 1;
    }
}

/// Paths in strictly ascending path order.
pub open spec fn paths_sorted(s: Seq<Seq<char>>) -> bool {
    forall|k: int, l: int| 0 <= k < l < s.len() ==> path_less(#[trigger] s[k], #[trigger] s[l])
}

proof fn lemma_insert_path(s: Seq<Seq<char>>, p: int, x: Seq<char>)
    requires
        paths_sorted(s),
        0 <= p <= s.len(),
        forall|k: int| 0 <= k < p ==> path_less(#[trigger] s[k], x),
        p < s.len() ==> path_less(x, s[p]),
    ensures
        paths_sorted(s.insert(p, x)),
        forall|y: Seq<char>| #[trigger] s.insert(p, x).contains(y) <==> (s.contains(y) || y == x),
{
    let r = s.insert(p, x);
    assert forall|k: int, l: int| 0 <= k < l < r.len() implies path_less(
        #[trigger] r[k],
        #[trigger] r[l],
    ) by {
        if l < p {
            assert(r[k] == s[k] && r[l] == s[l]);
        } else if l == p {
            assert(r[k] == s[k]);
        } else if k < p {
            assert(r[k] == s[k] && r[l] == s[l - 1]);
        } else if k == p {
            assert(r[l] == s[l - 1]);
            if l - 1 > p {
                assert(path_less(s[p], s[l - 1]));
                lemma_path_less_transitive(x, s[p], s[l - 1]);
            }
        } else {
            assert(r[k] == s[k - 1] && r[l] == s[l - 1]);
        }
    }
    assert forall|y: Seq<char>| #[trigger] r.contains(y) <==> (s.contains(y) || y == x) by {
        if r.contains(y) {
            let k = choose|k: int| 0 <= k < r.len() && #[trigger] r[k] == y;
            if k < p {
                assert(s[k] == y);
            } else if k > p {
                assert(s[k - 1] == y);
            }
        }
        if s.contains(y) {
            let k = choose|k: int| 0 <= k < s.len() && #[trigger] s[k] == y;
            if k < p {
                assert(r[k] == y);
            } else {
                assert(r[k + 1] == y);
            }
        }
        if y == x {
            assert(r[p] == y);
        }
    }
}

/// One path and the positions at which it occurs.
pub struct PathGroup {
    pub path: String,
    pub members: Vec<usize>,
}

/// The positions below `n` at which `ps` holds `f`, ascending.
pub open spec fn members_of(ps: Seq<Seq<char>>, f: Seq<char>, n: int) -> Seq<usize>
    decreases n,
{
    if n <= 0 {
        seq![]
    } else if ps[n - 1] == f {
        members_of(ps, f, n - 1).push((n - 1) as usize)
    } else {
        members_of(ps, f, n - 1)
    }
}

/// The values of a list of strings.
pub open spec fn string_views(ps: Seq<String>) -> Seq<Seq<char>> {
    Seq::new(ps.len(), |i: int| ps[i]@)
}

/// The paths of a list of groups.
pub open spec fn group_paths_of(gs: Seq<PathGroup>) -> Seq<Seq<char>> {
    Seq::new(gs.len(), |i: int| gs[i].path@)
}

/// `gs` is `pv` grouped by path, as a `BTreeMap` from path to positions
/// holds it: every path once, in path order, with the positions at which
/// it occurs.
pub open spec fn grouped(gs: Seq<PathGroup>, pv: Seq<Seq<char>>) -> bool {
    &&& paths_sorted(group_paths_of(gs))
    &&& forall|y: Seq<char>| #[trigger] group_paths_of(gs).contains(y) <==> pv.contains(y)
    &&& forall|k: int|
        0 <= k < gs.len() ==> (#[trigger] gs[k]).members@ == members_of(
            pv,
            gs[k].path@,
            pv.len() as int,
        )
}

/// `ps` grouped by path.
pub fn group_paths(ps: &Vec<String>) -> (gs: Vec<PathGroup>)
    ensures
        grouped(gs@, string_views(ps@)),
{
    let ghost pv = string_views(ps@);
    let n = ps.len();
    let mut paths: Vec<String> = Vec::new();
    let mut i: usize = 0;
    while i < n
        invariant
            i <= n == ps.len(),
            pv == string_views(ps@),
            paths_sorted(string_views(paths@)),
            forall|y: Seq<char>|
                #[trigger] string_views(paths@).contains(y) <==> pv.take(i as int).contains(y),
        decreases n - i,
    {
        let ghost sv = string_views(paths@);
        let mut p: usize = 0;
        while p < paths.len() && path_less_exec(paths[p].as_str(), ps[i].as_str())
            invariant
                p <= paths.len(),
                i < n == ps.len(),
                sv == string_views(paths@),
                forall|k: int| 0 <= k < p ==> path_less(#[trigger] sv[k], ps@[i as int]@),
            decreases paths.len() - p,
        {
            p = p + 1;
        }
        assert(pv.take(i + 1) =~= pv.take(i as int).push(pv[i as int]));
        if p < paths.len() && paths[p] == ps[i] {
            assert(sv[p as int] == pv[i as int]);
            assert forall|y: Seq<char>| #[trigger] sv.contains(y) <==> pv.take(i + 1).contains(y) by {
                if y == pv[i as int] {
                    assert(sv.contains(y));
                    assert(pv.take(i + 1)[i as int] == y);
                }
                if pv.take(i + 1).contains(y) {
                    let j = choose|j: int| 0 <= j < i + 1 && #[trigger] pv.take(i + 1)[j] == y;
                    if j < i {
                        assert(pv.take(i as int)[j] == y);
                    }
                }
                if pv.take(i as int).contains(y) {
                    let j = choose|j: int| 0 <= j < i && #[trigger] pv.take(i as int)[j] == y;
                    assert(pv.take(i + 1)[j] == y);
                }
            }
        } else {
            proof {
                if p < paths.len() {
                    assert(!path_less(sv[p as int], ps@[i as int]@));
                    lemma_path_less_total(sv[p as int], ps@[i as int]@);
                }
                lemma_insert_path(sv, p as int, ps@[i as int]@);
            }
            paths.insert(p, ps[i].clone());
            assert(string_views(paths@) =~= sv.insert(p as int, ps@[i as int]@));
            assert forall|y: Seq<char>| #[trigger] string_views(paths@).contains(y)
                <==> pv.take(i + 1).contains(y) by {
                if pv.take(i + 1).contains(y) {
                    let j = choose|j: int| 0 <= j < i + 1 && #[trigger] pv.take(i + 1)[j] == y;
                    if j < i {
                        assert(pv.take(i as int)[j] == y);
                    }
                }
                if pv.take(i as int).contains(y) {
                    let j = choose|j: int| 0 <= j < i && #[trigger] pv.take(i as int)[j] == y;
                    assert(pv.take(i + 1)[j] == y);
                }
                if y == pv[i as int] {
                    assert(pv.take(i + 1)[i as int] == y);
                }
            }
        }
        i = i + 1;
    }
    assert(pv.take(n as int) =~= pv);
    let mut gs: Vec<PathGroup> = Vec::new();
    let mut k: usize = 0;
    while k < paths.len()
        invariant
            k <= paths.len(),
            n == ps.len(),
            pv == string_views(ps@),
            gs@.len() == k,
            forall|a: int| 0 <= a < k ==> (#[trigger] gs@[a]).path@ == paths@[a]@,
            forall|a: int|
                0 <= a < k ==> (#[trigger] gs@[a]).members@ == members_of(pv, gs@[a].path@, n as int),
        decreases paths.len() - k,
    {
        let mut members: Vec<usize> = Vec::new();
        let mut j: usize = 0;
        while j < n
            invariant
                j <= n == ps.len(),
                k < paths.len(),
                pv == string_views(ps@),
                members@ == members_of(pv, paths@[k as int]@, j as int),
            decreases n - j,
        {
            if ps[j] == paths[k] {
                members.push(j);
            }
            j = j + 1;
        }
        gs.push(PathGroup { path: paths[k].clone(), members });
        k = k + 1;
    }
    assert(group_paths_of(gs@) =~= string_views(paths@));
    gs
}

} // verus!
