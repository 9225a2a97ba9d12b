//! Pre-flight checks for `instrument`: does the workspace depend on
//! `captrack`, with its `telemetry` feature, and which member manifests are
//! there to inspect.  These are light line scanners over Cargo.toml text,
//! not a TOML parser.
use vstd::prelude::*;

use crate::paths::{join_spec, path_join};
use crate::text::{
    chars_of, contains, contains_exec, lines, slice_vec, split_lines, starts_with, starts_with_exec,
    string_of, trim, trim_start, trim_start_matches, trim_start_matches_vec, trim_start_vec, trim_vec,
    views,
};

verus! {

/// `t` (a trimmed line) begins a `captrack = ...` dependency entry.
pub open spec fn dep_start(t: Seq<char>) -> bool {
    starts_with(t, "captrack"@) && starts_with(
        trim_start(trim_start_matches(t, "captrack"@)),
        "="@,
    )
}

/// `t` (a trimmed line) declares the `captrack` dependency and is no comment.
pub open spec fn dep_line(t: Seq<char>) -> bool {
    !starts_with(t, "#"@) && dep_start(t)
}

/// Some line of `body` declares a `captrack` dependency.
pub open spec fn has_captrack_dep_spec(body: Seq<char>) -> bool {
    exists|i: int| 0 <= i < lines(body).len() && dep_line(#[trigger] trim(lines(body)[i]))
}

fn dep_start_exec(t: &Vec<char>) -> (b: bool)
    ensures
        b == dep_start(t@),
{
    let cap = chars_of("captrack");
    let eq = chars_of("=");
    if !starts_with_exec(t, &cap) {
        return false;
    }
    let rest = trim_start_matches_vec(t, &cap);
    let rest = trim_start_vec(&rest);
    starts_with_exec(&rest, &eq)
}

/// Returns `true` if the TOML body has a `captrack = ...` dependency line
/// (comments excluded).
pub fn has_captrack_dep(body: &str) -> (b: bool)
    ensures
        b == has_captrack_dep_spec(body@),
{
    let v = chars_of(body);
    let ls = split_lines(&v);
    let hash = chars_of("#");
    let mut i: usize = 0;
    while i < ls.len()
        invariant
            i <= ls.len(),
            views(ls@) == lines(body@),
            hash@ == "#"@,
            forall|k: int| 0 <= k < i ==> !dep_line(#[trigger] trim(lines(body@)[k])),
        decreases ls.len() - i,
    {
        let t = trim_vec(&ls[i]);
        assert(ls@[i as int]@ == lines(body@)[i as int]);
        assert(t@ == trim(lines(body@)[i as int]));
        if !starts_with_exec(&t, &hash) && dep_start_exec(&t) {
            return true;
        }
        i = i + 1;
    }
    false
}

/// The `telemetry` scan over the remaining lines, `inb` telling whether the
/// current lines belong to the `captrack` entry.
pub open spec fn telemetry_scan(ls: Seq<Seq<char>>, inb: bool) -> bool
    decreases ls.len(),
{
    if ls.len() == 0 {
        false
    } else {
        let t = trim(ls[0]);
        let rest = ls.drop_first();
        if starts_with(t, "#"@) {
            telemetry_scan(rest, inb)
        } else {
            let inb1 = inb || dep_start(t);
            if inb1 {
                if contains(t, "telemetry"@) {
                    true
                } else {
                    let ends = !starts_with(t, "captrack"@) && (contains(t, "}"@) || (contains(
                        t,
                        "="@,
                    ) && t.len() > 0));
                    telemetry_scan(rest, !ends)
                }
            } else {
                telemetry_scan(rest, false)
            }
        }
    }
}

/// Returns `true` if the `captrack` dependency entry mentions `telemetry`
/// on its own line or on the lines that continue it.
pub fn has_telemetry_feature(body: &str) -> (b: bool)
    ensures
        b == telemetry_scan(lines(body@), false),
{
    let v = chars_of(body);
    let ls = split_lines(&v);
    let hash = chars_of("#");
    let cap = chars_of("captrack");
    let tele = chars_of("telemetry");
    let brace = chars_of("}");
    let eq = chars_of("=");
    let mut inb = false;
    let mut i: usize = 0;
    assert(views(ls@).skip(0) =~= views(ls@));
    while i < ls.len()
        invariant
            i <= ls.len(),
            views(ls@) == lines(body@),
            hash@ == "#"@,
            cap@ == "captrack"@,
            tele@ == "telemetry"@,
            brace@ == "}"@,
            eq@ == "="@,
            telemetry_scan(lines(body@), false) == telemetry_scan(views(ls@).skip(i as int), inb),
        decreases ls.len() - i,
    {
        let ghost rest = views(ls@).skip(i as int);
        assert(rest[0] == ls@[i as int]@);
        assert(rest.drop_first() =~= views(ls@).skip(i + 1));
        let t = trim_vec(&ls[i]);
        assert(t@ == trim(rest[0]));
        if starts_with_exec(&t, &hash) {
            i = i + 1;
            continue;
        }
        if dep_start_exec(&t) {
            inb = true;
        }
        if inb {
            if contains_exec(&t, &tele) {
                return true;
            }
            let ends = !starts_with_exec(&t, &cap) && (contains_exec(&t, &brace) || (
            contains_exec(&t, &eq) && t.len() > 0));
            if ends {
                inb = false;
            }
        }
        i = i + 1;
    }
    false
}

/// Index of the first `c` in `s`.
pub open spec fn index_of_char(s: Seq<char>, c: char) -> Option<int>
    decreases s.len(),
{
    if s.len() == 0 {
        None
    } else if s[0] == c {
        Some(0)
    } else {
        match index_of_char(s.drop_first(), c) {
            Some(j) => Some(j + 1),
            None => None,
        }
    }
}

/// The double-quoted strings of a line, left to right; an unclosed quote
/// ends the scan.
pub open spec fn quoted(t: Seq<char>) -> Seq<Seq<char>>
    decreases t.len(),
{
    if t.len() == 0 {
        seq![]
    } else if t[0] != '"' {
        quoted(t.drop_first())
    } else {
        let rest = t.drop_first();
        match index_of_char(rest, '"') {
            None => seq![],
            Some(j) => {
                proof {
                    lemma_index_of_char(rest, '"');
                }
                seq![rest.take(j)] + quoted(rest.skip(j + 1))
            },
        }
    }
}

/// Where the first `c` of `s` stands, or that there is none.
pub proof fn lemma_index_of_char(s: Seq<char>, c: char)
    ensures
        match index_of_char(s, c) {
            Some(j) => 0 <= j < s.len() && s[j] == c && forall|k: int| 0 <= k < j ==> s[k] != c,
            None => forall|k: int| 0 <= k < s.len() ==> s[k] != c,
        },
    decreases s.len(),
{
    if s.len() > 0 && s[0] != c {
        lemma_index_of_char(s.drop_first(), c);
        match index_of_char(s.drop_first(), c) {
            Some(j) => {
                assert forall|k: int| 0 <= k < j + 1 implies s[k] != c by {
                    if k > 0 {
                        assert(s[k] == s.drop_first()[k - 1]);
                    }
                }
            },
            None => {
                assert forall|k: int| 0 <= k < s.len() implies s[k] != c by {
                    if k > 0 {
                        assert(s[k] == s.drop_first()[k - 1]);
                    }
                }
            },
        }
    }
}

/// `quoted` over `t[pos..]`, computed.
fn quoted_exec(t: &Vec<char>) -> (r: Vec<Vec<char>>)
    ensures
        views(r@) == quoted(t@),
{
    let mut out: Vec<Vec<char>> = Vec::new();
    let mut pos: usize = 0;
    assert(t@.skip(0) =~= t@);
    while pos < t.len()
        invariant
            pos <= t.len(),
            quoted(t@) == views(out@) + quoted(t@.skip(pos as int)),
        decreases t.len() - pos,
    {
        let ghost s = t@.skip(pos as int);
        assert(s[0] == t@[pos as int]);
        if t[pos] == '"' {
            let start = pos + 1;
            let ghost rest = s.drop_first();
            assert(rest =~= t@.skip(start as int));
            let mut j = start;
            while j < t.len() && t[j] != '"'
                invariant
                    start <= j <= t.len(),
                    forall|k: int| start <= k < j ==> t@[k] != '"',
                decreases t.len() - j,
            {
                j = j + 1;
            }
            proof {
                lemma_index_of_char(rest, '"');
            }
            if j == t.len() {
                assert(index_of_char(rest, '"') is None) by {
                    match index_of_char(rest, '"') {
                        Some(jj) => {
                            assert(rest[jj] == t@[start + jj]);
                        },
                        None => {},
                    }
                }
                assert(quoted(s) == Seq::<Seq<char>>::empty());
                assert(views(out@) + quoted(s) =~= views(out@));
                return out;
            }
            assert(index_of_char(rest, '"') == Some(j - start)) by {
                match index_of_char(rest, '"') {
                    Some(jj) => {
                        if jj < j - start {
                            assert(rest[jj] == t@[start + jj]);
                        } else if jj > j - start {
                            assert(rest[j - start] == t@[j as int]);
                        }
                    },
                    None => {
                        assert(rest[j - start] == t@[j as int]);
                    },
                }
            }
            let member = slice_vec(t, start, j);
            assert(member@ =~= rest.take(j - start));
            assert(rest.skip(j - start + 1) =~= t@.skip(j + 1));
            let ghost old_out = out@;
            out.push(member);
            assert(views(out@) =~= views(old_out) + seq![rest.take(j - start)]);
            pos = j + 1;
        } else {
            assert(s.drop_first() =~= t@.skip(pos + 1));
            pos = pos + 1;
        }
    }
    assert(t@.skip(pos as int).len() == 0);
    assert(views(out@) + seq![] =~= views(out@));
    out
}

/// The member entries read from `members = [...]` inside `[workspace]`.
pub open spec fn members_scan(ls: Seq<Seq<char>>, in_ws: bool, in_mem: bool) -> Seq<Seq<char>>
    decreases ls.len(),
{
    if ls.len() == 0 {
        seq![]
    } else {
        let t = trim(ls[0]);
        let rest = ls.drop_first();
        if starts_with(t, "["@) {
            members_scan(rest, starts_with(t, "[workspace]"@), false)
        } else if !in_ws {
            members_scan(rest, in_ws, in_mem)
        } else if starts_with(t, "members"@) || in_mem {
            quoted(t) + members_scan(rest, in_ws, !contains(t, "]"@))
        } else {
            members_scan(rest, in_ws, in_mem)
        }
    }
}

/// `<root>/<member>/Cargo.toml`.
pub open spec fn member_toml(root: Seq<char>, m: Seq<char>) -> Seq<char> {
    join_spec(join_spec(root, m), "Cargo.toml"@)
}

/// Collect Cargo.toml paths for the workspace root and every member listed
/// in its `members = [...]` array.
pub fn collect_member_tomls(workspace_root: &str, root_toml_body: &str) -> (r: Vec<String>)
    ensures
        r@.len() == 1 + members_scan(lines(root_toml_body@), false, false).len(),
        r@[0]@ == join_spec(workspace_root@, "Cargo.toml"@),
        forall|k: int|
            0 <= k < members_scan(lines(root_toml_body@), false, false).len() ==> #[trigger] r@[k
                + 1]@ == member_toml(
                workspace_root@,
                members_scan(lines(root_toml_body@), false, false)[k],
            ),
{
    let ghost all = members_scan(lines(root_toml_body@), false, false);
    let mut paths: Vec<String> = Vec::new();
    paths.push(path_join(workspace_root, "Cargo.toml"));
    let v = chars_of(root_toml_body);
    let ls = split_lines(&v);
    let open_b = chars_of("[");
    let ws = chars_of("[workspace]");
    let members = chars_of("members");
    let close_b = chars_of("]");
    let mut in_ws = false;
    let mut in_mem = false;
    let mut i: usize = 0;
    let ghost mut found: Seq<Seq<char>> = seq![];
    assert(views(ls@).skip(0) =~= views(ls@));
    while i < ls.len()
        invariant
            i <= ls.len(),
            views(ls@) == lines(root_toml_body@),
            all == members_scan(lines(root_toml_body@), false, false),
            open_b@ == "["@,
            ws@ == "[workspace]"@,
            members@ == "members"@,
            close_b@ == "]"@,
            all == found + members_scan(views(ls@).skip(i as int), in_ws, in_mem),
            paths@.len() == 1 + found.len(),
            paths@[0]@ == join_spec(workspace_root@, "Cargo.toml"@),
            forall|k: int|
                0 <= k < found.len() ==> #[trigger] paths@[k + 1]@ == member_toml(
                    workspace_root@,
                    found[k],
                ),
        decreases ls.len() - i,
    {
        let ghost rest = views(ls@).skip(i as int);
        assert(rest[0] == ls@[i as int]@);
        assert(rest.drop_first() =~= views(ls@).skip(i + 1));
        let t = trim_vec(&ls[i]);
        assert(t@ == trim(rest[0]));
        if starts_with_exec(&t, &open_b) {
            in_ws = starts_with_exec(&t, &ws);
            in_mem = false;
        } else if in_ws && (starts_with_exec(&t, &members) || in_mem) {
            let qs = quoted_exec(&t);
            let mut q: usize = 0;
            let ghost found0 = found;
            while q < qs.len()
                invariant
                    q <= qs.len(),
                    views(qs@) == quoted(t@),
                    found == found0 + views(qs@).take(q as int),
                    paths@.len() == 1 + found.len(),
                    paths@[0]@ == join_spec(workspace_root@, "Cargo.toml"@),
                    forall|k: int|
                        0 <= k < found.len() ==> #[trigger] paths@[k + 1]@ == member_toml(
                            workspace_root@,
                            found[k],
                        ),
                decreases qs.len() - q,
            {
                let m = string_of(&qs[q]);
                let d = path_join(workspace_root, m.as_str());
                let p = path_join(d.as_str(), "Cargo.toml");
                assert(views(qs@)[q as int] == qs@[q as int]@);
                paths.push(p);
                proof {
                    found = found + seq![qs@[q as int]@];
                    assert(found =~= found0 + views(qs@).take(q + 1));
                }
                q = q + 1;
            }
            assert(views(qs@).take(qs.len() as int) =~= views(qs@));
            in_mem = !contains_exec(&t, &close_b);
        }
        proof {
            assert(found + members_scan(views(ls@).skip(i + 1), in_ws, in_mem) =~= all);
        }
        i = i + 1;
    }
    assert(views(ls@).skip(i as int).len() == 0);
    assert(found =~= all);
    paths
}

/// The arguments of `instrument`, paths already resolved.
pub struct LintInstrumentArgs {
    pub lint_path: String,
    pub workspace_root: String,
    pub dry_run: bool,
    pub allow_dirty: bool,
}

/// The lint crate to use: the one given, else the default one found next
/// to the working directory (`found`), else none.
pub fn resolve_lint_path(lint_path: Option<String>, found: Option<String>) -> (r: Option<String>)
    ensures
        r == match lint_path {
            Some(p) => Some(p),
            None => found,
        },
{
    match lint_path {
        Some(p) => Some(p),
        None => found,
    }
}

/// What the manifests say of the `captrack` dependency.
#[derive(Debug, Clone, Copy, PartialEq, Eq)]
pub enum DepStatus {
    /// No manifest depends on `captrack`: instrumented code will not build.
    Missing,
    /// `captrack` is a dependency but no entry of it enables `telemetry`:
    /// instrumented code builds and records nothing.
    TelemetryOff,
    /// Some `captrack` entry enables `telemetry`.
    Ready,
}

/// Whether one manifest body declares `captrack`, and whether it declares
/// it with `telemetry`.
pub open spec fn body_flags(body: Seq<char>) -> (bool, bool) {
    let dep = has_captrack_dep_spec(body);
    (dep, dep && telemetry_scan(lines(body), false))
}

/// The flags gathered over the first `n` member manifests that could be
/// read (`None`: unreadable, skipped).
pub open spec fn flags_upto(bodies: Seq<Option<String>>, n: int) -> (bool, bool)
    decreases n,
{
    if n <= 0 {
        (false, false)
    } else {
        let prev = flags_upto(bodies, n - 1);
        match bodies[n - 1] {
            Some(b) => {
                let f = body_flags(b@);
                (prev.0 || f.0, prev.1 || f.1)
            },
            None => prev,
        }
    }
}

/// The status from the member manifests and the root manifest.
pub open spec fn dep_status_spec(root: Seq<char>, bodies: Seq<Option<String>>) -> DepStatus {
    let m = flags_upto(bodies, bodies.len() as int);
    let r = body_flags(root);
    let dep = m.0 || r.0;
    let tel = m.1 || r.1;
    if !dep {
        DepStatus::Missing
    } else if !tel {
        DepStatus::TelemetryOff
    } else {
        DepStatus::Ready
    }
}

/// Whether the workspace depends on `captrack` with `telemetry`, from the
/// root manifest `root` and the member manifests `bodies` (an unreadable one
/// is `None` and skipped).  Decides which warning `instrument` prints.
pub fn captrack_dep_status(root: &str, bodies: &Vec<Option<String>>) -> (r: DepStatus)
    ensures
        r == dep_status_spec(root@, bodies@),
{
    let mut dep = false;
    let mut tel = false;
    let mut i: usize = 0;
    while i < bodies.len()
        invariant
            i <= bodies@.len(),
            (dep, tel) == flags_upto(bodies@, i as int),
        decreases bodies.len() - i,
    {
        match &bodies[i] {
            Some(b) => {
                if has_captrack_dep(b.as_str()) {
                    dep = true;
                    if has_telemetry_feature(b.as_str()) {
                        tel = true;
                    }
                }
            },
            None => {},
        }
        i = i + 1;
    }
    if has_captrack_dep(root) {
        dep = true;
        if has_telemetry_feature(root) {
            tel = true;
        }
    }
    if !dep {
        DepStatus::Missing
    } else if !tel {
        DepStatus::TelemetryOff
    } else {
        DepStatus::Ready
    }
}

/// The arguments given to `cargo` for an instrument run: the lint path,
/// `--fix` unless it is a dry run, the workspace manifest after `--`, and
/// `--allow-dirty` after it (a flag of the inner `cargo fix`).
pub open spec fn instrument_args_spec(lint: Seq<char>, dry_run: bool, allow_dirty: bool, manifest: Seq<char>) -> Seq<Seq<char>> {
    seq!["dylint"@, "--path"@, lint] + (if dry_run {
        Seq::empty()
    } else {
        seq!["--fix"@]
    }) + seq!["--"@, "--manifest-path"@, manifest] + (if allow_dirty {
        seq!["--allow-dirty"@]
    } else {
        Seq::empty()
    })
}

/// The views of a list of strings.
pub open spec fn arg_views(v: Seq<String>) -> Seq<Seq<char>> {
    Seq::new(v.len(), |i: int| v[i]@)
}

/// The `cargo dylint` arguments of an instrument run for `args`, with
/// `manifest` the workspace's `Cargo.toml`.
pub fn instrument_args(args: &LintInstrumentArgs, manifest: &str) -> (r: Vec<String>)
    ensures
        arg_views(r@) == instrument_args_spec(args.lint_path@, args.dry_run, args.allow_dirty, manifest@),
{
    let mut r: Vec<String> = Vec::new();
    r.push("dylint".to_string());
    r.push("--path".to_string());
    r.push(args.lint_path.clone());
    if !args.dry_run {
        r.push("--fix".to_string());
    }
    r.push("--".to_string());
    r.push("--manifest-path".to_string());
    r.push(manifest.to_string());
    if args.allow_dirty {
        r.push("--allow-dirty".to_string());
    }
    assert(arg_views(r@) =~= instrument_args_spec(
        args.lint_path@,
        args.dry_run,
        args.allow_dirty,
        manifest@,
    ));
    r
}

} // verus!
