//! Human-readable rendering of a patch plan.
use vstd::prelude::*;

use crate::apply::{ctor_type_name, type_name_spec};
use crate::model::{CapExpr, CapExprView, Ctor, PatchPlan, SiteKey, SiteKeyView};
use crate::text::{chars_of, contains, contains_exec, dec, push_all, push_dec, push_str, string_of};

verus! {

/// `file:line:col`.
pub open spec fn key_text(k: SiteKeyView) -> Seq<char> {
    k.file + ":"@ + dec(k.line as nat) + ":"@ + dec(k.col as nat)
}

/// `file:line:col` of a site.
pub fn render_key(k: &SiteKey) -> (s: String)
    ensures
        s@ == key_text(k@),
{
    let mut out = chars_of(k.file.as_str());
    push_str(&mut out, ":");
    push_dec(&mut out, k.line as u64);
    push_str(&mut out, ":");
    push_dec(&mut out, k.col as u64);
    assert(out@ =~= key_text(k@));
    string_of(&out)
}

/// A constructor call with the given capacity expression.
pub open spec fn call_text(ctor: Ctor, cap: CapExprView) -> Seq<char> {
    match cap {
        CapExprView::Literal(n) => type_name_spec(ctor) + "::with_capacity("@ + dec(n as nat) + ")"@,
        CapExprView::Zero => type_name_spec(ctor) + "::new()"@,
        CapExprView::Dynamic(e) => type_name_spec(ctor) + "::with_capacity("@ + e + ")"@,
    }
}

/// Pretty-print a constructor call for the given capacity expression.
pub fn render_call(ctor: &Ctor, cap: &CapExpr) -> (s: String)
    ensures
        s@ == call_text(*ctor, cap@),
{
    let mut out: Vec<char> = Vec::new();
    push_str(&mut out, ctor_type_name(ctor));
    match cap {
        CapExpr::Literal(n) => {
            push_str(&mut out, "::with_capacity(");
            push_dec(&mut out, *n as u64);
            push_str(&mut out, ")");
        },
        CapExpr::Zero => {
            push_str(&mut out, "::new()");
        },
        CapExpr::Dynamic(e) => {
            push_str(&mut out, "::with_capacity(");
            push_str(&mut out, e.as_str());
            push_str(&mut out, ")");
        },
    }
    assert(out@ =~= call_text(*ctor, cap@));
    string_of(&out)
}

/// The category a skip reason falls in, by the first keyword it holds:
/// "low frequency" (`low-count`), "phantom", "dynamic" (`dynamic-expr`),
/// "already covers" (`sufficient`), "variation" (`stable-cap`), or none
/// (`other`); as the position of its name in name order.
pub open spec fn skip_category(reason: Seq<char>) -> int {
    if contains(reason, "low frequency"@) {
        1
    } else if contains(reason, "phantom"@) {
        3
    } else if contains(reason, "dynamic"@) {
        0
    } else if contains(reason, "already covers"@) {
        5
    } else if contains(reason, "variation"@) {
        4
    } else {
        2
    }
}

fn category_index(reason: &str) -> (r: usize)
    ensures
        r < 6,
        skip_category(reason@) == r,
{
    let v = chars_of(reason);
    if contains_exec(&v, &chars_of("low frequency")) {
        1
    } else if contains_exec(&v, &chars_of("phantom")) {
        3
    } else if contains_exec(&v, &chars_of("dynamic")) {
        0
    } else if contains_exec(&v, &chars_of("already covers")) {
        5
    } else if contains_exec(&v, &chars_of("variation")) {
        4
    } else {
        2
    }
}

/// The categories in the order a `BTreeMap` of their names walks them.
pub open spec fn category_name(i: int) -> Seq<char> {
    if i == 0 {
        "dynamic-expr"@
    } else if i == 1 {
        "low-count"@
    } else if i == 2 {
        "other"@
    } else if i == 3 {
        "phantom"@
    } else if i == 4 {
        "stable-cap"@
    } else {
        "sufficient"@
    }
}

fn category_str(i: usize) -> (s: &'static str)
    requires
        i < 6,
    ensures
        s@ == category_name(i as int),
{
    if i == 0 {
        "dynamic-expr"
    } else if i == 1 {
        "low-count"
    } else if i == 2 {
        "other"
    } else if i == 3 {
        "phantom"
    } else if i == 4 {
        "stable-cap"
    } else {
        "sufficient"
    }
}

/// How many of the first `n` skips fall in category `c`.
pub open spec fn category_count(reasons: Seq<Seq<char>>, c: int, n: int) -> nat
    decreases n,
{
    if n <= 0 {
        0
    } else {
        category_count(reasons, c, n - 1) + if skip_category(reasons[n - 1]) == c {
            1nat
        } else {
            0nat
        }
    }
}

/// `"{n} {category}"` for the categories from `i` on that have skips,
/// joined by `", "`; `first` tells whether none has been written yet.
pub open spec fn category_list(reasons: Seq<Seq<char>>, i: int, first: bool) -> Seq<char>
    decreases 6 - i,
{
    if i >= 6 {
        seq![]
    } else {
        let n = category_count(reasons, i, reasons.len() as int);
        if n > 0 {
            (if first {
                seq![]
            } else {
                ", "@
            }) + dec(n) + " "@ + category_name(i) + category_list(reasons, i + 1, false)
        } else {
            category_list(reasons, i + 1, first)
        }
    }
}

/// The skip reasons of a plan.
pub open spec fn skip_reasons(p: PatchPlan) -> Seq<Seq<char>> {
    Seq::new(p.skipped@.len(), |i: int| p.skipped@[i].1@)
}

/// The summary line: the number of patches, and the skips by category.
pub open spec fn summary_text(p: PatchPlan) -> Seq<char> {
    if p.skipped@.len() == 0 {
        dec(p.entries@.len()) + " patch"@
    } else {
        dec(p.entries@.len()) + " patch, "@ + dec(p.skipped@.len()) + " skip ("@ + category_list(
            skip_reasons(p),
            0,
            true,
        ) + ")"@
    }
}

/// The summary line of a plan: how many patches, and how many skips by
/// category (`low-count`, `phantom`, `dynamic-expr`, `sufficient`,
/// `stable-cap`, `other`, recognised from the reason, in name order).
pub fn render_summary(plan: &PatchPlan) -> (s: String)
    ensures
        s@ == summary_text(*plan),
{
    let ghost rs = skip_reasons(*plan);
    let mut counts: Vec<usize> = vec![0, 0, 0, 0, 0, 0];
    let mut i: usize = 0;
    while i < plan.skipped.len()
        invariant
            i <= plan.skipped.len(),
            rs == skip_reasons(*plan),
            counts@.len() == 6,
            forall|c: int|
                0 <= c < 6 ==> #[trigger] counts@[c] == category_count(rs, c, i as int),
            forall|c: int| 0 <= c < 6 ==> #[trigger] counts@[c] <= i,
        decreases plan.skipped.len() - i,
    {
        let c = category_index(plan.skipped[i].1.as_str());
        assert(rs[i as int] == plan.skipped@[i as int].1@);
        counts.set(c, counts[c] + 1);
        i = i + 1;
    }
    let mut out: Vec<char> = Vec::new();
    push_dec(&mut out, plan.entries.len() as u64);
    if plan.skipped.len() == 0 {
        push_str(&mut out, " patch");
        assert(out@ =~= summary_text(*plan));
        return string_of(&out);
    }
    push_str(&mut out, " patch, ");
    push_dec(&mut out, plan.skipped.len() as u64);
    push_str(&mut out, " skip (");
    let ghost head = out@;
    let mut first = true;
    let mut c: usize = 0;
    while c < 6
        invariant
            c <= 6,
            counts@.len() == 6,
            rs == skip_reasons(*plan),
            rs.len() == plan.skipped.len(),
            forall|d: int|
                0 <= d < 6 ==> #[trigger] counts@[d] == category_count(rs, d, rs.len() as int),
            head + category_list(rs, 0, true) == out@ + category_list(rs, c as int, first),
        decreases 6 - c,
    {
        if counts[c] > 0 {
            if !first {
                push_str(&mut out, ", ");
            }
            push_dec(&mut out, counts[c] as u64);
            push_str(&mut out, " ");
            push_str(&mut out, category_str(c));
            first = false;
        }
        c = c + 1;
    }
    push_str(&mut out, ")");
    assert(out@ =~= summary_text(*plan));
    string_of(&out)
}

/// One patch's lines.
pub open spec fn patch_text(e: crate::model::PatchEntryView) -> Seq<char> {
    key_text(e.key) + "\n"@ + "  "@ + call_text(e.ctor, e.from) + "  →  "@ + call_text(
        e.ctor,
        CapExprView::Literal(e.to),
    ) + "\n"@ + "  "@ + e.reason + "\n"@ + "\n"@
}

/// The lines of the first `n` patches.
pub open spec fn patches_text(p: PatchPlan, n: int) -> Seq<char>
    decreases n,
{
    if n <= 0 {
        seq![]
    } else {
        patches_text(p, n - 1) + patch_text(p.entries@[n - 1]@)
    }
}

/// The plan as printed: every patch (site, the call before and after, the
/// reason), a rule, and the summary; or a line saying there is nothing to
/// propose.
pub open spec fn report_text(p: PatchPlan) -> Seq<char> {
    if p.entries@.len() == 0 && p.skipped@.len() == 0 {
        "no allocation sites matched profile data — nothing to propose.\n"@
    } else {
        patches_text(p, p.entries@.len() as int) + (if p.entries@.len() > 0 {
            "────────────────────────────────────────────\n"@
        } else {
            seq![]
        }) + summary_text(p) + "\n"@
    }
}

/// Render the plan as a multi-line string ready for stdout.
pub fn render_report(plan: &PatchPlan) -> (s: String)
    ensures
        s@ == report_text(*plan),
{
    let mut out: Vec<char> = Vec::new();
    if plan.entries.len() == 0 && plan.skipped.len() == 0 {
        push_str(&mut out, "no allocation sites matched profile data — nothing to propose.\n");
        return string_of(&out);
    }
    let mut i: usize = 0;
    while i < plan.entries.len()
        invariant
            i <= plan.entries.len(),
            out@ == patches_text(*plan, i as int),
        decreases plan.entries.len() - i,
    {
        let e = &plan.entries[i];
        let ghost before = out@;
        push_all(&mut out, &chars_of(render_key(&e.key).as_str()));
        push_str(&mut out, "\n");
        push_str(&mut out, "  ");
        push_all(&mut out, &chars_of(render_call(&e.ctor, &e.from).as_str()));
        push_str(&mut out, "  →  ");
        push_all(&mut out, &chars_of(render_call(&e.ctor, &CapExpr::Literal(e.to)).as_str()));
        push_str(&mut out, "\n");
        push_str(&mut out, "  ");
        push_str(&mut out, e.reason.as_str());
        push_str(&mut out, "\n");
        push_str(&mut out, "\n");
        assert(out@ =~= before + patch_text(plan.entries@[i as int]@));
        i = i + 1;
    }
    if plan.entries.len() > 0 {
        push_str(&mut out, "────────────────────────────────────────────\n");
    }
    push_all(&mut out, &chars_of(render_summary(plan).as_str()));
    push_str(&mut out, "\n");
    assert(out@ =~= report_text(*plan));
    string_of(&out)
}

} // verus!
