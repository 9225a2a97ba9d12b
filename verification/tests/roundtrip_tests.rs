use captrack::apply::{apply_to_source, ApplyError};
use captrack::merge::{check_merge_inputs, merge_dumps, site_seed, DumpEntry, MergeArgs, MergeError};
use captrack::model::{CapExpr, Ctor, PatchEntry, SiteKey};
use captrack::undo::{undo_source, UndoError};

fn entry(ctor: Ctor, from: CapExpr, to: usize, span: std::ops::Range<usize>) -> PatchEntry {
    PatchEntry {
        key: SiteKey { file: "src/lib.rs".into(), line: 1, col: 1 },
        ctor,
        from,
        to,
        span_bytes: span,
        reason: "r".into(),
    }
}

#[test]
fn apply_then_undo_of_two_splices() {
    let src = b"let a = Vec::with_capacity(4);\nlet b = Vec::new();\n".to_vec();
    let es = vec![
        entry(Ctor::Vec, CapExpr::Literal(4), 64, 27..28),
        entry(Ctor::Vec, CapExpr::Zero, 32, 39..49),
    ];
    let p = apply_to_source("src/lib.rs", &src, &es).unwrap();
    assert_eq!(
        String::from_utf8(p.bytes.clone()).unwrap(),
        "let a = Vec::with_capacity(64);\nlet b = Vec::with_capacity(32);\n"
    );
    assert_eq!(p.entries.len(), 2);
    assert_eq!(p.entries[0].before_text, "4");
    assert_eq!(p.entries[1].after_text, "Vec::with_capacity(32)");
    let restored = undo_source(&p.entries, &p.bytes).unwrap();
    assert_eq!(restored, src);
}

#[test]
fn undo_refuses_a_modified_file() {
    let src = b"let a = Vec::with_capacity(4);\n".to_vec();
    let es = vec![entry(Ctor::Vec, CapExpr::Literal(4), 64, 27..28)];
    let p = apply_to_source("src/lib.rs", &src, &es).unwrap();
    let mut edited = p.bytes.clone();
    edited.push(b'\n');
    assert_eq!(undo_source(&p.entries, &edited), Err(UndoError::Modified));
}

#[test]
fn out_of_bounds_splice_is_refused() {
    let src = b"abc".to_vec();
    let es = vec![entry(Ctor::Vec, CapExpr::Literal(1), 2, 2..9)];
    assert!(matches!(apply_to_source("src/lib.rs", &src, &es), Err(ApplyError::OutOfBounds { .. })));
}

fn dump_entry(name: &str, file: &str, line: u32, count: u64, samples: Vec<usize>) -> DumpEntry {
    DumpEntry { name: name.into(), file: file.into(), line, column: 1, creation_count: count, samples }
}

#[test]
fn merge_sums_counts_and_concatenates_samples() {
    let d1 = vec![dump_entry("a", "a.rs", 1, 2, vec![8, 16]), dump_entry("b", "b.rs", 1, 1, vec![1024])];
    let d2 = vec![dump_entry("a2", "a.rs", 1, 3, vec![32])];
    let (merged, report) = merge_dumps(&vec![d1, d2], 0);
    assert_eq!(report.inputs_count, 2);
    assert_eq!(report.unique_sites, 2);
    assert_eq!(report.total_samples_pre_reservoir, 4);
    assert_eq!(report.total_samples_post, 4);
    assert_eq!(merged[0].file, "b.rs");
    assert_eq!(merged[1].name, "a");
    assert_eq!(merged[1].creation_count, 5);
    assert_eq!(merged[1].samples, vec![8, 16, 32]);
}

#[test]
fn merge_caps_samples_deterministically() {
    let big: Vec<usize> = (0..100).collect();
    let d = vec![dump_entry("a", "a.rs", 1, 1, big)];
    let (m1, r1) = merge_dumps(&vec![d.clone()], 10);
    let (m2, _) = merge_dumps(&vec![d], 10);
    assert_eq!(m1[0].samples.len(), 10);
    assert_eq!(m1, m2);
    assert_eq!(r1.total_samples_post, 10);
    assert_eq!(site_seed("a.rs", 1, 1), site_seed("a.rs", 1, 1));
}

#[test]
fn apply_plan_e2e_replaces_literal_in_place() {
    let body = "fn main() {\n    let _v: Vec<u32> = Vec::with_capacity(8);\n}\n";
    let pos = body.find('8').expect("literal in body");
    let e = PatchEntry {
        key: SiteKey { file: "src.rs".into(), line: 2, col: 39 },
        ctor: Ctor::Vec,
        from: CapExpr::Literal(8),
        to: 128,
        span_bytes: pos..pos + 1,
        reason: "test".into(),
    };
    let p = apply_to_source("src.rs", &body.as_bytes().to_vec(), &vec![e]).unwrap();
    let after = String::from_utf8(p.bytes.clone()).unwrap();
    assert!(after.contains("Vec::with_capacity(128)"));
    assert!(!after.contains("Vec::with_capacity(8)"));
    assert_eq!(p.entries.len(), 1);
    let me = &p.entries[0];
    assert_eq!(me.before_text, "8");
    assert_eq!(me.after_text, "128");
}

#[test]
fn merge_reservoir_keeps_a_sub_multiset_of_the_samples() {
    let mut pop: Vec<usize> = vec![5; 60];
    pop.extend(0..40);
    let d1 = vec![dump_entry("a", "a.rs", 1, 1, pop[..50].to_vec())];
    let d2 = vec![dump_entry("a", "a.rs", 1, 1, pop[50..].to_vec())];
    let (m, report) = merge_dumps(&vec![d1, d2], 16);
    assert_eq!(m.len(), 1);
    assert_eq!(m[0].samples.len(), 16);
    assert_eq!(report.total_samples_pre_reservoir, 100);
    assert_eq!(report.total_samples_post, 16);
    for v in &m[0].samples {
        let kept = m[0].samples.iter().filter(|x| *x == v).count();
        let offered = pop.iter().filter(|x| *x == v).count();
        assert!(kept <= offered);
    }
}

#[test]
fn merge_needs_at_least_one_input() {
    let none = MergeArgs { inputs: vec![], output: "out.json".to_string(), reservoir_cap: 0 };
    assert_eq!(check_merge_inputs(&none), Err(MergeError::NoInputs));
    let one = MergeArgs { inputs: vec!["a.json".to_string()], output: "out.json".to_string(), reservoir_cap: 0 };
    assert_eq!(check_merge_inputs(&one), Ok(()));
}
