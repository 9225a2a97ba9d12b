use captrack::model::{CapExpr, Ctor};
use captrack::scan::{build_line_offsets, classify_path, has_cfg_test, span_to_byte_range, ArgInfo, AttrInfo, CallInfo, LineCol, SiteCollector, SpanInfo};

fn span(l1: usize, c1: usize, l2: usize, c2: usize) -> SpanInfo {
    SpanInfo { start: LineCol { line: l1, column: c1 }, end: LineCol { line: l2, column: c2 } }
}

fn segs(v: &[&str]) -> Option<Vec<String>> {
    Some(v.iter().map(|s| s.to_string()).collect())
}

#[test]
fn line_offsets_start_after_each_newline() {
    assert_eq!(build_line_offsets("ab\ncd\n\ne"), vec![0, 3, 6, 7]);
    assert_eq!(build_line_offsets(""), vec![0]);
}

#[test]
fn spans_map_to_byte_ranges() {
    let src = "ab\ncd\n";
    let offs = build_line_offsets(src);
    let b = src.as_bytes();
    assert_eq!(span_to_byte_range(b, &offs, &span(2, 0, 2, 2)), Some(3..5));
    assert_eq!(span_to_byte_range(b, &offs, &span(0, 0, 1, 1)), None);
    assert_eq!(span_to_byte_range(b, &offs, &span(1, 2, 1, 1)), None);
    assert_eq!(span_to_byte_range(b, &offs, &span(9, 0, 9, 1)), None);
}

#[test]
fn constructor_paths_are_classified() {
    assert_eq!(classify_path(&segs(&["std", "collections", "HashMap", "new"]).unwrap()), Some((Ctor::HashMap, "new".to_string())));
    assert_eq!(classify_path(&segs(&["Vec", "with_capacity"]).unwrap()), Some((Ctor::Vec, "with_capacity".to_string())));
    assert_eq!(classify_path(&segs(&["Vec", "from"]).unwrap()), None);
    assert_eq!(classify_path(&segs(&["new"]).unwrap()), None);
}

#[test]
fn cfg_test_attribute_is_recognised() {
    let attrs = vec![
        AttrInfo { is_cfg: false, list_tokens: Some("test".into()) },
        AttrInfo { is_cfg: true, list_tokens: Some(" test ".into()) },
    ];
    assert!(has_cfg_test(&attrs));
    assert!(!has_cfg_test(&vec![AttrInfo { is_cfg: true, list_tokens: Some("unix".into()) }]));
}

#[test]
fn inline_vec_with_capacity_literal() {
    let src = "fn f() {\n    let v: Vec<u8> = Vec::with_capacity(16);\n}\n";
    let mut c = SiteCollector::new(src, "test.rs", false);
    c.visit_call(&CallInfo {
        segments: segs(&["Vec", "with_capacity"]),
        span: span(2, 21, 2, 43),
        first_arg: Some(ArgInfo { span: span(2, 40, 2, 42), int_literal: Some(16) }),
    });
    let sites = c.into_sites();
    assert_eq!(sites.len(), 1);
    assert_eq!(sites[0].current_cap, CapExpr::Literal(16));
    assert_eq!(&src[sites[0].span_bytes.clone()], "16");
    assert_eq!(sites[0].key.line, 2);
    assert_eq!(sites[0].key.col, 21);
}

#[test]
fn inline_dynamic_cap_expression() {
    let src = "let m = HashMap::with_capacity(n * 2);\n";
    let mut c = SiteCollector::new(src, "test.rs", false);
    c.visit_call(&CallInfo {
        segments: segs(&["HashMap", "with_capacity"]),
        span: span(1, 8, 1, 37),
        first_arg: Some(ArgInfo { span: span(1, 31, 1, 36), int_literal: None }),
    });
    let sites = c.into_sites();
    assert_eq!(sites[0].ctor, Ctor::HashMap);
    assert_eq!(sites[0].current_cap, CapExpr::Dynamic("n * 2".to_string()));
}

#[test]
fn inline_vec_new_span_covers_full_call() {
    let src = "let v = Vec::new();\n";
    let mut c = SiteCollector::new(src, "test.rs", false);
    c.visit_call(&CallInfo { segments: segs(&["Vec", "new"]), span: span(1, 8, 1, 18), first_arg: None });
    c.visit_macro(true, true, &span(1, 0, 1, 3));
    c.visit_macro(true, false, &span(1, 0, 1, 3));
    let sites = c.into_sites();
    assert_eq!(sites.len(), 2);
    assert_eq!(&src[sites[0].span_bytes.clone()], "Vec::new()");
    assert_eq!(sites[0].current_cap, CapExpr::Zero);
    assert_eq!(sites[1].ctor, Ctor::Vec);
}

#[test]
fn inline_test_module_skipped() {
    let src = "mod tests { fn t() { let v = Vec::new(); } }\n";
    let call = CallInfo { segments: segs(&["Vec", "new"]), span: span(1, 29, 1, 39), first_arg: None };
    let mut c = SiteCollector::new(src, "test.rs", false);
    let was = c.enter_module(true);
    assert!(c.skip());
    c.visit_call(&call);
    c.leave_module(was);
    assert!(!c.skip());
    assert!(c.into_sites().is_empty());
    let mut c2 = SiteCollector::new(src, "test.rs", true);
    let was = c2.enter_module(true);
    c2.visit_call(&call);
    c2.leave_module(was);
    assert_eq!(c2.into_sites().len(), 1);
}

#[test]
fn columns_count_characters_not_bytes() {
    // "é" is two bytes and "€" three: the call starts at character 9 of
    // line 2 but at byte 12 of that line.
    let src = "fn f() {\nlet é€ = Vec::new();\n}\n";
    let offs = build_line_offsets(src);
    let rg = span_to_byte_range(src.as_bytes(), &offs, &span(2, 9, 2, 19)).unwrap();
    assert_eq!(&src[rg], "Vec::new()");
    // A column past the end of the text has no offset.
    assert_eq!(span_to_byte_range(src.as_bytes(), &offs, &span(3, 0, 3, 5)), None);
}

#[test]
fn collector_spans_are_byte_exact_after_multibyte_text() {
    let src = "fn f() { let ß = 1; let _v: Vec<u8> = Vec::with_capacity(42); }\n";
    let mut c = SiteCollector::new(src, "test.rs", false);
    let start = src[..src.find("Vec::with").unwrap()].chars().count();
    let arg = src[..src.find("42").unwrap()].chars().count();
    let call = CallInfo {
        segments: Some(vec!["Vec".to_string(), "with_capacity".to_string()]),
        span: span(1, start, 1, start + 22),
        first_arg: Some(ArgInfo { span: span(1, arg, 1, arg + 2), int_literal: Some(42) }),
    };
    c.visit_call(&call);
    let sites = c.into_sites();
    assert_eq!(sites.len(), 1);
    assert_eq!(&src[sites[0].span_bytes.clone()], "42");
}
