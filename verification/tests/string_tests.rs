use captrack::ctor::{string_with_capacity_named, wrap_from, CapInspect};
use captrack::registry::Registry;

fn reg() -> Registry {
    Registry::new(4096)
}

fn peak(r: &Registry, name: &str) -> usize {
    r.entries().iter().filter(|e| e.name == name).flat_map(|e| e.samples.clone()).max().unwrap_or(0)
}

fn count(r: &Registry, name: &str) -> u64 {
    r.entries().iter().filter(|e| e.name == name).map(|e| e.creation_count).sum()
}

#[test]
fn string_tests_wrap_from_records_creation() {
    let mut r = reg();
    let before = count(&r, "test/string/wrap_creation");
    let inner = String::with_capacity(32);
    let _t = wrap_from(&mut r, inner, "test/string/wrap_creation", "string_tests.rs", 38, 14);
    let after = count(&r, "test/string/wrap_creation");
    assert_eq!(after - before, 1, "wrap_from must increment creation_count");
}

#[test]
fn string_tests_wrap_from_preserves_capacity() {
    let mut r = reg();
    let inner = String::with_capacity(64);
    let cap = inner.capacity();
    let t = wrap_from(&mut r, inner, "test/string/wrap_cap", "string_tests.rs", 47, 13);
    assert_eq!(t.inner.capacity(), cap, "wrap_from must not reallocate");
    let _ = t.into_inner(&mut r);
    assert!(peak(&r, "test/string/wrap_cap") >= cap, "drop must record sample >= initial capacity");
}

#[test]
fn string_tests_drop_records_capacity_sample() {
    let mut r = reg();
    {
        let s = string_with_capacity_named(&mut r, 128, "test/string/drop_cap", "string_tests.rs", 58, 17);
        let _ = s.into_inner(&mut r);
    }
    assert!(peak(&r, "test/string/drop_cap") >= 128, "peak must be at least the initial capacity");
}

#[test]
fn into_inner_converts_to_bare_string() {
    let mut r = reg();
    let t = string_with_capacity_named(&mut r, 16, "test/string/into_inner", "string_tests.rs", 69, 13);
    let bare: String = t.into_inner(&mut r);
    assert!(bare.capacity() >= 16);
    assert!(peak(&r, "test/string/into_inner") >= 16);
}

#[test]
fn deref_allows_string_methods() {
    let mut r = reg();
    let mut t = string_with_capacity_named(&mut r, 64, "test/string/deref", "string_tests.rs", 78, 9);
    t.inner.push_str("hello world");
    assert_eq!(t.inner.len(), 11);
    assert!(t.inner.contains("world"));
}

#[test]
fn string_tests_cap_inspect_works() {
    let mut r = reg();
    let t = string_with_capacity_named(&mut r, 256, "test/string/cap_inspect", "string_tests.rs", 88, 9);
    t.inner.cap_inspect_at(&mut r, "test/string/cap_inspect_at", "string_tests.rs", 90, 5);
    assert!(t.inner.capacity() >= 256);
}
