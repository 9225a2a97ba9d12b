use captrack::ctor::{btreemap_new_named, vec_with_capacity_named, vecdeque_with_capacity_named, CapInspect, IntoInner};
use captrack::dump::{dump_capacity_stats, DUMP_VERSION};
use captrack::registry::{record_creation, record_initial, record_sample, Registry};

#[test]
fn creation_count_counts_constructions_and_keeps_first_name() {
    let mut reg = Registry::new(16);
    record_creation(&mut reg, "first", "f.rs", 1, 2);
    record_creation(&mut reg, "second", "f.rs", 1, 2);
    let st = reg.get("f.rs", 1, 2).unwrap();
    assert_eq!(st.creation_count, 2);
    assert_eq!(st.name, "first");
    assert_eq!(st.samples.total_observed(), 0);
    assert_eq!(reg.len(), 1);
}

#[test]
fn distinct_locations_are_distinct_sites() {
    let mut reg = Registry::new(16);
    record_creation(&mut reg, "a", "f.rs", 1, 2);
    record_creation(&mut reg, "a", "f.rs", 1, 3);
    record_creation(&mut reg, "a", "g.rs", 1, 2);
    assert_eq!(reg.len(), 3);
}

#[test]
fn mixed_binding_creation_count_stays_one() {
    let mut reg = Registry::new(16);
    let name = "creation_count_tests:mixed";
    let (ctor_file, ctor_line, ctor_col) = ("creation_count_tests.rs", 106u32, 44u32);
    record_creation(&mut reg, name, ctor_file, ctor_line, ctor_col);
    let before_cc = reg.get(ctor_file, ctor_line, ctor_col).unwrap().creation_count;
    let before_to = reg.get(ctor_file, ctor_line, ctor_col).unwrap().samples.total_observed();
    let v: Vec<u32> = Vec::with_capacity(16);
    CapInspect::cap_inspect_at(&v, &mut reg, name, ctor_file, ctor_line, ctor_col);
    CapInspect::cap_inspect_at(&v, &mut reg, name, ctor_file, ctor_line, ctor_col);
    CapInspect::cap_inspect_at(&v, &mut reg, name, ctor_file, ctor_line, ctor_col);
    let st = reg.get(ctor_file, ctor_line, ctor_col).unwrap();
    assert_eq!(
        st.creation_count - before_cc,
        0,
        "cap_inspect_at must not increment creation_count; it was already set by record_creation"
    );
    assert_eq!(st.samples.total_observed() - before_to, 3, "3 cap_inspect_at calls must produce 3 samples");
    record_sample(&mut reg, ctor_file, ctor_line, ctor_col, v.capacity());
    let st = reg.get(ctor_file, ctor_line, ctor_col).unwrap();
    assert_eq!(st.samples.total_observed() - before_to, 4, "3 cap_inspect + 1 Drop = 4 total observations");
    assert_eq!(st.creation_count - before_cc, 0, "creation_count must remain unchanged after all samples");
}

#[test]
fn cap_inspect_only_site_does_not_create_orphan_entry() {
    let mut reg = Registry::new(16);
    let orphan_name = "creation_count_tests:orphan_never_registered";
    let orphan_file = "orphan_src/not_a_real_file.rs";
    let orphan_line: u32 = 99_999;
    let orphan_col: u32 = 1;
    let has_entry = |r: &Registry| r.entries().iter().any(|e| e.name == orphan_name);
    assert!(!has_entry(&reg), "precondition: orphan site must not be in the registry");
    let v: Vec<u32> = Vec::with_capacity(8);
    CapInspect::cap_inspect_at(&v, &mut reg, orphan_name, orphan_file, orphan_line, orphan_col);
    assert!(!has_entry(&reg), "cap_inspect_at on unregistered site must not create a registry entry");
    assert!(reg.get(orphan_file, orphan_line, orphan_col).is_none(), "orphan cap_inspect must not affect creation_count");
    assert_eq!(reg.len(), 0, "orphan cap_inspect must not record any observations");
}

#[test]
fn record_initial_counts_and_samples() {
    let mut reg = Registry::new(16);
    record_initial(&mut reg, "owned", "o.rs", 3, 1, 64);
    let st = reg.get("o.rs", 3, 1).unwrap();
    assert_eq!(st.creation_count, 1);
    assert_eq!(st.samples.snapshot(), vec![64]);
}

#[test]
fn with_capacity_named_construction_count_one() {
    let mut reg = Registry::new(16);
    let name = "creation_count_tests:with_capacity_named_count_one";
    let _t = vecdeque_with_capacity_named::<u32>(&mut reg, 16, name, "creation_count_tests.rs", 259, 9);
    let count: u64 = reg.entries().iter().filter(|e| e.name == name).map(|e| e.creation_count).sum();
    assert_eq!(count, 1, "with_capacity_named must increment creation_count exactly once");
}

#[test]
fn released_vector_records_its_capacity() {
    let mut reg = Registry::new(16);
    let mut t = vec_with_capacity_named::<u32>(&mut reg, 16, "tvec", "v.rs", 5, 9);
    t.inner.push(1);
    assert_eq!(reg.get("v.rs", 5, 9).unwrap().creation_count, 1);
    let inner = t.into_inner(&mut reg);
    assert_eq!(inner, vec![1]);
    let st = reg.get("v.rs", 5, 9).unwrap();
    assert_eq!(st.samples.total_observed(), 1);
    assert!(st.samples.snapshot()[0] >= 16);
}

#[test]
fn btreemap_records_length_on_release() {
    let mut reg = Registry::new(16);
    let mut t = btreemap_new_named::<u32, u32>(&mut reg, 0, "tmap", "b.rs", 1, 1);
    t.inner.insert(1, 2);
    t.inner.insert(3, 4);
    let _m = t.into_inner(&mut reg);
    assert_eq!(reg.get("b.rs", 1, 1).unwrap().samples.snapshot(), vec![2]);
}

#[test]
fn into_inner_identity_on_bare_collections() {
    let v: Vec<u32> = vec![1, 2];
    assert_eq!(IntoInner::into_inner(v), vec![1, 2]);
}

#[test]
fn dump_orders_by_largest_sample_then_registration() {
    let mut reg = Registry::new(16);
    record_initial(&mut reg, "small", "a.rs", 1, 1, 8);
    record_initial(&mut reg, "big", "b.rs", 1, 1, 1024);
    record_creation(&mut reg, "empty", "c.rs", 1, 1);
    record_initial(&mut reg, "tie", "d.rs", 1, 1, 8);
    let d = dump_capacity_stats(&reg);
    assert_eq!(d.version, DUMP_VERSION);
    let names: Vec<&str> = d.stats.iter().map(|e| e.name.as_str()).collect();
    assert_eq!(names, vec!["big", "small", "tie", "empty"]);
    assert_eq!(d.stats[0].samples, vec![1024]);
    assert_eq!(d.stats[3].creation_count, 1);
}

#[test]
fn dump_includes_total_observed_counts() {
    let mut reg = Registry::new(2);
    record_initial(&mut reg, "bounded", "a.rs", 3, 4, 8);
    record_sample(&mut reg, "a.rs", 3, 4, 9);
    record_sample(&mut reg, "a.rs", 3, 4, 10);
    record_sample(&mut reg, "a.rs", 3, 4, 11);
    record_creation(&mut reg, "unsampled", "b.rs", 1, 1);
    let d = dump_capacity_stats(&reg);
    assert_eq!(d.observed.len(), d.stats.len());
    assert_eq!(d.stats[0].name, "bounded");
    assert_eq!(d.observed[0], 4);
    assert_eq!(d.stats[0].samples.len(), 2);
    assert_eq!(d.observed[1], 0);
    for i in 0..d.stats.len() {
        assert!(d.observed[i] >= d.stats[i].samples.len() as u64);
    }
}
