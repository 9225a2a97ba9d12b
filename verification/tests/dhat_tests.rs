use captrack::dhat::{aggregate_pps, parse_frame_location, user_top_frame, Pp};

#[test]
fn parse_frame_location_basic() {
    let f = "0xABC: my_crate::foo (crates/my-crate/src/lib.rs:42:17)";
    let (file, line, col) = parse_frame_location(f).unwrap();
    assert_eq!(file, "crates/my-crate/src/lib.rs".to_string());
    assert_eq!(line, 42);
    assert_eq!(col, 17);
}

#[test]
fn parse_frame_location_no_parens_returns_none() {
    assert!(parse_frame_location("[root]").is_none());
    assert!(parse_frame_location("0xABC: weird symbol").is_none());
}

#[test]
fn parse_frame_location_windows_abs_path() {
    let f = "0xABC: my_crate::bar (D:/dev/rust/myapp/src/main.rs:10:5)";
    let (file, line, col) = parse_frame_location(f).unwrap();
    assert_eq!(file, "D:/dev/rust/myapp/src/main.rs".to_string());
    assert_eq!(line, 10);
    assert_eq!(col, 5);
}

#[test]
fn user_top_frame_skips_std_and_frames_outside_the_workspace() {
    let ftbl = vec![
        "[root]".to_string(),
        "0x1: alloc::vec::Vec::push (/rustc/abc/library/alloc/src/vec/mod.rs:10:5)".to_string(),
        "0x2: dep::f (/home/u/.cargo/registry/src/dep-1.0/src/lib.rs:3:9)".to_string(),
        "0x3: app::g (/work/app/src/main.rs:7:13)".to_string(),
    ];
    let fs = vec![1usize, 2, 3, 0];
    let k = user_top_frame(&fs, &ftbl, "/work/app").unwrap();
    assert_eq!(k.file, "/work/app/src/main.rs".to_string());
    assert_eq!(k.line, 7);
    assert_eq!(k.col, 13);
    // Whole path components: "/work/ap" is no prefix of "/work/app/...".
    assert!(user_top_frame(&vec![3usize], &ftbl, "/work/ap").is_none());
}

#[test]
fn std_frames_are_filtered_out() {
    let pps = vec![Pp { mb: 1024, tbk: 5, fs: vec![0, 1] }];
    let ftbl = vec![
        "[root]".to_string(),
        "0xAA: alloc::alloc::alloc (/rustc/abc/library/alloc/src/alloc.rs:97:9)".to_string(),
    ];
    let stats = aggregate_pps(&pps, &ftbl, "/workspace");
    assert!(stats.is_empty(), "std frames should be filtered: {stats:?}");
}
