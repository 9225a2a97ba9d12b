#[test]
fn t() {
    let _v: Vec<u32> = Vec::with_capacity(99);
}
