use captrack::rules::{apply_rounding, Rounding};

#[test]
fn next_pow2_rounding() {
    assert_eq!(apply_rounding(1, Rounding::NextPow2), 1);
    assert_eq!(apply_rounding(2, Rounding::NextPow2), 2);
    assert_eq!(apply_rounding(3, Rounding::NextPow2), 4);
    assert_eq!(apply_rounding(60, Rounding::NextPow2), 64);
    assert_eq!(apply_rounding(65, Rounding::NextPow2), 128);
}

#[test]
fn round_to_8() {
    assert_eq!(apply_rounding(0, Rounding::To8), 0);
    assert_eq!(apply_rounding(1, Rounding::To8), 8);
    assert_eq!(apply_rounding(8, Rounding::To8), 8);
    assert_eq!(apply_rounding(9, Rounding::To8), 16);
    assert_eq!(apply_rounding(60, Rounding::To8), 64);
}

#[test]
fn exact_rounding() {
    assert_eq!(apply_rounding(63, Rounding::Exact), 63);
    assert_eq!(apply_rounding(0, Rounding::Exact), 0);
}

#[test]
fn rounding_twice_changes_nothing() {
    for mode in [Rounding::Exact, Rounding::To8, Rounding::NextPow2] {
        for n in [0usize, 1, 2, 3, 7, 8, 9, 100, 1025, usize::MAX - 3, usize::MAX] {
            let r = apply_rounding(n, mode);
            assert_eq!(apply_rounding(r, mode), r);
        }
    }
}
