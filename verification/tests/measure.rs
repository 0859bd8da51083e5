//! What a measured transfer tells.

use protocol::measure::{average, speed};

#[test]
fn speeds() {
    assert_eq!(speed(4000 * (1 << 20), 5_000), 6_710);
    assert_eq!(speed(1_999, 1), 8);
    assert_eq!(speed(999, 1), 0);
}

#[test]
fn averages() {
    assert_eq!(average(&[4760, 4723, 4725, 4756, 4720, 4712]), Some(4732));
    assert_eq!(average(&[3, 4]), Some(3));
    assert_eq!(average(&[]), None);
    assert_eq!(average(&[u64::MAX]), Some(u64::MAX));
    assert_eq!(average(&[u64::MAX, 1]), None);
}
