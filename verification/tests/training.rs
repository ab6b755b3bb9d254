use ravensaid::train::{checkpoint_name, count_successes, dec_bytes, shard_bounds, use_reduced_rate};

#[test]
fn shard_rotates_by_epoch() {
    assert_eq!(shard_bounds(100, 0), (0, 10));
    assert_eq!(shard_bounds(100, 3), (30, 40));
    assert_eq!(shard_bounds(100, 23), (30, 40));
    assert_eq!(shard_bounds(100, 9), (90, 100));
}

#[test]
fn shard_stays_inside_uneven_sets() {
    assert_eq!(shard_bounds(17, 9), (9, 10));
    assert_eq!(shard_bounds(7, 5), (0, 0));
    for epoch in 0..20 {
        let (start, end) = shard_bounds(17, epoch);
        assert!(start <= end && end <= 17);
    }
}

#[test]
fn reduced_rate_from_midpoint() {
    assert!(!use_reduced_rate(0, 100));
    assert!(!use_reduced_rate(49, 100));
    assert!(use_reduced_rate(50, 100));
    assert!(use_reduced_rate(99, 100));
}

#[test]
fn decimal_rendering_is_exact() {
    assert_eq!(dec_bytes(0), b"0".to_vec());
    assert_eq!(dec_bytes(7), b"7".to_vec());
    assert_eq!(dec_bytes(90017), b"90017".to_vec());
    assert_eq!(dec_bytes(u64::MAX), b"18446744073709551615".to_vec());
}

#[test]
fn checkpoint_names_carry_prefix_and_epoch() {
    assert_eq!(checkpoint_name(b"", 0), b"./epoch_0.nn".to_vec());
    assert_eq!(checkpoint_name(b"second_", 17), b"./second_epoch_17.nn".to_vec());
    assert_eq!(checkpoint_name(b"x", 100), b"./xepoch_100.nn".to_vec());
}

#[test]
fn successes_count_agreements() {
    let preds = vec![true, false, true, true];
    let labels = vec![true, true, true, false];
    assert_eq!(count_successes(&preds, &labels), 2);
    assert_eq!(count_successes(&Vec::new(), &Vec::new()), 0);
}
