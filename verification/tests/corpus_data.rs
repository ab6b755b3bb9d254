use ravensaid::corpus::{build_balanced, split_entries, split_validation};

fn numbered(tag: u8, n: usize) -> Vec<Vec<u8>> {
    (0..n).map(|i| vec![tag, i as u8]).collect()
}

#[test]
fn split_on_blank_lines() {
    let r = split_entries(b"first quote\n\nsecond quote\n\nthird");
    let expect: Vec<Vec<u8>> = vec![
        b"first quote".to_vec(),
        b"second quote".to_vec(),
        b"third".to_vec(),
    ];
    assert_eq!(r, expect);
}

#[test]
fn split_keeps_single_newlines() {
    let r = split_entries(b"a line\nanother line\n\nnext entry");
    assert_eq!(
        r,
        vec![b"a line\nanother line".to_vec(), b"next entry".to_vec()]
    );
}

#[test]
fn split_empty_text_gives_one_empty_entry() {
    assert_eq!(split_entries(b""), vec![Vec::<u8>::new()]);
}

#[test]
fn split_separators_do_not_overlap() {
    // Three newlines: one separator, then an entry starting with a newline.
    assert_eq!(
        split_entries(b"a\n\n\nb"),
        vec![b"a".to_vec(), b"\nb".to_vec()]
    );
    // Four newlines: two separators with an empty entry between them.
    assert_eq!(
        split_entries(b"a\n\n\n\nb"),
        vec![b"a".to_vec(), Vec::new(), b"b".to_vec()]
    );
}

#[test]
fn split_trailing_separator_gives_trailing_empty_entry() {
    assert_eq!(split_entries(b"a\n\n"), vec![b"a".to_vec(), Vec::new()]);
}

#[test]
fn balanced_dataset_is_three_times_shortest() {
    let target = numbered(b'T', 10);
    let other_a = numbered(b'A', 50);
    let other_b = numbered(b'B', 8);
    let data = build_balanced(&target, &other_a, &other_b);
    assert_eq!(data.len(), 24);
}

#[test]
fn balanced_dataset_rotates_and_labels() {
    let target = numbered(b'T', 3);
    let other_a = numbered(b'A', 3);
    let other_b = numbered(b'B', 4);
    let data = build_balanced(&target, &other_a, &other_b);
    assert_eq!(data.len(), 9);
    for k in 0..3 {
        assert_eq!(data[3 * k].text, other_a[k]);
        assert!(!data[3 * k].label);
        assert_eq!(data[3 * k + 1].text, target[k]);
        assert!(data[3 * k + 1].label);
        assert_eq!(data[3 * k + 2].text, other_b[k]);
        assert!(!data[3 * k + 2].label);
    }
}

#[test]
fn validation_split_takes_first_fifth() {
    let target = numbered(b'T', 10);
    let other_a = numbered(b'A', 50);
    let other_b = numbered(b'B', 8);
    let data = build_balanced(&target, &other_a, &other_b);
    let (validation, training) = split_validation(data);
    assert_eq!(validation.len(), 4);
    assert_eq!(training.len(), 20);
    // The validation slice is the front of the dataset in order.
    assert_eq!(validation[0].text, other_a[0]);
    assert_eq!(validation[1].text, target[0]);
    // Training continues right where validation stopped.
    assert_eq!(training[0].text, target[1]);
    assert!(training[0].label);
}

#[test]
fn validation_split_of_small_dataset_is_empty() {
    let target = numbered(b'T', 1);
    let data = build_balanced(&target, &target, &target);
    assert_eq!(data.len(), 3);
    let (validation, training) = split_validation(data);
    assert_eq!(validation.len(), 0);
    assert_eq!(training.len(), 3);
}
