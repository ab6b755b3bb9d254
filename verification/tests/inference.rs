use ravensaid::infer::{
    classify_verdict, predicted_label, repl_action, trim_newline, ReplAction, SCALE_TOP,
    VERDICT_OUT_HIGH, VERDICT_OUT_LOW,
};

#[test]
fn verdict_passes_valid_scale_through() {
    assert_eq!(classify_verdict(0), 0);
    assert_eq!(classify_verdict(5000), 5000);
    assert_eq!(classify_verdict(SCALE_TOP as i64), SCALE_TOP);
}

#[test]
fn verdict_flags_output_above_range() {
    assert_eq!(classify_verdict(10001), VERDICT_OUT_HIGH);
    assert_eq!(classify_verdict(20000), -2);
    assert_eq!(classify_verdict(i64::MAX), -2);
}

#[test]
fn verdict_flags_output_below_range() {
    assert_eq!(classify_verdict(-1), VERDICT_OUT_LOW);
    assert_eq!(classify_verdict(-5000), -3);
    assert_eq!(classify_verdict(i64::MIN), -3);
}

#[test]
fn verdict_is_never_outside_scale_or_codes() {
    for scaled in [-20000, -1, 0, 1, 4999, 5000, 10000, 10001, 123456] {
        let v = classify_verdict(scaled);
        assert!(v == -2 || v == -3 || (0..=10000).contains(&v));
    }
}

#[test]
fn prediction_rounds_at_half() {
    assert!(!predicted_label(0));
    assert!(!predicted_label(4999));
    assert!(predicted_label(5000));
    assert!(predicted_label(10000));
}

#[test]
fn trim_strips_one_trailing_newline() {
    assert_eq!(trim_newline(b"hello\n".to_vec()), b"hello".to_vec());
    assert_eq!(trim_newline(b"hello".to_vec()), b"hello".to_vec());
    assert_eq!(trim_newline(b"hello\n\n".to_vec()), b"hello\n".to_vec());
    assert_eq!(trim_newline(b"\n".to_vec()), Vec::<u8>::new());
    assert_eq!(trim_newline(Vec::new()), Vec::<u8>::new());
}

#[test]
fn repl_quits_only_on_exit() {
    assert_eq!(repl_action(b"exit"), ReplAction::Quit);
    assert_eq!(repl_action(b"exit "), ReplAction::Score);
    assert_eq!(repl_action(b"Exit"), ReplAction::Score);
    assert_eq!(repl_action(b""), ReplAction::Skip);
    assert_eq!(repl_action(b"hello there"), ReplAction::Score);
}
