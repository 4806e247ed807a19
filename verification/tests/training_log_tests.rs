use rl_matting::training_log::{
    DEFAULT_TOTAL_PARAMS, DEFAULT_TRAINABLE_PARAMS, empty_scan, epoch_number_exec, find_from_exec, number_after_exec, param_counts_exec,
    scan_line_exec, scan_training_log, value_after_exec,
};

const LOG: &str = "Epochs: 100\n\
Batch size: 16\n\
Learning rate: 0.001\n\
Max steps/episode: 12\n\
PolicyNetwork parameters: 2,000 (trainable 1,500)\n\
[Epoch 1/100] avg_loss=0.5 avg_reward=-0.25 lr=0.001\n\
[Epoch 3/100] avg_loss=0.3 avg_reward=0.75 lr=0.0005\n\
[Epoch 2/100] avg_loss=0.9 avg_reward=0.1 lr=0.002\n";

fn text(v: &Option<Vec<u8>>) -> Option<&str> {
    v.as_ref().map(|b| std::str::from_utf8(b).unwrap())
}

#[test]
fn summary_of_a_training_log() {
    let s = scan_training_log(LOG.as_bytes());
    assert_eq!(text(&s.epochs), Some("100"));
    assert_eq!(text(&s.batch_size), Some("16"));
    assert_eq!(text(&s.learning_rate), Some("0.001"));
    assert_eq!(text(&s.max_steps_per_episode), Some("12"));
    assert_eq!(s.total_params, Some(2000));
    assert_eq!(s.trainable_params, Some(1500));
    assert_eq!(s.last_epoch, 3);
    assert_eq!(text(&s.last_avg_loss), Some("0.3"));
    assert_eq!(text(&s.last_avg_reward), Some("0.75"));
    assert_eq!(text(&s.last_lr), Some("0.0005"));
}

#[test]
fn crlf_line_endings_and_missing_final_newline() {
    let log = "Epochs: 7\r\n[Epoch 4/7] avg_loss=1.5 avg_reward=2 lr=0.01\r\nBatch size: 8";
    let s = scan_training_log(log.as_bytes());
    assert_eq!(text(&s.epochs), Some("7"));
    assert_eq!(text(&s.batch_size), Some("8"));
    assert_eq!(s.last_epoch, 4);
    assert_eq!(text(&s.last_avg_loss), Some("1.5"));
    assert_eq!(text(&s.last_avg_reward), Some("2"));
    assert_eq!(text(&s.last_lr), Some("0.01"));
}

#[test]
fn empty_log_says_nothing() {
    let s = scan_training_log(b"");
    assert_eq!(s.epochs, None);
    assert_eq!(s.total_params, None);
    assert_eq!(s.last_epoch, 0);
    assert_eq!(s.last_lr, None);
}

#[test]
fn equal_epoch_keeps_the_first_record() {
    let log = "[Epoch 5] avg_loss=1 avg_reward=2 lr=3\n[Epoch 5] avg_loss=9 avg_reward=9 lr=9\n";
    let s = scan_training_log(log.as_bytes());
    assert_eq!(s.last_epoch, 5);
    assert_eq!(text(&s.last_avg_loss), Some("1"));
}

#[test]
fn epoch_line_without_values() {
    let s = scan_line_exec(empty_scan(), b"[Epoch 2] done");
    assert_eq!(s.last_epoch, 2);
    assert_eq!(s.last_avg_loss, None);
    assert_eq!(s.last_avg_reward, None);
    assert_eq!(s.last_lr, None);
}

#[test]
fn header_needs_a_colon() {
    let s = scan_line_exec(empty_scan(), b"Epochs 100");
    assert_eq!(s.epochs, None);
    let s = scan_line_exec(empty_scan(), b"Epochs = 100 :");
    assert_eq!(text(&s.epochs), Some("100"));
}

#[test]
fn numbers_after_a_key() {
    assert_eq!(number_after_exec(b"Epochs: 12", b"Epochs"), Some(b"12".to_vec()));
    assert_eq!(number_after_exec(b"Learning rate: .5e-3", b"Learning rate"), Some(b".5".to_vec()));
    assert_eq!(number_after_exec(b"Epochs: 1.2.3", b"Epochs"), None);
    assert_eq!(number_after_exec(b"Epochs: none", b"Epochs"), None);
    assert_eq!(number_after_exec(b"nothing here", b"Epochs"), None);
}

#[test]
fn signed_values_after_a_prefix() {
    assert_eq!(value_after_exec(b"x lr=-0.5e", b"lr="), Some(b"-0.5".to_vec()));
    assert_eq!(value_after_exec(b"avg_loss=", b"avg_loss="), None);
    assert_eq!(value_after_exec(b"avg_loss=1-2", b"avg_loss="), None);
    assert_eq!(value_after_exec(b"avg_loss=--1", b"avg_loss="), None);
}

#[test]
fn epoch_numbers() {
    assert_eq!(epoch_number_exec(b"[Epoch 42/100]"), Some(42));
    assert_eq!(epoch_number_exec(b"[Epoch x]"), None);
    assert_eq!(epoch_number_exec(b"[Epoch 99999999999]"), None);
    assert_eq!(epoch_number_exec(b"[Epoch 4294967295]"), Some(u32::MAX));
    assert_eq!(epoch_number_exec(b"no tag 12"), None);
}

#[test]
fn parameter_counts() {
    assert_eq!(param_counts_exec(b"PolicyNetwork parameters: 1,000 2,000"), (Some(1000), Some(2000)));
    assert_eq!(param_counts_exec(b"PolicyNetwork parameters: 1,142,184 total, 493,720 trainable"), (Some(1142184), None));
    assert_eq!(param_counts_exec(b"PolicyNetwork parameters: 5"), (Some(5), None));
    assert_eq!(param_counts_exec(b"PolicyNetwork parameters:"), (None, None));
}

#[test]
fn find_from_position() {
    assert_eq!(find_from_exec(b"abcabc", b"bc", 0), Some(1));
    assert_eq!(find_from_exec(b"abcabc", b"bc", 2), Some(4));
    assert_eq!(find_from_exec(b"abcabc", b"bd", 0), None);
    assert_eq!(find_from_exec(b"ab", b"abc", 0), None);
}

#[test]
fn parameter_counts_fall_back_to_defaults() {
    let s = scan_training_log(b"nothing useful");
    assert_eq!(s.total_params_or_default(), DEFAULT_TOTAL_PARAMS);
    assert_eq!(s.trainable_params_or_default(), DEFAULT_TRAINABLE_PARAMS);
    assert_eq!(DEFAULT_TOTAL_PARAMS, 1142184);
    assert_eq!(DEFAULT_TRAINABLE_PARAMS, 493720);
    let s = scan_training_log(LOG.as_bytes());
    assert_eq!(s.total_params_or_default(), 2000);
    assert_eq!(s.trainable_params_or_default(), 1500);
}

#[test]
fn epoch_texts_only_after_an_epoch_line() {
    let s = scan_training_log(b"Epochs: 3\n");
    assert_eq!(s.epoch_texts(), (None, None, None));
    let s = scan_training_log(LOG.as_bytes());
    let (loss, reward, lr) = s.epoch_texts();
    assert_eq!(loss, Some(&b"0.3"[..]));
    assert_eq!(reward, Some(&b"0.75"[..]));
    assert_eq!(lr, Some(&b"0.0005"[..]));
}
