use utxo_dump::store::{after_write, summarize_export, WriteStep, MAX_WRITE_ATTEMPTS};

#[test]
fn write_steps_retry_then_give_up() {
    assert_eq!(after_write(true, 1), WriteStep::Written);
    assert_eq!(after_write(true, MAX_WRITE_ATTEMPTS), WriteStep::Written);
    assert_eq!(after_write(false, 1), WriteStep::Retry);
    assert_eq!(after_write(false, MAX_WRITE_ATTEMPTS - 1), WriteStep::Retry);
    assert_eq!(after_write(false, MAX_WRITE_ATTEMPTS), WriteStep::Failed);
}

#[test]
fn summary_lists_failed_positions() {
    let r = summarize_export(&vec![true, false, true, true, false]);
    assert_eq!(r.written, 3);
    assert_eq!(r.failed, vec![1, 4]);
    assert!(!r.is_complete());
}

#[test]
fn summary_of_full_success_is_complete() {
    let r = summarize_export(&vec![true, true]);
    assert_eq!(r.written, 2);
    assert!(r.failed.is_empty());
    assert!(r.is_complete());
    let empty = summarize_export(&vec![]);
    assert_eq!(empty.written, 0);
    assert!(empty.is_complete());
}
