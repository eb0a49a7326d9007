use kafka_pipe::consume::{ConsumeAction, ConsumeEvent, ConsumeState};
use kafka_pipe::utils::{ClapFetchOffsetWrapper, ClapRequiredAcksWrapper};
use kafka_pipe::lines::split_records;
use kafka_pipe::produce::{fill_span, fill_wants_more, plan_publish, PublishPlan,
    REASONABLE_AMOUNT_OF_BYTES};

#[test]
fn scenario_threshold_split() {
    // Input "a\nb\n\nc\n" with the threshold reached after the read: the
    // produced records are "a", "b", "c", and no record for the empty line.
    let buf: Vec<u8> = b"a\nb\n\nc\n".to_vec();
    let recs = split_records(&buf);
    assert_eq!(recs, vec![b"a".to_vec(), b"b".to_vec(), b"c".to_vec()]);
    match plan_publish(&buf) {
        PublishPlan::Publish(recs) => {
            assert_eq!(recs, vec![b"a".to_vec(), b"b".to_vec(), b"c".to_vec()]);
        }
        _ => panic!("a buffer with usable lines must be published"),
    }
}

#[test]
fn scenario_batch_output() {
    // A poll yields three messages "x", "y", "z": the output stream is
    // exactly "x\ny\nz\n", and one commit ends the fully successful round.
    let payloads = vec![b"x".to_vec(), b"y".to_vec(), b"z".to_vec()];
    let out = kafka_pipe::consume::render_batch(&payloads);
    assert_eq!(out, b"x\ny\nz\n".to_vec());

    let mut state = ConsumeState::new(2);
    let mut commits = 0;
    // One iteration: dispatch the whole batch, then commit once.
    let action = state.on_event(ConsumeEvent::CommitSucceeded);
    commits += 1;
    assert!(matches!(action, ConsumeAction::Proceed));
    assert_eq!(commits, 1);
    assert_eq!(state.sequential_errors, 0);
}

#[test]
fn scenario_commit_failure_budget() {
    // max-errors = 2 and every commit fails: the pipeline polls twice, the
    // counter reaches the budget, and no third poll happens.
    let mut state = ConsumeState::new(2);
    let mut polls = 0;
    while !state.should_stop() {
        polls += 1;
        assert!(polls <= 2, "the budget must stop the loop before a third poll");
        let action = state.on_event(ConsumeEvent::CommitFailed);
        assert!(matches!(action, ConsumeAction::Proceed));
    }
    assert_eq!(polls, 2);
    assert_eq!(state.sequential_errors, 2);
}

#[test]
fn scenario_eof_mid_fill() {
    // The input closes mid-fill with buffered unflushed lines: the fill pass
    // reports end of input, and the buffered lines are still published.
    let input: Vec<u8> = b"x\ny".to_vec();
    let outcome = fill_span(&input, 0, 100);
    assert!(outcome.eof);
    assert_eq!(outcome.end, input.len());
    let buf: Vec<u8> = input[..outcome.end].to_vec();
    match plan_publish(&buf) {
        PublishPlan::Publish(recs) => {
            assert_eq!(recs, vec![b"x".to_vec(), b"y".to_vec()]);
        }
        _ => panic!("buffered lines must still be published at end of input"),
    }
}

#[test]
fn threshold_zero_never_stops() {
    let mut state = ConsumeState::new(0);
    assert!(!state.should_stop());
    for _ in 0..50 {
        state.on_event(ConsumeEvent::PollFailed);
        assert!(!state.should_stop());
    }
}

#[test]
fn threshold_stops_at_and_above_max() {
    let below = ConsumeState { max_errors: 3, sequential_errors: 2 };
    assert!(!below.should_stop());
    let at = ConsumeState { max_errors: 3, sequential_errors: 3 };
    assert!(at.should_stop());
    let above = ConsumeState { max_errors: 3, sequential_errors: 7 };
    assert!(above.should_stop());
}

#[test]
fn empty_batch_resets_counter() {
    // Re-polling right after an empty batch starts from a zero counter,
    // whatever the counter was before.
    for prior in [0usize, 1, 5, 17, 9999] {
        let mut state = ConsumeState { max_errors: 4, sequential_errors: prior };
        let action = state.on_event(ConsumeEvent::EmptyBatch);
        assert!(matches!(action, ConsumeAction::BackoffShort));
        assert_eq!(state.sequential_errors, 0);
    }
}

#[test]
fn poll_failure_counts_and_backs_off() {
    let mut state = ConsumeState::new(5);
    let action = state.on_event(ConsumeEvent::PollFailed);
    assert!(matches!(action, ConsumeAction::BackoffLong));
    assert_eq!(state.sequential_errors, 1);
}

#[test]
fn write_failure_is_fatal_not_counted() {
    let mut state = ConsumeState { max_errors: 5, sequential_errors: 3 };
    let action = state.on_event(ConsumeEvent::WriteFailed);
    assert!(matches!(action, ConsumeAction::Shutdown));
    assert_eq!(state.sequential_errors, 3);
}

#[test]
fn mark_and_commit_failures_count() {
    let mut state = ConsumeState::new(10);
    state.on_event(ConsumeEvent::MarkFailed);
    assert_eq!(state.sequential_errors, 1);
    state.on_event(ConsumeEvent::CommitFailed);
    assert_eq!(state.sequential_errors, 2);
}

#[test]
fn commit_success_resets_counter() {
    let mut state = ConsumeState { max_errors: 10, sequential_errors: 7 };
    let action = state.on_event(ConsumeEvent::CommitSucceeded);
    assert!(matches!(action, ConsumeAction::Proceed));
    assert_eq!(state.sequential_errors, 0);
}

#[test]
fn error_counter_saturates() {
    let mut state = ConsumeState { max_errors: 0, sequential_errors: usize::MAX };
    state.on_event(ConsumeEvent::PollFailed);
    assert_eq!(state.sequential_errors, usize::MAX);
}

#[test]
fn split_empty_buffer() {
    let recs = split_records(&Vec::new());
    assert!(recs.is_empty());
}

#[test]
fn split_only_delimiters_is_anomaly() {
    // Bytes but not one usable line: the produce loop treats this as a
    // delimiter mismatch and terminates.
    let buf: Vec<u8> = b"\n\n\n".to_vec();
    assert!(split_records(&buf).is_empty());
    assert!(matches!(plan_publish(&buf), PublishPlan::Anomaly));
}

#[test]
fn plan_empty_buffer_is_idle() {
    assert!(matches!(plan_publish(&Vec::new()), PublishPlan::Idle));
}

#[test]
fn split_trailing_partial_line() {
    let buf: Vec<u8> = b"a\nbc".to_vec();
    let recs = split_records(&buf);
    assert_eq!(recs, vec![b"a".to_vec(), b"bc".to_vec()]);
}

#[test]
fn render_empty_batch() {
    let out = kafka_pipe::consume::render_batch(&Vec::new());
    assert!(out.is_empty());
}

#[test]
fn render_single_payload() {
    // Exactly one newline byte follows the payload.
    let out = kafka_pipe::consume::render_batch(&vec![b"hello".to_vec()]);
    assert_eq!(out, b"hello\n".to_vec());
}

#[test]
fn fill_stops_at_threshold_on_line_boundary() {
    // Reads are delimiter-terminated: the pass that crosses the threshold
    // finishes its line, and the chunk ends on the delimiter.
    let input: Vec<u8> = b"aaaa\nbb\ncc\n".to_vec();
    let outcome = fill_span(&input, 0, 3);
    assert_eq!(outcome.end, 5);
    assert!(!outcome.eof);
    assert_eq!(input[outcome.end - 1], b'\n');
}

#[test]
fn fill_exhaustion_at_threshold_is_not_eof() {
    // The input runs out exactly when the threshold is met: no read returned
    // zero bytes, so end of input is only observed by the next pass.
    let input: Vec<u8> = b"ab\n".to_vec();
    let first = fill_span(&input, 0, 3);
    assert_eq!(first.end, 3);
    assert!(!first.eof);
    let second = fill_span(&input, first.end, 3);
    assert_eq!(second.end, 3);
    assert!(second.eof);
}

#[test]
fn fill_wants_more_below_threshold() {
    assert!(fill_wants_more(0, REASONABLE_AMOUNT_OF_BYTES));
    assert!(fill_wants_more(REASONABLE_AMOUNT_OF_BYTES - 1, REASONABLE_AMOUNT_OF_BYTES));
    assert!(!fill_wants_more(REASONABLE_AMOUNT_OF_BYTES, REASONABLE_AMOUNT_OF_BYTES));
}

#[test]
fn offset_and_acks_labels() {
    assert_eq!(ClapFetchOffsetWrapper::Latest.label(), "latest");
    assert_eq!(ClapFetchOffsetWrapper::Earliest.label(), "earliest");
    assert_eq!(ClapRequiredAcksWrapper::NoAcks.label(), "none");
    assert_eq!(ClapRequiredAcksWrapper::One.label(), "one");
    assert_eq!(ClapRequiredAcksWrapper::All.label(), "all");
}
