use iyon_tui::scrollback::{
    flush_result, plan_flush, transcript_prefix_len, CommitProgress, CommitRowsOutcome, FlushPlan, FlushResult,
    MAX_ROWS_PER_COMMIT,
};

#[test]
fn rows_are_offered_in_chunks_of_at_most_one_terminal_insert() {
    let mut progress = CommitProgress::new(70_000);
    assert_eq!(progress.next_chunk(), Some((0, MAX_ROWS_PER_COMMIT)));
    progress.record(MAX_ROWS_PER_COMMIT, MAX_ROWS_PER_COMMIT, false);
    assert_eq!(progress.next_chunk(), Some((65_535, 4_465)));
    progress.record(4_465, 4_465, false);
    assert_eq!(progress.next_chunk(), None);
    let outcome = progress.outcome();
    assert_eq!(outcome, CommitRowsOutcome { inserted: 70_000, requested: 70_000 });
    assert!(outcome.is_complete());
    assert!(!outcome.is_blocked());
}

#[test]
fn a_partial_insert_stops_the_commit_at_what_the_terminal_took() {
    let mut progress = CommitProgress::new(10);
    let (start, len) = progress.next_chunk().unwrap();
    assert_eq!((start, len), (0, 10));
    progress.record(len, 4, false);
    assert_eq!(progress.next_chunk(), None);
    let outcome = progress.outcome();
    assert_eq!(outcome.inserted, 4);
    assert!(!outcome.is_complete());
}

#[test]
fn reported_trouble_stops_the_commit_even_after_a_full_chunk() {
    let mut progress = CommitProgress::new(70_000);
    progress.record(MAX_ROWS_PER_COMMIT, MAX_ROWS_PER_COMMIT, true);
    assert_eq!(progress.next_chunk(), None);
    assert_eq!(progress.outcome().inserted, MAX_ROWS_PER_COMMIT);
}

#[test]
fn an_empty_commit_offers_nothing_and_is_not_blocked() {
    let progress = CommitProgress::new(0);
    assert_eq!(progress.next_chunk(), None);
    assert!(!progress.outcome().is_blocked());
    assert!(CommitRowsOutcome { inserted: 0, requested: 3 }.is_blocked());
}

#[test]
fn flush_plans_follow_the_committable_prefix() {
    assert_eq!(plan_flush(0, 5, 10), FlushPlan::Done);
    assert_eq!(plan_flush(7, 0, 10), FlushPlan::Blocked);
    assert_eq!(plan_flush(7, 5, 10), FlushPlan::Commit(5));
    assert_eq!(plan_flush(7, 9, 3), FlushPlan::Commit(3));
    assert_eq!(plan_flush(2, 9, 3), FlushPlan::Commit(2));
}

#[test]
fn flush_results_report_progress_and_blockage() {
    let took_none = CommitRowsOutcome { inserted: 0, requested: 4 };
    let took_some = CommitRowsOutcome { inserted: 2, requested: 4 };
    assert_eq!(flush_result(0, took_none), FlushResult::Done);
    assert_eq!(flush_result(3, took_none), FlushResult::Blocked);
    assert_eq!(flush_result(3, took_some), FlushResult::More);
}

#[test]
fn transcript_prefix_takes_the_smallest_bound() {
    assert_eq!(transcript_prefix_len(10, 4, 6), 4);
    assert_eq!(transcript_prefix_len(3, 4, 6), 3);
    assert_eq!(transcript_prefix_len(10, 8, 6), 6);
    assert_eq!(transcript_prefix_len(0, 8, 6), 0);
}
