use candi::cache::CacheKey;
use candi::layout::{pages_per_row, Flow};
use candi::render::coalesce;

fn req(page: usize, scale_q: u16) -> CacheKey {
    CacheKey { page, scale_q }
}

fn coalesce_requests(batch: &[CacheKey]) -> Vec<CacheKey> {
    let pages: Vec<usize> = batch.iter().map(|r| r.page).collect();
    coalesce(&pages).into_iter().map(|i| batch[i]).collect()
}

#[test]
fn coalesce_keeps_newest_per_key_in_last_seen_order() {
    let batch = vec![req(0, 100), req(1, 100), req(0, 100), req(2, 100), req(1, 125)];
    assert_eq!(coalesce_requests(&batch), vec![req(0, 100), req(2, 100), req(1, 125)]);
}

#[test]
fn coalesce_preserves_unique_batches_and_handles_empty() {
    let batch = vec![req(2, 100), req(0, 100)];
    assert_eq!(coalesce_requests(&batch), batch);
    assert!(coalesce(&[]).is_empty());
}

#[test]
fn coalesce_returns_positions_of_the_newest_requests() {
    assert_eq!(coalesce(&[5, 5, 5]), vec![2]);
    assert_eq!(coalesce(&[1, 2, 1, 3]), vec![1, 2, 3]);
}

#[test]
fn spreads_hold_two_pages_per_row() {
    assert_eq!(pages_per_row(Flow::Dual), 2);
    assert_eq!(pages_per_row(Flow::Continuous), 1);
    assert_eq!(pages_per_row(Flow::Single), 1);
}
