use mrt_prefetch::budget::SpaceBudget;
use mrt_prefetch::fetch::{admit_buffer, plan_fetch, FetchPlan, MAX_INITIAL_BUFFER};
use mrt_prefetch::router::{compression_for, ends_with, Compression};
use std::sync::Arc;

#[test]
fn router_picks_transform_by_suffix() {
    assert_eq!(compression_for("http://x/updates.20240101.0000.gz"), Compression::Gzip);
    assert_eq!(compression_for("a.gzip"), Compression::Gzip);
    assert_eq!(compression_for("rib.bz2"), Compression::Bzip2);
    assert_eq!(compression_for("rib.bz"), Compression::Bzip2);
    assert_eq!(compression_for("rib.lz4"), Compression::Lz4);
    assert_eq!(compression_for("rib.lz"), Compression::Lz4);
    assert_eq!(compression_for("rib.mrt"), Compression::Identity);
    assert_eq!(compression_for(""), Compression::Identity);
    assert_eq!(compression_for("gz"), Compression::Identity);
}

#[test]
fn suffix_check_compares_the_tail() {
    assert!(ends_with("abc", "bc"));
    assert!(ends_with("abc", ""));
    assert!(!ends_with("bc", "abc"));
    assert!(!ends_with("abc", "bd"));
}

#[test]
fn plan_buffers_when_granted_and_streams_otherwise() {
    let budget = SpaceBudget::new(1000, 400);
    assert_eq!(
        plan_fetch(&budget, 300),
        FetchPlan::Buffered { claimed: 600, initial_capacity: 300 }
    );
    assert_eq!(plan_fetch(&budget, 300), FetchPlan::Streaming);
    assert_eq!(plan_fetch(&budget, 0), FetchPlan::Streaming);
    assert_eq!(plan_fetch(&budget, 401), FetchPlan::Streaming);
}

#[test]
fn plan_caps_initial_capacity() {
    let budget = SpaceBudget::new(1 << 40, 1 << 30);
    assert_eq!(
        plan_fetch(&budget, 1 << 29),
        FetchPlan::Buffered { claimed: 1 << 30, initial_capacity: MAX_INITIAL_BUFFER as usize }
    );
}

#[test]
fn buffer_reads_then_returns_its_claim_once() {
    let budget = Arc::new(SpaceBudget::new(1000, 1000));
    let claimed = budget.try_claim(50).unwrap();
    assert_eq!(budget.remaining(), 900);
    let mut data = Vec::with_capacity(10);
    data.extend_from_slice(&[1, 2, 3, 4, 5]);
    let (mut guard, adjustment) = admit_buffer(budget.clone(), claimed, data);
    assert_eq!(budget.remaining(), 900 + adjustment);
    let mut buf = [0u8; 3];
    assert_eq!(guard.read_into(&mut buf), 3);
    assert_eq!(buf, [1, 2, 3]);
    assert_eq!(guard.fill_buf(), &[4, 5]);
    let mut big = [9u8; 4];
    assert_eq!(guard.read_into(&mut big), 2);
    assert_eq!(big, [4, 5, 9, 9]);
    assert_eq!(guard.read_into(&mut big), 0);
    let returned = guard.finish();
    assert_eq!(returned + adjustment, 100);
    assert_eq!(budget.remaining(), 1000);
    assert_eq!(guard.finish(), 0);
    assert_eq!(budget.remaining(), 1000);
}

#[test]
fn consume_stops_at_the_end() {
    let budget = Arc::new(SpaceBudget::new(1000, 1000));
    let (mut guard, _) = admit_buffer(budget, 0, vec![1, 2, 3]);
    guard.consume(2);
    assert_eq!(guard.fill_buf(), &[3]);
    guard.consume(10);
    assert!(guard.fill_buf().is_empty());
}
