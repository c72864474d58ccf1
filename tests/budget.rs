use mrt_prefetch::budget::{claim_step, SpaceBudget};
use mrt_prefetch::fetch::attempt_to_claim_space;

#[test]
fn claim_rejects_non_positive_and_oversized_estimates() {
    let budget = SpaceBudget::new(1 << 40, 1 << 30);
    assert_eq!(budget.try_claim(0), None);
    assert_eq!(budget.try_claim(-5), None);
    assert_eq!(budget.try_claim((1 << 30) + 1), None);
    assert_eq!(budget.remaining(), 1 << 40);
    assert_eq!(budget.try_claim(1 << 30), Some(1 << 31));
}

#[test]
fn claim_takes_twice_the_estimate() {
    let budget = SpaceBudget::new(100, 1000);
    assert_eq!(attempt_to_claim_space(&budget, 30), Some(60));
    assert_eq!(budget.remaining(), 40);
    assert_eq!(budget.try_claim(30), None);
    assert_eq!(budget.remaining(), 40);
    assert_eq!(budget.try_claim(20), Some(40));
    assert_eq!(budget.remaining(), 0);
}

#[test]
fn releases_restore_the_initial_capacity() {
    let budget = SpaceBudget::new(500, 1000);
    let a = budget.try_claim(100).unwrap();
    let b = budget.try_claim(50).unwrap();
    assert!(budget.remaining() >= 0);
    budget.release(b);
    budget.release(a);
    assert_eq!(budget.remaining(), 500);
    assert_eq!(budget.capacity(), 500);
}

#[test]
fn interleaved_claims_never_overdraw() {
    let budget = SpaceBudget::new(100, 1000);
    let mut held = Vec::new();
    for size in [10, 30, 5, 40, 20, 1] {
        if let Some(amount) = budget.try_claim(size) {
            held.push(amount);
        }
        assert!(budget.remaining() >= 0);
    }
    assert_eq!(held, vec![20, 60, 10, 2]);
    assert_eq!(budget.remaining(), 8);
    while let Some(amount) = held.pop() {
        budget.release(amount);
    }
    assert_eq!(budget.remaining(), 100);
}

#[test]
fn claim_reports_the_counter_it_saw() {
    let budget = SpaceBudget::new(4294967295, 1 << 30);
    let c = budget.claim(1 << 30);
    assert_eq!(c.granted, Some(1 << 31));
    assert_eq!(c.observed, Some(4294967295));
    assert_eq!(budget.remaining(), 4294967295 - (1 << 31));
    let refused = budget.claim(0);
    assert_eq!(refused.granted, None);
    assert_eq!(refused.observed, None);
    let small = SpaceBudget::new(1, 10);
    let c = small.claim(1);
    assert_eq!(c.granted, None);
    assert_eq!(c.observed, Some(1));
    assert_eq!(small.remaining(), 1);
    assert_eq!(small.release(5), 1);
    assert_eq!(small.remaining(), 6);
}

#[test]
fn claim_step_refuses_below_zero() {
    assert_eq!(claim_step(10, 4), Some(6));
    assert_eq!(claim_step(4, 4), Some(0));
    assert_eq!(claim_step(3, 4), None);
}
