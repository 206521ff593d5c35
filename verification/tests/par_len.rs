use minis::rayon::latch::Latch;
use minis::rayon::par_iter::len::ParallelLen;
use minis::rayon::par_iter::len::THRESHOLD;

#[test]
fn threshold_is_ten_kibi() {
    assert_eq!(THRESHOLD, 10 * 1024);
}

#[test]
fn left_part_has_mid_items_at_half_cost() {
    let whole = ParallelLen { max_len: 10, cost: 101, sparse: true };
    let left = whole.let_cost(4);
    assert_eq!(left.max_len, 4);
    assert_eq!(left.cost, 50);
    assert!(left.sparse);
}

#[test]
fn right_part_has_the_rest_at_half_cost() {
    let whole = ParallelLen { max_len: 10, cost: 101, sparse: false };
    let right = whole.right_cost(4);
    assert_eq!(right.max_len, 6);
    assert_eq!(right.cost, 50);
    assert!(!right.sparse);
    let none = whole.right_cost(10);
    assert_eq!(none.max_len, 0);
}

#[test]
fn latch_starts_unset_and_stays_set() {
    let latch = Latch::new();
    assert!(!latch.probe());
    latch.set();
    assert!(latch.probe());
    latch.set();
    assert!(latch.probe());
}
