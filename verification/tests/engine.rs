use fenwick_engine::engine::{ErrorKind, FenwickTree};

/// The naive linear-scan prefix sum that the tree must agree with.
fn naive_prefix(arr: &[i64], k: usize) -> i64 {
    arr[..k].iter().sum()
}

/// The sum that tree cell `i` (1-indexed) must hold: the array range
/// assigned to it by the lowest set bit of its index.
fn naive_tree_cell(arr: &[i64], i: usize) -> i64 {
    let lowbit: usize = i & i.wrapping_neg();
    arr[i - lowbit..i].iter().sum()
}

#[test]
fn new_engine_is_zeroed() {
    let e = FenwickTree::new(16);
    assert_eq!(e.len, 16);
    assert_eq!(e.arr, vec![0i64; 16]);
    assert_eq!(e.fenwick, vec![0i64; 16]);
    assert_eq!(e.arr_highlighted, vec![false; 16]);
    assert_eq!(e.fenwick_highlighted, vec![false; 16]);
    assert_eq!(e.query_answer, None);
}

#[test]
fn tree_invariant_holds_after_each_update() {
    let mut e = FenwickTree::new(13);
    let writes: [(usize, i64); 6] = [(3, 5), (1, -7), (13, 100), (8, 41), (3, -2), (7, 9)];
    for &(ind, val) in writes.iter() {
        assert_eq!(e.update(ind, val), Ok(()));
        for i in 1..=13 {
            assert_eq!(e.fenwick[i - 1], naive_tree_cell(&e.arr, i));
        }
    }
}

#[test]
fn query_matches_naive_prefix_sum() {
    let mut e = FenwickTree::new(10);
    let values: [i64; 10] = [4, -3, 12, 0, 7, -20, 1, 1, 30, -5];
    for (j, &v) in values.iter().enumerate() {
        assert_eq!(e.update(j + 1, v), Ok(()));
    }
    for k in 1..=10 {
        let expected: i64 = naive_prefix(&e.arr, k);
        assert_eq!(e.query(k), Ok(expected));
        assert_eq!(e.query_answer, Some(expected));
    }
}

#[test]
fn repeated_update_is_idempotent() {
    let mut e = FenwickTree::new(9);
    assert_eq!(e.update(4, 11), Ok(()));
    assert_eq!(e.update(7, -6), Ok(()));
    let arr_once = e.arr.clone();
    let tree_once = e.fenwick.clone();
    assert_eq!(e.update(7, -6), Ok(()));
    assert_eq!(e.arr, arr_once);
    assert_eq!(e.fenwick, tree_once);
}

#[test]
fn reset_then_query_answers_zero() {
    let mut e = FenwickTree::new(12);
    assert_eq!(e.update(2, 50), Ok(()));
    assert_eq!(e.update(12, -8), Ok(()));
    e.reset();
    assert_eq!(e.arr_highlighted, vec![false; 12]);
    assert_eq!(e.fenwick_highlighted, vec![false; 12]);
    assert_eq!(e.query_answer, None);
    for k in 1..=12 {
        assert_eq!(e.query(k), Ok(0));
    }
}

#[test]
fn resize_discards_state() {
    let mut e = FenwickTree::new(6);
    assert_eq!(e.update(1, 3), Ok(()));
    assert_eq!(e.update(6, 4), Ok(()));
    assert_eq!(e.query(6), Ok(7));
    e.resize(9);
    assert_eq!(e.len, 9);
    assert_eq!(e.arr, vec![0i64; 9]);
    assert_eq!(e.fenwick, vec![0i64; 9]);
    assert_eq!(e.arr_highlighted, vec![false; 9]);
    assert_eq!(e.fenwick_highlighted, vec![false; 9]);
    assert_eq!(e.query_answer, None);
    e.resize(2);
    assert_eq!(e.arr, vec![0i64; 2]);
    assert_eq!(e.fenwick, vec![0i64; 2]);
}

#[test]
fn resize_to_same_length_is_a_no_op() {
    let mut e = FenwickTree::new(5);
    assert_eq!(e.update(3, 21), Ok(()));
    assert_eq!(e.query(5), Ok(21));
    let before_arr = e.arr.clone();
    let before_tree = e.fenwick.clone();
    e.resize(5);
    assert_eq!(e.arr, before_arr);
    assert_eq!(e.fenwick, before_tree);
    assert_eq!(e.query_answer, Some(21));
}

#[test]
fn query_highlights_exactly_the_descent() {
    let mut e = FenwickTree::new(11);
    // descent from 11: 11 -> 10 -> 8 -> 0, so tree cells 11, 10, 8
    assert_eq!(e.query(11), Ok(0));
    let mut expected_tree = vec![false; 11];
    expected_tree[11 - 1] = true;
    expected_tree[10 - 1] = true;
    expected_tree[8 - 1] = true;
    assert_eq!(e.fenwick_highlighted, expected_tree);
    // array cells 1..=11 all lie under the prefix
    assert_eq!(e.arr_highlighted, vec![true; 11]);
    // a shorter prefix: descent from 6: 6 -> 4 -> 0
    assert_eq!(e.query(6), Ok(0));
    let mut expected_tree = vec![false; 11];
    expected_tree[6 - 1] = true;
    expected_tree[4 - 1] = true;
    assert_eq!(e.fenwick_highlighted, expected_tree);
    let mut expected_arr = vec![false; 11];
    for j in 0..6 {
        expected_arr[j] = true;
    }
    assert_eq!(e.arr_highlighted, expected_arr);
}

#[test]
fn update_highlights_exactly_the_ascent() {
    let mut e = FenwickTree::new(11);
    // ascent from 3: 3 -> 4 -> 8 -> 16 (out), so tree cells 3, 4, 8
    assert_eq!(e.update(3, 1), Ok(()));
    let mut expected_tree = vec![false; 11];
    expected_tree[3 - 1] = true;
    expected_tree[4 - 1] = true;
    expected_tree[8 - 1] = true;
    assert_eq!(e.fenwick_highlighted, expected_tree);
    let mut expected_arr = vec![false; 11];
    expected_arr[3 - 1] = true;
    assert_eq!(e.arr_highlighted, expected_arr);
}

#[test]
fn concrete_scenario_on_eight_cells() {
    let mut e = FenwickTree::new(8);
    assert_eq!(e.update(3, 5), Ok(()));
    assert_eq!(e.arr, vec![0, 0, 5, 0, 0, 0, 0, 0]);
    // tree touched at 1-indexed cells 3, 4 and 8, each raised by 5
    assert_eq!(e.fenwick, vec![0, 0, 5, 5, 0, 0, 0, 5]);
    // query(4) descends 4 -> 0: one tree cell read
    assert_eq!(e.query(4), Ok(5));
    let mut expected_tree = vec![false; 8];
    expected_tree[4 - 1] = true;
    assert_eq!(e.fenwick_highlighted, expected_tree);
    assert_eq!(e.update(1, 2), Ok(()));
    assert_eq!(e.query(4), Ok(7));
}

#[test]
fn out_of_range_indices_are_rejected_without_mutation() {
    let mut e = FenwickTree::new(7);
    assert_eq!(e.update(5, 33), Ok(()));
    assert_eq!(e.query(7), Ok(33));
    let arr = e.arr.clone();
    let tree = e.fenwick.clone();
    let arr_hl = e.arr_highlighted.clone();
    let tree_hl = e.fenwick_highlighted.clone();
    assert_eq!(e.query(0), Err(ErrorKind::IndexOutOfRange));
    assert_eq!(e.query(8), Err(ErrorKind::IndexOutOfRange));
    assert_eq!(e.update(0, 1), Err(ErrorKind::IndexOutOfRange));
    assert_eq!(e.update(8, 1), Err(ErrorKind::IndexOutOfRange));
    assert_eq!(e.arr, arr);
    assert_eq!(e.fenwick, tree);
    assert_eq!(e.arr_highlighted, arr_hl);
    assert_eq!(e.fenwick_highlighted, tree_hl);
    assert_eq!(e.query_answer, Some(33));
}

#[test]
fn randomize_fills_within_range_and_clears_highlights() {
    let mut e = FenwickTree::new(20);
    e.randomize(-100, 100);
    for j in 0..20 {
        assert!(-100 <= e.arr[j] && e.arr[j] <= 100);
    }
    assert_eq!(e.arr_highlighted, vec![false; 20]);
    assert_eq!(e.fenwick_highlighted, vec![false; 20]);
    assert_eq!(e.query_answer, None);
    for i in 1..=20 {
        assert_eq!(e.fenwick[i - 1], naive_tree_cell(&e.arr, i));
    }
}

#[test]
fn randomize_with_pinned_range_fills_that_value() {
    let mut e = FenwickTree::new(8);
    e.randomize(5, 5);
    assert_eq!(e.arr, vec![5i64; 8]);
    assert_eq!(e.query(8), Ok(40));
}

#[test]
fn single_cell_engine_works() {
    let mut e = FenwickTree::new(1);
    assert_eq!(e.update(1, -9), Ok(()));
    assert_eq!(e.query(1), Ok(-9));
    assert_eq!(e.query(2), Err(ErrorKind::IndexOutOfRange));
}

#[test]
fn largest_engine_works() {
    let mut e = FenwickTree::new(64);
    for i in 1..=64 {
        assert_eq!(e.update(i, i as i64), Ok(()));
    }
    for k in 1..=64 {
        let k_i64: i64 = k as i64;
        assert_eq!(e.query(k), Ok(k_i64 * (k_i64 + 1) / 2));
    }
}

#[test]
fn update_keeps_the_stale_answer() {
    let mut e = FenwickTree::new(4);
    assert_eq!(e.query(4), Ok(0));
    assert_eq!(e.query_answer, Some(0));
    assert_eq!(e.update(2, 10), Ok(()));
    assert_eq!(e.query_answer, Some(0));
}
