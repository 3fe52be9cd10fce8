use more_iter::Lookahead;
use more_iter::MergePair;
use more_iter::MergePairs;
use more_iter::SortedPairs;

fn choose_left<V>(_left: V, _right: V) -> V {
    _left
}

#[test]
fn test_single_passes_left_through() {
    let left: Vec<(u64, (u64, u64))> = vec![(15, (2, 2)), (20, (3, 3))];

    let merge = MergePairs::single(left, |l: (u64, u64), _r| l);
    let result = merge.into_vec();

    assert_eq!(vec![(15, (2, 2)), (20, (3, 3))], result);
}

#[test]
fn test_single_never_combines() {
    let left: Vec<(i32, i32)> = vec![(1, 10), (2, 20)];

    let merge = MergePairs::single(left, |_l: i32, _r: i32| -> i32 { panic!() });
    let result = merge.into_vec();

    assert_eq!(vec![(1, 10), (2, 20)], result);
}

#[test]
fn test_ascending_keys() {
    let left = vec![(1, 0), (4, 0), (6, 0), (9, 0)];
    let right = vec![(2, 0), (4, 0), (5, 0), (9, 0), (12, 0)];

    let result = MergePair::merge(left, right, choose_left).into_vec();
    for w in result.windows(2) {
        assert!(w[0].0 < w[1].0);
    }
}

#[test]
fn test_union_of_keys() {
    let left = vec![(1, 0), (4, 0), (6, 0)];
    let right = vec![(2, 0), (4, 0), (7, 0)];

    let result = MergePair::merge(left, right, choose_left).into_vec();
    let keys: Vec<i32> = result.iter().map(|p| p.0).collect();
    assert_eq!(vec![1, 2, 4, 6, 7], keys);
}

#[test]
fn test_pass_through_values() {
    let left = vec![(1, 10), (3, 30)];
    let right = vec![(2, 200), (3, 300)];

    // Keys 1 and 2 occur in exactly one input: their values pass through
    // unchanged even when the combining function would mangle them.
    let result = MergePair::merge(left, right, |_l, _r| -1).into_vec();
    assert_eq!(vec![(1, 10), (2, 200), (3, -1)], result);
}

#[test]
fn test_combine_left_argument_first() {
    let left = vec![(5, 100)];
    let right = vec![(5, 30)];

    // A non-commutative combining function observes the argument order.
    let result = MergePair::merge(left, right, |l, r| l - r).into_vec();
    assert_eq!(vec![(5, 70)], result);
}

#[test]
fn test_empty_left_drains_right() {
    let left: Vec<(i32, i32)> = vec![];
    let right = vec![(2, 20), (4, 40)];

    let result = MergePair::merge(left, right, choose_left).into_vec();
    assert_eq!(vec![(2, 20), (4, 40)], result);
}

#[test]
fn test_present_empty_right_drains_left() {
    let left = vec![(1, 10), (3, 30)];
    let right: Vec<(i32, i32)> = vec![];

    let result = MergePairs::merge(left, Some(right), choose_left).into_vec();
    assert_eq!(vec![(1, 10), (3, 30)], result);
}

#[test]
fn test_merge_pair_next_is_stepwise() {
    let left = vec![(1, 10), (3, 30)];
    let right = vec![(2, 20)];

    let mut merge = MergePair::merge(left, right, choose_left);
    assert_eq!(Some((1, 10)), merge.next());
    assert_eq!(Some((2, 20)), merge.next());
    assert_eq!(Some((3, 30)), merge.next());
    assert_eq!(None, merge.next());
    assert_eq!(None, merge.next());
}

#[test]
fn test_sorted_pairs_yields_in_order() {
    let mut source = SortedPairs::new(vec![(1, 10), (2, 20)]);
    assert_eq!(Some((1, 10)), source.next());
    assert_eq!(Some((2, 20)), source.next());
    assert_eq!(None, source.next());
}

#[test]
fn test_lookahead_peek_does_not_consume() {
    let mut ahead = Lookahead::new(SortedPairs::new(vec![(1, 10), (2, 20)]));
    assert_eq!(Some(&(1, 10)), ahead.peek());
    assert_eq!(Some(&(1, 10)), ahead.peek());
    assert_eq!(Some((1, 10)), ahead.next());
    assert_eq!(Some(&(2, 20)), ahead.peek());
    assert_eq!(Some((2, 20)), ahead.next());
    assert_eq!(None, ahead.peek());
    assert_eq!(None, ahead.next());
}
