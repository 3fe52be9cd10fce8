use std::collections::BTreeMap;

use more_iter::MergePair;

fn choose_left<V>(_left: V, _right: V) -> V {
    _left
}

#[test]
fn merge_test_test_empty_input() {
    let left: Vec<(i32, i32)> = vec![];
    let right: Vec<(i32, i32)> = vec![];

    let merger = MergePair::merge(left, right, choose_left);
    let result: Vec<(i32, i32)> = merger.into_vec();
    assert_eq!(result, vec![]);
}

#[test]
fn merge_test_test_no_overlap() {
    let left = vec![(1, 10), (3, 30)];
    let right = vec![(2, 20), (4, 40)];

    let merger = MergePair::merge(left, right, choose_left);
    let result: Vec<(i32, i32)> = merger.into_vec();
    assert_eq!(vec![(1, 10), (2, 20), (3, 30), (4, 40)], result);
}

#[test]
fn merge_test_test_with_overlap_choose_left() {
    let left = vec![(1, 10), (3, 30), (4, 40)];
    let right = vec![(2, 20), (3, 300), (4, 400)];

    let merge = MergePair::merge(left, right, choose_left);
    let result: Vec<(i32, i32)> = merge.into_vec();
    assert_eq!(vec![(1, 10), (2, 20), (3, 30), (4, 40)], result);
}

#[test]
fn merge_test_test_with_overlap_choose_right() {
    fn choose_right<V>(_left: V, _right: V) -> V {
        _right
    }

    let left = vec![(1, 10), (3, 30), (4, 40)];
    let right = vec![(2, 20), (3, 300), (4, 400)];

    let merge = MergePair::merge(left, right, choose_right);
    let result: Vec<(i32, i32)> = merge.into_vec();
    assert_eq!(vec![(1, 10), (2, 20), (3, 300), (4, 400)], result);
}

#[test]
fn merge_test_test_with_overlap_choose_greater() {
    let left = vec![(1, 10), (3, 30), (4, 40)];
    let right = vec![(2, 200), (3, 300)];

    let merged = MergePair::merge(left, right, std::cmp::max).into_vec();
    assert_eq!(vec![(1, 10), (2, 200), (3, 300), (4, 40)], merged);
}

#[test]
fn merge_test_test_with_overlap_choose_greater_seq() {
    let mut a: BTreeMap<i32, (i32, i32)> = BTreeMap::new();
    a.insert(10, (1, 1));
    a.insert(15, (2, 2));
    a.insert(20, (3, 3));
    let mut b: BTreeMap<i32, (i32, i32)> = BTreeMap::new();
    b.insert(11, (1, 1));
    b.insert(15, (3, 3));
    b.insert(21, (4, 4));

    let a_pairs: Vec<(i32, (i32, i32))> = a.into_iter().collect();
    let b_pairs: Vec<(i32, (i32, i32))> = b.into_iter().collect();

    let merge = MergePair::merge(a_pairs, b_pairs, |l, r| if l.0 > r.0 { l } else { r });
    let result = merge.into_vec();

    assert_eq!(
        vec![
            //
            (10, (1, 1)),
            (11, (1, 1)),
            (15, (3, 3)),
            (20, (3, 3)),
            (21, (4, 4)),
        ],
        result
    );
}

#[test]
fn merge_test_test_with_overlap_combine_values() {
    let mut a: BTreeMap<u64, (u64, u64)> = BTreeMap::new();
    a.insert(15, (2, 2));
    a.insert(20, (3, 3));
    let mut b: BTreeMap<u64, (u64, u64)> = BTreeMap::new();
    b.insert(11, (1, 1));
    b.insert(15, (3, 3));

    let a_pairs: Vec<(u64, (u64, u64))> = a.into_iter().collect();
    let b_pairs: Vec<(u64, (u64, u64))> = b.into_iter().collect();

    let merge = MergePair::merge(a_pairs, b_pairs, |(lseq, ldata), (rseq, rdata)| {
        (lseq + rseq, ldata + rdata)
    });
    let result = merge.into_vec();

    assert_eq!(
        vec![
            //
            (11, (1, 1)),
            (15, (5, 5)),
            (20, (3, 3)),
        ],
        result
    );
}
