use atomic_recall::order::stable_order;
use atomic_recall::search::{rank_order, score_key};

#[test]
fn stable_order_sorts_and_keeps_ties() {
    assert_eq!(stable_order(&vec![3, 1, 2, 1, 3]), vec![1, 3, 2, 0, 4]);
    assert_eq!(stable_order(&vec![]), Vec::<usize>::new());
    assert_eq!(stable_order(&vec![5, 5, 5]), vec![0, 1, 2]);
    assert_eq!(stable_order(&vec![i64::MAX, i64::MIN, 0]), vec![1, 2, 0]);
}

#[test]
fn stable_order_agrees_with_std_stable_sort() {
    let keys: Vec<i64> = vec![9, -4, 7, 7, 0, -4, 12, 3, 7, 0, 1, 1, -20];
    let mut expected: Vec<usize> = (0..keys.len()).collect();
    expected.sort_by_key(|&i| keys[i]);
    assert_eq!(stable_order(&keys), expected);
}

#[test]
fn rank_order_takes_best_first() {
    let keys = vec![10, 30, 20, 30, -5];
    assert_eq!(rank_order(&keys, 10), vec![1, 3, 2, 0, 4]);
    assert_eq!(rank_order(&keys, 2), vec![1, 3]);
    assert_eq!(rank_order(&keys, 0), Vec::<usize>::new());
    assert_eq!(rank_order(&vec![], 3), Vec::<usize>::new());
    assert_eq!(rank_order(&vec![i32::MIN, i32::MAX], 2), vec![1, 0]);
}

#[test]
fn score_keys_order_as_scores() {
    let scores = [-1.0f32, -0.5, -0.0, 0.0, 1e-30, 0.25, 0.821, 1.0];
    for a in scores {
        for b in scores {
            let by_float = a.partial_cmp(&b).unwrap();
            let by_key = score_key(a.to_bits()).cmp(&score_key(b.to_bits()));
            assert_eq!(by_float, by_key, "{} vs {}", a, b);
        }
    }
    assert_eq!(score_key(0.0f32.to_bits()), 0);
    assert_eq!(score_key((-0.0f32).to_bits()), 0);
}
