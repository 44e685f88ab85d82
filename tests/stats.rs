use scanbench::stats::{aggregate, spread_sample, floor_sqrt, max_sample, mean_sample, median_sample, min_sample, sort_samples, stddev_sample};

#[test]
fn median_of_four_is_lower_middle() {
    assert_eq!(median_sample(&vec![1, 2, 3, 4]), 2);
    assert_eq!(median_sample(&vec![4, 1, 3, 2]), 2);
}

#[test]
fn median_of_odd_count_is_middle() {
    assert_eq!(median_sample(&vec![9, 1, 5]), 5);
}

#[test]
fn single_sample_aggregates() {
    let a = aggregate(&vec![42]);
    assert_eq!(a.min, 42);
    assert_eq!(a.max, 42);
    assert_eq!(a.mean, 42);
    assert_eq!(a.median, 42);
    let sp = a.spread.unwrap();
    assert_eq!(sp.stddev, 0);
    assert_eq!(sp.variance_num, 0);
}

#[test]
fn aggregates_lie_between_min_and_max() {
    let v = vec![7, 3, 12, 5, 5, 30];
    let a = aggregate(&v);
    assert_eq!(a.min, 3);
    assert_eq!(a.max, 30);
    assert!(a.min <= a.median && a.median <= a.max);
    assert!(a.min <= a.mean && a.mean <= a.max);
}

#[test]
fn mean_rounds_down() {
    assert_eq!(mean_sample(&vec![1, 2]), 1);
    assert_eq!(mean_sample(&vec![2, 4, 9]), 5);
}

#[test]
fn population_stddev() {
    // mean 5, squared deviations 9,1,1,1,0,0,4,16 sum 32, /8 = 4, sqrt = 2
    assert_eq!(stddev_sample(&vec![2, 4, 4, 4, 5, 5, 7, 9]), 2);
    // variance 2/3, sqrt ~0.816
    assert_eq!(stddev_sample(&vec![1, 2, 3]), 0);
    // variance 25, sqrt 5
    assert_eq!(stddev_sample(&vec![0, 10]), 5);
    assert_eq!(stddev_sample(&vec![6, 6, 6]), 0);
}

#[test]
fn min_max_samples() {
    assert_eq!(min_sample(&vec![5, 2, 8]), 2);
    assert_eq!(max_sample(&vec![5, 2, 8]), 8);
}

#[test]
fn sort_keeps_duplicates() {
    assert_eq!(sort_samples(&vec![3, 1, 3, 0]), vec![0, 1, 3, 3]);
    assert_eq!(sort_samples(&vec![]), Vec::<u64>::new());
}

#[test]
fn integer_square_root() {
    assert_eq!(floor_sqrt(0), 0);
    assert_eq!(floor_sqrt(15), 3);
    assert_eq!(floor_sqrt(16), 4);
    assert_eq!(floor_sqrt(u128::MAX), u64::MAX);
}

#[test]
fn exact_variance_fraction() {
    // {0, 1}: variance 1/4, rounded standard deviation 0
    let sp = spread_sample(&vec![0, 1]);
    assert_eq!((sp.variance_num, sp.variance_den, sp.stddev), (1, 4, 0));
    // {0, 2}: variance 1, four times that of {0, 1}
    let sp2 = spread_sample(&vec![0, 2]);
    assert_eq!((sp2.variance_num, sp2.variance_den, sp2.stddev), (4, 4, 1));
}

#[test]
fn large_samples_keep_order_statistics() {
    let big = u64::MAX;
    let a = aggregate(&vec![big, 1, big - 1]);
    assert_eq!((a.min, a.max, a.median), (1, big, big - 1));
    assert_eq!(a.mean, ((big as u128 * 2) / 3) as u64);
    assert_eq!(a.spread, None);
}
