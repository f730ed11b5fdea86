use proctime::stats::{isqrt_u128, max_u64, mean_u64, median_u64, min_u64, sort_u64, stddev_u64};

#[test]
fn mean_min_max() {
    let v: Vec<u64> = vec![10, 20, 60];
    assert_eq!(mean_u64(&v), 30);
    assert_eq!(min_u64(&v), 10);
    assert_eq!(max_u64(&v), 60);
    let one: Vec<u64> = vec![42];
    assert_eq!(mean_u64(&one), 42);
    assert_eq!(min_u64(&one), 42);
    assert_eq!(max_u64(&one), 42);
    // The mean rounds toward zero.
    let uneven: Vec<u64> = vec![1, 2];
    assert_eq!(mean_u64(&uneven), 1);
}

#[test]
fn sort_orders_and_keeps_elements() {
    let v: Vec<u64> = vec![5, 1, 4, 1, 3];
    assert_eq!(sort_u64(&v), vec![1, 1, 3, 4, 5]);
    let empty: Vec<u64> = vec![];
    assert_eq!(sort_u64(&empty), Vec::<u64>::new());
}

#[test]
fn median_odd_and_even() {
    let odd: Vec<u64> = vec![60, 10, 20];
    assert_eq!(median_u64(&odd), 20);
    let even: Vec<u64> = vec![40, 10, 20, 30];
    // The two middle elements 20 and 30 average to 25.
    assert_eq!(median_u64(&even), 25);
}

#[test]
fn isqrt_exact_and_floor() {
    assert_eq!(isqrt_u128(0), 0);
    assert_eq!(isqrt_u128(1), 1);
    assert_eq!(isqrt_u128(15), 3);
    assert_eq!(isqrt_u128(16), 4);
    assert_eq!(isqrt_u128(700), 26);
    assert_eq!(isqrt_u128(u128::MAX), u64::MAX);
}

#[test]
fn sample_stddev() {
    // Deviations from the mean 30 are -20, -10, 30; the sample variance is
    // (400 + 100 + 900) / 2 = 700, whose floor square root is 26.
    let v: Vec<u64> = vec![10, 20, 60];
    assert_eq!(stddev_u64(&v, 30), 26);
    // Two equal measurements deviate by nothing.
    let flat: Vec<u64> = vec![7, 7];
    assert_eq!(stddev_u64(&flat, 7), 0);
}
