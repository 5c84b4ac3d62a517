use monte_carlo_rs::{create_histogram, summarize};

#[test]
fn bin_returns_k_counts_and_drops_max_edge() {
    let values = vec![1usize, 2, 3, 4, 10];
    let (mn, mx, counts) = create_histogram(&values, 3);
    assert_eq!(mn, 1);
    assert_eq!(mx, 10);
    assert_eq!(counts, vec![3u32, 1, 0]);
    // The maximum computes to bucket 3 and is dropped, so the counts sum
    // to one less than the number of values.
    let total: u32 = counts.iter().sum();
    assert_eq!(total as usize, values.len() - 1);
}

#[test]
fn bin_always_drops_the_attained_max() {
    let values = vec![0usize, 9, 18, 27];
    let (mn, mx, counts) = create_histogram(&values, 3);
    assert_eq!(mn, 0);
    assert_eq!(mx, 27);
    assert_eq!(counts, vec![1u32, 1, 1]);
    let total: u32 = counts.iter().sum();
    assert_eq!(total as usize, values.len() - 1);
}

#[test]
fn bin_degenerate_all_equal_goes_to_bucket_zero() {
    let values = vec![5usize, 5, 5, 5];
    let (mn, mx, counts) = create_histogram(&values, 4);
    assert_eq!(mn, 5);
    assert_eq!(mx, 5);
    assert_eq!(counts, vec![4u32, 0, 0, 0]);
}

#[test]
fn summarize_fixed_input_mean_and_deciles() {
    let values: Vec<usize> = (1..=10).collect();
    let s = summarize(&values);
    assert_eq!(s.count, 10);
    assert_eq!(s.sum, 55);
    let mean = s.sum as f64 / s.count as f64;
    assert!((mean - 5.5).abs() < 1e-12);
    assert_eq!(s.deciles, vec![1usize, 2, 3, 4, 5, 6, 7, 8, 9, 10]);
    assert_eq!(s.deciles[9], *values.iter().max().unwrap());
}

#[test]
fn summarize_sorts_before_taking_deciles() {
    let values = vec![7usize, 1, 7, 3];
    let s = summarize(&values);
    assert_eq!(s.sum, 18);
    assert_eq!(s.count, 4);
    // Nearest-rank deciles over the sorted observations [1, 3, 7, 7].
    assert_eq!(s.deciles, vec![1usize, 1, 3, 3, 3, 7, 7, 7, 7, 7]);
}

#[test]
fn summarize_single_observation() {
    let values = vec![42usize];
    let s = summarize(&values);
    assert_eq!(s.sum, 42);
    assert_eq!(s.count, 1);
    assert_eq!(s.deciles, vec![42usize; 10]);
}
