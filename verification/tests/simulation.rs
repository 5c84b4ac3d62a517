use monte_carlo_rs::{
    buy_meals_until_all_toys, mt_simulate_no_progressbar, simulate_sequential, SimError,
};

#[test]
fn sample_single_toy_is_deterministic() {
    for _ in 0..20 {
        assert_eq!(buy_meals_until_all_toys(1, 5), Ok(1));
    }
}

#[test]
fn sample_within_bounds() {
    for _ in 0..20 {
        let v = buy_meals_until_all_toys(5, 100_000).unwrap();
        assert!(v >= 1);
        assert!(v >= 5);
        assert!(v <= 100_000);
    }
}

#[test]
fn sample_small_limit_fails_deterministically() {
    for _ in 0..10 {
        assert_eq!(
            buy_meals_until_all_toys(50, 10),
            Err(SimError::IterationLimitExceeded {
                nb_toys: 50,
                iterlimit: 10
            })
        );
    }
}

#[test]
fn run_returns_exactly_trial_count_values() {
    let par = mt_simulate_no_progressbar(100, 3, 100_000).unwrap();
    assert_eq!(par.len(), 100);
    let seq = simulate_sequential(100, 3, 100_000).unwrap();
    assert_eq!(seq.len(), 100);
}

#[test]
fn deterministic_stub_same_sum_in_both_modes() {
    let par = mt_simulate_no_progressbar(500, 1, 10).unwrap();
    let seq = simulate_sequential(500, 1, 10).unwrap();
    let sum_par: usize = par.iter().sum();
    let sum_seq: usize = seq.iter().sum();
    assert_eq!(sum_par, sum_seq);
    assert_eq!(sum_par, 500);
}

#[test]
fn invalid_inputs_rejected_before_any_trial() {
    assert_eq!(
        mt_simulate_no_progressbar(0, 3, 10),
        Err(SimError::InvalidInput)
    );
    assert_eq!(
        mt_simulate_no_progressbar(3, 0, 10),
        Err(SimError::InvalidInput)
    );
    assert_eq!(
        mt_simulate_no_progressbar(3, 3, 0),
        Err(SimError::InvalidInput)
    );
    assert_eq!(simulate_sequential(0, 3, 10), Err(SimError::InvalidInput));
    assert_eq!(simulate_sequential(3, 0, 10), Err(SimError::InvalidInput));
}

#[test]
fn limit_failure_aborts_whole_run() {
    assert_eq!(
        mt_simulate_no_progressbar(2, 5, 3),
        Err(SimError::IterationLimitExceeded {
            nb_toys: 5,
            iterlimit: 3
        })
    );
    assert_eq!(
        simulate_sequential(2, 5, 3),
        Err(SimError::IterationLimitExceeded {
            nb_toys: 5,
            iterlimit: 3
        })
    );
}

#[test]
fn empirical_mean_converges_to_harmonic_expectation() {
    let n = 5usize;
    let expected = 5.0 * (1.0 + 1.0 / 2.0 + 1.0 / 3.0 + 1.0 / 4.0 + 1.0 / 5.0);
    let small = simulate_sequential(1_000, n, 1_000_000).unwrap();
    let large = mt_simulate_no_progressbar(100_000, n, 1_000_000).unwrap();
    let mean_of = |v: &Vec<usize>| v.iter().map(|&x| x as f64).sum::<f64>() / v.len() as f64;
    let gap_small = (mean_of(&small) - expected).abs();
    let gap_large = (mean_of(&large) - expected).abs();
    // The tolerance shrinks as the trial count grows.
    assert!(gap_small < 2.5);
    assert!(gap_large < 0.25);
}
