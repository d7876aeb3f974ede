use pity_experiment::{bin, pity_experiment, run_batch, simulate_with_draws, PityExperimentApp, WinChance, NUM_BARS};

fn chance(numerator: u32, denominator: u32) -> WinChance {
    WinChance::new(numerator, denominator).unwrap()
}

#[test]
fn chance_rejects_non_probabilities() {
    assert!(WinChance::new(1, 0).is_none());
    assert!(WinChance::new(3, 2).is_none());
    let c = WinChance::new(2, 2).unwrap();
    assert_eq!((c.numerator, c.denominator), (2, 2));
    assert!(c.is_certain());
    assert!(!chance(1, 2).is_certain());
}

#[test]
fn zero_chance_wins_only_by_pity() {
    // Five losses reach the limit, so pity wins rounds 6, 12 and 18 of twenty.
    assert_eq!(pity_experiment(chance(0, 1), 20, 5), 3);
    assert_eq!(simulate_with_draws(chance(0, 1), 5, &vec![0u32; 20]), 3);
}

#[test]
fn certain_chance_wins_every_round() {
    assert_eq!(pity_experiment(chance(1, 1), 500, 7), 500);
    assert_eq!(pity_experiment(chance(1000, 1000), 300, 1), 300);
    assert_eq!(pity_experiment(chance(1, 1), 0, 3), 0);
}

#[test]
fn zero_chance_without_pity_wins_nothing() {
    assert_eq!(pity_experiment(chance(0, 1), 40, 41), 0);
    assert_eq!(pity_experiment(chance(0, 1000), 1, 2), 0);
}

#[test]
fn zero_pity_limit_wins_every_round() {
    assert_eq!(pity_experiment(chance(0, 1), 25, 0), 25);
}

#[test]
fn pity_bound_holds_for_random_runs() {
    for _ in 0..20 {
        let w = pity_experiment(chance(1, 20), 2000, 20);
        assert!(w >= 2000 / 21);
        assert!(w <= 2000);
    }
    // Where one win per limit and one per limit + 1 agree, the first bound holds.
    let w = pity_experiment(chance(0, 1), 10, 4);
    assert_eq!(w, 2);
    assert!(w >= 10 / 4);
}

#[test]
fn scripted_draws_replay_a_run() {
    // Chance 1/2: draw 0 wins, draw 1 loses.
    let c = chance(1, 2);
    // loss, pity win (draw ignored), loss, pity win
    assert_eq!(simulate_with_draws(c, 1, &vec![1, 0, 1, 1]), 2);
    // win, loss, loss, pity win, win
    assert_eq!(simulate_with_draws(c, 2, &vec![0, 1, 1, 1, 0]), 3);
    assert_eq!(simulate_with_draws(c, 3, &vec![]), 0);
}

#[test]
fn batch_has_one_outcome_per_run() {
    let b = run_batch(chance(1, 20), 200, 20, 50);
    assert_eq!(b.len(), 50);
    assert!(b.iter().all(|&w| w >= 200 / 21 && w <= 200));
    assert!(run_batch(chance(1, 2), 10, 3, 0).is_empty());
    assert_eq!(run_batch(chance(1, 1), 30, 3, 4), vec![30, 30, 30, 30]);
}

#[test]
fn bin_counts_add_up_to_batch_length() {
    let batch = vec![3, 17, 9, 9, 42, 0, 28, 35, 41, 42, 1];
    let h = bin(&batch, 10);
    assert_eq!(h.counts.len(), 10);
    assert_eq!(h.counts.iter().sum::<usize>(), batch.len());
    assert_eq!(h.min, 0);
    assert_eq!(h.width, 5);
    assert_eq!(h.counts, vec![3, 2, 0, 1, 0, 1, 0, 1, 3, 0]);
}

#[test]
fn bin_equal_values_fill_first_bucket() {
    let h = bin(&vec![5, 5, 5, 5], 10);
    assert_eq!(h.width, 1);
    assert_eq!(h.min, 5);
    assert_eq!(h.counts, vec![4, 0, 0, 0, 0, 0, 0, 0, 0, 0]);
}

#[test]
fn bin_clamps_maximum_into_last_bucket() {
    let h = bin(&vec![0, 10], 10);
    assert_eq!(h.min, 0);
    assert_eq!(h.width, 1);
    assert_eq!(h.counts, vec![1, 0, 0, 0, 0, 0, 0, 0, 0, 1]);
}

#[test]
fn bin_rounds_width_up() {
    let h = bin(&vec![0, 25], 10);
    assert_eq!(h.width, 3);
    assert_eq!(h.counts, vec![1, 0, 0, 0, 0, 0, 0, 0, 1, 0]);
}

#[test]
fn bin_empty_batch() {
    let h = bin(&vec![], 4);
    assert_eq!((h.min, h.width), (0, 1));
    assert_eq!(h.counts, vec![0, 0, 0, 0]);
}

#[test]
fn bin_single_bucket_and_large_values() {
    let h = bin(&vec![7, 100, usize::MAX], 1);
    assert_eq!(h.counts, vec![3]);
    assert_eq!(h.width, usize::MAX - 7);
    let h = bin(&vec![0, usize::MAX], 2);
    assert_eq!(h.width, usize::MAX / 2 + 1);
    assert_eq!(h.counts, vec![1, 1]);
}

#[test]
fn default_parameters() {
    let app = PityExperimentApp::default();
    assert_eq!((app.proba.numerator, app.proba.denominator), (1, 20));
    assert_eq!(app.rounds, 2000);
    assert_eq!(app.pity_limit, 20);
    assert_eq!(app.num_simu, 1000);
    assert!(app.histogram.is_none());
    assert_eq!(app.last_run_simulation, 0);
    assert!(app.bars().is_none());
}

#[test]
fn run_simulation_replaces_batch_and_counts_runs() {
    let mut app = PityExperimentApp::default();
    app.proba = chance(1, 1);
    app.rounds = 12;
    app.num_simu = 6;
    app.run_simulation();
    assert_eq!(app.last_run_simulation, 1);
    assert_eq!(app.histogram, Some(vec![12; 6]));
    app.num_simu = 3;
    app.run_simulation();
    assert_eq!(app.last_run_simulation, 2);
    assert_eq!(app.histogram, Some(vec![12; 3]));
    let bars = app.bars().unwrap();
    assert_eq!(bars.counts.len(), NUM_BARS);
    assert_eq!(bars.min, 12);
    assert_eq!(bars.counts[0], 3);
    assert_eq!(bars.counts.iter().sum::<usize>(), 3);
}
