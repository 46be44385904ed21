use sprite_gen::rng::Randomness;

#[test]
fn below_respects_bound() {
    let mut rng = Randomness::from_seed(1);
    for _ in 0..200 {
        assert!(rng.below(7) < 7);
        assert!(rng.index_below(3) < 3);
    }
    assert_eq!(rng.below(1), 0);
}

#[test]
fn between_respects_range() {
    let mut rng = Randomness::from_seed(2);
    for _ in 0..200 {
        let v = rng.between(5, 9);
        assert!((5..=9).contains(&v));
    }
    assert_eq!(rng.between(4, 4), 4);
}

#[test]
fn shuffle_keeps_elements() {
    let mut rng = Randomness::from_seed(3);
    let mut v: Vec<usize> = (0..10).collect();
    rng.shuffle(&mut v);
    let mut sorted = v.clone();
    sorted.sort();
    assert_eq!(sorted, (0..10).collect::<Vec<usize>>());
}

#[test]
fn weighted_pick_stays_in_range_and_follows_weight() {
    let mut rng = Randomness::from_seed(4);
    let weights: Vec<u64> = vec![1, 1000, 1];
    let mut hits = [0usize; 3];
    for _ in 0..300 {
        let i = rng.weighted_pick(&weights);
        assert!(i < 3);
        hits[i] += 1;
    }
    // the heavy middle weight dominates
    assert!(hits[1] > hits[0] + hits[2]);
}

#[test]
fn seeded_generators_repeat() {
    let mut a = Randomness::from_seed(99);
    let mut b = Randomness::from_seed(99);
    for _ in 0..50 {
        assert_eq!(a.below(1000), b.below(1000));
    }
}
