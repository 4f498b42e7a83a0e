use cachecannon::double::Double;
use cachecannon::keydist::{KeyDist, Recency, Zipfian};
use rand_distr::Distribution;
use rand_xoshiro::rand_core::SeedableRng;
use rand_xoshiro::Xoshiro256PlusPlus;

fn dbl(x: f64) -> Double {
    Double::from_bits(x.to_bits())
}

fn rng() -> Xoshiro256PlusPlus {
    Xoshiro256PlusPlus::seed_from_u64(0xC0FFEE)
}

/// Draws a key, and for a power law its rank first.
fn sample(d: &KeyDist, r: &mut Xoshiro256PlusPlus) -> usize {
    let rank = match d {
        KeyDist::Zipf(z) => {
            let theta = f64::from_bits(z.theta().to_bits());
            rand_distr::Zipf::new(z.n as f64, theta).unwrap().sample(r) as u64
        }
        _ => 0,
    };
    d.sample(r, rank)
}

#[test]
fn uniform_stays_in_range_and_is_flat() {
    let d = KeyDist::uniform(10);
    let mut r = rng();
    let mut counts = [0usize; 10];
    for _ in 0..100_000 {
        counts[sample(&d, &mut r)] += 1;
    }
    // Every bucket within 20% of 10k.
    for c in counts {
        assert!((8_000..12_000).contains(&c), "uniform bucket skewed: {c}");
    }
}

#[test]
fn zipf_is_actually_skewed() {
    let n = 10_000;
    let d = KeyDist::zipf(n, dbl(0.99));
    let mut r = rng();
    let samples = 200_000;
    let mut hot = 0usize;
    for _ in 0..samples {
        if sample(&d, &mut r) < n / 100 {
            hot += 1;
        }
    }
    let frac = hot as f64 / samples as f64;
    assert!(
        frac > 0.25,
        "top 1% of keys got only {frac:.3} of samples; distribution looks uniform"
    );
}

#[test]
fn zipf_never_exceeds_keyspace() {
    let n = 1_000;
    let d = KeyDist::zipf(n, dbl(1.2));
    let mut r = rng();
    for _ in 0..200_000 {
        assert!(sample(&d, &mut r) < n);
    }
}

#[test]
fn zipf_handles_degenerate_keyspace() {
    let d = KeyDist::zipf(1, dbl(0.99));
    let mut r = rng();
    for _ in 0..1_000 {
        assert_eq!(sample(&d, &mut r), 0);
    }
}

#[test]
fn ranks_are_keys_from_the_hottest_on() {
    let z = Zipfian::new(10, dbl(0.99));
    assert_eq!(z.key_of_rank(1), 0);
    assert_eq!(z.key_of_rank(10), 9);
    // Rounding outside the range is clipped to it.
    assert_eq!(z.key_of_rank(0), 0);
    assert_eq!(z.key_of_rank(11), 9);
}

#[test]
fn higher_theta_is_more_skewed() {
    let n = 10_000;
    let share = |theta: f64| {
        let d = KeyDist::zipf(n, dbl(theta));
        let mut r = rng();
        let mut hot = 0usize;
        for _ in 0..100_000 {
            if sample(&d, &mut r) < n / 100 {
                hot += 1;
            }
        }
        hot as f64 / 100_000.0
    };
    assert!(share(1.2) > share(0.7));
}

/// Count samples per generation (0 = newest) plus a "body" bucket.
fn recency_histogram(r: &Recency, samples: usize) -> (Vec<usize>, usize) {
    let head = r.head();
    let mut rng = rng();
    let mut gens = vec![0usize; r.generations];
    let mut body = 0usize;
    for _ in 0..samples {
        let id = r.sample(&mut rng);
        assert!(id < head, "sampled id {id} at or beyond head {head}");
        let age = (head - 1 - id) / r.batch;
        if age < r.generations {
            gens[age] += 1;
        } else {
            body += 1;
        }
    }
    (gens, body)
}

#[test]
fn recency_newest_generation_is_hottest_and_decays() {
    // 100k body, batch 1000, 4 hot generations, decay 0.5, 80% hot.
    let r = Recency::new(100_000, 1_000, 4, dbl(0.5), dbl(0.8));
    let (gens, body) = recency_histogram(&r, 200_000);
    // Hot share ~80%, body ~20%.
    let hot: usize = gens.iter().sum();
    let hot_frac = hot as f64 / 200_000.0;
    assert!((0.78..0.82).contains(&hot_frac), "hot share {hot_frac}");
    assert!(body > 0);
    // Each older generation gets about half of the one before it.
    for a in 1..4 {
        let ratio = gens[a] as f64 / gens[a - 1] as f64;
        assert!((0.4..0.6).contains(&ratio), "gen {a} ratio {ratio}");
    }
    // The body is uniform over 96k ids while a hot generation covers 1k,
    // so per-id density in the newest generation dwarfs the body.
    let newest_per_id = gens[0] as f64 / 1_000.0;
    let body_per_id = body as f64 / 96_000.0;
    assert!(newest_per_id > 50.0 * body_per_id);
}

#[test]
fn recency_follows_the_head_when_it_advances() {
    let mut r = KeyDist::Recency(Recency::new(10_000, 100, 2, dbl(0.5), dbl(1.0)));
    // hot_fraction = 1.0: every draw is in the top 200 ids below head.
    let mut rng = rng();
    for _ in 0..10_000 {
        let id = r.sample(&mut rng, 0);
        assert!((9_800..10_000).contains(&id));
    }
    // Commit a batch: the window moves with the head.
    assert!(r.publish_head(10_100), "recency exposes its head");
    assert_eq!(r.len(), 10_100);
    let mut seen_new = false;
    for _ in 0..10_000 {
        let id = r.sample(&mut rng, 0);
        assert!((9_900..10_100).contains(&id));
        seen_new |= id >= 10_000;
    }
    assert!(seen_new, "no draw landed in the newly committed batch");
}

#[test]
fn only_recency_has_a_head_to_publish() {
    let mut d = KeyDist::uniform(10);
    assert!(!d.publish_head(20));
    assert_eq!(d.len(), 10);
    assert!(d.is_uniform());
    assert!(KeyDist::uniform(0).is_empty());
}

#[test]
fn recency_never_exceeds_head_when_keyspace_is_tiny() {
    // Keyspace smaller than one generation: everything clips to [0, head).
    let r = Recency::new(5, 100, 8, dbl(0.5), dbl(0.8));
    let mut rng = rng();
    for _ in 0..10_000 {
        assert!(r.sample(&mut rng) < 5);
    }
    // And a single-key keyspace stays put.
    let r = Recency::new(1, 100, 8, dbl(0.5), dbl(0.8));
    for _ in 0..1_000 {
        assert_eq!(r.sample(&mut rng), 0);
    }
}

#[test]
fn recency_decay_one_is_flat_across_generations() {
    let r = Recency::new(100_000, 1_000, 4, dbl(1.0), dbl(1.0));
    let (gens, body) = recency_histogram(&r, 200_000);
    assert_eq!(body, 0);
    for g in &gens {
        let frac = *g as f64 / 200_000.0;
        assert!((0.23..0.27).contains(&frac), "flat gen share {frac}");
    }
}

#[test]
fn a_draw_is_planned_from_its_words() {
    let r = Recency::new(1_000, 100, 2, dbl(0.5), dbl(0.8));
    // The newest generation takes two thirds of the hot draws.
    assert_eq!(r.plan(true, dbl(0.0)), (900, 1_000));
    assert_eq!(r.plan(true, dbl(0.66)), (900, 1_000));
    assert_eq!(r.plan(true, dbl(0.67)), (800, 900));
    // The body lies below both.
    assert_eq!(r.plan(false, dbl(0.3)), (0, 800));
    assert!(r.is_hot(0));
    assert!(!r.is_hot(u64::MAX));
    // One batch later the generations are one older.
    let mut later = r.clone();
    later.publish(1_100);
    assert_eq!(later.plan(true, dbl(0.67)), (900, 1_000));
}

#[test]
fn a_hot_fraction_of_one_leaves_nothing_cold() {
    let r = Recency::new(10_000, 50, 4, dbl(0.5), dbl(1.0));
    let mut g = rng();
    for _ in 0..2_000 {
        let id = r.sample(&mut g);
        assert!((9_800..10_000).contains(&id), "{id}");
    }
    assert!(r.is_hot(u64::MAX), "the largest word is still below one");
}
