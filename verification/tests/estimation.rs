use montecarlo::COORD_ONE;
use montecarlo::Sample;
use montecarlo::Sampler;
use montecarlo::SamplerFactory;
use montecarlo::make_partitions;
use montecarlo::simulate_pi_par;
use montecarlo::simulate_pi_seq;

const MILLI: u64 = 1_000_000;

fn fp(v: f64) -> u64 {
    (v * COORD_ONE as f64) as u64
}

fn scenario_script() -> Vec<Sample> {
    vec![
        Sample { x: 0, y: 0 },
        Sample { x: fp(0.9), y: fp(0.9) },
        Sample { x: fp(0.5), y: fp(0.5) },
        Sample { x: COORD_ONE, y: COORD_ONE },
    ]
}

#[test]
fn inside_test_matches_scenario() {
    let script = scenario_script();
    let verdicts: Vec<bool> = script.iter().map(|s| s.is_inside()).collect();
    assert_eq!(verdicts, vec![true, false, true, false]);
}

#[test]
fn sequential_scenario_estimate_is_two() {
    let mut sampler = Sampler::scripted(scenario_script());
    let e = simulate_pi_seq(4, &mut sampler);
    assert_eq!(e.inside, 2);
    assert_eq!(e.total, 4);
    assert_eq!(e.scaled(MILLI), 2 * MILLI);
}

#[test]
fn parallel_scenario_estimate_is_two() {
    for workers in [1, 2, 3, 16] {
        let factory = SamplerFactory::Scripted(scenario_script());
        let e = simulate_pi_par(4, workers, &factory);
        assert_eq!(e.inside, 2, "workers = {}", workers);
        assert_eq!(e.total, 4);
        assert_eq!(e.scaled(MILLI), 2 * MILLI);
    }
}

#[test]
fn estimate_stays_within_zero_and_four_scripted() {
    let script = scenario_script();
    for n in [1usize, 2, 3, 4, 9] {
        let mut sampler = Sampler::scripted(script.clone());
        let e = simulate_pi_seq(n, &mut sampler);
        let v = e.scaled(MILLI);
        assert!(v <= 4 * MILLI, "n = {}: {}", n, v);
    }
}

#[test]
fn estimate_stays_within_zero_and_four_random() {
    let mut sampler = Sampler::random();
    let e = simulate_pi_seq(10_000, &mut sampler);
    assert_eq!(e.total, 10_000);
    assert!(e.inside <= 10_000);
    assert!(e.scaled(MILLI) <= 4 * MILLI);

    let e = simulate_pi_par(10_000, 4, &SamplerFactory::Random);
    assert_eq!(e.total, 10_000);
    assert!(e.scaled(MILLI) <= 4 * MILLI);
}

#[test]
fn partitions_tile_exactly() {
    for particles in [0usize, 1, 7, 1_000_000] {
        for workers in [1usize, 2, 3, 16] {
            let ps = make_partitions(particles, workers);
            assert_eq!(ps.len(), workers);
            assert_eq!(ps[0].start, 0);
            assert_eq!(ps[workers - 1].end, particles);
            for k in 0..workers {
                assert!(ps[k].start <= ps[k].end);
                assert!(ps[k].end <= particles);
                if k + 1 < workers {
                    assert_eq!(ps[k].end, ps[k + 1].start);
                }
            }
            let covered: usize = ps.iter().map(|p| p.end - p.start).sum();
            assert_eq!(covered, particles);
        }
    }
}

#[test]
fn reduction_matches_sequential_for_any_worker_count() {
    let script: Vec<Sample> = (0..97u64)
        .map(|i| Sample { x: (i * 48473843) % (COORD_ONE + 1), y: (i * 910079) % (COORD_ONE + 1) })
        .collect();
    let mut sampler = Sampler::scripted(script.clone());
    let seq = simulate_pi_seq(97, &mut sampler);
    for workers in [1usize, 2, 3, 5, 16, 97, 200] {
        let factory = SamplerFactory::Scripted(script.clone());
        let par = simulate_pi_par(97, workers, &factory);
        assert_eq!(par.inside, seq.inside, "workers = {}", workers);
        assert_eq!(par.total, seq.total);
    }
}

#[test]
fn exhausted_script_yields_origin() {
    // One outside sample, then the sampler falls back to the origin, which
    // lies inside the quarter-circle.
    let script = vec![Sample { x: COORD_ONE, y: COORD_ONE }];
    let mut sampler = Sampler::scripted(script);
    let e = simulate_pi_seq(3, &mut sampler);
    assert_eq!(e.inside, 2);
    assert_eq!(e.total, 3);
}

#[test]
fn degenerate_zero_particles() {
    let mut sampler = Sampler::scripted(vec![]);
    let e = simulate_pi_seq(0, &mut sampler);
    assert_eq!(e.total, 0);
    assert_eq!(e.inside, 0);
    assert_eq!(e.scaled(MILLI), 0);

    let e = simulate_pi_par(0, 8, &SamplerFactory::Random);
    assert_eq!(e.total, 0);
    assert_eq!(e.scaled(MILLI), 0);
}

#[test]
fn random_samples_are_in_unit_square() {
    let mut sampler = Sampler::random();
    for _ in 0..1000 {
        let s = sampler.next();
        assert!(s.x < COORD_ONE);
        assert!(s.y < COORD_ONE);
    }
}
