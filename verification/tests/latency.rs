use physics_sync::latency::{sample_latency, SimulatedLatency};

#[test]
fn disabled_latency_yields_nothing() {
    assert_eq!(sample_latency(&SimulatedLatency::Disabled), None);
}

#[test]
fn fixed_latency_yields_the_configured_value() {
    assert_eq!(sample_latency(&SimulatedLatency::Fixed(25)), Some(25));
    assert_eq!(sample_latency(&SimulatedLatency::Fixed(0)), Some(0));
}

#[test]
fn random_latency_respects_the_floor_and_the_mean() {
    let config = SimulatedLatency::Random { min: 10, mean: 50 };
    let n = 1000;
    let mut sum: f64 = 0.0;
    for _ in 0..n {
        let d = sample_latency(&config).expect("random mode always yields a delay");
        assert!(d >= 10, "a delay of {} undercuts the configured floor", d);
        sum += d as f64;
    }
    let mean = sum / n as f64;
    assert!(
        (mean - 50.0).abs() < 6.0,
        "the sample mean {} strays too far from the configured 50",
        mean
    );
}

#[test]
fn degenerate_random_latency_collapses_to_the_floor() {
    // With the mean at (or below) the floor there is no jitter to add.
    assert_eq!(
        sample_latency(&SimulatedLatency::Random { min: 30, mean: 30 }),
        Some(30)
    );
}
