use head_panner::latency::{LatencyWindow, LATENCY_CAPACITY};

#[test]
fn capacity_is_thirty() {
    assert_eq!(LATENCY_CAPACITY, 30);
}

#[test]
fn empty_window_has_zero_average() {
    let window = LatencyWindow::new();
    assert_eq!(window.len(), 0);
    assert_eq!(window.average(), 0);
    assert_eq!(window.samples(), Vec::<u64>::new());
}

#[test]
fn record_returns_the_mean_of_the_window() {
    let mut window = LatencyWindow::new();
    assert_eq!(window.record(1_000_000), 1_000_000);
    assert_eq!(window.record(3_000_000), 2_000_000);
    assert_eq!(window.record(2_000_000), 2_000_000);
    assert_eq!(window.average(), 2_000_000);
    assert_eq!(window.len(), 3);
    assert_eq!(window.samples(), vec![1_000_000, 3_000_000, 2_000_000]);
}

#[test]
fn mean_rounds_down() {
    let mut window = LatencyWindow::new();
    assert_eq!(window.record(1), 1);
    assert_eq!(window.record(2), 1);
    assert_eq!(window.record(2), 1);
    assert_eq!(window.record(3), 2);
}

#[test]
fn window_fills_to_capacity_without_eviction() {
    let mut window = LatencyWindow::new();
    for i in 1..=30u64 {
        window.record(i);
    }
    assert_eq!(window.len(), 30);
    assert_eq!(window.samples(), (1..=30u64).collect::<Vec<u64>>());
    assert_eq!(window.average(), 15);
}

#[test]
fn oldest_sample_leaves_a_full_window() {
    let mut window = LatencyWindow::new();
    for i in 1..=30u64 {
        window.record(i * 10);
    }
    let average = window.record(1000);
    assert_eq!(window.len(), 30);
    let mut expected: Vec<u64> = (2..=30u64).map(|i| i * 10).collect();
    expected.push(1000);
    assert_eq!(window.samples(), expected);
    assert_eq!(average, expected.iter().sum::<u64>() / 30);
}

#[test]
fn window_keeps_the_last_thirty_in_order() {
    let mut window = LatencyWindow::new();
    let mut model: Vec<u64> = Vec::new();
    for i in 0..200u64 {
        let sample = (i * 7919) % 1013;
        let average = window.record(sample);
        model.push(sample);
        if model.len() > 30 {
            model.remove(0);
        }
        assert_eq!(window.samples(), model);
        assert_eq!(window.len(), model.len());
        assert_eq!(average, model.iter().sum::<u64>() / model.len() as u64);
        assert_eq!(window.average(), average);
    }
}

#[test]
fn largest_samples_do_not_overflow() {
    let mut window = LatencyWindow::new();
    for _ in 0..100 {
        assert_eq!(window.record(u64::MAX), u64::MAX);
    }
    assert_eq!(window.record(0), (u64::MAX as u128 * 29 / 30) as u64);
}

#[test]
fn constant_input_gives_constant_average() {
    let mut window = LatencyWindow::new();
    for _ in 0..75 {
        assert_eq!(window.record(4_200_000), 4_200_000);
    }
}
