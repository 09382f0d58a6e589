use steno::counter::{sample_speed, Counter, Phase, Tick, MAX_TICK_MS};

#[test]
fn two_samples_at_one_second() {
    let mut counter = Counter::new(2, 1000, 5);
    assert_eq!(counter.phase(), Phase::Idle);
    assert!(counter.start_timer(0));
    assert_eq!(counter.phase(), Phase::Running);

    assert!(matches!(counter.tick(100, 1), Tick::Continue));
    assert!(matches!(counter.tick(999, 8), Tick::Continue));
    assert!(counter.wpm_measurements().is_empty());

    assert!(matches!(counter.tick(1000, 10), Tick::Continue));
    assert_eq!(counter.wpm_measurements(), &vec![120_000]);
    assert!(matches!(counter.tick(1500, 12), Tick::Continue));
    assert_eq!(counter.wpm_measurements(), &vec![120_000]);

    let series = match counter.tick(2000, 15) {
        Tick::Finished(event) => event.wpm_measurements,
        other => panic!("the series was due, got {:?}", other),
    };
    assert_eq!(series, vec![120_000, 60_000]);
    let wpm: Vec<f64> = series.iter().map(|s| *s as f64 / 1000.0).collect();
    assert!((wpm[0] - 120.0).abs() < 1e-9);
    assert!((wpm[1] - 60.0).abs() < 1e-9);
    assert_eq!(counter.phase(), Phase::Finished);

    assert!(matches!(counter.tick(3000, 40), Tick::Stopped));
    assert!(matches!(counter.tick(4000, 80), Tick::Stopped));
    assert_eq!(counter.wpm_measurements(), &vec![120_000, 60_000]);
    assert_eq!(counter.phase(), Phase::Finished);
}

#[test]
fn idle_counter_does_not_tick() {
    let mut counter = Counter::new(3, 1000, 5);
    assert!(matches!(counter.tick(5000, 100), Tick::Stopped));
    assert_eq!(counter.phase(), Phase::Idle);
    assert!(counter.wpm_measurements().is_empty());
    assert_eq!(counter.remaining_secs(5000), None);
}

#[test]
fn counter_starts_once() {
    let mut counter = Counter::new(3, 1000, 5);
    assert!(counter.start_timer(500));
    assert!(!counter.start_timer(900));
    assert!(matches!(counter.tick(1499, 5), Tick::Continue));
    assert!(counter.wpm_measurements().is_empty());
    assert!(matches!(counter.tick(1500, 5), Tick::Continue));
    assert_eq!(counter.wpm_measurements(), &vec![60_000]);
}

#[test]
fn finished_counter_does_not_restart() {
    let mut counter = Counter::new(1, 1000, 5);
    assert!(counter.start_timer(0));
    assert!(matches!(counter.tick(1000, 5), Tick::Finished(_)));
    assert!(!counter.start_timer(2000));
    assert_eq!(counter.phase(), Phase::Finished);
    assert!(matches!(counter.tick(3000, 50), Tick::Stopped));
    assert_eq!(counter.wpm_measurements(), &vec![60_000]);
}

#[test]
fn late_tick_takes_one_sample() {
    let mut counter = Counter::new(3, 1000, 5);
    assert!(counter.start_timer(0));
    assert!(matches!(counter.tick(2500, 10), Tick::Continue));
    assert_eq!(counter.wpm_measurements(), &vec![120_000]);
    assert!(matches!(counter.tick(2600, 10), Tick::Continue));
    assert_eq!(counter.wpm_measurements(), &vec![120_000, 0]);
}

#[test]
fn count_that_went_down_is_no_typing() {
    let mut counter = Counter::new(3, 1000, 5);
    assert!(counter.start_timer(0));
    assert!(matches!(counter.tick(1000, 10), Tick::Continue));
    assert!(matches!(counter.tick(2000, 4), Tick::Continue));
    assert_eq!(counter.wpm_measurements(), &vec![120_000, 0]);
    assert!(matches!(counter.tick(3000, 9), Tick::Finished(_)));
    assert_eq!(counter.wpm_measurements(), &vec![120_000, 0, 60_000]);
}

#[test]
fn tick_before_the_start_time_takes_no_sample() {
    let mut counter = Counter::new(2, 1000, 5);
    assert!(counter.start_timer(10_000));
    assert!(matches!(counter.tick(5, 10), Tick::Continue));
    assert!(counter.wpm_measurements().is_empty());
}

#[test]
fn sample_speed_is_words_per_minute_in_thousandths() {
    assert_eq!(sample_speed(10, 5, 1000), 120_000);
    assert_eq!(sample_speed(5, 5, 1000), 60_000);
    assert_eq!(sample_speed(7, 5, 1000), 84_000);
    assert_eq!(sample_speed(0, 5, 1000), 0);
    assert_eq!(sample_speed(1, 7, 1000), 8_571);
    assert_eq!(sample_speed(10, 5, 500), 240_000);
    assert_eq!(sample_speed(1, 1, 60_000), 1_000);
    assert_eq!(sample_speed(u64::MAX, 1, 1), u64::MAX);
}

#[test]
fn remaining_secs_counts_down() {
    let mut counter = Counter::new(15, 1000, 5);
    assert!(counter.start_timer(1000));
    assert_eq!(counter.remaining_secs(1000), Some(15));
    assert_eq!(counter.remaining_secs(1001), Some(14));
    assert_eq!(counter.remaining_secs(2000), Some(14));
    assert_eq!(counter.remaining_secs(15_999), Some(0));
    assert_eq!(counter.remaining_secs(16_000), Some(0));
    assert_eq!(counter.remaining_secs(60_000), Some(0));
    assert_eq!(counter.remaining_secs(0), Some(15));
}

#[test]
fn tick_interval_is_capped() {
    assert_eq!(Counter::new(2, 1000, 5).tick_interval_ms(), MAX_TICK_MS);
    assert_eq!(Counter::new(2, 100, 5).tick_interval_ms(), 100);
    assert_eq!(Counter::new(2, 40, 5).tick_interval_ms(), 40);
}

#[test]
fn series_of_no_samples_finishes_at_the_first_tick() {
    let mut counter = Counter::new(0, 1000, 5);
    assert!(matches!(counter.tick(10, 5), Tick::Stopped));
    assert!(counter.start_timer(0));
    assert_eq!(counter.phase(), Phase::Running);
    assert_eq!(counter.remaining_secs(0), Some(0));
    let series = match counter.tick(1, 7) {
        Tick::Finished(event) => event.wpm_measurements,
        other => panic!("the series was due, got {:?}", other),
    };
    assert!(series.is_empty());
    assert_eq!(counter.phase(), Phase::Finished);
    assert!(matches!(counter.tick(5000, 70), Tick::Stopped));
    assert!(counter.wpm_measurements().is_empty());
}
