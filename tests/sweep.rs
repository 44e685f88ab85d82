use scanbench::sweep::{ConfigError, SweepConfig};

fn cfg(min_bytes: u64, max_bytes: u64, step_bytes: u64, factor_num: u32, factor_den: u32) -> SweepConfig {
    SweepConfig { min_bytes, max_bytes, step_bytes, factor_num, factor_den }
}

#[test]
fn additive_sweep_visits_each_step() {
    assert_eq!(cfg(1, 10, 3, 1, 1).plan(), Ok(vec![1, 4, 7, 10]));
}

#[test]
fn non_progressing_sweep_is_refused() {
    assert_eq!(cfg(1, 10, 0, 1, 1).plan(), Err(ConfigError::NoProgress));
    assert_eq!(cfg(1, 10, 0, 1, 2).plan(), Err(ConfigError::NoProgress));
    assert_eq!(cfg(1, 10, 1, 1, 0).plan(), Err(ConfigError::ZeroDenominator));
}

#[test]
fn multiplicative_sweep() {
    assert_eq!(cfg(1, 100, 0, 2, 1).plan(), Ok(vec![1, 2, 4, 8, 16, 32, 64]));
    // (4 + 2) * 3 / 2 = 9, (9 + 2) * 3 / 2 = 16
    assert_eq!(cfg(4, 20, 2, 3, 2).plan(), Ok(vec![4, 9, 16]));
}

#[test]
fn single_size_sweep() {
    let s = 0x1_000_000u64;
    assert_eq!(cfg(s, s, s, 1, 1).plan(), Ok(vec![s]));
}

#[test]
fn empty_range_plans_nothing() {
    assert_eq!(cfg(10, 1, 1, 1, 1).plan(), Ok(vec![]));
}

#[test]
fn sweep_stops_when_size_stops_growing() {
    // 0 * 2 = 0 would repeat forever
    assert_eq!(cfg(0, 10, 0, 2, 1).plan(), Ok(vec![0]));
    // (50 + 1) / 2 = 25 goes down
    assert_eq!(cfg(1, 100, 1, 1, 2).next_size(50), None);
}

#[test]
fn sweep_reaches_largest_size() {
    assert_eq!(cfg(u64::MAX - 1, u64::MAX, 1, 1, 1).plan(), Ok(vec![u64::MAX - 1, u64::MAX]));
}
