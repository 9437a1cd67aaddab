use mjae::attribution::saturate_to_u64;
use mjae::{
    baseline_burst_power_uw, burst_energy_uj, deterministic_attribution_uj, nvml_window_energy_uj,
    rapl_fallback_uj, window_energy_uj, NANOSECONDS_PER_SECOND,
};

#[test]
fn burst_model_subtracts_idle_power() {
    assert_eq!(baseline_burst_power_uw(8_500_000, 3_000_000), 5_500_000);
    assert_eq!(burst_energy_uj(8_500_000, 3_000_000, 2_000_000_000), 11_000_000);
}

#[test]
fn burst_model_saturates_when_system_is_idle() {
    assert_eq!(baseline_burst_power_uw(900_000, 1_100_000), 0);
    assert_eq!(burst_energy_uj(900_000, 1_100_000, 10_000_000), 0);
}

#[test]
fn window_energy_handles_subsecond_windows_with_u64_only_math() {
    assert_eq!(window_energy_uj(5_000_000, 250_000_000), 1_250_000);
}

#[test]
fn deterministic_attribution_splits_burst_energy_by_accelerator_time() {
    let attributed =
        deterministic_attribution_uj(8_500_000, 3_000_000, 1_000_000_000, 2_000_000_000);
    assert_eq!(attributed, 5_500_000);
}

#[test]
fn deterministic_attribution_returns_zero_when_accelerator_is_idle() {
    assert_eq!(deterministic_attribution_uj(8_500_000, 3_000_000, 0, 0), 0);
}

#[test]
fn rapl_fallback_scales_by_cpu_share() {
    assert_eq!(rapl_fallback_uj(10_000, 250_000), 2_500);
}

#[test]
fn rapl_fallback_clamps_share_to_one_hundred_percent() {
    assert_eq!(rapl_fallback_uj(10_000, 5_000_000), 10_000);
}

#[test]
fn nvml_window_energy_uses_milliwatt_millisecond_product() {
    assert_eq!(nvml_window_energy_uj(150_000, 100), 15_000_000);
}

#[test]
fn nvml_window_energy_saturates_instead_of_overflowing() {
    assert_eq!(nvml_window_energy_uj(u64::MAX, u64::MAX), u64::MAX);
}

#[test]
fn window_energy_is_the_product_of_power_and_time() {
    assert_eq!(NANOSECONDS_PER_SECOND, 1_000_000_000);
    assert_eq!(window_energy_uj(7, 3_500_000_000), 24);
    assert_eq!(window_energy_uj(u64::MAX, 2_000_000_000), u64::MAX);
    assert_eq!(window_energy_uj(0, u64::MAX), 0);
}

#[test]
fn window_energy_of_a_huge_power_clamps_the_fraction_of_a_second() {
    // The product for the half second does not fit, so less comes out than the
    // true 50_000_000_000.
    assert_eq!(window_energy_uj(100_000_000_000, 500_000_000), 18_446_744_073);
}

#[test]
fn longer_windows_yield_no_less_energy() {
    assert!(window_energy_uj(123_456, 999_999_999) <= window_energy_uj(123_456, 1_000_000_000));
    assert!(window_energy_uj(123_455, 777) <= window_energy_uj(123_456, 777));
}

#[test]
fn milliwatts_and_microwatts_agree() {
    assert_eq!(nvml_window_energy_uj(150, 20), window_energy_uj(150_000, 20_000_000));
}

#[test]
fn attribution_counts_no_more_than_the_busy_time() {
    assert_eq!(
        deterministic_attribution_uj(2_000_000, 1_000_000, 9_000_000_000, 1_000_000_000),
        1_000_000
    );
    assert_eq!(
        deterministic_attribution_uj(8_500_000, 3_000_000, 1_500_000_000, 2_000_000_000),
        burst_energy_uj(8_500_000, 3_000_000, 1_500_000_000)
    );
}

#[test]
fn shares_of_the_accelerator_stay_below_the_burst_energy() {
    let shares: u64 = [333_333_333_u64, 333_333_333, 333_333_334]
        .iter()
        .map(|held_ns| deterministic_attribution_uj(8_500_001, 3_000_000, *held_ns, 1_000_000_000))
        .sum();
    assert!(shares <= burst_energy_uj(8_500_001, 3_000_000, 1_000_000_000));
}

#[test]
fn large_values_are_clamped() {
    assert_eq!(saturate_to_u64(12), 12);
    assert_eq!(saturate_to_u64(u128::from(u64::MAX) + 1), u64::MAX);
}
