use mjae::provider::{charge_evenly, even_share, push_attributions};
use mjae::{
    AmalgafyRegistry, DifferentialSampler, EnergyProvider, Heartbeat, PidEnergyAttribution,
    PowerSnapshot, ProviderError, SAMPLING_LOOP_INTERVAL_MS,
};

struct FakeProvider {
    sig: String,
    ticks: u64,
    active_pids: Vec<u32>,
}

impl FakeProvider {
    fn new(active_pids: Vec<u32>) -> Self {
        FakeProvider { sig: "FAKE-HW".to_owned(), ticks: 0, active_pids }
    }

    fn sample_power_state(&mut self) -> PowerSnapshot {
        self.ticks += 1;
        PowerSnapshot {
            observed_at_ns: self.ticks * 100_000_000,
            idle_power_uw: 1_000_000,
            active_power_uw: 2_000_000,
            cpu_power_uw: 0,
            gpu_power_uw: 0,
            accelerator_power_uw: 0,
            hardware_signature: self.sig.clone(),
        }
    }
}

impl EnergyProvider for FakeProvider {
    fn attribute_joules_to_pid(
        &mut self,
        pid: u32,
        window_start_ns: u64,
        window_end_ns: u64,
        snapshot: &PowerSnapshot,
    ) -> Result<PidEnergyAttribution, ProviderError> {
        Ok(PidEnergyAttribution::baseline_burst(pid, window_start_ns, window_end_ns, snapshot))
    }

    fn hardware_signature(&self) -> &str {
        &self.sig
    }

    fn active_pids(&self) -> Vec<u32> {
        self.active_pids.clone()
    }
}

fn run(
    provider: &mut FakeProvider,
    ticks: usize,
    registry: &mut AmalgafyRegistry,
) -> Vec<Heartbeat> {
    let mut sampler = DifferentialSampler::new();
    let mut heartbeats = Vec::new();
    for _ in 0..ticks {
        let reading = provider.sample_power_state();
        let pids = provider.active_pids();
        heartbeats.push(sampler.tick(Some(reading), &pids, registry));
    }
    heartbeats
}

#[test]
fn sampling_loop_constant_is_one_hundred_milliseconds() {
    assert_eq!(SAMPLING_LOOP_INTERVAL_MS, 100);
}

#[test]
fn sampling_loop_accumulates_delta_into_active_pids() {
    let mut registry = AmalgafyRegistry::new();
    let mut provider = FakeProvider::new(vec![100, 200]);
    run(&mut provider, 5, &mut registry);

    let total = registry.total_micro_joules();
    assert!(total >= 200_000, "expected at least 200_000 µJ accumulated, got {total}");
    assert_eq!(total, 400_000);
    let p100 = registry.get(100).unwrap_or(0);
    let p200 = registry.get(200).unwrap_or(0);
    assert!(p100 > 0 && p200 > 0, "both PIDs should receive a share");
    assert_eq!(registry.get(0), None);
}

#[test]
fn sampling_loop_buckets_to_pid_zero_when_no_active_pids() {
    let mut registry = AmalgafyRegistry::new();
    let mut provider = FakeProvider::new(Vec::new());
    run(&mut provider, 3, &mut registry);

    assert!(registry.get(0).unwrap_or(0) > 0);
    assert_eq!(registry.snapshot(), vec![(0, 200_000)]);
}

#[test]
fn heartbeats_tell_what_a_tick_did() {
    let mut registry = AmalgafyRegistry::new();
    let mut provider = FakeProvider::new(vec![7]);
    let heartbeats = run(&mut provider, 3, &mut registry);
    assert_eq!(
        heartbeats,
        vec![
            Heartbeat::FirstSample,
            Heartbeat::Charged {
                dt_ns: 100_000_000,
                delta_uj: 100_000,
                cumulative_delta_uj: 100_000,
                active_pids: 1,
            },
            Heartbeat::Charged {
                dt_ns: 100_000_000,
                delta_uj: 100_000,
                cumulative_delta_uj: 200_000,
                active_pids: 1,
            },
        ]
    );
}

#[test]
fn a_tick_without_a_reading_changes_nothing() {
    let mut registry = AmalgafyRegistry::new();
    let mut provider = FakeProvider::new(vec![7]);
    let mut sampler = DifferentialSampler::new();
    let pids = vec![7];
    sampler.tick(Some(provider.sample_power_state()), &pids, &mut registry);
    assert_eq!(sampler.tick(None, &pids, &mut registry), Heartbeat::Skipped);
    assert!(registry.is_empty());
    // The next reading is differenced against the one before the gap.
    provider.sample_power_state();
    sampler.tick(Some(provider.sample_power_state()), &pids, &mut registry);
    assert_eq!(registry.get(7), Some(200_000));
    assert_eq!(sampler.cumulative_delta_uj, 200_000);
}

#[test]
fn a_clock_that_runs_backwards_charges_nothing() {
    let mut registry = AmalgafyRegistry::new();
    let mut provider = FakeProvider::new(vec![7]);
    let early = provider.sample_power_state();
    let late = provider.sample_power_state();
    let mut sampler = DifferentialSampler::new();
    let pids = vec![7];
    sampler.tick(Some(late), &pids, &mut registry);
    sampler.tick(Some(early), &pids, &mut registry);
    assert_eq!(registry.get(7), Some(0));
}

#[test]
fn remainder_goes_to_the_lowest_processes() {
    let mut registry = AmalgafyRegistry::new();
    charge_evenly(11, &vec![5, 6, 7], &mut registry);
    assert_eq!(registry.snapshot(), vec![(5, 4), (6, 4), (7, 3)]);
    assert_eq!(registry.total_micro_joules(), 11);
    assert_eq!(even_share(11, 3, 0), 4);
    assert_eq!(even_share(11, 3, 2), 3);
}

#[test]
fn a_process_that_is_listed_twice_gets_two_shares() {
    let mut registry = AmalgafyRegistry::new();
    charge_evenly(9, &vec![5, 6, 5], &mut registry);
    assert_eq!(registry.snapshot(), vec![(5, 6), (6, 3)]);
}

#[test]
fn baseline_burst_uses_the_whole_window() {
    let mut provider = FakeProvider::new(Vec::new());
    let snapshot = provider.sample_power_state();
    let attribution = provider
        .attribute_joules_to_pid(9, 1_000_000_000, 3_500_000_000, &snapshot)
        .unwrap();
    assert_eq!(attribution.pid, 9);
    assert_eq!(attribution.window_start_ns, 1_000_000_000);
    assert_eq!(attribution.window_end_ns, 3_500_000_000);
    assert_eq!(attribution.burst_power_uw, 1_000_000);
    assert_eq!(attribution.attributed_energy_uj, 2_500_000);
    assert_eq!(attribution.hardware_signature, "FAKE-HW");
    let backwards = PidEnergyAttribution::baseline_burst(9, 5, 4, &snapshot);
    assert_eq!(backwards.attributed_energy_uj, 0);
}

#[test]
fn a_provider_without_attributions_moves_nothing() {
    let mut provider = FakeProvider::new(Vec::new());
    let mut registry = AmalgafyRegistry::new();
    assert_eq!(provider.sync_registry(&mut registry), Ok(0));
    assert!(registry.is_empty());
}

#[test]
fn pushed_energy_saturates() {
    let mut provider = FakeProvider::new(Vec::new());
    let snapshot = provider.sample_power_state();
    let mut large = PidEnergyAttribution::baseline_burst(1, 0, 1, &snapshot);
    large.attributed_energy_uj = u64::MAX;
    let mut other = large.clone();
    other.pid = 2;
    let mut registry = AmalgafyRegistry::new();
    assert_eq!(push_attributions(&vec![large, other], &mut registry), u64::MAX);
    assert_eq!(registry.snapshot(), vec![(1, u64::MAX), (2, u64::MAX)]);
}

#[test]
fn remainder_goes_to_the_lowest_process_in_any_listing() {
    let reading = |observed_at_ns: u64| PowerSnapshot {
        observed_at_ns,
        idle_power_uw: 0,
        active_power_uw: 1_000_010,
        cpu_power_uw: 0,
        gpu_power_uw: 0,
        accelerator_power_uw: 0,
        hardware_signature: "FAKE-HW".to_owned(),
    };
    for pids in [vec![300, 100], vec![100, 300]] {
        let mut registry = AmalgafyRegistry::new();
        let mut sampler = DifferentialSampler::new();
        sampler.tick(Some(reading(100_000_000)), &pids, &mut registry);
        sampler.tick(Some(reading(200_000_000)), &pids, &mut registry);
        assert_eq!(registry.snapshot(), vec![(100, 50_001), (300, 50_000)]);
    }
}

#[test]
fn listing_order_does_not_show_in_a_split() {
    let mut ascending = AmalgafyRegistry::new();
    let mut descending = AmalgafyRegistry::new();
    charge_evenly(11, &vec![5, 6, 7], &mut ascending);
    charge_evenly(11, &vec![7, 6, 5], &mut descending);
    assert_eq!(ascending.snapshot(), descending.snapshot());
    let mut repeated = AmalgafyRegistry::new();
    charge_evenly(10, &vec![6, 5, 6], &mut repeated);
    assert_eq!(repeated.snapshot(), vec![(5, 4), (6, 6)]);
}
