use mjae::providers::linux::{energy_since, mean_power, RaplReading};
use mjae::{
    AmalgafyRegistry, DmaFenceEvent, EnergyProvider, LinuxProvider, PidEnergyAttribution,
    ProviderError,
};

fn reading(energy: &str, max_range: Option<&str>) -> RaplReading {
    RaplReading {
        energy: Some(energy.to_owned()),
        max_range: max_range.map(str::to_owned),
    }
}

#[test]
fn sync_registry_drains_pending_attributions() {
    let mut provider = LinuxProvider::new("NV-H100");
    provider.enqueue_attribution(PidEnergyAttribution {
        pid: 100,
        window_start_ns: 0,
        window_end_ns: 1_000,
        burst_power_uw: 5_000_000,
        attributed_energy_uj: 5,
        hardware_signature: "NV-H100".to_owned(),
    });
    provider.enqueue_attribution(PidEnergyAttribution {
        pid: 100,
        window_start_ns: 1_000,
        window_end_ns: 2_000,
        burst_power_uw: 5_000_000,
        attributed_energy_uj: 7,
        hardware_signature: "NV-H100".to_owned(),
    });

    let mut registry = AmalgafyRegistry::new();
    let pushed = provider.sync_registry(&mut registry).expect("sync_registry should succeed");

    assert_eq!(pushed, 12);
    assert_eq!(registry.get(100), Some(12));
    assert!(provider.pending().is_empty());
}

#[test]
fn correlate_fence_attributes_gpu_window_to_submitter() {
    let mut provider = LinuxProvider::new("NV-H100");
    provider.mark_pid_active(4242);

    let event = DmaFenceEvent {
        submitter_pid: 4242,
        submitted_at_ns: 1_000_000_000,
        signaled_at_ns: 1_200_000_000,
        gpu_power_uw: 250_000_000,
    };
    let attribution = provider.correlate_fence(event);

    assert_eq!(attribution.pid, 4242);
    assert_eq!(attribution.attributed_energy_uj, 50_000_000);
    assert_eq!(attribution.hardware_signature, "NV-H100");

    assert!(!provider.active_pid_set().contains(&4242));

    let mut registry = AmalgafyRegistry::new();
    provider.sync_registry(&mut registry).expect("drain should succeed");
    assert_eq!(registry.get(4242), Some(50_000_000));
}

#[test]
fn active_pid_set_is_sorted_and_deduplicated() {
    let mut provider = LinuxProvider::new("NV-H100");
    provider.mark_pid_active(9);
    provider.mark_pid_active(1);
    provider.mark_pid_active(9);
    provider.mark_pid_active(4);

    assert_eq!(provider.active_pid_set(), vec![1, 4, 9]);
    assert_eq!(EnergyProvider::active_pids(&provider), vec![1, 4, 9]);

    provider.mark_pid_idle(4);
    assert_eq!(provider.active_pid_set(), vec![1, 9]);
}

#[test]
fn a_busy_process_stays_active_until_its_last_fence() {
    let mut provider = LinuxProvider::new("hw");
    provider.mark_pid_active(5);
    provider.mark_pid_active(5);
    let event =
        DmaFenceEvent { submitter_pid: 5, submitted_at_ns: 9, signaled_at_ns: 3, gpu_power_uw: 1 };
    let attribution = provider.correlate_fence(event);
    assert_eq!(attribution.attributed_energy_uj, 0);
    assert_eq!(provider.active_pid_set(), vec![5]);
    provider.correlate_fence(event);
    assert_eq!(provider.active_pid_set(), Vec::<u32>::new());
    provider.correlate_fence(event);
    assert_eq!(provider.active_pid_set(), Vec::<u32>::new());
    assert_eq!(provider.pending().len(), 3);
    assert_eq!(provider.pending()[0], attribution);
}

#[test]
fn fences_of_other_processes_are_left_alone() {
    let mut provider = LinuxProvider::new("hw");
    provider.mark_pid_active(5);
    provider.mark_pid_active(6);
    provider.correlate_fence(DmaFenceEvent {
        submitter_pid: 6,
        submitted_at_ns: 0,
        signaled_at_ns: 1,
        gpu_power_uw: 1,
    });
    assert_eq!(provider.active_pid_set(), vec![5]);
}

#[test]
fn first_reading_gives_no_power() {
    let mut provider = LinuxProvider::new("hw");
    assert!(!provider.knows_counter_range());
    let outcome = provider.read_rapl_power_uw(&reading(" 500\n", None), Some(1_000));
    assert_eq!(outcome, Ok((0, 1_000)));
    assert!(provider.knows_counter_range());
}

#[test]
fn power_is_energy_over_time() {
    let mut provider = LinuxProvider::new("hw");
    let _ = provider.read_rapl_power_uw(&reading("1000", None), Some(1_000_000_000));
    let outcome = provider.read_rapl_power_uw(&reading("6000", None), Some(3_000_000_000));
    assert_eq!(outcome, Ok((2_500, 3_000_000_000)));
    let outcome = provider.read_rapl_power_uw(&reading("7000", None), Some(3_000_000_000));
    assert_eq!(outcome, Ok((0, 3_000_000_000)));
}

#[test]
fn counter_that_starts_over_loses_nothing() {
    assert_eq!(energy_since(90, 9, 99), 19);
    assert_eq!(energy_since(99, 0, 99), 1);
    assert_eq!(energy_since(9, 90, 99), 81);
    assert_eq!(energy_since(7, 7, 99), 0);
    assert_eq!(energy_since(200, 3, 99), 4);
    assert_eq!(energy_since(1, 0, u64::MAX), u64::MAX);

    let mut provider = LinuxProvider::new("hw");
    let _ = provider.read_rapl_power_uw(&reading("90", Some("99\n")), Some(0));
    // The range is known from the first reading on.
    let outcome = provider.read_rapl_power_uw(&reading("9", Some("1")), Some(1_000_000_000));
    assert_eq!(outcome, Ok((19, 1_000_000_000)));
}

#[test]
fn mean_power_saturates() {
    assert_eq!(mean_power(5, 2), 2_500_000_000);
    assert_eq!(mean_power(u64::MAX, 1), u64::MAX);
    assert_eq!(mean_power(5, 0), 0);
}

#[test]
fn malformed_range_counts_as_the_largest() {
    let mut provider = LinuxProvider::new("hw");
    let _ = provider.read_rapl_power_uw(&reading("10", Some("many")), Some(0));
    let outcome = provider.read_rapl_power_uw(&reading("9", None), Some(1_000_000_000));
    assert_eq!(outcome, Ok((u64::MAX, 1_000_000_000)));
}

#[test]
fn readings_without_a_counter_are_refused() {
    let mut provider = LinuxProvider::new("hw");
    let unreadable = RaplReading { energy: None, max_range: None };
    assert_eq!(
        provider.read_rapl_power_uw(&unreadable, Some(1)),
        Err(ProviderError::UnreadableEnergyCounter)
    );
    for text in ["", "-1", "1 2", "0x10", "+", "18446744073709551616"] {
        assert_eq!(
            provider.read_rapl_power_uw(&reading(text, None), Some(1)),
            Err(ProviderError::MalformedEnergyCounter)
        );
    }
    assert!(!provider.knows_counter_range());
    assert_eq!(
        provider.sample_power_state(&unreadable),
        Err(ProviderError::UnreadableEnergyCounter)
    );
    let largest = reading("+18446744073709551615", None);
    assert_eq!(provider.read_rapl_power_uw(&largest, Some(1)), Ok((0, 1)));
}

#[test]
fn clock_that_cannot_be_told_counts_as_the_epoch() {
    let mut provider = LinuxProvider::new("hw");
    assert_eq!(provider.read_rapl_power_uw(&reading("1", None), None), Ok((0, 0)));
    let beyond = Some(u128::from(u64::MAX) + 1);
    assert_eq!(provider.read_rapl_power_uw(&reading("1", None), beyond), Ok((0, 0)));
}

#[test]
fn package_power_is_the_processor_power() {
    let mut provider = LinuxProvider::new("hw");
    let _ = provider.sample_power_state_at(&reading("1000", None), Some(1_000_000_000));
    let snapshot =
        provider.sample_power_state_at(&reading("6000", None), Some(2_000_000_000)).unwrap();
    assert_eq!(snapshot.observed_at_ns, 2_000_000_000);
    assert_eq!(snapshot.idle_power_uw, 0);
    assert_eq!(snapshot.active_power_uw, 5_000);
    assert_eq!(snapshot.cpu_power_uw, 5_000);
    assert_eq!(snapshot.gpu_power_uw, 0);
    assert_eq!(snapshot.accelerator_power_uw, 0);
    assert_eq!(snapshot.hardware_signature, "hw");

    let attribution = provider.attribute_joules_to_pid(3, 0, 2_000_000_000, &snapshot).unwrap();
    assert_eq!(attribution.attributed_energy_uj, 10_000);
}

#[test]
fn present_time_is_stamped_on_a_snapshot() {
    let mut provider = LinuxProvider::new("hw");
    let snapshot = provider.sample_power_state(&reading("1000", None)).unwrap();
    assert!(snapshot.observed_at_ns > 1_600_000_000_000_000_000);
    assert_eq!(snapshot.active_power_uw, 0);
}

#[test]
fn paths_and_tracepoints_are_the_kernel_s() {
    assert_eq!(LinuxProvider::DMA_FENCE_TRACEPOINT, "dma_fence:dma_fence_signaled");
    assert_eq!(LinuxProvider::SCHED_SWITCH_TRACEPOINT, "sched:sched_switch");
    assert_eq!(
        LinuxProvider::DEFAULT_RAPL_ENERGY_PATH,
        "/sys/class/powercap/intel-rapl:0/energy_uj"
    );
    assert_eq!(
        LinuxProvider::DEFAULT_RAPL_MAX_RANGE_PATH,
        "/sys/class/powercap/intel-rapl:0/max_energy_range_uj"
    );
    assert_eq!(LinuxProvider::new("hw").hardware_signature(), "hw");
}
