use mjae::clock::unix_stamp;
use mjae::providers::windows::{
    check_nvml, next_compute_query, ComputeQuery, DeviceTelemetry, NVML_ERROR_INSUFFICIENT_SIZE,
    NVML_SUCCESS,
};
use mjae::{
    AmalgafyRegistry, EnergyProvider, HardwareIdentitySource, NvmlComputeProcess,
    PidEnergyAttribution, ProviderError, WindowsProvider,
};

fn provider() -> WindowsProvider {
    WindowsProvider::new(&DeviceTelemetry {
        index: 2,
        serial: Some("SN-1".to_owned()),
        uuid: None,
    })
}

fn process(pid: u32) -> NvmlComputeProcess {
    NvmlComputeProcess {
        pid,
        used_gpu_memory_bytes: 1 << 30,
        gpu_instance_id: 0,
        compute_instance_id: 0,
    }
}

fn energies(attributions: &[PidEnergyAttribution]) -> Vec<(u32, u64)> {
    attributions.iter().map(|a| (a.pid, a.attributed_energy_uj)).collect()
}

#[test]
fn new_device_provider_has_seen_nothing() {
    let provider = provider();
    assert_eq!(provider.hardware_signature(), "SN-1");
    assert_eq!(provider.hardware_signature_string(), "SN-1");
    assert_eq!(provider.signature_source(), HardwareIdentitySource::WindowsNvmlSerial);
    assert_eq!(provider.device_index(), 2);
    assert_eq!(provider.active_pids(), Vec::<u32>::new());
}

#[test]
fn device_without_names_gets_a_placeholder() {
    let device = DeviceTelemetry { index: 10, serial: None, uuid: Some(String::new()) };
    let provider = WindowsProvider::new(&device);
    assert_eq!(provider.hardware_signature(), "nvml-device-10");
    assert_eq!(provider.signature_source(), HardwareIdentitySource::Synthetic);
}

#[test]
fn window_energy_is_split_evenly() {
    let mut provider = provider();
    let mut registry = AmalgafyRegistry::new();
    let processes = vec![process(9), process(3), process(5)];
    // 11 mW over 10 ms.
    let attributions = provider.sample_window_energy(11, &processes, 100, 200, 10, &mut registry);
    assert_eq!(energies(&attributions), vec![(9, 37), (3, 37), (5, 36)]);
    assert_eq!(attributions[0].burst_power_uw, 11_000);
    assert_eq!(attributions[0].window_start_ns, 100);
    assert_eq!(attributions[0].window_end_ns, 200);
    assert_eq!(attributions[0].hardware_signature, "SN-1");
    assert_eq!(registry.total_micro_joules(), 110);
    assert_eq!(provider.active_pids(), vec![9, 3, 5]);
}

#[test]
fn window_without_energy_or_processes_charges_nothing() {
    let mut provider = provider();
    let mut registry = AmalgafyRegistry::new();
    assert!(provider.sample_window_energy(11, &vec![], 0, 1, 10, &mut registry).is_empty());
    let processes = vec![process(9)];
    assert!(provider.sample_window_energy(0, &processes, 0, 1, 10, &mut registry).is_empty());
    assert!(provider.attribute_window(11, &vec![], 0, 1, 10, &mut registry).is_empty());
    assert!(registry.is_empty());
    assert_eq!(provider.active_pids(), Vec::<u32>::new());
}

#[test]
fn window_is_attributed_above_idle() {
    let mut provider = provider();
    let mut registry = AmalgafyRegistry::new();
    let processes = vec![process(1), process(2)];
    // 3 W, 1 W of it idle, over one second.
    let attributions =
        provider.attribute_window(3_000, &processes, 0, 1_000_000_000, 1_000_000, &mut registry);
    assert_eq!(energies(&attributions), vec![(1, 1_000_000), (2, 1_000_000)]);
    assert_eq!(attributions[1].burst_power_uw, 2_000_000);
    assert_eq!(registry.snapshot(), vec![(1, 1_000_000), (2, 1_000_000)]);
    assert_eq!(provider.active_pids(), vec![1, 2]);
}

#[test]
fn attributed_window_never_exceeds_the_burst_energy() {
    let mut provider = provider();
    let mut registry = AmalgafyRegistry::new();
    let processes = vec![process(1), process(2), process(3)];
    provider.attribute_window(1, &processes, 0, 1_000_000_000, 0, &mut registry);
    assert_eq!(registry.total_micro_joules(), 999);
}

#[test]
fn device_snapshot_notes_the_processes() {
    let mut provider = provider();
    let snapshot =
        provider.sample_power_state_at(150, &Some(vec![process(8), process(4)]), Some(77));
    assert_eq!(snapshot.observed_at_ns, 77);
    assert_eq!(snapshot.idle_power_uw, 0);
    assert_eq!(snapshot.active_power_uw, 150_000);
    assert_eq!(snapshot.cpu_power_uw, 0);
    assert_eq!(snapshot.gpu_power_uw, 150_000);
    assert_eq!(snapshot.accelerator_power_uw, 150_000);
    assert_eq!(snapshot.hardware_signature, "SN-1");
    assert_eq!(provider.active_pids(), vec![8, 4]);
    // A failed listing leaves the processes as they were.
    let snapshot = provider.sample_power_state(160, &None);
    assert_eq!(snapshot.active_power_uw, 160_000);
    assert!(snapshot.observed_at_ns > 1_600_000_000_000_000_000);
    assert_eq!(provider.active_pids(), vec![8, 4]);
}

#[test]
fn queued_device_attributions_reach_the_registry() {
    let mut provider = provider();
    let snapshot = provider.sample_power_state_at(2_000, &None, Some(1));
    let attribution = provider.attribute_joules_to_pid(6, 0, 500_000_000, &snapshot).unwrap();
    assert_eq!(attribution.attributed_energy_uj, 1_000_000);
    provider.enqueue_attribution(attribution);
    let mut registry = AmalgafyRegistry::new();
    assert_eq!(provider.sync_registry(&mut registry), Ok(1_000_000));
    assert_eq!(provider.sync_registry(&mut registry), Ok(0));
    assert_eq!(registry.snapshot(), vec![(6, 1_000_000)]);
}

#[test]
fn power_readings_become_microwatts() {
    assert_eq!(WindowsProvider::read_power_uw(250), 250_000);
    assert_eq!(WindowsProvider::read_power_uw(u32::MAX), 4_294_967_295_000);
}

#[test]
fn failed_calls_carry_their_context() {
    assert_eq!(check_nvml(NVML_SUCCESS, "nvmlInit_v2", "unused"), Ok(()));
    assert_eq!(
        check_nvml(3, "nvmlInit_v2", "Not Supported"),
        Err(ProviderError::Nvml {
            context: "nvmlInit_v2".to_owned(),
            reason: "Not Supported".to_owned(),
        })
    );
}

#[test]
fn process_queries_grow_the_buffer() {
    assert_eq!(
        next_compute_query(NVML_ERROR_INSUFFICIENT_SIZE, 40, 32),
        ComputeQuery::Grow { capacity: 40 }
    );
    assert_eq!(next_compute_query(NVML_ERROR_INSUFFICIENT_SIZE, 32, 32), ComputeQuery::Failed);
    assert_eq!(next_compute_query(NVML_SUCCESS, 32, 32), ComputeQuery::Filled { count: 32 });
    assert_eq!(next_compute_query(NVML_SUCCESS, 33, 32), ComputeQuery::Failed);
    assert_eq!(next_compute_query(15, 0, 32), ComputeQuery::Failed);
}

#[test]
fn clock_readings_are_clamped() {
    assert_eq!(unix_stamp(None), 0);
    assert_eq!(unix_stamp(Some(5)), 5);
    assert_eq!(unix_stamp(Some(u128::from(u64::MAX) + 1)), u64::MAX);
}

#[test]
fn active_processes_are_those_of_the_last_look() {
    let mut registry = AmalgafyRegistry::new();
    let seen = Some(vec![process(5)]);

    let mut provider = provider();
    provider.sample_power_state_at(150, &seen, Some(1));
    assert_eq!(provider.active_pids(), vec![5]);
    assert!(provider.attribute_window(150, &vec![], 0, 10, 0, &mut registry).is_empty());
    assert_eq!(provider.active_pids(), Vec::<u32>::new());

    provider.sample_power_state_at(150, &seen, Some(1));
    assert!(provider.sample_window_energy(150, &vec![], 0, 10, 1, &mut registry).is_empty());
    assert_eq!(provider.active_pids(), Vec::<u32>::new());

    // A look at processes that used no energy counts too.
    let idle = vec![process(8), process(6)];
    assert!(provider.sample_window_energy(0, &idle, 0, 10, 1, &mut registry).is_empty());
    assert_eq!(provider.active_pids(), vec![8, 6]);
    assert!(registry.is_empty());
}
