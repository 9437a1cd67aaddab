use mjae::providers::apple_silicon::{is_gpu_or_ane_energy_channel, CatalogueEntry};
use mjae::{
    AmalgafyRegistry, AppleEnergyChannel, AppleSiliconProvider, DifferentialSampler,
    EnergyProvider, ProviderError,
};

fn channel(group: &str, subgroup: &str, channel_name: &str) -> AppleEnergyChannel {
    AppleEnergyChannel {
        group: group.to_owned(),
        subgroup: subgroup.to_owned(),
        channel_name: channel_name.to_owned(),
        unit_label: "mJ".to_owned(),
    }
}

#[test]
fn energy_channels_are_told_by_their_names() {
    assert!(is_gpu_or_ane_energy_channel("Energy Model", "", "GPU Energy"));
    assert!(is_gpu_or_ane_energy_channel("energy model", "", "ane0"));
    assert!(is_gpu_or_ane_energy_channel("Energy Model", "die gpu rail", "X"));
    assert!(is_gpu_or_ane_energy_channel("Energy Model", "SANE", "X"));
    assert!(!is_gpu_or_ane_energy_channel("Energy Model", "", "CPU GPU"));
    assert!(!is_gpu_or_ane_energy_channel("Energy Model", "GP", "G"));
    assert!(!is_gpu_or_ane_energy_channel("Energy Models", "GPU", "GPU"));
    assert!(!is_gpu_or_ane_energy_channel("Energy", "GPU", "GPU"));
    assert!(!is_gpu_or_ane_energy_channel("", "", ""));
}

#[test]
fn channels_are_discovered_in_their_order() {
    let provider = AppleSiliconProvider::new("M3");
    let channels = vec![
        channel("Energy Model", "", "GPU1"),
        channel("Energy Model", "", "ECPU"),
        channel("CPU Stats", "", "GPU"),
        channel("Energy Model", "ANE", "x"),
    ];
    let discovered = provider.discover_gpu_ane_channels(channels.clone());
    assert_eq!(discovered, vec![channels[0].clone(), channels[3].clone()]);
}

fn entry(channel: &AppleEnergyChannel) -> CatalogueEntry {
    CatalogueEntry {
        group: Some(channel.group.clone()),
        subgroup: Some(channel.subgroup.clone()),
        channel_name: Some(channel.channel_name.clone()),
        unit_label: Some(channel.unit_label.clone()),
    }
}

#[test]
fn catalogue_entries_that_are_not_there_are_passed_over() {
    let provider = AppleSiliconProvider::new("M3");
    let gpu = channel("Energy Model", "", "GPU1");
    let cpu = channel("Energy Model", "", "ECPU");
    let ane = channel("Energy Model", "", "ANE0");
    let catalogue =
        vec![None, Some(entry(&gpu)), Some(entry(&cpu)), None, Some(entry(&ane)), None];
    assert_eq!(provider.discover_in_catalogue(Some(catalogue)), Ok(vec![gpu, ane]));
    assert_eq!(provider.discover_in_catalogue(Some(vec![None])), Ok(vec![]));
}

#[test]
fn catalogue_that_is_not_there_is_an_error() {
    let provider = AppleSiliconProvider::new("M3");
    assert_eq!(
        provider.discover_in_catalogue(None),
        Err(ProviderError::MissingChannelCatalogue)
    );
}

#[test]
fn entry_without_a_text_is_an_error_whatever_it_counts() {
    let provider = AppleSiliconProvider::new("M3");
    let gpu = channel("Energy Model", "", "GPU1");
    let cpu = channel("CPU Stats", "", "ECPU");
    let mut broken = vec![entry(&cpu), entry(&cpu), entry(&cpu), entry(&cpu)];
    broken[0].group = None;
    broken[1].subgroup = None;
    broken[2].channel_name = None;
    broken[3].unit_label = None;
    for entry_without_text in broken {
        let catalogue = vec![Some(entry(&gpu)), Some(entry_without_text), None];
        assert_eq!(
            provider.discover_in_catalogue(Some(catalogue)),
            Err(ProviderError::IncompleteChannel)
        );
    }
}

#[test]
fn readings_need_a_subscription() {
    let mut provider = AppleSiliconProvider::new("M3");
    assert_eq!(provider.sample_power_state(), Err(ProviderError::SubscriptionRequired));
}

#[test]
fn attributions_carry_the_provider_s_signature() {
    let mut provider = AppleSiliconProvider::new("M3");
    let mut snapshot = provider.power_snapshot(5, 4_000_000, 1, 2, 3);
    snapshot.hardware_signature = "other".to_owned();
    let attribution = provider.attribute_joules_to_pid(8, 0, 1_000_000_000, &snapshot).unwrap();
    assert_eq!(attribution.hardware_signature, "M3");
    assert_eq!(attribution.attributed_energy_uj, 4_000_000);
    assert_eq!(provider.hardware_signature(), "M3");
    assert_eq!(provider.active_pids(), Vec::<u32>::new());
    let mut registry = AmalgafyRegistry::new();
    assert_eq!(provider.sync_registry(&mut registry), Ok(0));
}

#[test]
fn calibrated_readings_are_charged_above_the_floor() {
    let mut provider = AppleSiliconProvider::with_idle_power_uw("M3", 4_500_000);
    let mut sampler = DifferentialSampler::new();
    let mut registry = AmalgafyRegistry::new();
    let pids = vec![1];
    let first = provider.power_snapshot(0, 5_000_000, 0, 0, 0);
    assert_eq!(first.idle_power_uw, 4_500_000);
    sampler.tick(Some(first), &pids, &mut registry);
    let second = provider.power_snapshot(1_000_000_000, 5_000_000, 0, 0, 0);
    sampler.tick(Some(second), &pids, &mut registry);
    assert_eq!(registry.get(1), Some(500_000));

    provider.set_idle_power_uw(5_200_000);
    let third = provider.power_snapshot(2_000_000_000, 5_000_000, 0, 0, 0);
    sampler.tick(Some(third), &pids, &mut registry);
    assert_eq!(registry.get(1), Some(500_000));
}
