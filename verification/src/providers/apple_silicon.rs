//! The Apple Silicon provider: the energy channels of the chip.

use vstd::prelude::*;

use crate::attribution::{burst_power, window_energy};
use crate::error::ProviderError;
use crate::provider::{
    baseline_attribution, baseline_attribution_is_the_whole_part, delta_between, window_length,
    AttributionModel, EnergyProvider, PidEnergyAttribution, PowerSnapshot,
};
use crate::text::{
    ascii_upper, ascii_upper_chars, chars_of, is_at, occurs, occurs_in,
    parts_agree_character_by_character, stands_at, upper_case_goes_letter_by_letter,
};

verus! {

/// A telemetry channel of the chip.
#[derive(Debug, Clone, PartialEq, Eq)]
pub struct AppleEnergyChannel {
    pub group: String,
    pub subgroup: String,
    pub channel_name: String,
    pub unit_label: String,
}

/// A channel of the catalogue, with the texts that could be read.
#[derive(Debug, Clone, PartialEq, Eq)]
pub struct CatalogueEntry {
    pub group: Option<String>,
    pub subgroup: Option<String>,
    pub channel_name: Option<String>,
    pub unit_label: Option<String>,
}

/// Whether all texts of an entry could be read.
pub open spec fn is_complete(entry: CatalogueEntry) -> bool {
    entry.group is Some && entry.subgroup is Some && entry.channel_name is Some
        && entry.unit_label is Some
}

/// The channel of a complete entry.
pub open spec fn channel_of(entry: CatalogueEntry) -> AppleEnergyChannel {
    AppleEnergyChannel {
        group: entry.group->0,
        subgroup: entry.subgroup->0,
        channel_name: entry.channel_name->0,
        unit_label: entry.unit_label->0,
    }
}

/// The channels of the entries that are there.
pub open spec fn present_channels(entries: Seq<Option<CatalogueEntry>>) -> Seq<AppleEnergyChannel>
    decreases entries.len(),
{
    if entries.len() == 0 {
        Seq::empty()
    } else {
        match entries.last() {
            Some(entry) => present_channels(entries.drop_last()).push(channel_of(entry)),
            None => present_channels(entries.drop_last()),
        }
    }
}

/// Whether every entry that is there is complete.
pub open spec fn all_complete(entries: Seq<Option<CatalogueEntry>>) -> bool {
    forall|i: int|
        0 <= i < entries.len() && (#[trigger] entries[i]) is Some ==> is_complete(entries[i]->0)
}

/// Whether a channel counts the energy of the GPU or of the neural engine: it is
/// in the energy model, and its name starts with either, or its subgroup names
/// either. Letters count alike in either case.
pub open spec fn measures_gpu_or_ane(
    group: Seq<char>,
    subgroup: Seq<char>,
    channel_name: Seq<char>,
) -> bool {
    &&& ascii_upper(group) == "ENERGY MODEL"@
    &&& {
        ||| stands_at(ascii_upper(channel_name), "GPU"@, 0)
        ||| stands_at(ascii_upper(channel_name), "ANE"@, 0)
        ||| occurs_in(ascii_upper(subgroup), "GPU"@)
        ||| occurs_in(ascii_upper(subgroup), "ANE"@)
    }
}

/// The channels that count the energy of the GPU or of the neural engine.
pub open spec fn gpu_and_ane(channels: Seq<AppleEnergyChannel>) -> Seq<AppleEnergyChannel> {
    channels.filter(
        |channel: AppleEnergyChannel|
            measures_gpu_or_ane(channel.group@, channel.subgroup@, channel.channel_name@),
    )
}

/// Whether a channel counts the energy of the GPU or of the neural engine.
pub fn is_gpu_or_ane_energy_channel(group: &str, subgroup: &str, channel_name: &str) -> (holds:
    bool)
    ensures
        holds == measures_gpu_or_ane(group@, subgroup@, channel_name@),
{
    let group_upper = ascii_upper_chars(group);
    let energy_model = chars_of("ENERGY MODEL");
    if group_upper.len() != energy_model.len() || !is_at(&group_upper, &energy_model, 0) {
        proof {
            if ascii_upper(group@) == "ENERGY MODEL"@ {
                assert(stands_at(group_upper@, energy_model@, 0)) by {
                    assert(group_upper@.subrange(0, energy_model@.len() as int) =~= energy_model@);
                }
            }
        }
        return false;
    }
    assert(group_upper@ =~= energy_model@);
    let subgroup_upper = ascii_upper_chars(subgroup);
    let channel_name_upper = ascii_upper_chars(channel_name);
    let gpu = chars_of("GPU");
    let ane = chars_of("ANE");
    is_at(&channel_name_upper, &gpu, 0) || is_at(&channel_name_upper, &ane, 0) || occurs(
        &subgroup_upper,
        &gpu,
    ) || occurs(&subgroup_upper, &ane)
}

/// The Apple Silicon provider.
#[derive(Debug, Clone)]
pub struct AppleSiliconProvider {
    hardware_signature: String,
    /// The power of the chip at rest.
    idle_power_uw: u64,
}

impl AppleSiliconProvider {
    /// The identifier of the hardware.
    pub closed spec fn signature(self) -> Seq<char> {
        self.hardware_signature@
    }

    /// The power of the chip at rest, in microwatts.
    pub closed spec fn idle_floor_uw(self) -> u64 {
        self.idle_power_uw
    }

    /// A provider that is not calibrated: all power counts as above idle.
    pub fn new(hardware_signature: &str) -> (provider: Self)
        ensures
            provider.signature() == hardware_signature@,
            provider.idle_floor_uw() == 0,
    {
        Self::with_idle_power_uw(hardware_signature, 0)
    }

    /// A provider that is calibrated to the chip's power at rest.
    pub fn with_idle_power_uw(hardware_signature: &str, idle_power_uw: u64) -> (provider: Self)
        ensures
            provider.signature() == hardware_signature@,
            provider.idle_floor_uw() == idle_power_uw,
    {
        AppleSiliconProvider { hardware_signature: hardware_signature.to_owned(), idle_power_uw }
    }

    /// Calibrates the provider anew.
    pub fn set_idle_power_uw(&mut self, idle_power_uw: u64)
        ensures
            final(self).idle_floor_uw() == idle_power_uw,
            final(self).signature() == old(self).signature(),
    {
        self.idle_power_uw = idle_power_uw;
    }

    /// The channels, of all that the chip has, that count the energy of the GPU
    /// or of the neural engine, in their order.
    pub fn discover_gpu_ane_channels(&self, channels: Vec<AppleEnergyChannel>) -> (discovered: Vec<
        AppleEnergyChannel,
    >)
        ensures
            discovered@ == gpu_and_ane(channels@),
    {
        let ghost all = channels@;
        let mut discovered: Vec<AppleEnergyChannel> = Vec::new();
        proof {
            reveal(Seq::filter);
            assert(all.take(0).len() == 0);
        }
        for channel in it: channels
            invariant
                it.seq() == all,
                discovered@ == gpu_and_ane(all.take(it.index() as int)),
        {
            proof {
                let i = it.index() as int;
                reveal(Seq::filter);
                assert(all.take(i + 1).drop_last() =~= all.take(i));
                assert(all.take(i + 1).last() == channel);
            }
            if is_gpu_or_ane_energy_channel(
                channel.group.as_str(),
                channel.subgroup.as_str(),
                channel.channel_name.as_str(),
            ) {
                discovered.push(channel);
            }
        }
        assert(all.take(all.len() as int) =~= all);
        discovered
    }

    /// The channels of a catalogue that count the energy of the GPU or of the neural
    /// engine, in their order. Entries that are not there are passed over. A
    /// catalogue that is not there is an error, and so is an entry that lacks a
    /// text, whatever it counts.
    pub fn discover_in_catalogue(&self, catalogue: Option<Vec<Option<CatalogueEntry>>>) -> (
    discovered: Result<Vec<AppleEnergyChannel>, ProviderError>)
        ensures
            match catalogue {
                None => discovered == Err::<Vec<AppleEnergyChannel>, ProviderError>(
                    ProviderError::MissingChannelCatalogue,
                ),
                Some(entries) => if all_complete(entries@) {
                    &&& discovered is Ok
                    &&& discovered->Ok_0@ == gpu_and_ane(present_channels(entries@))
                } else {
                    discovered == Err::<Vec<AppleEnergyChannel>, ProviderError>(
                        ProviderError::IncompleteChannel,
                    )
                },
            },
    {
        let entries = match catalogue {
            Some(entries) => entries,
            None => return Err(ProviderError::MissingChannelCatalogue),
        };
        let ghost all = entries@;
        let mut channels: Vec<AppleEnergyChannel> = Vec::new();
        for entry in it: entries
            invariant
                it.seq() == all,
                catalogue == Some(entries),
                entries@ == all,
                forall|i: int|
                    0 <= i < it.index() && (#[trigger] all[i]) is Some ==> is_complete(all[i]->0),
                channels@ == present_channels(all.take(it.index() as int)),
        {
            let ghost i = it.index() as int;
            proof {
                assert(all[i] == entry);
                assert(all.take(i + 1).drop_last() =~= all.take(i));
                assert(all.take(i + 1).last() == entry);
            }
            if let Some(entry) = entry {
                match (entry.group, entry.subgroup, entry.channel_name, entry.unit_label) {
                    (Some(group), Some(subgroup), Some(channel_name), Some(unit_label)) => {
                        channels.push(
                            AppleEnergyChannel { group, subgroup, channel_name, unit_label },
                        );
                    },
                    _ => {
                        assert(!is_complete(all[i]->0));
                        return Err(ProviderError::IncompleteChannel);
                    },
                }
            }
        }
        assert(all.take(all.len() as int) =~= all);
        Ok(self.discover_gpu_ane_channels(channels))
    }

    /// The snapshot of a power reading, with the configured power at rest.
    pub fn power_snapshot(
        &self,
        observed_at_ns: u64,
        active_power_uw: u64,
        cpu_power_uw: u64,
        gpu_power_uw: u64,
        accelerator_power_uw: u64,
    ) -> (snapshot: PowerSnapshot)
        ensures
            snapshot.observed_at_ns == observed_at_ns,
            snapshot.idle_power_uw == self.idle_floor_uw(),
            snapshot.active_power_uw == active_power_uw,
            snapshot.cpu_power_uw == cpu_power_uw,
            snapshot.gpu_power_uw == gpu_power_uw,
            snapshot.accelerator_power_uw == accelerator_power_uw,
            snapshot.hardware_signature@ == self.signature(),
    {
        PowerSnapshot {
            observed_at_ns,
            idle_power_uw: self.idle_power_uw,
            active_power_uw,
            cpu_power_uw,
            gpu_power_uw,
            accelerator_power_uw,
            hardware_signature: self.hardware_signature.clone(),
        }
    }

    /// A power reading needs a subscription to the channels, and the provider
    /// has none.
    pub fn sample_power_state(&mut self) -> (outcome: Result<PowerSnapshot, ProviderError>)
        ensures
            outcome == Err::<PowerSnapshot, ProviderError>(ProviderError::SubscriptionRequired),
            *final(self) == *old(self),
    {
        Err(ProviderError::SubscriptionRequired)
    }
}

/// The burst model's attribution, under the provider's own identifier.
pub open spec fn signed_attribution(
    pid: u32,
    window_start_ns: u64,
    window_end_ns: u64,
    snapshot: PowerSnapshot,
    signature: Seq<char>,
) -> AttributionModel {
    AttributionModel {
        hardware_signature: signature,
        ..baseline_attribution(pid, window_start_ns, window_end_ns, snapshot)
    }
}

impl EnergyProvider for AppleSiliconProvider {
    fn attribute_joules_to_pid(
        &mut self,
        pid: u32,
        window_start_ns: u64,
        window_end_ns: u64,
        snapshot: &PowerSnapshot,
    ) -> (attribution: Result<PidEnergyAttribution, ProviderError>)
        ensures
            attribution is Ok,
            attribution->Ok_0@ == signed_attribution(
                pid,
                window_start_ns,
                window_end_ns,
                *snapshot,
                old(self).signature(),
            ),
            *final(self) == *old(self),
    {
        let mut attribution = PidEnergyAttribution::baseline_burst(
            pid,
            window_start_ns,
            window_end_ns,
            snapshot,
        );
        attribution.hardware_signature = self.hardware_signature.clone();
        Ok(attribution)
    }

    fn hardware_signature(&self) -> (signature: &str)
        ensures
            signature@ == self.signature(),
    {
        self.hardware_signature.as_str()
    }
}

/// The sampling loop subtracts the configured power at rest from every reading:
/// what it charges between two readings is the energy above it.
pub proof fn sampling_charges_above_the_floor(
    provider: AppleSiliconProvider,
    earlier: PowerSnapshot,
    later: PowerSnapshot,
)
    requires
        later.idle_power_uw == provider.idle_floor_uw(),
    ensures
        delta_between(earlier, later) == window_energy(
            burst_power(later.active_power_uw, provider.idle_floor_uw()),
            window_length(earlier.observed_at_ns, later.observed_at_ns),
        ),
        later.active_power_uw <= provider.idle_floor_uw() ==> delta_between(earlier, later) == 0,
{
    let window_ns = window_length(earlier.observed_at_ns, later.observed_at_ns);
    assert(window_energy(0, window_ns) == 0);
}

/// Whether a text reads as the given capitals from `at` on, letters in either case.
pub open spec fn spells(text: Seq<char>, at: int, capitals: Seq<char>) -> bool {
    &&& 0 <= at
    &&& at + capitals.len() <= text.len()
    &&& forall|i: int|
        0 <= i < capitals.len() ==> {
            let capital = (#[trigger] capitals[i]) as int;
            let found = text[at + i] as int;
            found == capital || 65 <= capital <= 90 && found == capital + 32
        }
}

proof fn lemma_upper_case_spells(text: Seq<char>, at: int, capitals: Seq<char>)
    requires
        forall|i: int| 0 <= i < capitals.len() ==> (#[trigger] capitals[i]) as int <= 90,
    ensures
        stands_at(ascii_upper(text), capitals, at) <==> spells(text, at, capitals),
{
    let upper = ascii_upper(text);
    parts_agree_character_by_character(upper, capitals, at);
    if 0 <= at && at + capitals.len() <= text.len() {
        assert forall|i: int| 0 <= i < capitals.len() implies (#[trigger] capitals[i] == upper[at
            + i] <==> {
            let capital = capitals[i] as int;
            let found = text[at + i] as int;
            found == capital || 65 <= capital <= 90 && found == capital + 32
        }) by {
            upper_case_goes_letter_by_letter(text, at + i);
            assert(capitals[i] == upper[at + i] <==> capitals[i] as int == upper[at + i] as int);
        }
    }
}

/// A channel counts the energy of the GPU or of the neural engine exactly where its
/// whole group reads as the energy model, and its name starts as either or its
/// subgroup holds either, letters in either case.
pub proof fn channels_are_told_by_their_texts(
    group: Seq<char>,
    subgroup: Seq<char>,
    channel_name: Seq<char>,
)
    ensures
        measures_gpu_or_ane(group, subgroup, channel_name) <==> {
            &&& group.len() == 12
            &&& spells(group, 0, "ENERGY MODEL"@)
            &&& {
                ||| spells(channel_name, 0, "GPU"@)
                ||| spells(channel_name, 0, "ANE"@)
                ||| exists|at: int| #[trigger] spells(subgroup, at, "GPU"@)
                ||| exists|at: int| #[trigger] spells(subgroup, at, "ANE"@)
            }
        },
{
    reveal_strlit("ENERGY MODEL");
    reveal_strlit("GPU");
    reveal_strlit("ANE");
    let model = "ENERGY MODEL"@;
    lemma_upper_case_spells(group, 0, model);
    lemma_upper_case_spells(channel_name, 0, "GPU"@);
    lemma_upper_case_spells(channel_name, 0, "ANE"@);
    let upper = ascii_upper(group);
    if upper.len() == model.len() {
        assert(upper.subrange(0, model.len() as int) =~= upper);
    }
    assert(upper == model <==> upper.len() == model.len() && stands_at(upper, model, 0));
    assert forall|at: int| #[trigger]
        spells(subgroup, at, "GPU"@) == stands_at(ascii_upper(subgroup), "GPU"@, at) by {
        lemma_upper_case_spells(subgroup, at, "GPU"@);
    }
    assert forall|at: int| #[trigger]
        spells(subgroup, at, "ANE"@) == stands_at(ascii_upper(subgroup), "ANE"@, at) by {
        lemma_upper_case_spells(subgroup, at, "ANE"@);
    }
    if occurs_in(ascii_upper(subgroup), "GPU"@) {
        let at = choose|at: int| stands_at(ascii_upper(subgroup), "GPU"@, at);
        assert(spells(subgroup, at, "GPU"@));
    }
    if occurs_in(ascii_upper(subgroup), "ANE"@) {
        let at = choose|at: int| stands_at(ascii_upper(subgroup), "ANE"@, at);
        assert(spells(subgroup, at, "ANE"@));
    }
}

/// Discovery goes channel by channel: behind those discovered so far comes a further
/// channel exactly where it counts the energy of the GPU or of the neural engine.
pub proof fn discovery_goes_channel_by_channel(
    channels: Seq<AppleEnergyChannel>,
    channel: AppleEnergyChannel,
)
    ensures
        gpu_and_ane(Seq::<AppleEnergyChannel>::empty()) == Seq::<AppleEnergyChannel>::empty(),
        measures_gpu_or_ane(channel.group@, channel.subgroup@, channel.channel_name@)
            ==> gpu_and_ane(channels.push(channel)) == gpu_and_ane(channels).push(channel),
        !measures_gpu_or_ane(channel.group@, channel.subgroup@, channel.channel_name@)
            ==> gpu_and_ane(channels.push(channel)) == gpu_and_ane(channels),
{
    reveal(Seq::filter);
    assert(channels.push(channel).drop_last() =~= channels);
}

/// A catalogue goes entry by entry: an entry that is there adds its channel with all
/// of its texts, one that is not adds nothing.
pub proof fn catalogue_goes_entry_by_entry(
    entries: Seq<Option<CatalogueEntry>>,
    entry: CatalogueEntry,
)
    ensures
        present_channels(Seq::<Option<CatalogueEntry>>::empty()) == Seq::<
            AppleEnergyChannel,
        >::empty(),
        present_channels(entries.push(None)) == present_channels(entries),
        ({
            let grown = present_channels(entries.push(Some(entry)));
            &&& grown.len() == present_channels(entries).len() + 1
            &&& grown.drop_last() == present_channels(entries)
            &&& entry.group matches Some(text) ==> grown.last().group == text
            &&& entry.subgroup matches Some(text) ==> grown.last().subgroup == text
            &&& entry.channel_name matches Some(text) ==> grown.last().channel_name == text
            &&& entry.unit_label matches Some(text) ==> grown.last().unit_label == text
        }),
{
    assert(entries.push(None).drop_last() =~= entries);
    assert(entries.push(Some(entry)).drop_last() =~= entries);
    let grown = present_channels(entries.push(Some(entry)));
    assert(grown == present_channels(entries).push(channel_of(entry)));
    assert(grown.drop_last() =~= present_channels(entries));
}

/// A catalogue is complete exactly where no entry that is there lacks a text.
pub proof fn complete_catalogues_lack_no_text(entries: Seq<Option<CatalogueEntry>>)
    ensures
        all_complete(entries) <==> forall|i: int|
            0 <= i < entries.len() ==> ((#[trigger] entries[i]) matches Some(entry) ==> entry.group
                is Some && entry.subgroup is Some && entry.channel_name is Some
                && entry.unit_label is Some),
{
}

/// An attribution of the provider is that of the burst model under the provider's
/// own identifier: the whole number of micro-joules in the reading's power above
/// idle times the window.
pub proof fn signed_attribution_is_the_whole_part(
    pid: u32,
    window_start_ns: u64,
    window_end_ns: u64,
    snapshot: PowerSnapshot,
    signature: Seq<char>,
)
    ensures
        ({
            let attribution = signed_attribution(
                pid,
                window_start_ns,
                window_end_ns,
                snapshot,
                signature,
            );
            let power = snapshot.active_power_uw - snapshot.idle_power_uw;
            let time = window_end_ns - window_start_ns;
            &&& attribution.pid == pid
            &&& attribution.window_start_ns == window_start_ns
            &&& attribution.window_end_ns == window_end_ns
            &&& attribution.hardware_signature == signature
            &&& power >= 0 ==> attribution.burst_power_uw == power
            &&& power <= 0 ==> attribution.burst_power_uw == 0
            &&& power <= 0 || time <= 0 ==> attribution.attributed_energy_uj == 0
            &&& power >= 0 && time >= 0 && power * (time % 1_000_000_000) <= 0xffff_ffff_ffff_ffff
                && power * time < 0x1_0000_0000_0000_0000 * 1_000_000_000
                ==> attribution.attributed_energy_uj * 1_000_000_000 <= power * time < (
            attribution.attributed_energy_uj + 1) * 1_000_000_000
        }),
{
    baseline_attribution_is_the_whole_part(pid, window_start_ns, window_end_ns, snapshot);
}

} // verus!
