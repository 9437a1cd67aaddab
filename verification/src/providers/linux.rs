//! The Linux provider: GPU fences, and the energy counter of the processor
//! package.

use std::collections::BTreeMap;

use vstd::prelude::*;
use vstd::std_specs::cmp::OrdSpec;
use vstd::std_specs::iter::IteratorSpec;

use crate::attribution::{
    saturate_to_u64, saturated, window_energy, window_energy_is_additive,
    window_energy_is_the_whole_part, window_energy_uj,
};
use crate::clock::nanos_since_epoch;
use crate::error::ProviderError;
use crate::provider::{
    baseline_attribution, charges_of, push_attributions, window_length, AttributionModel,
    EnergyProvider, PidEnergyAttribution, PowerSnapshot,
};
use crate::registry::{charged_all, total_charge, AmalgafyRegistry};
use crate::text::{
    decimal, parse_u64, parsed_u64, stands_between_white_space, trim, trimmed, trimming_is_exact,
    written_numbers_read_back,
};

verus! {

/// A GPU fence that was signaled: the work that a process submitted is done.
#[derive(Debug, Clone, Copy, PartialEq, Eq)]
pub struct DmaFenceEvent {
    /// The process that submitted the work.
    pub submitter_pid: u32,
    /// When the fence was created.
    pub submitted_at_ns: u64,
    /// When the fence was signaled.
    pub signaled_at_ns: u64,
    /// The GPU's average power between the two, in microwatts.
    pub gpu_power_uw: u64,
}

/// The last reading of the energy counter.
#[derive(Debug, Clone, Copy, PartialEq, Eq)]
pub struct RaplState {
    pub energy_uj: u64,
    pub observed_at_ns: u64,
    /// The largest value of the counter; it goes on from 0 behind it.
    pub max_energy_uj: u64,
}

/// The texts of the counter's files, where they could be read.
#[derive(Debug, Clone)]
pub struct RaplReading {
    /// The energy counter, in microjoules.
    pub energy: Option<String>,
    /// The largest value of the counter.
    pub max_range: Option<String>,
}

/// The number that a counter's file holds.
pub open spec fn counter_value(text: Seq<char>) -> Option<u64> {
    parsed_u64(trimmed(text))
}

/// The energy counter of a reading.
pub open spec fn energy_counter(reading: RaplReading) -> Result<u64, ProviderError> {
    match reading.energy {
        None => Err(ProviderError::UnreadableEnergyCounter),
        Some(text) => match counter_value(text@) {
            None => Err(ProviderError::MalformedEnergyCounter),
            Some(energy_uj) => Ok(energy_uj),
        },
    }
}

/// The largest value of the counter: the one that is known already, or else the
/// one in the reading, or else the largest number there is.
pub open spec fn counter_range(state: Option<RaplState>, reading: RaplReading) -> u64 {
    match state {
        Some(previous) => previous.max_energy_uj,
        None => match reading.max_range {
            Some(text) => match counter_value(text@) {
                Some(range) => range,
                None => u64::MAX,
            },
            None => u64::MAX,
        },
    }
}

/// The energy between two values of a counter that starts over behind
/// `max_energy_uj`.
pub open spec fn counter_delta(previous_uj: u64, energy_uj: u64, max_energy_uj: u64) -> u64 {
    if energy_uj >= previous_uj {
        (energy_uj - previous_uj) as u64
    } else if max_energy_uj >= previous_uj {
        saturated(max_energy_uj - previous_uj + energy_uj + 1)
    } else {
        saturated(energy_uj + 1)
    }
}

/// The power that spends `delta_uj` in `dt_ns`, in microwatts; none where no
/// time has passed.
pub open spec fn power_over(delta_uj: u64, dt_ns: u64) -> u64 {
    if dt_ns == 0 {
        0
    } else {
        saturated(delta_uj as int * 1_000_000_000 / dt_ns as int)
    }
}

/// The power since the last reading; none at the first reading.
pub open spec fn counter_power(
    state: Option<RaplState>,
    energy_uj: u64,
    observed_at_ns: u64,
) -> u64 {
    match state {
        Some(previous) => power_over(
            counter_delta(previous.energy_uj, energy_uj, previous.max_energy_uj),
            window_length(previous.observed_at_ns, observed_at_ns),
        ),
        None => 0,
    }
}

/// A clock reading as the time stamp of a power reading; the start of the epoch
/// where the clock cannot be told in 64 bits.
pub open spec fn observation_stamp(elapsed: Option<u128>) -> u64 {
    match elapsed {
        Some(nanos) => if nanos <= u64::MAX {
            nanos as u64
        } else {
            0
        },
        None => 0,
    }
}

/// The snapshot that a reading of the energy counter gives.
pub open spec fn is_package_snapshot(
    snapshot: PowerSnapshot,
    power_uw: u64,
    observed_at_ns: u64,
    signature: Seq<char>,
) -> bool {
    &&& snapshot.observed_at_ns == observed_at_ns
    &&& snapshot.idle_power_uw == 0
    &&& snapshot.active_power_uw == power_uw
    &&& snapshot.cpu_power_uw == power_uw
    &&& snapshot.gpu_power_uw == 0
    &&& snapshot.accelerator_power_uw == 0
    &&& snapshot.hardware_signature@ == signature
}

/// How many fences of a process are in flight.
pub open spec fn fences_of(in_flight: Map<u32, u32>, pid: u32) -> u32 {
    if in_flight.contains_key(pid) {
        in_flight[pid]
    } else {
        0
    }
}

/// Every process that is listed has a fence in flight.
pub open spec fn lists_busy_only(in_flight: Map<u32, u32>) -> bool {
    forall|pid: u32| #[trigger] in_flight.contains_key(pid) ==> in_flight[pid] > 0
}

/// The fences in flight once `pid` has submitted one more.
pub open spec fn fence_submitted(in_flight: Map<u32, u32>, pid: u32) -> Map<u32, u32> {
    in_flight.insert(
        pid,
        if fences_of(in_flight, pid) < u32::MAX {
            (fences_of(in_flight, pid) + 1) as u32
        } else {
            u32::MAX
        },
    )
}

/// The fences in flight once a fence of `pid` was signaled. A process whose last
/// fence was signaled is not listed any more.
pub open spec fn fence_signaled(in_flight: Map<u32, u32>, pid: u32) -> Map<u32, u32> {
    if fences_of(in_flight, pid) <= 1 {
        in_flight.remove(pid)
    } else {
        in_flight.insert(pid, (fences_of(in_flight, pid) - 1) as u32)
    }
}

/// What a signaled fence attributes to its submitter.
pub open spec fn fence_attribution(event: DmaFenceEvent, signature: Seq<char>) -> AttributionModel {
    AttributionModel {
        pid: event.submitter_pid,
        window_start_ns: event.submitted_at_ns,
        window_end_ns: event.signaled_at_ns,
        burst_power_uw: event.gpu_power_uw,
        attributed_energy_uj: window_energy(
            event.gpu_power_uw,
            window_length(event.submitted_at_ns, event.signaled_at_ns),
        ),
        hardware_signature: signature,
    }
}

/// Whether `pids` lists the keys of a map, each once, in ascending order.
pub open spec fn lists_keys(pids: Seq<u32>, in_flight: Map<u32, u32>) -> bool {
    &&& forall|i: int, j: int| 0 <= i < j < pids.len() ==> #[trigger] pids[i] < #[trigger] pids[j]
    &&& forall|pid: u32| pids.contains(pid) <==> #[trigger] in_flight.contains_key(pid)
}

/// The energy between two values of a counter.
pub fn energy_since(previous_uj: u64, energy_uj: u64, max_energy_uj: u64) -> (delta_uj: u64)
    ensures
        delta_uj == counter_delta(previous_uj, energy_uj, max_energy_uj),
{
    if energy_uj >= previous_uj {
        energy_uj - previous_uj
    } else {
        let to_wrap: u64 = max_energy_uj.saturating_sub(previous_uj);
        to_wrap.saturating_add(energy_uj).saturating_add(1)
    }
}

/// The power that spends an energy in a time.
pub fn mean_power(delta_uj: u64, dt_ns: u64) -> (power_uw: u64)
    ensures
        power_uw == power_over(delta_uj, dt_ns),
{
    if dt_ns == 0 {
        0
    } else {
        let spent: u128 = delta_uj as u128 * 1_000_000_000u128;
        saturate_to_u64(spent / dt_ns as u128)
    }
}

fn read_counter(text: &String) -> (value: Option<u64>)
    ensures
        value == counter_value(text@),
{
    parse_u64(trim(text.as_str()))
}

/// The keys of a map in ascending order.
fn ascending_keys(in_flight: &BTreeMap<u32, u32>) -> (pids: Vec<u32>)
    ensures
        lists_keys(pids@, in_flight@),
{
    broadcast use vstd::laws_cmp::group_laws_cmp;

    let keys = in_flight.keys();
    let ghost listed = keys.remaining();
    let mut pids: Vec<u32> = Vec::new();
    for pid in it: keys
        invariant
            it.seq() == listed,
            pids@ == listed.unref().take(it.index()),
    {
        pids.push(*pid);
        assert(listed.unref().take(it.index() + 1) =~= listed.unref().take(it.index()).push(*pid));
    }
    proof {
        assert(pids@ =~= listed.unref());
        assert forall|pid: u32| pids@.contains(pid) <==> #[trigger] in_flight@.contains_key(
            pid,
        ) by {
            assert(listed.unref().to_set().contains(pid) <==> in_flight@.dom().contains(pid));
        }
        assert(vstd::laws_cmp::obeys_cmp::<&u32>());
        assert forall|i: int, j: int| 0 <= i < j < pids@.len() implies #[trigger] pids@[i]
            < #[trigger] pids@[j] by {
            assert(OrdSpec::cmp_spec(&listed[i], &listed[j]) is Less);
        }
    }
    pids
}

/// The Linux provider. What was attributed waits in it until it is moved into the
/// registry.
#[derive(Debug, Clone)]
pub struct LinuxProvider {
    hardware_signature: String,
    pending: Vec<PidEnergyAttribution>,
    /// The fences in flight, counted by their submitters.
    active_pids: BTreeMap<u32, u32>,
    rapl_state: Option<RaplState>,
}

impl LinuxProvider {
    /// The tracepoint of a signaled fence.
    pub const DMA_FENCE_TRACEPOINT: &'static str = "dma_fence:dma_fence_signaled";

    /// The tracepoint of a task switch.
    pub const SCHED_SWITCH_TRACEPOINT: &'static str = "sched:sched_switch";

    /// The file of the energy counter.
    pub const DEFAULT_RAPL_ENERGY_PATH: &'static str =
        "/sys/class/powercap/intel-rapl:0/energy_uj";

    /// The file of the energy counter's largest value.
    pub const DEFAULT_RAPL_MAX_RANGE_PATH: &'static str =
        "/sys/class/powercap/intel-rapl:0/max_energy_range_uj";

    /// The identifier of the hardware.
    pub closed spec fn signature(self) -> Seq<char> {
        self.hardware_signature@
    }

    /// The attributions that wait to be moved into the registry.
    pub closed spec fn queued(self) -> Seq<PidEnergyAttribution> {
        self.pending@
    }

    /// The fences in flight, counted by their submitters.
    pub closed spec fn in_flight(self) -> Map<u32, u32> {
        self.active_pids@
    }

    /// The last reading of the energy counter.
    pub closed spec fn rapl(self) -> Option<RaplState> {
        self.rapl_state
    }

    /// Whether the provider lists exactly the processes with fences in flight.
    /// A new provider does, and every method keeps it so.
    pub open spec fn well_formed(self) -> bool {
        lists_busy_only(self.in_flight())
    }

    /// A provider without fences, attributions or readings.
    pub fn new(hardware_signature: &str) -> (provider: Self)
        ensures
            provider.well_formed(),
            provider.signature() == hardware_signature@,
            provider.queued() == Seq::<PidEnergyAttribution>::empty(),
            provider.in_flight() == Map::<u32, u32>::empty(),
            provider.rapl() is None,
    {
        LinuxProvider {
            hardware_signature: hardware_signature.to_owned(),
            pending: Vec::new(),
            active_pids: BTreeMap::new(),
            rapl_state: None,
        }
    }

    /// Queues an attribution for the registry.
    pub fn enqueue_attribution(&mut self, attribution: PidEnergyAttribution)
        ensures
            final(self).queued() == old(self).queued().push(attribution),
            final(self).signature() == old(self).signature(),
            final(self).in_flight() == old(self).in_flight(),
            final(self).rapl() == old(self).rapl(),
    {
        self.pending.push(attribution);
    }

    /// The attributions that wait to be moved into the registry.
    pub fn pending(&self) -> (queued: &[PidEnergyAttribution])
        ensures
            queued@ == self.queued(),
    {
        self.pending.as_slice()
    }

    /// Counts one more fence in flight for a process.
    pub fn mark_pid_active(&mut self, pid: u32)
        ensures
            final(self).in_flight() == fence_submitted(old(self).in_flight(), pid),
            old(self).well_formed() ==> final(self).well_formed(),
            final(self).signature() == old(self).signature(),
            final(self).queued() == old(self).queued(),
            final(self).rapl() == old(self).rapl(),
    {
        broadcast use vstd::laws_cmp::group_laws_cmp;

        let count: u32 = match self.active_pids.get(&pid) {
            Some(count) => *count,
            None => 0,
        };
        self.active_pids.insert(pid, count.saturating_add(1));
    }

    /// Forgets the fences of a process that is gone.
    pub fn mark_pid_idle(&mut self, pid: u32)
        ensures
            final(self).in_flight() == old(self).in_flight().remove(pid),
            old(self).well_formed() ==> final(self).well_formed(),
            final(self).signature() == old(self).signature(),
            final(self).queued() == old(self).queued(),
            final(self).rapl() == old(self).rapl(),
    {
        broadcast use vstd::laws_cmp::group_laws_cmp;

        self.active_pids.remove(&pid);
    }

    /// The processes with fences in flight, in ascending order.
    pub fn active_pid_set(&self) -> (pids: Vec<u32>)
        ensures
            lists_keys(pids@, self.in_flight()),
    {
        ascending_keys(&self.active_pids)
    }

    /// Attributes the GPU's energy between a fence's creation and its signal to
    /// the fence's submitter, queues the attribution, and counts one fence of the
    /// submitter less.
    pub fn correlate_fence(&mut self, event: DmaFenceEvent) -> (attribution: PidEnergyAttribution)
        ensures
            attribution@ == fence_attribution(event, old(self).signature()),
            final(self).queued() == old(self).queued().push(attribution),
            final(self).in_flight() == fence_signaled(old(self).in_flight(), event.submitter_pid),
            old(self).well_formed() ==> final(self).well_formed(),
            final(self).signature() == old(self).signature(),
            final(self).rapl() == old(self).rapl(),
    {
        broadcast use vstd::laws_cmp::group_laws_cmp;

        let pid: u32 = event.submitter_pid;
        let window_ns: u64 = event.signaled_at_ns.saturating_sub(event.submitted_at_ns);
        let attribution = PidEnergyAttribution {
            pid,
            window_start_ns: event.submitted_at_ns,
            window_end_ns: event.signaled_at_ns,
            burst_power_uw: event.gpu_power_uw,
            attributed_energy_uj: window_energy_uj(event.gpu_power_uw, window_ns),
            hardware_signature: self.hardware_signature.clone(),
        };
        let count: Option<u32> = match self.active_pids.get(&pid) {
            Some(count) => Some(*count),
            None => None,
        };
        if let Some(count) = count {
            if count <= 1 {
                self.active_pids.remove(&pid);
            } else {
                self.active_pids.insert(pid, count - 1);
            }
        }
        assert(self.active_pids@ =~= fence_signaled(old(self).in_flight(), pid));
        self.pending.push(attribution.clone());
        attribution
    }

    /// Whether the largest value of the energy counter is known already.
    pub fn knows_counter_range(&self) -> (known: bool)
        ensures
            known == (self.rapl() is Some),
    {
        self.rapl_state.is_some()
    }

    /// Takes in a reading of the energy counter and gives the power since the
    /// reading before, with the time of the reading. The first reading gives no
    /// power. A reading without a counter changes nothing.
    pub fn read_rapl_power_uw(&mut self, reading: &RaplReading, elapsed: Option<u128>) -> (outcome:
        Result<(u64, u64), ProviderError>)
        ensures
            match energy_counter(*reading) {
                Err(error) => {
                    &&& outcome == Err::<(u64, u64), ProviderError>(error)
                    &&& final(self).rapl() == old(self).rapl()
                },
                Ok(energy_uj) => {
                    let observed_at_ns = observation_stamp(elapsed);
                    &&& outcome == Ok::<(u64, u64), ProviderError>(
                        (
                            counter_power(old(self).rapl(), energy_uj, observed_at_ns),
                            observed_at_ns,
                        ),
                    )
                    &&& final(self).rapl() == Some(
                        RaplState {
                            energy_uj,
                            observed_at_ns,
                            max_energy_uj: counter_range(old(self).rapl(), *reading),
                        },
                    )
                },
            },
            final(self).signature() == old(self).signature(),
            final(self).queued() == old(self).queued(),
            final(self).in_flight() == old(self).in_flight(),
    {
        let energy_uj: u64 = match &reading.energy {
            Some(text) => match read_counter(text) {
                Some(energy_uj) => energy_uj,
                None => return Err(ProviderError::MalformedEnergyCounter),
            },
            None => return Err(ProviderError::UnreadableEnergyCounter),
        };
        let observed_at_ns: u64 = match elapsed {
            Some(nanos) => if nanos <= u64::MAX as u128 {
                nanos as u64
            } else {
                0
            },
            None => 0,
        };
        let max_energy_uj: u64 = match self.rapl_state {
            Some(previous) => previous.max_energy_uj,
            None => match &reading.max_range {
                Some(text) => match read_counter(text) {
                    Some(range) => range,
                    None => u64::MAX,
                },
                None => u64::MAX,
            },
        };
        let power_uw: u64 = match self.rapl_state {
            Some(previous) => mean_power(
                energy_since(previous.energy_uj, energy_uj, max_energy_uj),
                observed_at_ns.saturating_sub(previous.observed_at_ns),
            ),
            None => 0,
        };
        self.rapl_state = Some(RaplState { energy_uj, observed_at_ns, max_energy_uj });
        Ok((power_uw, observed_at_ns))
    }

    /// The power snapshot that a reading of the energy counter gives, taken at a
    /// given time.
    pub fn sample_power_state_at(&mut self, reading: &RaplReading, elapsed: Option<u128>) -> (
    outcome: Result<PowerSnapshot, ProviderError>)
        ensures
            match energy_counter(*reading) {
                Err(error) => {
                    &&& outcome == Err::<PowerSnapshot, ProviderError>(error)
                    &&& final(self).rapl() == old(self).rapl()
                },
                Ok(energy_uj) => {
                    let observed_at_ns = observation_stamp(elapsed);
                    &&& outcome is Ok
                    &&& is_package_snapshot(
                        outcome->Ok_0,
                        counter_power(old(self).rapl(), energy_uj, observed_at_ns),
                        observed_at_ns,
                        old(self).signature(),
                    )
                    &&& final(self).rapl() == Some(
                        RaplState {
                            energy_uj,
                            observed_at_ns,
                            max_energy_uj: counter_range(old(self).rapl(), *reading),
                        },
                    )
                },
            },
            final(self).signature() == old(self).signature(),
            final(self).queued() == old(self).queued(),
            final(self).in_flight() == old(self).in_flight(),
    {
        match self.read_rapl_power_uw(reading, elapsed) {
            Ok((power_uw, observed_at_ns)) => Ok(
                PowerSnapshot {
                    observed_at_ns,
                    idle_power_uw: 0,
                    active_power_uw: power_uw,
                    cpu_power_uw: power_uw,
                    gpu_power_uw: 0,
                    accelerator_power_uw: 0,
                    hardware_signature: self.hardware_signature.clone(),
                },
            ),
            Err(error) => Err(error),
        }
    }

    /// The power snapshot that a reading of the energy counter gives, taken at
    /// the present time.
    pub fn sample_power_state(&mut self, reading: &RaplReading) -> (outcome: Result<
        PowerSnapshot,
        ProviderError,
    >)
        ensures
            match energy_counter(*reading) {
                Err(error) => {
                    &&& outcome == Err::<PowerSnapshot, ProviderError>(error)
                    &&& final(self).rapl() == old(self).rapl()
                },
                Ok(energy_uj) => {
                    &&& outcome is Ok
                    &&& is_package_snapshot(
                        outcome->Ok_0,
                        counter_power(
                            old(self).rapl(),
                            energy_uj,
                            outcome->Ok_0.observed_at_ns,
                        ),
                        outcome->Ok_0.observed_at_ns,
                        old(self).signature(),
                    )
                    &&& final(self).rapl() == Some(
                        RaplState {
                            energy_uj,
                            observed_at_ns: outcome->Ok_0.observed_at_ns,
                            max_energy_uj: counter_range(old(self).rapl(), *reading),
                        },
                    )
                },
            },
            final(self).signature() == old(self).signature(),
            final(self).queued() == old(self).queued(),
            final(self).in_flight() == old(self).in_flight(),
    {
        self.sample_power_state_at(reading, nanos_since_epoch())
    }
}

impl EnergyProvider for LinuxProvider {
    fn attribute_joules_to_pid(
        &mut self,
        pid: u32,
        window_start_ns: u64,
        window_end_ns: u64,
        snapshot: &PowerSnapshot,
    ) -> (attribution: Result<PidEnergyAttribution, ProviderError>)
        ensures
            attribution is Ok,
            attribution->Ok_0@ == baseline_attribution(
                pid,
                window_start_ns,
                window_end_ns,
                *snapshot,
            ),
            *final(self) == *old(self),
    {
        Ok(PidEnergyAttribution::baseline_burst(pid, window_start_ns, window_end_ns, snapshot))
    }

    fn sync_registry(&mut self, registry: &mut AmalgafyRegistry) -> (pushed: Result<
        u64,
        ProviderError,
    >)
        ensures
            pushed == Ok::<u64, ProviderError>(
                saturated(total_charge(charges_of(old(self).queued()))),
            ),
            final(registry)@ == charged_all(old(registry)@, charges_of(old(self).queued())),
            final(self).queued() == Seq::<PidEnergyAttribution>::empty(),
            final(self).signature() == old(self).signature(),
            final(self).in_flight() == old(self).in_flight(),
            final(self).rapl() == old(self).rapl(),
    {
        let pushed: u64 = push_attributions(&self.pending, registry);
        self.pending.clear();
        Ok(pushed)
    }

    fn hardware_signature(&self) -> (signature: &str)
        ensures
            signature@ == self.signature(),
    {
        self.hardware_signature.as_str()
    }

    fn active_pids(&self) -> (pids: Vec<u32>)
        ensures
            lists_keys(pids@, self.in_flight()),
    {
        self.active_pid_set()
    }
}

/// The energy between two values of the counter is their difference modulo the
/// counter's range: nothing is lost where the counter starts over.
pub proof fn counter_delta_is_modular(previous_uj: u64, energy_uj: u64, max_energy_uj: u64)
    requires
        previous_uj <= max_energy_uj,
        energy_uj <= max_energy_uj,
    ensures
        counter_delta(previous_uj, energy_uj, max_energy_uj) == (energy_uj - previous_uj) % (
        max_energy_uj + 1),
{
    let range = max_energy_uj + 1;
    let difference = energy_uj - previous_uj;
    if difference >= 0 {
        vstd::arithmetic::div_mod::lemma_small_mod(difference as nat, range as nat);
    } else {
        vstd::arithmetic::div_mod::lemma_small_mod((difference + range) as nat, range as nat);
        vstd::arithmetic::div_mod::lemma_mod_add_multiples_vanish(difference, range);
    }
}

/// A process with one more fence in flight has one more counted, up to the
/// largest count; the counts of the others stay.
pub proof fn submitting_counts_one_more(in_flight: Map<u32, u32>, pid: u32, other: u32)
    ensures
        fences_of(in_flight, pid) < u32::MAX ==> fences_of(fence_submitted(in_flight, pid), pid)
            == fences_of(in_flight, pid) + 1,
        fences_of(fence_submitted(in_flight, pid), pid) > 0,
        other != pid ==> fences_of(fence_submitted(in_flight, pid), other) == fences_of(
            in_flight,
            other,
        ),
        lists_busy_only(in_flight) ==> lists_busy_only(fence_submitted(in_flight, pid)),
{
}

/// A signaled fence is counted once: a process drops out exactly with its last
/// fence, and stays listed while it has others; the counts of the others stay.
pub proof fn signaling_counts_one_less(in_flight: Map<u32, u32>, pid: u32, other: u32)
    ensures
        fences_of(in_flight, pid) > 0 ==> fences_of(fence_signaled(in_flight, pid), pid)
            == fences_of(in_flight, pid) - 1,
        fence_signaled(in_flight, pid).contains_key(pid) <==> fences_of(in_flight, pid) > 1,
        other != pid ==> fences_of(fence_signaled(in_flight, pid), other) == fences_of(
            in_flight,
            other,
        ),
        lists_busy_only(in_flight) ==> lists_busy_only(fence_signaled(in_flight, pid)),
{
}

/// A signal undoes a submission, unless the largest count was reached.
pub proof fn signal_undoes_submission(in_flight: Map<u32, u32>, pid: u32)
    requires
        lists_busy_only(in_flight),
        fences_of(in_flight, pid) < u32::MAX,
    ensures
        fence_signaled(fence_submitted(in_flight, pid), pid) == in_flight,
{
    assert(fence_signaled(fence_submitted(in_flight, pid), pid) =~= in_flight);
}

/// A signaled fence charges its submitter, over the time from its creation to its
/// signal, the whole number of micro-joules in the GPU's power times that time;
/// nothing where the signal comes before the creation.
pub proof fn fence_energy_is_power_times_time(event: DmaFenceEvent, signature: Seq<char>)
    ensures
        ({
            let attribution = fence_attribution(event, signature);
            let time = event.signaled_at_ns - event.submitted_at_ns;
            &&& attribution.pid == event.submitter_pid
            &&& attribution.window_start_ns == event.submitted_at_ns
            &&& attribution.window_end_ns == event.signaled_at_ns
            &&& attribution.burst_power_uw == event.gpu_power_uw
            &&& attribution.hardware_signature == signature
            &&& time <= 0 ==> attribution.attributed_energy_uj == 0
            &&& time >= 0 && event.gpu_power_uw * (time % 1_000_000_000) <= 0xffff_ffff_ffff_ffff
                && event.gpu_power_uw * time < 0x1_0000_0000_0000_0000 * 1_000_000_000
                ==> attribution.attributed_energy_uj * 1_000_000_000 <= event.gpu_power_uw * time
                < (attribution.attributed_energy_uj + 1) * 1_000_000_000
            &&& time >= 0 ==> attribution.attributed_energy_uj == window_energy(
                event.gpu_power_uw,
                time as u64,
            )
        }),
{
    let power = event.gpu_power_uw as int;
    let time = event.signaled_at_ns - event.submitted_at_ns;
    assert(power * 0 == 0) by (nonlinear_arith);
    if time >= 0 && power * (time % 1_000_000_000) <= 0xffff_ffff_ffff_ffff && power * time
        < 0x1_0000_0000_0000_0000 * 1_000_000_000 {
        window_energy_is_the_whole_part(event.gpu_power_uw, time as u64);
    }
}

/// Fences of one process back to back are charged, but for one micro-joule of
/// rounding, what one fence over the joined time is.
pub proof fn fences_back_to_back_join(
    first: DmaFenceEvent,
    second: DmaFenceEvent,
    joined: DmaFenceEvent,
    signature: Seq<char>,
)
    requires
        first.submitted_at_ns <= first.signaled_at_ns,
        first.signaled_at_ns == second.submitted_at_ns,
        second.submitted_at_ns <= second.signaled_at_ns,
        joined.submitted_at_ns == first.submitted_at_ns,
        joined.signaled_at_ns == second.signaled_at_ns,
        first.gpu_power_uw == second.gpu_power_uw,
        joined.gpu_power_uw == first.gpu_power_uw,
        joined.gpu_power_uw * 1_000_000_000 <= 0xffff_ffff_ffff_ffff,
        joined.gpu_power_uw * (joined.signaled_at_ns - joined.submitted_at_ns)
            < 0x1_0000_0000_0000_0000 * 1_000_000_000,
    ensures
        ({
            let parts = fence_attribution(first, signature).attributed_energy_uj
                + fence_attribution(second, signature).attributed_energy_uj;
            parts <= fence_attribution(joined, signature).attributed_energy_uj <= parts + 1
        }),
{
    window_energy_is_additive(
        joined.gpu_power_uw,
        (first.signaled_at_ns - first.submitted_at_ns) as u64,
        (second.signaled_at_ns - second.submitted_at_ns) as u64,
    );
}

/// A counter that has not started over has spent the difference; one that has, the
/// rest of its range, the first step of the next round, and its new value.
pub proof fn counter_delta_covers_the_range(previous_uj: u64, energy_uj: u64, max_energy_uj: u64)
    ensures
        energy_uj >= previous_uj ==> previous_uj + counter_delta(
            previous_uj,
            energy_uj,
            max_energy_uj,
        ) == energy_uj,
        energy_uj < previous_uj <= max_energy_uj ==> previous_uj + counter_delta(
            previous_uj,
            energy_uj,
            max_energy_uj,
        ) == max_energy_uj + 1 + energy_uj,
        energy_uj < previous_uj && max_energy_uj < previous_uj ==> counter_delta(
            previous_uj,
            energy_uj,
            max_energy_uj,
        ) == energy_uj + 1,
{
}

/// The power is the whole number of microwatts that spends the energy in the time:
/// no more than it, and less than one microwatt below it, as far as 64 bits can
/// hold it; none where no time has passed.
pub proof fn power_spends_the_energy(delta_uj: u64, dt_ns: u64)
    ensures
        dt_ns == 0 ==> power_over(delta_uj, dt_ns) == 0,
        dt_ns > 0 && delta_uj * 1_000_000_000 < 0x1_0000_0000_0000_0000 * dt_ns ==> power_over(
            delta_uj,
            dt_ns,
        ) * dt_ns <= delta_uj * 1_000_000_000 < (power_over(delta_uj, dt_ns) + 1) * dt_ns,
        dt_ns > 0 && delta_uj * 1_000_000_000 >= 0x1_0000_0000_0000_0000 * dt_ns ==> power_over(
            delta_uj,
            dt_ns,
        ) == 0xffff_ffff_ffff_ffffu64,
{
    if dt_ns > 0 {
        let spent = delta_uj as int * 1_000_000_000;
        let dt = dt_ns as int;
        let q = spent / dt;
        vstd::arithmetic::div_mod::lemma_fundamental_div_mod(spent, dt);
        assert(q * dt == dt * q && (q + 1) * dt == q * dt + dt) by (nonlinear_arith);
        assert(q >= 0) by (nonlinear_arith)
            requires
                q == spent / dt,
                spent >= 0,
                dt > 0,
        ;
        if spent < 0x1_0000_0000_0000_0000 * dt {
            assert(q < 0x1_0000_0000_0000_0000) by (nonlinear_arith)
                requires
                    q * dt <= spent,
                    spent < 0x1_0000_0000_0000_0000 * dt,
                    dt > 0,
            ;
        } else {
            assert(q >= 0x1_0000_0000_0000_0000) by (nonlinear_arith)
                requires
                    (q + 1) * dt > spent,
                    spent >= 0x1_0000_0000_0000_0000 * dt,
                    dt > 0,
            ;
        }
    }
}

/// The first reading of the counter gives no power; a later one gives the power
/// that spends the energy since the reading before in the time since then.
pub proof fn readings_give_the_power_between_them(
    previous: RaplState,
    energy_uj: u64,
    observed_at_ns: u64,
)
    ensures
        counter_power(None, energy_uj, observed_at_ns) == 0,
        observed_at_ns <= previous.observed_at_ns ==> counter_power(
            Some(previous),
            energy_uj,
            observed_at_ns,
        ) == 0,
        observed_at_ns > previous.observed_at_ns ==> counter_power(
            Some(previous),
            energy_uj,
            observed_at_ns,
        ) == power_over(
            counter_delta(previous.energy_uj, energy_uj, previous.max_energy_uj),
            (observed_at_ns - previous.observed_at_ns) as u64,
        ),
{
}

/// A time stamp is the clock reading where 64 bits can hold it, and else the start
/// of the epoch.
pub proof fn observation_stamps_keep_what_fits(nanos: u128)
    ensures
        nanos <= 0xffff_ffff_ffff_ffff ==> observation_stamp(Some(nanos)) == nanos,
        nanos > 0xffff_ffff_ffff_ffff ==> observation_stamp(Some(nanos)) == 0,
        observation_stamp(None) == 0,
{
}

/// The counter's file holds a number between white space; whatever number is
/// written there is the number that is read, and what is no number is an error.
pub proof fn counter_file_is_read_whole(reading: RaplReading, inner: Seq<char>)
    requires
        reading.energy matches Some(text) ==> stands_between_white_space(text@, inner),
    ensures
        reading.energy is None ==> energy_counter(reading) == Err::<u64, ProviderError>(
            ProviderError::UnreadableEnergyCounter,
        ),
        reading.energy is Some && parsed_u64(inner) is None ==> energy_counter(reading) == Err::<
            u64,
            ProviderError,
        >(ProviderError::MalformedEnergyCounter),
        reading.energy is Some ==> (parsed_u64(inner) matches Some(n) ==> energy_counter(reading)
            == Ok::<u64, ProviderError>(n)),
{
    if reading.energy is Some {
        trimming_is_exact(reading.energy->0@, inner);
    }
}

/// Whatever number is written in decimal in the counter's file, between white
/// space, is the value of the counter.
pub proof fn written_counters_are_read(reading: RaplReading, n: u64)
    requires
        reading.energy matches Some(text) && stands_between_white_space(
            text@,
            decimal(n as nat),
        ),
    ensures
        energy_counter(reading) == Ok::<u64, ProviderError>(n),
{
    counter_file_is_read_whole(reading, decimal(n as nat));
    written_numbers_read_back(n);
}

/// The counter's range is the one of the first reading: the number in its file
/// between white space, or the largest one where there is none; later readings do
/// not change it.
pub proof fn counter_range_is_read_once(
    previous: RaplState,
    reading: RaplReading,
    inner: Seq<char>,
)
    requires
        reading.max_range matches Some(text) ==> stands_between_white_space(text@, inner),
    ensures
        counter_range(Some(previous), reading) == previous.max_energy_uj,
        reading.max_range is None ==> counter_range(None, reading) == 0xffff_ffff_ffff_ffffu64,
        reading.max_range is Some ==> counter_range(None, reading) == match parsed_u64(inner) {
            Some(range) => range,
            None => 0xffff_ffff_ffff_ffffu64,
        },
{
    if reading.max_range is Some {
        trimming_is_exact(reading.max_range->0@, inner);
    }
}

/// A package snapshot shows the power as the active power and as the processor's,
/// and no other.
pub proof fn package_snapshot_shows_the_power(
    snapshot: PowerSnapshot,
    power_uw: u64,
    observed_at_ns: u64,
    signature: Seq<char>,
)
    requires
        is_package_snapshot(snapshot, power_uw, observed_at_ns, signature),
    ensures
        snapshot.observed_at_ns == observed_at_ns,
        snapshot.active_power_uw == power_uw,
        snapshot.cpu_power_uw == power_uw,
        snapshot.idle_power_uw == 0,
        snapshot.gpu_power_uw == 0,
        snapshot.accelerator_power_uw == 0,
        snapshot.hardware_signature@ == signature,
{
}

/// A submission raises the count of its process by one, from nothing to one, and up
/// to the largest count; the other processes keep theirs.
pub proof fn submission_raises_the_count(in_flight: Map<u32, u32>, pid: u32, other: u32)
    ensures
        fence_submitted(in_flight, pid).contains_key(pid),
        !in_flight.contains_key(pid) ==> fence_submitted(in_flight, pid)[pid] == 1,
        in_flight.contains_key(pid) && in_flight[pid] < 0xffff_ffff ==> fence_submitted(
            in_flight,
            pid,
        )[pid] == in_flight[pid] + 1,
        in_flight.contains_key(pid) && in_flight[pid] == 0xffff_ffff ==> fence_submitted(
            in_flight,
            pid,
        )[pid] == 0xffff_ffffu32,
        other != pid ==> (fence_submitted(in_flight, pid).contains_key(other)
            <==> in_flight.contains_key(other)),
        other != pid && in_flight.contains_key(other) ==> fence_submitted(in_flight, pid)[other]
            == in_flight[other],
{
}

/// A signal lowers the count of its process by one, and takes the process off with
/// its last fence; the other processes keep theirs.
pub proof fn signal_lowers_the_count(in_flight: Map<u32, u32>, pid: u32, other: u32)
    ensures
        fence_signaled(in_flight, pid).contains_key(pid) <==> in_flight.contains_key(pid)
            && in_flight[pid] > 1,
        in_flight.contains_key(pid) && in_flight[pid] > 1 ==> fence_signaled(in_flight, pid)[pid]
            == in_flight[pid] - 1,
        other != pid ==> (fence_signaled(in_flight, pid).contains_key(other)
            <==> in_flight.contains_key(other)),
        other != pid && in_flight.contains_key(other) ==> fence_signaled(in_flight, pid)[other]
            == in_flight[other],
{
}

/// A list of the keys of a map ascends strictly, and names exactly the keys.
pub proof fn key_lists_ascend(pids: Seq<u32>, in_flight: Map<u32, u32>)
    requires
        lists_keys(pids, in_flight),
    ensures
        forall|i: int, j: int|
            0 <= i < j < pids.len() ==> #[trigger] pids[i] < #[trigger] pids[j],
        forall|pid: u32| #[trigger]
            in_flight.contains_key(pid) <==> exists|i: int|
                0 <= i < pids.len() && #[trigger] pids[i] == pid,
{
    assert forall|pid: u32| #[trigger] in_flight.contains_key(pid) <==> exists|i: int|
        0 <= i < pids.len() && #[trigger] pids[i] == pid by {
        assert(pids.contains(pid) <==> in_flight.contains_key(pid));
    }
}

} // verus!
