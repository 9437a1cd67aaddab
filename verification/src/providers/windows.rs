//! The Windows provider: the telemetry of one NVIDIA device, as NVML gives it.

use vstd::prelude::*;

use crate::attribution::{
    attribution_is_the_whole_part, attribution_never_exceeds_burst_energy, baseline_burst_power_uw,
    burst_power, deterministic_attribution, deterministic_attribution_uj,
    nvml_energy_is_the_product, nvml_window_energy, nvml_window_energy_uj, saturated,
    total_attributed, total_time,
};
use crate::clock::{nanos_since_epoch, stamp_of, unix_stamp};
use crate::error::ProviderError;
use crate::hardware::HardwareIdentitySource;
use crate::provider::{
    attribution_models, baseline_attribution, charges_of, even_share, push_attributions, share_of,
    shares_follow_the_listing, split_charges, split_is_fair, split_preserves_the_total,
    window_length, AttributionModel, EnergyProvider, PidEnergyAttribution, PowerSnapshot,
};
use crate::registry::{charged_all, total_charge, AmalgafyRegistry};
use crate::text::{decimal, push_decimal};

verus! {

/// NVML's code for a call that went well.
pub const NVML_SUCCESS: i32 = 0;

/// NVML's code for a buffer that is too small.
pub const NVML_ERROR_INSUFFICIENT_SIZE: i32 = 7;

/// What NVML says of a device's identity, as far as it can be read.
#[derive(Debug, Clone)]
pub struct DeviceTelemetry {
    pub index: u32,
    pub serial: Option<String>,
    pub uuid: Option<String>,
}

/// The signature of a device and where it came from: the serial, or else the
/// identifier, or else a placeholder.
pub open spec fn device_signature(device: DeviceTelemetry) -> (Seq<char>, HardwareIdentitySource) {
    if device.serial is Some && device.serial->0@.len() > 0 {
        (device.serial->0@, HardwareIdentitySource::WindowsNvmlSerial)
    } else if device.uuid is Some && device.uuid->0@.len() > 0 {
        (device.uuid->0@, HardwareIdentitySource::WindowsNvmlUuid)
    } else {
        ("nvml-device-"@ + decimal(device.index as nat), HardwareIdentitySource::Synthetic)
    }
}

/// A process that holds a compute context on the device.
#[derive(Debug, Clone, Copy, PartialEq, Eq)]
pub struct NvmlComputeProcess {
    pub pid: u32,
    pub used_gpu_memory_bytes: u64,
    pub gpu_instance_id: u32,
    pub compute_instance_id: u32,
}

/// The processes of a listing, in its order.
pub open spec fn pids_of(processes: Seq<NvmlComputeProcess>) -> Seq<u32> {
    processes.map_values(|process: NvmlComputeProcess| process.pid)
}

/// What the last look at the device showed.
#[derive(Debug, Clone)]
pub struct GpuBusyState {
    pub last_sample_ns: u64,
    pub last_pids: Vec<u32>,
}

/// What an NVML call's outcome is.
pub open spec fn is_nvml_outcome(
    outcome: Result<(), ProviderError>,
    code: i32,
    context: Seq<char>,
    reason: Seq<char>,
) -> bool {
    if code == NVML_SUCCESS {
        outcome is Ok
    } else {
        outcome matches Err(ProviderError::Nvml { context: c, reason: r }) && c@ == context && r@
            == reason
    }
}

/// Judges an NVML call by its code.
pub fn check_nvml(code: i32, context: &str, reason: &str) -> (outcome: Result<(), ProviderError>)
    ensures
        is_nvml_outcome(outcome, code, context@, reason@),
{
    if code == NVML_SUCCESS {
        Ok(())
    } else {
        Err(ProviderError::Nvml { context: context.to_owned(), reason: reason.to_owned() })
    }
}

/// What to do after NVML was asked for the compute processes.
#[derive(Debug, Clone, Copy, PartialEq, Eq)]
pub enum ComputeQuery {
    /// Ask again, with room for so many processes.
    Grow { capacity: u32 },
    /// Take so many processes from the buffer.
    Filled { count: u32 },
    /// Give up.
    Failed,
}

/// What follows from NVML's answer when the buffer had room for `capacity`
/// processes and NVML named `count`.
pub open spec fn query_step(code: i32, count: u32, capacity: u32) -> ComputeQuery {
    if code == NVML_ERROR_INSUFFICIENT_SIZE && count > capacity {
        ComputeQuery::Grow { capacity: count }
    } else if code == NVML_SUCCESS && count <= capacity {
        ComputeQuery::Filled { count }
    } else {
        ComputeQuery::Failed
    }
}

/// Decides on NVML's answer. The buffer only ever grows, and never is more taken
/// from it than it has room for.
pub fn next_compute_query(code: i32, count: u32, capacity: u32) -> (step: ComputeQuery)
    ensures
        step == query_step(code, count, capacity),
        step matches ComputeQuery::Grow { capacity: grown } ==> grown > capacity,
        step matches ComputeQuery::Filled { count: taken } ==> taken <= capacity,
{
    if code == NVML_ERROR_INSUFFICIENT_SIZE {
        if count > capacity {
            return ComputeQuery::Grow { capacity: count };
        }
        return ComputeQuery::Failed;
    }
    if code == NVML_SUCCESS && count <= capacity {
        ComputeQuery::Filled { count }
    } else {
        ComputeQuery::Failed
    }
}

/// What the measured power attributes to the processes over a window: an equal
/// part of the energy to each.
pub open spec fn window_shares(
    power_mw: u32,
    pids: Seq<u32>,
    window_start_ns: u64,
    window_end_ns: u64,
    dt_ms: u64,
    signature: Seq<char>,
) -> Seq<AttributionModel> {
    let total_uj = nvml_window_energy(power_mw as u64, dt_ms);
    if total_uj == 0 {
        Seq::empty()
    } else {
        Seq::new(
            pids.len(),
            |i: int|
                AttributionModel {
                    pid: pids[i],
                    window_start_ns,
                    window_end_ns,
                    burst_power_uw: (power_mw * 1_000) as u64,
                    attributed_energy_uj: share_of(total_uj, pids.len() as int, i),
                    hardware_signature: signature,
                },
        )
    }
}

/// What the deterministic model attributes to the processes over a window, when
/// each holds the device for an equal part of it.
pub open spec fn window_attributions(
    power_mw: u32,
    pids: Seq<u32>,
    window_start_ns: u64,
    window_end_ns: u64,
    idle_power_uw: u64,
    signature: Seq<char>,
) -> Seq<AttributionModel> {
    let power_uw = (power_mw * 1_000) as u64;
    let window_ns = window_length(window_start_ns, window_end_ns);
    Seq::new(
        pids.len(),
        |i: int|
            AttributionModel {
                pid: pids[i],
                window_start_ns,
                window_end_ns,
                burst_power_uw: burst_power(power_uw, idle_power_uw),
                attributed_energy_uj: deterministic_attribution(
                    power_uw,
                    idle_power_uw,
                    (window_ns as int / pids.len() as int) as u64,
                    window_ns,
                ),
                hardware_signature: signature,
            },
    )
}

/// The charges that attributions stand for.
pub open spec fn model_charges(attributions: Seq<AttributionModel>) -> Seq<(u32, u64)> {
    attributions.map_values(
        |attribution: AttributionModel| (attribution.pid, attribution.attributed_energy_uj),
    )
}

proof fn lemma_charges_of_models(attributions: Seq<PidEnergyAttribution>)
    ensures
        charges_of(attributions) == model_charges(attribution_models(attributions)),
{
    assert(charges_of(attributions) =~= model_charges(attribution_models(attributions)));
}

/// The snapshot that a power reading of the device gives.
pub open spec fn is_device_snapshot(
    snapshot: PowerSnapshot,
    power_mw: u32,
    observed_at_ns: u64,
    signature: Seq<char>,
) -> bool {
    &&& snapshot.observed_at_ns == observed_at_ns
    &&& snapshot.idle_power_uw == 0
    &&& snapshot.active_power_uw == power_mw * 1_000
    &&& snapshot.cpu_power_uw == 0
    &&& snapshot.gpu_power_uw == power_mw * 1_000
    &&& snapshot.accelerator_power_uw == power_mw * 1_000
    &&& snapshot.hardware_signature@ == signature
}

fn listed_pids(processes: &Vec<NvmlComputeProcess>) -> (pids: Vec<u32>)
    ensures
        pids@ == pids_of(processes@),
{
    let mut pids: Vec<u32> = Vec::with_capacity(processes.len());
    let mut i: usize = 0;
    while i < processes.len()
        invariant
            i <= processes.len(),
            pids@ == pids_of(processes@).take(i as int),
        decreases processes.len() - i,
    {
        pids.push(processes[i].pid);
        assert(pids_of(processes@).take(i + 1) =~= pids_of(processes@).take(i as int).push(
            pids_of(processes@)[i as int],
        ));
        i += 1;
    }
    assert(pids_of(processes@).take(i as int) =~= pids_of(processes@));
    pids
}

/// The Windows provider, for one device. What was attributed elsewhere waits in
/// it until it is moved into the registry.
#[derive(Debug)]
pub struct WindowsProvider {
    hardware_signature: String,
    signature_source: HardwareIdentitySource,
    device_index: u32,
    busy_state: GpuBusyState,
    pending: Vec<PidEnergyAttribution>,
}

impl WindowsProvider {
    /// The identifier of the device.
    pub closed spec fn signature(self) -> Seq<char> {
        self.hardware_signature@
    }

    /// Where the identifier came from.
    pub closed spec fn source(self) -> HardwareIdentitySource {
        self.signature_source
    }

    /// The number of the device.
    pub closed spec fn index(self) -> u32 {
        self.device_index
    }

    /// When the device was last looked at.
    pub closed spec fn last_look_ns(self) -> u64 {
        self.busy_state.last_sample_ns
    }

    /// The processes that the last look showed.
    pub closed spec fn last_seen(self) -> Seq<u32> {
        self.busy_state.last_pids@
    }

    /// The attributions that wait to be moved into the registry.
    pub closed spec fn queued(self) -> Seq<PidEnergyAttribution> {
        self.pending@
    }

    /// Whether nothing but the last look at the device may have changed.
    pub open spec fn differs_in_look_only(self, before: Self) -> bool {
        &&& self.signature() == before.signature()
        &&& self.source() == before.source()
        &&& self.index() == before.index()
        &&& self.queued() == before.queued()
    }

    /// A provider for a device that was not looked at yet.
    pub fn new(device: &DeviceTelemetry) -> (provider: Self)
        ensures
            (provider.signature(), provider.source()) == device_signature(*device),
            provider.index() == device.index,
            provider.last_look_ns() == 0,
            provider.last_seen() == Seq::<u32>::empty(),
            provider.queued() == Seq::<PidEnergyAttribution>::empty(),
    {
        let (hardware_signature, signature_source) = read_signature(device);
        WindowsProvider {
            hardware_signature,
            signature_source,
            device_index: device.index,
            busy_state: GpuBusyState { last_sample_ns: 0, last_pids: Vec::new() },
            pending: Vec::new(),
        }
    }

    /// The identifier of the device.
    pub fn hardware_signature_string(&self) -> (signature: String)
        ensures
            signature@ == self.signature(),
    {
        self.hardware_signature.clone()
    }

    /// Where the identifier came from.
    pub fn signature_source(&self) -> (source: HardwareIdentitySource)
        ensures
            source == self.source(),
    {
        self.signature_source
    }

    /// The number of the device.
    pub fn device_index(&self) -> (index: u32)
        ensures
            index == self.index(),
    {
        self.device_index
    }

    /// Queues an attribution for the registry.
    pub fn enqueue_attribution(&mut self, attribution: PidEnergyAttribution)
        ensures
            final(self).queued() == old(self).queued().push(attribution),
            final(self).signature() == old(self).signature(),
            final(self).source() == old(self).source(),
            final(self).index() == old(self).index(),
            final(self).last_look_ns() == old(self).last_look_ns(),
            final(self).last_seen() == old(self).last_seen(),
    {
        self.pending.push(attribution);
    }

    /// A power reading in microwatts.
    pub fn read_power_uw(power_mw: u32) -> (power_uw: u64)
        ensures
            power_uw == power_mw * 1_000,
    {
        power_mw as u64 * 1_000
    }

    /// Splits the energy of a power reading over `dt_ms` evenly across the
    /// compute processes, charges each its part, and gives the attributions.
    /// Without processes or energy nothing is charged. The look is recorded.
    pub fn sample_window_energy(
        &mut self,
        power_mw: u32,
        processes: &Vec<NvmlComputeProcess>,
        window_start_ns: u64,
        window_end_ns: u64,
        dt_ms: u64,
        registry: &mut AmalgafyRegistry,
    ) -> (attributions: Vec<PidEnergyAttribution>)
        ensures
            attribution_models(attributions@) == window_shares(
                power_mw,
                pids_of(processes@),
                window_start_ns,
                window_end_ns,
                dt_ms,
                old(self).signature(),
            ),
            final(registry)@ == charged_all(old(registry)@, charges_of(attributions@)),
            attributions@.len() > 0 ==> charges_of(attributions@) == split_charges(
                nvml_window_energy(power_mw as u64, dt_ms),
                pids_of(processes@),
            ),
            final(self).last_look_ns() == window_end_ns,
            final(self).last_seen() == pids_of(processes@),
            final(self).differs_in_look_only(*old(self)),
    {
        self.busy_state = GpuBusyState {
            last_sample_ns: window_end_ns,
            last_pids: listed_pids(processes),
        };
        let ghost recorded = *self;
        let ghost pids = pids_of(processes@);
        let ghost signature = self.signature();
        let total_uj: u64 = nvml_window_energy_uj(power_mw as u64, dt_ms);
        let ghost models = window_shares(
            power_mw,
            pids,
            window_start_ns,
            window_end_ns,
            dt_ms,
            signature,
        );
        let mut attributions: Vec<PidEnergyAttribution> = Vec::new();
        if processes.len() == 0 || total_uj == 0 {
            assert(attribution_models(attributions@) =~= models);
            assert(charged_all(registry@, charges_of(attributions@)) == registry@);
            return attributions;
        }
        let burst_power_uw: u64 = Self::read_power_uw(power_mw);
        let mut i: usize = 0;
        while i < processes.len()
            invariant
                i <= processes.len(),
                total_uj != 0,
                pids == pids_of(processes@),
                signature == self.signature(),
                *self == recorded,
                *registry == *old(registry),
                burst_power_uw == power_mw * 1_000,
                total_uj == nvml_window_energy(power_mw as u64, dt_ms),
                models == window_shares(
                    power_mw,
                    pids,
                    window_start_ns,
                    window_end_ns,
                    dt_ms,
                    signature,
                ),
                attribution_models(attributions@) == models.take(i as int),
            decreases processes.len() - i,
        {
            let ghost before = attributions@;
            attributions.push(
                PidEnergyAttribution {
                    pid: processes[i].pid,
                    window_start_ns,
                    window_end_ns,
                    burst_power_uw,
                    attributed_energy_uj: even_share(total_uj, processes.len(), i),
                    hardware_signature: self.hardware_signature.clone(),
                },
            );
            assert(pids[i as int] == processes@[i as int].pid);
            assert(attribution_models(attributions@) =~= attribution_models(before).push(
                models[i as int],
            ));
            assert(models.take(i + 1) =~= models.take(i as int).push(models[i as int]));
            i += 1;
        }
        proof {
            assert(models.take(i as int) =~= models);
            lemma_charges_of_models(attributions@);
            assert(charges_of(attributions@) =~= split_charges(total_uj, pids));
        }
        push_attributions(&attributions, registry);
        attributions
    }

    /// Attributes a window to the compute processes by the deterministic model,
    /// each holding the device for an equal part of the window, charges each its
    /// part, and gives the attributions. Without processes nothing is charged. The
    /// look is recorded.
    pub fn attribute_window(
        &mut self,
        power_mw: u32,
        processes: &Vec<NvmlComputeProcess>,
        window_start_ns: u64,
        window_end_ns: u64,
        idle_power_uw: u64,
        registry: &mut AmalgafyRegistry,
    ) -> (attributions: Vec<PidEnergyAttribution>)
        ensures
            attribution_models(attributions@) == window_attributions(
                power_mw,
                pids_of(processes@),
                window_start_ns,
                window_end_ns,
                idle_power_uw,
                old(self).signature(),
            ),
            final(registry)@ == charged_all(old(registry)@, charges_of(attributions@)),
            final(self).last_look_ns() == window_end_ns,
            final(self).last_seen() == pids_of(processes@),
            final(self).differs_in_look_only(*old(self)),
    {
        self.busy_state = GpuBusyState {
            last_sample_ns: window_end_ns,
            last_pids: listed_pids(processes),
        };
        let ghost recorded = *self;
        let ghost pids = pids_of(processes@);
        let ghost signature = self.signature();
        let ghost models = window_attributions(
            power_mw,
            pids,
            window_start_ns,
            window_end_ns,
            idle_power_uw,
            signature,
        );
        let power_uw: u64 = Self::read_power_uw(power_mw);
        let mut attributions: Vec<PidEnergyAttribution> = Vec::new();
        if processes.len() == 0 {
            assert(attribution_models(attributions@) =~= models);
            assert(charged_all(registry@, charges_of(attributions@)) == registry@);
            return attributions;
        }
        let window_ns: u64 = window_end_ns.saturating_sub(window_start_ns);
        let per_process_ns: u64 = window_ns / processes.len() as u64;
        let mut i: usize = 0;
        while i < processes.len()
            invariant
                i <= processes.len(),
                pids == pids_of(processes@),
                signature == self.signature(),
                *self == recorded,
                *registry == *old(registry),
                power_uw == power_mw * 1_000,
                window_ns == window_length(window_start_ns, window_end_ns),
                per_process_ns == window_ns as int / pids.len() as int,
                models == window_attributions(
                    power_mw,
                    pids,
                    window_start_ns,
                    window_end_ns,
                    idle_power_uw,
                    signature,
                ),
                attribution_models(attributions@) == models.take(i as int),
            decreases processes.len() - i,
        {
            let ghost before = attributions@;
            attributions.push(
                PidEnergyAttribution {
                    pid: processes[i].pid,
                    window_start_ns,
                    window_end_ns,
                    burst_power_uw: baseline_burst_power_uw(power_uw, idle_power_uw),
                    attributed_energy_uj: deterministic_attribution_uj(
                        power_uw,
                        idle_power_uw,
                        per_process_ns,
                        window_ns,
                    ),
                    hardware_signature: self.hardware_signature.clone(),
                },
            );
            assert(pids[i as int] == processes@[i as int].pid);
            assert(attribution_models(attributions@) =~= attribution_models(before).push(
                models[i as int],
            ));
            assert(models.take(i + 1) =~= models.take(i as int).push(models[i as int]));
            i += 1;
        }
        assert(models.take(i as int) =~= models);
        push_attributions(&attributions, registry);
        attributions
    }

    /// The power snapshot that a reading gives, taken at a given time. The
    /// processes are noted, where they could be listed.
    pub fn sample_power_state_at(
        &mut self,
        power_mw: u32,
        processes: &Option<Vec<NvmlComputeProcess>>,
        elapsed: Option<u128>,
    ) -> (snapshot: PowerSnapshot)
        ensures
            is_device_snapshot(snapshot, power_mw, stamp_of(elapsed), old(self).signature()),
            final(self).differs_in_look_only(*old(self)),
            match *processes {
                Some(listing) => {
                    &&& final(self).last_look_ns() == stamp_of(elapsed)
                    &&& final(self).last_seen() == pids_of(listing@)
                },
                None => *final(self) == *old(self),
            },
    {
        let power_uw: u64 = Self::read_power_uw(power_mw);
        let observed_at_ns: u64 = unix_stamp(elapsed);
        if let Some(listing) = processes {
            self.busy_state = GpuBusyState {
                last_sample_ns: observed_at_ns,
                last_pids: listed_pids(listing),
            };
        }
        PowerSnapshot {
            observed_at_ns,
            idle_power_uw: 0,
            active_power_uw: power_uw,
            cpu_power_uw: 0,
            gpu_power_uw: power_uw,
            accelerator_power_uw: power_uw,
            hardware_signature: self.hardware_signature.clone(),
        }
    }

    /// The power snapshot that a reading gives, taken at the present time.
    pub fn sample_power_state(
        &mut self,
        power_mw: u32,
        processes: &Option<Vec<NvmlComputeProcess>>,
    ) -> (snapshot: PowerSnapshot)
        ensures
            is_device_snapshot(
                snapshot,
                power_mw,
                snapshot.observed_at_ns,
                old(self).signature(),
            ),
            final(self).differs_in_look_only(*old(self)),
            match *processes {
                Some(listing) => {
                    &&& final(self).last_look_ns() == snapshot.observed_at_ns
                    &&& final(self).last_seen() == pids_of(listing@)
                },
                None => *final(self) == *old(self),
            },
    {
        self.sample_power_state_at(power_mw, processes, nanos_since_epoch())
    }
}

fn read_signature(device: &DeviceTelemetry) -> (found: (String, HardwareIdentitySource))
    ensures
        (found.0@, found.1) == device_signature(*device),
{
    if let Some(serial) = &device.serial {
        if !serial.as_str().is_empty() {
            return (serial.clone(), HardwareIdentitySource::WindowsNvmlSerial);
        }
    }
    if let Some(uuid) = &device.uuid {
        if !uuid.as_str().is_empty() {
            return (uuid.clone(), HardwareIdentitySource::WindowsNvmlUuid);
        }
    }
    let mut signature = "nvml-device-".to_owned();
    push_decimal(&mut signature, device.index);
    (signature, HardwareIdentitySource::Synthetic)
}

impl EnergyProvider for WindowsProvider {
    fn attribute_joules_to_pid(
        &mut self,
        pid: u32,
        window_start_ns: u64,
        window_end_ns: u64,
        snapshot: &PowerSnapshot,
    ) -> (attribution: Result<PidEnergyAttribution, ProviderError>)
        ensures
            attribution is Ok,
            attribution->Ok_0@ == baseline_attribution(
                pid,
                window_start_ns,
                window_end_ns,
                *snapshot,
            ),
            *final(self) == *old(self),
    {
        Ok(PidEnergyAttribution::baseline_burst(pid, window_start_ns, window_end_ns, snapshot))
    }

    fn sync_registry(&mut self, registry: &mut AmalgafyRegistry) -> (pushed: Result<
        u64,
        ProviderError,
    >)
        ensures
            pushed == Ok::<u64, ProviderError>(
                saturated(total_charge(charges_of(old(self).queued()))),
            ),
            final(registry)@ == charged_all(old(registry)@, charges_of(old(self).queued())),
            final(self).queued() == Seq::<PidEnergyAttribution>::empty(),
            final(self).signature() == old(self).signature(),
            final(self).source() == old(self).source(),
            final(self).index() == old(self).index(),
            final(self).last_look_ns() == old(self).last_look_ns(),
            final(self).last_seen() == old(self).last_seen(),
    {
        let pushed: u64 = push_attributions(&self.pending, registry);
        self.pending.clear();
        Ok(pushed)
    }

    fn hardware_signature(&self) -> (signature: &str)
        ensures
            signature@ == self.signature(),
    {
        self.hardware_signature.as_str()
    }

    fn active_pids(&self) -> (pids: Vec<u32>)
        ensures
            pids@ == self.last_seen(),
    {
        self.busy_state.last_pids.clone()
    }
}

/// Sampling a window charges exactly the energy that was measured over it.
pub proof fn sampled_window_is_fully_charged(
    power_mw: u32,
    pids: Seq<u32>,
    window_start_ns: u64,
    window_end_ns: u64,
    dt_ms: u64,
    signature: Seq<char>,
)
    requires
        pids.len() > 0,
    ensures
        total_charge(
            model_charges(
                window_shares(power_mw, pids, window_start_ns, window_end_ns, dt_ms, signature),
            ),
        ) == nvml_window_energy(power_mw as u64, dt_ms),
{
    let total_uj = nvml_window_energy(power_mw as u64, dt_ms);
    let shares = window_shares(power_mw, pids, window_start_ns, window_end_ns, dt_ms, signature);
    if total_uj != 0 {
        assert(model_charges(shares) =~= split_charges(total_uj, pids));
        split_preserves_the_total(total_uj, pids);
    }
}

proof fn lemma_equal_times(time_ns: u64, count: nat)
    ensures
        total_time(Seq::new(count, |i: int| time_ns)) == time_ns * count,
    decreases count,
{
    let times = Seq::new(count, |i: int| time_ns);
    if count == 0 {
        assert(time_ns * 0 == 0) by (nonlinear_arith);
    } else {
        lemma_equal_times(time_ns, (count - 1) as nat);
        assert(times.drop_last() =~= Seq::new((count - 1) as nat, |i: int| time_ns));
        assert(time_ns * count == time_ns * (count - 1) + time_ns) by (nonlinear_arith);
    }
}

proof fn lemma_equal_attributions(
    power_uw: u64,
    idle_power_uw: u64,
    time_ns: u64,
    window_ns: u64,
    charges: Seq<(u32, u64)>,
)
    requires
        forall|i: int|
            0 <= i < charges.len() ==> (#[trigger] charges[i]).1 == deterministic_attribution(
                power_uw,
                idle_power_uw,
                time_ns,
                window_ns,
            ),
    ensures
        total_charge(charges) == total_attributed(
            power_uw,
            idle_power_uw,
            Seq::new(charges.len(), |i: int| time_ns),
            window_ns,
        ),
    decreases charges.len(),
{
    let times = Seq::new(charges.len(), |i: int| time_ns);
    if charges.len() > 0 {
        lemma_equal_attributions(
            power_uw,
            idle_power_uw,
            time_ns,
            window_ns,
            charges.drop_last(),
        );
        assert(times.drop_last() =~= Seq::new(charges.drop_last().len(), |i: int| time_ns));
        assert(charges.last() == charges[charges.len() - 1]);
    }
}

/// Attributing a window never charges more than the energy above idle that the
/// device used over it.
pub proof fn attributed_window_stays_below_burst_energy(
    power_mw: u32,
    pids: Seq<u32>,
    window_start_ns: u64,
    window_end_ns: u64,
    idle_power_uw: u64,
    signature: Seq<char>,
)
    ensures
        total_charge(
            model_charges(
                window_attributions(
                    power_mw,
                    pids,
                    window_start_ns,
                    window_end_ns,
                    idle_power_uw,
                    signature,
                ),
            ),
        ) <= burst_power((power_mw * 1_000) as u64, idle_power_uw) * window_length(
            window_start_ns,
            window_end_ns,
        ) / 1_000_000_000,
{
    let power_uw = (power_mw * 1_000) as u64;
    let window_ns = window_length(window_start_ns, window_end_ns);
    let burst = burst_power(power_uw, idle_power_uw) as int;
    let charges = model_charges(
        window_attributions(
            power_mw,
            pids,
            window_start_ns,
            window_end_ns,
            idle_power_uw,
            signature,
        ),
    );
    let count = pids.len();
    if count == 0 {
        assert(charges.len() == 0);
        assert(burst * window_ns >= 0) by (nonlinear_arith)
            requires
                burst >= 0,
                window_ns >= 0,
        ;
    } else {
        let time_ns = (window_ns as int / count as int) as u64;
        let times = Seq::new(count, |i: int| time_ns);
        assert(window_ns as int / count as int <= window_ns && window_ns as int / count as int >= 0)
            by (nonlinear_arith)
            requires
                count > 0,
                window_ns >= 0,
        ;
        lemma_equal_attributions(power_uw, idle_power_uw, time_ns, window_ns, charges);
        attribution_never_exceeds_burst_energy(power_uw, idle_power_uw, times, window_ns);
        lemma_equal_times(time_ns, count);
        assert(time_ns * count <= window_ns) by (nonlinear_arith)
            requires
                time_ns == window_ns as int / count as int,
                count > 0,
        ;
        assert(burst * (time_ns * count) <= burst * window_ns) by (nonlinear_arith)
            requires
                time_ns * count <= window_ns,
                burst >= 0,
        ;
        vstd::arithmetic::div_mod::lemma_div_is_ordered(
            burst * (time_ns * count),
            burst * window_ns,
            1_000_000_000,
        );
    }
}

/// A device's signature is its whole serial, or else its whole identifier, or else a
/// placeholder with its number.
pub proof fn device_signature_is_whole(device: DeviceTelemetry)
    ensures
        ({
            let (signature, source) = device_signature(device);
            let serial = device.serial is Some && device.serial->0@.len() > 0;
            let uuid = device.uuid is Some && device.uuid->0@.len() > 0;
            &&& serial ==> signature == device.serial->0@ && source
                == HardwareIdentitySource::WindowsNvmlSerial
            &&& !serial && uuid ==> signature == device.uuid->0@ && source
                == HardwareIdentitySource::WindowsNvmlUuid
            &&& !serial && !uuid ==> signature == "nvml-device-"@ + decimal(device.index as nat)
                && source == HardwareIdentitySource::Synthetic
        }),
{
}

/// A listing names the process of each of its rows, in their order.
pub proof fn listing_names_every_row(processes: Seq<NvmlComputeProcess>, i: int)
    requires
        0 <= i < processes.len(),
    ensures
        pids_of(processes).len() == processes.len(),
        pids_of(processes)[i] == processes[i].pid,
{
}

/// A call is judged by its code alone, and a failed one is reported with its
/// context and NVML's words, each of them whole.
pub proof fn nvml_calls_are_judged_by_their_code(
    outcome: Result<(), ProviderError>,
    code: i32,
    context: Seq<char>,
    reason: Seq<char>,
)
    requires
        is_nvml_outcome(outcome, code, context, reason),
    ensures
        outcome is Ok <==> code == 0,
        outcome matches Err(error) ==> (error matches ProviderError::Nvml {
            context: c,
            reason: r,
        } && c@ == context && r@ == reason),
{
}

/// NVML is asked again exactly where it says that the buffer is too small and names
/// more than fit, with room for as many as it names; its rows are taken exactly
/// where the call went well and they fit, all of them.
pub proof fn queries_follow_nvml_s_answer(code: i32, count: u32, capacity: u32)
    ensures
        query_step(code, count, capacity) == (ComputeQuery::Grow { capacity: count }) <==> code == 7
            && count > capacity,
        query_step(code, count, capacity) == (ComputeQuery::Filled { count }) <==> code == 0
            && count <= capacity,
        query_step(code, count, capacity) is Failed <==> !(code == 7 && count > capacity) && !(code
            == 0 && count <= capacity),
{
}

/// Sampling attributes to every process of the listing, in its order, over the
/// window, under the device's signature and with its whole power; nothing where no
/// energy was measured.
pub proof fn sampled_window_names_every_process(
    power_mw: u32,
    pids: Seq<u32>,
    window_start_ns: u64,
    window_end_ns: u64,
    dt_ms: u64,
    signature: Seq<char>,
    i: int,
)
    requires
        0 <= i < pids.len(),
    ensures
        ({
            let shares = window_shares(
                power_mw,
                pids,
                window_start_ns,
                window_end_ns,
                dt_ms,
                signature,
            );
            &&& power_mw * dt_ms == 0 ==> shares.len() == 0
            &&& power_mw * dt_ms > 0 ==> {
                &&& shares.len() == pids.len()
                &&& shares[i].pid == pids[i]
                &&& shares[i].window_start_ns == window_start_ns
                &&& shares[i].window_end_ns == window_end_ns
                &&& shares[i].burst_power_uw == power_mw * 1_000
                &&& shares[i].hardware_signature == signature
            }
            &&& 0 < power_mw * dt_ms <= 0xffff_ffff_ffff_ffff ==> {
                &&& shares[i].attributed_energy_uj * pids.len() < power_mw * dt_ms + pids.len()
                &&& power_mw * dt_ms < (shares[i].attributed_energy_uj + 1) * pids.len()
            }
            &&& power_mw * dt_ms > 0 ==> forall|j: int|
                i <= j < shares.len() ==> (#[trigger] shares[j]).attributed_energy_uj
                    <= shares[i].attributed_energy_uj <= shares[j].attributed_energy_uj + 1
        }),
        window_shares(
            power_mw,
            Seq::<u32>::empty(),
            window_start_ns,
            window_end_ns,
            dt_ms,
            signature,
        ).len() == 0,
{
    let total_uj = nvml_window_energy(power_mw as u64, dt_ms);
    nvml_energy_is_the_product(power_mw as u64, dt_ms);
    assert(power_mw * dt_ms >= 0) by (nonlinear_arith)
        requires
            power_mw >= 0,
            dt_ms >= 0,
    ;
    shares_follow_the_listing(total_uj, pids, i);
    assert forall|j: int| i <= j < pids.len() implies #[trigger] share_of(
        total_uj,
        pids.len() as int,
        j,
    ) <= share_of(total_uj, pids.len() as int, i) <= share_of(
        total_uj,
        pids.len() as int,
        j,
    ) + 1 by {
        split_is_fair(total_uj, pids.len() as int, i, j);
    }
}

/// The deterministic model attributes to every process of the listing, in its order,
/// over the window, under the device's signature, the whole number of micro-joules
/// in the power above idle times the process's part of the window, which is the
/// whole part of the window divided by the number of processes.
pub proof fn attributed_window_names_every_process(
    power_mw: u32,
    pids: Seq<u32>,
    window_start_ns: u64,
    window_end_ns: u64,
    idle_power_uw: u64,
    signature: Seq<char>,
    part_ns: u64,
    i: int,
)
    requires
        0 <= i < pids.len(),
        window_start_ns <= window_end_ns,
        part_ns * pids.len() <= window_end_ns - window_start_ns < (part_ns + 1) * pids.len(),
    ensures
        ({
            let attributions = window_attributions(
                power_mw,
                pids,
                window_start_ns,
                window_end_ns,
                idle_power_uw,
                signature,
            );
            let power = power_mw * 1_000 - idle_power_uw;
            let energy = attributions[i].attributed_energy_uj;
            &&& attributions.len() == pids.len()
            &&& attributions[i].pid == pids[i]
            &&& attributions[i].window_start_ns == window_start_ns
            &&& attributions[i].window_end_ns == window_end_ns
            &&& attributions[i].hardware_signature == signature
            &&& power >= 0 ==> attributions[i].burst_power_uw == power
            &&& power <= 0 ==> attributions[i].burst_power_uw == 0 && energy == 0
            &&& power >= 0 && power * part_ns < 0x1_0000_0000_0000_0000 * 1_000_000_000 ==> energy
                * 1_000_000_000 <= power * part_ns < (energy + 1) * 1_000_000_000
            &&& power >= 0 && power * part_ns >= 0x1_0000_0000_0000_0000 * 1_000_000_000 ==> energy
                == 0xffff_ffff_ffff_ffffu64
        }),
{
    let power_uw = (power_mw * 1_000) as u64;
    let window_ns = window_end_ns - window_start_ns;
    let count = pids.len() as int;
    let q = window_ns / count;
    vstd::arithmetic::div_mod::lemma_fundamental_div_mod(window_ns, count);
    assert(q == part_ns) by (nonlinear_arith)
        requires
            part_ns * count <= window_ns < (part_ns + 1) * count,
            window_ns == count * q + window_ns % count,
            0 <= window_ns % count < count,
            count > 0,
    ;
    assert(part_ns <= window_ns) by (nonlinear_arith)
        requires
            part_ns * count <= window_ns,
            count >= 1,
            part_ns >= 0,
    ;
    attribution_is_the_whole_part(power_uw, idle_power_uw, part_ns, window_ns as u64);
}

/// A window that ends before it starts, or with it, yields no energy, and without
/// processes there is nothing to attribute.
pub proof fn empty_windows_yield_nothing(
    power_mw: u32,
    pids: Seq<u32>,
    window_start_ns: u64,
    window_end_ns: u64,
    idle_power_uw: u64,
    signature: Seq<char>,
    i: int,
)
    ensures
        pids.len() == 0 ==> window_attributions(
            power_mw,
            pids,
            window_start_ns,
            window_end_ns,
            idle_power_uw,
            signature,
        ).len() == 0,
        0 <= i < pids.len() && window_end_ns <= window_start_ns ==> window_attributions(
            power_mw,
            pids,
            window_start_ns,
            window_end_ns,
            idle_power_uw,
            signature,
        )[i].attributed_energy_uj == 0,
{
    if 0 <= i < pids.len() && window_end_ns <= window_start_ns {
        let power_uw = (power_mw * 1_000) as u64;
        let burst = burst_power(power_uw, idle_power_uw) as int;
        assert(burst * 0 == 0) by (nonlinear_arith);
        vstd::arithmetic::div_mod::lemma_div_basics_1(pids.len() as int);
    }
}

/// A device snapshot shows the whole power, in microwatts, as the active power and
/// as that of the GPU and the accelerator, and no other.
pub proof fn device_snapshot_shows_the_power(
    snapshot: PowerSnapshot,
    power_mw: u32,
    observed_at_ns: u64,
    signature: Seq<char>,
)
    requires
        is_device_snapshot(snapshot, power_mw, observed_at_ns, signature),
    ensures
        snapshot.observed_at_ns == observed_at_ns,
        snapshot.active_power_uw == power_mw * 1_000,
        snapshot.gpu_power_uw == power_mw * 1_000,
        snapshot.accelerator_power_uw == power_mw * 1_000,
        snapshot.idle_power_uw == 0,
        snapshot.cpu_power_uw == 0,
        snapshot.hardware_signature@ == signature,
{
}

/// Where nothing but the last look may have changed, the device's identity is as it
/// was, and so are the attributions that wait.
pub proof fn looks_leave_the_rest_alone(before: WindowsProvider, after: WindowsProvider)
    requires
        after.differs_in_look_only(before),
    ensures
        after.signature() == before.signature(),
        after.source() == before.source(),
        after.index() == before.index(),
        after.queued() == before.queued(),
{
}

} // verus!
