//! Power snapshots, per-process attributions, the contract of a provider, and
//! the step of the differential sampling loop.

use vstd::arithmetic::div_mod::lemma_fundamental_div_mod;
use vstd::prelude::*;

use crate::attribution::{
    baseline_burst_power_uw, burst_energy, burst_energy_is_the_whole_part, burst_energy_uj,
    burst_power, saturated, window_energy, window_energy_uj,
};
use crate::error::ProviderError;
use crate::registry::{
    charged, charged_all, charges_reach_the_total, total_charge, total_energy, AmalgafyRegistry,
};
use crate::sorting::{
    sort_stably, stable_sorted, stable_sorted_ignores_input_order,
    stable_sorted_is_an_ordered_permutation, ties, Ranked, Sortable,
};
use crate::text::{text_comes_by, text_le, text_order_is_total, text_order_is_transitive};

verus! {

/// The cadence of the differential sampling loop, in milliseconds.
pub const SAMPLING_LOOP_INTERVAL_MS: u64 = 100;

/// One reading of the hardware's power.
#[derive(Debug, Clone, PartialEq, Eq)]
pub struct PowerSnapshot {
    pub observed_at_ns: u64,
    pub idle_power_uw: u64,
    pub active_power_uw: u64,
    pub cpu_power_uw: u64,
    pub gpu_power_uw: u64,
    pub accelerator_power_uw: u64,
    pub hardware_signature: String,
}

/// Energy that one process used over one window.
#[derive(Debug, PartialEq, Eq)]
pub struct PidEnergyAttribution {
    pub pid: u32,
    pub window_start_ns: u64,
    pub window_end_ns: u64,
    pub burst_power_uw: u64,
    pub attributed_energy_uj: u64,
    pub hardware_signature: String,
}

impl Clone for PidEnergyAttribution {
    fn clone(&self) -> (copy: Self)
        ensures
            copy == *self,
    {
        PidEnergyAttribution {
            pid: self.pid,
            window_start_ns: self.window_start_ns,
            window_end_ns: self.window_end_ns,
            burst_power_uw: self.burst_power_uw,
            attributed_energy_uj: self.attributed_energy_uj,
            hardware_signature: self.hardware_signature.clone(),
        }
    }
}

/// An attribution as a plain value.
#[verifier::ext_equal]
pub struct AttributionModel {
    pub pid: u32,
    pub window_start_ns: u64,
    pub window_end_ns: u64,
    pub burst_power_uw: u64,
    pub attributed_energy_uj: u64,
    pub hardware_signature: Seq<char>,
}

impl View for PidEnergyAttribution {
    type V = AttributionModel;

    open spec fn view(&self) -> AttributionModel {
        AttributionModel {
            pid: self.pid,
            window_start_ns: self.window_start_ns,
            window_end_ns: self.window_end_ns,
            burst_power_uw: self.burst_power_uw,
            attributed_energy_uj: self.attributed_energy_uj,
            hardware_signature: self.hardware_signature@,
        }
    }
}

/// Attributions as plain values.
pub open spec fn attribution_models(attributions: Seq<PidEnergyAttribution>) -> Seq<
    AttributionModel,
> {
    attributions.map_values(|attribution: PidEnergyAttribution| attribution@)
}

/// The order of a sealed list: by process, then by the window's start, then by
/// its end. Attributions that share all three come by power, energy and hardware,
/// so that only equal attributions tie.
impl Ranked for AttributionModel {
    open spec fn ranks_by(self, other: Self) -> bool {
        if self.pid != other.pid {
            self.pid < other.pid
        } else if self.window_start_ns != other.window_start_ns {
            self.window_start_ns < other.window_start_ns
        } else if self.window_end_ns != other.window_end_ns {
            self.window_end_ns < other.window_end_ns
        } else if self.burst_power_uw != other.burst_power_uw {
            self.burst_power_uw < other.burst_power_uw
        } else if self.attributed_energy_uj != other.attributed_energy_uj {
            self.attributed_energy_uj < other.attributed_energy_uj
        } else {
            text_le(self.hardware_signature, other.hardware_signature)
        }
    }

    proof fn lemma_total(a: Self, b: Self) {
        text_order_is_total(a.hardware_signature, b.hardware_signature);
    }

    proof fn lemma_transitive(a: Self, b: Self, c: Self) {
        if text_le(a.hardware_signature, b.hardware_signature) && text_le(
            b.hardware_signature,
            c.hardware_signature,
        ) {
            text_order_is_transitive(
                a.hardware_signature,
                b.hardware_signature,
                c.hardware_signature,
            );
        }
    }
}

/// Attributions that share a rank are equal.
pub proof fn only_equal_attributions_tie(a: AttributionModel, b: AttributionModel)
    requires
        ties(a, b),
    ensures
        a == b,
{
    text_order_is_total(a.hardware_signature, b.hardware_signature);
}

impl Ranked for PidEnergyAttribution {
    open spec fn ranks_by(self, other: Self) -> bool {
        self@.ranks_by(other@)
    }

    proof fn lemma_total(a: Self, b: Self) {
        AttributionModel::lemma_total(a@, b@);
    }

    proof fn lemma_transitive(a: Self, b: Self, c: Self) {
        AttributionModel::lemma_transitive(a@, b@, c@);
    }
}

impl Sortable for PidEnergyAttribution {
    fn comes_by(&self, other: &Self) -> bool {
        if self.pid != other.pid {
            self.pid < other.pid
        } else if self.window_start_ns != other.window_start_ns {
            self.window_start_ns < other.window_start_ns
        } else if self.window_end_ns != other.window_end_ns {
            self.window_end_ns < other.window_end_ns
        } else if self.burst_power_uw != other.burst_power_uw {
            self.burst_power_uw < other.burst_power_uw
        } else if self.attributed_energy_uj != other.attributed_energy_uj {
            self.attributed_energy_uj < other.attributed_energy_uj
        } else {
            text_comes_by(
                self.hardware_signature.as_str(),
                other.hardware_signature.as_str(),
            )
        }
    }
}

/// The length of a window; nothing where it ends before it starts.
pub open spec fn window_length(start_ns: u64, end_ns: u64) -> u64 {
    if end_ns <= start_ns {
        0
    } else {
        (end_ns - start_ns) as u64
    }
}

/// What the burst model attributes to a process over a window.
pub open spec fn baseline_attribution(
    pid: u32,
    window_start_ns: u64,
    window_end_ns: u64,
    snapshot: PowerSnapshot,
) -> AttributionModel {
    AttributionModel {
        pid,
        window_start_ns,
        window_end_ns,
        burst_power_uw: burst_power(snapshot.active_power_uw, snapshot.idle_power_uw),
        attributed_energy_uj: burst_energy(
            snapshot.active_power_uw,
            snapshot.idle_power_uw,
            window_length(window_start_ns, window_end_ns),
        ),
        hardware_signature: snapshot.hardware_signature@,
    }
}

impl PidEnergyAttribution {
    /// Attributes the energy above idle of the whole window to one process.
    pub fn baseline_burst(
        pid: u32,
        window_start_ns: u64,
        window_end_ns: u64,
        snapshot: &PowerSnapshot,
    ) -> (attribution: Self)
        ensures
            attribution@ == baseline_attribution(pid, window_start_ns, window_end_ns, *snapshot),
    {
        let window_ns: u64 = window_end_ns.saturating_sub(window_start_ns);
        PidEnergyAttribution {
            pid,
            window_start_ns,
            window_end_ns,
            burst_power_uw: baseline_burst_power_uw(
                snapshot.active_power_uw,
                snapshot.idle_power_uw,
            ),
            attributed_energy_uj: burst_energy_uj(
                snapshot.active_power_uw,
                snapshot.idle_power_uw,
                window_ns,
            ),
            hardware_signature: snapshot.hardware_signature.clone(),
        }
    }
}

/// What every provider offers, whatever platform its telemetry comes from.
pub trait EnergyProvider {
    /// The energy that `pid` used over the window, given a reading.
    fn attribute_joules_to_pid(
        &mut self,
        pid: u32,
        window_start_ns: u64,
        window_end_ns: u64,
        snapshot: &PowerSnapshot,
    ) -> Result<PidEnergyAttribution, ProviderError>;

    /// Moves the pending attributions into the registry and gives back the
    /// energy that was moved. A provider without pending attributions moves
    /// nothing.
    fn sync_registry(&mut self, registry: &mut AmalgafyRegistry) -> (pushed: Result<
        u64,
        ProviderError,
    >)
        default_ensures
            pushed == Ok::<u64, ProviderError>(0),
            final(registry)@ == old(registry)@,
    {
        Ok(0)
    }

    /// The identifier of the hardware.
    fn hardware_signature(&self) -> &str;

    /// The processes that share the next energy reading. A provider that does
    /// not know them names none.
    fn active_pids(&self) -> (pids: Vec<u32>)
        default_ensures
            pids@ == Seq::<u32>::empty(),
    {
        Vec::new()
    }
}

/// The charges that a sequence of attributions stands for.
pub open spec fn charges_of(attributions: Seq<PidEnergyAttribution>) -> Seq<(u32, u64)> {
    attributions.map_values(
        |attribution: PidEnergyAttribution| (attribution.pid, attribution.attributed_energy_uj),
    )
}

/// Charges every attribution to its process, in order, and gives back the
/// energy that was charged, saturating at the largest `u64`.
pub fn push_attributions(
    attributions: &Vec<PidEnergyAttribution>,
    registry: &mut AmalgafyRegistry,
) -> (pushed: u64)
    ensures
        pushed == saturated(total_charge(charges_of(attributions@))),
        final(registry)@ == charged_all(old(registry)@, charges_of(attributions@)),
{
    let mut pushed: u64 = 0;
    let mut i: usize = 0;
    let ghost charges = charges_of(attributions@);
    while i < attributions.len()
        invariant
            i <= attributions.len(),
            charges == charges_of(attributions@),
            total_charge(charges.take(i as int)) >= 0,
            pushed == saturated(total_charge(charges.take(i as int))),
            registry@ == charged_all(old(registry)@, charges.take(i as int)),
        decreases attributions.len() - i,
    {
        assert(charges.take(i + 1).drop_last() =~= charges.take(i as int));
        registry.add_micro_joules(attributions[i].pid, attributions[i].attributed_energy_uj);
        pushed = pushed.saturating_add(attributions[i].attributed_energy_uj);
        i += 1;
    }
    assert(charges.take(i as int) =~= charges);
    pushed
}

/// The share of the process at `index` when `count` processes split
/// `total_uj`: an equal part, and one unit of the remainder for each of the
/// first processes until it is used up.
pub open spec fn share_of(total_uj: u64, count: int, index: int) -> u64 {
    (total_uj as int / count + if index < total_uj as int % count {
        1int
    } else {
        0
    }) as u64
}

/// The charges by which `pids` split `total_uj`. Without any process the
/// energy goes to the system bucket, process 0.
pub open spec fn split_charges(total_uj: u64, pids: Seq<u32>) -> Seq<(u32, u64)> {
    if pids.len() == 0 {
        seq![(0u32, total_uj)]
    } else {
        Seq::new(pids.len(), |i: int| (pids[i], share_of(total_uj, pids.len() as int, i)))
    }
}

proof fn lemma_share_fits(total_uj: u64, count: int, index: int)
    requires
        0 < count,
        0 <= index,
    ensures
        0 <= total_uj as int / count,
        total_uj as int / count + if index < total_uj as int % count {
            1int
        } else {
            0
        } <= total_uj,
        share_of(total_uj, count, index) == total_uj as int / count + if index < total_uj as int
            % count {
            1int
        } else {
            0
        },
{
    let q = total_uj as int / count;
    let r = total_uj as int % count;
    lemma_fundamental_div_mod(total_uj as int, count);
    assert(q >= 0) by (nonlinear_arith)
        requires
            q == total_uj as int / count,
            count > 0,
            total_uj >= 0,
    ;
    assert(q <= count * q) by (nonlinear_arith)
        requires
            q >= 0,
            count >= 1,
    ;
}

/// The share of the process at `index` when `count` processes split
/// `total_uj`.
pub fn even_share(total_uj: u64, count: usize, index: usize) -> (share: u64)
    requires
        index < count,
    ensures
        share == share_of(total_uj, count as int, index as int),
{
    proof {
        lemma_share_fits(total_uj, count as int, index as int);
    }
    let parts: u64 = count as u64;
    let share: u64 = total_uj / parts;
    let remainder: u64 = total_uj % parts;
    if (index as u64) < remainder {
        share + 1
    } else {
        share
    }
}

/// Processes rank by their identifiers.
impl Ranked for u32 {
    open spec fn ranks_by(self, other: Self) -> bool {
        self <= other
    }

    proof fn lemma_total(a: Self, b: Self) {
    }

    proof fn lemma_transitive(a: Self, b: Self, c: Self) {
    }
}

impl Sortable for u32 {
    fn comes_by(&self, other: &Self) -> bool {
        *self <= *other
    }
}

/// Processes in ascending order, each as often as it is listed.
pub open spec fn ascending(pids: Seq<u32>) -> Seq<u32> {
    stable_sorted(pids)
}

/// Splits `total_uj` across the processes and charges each its share. The
/// remainder goes to the lowest processes, in whichever order they are listed.
pub fn charge_evenly(total_uj: u64, pids: &Vec<u32>, registry: &mut AmalgafyRegistry)
    ensures
        final(registry)@ == charged_all(
            old(registry)@,
            split_charges(total_uj, ascending(pids@)),
        ),
{
    let pids = sort_stably(pids.clone());
    let ghost charges = split_charges(total_uj, pids@);
    if pids.len() == 0 {
        registry.add_micro_joules(0, total_uj);
        assert(charges.drop_last() =~= Seq::<(u32, u64)>::empty());
        assert(charged_all(old(registry)@, charges.drop_last()) == old(registry)@);
    } else {
        let mut i: usize = 0;
        while i < pids.len()
            invariant
                i <= pids.len(),
                pids.len() > 0,
                charges == split_charges(total_uj, pids@),
                registry@ == charged_all(old(registry)@, charges.take(i as int)),
            decreases pids.len() - i,
        {
            assert(charges.take(i + 1).drop_last() =~= charges.take(i as int));
            registry.add_micro_joules(pids[i], even_share(total_uj, pids.len(), i));
            i += 1;
        }
        assert(charges.take(i as int) =~= charges);
    }
}

proof fn lemma_split_prefix(total_uj: u64, pids: Seq<u32>, upto: int)
    requires
        0 <= upto <= pids.len(),
        pids.len() > 0,
    ensures
        total_charge(split_charges(total_uj, pids).take(upto)) == (total_uj as int
            / pids.len() as int) * upto + if upto < total_uj as int % pids.len() as int {
            upto
        } else {
            total_uj as int % pids.len() as int
        },
    decreases upto,
{
    let count = pids.len() as int;
    let q = total_uj as int / count;
    let charges = split_charges(total_uj, pids);
    if upto == 0 {
        assert(charges.take(0).len() == 0);
        assert(q * 0 == 0) by (nonlinear_arith);
    } else {
        lemma_split_prefix(total_uj, pids, upto - 1);
        lemma_share_fits(total_uj, count, upto - 1);
        assert(charges.take(upto).drop_last() =~= charges.take(upto - 1));
        assert(q * upto == q * (upto - 1) + q) by (nonlinear_arith);
    }
}

/// Splitting loses nothing: the shares add up to the energy that was split.
pub proof fn split_preserves_the_total(total_uj: u64, pids: Seq<u32>)
    ensures
        total_charge(split_charges(total_uj, pids)) == total_uj,
{
    let charges = split_charges(total_uj, pids);
    if pids.len() == 0 {
        assert(charges.drop_last().len() == 0);
        assert(total_charge(charges.drop_last()) == 0);
    } else {
        let count = pids.len() as int;
        lemma_split_prefix(total_uj, pids, count);
        assert(charges.take(count) =~= charges);
        lemma_fundamental_div_mod(total_uj as int, count);
        assert((total_uj as int / count) * count == count * (total_uj as int / count))
            by (nonlinear_arith);
    }
}

/// The shares are fair: no two differ by more than one unit, and the earlier
/// of two processes gets no less.
pub proof fn split_is_fair(total_uj: u64, count: int, earlier: int, later: int)
    requires
        0 <= earlier <= later < count,
    ensures
        share_of(total_uj, count, later) <= share_of(total_uj, count, earlier) <= share_of(
            total_uj,
            count,
            later,
        ) + 1,
{
    lemma_share_fits(total_uj, count, earlier);
    lemma_share_fits(total_uj, count, later);
}

/// The remainder goes to the lowest processes: of two processes in ascending
/// order, the lower one gets no less.
pub proof fn remainder_goes_to_the_lowest(total_uj: u64, pids: Seq<u32>, lower: int, higher: int)
    requires
        0 <= lower <= higher < pids.len(),
    ensures
        split_charges(total_uj, ascending(pids)).len() == pids.len(),
        split_charges(total_uj, ascending(pids))[lower].0 <= split_charges(
            total_uj,
            ascending(pids),
        )[higher].0,
        split_charges(total_uj, ascending(pids))[lower].1 >= split_charges(
            total_uj,
            ascending(pids),
        )[higher].1,
{
    stable_sorted_is_an_ordered_permutation(pids);
    assert(ascending(pids)[lower].ranks_by(ascending(pids)[higher]));
    split_is_fair(total_uj, pids.len() as int, lower, higher);
}

/// How a split comes out does not depend on the order in which the processes are
/// listed.
pub proof fn split_ignores_listing_order(total_uj: u64, first: Seq<u32>, second: Seq<u32>)
    requires
        first.to_multiset() == second.to_multiset(),
    ensures
        split_charges(total_uj, ascending(first)) == split_charges(total_uj, ascending(second)),
{
    stable_sorted_ignores_input_order(first, second);
}

/// What one tick of the sampling loop did.
#[derive(Debug, Clone, Copy, PartialEq, Eq)]
pub enum Heartbeat {
    /// There was no reading; nothing changed.
    Skipped,
    /// The first reading; there is no earlier one to difference against.
    FirstSample,
    /// The energy since the earlier reading was charged.
    Charged {
        dt_ns: u64,
        delta_uj: u64,
        cumulative_delta_uj: u64,
        active_pids: usize,
    },
}

/// The state of the differential sampling loop.
#[derive(Debug, Clone)]
pub struct DifferentialSampler {
    /// The reading before.
    pub previous: Option<PowerSnapshot>,
    /// The energy charged so far, saturating at the largest `u64`.
    pub cumulative_delta_uj: u64,
}

/// The energy between two readings: the burst power of the later one, over the
/// time between them.
pub open spec fn delta_between(earlier: PowerSnapshot, later: PowerSnapshot) -> u64 {
    window_energy(
        burst_power(later.active_power_uw, later.idle_power_uw),
        window_length(earlier.observed_at_ns, later.observed_at_ns),
    )
}

impl DifferentialSampler {
    /// The loop before its first reading.
    pub fn new() -> (sampler: Self)
        ensures
            sampler.previous is None,
            sampler.cumulative_delta_uj == 0,
    {
        DifferentialSampler { previous: None, cumulative_delta_uj: 0 }
    }

    /// One tick: differences a reading against the one before and splits the
    /// energy between them across `pids`, the remainder to the lowest. A tick
    /// without a reading changes nothing.
    pub fn tick(
        &mut self,
        reading: Option<PowerSnapshot>,
        pids: &Vec<u32>,
        registry: &mut AmalgafyRegistry,
    ) -> (heartbeat: Heartbeat)
        ensures
            reading is None ==> *final(self) == *old(self) && final(registry)@ == old(registry)@
                && heartbeat == Heartbeat::Skipped,
            reading is Some ==> final(self).previous == reading,
            reading is Some && old(self).previous is None ==> {
                &&& final(self).cumulative_delta_uj == old(self).cumulative_delta_uj
                &&& final(registry)@ == old(registry)@
                &&& heartbeat == Heartbeat::FirstSample
            },
            reading is Some && old(self).previous is Some ==> {
                let delta_uj = delta_between(old(self).previous->0, reading->0);
                &&& final(self).cumulative_delta_uj == saturated(
                    old(self).cumulative_delta_uj + delta_uj,
                )
                &&& final(registry)@ == charged_all(
                    old(registry)@,
                    split_charges(delta_uj, ascending(pids@)),
                )
                &&& heartbeat == (Heartbeat::Charged {
                    dt_ns: window_length(
                        old(self).previous->0.observed_at_ns,
                        reading->0.observed_at_ns,
                    ),
                    delta_uj,
                    cumulative_delta_uj: final(self).cumulative_delta_uj,
                    active_pids: pids@.len() as usize,
                })
            },
    {
        let snapshot = match reading {
            Some(snapshot) => snapshot,
            None => return Heartbeat::Skipped,
        };
        let heartbeat = match &self.previous {
            Some(earlier) => {
                let dt_ns: u64 = snapshot.observed_at_ns.saturating_sub(earlier.observed_at_ns);
                let burst_power_uw: u64 = baseline_burst_power_uw(
                    snapshot.active_power_uw,
                    snapshot.idle_power_uw,
                );
                let delta_uj: u64 = window_energy_uj(burst_power_uw, dt_ns);
                charge_evenly(delta_uj, pids, registry);
                Heartbeat::Charged {
                    dt_ns,
                    delta_uj,
                    cumulative_delta_uj: self.cumulative_delta_uj.saturating_add(delta_uj),
                    active_pids: pids.len(),
                }
            },
            None => Heartbeat::FirstSample,
        };
        if let Heartbeat::Charged { cumulative_delta_uj, .. } = heartbeat {
            self.cumulative_delta_uj = cumulative_delta_uj;
        }
        self.previous = Some(snapshot);
        heartbeat
    }
}

/// A tick between two readings raises the registry's total by exactly the
/// energy between them, whichever processes share it, as long as the total
/// fits.
pub proof fn tick_preserves_energy(
    contents: Map<u32, u64>,
    earlier: PowerSnapshot,
    later: PowerSnapshot,
    pids: Seq<u32>,
)
    requires
        total_energy(contents) + delta_between(earlier, later) <= u64::MAX,
    ensures
        total_energy(
            charged_all(
                contents,
                split_charges(delta_between(earlier, later), ascending(pids)),
            ),
        ) == total_energy(contents) + delta_between(earlier, later),
{
    let delta_uj = delta_between(earlier, later);
    split_preserves_the_total(delta_uj, ascending(pids));
    charges_reach_the_total(contents, split_charges(delta_uj, ascending(pids)));
}

/// What a run of ticks leaves in a registry. Each reading comes with the
/// processes that share the energy since the one before.
pub open spec fn after_run(
    contents: Map<u32, u64>,
    first: PowerSnapshot,
    readings: Seq<(PowerSnapshot, Seq<u32>)>,
) -> Map<u32, u64>
    decreases readings.len(),
{
    if readings.len() == 0 {
        contents
    } else {
        charged_all(
            after_run(contents, first, readings.drop_last()),
            split_charges(
                delta_between(latest(first, readings.drop_last()), readings.last().0),
                ascending(readings.last().1),
            ),
        )
    }
}

/// The latest reading of a run.
pub open spec fn latest(
    first: PowerSnapshot,
    readings: Seq<(PowerSnapshot, Seq<u32>)>,
) -> PowerSnapshot {
    if readings.len() == 0 {
        first
    } else {
        readings.last().0
    }
}

/// The energy between the readings of a run.
pub open spec fn run_energy(
    first: PowerSnapshot,
    readings: Seq<(PowerSnapshot, Seq<u32>)>,
) -> int
    decreases readings.len(),
{
    if readings.len() == 0 {
        0
    } else {
        run_energy(first, readings.drop_last()) + delta_between(
            latest(first, readings.drop_last()),
            readings.last().0,
        )
    }
}

/// A run of any length raises the registry's total by exactly the energy between
/// its readings, whichever processes share it, as long as the total fits.
pub proof fn run_preserves_energy(
    contents: Map<u32, u64>,
    first: PowerSnapshot,
    readings: Seq<(PowerSnapshot, Seq<u32>)>,
)
    requires
        total_energy(contents) + run_energy(first, readings) <= u64::MAX,
    ensures
        total_energy(after_run(contents, first, readings)) == total_energy(contents) + run_energy(
            first,
            readings,
        ),
    decreases readings.len(),
{
    if readings.len() > 0 {
        let before = readings.drop_last();
        run_preserves_energy(contents, first, before);
        tick_preserves_energy(
            after_run(contents, first, before),
            latest(first, before),
            readings.last().0,
            readings.last().1,
        );
    }
}

/// An attribution that is queued last is charged last, with its whole energy:
/// syncing loses nothing of the queue and changes nothing of its order.
pub proof fn queued_attribution_is_charged(
    contents: Map<u32, u64>,
    queue: Seq<PidEnergyAttribution>,
    attribution: PidEnergyAttribution,
)
    ensures
        charged_all(contents, charges_of(queue.push(attribution))) == charged(
            charged_all(contents, charges_of(queue)),
            attribution.pid,
            attribution.attributed_energy_uj,
        ),
{
    assert(charges_of(queue.push(attribution)).drop_last() =~= charges_of(queue));
}

/// A plain attribution shows every field of the attribution, and plain
/// attributions stand one for one.
pub proof fn plain_attributions_show_every_field(
    attributions: Seq<PidEnergyAttribution>,
    i: int,
)
    requires
        0 <= i < attributions.len(),
    ensures
        attribution_models(attributions).len() == attributions.len(),
        attribution_models(attributions)[i].pid == attributions[i].pid,
        attribution_models(attributions)[i].window_start_ns == attributions[i].window_start_ns,
        attribution_models(attributions)[i].window_end_ns == attributions[i].window_end_ns,
        attribution_models(attributions)[i].burst_power_uw == attributions[i].burst_power_uw,
        attribution_models(attributions)[i].attributed_energy_uj
            == attributions[i].attributed_energy_uj,
        attribution_models(attributions)[i].hardware_signature
            == attributions[i].hardware_signature@,
        attribution_models(attributions)[i] == attributions[i]@,
{
}

/// Every attribution stands for one charge: its own energy, to its own process, in
/// its own place.
pub proof fn attributions_are_charged_one_for_one(
    attributions: Seq<PidEnergyAttribution>,
    i: int,
)
    requires
        0 <= i < attributions.len(),
    ensures
        charges_of(attributions).len() == attributions.len(),
        charges_of(attributions)[i].0 == attributions[i].pid,
        charges_of(attributions)[i].1 == attributions[i].attributed_energy_uj,
{
}

/// A window's start and its length make up its end; one that ends before it
/// starts has no length.
pub proof fn window_is_start_and_length(start_ns: u64, end_ns: u64)
    ensures
        start_ns <= end_ns ==> start_ns + window_length(start_ns, end_ns) == end_ns,
        start_ns > end_ns ==> window_length(start_ns, end_ns) == 0,
{
}

/// The burst model attributes to the process that it is asked about, over the
/// window that it is asked about, the whole number of micro-joules in the
/// reading's power above idle times the window, under the reading's hardware.
pub proof fn baseline_attribution_is_the_whole_part(
    pid: u32,
    window_start_ns: u64,
    window_end_ns: u64,
    snapshot: PowerSnapshot,
)
    ensures
        ({
            let attribution = baseline_attribution(pid, window_start_ns, window_end_ns, snapshot);
            let power = snapshot.active_power_uw - snapshot.idle_power_uw;
            let time = window_end_ns - window_start_ns;
            &&& attribution.pid == pid
            &&& attribution.window_start_ns == window_start_ns
            &&& attribution.window_end_ns == window_end_ns
            &&& attribution.hardware_signature == snapshot.hardware_signature@
            &&& power >= 0 ==> attribution.burst_power_uw == power
            &&& power <= 0 ==> attribution.burst_power_uw == 0
            &&& power <= 0 || time <= 0 ==> attribution.attributed_energy_uj == 0
            &&& power >= 0 && time >= 0 ==> attribution.attributed_energy_uj == window_energy(
                power as u64,
                time as u64,
            )
            &&& power >= 0 && time >= 0 && power * (time % 1_000_000_000) <= 0xffff_ffff_ffff_ffff
                && power * time < 0x1_0000_0000_0000_0000 * 1_000_000_000
                ==> attribution.attributed_energy_uj * 1_000_000_000 <= power * time < (
            attribution.attributed_energy_uj + 1) * 1_000_000_000
        }),
{
    let power = snapshot.active_power_uw - snapshot.idle_power_uw;
    let time = window_end_ns - window_start_ns;
    assert(window_energy(0, window_length(window_start_ns, window_end_ns)) == 0);
    if power > 0 && time <= 0 {
        assert(power * 0 == 0) by (nonlinear_arith);
    }
    if power >= 0 && time >= 0 && power * (time % 1_000_000_000) <= 0xffff_ffff_ffff_ffff && power
        * time < 0x1_0000_0000_0000_0000 * 1_000_000_000 {
        burst_energy_is_the_whole_part(
            snapshot.active_power_uw,
            snapshot.idle_power_uw,
            time as u64,
        );
    }
}

/// The energy between two readings is the whole number of micro-joules in the
/// later reading's power above idle times the time between them; none where the
/// power is at or below idle, or where no time has passed.
pub proof fn delta_is_the_power_above_idle_over_time(earlier: PowerSnapshot, later: PowerSnapshot)
    ensures
        ({
            let power = later.active_power_uw - later.idle_power_uw;
            let time = later.observed_at_ns - earlier.observed_at_ns;
            &&& power <= 0 || time <= 0 ==> delta_between(earlier, later) == 0
            &&& power >= 0 && time >= 0 && power * (time % 1_000_000_000) <= 0xffff_ffff_ffff_ffff
                && power * time < 0x1_0000_0000_0000_0000 * 1_000_000_000 ==> delta_between(
                earlier,
                later,
            ) * 1_000_000_000 <= power * time < (delta_between(earlier, later) + 1) * 1_000_000_000
        }),
{
    let power = later.active_power_uw - later.idle_power_uw;
    let time = later.observed_at_ns - earlier.observed_at_ns;
    let window_ns = window_length(earlier.observed_at_ns, later.observed_at_ns);
    assert(window_energy(0, window_ns) == 0);
    if power > 0 && time <= 0 {
        assert(power * 0 == 0) by (nonlinear_arith);
    }
    if power >= 0 && time >= 0 && power * (time % 1_000_000_000) <= 0xffff_ffff_ffff_ffff && power
        * time < 0x1_0000_0000_0000_0000 * 1_000_000_000 {
        burst_energy_is_the_whole_part(later.active_power_uw, later.idle_power_uw, time as u64);
    }
}

/// Whether a window is attributed or sampled, its energy is that of the power above
/// idle over its time, also where 64 bits cannot hold the products.
pub proof fn windows_and_readings_agree(
    pid: u32,
    earlier: PowerSnapshot,
    later: PowerSnapshot,
)
    requires
        later.active_power_uw >= later.idle_power_uw,
        later.observed_at_ns >= earlier.observed_at_ns,
    ensures
        delta_between(earlier, later) == window_energy(
            (later.active_power_uw - later.idle_power_uw) as u64,
            (later.observed_at_ns - earlier.observed_at_ns) as u64,
        ),
        baseline_attribution(
            pid,
            earlier.observed_at_ns,
            later.observed_at_ns,
            later,
        ).attributed_energy_uj == delta_between(earlier, later),
{
}

/// Every process that is listed gets a share, as often as it is listed, and no
/// other does; without any, all goes to process 0.
pub proof fn every_listed_process_gets_a_share(total_uj: u64, pids: Seq<u32>)
    ensures
        pids.len() == 0 ==> split_charges(total_uj, ascending(pids)) == seq![(0u32, total_uj)],
        pids.len() > 0 ==> split_charges(total_uj, ascending(pids)).map_values(
            |charge: (u32, u64)| charge.0,
        ).to_multiset() == pids.to_multiset(),
        pids.len() > 0 ==> split_charges(total_uj, ascending(pids)).len() == pids.len(),
{
    stable_sorted_is_an_ordered_permutation(pids);
    if pids.len() > 0 {
        let charges = split_charges(total_uj, ascending(pids));
        assert(charges.map_values(|charge: (u32, u64)| charge.0) =~= ascending(pids));
    }
}

/// The shares follow the listing, and the share of one of `count` processes is
/// the whole part of the energy divided by their number, or one unit more.
pub proof fn shares_follow_the_listing(total_uj: u64, pids: Seq<u32>, i: int)
    requires
        0 <= i < pids.len(),
    ensures
        split_charges(total_uj, pids).len() == pids.len(),
        split_charges(total_uj, pids)[i].0 == pids[i],
        split_charges(total_uj, pids)[i].1 * pids.len() < total_uj + pids.len(),
        total_uj < (split_charges(total_uj, pids)[i].1 + 1) * pids.len(),
        split_charges(total_uj, pids)[i].1 == share_of(total_uj, pids.len() as int, i),
{
    let count = pids.len() as int;
    let q = total_uj as int / count;
    let r = total_uj as int % count;
    lemma_share_fits(total_uj, count, i);
    lemma_fundamental_div_mod(total_uj as int, count);
    let share = share_of(total_uj, count, i) as int;
    assert(q * count == count * q && (q + 1) * count == q * count + count && (q + 2) * count == q
        * count + 2 * count) by (nonlinear_arith);
    if i < r {
        assert(share == q + 1);
    } else {
        assert(share == q);
    }
}

} // verus!
