//! The registry of cumulative energy per process.

use std::sync::atomic::{AtomicU64, Ordering};

use crossbeam_skiplist::SkipMap;
use vstd::prelude::*;

use crate::attribution::saturated;

verus! {

/// `crossbeam_skiplist::SkipMap`, the ordered map behind the registry.
#[verifier::external_type_specification]
#[verifier::external_body]
#[verifier::reject_recursive_types(K)]
#[verifier::reject_recursive_types(V)]
pub struct ExSkipMap<K, V>(crossbeam_skiplist::SkipMap<K, V>);

/// What a skip map of counters holds: each key with its counter's value.
pub uninterp spec fn table_contents(table: SkipMap<u32, AtomicU64>) -> Map<u32, u64>;

/// The contents of a registry that tracks no process.
pub open spec fn nothing_tracked() -> Map<u32, u64> {
    Map::empty()
}

/// Whether `entries` lists `contents` in ascending order of the keys.
pub open spec fn lists(entries: Seq<(u32, u64)>, contents: Map<u32, u64>) -> bool {
    &&& forall|i: int, j: int|
        0 <= i < j < entries.len() ==> (#[trigger] entries[i]).0 < (#[trigger] entries[j]).0
    &&& forall|i: int|
        0 <= i < entries.len() ==> contents.contains_key((#[trigger] entries[i]).0)
            && contents[entries[i].0] == entries[i].1
    &&& forall|pid: u32| #[trigger]
        contents.contains_key(pid) ==> entries.contains((pid, contents[pid]))
}

/// `SkipMap::new`: an empty map.
#[verifier::external_body]
fn table_new() -> (table: SkipMap<u32, AtomicU64>)
    ensures
        table_contents(table) == nothing_tracked(),
{
    SkipMap::new()
}

/// `SkipMap::get`, and the counter that it finds, read with `AtomicU64::load`:
/// the value under the key, where the key is there.
#[verifier::external_body]
fn table_get(table: &SkipMap<u32, AtomicU64>, pid: u32) -> (value: Option<u64>)
    ensures
        value == if table_contents(*table).contains_key(pid) {
            Some(table_contents(*table)[pid])
        } else {
            None
        },
{
    match table.get(&pid) {
        Some(entry) => Some(entry.value().load(Ordering::Acquire)),
        None => None,
    }
}

/// `SkipMap::get_or_insert`: a key that is absent gets a counter of the given
/// value; one that is there keeps its own. The caller holds the only
/// reference to the map, so no other insertion interferes.
#[verifier::external_body]
fn table_get_or_insert(table: &mut SkipMap<u32, AtomicU64>, pid: u32, value: u64)
    ensures
        table_contents(*final(table)) == if table_contents(*old(table)).contains_key(pid) {
            table_contents(*old(table))
        } else {
            table_contents(*old(table)).insert(pid, value)
        },
{
    table.get_or_insert(pid, AtomicU64::new(value));
}

/// `AtomicU64::compare_exchange` on the counter that `SkipMap::get` finds: the
/// counter takes the new value exactly when it holds the current one; either
/// way its previous value comes back. The caller holds the only reference to
/// the map, so no other write interferes. Nothing where the key is absent.
#[verifier::external_body]
fn table_compare_exchange(
    table: &mut SkipMap<u32, AtomicU64>,
    pid: u32,
    current: u64,
    new: u64,
) -> (previous: Option<Result<u64, u64>>)
    ensures
        previous is None <==> !table_contents(*old(table)).contains_key(pid),
        previous matches Some(Ok(value)) ==> value == current && table_contents(*old(table))[pid]
            == current && table_contents(*final(table)) == table_contents(*old(table)).insert(
            pid,
            new,
        ),
        previous matches Some(Err(value)) ==> value != current && table_contents(*old(table))[pid]
            == value && table_contents(*final(table)) == table_contents(*old(table)),
        previous is None ==> table_contents(*final(table)) == table_contents(*old(table)),
{
    match table.get(&pid) {
        Some(entry) => Some(
            entry.value().compare_exchange(current, new, Ordering::AcqRel, Ordering::Acquire),
        ),
        None => None,
    }
}

/// `SkipMap::remove`, and the counter of the entry that it took out: the value
/// that stood under the key, where the key was there.
#[verifier::external_body]
fn table_remove(table: &mut SkipMap<u32, AtomicU64>, pid: u32) -> (value: Option<u64>)
    ensures
        value == if table_contents(*old(table)).contains_key(pid) {
            Some(table_contents(*old(table))[pid])
        } else {
            None
        },
        table_contents(*final(table)) == table_contents(*old(table)).remove(pid),
{
    match table.remove(&pid) {
        Some(entry) => Some(entry.value().load(Ordering::Acquire)),
        None => None,
    }
}

/// `SkipMap::len`: the number of keys. The caller's reference keeps every
/// writer out, so the count is exact.
#[verifier::external_body]
fn table_len(table: &SkipMap<u32, AtomicU64>) -> (count: usize)
    ensures
        count == table_contents(*table).dom().len(),
{
    table.len()
}

/// `SkipMap::is_empty`: whether there is no key.
#[verifier::external_body]
fn table_is_empty(table: &SkipMap<u32, AtomicU64>) -> (empty: bool)
    ensures
        empty <==> table_contents(*table) == nothing_tracked(),
{
    table.is_empty()
}

/// `SkipMap::iter`, each entry as its key and its counter's value: every key
/// once, in ascending order.
#[verifier::external_body]
fn table_entries(table: &SkipMap<u32, AtomicU64>) -> (entries: Vec<(u32, u64)>)
    ensures
        lists(entries@, table_contents(*table)),
{
    table.iter().map(|entry| (*entry.key(), entry.value().load(Ordering::Acquire))).collect()
}

/// The energy that stands against a process; none where it is not tracked.
pub open spec fn balance(contents: Map<u32, u64>, pid: u32) -> u64 {
    if contents.contains_key(pid) {
        contents[pid]
    } else {
        0
    }
}

/// A registry after `delta_uj` was charged to `pid`.
pub open spec fn charged(contents: Map<u32, u64>, pid: u32, delta_uj: u64) -> Map<u32, u64> {
    contents.insert(pid, saturated(balance(contents, pid) + delta_uj))
}

/// A registry after a sequence of charges, each a process and its energy.
pub open spec fn charged_all(contents: Map<u32, u64>, charges: Seq<(u32, u64)>) -> Map<u32, u64>
    decreases charges.len(),
{
    if charges.len() == 0 {
        contents
    } else {
        charged(
            charged_all(contents, charges.drop_last()),
            charges.last().0,
            charges.last().1,
        )
    }
}

/// The energy of a sequence of charges.
pub open spec fn total_charge(charges: Seq<(u32, u64)>) -> int
    decreases charges.len(),
{
    if charges.len() == 0 {
        0
    } else {
        total_charge(charges.drop_last()) + charges.last().1
    }
}

/// One more than the largest process identifier.
pub open spec fn pid_bound() -> int {
    0x1_0000_0000
}

/// The energy that stands against the processes below `bound`.
pub open spec fn total_below(contents: Map<u32, u64>, bound: int) -> int
    decreases bound,
{
    if bound <= 0 {
        0
    } else {
        total_below(contents, bound - 1) + balance(contents, (bound - 1) as u32)
    }
}

/// The energy that stands against all processes.
pub open spec fn total_energy(contents: Map<u32, u64>) -> int {
    total_below(contents, pid_bound())
}

/// The ordered registry of cumulative micro-joules per process. Charges take an
/// exclusive reference, so that what they do can be told from the registry before
/// and after; what callers do that share one through a lock is the same in
/// whichever order they come, see [`charges_can_come_in_any_order`].
#[derive(Debug)]
pub struct AmalgafyRegistry {
    table: SkipMap<u32, AtomicU64>,
}

impl View for AmalgafyRegistry {
    type V = Map<u32, u64>;

    closed spec fn view(&self) -> Map<u32, u64> {
        table_contents(self.table)
    }
}

/// Adds to a counter that is there, up to the largest `u64`.
fn saturating_add(table: &mut SkipMap<u32, AtomicU64>, pid: u32, delta_uj: u64) -> (total: u64)
    requires
        table_contents(*old(table)).contains_key(pid),
    ensures
        total == saturated(table_contents(*old(table))[pid] + delta_uj),
        table_contents(*final(table)) == table_contents(*old(table)).insert(pid, total),
{
    let current: u64 = table_get(table, pid).unwrap();
    let next: u64 = saturating_add_value(current, delta_uj);
    let _ = table_compare_exchange(table, pid, current, next);
    next
}

fn saturating_add_value(lhs: u64, rhs: u64) -> (sum: u64)
    ensures
        sum == saturated(lhs + rhs),
{
    lhs.saturating_add(rhs)
}

impl AmalgafyRegistry {
    /// An empty registry.
    pub fn new() -> (registry: Self)
        ensures
            registry@ == nothing_tracked(),
    {
        AmalgafyRegistry { table: table_new() }
    }

    /// Accumulates `delta_uj` under `pid` and gives back the new total of the
    /// process. Saturates at the largest `u64`.
    pub fn add_micro_joules(&mut self, pid: u32, delta_uj: u64) -> (total: u64)
        ensures
            total == saturated(balance(old(self)@, pid) + delta_uj),
            final(self)@ == charged(old(self)@, pid, delta_uj),
    {
        if table_get(&self.table, pid).is_none() {
            table_get_or_insert(&mut self.table, pid, 0);
        }
        let total: u64 = saturating_add(&mut self.table, pid, delta_uj);
        assert(self@ =~= charged(old(self)@, pid, delta_uj));
        total
    }

    /// The cumulative energy of a process, if it is tracked.
    pub fn get(&self, pid: u32) -> (total: Option<u64>)
        ensures
            total == if self@.contains_key(pid) {
                Some(self@[pid])
            } else {
                None
            },
    {
        table_get(&self.table, pid)
    }

    /// Stops tracking a process and gives back its final total.
    pub fn remove(&mut self, pid: u32) -> (total: Option<u64>)
        ensures
            total == if old(self)@.contains_key(pid) {
                Some(old(self)@[pid])
            } else {
                None
            },
            final(self)@ == old(self)@.remove(pid),
    {
        table_remove(&mut self.table, pid)
    }

    /// The number of tracked processes.
    pub fn len(&self) -> (count: usize)
        ensures
            self@.dom().finite(),
            count == self@.dom().len(),
    {
        proof {
            lemma_pids_are_finite(self@.dom());
        }
        table_len(&self.table)
    }

    /// Whether no process is tracked.
    pub fn is_empty(&self) -> (empty: bool)
        ensures
            empty <==> self@ == nothing_tracked(),
    {
        table_is_empty(&self.table)
    }

    /// The sum over all tracked processes, saturating at the largest `u64`.
    pub fn total_micro_joules(&self) -> (total: u64)
        ensures
            total == saturated(total_energy(self@)),
    {
        let entries = table_entries(&self.table);
        let mut total: u64 = 0;
        let mut i: usize = 0;
        while i < entries.len()
            invariant
                i <= entries.len(),
                total == saturated(total_charge(entries@.take(i as int))),
                total_charge(entries@.take(i as int)) >= 0,
            decreases entries.len() - i,
        {
            assert(entries@.take(i + 1).drop_last() =~= entries@.take(i as int));
            total = saturating_add_value(total, entries[i].1);
            i += 1;
        }
        proof {
            assert(entries@.take(i as int) =~= entries@);
            lemma_listing_sums_to_total(entries@, self@, entries.len() as int);
        }
        total
    }

    /// The processes and their totals, in ascending order of the process.
    pub fn snapshot(&self) -> (entries: Vec<(u32, u64)>)
        ensures
            lists(entries@, self@),
    {
        table_entries(&self.table)
    }
}

impl Default for AmalgafyRegistry {
    fn default() -> (registry: Self)
        ensures
            registry@ == nothing_tracked(),
    {
        AmalgafyRegistry::new()
    }
}

proof fn lemma_pids_below_are_finite(pids: Set<u32>, bound: int)
    requires
        0 <= bound <= pid_bound(),
        forall|pid: u32| pids.contains(pid) ==> pid < bound,
    ensures
        pids.finite(),
    decreases bound,
{
    if bound == 0 {
        assert(pids =~= Set::empty());
    } else {
        let top = (bound - 1) as u32;
        lemma_pids_below_are_finite(pids.remove(top), bound - 1);
        if pids.contains(top) {
            assert(pids =~= pids.remove(top).insert(top));
        } else {
            assert(pids =~= pids.remove(top));
        }
    }
}

/// There are finitely many process identifiers.
proof fn lemma_pids_are_finite(pids: Set<u32>)
    ensures
        pids.finite(),
{
    lemma_pids_below_are_finite(pids, pid_bound());
}

proof fn lemma_gap_adds_nothing(contents: Map<u32, u64>, low: int, high: int)
    requires
        0 <= low <= high <= pid_bound(),
        forall|pid: u32| low <= pid < high ==> !contents.contains_key(pid),
    ensures
        total_below(contents, high) == total_below(contents, low),
    decreases high - low,
{
    if low < high {
        assert(!contents.contains_key((high - 1) as u32));
        lemma_gap_adds_nothing(contents, low, high - 1);
    }
}

/// A listing of a registry sums to the registry's total.
proof fn lemma_listing_sums_to_total(entries: Seq<(u32, u64)>, contents: Map<u32, u64>, upto: int)
    requires
        lists(entries, contents),
        0 <= upto <= entries.len(),
    ensures
        total_charge(entries.take(upto)) == total_below(
            contents,
            if upto < entries.len() {
                entries[upto].0 as int
            } else {
                pid_bound()
            },
        ),
        upto == entries.len() ==> entries.take(upto) == entries,
    decreases upto,
{
    let bound = if upto < entries.len() {
        entries[upto].0 as int
    } else {
        pid_bound()
    };
    if upto == entries.len() {
        assert(entries.take(upto) =~= entries);
    }
    if upto == 0 {
        assert forall|pid: u32| 0 <= pid < bound implies !contents.contains_key(pid) by {
            if contents.contains_key(pid) {
                assert(entries.contains((pid, contents[pid])));
                let i = choose|i: int| 0 <= i < entries.len() && entries[i] == (pid, contents[pid]);
                assert(i == 0 || entries[0].0 < entries[i].0);
            }
        }
        lemma_gap_adds_nothing(contents, 0, bound);
    } else {
        let last = entries[upto - 1];
        lemma_listing_sums_to_total(entries, contents, upto - 1);
        assert(entries.take(upto).drop_last() =~= entries.take(upto - 1));
        assert forall|pid: u32| last.0 + 1 <= pid < bound implies !contents.contains_key(pid) by {
            if contents.contains_key(pid) {
                assert(entries.contains((pid, contents[pid])));
                let i = choose|i: int| 0 <= i < entries.len() && entries[i] == (pid, contents[pid]);
                if i < upto - 1 {
                    assert(entries[i].0 < entries[upto - 1].0);
                } else if i > upto {
                    assert(entries[upto].0 < entries[i].0);
                }
            }
        }
        if upto < entries.len() {
            assert(entries[upto - 1].0 < entries[upto].0);
        }
        lemma_gap_adds_nothing(contents, last.0 + 1, bound);
        assert(total_below(contents, last.0 + 1) == total_below(contents, last.0 as int) + balance(
            contents,
            last.0,
        ));
    }
}

proof fn lemma_total_below_bounds(contents: Map<u32, u64>, bound: int)
    ensures
        total_below(contents, bound) >= 0,
        forall|pid: u32|
            pid < bound <= pid_bound() ==> #[trigger] balance(contents, pid) <= total_below(
                contents,
                bound,
            ),
    decreases bound,
{
    if bound > 0 {
        lemma_total_below_bounds(contents, bound - 1);
        assert forall|pid: u32| pid < bound <= pid_bound() implies #[trigger] balance(contents, pid)
            <= total_below(contents, bound) by {
            assert(pid < bound - 1 || pid == (bound - 1) as u32);
        }
    }
}

proof fn lemma_total_after_insert(contents: Map<u32, u64>, pid: u32, value: u64, bound: int)
    requires
        bound <= pid_bound(),
    ensures
        total_below(contents.insert(pid, value), bound) == total_below(contents, bound) + if pid
            < bound {
            value - balance(contents, pid)
        } else {
            0
        },
    decreases bound,
{
    if bound > 0 {
        lemma_total_after_insert(contents, pid, value, bound - 1);
    }
}

/// A charge reaches the total whole, unless the process's counter is full.
pub proof fn charge_reaches_the_total(contents: Map<u32, u64>, pid: u32, delta_uj: u64)
    requires
        balance(contents, pid) + delta_uj <= u64::MAX,
    ensures
        total_energy(charged(contents, pid, delta_uj)) == total_energy(contents) + delta_uj,
{
    lemma_total_after_insert(
        contents,
        pid,
        saturated(balance(contents, pid) + delta_uj),
        pid_bound(),
    );
}

/// A sequence of charges reaches the total whole, as long as the total fits.
pub proof fn charges_reach_the_total(contents: Map<u32, u64>, charges: Seq<(u32, u64)>)
    requires
        total_energy(contents) + total_charge(charges) <= u64::MAX,
    ensures
        total_energy(charged_all(contents, charges)) == total_energy(contents) + total_charge(
            charges,
        ),
        total_charge(charges) >= 0,
    decreases charges.len(),
{
    if charges.len() > 0 {
        lemma_total_charge_is_not_negative(charges.drop_last());
        charges_reach_the_total(contents, charges.drop_last());
        let before = charged_all(contents, charges.drop_last());
        lemma_total_below_bounds(before, pid_bound());
        assert(balance(before, charges.last().0) <= total_energy(before));
        charge_reaches_the_total(before, charges.last().0, charges.last().1);
    }
}

proof fn lemma_total_charge_is_not_negative(charges: Seq<(u32, u64)>)
    ensures
        total_charge(charges) >= 0,
    decreases charges.len(),
{
    if charges.len() > 0 {
        lemma_total_charge_is_not_negative(charges.drop_last());
    }
}

/// The order of two charges does not matter, full counters included.
pub proof fn charges_commute(
    contents: Map<u32, u64>,
    first_pid: u32,
    first_uj: u64,
    second_pid: u32,
    second_uj: u64,
)
    ensures
        charged(charged(contents, first_pid, first_uj), second_pid, second_uj) == charged(
            charged(contents, second_pid, second_uj),
            first_pid,
            first_uj,
        ),
{
    assert(charged(charged(contents, first_pid, first_uj), second_pid, second_uj) =~= charged(
        charged(contents, second_pid, second_uj),
        first_pid,
        first_uj,
    ));
}

proof fn lemma_any_charge_can_come_last(
    contents: Map<u32, u64>,
    charges: Seq<(u32, u64)>,
    index: int,
)
    requires
        0 <= index < charges.len(),
    ensures
        charged_all(contents, charges) == charged(
            charged_all(contents, charges.remove(index)),
            charges[index].0,
            charges[index].1,
        ),
    decreases charges.len(),
{
    let last = charges.last();
    let chosen = charges[index];
    let rest = charges.remove(index);
    if index == charges.len() - 1 {
        assert(rest =~= charges.drop_last());
    } else {
        let shorter = charges.drop_last();
        lemma_any_charge_can_come_last(contents, shorter, index);
        assert(rest.drop_last() =~= shorter.remove(index));
        assert(rest.last() == last);
        charges_commute(
            charged_all(contents, shorter.remove(index)),
            chosen.0,
            chosen.1,
            last.0,
            last.1,
        );
    }
}

/// The order of any number of charges does not matter: whichever way providers
/// interleave, no charge is lost.
pub proof fn charges_can_come_in_any_order(
    contents: Map<u32, u64>,
    first: Seq<(u32, u64)>,
    second: Seq<(u32, u64)>,
)
    requires
        first.to_multiset() == second.to_multiset(),
    ensures
        charged_all(contents, first) == charged_all(contents, second),
    decreases first.len(),
{
    broadcast use vstd::seq_lib::group_to_multiset_ensures;

    assert(first.to_multiset().len() == first.len() && second.to_multiset().len() == second.len());
    if first.len() > 0 {
        let last = first.last();
        assert(first.contains(last));
        assert(second.to_multiset().count(last) > 0);
        assert(second.contains(last));
        let index = choose|index: int| 0 <= index < second.len() && second[index] == last;
        assert(first =~= first.drop_last().push(last));
        assert(first.drop_last().to_multiset() =~= first.to_multiset().remove(last));
        assert(second.remove(index).to_multiset() =~= second.to_multiset().remove(last));
        charges_can_come_in_any_order(contents, first.drop_last(), second.remove(index));
        lemma_any_charge_can_come_last(contents, second, index);
    }
}

/// A charge lowers no process's energy, and touches no other process.
pub proof fn charge_only_raises_its_process(
    contents: Map<u32, u64>,
    pid: u32,
    delta_uj: u64,
    other: u32,
)
    ensures
        balance(charged(contents, pid, delta_uj), pid) >= balance(contents, pid),
        other != pid ==> balance(charged(contents, pid, delta_uj), other) == balance(
            contents,
            other,
        ),
        other != pid ==> (charged(contents, pid, delta_uj).contains_key(other)
            <==> contents.contains_key(other)),
{
}

/// Two listings of one registry are equal: its contents fix the snapshot.
pub proof fn listing_is_unique(
    first: Seq<(u32, u64)>,
    second: Seq<(u32, u64)>,
    contents: Map<u32, u64>,
)
    requires
        lists(first, contents),
        lists(second, contents),
    ensures
        first == second,
    decreases first.len(),
{
    if first.len() == 0 {
        if second.len() > 0 {
            assert(contents.contains_key(second[0].0));
        }
        assert(first =~= second);
    } else {
        let last = first.last();
        assert(contents.contains_key(first[first.len() - 1].0));
        assert(second.contains((last.0, contents[last.0])));
        let i = choose|i: int|
            0 <= i < second.len() && second[i] == (last.0, contents[last.0]);
        assert(second[i] == last);
        if i < second.len() - 1 {
            let beyond = second[second.len() - 1];
            assert(second[i].0 < second[second.len() - 1].0);
            assert(contents.contains_key(beyond.0));
            assert(first.contains((beyond.0, contents[beyond.0])));
            let j = choose|j: int|
                0 <= j < first.len() && first[j] == (beyond.0, contents[beyond.0]);
            assert(j == first.len() - 1 || first[j].0 < first[first.len() - 1].0);
        }
        let rest = contents.remove(last.0);
        lemma_listing_without_last(first, contents);
        lemma_listing_without_last(second, contents);
        listing_is_unique(first.drop_last(), second.drop_last(), rest);
        assert(first =~= first.drop_last().push(last));
        assert(second =~= second.drop_last().push(last));
    }
}

proof fn lemma_listing_without_last(entries: Seq<(u32, u64)>, contents: Map<u32, u64>)
    requires
        lists(entries, contents),
        entries.len() > 0,
    ensures
        lists(entries.drop_last(), contents.remove(entries.last().0)),
{
    let rest = contents.remove(entries.last().0);
    let shorter = entries.drop_last();
    assert forall|pid: u32| #[trigger] rest.contains_key(pid) implies shorter.contains(
        (pid, rest[pid]),
    ) by {
        assert(contents.contains_key(pid));
        assert(entries.contains((pid, contents[pid])));
        let i = choose|i: int| 0 <= i < entries.len() && entries[i] == (pid, contents[pid]);
        assert(shorter[i] == (pid, rest[pid]));
    }
    assert forall|i: int| 0 <= i < shorter.len() implies rest.contains_key(
        (#[trigger] shorter[i]).0,
    ) && rest[shorter[i].0] == shorter[i].1 by {
        assert(shorter[i] == entries[i]);
        assert(entries[i].0 < entries[entries.len() - 1].0);
    }
}

/// A charge adds its energy to what its process held, as far as 64 bits can hold
/// the sum; every other process is as it was.
pub proof fn charge_adds_to_its_process(
    contents: Map<u32, u64>,
    pid: u32,
    delta_uj: u64,
    other: u32,
)
    ensures
        charged(contents, pid, delta_uj).contains_key(pid),
        contents.contains_key(pid) && contents[pid] + delta_uj <= 0xffff_ffff_ffff_ffff ==> charged(
            contents,
            pid,
            delta_uj,
        )[pid] == contents[pid] + delta_uj,
        contents.contains_key(pid) && contents[pid] + delta_uj > 0xffff_ffff_ffff_ffff ==> charged(
            contents,
            pid,
            delta_uj,
        )[pid] == 0xffff_ffff_ffff_ffffu64,
        !contents.contains_key(pid) ==> charged(contents, pid, delta_uj)[pid] == delta_uj,
        other != pid ==> (charged(contents, pid, delta_uj).contains_key(other)
            <==> contents.contains_key(other)),
        other != pid && contents.contains_key(other) ==> charged(contents, pid, delta_uj)[other]
            == contents[other],
{
}

/// The energy of those charges that go to one process.
pub open spec fn charged_to(charges: Seq<(u32, u64)>, pid: u32) -> int
    decreases charges.len(),
{
    if charges.len() == 0 {
        0
    } else if charges.last().0 == pid {
        charged_to(charges.drop_last(), pid) + charges.last().1
    } else {
        charged_to(charges.drop_last(), pid)
    }
}

/// Whether any of the charges goes to a process.
pub open spec fn is_charged(charges: Seq<(u32, u64)>, pid: u32) -> bool {
    exists|i: int| 0 <= i < charges.len() && (#[trigger] charges[i]).0 == pid
}

/// After any number of charges each process holds what it held before and all
/// that was charged to it, as far as 64 bits can hold the sum; and the processes
/// that are tracked are those that were and those that were charged.
pub proof fn charges_add_up(contents: Map<u32, u64>, charges: Seq<(u32, u64)>, pid: u32)
    ensures
        charged_to(charges, pid) >= 0,
        charged_all(contents, charges).contains_key(pid) <==> contents.contains_key(pid)
            || is_charged(charges, pid),
        contents.contains_key(pid) && contents[pid] + charged_to(charges, pid)
            <= 0xffff_ffff_ffff_ffff ==> charged_all(contents, charges)[pid] == contents[pid]
            + charged_to(charges, pid),
        contents.contains_key(pid) && contents[pid] + charged_to(charges, pid)
            > 0xffff_ffff_ffff_ffff ==> charged_all(contents, charges)[pid]
            == 0xffff_ffff_ffff_ffffu64,
        !contents.contains_key(pid) && is_charged(charges, pid) && charged_to(charges, pid)
            <= 0xffff_ffff_ffff_ffff ==> charged_all(contents, charges)[pid] == charged_to(
            charges,
            pid,
        ),
        !contents.contains_key(pid) && charged_to(charges, pid) > 0xffff_ffff_ffff_ffff
            ==> charged_all(contents, charges)[pid] == 0xffff_ffff_ffff_ffffu64,
        !is_charged(charges, pid) ==> charged_to(charges, pid) == 0,
    decreases charges.len(),
{
    if charges.len() > 0 {
        let rest = charges.drop_last();
        charges_add_up(contents, rest, pid);
        assert(charges[charges.len() - 1] == charges.last());
        if is_charged(rest, pid) {
            let i = choose|i: int| 0 <= i < rest.len() && (#[trigger] rest[i]).0 == pid;
            assert(charges[i] == rest[i]);
        }
        if is_charged(charges, pid) && charges.last().0 != pid {
            let i = choose|i: int| 0 <= i < charges.len() && (#[trigger] charges[i]).0 == pid;
            assert(rest[i] == charges[i]);
        }
    }
}

/// No charges have no energy, and a further charge adds its own.
pub proof fn charges_sum_up(charges: Seq<(u32, u64)>, pid: u32, delta_uj: u64)
    ensures
        total_charge(Seq::<(u32, u64)>::empty()) == 0,
        total_charge(charges.push((pid, delta_uj))) == total_charge(charges) + delta_uj,
{
    assert(charges.push((pid, delta_uj)).drop_last() =~= charges);
}

/// A registry that tracks no process holds no energy, and the energy of a registry
/// is the sum over its listing.
pub proof fn total_is_the_sum_of_the_listing(entries: Seq<(u32, u64)>, contents: Map<u32, u64>)
    requires
        lists(entries, contents),
    ensures
        total_energy(contents) == total_charge(entries),
        total_energy(Map::<u32, u64>::empty()) == 0,
        nothing_tracked() == Map::<u32, u64>::empty(),
{
    lemma_listing_sums_to_total(entries, contents, entries.len() as int);
    assert(entries.take(entries.len() as int) =~= entries);
    lemma_gap_adds_nothing(Map::empty(), 0, pid_bound());
}

/// A listing names each process once, in ascending order, with what it holds, and
/// leaves no process out.
pub proof fn listing_is_complete(entries: Seq<(u32, u64)>, contents: Map<u32, u64>)
    requires
        lists(entries, contents),
    ensures
        forall|i: int, j: int|
            0 <= i < j < entries.len() ==> (#[trigger] entries[i]).0 < (#[trigger] entries[j]).0,
        forall|i: int|
            0 <= i < entries.len() ==> contents.contains_key((#[trigger] entries[i]).0)
                && contents[entries[i].0] == entries[i].1,
        forall|pid: u32| #[trigger]
            contents.contains_key(pid) ==> exists|i: int|
                0 <= i < entries.len() && (#[trigger] entries[i]).0 == pid,
{
    assert forall|pid: u32| #[trigger] contents.contains_key(pid) implies exists|i: int|
        0 <= i < entries.len() && (#[trigger] entries[i]).0 == pid by {
        assert(entries.contains((pid, contents[pid])));
        let i = choose|i: int| 0 <= i < entries.len() && entries[i] == (pid, contents[pid]);
        assert(entries[i].0 == pid);
    }
}

} // verus!
