use mjae::AmalgafyRegistry;

#[test]
fn registry_accumulates_per_pid_deltas() {
    let mut registry = AmalgafyRegistry::new();

    assert_eq!(registry.add_micro_joules(1024, 250), 250);
    assert_eq!(registry.add_micro_joules(1024, 750), 1_000);
    assert_eq!(registry.add_micro_joules(2048, 42), 42);

    assert_eq!(registry.get(1024), Some(1_000));
    assert_eq!(registry.get(2048), Some(42));
    assert_eq!(registry.total_micro_joules(), 1_042);
    assert_eq!(registry.len(), 2);
}

#[test]
fn registry_snapshot_is_sorted_by_pid() {
    let mut registry = AmalgafyRegistry::new();
    registry.add_micro_joules(9, 10);
    registry.add_micro_joules(1, 30);
    registry.add_micro_joules(4, 20);

    let snapshot = registry.snapshot();
    assert_eq!(snapshot, vec![(1, 30), (4, 20), (9, 10)]);
}

#[test]
fn registry_remove_returns_final_total() {
    let mut registry = AmalgafyRegistry::new();
    registry.add_micro_joules(7, 500);
    registry.add_micro_joules(7, 500);

    assert_eq!(registry.remove(7), Some(1_000));
    assert_eq!(registry.get(7), None);
    assert!(registry.is_empty());
}

#[test]
fn registry_saturates_instead_of_wrapping() {
    let mut registry = AmalgafyRegistry::new();
    registry.add_micro_joules(1, u64::MAX - 5);
    let total = registry.add_micro_joules(1, 1_000);

    assert_eq!(total, u64::MAX);
}

#[test]
fn new_registry_tracks_nothing() {
    let registry = AmalgafyRegistry::default();
    assert!(registry.is_empty());
    assert_eq!(registry.len(), 0);
    assert_eq!(registry.get(0), None);
    assert_eq!(registry.total_micro_joules(), 0);
    assert_eq!(registry.snapshot(), vec![]);
}

#[test]
fn removing_an_unknown_process_changes_nothing() {
    let mut registry = AmalgafyRegistry::new();
    registry.add_micro_joules(3, 8);
    assert_eq!(registry.remove(4), None);
    assert_eq!(registry.snapshot(), vec![(3, 8)]);
    assert!(!registry.is_empty());
}

#[test]
fn a_charge_of_nothing_still_tracks_the_process() {
    let mut registry = AmalgafyRegistry::new();
    assert_eq!(registry.add_micro_joules(5, 0), 0);
    assert_eq!(registry.get(5), Some(0));
    assert_eq!(registry.len(), 1);
}

#[test]
fn total_saturates_across_processes() {
    let mut registry = AmalgafyRegistry::new();
    registry.add_micro_joules(1, u64::MAX - 1);
    registry.add_micro_joules(2, 5);
    assert_eq!(registry.total_micro_joules(), u64::MAX);
}

#[test]
fn order_of_charges_does_not_matter() {
    let charges = [(1_u32, 5_u64), (2, 7), (1, u64::MAX), (3, 1)];
    let mut forward = AmalgafyRegistry::new();
    let mut backward = AmalgafyRegistry::new();
    for (pid, energy) in charges.iter() {
        forward.add_micro_joules(*pid, *energy);
    }
    for (pid, energy) in charges.iter().rev() {
        backward.add_micro_joules(*pid, *energy);
    }
    assert_eq!(forward.snapshot(), backward.snapshot());
    assert_eq!(forward.get(1), Some(u64::MAX));
}
