use aegis_edge_relay::rotation::{GenerationState, RotationManager};

const MINUTE: u128 = 60 * 1_000_000_000;

#[test]
fn new_generation_is_empty() {
    let generation = GenerationState::new(7, 42);
    assert_eq!(generation.id, 7);
    assert_eq!(generation.started_at, 42);
    assert_eq!(generation.bytes, 0);
    assert_eq!(generation.active_streams, 0);
    assert!(!generation.draining);
}

#[test]
fn account_wraps_round() {
    let mut generation = GenerationState::new(1, 0);
    generation.add_bytes(5);
    generation.add_bytes(6);
    assert_eq!(generation.bytes, 11);
    generation.add_bytes(u64::MAX);
    assert_eq!(generation.bytes, 10);
}

#[test]
fn time_window_is_reached_at_its_end() {
    let manager = RotationManager::new(10 * MINUTE, 100, 0);
    let generation = GenerationState::new(1, 5);
    assert!(!manager.should_rotate(&generation, 5));
    assert!(!manager.should_rotate(&generation, 4 + 10 * MINUTE));
    assert!(manager.should_rotate(&generation, 5 + 10 * MINUTE));
    assert!(!manager.should_rotate(&generation, 0));
}

#[test]
fn data_window_is_reached_at_its_end() {
    let manager = RotationManager::new(10 * MINUTE, 100, 0);
    let mut generation = GenerationState::new(1, 0);
    generation.add_bytes(99);
    assert!(!manager.should_rotate(&generation, 0));
    generation.add_bytes(1);
    assert!(manager.should_rotate(&generation, 0));
}

#[test]
fn data_window_of_zero_stands_for_one() {
    let manager = RotationManager::new(10 * MINUTE, 0, 0);
    let mut generation = GenerationState::new(1, 0);
    assert!(!manager.should_rotate(&generation, 0));
    generation.add_bytes(1);
    assert!(manager.should_rotate(&generation, 0));
}

#[test]
fn streams_share_a_generation_until_it_is_due() {
    let mut manager = RotationManager::new(10 * MINUTE, 100, 0);
    let first = manager.acquire(1);
    assert_eq!(first.lease.generation_id(), 1);
    assert_eq!(first.rotated_from, None);
    assert_eq!(first.rotated_to, None);
    let second = manager.acquire(2);
    assert_eq!(second.lease.generation_id(), 1);
    assert_eq!(second.rotated_to, None);
}

#[test]
fn due_generation_is_replaced_for_the_next_stream() {
    let mut manager = RotationManager::new(10 * MINUTE, 100, 0);
    let old = manager.acquire(1);
    manager.add_bytes(&old.lease, 100);
    let new = manager.acquire(2);
    assert_eq!(new.rotated_from, Some(1));
    assert_eq!(new.rotated_to, Some(2));
    assert_eq!(new.lease.generation_id(), 2);
    assert!(manager.is_held(&old.lease));
    let later = manager.acquire(2 + 10 * MINUTE);
    assert_eq!(later.rotated_from, Some(2));
    assert_eq!(later.rotated_to, Some(3));
}

#[test]
fn replaced_generation_drains_with_its_last_stream() {
    let mut manager = RotationManager::new(10 * MINUTE, 100, 0);
    let a = manager.acquire(0).lease;
    let b = manager.acquire(0).lease;
    manager.add_bytes(&a, 60);
    manager.add_bytes(&b, 60);
    let c = manager.acquire(0).lease;
    assert_eq!(c.generation_id(), 2);
    assert_eq!(manager.release(a), None);
    assert!(manager.is_held(&b));
    manager.add_bytes(&b, 1000);
    assert_eq!(manager.release(b), Some(1));
    assert_eq!(manager.acquire(0).rotated_to, None);
    assert_eq!(manager.release(c), None);
}

#[test]
fn current_generation_outlives_its_streams() {
    let mut manager = RotationManager::new(10 * MINUTE, 100, 0);
    let a = manager.acquire(0).lease;
    assert_eq!(manager.release(a), None);
    let b = manager.acquire(0).lease;
    assert_eq!(b.generation_id(), 1);
}

#[test]
fn idle_generation_is_replaced_without_draining() {
    let mut manager = RotationManager::new(10 * MINUTE, 100, 0);
    let a = manager.acquire(10 * MINUTE);
    assert_eq!(a.rotated_from, Some(1));
    assert_eq!(a.rotated_to, Some(2));
    assert_eq!(manager.release(a.lease), None);
}

#[test]
fn credit_goes_to_the_generation_of_the_stream() {
    let mut manager = RotationManager::new(10 * MINUTE, 100, 0);
    let old = manager.acquire(0).lease;
    manager.add_bytes(&old, 100);
    let new = manager.acquire(0).lease;
    manager.add_bytes(&old, 500);
    assert_eq!(manager.acquire(0).rotated_to, None);
    manager.add_bytes(&new, 100);
    assert_eq!(manager.acquire(0).rotated_to, Some(3));
}

#[test]
fn many_generations_keep_their_leases() {
    let mut manager = RotationManager::new(1, 1, 0);
    let mut leases = Vec::new();
    for now in 1..=20u128 {
        let outcome = manager.acquire(now);
        assert_eq!(outcome.rotated_to, Some(now as u64 + 1));
        leases.push(outcome.lease);
    }
    for lease in &leases {
        assert!(manager.is_held(lease));
    }
    let last = leases.pop().unwrap();
    let mut drained = Vec::new();
    for lease in leases {
        drained.push(manager.release(lease));
    }
    let expected: Vec<Option<u64>> = (2..=20).map(Some).collect();
    assert_eq!(drained, expected);
    assert_eq!(manager.release(last), None);
}

#[test]
fn lease_of_another_manager_is_not_held() {
    let mut manager = RotationManager::new(10 * MINUTE, 100, 0);
    let mut other = RotationManager::new(1, 1, 0);
    let foreign = other.acquire(5).lease;
    assert!(!manager.is_held(&foreign));
    let own = manager.acquire(0).lease;
    assert!(manager.is_held(&own));
}
