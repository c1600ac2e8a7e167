use world_tree::bridge::{on_relay_failed, BridgeAction, BridgeError, StateBridge};
use world_tree::retry::{ClientError, CustomRetryPolicy, RetryBudget};
use world_tree::hash::Field;

#[test]
fn first_root_is_checked_downstream() {
    let b = StateBridge::new(5_000);
    assert_eq!(b.next_action(Field::from_u64(0x222), 0), BridgeAction::CheckDownstream);
}

#[test]
fn relayed_root_is_skipped() {
    let mut b = StateBridge::new(5_000);
    let root = Field::from_u64(0x1231_2321_321);
    assert!(b.on_downstream_root(root, Field::from_u64(0x222)));
    assert!(b.record_relay(root, 1_000));
    assert_eq!(b.next_action(root, 20_000), BridgeAction::Skip);
}

#[test]
fn relays_wait_out_the_period() {
    let mut b = StateBridge::new(5_000);
    assert!(b.record_relay(Field::from_u64(1), 1_000));
    assert_eq!(b.next_action(Field::from_u64(2), 3_000), BridgeAction::Wait(3_000));
    assert!(!b.record_relay(Field::from_u64(2), 3_000));
    assert_eq!(b.last_relayed_root, Some(Field::from_u64(1)));
    assert_eq!(b.next_action(Field::from_u64(2), 6_000), BridgeAction::CheckDownstream);
    assert!(b.record_relay(Field::from_u64(2), 6_000));
    assert_eq!(b.last_relay_instant, Some(6_000));
}

#[test]
fn downstream_already_current_is_recorded_without_relay() {
    let mut b = StateBridge::new(5_000);
    let root = Field::from_u64(0x222);
    assert!(!b.on_downstream_root(root, root));
    assert_eq!(b.last_relayed_root, Some(root));
    assert_eq!(b.last_relay_instant, None);
    assert_eq!(b.next_action(root, 0), BridgeAction::Skip);
}

#[test]
fn relay_failures_retry_then_fail() {
    let policy = CustomRetryPolicy::new();
    let mut budget = RetryBudget::new(1, 0, 250);
    let limited = ClientError::Transport { status: Some(429), timed_out: false };
    assert_eq!(on_relay_failed(&mut budget, &policy, &limited), Ok(250));
    assert_eq!(on_relay_failed(&mut budget, &policy, &limited), Err(BridgeError::BridgeRelayFailed));
    let fatal = ClientError::Transport { status: Some(400), timed_out: false };
    let mut fresh = RetryBudget::new(3, 3, 250);
    assert_eq!(on_relay_failed(&mut fresh, &policy, &fatal), Err(BridgeError::BridgeRelayFailed));
}
