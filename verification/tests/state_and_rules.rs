use watchdog::events::{EventType, NormalizedEvent, Severity};
use watchdog::rules::{HighApprovalRule, OwnershipRule, Rule, RuleEngine, RuleKind, ThresholdRule};
use watchdog::state::AppState;
use watchdog::uint256::Uint256;

fn height_of(state: &AppState, chain: &str) -> Option<u64> {
    state
        .chain_heights
        .iter()
        .find(|(name, _)| name == chain)
        .map(|(_, h)| *h)
}

fn transfer_event(value: &str) -> NormalizedEvent {
    NormalizedEvent {
        chain_id: 1,
        chain_name: "ethereum".to_string(),
        contract_address: vec![0u8; 20],
        tx_hash: vec![0u8; 32],
        block_number: 7,
        event_type: EventType::Transfer,
        severity: Severity::Low,
        data: vec![
            ("from".to_string(), "0xaa".to_string()),
            ("to".to_string(), "0xbb".to_string()),
            ("value".to_string(), value.to_string()),
        ],
    }
}

fn event_of_kind(kind: EventType, value: &str) -> NormalizedEvent {
    let mut e = transfer_event(value);
    e.event_type = kind;
    e
}

#[test]
fn monotone_block_heights() {
    let mut state = AppState::new();
    state.update_block("ethereum", 100, 10);
    state.update_block("ethereum", 99, 11);
    assert_eq!(height_of(&state, "ethereum"), Some(100));
    assert_eq!(state.last_block_time, 11);
    state.update_block("ethereum", 101, 12);
    assert_eq!(height_of(&state, "ethereum"), Some(101));
    state.update_block("base", 5, 13);
    assert_eq!(height_of(&state, "base"), Some(5));
    assert_eq!(height_of(&state, "ethereum"), Some(101));
}

#[test]
fn severity_counts_sum_to_calls() {
    let mut state = AppState::new();
    let calls = [
        (Severity::Low, "a"),
        (Severity::High, "b"),
        (Severity::High, "b"),
        (Severity::Critical, "c"),
        (Severity::Medium, "d"),
        (Severity::High, "b"),
    ];
    for (sev, msg) in calls.iter() {
        state.add_alert(*sev, "ethereum".to_string(), msg.to_string(), 5);
    }
    let c = &state.severity_counts;
    assert_eq!(c.low + c.medium + c.high + c.critical, calls.len() as u64);
    assert_eq!(c.high, 3);
    assert_eq!(c.low, 1);
    assert_eq!(c.medium, 1);
    assert_eq!(c.critical, 1);
}

#[test]
fn history_capped_at_fifty_fifo() {
    let mut state = AppState::new();
    for i in 0..60u64 {
        state.add_alert(Severity::High, "ethereum".to_string(), format!("msg {}", i), i);
    }
    assert_eq!(state.alert_history.len(), 50);
    // FIFO eviction: the first ten records are gone.
    assert_eq!(state.alert_history[0].message, "msg 10");
    assert_eq!(state.alert_history[49].message, "msg 59");
    // Insertion order is kept.
    for (k, rec) in state.alert_history.iter().enumerate() {
        assert_eq!(rec.message, format!("msg {}", k as u64 + 10));
    }
    assert_eq!(state.severity_counts.high, 60);
}

#[test]
fn consecutive_identical_adds_coalesce() {
    let mut state = AppState::new();
    state.add_alert(Severity::High, "ethereum".to_string(), "same".to_string(), 1);
    let len_before = state.alert_history.len();
    state.add_alert(Severity::High, "ethereum".to_string(), "same".to_string(), 2);
    assert_eq!(state.alert_history.len(), len_before);
    let tail = state.alert_history.last().unwrap();
    assert_eq!(tail.count, 2);
    assert_eq!(tail.time, 2);
    // The histogram still counts both calls.
    assert_eq!(state.severity_counts.high, 2);
}

#[test]
fn different_chain_does_not_coalesce() {
    let mut state = AppState::new();
    state.add_alert(Severity::High, "ethereum".to_string(), "same".to_string(), 1);
    state.add_alert(Severity::High, "base".to_string(), "same".to_string(), 2);
    assert_eq!(state.alert_history.len(), 2);
}

#[test]
fn rule_hits_accumulate() {
    let mut state = AppState::new();
    state.record_rule_hit("threshold".to_string());
    state.record_rule_hit("threshold".to_string());
    state.record_rule_hit("ownership".to_string());
    let get = |name: &str| {
        state
            .rule_hits
            .iter()
            .find(|(k, _)| k == name)
            .map(|(_, v)| *v)
    };
    assert_eq!(get("threshold"), Some(2));
    assert_eq!(get("ownership"), Some(1));
}

#[test]
fn threshold_fires_at_exact_minimum() {
    let rule = ThresholdRule::new(Uint256::from_u64(1000), Severity::High);
    let hit = rule.check(&transfer_event("1000"));
    let (msg, sev) = hit.expect("equal value must fire");
    assert_eq!(msg, "Large Transfer Detected: 1000 > 1000");
    assert_eq!(sev, Severity::High);
}

#[test]
fn threshold_ignores_small_and_malformed_values() {
    let rule = ThresholdRule::new(Uint256::from_u64(1000), Severity::High);
    assert!(rule.check(&transfer_event("999")).is_none());
    assert!(rule.check(&transfer_event("not a number")).is_none());
    assert!(rule.check(&transfer_event("")).is_none());
    // A value beyond 256 bits fails to parse and must not fire.
    let too_big =
        "115792089237316195423570985008687907853269984665640564039457584007913129639936";
    assert!(rule.check(&transfer_event(too_big)).is_none());
    // Non-transfer events never fire.
    assert!(rule
        .check(&event_of_kind(EventType::Approval, "5000"))
        .is_none());
}

#[test]
fn threshold_message_uses_canonical_decimal() {
    let rule = ThresholdRule::new(Uint256::from_u64(10), Severity::Low);
    let (msg, _) = rule.check(&transfer_event("0042")).unwrap();
    assert_eq!(msg, "Large Transfer Detected: 42 > 10");
}

#[test]
fn ownership_rule_fires_on_every_ownership_event() {
    let rule = OwnershipRule::new(Severity::Critical);
    let hit = rule.check(&event_of_kind(EventType::OwnershipTransferred, "0"));
    let (msg, sev) = hit.unwrap();
    assert_eq!(msg, "Ownership Transferred!");
    assert_eq!(sev, Severity::Critical);
    assert!(rule.check(&transfer_event("1")).is_none());
}

#[test]
fn high_approval_rule_detects_huge_allowance() {
    // 2^255, one above the half-max default threshold.
    let two_255 =
        "57896044618658097711785492504343953926634992332820282019728792003956564819968";
    let rule = HighApprovalRule::new(Uint256::half_max(), Severity::Critical);
    let hit = rule.check(&event_of_kind(EventType::Approval, two_255));
    let (msg, sev) = hit.unwrap();
    assert_eq!(sev, Severity::Critical);
    assert!(msg.starts_with("High Approval Detected: 57896044618658097711785492504343953926634992332820282019728792003956564819968 >= "));
    assert!(rule.check(&event_of_kind(EventType::Approval, "1000")).is_none());
}

#[test]
fn engine_returns_results_in_registration_order() {
    let mut engine = RuleEngine::new();
    engine.add_rule(RuleKind::Threshold(ThresholdRule::new(
        Uint256::from_u64(100),
        Severity::High,
    )));
    engine.add_rule(RuleKind::Threshold(ThresholdRule::new(
        Uint256::from_u64(10),
        Severity::Medium,
    )));
    let results = engine.process(&transfer_event("500"));
    assert_eq!(results.len(), 2);
    assert_eq!(results[0].1, Severity::High);
    assert_eq!(results[1].1, Severity::Medium);
}

#[test]
fn engine_scenario_mixed_rules() {
    let two_255 =
        "57896044618658097711785492504343953926634992332820282019728792003956564819968";
    let mut engine = RuleEngine::new();
    engine.add_rule(RuleKind::Threshold(ThresholdRule::new(
        Uint256::from_u64(1000),
        Severity::High,
    )));
    engine.add_rule(RuleKind::Ownership(OwnershipRule::new(Severity::Critical)));
    engine.add_rule(RuleKind::HighApproval(HighApprovalRule::new(
        Uint256::from_decimal(two_255).unwrap(),
        Severity::Critical,
    )));

    // A small transfer triggers nothing.
    assert!(engine.process(&transfer_event("500")).is_empty());
    // An ownership change triggers exactly the ownership rule.
    let ownership = engine.process(&event_of_kind(EventType::OwnershipTransferred, "0"));
    assert_eq!(ownership.len(), 1);
    assert_eq!(ownership[0].1, Severity::Critical);
    assert_eq!(ownership[0].0, "Ownership Transferred!");
    // An approval of exactly 2^255 triggers exactly the approval rule.
    let approval = engine.process(&event_of_kind(EventType::Approval, two_255));
    assert_eq!(approval.len(), 1);
    assert_eq!(approval[0].1, Severity::Critical);
}

#[test]
fn severity_order_and_labels() {
    assert!(Severity::Critical.at_least(&Severity::High));
    assert!(Severity::High.at_least(&Severity::Medium));
    assert!(Severity::Medium.at_least(&Severity::Low));
    assert!(!Severity::Low.at_least(&Severity::Medium));
    assert_eq!(Severity::Low.label(), "Low");
    assert_eq!(Severity::Critical.label(), "Critical");
}
