use watchdog::decoder::{
    approval_topic, normalize_log, ownership_topic, transfer_topic, RawLog,
};
use watchdog::events::EventType;
use watchdog::events::Severity;
use watchdog::uint256::Uint256;

fn topic_for_address(addr20: &[u8; 20]) -> Vec<u8> {
    let mut t = vec![0u8; 12];
    t.extend_from_slice(addr20);
    t
}

fn value_slot(v: u64) -> Vec<u8> {
    let mut d = vec![0u8; 24];
    d.extend_from_slice(&v.to_be_bytes());
    d
}

fn payload<'a>(e: &'a watchdog::events::NormalizedEvent, key: &str) -> &'a str {
    &e.data
        .iter()
        .find(|(k, _)| k == key)
        .expect("payload key present")
        .1
}

#[test]
fn transfer_log_round_trip() {
    let from = [0xABu8; 20];
    let mut to = [0u8; 20];
    to[19] = 0x01;
    let value: u64 = 123_456_789;
    let log = RawLog {
        address: vec![0x11; 20],
        topics: vec![transfer_topic(), topic_for_address(&from), topic_for_address(&to)],
        data: value_slot(value),
        tx_hash: vec![0x22; 32],
        block_number: 42,
        };
    let event = normalize_log(&log, 5, "ethereum").expect("well-formed transfer decodes");
    assert!(matches!(event.event_type, EventType::Transfer));
    assert_eq!(event.chain_id, 5);
    assert_eq!(event.chain_name, "ethereum");
    assert_eq!(event.block_number, 42);
    assert_eq!(event.severity, Severity::Low);
    assert_eq!(event.contract_address, vec![0x11; 20]);
    assert_eq!(event.tx_hash, vec![0x22; 32]);
    assert_eq!(payload(&event, "from"), "0xabababababababababababababababababababab");
    assert_eq!(payload(&event, "to"), "0x0000000000000000000000000000000000000001");
    // The value survives decimal-string serialization exactly.
    assert_eq!(payload(&event, "value"), "123456789");
    let back = Uint256::from_decimal(payload(&event, "value")).unwrap();
    assert_eq!(back.to_decimal(), Uint256::from_u64(value).to_decimal());
}

#[test]
fn approval_and_ownership_logs_decode() {
    let owner = [0x01u8; 20];
    let spender = [0x02u8; 20];
    let log = RawLog {
        address: vec![0u8; 20],
        topics: vec![approval_topic(), topic_for_address(&owner), topic_for_address(&spender)],
        data: value_slot(7),
        tx_hash: vec![0u8; 32],
        block_number: 1,
    };
    let event = normalize_log(&log, 1, "base").unwrap();
    assert!(matches!(event.event_type, EventType::Approval));
    assert_eq!(payload(&event, "owner"), "0x0101010101010101010101010101010101010101");
    assert_eq!(payload(&event, "spender"), "0x0202020202020202020202020202020202020202");
    assert_eq!(payload(&event, "value"), "7");

    let log2 = RawLog {
        address: vec![0u8; 20],
        topics: vec![ownership_topic(), topic_for_address(&owner), topic_for_address(&spender)],
        data: Vec::new(),
        tx_hash: vec![0u8; 32],
        block_number: 2,
    };
    let event2 = normalize_log(&log2, 1, "base").unwrap();
    assert!(matches!(event2.event_type, EventType::OwnershipTransferred));
    assert_eq!(
        payload(&event2, "previousOwner"),
        "0x0101010101010101010101010101010101010101"
    );
    assert_eq!(payload(&event2, "newOwner"), "0x0202020202020202020202020202020202020202");
}

#[test]
fn malformed_logs_are_discarded() {
    let a = [0u8; 20];
    // Wrong topic count for a Transfer.
    let log = RawLog {
        address: vec![0u8; 20],
        topics: vec![transfer_topic(), topic_for_address(&a)],
        data: value_slot(1),
        tx_hash: vec![0u8; 32],
        block_number: 1,
    };
    assert!(normalize_log(&log, 1, "x").is_none());
    // Short data slot for a Transfer.
    let log2 = RawLog {
        address: vec![0u8; 20],
        topics: vec![transfer_topic(), topic_for_address(&a), topic_for_address(&a)],
        data: vec![0u8; 31],
        tx_hash: vec![0u8; 32],
        block_number: 1,
    };
    assert!(normalize_log(&log2, 1, "x").is_none());
    // No topics at all.
    let log3 = RawLog {
        address: vec![0u8; 20],
        topics: Vec::new(),
        data: Vec::new(),
        tx_hash: vec![0u8; 32],
        block_number: 1,
    };
    assert!(normalize_log(&log3, 1, "x").is_none());
}

#[test]
fn unknown_signature_passes_through() {
    let log = RawLog {
        address: vec![0u8; 20],
        topics: vec![vec![0xFEu8; 32]],
        data: vec![0xAA, 0xBB],
        tx_hash: vec![0u8; 32],
        block_number: 9,
    };
    let event = normalize_log(&log, 1, "x").expect("unknown logs still flow to the rules");
    match &event.event_type {
        EventType::Unknown(sig) => {
            assert_eq!(sig.len(), 2 + 64);
            assert!(sig.starts_with("0xfefefefe"));
        }
        other => panic!("expected Unknown, got {:?}", other),
    }
    assert_eq!(payload(&event, "data"), "0xaabb");
}

#[test]
fn uint256_parses_and_renders_canonically() {
    let v = Uint256::from_decimal("0042").unwrap();
    assert_eq!(v.to_decimal(), "42");
    assert_eq!(Uint256::from_u64(0).to_decimal(), "0");
    assert_eq!(
        Uint256::from_u64(u64::MAX).to_decimal(),
        "18446744073709551615"
    );
    assert!(Uint256::from_decimal("").is_none());
    assert!(Uint256::from_decimal("12a").is_none());
    assert!(Uint256::from_decimal("-1").is_none());
    let max =
        "115792089237316195423570985008687907853269984665640564039457584007913129639935";
    assert_eq!(Uint256::from_decimal(max).unwrap().to_decimal(), max);
    let too_big =
        "115792089237316195423570985008687907853269984665640564039457584007913129639936";
    assert!(Uint256::from_decimal(too_big).is_none());
}

#[test]
fn uint256_orders_by_value() {
    let small = Uint256::from_decimal("999").unwrap();
    let big = Uint256::from_decimal("1000").unwrap();
    assert!(big.ge(&small));
    assert!(big.ge(&big));
    assert!(!small.ge(&big));
    // Length decides before digits do.
    let long = Uint256::from_decimal("10000000000000000000000000000000000000000").unwrap();
    assert!(long.ge(&big));
    assert!(!big.ge(&long));
}

#[test]
fn half_max_is_two_to_the_255_minus_one() {
    assert_eq!(
        Uint256::half_max().to_decimal(),
        "57896044618658097711785492504343953926634992332820282019728792003956564819967"
    );
}
