//! The event decoder: recognizes the three supported log shapes by topic0,
//! extracts addresses from indexed topics and 256-bit values from the data
//! slot, and normalizes everything into a rule-ready event record.

use vstd::prelude::*;
use vstd::slice::{slice_subrange, slice_to_vec};
use vstd::string::StringExecFns;
use crate::decimal::{be_bytes_val, dec_chars};
use crate::events::{EventType, NormalizedEvent, Severity};
use crate::uint256::Uint256;

verus! {

/// A raw EVM log as the transport delivers it: up to four 32-byte indexed
/// topics and a variable-length data blob, plus its provenance.
pub struct RawLog {
    /// The emitting contract: 20 bytes.
    pub address: Vec<u8>,
    /// The indexed topics; each is 32 bytes.
    pub topics: Vec<Vec<u8>>,
    /// The unindexed data blob.
    pub data: Vec<u8>,
    /// The transaction hash: 32 bytes.
    pub tx_hash: Vec<u8>,
    pub block_number: u64,
}

impl RawLog {
    /// The fixed widths the transport guarantees.
    pub open spec fn wf(self) -> bool {
        forall|i: int| 0 <= i < self.topics@.len() ==> (#[trigger] self.topics@[i])@.len() == 32
    }
}

pub open spec fn hex_char(d: nat) -> char {
    if d == 0 {
        '0'
    } else if d == 1 {
        '1'
    } else if d == 2 {
        '2'
    } else if d == 3 {
        '3'
    } else if d == 4 {
        '4'
    } else if d == 5 {
        '5'
    } else if d == 6 {
        '6'
    } else if d == 7 {
        '7'
    } else if d == 8 {
        '8'
    } else if d == 9 {
        '9'
    } else if d == 10 {
        'a'
    } else if d == 11 {
        'b'
    } else if d == 12 {
        'c'
    } else if d == 13 {
        'd'
    } else if d == 14 {
        'e'
    } else {
        'f'
    }
}

/// Lowercase hex of a byte string, two characters per byte.
pub open spec fn hex_of_bytes(s: Seq<u8>) -> Seq<char>
    decreases s.len(),
{
    if s.len() == 0 {
        Seq::empty()
    } else {
        hex_of_bytes(s.drop_last()).push(hex_char((s.last() / 16) as nat)).push(
            hex_char((s.last() % 16) as nat),
        )
    }
}

/// The "0x"-prefixed hex rendering used for addresses and raw payloads.
pub open spec fn hex_string_view(s: Seq<u8>) -> Seq<char> {
    "0x"@ + hex_of_bytes(s)
}

fn append_hex_digit(s: &mut String, d: u8)
    requires
        d < 16,
    ensures
        final(s)@ == old(s)@.push(hex_char(d as nat)),
{
    match d {
        0 => {
            s.append("0");
            proof {
                reveal_strlit("0");
                assert(s@ =~= old(s)@.push(hex_char(0)));
            }
        },
        1 => {
            s.append("1");
            proof {
                reveal_strlit("1");
                assert(s@ =~= old(s)@.push(hex_char(1)));
            }
        },
        2 => {
            s.append("2");
            proof {
                reveal_strlit("2");
                assert(s@ =~= old(s)@.push(hex_char(2)));
            }
        },
        3 => {
            s.append("3");
            proof {
                reveal_strlit("3");
                assert(s@ =~= old(s)@.push(hex_char(3)));
            }
        },
        4 => {
            s.append("4");
            proof {
                reveal_strlit("4");
                assert(s@ =~= old(s)@.push(hex_char(4)));
            }
        },
        5 => {
            s.append("5");
            proof {
                reveal_strlit("5");
                assert(s@ =~= old(s)@.push(hex_char(5)));
            }
        },
        6 => {
            s.append("6");
            proof {
                reveal_strlit("6");
                assert(s@ =~= old(s)@.push(hex_char(6)));
            }
        },
        7 => {
            s.append("7");
            proof {
                reveal_strlit("7");
                assert(s@ =~= old(s)@.push(hex_char(7)));
            }
        },
        8 => {
            s.append("8");
            proof {
                reveal_strlit("8");
                assert(s@ =~= old(s)@.push(hex_char(8)));
            }
        },
        9 => {
            s.append("9");
            proof {
                reveal_strlit("9");
                assert(s@ =~= old(s)@.push(hex_char(9)));
            }
        },
        10 => {
            s.append("a");
            proof {
                reveal_strlit("a");
                assert(s@ =~= old(s)@.push(hex_char(10)));
            }
        },
        11 => {
            s.append("b");
            proof {
                reveal_strlit("b");
                assert(s@ =~= old(s)@.push(hex_char(11)));
            }
        },
        12 => {
            s.append("c");
            proof {
                reveal_strlit("c");
                assert(s@ =~= old(s)@.push(hex_char(12)));
            }
        },
        13 => {
            s.append("d");
            proof {
                reveal_strlit("d");
                assert(s@ =~= old(s)@.push(hex_char(13)));
            }
        },
        14 => {
            s.append("e");
            proof {
                reveal_strlit("e");
                assert(s@ =~= old(s)@.push(hex_char(14)));
            }
        },
        _ => {
            s.append("f");
            proof {
                reveal_strlit("f");
                assert(s@ =~= old(s)@.push(hex_char(d as nat)));
            }
        },
    }
}

/// Render bytes as "0x"-prefixed lowercase hex.
pub fn hex_string(bytes: &[u8]) -> (r: String)
    ensures
        r@ == hex_string_view(bytes@),
{
    let mut r = String::from_str("0x");
    let mut i: usize = 0;
    proof {
        assert(bytes@.subrange(0, 0) =~= Seq::<u8>::empty());
        assert(r@ =~= "0x"@ + hex_of_bytes(bytes@.subrange(0, 0)));
    }
    while i < bytes.len()
        invariant
            i <= bytes@.len(),
            r@ == "0x"@ + hex_of_bytes(bytes@.subrange(0, i as int)),
        decreases bytes@.len() - i,
    {
        let b = bytes[i];
        append_hex_digit(&mut r, b / 16);
        append_hex_digit(&mut r, b % 16);
        proof {
            assert(bytes@.subrange(0, i as int + 1).drop_last() =~= bytes@.subrange(0, i as int));
            assert(bytes@.subrange(0, i as int + 1).last() == bytes@[i as int]);
            assert(r@ =~= "0x"@ + hex_of_bytes(bytes@.subrange(0, i as int + 1)));
        }
        i += 1;
    }
    proof {
        assert(bytes@.subrange(0, bytes@.len() as int) =~= bytes@);
    }
    r
}

/// keccak256 of "Transfer(address,address,uint256)", the topic0 of ERC-20
/// transfers.
pub open spec fn transfer_topic0() -> Seq<u8> {
    seq![
        0xddu8, 0xf2, 0x52, 0xad, 0x1b, 0xe2, 0xc8, 0x9b, 0x69, 0xc2, 0xb0, 0x68, 0xfc, 0x37,
        0x8d, 0xaa, 0x95, 0x2b, 0xa7, 0xf1, 0x63, 0xc4, 0xa1, 0x16, 0x28, 0xf5, 0x5a, 0x4d, 0xf5,
        0x23, 0xb3, 0xef,
    ]
}

/// keccak256 of "Approval(address,address,uint256)".
pub open spec fn approval_topic0() -> Seq<u8> {
    seq![
        0x8cu8, 0x5b, 0xe1, 0xe5, 0xeb, 0xec, 0x7d, 0x5b, 0xd1, 0x4f, 0x71, 0x42, 0x7d, 0x1e,
        0x84, 0xf3, 0xdd, 0x03, 0x14, 0xc0, 0xf7, 0xb2, 0x29, 0x1e, 0x5b, 0x20, 0x0a, 0xc8, 0xc7,
        0xc3, 0xb9, 0x25,
    ]
}

/// keccak256 of "OwnershipTransferred(address,address)".
pub open spec fn ownership_topic0() -> Seq<u8> {
    seq![
        0x8bu8, 0xe0, 0x07, 0x9c, 0x53, 0x16, 0x59, 0x14, 0x13, 0x44, 0xcd, 0x1f, 0xd0, 0xa4,
        0xf2, 0x84, 0x19, 0x49, 0x7f, 0x97, 0x22, 0xa3, 0xda, 0xaf, 0xe3, 0xb4, 0x18, 0x6f, 0x6b,
        0x64, 0x57, 0xe0,
    ]
}

/// The Transfer signature hash as bytes.
pub fn transfer_topic() -> (r: Vec<u8>)
    ensures
        r@ == transfer_topic0(),
{
    let r: Vec<u8> = vec![
        0xdd, 0xf2, 0x52, 0xad, 0x1b, 0xe2, 0xc8, 0x9b, 0x69, 0xc2, 0xb0, 0x68, 0xfc, 0x37, 0x8d,
        0xaa, 0x95, 0x2b, 0xa7, 0xf1, 0x63, 0xc4, 0xa1, 0x16, 0x28, 0xf5, 0x5a, 0x4d, 0xf5, 0x23,
        0xb3, 0xef,
    ];
    proof {
        assert(r@ =~= transfer_topic0());
    }
    r
}

/// The Approval signature hash as bytes.
pub fn approval_topic() -> (r: Vec<u8>)
    ensures
        r@ == approval_topic0(),
{
    let r: Vec<u8> = vec![
        0x8c, 0x5b, 0xe1, 0xe5, 0xeb, 0xec, 0x7d, 0x5b, 0xd1, 0x4f, 0x71, 0x42, 0x7d, 0x1e, 0x84,
        0xf3, 0xdd, 0x03, 0x14, 0xc0, 0xf7, 0xb2, 0x29, 0x1e, 0x5b, 0x20, 0x0a, 0xc8, 0xc7, 0xc3,
        0xb9, 0x25,
    ];
    proof {
        assert(r@ =~= approval_topic0());
    }
    r
}

/// The OwnershipTransferred signature hash as bytes.
pub fn ownership_topic() -> (r: Vec<u8>)
    ensures
        r@ == ownership_topic0(),
{
    let r: Vec<u8> = vec![
        0x8b, 0xe0, 0x07, 0x9c, 0x53, 0x16, 0x59, 0x14, 0x13, 0x44, 0xcd, 0x1f, 0xd0, 0xa4, 0xf2,
        0x84, 0x19, 0x49, 0x7f, 0x97, 0x22, 0xa3, 0xda, 0xaf, 0xe3, 0xb4, 0x18, 0x6f, 0x6b, 0x64,
        0x57, 0xe0,
    ];
    proof {
        assert(r@ =~= ownership_topic0());
    }
    r
}

fn bytes_eq(a: &[u8], b: &[u8]) -> (r: bool)
    ensures
        r == (a@ == b@),
{
    if a.len() != b.len() {
        return false;
    }
    let mut i: usize = 0;
    while i < a.len()
        invariant
            a@.len() == b@.len(),
            i <= a@.len(),
            forall|j: int| 0 <= j < i ==> a@[j] == b@[j],
        decreases a@.len() - i,
    {
        if a[i] != b[i] {
            return false;
        }
        i += 1;
    }
    proof {
        assert(a@ =~= b@);
    }
    true
}

/// An address sits in the low 20 bytes of its 32-byte indexed topic.
pub open spec fn topic_addr(t: Seq<u8>) -> Seq<u8> {
    t.subrange(12, 32)
}

/// The payload entries expected of a decoded event, as view pairs.
pub open spec fn payload_is(data: Seq<(String, String)>, expect: Seq<(Seq<char>, Seq<char>)>) -> bool {
    data.len() == expect.len() && forall|i: int|
        0 <= i < data.len() ==> (#[trigger] data[i]).0@ == expect[i].0 && data[i].1@ == expect[i].1
}

pub open spec fn transfer_payload(topics: Seq<Vec<u8>>, data: Seq<u8>) -> Seq<(Seq<char>, Seq<char>)> {
    seq![
        ("from"@, hex_string_view(topic_addr(topics[1]@))),
        ("to"@, hex_string_view(topic_addr(topics[2]@))),
        ("value"@, dec_chars(be_bytes_val(data.subrange(0, 32)))),
    ]
}

pub open spec fn approval_payload(topics: Seq<Vec<u8>>, data: Seq<u8>) -> Seq<(Seq<char>, Seq<char>)> {
    seq![
        ("owner"@, hex_string_view(topic_addr(topics[1]@))),
        ("spender"@, hex_string_view(topic_addr(topics[2]@))),
        ("value"@, dec_chars(be_bytes_val(data.subrange(0, 32)))),
    ]
}

pub open spec fn ownership_payload(topics: Seq<Vec<u8>>) -> Seq<(Seq<char>, Seq<char>)> {
    seq![
        ("previousOwner"@, hex_string_view(topic_addr(topics[1]@))),
        ("newOwner"@, hex_string_view(topic_addr(topics[2]@))),
    ]
}

/// Provenance fields are copied through and ingress severity is Low.
pub open spec fn event_fields_ok(
    e: NormalizedEvent,
    log: RawLog,
    chain_id: u64,
    chain_name: Seq<char>,
) -> bool {
    &&& e.chain_id == chain_id
    &&& e.chain_name@ == chain_name
    &&& e.contract_address@ == log.address@
    &&& e.tx_hash@ == log.tx_hash@
    &&& e.block_number == log.block_number
    &&& e.severity == Severity::Low
}

/// What normalization returns, for every possible log. Known shapes with the
/// right topic count and enough data decode; malformed known shapes are
/// discarded; unrecognized signatures pass through as `Unknown` with the raw
/// payload preserved.
pub open spec fn spec_normalized(
    log: RawLog,
    chain_id: u64,
    chain_name: Seq<char>,
    r: Option<NormalizedEvent>,
) -> bool {
    let topics = log.topics@;
    if topics.len() == 0 {
        r is None
    } else {
        let t0 = topics[0]@;
        if t0 == transfer_topic0() {
            if topics.len() == 3 && log.data@.len() >= 32 {
                &&& r is Some
                &&& event_fields_ok(r->Some_0, log, chain_id, chain_name)
                &&& r->Some_0.event_type is Transfer
                &&& payload_is(r->Some_0.data@, transfer_payload(topics, log.data@))
            } else {
                r is None
            }
        } else if t0 == approval_topic0() {
            if topics.len() == 3 && log.data@.len() >= 32 {
                &&& r is Some
                &&& event_fields_ok(r->Some_0, log, chain_id, chain_name)
                &&& r->Some_0.event_type is Approval
                &&& payload_is(r->Some_0.data@, approval_payload(topics, log.data@))
            } else {
                r is None
            }
        } else if t0 == ownership_topic0() {
            if topics.len() == 3 {
                &&& r is Some
                &&& event_fields_ok(r->Some_0, log, chain_id, chain_name)
                &&& r->Some_0.event_type is OwnershipTransferred
                &&& payload_is(r->Some_0.data@, ownership_payload(topics))
            } else {
                r is None
            }
        } else {
            &&& r is Some
            &&& event_fields_ok(r->Some_0, log, chain_id, chain_name)
            &&& (r->Some_0.event_type matches EventType::Unknown(h) && h@ == hex_string_view(t0))
            &&& payload_is(r->Some_0.data@, seq![("data"@, hex_string_view(log.data@))])
        }
    }
}

/// Decode and normalize one raw log against a chain's identity. Malformed
/// known-shape logs yield `None` and are dropped without error; unknown
/// signatures are preserved as `Unknown` events.
pub fn normalize_log(log: &RawLog, chain_id: u64, chain_name: &str) -> (r: Option<NormalizedEvent>)
    requires
        log.wf(),
    ensures
        spec_normalized(*log, chain_id, chain_name@, r),
{
    if log.topics.len() == 0 {
        return None;
    }
    let t0 = &log.topics[0];
    let event_type: EventType;
    let mut data: Vec<(String, String)> = Vec::new();
    if bytes_eq(t0.as_slice(), transfer_topic().as_slice()) {
        if log.topics.len() != 3 || log.data.len() < 32 {
            return None;
        }
        event_type = EventType::Transfer;
        let from = hex_string(slice_subrange(log.topics[1].as_slice(), 12, 32));
        let to = hex_string(slice_subrange(log.topics[2].as_slice(), 12, 32));
        let value = Uint256::from_be_bytes(slice_subrange(log.data.as_slice(), 0, 32));
        data.push((String::from_str("from"), from));
        data.push((String::from_str("to"), to));
        data.push((String::from_str("value"), value.to_decimal()));
    } else if bytes_eq(t0.as_slice(), approval_topic().as_slice()) {
        if log.topics.len() != 3 || log.data.len() < 32 {
            return None;
        }
        event_type = EventType::Approval;
        let owner = hex_string(slice_subrange(log.topics[1].as_slice(), 12, 32));
        let spender = hex_string(slice_subrange(log.topics[2].as_slice(), 12, 32));
        let value = Uint256::from_be_bytes(slice_subrange(log.data.as_slice(), 0, 32));
        data.push((String::from_str("owner"), owner));
        data.push((String::from_str("spender"), spender));
        data.push((String::from_str("value"), value.to_decimal()));
    } else if bytes_eq(t0.as_slice(), ownership_topic().as_slice()) {
        if log.topics.len() != 3 {
            return None;
        }
        event_type = EventType::OwnershipTransferred;
        let prev = hex_string(slice_subrange(log.topics[1].as_slice(), 12, 32));
        let next = hex_string(slice_subrange(log.topics[2].as_slice(), 12, 32));
        data.push((String::from_str("previousOwner"), prev));
        data.push((String::from_str("newOwner"), next));
    } else {
        event_type = EventType::Unknown(hex_string(t0.as_slice()));
        data.push((String::from_str("data"), hex_string(log.data.as_slice())));
    }
    let event = NormalizedEvent {
        chain_id,
        chain_name: chain_name.to_owned(),
        contract_address: slice_to_vec(log.address.as_slice()),
        tx_hash: slice_to_vec(log.tx_hash.as_slice()),
        block_number: log.block_number,
        event_type,
        severity: Severity::Low,
        data,
    };
    Some(event)
}

/// Decoding a synthesized Transfer log recovers the two addresses and the
/// value exactly: the value survives its decimal-string serialization.
pub proof fn lemma_transfer_round_trip(
    log: RawLog,
    chain_id: u64,
    chain_name: Seq<char>,
    e: NormalizedEvent,
)
    requires
        spec_normalized(log, chain_id, chain_name, Some(e)),
        log.topics@.len() == 3,
        log.topics@[0]@ == transfer_topic0(),
        log.data@.len() >= 32,
    ensures
        e.event_type is Transfer,
        e.data@[0].1@ == hex_string_view(topic_addr(log.topics@[1]@)),
        e.data@[1].1@ == hex_string_view(topic_addr(log.topics@[2]@)),
        crate::decimal::is_dec_string(e.data@[2].1@),
        crate::decimal::dec_val(e.data@[2].1@) == be_bytes_val(log.data@.subrange(0, 32)),
{
    crate::decimal::lemma_dec_round_trip(be_bytes_val(log.data@.subrange(0, 32)));
}

} // verus!
