//! The event model: severities, event kinds, and the normalized event record
//! that flows from the chain subscribers to the rule engine.

use vstd::prelude::*;
use vstd::string::StringExecFns;

verus! {

/// Alert severity, totally ordered: Low < Medium < High < Critical.
#[derive(Clone, Copy, Debug, PartialEq, Eq, Structural)]
pub enum Severity {
    Low,
    Medium,
    High,
    Critical,
}

impl Severity {
    /// Position in the severity order.
    pub open spec fn spec_rank(self) -> int {
        match self {
            Severity::Low => 0,
            Severity::Medium => 1,
            Severity::High => 2,
            Severity::Critical => 3,
        }
    }

    pub fn rank(&self) -> (r: u8)
        ensures
            r == self.spec_rank(),
    {
        match self {
            Severity::Low => 0,
            Severity::Medium => 1,
            Severity::High => 2,
            Severity::Critical => 3,
        }
    }

    /// The order on severities.
    pub fn at_least(&self, other: &Severity) -> (r: bool)
        ensures
            r == (self.spec_rank() >= other.spec_rank()),
    {
        self.rank() >= other.rank()
    }

    pub open spec fn spec_label(self) -> Seq<char> {
        match self {
            Severity::Low => "Low"@,
            Severity::Medium => "Medium"@,
            Severity::High => "High"@,
            Severity::Critical => "Critical"@,
        }
    }

    /// The display name, as it appears in alert keys and outbound posts.
    pub fn label(&self) -> (r: String)
        ensures
            r@ == self.spec_label(),
    {
        match self {
            Severity::Low => String::from_str("Low"),
            Severity::Medium => String::from_str("Medium"),
            Severity::High => String::from_str("High"),
            Severity::Critical => String::from_str("Critical"),
        }
    }
}

/// The recognized event shapes; anything else is carried as `Unknown` with
/// the hex form of its topic0.
#[derive(Clone, Debug)]
pub enum EventType {
    Transfer,
    OwnershipTransferred,
    Approval,
    Unknown(String),
}

/// A decoded, rule-ready event record.
#[derive(Clone, Debug)]
pub struct NormalizedEvent {
    pub chain_id: u64,
    pub chain_name: String,
    /// The originating contract address: 20 bytes.
    pub contract_address: Vec<u8>,
    /// The transaction hash: 32 bytes.
    pub tx_hash: Vec<u8>,
    pub block_number: u64,
    pub event_type: EventType,
    pub severity: Severity,
    /// Semi-structured payload: string keys to string-encoded values
    /// (decimal for 256-bit integers, hex for addresses).
    pub data: Vec<(String, String)>,
}

/// The first value stored under `key`, if any.
pub open spec fn spec_payload_get(data: Seq<(String, String)>, key: Seq<char>) -> Option<Seq<char>>
    decreases data.len(),
{
    if data.len() == 0 {
        None
    } else if data[0].0@ == key {
        Some(data[0].1@)
    } else {
        spec_payload_get(data.drop_first(), key)
    }
}

/// Look a key up in an event payload.
pub fn payload_get<'a>(data: &'a Vec<(String, String)>, key: &str) -> (r: Option<&'a String>)
    ensures
        match r {
            Some(v) => spec_payload_get(data@, key@) == Some(v@),
            None => spec_payload_get(data@, key@) is None,
        },
{
    let mut i: usize = 0;
    proof {
        assert(data@.skip(0) =~= data@);
    }
    while i < data.len()
        invariant
            i <= data@.len(),
            spec_payload_get(data@, key@) == spec_payload_get(data@.skip(i as int), key@),
        decreases data@.len() - i,
    {
        proof {
            assert(data@.skip(i as int)[0] == data@[i as int]);
            assert(data@.skip(i as int).drop_first() =~= data@.skip(i as int + 1));
        }
        if crate::text::str_eq(data[i].0.as_str(), key) {
            return Some(&data[i].1);
        }
        i += 1;
    }
    proof {
        assert(data@.skip(data@.len() as int) =~= Seq::<(String, String)>::empty());
    }
    None
}

} // verus!
