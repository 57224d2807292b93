//! The synthetic event producer. The surrounding process draws the random
//! kind selector, the value and the delay; the event built from them is
//! specified here and feeds the same channel as the live subscribers.

use vstd::prelude::*;
use vstd::string::StringExecFns;
use crate::decimal::{dec_chars, digits_from_u64, string_of_digits};
use crate::events::{EventType, NormalizedEvent, Severity};

verus! {

pub open spec fn zero_bytes(n: nat) -> Seq<u8> {
    Seq::new(n, |i: int| 0u8)
}

/// The event kind a drawn selector stands for.
pub open spec fn spec_sim_kind(kind_sel: u64) -> EventType {
    if kind_sel % 3 == 0 {
        EventType::Transfer
    } else if kind_sel % 3 == 1 {
        EventType::Approval
    } else {
        EventType::OwnershipTransferred
    }
}

/// Build one synthetic event on the "Simulation" chain from the drawn kind
/// selector and value.
pub fn simulated_event(kind_sel: u64, value: u64) -> (e: NormalizedEvent)
    ensures
        e.chain_id == 1,
        e.chain_name@ == "Simulation"@,
        e.contract_address@ == zero_bytes(20),
        e.tx_hash@ == zero_bytes(32),
        e.block_number == 1000,
        e.event_type == spec_sim_kind(kind_sel),
        e.severity == Severity::Low,
        e.data@.len() == 3,
        e.data@[0].0@ == "value"@ && e.data@[0].1@ == dec_chars(value as nat),
        e.data@[1].0@ == "from"@ && e.data@[1].1@
            == "0x000000000000000000000000000000000000dead"@,
        e.data@[2].0@ == "to"@ && e.data@[2].1@ == "0x000000000000000000000000000000000000beef"@,
{
    let event_type = match kind_sel % 3 {
        0 => EventType::Transfer,
        1 => EventType::Approval,
        _ => EventType::OwnershipTransferred,
    };
    let value_digits = digits_from_u64(value);
    let mut data: Vec<(String, String)> = Vec::new();
    data.push((String::from_str("value"), string_of_digits(&value_digits)));
    data.push(
        (
            String::from_str("from"),
            String::from_str("0x000000000000000000000000000000000000dead"),
        ),
    );
    data.push(
        (String::from_str("to"), String::from_str("0x000000000000000000000000000000000000beef")),
    );
    let contract_address: Vec<u8> = vec![0u8; 20];
    let tx_hash: Vec<u8> = vec![0u8; 32];
    proof {
        assert(contract_address@ =~= zero_bytes(20));
        assert(tx_hash@ =~= zero_bytes(32));
    }
    NormalizedEvent {
        chain_id: 1,
        chain_name: String::from_str("Simulation"),
        contract_address,
        tx_hash,
        block_number: 1000,
        event_type,
        severity: Severity::Low,
        data,
    }
}

} // verus!
