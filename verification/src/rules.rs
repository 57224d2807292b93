//! The rule engine: an ordered list of stateless rules, each mapping an
//! event to at most one (message, severity) result.

use vstd::prelude::*;
use vstd::string::StringExecFns;
use crate::decimal::{dec_chars, dec_val, is_dec_string};
use crate::events::{spec_payload_get, payload_get, EventType, NormalizedEvent, Severity};
use crate::uint256::{word_bound, Uint256};

verus! {

/// The message for a transfer at or above the threshold. The `>` is
/// stylistic; the comparison is `>=`.
pub open spec fn threshold_message(v: nat, m: nat) -> Seq<char> {
    "Large Transfer Detected: "@ + dec_chars(v) + " > "@ + dec_chars(m)
}

pub open spec fn ownership_message() -> Seq<char> {
    "Ownership Transferred!"@
}

pub open spec fn approval_message(v: nat, t: nat) -> Seq<char> {
    "High Approval Detected: "@ + dec_chars(v) + " >= "@ + dec_chars(t)
}

/// The `value` payload field read as a 256-bit decimal, if it parses.
pub open spec fn spec_event_value(e: NormalizedEvent) -> Option<nat> {
    match spec_payload_get(e.data@, "value"@) {
        Some(v) => if is_dec_string(v) && dec_val(v) < word_bound() {
            Some(dec_val(v))
        } else {
            None
        },
        None => None,
    }
}

/// A stateless check from an event to at most one alert.
pub trait Rule {
    /// What this rule returns, as a function of the event alone.
    spec fn check_spec(&self, event: NormalizedEvent) -> Option<(Seq<char>, Severity)>;

    fn check(&self, event: &NormalizedEvent) -> (r: Option<(String, Severity)>)
        ensures
            r is Some <==> self.check_spec(*event) is Some,
            r is Some ==> r->Some_0.0@ == self.check_spec(*event)->Some_0.0,
            r is Some ==> r->Some_0.1 == self.check_spec(*event)->Some_0.1,
    ;
}

/// Fires on a Transfer whose `value` is at least `min_value`.
pub struct ThresholdRule {
    pub min_value: Uint256,
    pub severity: Severity,
}

impl ThresholdRule {
    pub fn new(min_value: Uint256, severity: Severity) -> (r: ThresholdRule)
        ensures
            r.min_value == min_value,
            r.severity == severity,
    {
        ThresholdRule { min_value, severity }
    }
}

impl Rule for ThresholdRule {
    open spec fn check_spec(&self, event: NormalizedEvent) -> Option<(Seq<char>, Severity)> {
        if event.event_type is Transfer {
            match spec_event_value(event) {
                Some(v) => if v >= self.min_value.val() {
                    Some((threshold_message(v, self.min_value.val()), self.severity))
                } else {
                    None
                },
                None => None,
            }
        } else {
            None
        }
    }

    fn check(&self, event: &NormalizedEvent) -> (r: Option<(String, Severity)>) {
        match &event.event_type {
            EventType::Transfer => {},
            _ => {
                return None;
            },
        }
        let raw = match payload_get(&event.data, "value") {
            Some(s) => s,
            None => {
                return None;
            },
        };
        let value = match Uint256::from_decimal(raw.as_str()) {
            Some(v) => v,
            None => {
                return None;
            },
        };
        if value.ge(&self.min_value) {
            let mut msg = String::from_str("Large Transfer Detected: ");
            msg.append(value.to_decimal().as_str());
            msg.append(" > ");
            msg.append(self.min_value.to_decimal().as_str());
            proof {
                assert(msg@ =~= threshold_message(
                    spec_event_value(*event)->Some_0,
                    self.min_value.val(),
                ));
            }
            Some((msg, self.severity))
        } else {
            None
        }
    }
}

/// Fires on every OwnershipTransferred event.
pub struct OwnershipRule {
    pub severity: Severity,
}

impl OwnershipRule {
    pub fn new(severity: Severity) -> (r: OwnershipRule)
        ensures
            r.severity == severity,
    {
        OwnershipRule { severity }
    }
}

impl Rule for OwnershipRule {
    open spec fn check_spec(&self, event: NormalizedEvent) -> Option<(Seq<char>, Severity)> {
        if event.event_type is OwnershipTransferred {
            Some((ownership_message(), self.severity))
        } else {
            None
        }
    }

    fn check(&self, event: &NormalizedEvent) -> (r: Option<(String, Severity)>) {
        match &event.event_type {
            EventType::OwnershipTransferred => Some(
                (String::from_str("Ownership Transferred!"), self.severity),
            ),
            _ => None,
        }
    }
}

/// Fires on an Approval whose `value` is at least `threshold`; meant to flag
/// effectively unlimited allowances.
pub struct HighApprovalRule {
    pub threshold: Uint256,
    pub severity: Severity,
}

impl HighApprovalRule {
    pub fn new(threshold: Uint256, severity: Severity) -> (r: HighApprovalRule)
        ensures
            r.threshold == threshold,
            r.severity == severity,
    {
        HighApprovalRule { threshold, severity }
    }
}

impl Rule for HighApprovalRule {
    open spec fn check_spec(&self, event: NormalizedEvent) -> Option<(Seq<char>, Severity)> {
        if event.event_type is Approval {
            match spec_event_value(event) {
                Some(v) => if v >= self.threshold.val() {
                    Some((approval_message(v, self.threshold.val()), self.severity))
                } else {
                    None
                },
                None => None,
            }
        } else {
            None
        }
    }

    fn check(&self, event: &NormalizedEvent) -> (r: Option<(String, Severity)>) {
        match &event.event_type {
            EventType::Approval => {},
            _ => {
                return None;
            },
        }
        let raw = match payload_get(&event.data, "value") {
            Some(s) => s,
            None => {
                return None;
            },
        };
        let value = match Uint256::from_decimal(raw.as_str()) {
            Some(v) => v,
            None => {
                return None;
            },
        };
        if value.ge(&self.threshold) {
            let mut msg = String::from_str("High Approval Detected: ");
            msg.append(value.to_decimal().as_str());
            msg.append(" >= ");
            msg.append(self.threshold.to_decimal().as_str());
            proof {
                assert(msg@ =~= approval_message(
                    spec_event_value(*event)->Some_0,
                    self.threshold.val(),
                ));
            }
            Some((msg, self.severity))
        } else {
            None
        }
    }
}

/// The closed set of built-in rules the engine can hold.
pub enum RuleKind {
    Threshold(ThresholdRule),
    Ownership(OwnershipRule),
    HighApproval(HighApprovalRule),
}

impl Rule for RuleKind {
    open spec fn check_spec(&self, event: NormalizedEvent) -> Option<(Seq<char>, Severity)> {
        match self {
            RuleKind::Threshold(rule) => rule.check_spec(event),
            RuleKind::Ownership(rule) => rule.check_spec(event),
            RuleKind::HighApproval(rule) => rule.check_spec(event),
        }
    }

    fn check(&self, event: &NormalizedEvent) -> (r: Option<(String, Severity)>) {
        match self {
            RuleKind::Threshold(rule) => rule.check(event),
            RuleKind::Ownership(rule) => rule.check(event),
            RuleKind::HighApproval(rule) => rule.check(event),
        }
    }
}

/// The results of running each rule in registration order: each firing rule
/// contributes exactly one entry, in place.
pub open spec fn spec_process(rules: Seq<RuleKind>, e: NormalizedEvent) -> Seq<
    (Seq<char>, Severity),
>
    decreases rules.len(),
{
    if rules.len() == 0 {
        Seq::empty()
    } else {
        let rest = spec_process(rules.drop_first(), e);
        match rules[0].check_spec(e) {
            Some(p) => seq![p] + rest,
            None => rest,
        }
    }
}

/// An ordered collection of rules.
pub struct RuleEngine {
    pub rules: Vec<RuleKind>,
}

impl RuleEngine {
    pub fn new() -> (r: RuleEngine)
        ensures
            r.rules@.len() == 0,
    {
        RuleEngine { rules: Vec::new() }
    }

    /// Append a rule; evaluation order is registration order.
    pub fn add_rule(&mut self, rule: RuleKind)
        ensures
            final(self).rules@ == old(self).rules@.push(rule),
    {
        self.rules.push(rule);
    }

    /// Run every rule against the event, returning the triggered results in
    /// rule-registration order.
    pub fn process(&self, event: &NormalizedEvent) -> (r: Vec<(String, Severity)>)
        ensures
            r@.map_values(|p: (String, Severity)| (p.0@, p.1)) == spec_process(
                self.rules@,
                *event,
            ),
    {
        let ghost whole = spec_process(self.rules@, *event);
        let mut alerts: Vec<(String, Severity)> = Vec::new();
        let mut i: usize = 0;
        proof {
            assert(self.rules@.skip(0) =~= self.rules@);
            assert(alerts@.map_values(|p: (String, Severity)| (p.0@, p.1)) =~= Seq::<
                (Seq<char>, Severity),
            >::empty());
        }
        while i < self.rules.len()
            invariant
                i <= self.rules@.len(),
                whole == spec_process(self.rules@, *event),
                whole == alerts@.map_values(|p: (String, Severity)| (p.0@, p.1)) + spec_process(
                    self.rules@.skip(i as int),
                    *event,
                ),
            decreases self.rules@.len() - i,
        {
            proof {
                assert(self.rules@.skip(i as int)[0] == self.rules@[i as int]);
                assert(self.rules@.skip(i as int).drop_first() =~= self.rules@.skip(i as int + 1));
            }
            let ghost before = alerts@;
            match self.rules[i].check(event) {
                Some(result) => {
                    alerts.push(result);
                    proof {
                        assert(alerts@.map_values(|p: (String, Severity)| (p.0@, p.1)) =~= before
                            .map_values(|p: (String, Severity)| (p.0@, p.1)) + seq![
                            (alerts@.last().0@, alerts@.last().1),
                        ]);
                        assert(whole =~= alerts@.map_values(|p: (String, Severity)| (p.0@, p.1))
                            + spec_process(self.rules@.skip(i as int + 1), *event));
                    }
                },
                None => {},
            }
            i += 1;
        }
        proof {
            assert(self.rules@.skip(self.rules@.len() as int) =~= Seq::<RuleKind>::empty());
            assert(whole =~= alerts@.map_values(|p: (String, Severity)| (p.0@, p.1)));
        }
        alerts
    }
}

/// Appending a rule appends exactly that rule's result (if any) to the
/// engine's output, leaving earlier results in place: evaluation respects
/// registration order, one entry at most per rule.
pub proof fn lemma_process_append(rules: Seq<RuleKind>, rule: RuleKind, e: NormalizedEvent)
    ensures
        spec_process(rules.push(rule), e) == spec_process(rules, e) + match rule.check_spec(e) {
            Some(p) => seq![p],
            None => Seq::<(Seq<char>, Severity)>::empty(),
        },
    decreases rules.len(),
{
    let tail = match rule.check_spec(e) {
        Some(p) => seq![p],
        None => Seq::<(Seq<char>, Severity)>::empty(),
    };
    if rules.len() == 0 {
        assert(rules.push(rule)[0] == rule);
        assert(rules.push(rule).drop_first() =~= Seq::<RuleKind>::empty());
        assert(spec_process(Seq::<RuleKind>::empty(), e) == Seq::<(Seq<char>, Severity)>::empty());
        assert(spec_process(rules.push(rule), e) =~= spec_process(rules, e) + tail);
    } else {
        assert(rules.push(rule)[0] == rules[0]);
        assert(rules.push(rule).drop_first() =~= rules.drop_first().push(rule));
        lemma_process_append(rules.drop_first(), rule, e);
        assert(spec_process(rules.push(rule), e) =~= spec_process(rules, e) + tail);
    }
}

/// An engine returns at most one result per registered rule.
pub proof fn lemma_process_len(rules: Seq<RuleKind>, e: NormalizedEvent)
    ensures
        spec_process(rules, e).len() <= rules.len(),
    decreases rules.len(),
{
    if rules.len() > 0 {
        lemma_process_len(rules.drop_first(), e);
    }
}

} // verus!
