//! Configuration records and the startup logic that turns them into the
//! running pieces: severity labels, the configured rule set, the interactive
//! chain selection, and the environment override for the RPC endpoint. The
//! surrounding process reads the configuration document and the standard
//! input; everything decided from them is specified here.

use vstd::prelude::*;
use vstd::string::StrSliceExecFns;
use crate::alerts::AlertsConfig;
use crate::decimal::{char_digit, dec_val, is_dec_char, is_dec_string};
use crate::events::Severity;
use crate::rules::{HighApprovalRule, OwnershipRule, RuleEngine, RuleKind, ThresholdRule};
use crate::text::str_eq;
use crate::uint256::{word_bound, Uint256};

verus! {

/// One chain's endpoint and numeric id.
pub struct ChainConfig {
    pub rpc_url: String,
    pub chain_id: u64,
}

/// One watched contract: its 20-byte address and the chain it lives on.
pub struct ContractConfig {
    pub name: String,
    pub address: Vec<u8>,
    pub chain: String,
    pub events: Vec<String>,
}

/// The transfer-threshold rule as configured: a decimal string and a
/// severity label.
pub struct TransferRuleConfig {
    pub min_value: String,
    pub severity: String,
}

/// The ownership-change rule as configured.
pub struct OwnershipRuleConfig {
    pub enabled: bool,
    pub severity: String,
}

pub struct RulesConfig {
    pub transfer_threshold: TransferRuleConfig,
    pub ownership_change: OwnershipRuleConfig,
}

/// The whole configuration document, deserialized once at startup.
pub struct AppConfig {
    pub chains: Vec<(String, ChainConfig)>,
    pub contracts: Vec<ContractConfig>,
    pub rules: RulesConfig,
    pub alerts: AlertsConfig,
}

/// A severity label: the three recognized names, anything else falls back to
/// Low.
pub open spec fn spec_severity_from_label(s: Seq<char>) -> Severity {
    if s == "High"@ {
        Severity::High
    } else if s == "Critical"@ {
        Severity::Critical
    } else if s == "Medium"@ {
        Severity::Medium
    } else {
        Severity::Low
    }
}

pub fn severity_from_label(s: &str) -> (r: Severity)
    ensures
        r == spec_severity_from_label(s@),
{
    if str_eq(s, "High") {
        Severity::High
    } else if str_eq(s, "Critical") {
        Severity::Critical
    } else if str_eq(s, "Medium") {
        Severity::Medium
    } else {
        Severity::Low
    }
}

/// The threshold the transfer rule runs with: the configured decimal string,
/// or 1000 when it does not parse as a 256-bit value.
pub open spec fn spec_min_value(s: Seq<char>) -> nat {
    if is_dec_string(s) && dec_val(s) < word_bound() {
        dec_val(s)
    } else {
        1000
    }
}

/// Build the engine from the configuration: the threshold rule, the
/// ownership rule when enabled, and the always-on high-approval rule at
/// half of the largest word with Critical severity.
pub fn engine_from_rules(rules: &RulesConfig) -> (r: RuleEngine)
    ensures
        r.rules@.len() == if rules.ownership_change.enabled {
            3int
        } else {
            2int
        },
        (r.rules@[0] matches RuleKind::Threshold(t) && t.min_value.val() == spec_min_value(
            rules.transfer_threshold.min_value@,
        ) && t.severity == spec_severity_from_label(rules.transfer_threshold.severity@)),
        rules.ownership_change.enabled ==> (r.rules@[1] matches RuleKind::Ownership(o)
            && o.severity == spec_severity_from_label(rules.ownership_change.severity@)),
        (r.rules@.last() matches RuleKind::HighApproval(h) && h.threshold.val() == (word_bound()
            - 1) / 2 && h.severity == Severity::Critical),
{
    let transfer_severity = severity_from_label(rules.transfer_threshold.severity.as_str());
    let ownership_severity = severity_from_label(rules.ownership_change.severity.as_str());
    let min_value = match Uint256::from_decimal(rules.transfer_threshold.min_value.as_str()) {
        Some(v) => v,
        None => Uint256::from_u64(1000),
    };
    let mut engine = RuleEngine::new();
    engine.add_rule(RuleKind::Threshold(ThresholdRule::new(min_value, transfer_severity)));
    if rules.ownership_change.enabled {
        engine.add_rule(RuleKind::Ownership(OwnershipRule::new(ownership_severity)));
    }
    engine.add_rule(
        RuleKind::HighApproval(HighApprovalRule::new(Uint256::half_max(), Severity::Critical)),
    );
    engine
}

/// What the chain-selection prompt decided.
#[derive(Clone, Copy, Debug, PartialEq, Eq, Structural)]
pub enum Selection {
    All,
    One(usize),
}

pub open spec fn spec_is_ws(c: char) -> bool {
    c == ' ' || c == '\n' || c == '\r' || c == '\t'
}

fn is_ws(c: char) -> (r: bool)
    ensures
        r == spec_is_ws(c),
{
    c == ' ' || c == '\n' || c == '\r' || c == '\t'
}

/// The input with surrounding whitespace removed: the content between the
/// first and last non-whitespace characters.
pub open spec fn spec_trimmed(s: Seq<char>, a: int, b: int) -> bool {
    &&& 0 <= a <= b <= s.len()
    &&& (forall|i: int| 0 <= i < a ==> spec_is_ws(s[i]))
    &&& (forall|i: int| b <= i < s.len() ==> spec_is_ws(s[i]))
    &&& (a < b ==> !spec_is_ws(s[a]) && !spec_is_ws(s[b - 1]))
    &&& (a == b ==> forall|i: int| 0 <= i < s.len() ==> spec_is_ws(s[i]))
}

/// Parse a decimal string into a machine word, if all digits and in range.
fn parse_usize(s: &str) -> (r: Option<usize>)
    ensures
        r is Some <==> (is_dec_string(s@) && dec_val(s@) <= usize::MAX),
        r is Some ==> r->Some_0 == dec_val(s@),
{
    let n = s.unicode_len();
    if n == 0 {
        return None;
    }
    let mut acc: usize = 0;
    let mut i: usize = 0;
    proof {
        assert(s@.take(0) =~= Seq::<char>::empty());
    }
    while i < n
        invariant
            n == s@.len(),
            i <= n,
            forall|j: int| 0 <= j < i ==> is_dec_char(#[trigger] s@[j]),
            acc == dec_val(s@.take(i as int)),
        decreases n - i,
    {
        let c = s.get_char(i);
        let d: usize = match c {
            '0' => 0,
            '1' => 1,
            '2' => 2,
            '3' => 3,
            '4' => 4,
            '5' => 5,
            '6' => 6,
            '7' => 7,
            '8' => 8,
            '9' => 9,
            _ => {
                return None;
            },
        };
        proof {
            assert(d == char_digit(s@[i as int]));
            assert(s@.take(i as int + 1).drop_last() =~= s@.take(i as int));
            assert(s@.take(i as int + 1).last() == s@[i as int]);
        }
        if acc > (usize::MAX - d) / 10 {
            proof {
                assert(dec_val(s@.take(i as int + 1)) > usize::MAX);
                lemma_dec_val_take_mono(s@, i as int + 1);
            }
            return None;
        }
        acc = acc * 10 + d;
        i += 1;
    }
    proof {
        assert(s@.take(n as int) =~= s@);
    }
    Some(acc)
}

/// A digit string denotes at least what any of its prefixes denotes.
proof fn lemma_dec_val_take_mono(s: Seq<char>, i: int)
    requires
        0 <= i <= s.len(),
    ensures
        dec_val(s.take(i)) <= dec_val(s),
    decreases s.len() - i,
{
    if i < s.len() {
        lemma_dec_val_take_mono(s.drop_last(), i);
        assert(s.drop_last().take(i) =~= s.take(i));
    } else {
        assert(s.take(i) =~= s);
    }
}

/// What the selection prompt returns for raw input `s` with `n` chains
/// listed: the 1-based index of a chain keeps that chain; the extra
/// "Monitor All" entry, and any invalid input, selects all.
pub open spec fn spec_selection(t: Seq<char>, n: nat) -> Selection {
    if is_dec_string(t) && dec_val(t) <= usize::MAX && 1 <= dec_val(t) <= n {
        Selection::One((dec_val(t) - 1) as usize)
    } else {
        Selection::All
    }
}

/// Interpret the chain-selection input: trim it, then read it as a 1-based
/// index into the chain list. Everything else selects all chains.
pub fn parse_selection(input: &str, chain_count: usize) -> (r: Selection)
    ensures
        exists|a: int, b: int|
            spec_trimmed(input@, a, b) && r == spec_selection(
                #[trigger] input@.subrange(a, b),
                chain_count as nat,
            ),
{
    let n = input.unicode_len();
    let mut a: usize = 0;
    while a < n && is_ws(input.get_char(a))
        invariant
            n == input@.len(),
            a <= n,
            forall|i: int| 0 <= i < a ==> spec_is_ws(#[trigger] input@[i]),
        decreases n - a,
    {
        a += 1;
    }
    let mut b: usize = n;
    if a == n {
        proof {
            assert(spec_trimmed(input@, a as int, a as int));
            assert(input@.subrange(a as int, a as int) =~= Seq::<char>::empty());
        }
        return Selection::All;
    }
    while b > a && is_ws(input.get_char(b - 1))
        invariant
            n == input@.len(),
            a <= b <= n,
            forall|i: int| b <= i < n ==> spec_is_ws(#[trigger] input@[i]),
        decreases b,
    {
        b -= 1;
    }
    proof {
        assert(!spec_is_ws(input@[a as int]));
        assert(b > a);
        assert(spec_trimmed(input@, a as int, b as int));
    }
    let t = input.substring_char(a, b);
    let ghost tview = input@.subrange(a as int, b as int);
    match parse_usize(t) {
        Some(v) => {
            if 1 <= v && v <= chain_count {
                proof {
                    assert(spec_selection(tview, chain_count as nat) == Selection::One(
                        (v - 1) as usize,
                    ));
                }
                Selection::One(v - 1)
            } else {
                Selection::All
            }
        },
        None => Selection::All,
    }
}

/// The entries whose key equals `key`, in order.
pub open spec fn spec_keep_chains(
    s: Seq<(String, ChainConfig)>,
    key: Seq<char>,
) -> Seq<(String, ChainConfig)>
    decreases s.len(),
{
    if s.len() == 0 {
        Seq::empty()
    } else {
        let rest = spec_keep_chains(s.drop_first(), key);
        if s[0].0@ == key {
            seq![s[0]] + rest
        } else {
            rest
        }
    }
}

/// Keep only the selected chain, as the prompt's outcome demands.
pub fn filter_chains(chains: Vec<(String, ChainConfig)>, selected: &str) -> (r: Vec<
    (String, ChainConfig),
>)
    ensures
        r@ == spec_keep_chains(chains@, selected@),
{
    let ghost whole = spec_keep_chains(chains@, selected@);
    let mut rest = chains;
    let mut r: Vec<(String, ChainConfig)> = Vec::new();
    proof {
        assert(r@.map_values(|p: (String, ChainConfig)| p) =~= Seq::<(String, ChainConfig)>::empty());
        assert(whole =~= r@ + spec_keep_chains(rest@, selected@));
    }
    while rest.len() > 0
        invariant
            whole == r@ + spec_keep_chains(rest@, selected@),
        decreases rest@.len(),
    {
        let ghost prerest = rest@;
        let ghost prer = r@;
        let p = rest.remove(0);
        proof {
            assert(rest@ =~= prerest.drop_first());
            assert(p == prerest[0]);
        }
        if str_eq(p.0.as_str(), selected) {
            r.push(p);
            proof {
                assert(spec_keep_chains(prerest, selected@) == seq![prerest[0]]
                    + spec_keep_chains(prerest.drop_first(), selected@));
                assert(whole =~= r@ + spec_keep_chains(rest@, selected@));
            }
        }
    }
    proof {
        assert(spec_keep_chains(rest@, selected@) =~= Seq::<(String, ChainConfig)>::empty());
        assert(whole =~= r@);
    }
    r
}

pub open spec fn chain_keys_unique(s: Seq<(String, ChainConfig)>) -> bool {
    forall|i: int, j: int| 0 <= i < j < s.len() ==> (#[trigger] s[i]).0@ != (#[trigger] s[j]).0@
}

/// Apply the environment override: a chain named "ethereum" gets its RPC URL
/// replaced; every other field of every entry is untouched.
pub fn override_ethereum_rpc(chains: &mut Vec<(String, ChainConfig)>, url: String)
    requires
        chain_keys_unique(old(chains)@),
    ensures
        final(chains)@.len() == old(chains)@.len(),
        chain_keys_unique(final(chains)@),
        forall|i: int|
            0 <= i < old(chains)@.len() ==> (#[trigger] final(chains)@[i]).0 == old(chains)@[i].0
                && final(chains)@[i].1.chain_id == old(chains)@[i].1.chain_id,
        forall|i: int|
            0 <= i < old(chains)@.len() && (#[trigger] old(chains)@[i]).0@ != "ethereum"@
                ==> final(chains)@[i].1.rpc_url == old(chains)@[i].1.rpc_url,
        forall|i: int|
            0 <= i < old(chains)@.len() && (#[trigger] old(chains)@[i]).0@ == "ethereum"@
                ==> final(chains)@[i].1.rpc_url@ == url@,
{
    let n = chains.len();
    let mut i: usize = 0;
    while i < n
        invariant
            chain_keys_unique(old(chains)@),
            n == chains@.len(),
            i <= n,
            chains@ == old(chains)@,
            forall|j: int| 0 <= j < i ==> (#[trigger] chains@[j]).0@ != "ethereum"@,
        decreases n - i,
    {
        if str_eq(chains[i].0.as_str(), "ethereum") {
            let name = chains[i].0.clone();
            let chain_id = chains[i].1.chain_id;
            let ghost pre = chains@;
            chains.set(i, (name, ChainConfig { rpc_url: url, chain_id }));
            proof {
                assert forall|x: int|
                    0 <= x < pre.len() && x != i implies #[trigger] chains@[x] == pre[x] by {}
                assert forall|x: int, y: int|
                    0 <= x < y < chains@.len() implies (#[trigger] chains@[x]).0@ != (
                #[trigger] chains@[y]).0@ by {
                    assert(chains@[x].0 == pre[x].0);
                    assert(chains@[y].0 == pre[y].0);
                    assert(pre[x].0@ != pre[y].0@);
                }
                assert forall|x: int|
                    0 <= x < pre.len() && (#[trigger] pre[x]).0@ == "ethereum"@ implies chains@[x].1
                    .rpc_url@ == url@ by {
                    if x != i {
                        assert(pre[x].0@ != pre[i as int].0@);
                    }
                }
            }
            return;
        }
        i += 1;
    }
}

} // verus!
