//! Read-only dashboard computations: the chain filter cycle, the visible
//! alert table (most recent first, severity- and chain-filtered, capped and
//! truncated), the severity bar data, and the block-age health check. The
//! surrounding process renders what these return on its ~200 ms tick.

use vstd::prelude::*;
use vstd::string::{StrSliceExecFns, StringExecFns};
use crate::decimal::{dec_chars, digits_from_u64, string_of_digits};
use crate::events::Severity;
use crate::state::{AppState, RecordModel, SeverityCounts};
use crate::text::{lemma_lex_total, lex_leq, lex_lt, str_eq, str_lt};

verus! {

/// Most rows the alert table shows.
pub const TABLE_CAP: usize = 15;

/// Messages longer than this are cut to 47 characters plus an ellipsis.
pub const MESSAGE_WIDTH: usize = 50;

/// One rendered alert-table row.
pub struct DisplayRow {
    pub chain: String,
    pub severity: Severity,
    pub age_secs: u64,
    pub message: String,
}

/// Seconds since `t`, clamped at zero.
pub open spec fn spec_age(t: u64, now: u64) -> u64 {
    if now >= t {
        (now - t) as u64
    } else {
        0
    }
}

/// A record shows when it is above Low severity and matches the chain filter.
pub open spec fn spec_visible(rec: RecordModel, filter: Seq<char>) -> bool {
    rec.severity != Severity::Low && (filter == "ALL"@ || rec.chain == filter)
}

/// The displayed message: truncated to the table width, with a repeat marker
/// when the record coalesced more than one alert.
pub open spec fn display_message(msg: Seq<char>, count: nat) -> Seq<char> {
    let base = if msg.len() > MESSAGE_WIDTH {
        msg.subrange(0, 47) + "..."@
    } else {
        msg
    };
    if count > 1 {
        base + " (x"@ + dec_chars(count) + ")"@
    } else {
        base
    }
}

/// The records the table shows, most recent first, capped.
pub open spec fn spec_rows(h: Seq<RecordModel>, filter: Seq<char>, cap: nat) -> Seq<RecordModel>
    decreases h.len(),
{
    if h.len() == 0 || cap == 0 {
        Seq::empty()
    } else if spec_visible(h.last(), filter) {
        seq![h.last()] + spec_rows(h.drop_last(), filter, (cap - 1) as nat)
    } else {
        spec_rows(h.drop_last(), filter, cap)
    }
}

/// A rendered row agrees with its record.
pub open spec fn row_matches(row: DisplayRow, rec: RecordModel, now: u64) -> bool {
    &&& row.chain@ == rec.chain
    &&& row.severity == rec.severity
    &&& row.age_secs == spec_age(rec.time, now)
    &&& row.message@ == display_message(rec.message, rec.count)
}

fn render_row(rec: &crate::state::AlertRecord, now: u64) -> (row: DisplayRow)
    ensures
        row_matches(row, rec.model(), now),
{
    let age: u64 = if now >= rec.time {
        now - rec.time
    } else {
        0
    };
    let n = rec.message.as_str().unicode_len();
    let mut message: String;
    if n > MESSAGE_WIDTH {
        message = String::from_str(rec.message.as_str().substring_char(0, 47));
        message.append("...");
    } else {
        message = rec.message.clone();
    }
    if rec.count > 1 {
        message.append(" (x");
        let count_digits = digits_from_u64(rec.count);
        let count_text = string_of_digits(&count_digits);
        message.append(count_text.as_str());
        message.append(")");
        proof {
            assert(message@ =~= display_message(rec.message@, rec.count as nat));
        }
    } else {
        proof {
            assert(message@ =~= display_message(rec.message@, rec.count as nat));
        }
    }
    DisplayRow { chain: rec.chain.clone(), severity: rec.severity, age_secs: age, message }
}

/// The alert table: walk the history backwards, keep records above Low
/// severity that match the filter ("ALL" or one chain name), stop at the cap,
/// and render each.
pub fn visible_rows(state: &AppState, filter: &str, now: u64) -> (rows: Vec<DisplayRow>)
    ensures
        ({
            let target = spec_rows(
                state.alert_history@.map_values(|r: crate::state::AlertRecord| r.model()),
                filter@,
                TABLE_CAP as nat,
            );
            &&& rows@.len() == target.len()
            &&& forall|j: int| 0 <= j < rows@.len() ==> row_matches(#[trigger] rows@[j], target[j], now)
        }),
{
    let ghost hist = state.alert_history@.map_values(|r: crate::state::AlertRecord| r.model());
    let ghost target = spec_rows(hist, filter@, TABLE_CAP as nat);
    let mut rows: Vec<DisplayRow> = Vec::new();
    let mut i: usize = state.alert_history.len();
    let mut cap: usize = TABLE_CAP;
    proof {
        assert(hist.take(i as int) =~= hist);
    }
    while i > 0 && cap > 0
        invariant
            hist == state.alert_history@.map_values(|r: crate::state::AlertRecord| r.model()),
            target == spec_rows(hist, filter@, TABLE_CAP as nat),
            i <= hist.len(),
            cap <= TABLE_CAP,
            rows@.len() + cap == TABLE_CAP,
            rows@.len() <= target.len(),
            target.skip(rows@.len() as int) == spec_rows(hist.take(i as int), filter@, cap as nat),
            forall|j: int| 0 <= j < rows@.len() ==> row_matches(#[trigger] rows@[j], target[j], now),
        decreases i,
    {
        i -= 1;
        let rec = &state.alert_history[i];
        proof {
            assert(hist.take(i as int + 1).drop_last() =~= hist.take(i as int));
            assert(hist.take(i as int + 1).last() == hist[i as int]);
            assert(hist[i as int] == rec.model());
        }
        let visible = match rec.severity {
            Severity::Low => false,
            _ => str_eq(filter, "ALL") || str_eq(rec.chain.as_str(), filter),
        };
        proof {
            assert(visible == spec_visible(rec.model(), filter@));
        }
        if visible {
            let ghost before = rows@;
            let row = render_row(rec, now);
            rows.push(row);
            cap -= 1;
            proof {
                assert(spec_rows(hist.take(i as int + 1), filter@, (cap + 1) as nat) == seq![
                    hist[i as int],
                ] + spec_rows(hist.take(i as int), filter@, cap as nat));
                assert(target.skip(before.len() as int) == spec_rows(
                    hist.take(i as int + 1),
                    filter@,
                    (cap + 1) as nat,
                ));
                assert(target.skip(before.len() as int).len() >= 1);
                assert(target.len() - before.len() >= 1);
                assert(target.skip(before.len() as int)[0] == target[before.len() as int]);
                assert(target[before.len() as int] == rec.model());
                assert(target.skip(before.len() as int).drop_first() =~= target.skip(
                    rows@.len() as int,
                ));
                assert((seq![hist[i as int]] + spec_rows(hist.take(i as int), filter@, cap as nat))
                    .drop_first() =~= spec_rows(hist.take(i as int), filter@, cap as nat));
            }
        }
    }
    proof {
        if i == 0 {
            assert(hist.take(0) =~= Seq::<RecordModel>::empty());
            assert(spec_rows(hist.take(0), filter@, cap as nat) =~= Seq::<RecordModel>::empty());
        }
        assert(target.skip(rows@.len() as int) =~= Seq::<RecordModel>::empty());
        assert(target.len() == rows@.len());
    }
    rows
}

/// Advance the chain filter cyclically: ALL, then each chain, then ALL again.
pub fn advance_filter(current: usize, len: usize) -> (r: usize)
    requires
        len >= 1,
        current < len,
    ensures
        r == if current + 1 == len {
            0int
        } else {
            current + 1
        },
        r < len,
{
    if current + 1 == len {
        0
    } else {
        current + 1
    }
}

proof fn lemma_insert_to_multiset<A>(s: Seq<A>, i: int, v: A)
    requires
        0 <= i <= s.len(),
    ensures
        s.insert(i, v).to_multiset() == s.to_multiset().insert(v),
{
    broadcast use vstd::seq_lib::group_to_multiset_ensures;

    let t = s.insert(i, v);
    assert(t.remove(i) =~= s);
    assert(t[i] == v);
    assert(t.remove(i).to_multiset() =~= t.to_multiset().remove(v));
    assert(t.contains(v));
    assert(t.to_multiset().count(v) > 0);
    assert forall|x: A| true implies s.to_multiset().insert(v).count(x) == t.to_multiset().count(
        x,
    ) by {
        assert(s.to_multiset().count(x) == t.to_multiset().remove(v).count(x));
    }
    assert(s.to_multiset().insert(v) =~= t.to_multiset());
}

/// The filter labels: "ALL", then every chain with a recorded height, in
/// ascending name order.
pub fn chain_filter_labels(state: &AppState) -> (r: Vec<String>)
    ensures
        r@.len() == state.chain_heights@.len() + 1,
        r@[0]@ == "ALL"@,
        r@.drop_first().map_values(|s: String| s@).to_multiset() == state.chain_heights@.map_values(
            |p: (String, u64)| p.0@,
        ).to_multiset(),
        forall|i: int| 1 <= i < r@.len() - 1 ==> lex_leq(#[trigger] r@[i]@, r@[i + 1]@),
{
    broadcast use vstd::seq_lib::group_to_multiset_ensures;

    let mut sorted: Vec<String> = Vec::new();
    let mut i: usize = 0;
    proof {
        assert(state.chain_heights@.subrange(0, 0) =~= Seq::<(String, u64)>::empty());
        assert(sorted@.map_values(|s: String| s@) =~= Seq::<Seq<char>>::empty());
        assert(Seq::<Seq<char>>::empty().to_multiset() =~= Seq::<(String, u64)>::empty()
            .map_values(|p: (String, u64)| p.0@).to_multiset());
    }
    while i < state.chain_heights.len()
        invariant
            i <= state.chain_heights@.len(),
            sorted@.len() == i,
            sorted@.map_values(|s: String| s@).to_multiset() == state.chain_heights@.subrange(
                0,
                i as int,
            ).map_values(|p: (String, u64)| p.0@).to_multiset(),
            forall|x: int| 0 <= x < sorted@.len() - 1 ==> lex_leq(#[trigger] sorted@[x]@, sorted@[x + 1]@),
        decreases state.chain_heights@.len() - i,
    {
        broadcast use vstd::seq_lib::group_to_multiset_ensures;

        let key = state.chain_heights[i].0.clone();
        let mut pos: usize = 0;
        while pos < sorted.len() && str_lt(sorted[pos].as_str(), key.as_str())
            invariant
                pos <= sorted@.len(),
                forall|x: int| 0 <= x < pos ==> lex_lt(#[trigger] sorted@[x]@, key@),
            decreases sorted@.len() - pos,
        {
            pos += 1;
        }
        let ghost pre = sorted@;
        sorted.insert(pos, key);
        proof {
            lemma_insert_to_multiset(pre.map_values(|s: String| s@), pos as int, sorted@[pos as int]@);
            assert(pre.map_values(|s: String| s@).insert(pos as int, sorted@[pos as int]@) =~= sorted@
                .map_values(|s: String| s@));
            let heights = state.chain_heights@;
            assert(heights.subrange(0, i as int + 1).drop_last() =~= heights.subrange(0, i as int));
            assert(heights.subrange(0, i as int + 1).map_values(|p: (String, u64)| p.0@) =~= heights
                .subrange(0, i as int).map_values(|p: (String, u64)| p.0@).push(
                heights[i as int].0@,
            ));
            assert forall|x: int| 0 <= x < sorted@.len() - 1 implies lex_leq(
                #[trigger] sorted@[x]@,
                sorted@[x + 1]@,
            ) by {
                if x + 1 < pos {
                    assert(sorted@[x] == pre[x]);
                    assert(sorted@[x + 1] == pre[x + 1]);
                } else if x + 1 == pos {
                    assert(sorted@[x] == pre[x]);
                    assert(lex_lt(pre[x]@, key@));
                } else if x == pos {
                    assert(sorted@[x + 1] == pre[x]);
                    assert(!lex_lt(pre[x]@, key@));
                    lemma_lex_total(key@, pre[x]@);
                } else {
                    assert(sorted@[x] == pre[x - 1]);
                    assert(sorted@[x + 1] == pre[x]);
                }
            }
        }
        i += 1;
    }
    let mut r: Vec<String> = Vec::new();
    r.push(String::from_str("ALL"));
    let ghost sortedv = sorted@;
    let mut k: usize = 0;
    while k < sorted.len()
        invariant
            sorted@ == sortedv,
            k <= sortedv.len(),
            r@.len() == k + 1,
            r@[0]@ == "ALL"@,
            forall|x: int| 0 <= x < k ==> #[trigger] r@[x + 1] == sortedv[x],
        decreases sortedv.len() - k,
    {
        r.push(sorted[k].clone());
        proof {
            assert(sorted@[k as int]@ == sortedv[k as int]@);
        }
        k += 1;
    }
    proof {
        assert(state.chain_heights@.subrange(0, state.chain_heights@.len() as int) =~= state
            .chain_heights@);
        assert(r@.drop_first() =~= sortedv);
        assert forall|x: int| 1 <= x < r@.len() - 1 implies lex_leq(#[trigger] r@[x]@, r@[x + 1]@) by {
            assert(r@[x] == sortedv[x - 1]);
            assert(r@[x + 1] == sortedv[x]);
        }
    }
    r
}

/// One header entry: the chain name, then ": #" and its height.
pub open spec fn height_entry(p: (String, u64)) -> Seq<char> {
    p.0@ + ": #"@ + dec_chars(p.1 as nat)
}

/// The header line of per-chain heights, " | "-separated, or a placeholder
/// when no chain has reported yet.
pub open spec fn heights_line_view(s: Seq<(String, u64)>) -> Seq<char>
    decreases s.len(),
{
    if s.len() == 0 {
        "No Chains Active"@
    } else if s.len() == 1 {
        height_entry(s[0])
    } else {
        heights_line_view(s.drop_last()) + " | "@ + height_entry(s.last())
    }
}

/// Render the per-chain block heights for the dashboard header.
pub fn heights_line(heights: &Vec<(String, u64)>) -> (r: String)
    ensures
        r@ == heights_line_view(heights@),
{
    if heights.len() == 0 {
        return String::from_str("No Chains Active");
    }
    let mut r = String::new();
    let mut i: usize = 0;
    while i < heights.len()
        invariant
            i <= heights@.len(),
            heights@.len() > 0,
            i > 0 ==> r@ == heights_line_view(heights@.take(i as int)),
            i == 0 ==> r@ == Seq::<char>::empty(),
        decreases heights@.len() - i,
    {
        if i > 0 {
            r.append(" | ");
        }
        let ghost mid = r@;
        r.append(heights[i].0.as_str());
        r.append(": #");
        let digits = digits_from_u64(heights[i].1);
        let text = string_of_digits(&digits);
        r.append(text.as_str());
        proof {
            assert(r@ =~= mid + height_entry(heights@[i as int]));
            assert(heights@.take(i as int + 1).drop_last() =~= heights@.take(i as int));
            assert(heights@.take(i as int + 1).last() == heights@[i as int]);
            if i == 0 {
                assert(r@ =~= heights_line_view(heights@.take(1)));
            } else {
                assert(r@ =~= heights_line_view(heights@.take(i as int + 1)));
            }
        }
        i += 1;
    }
    proof {
        assert(heights@.take(heights@.len() as int) =~= heights@);
    }
    r
}

/// The bar-chart data, highest severity first.
pub fn severity_bars(counts: &SeverityCounts) -> (r: Vec<(String, u64)>)
    ensures
        r@.len() == 4,
        r@[0].0@ == "Critical"@ && r@[0].1 == counts.critical,
        r@[1].0@ == "High"@ && r@[1].1 == counts.high,
        r@[2].0@ == "Medium"@ && r@[2].1 == counts.medium,
        r@[3].0@ == "Low"@ && r@[3].1 == counts.low,
{
    let mut r: Vec<(String, u64)> = Vec::new();
    r.push((String::from_str("Critical"), counts.critical));
    r.push((String::from_str("High"), counts.high));
    r.push((String::from_str("Medium"), counts.medium));
    r.push((String::from_str("Low"), counts.low));
    r
}

/// Seconds under which the health panel counts the feed as live.
pub const FRESH_BLOCK_SECS: u64 = 15;

/// Is the last block recent enough to show the feed as healthy?
pub fn block_is_fresh(last_block_time: u64, now: u64) -> (r: bool)
    ensures
        r == (spec_age(last_block_time, now) < FRESH_BLOCK_SECS),
{
    let age: u64 = if now >= last_block_time {
        now - last_block_time
    } else {
        0
    };
    age < FRESH_BLOCK_SECS
}

} // verus!
