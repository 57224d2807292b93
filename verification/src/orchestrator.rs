//! The consumer step: for one event drained from the channel, run the rule
//! engine, record every triggered result in the shared state, and hand each
//! to the dispatcher. The surrounding process owns the channel loop and
//! performs the returned posts; events are processed serially to preserve
//! rule-hit ordering.

use vstd::prelude::*;
use crate::alerts::{
    alert_key, model_stamp, model_suppressed, spec_posts, AlertManager, AlertsConfig, OutboundPost,
};
use crate::events::{NormalizedEvent, Severity};
use crate::rules::{lemma_process_len, spec_process, RuleEngine};
use crate::state::{spec_add_alert, AlertsModel, AppState};

verus! {

/// The alert sub-state after recording each triggered result, in order.
pub open spec fn spec_fold_alerts(
    m: AlertsModel,
    chain: Seq<char>,
    results: Seq<(Seq<char>, Severity)>,
    now: u64,
) -> AlertsModel
    decreases results.len(),
{
    if results.len() == 0 {
        m
    } else {
        spec_fold_alerts(
            spec_add_alert(m, results[0].1, chain, results[0].0, now),
            chain,
            results.drop_first(),
            now,
        )
    }
}

/// One dispatch step on the ghost history: suppressed keys leave it alone,
/// dispatched keys are stamped with `now`.
pub open spec fn spec_dispatch_step(
    m: Seq<(Seq<char>, u64)>,
    cooldown: u64,
    result: (Seq<char>, Severity),
    now: u64,
) -> Seq<(Seq<char>, u64)> {
    let key = alert_key(result.1, result.0);
    if model_suppressed(m, cooldown, key, now) {
        m
    } else {
        model_stamp(m, key, now)
    }
}

/// The ghost dispatch history after handling every result, in order.
pub open spec fn spec_dispatch_fold(
    m: Seq<(Seq<char>, u64)>,
    cooldown: u64,
    results: Seq<(Seq<char>, Severity)>,
    now: u64,
) -> Seq<(Seq<char>, u64)>
    decreases results.len(),
{
    if results.len() == 0 {
        m
    } else {
        spec_dispatch_fold(
            spec_dispatch_step(m, cooldown, results[0], now),
            cooldown,
            results.drop_first(),
            now,
        )
    }
}

proof fn lemma_dispatch_fold_push(
    m: Seq<(Seq<char>, u64)>,
    cooldown: u64,
    results: Seq<(Seq<char>, Severity)>,
    r: (Seq<char>, Severity),
    now: u64,
)
    ensures
        spec_dispatch_fold(m, cooldown, results.push(r), now) == spec_dispatch_step(
            spec_dispatch_fold(m, cooldown, results, now),
            cooldown,
            r,
            now,
        ),
    decreases results.len(),
{
    if results.len() == 0 {
        assert(results.push(r)[0] == r);
        assert(results.push(r).drop_first() =~= Seq::<(Seq<char>, Severity)>::empty());
        assert(spec_dispatch_fold(
            spec_dispatch_step(m, cooldown, r, now),
            cooldown,
            Seq::<(Seq<char>, Severity)>::empty(),
            now,
        ) == spec_dispatch_step(m, cooldown, r, now));
    } else {
        assert(results.push(r)[0] == results[0]);
        assert(results.push(r).drop_first() =~= results.drop_first().push(r));
        lemma_dispatch_fold_push(
            spec_dispatch_step(m, cooldown, results[0], now),
            cooldown,
            results.drop_first(),
            r,
            now,
        );
    }
}

/// What the `j`-th group of outbound posts must be: nothing if the key was
/// still cooling down when its turn came, else exactly one post per enabled
/// provider.
pub open spec fn spec_posts_at(
    m0: Seq<(Seq<char>, u64)>,
    cooldown: u64,
    config: AlertsConfig,
    results: Seq<(Seq<char>, Severity)>,
    now: u64,
    j: int,
    group: Seq<OutboundPost>,
) -> bool {
    let key = alert_key(results[j].1, results[j].0);
    let before = spec_dispatch_fold(m0, cooldown, results.take(j), now);
    if model_suppressed(before, cooldown, key, now) {
        group.len() == 0
    } else {
        spec_posts(config, results[j].1, results[j].0, now, group)
    }
}

/// Process one event end to end: run the rules, record each result in the
/// state (with the event's chain name), and hand each to the dispatcher.
/// Returns one group of outbound posts per triggered result.
pub fn handle_event(
    state: &mut AppState,
    engine: &RuleEngine,
    manager: &mut AlertManager,
    event: &NormalizedEvent,
    now: u64,
) -> (posts: Vec<Vec<OutboundPost>>)
    requires
        old(state).wf(),
        old(manager).wf(),
        old(state).alerts_model().total() + engine.rules@.len() <= u64::MAX,
    ensures
        final(state).wf(),
        final(manager).wf(),
        final(manager).config == old(manager).config,
        final(manager).cooldown == old(manager).cooldown,
        final(state).chain_heights == old(state).chain_heights,
        final(state).last_block_time == old(state).last_block_time,
        final(state).rule_hits == old(state).rule_hits,
        final(state).alerts_model() == spec_fold_alerts(
            old(state).alerts_model(),
            event.chain_name@,
            spec_process(engine.rules@, *event),
            now,
        ),
        final(manager).history_model() == spec_dispatch_fold(
            old(manager).history_model(),
            old(manager).cooldown,
            spec_process(engine.rules@, *event),
            now,
        ),
        posts@.len() == spec_process(engine.rules@, *event).len(),
        forall|j: int|
            0 <= j < posts@.len() ==> spec_posts_at(
                old(manager).history_model(),
                old(manager).cooldown,
                old(manager).config,
                spec_process(engine.rules@, *event),
                now,
                j,
                (#[trigger] posts@[j])@,
            ),
{
    let results = engine.process(event);
    let ghost rs = spec_process(engine.rules@, *event);
    let ghost m_state0 = state.alerts_model();
    let ghost m_mgr0 = manager.history_model();
    let mut posts: Vec<Vec<OutboundPost>> = Vec::new();
    let mut i: usize = 0;
    proof {
        lemma_process_len(engine.rules@, *event);
        assert(rs.skip(0) =~= rs);
        assert(rs.take(0) =~= Seq::<(Seq<char>, Severity)>::empty());
    }
    while i < results.len()
        invariant
            state.wf(),
            manager.wf(),
            manager.config == old(manager).config,
            manager.cooldown == old(manager).cooldown,
            state.chain_heights == old(state).chain_heights,
            state.last_block_time == old(state).last_block_time,
            state.rule_hits == old(state).rule_hits,
            results@.map_values(|p: (String, Severity)| (p.0@, p.1)) == rs,
            rs == spec_process(engine.rules@, *event),
            rs.len() <= engine.rules@.len(),
            m_state0 == old(state).alerts_model(),
            m_mgr0 == old(manager).history_model(),
            m_state0.total() + engine.rules@.len() <= u64::MAX,
            i <= results@.len(),
            posts@.len() == i,
            state.alerts_model().total() == m_state0.total() + i,
            spec_fold_alerts(state.alerts_model(), event.chain_name@, rs.skip(i as int), now)
                == spec_fold_alerts(m_state0, event.chain_name@, rs, now),
            manager.history_model() == spec_dispatch_fold(
                m_mgr0,
                manager.cooldown,
                rs.take(i as int),
                now,
            ),
            forall|j: int|
                0 <= j < i ==> spec_posts_at(
                    m_mgr0,
                    manager.cooldown,
                    manager.config,
                    rs,
                    now,
                    j,
                    (#[trigger] posts@[j])@,
                ),
        decreases results@.len() - i,
    {
        let msg = results[i].0.clone();
        let sev = results[i].1;
        proof {
            assert(rs[i as int] == (results@[i as int].0@, results@[i as int].1));
            assert(state.alerts_model().count_of(sev) <= state.alerts_model().total());
            assert(state.severity_counts.spec_get(sev) as nat == state.alerts_model().count_of(
                sev,
            ));
        }
        let ghost m_state_pre = state.alerts_model();
        let ghost m_mgr_pre = manager.history_model();
        state.add_alert(sev, event.chain_name.clone(), msg.clone(), now);
        let group = manager.send_alert(sev, msg, now);
        let ghost groupv = group@;
        posts.push(group);
        proof {
            assert(rs.skip(i as int)[0] == rs[i as int]);
            assert(rs.skip(i as int).drop_first() =~= rs.skip(i as int + 1));
            assert(state.alerts_model() == spec_add_alert(
                m_state_pre,
                rs[i as int].1,
                event.chain_name@,
                rs[i as int].0,
                now,
            ));
            assert(rs.take(i as int + 1) =~= rs.take(i as int).push(rs[i as int]));
            lemma_dispatch_fold_push(m_mgr0, manager.cooldown, rs.take(i as int), rs[i as int], now);
            assert(spec_posts_at(m_mgr0, manager.cooldown, manager.config, rs, now, i as int, groupv));
            assert(forall|j: int| 0 <= j < i ==> (#[trigger] posts@[j])@ == posts@[j]@);
        }
        i += 1;
    }
    proof {
        assert(rs.skip(rs.len() as int) =~= Seq::<(Seq<char>, Severity)>::empty());
        assert(rs.take(rs.len() as int) =~= rs);
    }
    posts
}

} // verus!
