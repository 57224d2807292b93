use watchdog::alerts::{AlertManager, AlertsConfig, OutboundPost};
use watchdog::config::{
    engine_from_rules, filter_chains, override_ethereum_rpc, parse_selection, severity_from_label,
    AppConfig, ChainConfig, OwnershipRuleConfig, RulesConfig, Selection, TransferRuleConfig,
};
use watchdog::dashboard::{
    advance_filter, block_is_fresh, chain_filter_labels, heights_line, severity_bars, visible_rows,
};
use watchdog::events::{EventType, NormalizedEvent, Severity};
use watchdog::orchestrator::handle_event;
use watchdog::sim::simulated_event;
use watchdog::state::AppState;

fn webhook_only() -> AlertsConfig {
    AlertsConfig {
        webhook_url: "https://example.invalid/hook".to_string(),
        telegram_bot_token: None,
        telegram_chat_id: None,
    }
}

fn both_providers() -> AlertsConfig {
    AlertsConfig {
        webhook_url: "https://example.invalid/hook".to_string(),
        telegram_bot_token: Some("TOKEN".to_string()),
        telegram_chat_id: Some("42".to_string()),
    }
}

fn transfer_event(value: &str) -> NormalizedEvent {
    NormalizedEvent {
        chain_id: 1,
        chain_name: "ethereum".to_string(),
        contract_address: vec![0u8; 20],
        tx_hash: vec![0u8; 32],
        block_number: 7,
        event_type: EventType::Transfer,
        severity: Severity::Low,
        data: vec![("value".to_string(), value.to_string())],
    }
}

#[test]
fn cooldown_suppresses_second_identical_alert() {
    let mut mgr = AlertManager::new(webhook_only());
    let first = mgr.send_alert(Severity::High, "spike".to_string(), 100);
    assert_eq!(first.len(), 1);
    // Within the 60 s window: suppressed, no outbound post.
    let second = mgr.send_alert(Severity::High, "spike".to_string(), 159);
    assert!(second.is_empty());
    // Once the window has passed, it fires again.
    let third = mgr.send_alert(Severity::High, "spike".to_string(), 160);
    assert_eq!(third.len(), 1);
}

#[test]
fn key_includes_severity_and_message() {
    let mut mgr = AlertManager::new(webhook_only());
    assert_eq!(mgr.send_alert(Severity::High, "m".to_string(), 1).len(), 1);
    // Different severity, same message: a different key, not suppressed.
    assert_eq!(mgr.send_alert(Severity::Low, "m".to_string(), 2).len(), 1);
    // Different message: not suppressed either.
    assert_eq!(mgr.send_alert(Severity::High, "n".to_string(), 3).len(), 1);
}

#[test]
fn webhook_post_shape() {
    let mut mgr = AlertManager::new(webhook_only());
    let posts = mgr.send_alert(Severity::Critical, "down".to_string(), 1234);
    assert_eq!(posts.len(), 1);
    match &posts[0] {
        OutboundPost::Discord(d) => {
            assert_eq!(d.url, "https://example.invalid/hook");
            assert_eq!(d.title, "EVM Watchdog Alert: Critical");
            assert_eq!(d.description, "down");
            assert_eq!(d.color, 0xFF0000);
            assert_eq!(d.fields.len(), 2);
            assert_eq!(d.fields[0].name, "Severity");
            assert_eq!(d.fields[0].value, "Critical");
            assert!(d.fields[0].inline);
            assert_eq!(d.fields[1].name, "Timestamp");
            assert_eq!(d.fields[1].value, "1234");
        }
        other => panic!("expected a webhook post, got {:?}", kind_of(other)),
    }
}

fn kind_of(p: &OutboundPost) -> &'static str {
    match p {
        OutboundPost::Discord(_) => "discord",
        OutboundPost::Telegram(_) => "telegram",
    }
}

#[test]
fn missing_telegram_credentials_only_webhook_fires() {
    let mut mgr = AlertManager::new(webhook_only());
    let posts = mgr.send_alert(Severity::High, "x".to_string(), 1);
    assert_eq!(posts.len(), 1);
    assert_eq!(kind_of(&posts[0]), "discord");

    // An empty token counts as missing.
    let mut mgr2 = AlertManager::new(AlertsConfig {
        webhook_url: "https://example.invalid/hook".to_string(),
        telegram_bot_token: Some(String::new()),
        telegram_chat_id: Some("42".to_string()),
    });
    let posts2 = mgr2.send_alert(Severity::High, "x".to_string(), 1);
    assert_eq!(posts2.len(), 1);
    assert_eq!(kind_of(&posts2[0]), "discord");
}

#[test]
fn both_providers_fire_with_full_credentials() {
    let mut mgr = AlertManager::new(both_providers());
    let posts = mgr.send_alert(Severity::Medium, "warn".to_string(), 77);
    assert_eq!(posts.len(), 2);
    assert_eq!(kind_of(&posts[0]), "discord");
    match &posts[1] {
        OutboundPost::Telegram(t) => {
            assert_eq!(t.url, "https://api.telegram.org/botTOKEN/sendMessage");
            assert_eq!(t.chat_id, "42");
            assert_eq!(t.parse_mode, "Markdown");
            assert_eq!(t.text, "Severity: Medium\nMessage: warn\nTime: 77");
        }
        _ => panic!("expected a telegram post"),
    }
}

#[test]
fn empty_webhook_and_no_telegram_sends_nothing() {
    let mut mgr = AlertManager::new(AlertsConfig {
        webhook_url: String::new(),
        telegram_bot_token: None,
        telegram_chat_id: None,
    });
    assert!(mgr.send_alert(Severity::High, "x".to_string(), 1).is_empty());
}

#[test]
fn orchestrator_records_and_dispatches() {
    let mut state = AppState::new();
    let mut mgr = AlertManager::new(webhook_only());
    let engine = engine_from_rules(&RulesConfig {
        transfer_threshold: TransferRuleConfig {
            min_value: "1000".to_string(),
            severity: "High".to_string(),
        },
        ownership_change: OwnershipRuleConfig { enabled: true, severity: "Critical".to_string() },
    });

    let groups = handle_event(&mut state, &engine, &mut mgr, &transfer_event("1000"), 50);
    assert_eq!(groups.len(), 1);
    assert_eq!(groups[0].len(), 1);
    assert_eq!(state.alert_history.len(), 1);
    let rec = &state.alert_history[0];
    assert_eq!(rec.severity, Severity::High);
    assert_eq!(rec.chain, "ethereum");
    assert!(rec.message.starts_with("Large Transfer Detected: 1000"));
    assert_eq!(state.severity_counts.high, 1);

    // The identical event inside the cooldown window coalesces in the
    // history and produces no second outbound post.
    let groups2 = handle_event(&mut state, &engine, &mut mgr, &transfer_event("1000"), 55);
    assert_eq!(groups2.len(), 1);
    assert!(groups2[0].is_empty());
    assert_eq!(state.alert_history.len(), 1);
    assert_eq!(state.alert_history[0].count, 2);
    assert_eq!(state.severity_counts.high, 2);
}

#[test]
fn orchestrator_runs_with_no_rules() {
    let mut state = AppState::new();
    let mut mgr = AlertManager::new(webhook_only());
    let engine = watchdog::rules::RuleEngine::new();
    let groups = handle_event(&mut state, &engine, &mut mgr, &transfer_event("9999"), 1);
    assert!(groups.is_empty());
    assert!(state.alert_history.is_empty());
}

#[test]
fn dashboard_filter_cycles_through_sorted_chains() {
    let mut state = AppState::new();
    state.update_block("beta", 2, 1);
    state.update_block("alpha", 1, 2);
    let labels = chain_filter_labels(&state);
    assert_eq!(labels, vec!["ALL", "alpha", "beta"]);
    let mut idx = 0usize;
    idx = advance_filter(idx, labels.len());
    assert_eq!(labels[idx], "alpha");
    idx = advance_filter(idx, labels.len());
    assert_eq!(labels[idx], "beta");
    idx = advance_filter(idx, labels.len());
    assert_eq!(labels[idx], "ALL");
}

#[test]
fn dashboard_rows_filter_and_truncate() {
    let mut state = AppState::new();
    state.add_alert(Severity::Low, "a".to_string(), "hidden low".to_string(), 1);
    state.add_alert(Severity::High, "a".to_string(), "on chain a".to_string(), 2);
    state.add_alert(Severity::Critical, "b".to_string(), "on chain b".to_string(), 3);
    state.add_alert(Severity::High, "a".to_string(), "x".repeat(60), 4);
    state.add_alert(Severity::High, "a".to_string(), "x".repeat(60), 5);

    let all = visible_rows(&state, "ALL", 10);
    // Low severity is hidden; most recent first.
    assert_eq!(all.len(), 3);
    assert_eq!(all[0].message, format!("{}... (x2)", "x".repeat(47)));
    assert_eq!(all[0].age_secs, 5);
    assert_eq!(all[1].chain, "b");
    assert_eq!(all[2].message, "on chain a");

    let only_a = visible_rows(&state, "a", 10);
    assert_eq!(only_a.len(), 2);
    assert!(only_a.iter().all(|r| r.chain == "a"));

    let only_b = visible_rows(&state, "b", 10);
    assert_eq!(only_b.len(), 1);
    assert_eq!(only_b[0].severity, Severity::Critical);
}

#[test]
fn dashboard_rows_are_capped_at_fifteen() {
    let mut state = AppState::new();
    for i in 0..20u64 {
        state.add_alert(Severity::High, "a".to_string(), format!("m{}", i), i);
    }
    let rows = visible_rows(&state, "ALL", 30);
    assert_eq!(rows.len(), 15);
    assert_eq!(rows[0].message, "m19");
    assert_eq!(rows[14].message, "m5");
}

#[test]
fn block_freshness_boundary() {
    assert!(block_is_fresh(100, 114));
    assert!(!block_is_fresh(100, 115));
    // A clock reading before the stamp counts as fresh, not as underflow.
    assert!(block_is_fresh(100, 90));
}

#[test]
fn severity_bars_order_and_counts() {
    let mut state = AppState::new();
    state.add_alert(Severity::Critical, "a".to_string(), "c".to_string(), 1);
    state.add_alert(Severity::Low, "a".to_string(), "l".to_string(), 2);
    state.add_alert(Severity::Low, "a".to_string(), "l2".to_string(), 3);
    let bars = severity_bars(&state.severity_counts);
    assert_eq!(bars[0], ("Critical".to_string(), 1));
    assert_eq!(bars[1], ("High".to_string(), 0));
    assert_eq!(bars[2], ("Medium".to_string(), 0));
    assert_eq!(bars[3], ("Low".to_string(), 2));
}

#[test]
fn dashboard_with_no_chains_and_no_alerts() {
    let state = AppState::new();
    assert_eq!(chain_filter_labels(&state), vec!["ALL"]);
    assert!(visible_rows(&state, "ALL", 5).is_empty());
    assert_eq!(advance_filter(0, 1), 0);
    assert_eq!(heights_line(&state.chain_heights), "No Chains Active");
}

#[test]
fn header_line_joins_chain_heights() {
    let mut state = AppState::new();
    state.update_block("ethereum", 123, 1);
    state.update_block("base", 45, 2);
    assert_eq!(heights_line(&state.chain_heights), "ethereum: #123 | base: #45");
}

#[test]
fn severity_labels_parse_with_low_fallback() {
    assert_eq!(severity_from_label("High"), Severity::High);
    assert_eq!(severity_from_label("Critical"), Severity::Critical);
    assert_eq!(severity_from_label("Medium"), Severity::Medium);
    assert_eq!(severity_from_label("Low"), Severity::Low);
    assert_eq!(severity_from_label("unheard of"), Severity::Low);
    assert_eq!(severity_from_label(""), Severity::Low);
}

#[test]
fn selection_prompt_parsing() {
    assert_eq!(parse_selection("2\n", 3), Selection::One(1));
    assert_eq!(parse_selection(" 1 ", 3), Selection::One(0));
    assert_eq!(parse_selection("3", 3), Selection::One(2));
    // The extra "Monitor All" entry.
    assert_eq!(parse_selection("4\n", 3), Selection::All);
    // Invalid input defaults to all.
    assert_eq!(parse_selection("0", 3), Selection::All);
    assert_eq!(parse_selection("abc", 3), Selection::All);
    assert_eq!(parse_selection("", 3), Selection::All);
    assert_eq!(parse_selection("   \n", 3), Selection::All);
    assert_eq!(parse_selection("99999999999999999999999999", 3), Selection::All);
}

#[test]
fn chain_filtering_and_rpc_override() {
    let chains = vec![
        (
            "ethereum".to_string(),
            ChainConfig { rpc_url: "wss://eth.invalid".to_string(), chain_id: 1 },
        ),
        (
            "base".to_string(),
            ChainConfig { rpc_url: "wss://base.invalid".to_string(), chain_id: 8453 },
        ),
    ];
    let kept = filter_chains(chains, "base");
    assert_eq!(kept.len(), 1);
    assert_eq!(kept[0].0, "base");
    assert_eq!(kept[0].1.chain_id, 8453);

    let mut chains2 = vec![
        (
            "ethereum".to_string(),
            ChainConfig { rpc_url: "wss://eth.invalid".to_string(), chain_id: 1 },
        ),
        (
            "base".to_string(),
            ChainConfig { rpc_url: "wss://base.invalid".to_string(), chain_id: 8453 },
        ),
    ];
    override_ethereum_rpc(&mut chains2, "wss://override.invalid".to_string());
    assert_eq!(chains2[0].1.rpc_url, "wss://override.invalid");
    assert_eq!(chains2[1].1.rpc_url, "wss://base.invalid");
}

#[test]
fn configured_engine_matches_scenario() {
    // An unparsable minimum falls back to 1000.
    let engine = engine_from_rules(&RulesConfig {
        transfer_threshold: TransferRuleConfig {
            min_value: "not-a-number".to_string(),
            severity: "High".to_string(),
        },
        ownership_change: OwnershipRuleConfig { enabled: false, severity: "Low".to_string() },
    });
    let results = engine.process(&transfer_event("1000"));
    assert_eq!(results.len(), 1);
    assert_eq!(results[0].0, "Large Transfer Detected: 1000 > 1000");
    assert_eq!(results[0].1, Severity::High);
    assert!(engine.process(&transfer_event("999")).is_empty());
}

#[test]
fn simulated_events_feed_the_pipeline() {
    let e = simulated_event(0, 123);
    assert!(matches!(e.event_type, EventType::Transfer));
    assert_eq!(e.chain_name, "Simulation");
    assert_eq!(e.chain_id, 1);
    assert_eq!(e.block_number, 1000);
    assert_eq!(e.severity, Severity::Low);
    assert_eq!(e.contract_address, vec![0u8; 20]);
    assert_eq!(e.data[0], ("value".to_string(), "123".to_string()));
    assert_eq!(
        e.data[1],
        ("from".to_string(), "0x000000000000000000000000000000000000dead".to_string())
    );
    assert!(matches!(simulated_event(1, 1).event_type, EventType::Approval));
    assert!(matches!(
        simulated_event(2, 1).event_type,
        EventType::OwnershipTransferred
    ));

    // A simulated transfer above a configured threshold triggers the rule.
    let engine = engine_from_rules(&RulesConfig {
        transfer_threshold: TransferRuleConfig {
            min_value: "1000".to_string(),
            severity: "High".to_string(),
        },
        ownership_change: OwnershipRuleConfig { enabled: false, severity: "Low".to_string() },
    });
    let hits = engine.process(&simulated_event(0, 5_000_000_000));
    assert_eq!(hits.len(), 1);
    assert_eq!(hits[0].0, "Large Transfer Detected: 5000000000 > 1000");
}

#[test]
fn app_config_holds_the_pieces() {
    let config = AppConfig {
        chains: vec![(
            "ethereum".to_string(),
            ChainConfig { rpc_url: "wss://eth.invalid".to_string(), chain_id: 1 },
        )],
        contracts: Vec::new(),
        rules: RulesConfig {
            transfer_threshold: TransferRuleConfig {
                min_value: "1000".to_string(),
                severity: "High".to_string(),
            },
            ownership_change: OwnershipRuleConfig { enabled: true, severity: "High".to_string() },
        },
        alerts: webhook_only(),
    };
    assert_eq!(config.chains.len(), 1);
    // An empty chain list is a valid configuration: nothing subscribes but
    // the rest of the pipeline still runs.
    let empty = filter_chains(config.chains, "nowhere");
    assert!(empty.is_empty());
}
