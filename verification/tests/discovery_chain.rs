use wifi_discovery::chain::{
    kind_plan, AdapterKind, ChainAction, DiscoveryChain, DiscoveryResult, InvocationPlan,
    ProbeAttempt,
};

fn attempt(kind: AdapterKind, invoked: bool, ok: bool, out: &str, err: &str) -> ProbeAttempt {
    ProbeAttempt {
        kind,
        invoked,
        exit_succeeded: ok,
        raw_output: String::from(out),
        raw_error: String::from(err),
    }
}

fn failed_attempt(kind: AdapterKind) -> ProbeAttempt {
    attempt(kind, false, false, "", "tool not found")
}

#[test]
fn standard_chain_order() {
    let mut chain = DiscoveryChain::standard();
    let expected = [
        AdapterKind::NetworkManagerList,
        AdapterKind::WirelessToolsScan,
        AdapterKind::Nl80211Scan,
        AdapterKind::WirelessStats,
    ];
    for kind in expected {
        match chain.next_action() {
            ChainAction::Invoke(k) => {
                assert!(k == kind);
                chain.feed(failed_attempt(k));
            }
            ChainAction::Done => panic!("chain ended early"),
        }
    }
    assert!(matches!(chain.next_action(), ChainAction::Done));
}

#[test]
fn first_success_short_circuits() {
    let mut chain = DiscoveryChain::standard();
    match chain.next_action() {
        ChainAction::Invoke(k) => {
            assert!(k == AdapterKind::NetworkManagerList);
            // The NetworkManager listing is tabular with the address first.
            chain.feed(attempt(
                k,
                true,
                true,
                "BSSID SSID SIGNAL\naa:bb:cc:dd:ee:ff HomeNet 70",
                "",
            ));
        }
        ChainAction::Done => panic!("chain ended before any adapter ran"),
    }
    // The second adapter is never asked for: the chain is done.
    assert!(matches!(chain.next_action(), ChainAction::Done));
    match chain.finish() {
        DiscoveryResult::Records(rs) => {
            assert_eq!(rs.len(), 1);
            assert_eq!(rs[0].bssid, "AA:BB:CC:DD:EE:FF");
            assert_eq!(rs[0].ssid, "HomeNet");
        }
        DiscoveryResult::Exhausted { .. } => panic!("expected records"),
    }
}

#[test]
fn conflicting_names_resolve_to_the_successful_adapter() {
    // Two adapters would report the same address with different names; only
    // the first successful adapter's output ever reaches the aggregate.
    let mut chain = DiscoveryChain::standard();
    match chain.next_action() {
        ChainAction::Invoke(k) => chain.feed(attempt(
            k,
            true,
            true,
            "BSSID SSID\nAA:BB:CC:DD:EE:FF NameFromFirst",
            "",
        )),
        ChainAction::Done => panic!("chain ended early"),
    }
    assert!(matches!(chain.next_action(), ChainAction::Done));
    match chain.finish() {
        DiscoveryResult::Records(rs) => {
            assert_eq!(rs.len(), 1);
            assert_eq!(rs[0].bssid, "AA:BB:CC:DD:EE:FF");
            assert_eq!(rs[0].ssid, "NameFromFirst");
        }
        DiscoveryResult::Exhausted { .. } => panic!("expected records"),
    }
}

#[test]
fn fallback_reaches_later_adapter() {
    let mut chain = DiscoveryChain::standard();
    // nmcli missing.
    chain.feed(failed_attempt(AdapterKind::NetworkManagerList));
    // iwlist runs but exits non-zero.
    chain.feed(attempt(
        AdapterKind::WirelessToolsScan,
        true,
        false,
        "",
        "Operation not permitted",
    ));
    // iw succeeds.
    match chain.next_action() {
        ChainAction::Invoke(k) => {
            assert!(k == AdapterKind::Nl80211Scan);
            chain.feed(attempt(k, true, true, "BSS 11:22:33:44:55:66(on wlan0)", ""));
        }
        ChainAction::Done => panic!("chain should still be probing"),
    }
    assert!(matches!(chain.next_action(), ChainAction::Done));
    match chain.finish() {
        DiscoveryResult::Records(rs) => {
            assert_eq!(rs.len(), 1);
            assert_eq!(rs[0].bssid, "11:22:33:44:55:66");
            assert_eq!(rs[0].ssid, "unknown network name");
        }
        DiscoveryResult::Exhausted { .. } => panic!("expected records"),
    }
}

#[test]
fn exhaustion_reports_every_attempt() {
    let mut chain = DiscoveryChain::standard();
    chain.feed(failed_attempt(AdapterKind::NetworkManagerList));
    chain.feed(attempt(
        AdapterKind::WirelessToolsScan,
        true,
        false,
        "",
        "no scan results",
    ));
    chain.feed(attempt(AdapterKind::Nl80211Scan, true, true, "no networks", ""));
    chain.feed(attempt(
        AdapterKind::WirelessStats,
        true,
        true,
        "Inter-| sta-|   Quality",
        "",
    ));
    assert!(matches!(chain.next_action(), ChainAction::Done));
    match chain.finish() {
        DiscoveryResult::Records(_) => panic!("nothing should have succeeded"),
        DiscoveryResult::Exhausted { reports, hints } => {
            assert_eq!(reports.len(), 4);
            assert_eq!(reports[0].adapter_name, "nmcli");
            assert!(!reports[0].invoked);
            assert_eq!(reports[0].error_excerpt, "tool not found");
            assert_eq!(reports[1].adapter_name, "iwlist");
            assert!(reports[1].invoked);
            assert!(!reports[1].exit_succeeded);
            assert_eq!(reports[2].adapter_name, "iw");
            assert_eq!(reports[2].output_excerpt, "no networks");
            assert_eq!(reports[3].adapter_name, "proc-net-wireless");
            assert!(!hints.is_empty());
            assert!(hints.iter().any(|h| h.contains("nmcli")));
        }
    }
}

#[test]
fn nothing_applicable_yields_diagnostics_not_data() {
    // No adapter could even be invoked: the result is a diagnostic payload,
    // never a fabricated record.
    let mut chain = DiscoveryChain::standard();
    while let ChainAction::Invoke(k) = chain.next_action() {
        chain.feed(failed_attempt(k));
    }
    match chain.finish() {
        DiscoveryResult::Records(_) => panic!("no adapter ran, so no records can exist"),
        DiscoveryResult::Exhausted { reports, hints } => {
            assert_eq!(reports.len(), 4);
            assert!(!hints.is_empty());
            for r in &reports {
                assert!(!r.invoked);
            }
        }
    }
}

#[test]
fn long_captures_are_truncated_in_reports() {
    let long = "x".repeat(1000);
    let mut chain = DiscoveryChain::standard();
    chain.feed(attempt(
        AdapterKind::NetworkManagerList,
        true,
        false,
        &long,
        &long,
    ));
    chain.feed(failed_attempt(AdapterKind::WirelessToolsScan));
    chain.feed(failed_attempt(AdapterKind::Nl80211Scan));
    chain.feed(failed_attempt(AdapterKind::WirelessStats));
    match chain.finish() {
        DiscoveryResult::Records(_) => panic!("nothing succeeded"),
        DiscoveryResult::Exhausted { reports, .. } => {
            assert_eq!(reports[0].output_excerpt.chars().count(), 200);
            assert_eq!(reports[0].error_excerpt.chars().count(), 200);
        }
    }
}

#[test]
fn stats_probe_never_contributes_records() {
    let mut chain = DiscoveryChain::standard();
    chain.feed(failed_attempt(AdapterKind::NetworkManagerList));
    chain.feed(failed_attempt(AdapterKind::WirelessToolsScan));
    chain.feed(failed_attempt(AdapterKind::Nl80211Scan));
    // Even output that looks like records cannot come from the statistics
    // probe: it has no record-bearing format.
    chain.feed(attempt(
        AdapterKind::WirelessStats,
        true,
        true,
        "SSID BSSID\nNet aa:bb:cc:dd:ee:ff",
        "",
    ));
    assert!(matches!(chain.finish(), DiscoveryResult::Exhausted { .. }));
}

#[test]
fn invocation_plans_are_fixed_and_non_interactive() {
    match kind_plan(AdapterKind::NetworkManagerList) {
        InvocationPlan::Command { program, args } => {
            assert_eq!(program, "nmcli");
            assert_eq!(args, vec!["device", "wifi", "list"]);
        }
        _ => panic!("the NetworkManager listing is a plain command"),
    }
    match kind_plan(AdapterKind::WirelessToolsScan) {
        InvocationPlan::PerInterfaceCommand { program, trailing_arg } => {
            assert_eq!(program, "iwlist");
            assert_eq!(trailing_arg, "scan");
        }
        _ => panic!("the wireless-tools scan is interface-scoped"),
    }
    match kind_plan(AdapterKind::Nl80211Scan) {
        InvocationPlan::PerInterfaceCommand { program, trailing_arg } => {
            assert_eq!(program, "iw");
            assert_eq!(trailing_arg, "scan");
        }
        _ => panic!("the nl80211 scan is interface-scoped"),
    }
    match kind_plan(AdapterKind::WirelessStats) {
        InvocationPlan::ReadFile { path } => assert_eq!(path, "/proc/net/wireless"),
        _ => panic!("the statistics probe reads a pseudo-file"),
    }
}
