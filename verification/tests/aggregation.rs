use wifi_discovery::aggregate::aggregate;
use wifi_discovery::parse::{parse_output, LineFormat};
use wifi_discovery::record::WifiRecord;

fn rec(ssid: &str, bssid: &str, signal: &str) -> WifiRecord {
    WifiRecord {
        ssid: String::from(ssid),
        bssid: String::from(bssid),
        signal: String::from(signal),
    }
}

#[test]
fn dedup_is_case_insensitive_and_counts_distinct() {
    let cs = vec![
        rec("NetA", "aa:bb:cc:dd:ee:ff", "-45"),
        rec("NetB", "AA:BB:CC:DD:EE:FF", "-50"),
        rec("NetC", "11:22:33:44:55:66", "-60"),
        rec("NetD", "Aa:Bb:Cc:Dd:Ee:Ff", "-70"),
    ];
    let out = aggregate(&cs);
    // Two distinct normalized addresses, so exactly two records.
    assert_eq!(out.len(), 2);
    for w in &out {
        assert!(w.bssid == "AA:BB:CC:DD:EE:FF" || w.bssid == "11:22:33:44:55:66");
    }
}

#[test]
fn dedup_keeps_first_encountered() {
    let cs = vec![
        rec("First", "aa:bb:cc:dd:ee:ff", "-45"),
        rec("Second", "AA:BB:CC:DD:EE:FF", "-50"),
    ];
    let out = aggregate(&cs);
    assert_eq!(out.len(), 1);
    assert_eq!(out[0].ssid, "First");
    assert_eq!(out[0].bssid, "AA:BB:CC:DD:EE:FF");
    assert_eq!(out[0].signal, "-45");
}

#[test]
fn output_is_sorted_by_address() {
    let cs = vec![
        rec("C", "cc:cc:cc:cc:cc:cc", ""),
        rec("A", "aa:aa:aa:aa:aa:aa", ""),
        rec("B", "BB:BB:BB:BB:BB:BB", ""),
    ];
    let out = aggregate(&cs);
    assert_eq!(out.len(), 3);
    assert_eq!(out[0].bssid, "AA:AA:AA:AA:AA:AA");
    assert_eq!(out[1].bssid, "BB:BB:BB:BB:BB:BB");
    assert_eq!(out[2].bssid, "CC:CC:CC:CC:CC:CC");
}

#[test]
fn aggregate_of_empty_is_empty() {
    let out = aggregate(&Vec::new());
    assert_eq!(out.len(), 0);
}

#[test]
fn addresses_are_uppercased_and_other_fields_kept() {
    let cs = vec![rec("Net", "0d:ea:db:ee:f0:01", "31/70")];
    let out = aggregate(&cs);
    assert_eq!(out.len(), 1);
    assert_eq!(out[0].bssid, "0D:EA:DB:EE:F0:01");
    assert_eq!(out[0].ssid, "Net");
    assert_eq!(out[0].signal, "31/70");
}

#[test]
fn tabular_scan_aggregates_to_canonical_record() {
    let fmt = LineFormat::Tabular { name_first: true };
    let cs = parse_output(&fmt, "SSID BSSID SIGNAL\nHomeNet aa:bb:cc:dd:ee:ff -45");
    let out = aggregate(&cs);
    assert_eq!(out.len(), 1);
    assert_eq!(out[0].ssid, "HomeNet");
    assert_eq!(out[0].bssid, "AA:BB:CC:DD:EE:FF");
    assert_eq!(out[0].signal, "-45");
}
