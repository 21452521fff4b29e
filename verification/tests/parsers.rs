use wifi_discovery::parse::{parse_output, LineFormat};

fn tabular_name_first() -> LineFormat {
    LineFormat::Tabular { name_first: true }
}

fn tabular_address_first() -> LineFormat {
    LineFormat::Tabular { name_first: false }
}

fn key_prefixed() -> LineFormat {
    LineFormat::KeyPrefixed {
        marker: String::from("Address:"),
    }
}

#[test]
fn tabular_scenario_one_record() {
    let out = parse_output(
        &tabular_name_first(),
        "SSID BSSID SIGNAL\nHomeNet aa:bb:cc:dd:ee:ff -45",
    );
    assert_eq!(out.len(), 1);
    assert_eq!(out[0].ssid, "HomeNet");
    assert_eq!(out[0].bssid, "aa:bb:cc:dd:ee:ff");
    assert_eq!(out[0].signal, "-45");
}

#[test]
fn tabular_skips_header_line() {
    // The header line itself looks like data for an address-first layout,
    // but it is always skipped.
    let out = parse_output(
        &tabular_address_first(),
        "aa:bb:cc:dd:ee:ff HeaderNet 10\n11:22:33:44:55:66 RealNet 20",
    );
    assert_eq!(out.len(), 1);
    assert_eq!(out[0].bssid, "11:22:33:44:55:66");
    assert_eq!(out[0].ssid, "RealNet");
    assert_eq!(out[0].signal, "20");
}

#[test]
fn tabular_address_first_columns() {
    let out = parse_output(
        &tabular_address_first(),
        "BSSID SSID SIGNAL\naa:bb:cc:dd:ee:ff MyNet 70\nbad-line\ncc:dd:ee:ff:00:11 Other",
    );
    assert_eq!(out.len(), 2);
    assert_eq!(out[0].bssid, "aa:bb:cc:dd:ee:ff");
    assert_eq!(out[0].ssid, "MyNet");
    assert_eq!(out[0].signal, "70");
    assert_eq!(out[1].bssid, "cc:dd:ee:ff:00:11");
    assert_eq!(out[1].ssid, "Other");
    assert_eq!(out[1].signal, "");
}

#[test]
fn tabular_invalid_address_dropped() {
    let out = parse_output(
        &tabular_name_first(),
        "SSID BSSID\nNetA not-a-mac\nNetB aa:bb:cc:dd:ee:ff",
    );
    assert_eq!(out.len(), 1);
    assert_eq!(out[0].ssid, "NetB");
}

#[test]
fn tabular_empty_input() {
    assert_eq!(parse_output(&tabular_name_first(), "").len(), 0);
    assert_eq!(parse_output(&tabular_name_first(), "SSID BSSID SIGNAL").len(), 0);
}

#[test]
fn key_prefixed_scenario_drops_malformed() {
    let out = parse_output(
        &key_prefixed(),
        "Address: 11:22:33:44:55:66\nAddress: not-a-mac",
    );
    assert_eq!(out.len(), 1);
    assert_eq!(out[0].bssid, "11:22:33:44:55:66");
    assert_eq!(out[0].ssid, "unknown network name");
    assert_eq!(out[0].signal, "");
}

#[test]
fn key_prefixed_marker_in_indented_block() {
    let out = parse_output(
        &key_prefixed(),
        "Cell 01 - Address: AA:BB:CC:DD:EE:FF   \n          Quality=70/70",
    );
    assert_eq!(out.len(), 1);
    assert_eq!(out[0].bssid, "AA:BB:CC:DD:EE:FF");
}

#[test]
fn key_prefixed_no_marker_no_records() {
    let out = parse_output(&key_prefixed(), "nothing here\nat all");
    assert_eq!(out.len(), 0);
}

#[test]
fn section_header_strips_parenthetical() {
    let out = parse_output(
        &LineFormat::SectionHeader,
        "BSS aa:bb:cc:dd:ee:ff(on wlan0)\n\tsignal: -45.00 dBm\nBSS 11:22:33:44:55:66 (on wlan0)",
    );
    assert_eq!(out.len(), 2);
    assert_eq!(out[0].bssid, "aa:bb:cc:dd:ee:ff");
    assert_eq!(out[0].ssid, "unknown network name");
    assert_eq!(out[1].bssid, "11:22:33:44:55:66");
}

#[test]
fn section_header_ignores_other_lines() {
    let out = parse_output(&LineFormat::SectionHeader, "BSSX aa:bb:cc:dd:ee:ff\nBSS\nBSS not-a-mac");
    assert_eq!(out.len(), 0);
}

#[test]
fn parsing_is_deterministic_across_repetition() {
    let raw = "SSID BSSID SIGNAL\nHomeNet aa:bb:cc:dd:ee:ff -45\nOther 11:22:33:44:55:66 -60";
    let fmt = tabular_name_first();
    let first = parse_output(&fmt, raw);
    let second = parse_output(&fmt, raw);
    assert_eq!(first.len(), second.len());
    for (a, b) in first.iter().zip(second.iter()) {
        assert_eq!(a.ssid, b.ssid);
        assert_eq!(a.bssid, b.bssid);
        assert_eq!(a.signal, b.signal);
    }
    // A different format over the same text is a different parse, but it is
    // just as repeatable.
    let third = parse_output(&tabular_address_first(), raw);
    let fourth = parse_output(&tabular_address_first(), raw);
    assert_eq!(third.len(), fourth.len());
}
