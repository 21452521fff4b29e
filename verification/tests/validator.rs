use wifi_discovery::bssid::is_valid_bssid;

#[test]
fn accepts_canonical_address() {
    assert!(is_valid_bssid("AA:BB:CC:DD:EE:FF"));
}

#[test]
fn accepts_lowercase_address() {
    assert!(is_valid_bssid("aa:bb:cc:dd:ee:ff"));
}

#[test]
fn rejects_wrong_shapes() {
    assert!(!is_valid_bssid(""));
    assert!(!is_valid_bssid("not-a-mac"));
    assert!(!is_valid_bssid("aa:bb:cc:dd:ee"));
    assert!(!is_valid_bssid("aa:bb:cc:dd:ee:ff:00"));
    assert!(!is_valid_bssid("aa-bb-cc-dd-ee-ff"));
    assert!(!is_valid_bssid("aa:bb:cc:dd:ee:fg"));
    assert!(!is_valid_bssid("aa:bb:cc:dd:ee:f"));
    assert!(!is_valid_bssid("aaa:bb:cc:dd:ee:ff"));
}
