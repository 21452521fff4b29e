use wifi_discovery::interfaces::{
    conventional_interface_names, extract_interface_name, filter_wireless, link_listing_names,
    select_interfaces, InterfaceEntry,
};

fn entry(name: &str, wireless: bool) -> InterfaceEntry {
    InterfaceEntry {
        name: String::from(name),
        wireless,
    }
}

#[test]
fn extracts_wireless_name_from_link_line() {
    let r = extract_interface_name("2: wlan0: <BROADCAST,MULTICAST,UP> mtu 1500");
    assert_eq!(r, Some(String::from("wlan0")));
}

#[test]
fn extracts_wifi_prefixed_name() {
    let r = extract_interface_name("3: wifi0: <BROADCAST>");
    assert_eq!(r, Some(String::from("wifi0")));
}

#[test]
fn rejects_wired_interface_line() {
    assert_eq!(extract_interface_name("1: eth0: <BROADCAST,MULTICAST,UP>"), None);
}

#[test]
fn rejects_line_with_one_token() {
    assert_eq!(extract_interface_name("wlan0"), None);
    assert_eq!(extract_interface_name(""), None);
}

#[test]
fn strips_every_trailing_colon() {
    assert_eq!(
        extract_interface_name("2: wlp2s0:: extra"),
        Some(String::from("wlp2s0"))
    );
}

#[test]
fn link_listing_collects_wireless_names() {
    let raw = "1: lo: <LOOPBACK,UP,LOWER_UP> mtu 65536\n\
               2: eth0: <BROADCAST,MULTICAST,UP> mtu 1500\n\
               3: wlan0: <BROADCAST,MULTICAST,UP> mtu 1500\n\
               4: wlp3s0: <BROADCAST,MULTICAST> mtu 1500";
    let names = link_listing_names(raw);
    assert_eq!(names, vec![String::from("wlan0"), String::from("wlp3s0")]);
}

#[test]
fn filter_keeps_only_marked_entries() {
    let es = vec![entry("lo", false), entry("wlan0", true), entry("eth0", false)];
    let names = filter_wireless(&es);
    assert_eq!(names, vec![String::from("wlan0")]);
}

#[test]
fn conventional_names_start_with_wlan0() {
    let names = conventional_interface_names();
    assert_eq!(names.len(), 11);
    assert_eq!(names[0], "wlan0");
    assert!(names.contains(&String::from("wlo1")));
}

#[test]
fn select_prefers_the_first_non_empty_tier() {
    let a = vec![String::from("wlan0")];
    let b = vec![String::from("wlan1")];
    let c = vec![String::from("wlan2")];
    let picked = select_interfaces(a, b.clone(), c.clone());
    assert_eq!(picked.len(), 1);
    assert_eq!(picked[0].name, "wlan0");

    let picked = select_interfaces(Vec::new(), b, c.clone());
    assert_eq!(picked[0].name, "wlan1");

    let picked = select_interfaces(Vec::new(), Vec::new(), c);
    assert_eq!(picked[0].name, "wlan2");

    let picked = select_interfaces(Vec::new(), Vec::new(), Vec::new());
    assert!(picked.is_empty());
}
