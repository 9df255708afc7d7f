use comapi::address::{
    get_interface_by_ipv4_prefix, get_ipv6, get_ipv6_by_interface, get_ipv6_by_ipv4_prefix,
    IfAddress, IpFamily, NetworkInterface,
};
use comapi::ok;

fn v4(text: &str) -> IfAddress {
    IfAddress { family: IpFamily::V4, text: text.to_string() }
}

fn v6(text: &str) -> IfAddress {
    IfAddress { family: IpFamily::V6, text: text.to_string() }
}

fn iface(name: &str, addrs: Vec<IfAddress>) -> NetworkInterface {
    NetworkInterface { name: name.to_string(), addrs }
}

fn host() -> Vec<NetworkInterface> {
    vec![
        iface("lo", vec![v4("127.0.0.1"), v6("::1")]),
        iface("eth0", vec![v4("192.168.1.20"), v6("fe80::1"), v6("2001:db8::20")]),
        iface("wg0", vec![v4("10.8.0.3"), v6("fd00::3")]),
    ]
}

#[test]
fn ok_answers_ok() {
    assert_eq!(ok(), "ok");
}

#[test]
fn no_matching_address_gives_empty() {
    let ifs = host();
    assert_eq!(get_ipv6(&ifs, &ifs, "172.16."), "");
    assert_eq!(get_ipv6_by_ipv4_prefix(&ifs, &ifs, "172.16."), None);
}

#[test]
fn no_interfaces_gives_empty() {
    let ifs: Vec<NetworkInterface> = Vec::new();
    assert_eq!(get_ipv6(&ifs, &ifs, "10."), "");
}

#[test]
fn matching_interface_gives_its_first_ipv6() {
    let ifs = host();
    assert_eq!(get_ipv6(&ifs, &ifs, "192.168.1."), "fe80::1");
    assert_eq!(get_ipv6(&ifs, &ifs, "10.8."), "fd00::3");
}

#[test]
fn matching_interface_without_ipv6_gives_empty() {
    let ifs = vec![
        iface("lo", vec![v4("127.0.0.1"), v6("::1")]),
        iface("eth1", vec![v4("10.0.0.7")]),
    ];
    assert_eq!(get_ipv6(&ifs, &ifs, "10.0."), "");
    assert_eq!(get_ipv6_by_ipv4_prefix(&ifs, &ifs, "10.0."), None);
}

#[test]
fn first_matching_interface_is_chosen() {
    let ifs = vec![
        iface("eth0", vec![v4("10.1.0.1"), v6("fe80::a")]),
        iface("eth1", vec![v4("10.2.0.1"), v6("fe80::b")]),
    ];
    assert_eq!(get_ipv6(&ifs, &ifs, "10."), "fe80::a");
    assert_eq!(get_interface_by_ipv4_prefix(&ifs, "10."), Some("eth0".to_string()));
    assert_eq!(get_interface_by_ipv4_prefix(&ifs, "10.2"), Some("eth1".to_string()));
}

#[test]
fn ipv6_text_can_match_the_prefix() {
    let ifs = vec![
        iface("eth0", vec![v4("192.168.0.2")]),
        iface("tun0", vec![v6("fd12::9")]),
    ];
    assert_eq!(get_ipv6(&ifs, &ifs, "fd12"), "fd12::9");
}

#[test]
fn address_is_taken_from_the_later_listing() {
    let scan = vec![iface("eth0", vec![v4("192.168.5.5"), v6("fe80::old")])];
    let rescan = vec![
        iface("lo", vec![v6("::1")]),
        iface("eth0", vec![v4("192.168.5.5"), v6("fe80::new")]),
    ];
    assert_eq!(get_ipv6(&scan, &rescan, "192.168.5"), "fe80::new");
    let gone: Vec<NetworkInterface> = vec![iface("lo", vec![v6("::1")])];
    assert_eq!(get_ipv6(&scan, &gone, "192.168.5"), "");
}

#[test]
fn lookup_by_name() {
    let ifs = host();
    assert_eq!(get_ipv6_by_interface(&ifs, "eth0"), Some("fe80::1".to_string()));
    assert_eq!(get_ipv6_by_interface(&ifs, "eth"), None);
    assert_eq!(get_ipv6_by_interface(&ifs, "docker0"), None);
    assert_eq!(get_interface_by_ipv4_prefix(&ifs, "127."), Some("lo".to_string()));
    assert_eq!(get_interface_by_ipv4_prefix(&ifs, ""), Some("lo".to_string()));
}
