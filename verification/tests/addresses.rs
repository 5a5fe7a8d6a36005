use pan_registrar::netaddr::{
    client_ip, ip_text, is_infrastructure, read_dec_octet, read_hex_group, read_ip, read_ipv4,
    read_ipv6, IpAddress,
};

fn chars(s: &str) -> Vec<char> {
    s.chars().collect()
}

fn parse(s: &str) -> Option<IpAddress> {
    read_ip(&chars(s))
}

fn round_trip(s: &str) -> Option<String> {
    parse(s).map(|a| ip_text(&a))
}

#[test]
fn octets_and_groups() {
    assert_eq!(read_dec_octet(&chars("255")), Some(255));
    assert_eq!(read_dec_octet(&chars("256")), None);
    assert_eq!(read_dec_octet(&chars("01")), None);
    assert_eq!(read_dec_octet(&chars("0")), Some(0));
    assert_eq!(read_dec_octet(&chars("")), None);
    assert_eq!(read_hex_group(&chars("ffff")), Some(0xffff));
    assert_eq!(read_hex_group(&chars("0DB8")), Some(0x0db8));
    assert_eq!(read_hex_group(&chars("12345")), None);
    assert_eq!(read_hex_group(&chars("g")), None);
}

#[test]
fn ipv4_reading() {
    assert_eq!(read_ipv4(&chars("192.168.0.1")), Some([192, 168, 0, 1]));
    assert_eq!(read_ipv4(&chars("1.2.3")), None);
    assert_eq!(read_ipv4(&chars("1.2.3.4.5")), None);
    assert_eq!(read_ipv4(&chars("1.2.3.04")), None);
    assert_eq!(read_ipv4(&chars(" 1.2.3.4")), None);
}

#[test]
fn ipv6_reading() {
    assert_eq!(read_ipv6(&chars("::1")), Some([0, 0, 0, 0, 0, 0, 0, 1]));
    assert_eq!(read_ipv6(&chars("2001:db8::8:800:200c:417a")), Some([0x2001, 0xdb8, 0, 0, 8, 0x800, 0x200c, 0x417a]));
    assert_eq!(read_ipv6(&chars("::ffff:10.0.0.1")), Some([0, 0, 0, 0, 0, 0xffff, 0x0a00, 0x0001]));
    assert_eq!(read_ipv6(&chars("1::2::3")), None);
    assert_eq!(read_ipv6(&chars("1:2:3:4:5:6:7:8:9")), None);
    assert_eq!(read_ipv6(&chars("::")), Some([0; 8]));
}

#[test]
fn addresses_display_like_std() {
    for (input, shown) in [
        ("10.0.0.1", "10.0.0.1"),
        ("::1", "::1"),
        ("2001:DB8:0:0:8:800:200C:417A", "2001:db8::8:800:200c:417a"),
        ("2001:db8:0:0:1:0:0:1", "2001:db8::1:0:0:1"),
        ("::ffff:1.2.3.4", "::ffff:1.2.3.4"),
        ("fe80::1", "fe80::1"),
        ("1:0:2:3:4:5:6:7", "1:0:2:3:4:5:6:7"),
        ("::", "::"),
        ("::2:3:4:5:6:7:8", "0:2:3:4:5:6:7:8"),
    ] {
        assert_eq!(round_trip(input).as_deref(), Some(shown), "{input}");
    }
    assert_eq!(round_trip("not an ip"), None);
}

#[test]
fn infrastructure_ranges() {
    for ip in ["10.1.2.3", "172.16.0.1", "172.31.255.255", "192.168.1.1", "127.0.0.1", "169.254.0.9", "130.211.3.7", "35.191.10.10", "::1", "fd00::5"] {
        let a = parse(ip).unwrap();
        assert!(is_infrastructure(&a), "{ip}");
    }
    for ip in ["8.8.8.8", "172.32.0.1", "130.211.4.1", "35.190.0.1", "2001:db8::1"] {
        let a = parse(ip).unwrap();
        assert!(!is_infrastructure(&a), "{ip}");
    }
}

#[test]
fn client_ip_scans_from_the_right() {
    let lb = "8.233.242.102";
    assert_eq!(
        client_ip(Some("1.1.1.1, 203.0.113.9, 130.211.0.5"), None, lb),
        Some("203.0.113.9".to_string())
    );
    assert_eq!(
        client_ip(Some("203.0.113.9, 8.233.242.102, 35.191.0.1"), None, lb),
        Some("203.0.113.9".to_string())
    );
    assert_eq!(client_ip(Some(" garbage , 198.51.100.7 "), None, lb), Some("198.51.100.7".to_string()));
}

#[test]
fn planted_entries_are_never_reached_first() {
    let lb = "8.233.242.102";
    let honest = "198.51.100.7";
    for planted in ["6.6.6.6", "6.6.6.6, 7.7.7.7", "not-an-ip"] {
        let xff = format!("{planted}, {honest}, 35.191.3.4");
        assert_eq!(client_ip(Some(&xff), None, lb), Some(honest.to_string()));
    }
}

#[test]
fn client_ip_falls_back_to_the_peer() {
    let peer = IpAddress::V4([192, 0, 2, 1]);
    assert_eq!(client_ip(None, Some(&peer), "8.233.242.102"), Some("192.0.2.1".to_string()));
    assert_eq!(client_ip(Some("10.0.0.1"), Some(&peer), "8.233.242.102"), Some("192.0.2.1".to_string()));
    assert_eq!(client_ip(Some("10.0.0.1"), None, "8.233.242.102"), None);
    let v6 = IpAddress::V6([0x2001, 0xdb8, 0, 0, 0, 0, 0, 1]);
    assert_eq!(client_ip(None, Some(&v6), ""), Some("2001:db8::1".to_string()));
}

#[test]
fn load_balancer_list_is_comma_separated() {
    assert_eq!(
        client_ip(Some("203.0.113.1, 203.0.113.2"), None, "203.0.113.9, 203.0.113.2"),
        Some("203.0.113.1".to_string())
    );
}
