use serverare::address::format_ip;
use serverare::firewall::{get_rule_name, ip_list};
use serverare::models::{IpAddress, Relay};
use serverare::text::{decimal_string, str_contains, str_eq, str_le};

#[test]
fn contains_finds_substrings() {
    assert!(str_contains("Hong Kong (Tencent)", "Kong"));
    assert!(str_contains("abc", "abc"));
    assert!(str_contains("abc", ""));
    assert!(str_contains("", ""));
    assert!(!str_contains("abc", "abcd"));
    assert!(!str_contains("Sweden", "sweden"));
    assert!(str_contains("aaab", "aab"));
}

#[test]
fn equality_and_order_of_texts() {
    assert!(str_eq("include", "include"));
    assert!(!str_eq("include", "Include"));
    assert!(str_le("Amsterdam", "Atlanta"));
    assert!(!str_le("Atlanta", "Amsterdam"));
    assert!(str_le("Hong", "Hong Kong"));
    assert!(!str_le("Hong Kong", "Hong"));
    assert!(str_le("", ""));
    assert!(str_le("Zürich", "Zürich"));
    assert!(str_le("Z", "a"));
}

#[test]
fn decimal_notation() {
    assert_eq!(decimal_string(0), "0");
    assert_eq!(decimal_string(7), "7");
    assert_eq!(decimal_string(80), "80");
    assert_eq!(decimal_string(4294967295), "4294967295");
}

#[test]
fn rule_names_drop_white_space() {
    assert_eq!(get_rule_name("Hong Kong"), "serverare_HongKong");
    assert_eq!(get_rule_name(" a\tb\nc\u{a0}d\u{3000}e "), "serverare_abcde");
    assert_eq!(get_rule_name(""), "serverare_");
    assert_eq!(get_rule_name("Sweden"), "serverare_Sweden");
}

fn v4(a: u8, b: u8, c: u8, d: u8) -> IpAddress {
    IpAddress::V4([a, b, c, d])
}

#[test]
fn ipv4_text() {
    assert_eq!(format_ip(&v4(192, 168, 0, 1)), "192.168.0.1");
    assert_eq!(format_ip(&v4(0, 0, 0, 0)), "0.0.0.0");
    assert_eq!(format_ip(&v4(255, 255, 255, 255)), "255.255.255.255");
    assert_eq!(format_ip(&v4(10, 9, 100, 7)), "10.9.100.7");
}

#[test]
fn ipv6_text() {
    assert_eq!(format_ip(&IpAddress::V6([0, 0, 0, 0, 0, 0, 0, 1])), "::1");
    assert_eq!(format_ip(&IpAddress::V6([0; 8])), "::");
    assert_eq!(format_ip(&IpAddress::V6([1, 0, 0, 0, 0, 0, 0, 0])), "1::");
    assert_eq!(format_ip(&IpAddress::V6([0x2001, 0xdb8, 0, 0, 0, 0, 0, 1])), "2001:db8::1");
    assert_eq!(format_ip(&IpAddress::V6([1, 0, 0, 2, 0, 0, 3, 4])), "1::2:0:0:3:4");
    assert_eq!(format_ip(&IpAddress::V6([1, 0, 0, 2, 0, 0, 0, 4])), "1:0:0:2::4");
    assert_eq!(format_ip(&IpAddress::V6([1, 0, 2, 3, 4, 5, 6, 7])), "1:0:2:3:4:5:6:7");
    assert_eq!(format_ip(&IpAddress::V6([0xabcd, 0xef, 0, 0, 0, 0, 0xffff, 0])), "abcd:ef::ffff:0");
    assert_eq!(format_ip(&IpAddress::V6([0, 0, 0, 0, 0, 0xffff, 0x0102, 0x0304])), "::ffff:1.2.3.4");
}

#[test]
fn address_lists_are_comma_separated() {
    let relays = vec![Relay { ipv4: v4(1, 2, 3, 4) }, Relay { ipv4: v4(5, 6, 7, 8) }];
    assert_eq!(ip_list(&relays), "1.2.3.4,5.6.7.8");
    assert_eq!(ip_list(&relays[..1]), "1.2.3.4");
    assert_eq!(ip_list(&[]), "");
}
