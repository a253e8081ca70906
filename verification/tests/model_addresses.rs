use rusty_router::model::address_value::{read_ipv4, read_ipv6};
use rusty_router::model::{IpAddress, IpAddressType};
use rusty_router::net::{push_ipv4_text, push_ipv6_text};
use rusty_router::ordering::{sort_by_key, SortKey};

fn v4(text: &str, prefix: u64) -> IpAddress {
    IpAddress::new(IpAddressType::IpV4, String::from(text), prefix)
}

fn v6(text: &str, prefix: u64) -> IpAddress {
    IpAddress::new(IpAddressType::IpV6, String::from(text), prefix)
}

#[test]
fn ipv4_text_reads_as_two_groups() {
    assert_eq!(read_ipv4("10.0.0.1"), Some(vec![0x0a00, 0x0001]));
    assert_eq!(read_ipv4("255.255.255.255"), Some(vec![0xffff, 0xffff]));
    assert_eq!(read_ipv4("1.2.3"), None);
    assert_eq!(read_ipv4("1.2.3.256"), None);
    assert_eq!(read_ipv4("1.2.3.4.5"), None);
    assert_eq!(read_ipv4("::1"), None);
    assert_eq!(read_ipv4("a.b.c.d"), None);
}

#[test]
fn ipv6_text_reads_as_eight_groups() {
    assert_eq!(
        read_ipv6("100f:e0d:c0b:a09:807:605:403:201"),
        Some(vec![0x100f, 0x0e0d, 0x0c0b, 0x0a09, 0x0807, 0x0605, 0x0403, 0x0201])
    );
    assert_eq!(read_ipv6("fe80::1"), Some(vec![0xfe80, 0, 0, 0, 0, 0, 0, 1]));
    assert_eq!(read_ipv6("::"), Some(vec![0; 8]));
    assert_eq!(read_ipv6("1::"), Some(vec![1, 0, 0, 0, 0, 0, 0, 0]));
    assert_eq!(read_ipv6("::ffff:1.2.3.4"), Some(vec![0, 0, 0, 0, 0, 0xffff, 0x0102, 0x0304]));
    assert_eq!(read_ipv6("1:2:3:4:5:6:7"), None);
    assert_eq!(read_ipv6("1::2::3"), None);
    assert_eq!(read_ipv6("12345::"), None);
    assert_eq!(read_ipv6("1:"), None);
    assert_eq!(read_ipv6(":::"), None);
}

#[test]
fn addresses_order_by_value_not_text() {
    assert!(v4("9.0.0.1", 24).goes_no_later(&v4("10.0.0.1", 24)));
    assert!(!v4("10.0.0.1", 24).goes_no_later(&v4("9.0.0.1", 24)));
    assert!(v6("9::", 64).goes_no_later(&v6("10::", 64)));
    assert!(!v6("a::", 64).goes_no_later(&v6("9::", 64)));
    assert!(v4("255.0.0.0", 8).goes_no_later(&v6("::", 0)));
    assert!(v4("1.2.3.4", 16).goes_no_later(&v4("1.2.3.4", 24)));
}

#[test]
fn sorted_addresses_follow_their_values() {
    let sorted = sort_by_key(vec![
        v6("2001:db8::1", 64),
        v4("10.0.0.1", 24),
        v6("::1", 128),
        v4("9.0.0.1", 8),
        v4("10.0.0.1", 16),
    ]);
    let texts: Vec<(String, u64)> = sorted.iter().map(|a| (a.1.clone(), a.2)).collect();
    assert_eq!(
        texts,
        vec![
            (String::from("9.0.0.1"), 8),
            (String::from("10.0.0.1"), 16),
            (String::from("10.0.0.1"), 24),
            (String::from("::1"), 128),
            (String::from("2001:db8::1"), 64),
        ]
    );
}

#[test]
fn rendered_addresses_read_back_as_their_groups() {
    let cases: Vec<[u8; 16]> = vec![
        [0x20, 0x01, 0x0d, 0xb8, 0, 0, 0, 0, 0, 0, 0, 0, 0, 0, 0, 1],
        [0; 16],
        [0, 0, 0, 0, 0, 0, 0, 0, 0, 0, 0xff, 0xff, 10, 0, 0, 1],
        [0x10, 0x0f, 0x0e, 0x0d, 0x0c, 0x0b, 0x0a, 0x09, 0x08, 0x07, 0x06, 0x05, 0x04, 0x03, 0x02, 0x01],
        [0, 1, 0, 0, 0, 0, 0, 2, 0, 0, 0, 0, 0, 0, 0, 3],
    ];
    for b in cases {
        let mut text = String::new();
        push_ipv6_text(&mut text, &b);
        let groups: Vec<u16> = (0..8).map(|i| u16::from_be_bytes([b[2 * i], b[2 * i + 1]])).collect();
        assert_eq!(read_ipv6(&text), Some(groups), "{}", text);
    }
    let mut text = String::new();
    push_ipv4_text(&mut text, &[192, 168, 1, 20]);
    assert_eq!(text, "192.168.1.20");
    assert_eq!(read_ipv4(&text), Some(vec![0xc0a8, 0x0114]));
}
