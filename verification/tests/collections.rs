use rusty_router::collections::StringMap;
use rusty_router::net::{Ipv4Addr, Ipv4Netmask};

#[test]
fn string_map_insert_get_remove() {
    let mut map: StringMap<u32> = StringMap::new();
    assert_eq!(map.len(), 0);
    assert_eq!(map.insert(String::from("a"), 1), None);
    assert_eq!(map.insert(String::from("b"), 2), None);
    assert_eq!(map.insert(String::from("a"), 3), Some(1));
    assert_eq!(map.len(), 2);
    assert_eq!(map.get(&String::from("a")), Some(&3));
    assert!(map.contains_key(&String::from("b")));
    assert_eq!(map.remove(&String::from("b")), Some(2));
    assert_eq!(map.remove(&String::from("b")), None);
    assert!(!map.contains_key(&String::from("b")));
    assert_eq!(map.entries().len(), 1);
    assert_eq!(map.entries()[0].0, "a");
}

#[test]
fn ipv4_addresses() {
    let a = Ipv4Addr::new(192, 168, 1, 20);
    assert_eq!(a.to_bits(), 0xC0A80114);
    assert_eq!(a.octets(), [192, 168, 1, 20]);
    assert_eq!(Ipv4Addr::from_bits(0xC0A80114), a);
    assert_eq!(Ipv4Addr::from(0x7f000001u32), Ipv4Addr::new(127, 0, 0, 1));
    assert_eq!(Ipv4Netmask::new(0xFFFFFF00).netmask_number(), 0xFFFFFF00);
}
