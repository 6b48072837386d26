use dhcpd_api::macaddr::{InvalidMacPrefix, MacAddr, MacPrefix};
use dhcpd_api::model::{
    vendor_names, Device, FindByIp, FindByMac, Host, Ipv4Addr, Lease, LeaseType, Timestamp,
};
use dhcpd_api::vendor_macs::{LoadError, VendorMapping};

fn mac(text: &str) -> MacAddr {
    MacAddr::parse_str(text).unwrap()
}

#[test]
fn vendor_single_mapping() {
    let xml = r#"<VendorMapping mac_prefix="10:20:30" vendor_name=" Acme "/>"#;
    let table = VendorMapping::parse(xml).unwrap();
    assert_eq!(table.get_vendor_name(&mac("10:20:30:AA:BB:CC")), Some("Acme"));
    assert_eq!(table.get_vendor_name(&mac("10:20:31:AA:BB:CC")), None);
}

#[test]
fn vendor_longest_prefix_wins() {
    let mut table = VendorMapping::new();
    table.insert(&MacPrefix::parse_str("00:11:22").unwrap(), "Short".to_string());
    table.insert(&MacPrefix::parse_str("00:11:22:33:44").unwrap(), "Long".to_string());
    assert_eq!(table.get_vendor_name(&mac("00:11:22:33:44:55")), Some("Long"));
    assert_eq!(table.get_vendor_name(&mac("00:11:22:33:45:55")), Some("Short"));
    assert_eq!(table.get_vendor_name(&mac("00:11:23:33:44:55")), None);

    let mut reversed = VendorMapping::new();
    reversed.insert(&MacPrefix::parse_str("00:11:22:33:44").unwrap(), "Long".to_string());
    reversed.insert(&MacPrefix::parse_str("00:11:22").unwrap(), "Short".to_string());
    assert_eq!(reversed.get_vendor_name(&mac("00:11:22:33:44:55")), Some("Long"));
    assert_eq!(reversed.get_vendor_name(&mac("00:11:22:33:45:55")), Some("Short"));
}

#[test]
fn vendor_odd_length_prefix() {
    let mut table = VendorMapping::new();
    table.insert(&MacPrefix::parse_str("00:11:2").unwrap(), "Nibble".to_string());
    assert_eq!(table.get_vendor_name(&mac("00:11:2f:00:00:00")), Some("Nibble"));
    assert_eq!(table.get_vendor_name(&mac("00:11:3f:00:00:00")), None);
}

#[test]
fn vendor_document() {
    let xml = r#"<?xml version="1.0" encoding="UTF-8"?>
<MacAddressVendorMappings>
  <VendorMapping mac_prefix="00:00:0C" vendor_name="Cisco &amp; Co"/>
  <VendorMapping mac_prefix="00:00:0C:AB" vendor_name="Cisco Sub"/>
  <VendorMapping vendor_name="No Prefix"/>
  <VendorMapping mac_prefix="00:00:0D"/>
  <Other mac_prefix="zz" vendor_name="ignored"/>
  <VendorMapping mac_prefix="00:00:0C" vendor_name="Cisco Again"/>
</MacAddressVendorMappings>"#;
    let table = VendorMapping::parse(xml).unwrap();
    assert_eq!(table.get_vendor_name(&mac("00:00:0c:ab:00:01")), Some("Cisco Sub"));
    assert_eq!(table.get_vendor_name(&mac("00:00:0c:00:00:01")), Some("Cisco Again"));
    assert_eq!(table.get_vendor_name(&mac("00:00:0d:00:00:01")), None);
}

#[test]
fn vendor_bad_prefix_fails_load() {
    let xml = r#"<VendorMapping mac_prefix="00:00:0C" vendor_name="A"/><VendorMapping mac_prefix="0g:00" vendor_name="B"/>"#;
    match VendorMapping::parse(xml) {
        Err(LoadError::InvalidMacPrefix(InvalidMacPrefix::BadChar(c))) => assert_eq!(c, 'g'),
        other => panic!("unexpected: {:?}", other.map(|_| ())),
    }
    let long = r#"<VendorMapping mac_prefix="00:00:0C:00:00:00:00" vendor_name="A"/>"#;
    assert!(matches!(VendorMapping::parse(long), Err(LoadError::InvalidMacPrefix(InvalidMacPrefix::Long))));
}

fn ts(year: i32, month: u32, day: u32, hour: u32, minute: u32, second: u32) -> Timestamp {
    Timestamp { year, month, day, hour, minute, second }
}

fn lease(addr: Ipv4Addr, hw: &str, ends: Option<Timestamp>) -> Lease {
    Lease {
        address: addr,
        starts: Some(ts(2022, 1, 1, 0, 0, 0)),
        ends,
        tstp: None,
        cltt: Some(ts(2022, 1, 1, 0, 0, 5)),
        hardware_ethernet: mac(hw),
        client_hostname: Some("laptop".to_string()),
    }
}

#[test]
fn lease_expiry_at_a_given_time() {
    let l = lease(Ipv4Addr::new(10, 0, 0, 1), "00:11:22:33:44:55", Some(ts(2022, 11, 20, 21, 29, 34)));
    assert!(l.is_expired_at(&ts(2022, 11, 20, 21, 29, 35)));
    assert!(!l.is_expired_at(&ts(2022, 11, 20, 21, 29, 34)));
    assert!(!l.is_expired_at(&ts(2021, 12, 31, 23, 59, 59)));
    let forever = lease(Ipv4Addr::new(10, 0, 0, 1), "00:11:22:33:44:55", None);
    assert!(!forever.is_expired_at(&ts(9999, 1, 1, 0, 0, 0)));
    assert!(!forever.is_expired());
    let old = lease(Ipv4Addr::new(10, 0, 0, 1), "00:11:22:33:44:55", Some(ts(2000, 1, 1, 0, 0, 0)));
    assert!(old.is_expired());
}

#[test]
fn devices_from_records() {
    let mut table = VendorMapping::new();
    table.insert(&MacPrefix::parse_str("00:11:22").unwrap(), "Acme".to_string());
    let l = lease(Ipv4Addr::new(10, 0, 0, 1), "00:11:22:33:44:55", Some(ts(2000, 1, 1, 0, 0, 0)));
    let d = Device::from_lease_at(&l, &table, &ts(2022, 1, 1, 0, 0, 0));
    assert_eq!(d.lease, LeaseType::Expired { since: Some(ts(2000, 1, 1, 0, 0, 0)) });
    assert_eq!(d.vendor.as_deref(), Some("Acme"));
    assert_eq!(d.last_seen, Some(ts(2022, 1, 1, 0, 0, 5)));
    let active = Device::from_lease_at(&l, &table, &ts(1999, 1, 1, 0, 0, 0));
    assert_eq!(
        active.lease,
        LeaseType::Active { since: Some(ts(2022, 1, 1, 0, 0, 0)), until: Some(ts(2000, 1, 1, 0, 0, 0)) }
    );
    let h = Host {
        fixed_address: Ipv4Addr::new(10, 0, 0, 2),
        hardware_ethernet: mac("aa:bb:cc:dd:ee:ff"),
        hostname: None,
    };
    let hd = Device::from_host(&h, &table);
    assert_eq!(hd.lease, LeaseType::Static);
    assert_eq!(hd.vendor, None);
    assert_eq!(hd.last_seen, None);
    let all = Device::from_leases_and_hosts(&[&l], &[&h], &table);
    assert_eq!(all.len(), 2);
    assert_eq!(all[1].address, Ipv4Addr::new(10, 0, 0, 2));
}

#[test]
fn find_records() {
    let leases = vec![
        lease(Ipv4Addr::new(10, 0, 0, 1), "00:11:22:33:44:55", None),
        lease(Ipv4Addr::new(10, 0, 0, 2), "00:11:22:33:44:56", None),
        lease(Ipv4Addr::new(10, 0, 0, 1), "00:11:22:33:44:57", None),
    ];
    let found = leases.find_by_ip(Ipv4Addr::new(10, 0, 0, 1));
    assert_eq!(found.len(), 2);
    assert_eq!(found[1].hardware_ethernet, mac("00:11:22:33:44:57"));
    let by_mac = leases.find_by_mac(&mac("00:11:22:33:44:56"));
    assert_eq!(by_mac.len(), 1);
    assert_eq!(by_mac[0].address, Ipv4Addr::new(10, 0, 0, 2));
    let hosts = vec![Host {
        fixed_address: Ipv4Addr::new(10, 0, 0, 3),
        hardware_ethernet: mac("00:11:22:33:44:58"),
        hostname: None,
    }];
    assert_eq!(hosts.find_by_ip(Ipv4Addr::new(10, 0, 0, 3)).len(), 1);
    assert_eq!(hosts.find_by_mac(&mac("00:11:22:33:44:55")).len(), 0);
}

#[test]
fn vendor_rows_missing_an_attribute_are_skipped() {
    let xml = r#"<VendorMapping vendor_name="Acme"/><VendorMapping mac_prefix="10:20:30"/>"#;
    let table = VendorMapping::parse(xml).unwrap();
    assert_eq!(table.get_vendor_name(&mac("10:20:30:00:00:00")), None);
    assert_eq!(table.get_vendor_name(&mac("00:00:00:00:00:00")), None);
}

#[test]
fn vendor_later_row_replaces_earlier() {
    let xml = r#"<VendorMapping mac_prefix="10:20:30" vendor_name="A"/><VendorMapping mac_prefix="10:20:30" vendor_name="B"/>"#;
    let table = VendorMapping::parse(xml).unwrap();
    assert_eq!(table.get_vendor_name(&mac("10:20:30:00:00:00")), Some("B"));
}

#[test]
fn vendor_bad_group_counts_fail_load() {
    let seven = r#"<VendorMapping mac_prefix="1:2:3:4:5:6:7" vendor_name="A"/>"#;
    assert!(matches!(VendorMapping::parse(seven), Err(LoadError::InvalidMacPrefix(InvalidMacPrefix::Long))));
    let empty = r#"<VendorMapping mac_prefix="" vendor_name="A"/>"#;
    assert!(matches!(VendorMapping::parse(empty), Err(LoadError::InvalidMacPrefix(InvalidMacPrefix::EmptySegment))));
    let unclosed = r#"<VendorMapping mac_prefix="10:20:30" vendor_name="A"/></Unopened>"#;
    assert!(matches!(VendorMapping::parse(unclosed), Err(LoadError::XmlParse(_))));
}

#[test]
fn vendor_names_sorted_and_distinct() {
    let mut table = VendorMapping::new();
    table.insert(&MacPrefix::parse_str("00:11:22").unwrap(), "Zeta".to_string());
    table.insert(&MacPrefix::parse_str("00:11:23").unwrap(), "Alpha".to_string());
    table.insert(&MacPrefix::parse_str("00:11:24").unwrap(), "alpha".to_string());
    let leases = vec![
        lease(Ipv4Addr::new(10, 0, 0, 1), "00:11:22:00:00:01", None),
        lease(Ipv4Addr::new(10, 0, 0, 2), "00:11:23:00:00:01", None),
        lease(Ipv4Addr::new(10, 0, 0, 3), "00:11:22:00:00:02", None),
        lease(Ipv4Addr::new(10, 0, 0, 4), "aa:11:22:00:00:02", None),
    ];
    let hosts = vec![Host {
        fixed_address: Ipv4Addr::new(10, 0, 0, 5),
        hardware_ethernet: mac("00:11:24:00:00:00"),
        hostname: None,
    }];
    assert_eq!(vendor_names(&leases, &hosts, &table), vec!["Alpha", "Zeta", "alpha"]);
    assert!(vendor_names(&vec![], &vec![], &table).is_empty());
}
