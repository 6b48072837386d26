use std::str::FromStr;

use dhcpd_api::macaddr::{InvalidMacAddr, InvalidMacPrefix, MacAddr, MacPrefix};

#[test]
fn test_short_macaddr() {
    let mac = "10:20:30";
    let _ = MacAddr::from_str(mac).expect_err("Invalid MAC address");
}

#[test]
fn test_long_macaddr() {
    let mac = "10:20:30:40:50:60:70";
    let _ = MacAddr::from_str(mac).expect_err("Invalid MAC address");
}

#[test]
fn test_short_segment_macaddr() {
    let mac = "10:20:30:40:5:60";
    let _ = MacAddr::from_str(mac).expect_err("Invalid MAC address");
}

#[test]
fn test_long_segment_macaddr() {
    let mac = "10:20:30:40:50:600";
    let _ = MacAddr::from_str(mac).expect_err("Invalid MAC address");
}

#[test]
fn test_invalid_hex() {
    let mac = "10:20:30:40:50:6g";
    let _ = MacAddr::from_str(mac).expect_err("Invalid MAC address");
}

#[test]
fn test_invalid_prefix() {
    let mac = "1g:20";
    let e = MacPrefix::from_str(mac).expect_err("Invalid MAC prefix");
    match e {
        InvalidMacPrefix::BadChar(c) => assert_eq!(c, 'g'),
        _ => unreachable!(),
    }
}

#[test]
fn test_long_prefix() {
    let mac = "10:20:30:40:50:60:70:80:90:10:20:30:40:50:60:70:80:90:10:20:30:40:50:60:70:80:90:10:20:30:40:50:60:70:80:90:10:20:30:40:50:60:70:80:90:10:20:30:40:50:60:70:80:90";
    let e = MacPrefix::from_str(mac).expect_err("Invalid MAC prefix");
    match e {
        InvalidMacPrefix::Long => (),
        _ => unreachable!(),
    }
}

#[test]
fn test_long_segment_prefix() {
    let mac = "10:20:30:40:50:600";
    let e = MacPrefix::from_str(mac).expect_err("Invalid MAC prefix");
    match e {
        InvalidMacPrefix::LongSegment => (),
        _ => unreachable!(),
    }
}

#[test]
fn mac_error_kinds() {
    assert_eq!(MacAddr::parse_str("10:20:30"), Err(InvalidMacAddr::Short));
    assert_eq!(MacAddr::parse_str("10:20:30:40:50:60:70"), Err(InvalidMacAddr::Long));
    assert_eq!(MacAddr::parse_str("10:20:30:40:5:60"), Err(InvalidMacAddr::BadSegment));
    assert_eq!(MacAddr::parse_str("10:20:30:40:50:6g"), Err(InvalidMacAddr::Parse));
    assert_eq!(MacAddr::parse_str(""), Err(InvalidMacAddr::BadSegment));
}

#[test]
fn mac_parses_either_case() {
    let m = MacAddr::parse_str("AA:bb:0C:d4:E5:f6").unwrap();
    assert_eq!(m.bytes(), &[0xaa, 0xbb, 0x0c, 0xd4, 0xe5, 0xf6]);
}

#[test]
fn mac_text_round_trip_sample() {
    let mut seed: u64 = 0x1234_5678_9abc_def0;
    let mut samples: Vec<[u8; 6]> = vec![[0; 6], [0xff; 6], [0x12, 0x6d, 0x88, 0x95, 0x58, 0x89]];
    for _ in 0..200 {
        seed = seed.wrapping_mul(6364136223846793005).wrapping_add(1442695040888963407);
        let b = seed.to_be_bytes();
        samples.push([b[0], b[1], b[2], b[3], b[4], b[5]]);
    }
    for bytes in samples {
        let m = MacAddr::from(bytes);
        let text = m.to_string();
        assert_eq!(text.len(), 17);
        assert_eq!(text, text.to_lowercase());
        assert_eq!(MacAddr::parse_str(&text).unwrap(), m);
    }
}

#[test]
fn mac_renders_lowercase_pairs() {
    let m = MacAddr::from([0x0a, 0xbc, 0x00, 0xff, 0x10, 0x09]);
    assert_eq!(m.to_string(), "0a:bc:00:ff:10:09");
}

#[test]
fn prefix_nibbles() {
    let p = MacPrefix::parse_str("10:2:AB").unwrap();
    assert_eq!(p.nibbles(), &vec![1, 0, 2, 10, 11]);
    assert_eq!(MacPrefix::parse_str("1::2"), Err(InvalidMacPrefix::EmptySegment));
    assert_eq!(MacPrefix::parse_str(""), Err(InvalidMacPrefix::EmptySegment));
    assert_eq!(MacPrefix::parse_str("1:2:3:4:5:6:7"), Err(InvalidMacPrefix::Long));
    assert_eq!(MacPrefix::parse_str("1:2:3:4:5:6").unwrap().nibbles(), &vec![1, 2, 3, 4, 5, 6]);
    let full = MacPrefix::of_mac(&MacAddr::from([0x12, 0x34, 0x56, 0x78, 0x9a, 0xbc]));
    assert_eq!(full.nibbles(), &vec![1, 2, 3, 4, 5, 6, 7, 8, 9, 10, 11, 12]);
    assert_eq!(MacPrefix::parse_str("10:20:30:40:50:60:7"), Err(InvalidMacPrefix::Long));
}
