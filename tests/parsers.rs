use dhcpd_api::dhcp_parsers::hosts::{
    self, directive, host_block, option, pool_block, subnet_block, subnet_item, subnet_option,
    HostField, HostFileItem, HostsParseError,
};
use dhcpd_api::dhcp_parsers::leases::{self, LeasesParseError};
use dhcpd_api::dhcp_parsers::{anyspace0, anyspace1, comment, val_address, val_identifier, val_string};
use dhcpd_api::model::{Ipv4Addr, MacAddr, Timestamp};

fn chars(s: &str) -> Vec<char> {
    s.chars().collect()
}

fn rest(s: &[char], at: usize) -> String {
    s[at..].iter().collect()
}

static TEST_HOST: &str = r#"host s_lan_0 {
  hardware ethernet 10:20:30:40:50:60;
  fixed-address 192.168.1.1;
  option host-name "router";
  set hostname-override = config-option host-name;
}"#;

static TEST_SUBNET: &str = r#"subnet 192.168.1.0 netmask 255.255.255.0 {
  pool {
    option domain-name-servers 192.168.1.1;
    range 192.168.1.1 192.168.1.254;
  }

  option routers 192.168.1.1;
  option domain-search "home.arpa";
  option domain-name-servers 192.168.1.1;
  default-lease-time 86400;
  max-lease-time 7776000;
  option ntp-servers 192.168.1.1;
}"#;

#[test]
fn test_comment() {
    let example = chars("# stuff\n");
    let input = comment(&example, 0).unwrap();
    assert_eq!(rest(&example, input), "");
}

#[test]
fn test_anyspace() {
    let example = chars("# stuff\n");
    let input = anyspace1(&example, 0).unwrap();
    assert_eq!(rest(&example, input), "");

    let example = chars(" # stuff\n");
    let input = anyspace1(&example, 0).unwrap();
    assert_eq!(rest(&example, input), "");
}

#[test]
fn test_anyspace0() {
    for text in ["", " # foobar", " # foobar\n# test", " # foobar\n", " # foobar\n  ", " # foobar\n#baz\n  "] {
        let example = chars(text);
        let input = anyspace0(&example, 0);
        assert_eq!(rest(&example, input), "");
    }
}

#[test]
fn test_anyspace1() {
    let example = chars("");
    assert!(anyspace1(&example, 0).is_none(), "Expected error");

    for text in ["# foobar\n", " # foobar\n  ", " # foobar\n#baz\n  "] {
        let example = chars(text);
        let input = anyspace1(&example, 0).unwrap();
        assert_eq!(rest(&example, input), "");
    }
}

#[test]
fn test_host_block() {
    let text = chars(TEST_HOST);
    let (HostFileItem::Host { label: name, fields }, input) = host_block(&text, 0).unwrap() else {
        panic!("Failed to parse host block");
    };
    assert_eq!(rest(&text, input), "");
    assert_eq!(name, "s_lan_0");
    assert_eq!(fields.len(), 4);
    assert_eq!(
        fields[0],
        HostField::HardwareEthernet(MacAddr::from([0x10, 0x20, 0x30, 0x40, 0x50, 0x60]))
    );
    assert_eq!(fields[1], HostField::FixedAddress(Ipv4Addr::new(192, 168, 1, 1)));
    assert_eq!(fields[2], HostField::Option("host-name".to_string(), "router".to_string()));
    assert_eq!(
        fields[3],
        HostField::Ignored("set hostname-override = config-option host-name".to_string())
    );
}

#[test]
fn test_subnet_block_empty() {
    let text = chars("subnet 192.168.1.0 netmask 255.255.255.0 { }");
    let (_, input) = subnet_block(&text, 0).unwrap();
    assert_eq!(rest(&text, input), "");
}

#[test]
fn test_subnet_block() {
    let text = chars(TEST_SUBNET);
    let (_, input) = subnet_block(&text, 0).unwrap();
    assert_eq!(rest(&text, input), "");
}

#[test]
fn test_subnet_item() {
    let text = chars(
        r#"pool {
        option domain-name-servers 192.168.1.1;
        range 192.168.1.10 192.168.1.254;
        }"#,
    );
    let input = subnet_item(&text, 0).unwrap();
    assert_eq!(rest(&text, input), "");
}

#[test]
fn test_pool_block() {
    let text = chars(
        r#"pool {
        option domain-name-servers 192.168.1.1;
        range 192.168.1.10 192.168.1.254;
        }"#,
    );
    let input = pool_block(&text, 0).unwrap();
    assert_eq!(rest(&text, input), "");
}

#[test]
fn test_subnet_option() {
    let text = chars("option routers 192.168.1.1");
    let input = subnet_option(&text, 0).unwrap();
    assert_eq!(rest(&text, input), "");
}

#[test]
fn test_val_identifier() {
    let example = chars("foo-bar-baz # stuff\n");
    let (s, input) = val_identifier(&example, 0).unwrap();
    assert_eq!(s, "foo-bar-baz");
    assert_eq!(rest(&example, input), " # stuff\n");

    let (s, input) = val_identifier(&example, 0).unwrap();
    let input = anyspace0(&example, input);
    assert_eq!(rest(&example, input), "");
    assert_eq!(s, "foo-bar-baz");

    let example = chars("foo-bar-baz # stuff");
    let (s, input) = val_identifier(&example, 0).unwrap();
    let input = anyspace0(&example, input);
    assert_eq!(s, "foo-bar-baz");
    assert_eq!(rest(&example, input), "");
}

#[test]
fn test_option_with_comment() {
    let text = chars("option arch code 93 = unsigned integer 16; # RFC4578");
    let (_, input) = option(&text, 0).unwrap();
    let input = anyspace0(&text, input);
    assert_eq!(rest(&text, input), "");
}

#[test]
fn test_options() {
    let text = chars(
        r#"option domain-name "home.arpa";
option ldap-server code 95 = text;
option arch code 93 = unsigned integer 16; # RFC4578
option pac-webui code 252 = text;"#,
    );
    let mut options = Vec::new();
    let mut input = 0;
    while let Some((o, next)) = option(&text, input) {
        options.push(o);
        input = anyspace0(&text, next);
    }
    assert_eq!(rest(&text, input), "");
    assert_eq!(options.len(), 4);
}

#[test]
fn test_directive() {
    let text = chars(
        r#"default-lease-time 7200;
max-lease-time 86400;
log-facility local7;
one-lease-per-client true;
deny duplicates;
ping-check true;
update-conflict-detection false;
authoritative;"#,
    );
    let mut directives = Vec::new();
    let mut input = 0;
    while let Some((d, next)) = directive(&text, input) {
        directives.push(d);
        input = anyspace0(&text, next);
    }
    assert_eq!(rest(&text, input), "");
    assert_eq!(directives.len(), 8);
    assert_eq!(
        directives,
        vec![
            HostFileItem::Directive("default-lease-time".to_string(), Some("7200".to_string())),
            HostFileItem::Directive("max-lease-time".to_string(), Some("86400".to_string())),
            HostFileItem::Directive("log-facility".to_string(), Some("local7".to_string())),
            HostFileItem::Directive("one-lease-per-client".to_string(), Some("true".to_string())),
            HostFileItem::Directive("deny".to_string(), Some("duplicates".to_string())),
            HostFileItem::Directive("ping-check".to_string(), Some("true".to_string())),
            HostFileItem::Directive("update-conflict-detection".to_string(), Some("false".to_string())),
            HostFileItem::Directive("authoritative".to_string(), None),
        ]
    );
}

#[test]
fn test_default_lease_and_max_lease_times() {
    let text = chars(
        r#"host s_lan_16 {
  hardware ethernet f0:b3:ec:25:8c:2d;
  fixed-address 10.0.0.50;
  option host-name "Big-Apple";
  set hostname-override = config-option host-name;
  default-lease-time 86400;
  max-lease-time 7776000;
}"#,
    );
    let (_, input) = host_block(&text, 0).unwrap();
    assert_eq!(rest(&text, input), "");
}

fn ts(year: i32, month: u32, day: u32, hour: u32, minute: u32, second: u32) -> Timestamp {
    Timestamp { year, month, day, hour, minute, second }
}

#[test]
fn lease_single_block() {
    let text = "lease 10.0.1.199 { starts 0 2022/11/20 21:27:34; ends 0 2022/11/20 21:29:34; hardware ethernet 12:6d:88:95:58:89; }";
    let leases = leases::parse(text).unwrap();
    assert_eq!(leases.len(), 1);
    let l = &leases[0];
    assert_eq!(l.address, Ipv4Addr::new(10, 0, 1, 199));
    assert_eq!(l.starts, Some(ts(2022, 11, 20, 21, 27, 34)));
    assert_eq!(l.ends, Some(ts(2022, 11, 20, 21, 29, 34)));
    assert_eq!(l.tstp, None);
    assert_eq!(l.cltt, None);
    assert_eq!(l.hardware_ethernet, MacAddr::from([0x12, 0x6d, 0x88, 0x95, 0x58, 0x89]));
    assert_eq!(l.client_hostname, None);
}

#[test]
fn lease_without_hardware_is_an_error() {
    let text = "lease 10.0.0.1 { starts 1 2022/01/01 00:00:00; }\nlease 10.0.0.2 { hardware ethernet 00:11:22:33:44:55; }";
    assert_eq!(
        leases::parse(text).unwrap_err(),
        LeasesParseError::MissingHardwareEthernet { address: Ipv4Addr::new(10, 0, 0, 1) }
    );
}

#[test]
fn lease_full_file() {
    let text = r#"# The format of this file is documented in the dhcpd.leases(5) manual page.
authoring-byte-order little-endian;

server-duid "\000\001\000\001*\336\177\021\000\015\271Y\225\024";

lease 192.168.1.50 {
  starts 3 2023/01/04 10:00:00;
  ends never;
  tstp 3 2023/01/04 12:00:00;
  cltt 3 2023/01/04 10:00:00;
  binding state active;
  next binding state free;
  rewind binding state free;
  hardware ethernet AA:BB:CC:DD:EE:FF;
  uid "\001\252\273\314\335\356\377";
  set vendor-class-identifier = "android-dhcp-13";
  client-hostname "phone";
}
lease 192.168.1.50 {
  starts 3 2023/01/04 11:00:00;
  ends 3 2023/02/30 25:00:00;
  hardware ethernet aa:bb:cc:dd:ee:ff;
  hardware ethernet 00:00:00:00:00:01;
}
"#;
    let leases = leases::parse(text).unwrap();
    assert_eq!(leases.len(), 2);
    assert_eq!(leases[0].ends, None);
    assert_eq!(leases[0].tstp, Some(ts(2023, 1, 4, 12, 0, 0)));
    assert_eq!(leases[0].client_hostname.as_deref(), Some("phone"));
    assert_eq!(leases[0].hardware_ethernet, MacAddr::from([0xaa, 0xbb, 0xcc, 0xdd, 0xee, 0xff]));
    assert_eq!(leases[1].address, leases[0].address);
    assert_eq!(leases[1].ends, Some(ts(1970, 1, 1, 0, 0, 0)));
    assert_eq!(leases[1].hardware_ethernet, MacAddr::from([0, 0, 0, 0, 0, 1]));
}

#[test]
fn lease_syntax_errors() {
    assert_eq!(leases::parse("").unwrap_err(), LeasesParseError::Syntax { offset: 0 });
    assert_eq!(leases::parse("   ").unwrap_err(), LeasesParseError::Syntax { offset: 0 });
    let unknown = "lease 10.0.0.1 { hardware ethernet 00:11:22:33:44:55; }\nlease 10.0.0.2 { foo bar; }";
    assert_eq!(leases::parse(unknown).unwrap_err(), LeasesParseError::Syntax { offset: 56 });
    let no_fields = "lease 10.0.0.1 { }";
    assert!(matches!(leases::parse(no_fields), Err(LeasesParseError::Syntax { .. })));
}

#[test]
fn parse_twice_gives_equal_results() {
    let lease_text = "lease 10.0.0.1 { hardware ethernet 00:11:22:33:44:55; client-hostname \"a\"; }\nlease 10.0.0.2 { hardware ethernet 00:11:22:33:44:56; }";
    let a = leases::parse(lease_text).unwrap();
    let b = leases::parse(lease_text).unwrap();
    assert_eq!(format!("{:?}", a), format!("{:?}", b));
    let host_text = format!("{}\n{}\n", TEST_HOST, TEST_SUBNET);
    let c = hosts::parse(&host_text).unwrap();
    let d = hosts::parse(&host_text).unwrap();
    assert_eq!(format!("{:?}", c), format!("{:?}", d));
}

#[test]
fn host_block_with_hostname() {
    let text = "host h1 { hardware ethernet 10:20:30:40:50:60; fixed-address 192.168.1.1; option host-name \"router\"; }";
    let hosts = hosts::parse(text).unwrap();
    assert_eq!(hosts.len(), 1);
    assert_eq!(hosts[0].fixed_address, Ipv4Addr::new(192, 168, 1, 1));
    assert_eq!(hosts[0].hardware_ethernet, MacAddr::from([0x10, 0x20, 0x30, 0x40, 0x50, 0x60]));
    assert_eq!(hosts[0].hostname.as_deref(), Some("router"));
}

#[test]
fn host_without_fixed_address_is_dropped() {
    let text = "host h2 { hardware ethernet 10:20:30:40:50:60; option host-name \"x\"; }";
    let hosts = hosts::parse(text).unwrap();
    assert_eq!(hosts.len(), 0);
}

#[test]
fn host_file_mixed() {
    let text = format!(
        "# config\noption domain-name \"home.arpa\";\nauthoritative;\n{}\n{}\nhost other {{ fixed-address 10.0.0.9; hardware ethernet 01:02:03:04:05:06; option domain-name \"x\"; }}\n",
        TEST_SUBNET, TEST_HOST
    );
    let hosts = hosts::parse(&text).unwrap();
    assert_eq!(hosts.len(), 2);
    assert_eq!(hosts[0].hostname.as_deref(), Some("router"));
    assert_eq!(hosts[1].fixed_address, Ipv4Addr::new(10, 0, 0, 9));
    assert_eq!(hosts[1].hostname, None);
}

#[test]
fn host_file_errors() {
    assert_eq!(hosts::parse("").unwrap().len(), 0);
    let bad = "authoritative;\nsubnet 10.0.0.0 netmask 255.0.0.0 { bogus; }";
    assert_eq!(hosts::parse(bad).unwrap_err(), HostsParseError::Syntax { offset: 15 });
    assert!(hosts::parse("host a { fixed-address 1.2.3.4;}").is_err());
}

#[test]
fn string_literal_escapes() {
    let text = chars(r#""foo\tbar\101""#);
    let (s, end) = val_string(&text, 0).unwrap();
    assert_eq!(s, "foo\tbarA");
    assert_eq!(end, text.len());

    let text = chars(r#""\a\b\v\f\r\e\\\"\n""#);
    let (s, _) = val_string(&text, 0).unwrap();
    assert_eq!(s, "\x07\x08\x0b\x0c\r\x1b\\\"\n");

    let text = chars(r#""\777\351""#);
    let (s, _) = val_string(&text, 0).unwrap();
    assert_eq!(s, "\0\u{e9}");

    assert!(val_string(&chars(r#""""#), 0).is_none());
    assert!(val_string(&chars(r#""\q""#), 0).is_none());
    assert!(val_string(&chars(r#""open"#), 0).is_none());
}

#[test]
fn address_octets_are_bytes() {
    assert!(val_address(&chars("300.1.1.1"), 0).is_none());
    assert!(val_address(&chars("1.1.1.256"), 0).is_none());
    let text = chars("255.0.10.1;");
    assert_eq!(val_address(&text, 0), Some((Ipv4Addr::new(255, 0, 10, 1), 10)));
    assert!(leases::parse("lease 10.0.0.300 { hardware ethernet 00:11:22:33:44:55; }").is_err());
}

#[test]
fn ignored_host_fields_keep_their_text() {
    let text = chars("host a {\n  default-lease-time 86400;\n  max-lease-time   7776000;\n}");
    let (HostFileItem::Host { fields, .. }, _) = host_block(&text, 0).unwrap() else {
        panic!("Failed to parse host block");
    };
    assert_eq!(fields[0], HostField::Ignored("default-lease-time 86400".to_string()));
    assert_eq!(fields[1], HostField::Ignored("max-lease-time 7776000".to_string()));
}
