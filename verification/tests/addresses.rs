use scrutiny::ip::IpAddress;
use scrutiny::ip::Ipv4Address;
use scrutiny::ip::Ipv6Address;
use scrutiny::ip::ip_to_string;
use scrutiny::ip::ipv4_to_string;
use scrutiny::ip::ipv6_to_string;
use scrutiny::ip::parse_ip;
use scrutiny::ip::parse_ipv4;
use scrutiny::ip::parse_ipv6;
use scrutiny::nameservers::NameServerToken;
use scrutiny::nameservers::TokenOutcome;
use scrutiny::nameservers::classify_name_server;
use scrutiny::nameservers::collect_name_servers;
use scrutiny::nameservers::google_addresses;
use scrutiny::nameservers::require_name_servers;
use scrutiny::nameservers::resolution_failure_line;
use scrutiny::nameservers::resolver_address_sets;
use scrutiny::numtext::i64_to_string;
use scrutiny::numtext::parse_u16;
use scrutiny::numtext::parse_u64;
use scrutiny::numtext::u64_to_hex_string;
use scrutiny::numtext::u64_to_string;
use scrutiny::numtext::validate_name_server_port;
use scrutiny::numtext::validate_rate;

fn v4(a: u8, b: u8, c: u8, d: u8) -> IpAddress {
    IpAddress::V4(Ipv4Address { a, b, c, d })
}

#[test]
fn decimal_rendering() {
    assert_eq!(u64_to_string(0), "0");
    assert_eq!(u64_to_string(53), "53");
    assert_eq!(u64_to_string(18446744073709551615), "18446744073709551615");
    assert_eq!(i64_to_string(-42), "-42");
    assert_eq!(i64_to_string(7), "7");
    assert_eq!(i64_to_string(i64::MIN), "-9223372036854775808");
}

#[test]
fn hexadecimal_rendering() {
    assert_eq!(u64_to_hex_string(0), "0");
    assert_eq!(u64_to_hex_string(0x8a2e), "8a2e");
    assert_eq!(u64_to_hex_string(0xffff), "ffff");
}

#[test]
fn decimal_parsing() {
    assert_eq!(parse_u64("0"), Some(0));
    assert_eq!(parse_u64("100"), Some(100));
    assert_eq!(parse_u64("18446744073709551615"), Some(18446744073709551615));
    assert_eq!(parse_u64("18446744073709551616"), None);
    assert_eq!(parse_u64(""), None);
    assert_eq!(parse_u64("12a"), None);
    assert_eq!(parse_u64("-5"), None);
    assert_eq!(parse_u16("53"), Some(53));
    assert_eq!(parse_u16("65535"), Some(65535));
    assert_eq!(parse_u16("65536"), None);
}

#[test]
fn rate_and_port_validation() {
    assert_eq!(validate_rate("100"), Ok(()));
    assert_eq!(
        validate_rate("fast"),
        Err(String::from("Rate must be a number fast"))
    );
    assert_eq!(validate_name_server_port("53"), Ok(()));
    assert_eq!(
        validate_name_server_port("70000"),
        Err(String::from("Invalid name server port: 70000"))
    );
    assert_eq!(
        validate_name_server_port("portless"),
        Err(String::from("Invalid name server port: portless"))
    );
}

#[test]
fn dotted_quad_rendering() {
    assert_eq!(ipv4_to_string(&Ipv4Address { a: 8, b: 8, c: 8, d: 8 }), "8.8.8.8");
    assert_eq!(
        ipv4_to_string(&Ipv4Address { a: 255, b: 255, c: 255, d: 255 }),
        "255.255.255.255"
    );
    assert_eq!(ipv4_to_string(&Ipv4Address { a: 0, b: 0, c: 0, d: 0 }), "0.0.0.0");
}

#[test]
fn dotted_quad_parsing() {
    assert_eq!(
        parse_ipv4("192.0.2.1"),
        Some(Ipv4Address { a: 192, b: 0, c: 2, d: 1 })
    );
    assert_eq!(
        parse_ipv4("255.255.255.255"),
        Some(Ipv4Address { a: 255, b: 255, c: 255, d: 255 })
    );
    assert_eq!(parse_ipv4("256.0.0.1"), None);
    assert_eq!(parse_ipv4("1.2.3"), None);
    assert_eq!(parse_ipv4("1.2.3.4.5"), None);
    assert_eq!(parse_ipv4("01.2.3.4"), None);
    assert_eq!(parse_ipv4("1.2.3."), None);
    assert_eq!(parse_ipv4(""), None);
    assert_eq!(parse_ipv4("a.b.c.d"), None);
}

#[test]
fn group_rendering_compresses_the_leftmost_longest_zero_run() {
    assert_eq!(
        ipv6_to_string(&Ipv6Address {
            s0: 0x2001,
            s1: 0x4860,
            s2: 0x4860,
            s3: 0,
            s4: 0,
            s5: 0,
            s6: 0,
            s7: 0x8888,
        }),
        "2001:4860:4860::8888"
    );
    let all_zero = Ipv6Address { s0: 0, s1: 0, s2: 0, s3: 0, s4: 0, s5: 0, s6: 0, s7: 0 };
    assert_eq!(ipv6_to_string(&all_zero), "::");
    let loopback = Ipv6Address { s0: 0, s1: 0, s2: 0, s3: 0, s4: 0, s5: 0, s6: 0, s7: 1 };
    assert_eq!(ipv6_to_string(&loopback), "::1");
    // ties go to the leftmost run; a lone zero group is not compressed
    let tied = Ipv6Address { s0: 1, s1: 0, s2: 0, s3: 2, s4: 3, s5: 0, s6: 0, s7: 4 };
    assert_eq!(ipv6_to_string(&tied), "1::2:3:0:0:4");
    let lone = Ipv6Address { s0: 1, s1: 0, s2: 2, s3: 3, s4: 4, s5: 5, s6: 6, s7: 7 };
    assert_eq!(ipv6_to_string(&lone), "1:0:2:3:4:5:6:7");
}

#[test]
fn group_parsing_accepts_full_and_elided_forms() {
    assert_eq!(
        parse_ipv6("2001:db8:85a3:0:0:8a2e:370:7334"),
        Some(Ipv6Address {
            s0: 0x2001,
            s1: 0x0db8,
            s2: 0x85a3,
            s3: 0,
            s4: 0,
            s5: 0x8a2e,
            s6: 0x0370,
            s7: 0x7334,
        })
    );
    assert_eq!(
        parse_ipv6("2001:db8:85a3::8a2e:370:7334"),
        Some(Ipv6Address {
            s0: 0x2001,
            s1: 0x0db8,
            s2: 0x85a3,
            s3: 0,
            s4: 0,
            s5: 0x8a2e,
            s6: 0x0370,
            s7: 0x7334,
        })
    );
    let all_zero = Ipv6Address { s0: 0, s1: 0, s2: 0, s3: 0, s4: 0, s5: 0, s6: 0, s7: 0 };
    assert_eq!(parse_ipv6("::"), Some(all_zero));
    assert_eq!(
        parse_ipv6("1::"),
        Some(Ipv6Address { s0: 1, s1: 0, s2: 0, s3: 0, s4: 0, s5: 0, s6: 0, s7: 0 })
    );
    assert_eq!(
        parse_ipv6("::1"),
        Some(Ipv6Address { s0: 0, s1: 0, s2: 0, s3: 0, s4: 0, s5: 0, s6: 0, s7: 1 })
    );
}

#[test]
fn group_parsing_rejects_malformed_literals() {
    assert_eq!(parse_ipv6("1:2:3:4:5:6:7"), None);
    assert_eq!(parse_ipv6("1:2:3:4:5:6:7:8:9"), None);
    assert_eq!(parse_ipv6("1::2::3"), None);
    assert_eq!(parse_ipv6("1:::2"), None);
    assert_eq!(parse_ipv6("12345::"), None);
    assert_eq!(parse_ipv6("g::1"), None);
    assert_eq!(parse_ipv6(":"), None);
    assert_eq!(parse_ipv6(""), None);
    assert_eq!(parse_ipv6("1:2:3:4:5:6:7:8::"), None);
}

#[test]
fn parse_round_trips_rendered_addresses() {
    let samples = vec![
        v4(8, 8, 4, 4),
        v4(0, 0, 0, 0),
        IpAddress::V6(Ipv6Address {
            s0: 0x2620,
            s1: 0x00fe,
            s2: 0,
            s3: 0,
            s4: 0,
            s5: 0,
            s6: 0x00fe,
            s7: 0x0009,
        }),
        IpAddress::V6(Ipv6Address { s0: 0, s1: 0, s2: 0, s3: 0, s4: 0, s5: 0, s6: 0, s7: 0 }),
    ];
    for ip in samples {
        assert_eq!(parse_ip(&ip_to_string(&ip)), Some(ip));
    }
}

#[test]
fn classification_separates_literals_from_hostnames() {
    match classify_name_server("9.9.9.9") {
        NameServerToken::Literal { address } => assert_eq!(address, v4(9, 9, 9, 9)),
        NameServerToken::Hostname { .. } => panic!("a literal bypasses resolution"),
    }
    match classify_name_server("2620:fe::fe") {
        NameServerToken::Literal { address } => {
            assert_eq!(ip_to_string(&address), "2620:fe::fe");
        },
        NameServerToken::Hostname { .. } => panic!("a literal bypasses resolution"),
    }
    match classify_name_server("dns.example.test") {
        NameServerToken::Literal { .. } => panic!("a hostname needs resolution"),
        NameServerToken::Hostname { name } => assert_eq!(name, "dns.example.test"),
    }
}

#[test]
fn collect_name_servers_keeps_literals_and_resolved_addresses() {
    // a mix of literals and hostnames where one hostname cannot be resolved:
    // exactly the literals plus the resolved addresses, one failure line
    let outcomes = vec![
        TokenOutcome::Addresses { addresses: vec![v4(9, 9, 9, 9)] },
        TokenOutcome::Failed {
            message: resolution_failure_line("no address for bad.example.test"),
        },
        TokenOutcome::Addresses { addresses: vec![v4(192, 0, 2, 1), v4(192, 0, 2, 2)] },
    ];
    let (addresses, failures) = collect_name_servers(outcomes);
    assert_eq!(addresses, vec![v4(9, 9, 9, 9), v4(192, 0, 2, 1), v4(192, 0, 2, 2)]);
    assert_eq!(
        failures,
        vec![String::from("Error resolving name sever no address for bad.example.test")]
    );
}

#[test]
fn empty_name_server_list_is_fatal() {
    let ok = require_name_servers(vec![v4(9, 9, 9, 9)]);
    assert_eq!(ok, Ok(vec![v4(9, 9, 9, 9)]));
    let err = require_name_servers(vec![]);
    assert_eq!(err, Err(String::from("No valid name servers found.")));
}

#[test]
fn provider_sets_render_to_their_published_addresses() {
    let rendered: Vec<String> = google_addresses().iter().map(ip_to_string).collect();
    assert_eq!(
        rendered,
        vec!["8.8.8.8", "8.8.4.4", "2001:4860:4860::8888", "2001:4860:4860::8844"]
    );
}

#[test]
fn resolver_address_sets_defaults_to_the_first_provider() {
    let merged = resolver_address_sets(false, false, false, None);
    assert_eq!(merged, google_addresses());
}

#[test]
fn resolver_address_sets_merges_and_deduplicates() {
    let user = vec![v4(8, 8, 8, 8), v4(192, 0, 2, 7), v4(192, 0, 2, 7)];
    let merged = resolver_address_sets(true, false, false, Some(user));
    let mut expected = google_addresses();
    expected.push(v4(192, 0, 2, 7));
    assert_eq!(merged, expected);
}

#[test]
fn resolver_address_sets_honors_each_flag() {
    let merged = resolver_address_sets(true, true, true, None);
    assert_eq!(merged.len(), 12);
    let none_but_user = resolver_address_sets(false, false, false, Some(vec![v4(192, 0, 2, 7)]));
    assert_eq!(none_but_user, vec![v4(192, 0, 2, 7)]);
}
