use policy_dns::egress::PolicyDnsIpv6Egress;
use policy_dns::routes::{
    has_ipv4_default_route, has_ipv6_default_route, ipv6_only_default_route, route_flags_usable,
};

const IPV4_ROUTE_HEADER: &str =
    "Iface\tDestination\tGateway \tFlags\tRefCnt\tUse\tMetric\tMask\t\tMTU\tWindow\tIRTT\n";
const IPV4_DEFAULT_ROUTE: &str = "eth0\t00000000\t0100A8C0\t0003\t0\t0\t100\t00000000\t0\t0\t0\n";
const IPV4_SUBNET_ROUTE: &str = "eth0\t0000A8C0\t00000000\t0001\t0\t0\t100\t00FFFFFF\t0\t0\t0\n";
const IPV6_DEFAULT_ROUTE: &str = "00000000000000000000000000000000 00 00000000000000000000000000000000 00 fe800000000000000000000000000001 00000400 00000001 00000000 00000003     eth0\n";
const IPV6_LOOPBACK_UNREACHABLE: &str = "00000000000000000000000000000000 00 00000000000000000000000000000000 00 00000000000000000000000000000000 ffffffff 00000001 00000000 00200200       lo\n";
const IPV6_SUBNET_ROUTE: &str = "20010db8000000000000000000000000 40 00000000000000000000000000000000 00 00000000000000000000000000000000 00000100 00000001 00000000 00000001     eth0\n";

#[test]
fn explicit_ipv6_egress_modes_ignore_routing_tables() {
    let tables = [
        (None, None),
        (Some(IPV4_ROUTE_HEADER), Some(IPV6_DEFAULT_ROUTE)),
        (Some(IPV4_DEFAULT_ROUTE), Some(IPV6_LOOPBACK_UNREACHABLE)),
    ];
    for (ipv4_routes, ipv6_routes) in tables {
        assert!(PolicyDnsIpv6Egress::Enabled.resolve(ipv4_routes, ipv6_routes));
        assert!(!PolicyDnsIpv6Egress::Disabled.resolve(ipv4_routes, ipv6_routes));
    }
    assert_eq!(PolicyDnsIpv6Egress::default(), PolicyDnsIpv6Egress::Auto);
}

#[test]
fn auto_ipv6_egress_enables_only_ipv6_only_uplinks() {
    let ipv4_without_default = format!("{IPV4_ROUTE_HEADER}{IPV4_SUBNET_ROUTE}");
    let ipv4_with_default = format!("{IPV4_ROUTE_HEADER}{IPV4_DEFAULT_ROUTE}");
    let ipv6_with_default = format!("{IPV6_SUBNET_ROUTE}{IPV6_DEFAULT_ROUTE}");

    // IPv6-only (NAT64/DNS64) uplink.
    assert!(ipv6_only_default_route(
        Some(&ipv4_without_default),
        Some(&ipv6_with_default)
    ));
    assert!(ipv6_only_default_route(
        Some(IPV4_ROUTE_HEADER),
        Some(IPV6_DEFAULT_ROUTE)
    ));
    // Dual-stack keeps the IPv4 fallback behavior.
    assert!(!ipv6_only_default_route(
        Some(&ipv4_with_default),
        Some(&ipv6_with_default)
    ));
    // IPv4-only, and the kernel's unreachable ::/0 entry on lo.
    assert!(!ipv6_only_default_route(
        Some(&ipv4_with_default),
        Some(IPV6_LOOPBACK_UNREACHABLE)
    ));
    assert!(!ipv6_only_default_route(
        Some(IPV4_ROUTE_HEADER),
        Some(&format!("{IPV6_SUBNET_ROUTE}{IPV6_LOOPBACK_UNREACHABLE}"))
    ));
    // Unreadable tables keep the IPv4-only default.
    assert!(!ipv6_only_default_route(None, Some(IPV6_DEFAULT_ROUTE)));
    assert!(!ipv6_only_default_route(Some(IPV4_ROUTE_HEADER), None));
}

#[test]
fn down_or_reject_default_routes_are_not_uplinks() {
    let down_ipv4 = format!(
        "{IPV4_ROUTE_HEADER}eth0\t00000000\t0100A8C0\t0002\t0\t0\t100\t00000000\t0\t0\t0\n"
    );
    assert!(!has_ipv4_default_route(&down_ipv4));
    let reject_ipv6 = IPV6_DEFAULT_ROUTE.replace("00000003", "00000201");
    assert!(!has_ipv6_default_route(&reject_ipv6));
}

#[test]
fn auto_mode_follows_the_routing_tables() {
    let auto = PolicyDnsIpv6Egress::Auto;
    assert!(auto.reads_routing_tables());
    assert!(!PolicyDnsIpv6Egress::Enabled.reads_routing_tables());
    assert!(!PolicyDnsIpv6Egress::Disabled.reads_routing_tables());
    assert!(auto.resolve(Some(IPV4_ROUTE_HEADER), Some(IPV6_DEFAULT_ROUTE)));
    assert!(!auto.resolve(Some(IPV4_ROUTE_HEADER), Some(IPV6_SUBNET_ROUTE)));
    assert!(!auto.resolve(None, Some(IPV6_DEFAULT_ROUTE)));
}

#[test]
fn first_line_of_the_ipv4_table_is_never_a_route() {
    assert!(!has_ipv4_default_route(IPV4_DEFAULT_ROUTE));
    assert!(has_ipv4_default_route(&format!("{IPV4_DEFAULT_ROUTE}{IPV4_DEFAULT_ROUTE}")));
    assert!(has_ipv6_default_route(IPV6_DEFAULT_ROUTE));
}

#[test]
fn flags_read_as_the_standard_library_reads_hexadecimal() {
    let samples = [
        "", "+", "-", "0", "1", "+1", "-1", "++1", "3", "0003", "0002", "0200", "0201", "00200200",
        "ffffffff", "FFFFFDFF", "fffffdff", "100000001", "000000000001", "1g", "g1", " 1", "1 ",
        "0x1", "1_1", "\u{661}", "+0000000000000000000000001", "4294967297", "F00d",
    ];
    for sample in samples {
        let expected =
            u32::from_str_radix(sample, 16).is_ok_and(|bits| bits & 1 != 0 && bits & 0x200 == 0);
        assert_eq!(route_flags_usable(sample), expected, "{sample:?}");
    }
    assert!(route_flags_usable("+1"));
    assert!(!route_flags_usable("100000001"));
}

#[test]
fn table_text_reads_as_the_standard_library_splits_it() {
    // Carriage returns, missing final newlines and wide spaces.
    let crlf = IPV6_DEFAULT_ROUTE.replace('\n', "\r\n");
    assert!(has_ipv6_default_route(&crlf));
    assert!(has_ipv6_default_route(IPV6_DEFAULT_ROUTE.trim_end()));
    assert!(has_ipv6_default_route(&IPV6_DEFAULT_ROUTE.replace("     ", "\u{2003}\u{a0}")));
    assert!(!has_ipv6_default_route(&IPV6_DEFAULT_ROUTE.replace("     ", "\u{200b}")));
    assert!(!has_ipv6_default_route(""));
    assert!(!has_ipv6_default_route("\n\n"));
    // A destination of another length or with another digit is no default route.
    assert!(!has_ipv6_default_route(&IPV6_DEFAULT_ROUTE[1..]));
    assert!(!has_ipv6_default_route(&format!("0{IPV6_DEFAULT_ROUTE}")));
    assert!(!has_ipv6_default_route(&format!("1{}", &IPV6_DEFAULT_ROUTE[1..])));
}

#[test]
fn routes_of_two_parts_count_one_by_one() {
    let ipv4_parts = ["", IPV4_SUBNET_ROUTE, IPV4_DEFAULT_ROUTE];
    for first in ipv4_parts {
        for second in ipv4_parts {
            assert_eq!(
                has_ipv4_default_route(&format!("{IPV4_ROUTE_HEADER}{first}{second}")),
                first == IPV4_DEFAULT_ROUTE || second == IPV4_DEFAULT_ROUTE
            );
        }
    }
    let ipv6_parts = ["", IPV6_SUBNET_ROUTE, IPV6_LOOPBACK_UNREACHABLE, IPV6_DEFAULT_ROUTE];
    for first in ipv6_parts {
        for second in ipv6_parts {
            assert_eq!(
                has_ipv6_default_route(&format!("{first}{second}")),
                first == IPV6_DEFAULT_ROUTE || second == IPV6_DEFAULT_ROUTE
            );
        }
    }
}
