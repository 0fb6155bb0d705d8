use policy_dns::address::{parse_ip, IpAddress};
use policy_dns::resolver::{
    trusted_resolver_from_resolv_conf, ResolverConfigError, ResolverEndpoint,
};

fn parse(text: &str) -> Option<IpAddress> {
    parse_ip(&text.chars().collect::<Vec<char>>())
}

/// What the standard library reads.
fn standard(text: &str) -> Option<IpAddress> {
    match ipnet::IpNet::new(text.parse().ok()?, 0).ok()? {
        ipnet::IpNet::V4(net) => Some(IpAddress::V4(net.addr().into())),
        ipnet::IpNet::V6(net) => Some(IpAddress::V6(net.addr().into())),
    }
}

fn v4(bits: u32) -> Result<ResolverEndpoint, ResolverConfigError> {
    Ok(ResolverEndpoint { ip: IpAddress::V4(bits), port: 53 })
}

#[test]
fn first_literal_nameserver_is_trusted() {
    let conf = "search example.com\nnameserver dns.example.com\nnameserver 10.0.0.1\nnameserver 10.0.0.2\n";
    assert_eq!(trusted_resolver_from_resolv_conf(conf), v4(0x0a00_0001));
    assert_eq!(
        trusted_resolver_from_resolv_conf("  nameserver\tfd00::53 ignored\r\n"),
        Ok(ResolverEndpoint { ip: IpAddress::V6((0xfd00 << 112) | 0x53), port: 53 })
    );
}

#[test]
fn comments_and_other_lines_are_not_read() {
    assert_eq!(
        trusted_resolver_from_resolv_conf("#nameserver 10.0.0.1\nnameserver 10.0.0.2#10.0.0.3"),
        v4(0x0a00_0002)
    );
    assert_eq!(
        trusted_resolver_from_resolv_conf("nameserver # 10.0.0.1\nnameserver\nnameserver 1.1.1.1 # x"),
        v4(0x0101_0101)
    );
    // A semicolon opens no comment, and the directive is spelled in lower case.
    assert_eq!(
        trusted_resolver_from_resolv_conf(";nameserver 10.0.0.1\nNAMESERVER 10.0.0.2\nnameserver 10.0.0.3"),
        v4(0x0a00_0003)
    );
}

#[test]
fn configuration_without_a_literal_is_an_error() {
    for conf in [
        "",
        "\n",
        "nameserver",
        "nameserver localhost",
        "nameserver 10.0.0.1:53",
        "nameserver 010.0.0.1",
        "nameserver fe80::1%eth0",
        "options nameserver 10.0.0.1",
    ] {
        assert_eq!(
            trusted_resolver_from_resolv_conf(conf),
            Err(ResolverConfigError::NoLiteralNameserver),
            "{conf:?}"
        );
    }
    assert_eq!(
        ResolverConfigError::NoLiteralNameserver.message(),
        "no literal nameserver is configured in supervisor /etc/resolv.conf"
    );
}

#[test]
fn addresses_read_as_the_standard_library_reads_them() {
    let mut samples: Vec<String> = [
        "", ".", ":", "::", ":::", "::::", "0.0.0.0", "255.255.255.255", "256.0.0.0", "1.2.3",
        "1.2.3.4", "1.2.3.4.", ".1.2.3.4", "1.2.3.4.5", "1..2.3", "01.2.3.4", "1.2.3.04", "00.0.0.0",
        "1.2.3.1000", "+1.2.3.4", "-1.2.3.4", "a.b.c.d", "1.2.3.4 ", "0x1.2.3.4", "::1", "1::",
        "1::1", "1:2:3:4:5:6:7:8", "1:2:3:4:5:6:7", "1:2:3:4:5:6:7:8:9", "1:2:3:4:5:6:7::",
        "::2:3:4:5:6:7:8", "1:2:3:4::5:6:7:8", "1:2:3:4::5:6:7", "1:2:3:4:5:6:7:8::", "::1:2:3:4:5:6:7:8",
        "1::2::3", "12345::", "::12345", "::g", "::G", "::F", "FD00::abcd", "00001::", "0001::",
        ":1", "1:", ":1::", "1:::", "1:2", "::1.2.3.4", "::ffff:1.2.3.4", "1.2.3.4::", "::1.2.3.4:5",
        "::1.2.3.4.5", "::1.2.3", "::01.2.3.4", "1:2:3:4:5:6:1.2.3.4", "1:2:3:4:5:1.2.3.4",
        "1:2:3:4:5:6:7:1.2.3.4", "1:2:3:4:5::1.2.3.4", "1:2:3:4:5:6::1.2.3.4", "1:2:1.2.3.4",
        "1:2:3:4:5:6:7::1.2.3.4", "fe80::1%1", "[::1]", "::1/64", "\u{661}.2.3.4", "::\u{661}",
        "1.2.3.4\n", "1.2.3.256", "::255.255.255.256", "::1.2.3.4::",
    ]
    .iter()
    .map(|text| text.to_string())
    .collect();
    // Every short text over a few telling characters.
    let alphabet = ['0', '1', 'f', ':', '.'];
    let mut level = vec![String::new()];
    for _ in 0..6 {
        let mut next = Vec::new();
        for text in &level {
            for c in alphabet {
                next.push(format!("{text}{c}"));
            }
        }
        samples.extend(next.iter().cloned());
        level = next;
    }
    for sample in &samples {
        assert_eq!(parse(sample), standard(sample), "{sample:?}");
    }
    assert_eq!(parse("192.168.0.1"), Some(IpAddress::V4(0xc0a8_0001)));
    assert_eq!(parse("::1"), Some(IpAddress::V6(1)));
    assert_eq!(parse("1::8"), Some(IpAddress::V6((1 << 112) | 8)));
}

#[test]
fn earlier_configuration_decides() {
    let first = "options ndots:1\nnameserver 10.0.0.1\n";
    let second = "nameserver 10.0.0.2\n";
    let none = "nameserver localhost\n";
    for (conf, expected) in [
        (format!("{first}{second}"), v4(0x0a00_0001)),
        (format!("{none}{second}"), v4(0x0a00_0002)),
        (format!("{none}{none}"), Err(ResolverConfigError::NoLiteralNameserver)),
    ] {
        assert_eq!(trusted_resolver_from_resolv_conf(&conf), expected);
    }
}
