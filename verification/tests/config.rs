use policy_dns::cidr::{CidrError, Ipv4Cidr, Ipv6Cidr};
use policy_dns::config::{PolicyDnsRuntimeConfig, MAX_MAPPINGS};

fn ipv4_net(address: u32, prefix_len: u8) -> ipnet::Ipv4Net {
    ipnet::Ipv4Net::new(address.into(), prefix_len).unwrap()
}

fn ipv6_net(address: u128, prefix_len: u8) -> ipnet::Ipv6Net {
    ipnet::Ipv6Net::new(address.into(), prefix_len).unwrap()
}

#[test]
fn production_pool_is_disjoint_from_workload_veth() {
    let workload: ipnet::IpNet = "10.200.0.0/24".parse().unwrap();
    let config = PolicyDnsRuntimeConfig::for_epoch(42).unwrap();
    for address in [
        ipnet::IpNet::V4(ipv4_net(config.ipv4_cidr.network(), 32)).addr(),
        ipnet::IpNet::V4(ipv4_net(config.ipv4_cidr.broadcast(), 32)).addr(),
    ] {
        assert!(!workload.contains(&address));
    }
}

#[test]
fn adjacent_boot_epochs_use_disjoint_capture_ranges() {
    let first = PolicyDnsRuntimeConfig::for_epoch(1).unwrap();
    let second = PolicyDnsRuntimeConfig::for_epoch(2).unwrap();
    assert_ne!(first.ipv4_cidr, second.ipv4_cidr);
    assert_ne!(first.ipv6_cidr, second.ipv6_cidr);
    let parent: ipnet::Ipv4Net = "198.18.0.0/15".parse().unwrap();
    for address in [
        ipv4_net(first.ipv4_cidr.network(), 32).addr(),
        ipv4_net(second.ipv4_cidr.broadcast(), 32).addr(),
    ] {
        assert!(parent.contains(&address));
    }
}

#[test]
fn runtime_config_keeps_ipv6_egress_disabled_by_default() {
    let config = PolicyDnsRuntimeConfig::for_epoch(3).unwrap();
    assert!(!config.ipv6_egress);
    assert!(config.with_ipv6_egress(true).ipv6_egress);
}

#[test]
fn production_pools_and_store_capacity_expand_together() {
    let config = PolicyDnsRuntimeConfig::for_epoch(7).unwrap();
    let ipv4_capacity = 1_usize << (32 - config.ipv4_cidr.prefix_len());
    let ipv6_capacity = 1_usize << (128 - config.ipv6_cidr.prefix_len());
    assert_eq!(ipv4_capacity, 512);
    assert_eq!(ipv6_capacity, 512);
    assert_eq!(MAX_MAPPINGS, ipv4_capacity + ipv6_capacity);
}

#[test]
fn pools_are_the_addresses_of_the_networks() {
    for epoch in [0, 1, 7, 255, 256, 257, u64::MAX - 1, u64::MAX] {
        let config = PolicyDnsRuntimeConfig::for_epoch(epoch).unwrap();
        let start = 0xc612_0000 + (epoch % 256) as u32 * 512;
        assert_eq!(config.pools.ipv4_first, start);
        assert_eq!(config.pools.ipv4_last, start + 511);
        let start = 0xfd23_6f70_656e_0000_0000_0000_0000_0000 + u128::from(epoch) * 512;
        assert_eq!(config.pools.ipv6_first, start);
        assert_eq!(config.pools.ipv6_last, start + 511);
        assert_eq!(config.ipv4_cidr.network(), config.pools.ipv4_first);
        assert_eq!(config.ipv4_cidr.broadcast(), config.pools.ipv4_last);
        assert_eq!(config.ipv6_cidr.network(), config.pools.ipv6_first);
        assert_eq!(config.ipv6_cidr.broadcast(), config.pools.ipv6_last);
        assert_eq!(config.ipv4_cidr.prefix_len(), 23);
        assert_eq!(config.ipv6_cidr.prefix_len(), 119);
    }
}

#[test]
fn pools_stay_in_their_parents_and_repeat_only_for_ipv4() {
    let first = PolicyDnsRuntimeConfig::for_epoch(5).unwrap();
    let again = PolicyDnsRuntimeConfig::for_epoch(5 + 256).unwrap();
    assert_eq!(first.ipv4_cidr, again.ipv4_cidr);
    assert_ne!(first.ipv6_cidr, again.ipv6_cidr);
    let parent: ipnet::Ipv6Net = "fd23:6f70:656e::/48".parse().unwrap();
    let last = PolicyDnsRuntimeConfig::for_epoch(u64::MAX).unwrap();
    assert!(parent.contains(&ipv6_net(last.ipv6_cidr.network(), 128).addr()));
    assert!(parent.contains(&ipv6_net(last.ipv6_cidr.broadcast(), 128).addr()));
    assert!(last.pools.ipv4_last <= 0xc613_ffff);
}

#[test]
fn changing_ipv6_egress_changes_nothing_else() {
    let config = PolicyDnsRuntimeConfig::for_epoch(9).unwrap();
    assert_ne!(config.with_ipv6_egress(true), config);
    assert_eq!(config.with_ipv6_egress(true).with_ipv6_egress(false), config);
}

#[test]
fn network_and_broadcast_bound_the_prefix() {
    let net = Ipv4Cidr::new(0xac10_0116, 22).unwrap();
    assert_eq!((net.network(), net.broadcast()), (0xac10_0000, 0xac10_03ff));
    let all = Ipv4Cidr::new(0xac10_0116, 0).unwrap();
    assert_eq!((all.network(), all.broadcast()), (0, u32::MAX));
    let one = Ipv4Cidr::new(0xac10_0116, 32).unwrap();
    assert_eq!((one.network(), one.broadcast()), (0xac10_0116, 0xac10_0116));
    let net = Ipv6Cidr::new(0xfd00_1234 << 96, 24).unwrap();
    assert_eq!(net.network(), 0xfd00_1200 << 96);
    assert_eq!(net.broadcast(), (0xfd00_1300 << 96) - 1);
    let all = Ipv6Cidr::new(1, 0).unwrap();
    assert_eq!((all.network(), all.broadcast()), (0, u128::MAX));
}

#[test]
fn prefixes_longer_than_an_address_are_refused() {
    assert!(Ipv4Cidr::new(0, 32).is_ok());
    assert!(Ipv4Cidr::new(0, 33).is_err());
    assert!(Ipv6Cidr::new(0, 128).is_ok());
    assert!(Ipv6Cidr::new(0, 129).is_err());
    assert_eq!(Ipv4Cidr::new(0, 33), Err(CidrError::InvalidPrefixLength));
    assert_eq!(Ipv6Cidr::new(0, 129), Err(CidrError::InvalidPrefixLength));
    assert_eq!(CidrError::InvalidPrefixLength.message(), "invalid IP prefix length");
    assert_eq!(CidrError::InvalidPrefixLength.message(), ipnet::PrefixLenError.to_string());
}

#[test]
fn networks_are_read_from_their_notation() {
    let net = Ipv4Cidr::parse("198.18.0.0/15").unwrap();
    assert_eq!(net, Ipv4Cidr::new(0xc612_0000, 15).unwrap());
    let net = Ipv6Cidr::parse("fd23:6f70:656e::/48").unwrap();
    assert_eq!(net, Ipv6Cidr::new(0xfd23_6f70_656e << 80, 48).unwrap());
    let net = Ipv6Cidr::parse("::ffff:1.2.3.4/96").unwrap();
    assert_eq!(net, Ipv6Cidr::new(0xffff_0102_0304, 96).unwrap());
    for text in ["", "198.18.0.0", "198.18.0.0/33", "198.18.0/15", "fd23::/48", "1.2.3.4/15/1"] {
        assert_eq!(Ipv4Cidr::parse(text), Err(CidrError::InvalidNotation), "{text:?}");
    }
    for text in ["", "fd23::", "fd23::/129", "1.2.3.4/15", "fd23:/48"] {
        assert_eq!(Ipv6Cidr::parse(text), Err(CidrError::InvalidNotation), "{text:?}");
    }
    assert_eq!(CidrError::InvalidNotation.message(), "invalid IP address syntax");
}

#[test]
fn windows_follow_one_another_without_gaps() {
    let mut next = 0xc612_0000_u32;
    for epoch in 0..256 {
        let pools = PolicyDnsRuntimeConfig::for_epoch(epoch).unwrap().pools;
        assert_eq!(pools.ipv4_first, next);
        next = pools.ipv4_last + 1;
    }
    assert_eq!(next, 0xc614_0000);
    let earlier = PolicyDnsRuntimeConfig::for_epoch(256).unwrap().pools;
    let later = PolicyDnsRuntimeConfig::for_epoch(257).unwrap().pools;
    assert!(earlier.ipv6_last < later.ipv6_first);
}
