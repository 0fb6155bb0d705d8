//! Whether policy DNS hands out IPv6 addresses.

use vstd::prelude::*;

use crate::routes::{
    ipv4_default_route, ipv6_default_route, ipv6_only_default_route, ipv6_only_uplink,
    optional_view,
};

verus! {

/// Whether policy DNS answers AAAA queries with synthetic IPv6 addresses.
///
/// When IPv6 egress is disabled, AAAA queries receive an empty successful
/// answer without an upstream query so dual-stack clients fall back to A.
/// That fallback cannot help on IPv6-only hosts (for example NAT64/DNS64
/// networks), where the trusted resolver returns no A records at all.
#[derive(Debug, Clone, Copy, PartialEq, Eq, Structural)]
pub enum PolicyDnsIpv6Egress {
    /// Enable IPv6 answers only when the supervisor network namespace has an
    /// IPv6 default route and no IPv4 default route.
    Auto,
    /// Always resolve AAAA queries through the trusted resolver.
    Enabled,
    /// Never resolve AAAA queries; answer them with NOERROR/NODATA.
    Disabled,
}

impl Default for PolicyDnsIpv6Egress {
    fn default() -> (mode: Self)
        ensures
            mode == PolicyDnsIpv6Egress::Auto,
    {
        PolicyDnsIpv6Egress::Auto
    }
}

impl PolicyDnsIpv6Egress {
    /// What the mode comes to where the routing tables read so.
    pub open spec fn resolved(
        self,
        ipv4_routes: Option<Seq<char>>,
        ipv6_routes: Option<Seq<char>>,
    ) -> bool {
        match self {
            PolicyDnsIpv6Egress::Enabled => true,
            PolicyDnsIpv6Egress::Disabled => false,
            PolicyDnsIpv6Egress::Auto => ipv6_only_uplink(ipv4_routes, ipv6_routes),
        }
    }

    /// Whether the decision needs the routing tables at all.
    pub fn reads_routing_tables(self) -> (reads: bool)
        ensures
            reads == (self == PolicyDnsIpv6Egress::Auto),
    {
        self == PolicyDnsIpv6Egress::Auto
    }

    /// Resolve the mode to a concrete decision for this supervisor, from what its
    /// `/proc/net/route` and `/proc/net/ipv6_route` hold, where they could be read.
    #[must_use]
    pub fn resolve(self, ipv4_routes: Option<&str>, ipv6_routes: Option<&str>) -> (enabled: bool)
        ensures
            enabled == self.resolved(optional_view(ipv4_routes), optional_view(ipv6_routes)),
    {
        match self {
            PolicyDnsIpv6Egress::Enabled => true,
            PolicyDnsIpv6Egress::Disabled => false,
            PolicyDnsIpv6Egress::Auto => ipv6_only_default_route(ipv4_routes, ipv6_routes),
        }
    }
}

/// A mode that is set explicitly decides alone, whatever the routing tables hold.
pub proof fn law_explicit_modes_ignore_routing_tables(
    mode: PolicyDnsIpv6Egress,
    ipv4_routes: Option<Seq<char>>,
    ipv6_routes: Option<Seq<char>>,
)
    requires
        mode != PolicyDnsIpv6Egress::Auto,
    ensures
        mode.resolved(ipv4_routes, ipv6_routes) == (mode == PolicyDnsIpv6Egress::Enabled),
{
}

/// Left to itself, policy DNS keeps to IPv4 where a table cannot be read, where there is an IPv4
/// uplink, and where there is no IPv6 uplink; and only there.
pub proof fn law_auto_needs_an_ipv6_only_uplink(
    ipv4_routes: Option<Seq<char>>,
    ipv6_routes: Option<Seq<char>>,
)
    ensures
        PolicyDnsIpv6Egress::Auto.resolved(ipv4_routes, ipv6_routes) <==> {
            &&& ipv4_routes matches Some(routes) && !ipv4_default_route(routes)
            &&& ipv6_routes matches Some(routes) && ipv6_default_route(routes)
        },
{
}

/// What a mode comes to is what it says where it says anything, and otherwise whether the tables
/// show an uplink for IPv6 alone; and it is only then that they are read.
pub proof fn law_modes_are_resolved(
    mode: PolicyDnsIpv6Egress,
    ipv4_routes: Option<&str>,
    ipv6_routes: Option<&str>,
    enabled: bool,
    reads: bool,
)
    requires
        call_ensures(PolicyDnsIpv6Egress::resolve, (mode, ipv4_routes, ipv6_routes), enabled),
        call_ensures(PolicyDnsIpv6Egress::reads_routing_tables, (mode,), reads),
    ensures
        mode == PolicyDnsIpv6Egress::Enabled ==> enabled,
        mode == PolicyDnsIpv6Egress::Disabled ==> !enabled,
        mode == PolicyDnsIpv6Egress::Auto ==> (enabled <==> {
            &&& ipv4_routes is Some
            &&& ipv6_routes is Some
            &&& ipv6_default_route(ipv6_routes->0@)
            &&& !ipv4_default_route(ipv4_routes->0@)
        }),
        reads <==> mode == PolicyDnsIpv6Egress::Auto,
{
}

}
