//! Which addresses a supervisor hands out, by the epoch of its boot.

use vstd::arithmetic::power2::{lemma2_to64, lemma2_to64_rest, lemma_pow2_adds};
use vstd::prelude::*;

use crate::address::{gap_start, group, groups, groups_value, ipv4_literal, ipv6_literal, zeros};
use crate::cidr::{
    ipv4_block, ipv4_cidr_literal, ipv6_block, ipv6_cidr_literal, law_block_bounds, Block,
    CidrError, Ipv4Cidr, Ipv6Cidr,
};
use crate::text::{digit, lemma_first_piece, numeral, pieces};

verus! {

pub const IPV4_POOL_PREFIX: u8 = 23;

pub const IPV6_POOL_PREFIX: u8 = 119;

/// How many IPv4 pools the parent network has room for.
pub const IPV4_EPOCH_WINDOWS: u64 = 256;

/// How many names can be mapped to synthetic addresses at a time.
pub const MAX_MAPPINGS: usize = 1024;

/// How often mappings that have expired are looked for, in seconds.
pub const EXPIRY_INTERVAL_SECS: u64 = 1;

/// The network that every IPv4 pool lies in: `198.18.0.0/15`.
pub open spec fn ipv4_parent() -> Block {
    ipv4_block(0xc612_0000, 15)
}

/// The network that every IPv6 pool lies in: `fd23:6f70:656e::/48`.
pub open spec fn ipv6_parent() -> Block {
    ipv6_block(0xfd23_6f70_656e_0000_0000_0000_0000_0000, 48)
}

/// The IPv4 pool of an epoch: the parent's windows, one after the other and round again.
pub open spec fn ipv4_pool(epoch: u64) -> Block {
    ipv4_block(
        (0xc612_0000 + (epoch % IPV4_EPOCH_WINDOWS) * 0x200) as nat,
        IPV4_POOL_PREFIX as nat,
    )
}

/// The IPv6 pool of an epoch: the parent's windows, one after the other.
pub open spec fn ipv6_pool(epoch: u64) -> Block {
    ipv6_block(
        (0xfd23_6f70_656e_0000_0000_0000_0000_0000 + epoch * 0x200) as nat,
        IPV6_POOL_PREFIX as nat,
    )
}

proof fn lemma_ipv4_parent_text()
    ensures
        ipv4_cidr_literal("198.18.0.0/15"@) == Some((0xc612_0000nat, 15nat)),
{
    reveal_strlit("198.18.0.0/15");
    let text = "198.18.0.0/15"@;
    let address = text.take(10);
    let prefix = text.skip(11);
    assert(text == address + seq!['/'] + prefix);
    lemma_first_piece(address, '/', prefix);
    lemma_first_piece(prefix, '/', seq![]);
    let a = seq!['1', '9', '8'];
    let b = seq!['1', '8'];
    let c = seq!['0'];
    assert(address == a + seq!['.'] + (b + seq!['.'] + (c + seq!['.'] + c)));
    lemma_first_piece(a, '.', b + seq!['.'] + (c + seq!['.'] + c));
    lemma_first_piece(b, '.', c + seq!['.'] + c);
    lemma_first_piece(c, '.', c);
    assert(pieces(address, '.') == seq![a, b, c, c]);
    assert(prefix == seq!['1', '5']);
    assert(pieces(text, '/') == seq![address, prefix]);
    reveal_with_fuel(numeral, 4);
    assert(numeral(a, 10) == Some(198nat)) by {
        assert(a.drop_last() == seq!['1', '9']);
        assert(a.drop_last().drop_last() == seq!['1']);
    }
    assert(numeral(b, 10) == Some(18nat)) by {
        assert(b.drop_last() == seq!['1']);
    }
    assert(numeral(prefix, 10) == Some(15nat)) by {
        assert(prefix.drop_last() == seq!['1']);
    }
    assert(ipv4_literal(address) == Some(0xc612_0000nat));
}

proof fn lemma_four_digits(text: Seq<char>, w: nat, x: nat, y: nat, z: nat)
    requires
        text.len() == 4,
        digit(text[0], 16) == Some(w),
        digit(text[1], 16) == Some(x),
        digit(text[2], 16) == Some(y),
        digit(text[3], 16) == Some(z),
    ensures
        numeral(text, 16) == Some(w * 0x1000 + x * 0x100 + y * 0x10 + z),
{
    reveal_with_fuel(numeral, 5);
    let three = text.drop_last();
    let two = three.drop_last();
    assert(two.drop_last()[0] == text[0]);
    assert(two.last() == text[1]);
    assert(three.last() == text[2]);
}

proof fn lemma_three_groups(a: Seq<char>, b: Seq<char>, c: Seq<char>)
    requires
        group(a) is Some,
        group(b) is Some,
        group(c) is Some,
    ensures
        groups(seq![a, b, c], false) == Some(seq![group(a)->0, group(b)->0, group(c)->0]),
{
    reveal_with_fuel(groups, 4);
    let parts = seq![a, b, c];
    assert(parts.skip(1) == seq![b, c]);
    assert(parts.skip(1).skip(1) == seq![c]);
    assert(seq![c].skip(1) == Seq::<Seq<char>>::empty());
    assert(seq![group(c)->0] + Seq::<nat>::empty() == seq![group(c)->0]);
    assert(seq![group(b)->0] + seq![group(c)->0] == seq![group(b)->0, group(c)->0]);
    assert(seq![group(a)->0] + seq![group(b)->0, group(c)->0] == seq![
        group(a)->0,
        group(b)->0,
        group(c)->0,
    ]);
}

proof fn lemma_parent_groups_value()
    ensures
        groups_value(seq![0xfd23nat, 0x6f70nat, 0x656enat] + zeros(5) + Seq::<nat>::empty())
            == 0xfd23_6f70_656e_0000_0000_0000_0000_0000,
{
    let digits = seq![0xfd23nat, 0x6f70nat, 0x656enat] + zeros(5) + Seq::<nat>::empty();
    assert(digits == seq![0xfd23nat, 0x6f70nat, 0x656enat, 0nat, 0nat, 0nat, 0nat, 0nat]);
    reveal_with_fuel(groups_value, 9);
}

proof fn lemma_gap_behind(head: Seq<char>, tail: Seq<char>)
    requires
        head.len() > 0,
        head.last() != ':',
        forall|i: int|
            0 <= i < head.len() - 1 ==> !(head[i] == ':' && #[trigger] head[i + 1] == ':'),
    ensures
        gap_start(head + seq![':', ':'] + tail) == head.len(),
    decreases head.len(),
{
    let text = head + seq![':', ':'] + tail;
    let rest = text.skip(1);
    assert(text[0] == head[0]);
    if head.len() == 1 {
        assert(rest[0] == ':' && rest[1] == ':');
        assert(gap_start(rest) == 0);
    } else {
        assert(text[1] == head[0int + 1]);
        assert(rest == head.skip(1) + seq![':', ':'] + tail);
        assert forall|i: int| 0 <= i < head.skip(1).len() - 1 implies !(head.skip(1)[i] == ':'
            && #[trigger] head.skip(1)[i + 1] == ':') by {
            assert(head.skip(1)[i + 1] == head[(i + 1) + 1]);
        }
        lemma_gap_behind(head.skip(1), tail);
    }
}

/// Three groups and a gap write an address whose other groups are zero.
proof fn lemma_three_groups_and_gap(a: Seq<char>, b: Seq<char>, c: Seq<char>)
    requires
        group(a) is Some,
        group(b) is Some,
        group(c) is Some,
        forall|i: int| 0 <= i < a.len() ==> a[i] != ':',
        forall|i: int| 0 <= i < b.len() ==> b[i] != ':',
        forall|i: int| 0 <= i < c.len() ==> c[i] != ':',
    ensures
        ipv6_literal(a + seq![':'] + (b + seq![':'] + c) + seq![':', ':'] + Seq::<char>::empty())
            == Some(
            groups_value(
                seq![group(a)->0, group(b)->0, group(c)->0] + zeros(5) + Seq::<nat>::empty(),
            ),
        ),
{
    let none = Seq::<char>::empty();
    let rest = b + seq![':'] + c;
    let head = a + seq![':'] + rest;
    let address = head + seq![':', ':'] + none;
    assert(head.last() == c.last());
    assert forall|i: int| 0 <= i < head.len() - 1 implies !(head[i] == ':' && #[trigger] head[i + 1]
        == ':') by {
        if head[i] == ':' {
            if i == a.len() {
                assert(head[i + 1] == b[0]);
            } else {
                assert(i == a.len() + 1 + b.len());
                assert(head[i + 1] == c[0]);
            }
        }
    }
    lemma_gap_behind(head, none);
    let gap = gap_start(address) as int;
    assert(address.take(gap) == head);
    assert(address.skip(gap + 2) == none);
    lemma_first_piece(a, ':', rest);
    lemma_first_piece(b, ':', c);
    lemma_first_piece(c, ':', none);
    assert(pieces(head, ':') == seq![a, b, c]);
    lemma_three_groups(a, b, c);
}

/// The text of the IPv6 parent's address.
#[verifier::opaque]
spec fn ipv6_parent_address() -> Seq<char> {
    seq!['f', 'd', '2', '3'] + seq![':'] + (seq!['6', 'f', '7', '0'] + seq![':'] + seq![
        '6',
        '5',
        '6',
        'e',
    ]) + seq![':', ':'] + Seq::<char>::empty()
}

proof fn lemma_ipv6_parent_address()
    ensures
        ipv6_literal(ipv6_parent_address()) == Some(
            0xfd23_6f70_656e_0000_0000_0000_0000_0000nat,
        ),
{
    reveal(ipv6_parent_address);
    let a = seq!['f', 'd', '2', '3'];
    let b = seq!['6', 'f', '7', '0'];
    let c = seq!['6', '5', '6', 'e'];
    lemma_four_digits(a, 15, 13, 2, 3);
    lemma_four_digits(b, 6, 15, 7, 0);
    lemma_four_digits(c, 6, 5, 6, 14);
    lemma_three_groups_and_gap(a, b, c);
    lemma_parent_groups_value();
}

proof fn lemma_ipv6_parent_spelling()
    ensures
        "fd23:6f70:656e::/48"@ == ipv6_parent_address() + seq!['/'] + seq!['4', '8'],
        forall|i: int| 0 <= i < ipv6_parent_address().len() ==> ipv6_parent_address()[i] != '/',
{
    reveal(ipv6_parent_address);
    reveal_strlit("fd23:6f70:656e::/48");
}

proof fn lemma_ipv6_parent_text()
    ensures
        ipv6_cidr_literal("fd23:6f70:656e::/48"@) == Some(
            (0xfd23_6f70_656e_0000_0000_0000_0000_0000nat, 48nat),
        ),
{
    let prefix = seq!['4', '8'];
    lemma_ipv6_parent_spelling();
    lemma_ipv6_parent_address();
    lemma_first_piece(ipv6_parent_address(), '/', prefix);
    lemma_first_piece(prefix, '/', Seq::empty());
    assert(numeral(prefix, 10) == Some(48nat)) by {
        reveal_with_fuel(numeral, 3);
        assert(prefix.drop_last() == seq!['4']);
    }
}

/// The addresses that names are mapped to: for each family the first and the last one.
#[derive(Debug, Clone, Copy, PartialEq, Eq, Structural)]
pub struct SyntheticPools {
    pub ipv4_first: u32,
    pub ipv4_last: u32,
    pub ipv6_first: u128,
    pub ipv6_last: u128,
}

impl SyntheticPools {
    /// Whether the pools hold the addresses of these blocks and no others.
    pub open spec fn cover(self, ipv4: Block, ipv6: Block) -> bool {
        &&& self.ipv4_first == ipv4.network()
        &&& self.ipv4_last == ipv4.broadcast()
        &&& self.ipv6_first == ipv6.network()
        &&& self.ipv6_last == ipv6.broadcast()
    }

    /// How many addresses the pools hold.
    pub open spec fn capacity(self) -> int {
        (self.ipv4_last - self.ipv4_first + 1) + (self.ipv6_last - self.ipv6_first + 1)
    }
}

/// What a supervisor's policy DNS is set up with.
#[derive(Debug, Clone, Copy, PartialEq, Eq, Structural)]
pub struct PolicyDnsRuntimeConfig {
    pub ipv4_cidr: Ipv4Cidr,
    pub ipv6_cidr: Ipv6Cidr,
    pub pools: SyntheticPools,
    pub ipv6_egress: bool,
}

impl PolicyDnsRuntimeConfig {
    /// Whether the pools are the addresses of the two networks.
    pub open spec fn wf(self) -> bool {
        self.pools.cover(self.ipv4_cidr@, self.ipv6_cidr@)
    }

    /// The configuration of the supervisor that booted in this epoch.
    pub fn for_epoch(epoch: u64) -> (config: Result<Self, CidrError>)
        ensures
            config matches Ok(config) && {
                &&& config.wf()
                &&& config.ipv4_cidr@ == ipv4_pool(epoch)
                &&& config.ipv6_cidr@ == ipv6_pool(epoch)
                &&& config.pools.ipv4_first == 0xc612_0000 + 512 * (epoch % 256)
                &&& config.pools.ipv4_last == config.pools.ipv4_first + 511
                &&& config.pools.ipv6_first == 0xfd23_6f70_656e_0000_0000_0000_0000_0000 + 512
                    * epoch
                &&& config.pools.ipv6_last == config.pools.ipv6_first + 511
                &&& !config.ipv6_egress
            },
    {
        proof {
            lemma_pool_bounds(epoch);
            lemma_ipv4_parent_text();
            lemma_ipv6_parent_text();
            lemma_parent_networks();
        }
        let ipv4_parent = Ipv4Cidr::parse("198.18.0.0/15").unwrap();
        let ipv4_window: u64 = epoch % IPV4_EPOCH_WINDOWS;
        assert(1u64 << 9u8 == 512) by (bit_vector);
        let ipv4_start: u32 = ipv4_parent.network() + (ipv4_window * (1u64 << (32
            - IPV4_POOL_PREFIX))) as u32;
        let ipv4_cidr = match Ipv4Cidr::new(ipv4_start, IPV4_POOL_PREFIX) {
            Ok(cidr) => cidr,
            Err(error) => {
                return Err(error);
            },
        };

        let ipv6_parent = Ipv6Cidr::parse("fd23:6f70:656e::/48").unwrap();
        let ipv6_window: u128 = epoch as u128;
        assert(ipv6_window << 9u8 == ipv6_window * 512) by (bit_vector)
            requires
                ipv6_window <= 0xffff_ffff_ffff_ffff,
        ;
        let ipv6_start: u128 = ipv6_parent.network() + (ipv6_window << (128 - IPV6_POOL_PREFIX));
        let ipv6_cidr = match Ipv6Cidr::new(ipv6_start, IPV6_POOL_PREFIX) {
            Ok(cidr) => cidr,
            Err(error) => {
                return Err(error);
            },
        };

        let pools = SyntheticPools {
            ipv4_first: ipv4_cidr.network(),
            ipv4_last: ipv4_cidr.broadcast(),
            ipv6_first: ipv6_cidr.network(),
            ipv6_last: ipv6_cidr.broadcast(),
        };
        Ok(PolicyDnsRuntimeConfig { ipv4_cidr, ipv6_cidr, pools, ipv6_egress: false })
    }

    /// Answer AAAA queries from the synthetic IPv6 pool instead of returning
    /// NOERROR/NODATA.
    #[must_use]
    pub fn with_ipv6_egress(self, enabled: bool) -> (config: Self)
        ensures
            config == (PolicyDnsRuntimeConfig { ipv6_egress: enabled, ..self }),
            config.wf() == self.wf(),
    {
        let mut config = self;
        config.ipv6_egress = enabled;
        config
    }
}

proof fn lemma_parent_networks()
    ensures
        ipv4_parent().network() == 0xc612_0000,
        ipv6_parent().network() == 0xfd23_6f70_656e_0000_0000_0000_0000_0000,
        ipv4_parent().size() == 0x2_0000,
        ipv6_parent().size() == 0x1_0000_0000_0000_0000_0000,
{
    lemma2_to64();
    lemma2_to64_rest();
    lemma_pow2_adds(64, 16);
    assert(0xc612_0000nat % 0x2_0000nat == 0);
    assert(0xfd23_6f70_656e_0000_0000_0000_0000_0000nat % 0x1_0000_0000_0000_0000_0000nat == 0);
}

/// An epoch's pools begin at the addresses that name them, and each has 512.
pub proof fn lemma_pool_bounds(epoch: u64)
    ensures
        ipv4_pool(epoch).size() == 0x200,
        ipv4_pool(epoch).network() == ipv4_pool(epoch).address,
        ipv6_pool(epoch).size() == 0x200,
        ipv6_pool(epoch).network() == ipv6_pool(epoch).address,
{
    lemma2_to64();
    let ipv4 = ipv4_pool(epoch).address;
    let ipv6 = ipv6_pool(epoch).address;
    assert(ipv4 % 0x200nat == 0);
    assert(ipv6 % 0x200nat == 0);
}

/// The pools of every epoch lie in the networks that are set aside for them.
pub proof fn law_pools_lie_in_their_parents(epoch: u64)
    ensures
        ipv4_pool(epoch).within(ipv4_parent()),
        ipv6_pool(epoch).within(ipv6_parent()),
{
    lemma_pool_bounds(epoch);
    lemma_parent_networks();
}

/// The IPv4 pools of two epochs share no address, unless the epochs are a multiple of the number
/// of windows apart: then they are the same.
pub proof fn law_ipv4_pools_repeat_by_window(first: u64, second: u64)
    ensures
        first % IPV4_EPOCH_WINDOWS != second % IPV4_EPOCH_WINDOWS ==> ipv4_pool(first).disjoint(
            ipv4_pool(second),
        ),
        first % IPV4_EPOCH_WINDOWS == second % IPV4_EPOCH_WINDOWS ==> ipv4_pool(first)
            == ipv4_pool(second),
{
    lemma_pool_bounds(first);
    lemma_pool_bounds(second);
}

/// The IPv6 pools of two different epochs share no address.
pub proof fn law_ipv6_pools_never_repeat(first: u64, second: u64)
    requires
        first != second,
    ensures
        ipv6_pool(first).disjoint(ipv6_pool(second)),
{
    lemma_pool_bounds(first);
    lemma_pool_bounds(second);
}

/// The windows leave out no address of the network that is set aside for the IPv4 pools.
pub proof fn law_ipv4_windows_fill_their_parent(address: int)
    requires
        ipv4_parent().contains(address),
    ensures
        exists|epoch: u64|
            epoch < IPV4_EPOCH_WINDOWS && #[trigger] ipv4_pool(epoch).contains(address),
{
    lemma_parent_networks();
    let epoch = ((address - 0xc612_0000) / 0x200) as u64;
    lemma_pool_bounds(epoch);
    assert(ipv4_pool(epoch).contains(address));
}

/// The IPv6 pool of a later epoch lies above that of an earlier one.
pub proof fn law_ipv6_pools_rise(earlier: u64, later: u64)
    requires
        earlier < later,
    ensures
        ipv6_pool(earlier).broadcast() < ipv6_pool(later).network(),
{
    lemma_pool_bounds(earlier);
    lemma_pool_bounds(later);
}

/// A supervisor never hands out an address that the one of the boot before it did.
pub proof fn law_adjacent_epochs_share_no_address(epoch: u64)
    requires
        epoch < u64::MAX,
    ensures
        ipv4_pool(epoch).disjoint(ipv4_pool((epoch + 1) as u64)),
        ipv6_pool(epoch).disjoint(ipv6_pool((epoch + 1) as u64)),
{
    law_ipv4_pools_repeat_by_window(epoch, (epoch + 1) as u64);
    law_ipv6_pools_never_repeat(epoch, (epoch + 1) as u64);
}

/// The network between the supervisor and its workload: `10.200.0.0/24`.
pub open spec fn workload_network() -> Block {
    ipv4_block(0x0ac8_0000, 24)
}

/// No pool has an address of the network between the supervisor and its workload.
pub proof fn law_pools_are_apart_from_the_workload(epoch: u64)
    ensures
        ipv4_pool(epoch).disjoint(workload_network()),
{
    lemma_pool_bounds(epoch);
    lemma2_to64();
    assert(0x0ac8_0000nat % 0x100nat == 0);
}

/// The pools of an epoch have as many addresses as names can be mapped at a time.
pub proof fn law_pools_hold_every_mapping(epoch: u64, pools: SyntheticPools)
    requires
        pools.cover(ipv4_pool(epoch), ipv6_pool(epoch)),
    ensures
        pools.capacity() == MAX_MAPPINGS,
{
    lemma_pool_bounds(epoch);
}

/// The pools that cover two networks hold exactly the addresses of those networks.
pub proof fn law_pools_are_their_networks(
    pools: SyntheticPools,
    ipv4: Block,
    ipv6: Block,
    address: int,
)
    requires
        pools.cover(ipv4, ipv6),
    ensures
        pools.ipv4_first <= address <= pools.ipv4_last <==> ipv4.contains(address),
        pools.ipv6_first <= address <= pools.ipv6_last <==> ipv6.contains(address),
        pools.ipv4_first <= ipv4.address <= pools.ipv4_last,
        pools.ipv6_first <= ipv6.address <= pools.ipv6_last,
        pools.capacity() == ipv4.size() + ipv6.size(),
{
    law_block_bounds(ipv4);
    law_block_bounds(ipv6);
}

/// The pools of a configuration hold exactly the addresses of its networks.
pub proof fn law_configured_pools_are_the_networks(config: PolicyDnsRuntimeConfig, address: int)
    requires
        config.wf(),
    ensures
        config.pools.ipv4_first <= address <= config.pools.ipv4_last
            <==> config.ipv4_cidr@.contains(address),
        config.pools.ipv6_first <= address <= config.pools.ipv6_last
            <==> config.ipv6_cidr@.contains(address),
{
    law_pools_are_their_networks(config.pools, config.ipv4_cidr@, config.ipv6_cidr@, address);
}

/// An address is in the pool of an epoch exactly where it is one of the 512 that begin as many
/// times 512 above the first of the parent network as epochs have gone by, for IPv4 in the round
/// of 256.
pub proof fn law_pool_addresses(epoch: u64, address: int)
    ensures
        ipv4_pool(epoch).contains(address) <==> 0 <= address - (0xc612_0000 + 512 * (epoch % 256))
            < 512,
        ipv6_pool(epoch).contains(address) <==> 0 <= address - (
        0xfd23_6f70_656e_0000_0000_0000_0000_0000 + 512 * epoch) < 512,
{
    lemma_pool_bounds(epoch);
}

/// Pools that cover those of an epoch are these four numbers, and no others are.
pub proof fn law_pools_of_an_epoch(epoch: u64, pools: SyntheticPools)
    ensures
        pools.cover(ipv4_pool(epoch), ipv6_pool(epoch)) <==> {
            &&& pools.ipv4_first == 0xc612_0000 + 512 * (epoch % 256)
            &&& pools.ipv4_last == 0xc612_01ff + 512 * (epoch % 256)
            &&& pools.ipv6_first == 0xfd23_6f70_656e_0000_0000_0000_0000_0000 + 512 * epoch
            &&& pools.ipv6_last == 0xfd23_6f70_656e_0000_0000_0000_0000_01ff + 512 * epoch
        },
{
    lemma_pool_bounds(epoch);
}

/// The pools of two boots one after the other have no address in common, and those of the later
/// one follow on those of the earlier, but for the IPv4 pool that begins the round again.
pub proof fn law_pools_follow_each_other(
    epoch: u64,
    earlier: SyntheticPools,
    later: SyntheticPools,
    address: int,
)
    requires
        epoch < u64::MAX,
        earlier.cover(ipv4_pool(epoch), ipv6_pool(epoch)),
        later.cover(ipv4_pool((epoch + 1) as u64), ipv6_pool((epoch + 1) as u64)),
    ensures
        later.ipv6_first == earlier.ipv6_last + 1,
        epoch % 256 != 255 ==> later.ipv4_first == earlier.ipv4_last + 1,
        epoch % 256 == 255 ==> later.ipv4_last == earlier.ipv4_first - 0x1_fe00 + 0x1ff,
        !(earlier.ipv4_first <= address <= earlier.ipv4_last && later.ipv4_first <= address
            <= later.ipv4_last),
        !(earlier.ipv6_first <= address <= earlier.ipv6_last && later.ipv6_first <= address
            <= later.ipv6_last),
{
    lemma_pool_bounds(epoch);
    lemma_pool_bounds((epoch + 1) as u64);
}

/// The networks that are set aside for the pools are `198.18` and `198.19` with whatever follows,
/// and `fd23:6f70:656e` with whatever follows; that of the workload is `10.200.0` with whatever
/// follows.
pub proof fn law_networks_set_aside(address: int)
    ensures
        ipv4_parent().contains(address) <==> {
            ||| address / 0x1_0000 == 198 * 256 + 18
            ||| address / 0x1_0000 == 198 * 256 + 19
        },
        ipv6_parent().contains(address) <==> address / 0x1_0000_0000_0000_0000_0000
            == 0xfd23_6f70_656e,
        workload_network().contains(address) <==> address / 256 == (10 * 256 + 200) * 256,
{
    lemma_parent_networks();
    lemma2_to64();
    assert(0x0ac8_0000nat % 0x100nat == 0);
}

/// As many addresses as the pools have stand from their first to their last, in both families.
pub proof fn law_capacity(pools: SyntheticPools, ipv4_count: nat, ipv6_count: nat)
    requires
        pools.ipv4_first + ipv4_count == pools.ipv4_last + 1,
        pools.ipv6_first + ipv6_count == pools.ipv6_last + 1,
    ensures
        pools.capacity() == ipv4_count + ipv6_count,
{
}

/// The configuration of every epoch has an address in a pool exactly where it is one of the 512 of
/// the epoch, which are those of its networks, and begins without answers for IPv6.
pub proof fn law_epochs_are_configured(
    epoch: u64,
    config: Result<PolicyDnsRuntimeConfig, CidrError>,
    address: int,
)
    requires
        call_ensures(PolicyDnsRuntimeConfig::for_epoch, (epoch,), config),
    ensures
        config is Ok,
        ({
            let config = config->Ok_0;
            let ipv4_start = 0xc612_0000 + 512 * (epoch % 256);
            let ipv6_start = 0xfd23_6f70_656e_0000_0000_0000_0000_0000 + 512 * epoch;
            &&& config.pools.ipv4_first <= address <= config.pools.ipv4_last <==> ipv4_start
                <= address < ipv4_start + 512
            &&& config.pools.ipv6_first <= address <= config.pools.ipv6_last <==> ipv6_start
                <= address < ipv6_start + 512
            &&& config.ipv4_cidr@.contains(address) <==> ipv4_start <= address < ipv4_start + 512
            &&& config.ipv6_cidr@.contains(address) <==> ipv6_start <= address < ipv6_start + 512
            &&& config.ipv4_cidr@.prefix_len == 23
            &&& config.ipv6_cidr@.prefix_len == 119
            &&& !config.ipv6_egress
        }),
{
    law_pool_addresses(epoch, address);
}

/// To have answers for IPv6 or none changes nothing else of a configuration.
pub proof fn law_ipv6_egress_is_set_alone(
    config: PolicyDnsRuntimeConfig,
    enabled: bool,
    changed: PolicyDnsRuntimeConfig,
)
    requires
        call_ensures(PolicyDnsRuntimeConfig::with_ipv6_egress, (config, enabled), changed),
    ensures
        changed.ipv6_egress == enabled,
        changed.pools == config.pools,
        changed.ipv4_cidr == config.ipv4_cidr,
        changed.ipv6_cidr == config.ipv6_cidr,
{
}

}
