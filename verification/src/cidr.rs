//! Blocks of addresses: a network address with the length of its prefix.

use vstd::arithmetic::div_mod::{lemma_fundamental_div_mod, lemma_fundamental_div_mod_converse};
use vstd::arithmetic::power2::{lemma_pow2_pos, pow2};
use vstd::prelude::*;

use crate::address::{
    dotted, ipv4_literal, ipv6_literal, law_ipv4_literals_are_dotted, law_octets_are_decimal,
    lemma_dotted_characters, octet,
};
use crate::text::{
    before, decimal, joined, law_decimals_read_back, law_pieces_make_up_the_text,
    lemma_decimal_shape, lemma_first_piece, pieces,
};

verus! {

/// The address of a machine of a network with the length of the network's prefix, for addresses
/// of `width` bits.
pub struct Block {
    pub width: nat,
    pub address: nat,
    pub prefix_len: nat,
}

impl Block {
    /// How many addresses share the prefix.
    pub open spec fn size(self) -> nat {
        pow2((self.width - self.prefix_len) as nat)
    }

    /// The first address that has the prefix.
    pub open spec fn network(self) -> int {
        self.address - self.address % self.size()
    }

    /// The last address that has the prefix.
    pub open spec fn broadcast(self) -> int {
        self.network() + self.size() - 1
    }

    /// Whether `address` has the prefix.
    pub open spec fn contains(self, address: int) -> bool {
        self.network() <= address <= self.broadcast()
    }

    /// Whether no address has both prefixes.
    pub open spec fn disjoint(self, other: Block) -> bool {
        forall|address: int| !(#[trigger] self.contains(address) && other.contains(address))
    }

    /// Whether every address that has this prefix has that of `outer`.
    pub open spec fn within(self, outer: Block) -> bool {
        forall|address: int| #[trigger] self.contains(address) ==> outer.contains(address)
    }
}

/// A block of IPv4 addresses.
pub open spec fn ipv4_block(address: nat, prefix_len: nat) -> Block {
    Block { width: 32, address, prefix_len }
}

/// A block of IPv6 addresses.
pub open spec fn ipv6_block(address: nat, prefix_len: nat) -> Block {
    Block { width: 128, address, prefix_len }
}

/// The address and prefix length that `text` writes as an IPv4 address, a slash and a decimal
/// number without leading zeros.
pub open spec fn ipv4_cidr_literal(text: Seq<char>) -> Option<(nat, nat)> {
    let parts = pieces(text, '/');
    match (ipv4_literal(parts[0]), octet(parts[1])) {
        (Some(address), Some(prefix_len)) if parts.len() == 2 && prefix_len <= 32 => Some(
            (address, prefix_len),
        ),
        _ => None,
    }
}

/// The address and prefix length that `text` writes as an IPv6 address, a slash and a decimal
/// number without leading zeros.
pub open spec fn ipv6_cidr_literal(text: Seq<char>) -> Option<(nat, nat)> {
    let parts = pieces(text, '/');
    match (ipv6_literal(parts[0]), octet(parts[1])) {
        (Some(address), Some(prefix_len)) if parts.len() == 2 && prefix_len <= 128 => Some(
            (address, prefix_len),
        ),
        _ => None,
    }
}

/// The error of a prefix length that the addresses are too short for.
#[verifier::external_type_specification]
#[verifier::external_body]
pub struct ExPrefixLenError(ipnet::PrefixLenError);

/// The error of a text that writes no network.
#[verifier::external_type_specification]
#[verifier::external_body]
pub struct ExAddrParseError(ipnet::AddrParseError);

/// What `str::parse` makes of a text as an `ipnet::Ipv4Net`: its address and its prefix length.
pub uninterp spec fn ipnet_ipv4_net(text: Seq<char>) -> Option<(u32, u8)>;

/// What `str::parse` makes of a text as an `ipnet::Ipv6Net`: its address and its prefix length.
pub uninterp spec fn ipnet_ipv6_net(text: Seq<char>) -> Option<(u128, u8)>;

/// `ipnet::Ipv4Net`'s `FromStr`. Its result depends on the text alone. It reads an address, a
/// slash and a prefix length of at most 32; what it makes of other texts (it takes leading zeros,
/// for one) is left unsaid.
#[verifier::external_body]
fn ipnet_parse_ipv4(text: &str) -> (net: Result<(u32, u8), ipnet::AddrParseError>)
    ensures
        match net {
            Ok(net) => ipnet_ipv4_net(text@) == Some(net) && net.1 <= 32,
            Err(_) => ipnet_ipv4_net(text@) is None,
        },
        ipv4_cidr_literal(text@) matches Some((address, prefix_len)) ==> net matches Ok(net)
            && net.0 == address && net.1 == prefix_len,
{
    text.parse::<ipnet::Ipv4Net>().map(|net| (net.addr().into(), net.prefix_len()))
}

/// `ipnet::Ipv6Net`'s `FromStr`. Its result depends on the text alone. It reads an address, a
/// slash and a prefix length of at most 128; what it makes of other texts is left unsaid.
#[verifier::external_body]
fn ipnet_parse_ipv6(text: &str) -> (net: Result<(u128, u8), ipnet::AddrParseError>)
    ensures
        match net {
            Ok(net) => ipnet_ipv6_net(text@) == Some(net) && net.1 <= 128,
            Err(_) => ipnet_ipv6_net(text@) is None,
        },
        ipv6_cidr_literal(text@) matches Some((address, prefix_len)) ==> net matches Ok(net)
            && net.0 == address && net.1 == prefix_len,
{
    text.parse::<ipnet::Ipv6Net>().map(|net| (net.addr().into(), net.prefix_len()))
}

/// `ipnet::Ipv4Net::new` keeps the address and the prefix length, and fails where the prefix
/// length is above 32.
#[verifier::external_body]
fn ipnet_ipv4_new(address: u32, prefix_len: u8) -> (net: Result<(u32, u8), ipnet::PrefixLenError>)
    ensures
        match net {
            Ok(net) => prefix_len <= 32 && net == (address, prefix_len),
            Err(_) => prefix_len > 32,
        },
{
    ipnet::Ipv4Net::new(address.into(), prefix_len).map(|net| (net.addr().into(), net.prefix_len()))
}

/// `ipnet::Ipv6Net::new` keeps the address and the prefix length, and fails where the prefix
/// length is above 128.
#[verifier::external_body]
fn ipnet_ipv6_new(address: u128, prefix_len: u8) -> (net: Result<(u128, u8), ipnet::PrefixLenError>)
    ensures
        match net {
            Ok(net) => prefix_len <= 128 && net == (address, prefix_len),
            Err(_) => prefix_len > 128,
        },
{
    ipnet::Ipv6Net::new(address.into(), prefix_len).map(|net| (net.addr().into(), net.prefix_len()))
}

/// `ipnet::Ipv4Net::network` is the first address that has the prefix.
#[verifier::external_body]
fn ipnet_ipv4_network(address: u32, prefix_len: u8) -> (network: u32)
    requires
        prefix_len <= 32,
    ensures
        network == ipv4_block(address as nat, prefix_len as nat).network(),
{
    ipnet::Ipv4Net::new_assert(address.into(), prefix_len).network().into()
}

/// `ipnet::Ipv4Net::broadcast` is the last address that has the prefix.
#[verifier::external_body]
fn ipnet_ipv4_broadcast(address: u32, prefix_len: u8) -> (broadcast: u32)
    requires
        prefix_len <= 32,
    ensures
        broadcast == ipv4_block(address as nat, prefix_len as nat).broadcast(),
{
    ipnet::Ipv4Net::new_assert(address.into(), prefix_len).broadcast().into()
}

/// `ipnet::Ipv6Net::network` is the first address that has the prefix.
#[verifier::external_body]
fn ipnet_ipv6_network(address: u128, prefix_len: u8) -> (network: u128)
    requires
        prefix_len <= 128,
    ensures
        network == ipv6_block(address as nat, prefix_len as nat).network(),
{
    ipnet::Ipv6Net::new_assert(address.into(), prefix_len).network().into()
}

/// `ipnet::Ipv6Net::broadcast` is the last address that has the prefix.
#[verifier::external_body]
fn ipnet_ipv6_broadcast(address: u128, prefix_len: u8) -> (broadcast: u128)
    requires
        prefix_len <= 128,
    ensures
        broadcast == ipv6_block(address as nat, prefix_len as nat).broadcast(),
{
    ipnet::Ipv6Net::new_assert(address.into(), prefix_len).broadcast().into()
}

/// Why there is no such network.
#[derive(Debug, Clone, Copy, PartialEq, Eq, Structural)]
pub enum CidrError {
    /// The addresses are too short for the prefix.
    InvalidPrefixLength,
    /// The text writes no network.
    InvalidNotation,
}

impl CidrError {
    /// The error in words.
    pub open spec fn words(self) -> Seq<char> {
        match self {
            CidrError::InvalidPrefixLength => "invalid IP prefix length"@,
            CidrError::InvalidNotation => "invalid IP address syntax"@,
        }
    }

    /// The error in words.
    pub fn message(&self) -> (message: &'static str)
        ensures
            message@ == self.words(),
            *self == CidrError::InvalidPrefixLength ==> message@ == "invalid IP prefix length"@,
            *self == CidrError::InvalidNotation ==> message@ == "invalid IP address syntax"@,
    {
        match self {
            CidrError::InvalidPrefixLength => "invalid IP prefix length",
            CidrError::InvalidNotation => "invalid IP address syntax",
        }
    }
}

/// An IPv4 network.
#[derive(Debug, Clone, Copy, PartialEq, Eq, Structural)]
pub struct Ipv4Cidr {
    address: u32,
    prefix_len: u8,
}

impl View for Ipv4Cidr {
    type V = Block;

    closed spec fn view(&self) -> Block {
        ipv4_block(self.address as nat, self.prefix_len as nat)
    }
}

impl Ipv4Cidr {
    #[verifier::type_invariant]
    spec fn prefix_fits(self) -> bool {
        self.prefix_len <= 32
    }

    /// The network that `text` writes.
    pub fn parse(text: &str) -> (net: Result<Self, CidrError>)
        ensures
            match net {
                Ok(net) => {
                    &&& ipnet_ipv4_net(text@) matches Some((address, prefix_len))
                    &&& net@ == ipv4_block(address as nat, prefix_len as nat)
                },
                Err(error) => error == CidrError::InvalidNotation && ipnet_ipv4_net(
                    text@,
                ) is None,
            },
            ipv4_cidr_literal(text@) matches Some((address, prefix_len)) ==> net matches Ok(net)
                && net@ == ipv4_block(address, prefix_len),
    {
        match ipnet_parse_ipv4(text) {
            Ok((address, prefix_len)) => Ok(Ipv4Cidr { address, prefix_len }),
            Err(_) => Err(CidrError::InvalidNotation),
        }
    }

    /// The network of `address` with a prefix of `prefix_len` bits.
    pub fn new(address: u32, prefix_len: u8) -> (net: Result<Self, CidrError>)
        ensures
            match net {
                Ok(net) => prefix_len <= 32 && net@ == ipv4_block(
                    address as nat,
                    prefix_len as nat,
                ),
                Err(error) => error == CidrError::InvalidPrefixLength && prefix_len > 32,
            },
    {
        match ipnet_ipv4_new(address, prefix_len) {
            Ok((address, prefix_len)) => Ok(Ipv4Cidr { address, prefix_len }),
            Err(_) => Err(CidrError::InvalidPrefixLength),
        }
    }

    /// The length of the prefix.
    pub fn prefix_len(&self) -> (prefix_len: u8)
        ensures
            prefix_len == self@.prefix_len,
            prefix_len <= 32,
    {
        proof {
            use_type_invariant(self);
        }
        self.prefix_len
    }

    /// The first address of the network.
    pub fn network(&self) -> (network: u32)
        ensures
            network == self@.network(),
    {
        proof {
            use_type_invariant(self);
        }
        ipnet_ipv4_network(self.address, self.prefix_len)
    }

    /// The last address of the network.
    pub fn broadcast(&self) -> (broadcast: u32)
        ensures
            broadcast == self@.broadcast(),
    {
        proof {
            use_type_invariant(self);
        }
        ipnet_ipv4_broadcast(self.address, self.prefix_len)
    }
}

/// An IPv6 network.
#[derive(Debug, Clone, Copy, PartialEq, Eq, Structural)]
pub struct Ipv6Cidr {
    address: u128,
    prefix_len: u8,
}

impl View for Ipv6Cidr {
    type V = Block;

    closed spec fn view(&self) -> Block {
        ipv6_block(self.address as nat, self.prefix_len as nat)
    }
}

impl Ipv6Cidr {
    #[verifier::type_invariant]
    spec fn prefix_fits(self) -> bool {
        self.prefix_len <= 128
    }

    /// The network that `text` writes.
    pub fn parse(text: &str) -> (net: Result<Self, CidrError>)
        ensures
            match net {
                Ok(net) => {
                    &&& ipnet_ipv6_net(text@) matches Some((address, prefix_len))
                    &&& net@ == ipv6_block(address as nat, prefix_len as nat)
                },
                Err(error) => error == CidrError::InvalidNotation && ipnet_ipv6_net(
                    text@,
                ) is None,
            },
            ipv6_cidr_literal(text@) matches Some((address, prefix_len)) ==> net matches Ok(net)
                && net@ == ipv6_block(address, prefix_len),
    {
        match ipnet_parse_ipv6(text) {
            Ok((address, prefix_len)) => Ok(Ipv6Cidr { address, prefix_len }),
            Err(_) => Err(CidrError::InvalidNotation),
        }
    }

    /// The network of `address` with a prefix of `prefix_len` bits.
    pub fn new(address: u128, prefix_len: u8) -> (net: Result<Self, CidrError>)
        ensures
            match net {
                Ok(net) => prefix_len <= 128 && net@ == ipv6_block(
                    address as nat,
                    prefix_len as nat,
                ),
                Err(error) => error == CidrError::InvalidPrefixLength && prefix_len > 128,
            },
    {
        match ipnet_ipv6_new(address, prefix_len) {
            Ok((address, prefix_len)) => Ok(Ipv6Cidr { address, prefix_len }),
            Err(_) => Err(CidrError::InvalidPrefixLength),
        }
    }

    /// The length of the prefix.
    pub fn prefix_len(&self) -> (prefix_len: u8)
        ensures
            prefix_len == self@.prefix_len,
            prefix_len <= 128,
    {
        proof {
            use_type_invariant(self);
        }
        self.prefix_len
    }

    /// The first address of the network.
    pub fn network(&self) -> (network: u128)
        ensures
            network == self@.network(),
    {
        proof {
            use_type_invariant(self);
        }
        ipnet_ipv6_network(self.address, self.prefix_len)
    }

    /// The last address of the network.
    pub fn broadcast(&self) -> (broadcast: u128)
        ensures
            broadcast == self@.broadcast(),
    {
        proof {
            use_type_invariant(self);
        }
        ipnet_ipv6_broadcast(self.address, self.prefix_len)
    }
}

/// A block is the addresses that agree with its own in all bits but the last `width - prefix_len`.
pub proof fn law_block_shares_a_prefix(block: Block, address: nat)
    ensures
        block.size() == pow2((block.width - block.prefix_len) as nat),
        block.contains(address as int) <==> address / pow2(
            (block.width - block.prefix_len) as nat,
        ) == block.address / pow2((block.width - block.prefix_len) as nat),
        block.contains(block.address as int),
{
    let size = pow2((block.width - block.prefix_len) as nat) as int;
    lemma_pow2_pos((block.width - block.prefix_len) as nat);
    let prefix = block.address as int / size;
    lemma_fundamental_div_mod(block.address as int, size);
    lemma_fundamental_div_mod(address as int, size);
    assert(block.network() == size * prefix);
    if block.contains(address as int) {
        lemma_fundamental_div_mod_converse(
            address as int,
            size,
            prefix,
            address - size * prefix,
        );
    }
}

/// A block begins at a multiple of its size and has as many addresses, its own among them.
pub proof fn law_block_bounds(block: Block)
    ensures
        block.network() % (block.size() as int) == 0,
        block.network() <= block.address <= block.broadcast(),
        block.broadcast() - block.network() + 1 == block.size(),
        block.contains(block.network()),
        block.contains(block.broadcast()),
        !block.contains(block.network() - 1),
        !block.contains(block.broadcast() + 1),
{
    let size = block.size() as int;
    lemma_pow2_pos((block.width - block.prefix_len) as nat);
    lemma_fundamental_div_mod(block.address as int, size);
    let prefix = block.address as int / size;
    assert(block.network() == size * prefix);
    assert(size * prefix == prefix * size + 0) by (nonlinear_arith);
    lemma_fundamental_div_mod_converse(size * prefix, size, prefix, 0);
}

/// The blocks of either family are those of 32 and of 128 bits.
pub proof fn law_families_have_their_widths(address: nat, prefix_len: nat)
    ensures
        ipv4_block(address, prefix_len) == (Block { width: 32, address, prefix_len }),
        ipv6_block(address, prefix_len) == (Block { width: 128, address, prefix_len }),
{
}

/// Two blocks share no address exactly where one of them ends before the other begins, and one
/// lies in the other exactly where it does not begin before it or end behind it.
pub proof fn law_blocks_are_ranges(one: Block, other: Block)
    ensures
        one.disjoint(other) <==> one.broadcast() < other.network() || other.broadcast()
            < one.network(),
        one.within(other) <==> other.network() <= one.network() && one.broadcast()
            <= other.broadcast(),
{
    law_block_bounds(one);
    law_block_bounds(other);
    lemma_pow2_pos((one.width - one.prefix_len) as nat);
    lemma_pow2_pos((other.width - other.prefix_len) as nat);
    if one.disjoint(other) {
        assert(!(one.contains(one.network()) && other.contains(one.network())));
        assert(!(one.contains(other.network()) && other.contains(other.network())));
    }
    if one.within(other) {
        assert(other.contains(one.network()));
        assert(other.contains(one.broadcast()));
    }
}

/// An IPv4 network is read from the dotted text of an address, a slash and a decimal number up to
/// 32, and from no other text.
pub proof fn law_ipv4_cidr_literals(text: Seq<char>, address: nat, prefix_len: nat)
    ensures
        ipv4_cidr_literal(text) == Some((address, prefix_len)) <==> {
            &&& address < 0x1_0000_0000
            &&& prefix_len <= 32
            &&& text == dotted(address) + seq!['/'] + decimal(prefix_len)
        },
{
    let parts = pieces(text, '/');
    law_pieces_make_up_the_text(text, '/');
    if ipv4_cidr_literal(text) == Some((address, prefix_len)) {
        law_ipv4_literals_are_dotted(parts[0], address);
        law_octets_are_decimal(parts[1], prefix_len);
        lemma_two_parts(parts, '/');
    }
    if address < 0x1_0000_0000 && prefix_len <= 32 && text == dotted(address) + seq!['/'] + decimal(
        prefix_len,
    ) {
        law_ipv4_literals_are_dotted(dotted(address), address);
        law_octets_are_decimal(decimal(prefix_len), prefix_len);
        lemma_decimal_shape(prefix_len);
        lemma_dotted_characters(address);
        lemma_first_piece(dotted(address), '/', decimal(prefix_len));
        lemma_first_piece(decimal(prefix_len), '/', Seq::empty());
        assert(parts == seq![dotted(address), decimal(prefix_len)]);
    }
}

/// An IPv6 network is read from the text of an address, a slash and a decimal number up to 128,
/// and from no other text.
pub proof fn law_ipv6_cidr_literals(
    text: Seq<char>,
    written: Seq<char>,
    address: nat,
    prefix_len: nat,
)
    requires
        forall|i: int| 0 <= i < written.len() ==> written[i] != '/',
    ensures
        text == written + seq!['/'] + decimal(prefix_len) ==> (ipv6_cidr_literal(text) == Some(
            (address, prefix_len),
        ) <==> ipv6_literal(written) == Some(address) && prefix_len <= 128),
        ipv6_cidr_literal(text) == Some((address, prefix_len)) ==> {
            &&& ipv6_literal(before(text, '/')) == Some(address)
            &&& prefix_len <= 128
            &&& text == before(text, '/') + seq!['/'] + decimal(prefix_len)
        },
{
    if text == written + seq!['/'] + decimal(prefix_len) {
        lemma_decimal_shape(prefix_len);
        lemma_first_piece(written, '/', decimal(prefix_len));
        lemma_first_piece(decimal(prefix_len), '/', Seq::empty());
        law_octets_are_decimal(decimal(prefix_len), prefix_len);
        assert(pieces(text, '/') == seq![written, decimal(prefix_len)]);
        if let Some(value) = octet(decimal(prefix_len)) {
            law_octets_are_decimal(decimal(prefix_len), value);
            law_decimals_read_back(decimal(prefix_len), prefix_len);
            law_decimals_read_back(decimal(prefix_len), value);
        }
    }
    if ipv6_cidr_literal(text) == Some((address, prefix_len)) {
        let parts = pieces(text, '/');
        law_pieces_make_up_the_text(text, '/');
        law_octets_are_decimal(parts[1], prefix_len);
        lemma_two_parts(parts, '/');
        assert(parts[0] == before(text, '/'));
    }
}

proof fn lemma_two_parts(parts: Seq<Seq<char>>, mark: char)
    requires
        parts.len() == 2,
    ensures
        joined(parts, mark) == parts[0] + seq![mark] + parts[1],
{
    assert(parts.skip(1)[0] == parts[1]);
    assert(joined(parts.skip(1), mark) == parts[1]);
}

/// An IPv4 network is made of every address with every prefix length up to 32, and of none above.
pub proof fn law_ipv4_prefix_lengths_up_to_the_width(
    address: u32,
    prefix_len: u8,
    made: Result<Ipv4Cidr, CidrError>,
)
    requires
        call_ensures(Ipv4Cidr::new, (address, prefix_len), made),
    ensures
        made is Ok <==> prefix_len <= 32,
        made is Err ==> made->Err_0 == CidrError::InvalidPrefixLength,
{
}

/// An IPv4 network that is made of an address and a prefix length keeps the prefix length, and
/// begins and ends where the addresses that share the prefix do.
pub proof fn law_ipv4_networks_share_a_prefix(
    address: u32,
    prefix_len: u8,
    net: &Ipv4Cidr,
    kept: u8,
    first: u32,
    last: u32,
    other: nat,
)
    requires
        call_ensures(Ipv4Cidr::new, (address, prefix_len), Ok::<Ipv4Cidr, CidrError>(*net)),
        call_ensures(Ipv4Cidr::prefix_len, (net,), kept),
        call_ensures(Ipv4Cidr::network, (net,), first),
        call_ensures(Ipv4Cidr::broadcast, (net,), last),
    ensures
        kept == prefix_len,
        first <= other <= last <==> other / pow2((32 - prefix_len) as nat) == address as nat
            / pow2((32 - prefix_len) as nat),
{
    law_block_shares_a_prefix(net@, other);
}

/// An IPv6 network is made of every address with every prefix length up to 128, and of none above.
pub proof fn law_ipv6_prefix_lengths_up_to_the_width(
    address: u128,
    prefix_len: u8,
    made: Result<Ipv6Cidr, CidrError>,
)
    requires
        call_ensures(Ipv6Cidr::new, (address, prefix_len), made),
    ensures
        made is Ok <==> prefix_len <= 128,
        made is Err ==> made->Err_0 == CidrError::InvalidPrefixLength,
{
}

/// An IPv6 network that is made of an address and a prefix length keeps the prefix length, and
/// begins and ends where the addresses that share the prefix do.
pub proof fn law_ipv6_networks_share_a_prefix(
    address: u128,
    prefix_len: u8,
    net: &Ipv6Cidr,
    kept: u8,
    first: u128,
    last: u128,
    other: nat,
)
    requires
        call_ensures(Ipv6Cidr::new, (address, prefix_len), Ok::<Ipv6Cidr, CidrError>(*net)),
        call_ensures(Ipv6Cidr::prefix_len, (net,), kept),
        call_ensures(Ipv6Cidr::network, (net,), first),
        call_ensures(Ipv6Cidr::broadcast, (net,), last),
    ensures
        kept == prefix_len,
        first <= other <= last <==> other / pow2((128 - prefix_len) as nat) == address as nat
            / pow2((128 - prefix_len) as nat),
{
    law_block_shares_a_prefix(net@, other);
}

}
