//! IP addresses and the text that writes them.

use vstd::arithmetic::power::{lemma_pow_increases, pow};
use vstd::prelude::*;
use vstd::slice::slice_subrange;

use crate::text::{
    decimal, digit, joined, law_decimals_read_back, law_joined_parts_are_the_pieces,
    law_pieces_make_up_the_text, lemma_decimal_shape, lemma_first_piece, numeral, parse_numeral,
    pieces, split_pieces, views,
};

verus! {

/// An IPv4 or IPv6 address, as the number that its octets spell from the first to the last.
#[derive(Debug, Clone, Copy, PartialEq, Eq, Structural)]
pub enum IpAddress {
    V4(u32),
    V6(u128),
}

/// A decimal number up to 255, without leading zeros.
pub open spec fn octet(text: Seq<char>) -> Option<nat> {
    match numeral(text, 10) {
        Some(value) => if value <= 255 && (text.len() > 1 ==> text[0] != '0') {
            Some(value)
        } else {
            None
        },
        None => None,
    }
}

/// The address that `text` writes as four octets between dots.
pub open spec fn ipv4_literal(text: Seq<char>) -> Option<nat> {
    let parts = pieces(text, '.');
    if parts.len() != 4 {
        None
    } else {
        match (octet(parts[0]), octet(parts[1]), octet(parts[2]), octet(parts[3])) {
            (Some(a), Some(b), Some(c), Some(d)) => Some(
                a * 0x100_0000 + b * 0x1_0000 + c * 0x100 + d,
            ),
            _ => None,
        }
    }
}

/// A hexadecimal number of one to four digits.
pub open spec fn group(text: Seq<char>) -> Option<nat> {
    if text.len() <= 4 {
        numeral(text, 16)
    } else {
        None
    }
}

/// The 16-bit groups that `parts` write, one each. Where `mixed` holds, the last part may be an
/// IPv4 address instead, which is two groups.
pub open spec fn groups(parts: Seq<Seq<char>>, mixed: bool) -> Option<Seq<nat>>
    decreases parts.len(),
{
    if parts.len() == 0 {
        Some(seq![])
    } else if mixed && parts.len() == 1 && ipv4_literal(parts[0]) is Some {
        let embedded = ipv4_literal(parts[0])->0;
        Some(seq![embedded / 0x1_0000, embedded % 0x1_0000])
    } else {
        match (group(parts[0]), groups(parts.skip(1), mixed)) {
            (Some(first), Some(others)) => Some(seq![first] + others),
            _ => None,
        }
    }
}

/// The groups that `text` writes between colons. An empty text writes none.
pub open spec fn group_run(text: Seq<char>, mixed: bool) -> Option<Seq<nat>> {
    if text.len() == 0 {
        Some(seq![])
    } else {
        groups(pieces(text, ':'), mixed)
    }
}

/// Where the first `::` of `text` begins, or the length of `text` where it has none.
pub open spec fn gap_start(text: Seq<char>) -> nat
    decreases text.len(),
{
    if text.len() < 2 {
        text.len()
    } else if text[0] == ':' && text[1] == ':' {
        0
    } else {
        1 + gap_start(text.skip(1))
    }
}

/// The number whose digits in base 65536 are `digits`.
pub open spec fn groups_value(digits: Seq<nat>) -> nat
    decreases digits.len(),
{
    if digits.len() == 0 {
        0
    } else {
        groups_value(digits.drop_last()) * 0x1_0000 + digits.last()
    }
}

/// As many zeros.
pub open spec fn zeros(count: int) -> Seq<nat> {
    Seq::new(count as nat, |i: int| 0)
}

/// The address that `text` writes as eight groups between colons, of which `::` stands for one
/// zero group or more, and of which the last two may be written as an IPv4 address.
pub open spec fn ipv6_literal(text: Seq<char>) -> Option<nat> {
    let gap = gap_start(text) as int;
    if gap >= text.len() {
        match group_run(text, true) {
            Some(all) => if all.len() == 8 {
                Some(groups_value(all))
            } else {
                None
            },
            None => None,
        }
    } else {
        match (group_run(text.take(gap), false), group_run(text.skip(gap + 2), true)) {
            (Some(head), Some(tail)) => if head.len() + tail.len() <= 7 {
                Some(groups_value(head + zeros(8 - head.len() - tail.len()) + tail))
            } else {
                None
            },
            _ => None,
        }
    }
}

/// The address that `text` writes, in either family.
pub open spec fn ip_literal(text: Seq<char>) -> Option<IpAddress> {
    match (ipv4_literal(text), ipv6_literal(text)) {
        (Some(address), _) => Some(IpAddress::V4(address as u32)),
        (None, Some(address)) => Some(IpAddress::V6(address as u128)),
        (None, None) => None,
    }
}

fn parse_octet(text: &[char]) -> (value: Option<u32>)
    ensures
        match value {
            Some(value) => octet(text@) == Some(value as nat) && value <= 255,
            None => octet(text@) is None,
        },
{
    match parse_numeral(text, 10) {
        Some(value) => if value <= 255 && !(text.len() > 1 && text[0] == '0') {
            Some(value)
        } else {
            None
        },
        None => None,
    }
}

/// The IPv4 address that `text` writes.
pub fn parse_ipv4(text: &[char]) -> (address: Option<u32>)
    ensures
        match address {
            Some(address) => ipv4_literal(text@) == Some(address as nat),
            None => ipv4_literal(text@) is None,
        },
{
    let parts = split_pieces(text, '.');
    assert(views(parts@).len() == parts@.len());
    if parts.len() != 4 {
        return None;
    }
    assert(forall|i: int| 0 <= i < 4 ==> #[trigger] views(parts@)[i] == parts@[i]@);
    match (
        parse_octet(parts[0]),
        parse_octet(parts[1]),
        parse_octet(parts[2]),
        parse_octet(parts[3]),
    ) {
        (Some(a), Some(b), Some(c), Some(d)) => Some(
            a * 0x100_0000 + b * 0x1_0000 + c * 0x100 + d,
        ),
        _ => None,
    }
}

/// The groups as numbers.
spec fn numbers(digits: Seq<u16>) -> Seq<nat> {
    digits.map_values(|digit: u16| digit as nat)
}

fn parse_group(text: &[char]) -> (value: Option<u16>)
    ensures
        match value {
            Some(value) => group(text@) == Some(value as nat),
            None => group(text@) is None,
        },
{
    if text.len() > 4 {
        return None;
    }
    proof {
        lemma_group_bound(text@);
    }
    match parse_numeral(text, 16) {
        Some(value) => Some(value as u16),
        None => None,
    }
}

proof fn lemma_group_bound(text: Seq<char>)
    requires
        text.len() <= 4,
    ensures
        numeral(text, 16) matches Some(value) ==> value <= 0xffff,
{
    reveal_with_fuel(numeral, 5);
}

fn parse_groups(parts: &Vec<&[char]>, mixed: bool) -> (digits: Option<Vec<u16>>)
    ensures
        match digits {
            Some(digits) => groups(views(parts@), mixed) == Some(numbers(digits@)),
            None => groups(views(parts@), mixed) is None,
        },
{
    let ghost texts = views(parts@);
    let mut digits: Vec<u16> = Vec::new();
    assert(texts.skip(0) == texts);
    assert(forall|rest: Seq<nat>| #[trigger] (numbers(digits@) + rest) == rest);
    for i in 0..parts.len()
        invariant
            texts == views(parts@),
            texts.len() == parts@.len(),
            match groups(texts.skip(i as int), mixed) {
                Some(rest) => groups(texts, mixed) == Some(numbers(digits@) + rest),
                None => groups(texts, mixed) is None,
            },
    {
        let part = parts[i];
        assert(texts.skip(i as int)[0] == part@);
        assert(texts.skip(i as int).skip(1) == texts.skip(i + 1));
        let ghost earlier = digits@;
        if mixed && i + 1 == parts.len() {
            if let Some(embedded) = parse_ipv4(part) {
                digits.push((embedded / 0x1_0000) as u16);
                digits.push((embedded % 0x1_0000) as u16);
                assert(numbers(digits@) == numbers(earlier) + seq![
                    (embedded / 0x1_0000) as nat,
                    (embedded % 0x1_0000) as nat,
                ]);
                return Some(digits);
            }
        }
        match parse_group(part) {
            Some(digit) => {
                digits.push(digit);
                assert forall|rest: Seq<nat>| #[trigger]
                    (numbers(digits@) + rest) == numbers(earlier) + (seq![digit as nat]
                        + rest) by {
                    assert(numbers(digits@) + rest =~= numbers(earlier) + (seq![digit as nat]
                        + rest));
                }
            },
            None => {
                return None;
            },
        }
    }
    assert(texts.skip(parts@.len() as int).len() == 0);
    assert(numbers(digits@) + Seq::<nat>::empty() == numbers(digits@));
    Some(digits)
}

fn parse_group_run(text: &[char], mixed: bool) -> (digits: Option<Vec<u16>>)
    ensures
        match digits {
            Some(digits) => group_run(text@, mixed) == Some(numbers(digits@)),
            None => group_run(text@, mixed) is None,
        },
{
    if text.len() == 0 {
        let digits: Vec<u16> = Vec::new();
        assert(numbers(digits@) == Seq::<nat>::empty());
        return Some(digits);
    }
    parse_groups(&split_pieces(text, ':'), mixed)
}

fn find_gap(text: &[char]) -> (gap: usize)
    ensures
        gap == gap_start(text@),
        gap < text@.len() ==> gap + 2 <= text@.len(),
        gap <= text@.len(),
{
    let mut gap: usize = 0;
    assert(text@.skip(0) == text@);
    while text.len() - gap >= 2 && !(text[gap] == ':' && text[gap + 1] == ':')
        invariant
            gap <= text@.len(),
            gap_start(text@) == gap + gap_start(text@.skip(gap as int)),
        decreases text@.len() - gap,
    {
        assert(text@.skip(gap as int).skip(1) == text@.skip(gap + 1));
        gap += 1;
    }
    if text.len() - gap >= 2 {
        gap
    } else {
        text.len()
    }
}

fn value_of_groups(digits: &Vec<u16>) -> (value: u128)
    requires
        digits@.len() == 8,
    ensures
        value == groups_value(numbers(digits@)),
{
    let mut value: u128 = 0;
    let ghost all = numbers(digits@);
    let ghost mut bound: nat = 1;
    proof {
        reveal(pow);
    }
    for i in 0..8usize
        invariant
            digits@.len() == 8,
            all == numbers(digits@),
            value == groups_value(all.take(i as int)),
            value < bound,
            bound == pow(0x1_0000, i as nat),
    {
        assert(all.take(i + 1).drop_last() == all.take(i as int));
        proof {
            lemma_pow_increases(0x1_0000, (i + 1) as nat, 8);
            reveal_with_fuel(pow, 9);
            assert(pow(0x1_0000, 8) == 0x1_0000_0000_0000_0000_0000_0000_0000_0000);
            assert((value + 1) * 0x1_0000 <= bound * 0x1_0000);
            bound = bound * 0x1_0000;
        }
        value = value * 0x1_0000 + digits[i] as u128;
    }
    assert(all.take(8) == all);
    value
}

/// The IPv6 address that `text` writes.
pub fn parse_ipv6(text: &[char]) -> (address: Option<u128>)
    ensures
        match address {
            Some(address) => ipv6_literal(text@) == Some(address as nat),
            None => ipv6_literal(text@) is None,
        },
{
    let gap = find_gap(text);
    if gap == text.len() {
        return match parse_group_run(text, true) {
            Some(all) => if all.len() == 8 {
                Some(value_of_groups(&all))
            } else {
                None
            },
            None => None,
        };
    }
    match (
        parse_group_run(slice_subrange(text, 0, gap), false),
        parse_group_run(slice_subrange(text, gap + 2, text.len()), true),
    ) {
        (Some(mut digits), Some(mut tail)) => {
            if digits.len() > 7 || tail.len() > 7 - digits.len() {
                return None;
            }
            let ghost head = digits@;
            let ghost last = tail@;
            digits.resize(8 - tail.len(), 0);
            digits.append(&mut tail);
            assert(numbers(digits@) == numbers(head) + zeros(8 - head.len() - last.len())
                + numbers(last));
            Some(value_of_groups(&digits))
        },
        _ => None,
    }
}

/// The address that `text` writes, in either family.
pub fn parse_ip(text: &[char]) -> (address: Option<IpAddress>)
    ensures
        address == ip_literal(text@),
{
    match parse_ipv4(text) {
        Some(address) => Some(IpAddress::V4(address)),
        None => match parse_ipv6(text) {
            Some(address) => Some(IpAddress::V6(address)),
            None => None,
        },
    }
}

/// The dotted text of an IPv4 address: its four octets in decimal, without leading zeros.
#[verifier::opaque]
pub open spec fn dotted(address: nat) -> Seq<char> {
    decimal(address / 0x100_0000) + seq!['.'] + decimal(address / 0x1_0000 % 256) + seq!['.']
        + decimal(address / 0x100 % 256) + seq!['.'] + decimal(address % 256)
}

/// An octet is read from the decimal text of a number up to 255, and from no other text.
pub proof fn law_octets_are_decimal(text: Seq<char>, value: nat)
    ensures
        octet(text) == Some(value) <==> value <= 255 && text == decimal(value),
{
    law_decimals_read_back(text, value);
}

proof fn lemma_four_parts(a: Seq<char>, b: Seq<char>, c: Seq<char>, d: Seq<char>, mark: char)
    ensures
        joined(seq![a, b, c, d], mark) == a + seq![mark] + b + seq![mark] + c + seq![mark] + d,
{
    let all = seq![a, b, c, d];
    assert(all.skip(1) == seq![b, c, d]);
    assert(seq![b, c, d].skip(1) == seq![c, d]);
    assert(seq![c, d].skip(1) == seq![d]);
    assert(joined(seq![d], mark) == d);
    assert(joined(seq![c, d], mark) == c + seq![mark] + d);
    assert(joined(seq![b, c, d], mark) == b + seq![mark] + joined(seq![c, d], mark));
}

/// The octets of an IPv4 address in decimal, without leading zeros.
spec fn octets(address: nat) -> Seq<Seq<char>> {
    seq![
        decimal(address / 0x100_0000),
        decimal(address / 0x1_0000 % 256),
        decimal(address / 0x100 % 256),
        decimal(address % 256),
    ]
}

proof fn lemma_octets_of(a: nat, b: nat, c: nat, d: nat)
    requires
        a <= 255,
        b <= 255,
        c <= 255,
        d <= 255,
    ensures
        ({
            let address = a * 0x100_0000 + b * 0x1_0000 + c * 0x100 + d;
            &&& address < 0x1_0000_0000
            &&& address / 0x100_0000 == a
            &&& address / 0x1_0000 % 256 == b
            &&& address / 0x100 % 256 == c
            &&& address % 256 == d
        }),
{
}

proof fn lemma_address_of(address: nat)
    requires
        address < 0x1_0000_0000,
    ensures
        address / 0x100_0000 <= 255,
        address / 0x1_0000 % 256 <= 255,
        address / 0x100 % 256 <= 255,
        address % 256 <= 255,
        (address / 0x100_0000) * 0x100_0000 + (address / 0x1_0000 % 256) * 0x1_0000 + (address
            / 0x100 % 256) * 0x100 + address % 256 == address,
{
}

proof fn lemma_dotted_octets(address: nat)
    ensures
        joined(octets(address), '.') == dotted(address),
        pieces(dotted(address), '.') == octets(address),
{
    reveal(dotted);
    let parts = octets(address);
    lemma_four_parts(parts[0], parts[1], parts[2], parts[3], '.');
    lemma_decimal_shape(address / 0x100_0000);
    lemma_decimal_shape(address / 0x1_0000 % 256);
    lemma_decimal_shape(address / 0x100 % 256);
    lemma_decimal_shape(address % 256);
    assert forall|i: int, j: int| 0 <= i < parts.len() && 0 <= j < parts[i].len() implies
        #[trigger] parts[i][j] != '.' by {
        assert('0' <= parts[i][j]);
    }
    law_joined_parts_are_the_pieces(parts, '.');
}

/// An IPv4 address is read from its dotted text, and from no other text.
pub proof fn law_ipv4_literals_are_dotted(text: Seq<char>, address: nat)
    ensures
        ipv4_literal(text) == Some(address) <==> address < 0x1_0000_0000 && text == dotted(address),
{
    if address < 0x1_0000_0000 && text == dotted(address) {
        lemma_dotted_is_read(address);
    }
    if ipv4_literal(text) == Some(address) {
        lemma_read_is_dotted(text, address);
    }
}

proof fn lemma_dotted_is_read(address: nat)
    requires
        address < 0x1_0000_0000,
    ensures
        ipv4_literal(dotted(address)) == Some(address),
{
    lemma_dotted_octets(address);
    lemma_address_of(address);
    let parts = octets(address);
    law_octets_are_decimal(parts[0], address / 0x100_0000);
    law_octets_are_decimal(parts[1], address / 0x1_0000 % 256);
    law_octets_are_decimal(parts[2], address / 0x100 % 256);
    law_octets_are_decimal(parts[3], address % 256);
}

proof fn lemma_read_is_dotted(text: Seq<char>, address: nat)
    requires
        ipv4_literal(text) == Some(address),
    ensures
        address < 0x1_0000_0000,
        text == dotted(address),
{
    let parts = pieces(text, '.');
    law_pieces_make_up_the_text(text, '.');
    let (a, b, c, d) = (
        octet(parts[0])->0,
        octet(parts[1])->0,
        octet(parts[2])->0,
        octet(parts[3])->0,
    );
    law_octets_are_decimal(parts[0], a);
    law_octets_are_decimal(parts[1], b);
    law_octets_are_decimal(parts[2], c);
    law_octets_are_decimal(parts[3], d);
    lemma_octets_of(a, b, c, d);
    assert(parts == octets(address));
    lemma_dotted_octets(address);
}

/// A group is one to four hexadecimal digits, and counts for what they write.
pub proof fn law_groups_are_hexadecimal(text: Seq<char>, value: nat)
    ensures
        group(text) == Some(value) <==> 1 <= text.len() <= 4 && numeral(text, 16) == Some(value),
        group(text) == Some(value) ==> value < 0x1_0000,
{
    if text.len() <= 4 {
        lemma_group_bound(text);
    }
}

/// Groups count like digits: one more behind the others makes those count for 65536 times as much.
/// Eight of them are the eight 16-bit parts of the number.
pub proof fn law_groups_are_positional(digits: Seq<nat>, low: nat)
    ensures
        groups_value(Seq::empty()) == 0,
        groups_value(digits.push(low)) == groups_value(digits) * 0x1_0000 + low,
        digits.len() == 8 ==> groups_value(digits) == digits[0]
            * 0x1_0000_0000_0000_0000_0000_0000_0000 + digits[1]
            * 0x1_0000_0000_0000_0000_0000_0000 + digits[2] * 0x1_0000_0000_0000_0000_0000
            + digits[3] * 0x1_0000_0000_0000_0000 + digits[4] * 0x1_0000_0000_0000 + digits[5]
            * 0x1_0000_0000 + digits[6] * 0x1_0000 + digits[7],
{
    assert(digits.push(low).drop_last() == digits);
    if digits.len() == 8 {
        reveal_with_fuel(groups_value, 9);
    }
}

/// The groups that a gap stands for are zero.
pub proof fn law_gaps_are_zero(count: nat)
    ensures
        zeros(count as int).len() == count,
        forall|i: int| 0 <= i < count ==> #[trigger] zeros(count as int)[i] == 0,
{
}

/// The first `::` is where two colons follow each other and none do before; where there is none,
/// no two do anywhere.
pub proof fn law_gap_is_the_first(text: Seq<char>)
    ensures
        ({
            let gap = gap_start(text) as int;
            &&& gap <= text.len()
            &&& gap < text.len() ==> gap + 1 < text.len() && text[gap] == ':' && text[gap + 1]
                == ':'
            &&& forall|i: int|
                0 <= i < gap && i + 1 < text.len() && text[i] == ':' ==> #[trigger] text[i + 1]
                    != ':'
        }),
    decreases text.len(),
{
    if text.len() >= 2 && !(text[0] == ':' && text[1] == ':') {
        let rest = text.skip(1);
        law_gap_is_the_first(rest);
        let gap = gap_start(text) as int;
        assert(gap == 1 + gap_start(rest));
        assert forall|i: int| 0 <= i < gap && i + 1 < text.len() && text[i] == ':' implies
            #[trigger] text[i + 1] != ':' by {
            if i > 0 {
                assert(rest[i - 1] == text[i]);
                assert(rest[i - 1 + 1] == text[i + 1]);
            }
        }
    }
}

/// Whether `parts` write these groups: one to four hexadecimal digits each, but that the last part
/// may be the dotted text of an IPv4 address for the last two groups where `mixed` holds.
#[verifier::opaque]
pub open spec fn write_groups(parts: Seq<Seq<char>>, values: Seq<nat>, mixed: bool) -> bool {
    let last = parts.len() - 1;
    ||| {
        &&& values.len() == parts.len()
        &&& forall|i: int|
            0 <= i < parts.len() ==> 1 <= #[trigger] parts[i].len() <= 4 && numeral(parts[i], 16)
                == Some(values[i])
    }
    ||| {
        &&& mixed
        &&& parts.len() > 0
        &&& values.len() == parts.len() + 1
        &&& forall|i: int|
            0 <= i < last ==> 1 <= #[trigger] parts[i].len() <= 4 && numeral(parts[i], 16) == Some(
                values[i],
            )
        &&& values[last] < 0x1_0000
        &&& values[last + 1] < 0x1_0000
        &&& parts[last] == dotted(values[last] * 0x1_0000 + values[last + 1])
    }
}

/// Every character of a numeral is a digit.
proof fn lemma_numerals_have_digits(text: Seq<char>, radix: nat, i: int)
    requires
        numeral(text, radix) is Some,
        0 <= i < text.len(),
    ensures
        digit(text[i], radix) is Some,
    decreases text.len(),
{
    if text.len() > 1 && i < text.len() - 1 {
        lemma_numerals_have_digits(text.drop_last(), radix, i);
    }
}

/// A dotted text has nothing but decimal digits and dots.
pub proof fn lemma_dotted_characters(address: nat)
    ensures
        dotted(address).len() > 0,
        forall|i: int|
            0 <= i < dotted(address).len() ==> #[trigger] dotted(address)[i] == '.' || '0'
                <= dotted(address)[i] <= '9',
{
    reveal(dotted);
    lemma_decimal_shape(address / 0x100_0000);
    lemma_decimal_shape(address / 0x1_0000 % 256);
    lemma_decimal_shape(address / 0x100 % 256);
    lemma_decimal_shape(address % 256);
    let (a, b, c, d) = (
        decimal(address / 0x100_0000),
        decimal(address / 0x1_0000 % 256),
        decimal(address / 0x100 % 256),
        decimal(address % 256),
    );
    let first = a + seq!['.'] + b;
    let second = first + seq!['.'] + c;
    let text = second + seq!['.'] + d;
    assert(text == dotted(address));
    assert forall|i: int| 0 <= i < first.len() implies #[trigger] first[i] == '.' || '0' <= first[i]
        <= '9' by {
        assert(i < a.len() ==> first[i] == a[i]);
        assert(i > a.len() ==> first[i] == b[i - a.len() - 1]);
    }
    assert forall|i: int| 0 <= i < second.len() implies #[trigger] second[i] == '.' || '0'
        <= second[i] <= '9' by {
        assert(i < first.len() ==> second[i] == first[i]);
        assert(i > first.len() ==> second[i] == c[i - first.len() - 1]);
    }
    assert forall|i: int| 0 <= i < text.len() implies #[trigger] text[i] == '.' || '0' <= text[i]
        <= '9' by {
        assert(i < second.len() ==> text[i] == second[i]);
        assert(i > second.len() ==> text[i] == d[i - second.len() - 1]);
    }
}

/// A dotted text is no numeral, and has no colon.
proof fn lemma_dotted_shape(address: nat)
    ensures
        dotted(address).len() > 0,
        numeral(dotted(address), 16) is None,
        forall|i: int| 0 <= i < dotted(address).len() ==> #[trigger] dotted(address)[i] != ':',
{
    lemma_dotted_characters(address);
    reveal(dotted);
    let text = dotted(address);
    let dot = decimal(address / 0x100_0000).len() as int;
    assert(text[dot] == '.');
    if numeral(text, 16) is Some {
        lemma_numerals_have_digits(text, 16, dot);
    }
}

/// The groups of parts are those that the parts write, and there are none where they write none.
pub proof fn law_groups_are_written(parts: Seq<Seq<char>>, values: Seq<nat>, mixed: bool)
    ensures
        groups(parts, mixed) == Some(values) <==> write_groups(parts, values, mixed),
    decreases parts.len(),
{
    reveal(write_groups);
    if parts.len() == 0 {
        if write_groups(parts, values, mixed) {
            assert(values == Seq::<nat>::empty());
        }
    } else if mixed && parts.len() == 1 && ipv4_literal(parts[0]) is Some {
        lemma_embedded_groups(parts, values);
    } else {
        let others = parts.skip(1);
        law_groups_are_written(others, values.skip(1), mixed);
        if groups(parts, mixed) == Some(values) {
            let first = group(parts[0])->0;
            law_groups_are_hexadecimal(parts[0], first);
            assert(values == seq![first] + groups(others, mixed)->0);
            assert(values.skip(1) == groups(others, mixed)->0);
            lemma_first_group(parts, values, mixed);
        }
        if write_groups(parts, values, mixed) {
            lemma_first_is_a_group(parts, values, mixed);
            lemma_first_group(parts, values, mixed);
            law_groups_are_hexadecimal(parts[0], values[0]);
            assert(values == seq![values[0]] + values.skip(1));
        }
    }
}

/// A last part that is the dotted text of an address writes the two groups of the address.
proof fn lemma_embedded_groups(parts: Seq<Seq<char>>, values: Seq<nat>)
    requires
        parts.len() == 1,
        ipv4_literal(parts[0]) is Some,
    ensures
        groups(parts, true) == Some(values) <==> write_groups(parts, values, true),
{
    reveal(write_groups);
    let embedded = ipv4_literal(parts[0])->0;
    law_ipv4_literals_are_dotted(parts[0], embedded);
    lemma_dotted_shape(embedded);
    let halves = seq![embedded / 0x1_0000, embedded % 0x1_0000];
    assert(groups(parts, true) == Some(halves));
    if write_groups(parts, values, true) {
        let address = values[0] * 0x1_0000 + values[1];
        law_ipv4_literals_are_dotted(parts[0], address);
        assert(embedded == address);
        assert(values == halves);
    }
}

proof fn lemma_first_is_a_group(parts: Seq<Seq<char>>, values: Seq<nat>, mixed: bool)
    requires
        parts.len() > 0,
        write_groups(parts, values, mixed),
        !(mixed && parts.len() == 1 && ipv4_literal(parts[0]) is Some),
    ensures
        values.len() > 0,
        1 <= parts[0].len() <= 4,
        numeral(parts[0], 16) == Some(values[0]),
{
    reveal(write_groups);
    if parts.len() == 1 && values.len() == 2 {
        law_ipv4_literals_are_dotted(parts[0], values[0] * 0x1_0000 + values[1]);
    }
}

/// Whether parts write groups is decided by the first of them, if it is a group, and by the rest.
proof fn lemma_first_group(parts: Seq<Seq<char>>, values: Seq<nat>, mixed: bool)
    requires
        parts.len() > 0,
        values.len() > 0,
        1 <= parts[0].len() <= 4,
        numeral(parts[0], 16) == Some(values[0]),
    ensures
        write_groups(parts, values, mixed) <==> write_groups(parts.skip(1), values.skip(1), mixed),
{
    reveal(write_groups);
    let others = parts.skip(1);
    let rest = values.skip(1);
    assert forall|i: int| 0 <= i < others.len() implies others[i] == parts[i + 1] by {}
    assert forall|i: int| 0 <= i < rest.len() implies rest[i] == values[i + 1] by {}
    if write_groups(parts, values, mixed) {
        if values.len() == parts.len() + 1 && parts.len() == 1 {
            lemma_dotted_shape(values[0] * 0x1_0000 + values[1]);
        }
        assert forall|i: int| 0 <= i < others.len() - (rest.len() - others.len()) implies 1
            <= #[trigger] others[i].len() <= 4 && numeral(others[i], 16) == Some(rest[i]) by {
            assert(1 <= parts[i + 1].len() <= 4);
        }
    }
    if write_groups(others, rest, mixed) {
        assert forall|i: int| 0 <= i < parts.len() - (values.len() - parts.len()) implies 1
            <= #[trigger] parts[i].len() <= 4 && numeral(parts[i], 16) == Some(values[i]) by {
            if i > 0 {
                assert(1 <= others[i - 1].len() <= 4);
                assert(others[i - 1] == parts[i]);
                assert(rest[i - 1] == values[i]);
            }
        }
    }
}

/// Parts that write groups have characters, and no colon among them.
proof fn lemma_written_parts(parts: Seq<Seq<char>>, values: Seq<nat>, mixed: bool)
    requires
        write_groups(parts, values, mixed),
    ensures
        values.len() > 0 ==> parts.len() > 0,
        forall|i: int| 0 <= i < parts.len() ==> #[trigger] parts[i].len() > 0,
        forall|i: int, j: int|
            0 <= i < parts.len() && 0 <= j < parts[i].len() ==> #[trigger] parts[i][j] != ':',
        forall|i: int| 0 <= i < values.len() ==> #[trigger] values[i] < 0x1_0000,
{
    reveal(write_groups);
    let last = parts.len() - 1;
    if values.len() == parts.len() + 1 {
        lemma_dotted_shape(values[last] * 0x1_0000 + values[last + 1]);
    }
    let plain = parts.len() - (values.len() - parts.len());
    assert forall|i: int, j: int| 0 <= i < parts.len() && 0 <= j < parts[i].len() implies
        #[trigger] parts[i][j] != ':' by {
        if i < plain {
            assert(1 <= parts[i].len() <= 4);
            lemma_numerals_have_digits(parts[i], 16, j);
        }
    }
    assert forall|i: int| 0 <= i < values.len() implies #[trigger] values[i] < 0x1_0000 by {
        if i < plain {
            assert(1 <= parts[i].len() <= 4);
            lemma_group_bound(parts[i]);
        }
    }
}

/// Parts between colons leave no gap, at their ends or within.
proof fn lemma_joined_has_no_gap(parts: Seq<Seq<char>>)
    requires
        parts.len() > 0,
        forall|i: int| 0 <= i < parts.len() ==> #[trigger] parts[i].len() > 0,
        forall|i: int, j: int|
            0 <= i < parts.len() && 0 <= j < parts[i].len() ==> #[trigger] parts[i][j] != ':',
    ensures
        ({
            let text = joined(parts, ':');
            &&& text.len() > 0
            &&& text[0] != ':'
            &&& text.last() != ':'
            &&& forall|i: int|
                0 <= i && i + 1 < text.len() && text[i] == ':' ==> #[trigger] text[i + 1] != ':'
        }),
    decreases parts.len(),
{
    let first = parts[0];
    assert forall|j: int| 0 <= j < first.len() implies first[j] != ':' by {
        assert(parts[0][j] != ':');
    }
    assert(first.len() > 0);
    let text = joined(parts, ':');
    if parts.len() > 1 {
        let others = parts.skip(1);
        assert forall|i: int| 0 <= i < others.len() implies #[trigger] others[i].len() > 0 by {
            assert(others[i] == parts[i + 1]);
        }
        assert forall|i: int, j: int| 0 <= i < others.len() && 0 <= j < others[i].len() implies
            #[trigger] others[i][j] != ':' by {
            assert(others[i] == parts[i + 1]);
            assert(parts[i + 1][j] != ':');
        }
        lemma_joined_has_no_gap(others);
        let rest = joined(others, ':');
        assert(text == first + seq![':'] + rest);
        assert forall|i: int| 0 <= i && i + 1 < text.len() && text[i] == ':' implies
            #[trigger] text[i + 1] != ':' by {
            let at = i - first.len() - 1;
            if at >= 0 {
                assert(text[i] == rest[at]);
                assert(text[i + 1] == rest[at + 1]);
            } else if i == first.len() {
                assert(text[i + 1] == rest[0]);
            }
        }
    }
}

proof fn lemma_group_run_is_read(parts: Seq<Seq<char>>, values: Seq<nat>, mixed: bool)
    requires
        write_groups(parts, values, mixed),
    ensures
        group_run(joined(parts, ':'), mixed) == Some(values),
{
    reveal(write_groups);
    lemma_written_parts(parts, values, mixed);
    if parts.len() == 0 {
        assert(values == Seq::<nat>::empty());
    } else {
        lemma_joined_has_no_gap(parts);
        law_joined_parts_are_the_pieces(parts, ':');
        law_groups_are_written(parts, values, mixed);
    }
}

proof fn lemma_group_run_was_written(text: Seq<char>, values: Seq<nat>, mixed: bool) -> (parts: Seq<
    Seq<char>,
>)
    requires
        group_run(text, mixed) == Some(values),
    ensures
        write_groups(parts, values, mixed),
        joined(parts, ':') == text,
{
    reveal(write_groups);
    if text.len() == 0 {
        let none = Seq::<Seq<char>>::empty();
        assert(values == Seq::<nat>::empty());
        assert(joined(none, ':') == text);
        none
    } else {
        let parts = pieces(text, ':');
        law_pieces_make_up_the_text(text, ':');
        law_groups_are_written(parts, values, mixed);
        parts
    }
}

/// Eight groups between colons, of which the last two may be written as an IPv4 address, are read
/// as the address whose 16-bit parts they are.
pub proof fn law_eight_groups_are_read(parts: Seq<Seq<char>>, values: Seq<nat>)
    requires
        write_groups(parts, values, true),
        values.len() == 8,
    ensures
        ipv6_literal(joined(parts, ':')) == Some(groups_value(values)),
{
    let text = joined(parts, ':');
    lemma_written_parts(parts, values, true);
    lemma_joined_has_no_gap(parts);
    law_gap_is_the_first(text);
    lemma_group_run_is_read(parts, values, true);
}

/// Up to seven groups with `::` before, between or behind them are read as the address whose
/// 16-bit parts they are, with zeros for those that `::` stands for.
pub proof fn law_gap_stands_for_zeros(
    head_parts: Seq<Seq<char>>,
    head: Seq<nat>,
    tail_parts: Seq<Seq<char>>,
    tail: Seq<nat>,
)
    requires
        write_groups(head_parts, head, false),
        write_groups(tail_parts, tail, true),
        head.len() + tail.len() <= 7,
    ensures
        ipv6_literal(joined(head_parts, ':') + seq![':', ':'] + joined(tail_parts, ':')) == Some(
            groups_value(
                head + Seq::new((8 - head.len() - tail.len()) as nat, |i: int| 0nat) + tail,
            ),
        ),
{
    let before = joined(head_parts, ':');
    let behind = joined(tail_parts, ':');
    let text = before + seq![':', ':'] + behind;
    lemma_written_parts(head_parts, head, false);
    law_gap_is_the_first(text);
    let gap = gap_start(text) as int;
    let at = before.len() as int;
    assert(text[at] == ':' && text[at + 1] == ':');
    if head_parts.len() > 0 {
        lemma_joined_has_no_gap(head_parts);
        if gap < at {
            assert(text[gap] == before[gap]);
            if gap + 1 < at {
                assert(text[gap + 1] == before[gap + 1]);
            } else {
                assert(before[gap] == before.last());
            }
        }
    }
    assert(gap == at);
    assert(text.take(gap) == before);
    assert(text.skip(gap + 2) == behind);
    lemma_group_run_is_read(head_parts, head, false);
    lemma_group_run_is_read(tail_parts, tail, true);
    let gap_length = 8 - head.len() - tail.len();
    assert(zeros(gap_length) == Seq::new(gap_length as nat, |i: int| 0nat));
}

/// Eight 16-bit parts make up a number of 128 bits.
proof fn lemma_eight_groups_bound(values: Seq<nat>)
    requires
        values.len() == 8,
        forall|i: int| 0 <= i < values.len() ==> #[trigger] values[i] < 0x1_0000,
    ensures
        groups_value(values) < 0x1_0000_0000_0000_0000_0000_0000_0000_0000,
{
    law_groups_are_positional(values, 0);
}

proof fn lemma_gapped_groups_bound(head: Seq<nat>, tail: Seq<nat>)
    requires
        head.len() + tail.len() <= 7,
        forall|i: int| 0 <= i < head.len() ==> #[trigger] head[i] < 0x1_0000,
        forall|i: int| 0 <= i < tail.len() ==> #[trigger] tail[i] < 0x1_0000,
    ensures
        groups_value(
            head + Seq::new((8 - head.len() - tail.len()) as nat, |i: int| 0nat) + tail,
        ) < 0x1_0000_0000_0000_0000_0000_0000_0000_0000,
{
    let gap = Seq::new((8 - head.len() - tail.len()) as nat, |i: int| 0nat);
    let values = head + gap + tail;
    assert forall|i: int| 0 <= i < values.len() implies #[trigger] values[i] < 0x1_0000 by {
        let behind = i - head.len() - gap.len();
        if i < head.len() {
            assert(values[i] == head[i]);
        } else if behind >= 0 {
            assert(values[i] == tail[behind]);
        } else {
            assert(values[i] == gap[i - head.len()]);
        }
    }
    lemma_eight_groups_bound(values);
}

/// The groups that a text without `::` is read as, and how it writes them.
proof fn lemma_plain_literal(text: Seq<char>, address: nat) -> (written: (
    Seq<Seq<char>>,
    Seq<nat>,
))
    requires
        ipv6_literal(text) == Some(address),
        gap_start(text) >= text.len(),
    ensures
        write_groups(written.0, written.1, true),
        written.1.len() == 8,
        text == joined(written.0, ':'),
        address == groups_value(written.1),
        address < 0x1_0000_0000_0000_0000_0000_0000_0000_0000,
{
    let values = group_run(text, true)->0;
    let parts = lemma_group_run_was_written(text, values, true);
    lemma_written_parts(parts, values, true);
    lemma_eight_groups_bound(values);
    (parts, values)
}

proof fn lemma_split_at_the_gap(text: Seq<char>)
    requires
        gap_start(text) < text.len(),
    ensures
        gap_start(text) + 2 <= text.len(),
        text == text.take(gap_start(text) as int) + seq![':', ':'] + text.skip(
            gap_start(text) as int + 2,
        ),
{
    law_gap_is_the_first(text);
    let gap = gap_start(text) as int;
    assert(text == text.take(gap) + seq![text[gap], text[gap + 1]] + text.skip(gap + 2));
}

/// The groups that a text with `::` is read as, and how it writes them.
proof fn lemma_gapped_literal(text: Seq<char>, address: nat) -> (written: (
    Seq<Seq<char>>,
    Seq<nat>,
    Seq<Seq<char>>,
    Seq<nat>,
))
    requires
        ipv6_literal(text) == Some(address),
        gap_start(text) < text.len(),
    ensures
        write_groups(written.0, written.1, false),
        write_groups(written.2, written.3, true),
        written.1.len() + written.3.len() <= 7,
        text == joined(written.0, ':') + seq![':', ':'] + joined(written.2, ':'),
        address == groups_value(
            written.1 + Seq::new((8 - written.1.len() - written.3.len()) as nat, |i: int| 0nat)
                + written.3,
        ),
        address < 0x1_0000_0000_0000_0000_0000_0000_0000_0000,
{
    lemma_split_at_the_gap(text);
    let gap = gap_start(text) as int;
    let head = group_run(text.take(gap), false)->0;
    let tail = group_run(text.skip(gap + 2), true)->0;
    let head_parts = lemma_group_run_was_written(text.take(gap), head, false);
    let tail_parts = lemma_group_run_was_written(text.skip(gap + 2), tail, true);
    let gap_length = 8 - head.len() - tail.len();
    assert(zeros(gap_length) == Seq::new(gap_length as nat, |i: int| 0nat));
    assert(address < 0x1_0000_0000_0000_0000_0000_0000_0000_0000) by {
        lemma_written_parts(head_parts, head, false);
        lemma_written_parts(tail_parts, tail, true);
        lemma_gapped_groups_bound(head, tail);
    }
    (head_parts, head, tail_parts, tail)
}

/// Every text that is read as an IPv6 address is eight groups between colons, or up to seven with
/// a `::` for the others.
pub proof fn law_ipv6_literals_are_groups(text: Seq<char>, address: nat)
    requires
        ipv6_literal(text) == Some(address),
    ensures
        ({
            ||| exists|parts: Seq<Seq<char>>, values: Seq<nat>|
                {
                    &&& #[trigger] write_groups(parts, values, true)
                    &&& values.len() == 8
                    &&& text == joined(parts, ':')
                    &&& address == groups_value(values)
                }
            ||| exists|
                head_parts: Seq<Seq<char>>,
                head: Seq<nat>,
                tail_parts: Seq<Seq<char>>,
                tail: Seq<nat>,
            |
                {
                    &&& #[trigger] write_groups(head_parts, head, false)
                    &&& #[trigger] write_groups(tail_parts, tail, true)
                    &&& head.len() + tail.len() <= 7
                    &&& text == joined(head_parts, ':') + seq![':', ':'] + joined(tail_parts, ':')
                    &&& address == groups_value(
                        head + Seq::new((8 - head.len() - tail.len()) as nat, |i: int| 0nat) + tail,
                    )
                }
        }),
        address < 0x1_0000_0000_0000_0000_0000_0000_0000_0000,
{
    if gap_start(text) >= text.len() {
        let (parts, values) = lemma_plain_literal(text, address);
        assert(write_groups(parts, values, true));
    } else {
        let (head_parts, head, tail_parts, tail) = lemma_gapped_literal(text, address);
        assert(write_groups(head_parts, head, false) && write_groups(tail_parts, tail, true));
    }
}

/// No text is read as an address of both families.
proof fn lemma_families_are_apart(text: Seq<char>, address: nat)
    requires
        ipv4_literal(text) == Some(address),
    ensures
        ipv6_literal(text) is None,
{
    law_ipv4_literals_are_dotted(text, address);
    lemma_dotted_shape(address);
    law_gap_is_the_first(text);
    lemma_first_piece(text, ':', Seq::empty());
    assert(groups(seq![text], true)->0.len() == 2);
}

/// A text is read as an address of the family that it is written in, and as no other.
pub proof fn law_families_are_told_apart(text: Seq<char>, ipv4: u32, ipv6: u128)
    ensures
        ip_literal(text) == Some(IpAddress::V4(ipv4)) <==> ipv4_literal(text) == Some(ipv4 as nat),
        ip_literal(text) == Some(IpAddress::V6(ipv6)) <==> ipv6_literal(text) == Some(ipv6 as nat),
        ip_literal(text) is None <==> ipv4_literal(text) is None && ipv6_literal(text) is None,
{
    if let Some(address) = ipv4_literal(text) {
        law_ipv4_literals_are_dotted(text, address);
        lemma_families_are_apart(text, address);
    }
    if let Some(address) = ipv6_literal(text) {
        law_ipv6_literals_are_groups(text, address);
    }
}

/// Every IPv4 address is read back from its dotted text.
pub proof fn law_dotted_addresses_are_read(ipv4: u32)
    ensures
        ip_literal(dotted(ipv4 as nat)) == Some(IpAddress::V4(ipv4)),
{
    law_ipv4_literals_are_dotted(dotted(ipv4 as nat), ipv4 as nat);
    law_families_are_told_apart(dotted(ipv4 as nat), ipv4, 0);
}

/// What is read of a text is the address whose text it is: for IPv4 the dotted one, and none other.
pub proof fn law_addresses_are_read(
    text: &[char],
    ipv4: Option<u32>,
    ipv6: Option<u128>,
    ip: Option<IpAddress>,
    address: u32,
)
    requires
        call_ensures(parse_ipv4, (text,), ipv4),
        call_ensures(parse_ipv6, (text,), ipv6),
        call_ensures(parse_ip, (text,), ip),
    ensures
        ipv4 == Some(address) <==> text@ == dotted(address as nat),
        ipv6 is Some <==> ipv6_literal(text@) is Some,
        ipv6 is Some ==> ipv6->0 == ipv6_literal(text@)->0,
        ip == (match (ipv4, ipv6) {
            (Some(address), _) => Some(IpAddress::V4(address)),
            (None, Some(address)) => Some(IpAddress::V6(address)),
            (None, None) => None,
        }),
{
    law_ipv4_literals_are_dotted(text@, address as nat);
    law_families_are_told_apart(text@, address, 0);
    if let Some(found) = ipv6_literal(text@) {
        law_ipv6_literals_are_groups(text@, found);
    }
}

}
