//! The kernel's routing tables, read for one question: whether there is a default route that
//! leads out of the machine.

use vstd::prelude::*;
use vstd::slice::slice_subrange;

use crate::text::{
    are_words, chars_of, fields, is_white_space, joined, law_lines_end_at_newlines,
    law_numerals_are_positional, law_words_are_the_fields, lemma_lines_of_both, lines, numeral,
    parse_numeral, spells, split_fields, split_lines, views,
};

verus! {

/// The flag of a route that is up.
pub const RTF_UP: u32 = 0x0001;

/// The flag of a route that rejects what is sent along it.
pub const RTF_REJECT: u32 = 0x0200;

/// The bits that a flags field writes: hexadecimal digits, with or without a plus sign in
/// front, whose number fits in 32 bits.
pub open spec fn flag_bits(flags: Seq<char>) -> Option<u32> {
    let digits = if flags.len() > 0 && flags[0] == '+' {
        flags.skip(1)
    } else {
        flags
    };
    match numeral(digits, 16) {
        Some(bits) => if bits <= u32::MAX {
            Some(bits as u32)
        } else {
            None
        },
        None => None,
    }
}

/// Whether a flags field says that the route is up and does not reject.
pub open spec fn usable_flags(flags: Seq<char>) -> bool {
    flag_bits(flags) matches Some(bits) && bits & RTF_UP != 0 && bits & RTF_REJECT == 0
}

/// Whether the fields of a line of `/proc/net/route` are those of a usable `0.0.0.0/0` route.
pub open spec fn ipv4_default_entry(entry: Seq<Seq<char>>) -> bool {
    &&& entry.len() >= 8
    &&& entry[1] == "00000000"@
    &&& entry[7] == "00000000"@
    &&& usable_flags(entry[3])
}

/// Whether the fields of a line of `/proc/net/ipv6_route` are those of a usable `::/0` route
/// on an interface other than `lo`.
pub open spec fn ipv6_default_entry(entry: Seq<Seq<char>>) -> bool {
    &&& entry.len() >= 10
    &&& entry[0].len() == 32
    &&& forall|i: int| 0 <= i < 32 ==> entry[0][i] == '0'
    &&& entry[1] == "00"@
    &&& entry[9] != "lo"@
    &&& usable_flags(entry[8])
}

/// Whether a line of `/proc/net/route` after its header is a usable default route.
pub open spec fn ipv4_default_route(table: Seq<char>) -> bool {
    exists|i: int|
        1 <= i < lines(table).len() && ipv4_default_entry(fields(#[trigger] lines(table)[i]))
}

/// Whether a line of `/proc/net/ipv6_route` is a usable default route.
pub open spec fn ipv6_default_route(table: Seq<char>) -> bool {
    exists|i: int|
        0 <= i < lines(table).len() && ipv6_default_entry(fields(#[trigger] lines(table)[i]))
}

/// Whether both tables could be read and show an uplink for IPv6 and none for IPv4.
pub open spec fn ipv6_only_uplink(
    ipv4_routes: Option<Seq<char>>,
    ipv6_routes: Option<Seq<char>>,
) -> bool {
    match (ipv4_routes, ipv6_routes) {
        (Some(ipv4_routes), Some(ipv6_routes)) => !ipv4_default_route(ipv4_routes)
            && ipv6_default_route(ipv6_routes),
        _ => false,
    }
}

/// The characters of a table that may be missing.
pub open spec fn optional_view(table: Option<&str>) -> Option<Seq<char>> {
    match table {
        Some(table) => Some(table@),
        None => None,
    }
}

/// Report whether the routing tables describe an IPv6-only uplink. An
/// unreadable table keeps the IPv4-only default.
pub fn ipv6_only_default_route(ipv4_routes: Option<&str>, ipv6_routes: Option<&str>) -> (only: bool)
    ensures
        only == ipv6_only_uplink(optional_view(ipv4_routes), optional_view(ipv6_routes)),
{
    match (ipv4_routes, ipv6_routes) {
        (Some(ipv4_routes), Some(ipv6_routes)) => !has_ipv4_default_route(ipv4_routes)
            && has_ipv6_default_route(ipv6_routes),
        _ => false,
    }
}

/// Parse `/proc/net/route` for a usable `0.0.0.0/0` route.
pub fn has_ipv4_default_route(table: &str) -> (has: bool)
    ensures
        has == ipv4_default_route(table@),
{
    let chars = chars_of(table);
    let table_lines = split_lines(chars.as_slice());
    assert(views(table_lines@).len() == table_lines@.len());
    let mut i: usize = 1;
    while i < table_lines.len()
        invariant
            1 <= i,
            views(table_lines@) == lines(table@),
            views(table_lines@).len() == table_lines@.len(),
            forall|j: int|
                1 <= j < i && j < lines(table@).len() ==> !ipv4_default_entry(
                    fields(#[trigger] lines(table@)[j]),
                ),
        decreases table_lines@.len() - i,
    {
        assert(lines(table@)[i as int] == table_lines@[i as int]@);
        let entry = split_fields(table_lines[i]);
        if is_ipv4_default_entry(&entry) {
            return true;
        }
        i += 1;
    }
    false
}

/// Parse `/proc/net/ipv6_route` for a usable `::/0` route. The kernel lists
/// an unreachable `::/0` entry on `lo`, which is not an uplink.
pub fn has_ipv6_default_route(table: &str) -> (has: bool)
    ensures
        has == ipv6_default_route(table@),
{
    let chars = chars_of(table);
    let table_lines = split_lines(chars.as_slice());
    assert(views(table_lines@).len() == table_lines@.len());
    for i in 0..table_lines.len()
        invariant
            views(table_lines@) == lines(table@),
            views(table_lines@).len() == table_lines@.len(),
            forall|j: int|
                0 <= j < i ==> !ipv6_default_entry(fields(#[trigger] lines(table@)[j])),
    {
        assert(lines(table@)[i as int] == table_lines@[i as int]@);
        let entry = split_fields(table_lines[i]);
        if is_ipv6_default_entry(&entry) {
            return true;
        }
    }
    false
}

fn is_ipv4_default_entry(entry: &Vec<&[char]>) -> (is: bool)
    ensures
        is == ipv4_default_entry(views(entry@)),
{
    entry.len() >= 8 && spells(entry[1], "00000000") && spells(entry[7], "00000000")
        && usable(entry[3])
}

fn is_ipv6_default_entry(entry: &Vec<&[char]>) -> (is: bool)
    ensures
        is == ipv6_default_entry(views(entry@)),
{
    entry.len() >= 10 && all_zeros(entry[0]) && entry[0].len() == 32 && spells(entry[1], "00")
        && !spells(entry[9], "lo") && usable(entry[8])
}

fn all_zeros(field: &[char]) -> (all: bool)
    ensures
        all == forall|i: int| 0 <= i < field@.len() ==> field@[i] == '0',
{
    for i in 0..field.len()
        invariant
            forall|j: int| 0 <= j < i ==> field@[j] == '0',
    {
        if field[i] != '0' {
            return false;
        }
    }
    true
}

/// Whether a flags field of a routing table says that the route can be used.
pub fn route_flags_usable(flags: &str) -> (is: bool)
    ensures
        is == usable_flags(flags@),
{
    usable(chars_of(flags).as_slice())
}

fn usable(flags: &[char]) -> (is: bool)
    ensures
        is == usable_flags(flags@),
{
    let digits = if flags.len() > 0 && flags[0] == '+' {
        slice_subrange(flags, 1, flags.len())
    } else {
        flags
    };
    match parse_numeral(digits, 16) {
        Some(bits) => bits & RTF_UP != 0 && bits & RTF_REJECT == 0,
        None => false,
    }
}

/// A route that is down or that rejects is no default route, whatever else its line says.
pub proof fn law_down_or_rejecting_routes_do_not_count(entry: Seq<Seq<char>>, bits: u32)
    requires
        bits & RTF_UP == 0 || bits & RTF_REJECT != 0,
    ensures
        flag_bits(entry[3]) == Some(bits) ==> !ipv4_default_entry(entry),
        flag_bits(entry[8]) == Some(bits) ==> !ipv6_default_entry(entry),
{
}

/// A route on the loopback interface is no uplink.
pub proof fn law_loopback_does_not_count(entry: Seq<Seq<char>>)
    requires
        entry.len() > 9,
        entry[9] == "lo"@,
    ensures
        !ipv6_default_entry(entry),
{
}

/// The IPv4 table's first line is a header: what it says does not matter.
pub proof fn law_ipv4_header_does_not_matter(
    header: Seq<char>,
    other: Seq<char>,
    routes: Seq<char>,
)
    requires
        lines(header).len() == 1,
        header.last() == '\n',
        lines(other).len() == 1,
        other.last() == '\n',
    ensures
        ipv4_default_route(header + routes) == ipv4_default_route(other + routes),
{
    lemma_lines_of_both(header, routes);
    lemma_lines_of_both(other, routes);
    let first = lines(header + routes);
    let second = lines(other + routes);
    assert forall|i: int| 1 <= i < first.len() implies first[i] == second[i] by {}
    if ipv4_default_route(header + routes) {
        let i = choose|i: int|
            1 <= i < first.len() && ipv4_default_entry(fields(#[trigger] first[i]));
        assert(ipv4_default_entry(fields(second[i])));
    }
    if ipv4_default_route(other + routes) {
        let i = choose|i: int|
            1 <= i < second.len() && ipv4_default_entry(fields(#[trigger] second[i]));
        assert(ipv4_default_entry(fields(first[i])));
    }
}

/// An IPv6 table has a default route where one of the two parts that it is made of has one.
pub proof fn law_ipv6_routes_count_one_by_one(routes: Seq<char>, more: Seq<char>)
    requires
        routes.len() > 0 ==> routes.last() == '\n',
    ensures
        ipv6_default_route(routes + more) == (ipv6_default_route(routes) || ipv6_default_route(
            more,
        )),
{
    lemma_lines_of_both(routes, more);
    let all = lines(routes + more);
    let first = lines(routes);
    let second = lines(more);
    if ipv6_default_route(routes) {
        let i = choose|i: int|
            0 <= i < first.len() && ipv6_default_entry(fields(#[trigger] first[i]));
        assert(all[i] == first[i]);
    }
    if ipv6_default_route(more) {
        let i = choose|i: int|
            0 <= i < second.len() && ipv6_default_entry(fields(#[trigger] second[i]));
        assert(all[first.len() + i] == second[i]);
    }
    if ipv6_default_route(routes + more) {
        let i = choose|i: int|
            0 <= i < all.len() && ipv6_default_entry(fields(#[trigger] all[i]));
        if i < first.len() {
            assert(all[i] == first[i]);
        } else {
            assert(all[i] == second[i - first.len()]);
        }
    }
}

/// Routes that are added to an IPv4 table can bring a default route and take none away.
pub proof fn law_ipv4_routes_only_add(table: Seq<char>, more: Seq<char>)
    requires
        table.len() > 0 ==> table.last() == '\n',
    ensures
        ipv4_default_route(table) ==> ipv4_default_route(table + more),
{
    lemma_lines_of_both(table, more);
    if ipv4_default_route(table) {
        let i = choose|i: int|
            1 <= i < lines(table).len() && ipv4_default_entry(fields(#[trigger] lines(table)[i]));
        assert(lines(table + more)[i] == lines(table)[i]);
    }
}

/// Behind a header line, the routes of two parts hold a default route exactly where those of one
/// of the parts do.
pub proof fn law_ipv4_routes_count_one_by_one(
    header: Seq<char>,
    routes: Seq<char>,
    more: Seq<char>,
)
    requires
        lines(header).len() == 1,
        header.last() == '\n',
        routes.len() > 0 ==> routes.last() == '\n',
    ensures
        ipv4_default_route(header + routes + more) == (ipv4_default_route(header + routes)
            || ipv4_default_route(header + more)),
{
    let both = header + routes;
    if routes.len() > 0 {
        assert(both.last() == routes.last());
    } else {
        assert(both == header);
    }
    lemma_lines_of_both(header, routes);
    lemma_lines_of_both(both, more);
    lemma_lines_of_both(header, more);
    let all = lines(both + more);
    let first = lines(both);
    let second = lines(header + more);
    let shift = first.len() - 1;
    assert forall|i: int| 1 <= i < first.len() implies all[i] == first[i] by {}
    assert forall|i: int| 1 <= i < second.len() implies all[i + shift] == second[i] by {}
    if ipv4_default_route(both) {
        let i = choose|i: int|
            1 <= i < first.len() && ipv4_default_entry(fields(#[trigger] first[i]));
        assert(ipv4_default_entry(fields(all[i])));
    }
    if ipv4_default_route(header + more) {
        let i = choose|i: int|
            1 <= i < second.len() && ipv4_default_entry(fields(#[trigger] second[i]));
        assert(ipv4_default_entry(fields(all[i + shift])));
    }
    if ipv4_default_route(both + more) {
        let i = choose|i: int|
            1 <= i < all.len() && ipv4_default_entry(fields(#[trigger] all[i]));
        if i < first.len() {
            assert(ipv4_default_entry(fields(first[i])));
        } else {
            assert(all[(i - shift) + shift] == second[i - shift]);
            assert(ipv4_default_entry(fields(second[i - shift])));
        }
    }
}

/// A flags field writes the number of its hexadecimal digits, and a plus sign in front of them
/// changes nothing.
pub proof fn law_flags_are_hexadecimal(digits: Seq<char>, bits: u32)
    requires
        digits.len() > 0 ==> digits[0] != '+',
    ensures
        flag_bits(digits) == Some(bits) <==> numeral(digits, 16) == Some(bits as nat),
        flag_bits(seq!['+'] + digits) == Some(bits) <==> numeral(digits, 16) == Some(bits as nat),
{
    assert((seq!['+'] + digits).skip(1) == digits);
}

/// Of the bits that a flags field writes, only two are looked at: the lowest has to be set, and
/// the tenth must not be.
pub proof fn law_two_flags_decide(flags: Seq<char>, bits: u32)
    requires
        flag_bits(flags) == Some(bits),
    ensures
        usable_flags(flags) <==> bits % 2 == 1 && (bits / 0x200) % 2 == 0,
        usable_flags(flags) <==> bits & 1 != 0 && bits & 0x200 == 0,
{
    assert((bits & 1u32 != 0) == (bits % 2u32 == 1u32)) by (bit_vector);
    assert((bits & 0x200u32 == 0) == ((bits / 0x200u32) % 2u32 == 0)) by (bit_vector);
}

/// A flags field that writes no number of 32 bits is not one of a usable route.
pub proof fn law_other_flags_are_not_usable(flags: Seq<char>)
    requires
        flag_bits(flags) is None,
    ensures
        !usable_flags(flags),
{
}

/// A line has a default route for IPv4 exactly where it has at least eight fields, the second and
/// the eighth are eight zeros, and the fourth has the flags of a route that is up and does not
/// reject. There has to be such a line after the first.
pub proof fn law_ipv4_default_route_is_a_line(table: Seq<char>)
    ensures
        ipv4_default_route(table) <==> exists|i: int|
            1 <= i < lines(table).len() && {
                let line = fields(#[trigger] lines(table)[i]);
                &&& line.len() >= 8
                &&& line[1] == seq!['0', '0', '0', '0', '0', '0', '0', '0']
                &&& line[7] == seq!['0', '0', '0', '0', '0', '0', '0', '0']
                &&& flag_bits(line[3]) is Some
                &&& flag_bits(line[3])->0 % 2 == 1
                &&& (flag_bits(line[3])->0 / 0x200) % 2 == 0
            },
{
    reveal_strlit("00000000");
    assert("00000000"@ == seq!['0', '0', '0', '0', '0', '0', '0', '0']);
    assert forall|i: int| 1 <= i < lines(table).len() && flag_bits(
        fields(#[trigger] lines(table)[i])[3],
    ) is Some implies usable_flags(fields(lines(table)[i])[3]) == {
        &&& flag_bits(fields(lines(table)[i])[3])->0 % 2 == 1
        &&& (flag_bits(fields(lines(table)[i])[3])->0 / 0x200) % 2 == 0
    } by {
        let flags = fields(lines(table)[i])[3];
        law_two_flags_decide(flags, flag_bits(flags)->0);
    }
}

/// A line has a default route for IPv6 exactly where it has at least ten fields, the first is 32
/// zeros, the second is two, the tenth is not the loopback interface and the ninth has the flags
/// of a route that is up and does not reject. Any line can be such a line.
pub proof fn law_ipv6_default_route_is_a_line(table: Seq<char>)
    ensures
        ipv6_default_route(table) <==> exists|i: int|
            0 <= i < lines(table).len() && {
                let line = fields(#[trigger] lines(table)[i]);
                &&& line.len() >= 10
                &&& line[0] == Seq::new(32, |k: int| '0')
                &&& line[1] == seq!['0', '0']
                &&& line[9] != seq!['l', 'o']
                &&& flag_bits(line[8]) is Some
                &&& flag_bits(line[8])->0 % 2 == 1
                &&& (flag_bits(line[8])->0 / 0x200) % 2 == 0
            },
{
    reveal_strlit("00");
    reveal_strlit("lo");
    assert("00"@ == seq!['0', '0']);
    assert("lo"@ == seq!['l', 'o']);
    let zeros = Seq::new(32, |k: int| '0');
    assert forall|i: int| 0 <= i < lines(table).len() implies {
        let first = fields(#[trigger] lines(table)[i])[0];
        first == zeros <==> first.len() == 32 && forall|k: int| 0 <= k < 32 ==> first[k] == '0'
    } by {
        let first = fields(lines(table)[i])[0];
        if first.len() == 32 && forall|k: int| 0 <= k < 32 ==> first[k] == '0' {
            assert(first == zeros);
        }
    }
    assert forall|i: int| 0 <= i < lines(table).len() && flag_bits(
        fields(#[trigger] lines(table)[i])[8],
    ) is Some implies usable_flags(fields(lines(table)[i])[8]) == {
        &&& flag_bits(fields(lines(table)[i])[8])->0 % 2 == 1
        &&& (flag_bits(fields(lines(table)[i])[8])->0 / 0x200) % 2 == 0
    } by {
        let flags = fields(lines(table)[i])[8];
        law_two_flags_decide(flags, flag_bits(flags)->0);
    }
}

/// Two lines of eight fields or more that agree on destination, mask and the two flags that count
/// are both a default route or both none, whatever interface, gateway, counters and metric they
/// give.
pub proof fn law_ipv4_other_fields_do_not_matter(one: Seq<Seq<char>>, other: Seq<Seq<char>>)
    requires
        one.len() >= 8,
        other.len() >= 8,
        one[1] == other[1],
        one[7] == other[7],
        one[3] == other[3] || {
            &&& flag_bits(one[3]) is Some
            &&& flag_bits(other[3]) is Some
            &&& flag_bits(one[3])->0 & 1 == flag_bits(other[3])->0 & 1
            &&& flag_bits(one[3])->0 & 0x200 == flag_bits(other[3])->0 & 0x200
        },
    ensures
        ipv4_default_entry(one) == ipv4_default_entry(other),
{
    if one[3] != other[3] {
        law_two_flags_decide(one[3], flag_bits(one[3])->0);
        law_two_flags_decide(other[3], flag_bits(other[3])->0);
    }
}

/// Two lines of ten fields or more that agree on destination, prefix length, interface and the
/// two flags that count are both a default route or both none, whatever source, next hop, metric
/// and counters they give.
pub proof fn law_ipv6_other_fields_do_not_matter(one: Seq<Seq<char>>, other: Seq<Seq<char>>)
    requires
        one.len() >= 10,
        other.len() >= 10,
        one[0] == other[0],
        one[1] == other[1],
        one[9] == other[9],
        one[8] == other[8] || {
            &&& flag_bits(one[8]) is Some
            &&& flag_bits(other[8]) is Some
            &&& flag_bits(one[8])->0 & 1 == flag_bits(other[8])->0 & 1
            &&& flag_bits(one[8])->0 & 0x200 == flag_bits(other[8])->0 & 0x200
        },
    ensures
        ipv6_default_entry(one) == ipv6_default_entry(other),
{
    if one[8] != other[8] {
        law_two_flags_decide(one[8], flag_bits(one[8])->0);
        law_two_flags_decide(other[8], flag_bits(other[8])->0);
    }
}

/// Digits do not begin with a plus sign.
proof fn lemma_digits_have_no_sign(digits: Seq<char>)
    requires
        numeral(digits, 16) is Some,
    ensures
        digits.len() > 0,
        digits[0] != '+',
{
    if digits.len() > 1 {
        law_numerals_are_positional(seq![digits[0]], digits.skip(1), 16);
        assert(seq![digits[0]] + digits.skip(1) == digits);
    }
}

/// A table in which some line after the header, whatever the lines before and behind it, has the
/// words of a usable route to everywhere, between white space, has a default route for IPv4.
pub proof fn law_ipv4_default_route_is_found(
    header: Seq<char>,
    words: Seq<Seq<char>>,
    space: char,
    rest: Seq<char>,
    bits: u32,
)
    requires
        lines(header).len() >= 1,
        header.last() == '\n',
        words.len() >= 8,
        are_words(words),
        is_white_space(space),
        space != '\n',
        words[1] == seq!['0', '0', '0', '0', '0', '0', '0', '0'],
        words[7] == seq!['0', '0', '0', '0', '0', '0', '0', '0'],
        numeral(words[3], 16) == Some(bits as nat),
        bits & 1 != 0,
        bits & 0x200 == 0,
    ensures
        ipv4_default_route(header + (joined(words, space) + seq!['\n'] + rest)),
{
    let line = joined(words, space);
    let tail = line + seq!['\n'] + rest;
    let table = header + tail;
    lemma_joined_words_are_one_line(words, space);
    law_lines_end_at_newlines(line, rest);
    lemma_lines_of_both(header, tail);
    law_words_are_the_fields(words, space, rest);
    lemma_digits_have_no_sign(words[3]);
    law_flags_are_hexadecimal(words[3], bits);
    law_two_flags_decide(words[3], bits);
    law_ipv4_default_route_is_a_line(table);
    let i = lines(header).len() as int;
    assert(lines(table)[i] == line);
    assert(fields(lines(table)[i])[3] == words[3]);
}

/// A table in which some line, whatever the lines before and behind it, has the words of a usable
/// route to everywhere on an interface other than the loopback one, between white space, has a
/// default route for IPv6.
pub proof fn law_ipv6_default_route_is_found(
    head: Seq<char>,
    words: Seq<Seq<char>>,
    space: char,
    rest: Seq<char>,
    bits: u32,
)
    requires
        head.len() > 0 ==> head.last() == '\n',
        words.len() >= 10,
        are_words(words),
        is_white_space(space),
        space != '\n',
        words[0] == Seq::new(32, |k: int| '0'),
        words[1] == seq!['0', '0'],
        words[9] != seq!['l', 'o'],
        numeral(words[8], 16) == Some(bits as nat),
        bits & 1 != 0,
        bits & 0x200 == 0,
    ensures
        ipv6_default_route(head + (joined(words, space) + seq!['\n'] + rest)),
{
    let line = joined(words, space);
    let tail = line + seq!['\n'] + rest;
    let table = head + tail;
    lemma_joined_words_are_one_line(words, space);
    law_lines_end_at_newlines(line, rest);
    lemma_lines_of_both(head, tail);
    law_words_are_the_fields(words, space, rest);
    lemma_digits_have_no_sign(words[8]);
    law_flags_are_hexadecimal(words[8], bits);
    law_two_flags_decide(words[8], bits);
    law_ipv6_default_route_is_a_line(table);
    let i = lines(head).len() as int;
    assert(lines(table)[i] == line);
    assert(fields(lines(table)[i])[8] == words[8]);
}

/// Words between white space other than newlines stand on one line, and do not end it.
proof fn lemma_joined_words_are_one_line(words: Seq<Seq<char>>, space: char)
    requires
        words.len() > 0,
        are_words(words),
        space != '\n',
    ensures
        forall|i: int| 0 <= i < joined(words, space).len() ==> joined(words, space)[i] != '\n',
        joined(words, space).len() > 0,
        joined(words, space).last() != '\r',
    decreases words.len(),
{
    let first = words[0];
    assert forall|j: int| 0 <= j < first.len() implies first[j] != '\n' && first[j] != '\r' by {
        assert(!is_white_space(words[0][j]));
    }
    if words.len() > 1 {
        let others = words.skip(1);
        assert(are_words(others)) by {
            assert forall|i: int| 0 <= i < others.len() implies #[trigger] others[i].len() > 0 by {
                assert(others[i] == words[i + 1]);
            }
            assert forall|i: int, j: int|
                0 <= i < others.len() && 0 <= j < others[i].len() implies !is_white_space(
                #[trigger] others[i][j],
            ) by {
                assert(others[i] == words[i + 1]);
                assert(!is_white_space(words[i + 1][j]));
            }
        }
        lemma_joined_words_are_one_line(others, space);
    }
}

/// There is an IPv6-only uplink exactly where both tables are there, the one for IPv6 has a
/// default route and the one for IPv4 has none.
pub proof fn law_ipv6_only_uplink(ipv4_routes: Option<&str>, ipv6_routes: Option<&str>)
    ensures
        ipv6_only_uplink(optional_view(ipv4_routes), optional_view(ipv6_routes)) <==> {
            &&& ipv4_routes is Some
            &&& ipv6_routes is Some
            &&& ipv6_default_route(ipv6_routes->0@)
            &&& !ipv4_default_route(ipv4_routes->0@)
        },
{
}

/// What a reading of the tables finds is what they hold, and no more: a default route for either
/// family, the two together, and the flags of one route.
pub proof fn law_readings_are_what_the_tables_hold(
    ipv4_routes: &str,
    ipv6_routes: &str,
    flags: &str,
    has_ipv4: bool,
    has_ipv6: bool,
    only: bool,
    usable: bool,
)
    requires
        call_ensures(has_ipv4_default_route, (ipv4_routes,), has_ipv4),
        call_ensures(has_ipv6_default_route, (ipv6_routes,), has_ipv6),
        call_ensures(ipv6_only_default_route, (Some(ipv4_routes), Some(ipv6_routes)), only),
        call_ensures(route_flags_usable, (flags,), usable),
    ensures
        has_ipv4 == ipv4_default_route(ipv4_routes@),
        has_ipv6 == ipv6_default_route(ipv6_routes@),
        only == (has_ipv6 && !has_ipv4),
        usable == usable_flags(flags@),
{
}

}
