//! The resolver that the supervisor trusts, out of its own resolver configuration.

use vstd::prelude::*;

use crate::address::{
    dotted, ip_literal, law_dotted_addresses_are_read, lemma_dotted_characters, parse_ip, IpAddress,
};
use crate::text::{
    are_words, before, chars_of, cut_before, fields, is_white_space, joined,
    law_before_is_the_longest_beginning, law_lines_end_at_newlines, law_words_are_the_fields,
    lemma_lines_of_both, lemma_run_to_mark, lines, spells, split_fields, split_lines, views,
};

verus! {

/// The port that resolvers listen on.
pub const DNS_PORT: u16 = 53;

/// Where a resolver is reached.
#[derive(Debug, Clone, Copy, PartialEq, Eq, Structural)]
pub struct ResolverEndpoint {
    pub ip: IpAddress,
    pub port: u16,
}

/// Why there is no trusted resolver.
#[derive(Debug, Clone, Copy, PartialEq, Eq, Structural)]
pub enum ResolverConfigError {
    /// No line names a resolver by its address.
    NoLiteralNameserver,
}

impl ResolverConfigError {
    /// The error in words.
    pub fn message(&self) -> (message: &'static str)
        ensures
            message@ == "no literal nameserver is configured in supervisor /etc/resolv.conf"@,
    {
        match self {
            ResolverConfigError::NoLiteralNameserver =>
            "no literal nameserver is configured in supervisor /etc/resolv.conf",
        }
    }
}

/// What a line of `resolv.conf` gives as a name server, comments aside.
pub open spec fn nameserver_value(line: Seq<char>) -> Option<Seq<char>> {
    let entry = fields(before(line, '#'));
    if entry.len() >= 2 && entry[0] == "nameserver"@ {
        Some(entry[1])
    } else {
        None
    }
}

/// The address that a line of `resolv.conf` gives for a name server, if it gives one.
pub open spec fn nameserver_address(line: Seq<char>) -> Option<IpAddress> {
    match nameserver_value(line) {
        Some(value) => ip_literal(value),
        None => None,
    }
}

/// The address that the first line with one gives for a name server.
pub open spec fn first_nameserver(conf: Seq<Seq<char>>) -> Option<IpAddress>
    decreases conf.len(),
{
    if conf.len() == 0 {
        None
    } else if nameserver_address(conf[0]) is Some {
        nameserver_address(conf[0])
    } else {
        first_nameserver(conf.skip(1))
    }
}

/// The resolver that `contents`, those of the supervisor's `/etc/resolv.conf`, make the trusted
/// one: the first that has an address for a name.
pub fn trusted_resolver_from_resolv_conf(contents: &str) -> (resolver: Result<
    ResolverEndpoint,
    ResolverConfigError,
>)
    ensures
        match first_nameserver(lines(contents@)) {
            Some(ip) => resolver == Ok::<ResolverEndpoint, ResolverConfigError>(
                ResolverEndpoint { ip, port: DNS_PORT },
            ),
            None => resolver == Err::<ResolverEndpoint, ResolverConfigError>(
                ResolverConfigError::NoLiteralNameserver,
            ),
        },
        resolver matches Ok(endpoint) ==> endpoint.port == 53,
{
    let chars = chars_of(contents);
    let conf = split_lines(chars.as_slice());
    let ghost all = lines(contents@);
    assert(all.skip(0) == all);
    for i in 0..conf.len()
        invariant
            all == views(conf@),
            all == lines(contents@),
            first_nameserver(all) == first_nameserver(all.skip(i as int)),
    {
        assert(all.skip(i as int)[0] == conf@[i as int]@);
        assert(all.skip(i as int).skip(1) == all.skip(i + 1));
        if let Some(ip) = parse_nameserver(conf[i]) {
            return Ok(ResolverEndpoint { ip, port: DNS_PORT });
        }
    }
    Err(ResolverConfigError::NoLiteralNameserver)
}

/// The address that a line of `resolv.conf` gives for a name server.
fn parse_nameserver(line: &[char]) -> (ip: Option<IpAddress>)
    ensures
        ip == nameserver_address(line@),
{
    let entry = split_fields(cut_before(line, '#'));
    assert(views(entry@).len() == entry@.len());
    if entry.len() < 2 {
        return None;
    }
    assert(views(entry@)[0] == entry@[0]@);
    assert(views(entry@)[1] == entry@[1]@);
    if !spells(entry[0], "nameserver") {
        return None;
    }
    parse_ip(entry[1])
}

/// What follows a `#` on its line is never read.
pub proof fn law_comments_are_not_read(line: Seq<char>, comment: Seq<char>)
    requires
        forall|i: int| 0 <= i < line.len() ==> line[i] != '#',
    ensures
        nameserver_address(line + seq!['#'] + comment) == nameserver_address(line),
{
    lemma_run_to_mark(line, '#', comment);
    assert((line + seq!['#'] + comment).take(line.len() as int) == line);
    assert(line.take(line.len() as int) == line);
}

/// The trusted resolver is the address that some line gives and no line before it does; there is
/// none only where no line gives one.
pub proof fn law_first_literal_is_trusted(conf: Seq<Seq<char>>)
    ensures
        match first_nameserver(conf) {
            Some(ip) => exists|i: int|
                {
                    &&& 0 <= i < conf.len()
                    &&& #[trigger] nameserver_address(conf[i]) == Some(ip)
                    &&& forall|j: int|
                        0 <= j < i ==> #[trigger] nameserver_address(conf[j]) is None
                },
            None => forall|i: int|
                0 <= i < conf.len() ==> #[trigger] nameserver_address(conf[i]) is None,
        },
    decreases conf.len(),
{
    if conf.len() > 0 && nameserver_address(conf[0]) is None {
        let rest = conf.skip(1);
        law_first_literal_is_trusted(rest);
        match first_nameserver(rest) {
            Some(ip) => {
                let i = choose|i: int|
                    {
                        &&& 0 <= i < rest.len()
                        &&& #[trigger] nameserver_address(rest[i]) == Some(ip)
                        &&& forall|j: int|
                            0 <= j < i ==> #[trigger] nameserver_address(rest[j]) is None
                    };
                assert(nameserver_address(conf[i + 1]) == Some(ip));
                assert forall|j: int| 0 <= j < i + 1 implies #[trigger] nameserver_address(
                    conf[j],
                ) is None by {
                    if j > 0 {
                        assert(rest[j - 1] == conf[j]);
                    }
                }
            },
            None => {
                assert forall|i: int| 0 <= i < conf.len() implies #[trigger] nameserver_address(
                    conf[i],
                ) is None by {
                    if i > 0 {
                        assert(rest[i - 1] == conf[i]);
                    }
                }
            },
        }
    }
}

/// Lines that give no address (other directives, host names, comments) change nothing.
pub proof fn law_other_lines_do_not_matter(others: Seq<Seq<char>>, conf: Seq<Seq<char>>)
    requires
        forall|i: int| 0 <= i < others.len() ==> #[trigger] nameserver_address(others[i]) is None,
    ensures
        first_nameserver(others + conf) == first_nameserver(conf),
    decreases others.len(),
{
    if others.len() == 0 {
        assert(others + conf == conf);
    } else {
        let rest = others.skip(1);
        assert(nameserver_address(others[0]) is None);
        assert((others + conf)[0] == others[0]);
        assert((others + conf).skip(1) == rest + conf);
        assert forall|i: int| 0 <= i < rest.len() implies #[trigger] nameserver_address(
            rest[i],
        ) is None by {
            assert(rest[i] == others[i + 1]);
        }
        law_other_lines_do_not_matter(rest, conf);
    }
}

proof fn lemma_first_of_both(conf: Seq<Seq<char>>, more: Seq<Seq<char>>)
    ensures
        first_nameserver(conf + more) == match first_nameserver(conf) {
            Some(ip) => Some(ip),
            None => first_nameserver(more),
        },
    decreases conf.len(),
{
    if conf.len() == 0 {
        assert(conf + more == more);
    } else {
        assert((conf + more)[0] == conf[0]);
        assert((conf + more).skip(1) == conf.skip(1) + more);
        lemma_first_of_both(conf.skip(1), more);
    }
}

/// Of two configurations, one behind the other, the first decides if it gives an address, and
/// otherwise the second does.
pub proof fn law_earlier_text_decides(first: Seq<char>, second: Seq<char>)
    requires
        first.len() > 0 ==> first.last() == '\n',
    ensures
        first_nameserver(lines(first + second)) == match first_nameserver(lines(first)) {
            Some(ip) => Some(ip),
            None => first_nameserver(lines(second)),
        },
{
    lemma_lines_of_both(first, second);
    lemma_first_of_both(lines(first), lines(second));
}

/// A line gives an address exactly where its first field before any `#` is the word `nameserver`
/// and the second writes that address, of whatever family and however it is used.
pub proof fn law_nameserver_lines_give_their_address(line: Seq<char>, ip: IpAddress)
    ensures
        nameserver_address(line) == Some(ip) <==> {
            let entry = fields(before(line, '#'));
            &&& entry.len() >= 2
            &&& entry[0] == seq!['n', 'a', 'm', 'e', 's', 'e', 'r', 'v', 'e', 'r']
            &&& ip_literal(entry[1]) == Some(ip)
        },
{
    reveal_strlit("nameserver");
    assert("nameserver"@ == seq!['n', 'a', 'm', 'e', 's', 'e', 'r', 'v', 'e', 'r']);
}

/// A line of the word `nameserver`, white space and the text of an address, with or without more
/// words and a comment behind it, gives that address.
pub proof fn law_nameserver_line_is_read(
    words: Seq<Seq<char>>,
    space: char,
    comment: Seq<char>,
    ip: IpAddress,
)
    requires
        words.len() >= 2,
        are_words(words),
        forall|i: int| 0 <= i < joined(words, space).len() ==> joined(words, space)[i] != '#',
        is_white_space(space),
        words[0] == seq!['n', 'a', 'm', 'e', 's', 'e', 'r', 'v', 'e', 'r'],
        ip_literal(words[1]) == Some(ip),
    ensures
        nameserver_address(joined(words, space)) == Some(ip),
        nameserver_address(joined(words, space) + seq!['#'] + comment) == Some(ip),
{
    let line = joined(words, space);
    law_words_are_the_fields(words, space, seq![]);
    law_before_is_the_longest_beginning(line, '#');
    assert(before(line, '#') == line) by {
        let cut = before(line, '#');
        assert(cut.len() < line.len() ==> line[cut.len() as int] == '#');
        assert(line.take(line.len() as int) == line);
    }
    law_nameserver_lines_give_their_address(line, ip);
    law_comments_are_not_read(line, comment);
}

/// A text whose first line with an address for a name server is this one has its address for the
/// trusted resolver's, whatever stands behind it.
pub proof fn law_nameserver_line_is_trusted(
    head: Seq<char>,
    line: Seq<char>,
    rest: Seq<char>,
    ip: IpAddress,
)
    requires
        head.len() > 0 ==> head.last() == '\n',
        first_nameserver(lines(head)) is None,
        forall|i: int| 0 <= i < line.len() ==> line[i] != '\n',
        line.len() > 0,
        line.last() != '\r',
        nameserver_address(line) == Some(ip),
    ensures
        first_nameserver(lines(head + (line + seq!['\n'] + rest))) == Some(ip),
        first_nameserver(lines(head + line)) == Some(ip),
{
    law_lines_end_at_newlines(line, rest);
    lemma_lines_of_both(head, line + seq!['\n'] + rest);
    lemma_lines_of_both(head, line);
    let behind = seq![line] + lines(rest);
    assert(behind[0] == line);
    lemma_first_of_both(lines(head), behind);
    lemma_first_of_both(lines(head), seq![line]);
    assert(first_nameserver(behind) == Some(ip));
    assert(first_nameserver(seq![line]) == Some(ip));
}

/// A text without lines names no resolver, a first line with an address decides, and one without
/// leaves it to the others.
pub proof fn law_lines_are_taken_in_order(line: Seq<char>, conf: Seq<Seq<char>>)
    ensures
        first_nameserver(Seq::empty()) is None,
        nameserver_address(line) is Some ==> first_nameserver(seq![line] + conf)
            == nameserver_address(line),
        nameserver_address(line) is None ==> first_nameserver(seq![line] + conf)
            == first_nameserver(conf),
{
    assert((seq![line] + conf)[0] == line);
    assert((seq![line] + conf).skip(1) == conf);
}

/// Every IPv4 address is trusted that stands in decimal behind the word `nameserver` and a space
/// on the first line with an address for a name server.
pub proof fn law_every_ipv4_nameserver_can_be_trusted(
    head: Seq<char>,
    ipv4: u32,
    space: char,
    rest: Seq<char>,
)
    requires
        head.len() > 0 ==> head.last() == '\n',
        first_nameserver(lines(head)) is None,
        is_white_space(space),
        space != '\n',
    ensures
        first_nameserver(
            lines(
                head + (seq!['n', 'a', 'm', 'e', 's', 'e', 'r', 'v', 'e', 'r'] + seq![space]
                    + dotted(ipv4 as nat) + seq!['\n'] + rest),
            ),
        ) == Some(IpAddress::V4(ipv4)),
{
    let name = seq!['n', 'a', 'm', 'e', 's', 'e', 'r', 'v', 'e', 'r'];
    let value = dotted(ipv4 as nat);
    let words = seq![name, value];
    let line = name + seq![space] + value;
    law_dotted_addresses_are_read(ipv4);
    lemma_dotted_characters(ipv4 as nat);
    assert(joined(words, space) == line) by {
        assert(words.skip(1) == seq![value]);
        assert(joined(seq![value], space) == value);
    }
    assert forall|j: int| 0 <= j < value.len() implies #[trigger] value[j] != '#' && value[j]
        != '\n' && value[j] != '\r' && !is_white_space(value[j]) by {
        assert(value[j] == '.' || '0' <= value[j] <= '9');
    }
    assert(are_words(words)) by {
        assert forall|i: int, j: int| 0 <= i < words.len() && 0 <= j < words[i].len() implies
            !is_white_space(#[trigger] words[i][j]) by {
            if i == 1 {
                assert(!is_white_space(value[j]));
            }
        }
    }
    assert forall|i: int| 0 <= i < line.len() implies line[i] != '#' && line[i] != '\n' by {
        if i > name.len() {
            assert(line[i] == value[i - name.len() - 1]);
        }
    }
    assert(line.last() == value.last());
    law_nameserver_line_is_read(words, space, Seq::empty(), IpAddress::V4(ipv4));
    law_nameserver_line_is_trusted(head, line, rest, IpAddress::V4(ipv4));
}

/// What a reading of the configuration gives is the address of the first line with one, of
/// whatever family, at the port of resolvers; it fails exactly where no line has one.
pub proof fn law_trusted_resolver(
    contents: &str,
    resolver: Result<ResolverEndpoint, ResolverConfigError>,
)
    requires
        call_ensures(trusted_resolver_from_resolv_conf, (contents,), resolver),
    ensures
        resolver is Ok <==> first_nameserver(lines(contents@)) is Some,
        resolver is Ok ==> Some(resolver->Ok_0.ip) == first_nameserver(lines(contents@)),
        resolver is Ok ==> resolver->Ok_0.port == 53,
{
}

}
