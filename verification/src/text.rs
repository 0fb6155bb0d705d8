//! Characters, numerals, lines and fields of the small text tables that the supervisor reads.

use vstd::arithmetic::power::pow;
use vstd::prelude::*;
use vstd::slice::slice_subrange;

verus! {

/// The characters that have the Unicode property `White_Space`.
pub open spec fn is_white_space(c: char) -> bool {
    ||| '\u{9}' <= c <= '\u{d}'
    ||| c == ' '
    ||| c == '\u{85}'
    ||| c == '\u{a0}'
    ||| c == '\u{1680}'
    ||| '\u{2000}' <= c <= '\u{200a}'
    ||| c == '\u{2028}'
    ||| c == '\u{2029}'
    ||| c == '\u{202f}'
    ||| c == '\u{205f}'
    ||| c == '\u{3000}'
}

/// Where a scan over characters stops.
#[derive(Clone, Copy)]
pub enum Stop {
    /// At this character.
    At(char),
    /// At white space.
    AtSpace,
    /// At anything but white space.
    PastSpace,
}

impl Stop {
    /// Whether the scan stops at `c`.
    pub open spec fn holds(self, c: char) -> bool {
        match self {
            Stop::At(mark) => c == mark,
            Stop::AtSpace => is_white_space(c),
            Stop::PastSpace => !is_white_space(c),
        }
    }
}

/// How many characters a scan of `text` passes before it stops, or all of them.
pub open spec fn run_length(text: Seq<char>, stop: Stop) -> nat
    decreases text.len(),
{
    if text.len() == 0 || stop.holds(text[0]) {
        0
    } else {
        1 + run_length(text.skip(1), stop)
    }
}

/// The part of `text` before the first `mark`.
pub open spec fn before(text: Seq<char>, mark: char) -> Seq<char> {
    text.take(run_length(text, Stop::At(mark)) as int)
}

/// The pieces of `text` between one `mark` and the next. There is one more than there are marks.
pub open spec fn pieces(text: Seq<char>, mark: char) -> Seq<Seq<char>>
    decreases text.len(),
{
    let end = run_length(text, Stop::At(mark)) as int;
    if 0 <= end < text.len() {
        seq![text.take(end)] + pieces(text.skip(end + 1), mark)
    } else {
        seq![text]
    }
}

/// `line` without the carriage return at its end, if it has one.
pub open spec fn without_carriage_return(line: Seq<char>) -> Seq<char> {
    if line.len() > 0 && line.last() == '\r' {
        line.drop_last()
    } else {
        line
    }
}

/// The lines of `text`. Each ends with a newline or with a carriage return and a newline,
/// neither of which belongs to the line; the last one may end with the text instead.
pub open spec fn lines(text: Seq<char>) -> Seq<Seq<char>>
    decreases text.len(),
{
    let end = run_length(text, Stop::At('\n')) as int;
    if text.len() == 0 {
        seq![]
    } else if end >= text.len() {
        seq![text]
    } else {
        seq![without_carriage_return(text.take(end))] + lines(text.skip(end + 1))
    }
}

/// The longest runs of characters of `text` without white space, in order.
pub open spec fn fields(text: Seq<char>) -> Seq<Seq<char>>
    decreases text.len(),
{
    let start = run_length(text, Stop::PastSpace) as int;
    let rest = text.skip(start);
    let end = run_length(rest, Stop::AtSpace) as int;
    if start >= text.len() {
        seq![]
    } else if end >= rest.len() {
        seq![rest]
    } else {
        seq![rest.take(end)] + fields(rest.skip(end + 1))
    }
}

/// What `c` counts for as a digit in base `radix`, for a base of at most sixteen.
pub open spec fn digit(c: char, radix: nat) -> Option<nat> {
    let value = if '0' <= c <= '9' {
        c as int - '0' as int
    } else if 'a' <= c <= 'f' {
        c as int - 'a' as int + 10
    } else if 'A' <= c <= 'F' {
        c as int - 'A' as int + 10
    } else {
        16
    };
    if value < radix {
        Some(value as nat)
    } else {
        None
    }
}

/// The number that `text` writes with one or more digits in base `radix`.
pub open spec fn numeral(text: Seq<char>, radix: nat) -> Option<nat>
    decreases text.len(),
{
    if text.len() == 0 {
        None
    } else if text.len() == 1 {
        digit(text[0], radix)
    } else {
        match (numeral(text.drop_last(), radix), digit(text.last(), radix)) {
            (Some(high), Some(low)) => Some(high * radix + low),
            _ => None,
        }
    }
}

/// The characters that the slices hold.
pub open spec fn views(slices: Seq<&[char]>) -> Seq<Seq<char>> {
    slices.map_values(|slice: &[char]| slice@)
}

/// A scan for a mark passes what holds none.
pub proof fn lemma_run_to_mark(head: Seq<char>, mark: char, tail: Seq<char>)
    requires
        forall|i: int| 0 <= i < head.len() ==> head[i] != mark,
    ensures
        run_length(head, Stop::At(mark)) == head.len(),
        run_length(head + seq![mark] + tail, Stop::At(mark)) == head.len(),
    decreases head.len(),
{
    let text = head + seq![mark] + tail;
    if head.len() == 0 {
        assert(text[0] == mark);
    } else {
        assert(text[0] == head[0]);
        assert(text.skip(1) == head.skip(1) + seq![mark] + tail);
        lemma_run_to_mark(head.skip(1), mark, tail);
    }
}

/// A text without marks is one piece, and before a mark it is the first one.
pub proof fn lemma_first_piece(head: Seq<char>, mark: char, tail: Seq<char>)
    requires
        forall|i: int| 0 <= i < head.len() ==> head[i] != mark,
    ensures
        pieces(head, mark) == seq![head],
        pieces(head + seq![mark] + tail, mark) == seq![head] + pieces(tail, mark),
{
    let text = head + seq![mark] + tail;
    lemma_run_to_mark(head, mark, tail);
    assert(text.take(head.len() as int) == head);
    assert(text.skip(head.len() as int + 1) == tail);
}

/// A scan that stops within a text stops there whatever follows, and it stops within a text that
/// ends with its mark.
proof fn lemma_run_within(head: Seq<char>, mark: char, tail: Seq<char>)
    ensures
        run_length(head, Stop::At(mark)) < head.len() ==> run_length(head + tail, Stop::At(mark))
            == run_length(head, Stop::At(mark)),
        head.len() > 0 && head.last() == mark ==> run_length(head, Stop::At(mark)) < head.len(),
    decreases head.len(),
{
    if head.len() > 0 {
        assert((head + tail)[0] == head[0]);
        assert((head + tail).skip(1) == head.skip(1) + tail);
        lemma_run_within(head.skip(1), mark, tail);
    }
}

/// The lines of two texts, the first of which ends its last line, are those of the one and then
/// those of the other.
pub proof fn lemma_lines_of_both(head: Seq<char>, tail: Seq<char>)
    requires
        head.len() > 0 ==> head.last() == '\n',
    ensures
        lines(head + tail) == lines(head) + lines(tail),
    decreases head.len(),
{
    if head.len() == 0 {
        assert(head + tail == tail);
        assert(lines(head) + lines(tail) == lines(tail));
    } else {
        let end = run_length(head, Stop::At('\n')) as int;
        lemma_run_within(head, '\n', tail);
        let rest = head.skip(end + 1);
        assert((head + tail).take(end) == head.take(end));
        assert((head + tail).skip(end + 1) == rest + tail);
        if rest.len() > 0 {
            assert(rest.last() == head.last());
        }
        lemma_lines_of_both(rest, tail);
        let line = seq![without_carriage_return(head.take(end))];
        assert(line + (lines(rest) + lines(tail)) == line + lines(rest) + lines(tail));
    }
}

/// A prefix of a numeral writes a number that is no larger.
proof fn lemma_numeral_prefix(text: Seq<char>, radix: nat, end: int)
    requires
        radix > 0,
        1 <= end <= text.len(),
        numeral(text, radix) is Some,
    ensures
        numeral(text.take(end), radix) matches Some(prefix) && prefix <= numeral(text, radix)->0,
    decreases text.len(),
{
    if end == text.len() {
        assert(text.take(end) == text);
    } else {
        lemma_numeral_prefix(text.drop_last(), radix, end);
        assert(text.drop_last().take(end) == text.take(end));
        let high = numeral(text.drop_last(), radix)->0;
        assert(high <= high * radix) by (nonlinear_arith)
            requires
                radix > 0,
        ;
    }
}

/// The characters of `text`.
pub fn chars_of(text: &str) -> (chars: Vec<char>)
    ensures
        chars@ == text@,
{
    let mut chars: Vec<char> = Vec::new();
    for c in iter: text.chars()
        invariant
            chars@ == iter.seq().take(iter.index()),
            iter.seq() == text@,
    {
        chars.push(c);
    }
    chars
}

/// Whether `chars` spell `text`.
pub fn spells(chars: &[char], text: &str) -> (same: bool)
    ensures
        same == (chars@ == text@),
{
    let wanted = chars_of(text);
    if chars.len() != wanted.len() {
        return false;
    }
    for i in 0..chars.len()
        invariant
            chars@.len() == wanted@.len(),
            forall|j: int| 0 <= j < i ==> chars@[j] == wanted@[j],
            wanted@ == text@,
    {
        if chars[i] != wanted[i] {
            return false;
        }
    }
    assert(chars@ == wanted@);
    true
}

fn white_space(c: char) -> (is: bool)
    ensures
        is == is_white_space(c),
{
    ('\u{9}' <= c && c <= '\u{d}') || c == ' ' || c == '\u{85}' || c == '\u{a0}' || c == '\u{1680}'
        || ('\u{2000}' <= c && c <= '\u{200a}') || c == '\u{2028}' || c == '\u{2029}' || c
        == '\u{202f}' || c == '\u{205f}' || c == '\u{3000}'
}

impl Stop {
    fn stops(self, c: char) -> (stops: bool)
        ensures
            stops == self.holds(c),
    {
        match self {
            Stop::At(mark) => c == mark,
            Stop::AtSpace => white_space(c),
            Stop::PastSpace => !white_space(c),
        }
    }
}

/// Where a scan of `text` from `from` stops.
pub fn scan(text: &[char], from: usize, stop: Stop) -> (end: usize)
    requires
        from <= text@.len(),
    ensures
        from <= end <= text@.len(),
        end - from == run_length(text@.skip(from as int), stop),
{
    let mut end: usize = from;
    while end < text.len() && !stop.stops(text[end])
        invariant
            from <= end <= text@.len(),
            run_length(text@.skip(from as int), stop) == end - from + run_length(
                text@.skip(end as int),
                stop,
            ),
        decreases text@.len() - end,
    {
        assert(text@.skip(end as int).skip(1) == text@.skip(end + 1));
        end += 1;
    }
    end
}

/// The characters of `text` from `from` on.
fn rest_of<'a>(text: &'a [char], from: usize) -> (rest: &'a [char])
    requires
        from <= text@.len(),
    ensures
        rest@ == text@.skip(from as int),
{
    slice_subrange(text, from, text.len())
}

/// Pushing a slice puts its characters behind those of the others.
proof fn lemma_views_push(slices: Seq<&[char]>, slice: &[char])
    ensures
        views(slices.push(slice)) == views(slices).push(slice@),
{
    assert(views(slices.push(slice)) =~= views(slices).push(slice@));
}

/// The part of `text` before the first `mark`.
pub fn cut_before<'a>(text: &'a [char], mark: char) -> (cut: &'a [char])
    ensures
        cut@ == before(text@, mark),
{
    assert(text@.skip(0) == text@);
    let end = scan(text, 0, Stop::At(mark));
    slice_subrange(text, 0, end)
}

/// The pieces of `text` between one `mark` and the next.
pub fn split_pieces<'a>(text: &'a [char], mark: char) -> (parts: Vec<&'a [char]>)
    ensures
        views(parts@) == pieces(text@, mark),
{
    let mut parts: Vec<&'a [char]> = Vec::new();
    let mut from: usize = 0;
    assert(text@.skip(0) == text@);
    loop
        invariant
            from <= text@.len(),
            views(parts@) + pieces(text@.skip(from as int), mark) == pieces(text@, mark),
        decreases text@.len() - from,
    {
        let end = scan(text, from, Stop::At(mark));
        let ghost rest = text@.skip(from as int);
        let ghost earlier = parts@;
        let part = slice_subrange(text, from, end);
        assert(part@ == rest.take(end - from));
        parts.push(part);
        proof {
            lemma_views_push(earlier, part);
        }
        if end == text.len() {
            assert(part@ == rest);
            assert(views(parts@) == views(earlier) + seq![rest]);
            return parts;
        }
        assert(rest.skip(end - from + 1) == text@.skip(end + 1));
        assert(views(parts@) + pieces(text@.skip(end + 1), mark) == views(earlier) + (seq![part@]
            + pieces(text@.skip(end + 1), mark)));
        from = end + 1;
    }
}

/// The lines of `text`.
pub fn split_lines<'a>(text: &'a [char]) -> (parts: Vec<&'a [char]>)
    ensures
        views(parts@) == lines(text@),
{
    let mut parts: Vec<&'a [char]> = Vec::new();
    let mut from: usize = 0;
    assert(text@.skip(0) == text@);
    while from < text.len()
        invariant
            from <= text@.len(),
            views(parts@) + lines(text@.skip(from as int)) == lines(text@),
        decreases text@.len() - from,
    {
        let end = scan(text, from, Stop::At('\n'));
        let ghost rest = text@.skip(from as int);
        let ghost earlier = parts@;
        if end == text.len() {
            let part = rest_of(text, from);
            parts.push(part);
            proof {
                lemma_views_push(earlier, part);
                assert(views(parts@) == views(earlier) + seq![rest]);
            }
            return parts;
        }
        let stripped = if from < end && text[end - 1] == '\r' {
            end - 1
        } else {
            end
        };
        let part = slice_subrange(text, from, stripped);
        assert(part@ == without_carriage_return(rest.take(end - from)));
        parts.push(part);
        proof {
            lemma_views_push(earlier, part);
        }
        assert(rest.skip(end - from + 1) == text@.skip(end + 1));
        assert(views(parts@) + lines(text@.skip(end + 1)) == views(earlier) + (seq![part@]
            + lines(text@.skip(end + 1))));
        from = end + 1;
    }
    parts
}

/// The fields of `text`.
pub fn split_fields<'a>(text: &'a [char]) -> (parts: Vec<&'a [char]>)
    ensures
        views(parts@) == fields(text@),
{
    let mut parts: Vec<&'a [char]> = Vec::new();
    let mut from: usize = 0;
    assert(text@.skip(0) == text@);
    loop
        invariant
            from <= text@.len(),
            views(parts@) + fields(text@.skip(from as int)) == fields(text@),
        decreases text@.len() - from,
    {
        let start = scan(text, from, Stop::PastSpace);
        if start == text.len() {
            assert(fields(text@.skip(from as int)) == Seq::<Seq<char>>::empty());
            return parts;
        }
        let end = scan(text, start, Stop::AtSpace);
        let ghost rest = text@.skip(start as int);
        let ghost earlier = parts@;
        assert(text@.skip(from as int).skip(start - from) == rest);
        let part = slice_subrange(text, start, end);
        assert(part@ == rest.take(end - start));
        parts.push(part);
        proof {
            lemma_views_push(earlier, part);
        }
        if end == text.len() {
            assert(part@ == rest);
            assert(views(parts@) == views(earlier) + seq![rest]);
            return parts;
        }
        assert(rest.skip(end - start + 1) == text@.skip(end + 1));
        assert(views(parts@) + fields(text@.skip(end + 1)) == views(earlier) + (seq![part@]
            + fields(text@.skip(end + 1))));
        from = end + 1;
    }
}

fn digit_of(c: char, radix: u32) -> (value: Option<u32>)
    requires
        radix <= 16,
    ensures
        match value {
            Some(value) => digit(c, radix as nat) == Some(value as nat),
            None => digit(c, radix as nat) is None,
        },
{
    let value: u32 = if '0' <= c && c <= '9' {
        c as u32 - '0' as u32
    } else if 'a' <= c && c <= 'f' {
        c as u32 - 'a' as u32 + 10
    } else if 'A' <= c && c <= 'F' {
        c as u32 - 'A' as u32 + 10
    } else {
        16
    };
    if value < radix {
        Some(value)
    } else {
        None
    }
}

/// The number that `text` writes in base `radix`, if it writes one and `u32` can hold it.
pub fn parse_numeral(text: &[char], radix: u32) -> (number: Option<u32>)
    requires
        1 <= radix <= 16,
    ensures
        match number {
            Some(number) => numeral(text@, radix as nat) == Some(number as nat),
            None => numeral(text@, radix as nat) matches Some(large) ==> large > u32::MAX,
        },
{
    if text.len() == 0 {
        return None;
    }
    let mut number: u64 = match digit_of(text[0], radix) {
        Some(value) => value as u64,
        None => {
            proof {
                if numeral(text@, radix as nat) is Some {
                    lemma_numeral_prefix(text@, radix as nat, 1);
                }
            }
            return None;
        },
    };
    for i in 1..text.len()
        invariant
            1 <= text@.len(),
            1 <= radix <= 16,
            number <= u32::MAX,
            numeral(text@.take(i as int), radix as nat) == Some(number as nat),
    {
        let ghost prefix = text@.take(i + 1);
        assert(prefix.drop_last() == text@.take(i as int));
        proof {
            if numeral(text@, radix as nat) is Some {
                lemma_numeral_prefix(text@, radix as nat, i + 1);
            }
        }
        match digit_of(text[i], radix) {
            Some(value) => {
                assert(number * radix <= u32::MAX * 16) by (nonlinear_arith)
                    requires
                        number <= u32::MAX,
                        radix <= 16,
                ;
                number = number * radix as u64 + value as u64;
                if number > u32::MAX as u64 {
                    return None;
                }
            },
            None => {
                return None;
            },
        }
    }
    assert(text@.take(text@.len() as int) == text@);
    Some(number as u32)
}

/// The parts with a `mark` between one and the next.
pub open spec fn joined(parts: Seq<Seq<char>>, mark: char) -> Seq<char>
    decreases parts.len(),
{
    if parts.len() == 0 {
        seq![]
    } else if parts.len() == 1 {
        parts[0]
    } else {
        parts[0] + seq![mark] + joined(parts.skip(1), mark)
    }
}

/// A character is white space exactly where its code point is one of the twenty-five that the
/// Unicode property lists.
pub proof fn law_white_space(c: char)
    ensures
        is_white_space(c) <==> {
            let code = c as int;
            ||| 9 <= code <= 13
            ||| code == 32
            ||| code == 133
            ||| code == 160
            ||| code == 5760
            ||| 8192 <= code <= 8202
            ||| 8232 <= code <= 8233
            ||| code == 8239
            ||| code == 8287
            ||| code == 12288
        },
{
}

/// A scan for a mark, for white space or for something else stops at the first character of that
/// sort, or at the end where there is none.
pub proof fn law_scan_stops_at_the_first(text: Seq<char>, mark: char)
    ensures
        ({
            let n = run_length(text, Stop::At(mark)) as int;
            &&& 0 <= n <= text.len()
            &&& forall|i: int| 0 <= i < n ==> text[i] != mark
            &&& n < text.len() ==> text[n] == mark
        }),
        ({
            let n = run_length(text, Stop::AtSpace) as int;
            &&& 0 <= n <= text.len()
            &&& forall|i: int| 0 <= i < n ==> !is_white_space(text[i])
            &&& n < text.len() ==> is_white_space(text[n])
        }),
        ({
            let n = run_length(text, Stop::PastSpace) as int;
            &&& 0 <= n <= text.len()
            &&& forall|i: int| 0 <= i < n ==> is_white_space(text[i])
            &&& n < text.len() ==> !is_white_space(text[n])
        }),
    decreases text.len(),
{
    if text.len() > 0 {
        let rest = text.skip(1);
        law_scan_stops_at_the_first(rest, mark);
        assert forall|i: int| 0 < i < text.len() implies text[i] == rest[i - 1] by {}
    }
}

/// What stands before a mark is the longest beginning of the text without one.
pub proof fn law_before_is_the_longest_beginning(text: Seq<char>, mark: char)
    ensures
        ({
            let cut = before(text, mark);
            &&& cut.len() <= text.len()
            &&& cut == text.take(cut.len() as int)
            &&& forall|i: int| 0 <= i < cut.len() ==> cut[i] != mark
            &&& cut.len() < text.len() ==> text[cut.len() as int] == mark
        }),
{
    law_scan_stops_at_the_first(text, mark);
}

/// Slices hold the characters that they hold, one by one.
pub proof fn law_views(slices: Seq<&[char]>)
    ensures
        views(slices).len() == slices.len(),
        forall|i: int| 0 <= i < slices.len() ==> #[trigger] views(slices)[i] == slices[i]@,
{
}

/// A text is the pieces that it falls into, with marks between them, and no piece has a mark.
pub proof fn law_pieces_make_up_the_text(text: Seq<char>, mark: char)
    ensures
        pieces(text, mark).len() > 0,
        joined(pieces(text, mark), mark) == text,
        forall|i: int, j: int|
            0 <= i < pieces(text, mark).len() && 0 <= j < pieces(text, mark)[i].len()
                ==> #[trigger] pieces(text, mark)[i][j] != mark,
    decreases text.len(),
{
    let end = run_length(text, Stop::At(mark)) as int;
    law_scan_stops_at_the_first(text, mark);
    let all = pieces(text, mark);
    if end < text.len() {
        let rest = text.skip(end + 1);
        law_pieces_make_up_the_text(rest, mark);
        assert(all.skip(1) == pieces(rest, mark));
        assert(text == text.take(end) + seq![mark] + rest);
        assert forall|i: int, j: int| 0 <= i < all.len() && 0 <= j < all[i].len() implies
            #[trigger] all[i][j] != mark by {
            if i > 0 {
                assert(all[i] == pieces(rest, mark)[i - 1]);
            }
        }
    }
}

/// Parts without marks that are joined by marks are the pieces of what they are joined to.
pub proof fn law_joined_parts_are_the_pieces(parts: Seq<Seq<char>>, mark: char)
    requires
        parts.len() > 0,
        forall|i: int, j: int|
            0 <= i < parts.len() && 0 <= j < parts[i].len() ==> #[trigger] parts[i][j] != mark,
    ensures
        pieces(joined(parts, mark), mark) == parts,
    decreases parts.len(),
{
    assert forall|j: int| 0 <= j < parts[0].len() implies parts[0][j] != mark by {}
    if parts.len() == 1 {
        lemma_first_piece(parts[0], mark, seq![]);
        assert(parts == seq![parts[0]]);
    } else {
        let rest = parts.skip(1);
        assert forall|i: int, j: int| 0 <= i < rest.len() && 0 <= j < rest[i].len() implies
            #[trigger] rest[i][j] != mark by {
            assert(rest[i] == parts[i + 1]);
        }
        law_joined_parts_are_the_pieces(rest, mark);
        lemma_first_piece(parts[0], mark, joined(rest, mark));
        assert(parts == seq![parts[0]] + rest);
    }
}

/// A line ends at its newline, and with it the carriage return before that. Neither belongs to
/// the line; a carriage return elsewhere does. The last line needs no newline.
pub proof fn law_lines_end_at_newlines(line: Seq<char>, rest: Seq<char>)
    requires
        forall|i: int| 0 <= i < line.len() ==> line[i] != '\n',
    ensures
        lines(Seq::<char>::empty()) == Seq::<Seq<char>>::empty(),
        line.len() > 0 ==> lines(line) == seq![line],
        line.len() == 0 || line.last() != '\r' ==> lines(line + seq!['\n'] + rest) == seq![line]
            + lines(rest),
        lines(line + seq!['\r', '\n'] + rest) == seq![line] + lines(rest),
{
    lemma_run_to_mark(line, '\n', rest);
    let plain = line + seq!['\n'] + rest;
    assert(plain.take(line.len() as int) == line);
    assert(plain.skip(line.len() as int + 1) == rest);
    let returned = line + seq!['\r'];
    let both = line + seq!['\r', '\n'] + rest;
    assert(both == returned + seq!['\n'] + rest);
    lemma_run_to_mark(returned, '\n', rest);
    assert(both.take(returned.len() as int) == returned);
    assert(both.skip(returned.len() as int + 1) == rest);
    assert(returned.drop_last() == line);
}

/// A scan passes the characters that it does not stop at.
proof fn lemma_run_past(head: Seq<char>, stop: Stop, tail: Seq<char>)
    requires
        forall|i: int| 0 <= i < head.len() ==> !stop.holds(#[trigger] head[i]),
    ensures
        run_length(head + tail, stop) == head.len() + run_length(tail, stop),
    decreases head.len(),
{
    if head.len() == 0 {
        assert(head + tail == tail);
    } else {
        assert((head + tail)[0] == head[0]);
        assert((head + tail).skip(1) == head.skip(1) + tail);
        assert forall|i: int| 0 <= i < head.skip(1).len() implies !stop.holds(
            #[trigger] head.skip(1)[i],
        ) by {
            assert(head.skip(1)[i] == head[i + 1]);
        }
        lemma_run_past(head.skip(1), stop, tail);
    }
}

/// White space in front of a field does not matter, and a field ends at the first white space
/// behind it or with the text.
pub proof fn law_fields_stand_between_white_space(field: Seq<char>, space: char, rest: Seq<char>)
    requires
        field.len() > 0,
        forall|i: int| 0 <= i < field.len() ==> !is_white_space(#[trigger] field[i]),
        is_white_space(space),
    ensures
        fields(Seq::<char>::empty()) == Seq::<Seq<char>>::empty(),
        fields(seq![space] + rest) == fields(rest),
        fields(field) == seq![field],
        fields(field + seq![space] + rest) == seq![field] + fields(rest),
{
    let none = Seq::<char>::empty();
    assert(run_length(none, Stop::PastSpace) == 0);
    assert(run_length(none, Stop::AtSpace) == 0);
    let spaced = seq![space] + rest;
    lemma_run_past(seq![space], Stop::PastSpace, rest);
    let start = run_length(rest, Stop::PastSpace) as int;
    law_scan_stops_at_the_first(rest, space);
    assert(spaced.skip(start + 1) == rest.skip(start));
    lemma_run_past(field, Stop::AtSpace, none);
    assert(field + none == field);
    assert(!is_white_space(field[0]));
    assert(run_length(field, Stop::PastSpace) == 0);
    assert(field.skip(0) == field);
    let text = field + seq![space] + rest;
    assert(text == field + spaced);
    lemma_run_past(field, Stop::AtSpace, spaced);
    assert(run_length(spaced, Stop::AtSpace) == 0);
    assert(text[0] == field[0]);
    assert(run_length(text, Stop::PastSpace) == 0);
    assert(text.skip(0) == text);
    assert(text.take(field.len() as int) == field);
    assert(text.skip(field.len() as int + 1) == rest);
}

/// Whether each of the words is a run of characters without white space.
pub open spec fn are_words(words: Seq<Seq<char>>) -> bool {
    &&& forall|i: int| 0 <= i < words.len() ==> #[trigger] words[i].len() > 0
    &&& forall|i: int, j: int|
        0 <= i < words.len() && 0 <= j < words[i].len() ==> !is_white_space(
            #[trigger] words[i][j],
        )
}

/// Words with white space between them are the fields of the text, which may go on behind white
/// space with other fields.
pub proof fn law_words_are_the_fields(words: Seq<Seq<char>>, space: char, rest: Seq<char>)
    requires
        words.len() > 0,
        are_words(words),
        is_white_space(space),
    ensures
        fields(joined(words, space)) == words,
        fields(joined(words, space) + seq![space] + rest) == words + fields(rest),
    decreases words.len(),
{
    let field = words[0];
    assert forall|j: int| 0 <= j < field.len() implies !is_white_space(#[trigger] field[j]) by {
        assert(!is_white_space(words[0][j]));
    }
    if words.len() == 1 {
        law_fields_stand_between_white_space(field, space, rest);
        assert(words == seq![field]);
    } else {
        let others = words.skip(1);
        assert(are_words(others)) by {
            assert forall|i: int| 0 <= i < others.len() implies #[trigger] others[i].len() > 0 by {
                assert(others[i] == words[i + 1]);
            }
            assert forall|i: int, j: int|
                0 <= i < others.len() && 0 <= j < others[i].len() implies !is_white_space(
                #[trigger] others[i][j],
            ) by {
                assert(others[i] == words[i + 1]);
                assert(!is_white_space(words[i + 1][j]));
            }
        }
        law_words_are_the_fields(others, space, rest);
        let tail = joined(others, space);
        law_fields_stand_between_white_space(field, space, tail);
        law_fields_stand_between_white_space(field, space, tail + seq![space] + rest);
        assert(joined(words, space) + seq![space] + rest == field + seq![space] + (tail
            + seq![space] + rest));
        assert(words == seq![field] + others);
        assert(seq![field] + (others + fields(rest)) == words + fields(rest));
    }
}

/// The digits are `0` to `9`, and beyond those `a` to `f` or `A` to `F`, as far as the base goes.
pub proof fn law_digits(c: char, radix: nat, value: nat)
    requires
        radix <= 16,
    ensures
        digit(c, radix) == Some(value) <==> value < radix && {
            ||| value < 10 && c as int == 48 + value
            ||| 10 <= value && c as int == 87 + value
            ||| 10 <= value && c as int == 55 + value
        },
{
}

/// A numeral has at least one digit, and its first digits count for the base to the power of how
/// many follow them.
pub proof fn law_numerals_are_positional(head: Seq<char>, tail: Seq<char>, radix: nat)
    requires
        head.len() > 0,
        tail.len() > 0,
    ensures
        numeral(Seq::empty(), radix) is None,
        numeral(seq![head[0]], radix) == digit(head[0], radix),
        numeral(head + tail, radix) == match (numeral(head, radix), numeral(tail, radix)) {
            (Some(high), Some(low)) => Some(
                (high * pow(radix as int, tail.len()) + low) as nat,
            ),
            _ => None,
        },
        pow(radix as int, tail.len()) >= 0,
    decreases tail.len(),
{
    reveal(pow);
    let text = head + tail;
    assert(text.last() == tail.last());
    if tail.len() == 1 {
        assert(text.drop_last() == head);
        assert(tail[0] == tail.last());
        assert(pow(radix as int, 0) == 1);
        assert(pow(radix as int, 1) == radix * pow(radix as int, 0));
        assert(radix * 1 == radix);
    } else {
        let less = tail.drop_last();
        assert(text.drop_last() == head + less);
        law_numerals_are_positional(head, less, radix);
        let power = pow(radix as int, less.len());
        assert(pow(radix as int, tail.len()) == radix * power);
        assert(0 <= radix * power) by (nonlinear_arith)
            requires
                power >= 0,
        ;
        if let (Some(high), Some(low)) = (numeral(head, radix), numeral(less, radix)) {
            assert(0 <= high * power) by (nonlinear_arith)
                requires
                    power >= 0,
            ;
            assert((high * power + low) * radix == high * (radix * power) + low * radix)
                by (nonlinear_arith);
        }
    }
}

/// The decimal text of a number, without leading zeros.
pub open spec fn decimal(number: nat) -> Seq<char>
    decreases number,
{
    if number < 10 {
        seq![(48 + number) as char]
    } else {
        decimal(number / 10).push((48 + number % 10) as char)
    }
}

/// The decimal text of a number writes that number, and no other text without leading zeros does.
pub proof fn law_decimals_read_back(text: Seq<char>, number: nat)
    ensures
        numeral(text, 10) == Some(number) && (text.len() > 1 ==> text[0] != '0') <==> text
            == decimal(number),
    decreases text.len(), number,
{
    if number >= 10 {
        lemma_decimal_shape(number / 10);
    }
    lemma_decimal_shape(number);
    if text.len() == 1 {
        law_digits(text[0], 10, number);
        if number < 10 {
            assert(decimal(number) == seq![(48 + number) as char]);
            if text[0] == (48 + number) as char {
                assert(text == decimal(number));
            }
            assert(text.drop_last() == Seq::<char>::empty());
        } else {
            assert(decimal(number).len() > 1);
        }
    } else if text.len() > 1 {
        let high = text.drop_last();
        if numeral(text, 10) == Some(number) && text[0] != '0' {
            let value = numeral(high, 10)->0;
            let low = digit(text.last(), 10)->0;
            law_digits(text.last(), 10, low);
            law_decimals_read_back(high, value);
            assert(high == decimal(value));
            lemma_decimal_shape(value);
            if value == 0 {
                assert(high[0] == '0');
            }
            assert(number == value * 10 + low);
            assert(number / 10 == value && number % 10 == low);
            assert(text == high.push(text.last()));
        }
        if text == decimal(number) {
            assert(number >= 10);
            assert(high == decimal(number / 10));
            law_decimals_read_back(high, number / 10);
            law_digits(text.last(), 10, number % 10);
            assert(text[0] == high[0]);
        }
    }
}

/// A decimal text has only digits, and begins with a zero only where it is that of zero.
pub proof fn lemma_decimal_shape(number: nat)
    ensures
        decimal(number).len() > 0,
        decimal(number).len() > 1 <==> number >= 10,
        decimal(number)[0] == '0' <==> number == 0,
        forall|i: int|
            0 <= i < decimal(number).len() ==> '0' <= #[trigger] decimal(number)[i] <= '9',
    decreases number,
{
    if number >= 10 {
        lemma_decimal_shape(number / 10);
    }
}

}
