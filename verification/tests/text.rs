use policy_dns::text::{
    chars_of, cut_before, parse_numeral, scan, spells, split_fields, split_lines, split_pieces, Stop,
};

fn strings(parts: Vec<&[char]>) -> Vec<String> {
    parts.into_iter().map(|part| part.iter().collect()).collect()
}

#[test]
fn lines_and_fields_split_as_in_the_standard_library() {
    let samples = [
        "", "\n", "\r\n", "\r", "a", "a\n", "a\r\n", "a\r", "a\r\r\n", "a\nb", "a\n\nb\n", "\n a \n",
        "a b\tc\u{b}d\u{c}e\u{85}f\u{a0}g\u{1680}h\u{2000}i\u{200a}j\u{2028}k\u{2029}l\u{202f}m\u{205f}n\u{3000}o",
        " a  b ", "\u{200b}a\u{180e}b\u{feff}", "\u{1c}a\u{1f}b", "#a", "a#b#c", "##",
    ];
    for sample in samples {
        let chars = chars_of(sample);
        assert_eq!(strings(split_lines(&chars)), sample.lines().collect::<Vec<_>>(), "{sample:?}");
        assert_eq!(
            strings(split_fields(&chars)),
            sample.split_whitespace().collect::<Vec<_>>(),
            "{sample:?}"
        );
        assert_eq!(
            strings(split_pieces(&chars, '#')),
            sample.split('#').collect::<Vec<_>>(),
            "{sample:?}"
        );
        let cut: String = cut_before(&chars, '#').iter().collect();
        assert_eq!(Some(cut.as_str()), sample.split('#').next());
        assert!(spells(&chars, sample));
        assert!(!spells(&chars, "something else"));
    }
}

#[test]
fn white_space_is_that_of_the_standard_library() {
    for code in 0..=0x10_ffff_u32 {
        if let Some(c) = char::from_u32(code) {
            assert_eq!(scan(&[c], 0, Stop::AtSpace) == 0, c.is_whitespace(), "{code:x}");
            assert_eq!(scan(&[c], 0, Stop::PastSpace) == 0, !c.is_whitespace(), "{code:x}");
        }
    }
}

#[test]
fn numerals_are_bounded_by_their_type() {
    let parse = |text: &str, radix| parse_numeral(&chars_of(text), radix);
    assert_eq!(parse("4294967295", 10), Some(u32::MAX));
    assert_eq!(parse("4294967296", 10), None);
    assert_eq!(parse("0000000000000000000000042", 10), Some(42));
    assert_eq!(parse("FfFf", 16), Some(0xffff));
    assert_eq!(parse("12a", 10), None);
    assert_eq!(parse("", 10), None);
    assert_eq!(parse("102", 2), None);
    assert_eq!(parse("101", 2), Some(5));
}
