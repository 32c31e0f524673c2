use deemo::order::{is_text_leq, sort};
use deemo::text::{
    chars, decimal, ends_with, fields, find_pair, lines, parse_number, rfind, rfind_pair,
    same_text, starts_with, string, trim,
};

fn shown(rows: Vec<Vec<char>>) -> Vec<String> {
    rows.iter().map(string).collect()
}

#[test]
fn lines_end_in_newline_or_both() {
    for text in ["", "a", "a\n", "a\r\nb", "\n", "\n\n", "a\r", "a\r\r\n", "x\ny\r\n"] {
        let expected: Vec<String> = text.lines().map(str::to_string).collect();
        assert_eq!(shown(lines(&chars(text))), expected, "{text:?}");
    }
}

#[test]
fn fields_and_trimming_go_by_white_space() {
    for text in ["", "  ", "a", " a  b\tc\n", "\u{3000}x\u{a0}y\u{85}", "a\u{200b}b"] {
        let expected: Vec<String> = text.split_whitespace().map(str::to_string).collect();
        assert_eq!(shown(fields(&chars(text))), expected, "{text:?}");
        assert_eq!(string(&trim(&chars(text))), text.trim(), "{text:?}");
    }
}

#[test]
fn every_white_space_character_is_known() {
    for c in (0..=0x10ffff).filter_map(char::from_u32) {
        assert_eq!(deemo::text::is_space(c), c.is_whitespace(), "{c:?}");
    }
}

#[test]
fn numbers_are_read_as_std_reads_them() {
    for text in [
        "0", "7", "007", "+7", "-7", "", "+", "++1", "1a", " 1", "65535", "65536", "4294967295",
        "4294967296", "99999999999999999999",
    ] {
        let n = parse_number(&chars(text), false, u32::MAX as u64);
        assert_eq!(n, text.parse::<u32>().ok().map(u64::from), "{text:?}");
        let n = parse_number(&chars(text), false, u16::MAX as u64);
        assert_eq!(n, text.parse::<u16>().ok().map(u64::from), "{text:?}");
    }
    for text in ["1F90", "1f90", "ffff", "10000", "g", "", "+a"] {
        let n = parse_number(&chars(text), true, u16::MAX as u64);
        let expected = u16::from_str_radix(text, 16).ok().map(u64::from);
        assert_eq!(n, expected, "{text:?}");
    }
}

#[test]
fn a_decimal_reads_back() {
    for n in [0, 9, 10, 99, 100, 4294967295u64] {
        assert_eq!(decimal(n), n.to_string());
        assert_eq!(parse_number(&chars(&decimal(n)), false, u32::MAX as u64), Some(n));
    }
    assert_eq!(decimal(u64::MAX), u64::MAX.to_string());
}

#[test]
fn searching_finds_first_and_last() {
    let s = chars("a->b->c");
    assert_eq!(find_pair(&s, '-', '>'), 1);
    assert_eq!(rfind_pair(&s, '-', '>'), Some(4));
    assert_eq!(find_pair(&s, '>', '-'), 7);
    assert_eq!(rfind_pair(&s, '>', '-'), None);
    assert_eq!(rfind(&chars("[::1]:80"), ':'), Some(5));
    assert_eq!(rfind(&chars("x"), ':'), None);
    assert!(starts_with(&s, &chars("a-")) && !starts_with(&s, &chars("b")));
    assert!(ends_with(&s, &chars("c")) && !ends_with(&chars("c"), &chars("bc")));
    assert!(same_text("ä", "ä") && !same_text("a", "A"));
}

#[test]
fn texts_are_ordered_as_std_orders_them() {
    let list = ["", "a", "ab", "b", "B", "ä", "srv-1.log", "srv.log", "\u{10000}", "\u{ffff}"];
    for a in list {
        for b in list {
            assert_eq!(is_text_leq(a, b), a <= b, "{a:?} {b:?}");
        }
    }
    let mut expected: Vec<String> = list.iter().map(|s| s.to_string()).collect();
    let sorted = sort(expected.clone());
    expected.sort();
    assert_eq!(sorted, expected);
}
