use parasite::number::parse_decimal;
use parasite::strings::{chars_of, string_of};
use parasite::text::{
    find, has_substring, is_whitespace, matches_at, slice, split_lines, split_text, split_words,
    trim_text,
};

fn chars(s: &str) -> Vec<char> {
    s.chars().collect()
}

fn strings(rows: &Vec<Vec<char>>) -> Vec<String> {
    rows.iter().map(|r| r.iter().collect::<String>()).collect()
}

const SAMPLES: [&str; 24] = [
    "",
    " ",
    "a",
    "  a  ",
    "\t a b \n",
    "a\nb",
    "a\r\nb\r\n",
    "a\r",
    "a\r\r\n",
    "\n",
    "\n\n",
    "a\n\nb",
    "one two  three\tfour",
    "\u{a0}x\u{3000}",
    "\u{2003}wide\u{2003}space\u{2003}",
    "00:00:01.000 --> 00:00:02.000",
    "a-->b-->c",
    "--->",
    "-->",
    "a:b:c",
    "::",
    "x\u{85}y",
    "tab\u{b}vertical",
    "\u{feff}bom",
];

#[test]
fn whitespace_is_the_same_as_std_for_every_char() {
    let mut n: u32 = 0;
    while n <= 0x10FFFF {
        if let Some(c) = char::from_u32(n) {
            assert_eq!(is_whitespace(c), c.is_whitespace(), "char {:x}", n);
        }
        n += 1;
    }
}

#[test]
fn whitespace_examples() {
    assert!(is_whitespace(' '));
    assert!(is_whitespace('\n'));
    assert!(is_whitespace('\u{a0}'));
    assert!(!is_whitespace('a'));
    assert!(!is_whitespace('\u{200b}'));
}

#[test]
fn trim_is_the_same_as_std() {
    for s in SAMPLES {
        let got: String = trim_text(&chars(s)).iter().collect();
        assert_eq!(got, s.trim(), "trimming {:?}", s);
    }
}

#[test]
fn trim_of_spaces_only_is_empty() {
    assert_eq!(trim_text(&chars(" \t ")), Vec::<char>::new());
}

#[test]
fn words_are_the_same_as_std() {
    for s in SAMPLES {
        let got = strings(&split_words(&chars(s)));
        let want: Vec<String> = s.split_whitespace().map(|w| w.to_string()).collect();
        assert_eq!(got, want, "words of {:?}", s);
    }
}

#[test]
fn lines_are_the_same_as_std() {
    for s in SAMPLES {
        let got = strings(&split_lines(&chars(s)));
        let want: Vec<String> = s.lines().map(|w| w.to_string()).collect();
        assert_eq!(got, want, "lines of {:?}", s);
    }
}

#[test]
fn lines_keep_a_bare_carriage_return() {
    assert_eq!(strings(&split_lines(&chars("a\rb\nc\r"))), vec!["a\rb", "c\r"]);
}

#[test]
fn split_is_the_same_as_std() {
    for s in SAMPLES {
        for pat in ["-->", ":", ".", "--", "aa"] {
            let got = strings(&split_text(&chars(s), &chars(pat)));
            let want: Vec<String> = s.split(pat).map(|w| w.to_string()).collect();
            assert_eq!(got, want, "splitting {:?} at {:?}", s, pat);
        }
    }
}

#[test]
fn split_takes_the_leftmost_occurrence() {
    assert_eq!(strings(&split_text(&chars("aaa"), &chars("aa"))), vec!["", "a"]);
    assert_eq!(strings(&split_text(&chars("a--->b"), &chars("-->"))), vec!["a-", "b"]);
}

#[test]
fn contains_is_the_same_as_std() {
    for s in SAMPLES {
        for pat in ["-->", ":", "a", "", "b\r", "wide"] {
            assert_eq!(has_substring(&chars(s), &chars(pat)), s.contains(pat), "{:?} in {:?}", pat, s);
        }
    }
}

#[test]
fn find_gives_the_first_position() {
    assert_eq!(find(&chars("abcabc"), &chars("bc"), 0), Some(1));
    assert_eq!(find(&chars("abcabc"), &chars("bc"), 2), Some(4));
    assert_eq!(find(&chars("abcabc"), &chars("bc"), 5), None);
    assert_eq!(find(&chars("abc"), &chars("abcd"), 0), None);
    assert_eq!(find(&chars("abc"), &chars(""), 3), Some(3));
    assert_eq!(find(&chars("abc"), &chars(""), 4), None);
}

#[test]
fn matches_at_compares_in_place() {
    assert!(matches_at(&chars("hello"), &chars("ell"), 1));
    assert!(!matches_at(&chars("hello"), &chars("ell"), 2));
}

#[test]
fn slice_takes_the_range() {
    assert_eq!(slice(&chars("hello"), 1, 4), chars("ell"));
    assert_eq!(slice(&chars("hello"), 2, 2), chars(""));
}

#[test]
fn decimal_is_the_same_as_std() {
    let samples = [
        "", "0", "7", "007", "+5", "+", "-5", "++5", "5+", " 5", "5 ", "1_000", "12a",
        "18446744073709551615", "18446744073709551616", "99999999999999999999999",
        "000000000000000000000000000001", "\u{661}", "1.5", "+0",
    ];
    for s in samples {
        assert_eq!(parse_decimal(&chars(s)), s.parse::<u64>().ok(), "reading {:?}", s);
    }
}

#[test]
fn decimal_exact_values() {
    assert_eq!(parse_decimal(&chars("12345")), Some(12345));
    assert_eq!(parse_decimal(&chars("18446744073709551615")), Some(u64::MAX));
    assert_eq!(parse_decimal(&chars("18446744073709551616")), None);
}

#[test]
fn chars_and_strings_convert_both_ways() {
    assert_eq!(chars_of("h\u{e9}llo \u{2191}"), chars("h\u{e9}llo \u{2191}"));
    assert_eq!(string_of(&chars("h\u{e9}llo \u{2191}")), "h\u{e9}llo \u{2191}");
    assert_eq!(string_of(&Vec::new()), "");
    assert_eq!(chars_of(""), Vec::<char>::new());
}
