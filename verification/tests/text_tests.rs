use hostdash::text::{
    chars_of, copy_range, find_in, is_whitespace, join_fields, matches_at, numeric_run,
    read_unsigned, split_fields, split_lines, starts_with, string_of, suffix_after_last,
};

fn strings(parts: Vec<Vec<char>>) -> Vec<String> {
    parts.iter().map(|part| string_of(part)).collect()
}

#[test]
fn whitespace_agrees_with_the_standard_library() {
    let mut code: u32 = 0;
    while code <= 0x10FFFF {
        if let Some(c) = char::from_u32(code) {
            assert_eq!(is_whitespace(c), c.is_whitespace(), "code point {:#x}", code);
        }
        code += 1;
    }
}

#[test]
fn chars_and_strings_round_trip() {
    let text = "päth 日本 x";
    let chars = chars_of(text);
    assert_eq!(chars.len(), 9);
    assert_eq!(string_of(&chars), text);
    assert_eq!(string_of(&chars_of("")), "");
}

#[test]
fn splits_fields_on_any_white_space() {
    let samples = vec![
        "",
        " ",
        "a",
        "  a  b\tc\n",
        "one\u{a0}two\u{3000}three",
        "   8       0 sda 100 0 2000",
        "x\r",
    ];
    for sample in samples {
        let expected: Vec<String> = sample.split_whitespace().map(|s| s.to_string()).collect();
        assert_eq!(strings(split_fields(&chars_of(sample))), expected, "sample {:?}", sample);
    }
}

#[test]
fn splits_lines_as_the_standard_library_does() {
    let samples = vec![
        "",
        "\n",
        "a",
        "a\n",
        "a\nb",
        "a\r\nb\r\n",
        "a\r",
        "a\r\n\r\nb",
        "\n\n",
        "a\rb\nc",
        "tail\r\r\n",
    ];
    for sample in samples {
        let expected: Vec<String> = sample.lines().map(|s| s.to_string()).collect();
        assert_eq!(strings(split_lines(&chars_of(sample))), expected, "sample {:?}", sample);
    }
}

#[test]
fn finds_first_occurrence() {
    let hay = chars_of("xxpid=1,pid=2");
    assert_eq!(find_in(&hay, &chars_of("pid=")), Some(2));
    assert_eq!(find_in(&hay, &chars_of("pid=2")), Some(8));
    assert_eq!(find_in(&hay, &chars_of("fd=")), None);
    assert_eq!(find_in(&hay, &chars_of("")), Some(0));
    assert_eq!(find_in(&chars_of("ab"), &chars_of("abc")), None);
    assert_eq!(find_in(&chars_of(""), &chars_of("")), Some(0));
    assert_eq!("xxpid=1,pid=2".find("pid="), Some(2));
}

#[test]
fn matches_and_prefixes() {
    let hay = chars_of("nvme0n1");
    assert!(matches_at(&hay, &chars_of("me0"), 2));
    assert!(!matches_at(&hay, &chars_of("me1"), 2));
    assert!(starts_with(&hay, &chars_of("nvme")));
    assert!(starts_with(&hay, &chars_of("")));
    assert!(!starts_with(&hay, &chars_of("sd")));
    assert!(!starts_with(&chars_of("s"), &chars_of("sd")));
}

#[test]
fn takes_what_follows_the_last_colon() {
    let samples = vec!["*:8080", "127.0.0.1:3000", "[::1]:631", "nocolon", "", "trailing:", ":"];
    for sample in samples {
        let expected = sample.rsplit(':').next().unwrap().to_string();
        assert_eq!(
            string_of(&suffix_after_last(&chars_of(sample), ':')),
            expected,
            "sample {:?}",
            sample
        );
    }
}

#[test]
fn copies_ranges() {
    let text = chars_of("abcdef");
    assert_eq!(string_of(&copy_range(&text, 1, 4)), "bcd");
    assert_eq!(string_of(&copy_range(&text, 3, 3)), "");
    assert_eq!(string_of(&copy_range(&text, 0, 6)), "abcdef");
}

#[test]
fn counts_numeric_runs() {
    assert_eq!(numeric_run(&chars_of("=1234,"), 1), 4);
    assert_eq!(numeric_run(&chars_of("=1234"), 1), 4);
    assert_eq!(numeric_run(&chars_of("abc"), 0), 0);
    assert_eq!(numeric_run(&chars_of("abc"), 3), 0);
    // Superscript two and the Arabic-Indic digit three are numeric characters.
    assert_eq!(numeric_run(&chars_of("1²٣x"), 0), 3);
}

#[test]
fn joins_fields_with_single_spaces() {
    let parts = split_fields(&chars_of("a  b   c d"));
    assert_eq!(string_of(&join_fields(&parts, 0)), "a b c d");
    assert_eq!(string_of(&join_fields(&parts, 2)), "c d");
    assert_eq!(string_of(&join_fields(&parts, 3)), "d");
    assert_eq!(string_of(&join_fields(&parts, 4)), "");
}

#[test]
fn reads_unsigned_numbers_as_the_standard_library_does() {
    let samples = vec![
        "0",
        "7",
        "007",
        "+5",
        "+",
        "-5",
        "",
        "++5",
        "5+",
        "12a",
        " 12",
        "65535",
        "65536",
        "4294967295",
        "4294967296",
        "18446744073709551615",
        "18446744073709551616",
        "99999999999999999999999",
        "٣",
        "1²",
    ];
    for sample in samples {
        let chars = chars_of(sample);
        assert_eq!(
            read_unsigned(&chars, u64::MAX),
            sample.parse::<u64>().ok(),
            "u64 of {:?}",
            sample
        );
        assert_eq!(
            read_unsigned(&chars, 0xffff_ffff),
            sample.parse::<u32>().ok().map(|n| n as u64),
            "u32 of {:?}",
            sample
        );
        assert_eq!(
            read_unsigned(&chars, 65535),
            sample.parse::<u16>().ok().map(|n| n as u64),
            "u16 of {:?}",
            sample
        );
    }
    assert_eq!(read_unsigned(&chars_of("3"), 2), None);
    assert_eq!(read_unsigned(&chars_of("0"), 0), Some(0));
}
