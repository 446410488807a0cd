use kmflow::text::{
    append_decimal, append_hex, contains, find_char, from_chars, is_whitespace, join_path, lines,
    parse_unsigned, same_chars, same_text, split, split_once, starts_with, strip_prefix, to_chars,
    trim, trim_end_char, up_to_char, words,
};

fn chars(s: &str) -> Vec<char> {
    s.chars().collect()
}

fn text(s: &[char]) -> String {
    s.iter().collect()
}

const SAMPLES: [&str; 12] = [
    "",
    " ",
    "\n",
    "one line",
    "two\nlines",
    "ends\r\nin\rreturns\r\n",
    "\n\nempty\n\n",
    "  padded\t\u{a0}\u{3000}text \u{2003}",
    "a.b..c.",
    "1920x1080",
    "x",
    "你好 世界🌍\r",
];

#[test]
fn white_space_is_that_of_the_standard_library() {
    for code in 0..=0x10ffffu32 {
        if let Some(c) = char::from_u32(code) {
            assert_eq!(is_whitespace(c), c.is_whitespace());
        }
    }
}

#[test]
fn characters_and_strings_convert() {
    for s in SAMPLES {
        assert_eq!(to_chars(s), chars(s));
        assert_eq!(from_chars(&chars(s)), s);
    }
}

#[test]
fn lines_words_and_parts_are_those_of_the_standard_library() {
    for s in SAMPLES {
        let c = chars(s);
        let ls: Vec<String> = lines(&c).iter().map(|l| text(l)).collect();
        let expected: Vec<String> = s.lines().map(|l| l.to_string()).collect();
        assert_eq!(ls, expected);
        let ws: Vec<String> = words(&c).iter().map(|l| text(l)).collect();
        let expected: Vec<String> = s.split_whitespace().map(|l| l.to_string()).collect();
        assert_eq!(ws, expected);
        let ps: Vec<String> = split(&c, '.').iter().map(|l| text(l)).collect();
        let expected: Vec<String> = s.split('.').map(|l| l.to_string()).collect();
        assert_eq!(ps, expected);
        assert_eq!(text(trim(&c)), s.trim());
        assert_eq!(text(trim_end_char(&c, '.')), s.trim_end_matches('.'));
        assert_eq!(text(up_to_char(&c, '.')), s.split('.').next().unwrap());
        assert_eq!(
            split_once(&c, 'x').map(|(a, b)| (text(a), text(b))),
            s.split_once('x').map(|(a, b)| (a.to_string(), b.to_string()))
        );
    }
}

#[test]
fn searching_agrees_with_the_standard_library() {
    for s in SAMPLES {
        let c = chars(s);
        for p in ["", "x", "lin", "two", "世界", ".", "missing"] {
            assert_eq!(contains(&c, p), s.contains(p));
            assert_eq!(starts_with(&c, p), s.starts_with(p));
            assert_eq!(same_text(&c, p), s == p);
            assert_eq!(same_chars(&c, &chars(p)), s == p);
            assert_eq!(
                strip_prefix(&c, p).map(|r| text(r)),
                s.strip_prefix(p).map(|r| r.to_string())
            );
        }
    }
}

#[test]
fn the_position_of_a_character_is_its_first() {
    assert_eq!(find_char(&chars("abcabc"), 'b'), 1);
    assert_eq!(find_char(&chars("abc"), 'z'), 3);
    assert_eq!(find_char(&[], 'a'), 0);
}

#[test]
fn numbers_are_read_as_the_standard_library_does() {
    for s in [
        "", "0", "7", "+7", "-7", "++7", "+", "007", "4294967295", "4294967296", "99999999999999999999",
        "12a", " 1", "1 ", "٣",
    ] {
        assert_eq!(parse_unsigned(&chars(s), u32::MAX), s.parse::<u32>().ok());
        assert_eq!(
            parse_unsigned(&chars(s), 255),
            s.parse::<u8>().ok().map(|n| n as u32)
        );
    }
}

#[test]
fn numbers_in_writing_are_read_back() {
    for n in [0u64, 9, 10, 4242, 65535, 4294967295] {
        let mut s = String::new();
        append_decimal(&mut s, n);
        assert_eq!(s, n.to_string());
        assert_eq!(parse_unsigned(&chars(&s), u32::MAX), Some(n as u32));
    }
    let mut s = String::from("n=");
    append_decimal(&mut s, u64::MAX);
    assert_eq!(s, "n=18446744073709551615");
}

#[test]
fn bytes_are_written_as_two_digits() {
    for b in 0..=255u8 {
        let mut s = String::new();
        append_hex(&mut s, b);
        assert_eq!(s, format!("{b:02x}"));
    }
}

#[test]
fn paths_are_joined_as_the_standard_library_does() {
    for dir in ["", "/", "/tmp", "/tmp/", "a/b", "."] {
        let expected = std::path::Path::new(dir).join("kmflow.sock");
        assert_eq!(join_path(dir, "kmflow.sock"), expected.to_str().unwrap());
    }
}
