use safebuster::buster::text::{
    chars_of, contains_str, count_lines, count_words, find_chars, replace_str, split_str,
    is_white_space_exec, trim_str,
};

#[test]
fn chars_of_keeps_every_character() {
    assert_eq!(chars_of("aé b"), vec!['a', 'é', ' ', 'b']);
    assert_eq!(chars_of(""), Vec::<char>::new());
}

#[test]
fn find_chars_gives_first_match_from_start() {
    let s = chars_of("abcabc");
    let p = chars_of("bc");
    assert_eq!(find_chars(&s, &p, 0), Some(1));
    assert_eq!(find_chars(&s, &p, 2), Some(4));
    assert_eq!(find_chars(&s, &p, 5), None);
    assert_eq!(find_chars(&s, &chars_of("x"), 0), None);
    assert_eq!(find_chars(&s, &chars_of(""), 3), Some(3));
}

#[test]
fn contains_str_matches_std() {
    assert!(contains_str("Host: example.com", "Host"));
    assert!(!contains_str("host: example.com", "Host"));
    assert!(contains_str("abc", ""));
    assert!(!contains_str("", "a"));
}

#[test]
fn split_str_matches_std_split() {
    let cases = [
        ("a\r\nb\r\n\r\nc", "\r\n"),
        ("", "\r\n"),
        ("no separator", ":"),
        ("a:b:c", ":"),
        (":a:", ":"),
        ("GET /x HTTP/2", " "),
        ("aaa", "aa"),
    ];
    for (s, sep) in cases {
        let expected: Vec<String> = s.split(sep).map(|x| x.to_string()).collect();
        assert_eq!(split_str(s, sep), expected, "split of {:?} at {:?}", s, sep);
    }
}

#[test]
fn replace_str_matches_std_replace() {
    let cases = [
        ("/FUZZ.php", "FUZZ", "admin"),
        ("FUZZFUZZ", "FUZZ", "x"),
        ("none here", "FUZZ", "x"),
        ("FUFUZZZZ", "FUZZ", ""),
        ("aaaa", "aa", "b"),
        ("héFUZZé", "FUZZ", "ü"),
    ];
    for (s, p, r) in cases {
        assert_eq!(replace_str(s, p, r), s.replace(p, r), "replace in {:?}", s);
    }
}

#[test]
fn trim_str_matches_std_trim() {
    let cases = [" example.com ", "\t x \n", "", "   ", "a b", "\u{3000}x\u{a0}", "\u{85}y"];
    for s in cases {
        assert_eq!(trim_str(s), s.trim(), "trim of {:?}", s);
    }
}

#[test]
fn white_space_is_unicode_white_space() {
    for c in ['\t', '\n', '\u{b}', '\u{c}', '\r', ' ', '\u{85}', '\u{a0}', '\u{1680}', '\u{2000}', '\u{200a}', '\u{2028}', '\u{2029}', '\u{202f}', '\u{205f}', '\u{3000}', 'a', '\u{200b}', '_'] {
        assert_eq!(is_white_space_exec(c), c.is_whitespace(), "white space {:?}", c);
    }
}

#[test]
fn count_words_matches_split_whitespace() {
    let cases = ["", "one", "  two  words ", "a\nb\tc", "\u{3000}x\u{3000}", "   "];
    for s in cases {
        assert_eq!(count_words(s), s.split_whitespace().count(), "words of {:?}", s);
    }
}

#[test]
fn count_lines_matches_lines() {
    let cases = ["", "a", "a\n", "\n", "a\n\nb", "a\r\nb\r\n", "\n\n"];
    for s in cases {
        assert_eq!(count_lines(s), s.lines().count(), "lines of {:?}", s);
    }
}
