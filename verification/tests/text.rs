use rom_downloader::text::{
    ascii_lowercase, chars_of, contains_chars, decimal_string, ends_with_chars, last_segment,
    parse_u64, rfind_char, split_chars, str_eq, string_of, strip_extension,
};

#[test]
fn parse_u64_agrees_with_str_parse() {
    let cases = [
        "0", "7", "42", "007", "+5", "+", "", "-1", " 1", "1 ", "12a", "18446744073709551615",
        "18446744073709551616", "99999999999999999999", "٣",
    ];
    for s in cases {
        assert_eq!(parse_u64(s), s.parse::<u64>().ok(), "{s:?}");
    }
}

#[test]
fn decimal_string_agrees_with_to_string() {
    for n in [0u64, 1, 9, 10, 99, 100, 12345, u64::MAX] {
        assert_eq!(decimal_string(n), n.to_string());
    }
}

#[test]
fn last_segment_and_strip_extension() {
    assert_eq!(last_segment("CHD-PSX/Crash Bandicoot (USA).chd"), "Crash Bandicoot (USA).chd");
    assert_eq!(last_segment("plain.zip"), "plain.zip");
    assert_eq!(last_segment("dir/"), "");
    assert_eq!(strip_extension("Crash Bandicoot (USA).chd"), "Crash Bandicoot (USA)");
    assert_eq!(strip_extension("archive.tar.gz"), "archive.tar");
    assert_eq!(strip_extension("noext"), "noext");
}

#[test]
fn string_helpers() {
    assert_eq!(rom_downloader::text::concat("ab", "cd"), "abcd");
    assert!(str_eq("x", "x"));
    assert!(!str_eq("x", "y"));
    let v = chars_of("héllo");
    assert_eq!(v, vec!['h', 'é', 'l', 'l', 'o']);
    assert_eq!(string_of(&v), "héllo");
    assert_eq!(rfind_char(&chars_of("a/b/c"), '/'), Some(3));
    assert_eq!(rfind_char(&chars_of("abc"), '/'), None);
    assert!(contains_chars(&chars_of("Cancelled by user"), &chars_of("Cancelled")));
    assert!(!contains_chars(&chars_of("cancelled"), &chars_of("Cancelled")));
    assert!(ends_with_chars(&chars_of("game.zip"), &chars_of(".zip")));
    assert!(!ends_with_chars(&chars_of("zip"), &chars_of(".zip")));
    assert_eq!(ascii_lowercase(&chars_of("GAME.ZIP É")), chars_of("game.zip É"));
}

#[test]
fn split_chars_agrees_with_str_split() {
    for s in ["", "/", "a/b", "/a//b/", "abc"] {
        let parts: Vec<String> = split_chars(&chars_of(s), '/').iter().map(string_of).collect();
        let expected: Vec<String> = s.split('/').map(|p| p.to_string()).collect();
        assert_eq!(parts, expected, "{s:?}");
    }
}
