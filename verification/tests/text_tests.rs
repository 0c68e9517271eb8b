use webserver::text::{char_is_whitespace, chars_of, split_char, split_whitespace, str_eq};

fn words_of(text: &str) -> Vec<String> {
    text.split_whitespace().map(|word| word.to_string()).collect()
}

fn pieces_of(text: &str, separator: char) -> Vec<String> {
    text.split(separator).map(|piece| piece.to_string()).collect()
}

#[test]
fn whitespace_is_the_unicode_property() {
    for code in 0u32..=0x10ffff {
        if let Some(c) = char::from_u32(code) {
            assert_eq!(char_is_whitespace(c), c.is_whitespace(), "U+{:04X}", code);
        }
    }
}

#[test]
fn whitespace_named_characters() {
    assert!(char_is_whitespace(' '));
    assert!(char_is_whitespace('\t'));
    assert!(char_is_whitespace('\n'));
    assert!(char_is_whitespace('\r'));
    assert!(char_is_whitespace('\u{a0}'));
    assert!(char_is_whitespace('\u{3000}'));
    assert!(!char_is_whitespace('a'));
    assert!(!char_is_whitespace('/'));
    assert!(!char_is_whitespace('\u{200b}'));
    assert!(!char_is_whitespace('\u{180e}'));
}

#[test]
fn chars_of_keeps_order() {
    assert_eq!(chars_of("GET /"), vec!['G', 'E', 'T', ' ', '/']);
    assert_eq!(chars_of(""), Vec::<char>::new());
    assert_eq!(chars_of("é€"), vec!['é', '€']);
}

#[test]
fn str_eq_tells_texts_apart() {
    assert!(str_eq("", ""));
    assert!(str_eq("/index", "/index"));
    assert!(!str_eq("/index", "/index/"));
    assert!(!str_eq("/index/", "/index"));
    assert!(!str_eq("/Index", "/index"));
    assert!(!str_eq("", "a"));
    assert!(!str_eq("abc", "abd"));
}

#[test]
fn split_whitespace_request_line() {
    assert_eq!(split_whitespace("GET /foo HTTP/1.1"), vec!["GET", "/foo", "HTTP/1.1"]);
}

#[test]
fn split_whitespace_edges() {
    assert_eq!(split_whitespace(""), Vec::<String>::new());
    assert_eq!(split_whitespace("   \t "), Vec::<String>::new());
    assert_eq!(split_whitespace("GET"), vec!["GET"]);
    assert_eq!(split_whitespace("  GET \t\t /a  "), vec!["GET", "/a"]);
    assert_eq!(split_whitespace("a\u{a0}b\u{3000}c"), vec!["a", "b", "c"]);
}

#[test]
fn split_whitespace_agrees_with_std() {
    let samples = [
        "",
        " ",
        "GET / HTTP/1.1",
        " POST   /submit\tHTTP/1.0 ",
        "one",
        "\r\n",
        "tab\tseparated\twords",
        "trailing ",
        " leading",
        "é € \u{2003} ü",
        "a\u{200b}b c",
    ];
    for sample in samples {
        assert_eq!(split_whitespace(sample), words_of(sample), "{:?}", sample);
    }
}

#[test]
fn split_char_header_line() {
    assert_eq!(split_char("Host: example.com", ':'), vec!["Host", " example.com"]);
}

#[test]
fn split_char_edges() {
    assert_eq!(split_char("", ':'), vec![""]);
    assert_eq!(split_char("abc", ':'), vec!["abc"]);
    assert_eq!(split_char(":", ':'), vec!["", ""]);
    assert_eq!(split_char("a::b", ':'), vec!["a", "", "b"]);
    assert_eq!(split_char(":a:", ':'), vec!["", "a", ""]);
    assert_eq!(split_char("Host: localhost:8080", ':'), vec!["Host", " localhost", "8080"]);
}

#[test]
fn split_char_agrees_with_std() {
    let samples =
        ["", ":", "::", "a", "a:b", "a:b:c", ":x", "x:", "é:€", "no colon here", "k: v: w"];
    for sample in samples {
        assert_eq!(split_char(sample, ':'), pieces_of(sample, ':'), "{:?}", sample);
    }
}
