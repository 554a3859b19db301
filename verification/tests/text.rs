use rsso::text::{chars_of, eq_ignore_case, is_space, slug, string_of, trim};

#[test]
fn slug_drops_scheme_and_turns_slashes_into_dashes() {
    assert_eq!(slug("http://a.com/rss"), "a.com-rss");
    assert_eq!(slug("https://example.org/blog/feed.xml"), "example.org-blog-feed.xml");
    assert_eq!(slug("https://example.org/"), "example.org");
    assert_eq!(slug("https://example.org///"), "example.org");
    assert_eq!(slug("example.org/feed"), "example.org-feed");
    assert_eq!(slug(""), "");
}

#[test]
fn slug_takes_out_every_scheme_wherever_it_stands() {
    assert_eq!(slug("https://a/http://b"), "a-b");
    assert_eq!(slug("http://http://x"), "x");
    // taking out one scheme can bring another together
    assert_eq!(slug("htthttps://p://x"), "x");
    assert_eq!(slug("http:/x"), "http:-x");
    assert_eq!(slug("ftp://x/y"), "ftp:--x-y");
}

#[test]
fn slug_agrees_with_the_string_operations_of_std() {
    let urls = [
        "http://a.com/rss",
        "https://https://",
        "https:///",
        "/",
        "//",
        "a//b/",
        "http://é.example/ü/",
        "http:/http://x//",
        "hhttp://ttp://a",
    ];
    for url in urls {
        let expected = url
            .replace("https://", "")
            .replace("http://", "")
            .trim_end_matches('/')
            .replace('/', "-");
        assert_eq!(slug(url), expected, "{}", url);
    }
}

#[test]
fn trim_removes_white_space_at_both_ends_only() {
    assert_eq!(trim("  a b  "), "a b");
    assert_eq!(trim("\t\nfoo\r\n"), "foo");
    assert_eq!(trim("foo"), "foo");
    assert_eq!(trim(""), "");
    assert_eq!(trim(" \t "), "");
    assert_eq!(trim("\u{a0}x\u{3000}"), "x");
    for s in ["  a b  ", "\u{2003}é \u{2003}", "x", " ", "\u{feff}x"] {
        assert_eq!(trim(s), s.trim(), "{:?}", s);
    }
}

#[test]
fn white_space_is_what_unicode_marks_as_such() {
    let listed = |c: char| {
        let n = c as u32;
        (0x09..=0x0D).contains(&n)
            || [0x20, 0x85, 0xA0, 0x1680, 0x2028, 0x2029, 0x202F, 0x205F, 0x3000].contains(&n)
            || (0x2000..=0x200A).contains(&n)
    };
    for n in 0..=0x10FFFF_u32 {
        if let Some(c) = char::from_u32(n) {
            let s = c.to_string();
            assert_eq!(trim(&s).is_empty(), listed(c), "U+{:04X}", n);
            assert_eq!(c.is_whitespace(), listed(c), "U+{:04X}", n);
            assert_eq!(is_space(c), c.is_whitespace(), "U+{:04X}", n);
        }
    }
    assert_eq!(trim("\u{200b}x\u{180e}"), "\u{200b}x\u{180e}");
    assert_eq!(trim("\u{1c}x\u{1f}"), "\u{1c}x\u{1f}");
}

#[test]
fn comparison_ignores_letter_case() {
    assert!(eq_ignore_case("ABC", "abc"));
    assert!(eq_ignore_case("Ärger", "äRGER"));
    assert!(eq_ignore_case("", ""));
    assert!(!eq_ignore_case("abc", "abd"));
    assert!(!eq_ignore_case("abc", "abc "));
}

#[test]
fn chars_and_back() {
    let v = chars_of("héllo");
    assert_eq!(v, vec!['h', 'é', 'l', 'l', 'o']);
    assert_eq!(string_of(&v, 1, 4), "éll");
    assert_eq!(string_of(&v, 2, 2), "");
    assert_eq!(string_of(&v, 0, 5), "héllo");
}
