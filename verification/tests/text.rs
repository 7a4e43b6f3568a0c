use llh::sdi::find_include;
use llh::text::{
    chars_of, contains, ends_with, find_from, is_space_char, matches_at, replace_all, starts_with, trim,
};

fn chars(s: &str) -> Vec<char> {
    s.chars().collect()
}

#[test]
fn chars_of_gives_the_characters() {
    assert_eq!(chars_of("aé€"), vec!['a', 'é', '€']);
    assert_eq!(chars_of(""), Vec::<char>::new());
}

#[test]
fn prefix_suffix_and_occurrence() {
    assert!(starts_with("//www.ti.com/x", "//"));
    assert!(!starts_with("/www.ti.com/x", "//"));
    assert!(starts_with("abc", ""));
    assert!(starts_with("", ""));
    assert!(!starts_with("", "a"));
    assert!(!starts_with("ab", "abc"));
    assert!(ends_with("a/overview.html", "overview.html"));
    assert!(!ends_with("a/overview.htm", "overview.html"));
    assert!(ends_with("abc", ""));
    assert!(!ends_with("bc", "abc"));
    assert!(contains("x/applications/y", "/applications/"));
    assert!(!contains("x/application/y", "/applications/"));
    assert!(contains("abc", ""));
    assert!(contains("", ""));
    assert!(!contains("", "a"));
    assert!(contains("aab", "ab"));
    assert!(contains("grüße", "üß"));
}

#[test]
fn matching_and_finding_in_characters() {
    let s = chars("abcabc");
    assert!(matches_at(&s, &chars("bc"), 1));
    assert!(!matches_at(&s, &chars("bc"), 2));
    assert!(matches_at(&s, &chars("bc"), 4));
    assert!(!matches_at(&s, &chars("bc"), 5));
    assert!(!matches_at(&s, &chars("bc"), 50));
    assert!(matches_at(&s, &chars(""), 6));
    assert!(!matches_at(&s, &chars(""), 7));
    assert_eq!(find_from(&s, &chars("bc"), 0), Some(1));
    assert_eq!(find_from(&s, &chars("bc"), 2), Some(4));
    assert_eq!(find_from(&s, &chars("bc"), 5), None);
    assert_eq!(find_from(&s, &chars("x"), 0), None);
    assert_eq!(find_from(&s, &chars(""), 6), Some(6));
    assert_eq!(find_from(&s, &chars("abcabcd"), 0), None);
}

#[test]
fn white_space() {
    for c in [' ', '\t', '\n', '\r', '\u{b}', '\u{c}', '\u{85}', '\u{a0}', '\u{1680}', '\u{2000}', '\u{200a}', '\u{2028}', '\u{2029}', '\u{202f}', '\u{205f}', '\u{3000}'] {
        assert!(is_space_char(c));
    }
    for c in ['a', '\u{8}', '\u{e}', '\u{200b}', '\u{1f}', '_', '\u{feff}'] {
        assert!(!is_space_char(c));
    }
    for u in 0..0x3100u32 {
        if let Some(c) = char::from_u32(u) {
            assert_eq!(is_space_char(c), c.is_whitespace());
        }
    }
}

#[test]
fn trimming() {
    assert_eq!(trim("  a b \t\n"), "a b");
    assert_eq!(trim("a"), "a");
    assert_eq!(trim("   "), "");
    assert_eq!(trim(""), "");
    assert_eq!(trim("\u{a0}é \u{3000}"), "é");
    assert_eq!(trim(" \t "), "");
    assert_eq!(trim("a  b"), "a  b");
}

#[test]
fn replacing() {
    assert_eq!(replace_all("a/overview.html", "overview.html", "products.html"), "a/products.html");
    assert_eq!(replace_all("x.html.html", ".html", ""), "x");
    assert_eq!(replace_all("aaa", "aa", "b"), "ba");
    assert_eq!(replace_all("abc", "", "x"), "abc");
    assert_eq!(replace_all("", "a", "x"), "");
    assert_eq!(replace_all("abc", "abcd", "x"), "abc");
    assert_eq!(replace_all("a/b/c", "/", "_"), "a_b_c");
    assert_eq!(replace_all("één", "é", "e"), "een");
    for (s, pat, with) in [("abcabc", "bc", "X"), ("aaaa", "aa", "a"), ("/lit/pdf/x/lit/pdf/y", "/lit/pdf/", "")] {
        assert_eq!(replace_all(s, pat, with), s.replace(pat, with));
    }
}

#[test]
fn include_comment_names_the_fragment() {
    let body = "<html>\n  <!-- SDI include (path: /content/st_com/en/products/x/_jcr_content/design-resources.html, resourceType: st-site/components) -->\n<p>/not this</p>\n";
    assert_eq!(
        find_include(body, "design-resources.html"),
        Some("/content/st_com/en/products/x/_jcr_content/design-resources.html".to_string())
    );
    assert_eq!(find_include(body, "sample-buy.html"), None);
    assert_eq!(find_include("", "x"), None);
    assert_eq!(find_include("no include here\n", ""), None);
}

#[test]
fn last_include_line_wins() {
    let body = "<!-- SDI include a /first.x, -->\n\t<!-- SDI include a /second.x -->\n<!-- SDI include a nothing -->\n<!-- SDI include b /third.x -->";
    assert_eq!(find_include(body, " a "), Some("/second.x".to_string()));
    assert_eq!(find_include(body, " b "), Some("/third.x".to_string()));
    assert_eq!(find_include(body, "SDI"), Some("/third.x".to_string()));
    assert_eq!(find_include("<!-- SDI include x /a,, -->", "x"), Some("/a,".to_string()));
    assert_eq!(find_include("<!-- SDI include x /", "x"), Some("/".to_string()));
    assert_eq!(find_include("<!-- SDI include x a/b -->", "x"), None);
    assert_eq!(find_include("x <!-- SDI include x /a -->", "x"), None);
    assert_eq!(find_include("<!-- SDI include x\n/a -->", "x"), None);
}
