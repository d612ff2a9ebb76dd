use skypier_blackhole::domains::merge_domains;
use skypier_blackhole::domains::parse_domains;
use skypier_blackhole::text::{chars_of, is_whitespace, line_bounds, string_of_range, trim_range};

#[test]
fn whitespace_matches_std_for_every_char() {
    for n in 0u32..=0x10FFFF {
        if let Some(c) = char::from_u32(n) {
            assert_eq!(is_whitespace(c), c.is_whitespace(), "mismatch at U+{:04X}", n);
        }
    }
}

#[test]
fn chars_of_keeps_order() {
    assert_eq!(chars_of("héllo"), vec!['h', 'é', 'l', 'l', 'o']);
    assert_eq!(chars_of(""), Vec::<char>::new());
}

#[test]
fn trim_range_matches_str_trim() {
    for s in ["  a b  ", "\t\u{3000}x\u{85}", "", "   ", "abc", "\r\nz\r\n"] {
        let v = chars_of(s);
        let (a, b) = trim_range(&v, 0, v.len());
        assert_eq!(string_of_range(&v, a, b), s.trim());
    }
}

#[test]
fn parse_skips_blank_and_comment_lines() {
    let text = "example.com\n# a comment\n\n   ads.example.net  \r\n\t#indented comment\nfoo.org";
    assert_eq!(parse_domains(text), vec!["example.com", "ads.example.net", "foo.org"]);
}

#[test]
fn parse_matches_lines_filter_trim() {
    for text in [
        "",
        "\n",
        "a\n",
        "a\r\nb\r\n",
        "  \n#x\n y \n\n\nz",
        "one\rtwo\nthree\r",
        "#only\n#comments",
        "a#b\n #c\nd",
    ] {
        let expected: Vec<String> = text
            .lines()
            .filter(|line| !line.trim().is_empty() && !line.trim().starts_with('#'))
            .map(|line| line.trim().to_string())
            .collect();
        assert_eq!(parse_domains(text), expected, "text {:?}", text);
    }
}

#[test]
fn parse_empty_text_has_no_domains() {
    assert!(parse_domains("").is_empty());
    assert!(parse_domains("\n\n   \n").is_empty());
}

#[test]
fn merged_domains_follow_list_order() {
    let texts = vec!["a.com\n# x\nb.com".to_string(), String::new(), " c.com \n".to_string()];
    assert_eq!(merge_domains(&texts), vec!["a.com", "b.com", "c.com"]);
    assert!(merge_domains(&Vec::new()).is_empty());
}

#[test]
fn line_bounds_match_str_lines() {
    for text in ["", "\n", "a", "a\n", "a\nb", "a\n\nb\n", "\n\nx"] {
        let v = chars_of(text);
        let got: Vec<String> = line_bounds(&v).iter().map(|&(a, b)| string_of_range(&v, a, b)).collect();
        let expected: Vec<String> = text.split('\n').map(|s| s.to_string()).collect();
        let expected = if text.ends_with('\n') || text.is_empty() {
            expected[..expected.len() - 1].to_vec()
        } else {
            expected
        };
        assert_eq!(got, expected, "{:?}", text);
    }
}
