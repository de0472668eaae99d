use lean_goalview::text;

fn chars(s: &str) -> Vec<char> {
    s.chars().collect()
}

fn string(v: &[char]) -> String {
    v.iter().collect()
}

#[test]
fn trims_unicode_white_space() {
    let c = chars("\u{3000} \t⊢ a \u{2028}\r\n");
    assert_eq!(string(text::trim(&c)), "⊢ a");
    assert_eq!(string(text::trim_end(&c)), "\u{3000} \t⊢ a");
    assert_eq!(string(text::trim_start(&c)), "⊢ a \u{2028}\r\n");
    let blank = chars(" \n ");
    assert_eq!(string(text::trim(&blank)), "");
}

#[test]
fn white_space_is_what_std_says() {
    for n in 0u32..0x11_0000 {
        if let Some(c) = char::from_u32(n) {
            assert_eq!(text::space(c), c.is_whitespace());
        }
    }
}

#[test]
fn strips_one_character() {
    assert_eq!(string(text::strip_end(&chars("/tmp//"), '/')), "/tmp");
    assert_eq!(string(text::strip_start(&chars("⊢⊢ x⊢"), '⊢')), " x⊢");
    assert_eq!(string(text::strip_end(&chars("///"), '/')), "");
}

#[test]
fn finds_and_compares() {
    let s = chars("a : b : c");
    assert_eq!(text::find(&s, &chars(" : ")), Some(1));
    assert_eq!(text::find(&s, &chars("::")), None);
    assert!(text::starts_with(&s, &chars("a :")));
    assert!(!text::starts_with(&s, &chars("b")));
    assert!(text::ends_with(&s, &chars(": c")));
    assert!(!text::ends_with(&chars("c"), &chars(": c")));
    assert!(text::same_text("⊢", "⊢"));
    assert!(!text::same_text("⊢", "⊣"));
}

#[test]
fn takes_what_is_behind_or_before() {
    assert_eq!(string(text::behind_last(&chars("a/b/c.lean"), '/')), "c.lean");
    assert_eq!(string(text::behind_last(&chars("c.lean"), '/')), "c.lean");
    assert_eq!(string(text::behind_last(&chars("a/"), '/')), "");
    assert_eq!(string(text::ahead_of_first(&chars("/x?y?z"), '?')), "/x");
    assert_eq!(string(text::ahead_of_first(&chars("/x"), '?')), "/x");
}

#[test]
fn splits_into_words_lines_and_pieces() {
    let words: Vec<String> =
        text::split_words(&chars("  GET \t/ws\r\nHTTP/1.1 ")).iter().map(|w| string(w)).collect();
    assert_eq!(words, vec!["GET", "/ws", "HTTP/1.1"]);
    let lines: Vec<String> =
        text::split_lines(&chars("a\r\n\nb\rc\nd\r")).iter().map(|w| string(w)).collect();
    assert_eq!(lines, vec!["a", "", "b\rc", "d\r"]);
    assert_eq!(text::split_lines(&chars("")).len(), 0);
    assert_eq!(text::split_lines(&chars("\n")).len(), 1);
    let pieces: Vec<String> =
        text::split_pieces(&chars("/bin::/usr/bin:"), ':').iter().map(|w| string(w)).collect();
    assert_eq!(pieces, vec!["/bin", "", "/usr/bin", ""]);
    assert_eq!(text::split_pieces(&chars(""), ':').len(), 1);
}

#[test]
fn lines_are_those_of_std() {
    for s in ["", "a", "a\n", "a\nb", "\r\n", "a\r\r\nb", "\n\n", "x\ry\n"] {
        let lines: Vec<String> = text::split_lines(&chars(s)).iter().map(|w| string(w)).collect();
        let expected: Vec<&str> = s.lines().collect();
        assert_eq!(lines, expected);
    }
}

#[test]
fn reads_and_writes_decimals() {
    let mut out = String::from("n=");
    text::push_decimal(&mut out, 0);
    text::push_decimal(&mut out, 1203);
    text::push_decimal(&mut out, u64::MAX);
    assert_eq!(out, "n=0120318446744073709551615");
    assert_eq!(text::parse_number(&chars("+042"), 100), Some(42));
    assert_eq!(text::parse_number(&chars("101"), 100), None);
    assert_eq!(text::parse_number(&chars(""), 100), None);
    assert_eq!(text::parse_number(&chars("+"), 100), None);
    assert_eq!(text::parse_number(&chars("-1"), 100), None);
    assert_eq!(text::parse_number(&chars("1 "), 100), None);
    assert_eq!(text::parse_number(&chars("18446744073709551615"), u64::MAX), Some(u64::MAX));
    assert_eq!(text::parse_number(&chars("18446744073709551616"), u64::MAX), None);
}

#[test]
fn decimals_read_back() {
    for n in [0u64, 9, 10, 99, 6237, 65535, 1 << 40] {
        let mut out = String::new();
        text::push_decimal(&mut out, n);
        assert_eq!(text::parse_number(&chars(&out), u64::MAX), Some(n));
    }
}
