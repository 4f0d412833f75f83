use migrant_lib::text::{debug_str, decimal, join3, lines, replace_all, trim};

#[test]
fn trim_matches_std() {
    for s in ["  a b  ", "\t\n x\r\n", "", "   ", "\u{3000}y\u{a0}", "z"] {
        assert_eq!(trim(s), s.trim());
    }
}

#[test]
fn lines_match_std() {
    for s in ["a\nb\n", "a\r\nb", "", "\n", "a\n\nb", "x\r", "one", "a\rb\r\n"] {
        let ours: Vec<String> = lines(s);
        let std: Vec<String> = s.lines().map(String::from).collect();
        assert_eq!(ours, std, "lines of {:?}", s);
    }
}

#[test]
fn replace_matches_std() {
    for (s, from, to) in [
        ("insert '__VAL__'", "__VAL__", "tag"),
        ("__VAL____VAL__", "__VAL__", "x"),
        ("none here", "__VAL__", "x"),
        ("aaa", "aa", "b"),
        ("", "a", "b"),
    ] {
        assert_eq!(replace_all(s, from, to), s.replace(from, to));
    }
}

#[test]
fn decimal_matches_display() {
    for n in [0u32, 7, 10, 42, 1064, u32::MAX] {
        assert_eq!(decimal(n), n.to_string());
    }
}

#[test]
fn debug_quotes() {
    assert_eq!(debug_str("a\"b"), "\"a\\\"b\"");
    assert_eq!(join3("a", "b", "c"), "abc");
}
