use envbuddel::text::{chars_of, is_whitespace_char, split_lines, string_of, trim};

fn chars(s: &str) -> Vec<char> {
    s.chars().collect()
}

fn lines_of(s: &str) -> Vec<String> {
    split_lines(&chars(s))
        .iter()
        .map(|line| line.iter().collect())
        .collect()
}

fn trimmed(s: &str) -> String {
    trim(&chars(s)).iter().collect()
}

#[test]
fn whitespace_is_what_the_standard_library_says() {
    for n in 0u32..=0x10FFFF {
        if let Some(c) = char::from_u32(n) {
            assert_eq!(is_whitespace_char(c), c.is_whitespace(), "U+{:04X}", n);
        }
    }
}

#[test]
fn whitespace_of_known_characters() {
    for c in [' ', '\t', '\n', '\r', '\u{0B}', '\u{0C}', '\u{85}', '\u{A0}', '\u{3000}'] {
        assert!(is_whitespace_char(c));
    }
    for c in ['a', '0', '_', '\u{200B}', '\u{180E}', '\u{FEFF}', '\0'] {
        assert!(!is_whitespace_char(c));
    }
}

#[test]
fn chars_and_strings() {
    assert_eq!(chars_of(""), Vec::<char>::new());
    assert_eq!(chars_of("aß€😀"), vec!['a', 'ß', '€', '😀']);
    assert_eq!(string_of(&['a', 'ß', '€', '😀']), "aß€😀");
    assert_eq!(string_of(&[]), "");
}

#[test]
fn trim_of_known_texts() {
    assert_eq!(trimmed(""), "");
    assert_eq!(trimmed("   "), "");
    assert_eq!(trimmed("a"), "a");
    assert_eq!(trimmed("  a b  "), "a b");
    assert_eq!(trimmed("\t\r\nkey\n"), "key");
    assert_eq!(trimmed("\u{A0}x\u{3000}"), "x");
    assert_eq!(trimmed("x  "), "x");
    assert_eq!(trimmed("  x"), "x");
}

#[test]
fn trim_is_what_the_standard_library_does() {
    for s in ["", " ", "a", " a", "a ", " a ", "\n\ta b\r\n", "\u{2028}x y\u{2029}", " \u{200B} "] {
        assert_eq!(trimmed(s), s.trim());
    }
}

#[test]
fn lines_of_known_texts() {
    assert_eq!(lines_of(""), Vec::<String>::new());
    assert_eq!(lines_of("a"), vec!["a"]);
    assert_eq!(lines_of("a\n"), vec!["a"]);
    assert_eq!(lines_of("a\nb"), vec!["a", "b"]);
    assert_eq!(lines_of("a\r\nb\r\n"), vec!["a", "b"]);
    assert_eq!(lines_of("\n"), vec![""]);
    assert_eq!(lines_of("\n\n"), vec!["", ""]);
    assert_eq!(lines_of("a\n\nb"), vec!["a", "", "b"]);
    // a carriage return counts only before a line feed
    assert_eq!(lines_of("a\rb"), vec!["a\rb"]);
    assert_eq!(lines_of("a\r"), vec!["a\r"]);
    assert_eq!(lines_of("a\r\r\nb"), vec!["a\r", "b"]);
    assert_eq!(lines_of("\r\n"), vec![""]);
}

#[test]
fn lines_are_what_the_standard_library_gives() {
    for s in [
        "", "\n", "\r", "\r\n", "a", "a\n", "a\r\n", "a\r", "a\nb", "a\n\nb\n", "\na", "a\r\r\n",
        "x\ny\r\nz\r", "\n\n\n", "\r\n\r\n",
    ] {
        let expected: Vec<String> = s.lines().map(|l| l.to_string()).collect();
        assert_eq!(lines_of(s), expected, "{:?}", s);
    }
}
