use envbuddel::error::VaultError;
use envbuddel::transport::{strip_breaks, unwrap, wrap, wrap_lines};

fn error_of<T>(r: Result<T, VaultError>) -> VaultError {
    match r {
        Ok(_) => panic!("expected an error"),
        Err(e) => e,
    }
}

#[test]
fn wrap_of_known_bytes() {
    assert_eq!(wrap(b""), "");
    assert_eq!(wrap(b"f"), "Zg==");
    assert_eq!(wrap(b"fo"), "Zm8=");
    assert_eq!(wrap(b"foo"), "Zm9v");
    assert_eq!(wrap(b"hello"), "aGVsbG8=");
    assert_eq!(wrap(&[0xfb, 0xff]), "+/8=");
}

#[test]
fn wrap_breaks_after_64_characters() {
    // 48 bytes are exactly one line
    let one_line = wrap(&[0u8; 48]);
    assert_eq!(one_line, "A".repeat(64));
    // one byte more starts a second line
    let two_lines = wrap(&[0u8; 49]);
    assert_eq!(two_lines, format!("{}\nAA==", "A".repeat(64)));
    // 96 bytes are two full lines, with no break at the end
    let two_full = wrap(&[0u8; 96]);
    assert_eq!(two_full, format!("{}\n{}", "A".repeat(64), "A".repeat(64)));
    let three = wrap(&[0u8; 97]);
    assert_eq!(
        three,
        format!("{}\n{}\nAA==", "A".repeat(64), "A".repeat(64))
    );
}

#[test]
fn wrap_lines_of_plain_text() {
    assert_eq!(wrap_lines(""), "");
    assert_eq!(wrap_lines("abc"), "abc");
    let line = "x".repeat(64);
    assert_eq!(wrap_lines(&line), line);
    assert_eq!(wrap_lines(&"x".repeat(65)), format!("{}\nx", line));
    assert_eq!(wrap_lines(&"x".repeat(128)), format!("{}\n{}", line, line));
    assert_eq!(wrap_lines(&"x".repeat(129)), format!("{}\n{}\nx", line, line));
}

#[test]
fn wrap_lines_counts_characters_not_bytes() {
    let text = "ä".repeat(65);
    assert_eq!(wrap_lines(&text), format!("{}\nä", "ä".repeat(64)));
}

#[test]
fn strip_breaks_takes_out_both_kinds() {
    assert_eq!(strip_breaks(""), "");
    assert_eq!(strip_breaks("abc"), "abc");
    assert_eq!(strip_breaks("a\nb\r\nc\r"), "abc");
    assert_eq!(strip_breaks("\n\r\n"), "");
    assert_eq!(strip_breaks("a b\tc"), "a b\tc");
}

#[test]
fn unwrap_of_wrap_gives_the_bytes_back() {
    for len in [0usize, 1, 2, 3, 47, 48, 49, 95, 96, 97, 1000] {
        let bytes: Vec<u8> = (0..len).map(|i| (i * 31 % 256) as u8).collect();
        assert_eq!(unwrap(&wrap(&bytes)).unwrap(), bytes);
    }
}

#[test]
fn unwrap_ignores_line_breaks_anywhere() {
    assert_eq!(unwrap("aGVs\nbG8=").unwrap(), b"hello");
    assert_eq!(unwrap("aGVs\r\nbG8=\r\n").unwrap(), b"hello");
    assert_eq!(unwrap("\na\nG\nV\ns\nb\nG\n8\n=\n").unwrap(), b"hello");
    assert_eq!(unwrap("").unwrap(), b"");
    assert_eq!(unwrap("\n").unwrap(), b"");
}

#[test]
fn unwrap_rejects_what_is_no_encoding() {
    // a character outside the alphabet
    assert_eq!(error_of(unwrap("aGVs*G8=")), VaultError::EncodingError);
    // a blank is no line break
    assert_eq!(error_of(unwrap("aGVs bG8=")), VaultError::EncodingError);
    // missing padding
    assert_eq!(error_of(unwrap("aGVsbG8")), VaultError::EncodingError);
    // too much padding
    assert_eq!(error_of(unwrap("aGVsbG8==")), VaultError::EncodingError);
    // a length that no encoding has
    assert_eq!(error_of(unwrap("thisisnotbase64")), VaultError::EncodingError);
    // the URL-safe alphabet is another one
    assert_eq!(error_of(unwrap("-_8=")), VaultError::EncodingError);
}
