use toopsqlite::parsing::{Row, Stmt, StmtType};
use toopsqlite::vm::parser::same_text;
use toopsqlite::words::{find_word, parse_u32, space_at};

#[test]
fn space_at_tells_the_length_of_the_space() {
    let text = "a \u{a0}\u{3000}b\t".as_bytes();
    assert_eq!(space_at(text, 0), 0);
    assert_eq!(space_at(text, 1), 1);
    assert_eq!(space_at(text, 2), 2);
    // Inside the character of two bytes no space starts.
    assert_eq!(space_at(text, 3), 0);
    assert_eq!(space_at(text, 4), 3);
    assert_eq!(space_at(text, 7), 0);
    assert_eq!(space_at(text, 8), 1);
    assert_eq!(space_at(text, 9), 0);
    assert_eq!(space_at(text, 1000), 0);
}

#[test]
fn space_at_agrees_with_std_on_every_character() {
    for code in 0..=0x11_0000u32 {
        if let Some(c) = char::from_u32(code) {
            let mut buffer = [0u8; 4];
            let encoded = c.encode_utf8(&mut buffer).as_bytes();
            let expected = if c.is_whitespace() { encoded.len() } else { 0 };
            assert_eq!(space_at(encoded, 0), expected, "U+{code:04X}");
        }
    }
}

#[test]
fn space_at_needs_the_whole_character() {
    // The first bytes of a space of three bytes are no space.
    assert_eq!(space_at(&[0xE3, 0x80], 0), 0);
    assert_eq!(space_at(&[0xC2], 0), 0);
    assert_eq!(space_at(&[0xE2, 0x80, 0x8B], 0), 0);
    assert_eq!(space_at(&[0xE2, 0x80, 0x8A], 0), 3);
}

#[test]
fn find_word_gives_the_bounds() {
    let text = "  one\ttwo  ".as_bytes();
    assert_eq!(find_word(text, 0), Some((2, 5)));
    assert_eq!(find_word(text, 2), Some((2, 5)));
    assert_eq!(find_word(text, 3), Some((3, 5)));
    assert_eq!(find_word(text, 5), Some((6, 9)));
    assert_eq!(find_word(text, 9), None);
    assert_eq!(find_word(text, 11), None);
    assert_eq!(find_word(b"", 0), None);
    assert_eq!(find_word(b"x", 0), Some((0, 1)));
}

#[test]
fn parse_u32_reads_decimal_numbers() {
    let read = |text: &str| parse_u32(text.as_bytes(), 0, text.len());
    assert_eq!(read("0"), Some(0));
    assert_eq!(read("42"), Some(42));
    assert_eq!(read("+42"), Some(42));
    assert_eq!(read("4294967295"), Some(u32::MAX));
    assert_eq!(read("4294967296"), None);
    assert_eq!(read(""), None);
    assert_eq!(read("+"), None);
    assert_eq!(read("-1"), None);
    assert_eq!(read("12a"), None);
    assert_eq!(read(" 1"), None);
    assert_eq!(parse_u32(b"ab123cd", 2, 5), Some(123));
    assert_eq!(parse_u32(b"ab123cd", 2, 2), None);
}

#[test]
fn parse_u32_agrees_with_std() {
    for text in ["7", "007", "+0", "+00012", "99999999999", "4294967295", "++1", "1+", "١"] {
        assert_eq!(parse_u32(text.as_bytes(), 0, text.len()), text.parse::<u32>().ok(), "{text}");
    }
}

#[test]
fn same_text_compares_strings() {
    assert!(same_text("", ""));
    assert!(same_text("from", "from"));
    assert!(!same_text("from", "From"));
    assert!(!same_text("from", "fro"));
    assert!(!same_text("fro", "from"));
    assert!(same_text("\u{e9}t\u{e9}", "\u{e9}t\u{e9}"));
}

#[test]
fn statement_builders() {
    assert_eq!(Stmt::select().stmt_type, StmtType::Select);
    let row = Row { id: 9, username: [1; 32], email: [2; 255] };
    assert_eq!(Stmt::insert(row).stmt_type, StmtType::Insert(Box::new(row)));
}
