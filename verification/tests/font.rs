use github_vanity::font::{split_lines, Font, FontError, Glyph, GlyphError, TableEntry};

const LETTER_A: &str = "-XXX-\nX---X\nX---X\nXXXXX\nX---X\nX---X\nX---X\n";

const TABLE: &str = "A = \"\"\"\n-XXX-\nX---X\nX---X\nXXXXX\nX---X\nX---X\nX---X\n\"\"\"\n\
I = \"\"\"\nX\nX\nX\nX\nX\nX\nX\n\"\"\"\n\
\" \" = \"\"\"\n--\n--\n--\n--\n--\n--\n--\n\"\"\"\n";

fn lines_as_text(text: &str) -> Vec<String> {
    split_lines(text).into_iter().map(|line| line.into_iter().collect()).collect()
}

fn text_entry(key: &str, text: &str) -> TableEntry {
    TableEntry { key: key.to_string(), text: Some(text.to_string()) }
}

fn letter_a_bits() -> Vec<bool> {
    let side = [false, true, true, true, true, true, true];
    let bar = [true, false, false, true, false, false, false];
    let mut bits = Vec::new();
    bits.extend_from_slice(&side);
    bits.extend_from_slice(&bar);
    bits.extend_from_slice(&bar);
    bits.extend_from_slice(&bar);
    bits.extend_from_slice(&side);
    bits
}

#[test]
fn lines_end_at_line_feeds() {
    assert_eq!(lines_as_text("ab\ncd"), vec!["ab", "cd"]);
    assert_eq!(lines_as_text("ab\ncd\n"), vec!["ab", "cd"]);
    assert_eq!(lines_as_text("ab\n\ncd"), vec!["ab", "", "cd"]);
    assert_eq!(lines_as_text("\n"), vec![""]);
    assert_eq!(lines_as_text("\n\n"), vec!["", ""]);
    assert_eq!(lines_as_text(""), Vec::<String>::new());
    assert_eq!(lines_as_text("ab"), vec!["ab"]);
}

#[test]
fn lines_drop_a_carriage_return_before_the_line_feed_only() {
    assert_eq!(lines_as_text("ab\r\ncd\r\n"), vec!["ab", "cd"]);
    assert_eq!(lines_as_text("ab\rcd\n"), vec!["ab\rcd"]);
    assert_eq!(lines_as_text("ab\r"), vec!["ab\r"]);
    assert_eq!(lines_as_text("\r\n"), vec![""]);
    assert_eq!(lines_as_text("ab\r\r\n"), vec!["ab\r"]);
}

#[test]
fn lines_are_those_of_the_standard_library() {
    let samples = [
        "",
        "\n",
        "\r",
        "\r\n",
        "a",
        "a\n",
        "a\r\n",
        "a\n\r",
        "a\n\nb",
        "a\r\n\r\nb\r\n",
        "-X-\n-X-\n",
        "one\ntwo\nthree",
        "\n\n\n",
        "x\r\r\ny",
        "caf\u{e9}\nna\u{ef}ve\n",
    ];
    for sample in samples {
        let expected: Vec<String> = sample.lines().map(|line| line.to_string()).collect();
        assert_eq!(lines_as_text(sample), expected);
    }
}

#[test]
fn glyph_is_read_column_by_column() {
    let glyph = Glyph::parse(LETTER_A).unwrap();
    assert_eq!(glyph.width(), 5);
    assert_eq!(glyph.bits(), &letter_a_bits());
    assert_eq!(glyph.bits().iter().filter(|bit| **bit).count(), 18);
}

#[test]
fn glyph_of_two_columns() {
    let glyph = Glyph::parse("X-\n--\n-X\n--\n--\n--\nXX").unwrap();
    assert_eq!(glyph.width(), 2);
    assert_eq!(
        glyph.bits(),
        &vec![
            true, false, false, false, false, false, true, false, false, true, false, false,
            false, true
        ]
    );
}

#[test]
fn glyph_accepts_both_lit_symbols_and_either_line_ending() {
    let glyph = Glyph::parse("x\r\nX\r\n-\r\nx\r\n-\r\n-\r\nX\r\n").unwrap();
    assert_eq!(glyph.width(), 1);
    assert_eq!(glyph.bits(), &vec![true, true, false, true, false, false, true]);
}

#[test]
fn glyph_without_columns() {
    let glyph = Glyph::parse("\n\n\n\n\n\n\n").unwrap();
    assert_eq!(glyph.width(), 0);
    assert!(glyph.bits().is_empty());
}

#[test]
fn glyph_needs_exactly_seven_rows() {
    assert_eq!(Glyph::parse("").unwrap_err(), GlyphError::RowCount);
    assert_eq!(Glyph::parse("X\nX\nX\nX\nX\nX").unwrap_err(), GlyphError::RowCount);
    assert_eq!(Glyph::parse("X\nX\nX\nX\nX\nX\nX\nX").unwrap_err(), GlyphError::RowCount);
    assert_eq!(Glyph::parse("X\nX\nX\nX\nX\nX\nX\n\n").unwrap_err(), GlyphError::RowCount);
    assert!(Glyph::parse("X\nX\nX\nX\nX\nX\nX\n").is_ok());
    assert!(Glyph::parse("X\nX\nX\nX\nX\nX\nX").is_ok());
}

#[test]
fn glyph_needs_rows_of_equal_length() {
    assert_eq!(Glyph::parse("XX\nXX\nXX\nX\nXX\nXX\nXX").unwrap_err(), GlyphError::RowLength);
    assert_eq!(Glyph::parse("X\nX\nX\nX\nX\nX\nXX").unwrap_err(), GlyphError::RowLength);
    assert_eq!(Glyph::parse("\nX\nX\nX\nX\nX\nX").unwrap_err(), GlyphError::RowLength);
}

#[test]
fn glyph_needs_known_symbols() {
    assert_eq!(Glyph::parse("X\nX\nX\no\nX\nX\nX").unwrap_err(), GlyphError::Symbol);
    assert_eq!(Glyph::parse("X \nX-\nX-\nX-\nX-\nX-\nX-").unwrap_err(), GlyphError::Symbol);
    assert_eq!(Glyph::parse("X\r\nX\r\nX\r\nX\r\nX\r\nX\r\nX\r").unwrap_err(), GlyphError::RowLength);
    assert_eq!(Glyph::parse("X\rX\n---\n---\n---\n---\n---\n---").unwrap_err(), GlyphError::Symbol);
}

#[test]
fn glyph_defects_are_reported_in_order() {
    // Too few rows, of unequal length, with an unknown symbol: the row count comes first.
    assert_eq!(Glyph::parse("X\nXX\n?").unwrap_err(), GlyphError::RowCount);
    // Seven rows of unequal length with an unknown symbol: the length comes first.
    assert_eq!(Glyph::parse("?\nX\nX\nX\nX\nX\nXX").unwrap_err(), GlyphError::RowLength);
}

#[test]
fn glyph_from_bits_needs_whole_columns() {
    assert!(Glyph::from_bits(vec![true; 6]).is_none());
    assert!(Glyph::from_bits(vec![true; 8]).is_none());
    let glyph = Glyph::from_bits(letter_a_bits()).unwrap();
    assert_eq!(glyph.width(), 5);
    assert_eq!(glyph.bits(), &letter_a_bits());
    let empty = Glyph::from_bits(Vec::new()).unwrap();
    assert_eq!(empty.width(), 0);
}

#[test]
fn font_table_is_loaded_from_toml() {
    let font = Font::parse(TABLE).unwrap();
    assert_eq!(font.get('A').unwrap().bits(), &letter_a_bits());
    assert_eq!(font.get('I').unwrap().bits(), &vec![true; 7]);
    assert_eq!(font.get(' ').unwrap().bits(), &vec![false; 14]);
    assert_eq!(font.get(' ').unwrap().width(), 2);
    assert!(font.get('B').is_none());
    assert!(font.get('a').is_none());
    assert!(font.get('i').is_none());
}

#[test]
fn empty_document_is_an_empty_table() {
    let font = Font::parse("").unwrap();
    assert!(font.get('A').is_none());
    let font = Font::parse("# nothing but a comment\n").unwrap();
    assert!(font.get('A').is_none());
}

#[test]
fn font_table_that_is_no_toml() {
    assert_eq!(Font::parse("A = ").unwrap_err(), FontError::Syntax);
    assert_eq!(Font::parse("A").unwrap_err(), FontError::Syntax);
    assert_eq!(Font::parse("A = \"unterminated\n").unwrap_err(), FontError::Syntax);
    assert_eq!(Font::parse("= \"no key\"\n").unwrap_err(), FontError::Syntax);
}

#[test]
fn font_entry_that_is_no_text() {
    assert_eq!(Font::parse("A = 5\n").unwrap_err(), FontError::NotText('A'));
    assert_eq!(Font::parse("B = true\n").unwrap_err(), FontError::NotText('B'));
    assert_eq!(Font::parse("[C]\nx = \"y\"\n").unwrap_err(), FontError::NotText('C'));
}

#[test]
fn font_entry_with_a_bad_drawing() {
    assert_eq!(
        Font::parse("A = \"X\"\n").unwrap_err(),
        FontError::BadGlyph('A', GlyphError::RowCount)
    );
    assert_eq!(
        Font::parse("B = \"\"\"\nX\nX\nXX\nX\nX\nX\nX\n\"\"\"\n").unwrap_err(),
        FontError::BadGlyph('B', GlyphError::RowLength)
    );
    assert_eq!(
        Font::parse("C = \"\"\"\nX\nX\nX\nX\n#\nX\nX\n\"\"\"\n").unwrap_err(),
        FontError::BadGlyph('C', GlyphError::Symbol)
    );
}

#[test]
fn font_entry_with_an_empty_key() {
    assert_eq!(
        Font::parse("\"\" = \"\"\"\nX\nX\nX\nX\nX\nX\nX\n\"\"\"\n").unwrap_err(),
        FontError::EmptyKey
    );
}

#[test]
fn first_defect_of_the_table_is_reported() {
    // The toml crate walks the keys in their order: `A` before `B`.
    let text = "B = 1\nA = \"X\"\n";
    assert_eq!(Font::parse(text).unwrap_err(), FontError::BadGlyph('A', GlyphError::RowCount));
}

#[test]
fn key_names_the_character_by_its_first_letter() {
    let text = "AB = \"\"\"\nX\nX\nX\nX\nX\nX\nX\n\"\"\"\nA = \"\"\"\n-\n-\n-\n-\n-\n-\n-\n\"\"\"\n";
    let font = Font::parse(text).unwrap();
    // `A` comes before `AB`, so the glyph of `AB` replaces that of `A`.
    assert_eq!(font.get('A').unwrap().bits(), &vec![true; 7]);
    assert!(font.get('B').is_none());
}

#[test]
fn table_from_entries_in_their_order() {
    let entries = vec![
        text_entry("A", "-\n-\n-\n-\n-\n-\n-"),
        text_entry("I", "X\nX\nX\nX\nX\nX\nX"),
        text_entry("Apple", LETTER_A),
    ];
    let font = Font::from_entries(&entries).unwrap();
    assert_eq!(font.get('A').unwrap().bits(), &letter_a_bits());
    assert_eq!(font.get('I').unwrap().bits(), &vec![true; 7]);
    assert!(font.get('p').is_none());
}

#[test]
fn table_from_entries_reports_the_first_defect() {
    let entries = vec![
        text_entry("A", LETTER_A),
        TableEntry { key: "B".to_string(), text: None },
        text_entry("", LETTER_A),
    ];
    assert_eq!(Font::from_entries(&entries).unwrap_err(), FontError::NotText('B'));
    let entries = vec![
        text_entry("A", LETTER_A),
        TableEntry { key: String::new(), text: None },
        text_entry("C", "X"),
    ];
    assert_eq!(Font::from_entries(&entries).unwrap_err(), FontError::EmptyKey);
    let entries = vec![text_entry("A", LETTER_A), text_entry("C", "X")];
    assert_eq!(
        Font::from_entries(&entries).unwrap_err(),
        FontError::BadGlyph('C', GlyphError::RowCount)
    );
    assert!(Font::from_entries(&Vec::new()).unwrap().get('A').is_none());
}

#[test]
fn insert_replaces_the_glyph_of_a_character() {
    let mut font = Font::new();
    assert!(font.get('A').is_none());
    font.insert('A', Glyph::from_bits(vec![true; 7]).unwrap());
    font.insert('B', Glyph::from_bits(vec![false; 14]).unwrap());
    assert_eq!(font.get('A').unwrap().width(), 1);
    assert_eq!(font.get('B').unwrap().width(), 2);
    font.insert('A', Glyph::from_bits(letter_a_bits()).unwrap());
    assert_eq!(font.get('A').unwrap().bits(), &letter_a_bits());
    assert_eq!(font.get('B').unwrap().bits(), &vec![false; 14]);
}
