use omegawhisper::text::{is_blank, trim_owned, typing_chunks, utf16_chunks, CHUNK_UTF16_UNITS};

#[test]
fn short_text_is_typed_in_one_piece() {
    let chunks = typing_chunks("hello");
    assert_eq!(chunks.len(), 1);
    assert_eq!(String::from_utf16(&chunks[0]).unwrap(), "hello");
    assert!(typing_chunks("").is_empty());
}

#[test]
fn long_text_is_typed_in_pieces_of_at_most_twenty_units() {
    let text = "a".repeat(45);
    let chunks = typing_chunks(&text);
    let lengths: Vec<usize> = chunks.iter().map(|c| c.len()).collect();
    assert_eq!(lengths, vec![20, 20, 5]);
    assert_eq!(CHUNK_UTF16_UNITS, 20);
    let joined: String = chunks.iter().map(|c| String::from_utf16(c).unwrap()).collect();
    assert_eq!(joined, text);
}

#[test]
fn a_character_outside_the_basic_plane_is_never_split() {
    // 19 letters, then a character that takes two UTF-16 units: it would
    // straddle the end of the first piece, so it moves to the second whole.
    let text = format!("{}😀b", "a".repeat(19));
    let chunks = typing_chunks(&text);
    let lengths: Vec<usize> = chunks.iter().map(|c| c.len()).collect();
    assert_eq!(lengths, vec![19, 3]);
    for chunk in &chunks {
        assert!(String::from_utf16(chunk).is_ok(), "every piece is whole characters");
    }
    let joined: String = chunks.iter().map(|c| String::from_utf16(c).unwrap()).collect();
    assert_eq!(joined, text);
}

#[test]
fn pieces_are_ranges_that_cover_the_text() {
    let units: Vec<u16> = "Привет, мир! Это проверка длинного текста".encode_utf16().collect();
    let ranges = utf16_chunks(&units);
    assert_eq!(ranges.first().map(|r| r.0), Some(0));
    assert_eq!(ranges.last().map(|r| r.1), Some(units.len()));
    for pair in ranges.windows(2) {
        assert_eq!(pair[0].1, pair[1].0);
    }
    assert!(utf16_chunks(&Vec::new()).is_empty());
}

#[test]
fn whitespace_is_trimmed_the_unicode_way() {
    assert_eq!(trim_owned("  hi there \n"), "hi there");
    assert_eq!(trim_owned("\u{a0}x\u{2003}"), "x");
    assert_eq!(trim_owned("   "), "");
    assert!(is_blank(""));
    assert!(is_blank(" \t\r\n\u{85}\u{3000}"));
    assert!(!is_blank(" a "));
}
