use mdquiz::export::{escape_xml, is_xml_char};

#[test]
/// The five predefined entities are escaped, `&` first.
fn escapes_the_predefined_entities() {
    assert_eq!(
        escape_xml(r#"a & b < c > d " e ' f"#),
        "a &amp; b &lt; c &gt; d &quot; e &apos; f"
    );
}

#[test]
/// Characters XML cannot represent are dropped, not passed through.
fn drops_characters_xml_cannot_represent() {
    let escaped = escape_xml("a\u{0}b\u{8}c\u{B}d\u{C}e\u{1F}f\u{FFFE}g");
    assert_eq!(escaped, "abcdefg");
    assert_eq!(escape_xml("a\tb\nc\rd"), "a\tb\nc\rd");
    assert_eq!(escape_xml("café 日本 🎓"), "café 日本 🎓");
}

#[test]
/// The legal set has its edges where XML 1.0 puts them.
fn xml_char_edges() {
    assert!(is_xml_char('\u{D7FF}'));
    assert!(!is_xml_char('\u{FFFF}'));
    assert!(is_xml_char('\u{10000}'));
    assert!(!is_xml_char('\u{1}'));
}
