use mdquiz::export::docx::numbering::{indent, Marker, Numbering, BULLETS, LEVELS, MAX_LEVEL};


#[test]
/// Every bulleted list shares one `w:numId`. Bullets carry no counter, so
/// a second id would only add a definition nothing needs.
fn bulleted_lists_share_one_numbering() {
    let mut numbering = Numbering::new();
    assert_eq!(numbering.open(Marker::Bullet, 0), 1);
    assert_eq!(numbering.open(Marker::Bullet, 0), 1);
    assert_eq!(numbering.to_xml().matches("<w:num ").count(), 1);
}

#[test]
/// Each ordered list gets its own. Sharing one makes the second continue
/// the first — a sheet that prints "1. 2." then "3. 4." where the author
/// wrote two lists of two.
fn each_ordered_list_gets_its_own_numbering() {
    let mut numbering = Numbering::new();
    assert_eq!(numbering.open(Marker::Ordered(1), 0), 1);
    assert_eq!(numbering.open(Marker::Ordered(1), 0), 2);
    let xml = numbering.to_xml();
    assert_eq!(xml.matches("<w:num ").count(), 2, "{xml}");
    assert_eq!(xml.matches("w:startOverride").count(), 2, "{xml}");
}

#[test]
/// A list authored as `3.` starts at three, not at one.
fn an_ordered_list_starts_where_it_says() {
    let mut numbering = Numbering::new();
    numbering.open(Marker::Ordered(3), 0);
    assert!(
        numbering
            .to_xml()
            .contains(r#"<w:startOverride w:val="3"/>"#),
        "{}",
        numbering.to_xml()
    );
}

#[test]
/// Both definitions are always present, so a `w:numId` can never resolve
/// to nothing — which is a document Word refuses to open.
fn both_definitions_are_always_written() {
    let xml = Numbering::new().to_xml();
    assert!(xml.contains(r#"w:abstractNumId="0""#), "{xml}");
    assert!(xml.contains(r#"w:abstractNumId="1""#), "{xml}");
    assert!(!xml.contains("<w:num "), "an unused instance: {xml}");
}

#[test]
/// Bullets and numbers use different definitions, or every ordered list
/// would print as bullets.
fn bullets_and_numbers_use_different_definitions() {
    let mut numbering = Numbering::new();
    numbering.open(Marker::Bullet, 0);
    numbering.open(Marker::Ordered(1), 0);
    let xml = numbering.to_xml();
    assert!(xml.contains(r#"<w:abstractNumId w:val="0"/>"#), "{xml}");
    assert!(xml.contains(r#"<w:abstractNumId w:val="1"/>"#), "{xml}");
}

#[test]
/// The deepest level items may use is the deepest one defined. If these
/// drift apart, a clamped item names a level that resolves to nothing.
fn the_clamp_matches_the_definitions() {
    assert_eq!(usize::from(MAX_LEVEL) + 1, LEVELS);
}

#[test]
/// Every level a `w:ilvl` may name is defined. An item deeper than the
/// definitions reach loses its marker and its indent silently.
fn every_level_word_allows_is_defined() {
    let xml = Numbering::new().to_xml();
    for level in 0..LEVELS {
        assert!(
            xml.contains(&format!(r#"<w:lvl w:ilvl="{level}">"#)),
            "level {level} is undefined: {xml}"
        );
    }
}

#[test]
/// The id `open` hands out is the id the part defines, against the right
/// definition and start. `push` and `to_xml` both go through `id_of`, and
/// drift between them would point items at the wrong list — a bulleted
/// item that numbers itself, or a `w:numId` resolving to nothing, which is
/// a document Word will not open. A bulleted instance carries no
/// `w:startOverride`: bullets have no counter to restart.
fn the_id_open_returns_is_the_one_the_part_defines() {
    let mut numbering = Numbering::new();
    let bullet = numbering.open(Marker::Bullet, 0);
    let first = numbering.open(Marker::Ordered(1), 0);
    let second = numbering.open(Marker::Ordered(5), 2);
    assert_eq!(
        (bullet, first, second, numbering.open(Marker::Bullet, 1)),
        (1, 2, 3, 1),
        "a later bulleted list opened a second id"
    );
    let xml = numbering.to_xml();
    assert!(
        xml.contains(&format!(
            r#"<w:num w:numId="{bullet}"><w:abstractNumId w:val="0"/></w:num>"#
        )),
        "a bulleted list restarted a counter it does not have: {xml}"
    );
    assert!(
        xml.contains(&format!(
            r#"<w:num w:numId="{id}"><w:abstractNumId w:val="1"/><w:lvlOverride w:ilvl="2"><w:startOverride w:val="5"/></w:lvlOverride>"#,
            id = second
        )),
        "the start landed on the wrong list or level: {xml}"
    );
}

/// The values of every `w:{attribute}` in `xml`, in document order.
///
/// Shared with `docx::tests`, which reads `w:numId` out of `document.xml`
/// the same way.
pub fn values_of(xml: &str, attribute: &str) -> Vec<String> {
    xml.split(&format!(r#"<w:{attribute} w:val=""#))
        .skip(1)
        .filter_map(|rest| rest.split_once('"'))
        .map(|(value, _)| value.to_owned())
        .collect()
}

#[test]
/// Each level draws its marker from the right place in the cycle. An
/// off-by-one in the index silently replaces *every* bullet with the
/// fallback glyph — a page of asterisks set in the body font, which no
/// test asserting only that the levels exist would notice.
fn each_level_takes_its_own_marker() {
    // Spelled out, not recomputed from `BULLETS` and `%`: an expectation
    // built the same way as the code agrees with it however it is
    // written, including a way that gives every level the same marker.
    let expected = [
        "\u{F0B7}", "o", "\u{F0A7}", "\u{F0B7}", "o", "\u{F0A7}", "\u{F0B7}", "o", "\u{F0A7}",
        "%1.", "%2.", "%3.", "%4.", "%5.", "%6.", "%7.", "%8.", "%9.",
    ];
    assert_eq!(values_of(&Numbering::new().to_xml(), "lvlText"), expected);
}

#[test]
/// …and its number format, so nesting an ordered list gives letters and
/// roman numerals rather than nine levels of `1.`.
fn each_level_takes_its_own_format() {
    let expected = [
        "bullet",
        "bullet",
        "bullet",
        "bullet",
        "bullet",
        "bullet",
        "bullet",
        "bullet",
        "bullet",
        "decimal",
        "lowerLetter",
        "lowerRoman",
        "decimal",
        "lowerLetter",
        "lowerRoman",
        "decimal",
        "lowerLetter",
        "lowerRoman",
    ];
    assert_eq!(values_of(&Numbering::new().to_xml(), "numFmt"), expected);
}

#[test]
/// A bullet glyph is a private-use code point that means something only
/// in its own font, so the font must travel with it.
fn every_bullet_level_names_its_font() {
    let xml = Numbering::new().to_xml();
    for (_, font) in BULLETS {
        assert!(xml.contains(&format!(r#"w:ascii="{font}""#)), "{xml}");
    }
}

#[test]
/// A continuation paragraph is indented by hand, so the two calculations
/// must agree: if they drift, an item's second paragraph hangs out to the
/// left of the first.
fn the_shared_indent_matches_the_definitions() {
    let xml = Numbering::new().to_xml();
    for level in 0..LEVELS {
        let expected = format!(r#"<w:ind w:left="{}" "#, indent(level));
        assert!(
            xml.contains(&expected),
            "level {level} indents to something else: {xml}"
        );
    }
}
