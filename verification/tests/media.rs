use mdquiz::export::docx::media::{
    extent, per_metre_to_dpi, read_png, Extent, Media, CRC_LEN, DEFAULT_DPI, EMU_PER_INCH,
    MAX_HEIGHT, MAX_WIDTH, PHYS_UNIT_METRE, PNG_SIGNATURE,
};


/// A PNG header declaring `width` by `height` pixels, and `dpi` if given.
///
/// Only the header is built: nothing here decodes an image, and a real
/// one would hide the numbers under test behind a blob.
pub fn png(width: u32, height: u32, dpi: Option<u32>) -> Vec<u8> {
    let mut bytes = Vec::from(PNG_SIGNATURE);
    bytes.extend(chunk_bytes(*b"IHDR", &ihdr(width, height)));
    if let Some(dpi) = dpi {
        let per_metre = dpi.saturating_mul(10_000) / 254;
        let mut data = Vec::new();
        data.extend(per_metre.to_be_bytes());
        data.extend(per_metre.to_be_bytes());
        data.push(PHYS_UNIT_METRE);
        bytes.extend(chunk_bytes(*b"pHYs", &data));
    }
    bytes.extend(chunk_bytes(*b"IDAT", &[0]));
    bytes
}

/// The IHDR payload for a `width` by `height` 8-bit truecolour image.
fn ihdr(width: u32, height: u32) -> Vec<u8> {
    let mut data = Vec::new();
    data.extend(width.to_be_bytes());
    data.extend(height.to_be_bytes());
    data.extend([8, 2, 0, 0, 0]);
    data
}

/// One PNG chunk: length, type, data, and a CRC placeholder.
///
/// The CRC is zeroed because nothing in this module checks it — a corrupt
/// image is the reader's business, and refusing to *place* one would
/// trade a visibly bad picture for a silently missing one.
fn chunk_bytes(kind: [u8; 4], data: &[u8]) -> Vec<u8> {
    let mut bytes = Vec::new();
    bytes.extend(u32::try_from(data.len()).unwrap_or_default().to_be_bytes());
    bytes.extend(kind);
    bytes.extend(data);
    bytes.extend(vec![0_u8; CRC_LEN]);
    bytes
}

/// The images a test supplies, as one entry named `figure.png`.
fn supplied(bytes: Vec<u8>) -> Vec<(String, Vec<u8>)> {
    vec![("figure.png".to_owned(), bytes)]
}

/// The `cx`/`cy` a drawing of `bytes` would print at.
fn printed(bytes: &[u8]) -> Extent {
    let png = read_png(bytes).expect("a PNG header");
    extent(&png)
}

#[test]
/// A PNG that states no resolution is placed at 96 DPI, which is what
/// Word assumes when an image is pasted in.
fn an_image_without_a_resolution_is_placed_at_the_default() {
    let size = printed(&png(96, 48, None));
    assert_eq!(size.cx, u64::from(EMU_PER_INCH));
    assert_eq!(size.cy, u64::from(EMU_PER_INCH) / 2);
}

#[test]
/// A stated resolution is honoured. A 300 DPI screenshot is not three
/// times the size of a 96 DPI one of the same subject, and placing it at
/// the default would print it three times too wide — or, once the column
/// clamp caught it, at a size that has nothing to do with the original.
fn a_stated_resolution_is_honoured() {
    let size = printed(&png(600, 300, Some(300)));
    assert_eq!(size.cx, u64::from(EMU_PER_INCH) * 2);
    assert_eq!(size.cy, u64::from(EMU_PER_INCH));
}

#[test]
/// A `pHYs` chunk with no unit gives a pixel *ratio*, not a size, so the
/// default resolution still applies. Reading it as DPI would place a
/// 1:1-ratio image at a hundredth of an inch.
fn a_pixel_ratio_without_a_unit_is_not_a_resolution() {
    let mut bytes = Vec::from(PNG_SIGNATURE);
    bytes.extend(chunk_bytes(*b"IHDR", &ihdr(96, 96)));
    bytes.extend(chunk_bytes(*b"pHYs", &[0, 0, 0, 1, 0, 0, 0, 1, 0]));
    assert_eq!(printed(&bytes).cx, u64::from(EMU_PER_INCH));
}

#[test]
/// An image wider than the text column is scaled down to it, and keeps
/// its proportions. Clamping the width alone stretches the picture.
fn an_image_wider_than_the_column_is_scaled_to_fit() {
    let size = printed(&png(96 * 20, 96 * 10, None));
    assert_eq!(size.cx, u64::from(MAX_WIDTH));
    assert_eq!(size.cy, u64::from(MAX_WIDTH) / 2, "proportions changed");
}

#[test]
/// A tall narrow image is capped by the page, not the column. A picture
/// taller than the text area does not paginate — it is cut off at the
/// bottom margin — so the cap is the difference between a small diagram
/// and half a diagram.
fn an_image_taller_than_the_page_is_scaled_to_fit() {
    let size = printed(&png(96, 96 * 40, None));
    assert_eq!(size.cy, u64::from(MAX_HEIGHT));
    assert_eq!(size.cx, u64::from(MAX_HEIGHT) / 40, "proportions changed");
    assert!(size.cx <= u64::from(MAX_WIDTH));
}

#[test]
/// An image already inside the text area is left at its authored size.
fn an_image_that_fits_is_not_resized() {
    let size = printed(&png(96, 96, None));
    assert_eq!(size.cx, u64::from(EMU_PER_INCH));
    assert_eq!(size.cy, u64::from(EMU_PER_INCH));
}

#[test]
/// Anything that is not a PNG is refused, so the caller prints the
/// Markdown source instead of writing a drawing Word cannot resolve.
fn bytes_that_are_not_a_png_are_refused() {
    for (what, bytes) in [
        ("a JPEG", vec![0xFF, 0xD8, 0xFF, 0xE0, 0, 16, b'J', b'F']),
        ("empty", Vec::new()),
        ("a truncated header", Vec::from(PNG_SIGNATURE)),
        ("a zero-width PNG", png(0, 10, None)),
        ("a zero-height PNG", png(10, 0, None)),
    ] {
        assert!(read_png(&bytes).is_none(), "{what} was accepted");
    }
}

#[test]
/// SVG bytes behind a `.png` path are refused. The diagram renderer is
/// injected, and one that ignores the format it was asked for produces
/// exactly this; checking the signature rather than the extension is what
/// turns a document Word cannot open into a visible fallback.
fn an_svg_behind_a_png_path_is_refused() {
    let svg = br#"<svg xmlns="http://www.w3.org/2000/svg"><rect/></svg>"#;
    let supplied = vec![("generated/mermaid-ab.png".to_owned(), svg.to_vec())];
    let mut media = Media::new(&supplied);
    assert!(media.drawing("generated/mermaid-ab.png", "flow").is_none());
    assert!(media.parts().is_empty(), "a part was written for an SVG");
}

#[test]
/// An image nobody supplied bytes for yields no drawing — a remote URL,
/// or a file that could not be read.
fn an_unsupplied_image_yields_no_drawing() {
    let supplied = supplied(png(96, 96, None));
    let mut media = Media::new(&supplied);
    assert!(media.drawing("https://example.test/f.png", "").is_none());
    assert!(media.drawing("missing.png", "").is_none());
    assert!(media.parts().is_empty());
}

#[test]
/// The same image placed twice is bundled once but drawn twice, with a
/// distinct `docPr` id each time. Word rejects a document whose drawings
/// share an id, and bundling the bytes twice would double the file for
/// nothing.
fn one_image_placed_twice_is_one_part_and_two_drawings() {
    let supplied = supplied(png(96, 96, None));
    let mut media = Media::new(&supplied);
    let first = media.drawing("figure.png", "a").expect("draws");
    let second = media.drawing("figure.png", "a").expect("draws");
    assert_eq!(media.parts().len(), 1, "the bytes were bundled twice");
    assert!(first.contains(r#"r:embed="rIdImage1""#), "{first}");
    assert!(second.contains(r#"r:embed="rIdImage1""#), "{second}");
    assert!(first.contains(r#"<wp:docPr id="1""#), "{first}");
    assert!(second.contains(r#"<wp:docPr id="2""#), "{second}");
}

#[test]
/// Every `r:embed` a drawing cites is a relationship the package declares,
/// pointing at a part the package holds. A dangling one is not a missing
/// picture — Word refuses to open the document at all.
fn every_drawing_resolves_to_a_part_the_package_holds() {
    let supplied = vec![
        ("one.png".to_owned(), png(96, 96, None)),
        ("two.png".to_owned(), png(48, 48, Some(300))),
    ];
    let mut media = Media::new(&supplied);
    let drawings = ["two.png", "one.png", "two.png"]
        .map(|url| media.drawing(url, "figure").expect("draws"))
        .concat();
    let relationships = media.relationships();
    let parts = media.parts();
    assert_eq!(parts.len(), 2);
    for embed in drawings.split(r#"r:embed=""#).skip(1) {
        let id = embed.split('"').next().unwrap_or_default();
        assert!(relationships.contains(&format!(r#"Id="{id}""#)), "{id}");
    }
    for (path, _) in &parts {
        let target = path.strip_prefix("word/").unwrap_or_default();
        let cited = relationships.contains(&format!(r#"Target="{target}""#));
        assert!(cited, "{path} is in the package but nothing points at it");
    }
}

#[test]
/// Slots are assigned in the order the document first drew them, not in
/// the order the caller happened to supply them.
fn slots_follow_the_order_the_document_drew_them() {
    let supplied = vec![
        ("one.png".to_owned(), png(96, 96, None)),
        ("two.png".to_owned(), png(48, 48, None)),
    ];
    let mut media = Media::new(&supplied);
    let second = media.drawing("two.png", "").expect("draws");
    let first = media.drawing("one.png", "").expect("draws");
    assert!(second.contains(r#"r:embed="rIdImage1""#), "{second}");
    assert!(first.contains(r#"r:embed="rIdImage2""#), "{first}");
    let parts = media.parts();
    let paths: Vec<&str> = parts.iter().map(|(path, _)| path.as_str()).collect();
    assert_eq!(paths, ["word/media/image1.png", "word/media/image2.png"]);
}

#[test]
/// A part carries the bytes of the image it stands for, not of whichever
/// one happened to be first.
fn a_part_carries_its_own_image_bytes() {
    let supplied = vec![
        ("one.png".to_owned(), png(96, 96, None)),
        ("two.png".to_owned(), png(48, 48, None)),
    ];
    let mut media = Media::new(&supplied);
    media.drawing("two.png", "").expect("draws");
    media.drawing("one.png", "").expect("draws");
    let parts = media.parts();
    let bytes: Vec<&[u8]> = parts.iter().map(|(_, bytes)| *bytes).collect();
    assert_eq!(bytes, [png(48, 48, None), png(96, 96, None)]);
}

#[test]
/// A chunk declaring an impossible length is bailed out of, not walked
/// into. The length field is attacker-controlled in the sense that
/// matters here: a corrupt or truncated file reaches this, and a reader
/// that trusted the field would hang, panic, or allocate four gigabytes.
fn a_chunk_longer_than_the_file_ends_the_walk() {
    let mut bytes = Vec::from(PNG_SIGNATURE);
    bytes.extend(chunk_bytes(*b"IHDR", &ihdr(96, 96)));
    bytes.extend(u32::MAX.to_be_bytes());
    bytes.extend(b"pHYs");
    let png = read_png(&bytes).expect("the header is still readable");
    assert_eq!((png.dpi_x, png.dpi_y), (DEFAULT_DPI, DEFAULT_DPI));
}

#[test]
/// A `pHYs` after the image data is not looked for. The format requires
/// it before `IDAT`, and walking past there would step through every
/// data chunk of a megabyte screenshot to learn nothing.
fn a_resolution_after_the_image_data_is_not_searched_for() {
    let mut bytes = Vec::from(PNG_SIGNATURE);
    bytes.extend(chunk_bytes(*b"IHDR", &ihdr(96, 96)));
    bytes.extend(chunk_bytes(*b"IDAT", &[0]));
    bytes.extend(chunk_bytes(
        *b"pHYs",
        &[0, 0, 0xB1, 0x2F, 0, 0, 0xB1, 0x2F, 1],
    ));
    assert_eq!(printed(&bytes).cx, u64::from(EMU_PER_INCH));
}

#[test]
/// A resolution of zero, or a truncated `pHYs`, falls back to the default
/// rather than dividing by it.
fn an_unusable_resolution_falls_back_to_the_default() {
    for (what, data) in [
        ("zero per metre", vec![0, 0, 0, 0, 0, 0, 0, 0, 1]),
        ("zero on one axis", vec![0, 0, 0xB1, 0x2F, 0, 0, 0, 0, 1]),
        ("truncated", vec![0, 0, 0xB1, 0x2F]),
    ] {
        let mut bytes = Vec::from(PNG_SIGNATURE);
        bytes.extend(chunk_bytes(*b"IHDR", &ihdr(96, 96)));
        bytes.extend(chunk_bytes(*b"pHYs", &data));
        bytes.extend(chunk_bytes(*b"IDAT", &[0]));
        let size = printed(&bytes);
        assert_eq!(size.cx, u64::from(EMU_PER_INCH), "{what}");
        assert_eq!(size.cy, u64::from(EMU_PER_INCH), "{what}");
    }
}

#[test]
/// A resolution so high that a dimension rounds away still prints inside
/// the page, and never at zero. A `pHYs` chunk states its two
/// resolutions independently, so a corrupt one reaches the sizing with a
/// vanishing width and an unbounded height — and Word draws a zero
/// extent as nothing while rejecting an oversized one outright.
fn a_dimension_that_rounds_away_is_still_placed() {
    let mut bytes = Vec::from(PNG_SIGNATURE);
    bytes.extend(chunk_bytes(*b"IHDR", &ihdr(100, 2_000_000_000)));
    // 4e9 pixels per metre on x is about 101 million DPI; 20 on y is
    // under one, so the two axes round in opposite directions.
    let mut phys = Vec::new();
    phys.extend(4_000_000_000_u32.to_be_bytes());
    phys.extend(20_u32.to_be_bytes());
    phys.push(PHYS_UNIT_METRE);
    bytes.extend(chunk_bytes(*b"pHYs", &phys));
    bytes.extend(chunk_bytes(*b"IDAT", &[0]));
    let size = printed(&bytes);
    assert!(size.cx >= 1, "a zero-width picture draws as nothing");
    assert!(size.cx <= u64::from(MAX_WIDTH), "{size:?}");
    assert!(size.cy <= u64::from(MAX_HEIGHT), "{size:?}");
}

#[test]
/// When both dimensions overrun, the one that overruns by more decides
/// the scale — otherwise fitting the width would leave the height over.
fn the_worse_overrun_decides_the_scale() {
    let size = printed(&png(96 * 20, 96 * 40, None));
    assert_eq!(size.cy, u64::from(MAX_HEIGHT), "height should bind");
    assert!(size.cx < u64::from(MAX_WIDTH), "{size:?}");
    assert_eq!(size.cx, u64::from(MAX_HEIGHT) / 2, "proportions changed");
}

#[test]
/// A shape so extreme that its minor axis scales to nothing keeps one
/// EMU of it. Zero is not a thin picture, it is no picture.
fn a_scaled_away_minor_axis_keeps_one_emu() {
    let size = printed(&png(6_000_000, 1, None));
    assert_eq!(size.cx, u64::from(MAX_WIDTH));
    assert_eq!(size.cy, 1);
}

#[test]
/// Pixels per metre round to the nearest DPI rather than truncating:
/// 3780 per metre is the 96 DPI almost every tool writes, and truncating
/// it yields 95, which shows up as an image 1% too large.
fn a_resolution_rounds_to_the_nearest_dot_per_inch() {
    assert_eq!(per_metre_to_dpi(3_780), 96);
    assert_eq!(per_metre_to_dpi(3_779), 96);
    assert_eq!(per_metre_to_dpi(11_811), 300);
    assert_eq!(per_metre_to_dpi(0), 0);
}

#[test]
/// An image with no alt text still carries the attribute. Absent and
/// empty are different to a screen reader: absent invites it to read the
/// file name instead.
fn an_image_without_alt_text_still_carries_the_attribute() {
    let supplied = supplied(png(96, 96, None));
    let mut media = Media::new(&supplied);
    let xml = media.drawing("figure.png", "").expect("draws");
    assert!(xml.contains(r#"descr="""#), "{xml}");
}

#[test]
/// Rewinding discards what was drawn since the mark, and only that. A
/// paragraph that falls back after placing an image must not leave the
/// bytes behind in a package that no longer draws them.
fn rewinding_discards_only_what_came_after_the_mark() {
    let supplied = vec![
        ("kept.png".to_owned(), png(96, 96, None)),
        ("dropped.png".to_owned(), png(48, 48, None)),
    ];
    let mut media = Media::new(&supplied);
    media.drawing("kept.png", "").expect("draws");
    let mark = media.mark();
    media.drawing("dropped.png", "").expect("draws");
    media.rewind(mark);
    assert_eq!(media.parts().len(), 1, "the kept image went too");
    // The next slot is the one the rewind freed, not one past it.
    let next = media.drawing("dropped.png", "").expect("draws");
    assert!(next.contains(r#"r:embed="rIdImage2""#), "{next}");
    assert!(next.contains(r#"<wp:docPr id="2""#), "{next}");
}

#[test]
/// An image an earlier paragraph placed survives a later rewind: the
/// lookup finds it rather than pushing it again, so there is nothing
/// after the mark to truncate.
fn a_rewind_cannot_discard_an_earlier_paragraphs_image() {
    let supplied = supplied(png(96, 96, None));
    let mut media = Media::new(&supplied);
    media.drawing("figure.png", "").expect("draws");
    let mark = media.mark();
    media.drawing("figure.png", "").expect("draws");
    media.rewind(mark);
    assert_eq!(media.parts().len(), 1, "the first placement was lost");
}

#[test]
/// A relationship target and the part it names are derived from one
/// constant, so they cannot drift into an `r:embed` pointing at nothing.
fn a_relationship_target_names_the_part_that_is_written() {
    let supplied = supplied(png(96, 96, None));
    let mut media = Media::new(&supplied);
    media.drawing("figure.png", "").expect("draws");
    let relationships = media.relationships();
    for (path, _) in &media.parts() {
        let target = path.strip_prefix("word/").unwrap_or_default();
        assert!(
            relationships.contains(&format!(r#"Target="{target}""#)),
            "{path}"
        );
    }
}

#[test]
/// Alt text reaches the description, escaped. It is what a screen reader
/// announces, and an unescaped `&` makes the whole document unreadable.
fn alt_text_is_escaped_into_the_description() {
    let supplied = supplied(png(96, 96, None));
    let mut media = Media::new(&supplied);
    let xml = media.drawing("figure.png", "A & B <tree>").expect("draws");
    assert!(xml.contains(r#"descr="A &amp; B &lt;tree&gt;""#), "{xml}");
    assert!(!xml.contains("<tree>"), "{xml}");
}
