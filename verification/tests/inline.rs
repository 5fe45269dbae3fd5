use mdquiz::error::{Error, Result};
use mdquiz::export::docx::inline::{paragraphs, Kind, Paragraph, Refs};
use mdquiz::export::docx::numbering::{Item, MAX_LEVEL};


/// Render `markdown` into a document with no other lists in it.
///
/// Each call gets a fresh [`Numbering`], so a test's `w:numId`s start at
/// 1 and do not depend on what another test rendered.
fn rendered(markdown: &str) -> Result<Vec<Paragraph>> {
    let images: Vec<(String, Vec<u8>)> = Vec::new();
    let math = mathml();
    let mut refs = Refs::with_math(&images, &math);
    paragraphs(markdown, &mut refs)
}

/// The MathML the converter gives for the expressions these tests write.
fn mathml() -> Vec<(String, String)> {
    vec![
        (
            "O(n^2)".to_owned(),
            r#"<math><mi>O</mi><mo stretchy="false">(</mo><msup><mi>n</mi><mn>2</mn></msup><mo stretchy="false">)</mo></math>"#.to_owned(),
        ),
        (
            r"\frac{a}{b}".to_owned(),
            r#"<math display="block"><mfrac><mi>a</mi><mi>b</mi></mfrac></math>"#.to_owned(),
        ),
        (
            "x^2".to_owned(),
            "<math><msup><mi>x</mi><mn>2</mn></msup></math>".to_owned(),
        ),
    ]
}

/// The runs of the single paragraph `markdown` renders to.
fn only(markdown: &str) -> String {
    let mut rendered = rendered(markdown).expect("renders");
    assert_eq!(rendered.len(), 1, "expected one paragraph: {rendered:?}");
    rendered.pop().map(|block| block.runs).unwrap_or_default()
}

#[test]
/// Each mark reaches its run, and only the text it wraps.
fn emphasis_marks_the_text_it_wraps() {
    let runs = only("plain **bold** *italic* ~~gone~~ `code`");
    for (mark, text) in [
        ("<w:b/>", "bold"),
        ("<w:i/>", "italic"),
        ("<w:strike/>", "gone"),
        (r#"<w:rStyle w:val="Code"/>"#, "code"),
    ] {
        let expected = format!(
            r#"<w:r><w:rPr>{mark}</w:rPr><w:t xml:space="preserve">{text}</w:t></w:r>"#
        );
        assert!(runs.contains(&expected), "no {mark} run for {text}: {runs}");
    }
    assert!(
        runs.contains(r#"<w:r><w:t xml:space="preserve">plain </w:t></w:r>"#),
        "unmarked text gained properties: {runs}"
    );
}

#[test]
/// Nested marks of *different* kinds combine on the inner run.
fn nested_marks_combine_on_one_run() {
    let runs = only("**bold *and italic* bold**");
    assert!(
        runs.contains(
            r#"<w:rPr><w:b/><w:i/></w:rPr><w:t xml:space="preserve">and italic</w:t>"#
        ),
        "{runs}"
    );
    // The bold must survive the italic closing, or the tail loses it.
    assert!(
        runs.contains(r#"<w:rPr><w:b/></w:rPr><w:t xml:space="preserve"> bold</w:t>"#),
        "bold did not survive the nested italic: {runs}"
    );
}

#[test]
/// Nested marks of the *same* kind do not cancel. `CommonMark` nests them,
/// so a flag flipped per event would leave `****very****` unemphasised
/// and the inner word of `**a __b__ c**` the only plain one on the line.
fn same_kind_nesting_does_not_cancel() {
    for (source, mark) in [
        ("****very****", "<w:b/>"),
        ("**outer __inner__ tail**", "<w:b/>"),
        ("*a _b_ c*", "<w:i/>"),
        ("~~a ~~b~~ c~~", "<w:strike/>"),
    ] {
        let runs = only(source);
        assert!(runs.contains(mark), "{source} lost {mark}: {runs}");
        assert!(
            !runs.contains(r#"<w:r><w:t xml:space="preserve">"#),
            "{source} left a run unmarked: {runs}"
        );
    }
}

#[test]
/// `w:rPr` children are a sequence. Word rejects a document that writes
/// them in any other order, and `xmllint --noout` cannot see it.
fn run_properties_are_written_in_schema_order() {
    let runs = only("**~~*`all four`*~~**");
    assert!(
        runs.contains(r#"<w:rPr><w:rStyle w:val="Code"/><w:b/><w:i/><w:strike/></w:rPr>"#),
        "{runs}"
    );
}

#[test]
/// A code span is literal: the marks inside it are text, not formatting.
fn a_code_span_does_not_re_enter_markdown() {
    let runs = only("`**not bold**`");
    assert!(runs.contains(">**not bold**<"), "{runs}");
    assert!(!runs.contains("<w:b/>"), "{runs}");
}

#[test]
/// Inline math becomes real OOXML math, not the LaTeX source.
fn inline_math_becomes_omml() {
    let runs = only(r"the cost is $O(n^2)$ here");
    assert!(runs.contains("<m:oMath>"), "{runs}");
    assert!(!runs.contains("O(n^2)"), "LaTeX source leaked: {runs}");
    assert!(
        runs.contains(r#"<w:t xml:space="preserve"> here</w:t>"#),
        "text after the math was lost: {runs}"
    );
}

#[test]
/// Display math alone in a paragraph reports itself as an equation, and
/// `centred` is what sets it apart — never the runs, which a caller may
/// have to put a question number in front of.
fn display_math_alone_is_an_equation() {
    let mut rendered = rendered(r"$$\frac{a}{b}$$").expect("renders");
    let block = rendered.pop().expect("one paragraph");
    assert!(matches!(block.kind, Kind::Equation), "{block:?}");
    assert!(!block.runs.contains("oMathPara"), "{block:?}");
    assert!(block.centred().starts_with("<m:oMathPara>"), "{block:?}");
}

#[test]
/// Display math written mid-sentence is not an equation paragraph:
/// `m:oMathPara` centres the whole paragraph, so it would drag the
/// surrounding words into the middle of the page.
fn display_math_mid_sentence_stays_in_the_sentence() {
    let mut rendered = rendered(r"Evaluate $$\frac{a}{b}$$ now.").expect("renders");
    let block = rendered.pop().expect("one paragraph");
    assert!(matches!(block.kind, Kind::Prose), "{block:?}");
    assert!(!block.centred().contains("oMathPara"), "{block:?}");
}

#[test]
/// Math that cannot be converted fails the export. It is the one thing
/// never degraded to source: a formula that printed as `\frac{a}{b}`
/// still looks like a question the student must answer.
fn unconvertible_math_is_an_error() {
    let refused = rendered(r"$\begin{unknown}x\end{unknown}$");
    assert!(
        matches!(refused, Err(Error::UnsupportedMath { .. })),
        "{refused:?}"
    );
}


#[test]
/// The refusal does not depend on word order. Converting math as the
/// walk reached it, then discovering the link afterwards, made the same
/// content export or fail depending on which came first.
fn refusal_does_not_depend_on_word_order() {
    let before = rendered(r"$x^2$ and [a](b)");
    let after = rendered(r"see [a](b) and $x^2$");
    assert!(
        matches!(before, Err(Error::UnsupportedMath { .. })),
        "{before:?}"
    );
    assert!(
        matches!(after, Err(Error::UnsupportedMath { .. })),
        "{after:?}"
    );
}


#[test]
/// A list becomes one paragraph per item, each carrying the numbering it
/// counts in rather than a marker typed into its text.
fn a_list_becomes_one_paragraph_per_item() {
    let rendered = rendered("- first\n- second").expect("renders");
    assert_eq!(rendered.len(), 2, "{rendered:?}");
    for block in &rendered {
        assert!(
            matches!(block.kind, Kind::Item(Item { level: 0, .. })),
            "{block:?}"
        );
        assert!(!block.runs.contains('-'), "the marker is text: {block:?}");
    }
}


#[test]
/// A nested list is the same list one level deeper, not a new one.
/// Bullets carry no counter, so every bulleted list shares a `w:numId`.
fn a_nested_list_goes_one_level_deeper() {
    let rendered = rendered("- outer\n  - inner\n- back").expect("renders");
    let levels: Vec<u8> = rendered
        .iter()
        .filter_map(|block| match block.kind {
            Kind::Item(Item { level, .. }) => Some(level),
            _ => None,
        })
        .collect();
    assert_eq!(levels, [0, 1, 0], "{rendered:?}");
}

#[test]
/// Only the first paragraph of an item is marked. Marking the rest
/// prints an item's own second paragraph as a second item.
fn only_an_items_first_paragraph_carries_the_marker() {
    let rendered = rendered("- para one\n\n  para two").expect("renders");
    let marks: Vec<bool> = rendered
        .iter()
        .filter_map(|block| match block.kind {
            Kind::Item(Item { marked, .. }) => Some(marked),
            _ => None,
        })
        .collect();
    assert_eq!(marks, [true, false], "{rendered:?}");
}

#[test]
/// An empty item still gets a paragraph to hang its marker on. Dropping
/// it shortens the list — and in a numbered one renumbers everything
/// after it, so `1.` `2. second` prints "second" as item 1.
fn an_empty_item_keeps_its_place() {
    let rendered = rendered("1.\n2. second\n3. third").expect("renders");
    assert_eq!(rendered.len(), 3, "{rendered:?}");
    assert!(
        rendered
            .iter()
            .all(|block| matches!(block.kind, Kind::Item(Item { marked: true, .. }))),
        "{rendered:?}"
    );
}

#[test]
/// An item holding nothing but a nested list keeps its own marker, at
/// its own level, before the nested one.
fn an_item_holding_only_a_nested_list_keeps_its_marker() {
    let rendered = rendered("-\n  - inner").expect("renders");
    let levels: Vec<u8> = rendered
        .iter()
        .filter_map(|block| match block.kind {
            Kind::Item(Item { level, .. }) => Some(level),
            _ => None,
        })
        .collect();
    assert_eq!(levels, [0, 1], "{rendered:?}");
}

#[test]
/// An ordered list authored as `5.` starts at five. The parser reports the
/// authored value and the writer has to carry it through to a
/// `w:startOverride`; dropping it renumbers the list to start at 1, which
/// looks deliberate on the page.
fn an_authored_start_value_reaches_the_numbering() {
    let images: Vec<(String, Vec<u8>)> = Vec::new();
    let mut refs = Refs::new(&images);
    paragraphs("5. five\n6. six", &mut refs).expect("renders");
    let xml = refs.numbering.to_xml();
    assert!(xml.contains(r#"<w:startOverride w:val="5"/>"#), "{xml}");
}

/// The `w:ilvl` of every list-item paragraph in `blocks`, in order.
fn levels_of(blocks: &[Paragraph]) -> Vec<u8> {
    blocks
        .iter()
        .filter_map(|block| match block.kind {
            Kind::Item(Item { level, .. }) => Some(level),
            _ => None,
        })
        .collect()
}

#[test]
/// Nesting deeper than Word allows clamps onto the deepest defined level
/// — and *only* the levels past it. An item naming a level the numbering
/// part does not define loses its marker *and* its indent, printing flush
/// against the margin. The levels are asserted in full rather than as
/// `level <= MAX_LEVEL`, which a clamp that flattened every level onto 0
/// would satisfy just as well while losing the shape of the list.
fn nesting_deeper_than_word_allows_clamps_only_past_the_deepest() {
    let deep = (0..12).fold(String::new(), |mut source, depth| {
        source.push_str(&" ".repeat(depth * 2));
        source.push_str("- item\n");
        source
    });
    let levels = levels_of(&rendered(&deep).expect("renders"));
    assert_eq!(levels, [0, 1, 2, 3, 4, 5, 6, 7, 8, 8, 8, 8]);
    assert!(levels.iter().all(|level| *level <= MAX_LEVEL));
}

#[test]
/// An item's text *after* a nested list is still that item's second
/// paragraph, not a new item. The marker state has to survive the
/// recursion into the nested list; resetting it there prints a second
/// marker halfway down the item.
fn text_after_a_nested_list_is_still_the_same_item() {
    let blocks = rendered("- outer\n\n  - inner\n\n  back to outer").expect("renders");
    let shape: Vec<(u8, bool)> = blocks
        .iter()
        .filter_map(|block| match block.kind {
            Kind::Item(Item { level, marked, .. }) => Some((level, marked)),
            _ => None,
        })
        .collect();
    assert_eq!(shape, [(0, true), (1, true), (0, false)], "{blocks:?}");
}

#[test]
/// An item that cannot be rendered sends the *outer* list back to source
/// too, not just the list it sits in. Laying out the outer bullets around
/// a nested list printed as `- see [a](b)` would read as an item whose
/// text happens to begin with a dash.
fn a_bad_nested_item_falls_the_whole_outer_list_back() {
    let blocks = rendered("- outer\n\n  - see [a](b)").expect("renders");
    let block = blocks.first().expect("one paragraph");
    assert_eq!(blocks.len(), 1, "{blocks:?}");
    assert!(matches!(block.kind, Kind::Prose), "{block:?}");
    assert!(block.runs.contains("- outer"), "{block:?}");
    assert!(
        block.runs.contains("[a](b)"),
        "the nested list was lost: {block:?}"
    );
}

#[test]
/// A list item renders its own inline marks and math, which is the whole
/// point of laying lists out rather than printing them as source.
fn a_list_item_renders_its_inline_content() {
    let rendered = rendered("- solve $x^2$ **now**").expect("renders");
    let item = rendered.first().expect("one item");
    assert!(item.runs.contains("<m:oMath>"), "{item:?}");
    assert!(item.runs.contains("<w:b/>"), "{item:?}");
}

#[test]
/// One unrenderable item sends the *whole* list back to source. Half a
/// list laid out and half printed as Markdown is worse than either.
fn one_bad_item_falls_the_whole_list_back() {
    let rendered = rendered("- fine\n- see [link](u)").expect("renders");
    assert_eq!(rendered.len(), 1, "{rendered:?}");
    let block = rendered.first().expect("one paragraph");
    assert!(matches!(block.kind, Kind::Prose), "{block:?}");
    assert!(block.runs.contains(">- fine<"), "{block:?}");
}


#[test]
/// An indented code block keeps its indent. The parser reports the block
/// from its *content*, so slicing that span alone de-indents the first
/// line — and alignment is the one thing this fallback exists to keep.
fn an_indented_code_block_keeps_its_indent() {
    let runs = only("    let x = 1;\n    let y = 2;");
    assert_eq!(runs.matches(">    let").count(), 2, "{runs}");
}

#[test]
/// Widening a block to its line start must not widen it to the
/// *document* start: a block after a paragraph would then reprint
/// everything before it.
fn widening_a_block_does_not_swallow_what_precedes_it() {
    let rendered = rendered("intro\n\n    let x = 1;").expect("renders");
    assert_eq!(rendered.len(), 2, "{rendered:?}");
    let code = rendered.last().expect("two paragraphs");
    assert!(code.runs.contains(">    let x = 1;<"), "{code:?}");
    assert!(
        !code.runs.contains("intro"),
        "the paragraph reprinted: {code:?}"
    );
}


#[test]
/// A gap between two blocks starts with the newline that ended the last
/// one. Printing it would open the paragraph with a blank line the
/// author never wrote.
fn a_gap_does_not_open_with_a_blank_line() {
    let rendered = rendered("a\n\n[ref]: https://a.example\n\nb").expect("renders");
    assert_eq!(rendered.len(), 3, "{rendered:?}");
    let gap = rendered.get(1).expect("three paragraphs");
    assert!(gap.runs.starts_with("<w:r><w:t"), "leading break: {gap:?}");
}

#[test]
/// An unsupported *inline* construct falls the whole paragraph back, so
/// the image reference is still visible rather than silently dropped.
fn an_unsupported_inline_falls_the_paragraph_back() {
    let runs = only("see ![alt](plot.png) for the shape");
    assert!(runs.contains("![alt](plot.png)"), "{runs}");
}

#[test]
/// A link reference definition is printed even though the parser reports
/// no event for it at all. Links themselves fall back to source, so
/// losing the definition would leave the address nowhere on the sheet.
fn a_link_reference_definition_is_not_lost() {
    let rendered =
        rendered("See [the syllabus][syl].\n\n[syl]: https://a.example/s").expect("renders");
    let printed: String = rendered.iter().map(|block| block.runs.clone()).collect();
    assert!(printed.contains("[the syllabus][syl]"), "{rendered:?}");
    assert!(printed.contains("https://a.example/s"), "{rendered:?}");
}

#[test]
/// A heading is a heading, not a paragraph beginning with a hash.
fn headings_carry_their_level() {
    let kinds: Vec<String> = rendered("# One\n\n### Three\n\nprose")
        .expect("renders")
        .iter()
        .map(|block| format!("{:?}", block.kind))
        .collect();
    assert_eq!(kinds, ["Heading(1)", "Heading(3)", "Prose"]);
}

#[test]
/// A heading renders its own inline marks, and not the `#` markers.
fn a_heading_renders_its_inline_marks() {
    let runs = only("## Part *two*");
    assert!(runs.contains(r#"<w:rPr><w:i/></w:rPr><w:t xml:space="preserve">two</w:t>"#));
    assert!(!runs.contains('#'), "the marker reached the page: {runs}");
}

#[test]
/// A heading that falls back prints its markers, so it is no longer set
/// as a heading — the `##` on the page would be a heading twice over.
fn a_heading_that_falls_back_is_not_a_heading() {
    let mut rendered = rendered("## See ![fig](f.png)").expect("renders");
    let block = rendered.pop().expect("one paragraph");
    assert!(matches!(block.kind, Kind::Prose), "{block:?}");
    assert!(block.runs.contains("## See"), "{block:?}");
}

#[test]
/// A wrapped source line is one paragraph, so the wrap is a space; an
/// authored hard break is not, so it keeps its line.
fn soft_breaks_reflow_and_hard_breaks_do_not() {
    assert!(!only("line one\nline two").contains("<w:br/>"));
    // Carries a mark so the assertion cannot be satisfied by the literal
    // fallback, which emits a break run of its own for every line.
    let hard = only("line **one**  \nline two");
    assert!(hard.contains("<w:r><w:br/></w:r>"), "{hard}");
    assert!(hard.contains("<w:b/>"), "the paragraph fell back: {hard}");
}

#[test]
/// A block with no inline structure of its own still prints. A rule that
/// silently vanished would leave the instructor nothing to notice it by.
fn a_rule_prints_as_its_source() {
    assert!(only("***").contains(">***<"));
}

#[test]
/// Raw HTML is escaped text, not markup: a `<div>` in a prompt cannot
/// reach the document as an element.
fn raw_html_is_printed_escaped() {
    let runs = only("<div>see the handout</div>");
    assert!(runs.contains("see the handout"), "{runs}");
    assert!(
        runs.contains("&lt;div&gt;"),
        "raw HTML was interpreted: {runs}"
    );
}

#[test]
/// Blank-line-separated blocks stay separate paragraphs.
fn blocks_are_separate_paragraphs() {
    assert_eq!(rendered("one\n\ntwo").expect("renders").len(), 2);
}

#[test]
/// A `\r` cannot survive in `<w:t>`: XML line-ending normalisation
/// rewrites it on read, so the document would not round-trip itself.
fn carriage_returns_do_not_reach_the_document() {
    let rendered = rendered("one\r\n\r\ntwo\rthree").expect("renders");
    assert_eq!(rendered.len(), 2, "{rendered:?}");
    assert!(
        rendered.iter().all(|block| !block.runs.contains('\r')),
        "{rendered:?}"
    );
}

#[test]
/// Authored markup is escaped on both paths — through runs and through
/// the literal fallback.
fn text_is_escaped_on_both_paths() {
    assert!(only("a **&** b").contains("&amp;"));
    assert!(only("- a & b").contains("&amp;"));
}

#[test]
/// Empty input renders nothing at all, rather than a stray blank line.
fn empty_markdown_renders_no_paragraphs() {
    assert!(rendered("").expect("renders").is_empty());
    assert!(rendered("   \n\n  ").expect("renders").is_empty());
}

#[test]
/// A block with no math is not refused — only math is undegradable.
fn a_literal_block_without_math_is_fine() {
    assert!(only("| a | b |\n|---|---|").contains(">| a | b |<"));
}

#[test]
/// A pipe table keeps its rows on separate lines, which is the whole of
/// what makes it readable as a table.
fn a_table_falls_back_line_by_line() {
    let runs = only("| a | b |\n|---|---|\n| 1 | 2 |");
    assert_eq!(runs.matches("<w:r><w:br/></w:r>").count(), 2, "{runs}");
    assert!(runs.contains(">| a | b |<"), "{runs}");
}

#[test]
/// …nor to the middle of the line before. A list may interrupt a
/// paragraph with no blank line between them, and an off-by-one here drags
/// the last letter of the paragraph onto the list.
fn widening_a_block_starts_at_a_line_boundary() {
    let rendered = rendered("text\n| a |\n|---|\n| b |").expect("renders");
    assert_eq!(rendered.len(), 2, "{rendered:?}");
    let table = rendered.last().expect("two paragraphs");
    assert!(
        table
            .runs
            .starts_with(r#"<w:r><w:t xml:space="preserve">| a |</w:t>"#),
        "the paragraph bled into the table: {table:?}"
    );
}
