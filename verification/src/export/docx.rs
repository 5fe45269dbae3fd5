//! An [`Exam`] rendered as a Word (`.docx`) document for printing.
//!
//! A `.docx` is a zip of XML parts, built as bytes through the shared
//! [`crate::export::zip_package`]. This module owns the container: the parts a
//! Word document must have before any question appears, and the page
//! furniture that is the same on every sheet. Authored content is delegated:
//! [`inline`] renders Markdown to paragraphs, [`omml`] MathML to math,
//! [`numbering`] owns the list definitions and [`media`] the pictures.
//!
//! Word refuses a package outright rather than degrading, so every part is
//! load-bearing: `[Content_Types].xml` declares a type for every part, every
//! `r:id` the document uses resolves in its relationships, `w:sectPr` is the
//! last child of `w:body`, and `w:pPr` children come in schema order.
pub mod inline;
pub mod media;
pub mod numbering;
pub mod omml;

use crate::error::Error;
use crate::export::docx::inline::{
    para_view, paragraphs, paragraphs_spec, paras_view, refused_with, registry, run_spec, same_sources, text_run, Kind,
    Paragraph, ParagraphView, ParasOutcome, Refs, Registry, CODE_STYLE,
};
use crate::export::docx::numbering::{item_indent_spec, item_marker_spec, numbering_xml_spec, Item, W_NS};
use crate::export::docx::media::relationships_spec;
use crate::export::{files_view, zip_archive};
use vstd::utf8::encode_utf8;
use crate::quiz::{template_key_spec, title_spec, Exam, ExamItem, TemplateKey, TEMPLATE_CLOSE, TEMPLATE_OPEN};
use crate::text::{
    decimal_spec, extend_str, find_next, first_occurrence, lemma_first_occurrence, push_decimal, slice_chars,
    str_chars, string_from_chars, trim_spec, trim_str,
};
use vstd::prelude::*;

verus! {

/// The OOXML math namespace.
pub const M_NS: &'static str = "http://schemas.openxmlformats.org/officeDocument/2006/math";

/// The relationship namespace, used for `r:id` references.
pub const R_NS: &'static str = "http://schemas.openxmlformats.org/officeDocument/2006/relationships";

/// The word-processing drawing namespace the pictures' `wp:` elements use.
pub const WP_NS: &'static str = "http://schemas.openxmlformats.org/drawingml/2006/wordprocessingDrawing";

/// The relationship id of the page footer.
pub const FOOTER_REL: &'static str = "rIdFooter";

/// US Letter height, in twips.
pub const PAGE_HEIGHT: u32 = 15840;

/// US Letter's width, in twips.
pub const PAGE_WIDTH: u32 = 12240;

/// One-inch page margins, in twips.
pub const MARGIN: u32 = 1440;

/// Twips per blank line of answer space: a little over Word's single line
/// for 11pt Calibri, so a requested line is genuinely a line to write on.
pub const TWIPS_PER_LINE: u32 = 320;

/// Distance from the page edge to the header and footer.
pub const EDGE_GAP: u32 = 720;

/// The tallest answer block that can be laid out: the page's text column. A
/// line box taller than the column cannot be placed on any page.
pub const MAX_ANSWER_TWIPS: u32 = PAGE_HEIGHT - 2 * MARGIN;

/// Every part's content type; a part missing from here makes Word reject
/// the whole package.
pub const CONTENT_TYPES: &'static str = "<?xml version=\"1.0\" encoding=\"UTF-8\" standalone=\"yes\"?><Types xmlns=\"http://schemas.openxmlformats.org/package/2006/content-types\"><Default Extension=\"rels\" ContentType=\"application/vnd.openxmlformats-package.relationships+xml\"/><Default Extension=\"xml\" ContentType=\"application/xml\"/><Default Extension=\"png\" ContentType=\"image/png\"/><Override PartName=\"/word/document.xml\" ContentType=\"application/vnd.openxmlformats-officedocument.wordprocessingml.document.main+xml\"/><Override PartName=\"/word/styles.xml\" ContentType=\"application/vnd.openxmlformats-officedocument.wordprocessingml.styles+xml\"/><Override PartName=\"/word/numbering.xml\" ContentType=\"application/vnd.openxmlformats-officedocument.wordprocessingml.numbering+xml\"/><Override PartName=\"/word/settings.xml\" ContentType=\"application/vnd.openxmlformats-officedocument.wordprocessingml.settings+xml\"/><Override PartName=\"/word/footer1.xml\" ContentType=\"application/vnd.openxmlformats-officedocument.wordprocessingml.footer+xml\"/></Types>";

/// The package-level relationship: where the main document lives.
pub const ROOT_RELS: &'static str = "<?xml version=\"1.0\" encoding=\"UTF-8\" standalone=\"yes\"?><Relationships xmlns=\"http://schemas.openxmlformats.org/package/2006/relationships\"><Relationship Id=\"rId1\" Type=\"http://schemas.openxmlformats.org/officeDocument/2006/relationships/officeDocument\" Target=\"word/document.xml\"/></Relationships>";

/// Document settings, carrying the math font once for every equation.
pub const SETTINGS: &'static str = "<?xml version=\"1.0\" encoding=\"UTF-8\" standalone=\"yes\"?><w:settings xmlns:w=\"http://schemas.openxmlformats.org/wordprocessingml/2006/main\" xmlns:m=\"http://schemas.openxmlformats.org/officeDocument/2006/math\"><m:mathPr><m:mathFont m:val=\"Cambria Math\"/></m:mathPr></w:settings>";

/// The `w:pPr` tags that hold a paragraph to the one after it.
pub const STICKY: &'static str = "<w:keepNext/><w:keepLines/>";

/// What the document part references: styles, numbering, settings, the
/// footer, and each picture. Every `r:id` in `document.xml` must appear.
pub open spec fn document_rels_spec(images: Seq<char>) -> Seq<char> {
    "<?xml version=\"1.0\" encoding=\"UTF-8\" standalone=\"yes\"?><Relationships xmlns=\"http://schemas.openxmlformats.org/package/2006/relationships\"><Relationship Id=\"rIdStyles\" Type=\""@
        + R_NS@ + "/styles\" Target=\"styles.xml\"/><Relationship Id=\"rIdNumbering\" Type=\""@
        + R_NS@ + "/numbering\" Target=\"numbering.xml\"/><Relationship Id=\"rIdSettings\" Type=\""@
        + R_NS@ + "/settings\" Target=\"settings.xml\"/><Relationship Id=\""@ + FOOTER_REL@
        + "\" Type=\""@ + R_NS@ + "/footer\" Target=\"footer1.xml\"/>"@ + images
        + "</Relationships>"@
}

/// The document part's relationships, with the pictures' entries spliced in.
pub fn document_rels(images: &str) -> (res: String)
    ensures
        res@ == document_rels_spec(images@),
{
    let mut out: Vec<char> = Vec::new();
    extend_str(&mut out, "<?xml version=\"1.0\" encoding=\"UTF-8\" standalone=\"yes\"?><Relationships xmlns=\"http://schemas.openxmlformats.org/package/2006/relationships\"><Relationship Id=\"rIdStyles\" Type=\"");
    extend_str(&mut out, R_NS);
    extend_str(&mut out, "/styles\" Target=\"styles.xml\"/><Relationship Id=\"rIdNumbering\" Type=\"");
    extend_str(&mut out, R_NS);
    extend_str(&mut out, "/numbering\" Target=\"numbering.xml\"/><Relationship Id=\"rIdSettings\" Type=\"");
    extend_str(&mut out, R_NS);
    extend_str(&mut out, "/settings\" Target=\"settings.xml\"/><Relationship Id=\"");
    extend_str(&mut out, FOOTER_REL);
    extend_str(&mut out, "\" Type=\"");
    extend_str(&mut out, R_NS);
    extend_str(&mut out, "/footer\" Target=\"footer1.xml\"/>");
    extend_str(&mut out, images);
    extend_str(&mut out, "</Relationships>");
    assert(out@ =~= document_rels_spec(images@));
    string_from_chars(&out)
}

/// One paragraph style based on `Normal`.
pub open spec fn paragraph_style_spec(id: Seq<char>, name: Seq<char>, properties: Seq<char>, run_properties: Seq<char>) -> Seq<char> {
    "<w:style w:type=\"paragraph\" w:styleId=\""@ + id + "\"><w:name w:val=\""@ + name
        + "\"/><w:basedOn w:val=\"Normal\"/><w:pPr>"@ + properties + "</w:pPr><w:rPr>"@
        + run_properties + "</w:rPr></w:style>"@
}

/// One paragraph style based on `Normal`.
pub fn paragraph_style(id: &str, name: &str, properties: &str, run_properties: &str) -> (res: String)
    ensures
        res@ == paragraph_style_spec(id@, name@, properties@, run_properties@),
{
    let mut out: Vec<char> = Vec::new();
    extend_str(&mut out, "<w:style w:type=\"paragraph\" w:styleId=\"");
    extend_str(&mut out, id);
    extend_str(&mut out, "\"><w:name w:val=\"");
    extend_str(&mut out, name);
    extend_str(&mut out, "\"/><w:basedOn w:val=\"Normal\"/><w:pPr>");
    extend_str(&mut out, properties);
    extend_str(&mut out, "</w:pPr><w:rPr>");
    extend_str(&mut out, run_properties);
    extend_str(&mut out, "</w:rPr></w:style>");
    assert(out@ =~= paragraph_style_spec(id@, name@, properties@, run_properties@));
    string_from_chars(&out)
}

/// The built-in style id of heading level `index + 1` (of three).
pub open spec fn heading_id(index: nat) -> Seq<char> {
    if index == 0 { "Heading1"@ } else if index == 1 { "Heading2"@ } else { "Heading3"@ }
}

/// The half-point size of heading level `index + 1`: 14pt, 13pt, 12pt.
pub open spec fn heading_size(index: nat) -> nat {
    if index == 0 { 28 } else if index == 1 { 26 } else { 24 }
}

/// The definition of heading level `index + 1`: its built-in id and
/// `heading n` name (so Word matches it to the built-in heading), kept with
/// what follows, outline level `index`.
pub open spec fn heading_definition(index: nat) -> Seq<char> {
    paragraph_style_spec(
        heading_id(index),
        "heading "@ + decimal_spec(index + 1),
        "<w:keepNext/><w:spacing w:before=\"240\" w:after=\"120\"/><w:outlineLvl w:val=\""@
            + decimal_spec(index) + "\"/>"@,
        "<w:b/><w:sz w:val=\""@ + decimal_spec(heading_size(index)) + "\"/>"@,
    )
}

/// Document defaults plus the named styles the writers rely on: `Normal`,
/// the code face, the title, and three heading levels.
pub open spec fn styles_spec() -> Seq<char> {
    "<?xml version=\"1.0\" encoding=\"UTF-8\" standalone=\"yes\"?><w:styles xmlns:w=\"http://schemas.openxmlformats.org/wordprocessingml/2006/main\"><w:docDefaults><w:rPrDefault><w:rPr><w:rFonts w:ascii=\"Calibri\" w:hAnsi=\"Calibri\" w:cs=\"Calibri\"/><w:sz w:val=\"22\"/><w:szCs w:val=\"22\"/></w:rPr></w:rPrDefault></w:docDefaults><w:style w:type=\"paragraph\" w:default=\"1\" w:styleId=\"Normal\"><w:name w:val=\"Normal\"/></w:style><w:style w:type=\"character\" w:styleId=\""@
        + CODE_STYLE@ + "\"><w:name w:val=\""@ + CODE_STYLE@
        + "\"/><w:rPr><w:rFonts w:ascii=\"Consolas\" w:hAnsi=\"Consolas\" w:cs=\"Consolas\"/></w:rPr></w:style>"@
        + paragraph_style_spec("Title"@, "Title"@, "<w:spacing w:after=\"240\"/><w:jc w:val=\"center\"/>"@, "<w:b/><w:sz w:val=\"32\"/>"@)
        + heading_definition(0) + heading_definition(1) + heading_definition(2) + "</w:styles>"@
}

fn heading_definition_exec(index: usize) -> (res: String)
    requires
        index < 3,
    ensures
        res@ == heading_definition(index as nat),
{
    let id = if index == 0 { "Heading1" } else if index == 1 { "Heading2" } else { "Heading3" };
    let size: u64 = if index == 0 { 28 } else if index == 1 { 26 } else { 24 };
    let mut name: Vec<char> = Vec::new();
    extend_str(&mut name, "heading ");
    push_decimal(&mut name, (index + 1) as u64);
    let mut properties: Vec<char> = Vec::new();
    extend_str(&mut properties, "<w:keepNext/><w:spacing w:before=\"240\" w:after=\"120\"/><w:outlineLvl w:val=\"");
    push_decimal(&mut properties, index as u64);
    extend_str(&mut properties, "\"/>");
    let mut run: Vec<char> = Vec::new();
    extend_str(&mut run, "<w:b/><w:sz w:val=\"");
    push_decimal(&mut run, size);
    extend_str(&mut run, "\"/>");
    let name = string_from_chars(&name);
    let properties = string_from_chars(&properties);
    let run = string_from_chars(&run);
    paragraph_style(id, name.as_str(), properties.as_str(), run.as_str())
}

/// Document defaults plus the named styles the writers rely on.
pub fn styles() -> (res: String)
    ensures
        res@ == styles_spec(),
{
    let mut out: Vec<char> = Vec::new();
    extend_str(&mut out, "<?xml version=\"1.0\" encoding=\"UTF-8\" standalone=\"yes\"?><w:styles xmlns:w=\"http://schemas.openxmlformats.org/wordprocessingml/2006/main\"><w:docDefaults><w:rPrDefault><w:rPr><w:rFonts w:ascii=\"Calibri\" w:hAnsi=\"Calibri\" w:cs=\"Calibri\"/><w:sz w:val=\"22\"/><w:szCs w:val=\"22\"/></w:rPr></w:rPrDefault></w:docDefaults><w:style w:type=\"paragraph\" w:default=\"1\" w:styleId=\"Normal\"><w:name w:val=\"Normal\"/></w:style><w:style w:type=\"character\" w:styleId=\"");
    extend_str(&mut out, CODE_STYLE);
    extend_str(&mut out, "\"><w:name w:val=\"");
    extend_str(&mut out, CODE_STYLE);
    extend_str(&mut out, "\"/><w:rPr><w:rFonts w:ascii=\"Consolas\" w:hAnsi=\"Consolas\" w:cs=\"Consolas\"/></w:rPr></w:style>");
    let title = paragraph_style("Title", "Title", "<w:spacing w:after=\"240\"/><w:jc w:val=\"center\"/>", "<w:b/><w:sz w:val=\"32\"/>");
    extend_str(&mut out, title.as_str());
    extend_str(&mut out, heading_definition_exec(0).as_str());
    extend_str(&mut out, heading_definition_exec(1).as_str());
    extend_str(&mut out, heading_definition_exec(2).as_str());
    extend_str(&mut out, "</w:styles>");
    assert(out@ =~= styles_spec());
    string_from_chars(&out)
}

/// The style id for a Markdown heading at `level`, the levels past the
/// third clamped onto it: a `w:pStyle` naming an undefined style is ignored,
/// and the heading would print as body text.
pub open spec fn heading_style_spec(level: u8) -> Seq<char> {
    if level <= 1 { heading_id(0) } else if level == 2 { heading_id(1) } else { heading_id(2) }
}

/// The style id for a Markdown heading at `level`.
pub fn heading_style(level: u8) -> (res: &'static str)
    ensures
        res@ == heading_style_spec(level),
{
    if level <= 1 { "Heading1" } else if level == 2 { "Heading2" } else { "Heading3" }
}

/// The `w:pPr` of one list-item paragraph: `keepNext`/`keepLines` when
/// sticky, the marker (a marked item), spacing, then the hand-written indent
/// (an unmarked one), in the `CT_PPrBase` order.
pub open spec fn item_properties_spec(item: Item, sticky: bool) -> Seq<char> {
    (if sticky { STICKY@ } else { Seq::empty() }) + item_marker_spec(item)
        + "<w:spacing w:after=\"60\"/>"@ + item_indent_spec(item)
}

/// The `w:pPr` of one list-item paragraph.
pub fn item_properties(item: Item, sticky: bool) -> (res: String)
    ensures
        res@ == item_properties_spec(item, sticky),
{
    let mut out: Vec<char> = Vec::new();
    if sticky {
        extend_str(&mut out, STICKY);
    }
    extend_str(&mut out, item.marker().as_str());
    extend_str(&mut out, "<w:spacing w:after=\"60\"/>");
    extend_str(&mut out, item.indent().as_str());
    assert(out@ =~= item_properties_spec(item, sticky));
    string_from_chars(&out)
}

/// How a paragraph is presented.
#[derive(Debug, Clone, Copy)]
pub enum ParagraphStyle {
    /// The exam title, centred and large.
    Title,
    /// Ordinary prose.
    Body,
    /// A question prompt: kept with what follows so it does not straddle a
    /// page break.
    Question,
    /// A prompt's later paragraphs: kept with the first.
    Continuation,
    /// A Markdown heading, at the given level.
    Heading(u8),
    /// A list item, holding to the next paragraph when `sticky`.
    Item { item: Item, sticky: bool },
}

/// Whether a list item displacing `style` inherits its `w:keepNext`.
pub open spec fn is_sticky(style: ParagraphStyle) -> bool {
    style matches ParagraphStyle::Question || style matches ParagraphStyle::Continuation
}

/// `style`, or the one `kind` demands instead: a heading and a list item
/// bring their own `w:pPr`, the item inheriting stickiness.
pub open spec fn or_block_spec(style: ParagraphStyle, kind: Kind) -> ParagraphStyle {
    match kind {
        Kind::Heading(level) => ParagraphStyle::Heading(level),
        Kind::Item(item) => ParagraphStyle::Item { item, sticky: is_sticky(style) },
        _ => style,
    }
}

/// The `w:pPr` contents for a style, in schema order.
pub open spec fn style_properties(style: ParagraphStyle) -> Seq<char> {
    match style {
        ParagraphStyle::Title => "<w:pStyle w:val=\"Title\"/>"@,
        ParagraphStyle::Body => "<w:spacing w:after=\"120\"/>"@,
        ParagraphStyle::Question => STICKY@ + "<w:spacing w:before=\"240\"/>"@,
        ParagraphStyle::Continuation => STICKY@ + "<w:spacing w:before=\"120\" w:after=\"120\"/>"@,
        ParagraphStyle::Heading(level) => "<w:pStyle w:val=\""@ + heading_style_spec(level) + "\"/>"@,
        ParagraphStyle::Item { item, sticky } => item_properties_spec(item, sticky),
    }
}

impl ParagraphStyle {
    /// This style, or the one `kind` demands instead.
    pub fn or_block(self, kind: Kind) -> (res: ParagraphStyle)
        ensures
            res == or_block_spec(self, kind),
    {
        let sticky = match self {
            ParagraphStyle::Question => true,
            ParagraphStyle::Continuation => true,
            _ => false,
        };
        match kind {
            Kind::Heading(level) => ParagraphStyle::Heading(level),
            Kind::Item(item) => ParagraphStyle::Item { item, sticky },
            _ => self,
        }
    }

    /// The `w:pPr` contents for this style, in schema order.
    pub fn properties(self) -> (res: String)
        ensures
            res@ == style_properties(self),
    {
        match self {
            ParagraphStyle::Title => "<w:pStyle w:val=\"Title\"/>".to_string(),
            ParagraphStyle::Body => "<w:spacing w:after=\"120\"/>".to_string(),
            ParagraphStyle::Question => {
                let mut out: Vec<char> = Vec::new();
                extend_str(&mut out, STICKY);
                extend_str(&mut out, "<w:spacing w:before=\"240\"/>");
                string_from_chars(&out)
            },
            ParagraphStyle::Continuation => {
                let mut out: Vec<char> = Vec::new();
                extend_str(&mut out, STICKY);
                extend_str(&mut out, "<w:spacing w:before=\"120\" w:after=\"120\"/>");
                string_from_chars(&out)
            },
            ParagraphStyle::Heading(level) => {
                let mut out: Vec<char> = Vec::new();
                extend_str(&mut out, "<w:pStyle w:val=\"");
                extend_str(&mut out, heading_style(level));
                extend_str(&mut out, "\"/>");
                string_from_chars(&out)
            },
            ParagraphStyle::Item { item, sticky } => item_properties(item, sticky),
        }
    }
}

/// One paragraph holding already-rendered `runs`.
pub open spec fn paragraph_spec(runs: Seq<char>, style: ParagraphStyle) -> Seq<char> {
    "<w:p><w:pPr>"@ + style_properties(style) + "</w:pPr>"@ + runs + "</w:p>"@
}

/// One paragraph holding already-rendered `runs`.
pub fn paragraph(runs: &str, style: ParagraphStyle) -> (res: String)
    ensures
        res@ == paragraph_spec(runs@, style),
{
    let mut out: Vec<char> = Vec::new();
    extend_str(&mut out, "<w:p><w:pPr>");
    extend_str(&mut out, style.properties().as_str());
    extend_str(&mut out, "</w:pPr>");
    extend_str(&mut out, runs);
    extend_str(&mut out, "</w:p>");
    assert(out@ =~= paragraph_spec(runs@, style));
    string_from_chars(&out)
}

/// The exact line height of `lines` lines of answer space, capped at the
/// text column.
pub open spec fn answer_height(lines: nat) -> nat {
    if lines * 320 > MAX_ANSWER_TWIPS { MAX_ANSWER_TWIPS as nat } else { lines * 320 }
}

/// A blank run of `lines` for the student to write in: one empty paragraph
/// with an exact line height (an indivisible line box, so the room is never
/// split across a page), capped at the page's text column; nothing for zero
/// lines.
pub open spec fn answer_space_spec(lines: nat) -> Seq<char> {
    if lines == 0 {
        Seq::empty()
    } else {
        "<w:p><w:pPr><w:spacing w:line=\""@ + decimal_spec(answer_height(lines))
            + "\" w:lineRule=\"exact\" w:after=\"120\"/></w:pPr><w:r><w:t/></w:r></w:p>"@
    }
}

/// Answer space never outgrows the page's text column, so a line box is
/// always one a page can hold; below the cap each line is the same height.
pub proof fn answer_space_fits_the_column(lines: nat)
    ensures
        answer_height(lines) <= MAX_ANSWER_TWIPS,
        lines * 320 <= MAX_ANSWER_TWIPS ==> answer_height(lines) == lines * 320,
        MAX_ANSWER_TWIPS == PAGE_HEIGHT - 2 * MARGIN,
{
}

/// A blank run of `lines` for the student to write in.
pub fn answer_space(lines: usize) -> (res: String)
    ensures
        res@ == answer_space_spec(lines as nat),
{
    if lines == 0 {
        return String::new();
    }
    let height: u64 = if lines > (MAX_ANSWER_TWIPS / TWIPS_PER_LINE) as usize {
        MAX_ANSWER_TWIPS as u64
    } else {
        (lines as u64) * (TWIPS_PER_LINE as u64)
    };
    assert(height == answer_height(lines as nat)) by (nonlinear_arith)
        requires
            lines > 0,
            height == (if lines > 40 { 12960 } else { lines * 320 }),
    ;
    let mut out: Vec<char> = Vec::new();
    extend_str(&mut out, "<w:p><w:pPr><w:spacing w:line=\"");
    push_decimal(&mut out, height);
    extend_str(&mut out, "\" w:lineRule=\"exact\" w:after=\"120\"/></w:pPr><w:r><w:t/></w:r></w:p>");
    assert(out@ =~= answer_space_spec(lines as nat));
    string_from_chars(&out)
}

/// One field run (`PAGE`, `NUMPAGES`): begin marker, instruction, separator,
/// a cached value for readers that do not evaluate fields, end marker.
pub open spec fn field_run_spec(instruction: Seq<char>) -> Seq<char> {
    "<w:r><w:fldChar w:fldCharType=\"begin\"/></w:r><w:r><w:instrText xml:space=\"preserve\"> "@
        + instruction
        + " </w:instrText></w:r><w:r><w:fldChar w:fldCharType=\"separate\"/></w:r><w:r><w:t>1</w:t></w:r><w:r><w:fldChar w:fldCharType=\"end\"/></w:r>"@
}

/// One field run.
pub fn field_run(instruction: &str) -> (res: String)
    ensures
        res@ == field_run_spec(instruction@),
{
    let mut out: Vec<char> = Vec::new();
    extend_str(&mut out, "<w:r><w:fldChar w:fldCharType=\"begin\"/></w:r><w:r><w:instrText xml:space=\"preserve\"> ");
    extend_str(&mut out, instruction);
    extend_str(&mut out, " </w:instrText></w:r><w:r><w:fldChar w:fldCharType=\"separate\"/></w:r><w:r><w:t>1</w:t></w:r><w:r><w:fldChar w:fldCharType=\"end\"/></w:r>");
    assert(out@ =~= field_run_spec(instruction@));
    string_from_chars(&out)
}

/// The runs for one `${...}` placeholder: the name and variant as text,
/// the page and page count as fields, an unknown key as nothing (rather
/// than leaking its own name onto every page).
pub open spec fn placeholder_spec(key: Seq<char>, exam: Exam) -> Seq<char> {
    match template_key_spec(key) {
        Some(TemplateKey::Name) => run_spec(exam.name@, Seq::empty()),
        Some(TemplateKey::Variant) => run_spec(
            match exam.variant {
                Some(v) => v@,
                None => Seq::empty(),
            },
            Seq::empty(),
        ),
        Some(TemplateKey::Page) => field_run_spec("PAGE"@),
        Some(TemplateKey::Pages) => field_run_spec("NUMPAGES"@),
        None => Seq::empty(),
    }
}

/// The runs for one `${...}` placeholder.
pub fn placeholder_run(key: &str, exam: &Exam) -> (res: String)
    ensures
        res@ == placeholder_spec(key@, *exam),
{
    match TemplateKey::parse(key) {
        Some(TemplateKey::Name) => text_run(exam.name.as_str()),
        Some(TemplateKey::Variant) => match &exam.variant {
            Some(v) => text_run(v.as_str()),
            None => {
                let empty = String::new();
                text_run(empty.as_str())
            },
        },
        Some(TemplateKey::Page) => field_run("PAGE"),
        Some(TemplateKey::Pages) => field_run("NUMPAGES"),
        None => String::new(),
    }
}

/// What a page-footer template expands to: the text before the first `${`
/// as a text run; a terminated `${key}` as the runs of its trimmed key,
/// then the expansion of what follows; an unterminated `${` as a text run
/// of the marker itself and one of everything after it.
pub open spec fn footer_spec(template: Seq<char>, exam: Exam) -> Seq<char>
    decreases template.len(),
{
    match first_occurrence(template, "${"@) {
        None => run_spec(template, Seq::empty()),
        Some(at) => {
            let after = template.skip(at as int + 2);
            let before = run_spec(template.take(at as int), Seq::empty());
            match first_occurrence(after, "}"@) {
                None => before + run_spec("${"@, Seq::empty()) + run_spec(after, Seq::empty()),
                Some(end) => {
                    if at + 2 <= template.len() && end + 1 <= after.len() {
                        before + placeholder_spec(trim_spec(after.take(end as int)), exam)
                            + footer_spec(after.skip(end as int + 1), exam)
                    } else {
                        Seq::empty()
                    }
                },
            }
        },
    }
}

/// A footer template with no `${` is printed as it is written: one text
/// run. Placeholders are the only thing a template substitutes.
pub proof fn a_plain_footer_is_printed_as_written(template: Seq<char>, exam: Exam)
    requires
        first_occurrence(template, "${"@) is None,
    ensures
        footer_spec(template, exam) == run_spec(template, Seq::empty()),
{
}

/// An unknown placeholder prints nothing, rather than its own name on every
/// page.
pub proof fn an_unknown_placeholder_prints_nothing(key: Seq<char>, exam: Exam)
    requires
        template_key_spec(key) is None,
    ensures
        placeholder_spec(key, exam) == Seq::<char>::empty(),
{
}

/// Expand the template from `rest` on, appending to `runs`.
#[verifier::spinoff_prover]
fn footer_from(chars: &Vec<char>, rest: usize, exam: &Exam, runs: &mut Vec<char>)
    requires
        rest <= chars@.len(),
    ensures
        final(runs)@ == old(runs)@ + footer_spec(chars@.skip(rest as int), *exam),
    decreases chars@.len() - rest,
{
    let ghost tail = chars@.skip(rest as int);
    let open = str_chars(TEMPLATE_OPEN);
    let close = str_chars(TEMPLATE_CLOSE);
    proof {
        reveal_strlit("${");
        reveal_strlit("}");
        lemma_first_occurrence(tail, "${"@);
    }
    match find_next(chars, &open, rest) {
        None => {
            let all = string_from_chars(&slice_chars(chars, rest, chars.len()));
            assert(all@ == tail);
            extend_str(runs, text_run(all.as_str()).as_str());
        },
        Some(at) => {
            let before = string_from_chars(&slice_chars(chars, rest, at));
            assert(before@ == tail.take(at - rest));
            extend_str(runs, text_run(before.as_str()).as_str());
            let inside = at + 2;
            let ghost after = tail.skip(at - rest + 2);
            assert(after == chars@.skip(inside as int));
            proof {
                lemma_first_occurrence(after, "}"@);
            }
            match find_next(chars, &close, inside) {
                None => {
                    extend_str(runs, text_run(TEMPLATE_OPEN).as_str());
                    let all = string_from_chars(&slice_chars(chars, inside, chars.len()));
                    assert(all@ == after);
                    extend_str(runs, text_run(all.as_str()).as_str());
                },
                Some(end) => {
                    let key = string_from_chars(&slice_chars(chars, inside, end));
                    assert(key@ == after.take(end - inside));
                    let key = trim_str(key.as_str());
                    extend_str(runs, placeholder_run(key.as_str(), exam).as_str());
                    assert(chars@.skip(end + 1) == after.skip(end - inside + 1));
                    footer_from(chars, end + 1, exam, runs);
                },
            }
        },
    }
}

/// Expand a page-footer template into runs: each `${key}` becomes its
/// placeholder's runs, the text between becomes text runs, and an
/// unterminated `${` is printed as text once, with what follows it.
pub fn footer_runs(template: &str, exam: &Exam) -> (res: String)
    ensures
        res@ == footer_spec(template@, *exam),
{
    let chars = str_chars(template);
    let mut runs: Vec<char> = Vec::new();
    footer_from(&chars, 0, exam, &mut runs);
    assert(chars@.skip(0) == template@);
    string_from_chars(&runs)
}

/// The footer template an exam prints, empty when it has none.
pub open spec fn footer_template(exam: Exam) -> Seq<char> {
    match exam.layout.page_footer {
        Some(template) => template@,
        None => Seq::empty(),
    }
}

/// The footer part: one centred paragraph of the template's runs.
pub open spec fn footer_xml_spec(exam: Exam) -> Seq<char> {
    "<?xml version=\"1.0\" encoding=\"UTF-8\" standalone=\"yes\"?><w:ftr xmlns:w=\""@ + W_NS@
        + "\"><w:p><w:pPr><w:jc w:val=\"center\"/></w:pPr>"@ + footer_spec(footer_template(exam), exam)
        + "</w:p></w:ftr>"@
}

/// The repeating page footer: one centred paragraph of the footer
/// template's runs (an empty paragraph when there is no template).
pub fn footer_xml(exam: &Exam) -> (res: String)
    ensures
        res@ == footer_xml_spec(*exam),
{
    proof {
        reveal_strlit("");
    }
    let runs = match &exam.layout.page_footer {
        Some(template) => footer_runs(template.as_str(), exam),
        None => {
            assert(""@ =~= Seq::<char>::empty());
            footer_runs("", exam)
        },
    };
    let mut out: Vec<char> = Vec::new();
    extend_str(&mut out, "<?xml version=\"1.0\" encoding=\"UTF-8\" standalone=\"yes\"?><w:ftr xmlns:w=\"");
    extend_str(&mut out, W_NS);
    extend_str(&mut out, "\"><w:p><w:pPr><w:jc w:val=\"center\"/></w:pPr>");
    extend_str(&mut out, runs.as_str());
    extend_str(&mut out, "</w:p></w:ftr>");
    assert(out@ =~= footer_xml_spec(*exam));
    string_from_chars(&out)
}

/// The section properties: page geometry and the footer reference. Must be
/// the final child of `w:body`.
pub open spec fn section_spec() -> Seq<char> {
    "<w:sectPr><w:footerReference w:type=\"default\" r:id=\""@ + FOOTER_REL@
        + "\"/><w:pgSz w:w=\""@ + decimal_spec(PAGE_WIDTH as nat) + "\" w:h=\""@ + decimal_spec(
        PAGE_HEIGHT as nat,
    ) + "\"/><w:pgMar w:top=\""@ + decimal_spec(MARGIN as nat) + "\" w:right=\""@ + decimal_spec(
        MARGIN as nat,
    ) + "\" w:bottom=\""@ + decimal_spec(MARGIN as nat) + "\" w:left=\""@ + decimal_spec(
        MARGIN as nat,
    ) + "\" w:header=\""@ + decimal_spec(EDGE_GAP as nat) + "\" w:footer=\""@ + decimal_spec(
        EDGE_GAP as nat,
    ) + "\" w:gutter=\"0\"/></w:sectPr>"@
}

/// The section properties.
pub fn section_xml() -> (res: String)
    ensures
        res@ == section_spec(),
{
    let mut out: Vec<char> = Vec::new();
    extend_str(&mut out, "<w:sectPr><w:footerReference w:type=\"default\" r:id=\"");
    extend_str(&mut out, FOOTER_REL);
    extend_str(&mut out, "\"/><w:pgSz w:w=\"");
    push_decimal(&mut out, PAGE_WIDTH as u64);
    extend_str(&mut out, "\" w:h=\"");
    push_decimal(&mut out, PAGE_HEIGHT as u64);
    extend_str(&mut out, "\"/><w:pgMar w:top=\"");
    push_decimal(&mut out, MARGIN as u64);
    extend_str(&mut out, "\" w:right=\"");
    push_decimal(&mut out, MARGIN as u64);
    extend_str(&mut out, "\" w:bottom=\"");
    push_decimal(&mut out, MARGIN as u64);
    extend_str(&mut out, "\" w:left=\"");
    push_decimal(&mut out, MARGIN as u64);
    extend_str(&mut out, "\" w:header=\"");
    push_decimal(&mut out, EDGE_GAP as u64);
    extend_str(&mut out, "\" w:footer=\"");
    push_decimal(&mut out, EDGE_GAP as u64);
    extend_str(&mut out, "\" w:gutter=\"0\"/></w:sectPr>");
    assert(out@ =~= section_spec());
    string_from_chars(&out)
}

/// A paragraph's runs, with a standalone display equation set apart.
pub open spec fn centred_spec(block: ParagraphView) -> Seq<char> {
    match block.kind {
        Kind::Equation => "<m:oMathPara>"@ + block.runs + "</m:oMathPara>"@,
        _ => block.runs,
    }
}

/// The XML one rendered paragraph contributes under `style`: a paragraph
/// of its runs.
pub open spec fn block_xml_spec(block: ParagraphView, style: ParagraphStyle) -> Seq<char> {
    paragraph_spec(centred_spec(block), or_block_spec(style, block.kind))
}

/// The XML one rendered paragraph contributes under `style`: a paragraph of
/// its runs (a standalone equation set apart).
fn block_xml(block: &Paragraph, style: ParagraphStyle) -> (res: String)
    ensures
        res@ == block_xml_spec(para_view(*block), style),
{
    paragraph(block.centred().as_str(), style.or_block(block.kind))
}

/// Whether a rendered paragraph is printed in a header or footer: a list
/// item always (dropping an empty one renumbers the rest), anything else
/// only when it has runs.
pub open spec fn kept(block: ParagraphView) -> bool {
    block.kind is Item || block.runs.len() > 0
}

/// Body paragraphs, in order, each kept one in the body style.
pub open spec fn prose_spec(blocks: Seq<ParagraphView>) -> Seq<char>
    decreases blocks.len(),
{
    if blocks.len() == 0 {
        Seq::empty()
    } else {
        prose_spec(blocks.drop_last()) + if kept(blocks.last()) {
            block_xml_spec(blocks.last(), ParagraphStyle::Body)
        } else {
            Seq::empty()
        }
    }
}

/// The paragraphs an outcome holds (none when it holds none).
pub open spec fn paras_of(o: ParasOutcome) -> Seq<ParagraphView> {
    match o.paras {
        Some(ps) => ps,
        None => Seq::empty(),
    }
}

/// What a piece of the document renders to, with the registries after it,
/// or the math that is refused.
pub type Rendered = Result<(Seq<char>, Registry), (Seq<char>, Seq<char>)>;

/// Markdown rendered as body paragraphs (see [`prose_spec`]).
pub open spec fn prose_out(
    markdown: Seq<char>,
    math: Seq<(String, String)>,
    supplied: Seq<(String, Vec<u8>)>,
    reg: Registry,
) -> Rendered {
    match paragraphs_spec(markdown, math, supplied, reg) {
        Ok(o) => Ok((prose_spec(paras_of(o)), o.reg)),
        Err(e) => Err(e),
    }
}

/// Whether `res` is what `spec` says, the registries of `refs` ending where
/// it says.
pub open spec fn rendered_as(res: Result<String, Error>, spec: Rendered, refs: Refs) -> bool {
    match spec {
        Ok((s, reg)) => res matches Ok(x) && x@ == s && registry(refs) == reg,
        Err((l, r)) => res matches Err(e) && refused_with(e, l, r),
    }
}

/// Render an already-loaded Markdown block as body paragraphs. An empty
/// list item is kept (it is a bullet with nothing after it, and dropping it
/// renumbers everything below); any other paragraph with no runs is a blank
/// nobody authored.
fn prose(markdown: &str, refs: &mut Refs) -> (res: Result<String, Error>)
    ensures
        rendered_as(res, prose_out(markdown@, old(refs).math@, old(refs).media.supplied_spec(), registry(*old(refs))),
            *final(refs)),
        same_sources(*old(refs), *final(refs)),
{
    let blocks = match paragraphs(markdown, refs) {
        Ok(blocks) => blocks,
        Err(e) => return Err(e),
    };
    let ghost view = paras_view(blocks@);
    let mut out: Vec<char> = Vec::new();
    let mut k: usize = 0;
    while k < blocks.len()
        invariant
            k <= blocks@.len(),
            view == paras_view(blocks@),
            out@ == prose_spec(view.take(k as int)),
        decreases blocks@.len() - k,
    {
        let block = &blocks[k];
        assert(view.take(k + 1).drop_last() =~= view.take(k as int));
        assert(view[k as int] == para_view(*block));
        let keep = match block.kind {
            Kind::Item(_) => true,
            _ => crate::text::str_chars(block.runs.as_str()).len() > 0,
        };
        if keep {
            extend_str(&mut out, block_xml(block, ParagraphStyle::Body).as_str());
        }
        k = k + 1;
    }
    assert(view.take(blocks@.len() as int) =~= view);
    Ok(string_from_chars(&out))
}

/// The opening of a question: its number sharing the prompt's first
/// paragraph, or on a line of its own where that paragraph is a list item,
/// or where the prompt has none.
pub open spec fn opening_spec(lead: Seq<char>, first: Option<ParagraphView>) -> Seq<char> {
    match first {
        None => paragraph_spec(lead, ParagraphStyle::Question),
        Some(first) => match first.kind {
            Kind::Item(_) => paragraph_spec(lead, ParagraphStyle::Question) + paragraph_spec(
                first.runs,
                or_block_spec(ParagraphStyle::Continuation, first.kind),
            ),
            _ => paragraph_spec(lead + first.runs, or_block_spec(ParagraphStyle::Question, first.kind)),
        },
    }
}

/// The question number and the prompt's first paragraph, if it has one. The
/// number shares that paragraph, so a wrapped prompt hangs off its number;
/// it cannot when the prompt opens with a list item (the number would print
/// inside the first bullet), and then it gets a line of its own.
fn opening_paragraphs(lead: &str, first: Option<&Paragraph>) -> (res: String)
    ensures
        res@ == opening_spec(lead@, match first {
            Some(p) => Some(para_view(*p)),
            None => None,
        }),
{
    match first {
        None => paragraph(lead, ParagraphStyle::Question),
        Some(first) => match first.kind {
            Kind::Item(_) => {
                let mut out: Vec<char> = Vec::new();
                extend_str(&mut out, paragraph(lead, ParagraphStyle::Question).as_str());
                extend_str(&mut out, paragraph(first.runs.as_str(), ParagraphStyle::Continuation.or_block(first.kind)).as_str());
                string_from_chars(&out)
            },
            _ => {
                let mut runs: Vec<char> = Vec::new();
                extend_str(&mut runs, lead);
                extend_str(&mut runs, first.runs.as_str());
                let runs = string_from_chars(&runs);
                paragraph(runs.as_str(), ParagraphStyle::Question.or_block(first.kind))
            },
        },
    }
}

/// A hard page break, as a paragraph of its own.
pub open spec fn page_break_spec() -> Seq<char> {
    "<w:p><w:r><w:br w:type=\"page\"/></w:r></w:p>"@
}

/// The runs of a question's number: "`number`. ".
pub open spec fn lead_spec(number: nat) -> Seq<char> {
    run_spec(decimal_spec(number) + ". "@, Seq::empty())
}

/// A page break comes only between questions: never before the first, and
/// before every later one exactly when the layout asks for breaks.
pub proof fn page_breaks_fall_between_questions(number: nat, item: ExamItem, page_break: bool, prompt: Seq<ParagraphView>)
    ensures
        question_spec(number, item, page_break, prompt) == (if page_break && number > 1 {
            page_break_spec()
        } else {
            Seq::empty()
        }) + opening_spec(lead_spec(number), if prompt.len() > 0 { Some(prompt[0]) } else { None })
            + continuation_spec(prompt) + answer_space_spec(item.answer_space as nat),
        number <= 1 ==> question_spec(number, item, page_break, prompt) == opening_spec(
            lead_spec(number),
            if prompt.len() > 0 { Some(prompt[0]) } else { None },
        ) + continuation_spec(prompt) + answer_space_spec(item.answer_space as nat),
{
    assert(Seq::<char>::empty() + opening_spec(lead_spec(number), if prompt.len() > 0 { Some(prompt[0]) } else { None })
        =~= opening_spec(lead_spec(number), if prompt.len() > 0 { Some(prompt[0]) } else { None }));
}

/// The prompt's paragraphs after the first, in the continuation style.
pub open spec fn continuation_spec(prompt: Seq<ParagraphView>) -> Seq<char>
    decreases prompt.len(),
{
    if prompt.len() <= 1 {
        Seq::empty()
    } else {
        continuation_spec(prompt.drop_last()) + block_xml_spec(prompt.last(), ParagraphStyle::Continuation)
    }
}

/// One numbered question whose prompt rendered to `prompt`.
pub open spec fn question_spec(number: nat, item: ExamItem, page_break: bool, prompt: Seq<ParagraphView>) -> Seq<char> {
    (if page_break && number > 1 { page_break_spec() } else { Seq::empty() })
        + opening_spec(lead_spec(number), if prompt.len() > 0 { Some(prompt[0]) } else { None })
        + continuation_spec(prompt) + answer_space_spec(item.answer_space as nat)
}

/// One numbered question, its prompt rendered with the registries at `reg`.
pub open spec fn question_out(
    number: nat,
    item: ExamItem,
    page_break: bool,
    math: Seq<(String, String)>,
    supplied: Seq<(String, Vec<u8>)>,
    reg: Registry,
) -> Rendered {
    match paragraphs_spec(item.question.prompt@, math, supplied, reg) {
        Ok(o) => Ok((question_spec(number, item, page_break, paras_of(o)), o.reg)),
        Err(e) => Err(e),
    }
}

/// One numbered question: a page break first where the layout asks for one
/// between questions, then its prompt, then the blank space to answer in.
fn question_xml(number: usize, item: &ExamItem, page_break: bool, refs: &mut Refs) -> (res: Result<String, Error>)
    ensures
        rendered_as(res, question_out(number as nat, *item, page_break, old(refs).math@,
            old(refs).media.supplied_spec(), registry(*old(refs))), *final(refs)),
        same_sources(*old(refs), *final(refs)),
{
    let mut out: Vec<char> = Vec::new();
    if page_break && number > 1 {
        extend_str(&mut out, "<w:p><w:r><w:br w:type=\"page\"/></w:r></w:p>");
    }
    let prompt = match paragraphs(item.question.prompt.as_str(), refs) {
        Ok(prompt) => prompt,
        Err(e) => return Err(e),
    };
    let ghost view = paras_view(prompt@);
    let mut lead: Vec<char> = Vec::new();
    push_decimal(&mut lead, number as u64);
    extend_str(&mut lead, ". ");
    let lead = text_run(string_from_chars(&lead).as_str());
    let first = if prompt.len() > 0 { Some(&prompt[0]) } else { None };
    extend_str(&mut out, opening_paragraphs(lead.as_str(), first).as_str());
    let ghost opened = out@;
    let mut k: usize = 1;
    while k < prompt.len()
        invariant
            1 <= k,
            k <= prompt@.len() || prompt@.len() == 0,
            view == paras_view(prompt@),
            out@ == opened + continuation_spec(
                view.take(if k <= prompt@.len() { k as int } else { prompt@.len() as int }),
            ),
        decreases prompt@.len() - k,
    {
        assert(view.take(k + 1).drop_last() =~= view.take(k as int));
        assert(view[k as int] == para_view(prompt@[k as int]));
        extend_str(&mut out, block_xml(&prompt[k], ParagraphStyle::Continuation).as_str());
        k = k + 1;
    }
    assert(view.take(if k <= prompt@.len() { k as int } else { prompt@.len() as int }) =~= view);
    extend_str(&mut out, answer_space(item.answer_space).as_str());
    proof {
        if prompt@.len() > 0 {
            assert(view[0] == para_view(prompt@[0]));
        }
    }
    assert(out@ =~= question_spec(number as nat, *item, page_break, view));
    Ok(string_from_chars(&out))
}

/// The questions `items[..count]`, numbered from one, each prompt rendered
/// with the registries the ones before it left.
pub open spec fn questions_out(
    items: Seq<ExamItem>,
    page_break: bool,
    math: Seq<(String, String)>,
    supplied: Seq<(String, Vec<u8>)>,
    reg: Registry,
    count: nat,
) -> Rendered
    decreases count,
{
    if count == 0 {
        Ok((Seq::empty(), reg))
    } else {
        match questions_out(items, page_break, math, supplied, reg, (count - 1) as nat) {
            Err(e) => Err(e),
            Ok((before, r)) => match question_out(count, items[count - 1], page_break, math, supplied, r) {
                Err(e) => Err(e),
                Ok((q, r2)) => Ok((before + q, r2)),
            },
        }
    }
}

/// `parts` one after another.
pub open spec fn joined(parts: Seq<Seq<char>>) -> Seq<char>
    decreases parts.len(),
{
    if parts.len() == 0 {
        Seq::empty()
    } else {
        joined(parts.drop_last()) + parts.last()
    }
}

/// Whether `block` is how question `i` of `items` prints as the `i + 1`-th:
/// numbered `i + 1` (with a page break before it exactly when breaks are on
/// and it is not the first), around a rendering of its own prompt.
pub open spec fn numbered_as(
    items: Seq<ExamItem>,
    i: int,
    page_break: bool,
    math: Seq<(String, String)>,
    supplied: Seq<(String, Vec<u8>)>,
    block: Seq<char>,
) -> bool {
    exists|reg: Registry, o: ParasOutcome|
        #![trigger paragraphs_spec(items[i].question.prompt@, math, supplied, reg), o.paras]
        paragraphs_spec(items[i].question.prompt@, math, supplied, reg) == Ok::<ParasOutcome, (Seq<char>, Seq<char>)>(o)
            && block == question_spec((i + 1) as nat, items[i], page_break, paras_of(o))
}

/// Questions print in order, numbered from one: whenever the first `count`
/// questions render, the text is `count` blocks one after another, block
/// `i` being question `i` numbered `i + 1`.
pub proof fn questions_are_numbered_in_order(
    items: Seq<ExamItem>,
    page_break: bool,
    math: Seq<(String, String)>,
    supplied: Seq<(String, Vec<u8>)>,
    reg: Registry,
    count: nat,
)
    requires
        count <= items.len(),
    ensures
        questions_out(items, page_break, math, supplied, reg, count) matches Ok((body, _)) ==> exists|
            blocks: Seq<Seq<char>>,
        |
            #![trigger joined(blocks)]
            blocks.len() == count && body == joined(blocks) && forall|i: int|
                0 <= i < count ==> numbered_as(items, i, page_break, math, supplied, #[trigger] blocks[i]),
    decreases count,
{
    if count == 0 {
        let blocks = Seq::<Seq<char>>::empty();
        assert(joined(blocks) == Seq::<char>::empty());
    } else {
        questions_are_numbered_in_order(items, page_break, math, supplied, reg, (count - 1) as nat);
        match questions_out(items, page_break, math, supplied, reg, (count - 1) as nat) {
            Err(_) => {},
            Ok((before, r)) => {
                match paragraphs_spec(items[count - 1].question.prompt@, math, supplied, r) {
                    Err(_) => {},
                    Ok(o) => {
                        let prev = choose|blocks: Seq<Seq<char>>|
                            #![trigger joined(blocks)]
                            blocks.len() == (count - 1) as nat && before == joined(blocks) && forall|i: int|
                                0 <= i < count - 1 ==> numbered_as(items, i, page_break, math, supplied, #[trigger] blocks[i]);
                        let q = question_spec(count, items[count - 1], page_break, paras_of(o));
                        let blocks = prev.push(q);
                        assert(blocks.drop_last() =~= prev);
                        assert(joined(blocks) == before + q);
                        assert forall|i: int| 0 <= i < count implies numbered_as(items, i, page_break, math, supplied, #[trigger] blocks[i]) by {
                            if i < count - 1 {
                                assert(blocks[i] == prev[i]);
                            } else {
                                assert(o.paras == o.paras);
                                assert(numbered_as(items, i, page_break, math, supplied, q));
                            }
                        }
                        assert(questions_out(items, page_break, math, supplied, reg, count) == Ok::<(Seq<char>, Registry), (Seq<char>, Seq<char>)>((joined(blocks), o.reg)));
                    },
                }
            },
        }
    }
}

/// The exam's title paragraph, then `header`, the `blocks` one after
/// another, and `footer`.
pub open spec fn sheet_body(exam: Exam, header: Seq<char>, blocks: Seq<Seq<char>>, footer: Seq<char>) -> Seq<char> {
    paragraph_spec(run_spec(title_spec(exam.name@, exam.variant), Seq::empty()), ParagraphStyle::Title) + header
        + joined(blocks) + footer
}

/// The body of an exam sheet is its title, its header, its questions in
/// order numbered from one, then its footer.
pub proof fn the_body_numbers_questions_in_order(
    exam: Exam,
    math: Seq<(String, String)>,
    supplied: Seq<(String, Vec<u8>)>,
    reg: Registry,
)
    ensures
        body_out(exam, math, supplied, reg) matches Ok((body, _)) ==> exists|
            header: Seq<char>,
            blocks: Seq<Seq<char>>,
            footer: Seq<char>,
        |
            #![trigger sheet_body(exam, header, blocks, footer)]
            blocks.len() == exam.items@.len() && body == sheet_body(exam, header, blocks, footer) && forall|i: int|
                0 <= i < exam.items@.len() ==> numbered_as(
                    exam.items@,
                    i,
                    exam.layout.page_break_between,
                    math,
                    supplied,
                    #[trigger] blocks[i],
                ),
{
    match optional_prose(exam.header, math, supplied, reg) {
        Err(_) => {},
        Ok((header, r1)) => {
            let items = exam.items@;
            let pb = exam.layout.page_break_between;
            questions_are_numbered_in_order(items, pb, math, supplied, r1, items.len());
            match questions_out(items, pb, math, supplied, r1, items.len()) {
                Err(_) => {},
                Ok((questions, r2)) => match optional_prose(exam.footer, math, supplied, r2) {
                    Err(_) => {},
                    Ok((footer, r3)) => {
                        let blocks = choose|blocks: Seq<Seq<char>>|
                            #![trigger joined(blocks)]
                            blocks.len() == items.len() && questions == joined(blocks) && forall|i: int|
                                0 <= i < items.len() ==> numbered_as(items, i, pb, math, supplied, #[trigger] blocks[i]);
                        assert(body_out(exam, math, supplied, reg) == Ok::<(Seq<char>, Registry), (Seq<char>, Seq<char>)>((
                            sheet_body(exam, header, blocks, footer),
                            r3,
                        )));
                    },
                },
            }
        },
    }
}

/// Once a question's math is refused, every longer run of questions is
/// refused for the same math.
proof fn lemma_questions_stop(
    items: Seq<ExamItem>,
    page_break: bool,
    math: Seq<(String, String)>,
    supplied: Seq<(String, Vec<u8>)>,
    reg: Registry,
    n: nat,
    m: nat,
)
    requires
        n <= m,
        questions_out(items, page_break, math, supplied, reg, n) is Err,
    ensures
        questions_out(items, page_break, math, supplied, reg, m) == questions_out(items, page_break, math, supplied, reg, n),
    decreases m - n,
{
    if n < m {
        lemma_questions_stop(items, page_break, math, supplied, reg, n, (m - 1) as nat);
    }
}

/// An optional block of Markdown rendered as body paragraphs.
pub open spec fn optional_prose(
    markdown: Option<String>,
    math: Seq<(String, String)>,
    supplied: Seq<(String, Vec<u8>)>,
    reg: Registry,
) -> Rendered {
    match markdown {
        Some(text) => prose_out(text@, math, supplied, reg),
        None => Ok((Seq::empty(), reg)),
    }
}

/// The body before the section properties: the title, the header's
/// paragraphs, every question in order, the footer's paragraphs.
pub open spec fn body_out(exam: Exam, math: Seq<(String, String)>, supplied: Seq<(String, Vec<u8>)>, reg: Registry) -> Rendered {
    let title = paragraph_spec(run_spec(title_spec(exam.name@, exam.variant), Seq::empty()), ParagraphStyle::Title);
    match optional_prose(exam.header, math, supplied, reg) {
        Err(e) => Err(e),
        Ok((header, r1)) => match questions_out(exam.items@, exam.layout.page_break_between, math, supplied, r1,
            exam.items@.len()) {
            Err(e) => Err(e),
            Ok((questions, r2)) => match optional_prose(exam.footer, math, supplied, r2) {
                Err(e) => Err(e),
                Ok((footer, r3)) => Ok((title + header + questions + footer, r3)),
            },
        },
    }
}

/// An optional block of Markdown as body paragraphs.
fn optional_prose_xml(markdown: &Option<String>, refs: &mut Refs) -> (res: Result<String, Error>)
    ensures
        rendered_as(res, optional_prose(*markdown, old(refs).math@, old(refs).media.supplied_spec(),
            registry(*old(refs))), *final(refs)),
        same_sources(*old(refs), *final(refs)),
{
    match markdown {
        Some(text) => prose(text.as_str(), refs),
        None => Ok(String::new()),
    }
}

/// Everything above the closing section properties: title, header,
/// questions, footer.
fn body_xml(exam: &Exam, refs: &mut Refs) -> (res: Result<String, Error>)
    ensures
        rendered_as(res, body_out(*exam, old(refs).math@, old(refs).media.supplied_spec(), registry(*old(refs))),
            *final(refs)),
        same_sources(*old(refs), *final(refs)),
{
    let ghost math = refs.math@;
    let ghost supplied = refs.media.supplied_spec();
    let mut out: Vec<char> = Vec::new();
    let title = text_run(exam.title().as_str());
    extend_str(&mut out, paragraph(title.as_str(), ParagraphStyle::Title).as_str());
    let ghost title_xml = out@;
    let header = match optional_prose_xml(&exam.header, refs) {
        Ok(xml) => xml,
        Err(e) => return Err(e),
    };
    extend_str(&mut out, header.as_str());
    let ghost r1 = registry(*refs);
    let ghost opened = out@;
    let mut i: usize = 0;
    assert(out@.subrange(opened.len() as int, out@.len() as int) =~= Seq::<char>::empty());
    assert(out@.subrange(0, opened.len() as int) =~= opened);
    while i < exam.items.len()
        invariant
            i <= exam.items@.len(),
            refs.math@ == math,
            refs.media.supplied_spec() == supplied,
            math == old(refs).math@,
            supplied == old(refs).media.supplied_spec(),
            optional_prose(exam.header, math, supplied, registry(*old(refs))) == Ok::<(Seq<char>, Registry), (Seq<char>, Seq<char>)>((header@, r1)),
            opened == title_xml + header@,
            title_xml == paragraph_spec(run_spec(title_spec(exam.name@, exam.variant), Seq::empty()), ParagraphStyle::Title),
            questions_out(exam.items@, exam.layout.page_break_between, math, supplied, r1, i as nat)
                == Ok::<(Seq<char>, Registry), (Seq<char>, Seq<char>)>((out@.subrange(opened.len() as int, out@.len() as int), registry(*refs))),
            out@.len() >= opened.len(),
            out@.subrange(0, opened.len() as int) == opened,
        decreases exam.items@.len() - i,
    {
        let ghost before = out@;
        let xml = match question_xml(i + 1, &exam.items[i], exam.layout.page_break_between, refs) {
            Ok(xml) => xml,
            Err(e) => {
                proof {
                    lemma_questions_stop(exam.items@, exam.layout.page_break_between, math, supplied, r1,
                        (i + 1) as nat, exam.items@.len());
                }
                return Err(e);
            },
        };
        extend_str(&mut out, xml.as_str());
        assert(out@.subrange(opened.len() as int, out@.len() as int) =~= before.subrange(opened.len() as int,
            before.len() as int) + xml@);
        assert(out@.subrange(0, opened.len() as int) =~= before.subrange(0, opened.len() as int));
        i = i + 1;
    }
    let ghost questions = out@.subrange(opened.len() as int, out@.len() as int);
    let footer = match optional_prose_xml(&exam.footer, refs) {
        Ok(xml) => xml,
        Err(e) => return Err(e),
    };
    let ghost middle = out@;
    extend_str(&mut out, footer.as_str());
    assert(middle =~= opened + questions);
    assert(out@ =~= title_xml + header@ + questions + footer@);
    Ok(string_from_chars(&out))
}

/// The `word/document.xml` part around `body`: the namespaces its elements
/// use, the body, then the section properties as the body's last child.
pub open spec fn document_spec(body: Seq<char>) -> Seq<char> {
    "<?xml version=\"1.0\" encoding=\"UTF-8\" standalone=\"yes\"?><w:document xmlns:w=\""@ + W_NS@
        + "\" xmlns:m=\""@ + M_NS@ + "\" xmlns:r=\""@ + R_NS@ + "\" xmlns:wp=\""@ + WP_NS@
        + "\"><w:body>"@ + body + section_spec() + "</w:body></w:document>"@
}

/// The whole `word/document.xml` part: the namespaces its elements use,
/// the body, then the section properties as the body's last child.
fn document_xml(exam: &Exam, refs: &mut Refs) -> (res: Result<String, Error>)
    ensures
        rendered_as(res, match body_out(*exam, old(refs).math@, old(refs).media.supplied_spec(), registry(*old(refs))) {
            Ok((body, reg)) => Ok((document_spec(body), reg)),
            Err(e) => Err(e),
        }, *final(refs)),
        same_sources(*old(refs), *final(refs)),
{
    let body = match body_xml(exam, refs) {
        Ok(body) => body,
        Err(e) => return Err(e),
    };
    let mut out: Vec<char> = Vec::new();
    extend_str(&mut out, "<?xml version=\"1.0\" encoding=\"UTF-8\" standalone=\"yes\"?><w:document xmlns:w=\"");
    extend_str(&mut out, W_NS);
    extend_str(&mut out, "\" xmlns:m=\"");
    extend_str(&mut out, M_NS);
    extend_str(&mut out, "\" xmlns:r=\"");
    extend_str(&mut out, R_NS);
    extend_str(&mut out, "\" xmlns:wp=\"");
    extend_str(&mut out, WP_NS);
    extend_str(&mut out, "\"><w:body>");
    extend_str(&mut out, body.as_str());
    extend_str(&mut out, section_xml().as_str());
    extend_str(&mut out, "</w:body></w:document>");
    assert(out@ =~= document_spec(body@));
    Ok(string_from_chars(&out))
}

/// The bytes of `text`'s UTF-8 encoding.
fn utf8(text: &str) -> (res: Vec<u8>)
    ensures
        res@ == encode_utf8(text@),
{
    vstd::slice::slice_to_vec(text.as_bytes())
}

/// Whether `pictures` are named as the picture parts, in slot order.
pub open spec fn picture_parts(pictures: Seq<(Seq<char>, Seq<u8>)>) -> bool {
    forall|k: int| 0 <= k < pictures.len() ==> (#[trigger] pictures[k]).0 == "word/media/"@ + crate::export::docx::media::part_name_spec(k as nat)
}

/// The picture parts for the images drawn, `used` being their positions in
/// `supplied`, in slot order.
pub open spec fn pictures_spec(supplied: Seq<(String, Vec<u8>)>, used: Seq<usize>) -> Seq<(Seq<char>, Seq<u8>)> {
    Seq::new(used.len(), |k: int| ("word/media/"@ + crate::export::docx::media::part_name_spec(k as nat), supplied[used[k] as int].1@))
}

/// The parts of the package, in the order they are written: the content
/// types, the package relationship, the document's relationships (one per
/// picture), the document, its styles, numbering, settings and footer, then
/// the pictures.
pub open spec fn docx_files(exam: Exam, document: Seq<char>, numbering: Seq<char>, pictures: Seq<(Seq<char>, Seq<u8>)>) -> Seq<(Seq<char>, Seq<u8>)> {
    seq![
        ("[Content_Types].xml"@, encode_utf8(CONTENT_TYPES@)),
        ("_rels/.rels"@, encode_utf8(ROOT_RELS@)),
        ("word/_rels/document.xml.rels"@, encode_utf8(document_rels_spec(relationships_spec(pictures.len())))),
        ("word/document.xml"@, encode_utf8(document)),
        ("word/styles.xml"@, encode_utf8(styles_spec())),
        ("word/numbering.xml"@, encode_utf8(numbering)),
        ("word/settings.xml"@, encode_utf8(SETTINGS@)),
        ("word/footer1.xml"@, encode_utf8(footer_xml_spec(exam))),
    ] + pictures
}

/// The registries of a document nothing has been rendered into yet.
pub open spec fn fresh_registry() -> Registry {
    Registry { instances: Seq::empty(), bullet: None, used: Seq::empty(), drawings: 0 }
}

/// The files of the package for `exam`, or the math it refuses: its body
/// rendered from fresh registries, the lists and pictures that left behind.
pub open spec fn package_spec(exam: Exam) -> Result<Seq<(Seq<char>, Seq<u8>)>, (Seq<char>, Seq<char>)> {
    match body_out(exam, exam.mathml@, exam.images@, fresh_registry()) {
        Err(e) => Err(e),
        Ok((body, reg)) => Ok(docx_files(
            exam,
            document_spec(body),
            numbering_xml_spec(reg.instances),
            pictures_spec(exam.images@, reg.used),
        )),
    }
}

/// Render `exam` as the bytes of a `.docx` file.
///
/// Fails with [`Error::UnsupportedMath`] when a prompt, header or footer
/// holds math this writer cannot convert (or that sits in a block printed as
/// source), with [`Error::Export`] when the zip container cannot be
/// written, and with [`Error::Io`] when writing a part's bytes into it fails.
#[verifier::spinoff_prover]
#[verifier::rlimit(40)]
pub fn to_docx(exam: &Exam) -> (res: Result<Vec<u8>, Error>)
    ensures
        match package_spec(*exam) {
            Ok(files) => match zip_archive(files) {
                Ok(bytes) => res matches Ok(b) && b@ == bytes,
                Err(io) => res matches Err(e) && if io { e is Io } else { e is Export },
            },
            Err((l, r)) => res matches Err(e) && refused_with(e, l, r),
        },
        res matches Ok(b) ==> exists|body: Seq<char>, numbering: Seq<char>, pictures: Seq<(Seq<char>, Seq<u8>)>|
            picture_parts(pictures) && zip_archive(docx_files(*exam, document_spec(body), numbering, pictures))
                == Ok::<Seq<u8>, bool>(b@),
{
    broadcast use vstd::string::to_string_from_display_ensures_for_str;
    let mut refs = Refs::with_math(exam.images.as_slice(), exam.mathml.as_slice());
    assert(registry(refs).instances =~= fresh_registry().instances);
    assert(registry(refs).used =~= fresh_registry().used);
    assert(registry(refs) == fresh_registry());
    let document = match document_xml(exam, &mut refs) {
        Ok(document) => document,
        Err(e) => return Err(e),
    };
    let numbering = refs.numbering.to_xml();
    let footer = footer_xml(exam);
    let rels = document_rels(refs.media.relationships().as_str());
    let styles = styles();
    let mut files: Vec<(String, Vec<u8>)> = Vec::new();
    files.push(("[Content_Types].xml".to_string(), utf8(CONTENT_TYPES)));
    files.push(("_rels/.rels".to_string(), utf8(ROOT_RELS)));
    files.push(("word/_rels/document.xml.rels".to_string(), utf8(rels.as_str())));
    files.push(("word/document.xml".to_string(), utf8(document.as_str())));
    files.push(("word/styles.xml".to_string(), utf8(styles.as_str())));
    files.push(("word/numbering.xml".to_string(), utf8(numbering.as_str())));
    files.push(("word/settings.xml".to_string(), utf8(SETTINGS)));
    files.push(("word/footer1.xml".to_string(), utf8(footer.as_str())));
    let ghost fixed = files_view(files@);
    let pictures = refs.media.parts();
    let ghost parts = Seq::new(pictures@.len(), |k: int| (pictures@[k].0@, pictures@[k].1@));
    let mut k: usize = 0;
    while k < pictures.len()
        invariant
            k <= pictures@.len(),
            parts.len() == pictures@.len(),
            forall|j: int| 0 <= j < parts.len() ==> #[trigger] parts[j] == (pictures@[j].0@, pictures@[j].1@),
            files_view(files@) == fixed + parts.take(k as int),
        decreases pictures@.len() - k,
    {
        let (path, bytes) = &pictures[k];
        let entry = (path.clone(), vstd::slice::slice_to_vec(bytes));
        assert(entry.0@ == parts[k as int].0 && entry.1@ == parts[k as int].1);
        let ghost before = files@;
        files.push(entry);
        assert(files@ == before.push(entry));
        assert(files_view(files@) =~= files_view(before).push((entry.0@, entry.1@)));
        assert(parts.take(k + 1) =~= parts.take(k as int).push(parts[k as int]));
        assert(files_view(files@) =~= fixed + parts.take(k + 1));
        k = k + 1;
    }
    assert(parts.take(k as int) =~= parts);
    assert(parts =~= pictures_spec(exam.images@, refs.media.used_spec()));
    assert(picture_parts(parts));
    let ghost body = match body_out(*exam, exam.mathml@, exam.images@, fresh_registry()) {
        Ok((body, _)) => body,
        Err(_) => Seq::empty(),
    };
    assert(files_view(files@) =~= docx_files(*exam, document_spec(body), numbering@, parts));
    crate::export::zip_package("Word document", &files)
}

} // verus!
