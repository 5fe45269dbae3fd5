//! The Markdown event stream every reader of a prompt walks.
//!
//! Parsing CommonMark is pulldown-cmark's work. What the library needs of a
//! parse is the flat sequence of events, each reduced to plain values: what
//! kind of event it is, which tag it opens or closes, the text it carries, and
//! the span of the source it came from, in characters. [`markdown_events`]
//! assembles exactly that, and every walk over Markdown in this crate is
//! verified against [`md_events`], the name for what the parser reports.
use pulldown_cmark::{Alignment, CodeBlockKind, Event, MetadataBlockKind, Options, Parser, Tag, TagEnd};
use vstd::prelude::*;

verus! {

/// GitHub pipe tables.
pub const TABLES: u32 = 2;

/// `~~strikethrough~~`.
pub const STRIKETHROUGH: u32 = 8;

/// A `---`-fenced YAML metadata block at the top of the document.
pub const YAML_METADATA: u32 = 128;

/// `$…$` and `$$…$$` math.
pub const MATH: u32 = 1024;

/// The dialect the exporters that lay Markdown out read: tables,
/// strikethrough and math. What a prompt means cannot differ between the
/// Canvas package and the Word document.
pub const MARKDOWN: u32 = TABLES | STRIKETHROUGH | MATH;

/// What kind of event the parser reported.
#[derive(Clone, Copy, Debug, PartialEq, Eq, Structural)]
pub enum MdKind {
    Start,
    End,
    Text,
    Code,
    InlineMath,
    DisplayMath,
    Html,
    InlineHtml,
    FootnoteReference,
    SoftBreak,
    HardBreak,
    Rule,
    TaskListMarker,
}

/// The tag a `Start` or `End` event opens or closes; `NoTag` on every other
/// event, and `Other` for tags no writer here distinguishes.
#[derive(Clone, Copy, Debug, PartialEq, Eq, Structural)]
pub enum MdTag {
    NoTag,
    Paragraph,
    Heading,
    BlockQuote,
    CodeBlock,
    HtmlBlock,
    List,
    Item,
    Table,
    TableHead,
    TableRow,
    TableCell,
    MetadataBlock,
    Emphasis,
    Strong,
    Strikethrough,
    Link,
    Image,
    Other,
}

/// A table column's alignment, as its delimiter row states it.
#[derive(Clone, Copy, Debug, PartialEq, Eq, Structural)]
pub enum Align {
    Unaligned,
    Left,
    Center,
    Right,
}

/// One parser event, as plain values.
///
/// * `text` is the payload of a text-like event, the info string of a fenced
///   code block's `Start`, and the destination of a link's or image's
///   `Start`; empty otherwise.
/// * `number` is a heading's level and an ordered list's first number.
/// * `flag` is set on the `Start` of a fenced (not indented) code block and
///   of a YAML metadata block, and on a checked task marker.
/// * `aligns` are a table's column alignments, on its `Start`.
/// * `start..end` is the event's span of the source, in characters.
#[derive(Clone, Debug)]
pub struct MdEvent {
    pub kind: MdKind,
    pub tag: MdTag,
    pub text: String,
    pub number: Option<u64>,
    pub flag: bool,
    pub aligns: Vec<Align>,
    pub start: usize,
    pub end: usize,
}

/// [`MdEvent`] with its strings and lists as sequences.
pub struct MdEventView {
    pub kind: MdKind,
    pub tag: MdTag,
    pub text: Seq<char>,
    pub number: Option<u64>,
    pub flag: bool,
    pub aligns: Seq<Align>,
    pub start: nat,
    pub end: nat,
}

impl View for MdEvent {
    type V = MdEventView;

    open spec fn view(&self) -> MdEventView {
        MdEventView {
            kind: self.kind,
            tag: self.tag,
            text: self.text@,
            number: self.number,
            flag: self.flag,
            aligns: self.aligns@,
            start: self.start as nat,
            end: self.end as nat,
        }
    }
}

/// The events pulldown-cmark reports for `source` parsed with the option bits
/// `options`, in order.
pub uninterp spec fn md_events(source: Seq<char>, options: u32) -> Seq<MdEventView>;

/// Whether `tag` is one of the span-level tags.
pub open spec fn is_inline_tag(tag: MdTag) -> bool {
    tag == MdTag::Emphasis || tag == MdTag::Strong || tag == MdTag::Strikethrough
        || tag == MdTag::Link || tag == MdTag::Image
}

/// The kind of each event of `pulldown_cmark::Parser::new_ext(source, options)`.
#[verifier::external_body]
fn event_kinds(source: &str, options: u32) -> (res: Vec<MdKind>)
    ensures
        res@.len() == md_events(source@, options).len(),
        forall|i: int| 0 <= i < res@.len() ==> res@[i] == md_events(source@, options)[i].kind,
{
    Parser::new_ext(source, Options::from_bits_truncate(options)).map(|event| match event {
        Event::Start(_) => MdKind::Start, Event::End(_) => MdKind::End,
        Event::Text(_) => MdKind::Text, Event::Code(_) => MdKind::Code,
        Event::InlineMath(_) => MdKind::InlineMath, Event::DisplayMath(_) => MdKind::DisplayMath,
        Event::Html(_) => MdKind::Html, Event::InlineHtml(_) => MdKind::InlineHtml,
        Event::FootnoteReference(_) => MdKind::FootnoteReference,
        Event::SoftBreak => MdKind::SoftBreak, Event::HardBreak => MdKind::HardBreak,
        Event::Rule => MdKind::Rule, Event::TaskListMarker(_) => MdKind::TaskListMarker,
    }).collect()
}

/// The block-level tag of each event of the same parse: `NoTag` off `Start`
/// and `End`, and `Other` where the tag is span-level.
#[verifier::external_body]
fn event_block_tags(source: &str, options: u32) -> (res: Vec<MdTag>)
    ensures
        res@.len() == md_events(source@, options).len(),
        forall|i: int| 0 <= i < res@.len() ==> res@[i] == (if is_inline_tag(md_events(source@, options)[i].tag) {
            MdTag::Other } else { md_events(source@, options)[i].tag }),
{
    Parser::new_ext(source, Options::from_bits_truncate(options)).map(|event| match event {
        Event::Start(tag) => Some(tag.to_end()), Event::End(tag) => Some(tag), _ => None,
    }).map(|tag| tag.map_or(MdTag::NoTag, |tag| match tag {
        TagEnd::Paragraph => MdTag::Paragraph, TagEnd::Heading(_) => MdTag::Heading,
        TagEnd::BlockQuote(_) => MdTag::BlockQuote, TagEnd::CodeBlock => MdTag::CodeBlock,
        TagEnd::HtmlBlock => MdTag::HtmlBlock, TagEnd::List(_) => MdTag::List,
        TagEnd::Item => MdTag::Item, TagEnd::Table => MdTag::Table,
        TagEnd::TableHead => MdTag::TableHead, TagEnd::TableRow => MdTag::TableRow,
        TagEnd::TableCell => MdTag::TableCell, TagEnd::MetadataBlock(_) => MdTag::MetadataBlock,
        _ => MdTag::Other,
    })).collect()
}

/// The span-level tag of each event of the same parse: `NoTag` off `Start`
/// and `End`, and `Other` where the tag is not span-level.
#[verifier::external_body]
fn event_inline_tags(source: &str, options: u32) -> (res: Vec<MdTag>)
    ensures
        res@.len() == md_events(source@, options).len(),
        forall|i: int| 0 <= i < res@.len() ==> res@[i] == (if is_inline_tag(md_events(source@, options)[i].tag)
            || md_events(source@, options)[i].tag == MdTag::NoTag {
            md_events(source@, options)[i].tag } else { MdTag::Other }),
{
    Parser::new_ext(source, Options::from_bits_truncate(options)).map(|event| match event {
        Event::Start(tag) => Some(tag.to_end()), Event::End(tag) => Some(tag), _ => None,
    }).map(|tag| tag.map_or(MdTag::NoTag, |tag| match tag {
        TagEnd::Emphasis => MdTag::Emphasis, TagEnd::Strong => MdTag::Strong,
        TagEnd::Strikethrough => MdTag::Strikethrough,
        TagEnd::Link => MdTag::Link, TagEnd::Image => MdTag::Image,
        _ => MdTag::Other,
    })).collect()
}

/// The text each event of the same parse carries (see [`MdEvent`]).
#[verifier::external_body]
fn event_texts(source: &str, options: u32) -> (res: Vec<String>)
    ensures
        res@.len() == md_events(source@, options).len(),
        forall|i: int| 0 <= i < res@.len() ==> res@[i]@ == md_events(source@, options)[i].text,
{
    Parser::new_ext(source, Options::from_bits_truncate(options)).map(|event| match event {
        Event::Text(s) | Event::Code(s) | Event::InlineMath(s) | Event::DisplayMath(s)
        | Event::Html(s) | Event::InlineHtml(s) | Event::FootnoteReference(s) => s.to_string(),
        Event::Start(Tag::CodeBlock(CodeBlockKind::Fenced(info))) => info.to_string(),
        Event::Start(Tag::Link { dest_url, .. }) => dest_url.to_string(),
        Event::Start(Tag::Image { dest_url, .. }) => dest_url.to_string(),
        _ => String::new(),
    }).collect()
}

/// The number each event of the same parse carries (see [`MdEvent`]).
#[verifier::external_body]
fn event_numbers(source: &str, options: u32) -> (res: Vec<Option<u64>>)
    ensures
        res@.len() == md_events(source@, options).len(),
        forall|i: int| 0 <= i < res@.len() ==> res@[i] == md_events(source@, options)[i].number,
{
    Parser::new_ext(source, Options::from_bits_truncate(options)).map(|event| match event {
        Event::Start(Tag::Heading { level, .. }) => Some(level as u64),
        Event::Start(Tag::List(first)) => first,
        _ => None,
    }).collect()
}

/// The flag each event of the same parse carries (see [`MdEvent`]).
#[verifier::external_body]
fn event_flags(source: &str, options: u32) -> (res: Vec<bool>)
    ensures
        res@.len() == md_events(source@, options).len(),
        forall|i: int| 0 <= i < res@.len() ==> res@[i] == md_events(source@, options)[i].flag,
{
    Parser::new_ext(source, Options::from_bits_truncate(options)).map(|event| match event {
        Event::Start(Tag::CodeBlock(CodeBlockKind::Fenced(_))) => true,
        Event::Start(Tag::MetadataBlock(MetadataBlockKind::YamlStyle)) => true,
        Event::TaskListMarker(checked) => checked,
        _ => false,
    }).collect()
}

/// The column alignments each event of the same parse carries (see
/// [`MdEvent`]).
#[verifier::external_body]
fn event_aligns(source: &str, options: u32) -> (res: Vec<Vec<Align>>)
    ensures
        res@.len() == md_events(source@, options).len(),
        forall|i: int| 0 <= i < res@.len() ==> res@[i]@ == md_events(source@, options)[i].aligns,
{
    Parser::new_ext(source, Options::from_bits_truncate(options)).map(|event| match event {
        Event::Start(Tag::Table(columns)) => columns.iter().map(|column| match column {
            Alignment::None => Align::Unaligned, Alignment::Left => Align::Left,
            Alignment::Center => Align::Center, Alignment::Right => Align::Right,
        }).collect(),
        _ => Vec::new(),
    }).collect()
}

/// The span of each event of the same parse, as character offsets into
/// `source`: the parser's byte range, with each end counted in characters.
#[verifier::external_body]
fn event_spans(source: &str, options: u32) -> (res: Vec<(usize, usize)>)
    ensures
        res@.len() == md_events(source@, options).len(),
        forall|i: int| 0 <= i < res@.len() ==> res@[i].0 == md_events(source@, options)[i].start
            && res@[i].1 == md_events(source@, options)[i].end,
{
    let chars_before = |at: usize| source.char_indices().take_while(|(byte, _)| *byte < at).count();
    Parser::new_ext(source, Options::from_bits_truncate(options)).into_offset_iter()
        .map(|(_, range)| (chars_before(range.start), chars_before(range.end))).collect()
}

/// The events of `source` parsed with the option bits `options`.
pub fn markdown_events(source: &str, options: u32) -> (res: Vec<MdEvent>)
    ensures
        res@.len() == md_events(source@, options).len(),
        forall|i: int| 0 <= i < res@.len() ==> res@[i]@ == md_events(source@, options)[i],
{
    let kinds = event_kinds(source, options);
    let blocks = event_block_tags(source, options);
    let inlines = event_inline_tags(source, options);
    let texts = event_texts(source, options);
    let numbers = event_numbers(source, options);
    let flags = event_flags(source, options);
    let aligns = event_aligns(source, options);
    let spans = event_spans(source, options);
    let ghost model = md_events(source@, options);
    let mut res: Vec<MdEvent> = Vec::new();
    let mut i: usize = 0;
    while i < kinds.len()
        invariant
            kinds@.len() == model.len(),
            blocks@.len() == model.len(),
            inlines@.len() == model.len(),
            texts@.len() == model.len(),
            numbers@.len() == model.len(),
            flags@.len() == model.len(),
            aligns@.len() == model.len(),
            spans@.len() == model.len(),
            forall|j: int| 0 <= j < model.len() ==> kinds@[j] == model[j].kind,
            forall|j: int| 0 <= j < model.len() ==> blocks@[j] == (if is_inline_tag(model[j].tag) {
                MdTag::Other } else { model[j].tag }),
            forall|j: int| 0 <= j < model.len() ==> inlines@[j] == (if is_inline_tag(model[j].tag)
                || model[j].tag == MdTag::NoTag { model[j].tag } else { MdTag::Other }),
            forall|j: int| 0 <= j < model.len() ==> texts@[j]@ == model[j].text,
            forall|j: int| 0 <= j < model.len() ==> numbers@[j] == model[j].number,
            forall|j: int| 0 <= j < model.len() ==> flags@[j] == model[j].flag,
            forall|j: int| 0 <= j < model.len() ==> aligns@[j]@ == model[j].aligns,
            forall|j: int| 0 <= j < model.len() ==> spans@[j].0 == model[j].start && spans@[j].1
                == model[j].end,
            i <= model.len(),
            res@.len() == i,
            forall|j: int| 0 <= j < i ==> res@[j]@ == model[j],
        decreases model.len() - i,
    {
        let tag = if blocks[i] != MdTag::Other { blocks[i] } else { inlines[i] };
        let event = MdEvent {
            kind: kinds[i],
            tag,
            text: texts[i].clone(),
            number: numbers[i],
            flag: flags[i],
            aligns: aligns[i].clone(),
            start: spans[i].0,
            end: spans[i].1,
        };
        proof {
            assert(event@.text == model[i as int].text);
            assert(event@.aligns == model[i as int].aligns);
            assert(event@.tag == model[i as int].tag);
        }
        res.push(event);
        i = i + 1;
    }
    res
}

} // verus!
