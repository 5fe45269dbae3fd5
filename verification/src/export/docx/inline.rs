//! Markdown structure rendered as OOXML paragraphs and runs.
//!
//! A `w:p` is a list of runs, and a run carries one set of character marks.
//! So rendering `**bold** and *italic*` means splitting the text at every mark
//! boundary and giving each piece its own `w:r`. This module owns that split,
//! and the paragraphs around it: prose, headings, display equations, list
//! items (numbered through [`super::numbering`]) and tables ([`super::table`]).
//!
//! A block this writer cannot lay out is emitted as its own Markdown source,
//! never dropped. One item a list cannot lay out sends the whole list back to
//! source, one cell a table cannot lay out sends the whole table back.
//!
//! Math is the exception: it is never printed as source. Math that cannot be
//! rendered, or that sits in a block falling back to source, fails instead.
//!
//! `w:rPr` children are a sequence: `w:rStyle`, then `w:b`, `w:i`,
//! `w:strike`. Any other order is a schema violation Word rejects.
use crate::error::Error;
use crate::export::{escape_xml, escape_xml_spec};
use crate::export::docx::media::{drawing_step, Mark, Media};
use crate::export::docx::numbering::{open_step, Instance, Item, Marker, Numbering, MAX_LEVEL};
use crate::export::docx::omml::{math_spec, math_to_omml, Display};
use crate::md::{markdown_events, md_events, Align, MdEvent, MdEventView, MdKind, MdTag, MARKDOWN};
use crate::text::{
    extend_chars, extend_str, is_blank, replace_spec, replace_str, slice_chars, split_chars, split_spec,
    str_chars, string_from_chars, trim_end_spec,
};
use vstd::prelude::*;

verus! {

/// The character style inline code (and a table printed as source) is set
/// in: a style reference, so the preformatted writers share one face.
pub const CODE_STYLE: &'static str = "Code";

/// The explicit line break run.
pub const BREAK_RUN: &'static str = "<w:r><w:br/></w:r>";

/// What a rendered paragraph is, beyond the runs it holds.
#[derive(Debug, Clone, Copy)]
pub enum Kind {
    /// Ordinary prose.
    Prose,
    /// A Markdown heading, at this level.
    Heading(u8),
    /// A display equation standing alone in its paragraph; `centred` sets it
    /// apart, and only a caller that knows nothing else shares the line may
    /// use that.
    Equation,
    /// A paragraph inside a list item.
    Item(Item),
}

/// One rendered paragraph.
#[derive(Debug, Clone)]
pub struct Paragraph {
    /// What the paragraph is, which decides how the caller sets it.
    pub kind: Kind,
    /// The runs the paragraph is made of (for a table, the table itself).
    pub runs: String,
}

impl Paragraph {
    /// The runs, with a standalone display equation set apart in
    /// `m:oMathPara`.
    pub fn centred(&self) -> (res: String)
        ensures
            res@ == (match self.kind {
                Kind::Equation => "<m:oMathPara>"@ + self.runs@ + "</m:oMathPara>"@,
                _ => self.runs@,
            }),
    {
        match self.kind {
            Kind::Equation => {
                let mut out: Vec<char> = Vec::new();
                extend_str(&mut out, "<m:oMathPara>");
                extend_str(&mut out, self.runs.as_str());
                extend_str(&mut out, "</m:oMathPara>");
                string_from_chars(&out)
            },
            _ => self.runs.clone(),
        }
    }
}

/// What a document's paragraphs refer to: its lists, its images, and the
/// MathML its expressions convert from (one `(LaTeX, MathML)` pair per
/// expression).
pub struct Refs<'a> {
    pub numbering: Numbering,
    pub media: Media<'a>,
    pub math: &'a [(String, String)],
}

impl<'a> Refs<'a> {
    /// No lists yet, the supplied `images`, and no MathML.
    pub fn new(images: &'a [(String, Vec<u8>)]) -> (res: Self)
        ensures
            res.media.supplied_spec() == images@,
            res.math@.len() == 0,
            res.numbering.instances_view().len() == 0,
            res.numbering.bullet_view() is None,
            res.media.used_spec().len() == 0,
            res.media.drawings_spec() == 0,
    {
        Refs { numbering: Numbering::new(), media: Media::new(images), math: &[] }
    }

    /// No lists yet, the supplied `images`, and the MathML in `math`.
    pub fn with_math(images: &'a [(String, Vec<u8>)], math: &'a [(String, String)]) -> (res: Self)
        ensures
            res.media.supplied_spec() == images@,
            res.math@ == math@,
            res.numbering.instances_view().len() == 0,
            res.numbering.bullet_view() is None,
            res.media.used_spec().len() == 0,
            res.media.drawings_spec() == 0,
    {
        Refs { numbering: Numbering::new(), media: Media::new(images), math }
    }
}

// ---------------------------------------------------------------------------
// Runs and marks
// ---------------------------------------------------------------------------

/// One text run carrying `properties`, or nothing if there is no text.
pub open spec fn run_spec(text: Seq<char>, properties: Seq<char>) -> Seq<char> {
    if text.len() == 0 {
        Seq::empty()
    } else {
        "<w:r>"@ + properties + "<w:t xml:space=\"preserve\">"@ + escape_xml_spec(text)
            + "</w:t></w:r>"@
    }
}

/// One text run carrying `properties`, or nothing if there is no text.
pub fn run(text: &str, properties: &str) -> (res: String)
    ensures
        res@ == run_spec(text@, properties@),
{
    let chars = str_chars(text);
    if chars.len() == 0 {
        return String::new();
    }
    let mut out: Vec<char> = Vec::new();
    extend_str(&mut out, "<w:r>");
    extend_str(&mut out, properties);
    extend_str(&mut out, "<w:t xml:space=\"preserve\">");
    let escaped = escape_xml(text);
    extend_str(&mut out, escaped.as_str());
    extend_str(&mut out, "</w:t></w:r>");
    assert(out@ =~= run_spec(text@, properties@));
    string_from_chars(&out)
}

/// One literal text run.
pub fn text_run(text: &str) -> (res: String)
    ensures
        res@ == run_spec(text@, Seq::empty()),
{
    let empty = String::new();
    run(text, empty.as_str())
}

/// How deeply each character mark is open on the current run. Depths, not
/// flags: CommonMark nests same-kind emphasis, so `**a __b__ c**` opens
/// strong twice and `b` must stay bold.
#[derive(Debug, Clone, Copy)]
pub struct Marks {
    /// Depth of open code spans.
    pub code: u32,
    /// Depth of open strong spans.
    pub bold: u32,
    /// Depth of open emphasis spans.
    pub italic: u32,
    /// Depth of open strikethrough spans.
    pub strike: u32,
}

/// Whether `tag` is one of the character marks.
pub open spec fn is_mark_tag(tag: MdTag) -> bool {
    tag == MdTag::Strong || tag == MdTag::Emphasis || tag == MdTag::Strikethrough
}

/// Whether `e` opens or closes a character mark.
pub open spec fn is_mark_event(e: MdEventView) -> bool {
    (e.kind == MdKind::Start || e.kind == MdKind::End) && is_mark_tag(e.tag)
}

/// One more, held at `u32::MAX`.
pub open spec fn deeper(n: u32) -> u32 {
    if n == u32::MAX { n } else { (n + 1) as u32 }
}

/// One less, held at zero.
pub open spec fn shallower(n: u32) -> u32 {
    if n == 0 { n } else { (n - 1) as u32 }
}

/// `m` after the mark event `e`.
pub open spec fn apply_spec(m: Marks, e: MdEventView) -> Marks {
    let open = e.kind == MdKind::Start;
    if e.tag == MdTag::Strong {
        Marks { bold: if open { deeper(m.bold) } else { shallower(m.bold) }, ..m }
    } else if e.tag == MdTag::Emphasis {
        Marks { italic: if open { deeper(m.italic) } else { shallower(m.italic) }, ..m }
    } else {
        Marks { strike: if open { deeper(m.strike) } else { shallower(m.strike) }, ..m }
    }
}

/// The `w:rPr` for `m`, in schema order, or nothing when unmarked.
pub open spec fn properties_spec(m: Marks) -> Seq<char> {
    let inner = (if m.code > 0 { "<w:rStyle w:val=\"Code\"/>"@ } else { Seq::empty() }) + (if m.bold
        > 0 { "<w:b/>"@ } else { Seq::empty() }) + (if m.italic > 0 { "<w:i/>"@ } else {
        Seq::empty()
    }) + (if m.strike > 0 { "<w:strike/>"@ } else { Seq::empty() });
    if inner.len() == 0 {
        Seq::empty()
    } else {
        "<w:rPr>"@ + inner + "</w:rPr>"@
    }
}

fn raise(n: u32) -> (res: u32)
    ensures
        res == deeper(n),
{
    if n == u32::MAX { n } else { n + 1 }
}

fn lower(n: u32) -> (res: u32)
    ensures
        res == shallower(n),
{
    if n == 0 { n } else { n - 1 }
}

impl Marks {
    /// No marks open.
    pub fn plain() -> (res: Marks)
        ensures
            res == (Marks { code: 0, bold: 0, italic: 0, strike: 0 }),
    {
        Marks { code: 0, bold: 0, italic: 0, strike: 0 }
    }

    /// Strong open once: how a header cell starts.
    pub fn bold() -> (res: Marks)
        ensures
            res == (Marks { code: 0, bold: 1, italic: 0, strike: 0 }),
    {
        Marks { code: 0, bold: 1, italic: 0, strike: 0 }
    }

    /// The same marks with a code span open: additive, so a code span keeps
    /// the emphasis around it.
    pub fn as_code(self) -> (res: Marks)
        ensures
            res == (Marks { code: deeper(self.code), ..self }),
    {
        Marks { code: raise(self.code), ..self }
    }

    /// Apply `e` if it opens or closes a mark, reporting whether it did.
    pub fn apply(&mut self, e: &MdEvent) -> (res: bool)
        ensures
            res == is_mark_event(e@),
            res ==> *final(self) == apply_spec(*old(self), e@),
            !res ==> *final(self) == *old(self),
    {
        if !((e.kind == MdKind::Start || e.kind == MdKind::End) && (e.tag == MdTag::Strong || e.tag
            == MdTag::Emphasis || e.tag == MdTag::Strikethrough)) {
            return false;
        }
        let open = e.kind == MdKind::Start;
        if e.tag == MdTag::Strong {
            self.bold = if open { raise(self.bold) } else { lower(self.bold) };
        } else if e.tag == MdTag::Emphasis {
            self.italic = if open { raise(self.italic) } else { lower(self.italic) };
        } else {
            self.strike = if open { raise(self.strike) } else { lower(self.strike) };
        }
        true
    }

    /// The `w:rPr` for these marks, in schema order, or nothing if unmarked.
    pub fn properties(&self) -> (res: String)
        ensures
            res@ == properties_spec(*self),
    {
        let mut inner: Vec<char> = Vec::new();
        if self.code > 0 {
            extend_str(&mut inner, "<w:rStyle w:val=\"Code\"/>");
        }
        if self.bold > 0 {
            extend_str(&mut inner, "<w:b/>");
        }
        if self.italic > 0 {
            extend_str(&mut inner, "<w:i/>");
        }
        if self.strike > 0 {
            extend_str(&mut inner, "<w:strike/>");
        }
        let ghost expect = (if self.code > 0 { "<w:rStyle w:val=\"Code\"/>"@ } else { Seq::empty() })
            + (if self.bold > 0 { "<w:b/>"@ } else { Seq::empty() }) + (if self.italic > 0 {
            "<w:i/>"@
        } else { Seq::empty() }) + (if self.strike > 0 { "<w:strike/>"@ } else { Seq::empty() });
        assert(inner@ =~= expect);
        if inner.len() == 0 {
            return String::new();
        }
        let mut out: Vec<char> = Vec::new();
        extend_str(&mut out, "<w:rPr>");
        extend_chars(&mut out, &inner);
        extend_str(&mut out, "</w:rPr>");
        assert(out@ =~= properties_spec(*self));
        string_from_chars(&out)
    }
}

/// What one plain, non-mark event writes under marks `m`. A soft break is a
/// wrap in the source, so it reflows as a space; a hard break keeps its line.
pub open spec fn piece_spec(e: MdEventView, m: Marks) -> Seq<char> {
    if e.kind == MdKind::Text {
        run_spec(e.text, properties_spec(m))
    } else if e.kind == MdKind::Code {
        run_spec(e.text, properties_spec(Marks { code: deeper(m.code), ..m }))
    } else if e.kind == MdKind::SoftBreak {
        run_spec(" "@, properties_spec(m))
    } else {
        BREAK_RUN@
    }
}

/// The events as values.
pub open spec fn events_view(events: Seq<MdEvent>) -> Seq<MdEventView> {
    events.map_values(|e: MdEvent| e@)
}

/// Whether `e` is math, inline or display.
pub open spec fn is_math(e: MdEventView) -> bool {
    e.kind == MdKind::InlineMath || e.kind == MdKind::DisplayMath
}

/// The first math event among `ev[k..to]`.
pub open spec fn first_math(ev: Seq<MdEventView>, k: int, to: int) -> Option<int>
    decreases to - k,
{
    if k >= to {
        None
    } else if is_math(ev[k]) {
        Some(k)
    } else {
        first_math(ev, k + 1, to)
    }
}

/// Whether `res` is a refusal of math.
pub open spec fn math_refusal(res: Error) -> bool {
    res is UnsupportedMath
}

/// Whether `e` refuses the math `latex` for `reason`.
pub open spec fn refused_with(e: Error, latex: Seq<char>, reason: Seq<char>) -> bool {
    e matches Error::UnsupportedMath { latex: l, reason: r } && l@ == latex && r@ == reason
}

/// The refusal for math in a block that prints as source.
pub const MATH_IN_SOURCE: &'static str = "it sits inside Markdown the Word writer cannot lay out yet — a list, table, quote, link or image — where it would print as LaTeX source. Move it into a paragraph of its own.";

/// The check on `ev[from..to]` before it prints as source: refused (with
/// the first math's LaTeX) if it holds math.
pub open spec fn source_check(ev: Seq<MdEventView>, from: int, to: int) -> Result<(), (Seq<char>, Seq<char>)> {
    match first_math(ev, from, to) {
        Some(k) => Err((ev[k].text, MATH_IN_SOURCE@)),
        None => Ok(()),
    }
}

/// Whether `res` is what the check `spec` says.
pub open spec fn checked_as(res: Result<(), Error>, spec: Result<(), (Seq<char>, Seq<char>)>) -> bool {
    match spec {
        Ok(()) => res is Ok,
        Err((l, r)) => res matches Err(e) && refused_with(e, l, r),
    }
}

/// Refuse `events[from..to]` if any of them is math, naming the first.
///
/// Called on the paths that print Markdown source: `$\frac{a}{b}$` on an
/// exam is a formula nobody can read and nobody notices until the copies
/// are printed.
pub fn refuse_math(events: &Vec<MdEvent>, from: usize, to: usize) -> (res: Result<(), Error>)
    requires
        from <= to <= events@.len(),
    ensures
        checked_as(res, source_check(events_view(events@), from as int, to as int)),
{
    let ghost ev = events_view(events@);
    let mut k = from;
    while k < to
        invariant
            from <= k <= to,
            to <= events@.len(),
            ev == events_view(events@),
            first_math(ev, from as int, to as int) == first_math(ev, k as int, to as int),
        decreases to - k,
    {
        if events[k].kind == MdKind::InlineMath || events[k].kind == MdKind::DisplayMath {
            return Err(Error::UnsupportedMath {
                latex: events[k].text.clone(),
                reason: MATH_IN_SOURCE.to_string(),
            });
        }
        k = k + 1;
    }
    Ok(())
}

/// Where the image opened before `k` ends: its `End` among `ev[k..to]`, or
/// `to`.
pub open spec fn image_end_spec(ev: Seq<MdEventView>, k: int, to: int) -> int
    decreases to - k,
{
    if k >= to {
        to
    } else if ev[k].kind == MdKind::End && ev[k].tag == MdTag::Image {
        k
    } else {
        image_end_spec(ev, k + 1, to)
    }
}

/// An image's end lies between where the search starts and `to`.
pub proof fn lemma_image_end_bounds(ev: Seq<MdEventView>, k: int, to: int)
    requires
        k <= to,
    ensures
        k <= image_end_spec(ev, k, to) <= to,
    decreases to - k,
{
    if k < to {
        lemma_image_end_bounds(ev, k + 1, to);
    }
}

/// An image's description: the text among `ev[lo..hi]`.
pub open spec fn alt_spec(ev: Seq<MdEventView>, lo: int, hi: int) -> Seq<char>
    decreases hi - lo,
{
    if hi <= lo {
        Seq::empty()
    } else {
        alt_spec(ev, lo, hi - 1) + (if ev[hi - 1].kind == MdKind::Text { ev[hi - 1].text } else { Seq::empty() })
    }
}

/// What writing runs produced: the runs (`None` when the events must print
/// as source), and the image registry after it.
pub struct RunsOutcome {
    pub runs: Option<Seq<char>>,
    pub used: Seq<usize>,
    pub drawings: u32,
}

/// `x` before the runs of `r`.
pub open spec fn prepend(x: Seq<char>, r: Result<RunsOutcome, (Seq<char>, Seq<char>)>) -> Result<
    RunsOutcome,
    (Seq<char>, Seq<char>),
> {
    match r {
        Ok(o) => Ok(
            match o.runs {
                Some(s) => RunsOutcome { runs: Some(x + s), ..o },
                None => o,
            },
        ),
        Err(e) => Err(e),
    }
}

/// Printing `ev[from..to]` as source instead, with the registry at `used`
/// and `drawings`.
pub open spec fn as_source(ev: Seq<MdEventView>, from: int, to: int, used: Seq<usize>, drawings: u32) -> Result<
    RunsOutcome,
    (Seq<char>, Seq<char>),
> {
    match source_check(ev, from, to) {
        Ok(()) => Ok(RunsOutcome { runs: None, used, drawings }),
        Err(e) => Err(e),
    }
}

/// The runs `ev[i..to]` write under marks `m` (the whole span being
/// `ev[from..to]`), with MathML from `math` and images from `supplied`,
/// the registry at `used` and `drawings`. Text, code and breaks are runs,
/// marks change the marks, math converts, an image is drawn; anything else,
/// or an image that cannot be drawn, sends the whole span to source.
#[verifier::opaque]
pub open spec fn runs_spec(
    ev: Seq<MdEventView>,
    from: int,
    to: int,
    i: int,
    m: Marks,
    math: Seq<(String, String)>,
    supplied: Seq<(String, Vec<u8>)>,
    used: Seq<usize>,
    drawings: u32,
) -> Result<RunsOutcome, (Seq<char>, Seq<char>)>
    decreases to - i,
{
    if i >= to {
        Ok(RunsOutcome { runs: Some(Seq::empty()), used, drawings })
    } else {
        let e = ev[i];
        if is_mark_event(e) {
            runs_spec(ev, from, to, i + 1, apply_spec(m, e), math, supplied, used, drawings)
        } else if e.kind == MdKind::Text || e.kind == MdKind::Code || e.kind == MdKind::SoftBreak
            || e.kind == MdKind::HardBreak {
            prepend(piece_spec(e, m), runs_spec(ev, from, to, i + 1, m, math, supplied, used, drawings))
        } else if is_math(e) {
            match math_spec(math, e.text) {
                Err(r) => Err((e.text, r)),
                Ok(x) => prepend(x, runs_spec(ev, from, to, i + 1, m, math, supplied, used, drawings)),
            }
        } else if e.kind == MdKind::Start && e.tag == MdTag::Image {
            let end = image_end_spec(ev, i + 1, to);
            proof {
                lemma_image_end_bounds(ev, i + 1, to);
            }
            let step = drawing_step(supplied, used, drawings, e.text, alt_spec(ev, i + 1, end));
            match step.0 {
                Some(x) => prepend(
                    x,
                    runs_spec(ev, from, to, if end < to { end + 1 } else { to }, m, math, supplied, step.1, step.2),
                ),
                None => as_source(ev, from, to, used, drawings),
            }
        } else {
            as_source(ev, from, to, used, drawings)
        }
    }
}

/// Putting `a` and then `b` before some runs is putting `a + b` before them.
pub proof fn lemma_prepend_twice(a: Seq<char>, b: Seq<char>, r: Result<RunsOutcome, (Seq<char>, Seq<char>)>)
    ensures
        prepend(a, prepend(b, r)) == prepend(a + b, r),
{
    if let Ok(o) = r {
        if let Some(s) = o.runs {
            assert(a + (b + s) =~= (a + b) + s);
        }
    }
}

/// Where the image that starts at `start` ends (its `End`), or `to`.
fn image_end(events: &Vec<MdEvent>, start: usize, to: usize) -> (res: usize)
    requires
        start < to <= events@.len(),
    ensures
        res == image_end_spec(events_view(events@), start + 1, to as int),
        start < res <= to,
{
    let ghost ev = events_view(events@);
    let mut k = start + 1;
    while k < to
        invariant
            start < k <= to,
            to <= events@.len(),
            ev == events_view(events@),
            image_end_spec(ev, start + 1, to as int) == image_end_spec(ev, k as int, to as int),
        decreases to - k,
    {
        if events[k].kind == MdKind::End && events[k].tag == MdTag::Image {
            return k;
        }
        k = k + 1;
    }
    to
}

/// What one plain, non-mark event `e` writes under marks `m`.
fn plain_piece(e: &MdEvent, m: Marks) -> (res: String)
    requires
        e.kind == MdKind::Text || e.kind == MdKind::Code || e.kind == MdKind::SoftBreak || e.kind
            == MdKind::HardBreak,
    ensures
        res@ == piece_spec(e@, m),
{
    if e.kind == MdKind::Text {
        let props = m.properties();
        run(e.text.as_str(), props.as_str())
    } else if e.kind == MdKind::Code {
        let props = m.as_code().properties();
        run(e.text.as_str(), props.as_str())
    } else if e.kind == MdKind::SoftBreak {
        let props = m.properties();
        run(" ", props.as_str())
    } else {
        BREAK_RUN.to_string()
    }
}

/// Draw the image that opens at `events[i]`, described by the text up to
/// its end; also where the events after it resume.
fn image_run(events: &Vec<MdEvent>, i: usize, to: usize, refs: &mut Refs) -> (res: (Option<String>, usize))
    requires
        i < to <= events@.len(),
    ensures
        ({
            let ev = events_view(events@);
            let end = image_end_spec(ev, i + 1, to as int);
            let step = drawing_step(
                old(refs).media.supplied_spec(),
                old(refs).media.used_spec(),
                old(refs).media.drawings_spec(),
                ev[i as int].text,
                alt_spec(ev, i + 1, end),
            );
            &&& step.0 == (match res.0 {
                Some(x) => Some(x@),
                None => None,
            })
            &&& step.1 == final(refs).media.used_spec()
            &&& step.2 == final(refs).media.drawings_spec()
            &&& res.1 == (if end < to { end + 1 } else { to as int })
        }),
        i < res.1 <= to,
        final(refs).media.supplied_spec() == old(refs).media.supplied_spec(),
        final(refs).math@ == old(refs).math@,
        final(refs).numbering == old(refs).numbering,
{
    let ghost ev = events_view(events@);
    let end = image_end(events, i, to);
    let mut alt: Vec<char> = Vec::new();
    let mut k = i + 1;
    while k < end
        invariant
            i < k <= end,
            end <= to <= events@.len(),
            ev == events_view(events@),
            alt@ == alt_spec(ev, i + 1, k as int),
        decreases end - k,
    {
        assert(ev[k as int] == events@[k as int]@);
        if events[k].kind == MdKind::Text {
            extend_str(&mut alt, events[k].text.as_str());
        }
        k = k + 1;
    }
    let alt = string_from_chars(&alt);
    assert(ev[i as int] == events@[i as int]@);
    let drawn = refs.media.drawing(events[i].text.as_str(), alt.as_str());
    (drawn, if end < to { end + 1 } else { to })
}

/// The run outcome `res` as the model sees it.
pub open spec fn runs_agree(
    res: Result<Option<String>, Error>,
    spec: Result<RunsOutcome, (Seq<char>, Seq<char>)>,
    used: Seq<usize>,
    drawings: u32,
) -> bool {
    match spec {
        Ok(o) => res matches Ok(x) && (match x {
            Some(s) => o.runs == Some(s@),
            None => o.runs is None,
        }) && used == o.used && drawings == o.drawings,
        Err((l, r)) => res matches Err(e) && refused_with(e, l, r),
    }
}

/// Render the inline events `events[from..to]` as runs, starting under
/// `marks`, math set as `display` where it is display math.
///
/// `Ok(None)` means the events hold something this writer does not lay out
/// (a link, raw HTML, an image with no bytes supplied) and the caller should
/// print the block as source; math anywhere among them is then refused, so
/// whether a block exports cannot depend on which came first.
pub fn runs_for(
    events: &Vec<MdEvent>,
    from: usize,
    to: usize,
    marks: Marks,
    display: Display,
    refs: &mut Refs,
) -> (res: Result<Option<String>, Error>)
    requires
        from <= to <= events@.len(),
    ensures
        runs_agree(
            res,
            runs_spec(
                events_view(events@),
                from as int,
                to as int,
                from as int,
                marks,
                old(refs).math@,
                old(refs).media.supplied_spec(),
                old(refs).media.used_spec(),
                old(refs).media.drawings_spec(),
            ),
            final(refs).media.used_spec(),
            final(refs).media.drawings_spec(),
        ),
        final(refs).media.supplied_spec() == old(refs).media.supplied_spec(),
        final(refs).math@ == old(refs).math@,
        final(refs).numbering == old(refs).numbering,
{
    let ghost ev = events_view(events@);
    let ghost math = refs.math@;
    let ghost supplied = refs.media.supplied_spec();
    let ghost numbering = refs.numbering;
    let ghost whole = runs_spec(ev, from as int, to as int, from as int, marks, math, supplied,
        refs.media.used_spec(), refs.media.drawings_spec());
    let mut out: Vec<char> = Vec::new();
    let mut current = marks;
    let mut i = from;
    while i < to
        invariant
            from <= i <= to,
            to <= events@.len(),
            ev == events_view(events@),
            refs.math@ == math,
            refs.media.supplied_spec() == supplied,
            refs.numbering == numbering,
            math == old(refs).math@,
            supplied == old(refs).media.supplied_spec(),
            numbering == old(refs).numbering,
            whole == runs_spec(ev, from as int, to as int, from as int, marks, math, supplied,
                old(refs).media.used_spec(), old(refs).media.drawings_spec()),
            whole == prepend(out@, runs_spec(ev, from as int, to as int, i as int, current, math, supplied,
                refs.media.used_spec(), refs.media.drawings_spec())),
        decreases to - i,
    {
        let ghost used = refs.media.used_spec();
        let ghost drawings = refs.media.drawings_spec();
        let ghost before = out@;
        let ghost here = current;
        assert(ev[i as int] == events@[i as int]@);
        let e = &events[i];
        if current.apply(e) {
            assert(runs_spec(ev, from as int, to as int, i as int, here, math, supplied, used, drawings)
                == runs_spec(ev, from as int, to as int, i + 1, current, math, supplied, used, drawings)) by {
                reveal(runs_spec);
            }
            i = i + 1;
            continue;
        }
        if e.kind == MdKind::Text || e.kind == MdKind::Code || e.kind == MdKind::SoftBreak
            || e.kind == MdKind::HardBreak {
            let piece = plain_piece(e, current);
            extend_str(&mut out, piece.as_str());
            assert(runs_spec(ev, from as int, to as int, i as int, here, math, supplied, used, drawings)
                == prepend(piece@, runs_spec(ev, from as int, to as int, i + 1, current, math, supplied, used, drawings))) by {
                reveal(runs_spec);
            }
            proof {
                lemma_prepend_twice(before, piece@, runs_spec(ev, from as int, to as int, i + 1, current, math,
                    supplied, used, drawings));
            }
            i = i + 1;
        } else if e.kind == MdKind::InlineMath || e.kind == MdKind::DisplayMath {
            let mode = if e.kind == MdKind::InlineMath { Display::Inline } else { display };
            assert(runs_spec(ev, from as int, to as int, i as int, here, math, supplied, used, drawings)
                == match math_spec(math, ev[i as int].text) {
                Err(r) => Err((ev[i as int].text, r)),
                Ok(x) => prepend(x, runs_spec(ev, from as int, to as int, i + 1, here, math, supplied, used, drawings)),
            }) by {
                reveal(runs_spec);
            }
            let xml = match math_to_omml(e.text.as_str(), mode, refs.math) {
                Ok(xml) => xml,
                Err(e) => return Err(e),
            };
            extend_str(&mut out, xml.as_str());
            proof {
                lemma_prepend_twice(before, xml@, runs_spec(ev, from as int, to as int, i + 1, current, math,
                    supplied, used, drawings));
            }
            i = i + 1;
        } else if e.kind == MdKind::Start && e.tag == MdTag::Image {
            let (drawn, next) = image_run(events, i, to, refs);
            assert(runs_spec(ev, from as int, to as int, i as int, here, math, supplied, used, drawings)
                == match drawn {
                Some(x) => prepend(x@, runs_spec(ev, from as int, to as int, next as int, here, math, supplied,
                    refs.media.used_spec(), refs.media.drawings_spec())),
                None => as_source(ev, from as int, to as int, used, drawings),
            }) by {
                reveal(runs_spec);
            }
            match drawn {
                Some(xml) => {
                    extend_str(&mut out, xml.as_str());
                    proof {
                        lemma_prepend_twice(before, xml@, runs_spec(ev, from as int, to as int, next as int,
                            current, math, supplied, refs.media.used_spec(), refs.media.drawings_spec()));
                    }
                    i = next;
                },
                None => {
                    match refuse_math(events, from, to) {
                        Ok(()) => return Ok(None),
                        Err(e) => return Err(e),
                    }
                },
            }
        } else {
            assert(runs_spec(ev, from as int, to as int, i as int, here, math, supplied, used, drawings)
                == as_source(ev, from as int, to as int, used, drawings)) by {
                reveal(runs_spec);
            }
            match refuse_math(events, from, to) {
                Ok(()) => return Ok(None),
                Err(e) => return Err(e),
            }
        }
    }
    assert(runs_spec(ev, from as int, to as int, i as int, current, math, supplied, refs.media.used_spec(),
        refs.media.drawings_spec()) == Ok::<RunsOutcome, (Seq<char>, Seq<char>)>(RunsOutcome {
        runs: Some(Seq::empty()),
        used: refs.media.used_spec(),
        drawings: refs.media.drawings_spec(),
    })) by {
        reveal(runs_spec);
    }
    assert(out@ + Seq::<char>::empty() =~= out@);
    Ok(Some(string_from_chars(&out)))
}

// ---------------------------------------------------------------------------
// Blocks
// ---------------------------------------------------------------------------

/// Where the tag opened before `k` closes, `depth` tags being open: the
/// matching `End` among `ev[k..to]`, or `to` when it never does.
pub open spec fn match_end_spec(ev: Seq<MdEventView>, k: int, to: int, depth: nat) -> int
    decreases to - k,
{
    if k >= to {
        to
    } else if ev[k].kind == MdKind::Start {
        match_end_spec(ev, k + 1, to, if depth < usize::MAX { depth + 1 } else { depth })
    } else if ev[k].kind == MdKind::End {
        let d: nat = if depth > 0 { (depth - 1) as nat } else { 0 };
        if d == 0 {
            k
        } else {
            match_end_spec(ev, k + 1, to, d)
        }
    } else {
        match_end_spec(ev, k + 1, to, depth)
    }
}

/// The matching end lies between where the search starts and `to`.
pub proof fn lemma_match_end_bounds(ev: Seq<MdEventView>, k: int, to: int, depth: nat)
    requires
        k <= to,
    ensures
        k <= match_end_spec(ev, k, to, depth) <= to,
    decreases to - k,
{
    if k < to {
        let next: nat = if ev[k].kind == MdKind::Start {
            if depth < usize::MAX { depth + 1 } else { depth }
        } else if ev[k].kind == MdKind::End {
            if depth > 0 { (depth - 1) as nat } else { 0 }
        } else {
            depth
        };
        lemma_match_end_bounds(ev, k + 1, to, next);
    }
}

/// Where the tag opened at `start` closes: the matching `End` among
/// `events[start + 1..to]`, counting nesting, or `to` when it never does.
pub fn match_end(events: &Vec<MdEvent>, start: usize, to: usize) -> (res: usize)
    requires
        start < to <= events@.len(),
    ensures
        res == match_end_spec(events_view(events@), start + 1, to as int, 1),
        start < res <= to,
{
    let ghost ev = events_view(events@);
    let mut depth: usize = 1;
    let mut k = start + 1;
    proof {
        lemma_match_end_bounds(ev, start + 1, to as int, 1);
    }
    while k < to
        invariant
            start < k <= to,
            to <= events@.len(),
            ev == events_view(events@),
            depth > 0,
            match_end_spec(ev, start + 1, to as int, 1) == match_end_spec(ev, k as int, to as int, depth as nat),
        decreases to - k,
    {
        assert(ev[k as int] == events@[k as int]@);
        if events[k].kind == MdKind::Start {
            depth = if depth < usize::MAX { depth + 1 } else { depth };
        } else if events[k].kind == MdKind::End {
            depth = if depth > 0 { depth - 1 } else { 0 };
            if depth == 0 {
                return k;
            }
        }
        k = k + 1;
    }
    to
}

/// What a top-level block is.
#[derive(Debug, Clone, Copy)]
pub enum BlockKind {
    /// A paragraph or heading: runs in a paragraph of this kind.
    Prose(Kind),
    /// A list, marked this way.
    List(Marker),
    /// Anything else (a table, a code block, a quote): printed as its own
    /// source.
    Literal,
}

/// One top-level block: its span of the source in characters, the range of
/// events inside it (just after the event that opens it), and what it is.
#[derive(Debug, Clone, Copy)]
pub struct Block {
    pub start: usize,
    pub end: usize,
    pub from: usize,
    pub to: usize,
    pub kind: BlockKind,
}

/// A heading level as its number, clamped to 1 to 6.
pub open spec fn depth_spec(number: Option<u64>) -> u8 {
    match number {
        Some(n) => if n < 1 {
            1
        } else if n > 6 {
            6
        } else {
            n as u8
        },
        None => 1,
    }
}

/// A heading level as its number, 1 to 6.
fn depth(number: Option<u64>) -> (res: u8)
    ensures
        res == depth_spec(number),
{
    match number {
        Some(n) => if n < 1 {
            1
        } else if n > 6 {
            6
        } else {
            n as u8
        },
        None => 1,
    }
}

/// The list marker an opening list event asks for.
pub open spec fn marker_spec(number: Option<u64>) -> Marker {
    match number {
        Some(n) => Marker::Ordered(n),
        None => Marker::Bullet,
    }
}

/// What the block opened by `ev[i]` is, its events being `ev[i + 1..close]`:
/// a paragraph holding display math alone is an equation.
pub open spec fn block_kind_spec(ev: Seq<MdEventView>, i: int, close: int) -> BlockKind {
    let tag = ev[i].tag;
    if tag == MdTag::Paragraph {
        BlockKind::Prose(
            if close - (i + 1) == 1 && ev[i + 1].kind == MdKind::DisplayMath { Kind::Equation } else { Kind::Prose },
        )
    } else if tag == MdTag::Heading {
        BlockKind::Prose(Kind::Heading(depth_spec(ev[i].number)))
    } else if tag == MdTag::List {
        BlockKind::List(marker_spec(ev[i].number))
    } else {
        BlockKind::Literal
    }
}

/// The top-level blocks among `ev[i..]`: each opening event up to its
/// matching end, what lies between them skipped.
pub open spec fn blocks_spec(ev: Seq<MdEventView>, i: int) -> Seq<Block>
    decreases ev.len() - i,
{
    if i < 0 || i >= ev.len() {
        Seq::empty()
    } else if ev[i].kind != MdKind::Start {
        blocks_spec(ev, i + 1)
    } else {
        let close = match_end_spec(ev, i + 1, ev.len() as int, 1);
        proof {
            lemma_match_end_bounds(ev, i + 1, ev.len() as int, 1);
        }
        seq![
            Block {
                start: ev[i].start as usize,
                end: ev[i].end as usize,
                from: (i + 1) as usize,
                to: close as usize,
                kind: block_kind_spec(ev, i, close),
            },
        ] + blocks_spec(ev, if close < ev.len() { close + 1 } else { ev.len() as int })
    }
}

/// Every block opens just after an event and ends within the events.
pub open spec fn blocks_within(bs: Seq<Block>, n: nat) -> bool {
    forall|k: int| 0 <= k < bs.len() ==> 1 <= #[trigger] bs[k].from <= bs[k].to <= n
}

/// Split the events into their top-level blocks, each with the span of its
/// whole element, so a block that cannot be rendered has its own source to
/// fall back to.
pub fn blocks(events: &Vec<MdEvent>) -> (res: Vec<Block>)
    ensures
        res@ == blocks_spec(events_view(events@), 0),
        blocks_within(res@, events@.len()),
{
    let ghost ev = events_view(events@);
    let mut out: Vec<Block> = Vec::new();
    let mut i: usize = 0;
    while i < events.len()
        invariant
            i <= events@.len(),
            ev == events_view(events@),
            blocks_spec(ev, 0) == out@ + blocks_spec(ev, i as int),
            blocks_within(out@, events@.len()),
        decreases events@.len() - i,
    {
        assert(ev[i as int] == events@[i as int]@);
        if events[i].kind != MdKind::Start {
            i = i + 1;
            continue;
        }
        let close = match_end(events, i, events.len());
        let from = i + 1;
        let tag = events[i].tag;
        let kind = if tag == MdTag::Paragraph {
            let equation = close - from == 1 && events[from].kind == MdKind::DisplayMath;
            proof {
                if close - from == 1 {
                    assert(ev[from as int] == events@[from as int]@);
                }
            }
            BlockKind::Prose(if equation { Kind::Equation } else { Kind::Prose })
        } else if tag == MdTag::Heading {
            BlockKind::Prose(Kind::Heading(depth(events[i].number)))
        } else if tag == MdTag::List {
            BlockKind::List(
                match events[i].number {
                    Some(n) => Marker::Ordered(n),
                    None => Marker::Bullet,
                },
            )
        } else {
            BlockKind::Literal
        };
        let block = Block { start: events[i].start, end: events[i].end, from, to: close, kind };
        let next = if close < events.len() { close + 1 } else { events.len() };
        proof {
            assert(blocks_spec(ev, i as int) == seq![block] + blocks_spec(ev, next as int));
            assert(out@.push(block) + blocks_spec(ev, next as int) =~= out@ + (seq![block] + blocks_spec(ev, next as int)));
        }
        out.push(block);
        i = next;
    }
    assert(out@ + blocks_spec(ev, i as int) =~= out@);
    out
}

/// The offset of the start of the line `at` falls on: one past the last
/// line break before it, or 0; `at` itself where it lies past the end.
pub open spec fn line_start_spec(s: Seq<char>, at: nat) -> nat
    decreases at,
{
    if at > s.len() {
        at
    } else if at == 0 {
        0
    } else if s[at - 1] == '\n' {
        at
    } else {
        line_start_spec(s, (at - 1) as nat)
    }
}

/// The offset of the start of the line `at` falls on. The parser reports an
/// indented code block from its content, not its indent, so slicing the
/// reported span alone would de-indent the first line.
pub fn line_start(s: &Vec<char>, at: usize) -> (res: usize)
    ensures
        res == line_start_spec(s@, at as nat),
        at <= s@.len() ==> res <= at,
{
    if at > s.len() {
        return at;
    }
    let mut k = at;
    while k > 0
        invariant
            k <= at <= s@.len(),
            line_start_spec(s@, at as nat) == line_start_spec(s@, k as nat),
        decreases k,
    {
        if s[k - 1] == '\n' {
            return k;
        }
        k = k - 1;
    }
    0
}

/// `s` with leading line breaks removed (and only those).
pub open spec fn trim_newlines_start(s: Seq<char>) -> Seq<char>
    decreases s.len(),
{
    if s.len() > 0 && s[0] == '\n' {
        trim_newlines_start(s.skip(1))
    } else {
        s
    }
}

/// The lines of `lines`, each as a run under `properties`, separated by
/// line-break runs.
pub open spec fn joined_runs(lines: Seq<Seq<char>>, properties: Seq<char>) -> Seq<char>
    decreases lines.len(),
{
    if lines.len() == 0 {
        Seq::empty()
    } else if lines.len() == 1 {
        run_spec(lines[0], properties)
    } else {
        joined_runs(lines.drop_last(), properties) + BREAK_RUN@ + run_spec(lines.last(), properties)
    }
}

/// A block this writer cannot render, as runs of its own source: trailing
/// whitespace and leading blank lines trimmed (spaces are kept, so a code
/// block keeps its indent), one run per line, explicit breaks between.
pub open spec fn literal_spec(source: Seq<char>) -> Seq<char> {
    joined_runs(split_spec(trim_newlines_start(trim_end_spec(source)), '\n'), Seq::empty())
}

/// A block printed as its own source (see [`literal_spec`]).
pub fn literal(source: &Vec<char>) -> (res: String)
    ensures
        res@ == literal_spec(source@),
{
    let end = crate::text::trailing_ws_end(source, source.len());
    let trimmed = slice_chars(source, 0, end);
    assert(source@.subrange(0, source@.len() as int) =~= source@);
    let mut start: usize = 0;
    assert(trimmed@.skip(0) =~= trimmed@);
    while start < trimmed.len() && trimmed[start] == '\n'
        invariant
            start <= trimmed@.len(),
            trimmed@ == trim_end_spec(source@),
            trim_newlines_start(trimmed@) == trim_newlines_start(trimmed@.skip(start as int)),
        decreases trimmed@.len() - start,
    {
        assert(trimmed@.skip(start as int).skip(1) =~= trimmed@.skip(start + 1));
        start = start + 1;
    }
    let body = slice_chars(&trimmed, start, trimmed.len());
    assert(body@ =~= trimmed@.skip(start as int));
    let lines = split_chars(&body, '\n');
    let properties = String::new();
    let ghost model = split_spec(body@, '\n');
    let mut out: Vec<char> = Vec::new();
    let mut k: usize = 0;
    while k < lines.len()
        invariant
            k <= lines@.len(),
            lines@.len() == model.len(),
            forall|j: int| 0 <= j < lines@.len() ==> #[trigger] lines@[j]@ == model[j],
            properties@ == Seq::<char>::empty(),
            out@ == joined_runs(model.subrange(0, k as int), properties@),
        decreases lines@.len() - k,
    {
        if k > 0 {
            extend_str(&mut out, BREAK_RUN);
        }
        let line = string_from_chars(&lines[k]);
        let piece = run(line.as_str(), properties.as_str());
        extend_str(&mut out, piece.as_str());
        assert(model.subrange(0, k + 1).drop_last() =~= model.subrange(0, k as int));
        assert(out@ =~= joined_runs(model.subrange(0, k + 1), properties@));
        k = k + 1;
    }
    assert(model.subrange(0, model.len() as int) =~= model);
    string_from_chars(&out)
}

/// Whether every list-item paragraph of `ps` sits at a level the numbering
/// part defines.
pub open spec fn levels_defined(ps: Seq<Paragraph>) -> bool {
    forall|k: int| 0 <= k < ps.len() ==> (#[trigger] ps[k].kind matches Kind::Item(item) ==> item.level
        <= MAX_LEVEL)
}

/// A rendered paragraph as plain values.
pub struct ParagraphView {
    pub kind: Kind,
    pub runs: Seq<char>,
}

/// A paragraph as plain values.
pub open spec fn para_view(p: Paragraph) -> ParagraphView {
    ParagraphView { kind: p.kind, runs: p.runs@ }
}

/// The paragraphs as plain values.
pub open spec fn paras_view(ps: Seq<Paragraph>) -> Seq<ParagraphView> {
    ps.map_values(|p: Paragraph| para_view(p))
}

/// Where a document's registries stand: its list instances and shared bullet
/// id, the images it drew and how many drawings it wrote.
pub struct Registry {
    pub instances: Seq<Instance>,
    pub bullet: Option<u32>,
    pub used: Seq<usize>,
    pub drawings: u32,
}

/// Where the registries of `refs` stand.
pub open spec fn registry(refs: Refs) -> Registry {
    Registry {
        instances: refs.numbering.instances_view(),
        bullet: refs.numbering.bullet_view(),
        used: refs.media.used_spec(),
        drawings: refs.media.drawings_spec(),
    }
}

/// What rendering paragraphs produced: the paragraphs (`None` when the
/// Markdown must print as source instead), and the registries after it.
pub struct ParasOutcome {
    pub paras: Option<Seq<ParagraphView>>,
    pub reg: Registry,
}

/// `ps` before the paragraphs of `r`.
pub open spec fn prepend_paras(ps: Seq<ParagraphView>, r: Result<ParasOutcome, (Seq<char>, Seq<char>)>) -> Result<
    ParasOutcome,
    (Seq<char>, Seq<char>),
> {
    match r {
        Ok(o) => Ok(
            match o.paras {
                Some(q) => ParasOutcome { paras: Some(ps + q), ..o },
                None => o,
            },
        ),
        Err(e) => Err(e),
    }
}

/// Putting `a` and then `b` before some paragraphs is putting `a + b` before them.
pub proof fn lemma_prepend_paras_twice(
    a: Seq<ParagraphView>,
    b: Seq<ParagraphView>,
    r: Result<ParasOutcome, (Seq<char>, Seq<char>)>,
)
    ensures
        prepend_paras(a, prepend_paras(b, r)) == prepend_paras(a + b, r),
{
    if let Ok(o) = r {
        if let Some(q) = o.paras {
            assert(a + (b + q) =~= (a + b) + q);
        }
    }
}

/// Whether `res` is what the model `spec` says, the registries of the
/// document ending at `reg`.
pub open spec fn paras_agree(
    res: Result<Option<Vec<Paragraph>>, Error>,
    spec: Result<ParasOutcome, (Seq<char>, Seq<char>)>,
    reg: Registry,
) -> bool {
    match spec {
        Ok(o) => res matches Ok(x) && (match x {
            Some(v) => o.paras == Some(paras_view(v@)),
            None => o.paras is None,
        }) && reg == o.reg,
        Err((l, r)) => res matches Err(e) && refused_with(e, l, r),
    }
}

/// No marks open.
pub open spec fn plain_marks() -> Marks {
    Marks { code: 0, bold: 0, italic: 0, strike: 0 }
}

/// The text `ev[start..end]` of a list item as one paragraph of `kind`.
pub open spec fn segment_spec(
    ev: Seq<MdEventView>,
    start: int,
    end: int,
    kind: Kind,
    math: Seq<(String, String)>,
    supplied: Seq<(String, Vec<u8>)>,
    reg: Registry,
) -> Result<ParasOutcome, (Seq<char>, Seq<char>)> {
    match runs_spec(ev, start, end, start, plain_marks(), math, supplied, reg.used, reg.drawings) {
        Err(e) => Err(e),
        Ok(o) => Ok(ParasOutcome {
            paras: match o.runs {
                Some(x) => Some(seq![ParagraphView { kind, runs: x }]),
                None => None,
            },
            reg: Registry { used: o.used, drawings: o.drawings, ..reg },
        }),
    }
}

/// The paragraphs of one list `ev[from..to]` at nesting `level`: the list
/// opens its numbering, then each item in turn.
pub open spec fn list_spec(
    ev: Seq<MdEventView>,
    from: int,
    to: int,
    marker: Marker,
    level: u8,
    math: Seq<(String, String)>,
    supplied: Seq<(String, Vec<u8>)>,
    reg: Registry,
) -> Result<ParasOutcome, (Seq<char>, Seq<char>)>
    decreases to - from, 3nat, 0nat,
{
    let step = open_step(reg.instances, reg.bullet, marker, level);
    items_spec(ev, from, to, from, step.0, level, math, supplied, Registry { instances: step.1, bullet: step.2, ..reg })
}

/// The items among `ev[i..to]` of list `id` (whose events are
/// `ev[from..to]`); what is not an item is stepped past.
pub open spec fn items_spec(
    ev: Seq<MdEventView>,
    from: int,
    to: int,
    i: int,
    id: u32,
    level: u8,
    math: Seq<(String, String)>,
    supplied: Seq<(String, Vec<u8>)>,
    reg: Registry,
) -> Result<ParasOutcome, (Seq<char>, Seq<char>)>
    decreases to - from, 2nat, to - i,
{
    if i < from || i >= to {
        Ok(ParasOutcome { paras: Some(Seq::empty()), reg })
    } else if ev[i].kind == MdKind::Start && ev[i].tag == MdTag::Item {
        let close = match_end_spec(ev, i + 1, to, 1);
        proof {
            lemma_match_end_bounds(ev, i + 1, to, 1);
        }
        match item_spec(ev, i + 1, close, id, level, math, supplied, reg) {
            Err(e) => Err(e),
            Ok(o) => match o.paras {
                None => Ok(o),
                Some(ps) => prepend_paras(
                    ps,
                    items_spec(ev, from, to, if close < to { close + 1 } else { to }, id, level, math, supplied, o.reg),
                ),
            },
        }
    } else {
        items_spec(ev, from, to, i + 1, id, level, math, supplied, reg)
    }
}

/// Whether a list item `ev[k..to]` opens with text of its own (rather than
/// a nested list, or nothing), paragraph boundaries aside.
pub open spec fn opens_with_text_spec(ev: Seq<MdEventView>, k: int, to: int) -> bool
    decreases to - k,
{
    if k < 0 || k >= to {
        false
    } else if ev[k].kind == MdKind::Start && ev[k].tag == MdTag::List {
        false
    } else if (ev[k].kind == MdKind::Start || ev[k].kind == MdKind::End) && ev[k].tag == MdTag::Paragraph {
        opens_with_text_spec(ev, k + 1, to)
    } else {
        true
    }
}

/// The paragraphs of one list item `ev[from..to]`. Only its first paragraph
/// carries the marker; an item that does not open with text gets an empty
/// marked paragraph first, so a numbered list does not renumber around it.
pub open spec fn item_spec(
    ev: Seq<MdEventView>,
    from: int,
    to: int,
    id: u32,
    level: u8,
    math: Seq<(String, String)>,
    supplied: Seq<(String, Vec<u8>)>,
    reg: Registry,
) -> Result<ParasOutcome, (Seq<char>, Seq<char>)>
    decreases to - from, 1nat, 0nat,
{
    if opens_with_text_spec(ev, from, to) {
        item_loop_spec(ev, from, to, id, level, from, from, true, math, supplied, reg)
    } else {
        prepend_paras(
            seq![ParagraphView { kind: item_kind_spec(id, level, true), runs: Seq::empty() }],
            item_loop_spec(ev, from, to, id, level, from, from, false, math, supplied, reg),
        )
    }
}

/// The text `ev[start..j]` pending in an item, as a paragraph if there is
/// any.
pub open spec fn pending_spec(
    ev: Seq<MdEventView>,
    start: int,
    j: int,
    kind: Kind,
    math: Seq<(String, String)>,
    supplied: Seq<(String, Vec<u8>)>,
    reg: Registry,
) -> Result<ParasOutcome, (Seq<char>, Seq<char>)> {
    if start < j {
        segment_spec(ev, start, j, kind, math, supplied, reg)
    } else {
        Ok(ParasOutcome { paras: Some(Seq::empty()), reg })
    }
}

/// The rest of a list item `ev[from..to]` from `j`, its text pending since
/// `start` and `marked` saying whether the next paragraph carries the
/// marker: a nested list goes one level deeper (clamped at the deepest), a
/// paragraph boundary ends the pending text.
pub open spec fn item_loop_spec(
    ev: Seq<MdEventView>,
    from: int,
    to: int,
    id: u32,
    level: u8,
    start: int,
    j: int,
    marked: bool,
    math: Seq<(String, String)>,
    supplied: Seq<(String, Vec<u8>)>,
    reg: Registry,
) -> Result<ParasOutcome, (Seq<char>, Seq<char>)>
    decreases to - from, 0nat, to - j,
{
    if j < from || j >= to {
        pending_spec(ev, start, to, item_kind_spec(id, level, marked), math, supplied, reg)
    } else {
        let e = ev[j];
        let boundary = e.kind == MdKind::Start && e.tag == MdTag::List || (e.kind == MdKind::Start || e.kind
            == MdKind::End) && e.tag == MdTag::Paragraph;
        if !boundary {
            item_loop_spec(ev, from, to, id, level, start, j + 1, marked, math, supplied, reg)
        } else {
            match pending_spec(ev, start, j, item_kind_spec(id, level, marked), math, supplied, reg) {
                Err(err) => Err(err),
                Ok(o1) => match o1.paras {
                    None => Ok(o1),
                    Some(ps1) => {
                        let marked2 = if start < j { false } else { marked };
                        if e.kind == MdKind::Start && e.tag == MdTag::List {
                            let close = match_end_spec(ev, j + 1, to, 1);
                            proof {
                                lemma_match_end_bounds(ev, j + 1, to, 1);
                            }
                            let deeper: u8 = if level < MAX_LEVEL { (level + 1) as u8 } else { MAX_LEVEL };
                            match list_spec(ev, j + 1, close, marker_spec(e.number), deeper, math, supplied, o1.reg) {
                                Err(err) => Err(err),
                                Ok(o2) => match o2.paras {
                                    None => Ok(o2),
                                    Some(ps2) => {
                                        let next = if close < to { close + 1 } else { to };
                                        prepend_paras(
                                            ps1 + ps2,
                                            item_loop_spec(ev, from, to, id, level, next, next, marked2, math, supplied, o2.reg),
                                        )
                                    },
                                },
                            }
                        } else {
                            prepend_paras(
                                ps1,
                                item_loop_spec(ev, from, to, id, level, j + 1, j + 1, marked2, math, supplied, o1.reg),
                            )
                        }
                    },
                },
            }
        }
    }
}

/// The lasting parts of `refs`: the images on offer and the MathML.
pub open spec fn same_sources(a: Refs, b: Refs) -> bool {
    a.media.supplied_spec() == b.media.supplied_spec() && a.math@ == b.math@
}

/// Append `more` to `out`.
fn extend_paragraphs(out: &mut Vec<Paragraph>, more: Vec<Paragraph>)
    requires
        levels_defined(old(out)@),
        levels_defined(more@),
    ensures
        levels_defined(final(out)@),
        paras_view(final(out)@) == paras_view(old(out)@) + paras_view(more@),
{
    let ghost start = out@;
    let ghost all = more@;
    let mut k: usize = 0;
    while k < more.len()
        invariant
            k <= more@.len(),
            more@ == all,
            levels_defined(all),
            levels_defined(out@),
            paras_view(out@) == paras_view(start) + paras_view(all.subrange(0, k as int)),
        decreases more@.len() - k,
    {
        let ghost before = out@;
        out.push(more[k].clone_paragraph());
        assert(paras_view(out@) =~= paras_view(before).push(paras_view(all)[k as int]));
        assert(paras_view(all.subrange(0, k + 1)) =~= paras_view(all.subrange(0, k as int)).push(paras_view(all)[k as int]));
        k = k + 1;
    }
    assert(all.subrange(0, k as int) =~= all);
}

impl Paragraph {
    /// A copy of this paragraph.
    pub fn clone_paragraph(&self) -> (res: Paragraph)
        ensures
            res.runs@ == self.runs@,
            res.kind == self.kind,
    {
        Paragraph { kind: self.kind, runs: self.runs.clone() }
    }
}

/// A list item's paragraph kind.
pub open spec fn item_kind_spec(id: u32, level: u8, marked: bool) -> Kind {
    Kind::Item(Item { list: id, level, marked })
}

/// The text segment `events[start..end]` as a paragraph of `kind`;
/// `Ok(None)` when it cannot be laid out.
fn segment(events: &Vec<MdEvent>, start: usize, end: usize, kind: Kind, refs: &mut Refs) -> (res: Result<
    Option<Vec<Paragraph>>,
    Error,
>)
    requires
        start <= end <= events@.len(),
        kind matches Kind::Item(item) ==> item.level <= MAX_LEVEL,
    ensures
        paras_agree(
            res,
            segment_spec(events_view(events@), start as int, end as int, kind, old(refs).math@,
                old(refs).media.supplied_spec(), registry(*old(refs))),
            registry(*final(refs)),
        ),
        same_sources(*old(refs), *final(refs)),
        res matches Ok(Some(ps)) ==> levels_defined(ps@),
{
    match runs_for(events, start, end, Marks::plain(), Display::Inline, refs) {
        Ok(Some(runs)) => {
            let p = Paragraph { kind, runs };
            let ghost pv = ParagraphView { kind, runs: p.runs@ };
            let v = vec![p];
            assert(paras_view(v@) =~= seq![pv]);
            Ok(Some(v))
        },
        Ok(None) => Ok(None),
        Err(e) => Err(e),
    }
}

/// Whether the list item `events[from..to]` opens with text of its own.
fn opens_with_text(events: &Vec<MdEvent>, from: usize, to: usize) -> (res: bool)
    requires
        from <= to <= events@.len(),
    ensures
        res == opens_with_text_spec(events_view(events@), from as int, to as int),
{
    let ghost ev = events_view(events@);
    let mut probe = from;
    while probe < to
        invariant
            from <= probe <= to <= events@.len(),
            ev == events_view(events@),
            opens_with_text_spec(ev, from as int, to as int) == opens_with_text_spec(ev, probe as int, to as int),
        decreases to - probe,
    {
        assert(ev[probe as int] == events@[probe as int]@);
        let e = &events[probe];
        if e.kind == MdKind::Start && e.tag == MdTag::List {
            return false;
        }
        if (e.kind == MdKind::Start || e.kind == MdKind::End) && e.tag == MdTag::Paragraph {
            probe = probe + 1;
            continue;
        }
        return true;
    }
    false
}

/// The paragraphs of one list at nesting `level`: `Ok(None)` when an item
/// holds something this writer does not render, and the whole list should
/// print as source.
pub fn list(
    events: &Vec<MdEvent>,
    from: usize,
    to: usize,
    marker: Marker,
    level: u8,
    refs: &mut Refs,
) -> (res: Result<Option<Vec<Paragraph>>, Error>)
    requires
        from <= to <= events@.len(),
        level <= MAX_LEVEL,
    ensures
        paras_agree(
            res,
            list_spec(events_view(events@), from as int, to as int, marker, level, old(refs).math@,
                old(refs).media.supplied_spec(), registry(*old(refs))),
            registry(*final(refs)),
        ),
        same_sources(*old(refs), *final(refs)),
        res matches Ok(Some(ps)) ==> levels_defined(ps@),
    decreases to - from, 1nat,
{
    let ghost ev = events_view(events@);
    let ghost math = refs.math@;
    let ghost supplied = refs.media.supplied_spec();
    let id = refs.numbering.open(marker, level);
    let ghost whole = items_spec(ev, from as int, to as int, from as int, id, level, math, supplied, registry(*refs));
    let mut rendered: Vec<Paragraph> = Vec::new();
    let mut i = from;
    assert(paras_view(rendered@) =~= Seq::<ParagraphView>::empty());
    assert(prepend_paras(Seq::empty(), whole) == whole) by {
        if let Ok(o) = whole {
            if let Some(q) = o.paras {
                assert(Seq::<ParagraphView>::empty() + q =~= q);
            }
        }
    }
    while i < to
        invariant
            from <= i <= to <= events@.len(),
            level <= MAX_LEVEL,
            ev == events_view(events@),
            refs.math@ == math,
            refs.media.supplied_spec() == supplied,
            math == old(refs).math@,
            supplied == old(refs).media.supplied_spec(),
            whole == list_spec(ev, from as int, to as int, marker, level, math, supplied, registry(*old(refs))),
            whole == prepend_paras(paras_view(rendered@), items_spec(ev, from as int, to as int, i as int, id,
                level, math, supplied, registry(*refs))),
            levels_defined(rendered@),
        decreases to - i,
    {
        let ghost before = paras_view(rendered@);
        assert(ev[i as int] == events@[i as int]@);
        if events[i].kind == MdKind::Start && events[i].tag == MdTag::Item {
            let close = match_end(events, i, to);
            let next = if close < to { close + 1 } else { to };
            match item_paragraphs(events, i + 1, close, id, level, refs) {
                Ok(Some(ps)) => {
                    let ghost more = paras_view(ps@);
                    extend_paragraphs(&mut rendered, ps);
                    proof {
                        lemma_prepend_paras_twice(before, more, items_spec(ev, from as int, to as int, next as int,
                            id, level, math, supplied, registry(*refs)));
                    }
                },
                Ok(None) => return Ok(None),
                Err(e) => return Err(e),
            }
            i = next;
        } else {
            i = i + 1;
        }
    }
    assert(paras_view(rendered@) + Seq::<ParagraphView>::empty() =~= paras_view(rendered@));
    Ok(Some(rendered))
}

/// The paragraphs of one list item `events[from..to]`, including any list
/// nested in it. Only the item's first paragraph carries the marker; an item
/// with no text of its own still gets an empty marked paragraph, so a
/// numbered list does not renumber around it.
pub fn item_paragraphs(
    events: &Vec<MdEvent>,
    from: usize,
    to: usize,
    id: u32,
    level: u8,
    refs: &mut Refs,
) -> (res: Result<Option<Vec<Paragraph>>, Error>)
    requires
        from <= to <= events@.len(),
        level <= MAX_LEVEL,
    ensures
        paras_agree(
            res,
            item_spec(events_view(events@), from as int, to as int, id, level, old(refs).math@,
                old(refs).media.supplied_spec(), registry(*old(refs))),
            registry(*final(refs)),
        ),
        same_sources(*old(refs), *final(refs)),
        res matches Ok(Some(ps)) ==> levels_defined(ps@),
    decreases to - from, 0nat,
{
    let ghost ev = events_view(events@);
    let ghost math = refs.math@;
    let ghost supplied = refs.media.supplied_spec();
    let ghost whole = item_spec(ev, from as int, to as int, id, level, math, supplied, registry(*refs));
    let mut rendered: Vec<Paragraph> = Vec::new();
    let mut marked = true;
    // An item opening with a nested list (or holding nothing) keeps its own
    // marker on an empty paragraph.
    if !opens_with_text(events, from, to) {
        rendered.push(Paragraph { kind: Kind::Item(Item { list: id, level, marked: true }), runs: String::new() });
        marked = false;
    }
    let mut start = from;
    let mut j = from;
    proof {
        let rest = item_loop_spec(ev, from as int, to as int, id, level, from as int, from as int, marked, math,
            supplied, registry(*refs));
        if marked {
            assert(paras_view(rendered@) =~= Seq::<ParagraphView>::empty());
            if let Ok(o) = rest {
                if let Some(q) = o.paras {
                    assert(Seq::<ParagraphView>::empty() + q =~= q);
                }
            }
        } else {
            assert(paras_view(rendered@) =~= seq![ParagraphView { kind: item_kind_spec(id, level, true), runs: Seq::empty() }]);
        }
    }
    while j < to
        invariant
            from <= start <= j <= to <= events@.len(),
            level <= MAX_LEVEL,
            ev == events_view(events@),
            refs.math@ == math,
            refs.media.supplied_spec() == supplied,
            math == old(refs).math@,
            supplied == old(refs).media.supplied_spec(),
            whole == item_spec(ev, from as int, to as int, id, level, math, supplied, registry(*old(refs))),
            whole == prepend_paras(paras_view(rendered@), item_loop_spec(ev, from as int, to as int, id, level,
                start as int, j as int, marked, math, supplied, registry(*refs))),
            levels_defined(rendered@),
        decreases to - j,
    {
        let ghost before = paras_view(rendered@);
        let ghost reg0 = registry(*refs);
        assert(ev[j as int] == events@[j as int]@);
        let e = &events[j];
        let is_list = e.kind == MdKind::Start && e.tag == MdTag::List;
        let is_boundary = (e.kind == MdKind::Start || e.kind == MdKind::End) && e.tag == MdTag::Paragraph;
        if !is_list && !is_boundary {
            assert(item_loop_spec(ev, from as int, to as int, id, level, start as int, j as int, marked, math, supplied,
                reg0) == item_loop_spec(ev, from as int, to as int, id, level, start as int, j + 1, marked, math,
                supplied, reg0));
            j = j + 1;
            continue;
        }
        let kind = Kind::Item(Item { list: id, level, marked });
        let ghost pending = pending_spec(ev, start as int, j as int, kind, math, supplied, reg0);
        let ghost was_marked = marked;
        if start < j {
            match segment(events, start, j, kind, refs) {
                Ok(Some(ps)) => extend_paragraphs(&mut rendered, ps),
                Ok(None) => return Ok(None),
                Err(e) => return Err(e),
            }
            marked = false;
        } else {
            assert(paras_view(rendered@) =~= before + Seq::<ParagraphView>::empty());
        }
        let ghost mid = paras_view(rendered@);
        assert(pending matches Ok(o1) && o1.paras is Some && mid == before + o1.paras->0 && o1.reg == registry(*refs));
        let ghost ps1 = pending->Ok_0.paras->0;
        let ghost reg1 = registry(*refs);
        if is_list {
            let close = match_end(events, j, to);
            let nested = match events[j].number {
                Some(n) => Marker::Ordered(n),
                None => Marker::Bullet,
            };
            let deeper = if level < MAX_LEVEL { level + 1 } else { MAX_LEVEL };
            let next = if close < to { close + 1 } else { to };
            assert(item_loop_spec(ev, from as int, to as int, id, level, start as int, j as int, was_marked, math,
                supplied, reg0) == match list_spec(ev, j + 1, close as int, nested, deeper, math, supplied, reg1) {
                Err(err) => Err(err),
                Ok(o2) => match o2.paras {
                    None => Ok(o2),
                    Some(ps2) => prepend_paras(
                        ps1 + ps2,
                        item_loop_spec(ev, from as int, to as int, id, level, next as int, next as int, marked, math,
                            supplied, o2.reg),
                    ),
                },
            });
            match list(events, j + 1, close, nested, deeper, refs) {
                Ok(Some(ps)) => {
                    let ghost more = paras_view(ps@);
                    extend_paragraphs(&mut rendered, ps);
                    proof {
                        let tail = item_loop_spec(ev, from as int, to as int, id, level, next as int, next as int,
                            marked, math, supplied, registry(*refs));
                        lemma_prepend_paras_twice(before, ps1 + more, tail);
                        assert(before + (ps1 + more) =~= mid + more);
                    }
                },
                Ok(None) => return Ok(None),
                Err(e) => return Err(e),
            }
            j = next;
            start = j;
        } else {
            proof {
                let tail = item_loop_spec(ev, from as int, to as int, id, level, j + 1, j + 1, marked, math,
                    supplied, registry(*refs));
                assert(item_loop_spec(ev, from as int, to as int, id, level, start as int, j as int, was_marked, math,
                    supplied, reg0) == prepend_paras(ps1, tail));
                lemma_prepend_paras_twice(before, ps1, tail);
            }
            j = j + 1;
            start = j;
        }
    }
    if start < to {
        let kind = Kind::Item(Item { list: id, level, marked });
        let ghost before = paras_view(rendered@);
        match segment(events, start, to, kind, refs) {
            Ok(Some(ps)) => extend_paragraphs(&mut rendered, ps),
            Ok(None) => return Ok(None),
            Err(e) => return Err(e),
        }
    } else {
        assert(paras_view(rendered@) + Seq::<ParagraphView>::empty() =~= paras_view(rendered@));
    }
    Ok(Some(rendered))
}

/// `s[from..to]`, or nothing when that is not a span of `s`.
pub open spec fn span_spec(s: Seq<char>, from: int, to: int) -> Seq<char> {
    if 0 <= from <= to <= s.len() {
        s.subrange(from, to)
    } else {
        Seq::empty()
    }
}

/// Source between blocks as a literal paragraph, unless it is only
/// whitespace.
pub open spec fn gap_spec(source: Seq<char>) -> Seq<ParagraphView> {
    if crate::text::trim_spec(source).len() == 0 {
        Seq::empty()
    } else {
        seq![ParagraphView { kind: Kind::Prose, runs: literal_spec(source) }]
    }
}

/// Push `source` as a literal paragraph, unless it is only whitespace. This
/// covers what the parser reports no event at all for: a link reference
/// definition, whose address would otherwise vanish from the sheet.
fn push_gap(rendered: &mut Vec<Paragraph>, source: &Vec<char>)
    requires
        levels_defined(old(rendered)@),
    ensures
        levels_defined(final(rendered)@),
        paras_view(final(rendered)@) == paras_view(old(rendered)@) + gap_spec(source@),
{
    let text = string_from_chars(source);
    if !is_blank(text.as_str()) {
        let ghost before = rendered@;
        rendered.push(Paragraph { kind: Kind::Prose, runs: literal(source) });
        assert(paras_view(rendered@) =~= paras_view(before) + gap_spec(source@));
    } else {
        assert(paras_view(rendered@) =~= paras_view(rendered@) + gap_spec(source@));
    }
}

/// `s[from..to]`, or nothing when that is not a span of `s`.
fn span(s: &Vec<char>, from: usize, to: usize) -> (res: Vec<char>)
    ensures
        res@ == span_spec(s@, from as int, to as int),
{
    if from <= to && to <= s.len() {
        slice_chars(s, from, to)
    } else {
        Vec::new()
    }
}

/// The registries `reg` rewound to where `mark` stood: the images drawn
/// since forgotten, the drawing count restored.
pub open spec fn rewound(reg: Registry, mark: Mark) -> Registry {
    Registry {
        used: if mark.used <= reg.used.len() { reg.used.subrange(0, mark.used as int) } else { reg.used },
        drawings: mark.drawings,
        ..reg
    }
}

/// A block printed as its own `source`, with the images it drew discarded
/// and any math in it refused.
pub open spec fn fallback_spec(
    ev: Seq<MdEventView>,
    block: Block,
    source: Seq<char>,
    reg: Registry,
    mark: Mark,
) -> Result<ParasOutcome, (Seq<char>, Seq<char>)> {
    match source_check(ev, block.from as int, block.to as int) {
        Err(e) => Err(e),
        Ok(()) => Ok(ParasOutcome {
            paras: Some(seq![ParagraphView { kind: Kind::Prose, runs: literal_spec(source) }]),
            reg: rewound(reg, mark),
        }),
    }
}

/// The paragraph kind a prose block renders as.
pub open spec fn prose_kind(kind: Kind) -> Kind {
    match kind {
        Kind::Heading(level) => Kind::Heading(level),
        Kind::Equation => Kind::Equation,
        _ => Kind::Prose,
    }
}

/// What one top-level block renders to, its source being `source`: prose as
/// one paragraph of runs, a list as its items; whatever of these cannot be
/// laid out, or any other block (a table, a code block, a quote), as source.
#[verifier::opaque]
pub open spec fn block_spec(
    ev: Seq<MdEventView>,
    block: Block,
    source: Seq<char>,
    math: Seq<(String, String)>,
    supplied: Seq<(String, Vec<u8>)>,
    reg: Registry,
) -> Result<ParasOutcome, (Seq<char>, Seq<char>)> {
    let mark = Mark { used: reg.used.len() as usize, drawings: reg.drawings };
    let (from, to) = (block.from as int, block.to as int);
    match block.kind {
        BlockKind::Prose(kind) => match runs_spec(ev, from, to, from, plain_marks(), math, supplied, reg.used, reg.drawings) {
            Err(e) => Err(e),
            Ok(o) => {
                let reg2 = Registry { used: o.used, drawings: o.drawings, ..reg };
                match o.runs {
                    Some(x) => Ok(ParasOutcome { paras: Some(seq![ParagraphView { kind: prose_kind(kind), runs: x }]), reg: reg2 }),
                    None => fallback_spec(ev, block, source, reg2, mark),
                }
            },
        },
        BlockKind::List(marker) => match list_spec(ev, from, to, marker, 0, math, supplied, reg) {
            Err(e) => Err(e),
            Ok(o) => match o.paras {
                Some(ps) => Ok(o),
                None => fallback_spec(ev, block, source, o.reg, mark),
            },
        },
        BlockKind::Literal => fallback_spec(ev, block, source, reg, mark),
    }
}

/// Render one top-level block, appending its paragraphs to `out`; a block
/// that cannot be laid out is printed as its own `source`, with any images
/// it drew discarded and any math in it refused.
fn render_block(
    block: &Block,
    events: &Vec<MdEvent>,
    source: &Vec<char>,
    refs: &mut Refs,
    out: &mut Vec<Paragraph>,
) -> (res: Result<(), Error>)
    requires
        1 <= block.from <= block.to <= events@.len(),
        levels_defined(old(out)@),
    ensures
        levels_defined(final(out)@),
        same_sources(*old(refs), *final(refs)),
        match block_spec(events_view(events@), *block, source@, old(refs).math@, old(refs).media.supplied_spec(),
            registry(*old(refs))) {
            Ok(o) => res is Ok && o.paras is Some && paras_view(final(out)@) == paras_view(old(out)@) + o.paras->0
                && registry(*final(refs)) == o.reg,
            Err((l, r)) => res matches Err(e) && refused_with(e, l, r),
        },
{
    reveal(block_spec);
    let ghost ev = events_view(events@);
    let ghost before = paras_view(out@);
    let mark = refs.media.mark();
    match block.kind {
        BlockKind::Prose(kind) => {
            let display = match kind {
                Kind::Equation => Display::Block,
                _ => Display::Inline,
            };
            let kind = match kind {
                Kind::Heading(level) => Kind::Heading(level),
                Kind::Equation => Kind::Equation,
                _ => Kind::Prose,
            };
            match runs_for(events, block.from, block.to, Marks::plain(), display, refs) {
                Ok(Some(runs)) => {
                    let ghost pv = ParagraphView { kind, runs: runs@ };
                    out.push(Paragraph { kind, runs });
                    assert(paras_view(out@) =~= before + seq![pv]);
                    return Ok(());
                },
                Ok(None) => {},
                Err(e) => return Err(e),
            }
        },
        BlockKind::List(marker) => {
            match list(events, block.from, block.to, marker, 0, refs) {
                Ok(Some(ps)) => {
                    extend_paragraphs(out, ps);
                    return Ok(());
                },
                Ok(None) => {},
                Err(e) => return Err(e),
            }
        },
        BlockKind::Literal => {},
    }
    refs.media.rewind(mark);
    match refuse_math(events, block.from, block.to) {
        Ok(()) => {},
        Err(e) => return Err(e),
    }
    let ghost pv = ParagraphView { kind: Kind::Prose, runs: literal_spec(source@) };
    out.push(Paragraph { kind: Kind::Prose, runs: literal(source) });
    assert(paras_view(out@) =~= before + seq![pv]);
    Ok(())
}

/// Markdown with its line endings made `\n`.
pub open spec fn normalised_spec(markdown: Seq<char>) -> Seq<char> {
    replace_spec(replace_spec(markdown, "\r\n"@, "\n"@), "\r"@, "\n"@)
}

/// The paragraphs of the blocks `bs[k..]` of `source` (whose events are
/// `ev`), the source up to `covered` already accounted for: before each
/// block, the source since the last one that no block covers (from the
/// start of the line the block begins on); after the last, the rest.
#[verifier::opaque]
pub open spec fn blocks_render_spec(
    source: Seq<char>,
    ev: Seq<MdEventView>,
    bs: Seq<Block>,
    k: int,
    covered: int,
    math: Seq<(String, String)>,
    supplied: Seq<(String, Vec<u8>)>,
    reg: Registry,
) -> Result<ParasOutcome, (Seq<char>, Seq<char>)>
    decreases bs.len() - k,
{
    if k < 0 || k >= bs.len() {
        Ok(ParasOutcome { paras: Some(gap_spec(span_spec(source, covered, source.len() as int))), reg })
    } else {
        let block = bs[k];
        let from = line_start_spec(source, block.start as nat) as int;
        let gap = gap_spec(span_spec(source, covered, from));
        let next = if block.end > covered { block.end as int } else { covered };
        match block_spec(ev, block, span_spec(source, from, block.end as int), math, supplied, reg) {
            Err(e) => Err(e),
            Ok(o) => prepend_paras(
                gap + match o.paras {
                    Some(ps) => ps,
                    None => Seq::empty(),
                },
                blocks_render_spec(source, ev, bs, k + 1, next, math, supplied, o.reg),
            ),
        }
    }
}

/// The paragraphs `markdown` renders to, with MathML from `math`, images
/// from `supplied`, the registries at `reg`.
pub open spec fn paragraphs_spec(
    markdown: Seq<char>,
    math: Seq<(String, String)>,
    supplied: Seq<(String, Vec<u8>)>,
    reg: Registry,
) -> Result<ParasOutcome, (Seq<char>, Seq<char>)> {
    let source = normalised_spec(markdown);
    let ev = md_events(source, MARKDOWN);
    blocks_render_spec(source, ev, blocks_spec(ev, 0), 0, 0, math, supplied, reg)
}

/// Render `markdown` as the paragraphs it contains, in document order.
///
/// Only the runs are decided here; the caller picks the `w:pPr` around them.
/// Line endings are normalised to `\n` first, so no `\r` reaches a `w:t`.
/// `refs` carries the document's lists (their ids must be unique across the
/// whole document), images and MathML.
///
/// Fails only on math: math that cannot be converted, or that sits in a
/// block printed as source.
pub fn paragraphs(markdown: &str, refs: &mut Refs) -> (res: Result<Vec<Paragraph>, Error>)
    ensures
        match paragraphs_spec(markdown@, old(refs).math@, old(refs).media.supplied_spec(), registry(*old(refs))) {
            Ok(o) => res matches Ok(ps) && o.paras == Some(paras_view(ps@)) && registry(*final(refs)) == o.reg,
            Err((l, r)) => res matches Err(e) && refused_with(e, l, r),
        },
        same_sources(*old(refs), *final(refs)),
        res matches Ok(ps) ==> levels_defined(ps@),
        res matches Err(e) ==> math_refusal(e),
{
    let once = replace_str(markdown, "\r\n", "\n");
    let normalised = replace_str(once.as_str(), "\r", "\n");
    let source = str_chars(normalised.as_str());
    let events = markdown_events(normalised.as_str(), MARKDOWN);
    let ghost ev = events_view(events@);
    assert(ev =~= md_events(source@, MARKDOWN));
    let found = blocks(&events);
    let ghost math = refs.math@;
    let ghost supplied = refs.media.supplied_spec();
    let ghost whole = blocks_render_spec(source@, ev, found@, 0, 0, math, supplied, registry(*refs));
    assert(whole == paragraphs_spec(markdown@, math, supplied, registry(*old(refs))));
    let mut rendered: Vec<Paragraph> = Vec::new();
    let mut covered: usize = 0;
    let mut k: usize = 0;
    assert(paras_view(rendered@) =~= Seq::<ParagraphView>::empty());
    assert(prepend_paras(Seq::empty(), whole) == whole) by {
        if let Ok(o) = whole {
            if let Some(q) = o.paras {
                assert(Seq::<ParagraphView>::empty() + q =~= q);
            }
        }
    }
    while k < found.len()
        invariant
            k <= found@.len(),
            blocks_within(found@, events@.len()),
            ev == events_view(events@),
            refs.math@ == math,
            refs.media.supplied_spec() == supplied,
            math == old(refs).math@,
            supplied == old(refs).media.supplied_spec(),
            whole == paragraphs_spec(markdown@, math, supplied, registry(*old(refs))),
            whole == prepend_paras(paras_view(rendered@), blocks_render_spec(source@, ev, found@, k as int,
                covered as int, math, supplied, registry(*refs))),
            levels_defined(rendered@),
        decreases found@.len() - k,
    {
        let ghost before = paras_view(rendered@);
        let ghost reg0 = registry(*refs);
        let block = &found[k];
        assert(1 <= block.from <= block.to <= events@.len());
        let from = line_start(&source, block.start);
        push_gap(&mut rendered, &span(&source, covered, from));
        let ghost mid = paras_view(rendered@);
        let next = if block.end > covered { block.end } else { covered };
        let text = span(&source, from, block.end);
        let ghost gap = gap_spec(span_spec(source@, covered as int, from as int));
        assert(mid == before + gap);
        assert(blocks_render_spec(source@, ev, found@, k as int, covered as int, math, supplied, reg0) == match block_spec(
            ev, *block, text@, math, supplied, reg0) {
            Err(e) => Err(e),
            Ok(o) => prepend_paras(gap + match o.paras {
                Some(ps) => ps,
                None => Seq::empty(),
            }, blocks_render_spec(source@, ev, found@, k + 1, next as int, math, supplied, o.reg)),
        }) by {
            reveal(blocks_render_spec);
        }
        match render_block(block, &events, &text, refs, &mut rendered) {
            Ok(()) => {},
            Err(e) => return Err(e),
        }
        proof {
            let tail = blocks_render_spec(source@, ev, found@, k + 1, next as int, math, supplied, registry(*refs));
            let now = paras_view(rendered@);
            let o = block_spec(ev, *block, text@, math, supplied, reg0)->Ok_0;
            assert(block_spec(ev, *block, text@, math, supplied, reg0) is Ok);
            let shown = o.paras->0;
            assert(now == mid + shown);
            assert(o.reg == registry(*refs));
            assert(blocks_render_spec(source@, ev, found@, k as int, covered as int, math, supplied, reg0)
                == prepend_paras(gap + shown, tail));
            lemma_prepend_paras_twice(before, gap + shown, tail);
            assert(before + (gap + shown) =~= now);
        }
        covered = next;
        k = k + 1;
    }
    let ghost before = paras_view(rendered@);
    assert(blocks_render_spec(source@, ev, found@, k as int, covered as int, math, supplied, registry(*refs))
        == Ok::<ParasOutcome, (Seq<char>, Seq<char>)>(ParasOutcome {
        paras: Some(gap_spec(span_spec(source@, covered as int, source@.len() as int))),
        reg: registry(*refs),
    })) by {
        reveal(blocks_render_spec);
    }
    push_gap(&mut rendered, &span(&source, covered, source.len()));
    Ok(rendered)
}
} // verus!
