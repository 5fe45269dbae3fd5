//! Fenced diagram blocks (` ```mermaid `, ` ```dot `) rendered into bundled
//! images.
//!
//! Canvas renders neither mermaid nor Graphviz, so before a bank is exported
//! each diagram block is rendered to an image and the block replaced with a
//! local image reference (`generated/…`). Rendering itself is the caller's
//! closure, so this pass stays pure; a diagram that fails to render is left as
//! a code block and reported as a warning, and never fails the export.
use crate::error::{debug_quoted, debug_str};
use crate::md::{markdown_events, md_events, MdEventView, MdKind, MdTag};
use crate::model::{rich_text_spec, same_shape, Question};
use crate::text::{
    extend_str, is_whitespace, is_ws, leading_ws, lemma_split_nonempty, slice_chars, split_chars,
    split_spec, str_chars, str_eq, string_from_chars, trim_spec, trim_start_spec, trim_str,
};
use std::hash::{DefaultHasher, Hash, Hasher};
use vstd::prelude::*;

verus! {

/// The reserved bundle directory for generated images.
pub const GENERATED_DIR: &'static str = "generated";

/// Whether `path` is one of the generated-diagram outputs: its first
/// `/`-separated segment is `generated`.
pub fn is_generated_path(path: &str) -> (res: bool)
    ensures
        res == (split_spec(path@, '/')[0] == GENERATED_DIR@),
{
    let chars = str_chars(path);
    let pieces = split_chars(&chars, '/');
    proof {
        lemma_split_nonempty(path@, '/');
    }
    let first = string_from_chars(&pieces[0]);
    str_eq(first.as_str(), GENERATED_DIR)
}

/// A diagram language recognised in a fenced code block.
#[derive(Debug, Clone, Copy, PartialEq, Eq, Structural)]
pub enum DiagramLanguage {
    /// Mermaid (` ```mermaid `), rendered by the mermaid CLI.
    Mermaid,
    /// Graphviz DOT (` ```dot ` or ` ```graphviz `), rendered by `dot`.
    Graphviz,
}

/// Where the first whitespace character of `s` is, or its length.
pub open spec fn word_end(s: Seq<char>) -> nat
    decreases s.len(),
{
    if s.len() == 0 || is_ws(s[0]) {
        0
    } else {
        1 + word_end(s.skip(1))
    }
}

/// The first whitespace-separated word of `s`, if it has one.
pub open spec fn first_word(s: Seq<char>) -> Option<Seq<char>> {
    let rest = trim_start_spec(s);
    if rest.len() == 0 {
        None
    } else {
        Some(rest.take(word_end(rest) as int))
    }
}

/// The language a fence's info string names: by its first word, exactly and
/// in lower case.
pub open spec fn language_of_info(info: Seq<char>) -> Option<DiagramLanguage> {
    match first_word(info) {
        Some(word) => if word == "mermaid"@ {
            Some(DiagramLanguage::Mermaid)
        } else if word == "dot"@ || word == "graphviz"@ {
            Some(DiagramLanguage::Graphviz)
        } else {
            None
        },
        None => None,
    }
}

/// The canonical short name of a language.
pub open spec fn language_name(language: DiagramLanguage) -> Seq<char> {
    match language {
        DiagramLanguage::Mermaid => "mermaid"@,
        DiagramLanguage::Graphviz => "graphviz"@,
    }
}

proof fn lemma_word_end(s: Seq<char>)
    ensures
        word_end(s) <= s.len(),
        forall|i: int| 0 <= i < word_end(s) ==> !is_ws(#[trigger] s[i]),
        word_end(s) < s.len() ==> is_ws(s[word_end(s) as int]),
    decreases s.len(),
{
    if s.len() > 0 && !is_ws(s[0]) {
        lemma_word_end(s.skip(1));
        assert forall|i: int| 0 <= i < word_end(s) implies !is_ws(#[trigger] s[i]) by {
            if i > 0 {
                assert(s[i] == s.skip(1)[i - 1]);
            }
        }
    }
}

/// Where the first word of `s` ends: the first whitespace at or after
/// `from`, or the end.
fn word_end_from(s: &Vec<char>, from: usize) -> (end: usize)
    requires
        from <= s.len(),
    ensures
        end == from + word_end(s@.skip(from as int)),
        end <= s.len(),
{
    let mut end: usize = from;
    proof { lemma_word_end(s@.skip(from as int)); }
    while end < s.len() && !is_whitespace(s[end])
        invariant
            from <= end <= s.len(),
            word_end(s@.skip(from as int)) == (end - from) + word_end(s@.skip(end as int)),
        decreases s.len() - end,
    {
        assert(s@.skip(end as int).skip(1) =~= s@.skip(end + 1));
        assert(s@.skip(end as int)[0] == s@[end as int]);
        end = end + 1;
    }
    end
}

impl DiagramLanguage {
    /// The language a fenced block's info string names, if it names one.
    ///
    /// Only the first word is considered, so trailing info
    /// (` ```mermaid theme=default `) still selects the language.
    pub fn from_info(info: &str) -> (res: Option<DiagramLanguage>)
        ensures
            res == language_of_info(info@),
    {
        let chars = str_chars(info);
        let start = leading_ws(&chars);
        if start == chars.len() {
            return None;
        }
        let end = word_end_from(&chars, start);
        let ghost rest = chars@.skip(start as int);
        assert(chars@.subrange(start as int, end as int) =~= rest.take(word_end(rest) as int));
        let word = string_from_chars(&slice_chars(&chars, start, end));
        if str_eq(word.as_str(), "mermaid") {
            Some(DiagramLanguage::Mermaid)
        } else if str_eq(word.as_str(), "dot") || str_eq(word.as_str(), "graphviz") {
            Some(DiagramLanguage::Graphviz)
        } else {
            None
        }
    }

    /// The language's canonical short name, used in generated filenames and
    /// warnings: the language, not the fence typed (` ```dot ` is `graphviz`).
    pub fn name(self) -> (res: &'static str)
        ensures
            res@ == language_name(self),
    {
        match self {
            DiagramLanguage::Mermaid => "mermaid",
            DiagramLanguage::Graphviz => "graphviz",
        }
    }

    /// The file extension for this language's source. `mmdc` reads a `.md`
    /// input as Markdown to extract diagrams from, so mermaid's is `mmd`.
    pub fn source_extension(self) -> (res: &'static str)
        ensures
            res@ == (match self {
                DiagramLanguage::Mermaid => "mmd"@,
                DiagramLanguage::Graphviz => "dot"@,
            }),
    {
        match self {
            DiagramLanguage::Mermaid => "mmd",
            DiagramLanguage::Graphviz => "dot",
        }
    }
}

/// The image format diagrams render to.
#[derive(Debug, Clone, Copy, PartialEq, Eq, Structural)]
pub enum DiagramFormat {
    /// Raster PNG, the most reliably rendered format inside Canvas.
    Png,
    /// Scalable SVG.
    Svg,
}

/// A format's file extension.
pub open spec fn format_extension(format: DiagramFormat) -> Seq<char> {
    match format {
        DiagramFormat::Png => "png"@,
        DiagramFormat::Svg => "svg"@,
    }
}

impl DiagramFormat {
    /// The file extension for this format.
    pub fn extension(self) -> (res: &'static str)
        ensures
            res@ == format_extension(self),
    {
        match self {
            DiagramFormat::Png => "png",
            DiagramFormat::Svg => "svg",
        }
    }
}

/// The result of a diagram pass: images to bundle, plus non-fatal warnings.
#[derive(Debug)]
pub struct DiagramOutcome {
    /// Generated diagram images, keyed by their `generated/…` bundle path.
    pub images: Vec<(String, Vec<u8>)>,
    /// One message per diagram that could not be rendered (left as a code
    /// block).
    pub warnings: Vec<String>,
}


// ---------------------------------------------------------------------------
// Finding diagram blocks
// ---------------------------------------------------------------------------

/// One fenced diagram block: its span of the field, in characters, its
/// language, and its source (the text inside the fence).
#[derive(Debug, Clone)]
pub struct DiagramBlock {
    pub start: usize,
    pub end: usize,
    pub language: DiagramLanguage,
    pub source: String,
}

/// [`DiagramBlock`] with its source as a sequence.
pub struct BlockView {
    pub start: nat,
    pub end: nat,
    pub language: DiagramLanguage,
    pub source: Seq<char>,
}

impl View for DiagramBlock {
    type V = BlockView;

    open spec fn view(&self) -> BlockView {
        BlockView {
            start: self.start as nat,
            end: self.end as nat,
            language: self.language,
            source: self.source@,
        }
    }
}

/// A diagram block opened but not yet closed: where it starts, its language
/// and the source gathered so far.
pub type OpenBlock = Option<(nat, DiagramLanguage, Seq<char>)>;

/// The walk over `events` that finds diagram blocks: a fenced code block
/// whose info string names a language opens one, text inside it is its
/// source, and the block's `End` closes it over the span from its `Start`.
pub open spec fn scan_blocks(events: Seq<MdEventView>) -> (OpenBlock, Seq<BlockView>)
    decreases events.len(),
{
    if events.len() == 0 {
        (None, Seq::empty())
    } else {
        let (current, blocks) = scan_blocks(events.drop_last());
        let e = events.last();
        if e.kind == MdKind::Start && e.tag == MdTag::CodeBlock && e.flag {
            (
                match language_of_info(e.text) {
                    Some(l) => Some((e.start, l, Seq::<char>::empty())),
                    None => None,
                },
                blocks,
            )
        } else if e.kind == MdKind::Text {
            (
                match current {
                    Some((s, l, src)) => Some((s, l, src + e.text)),
                    None => None,
                },
                blocks,
            )
        } else if e.kind == MdKind::End && e.tag == MdTag::CodeBlock {
            match current {
                Some((s, l, src)) => (
                    None,
                    blocks.push(BlockView { start: s, end: e.end, language: l, source: src }),
                ),
                None => (None, blocks),
            }
        } else {
            (current, blocks)
        }
    }
}

/// The diagram blocks of `markdown`, in document order.
pub open spec fn blocks_spec(markdown: Seq<char>) -> Seq<BlockView> {
    scan_blocks(md_events(markdown, 0)).1
}

/// The span, language and source of every fenced diagram block in
/// `markdown`.
pub fn diagram_blocks(markdown: &str) -> (res: Vec<DiagramBlock>)
    ensures
        res@.map_values(|b: DiagramBlock| b@) == blocks_spec(markdown@),
{
    let events = markdown_events(markdown, 0);
    let ghost model = md_events(markdown@, 0);
    let mut blocks: Vec<DiagramBlock> = Vec::new();
    let mut current: Option<(usize, DiagramLanguage, Vec<char>)> = None;
    let mut i: usize = 0;
    while i < events.len()
        invariant
            i <= events@.len(),
            events@.len() == model.len(),
            forall|j: int| 0 <= j < events@.len() ==> #[trigger] events@[j]@ == model[j],
            blocks@.map_values(|b: DiagramBlock| b@) == scan_blocks(model.subrange(0, i as int)).1,
            (match current {
                Some((s, l, src)) => Some((s as nat, l, src@)),
                None => None,
            }) == scan_blocks(model.subrange(0, i as int)).0,
        decreases events@.len() - i,
    {
        let e = &events[i];
        let ghost prefix = model.subrange(0, i + 1);
        assert(prefix.drop_last() =~= model.subrange(0, i as int));
        assert(prefix.last() == events@[i as int]@);
        if e.kind == MdKind::Start && e.tag == MdTag::CodeBlock && e.flag {
            current = match DiagramLanguage::from_info(e.text.as_str()) {
                Some(l) => Some((e.start, l, Vec::new())),
                None => None,
            };
        } else if e.kind == MdKind::Text {
            match current {
                Some((s, l, src)) => {
                    let mut src = src;
                    extend_str(&mut src, e.text.as_str());
                    current = Some((s, l, src));
                },
                None => {},
            }
        } else if e.kind == MdKind::End && e.tag == MdTag::CodeBlock {
            match current {
                Some((s, l, src)) => {
                    let block = DiagramBlock {
                        start: s,
                        end: e.end,
                        language: l,
                        source: string_from_chars(&src),
                    };
                    let ghost before = blocks@.map_values(|b: DiagramBlock| b@);
                    blocks.push(block);
                    assert(blocks@.map_values(|b: DiagramBlock| b@) =~= before.push(block@));
                },
                None => {},
            }
            current = None;
        }
        i = i + 1;
    }
    assert(model.subrange(0, model.len() as int) =~= model);
    blocks
}

// ---------------------------------------------------------------------------
// Generated paths
// ---------------------------------------------------------------------------

/// What `std::hash::DefaultHasher::new()` finishes with after hashing the
/// string `text`.
pub uninterp spec fn default_hash(text: Seq<char>) -> u64;

/// Hash `text` with a fresh `DefaultHasher`.
///
/// `DefaultHasher::new()` starts every hasher from the same keys, so the
/// result depends on the text alone; the contract names it and claims
/// nothing more.
#[verifier::external_body]
fn hash_text(text: &str) -> (res: u64)
    ensures
        res == default_hash(text@),
{
    let mut hasher = DefaultHasher::new();
    text.hash(&mut hasher);
    hasher.finish()
}

/// The lower-case hex digit for `n` (below 16).
pub open spec fn lower_hex_digit(n: nat) -> char {
    if n < 10 {
        ((n + 48) as u8) as char
    } else {
        ((n + 87) as u8) as char
    }
}

/// The last `width` hex digits of `n`, zero-padded, most significant first.
pub open spec fn hex_spec(n: nat, width: nat) -> Seq<char>
    decreases width,
{
    if width == 0 {
        Seq::empty()
    } else {
        hex_spec(n / 16, (width - 1) as nat).push(lower_hex_digit(n % 16))
    }
}

/// Push the last `width` hex digits of `n` onto `out`.
fn push_hex(out: &mut Vec<char>, n: u64, width: u64)
    ensures
        final(out)@ == old(out)@ + hex_spec(n as nat, width as nat),
    decreases width,
{
    if width > 0 {
        push_hex(out, n / 16, width - 1);
        let d: u8 = (n % 16) as u8;
        out.push(if d < 10 { (d + 48) as char } else { (d + 87) as char });
    }
}

/// The bundle path for the diagram rendered from `source` in `language`:
/// `generated/<language>-<hash>.<ext>`, the hash taken over the trimmed
/// source and written as sixteen hex digits, so identical diagrams share a
/// path and the two languages never do.
pub open spec fn generated_path_spec(
    language: DiagramLanguage,
    source: Seq<char>,
    format: DiagramFormat,
) -> Seq<char> {
    GENERATED_DIR@ + "/"@ + language_name(language) + "-"@ + hex_spec(
        default_hash(trim_spec(source)) as nat,
        16,
    ) + "."@ + format_extension(format)
}

/// The bundle path for a diagram, deduplicated by language and content.
pub fn generated_path(language: DiagramLanguage, source: &str, format: DiagramFormat) -> (res:
    String)
    ensures
        res@ == generated_path_spec(language, source@, format),
{
    let trimmed = trim_str(source);
    let hash = hash_text(trimmed.as_str());
    let mut out: Vec<char> = Vec::new();
    extend_str(&mut out, GENERATED_DIR);
    extend_str(&mut out, "/");
    extend_str(&mut out, language.name());
    extend_str(&mut out, "-");
    push_hex(&mut out, hash, 16);
    extend_str(&mut out, ".");
    extend_str(&mut out, format.extension());
    assert(out@ =~= generated_path_spec(language, source@, format));
    string_from_chars(&out)
}

/// The Markdown image reference that replaces a rendered block.
pub open spec fn image_reference_spec(path: Seq<char>) -> Seq<char> {
    "![diagram]("@ + path + ")"@
}

/// The Markdown image reference that replaces a rendered diagram block.
pub fn image_reference(path: &str) -> (res: String)
    ensures
        res@ == image_reference_spec(path@),
{
    let mut out: Vec<char> = Vec::new();
    extend_str(&mut out, "![diagram](");
    extend_str(&mut out, path);
    extend_str(&mut out, ")");
    assert(out@ =~= image_reference_spec(path@));
    string_from_chars(&out)
}

// ---------------------------------------------------------------------------
// Splicing
// ---------------------------------------------------------------------------

/// `s` with `s[start..end]` replaced by `rep`; unchanged if the span does
/// not lie within `s`.
pub open spec fn splice_spec(s: Seq<char>, start: nat, end: nat, rep: Seq<char>) -> Seq<char> {
    if start <= end <= s.len() {
        s.take(start as int) + rep + s.skip(end as int)
    } else {
        s
    }
}

/// `field` with each block that has a path replaced by an image reference
/// to it, back to front, so earlier spans stay where they were.
pub open spec fn spliced(
    field: Seq<char>,
    blocks: Seq<BlockView>,
    paths: Seq<Option<Seq<char>>>,
) -> Seq<char>
    decreases blocks.len(),
{
    if blocks.len() == 0 {
        field
    } else {
        let b = blocks.last();
        let after = match paths[blocks.len() - 1] {
            Some(p) => splice_spec(field, b.start, b.end, image_reference_spec(p)),
            None => field,
        };
        spliced(after, blocks.drop_last(), paths)
    }
}

/// `field` with `field[start..end]` replaced by `rep`, if the span lies
/// within it.
fn splice(field: &String, start: usize, end: usize, rep: &str) -> (res: String)
    ensures
        res@ == splice_spec(field@, start as nat, end as nat, rep@),
{
    let chars = str_chars(field.as_str());
    if start <= end && end <= chars.len() {
        let mut out = slice_chars(&chars, 0, start);
        extend_str(&mut out, rep);
        let tail = slice_chars(&chars, end, chars.len());
        crate::text::extend_chars(&mut out, &tail);
        assert(out@ =~= splice_spec(field@, start as nat, end as nat, rep@));
        string_from_chars(&out)
    } else {
        field.clone()
    }
}

/// Whether `seen` holds `path`.
fn seen_contains(seen: &Vec<String>, path: &String) -> (res: bool)
    ensures
        res == seen@.map_values(|p: String| p@).contains(path@),
{
    let ghost view = seen@.map_values(|p: String| p@);
    let mut i: usize = 0;
    while i < seen.len()
        invariant
            i <= seen.len(),
            view == seen@.map_values(|p: String| p@),
            forall|k: int| 0 <= k < i ==> view[k] != path@,
        decreases seen.len() - i,
    {
        if str_eq(seen[i].as_str(), path.as_str()) {
            assert(view[i as int] == path@);
            return true;
        }
        i = i + 1;
    }
    false
}

/// The warning for a diagram left as code.
pub open spec fn warning_spec(id: Seq<char>, language: DiagramLanguage, message: Seq<char>) -> Seq<
    char,
> {
    "question "@ + debug_str(id) + ": "@ + language_name(language) + " diagram left as code ("@
        + message + ")"@
}

/// Whether the pass's bookkeeping agrees: the images bundled are exactly
/// the paths seen, in order, and no path is bundled twice.
pub open spec fn outcome_wf(seen: Seq<String>, images: Seq<(String, Vec<u8>)>) -> bool {
    &&& seen.len() == images.len()
    &&& forall|i: int| 0 <= i < seen.len() ==> #[trigger] seen[i]@ == images[i].0@
    &&& forall|i: int, j: int| 0 <= i < j < seen.len() ==> seen[i]@ != seen[j]@
}

/// The images bundled and the warnings collected so far.
pub struct DiagramState {
    pub images: Seq<(Seq<char>, Seq<u8>)>,
    pub warnings: Seq<Seq<char>>,
}

/// What a renderer answered for one diagram: its image, or why not.
pub enum Answer {
    Image(Seq<u8>),
    Failure(Seq<char>),
}

/// Whether an image at `path` is bundled already.
pub open spec fn is_bundled(images: Seq<(Seq<char>, Seq<u8>)>, path: Seq<char>) -> bool {
    exists|i: int| 0 <= i < images.len() && #[trigger] images[i].0 == path
}

/// One block of a field of question `id`, the renderer answering `answer`
/// if it is asked: a block whose path is bundled already reuses it without
/// asking; otherwise an image is bundled under its path, and a failure
/// leaves it as code with a warning.
pub open spec fn block_step(id: Seq<char>, b: BlockView, format: DiagramFormat, st: DiagramState, answer: Answer) -> (
    Option<Seq<char>>,
    DiagramState,
) {
    let path = generated_path_spec(b.language, b.source, format);
    if is_bundled(st.images, path) {
        (Some(path), st)
    } else {
        match answer {
            Answer::Image(bytes) => (Some(path), DiagramState { images: st.images.push((path, bytes)), ..st }),
            Answer::Failure(m) => (None, DiagramState { warnings: st.warnings.push(warning_spec(id, b.language, m)), ..st }),
        }
    }
}

/// The first `k` blocks of a field in turn, block `j` answered by
/// `answers[j]`: the path each takes (`None` for one left as code), and the
/// state after them.
pub open spec fn field_scan(
    id: Seq<char>,
    blocks: Seq<BlockView>,
    k: nat,
    format: DiagramFormat,
    st: DiagramState,
    answers: Seq<Answer>,
) -> (Seq<Option<Seq<char>>>, DiagramState)
    decreases k,
{
    if k == 0 {
        (Seq::empty(), st)
    } else {
        let prev = field_scan(id, blocks, (k - 1) as nat, format, st, answers);
        let step = block_step(id, blocks[k - 1], format, prev.1, answers[k - 1]);
        (prev.0.push(step.0), step.1)
    }
}

/// One field of question `id` after its diagrams: the text, and the state.
pub open spec fn field_out(id: Seq<char>, text: Seq<char>, format: DiagramFormat, st: DiagramState, answers: Seq<Answer>) -> (
    Seq<char>,
    DiagramState,
) {
    let blocks = blocks_spec(text);
    let r = field_scan(id, blocks, blocks.len(), format, st, answers);
    (spliced(text, blocks, r.0), r.1)
}

/// The first `m` fields `texts` of question `id` in turn, field `j`'s
/// blocks answered by `answers[j]`.
pub open spec fn question_scan(
    id: Seq<char>,
    texts: Seq<Seq<char>>,
    m: nat,
    format: DiagramFormat,
    st: DiagramState,
    answers: Seq<Seq<Answer>>,
) -> (Seq<Seq<char>>, DiagramState)
    decreases m,
{
    if m == 0 {
        (Seq::empty(), st)
    } else {
        let prev = question_scan(id, texts, (m - 1) as nat, format, st, answers);
        let f = field_out(id, texts[m - 1], format, prev.1, answers[m - 1]);
        (prev.0.push(f.0), f.1)
    }
}

/// The first `n` questions in turn, question `j`'s fields answered by
/// `answers[j]`: each question's Markdown fields after, and the images and
/// warnings of them all.
pub open spec fn items_scan(items: Seq<Question>, n: nat, format: DiagramFormat, answers: Seq<Seq<Seq<Answer>>>) -> (
    Seq<Seq<Seq<char>>>,
    DiagramState,
)
    decreases n,
{
    if n == 0 {
        (Seq::empty(), DiagramState { images: Seq::empty(), warnings: Seq::empty() })
    } else {
        let prev = items_scan(items, (n - 1) as nat, format, answers);
        let q = question_scan(items[n - 1].id@, rich_text_spec(items[n - 1]), rich_text_spec(items[n - 1]).len(),
            format, prev.1, answers[n - 1]);
        (prev.0.push(q.0), q.1)
    }
}

/// A field's blocks read only the answers meant for them.
proof fn lemma_field_frame(
    id: Seq<char>,
    blocks: Seq<BlockView>,
    k: nat,
    format: DiagramFormat,
    st: DiagramState,
    answers: Seq<Answer>,
    more: Seq<Answer>,
)
    requires
        k <= answers.len(),
        k <= more.len(),
        forall|j: int| 0 <= j < k ==> answers[j] == more[j],
    ensures
        field_scan(id, blocks, k, format, st, answers) == field_scan(id, blocks, k, format, st, more),
    decreases k,
{
    if k > 0 {
        lemma_field_frame(id, blocks, (k - 1) as nat, format, st, answers, more);
    }
}

/// Answering one more block keeps the earlier blocks answered.
proof fn lemma_field_answered_step<F: Fn(DiagramLanguage, &str) -> Result<Vec<u8>, String>>(
    render: F,
    id: Seq<char>,
    blocks: Seq<BlockView>,
    k: nat,
    format: DiagramFormat,
    st: DiagramState,
    answers: Seq<Answer>,
    answer: Answer,
)
    requires
        answers.len() == k,
        k < blocks.len(),
        field_answered(render, id, blocks, k, format, st, answers),
        !is_bundled(
            field_scan(id, blocks, k, format, st, answers).1.images,
            generated_path_spec(blocks[k as int].language, blocks[k as int].source, format),
        ) ==> answered(render, blocks[k as int], answer),
    ensures
        field_answered(render, id, blocks, k + 1, format, st, answers.push(answer)),
{
    reveal(field_answered);
    let more = answers.push(answer);
    assert forall|j: int|
        0 <= j < k + 1 && !is_bundled(
            field_scan(id, blocks, j as nat, format, st, more).1.images,
            generated_path_spec(blocks[j].language, blocks[j].source, format),
        ) implies answered(render, blocks[j], #[trigger] more[j]) by {
        lemma_field_frame(id, blocks, j as nat, format, st, answers, more);
        if j < k {
            assert(more[j] == answers[j]);
        }
    }
}

/// A question's fields read only the answers meant for them.
proof fn lemma_question_frame(
    id: Seq<char>,
    texts: Seq<Seq<char>>,
    m: nat,
    format: DiagramFormat,
    st: DiagramState,
    answers: Seq<Seq<Answer>>,
    more: Seq<Seq<Answer>>,
)
    requires
        m <= answers.len(),
        m <= more.len(),
        forall|j: int| 0 <= j < m ==> answers[j] == more[j],
    ensures
        question_scan(id, texts, m, format, st, answers) == question_scan(id, texts, m, format, st, more),
    decreases m,
{
    if m > 0 {
        lemma_question_frame(id, texts, (m - 1) as nat, format, st, answers, more);
    }
}

/// The questions read only the answers meant for them.
proof fn lemma_items_frame(
    items: Seq<Question>,
    n: nat,
    format: DiagramFormat,
    answers: Seq<Seq<Seq<Answer>>>,
    more: Seq<Seq<Seq<Answer>>>,
)
    requires
        n <= answers.len(),
        n <= more.len(),
        forall|j: int| 0 <= j < n ==> answers[j] == more[j],
    ensures
        items_scan(items, n, format, answers) == items_scan(items, n, format, more),
    decreases n,
{
    if n > 0 {
        lemma_items_frame(items, (n - 1) as nat, format, answers, more);
    }
}

/// One more question, its fields answered by `fa`.
proof fn lemma_items_step(items: Seq<Question>, i: nat, format: DiagramFormat, answers: Seq<Seq<Seq<Answer>>>, fa: Seq<Seq<Answer>>)
    requires
        i < items.len(),
        answers.len() == i,
    ensures
        ({
            let prev = items_scan(items, i, format, answers);
            let q = question_scan(items[i as int].id@, rich_text_spec(items[i as int]), rich_text_spec(items[i as int]).len(),
                format, prev.1, fa);
            items_scan(items, i + 1, format, answers.push(fa)) == (prev.0.push(q.0), q.1)
        }),
{
    lemma_items_frame(items, i, format, answers, answers.push(fa));
    assert(answers.push(fa)[i as int] == fa);
}

/// Whether `answer` is what `render` can give for block `b`, asked with the
/// block's language and its trimmed source.
pub open spec fn answered<F: Fn(DiagramLanguage, &str) -> Result<Vec<u8>, String>>(render: F, b: BlockView, answer: Answer) -> bool {
    exists|s: &str, r: Result<Vec<u8>, String>|
        #[trigger] render.ensures((b.language, s), r) && s@ == trim_spec(b.source) && match r {
            Ok(bytes) => answer == Answer::Image(bytes@),
            Err(m) => answer == Answer::Failure(m@),
        }
}

/// Whether, among the first `k` blocks of a field, each block that finds
/// its path not yet bundled is answered by `render`.
#[verifier::opaque]
pub open spec fn field_answered<F: Fn(DiagramLanguage, &str) -> Result<Vec<u8>, String>>(
    render: F,
    id: Seq<char>,
    blocks: Seq<BlockView>,
    k: nat,
    format: DiagramFormat,
    st: DiagramState,
    answers: Seq<Answer>,
) -> bool {
    forall|j: int|
        0 <= j < k && !is_bundled(
            field_scan(id, blocks, j as nat, format, st, answers).1.images,
            generated_path_spec(blocks[j].language, blocks[j].source, format),
        ) ==> answered(render, blocks[j], #[trigger] answers[j])
}

/// Whether the first `m` fields of question `id` are answered by `render`.
#[verifier::opaque]
pub open spec fn question_answered<F: Fn(DiagramLanguage, &str) -> Result<Vec<u8>, String>>(
    render: F,
    id: Seq<char>,
    texts: Seq<Seq<char>>,
    m: nat,
    format: DiagramFormat,
    st: DiagramState,
    answers: Seq<Seq<Answer>>,
) -> bool {
    forall|j: int|
        0 <= j < m ==> field_answered(
            render,
            id,
            blocks_spec(texts[j]),
            blocks_spec(texts[j]).len(),
            format,
            question_scan(id, texts, j as nat, format, st, answers).1,
            #[trigger] answers[j],
        )
}

/// Whether the fields of the first `n` questions are answered by `render`.
#[verifier::opaque]
pub open spec fn items_answered<F: Fn(DiagramLanguage, &str) -> Result<Vec<u8>, String>>(
    render: F,
    items: Seq<Question>,
    n: nat,
    format: DiagramFormat,
    answers: Seq<Seq<Seq<Answer>>>,
) -> bool {
    forall|j: int|
        0 <= j < n ==> question_answered(
            render,
            items[j].id@,
            rich_text_spec(items[j]),
            rich_text_spec(items[j]).len(),
            format,
            items_scan(items, j as nat, format, answers).1,
            #[trigger] answers[j],
        )
}

/// Answering one more field keeps the earlier fields answered.
proof fn lemma_question_answered_step<F: Fn(DiagramLanguage, &str) -> Result<Vec<u8>, String>>(
    render: F,
    id: Seq<char>,
    texts: Seq<Seq<char>>,
    k: nat,
    format: DiagramFormat,
    st: DiagramState,
    answers: Seq<Seq<Answer>>,
    got: Seq<Answer>,
)
    requires
        answers.len() == k,
        question_answered(render, id, texts, k, format, st, answers),
        field_answered(
            render,
            id,
            blocks_spec(texts[k as int]),
            blocks_spec(texts[k as int]).len(),
            format,
            question_scan(id, texts, k, format, st, answers).1,
            got,
        ),
    ensures
        question_answered(render, id, texts, k + 1, format, st, answers.push(got)),
{
    reveal(question_answered);
    let more = answers.push(got);
    assert forall|j: int| 0 <= j < k + 1 implies field_answered(
        render,
        id,
        blocks_spec(texts[j]),
        blocks_spec(texts[j]).len(),
        format,
        question_scan(id, texts, j as nat, format, st, more).1,
        #[trigger] more[j],
    ) by {
        lemma_question_frame(id, texts, j as nat, format, st, answers, more);
        if j < k {
            assert(more[j] == answers[j]);
        }
    }
}

/// Answering one more question keeps the earlier questions answered.
proof fn lemma_items_answered_step<F: Fn(DiagramLanguage, &str) -> Result<Vec<u8>, String>>(
    render: F,
    items: Seq<Question>,
    i: nat,
    format: DiagramFormat,
    answers: Seq<Seq<Seq<Answer>>>,
    fa: Seq<Seq<Answer>>,
)
    requires
        answers.len() == i,
        i < items.len(),
        items_answered(render, items, i, format, answers),
        question_answered(
            render,
            items[i as int].id@,
            rich_text_spec(items[i as int]),
            rich_text_spec(items[i as int]).len(),
            format,
            items_scan(items, i, format, answers).1,
            fa,
        ),
    ensures
        items_answered(render, items, i + 1, format, answers.push(fa)),
{
    reveal(items_answered);
    let more = answers.push(fa);
    assert forall|j: int| 0 <= j < i + 1 implies question_answered(
        render,
        items[j].id@,
        rich_text_spec(items[j]),
        rich_text_spec(items[j]).len(),
        format,
        items_scan(items, j as nat, format, more).1,
        #[trigger] more[j],
    ) by {
        lemma_items_frame(items, j as nat, format, answers, more);
        if j < i {
            assert(more[j] == answers[j]);
        }
    }
}

/// The images as plain values.
pub open spec fn images_view(images: Seq<(String, Vec<u8>)>) -> Seq<(Seq<char>, Seq<u8>)> {
    images.map_values(|x: (String, Vec<u8>)| (x.0@, x.1@))
}

/// The warnings as plain values.
pub open spec fn warnings_view(warnings: Seq<String>) -> Seq<Seq<char>> {
    warnings.map_values(|w: String| w@)
}

/// Where the pass stands, as the model sees it.
pub open spec fn state_of(outcome: DiagramOutcome) -> DiagramState {
    DiagramState { images: images_view(outcome.images@), warnings: warnings_view(outcome.warnings@) }
}

/// Whether `paths` is a choice of paths for `blocks` in which each block
/// either keeps its code or names its own generated path.
pub open spec fn paths_for(
    blocks: Seq<BlockView>,
    paths: Seq<Option<Seq<char>>>,
    format: DiagramFormat,
) -> bool {
    &&& paths.len() == blocks.len()
    &&& forall|k: int|
        0 <= k < blocks.len() ==> (#[trigger] paths[k] is Some ==> paths[k]->0
            == generated_path_spec(blocks[k].language, blocks[k].source, format))
}

/// A path is bundled exactly when the pass has seen it.
proof fn lemma_bundled_iff_seen(seen: Seq<String>, images: Seq<(String, Vec<u8>)>, path: Seq<char>)
    requires
        outcome_wf(seen, images),
    ensures
        seen.map_values(|p: String| p@).contains(path) == is_bundled(images_view(images), path),
{
    let names = seen.map_values(|p: String| p@);
    if names.contains(path) {
        let i = choose|i: int| 0 <= i < names.len() && names[i] == path;
        assert(images_view(images)[i].0 == path);
    }
    if is_bundled(images_view(images), path) {
        let i = choose|i: int| 0 <= i < images_view(images).len() && #[trigger] images_view(images)[i].0 == path;
        assert(names[i] == path);
    }
}

/// Render every diagram block in one `field`, splicing image references in
/// place, back to front.
///
/// A block whose path was bundled already is replaced at once; any other is
/// handed to `render` with its trimmed source, and is replaced (its image
/// bundled) if that succeeds, or left as code with a warning if it fails.
#[verifier::rlimit(30)]
fn render_field<F: Fn(DiagramLanguage, &str) -> Result<Vec<u8>, String>>(
    field: &String,
    render: &F,
    format: DiagramFormat,
    id: &str,
    seen: &mut Vec<String>,
    outcome: &mut DiagramOutcome,
) -> (res: (String, Ghost<Seq<Option<Seq<char>>>>, Ghost<Seq<Answer>>))
    requires
        forall|l: DiagramLanguage, s: &str| render.requires((l, s)),
        outcome_wf(old(seen)@, old(outcome).images@),
    ensures
        res.2@.len() == blocks_spec(field@).len(),
        field_out(id@, field@, format, state_of(*old(outcome)), res.2@) == (res.0@, state_of(*final(outcome))),
        field_answered(*render, id@, blocks_spec(field@), blocks_spec(field@).len(), format, state_of(*old(outcome)), res.2@),
        paths_for(blocks_spec(field@), res.1@, format),
        res.0@ == spliced(field@, blocks_spec(field@), res.1@),
        outcome_wf(final(seen)@, final(outcome).images@),
        old(seen)@.len() <= final(seen)@.len(),
        final(seen)@.subrange(0, old(seen)@.len() as int) == old(seen)@,
        final(outcome).warnings@.subrange(0, old(outcome).warnings@.len() as int)
            == old(outcome).warnings@,
        old(outcome).warnings@.len() <= final(outcome).warnings@.len(),
{
    let blocks = diagram_blocks(field.as_str());
    let ghost model = blocks_spec(field@);
    let ghost seen0 = seen@;
    let ghost warnings0 = outcome.warnings@;
    let ghost st0 = state_of(*outcome);
    let ghost mut answers: Seq<Answer> = Seq::empty();
    let mut paths: Vec<Option<String>> = Vec::new();
    let mut k: usize = 0;
    assert(paths@.map_values(|p: Option<String>| match p {
        Some(s) => Some(s@),
        None => None,
    }) =~= Seq::<Option<Seq<char>>>::empty());
    assert(field_answered(*render, id@, model, 0, format, st0, answers)) by {
        reveal(field_answered);
    }
    while k < blocks.len()
        invariant
            k <= blocks@.len(),
            blocks@.map_values(|b: DiagramBlock| b@) == model,
            answers.len() == k,
            st0 == state_of(*old(outcome)),
            field_answered(*render, id@, model, k as nat, format, st0, answers),
            field_scan(id@, model, k as nat, format, st0, answers) == (paths@.map_values(|p: Option<String>| match p {
                Some(s) => Some(s@),
                None => None,
            }), state_of(*outcome)),
            forall|l: DiagramLanguage, s: &str| render.requires((l, s)),
            paths@.len() == k,
            forall|j: int|
                0 <= j < k ==> (#[trigger] paths@[j] is Some ==> paths@[j]->0@
                    == generated_path_spec(model[j].language, model[j].source, format)),
            outcome_wf(seen@, outcome.images@),
            seen0.len() <= seen@.len(),
            seen@.subrange(0, seen0.len() as int) == seen0,
            warnings0.len() <= outcome.warnings@.len(),
            outcome.warnings@.subrange(0, warnings0.len() as int) == warnings0,
        decreases blocks@.len() - k,
    {
        assert(blocks@[k as int]@ == model[k as int]);
        let ghost before_paths = paths@;
        let ghost before_state = state_of(*outcome);
        let ghost before_answers = answers;
        let language = blocks[k].language;
        let path = generated_path(language, blocks[k].source.as_str(), format);
        proof {
            lemma_bundled_iff_seen(seen@, outcome.images@, path@);
        }
        if seen_contains(seen, &path) {
            let ghost answer = Answer::Failure(Seq::empty());
            paths.push(Some(path));
            proof {
                lemma_field_answered_step(*render, id@, model, k as nat, format, st0, answers, answer);
                answers = answers.push(answer);
                lemma_field_frame(id@, model, k as nat, format, st0, before_answers, answers);
                assert(paths@.map_values(|p: Option<String>| match p {
                    Some(s) => Some(s@),
                    None => None,
                }) =~= before_paths.map_values(|p: Option<String>| match p {
                    Some(s) => Some(s@),
                    None => None,
                }).push(Some(path@)));
            }
        } else {
            let trimmed = trim_str(blocks[k].source.as_str());
            let asked_with = trimmed.as_str();
            let reply = render(language, asked_with);
            let ghost asked = reply;
            match reply {
                Ok(bytes) => {
                    let ghost old_seen = seen@;
                    let ghost old_images = outcome.images@;
                    seen.push(path.clone());
                    outcome.images.push((path.clone(), bytes));
                    assert(seen@.subrange(0, seen0.len() as int) =~= old_seen.subrange(
                        0,
                        seen0.len() as int,
                    ));
                    assert forall|i: int, j: int| 0 <= i < j < seen@.len() implies seen@[i]@
                        != seen@[j]@ by {
                        if j == seen@.len() - 1 {
                            assert(old_seen.map_values(|p: String| p@)[i] == seen@[i]@);
                        }
                    }
                    let ghost answer = Answer::Image(bytes@);
                    paths.push(Some(path));
                    proof {
                        assert(answered(*render, model[k as int], answer)) by {
                            assert(render.ensures((language, asked_with), asked));
                        }
                        lemma_field_answered_step(*render, id@, model, k as nat, format, st0, answers, answer);
                        answers = answers.push(answer);
                        lemma_field_frame(id@, model, k as nat, format, st0, before_answers, answers);
                        assert(paths@.map_values(|p: Option<String>| match p {
                            Some(s) => Some(s@),
                            None => None,
                        }) =~= before_paths.map_values(|p: Option<String>| match p {
                            Some(s) => Some(s@),
                            None => None,
                        }).push(Some(path@)));
                        assert(images_view(outcome.images@) =~= before_state.images.push((path@, bytes@)));
                    }
                },
                Err(message) => {
                    let quoted = debug_quoted(id);
                    let mut warning: Vec<char> = Vec::new();
                    extend_str(&mut warning, "question ");
                    extend_str(&mut warning, quoted.as_str());
                    extend_str(&mut warning, ": ");
                    extend_str(&mut warning, language.name());
                    extend_str(&mut warning, " diagram left as code (");
                    extend_str(&mut warning, message.as_str());
                    extend_str(&mut warning, ")");
                    assert(warning@ =~= warning_spec(id@, language, message@));
                    let ghost old_warnings = outcome.warnings@;
                    outcome.warnings.push(string_from_chars(&warning));
                    assert(outcome.warnings@.subrange(0, warnings0.len() as int)
                        =~= old_warnings.subrange(0, warnings0.len() as int));
                    let ghost answer = Answer::Failure(message@);
                    paths.push(None);
                    proof {
                        assert(answered(*render, model[k as int], answer)) by {
                            assert(render.ensures((language, asked_with), asked));
                        }
                        lemma_field_answered_step(*render, id@, model, k as nat, format, st0, answers, answer);
                        answers = answers.push(answer);
                        lemma_field_frame(id@, model, k as nat, format, st0, before_answers, answers);
                        assert(paths@.map_values(|p: Option<String>| match p {
                            Some(s) => Some(s@),
                            None => None,
                        }) =~= before_paths.map_values(|p: Option<String>| match p {
                            Some(s) => Some(s@),
                            None => None,
                        }).push(None));
                        assert(warnings_view(outcome.warnings@) =~= before_state.warnings.push(warning_spec(id@, language, message@)));
                    }
                },
            }
        }
        k = k + 1;
    }
    let ghost chosen = paths@.map_values(|p: Option<String>| match p {
        Some(s) => Some(s@),
        None => None,
    });
    assert(paths_for(model, chosen, format));
    let mut text = field.clone();
    let mut m: usize = blocks.len();
    assert(spliced(field@, model, chosen) == spliced(text@, model.subrange(0, m as int), chosen))
        by {
        assert(model.subrange(0, m as int) =~= model);
    }
    while m > 0
        invariant
            m <= blocks@.len(),
            blocks@.map_values(|b: DiagramBlock| b@) == model,
            paths@.len() == blocks@.len(),
            chosen == paths@.map_values(|p: Option<String>| match p {
                Some(s) => Some(s@),
                None => None,
            }),
            spliced(field@, model, chosen) == spliced(text@, model.subrange(0, m as int), chosen),
        decreases m,
    {
        m = m - 1;
        let ghost sub = model.subrange(0, m + 1);
        assert(sub.drop_last() =~= model.subrange(0, m as int));
        assert(sub.last() == blocks@[m as int]@);
        match &paths[m] {
            Some(path) => {
                let reference = image_reference(path.as_str());
                text = splice(&text, blocks[m].start, blocks[m].end, reference.as_str());
            },
            None => {},
        }
    }
    (text, Ghost(chosen), Ghost(answers))
}

/// Whether `after` is the field `before` with each diagram block either
/// left as code or replaced by an image reference to its own generated path.
pub open spec fn field_rendered(before: Seq<char>, after: Seq<char>, format: DiagramFormat) -> bool {
    exists|paths: Seq<Option<Seq<char>>>|
        paths_for(blocks_spec(before), paths, format) && after == spliced(
            before,
            blocks_spec(before),
            paths,
        )
}

/// Whether `after` is `before` with each Markdown field's diagram blocks
/// replaced by image references to their own generated paths (or left as
/// code).
pub open spec fn rendered_question(before: Question, after: Question, format: DiagramFormat) -> bool {
    &&& same_shape(before, after)
    &&& rich_text_spec(after).len() == rich_text_spec(before).len()
    &&& forall|k: int|
        0 <= k < rich_text_spec(before).len() ==> field_rendered(
            #[trigger] rich_text_spec(before)[k],
            rich_text_spec(after)[k],
            format,
        )
}

/// Replace every diagram block in `items` with a generated image reference.
///
/// Each distinct diagram is rendered once: a block whose path was bundled
/// already (by any earlier field of any question) reuses it. A failure is
/// collected as a warning and leaves its block as code. Returns the images to
/// bundle, none of them twice, and the warnings.
pub fn render_diagrams<F: Fn(DiagramLanguage, &str) -> Result<Vec<u8>, String>>(
    items: &mut Vec<Question>,
    render: &F,
    format: DiagramFormat,
) -> (res: DiagramOutcome)
    requires
        forall|l: DiagramLanguage, s: &str| render.requires((l, s)),
    ensures
        final(items)@.len() == old(items)@.len(),
        forall|i: int|
            0 <= i < old(items)@.len() ==> rendered_question(
                #[trigger] old(items)@[i],
                final(items)@[i],
                format,
            ),
        forall|i: int, j: int|
            0 <= i < j < res.images@.len() ==> res.images@[i].0@ != res.images@[j].0@,
        exists|answers: Seq<Seq<Seq<Answer>>>| #![trigger items_scan(old(items)@, old(items)@.len(), format, answers)] {
            let r = items_scan(old(items)@, old(items)@.len(), format, answers);
            &&& forall|i: int| 0 <= i < final(items)@.len() ==> rich_text_spec(#[trigger] final(items)@[i]) == r.0[i]
            &&& state_of(res) == r.1
            &&& items_answered(*render, old(items)@, old(items)@.len(), format, answers)
        },
{
    let mut outcome = DiagramOutcome { images: Vec::new(), warnings: Vec::new() };
    let mut seen: Vec<String> = Vec::new();
    let ghost mut answers: Seq<Seq<Seq<Answer>>> = Seq::empty();
    let mut i: usize = 0;
    assert(state_of(outcome) =~= items_scan(old(items)@, 0, format, answers).1) by {
        assert(images_view(outcome.images@) =~= Seq::<(Seq<char>, Seq<u8>)>::empty());
        assert(warnings_view(outcome.warnings@) =~= Seq::<Seq<char>>::empty());
    }
    assert(items_answered(*render, old(items)@, 0, format, answers)) by {
        reveal(items_answered);
    }
    while i < items.len()
        invariant
            i <= items@.len(),
            items@.len() == old(items)@.len(),
            answers.len() == i,
            items_scan(old(items)@, i as nat, format, answers).0.len() == i,
            items_scan(old(items)@, i as nat, format, answers).1 == state_of(outcome),
            items_answered(*render, old(items)@, i as nat, format, answers),
            forall|j: int| 0 <= j < i ==> rich_text_spec(#[trigger] items@[j]) == items_scan(old(items)@, i as nat, format, answers).0[j],
            forall|l: DiagramLanguage, s: &str| render.requires((l, s)),
            forall|j: int|
                0 <= j < i ==> rendered_question(#[trigger] old(items)@[j], items@[j], format),
            forall|j: int| i <= j < items@.len() ==> #[trigger] items@[j] == old(items)@[j],
            outcome_wf(seen@, outcome.images@),
        decreases items@.len() - i,
    {
        let fields = items[i].rich_text_fields();
        let ghost before = items@[i as int];
        let ghost texts = rich_text_spec(before);
        let ghost st_i = state_of(outcome);
        let ghost mut field_answers: Seq<Seq<Answer>> = Seq::empty();
        let mut k: usize = 0;
        assert(rich_text_spec(items@[i as int]).take(0) =~= question_scan(before.id@, texts, 0, format, st_i, field_answers).0);
        assert(question_answered(*render, before.id@, texts, 0, format, st_i, field_answers)) by {
            reveal(question_answered);
        }
        while k < fields.len()
            invariant
                i < items@.len(),
                k <= fields@.len(),
                field_answers.len() == k,
                question_scan(before.id@, texts, k as nat, format, st_i, field_answers) == (
                    rich_text_spec(items@[i as int]).take(k as int),
                    state_of(outcome),
                ),
                items_scan(old(items)@, i as nat, format, answers).1 == st_i,
                items_scan(old(items)@, i as nat, format, answers).0.len() == i,
                items_answered(*render, old(items)@, i as nat, format, answers),
                question_answered(*render, before.id@, texts, k as nat, format, st_i, field_answers),
                forall|j: int| 0 <= j < i ==> rich_text_spec(#[trigger] items@[j]) == items_scan(old(items)@, i as nat, format, answers).0[j],
                answers.len() == i,
                fields@.map_values(|t: String| t@) == texts,
                items@.len() == old(items)@.len(),
                before == old(items)@[i as int],
                forall|l: DiagramLanguage, s: &str| render.requires((l, s)),
                forall|j: int|
                    0 <= j < i ==> rendered_question(#[trigger] old(items)@[j], items@[j], format),
                forall|j: int| i < j < items@.len() ==> #[trigger] items@[j] == old(items)@[j],
                same_shape(before, items@[i as int]),
                rich_text_spec(items@[i as int]).len() == texts.len(),
                forall|m: int| k <= m < texts.len() ==> #[trigger] rich_text_spec(items@[i as int])[m]
                    == texts[m],
                forall|m: int|
                    0 <= m < k ==> field_rendered(
                        #[trigger] texts[m],
                        rich_text_spec(items@[i as int])[m],
                        format,
                    ),
                outcome_wf(seen@, outcome.images@),
            decreases fields@.len() - k,
        {
            assert(fields@[k as int]@ == texts[k as int]);
            let ghost before_fields = field_answers;
            let ghost before_rich = rich_text_spec(items@[i as int]);
            let id = items[i].id.clone();
            assert(id@ == before.id@);
            let (text, paths, got) = render_field(
                &fields[k],
                render,
                format,
                id.as_str(),
                &mut seen,
                &mut outcome,
            );
            let ghost current = items@[i as int];
            items[i].set_rich_text_field(k, text);
            let ghost after = items@[i as int];
            assert(rich_text_spec(after)[k as int] == spliced(
                texts[k as int],
                blocks_spec(texts[k as int]),
                paths@,
            ));
            assert forall|m: int| 0 <= m < k + 1 implies field_rendered(
                #[trigger] texts[m],
                rich_text_spec(items@[i as int])[m],
                format,
            ) by {
                if m == k {
                    assert(paths_for(blocks_spec(texts[m]), paths@, format));
                } else {
                    assert(rich_text_spec(after)[m] == rich_text_spec(current)[m]);
                }
            }
            proof {
                lemma_question_answered_step(*render, before.id@, texts, k as nat, format, st_i, field_answers, got@);
                field_answers = field_answers.push(got@);
                lemma_question_frame(before.id@, texts, k as nat, format, st_i, before_fields, field_answers);
                assert(rich_text_spec(items@[i as int]).take(k + 1) =~= before_rich.take(k as int).push(text@));
            }
            k = k + 1;
        }
        proof {
            let before_answers = answers;
            lemma_items_answered_step(*render, old(items)@, i as nat, format, answers, field_answers);
            answers = answers.push(field_answers);
            assert(rich_text_spec(items@[i as int]).take(texts.len() as int) =~= rich_text_spec(items@[i as int]));
            assert(old(items)@[i as int] == before);
            let r = items_scan(old(items)@, (i + 1) as nat, format, answers);
            let prev = items_scan(old(items)@, i as nat, format, before_answers);
            lemma_items_step(old(items)@, i as nat, format, before_answers, field_answers);
            assert forall|j: int| 0 <= j < i + 1 implies rich_text_spec(#[trigger] items@[j]) == r.0[j] by {
                if j < i {
                    assert(r.0[j] == prev.0[j]);
                }
            }
        }
        assert(rendered_question(old(items)@[i as int], items@[i as int], format)) by {
            assert forall|m: int| 0 <= m < rich_text_spec(before).len() implies field_rendered(
                #[trigger] rich_text_spec(before)[m],
                rich_text_spec(items@[i as int])[m],
                format,
            ) by {
                assert(texts[m] == rich_text_spec(before)[m]);
            }
        }
        i = i + 1;
    }
    assert forall|i: int, j: int| 0 <= i < j < outcome.images@.len() implies outcome.images@[i].0@
        != outcome.images@[j].0@ by {
        assert(seen@[i]@ == outcome.images@[i].0@);
        assert(seen@[j]@ == outcome.images@[j].0@);
    }
    outcome
}
} // verus!
