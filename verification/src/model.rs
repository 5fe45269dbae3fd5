//! The typed representation of quiz content.
//!
//! The reusable unit is a [`Question`]: shared metadata (identifier, prompt,
//! point value) plus a [`QuestionKind`] that names its type and carries its
//! payload. Questions are collected into an [`ItemBank`] — an ordered, named
//! pool of items that maps onto a Canvas *New Quizzes* item bank.
use vstd::prelude::*;

use crate::error::{debug_quoted, debug_str, Error};
use crate::text::{
    extend_chars, extend_str, find_next, first_occurrence, str_chars, string_from_chars,
    trim_range, trim_spec, chars_eq, replace_spec, replace_str,
};

verus! {

/// A named, ordered pool of questions: one Canvas *New Quizzes* item bank.
#[derive(Debug, Clone)]
pub struct ItemBank {
    /// Human-readable bank name, shown at the top of every export.
    pub name: String,
    /// The questions, in the order they should be presented.
    pub items: Vec<Question>,
}

/// A single quiz question and its shared metadata.
#[derive(Debug, Clone)]
pub struct Question {
    /// Stable identifier, unique within the bank.
    pub id: String,
    /// Instructor-facing title; absent means fall back to [`Question::id`].
    pub title: Option<String>,
    /// The question prompt, as authored Markdown.
    pub prompt: String,
    /// Points awarded for a fully correct answer, as the decimal the bank
    /// states it in (`1`, `2.5`).
    pub points: String,
    /// Free-form tags for organization; not exported to Canvas.
    pub tags: Vec<String>,
    /// Optional feedback shown to students after answering.
    pub feedback: Feedback,
    /// The question type together with its type-specific payload.
    pub kind: QuestionKind,
}

/// Feedback messages shown after a question is answered; each is authored
/// Markdown and optional.
#[derive(Debug, Clone)]
pub struct Feedback {
    /// Shown regardless of correctness.
    pub general: Option<String>,
    /// Shown when the answer is correct.
    pub correct: Option<String>,
    /// Shown when the answer is incorrect.
    pub incorrect: Option<String>,
}

impl Feedback {
    /// Feedback with no messages at all.
    pub fn none() -> (res: Feedback)
        ensures
            res.general is None,
            res.correct is None,
            res.incorrect is None,
    {
        Feedback { general: None, correct: None, incorrect: None }
    }
}

/// The supported question types, following the Canvas *New Quizzes* model.
#[derive(Debug, Clone)]
pub enum QuestionKind {
    /// True/false question.
    TrueFalse(TrueFalse),
    /// Single-answer multiple choice.
    MultipleChoice(ChoiceSet),
    /// Multiple-answer ("select all that apply") multiple choice.
    MultipleSelect(MultipleSelect),
    /// Fill in the blank: inline `{{name}}` blanks, each with answers.
    FillInBlank(FillInBlank),
    /// Match items in one column to items in another.
    Matching(Matching),
    /// Put items into the correct order.
    Ordered(OrderedItems),
}

/// The label of each kind, used in diagnostics.
pub open spec fn kind_label_spec(kind: QuestionKind) -> Seq<char> {
    match kind {
        QuestionKind::TrueFalse(_) => "true/false"@,
        QuestionKind::MultipleChoice(_) => "multiple choice"@,
        QuestionKind::MultipleSelect(_) => "multiple select"@,
        QuestionKind::FillInBlank(_) => "fill in the blank"@,
        QuestionKind::Matching(_) => "matching"@,
        QuestionKind::Ordered(_) => "ordering"@,
    }
}

/// The message of the "not supported yet" export error.
pub open spec fn unsupported_message(kind: QuestionKind, target: Seq<char>, id: Seq<char>) -> Seq<char> {
    target + " export does not support "@ + kind_label_spec(kind) + " questions yet (question "@
        + debug_str(id) + ")"@
}

impl QuestionKind {
    /// A short human-readable label for this type, used in diagnostics.
    pub fn label(&self) -> (res: &'static str)
        ensures
            res@ == kind_label_spec(*self),
    {
        match self {
            QuestionKind::TrueFalse(_) => "true/false",
            QuestionKind::MultipleChoice(_) => "multiple choice",
            QuestionKind::MultipleSelect(_) => "multiple select",
            QuestionKind::FillInBlank(_) => "fill in the blank",
            QuestionKind::Matching(_) => "matching",
            QuestionKind::Ordered(_) => "ordering",
        }
    }

    /// The "not supported yet" export error for this kind, naming the target
    /// format and the offending question.
    pub fn unsupported_by(&self, target: &str, id: &str) -> (res: Error)
        ensures
            res matches Error::Export(m) && m@ == unsupported_message(*self, target@, id@),
    {
        let mut out: Vec<char> = Vec::new();
        extend_str(&mut out, target);
        extend_str(&mut out, " export does not support ");
        extend_str(&mut out, self.label());
        extend_str(&mut out, " questions yet (question ");
        let quoted = debug_quoted(id);
        extend_str(&mut out, quoted.as_str());
        extend_str(&mut out, ")");
        assert(out@ =~= unsupported_message(*self, target@, id@));
        Error::Export(string_from_chars(&out))
    }
}

/// The payload of a true/false question.
#[derive(Debug, Clone)]
pub struct TrueFalse {
    /// Whether the correct answer is "true".
    pub answer: bool,
}

/// One selectable option in a choice-based question.
#[derive(Debug, Clone)]
pub struct Choice {
    /// The option's text, as authored Markdown.
    pub text: String,
    /// Whether selecting this option counts as a correct answer.
    pub correct: bool,
}

/// The payload of a single-answer multiple-choice question.
#[derive(Debug, Clone)]
pub struct ChoiceSet {
    /// The options, in presentation order.
    pub choices: Vec<Choice>,
}

/// The payload of a "choose all that apply" question.
#[derive(Debug, Clone)]
pub struct MultipleSelect {
    /// The options, in presentation order.
    pub choices: Vec<Choice>,
    /// How the selection is scored.
    pub scoring: ScoringMode,
}

/// How a multiple-select question is graded.
#[derive(Debug, Clone, Copy, PartialEq, Eq, Structural)]
pub enum ScoringMode {
    /// Full marks only for every correct and no incorrect option. The default.
    AllOrNothing,
    /// Each correct selection adds an even share; each incorrect one subtracts.
    Partial,
}

/// The payload of a fill-in-the-blank question.
#[derive(Debug, Clone)]
pub struct FillInBlank {
    /// The blanks referenced by the prompt, one per distinct marker name.
    pub blanks: Vec<Blank>,
}

/// One inline blank: a name plus the text answers accepted for it.
#[derive(Debug, Clone)]
pub struct Blank {
    /// The blank's name, matching a `{{name}}` marker in the prompt.
    pub id: String,
    /// Acceptable answers (regex patterns for [`MatchMode::Regex`]).
    pub answers: Vec<String>,
    /// How a student response is compared against the answers.
    pub match_mode: MatchMode,
}

/// How a fill-in-the-blank response is matched against the answers.
#[derive(Debug, Clone, Copy, PartialEq, Eq, Structural)]
pub enum MatchMode {
    /// Case-insensitive exact text match (the default).
    CaseInsensitive,
    /// Case-sensitive exact text match.
    Exact,
    /// A regular-expression pattern.
    Regex,
}

/// The payload of a matching question.
#[derive(Debug, Clone)]
pub struct Matching {
    /// The left-to-right pairs, in presentation order.
    pub pairs: Vec<MatchPair>,
    /// Extra right-hand options that are not the answer to any pair.
    pub distractors: Vec<String>,
}

/// One left prompt and its correct right-hand answer.
#[derive(Debug, Clone)]
pub struct MatchPair {
    /// The left-hand prompt.
    pub left: String,
    /// The correct right-hand answer for `left`.
    pub right: String,
}

/// The payload of an ordering question: the items, authored in their
/// correct order.
#[derive(Debug, Clone)]
pub struct OrderedItems {
    /// The items, in the correct order.
    pub items: Vec<String>,
}

/// The inline marker text for a blank named `name`: `{{name}}`.
pub open spec fn blank_marker_spec(name: Seq<char>) -> Seq<char> {
    "{{"@ + name + "}}"@
}

/// The inline marker text for a blank named `name` (that is, `{{name}}`).
pub fn blank_marker(name: &str) -> (res: String)
    ensures
        res@ == blank_marker_spec(name@),
{
    let mut out: Vec<char> = Vec::new();
    extend_str(&mut out, "{{");
    extend_str(&mut out, name);
    extend_str(&mut out, "}}");
    assert(out@ =~= blank_marker_spec(name@));
    string_from_chars(&out)
}

/// `names` with `name` added, unless it is empty or already there.
pub open spec fn add_marker(names: Seq<Seq<char>>, name: Seq<char>) -> Seq<Seq<char>> {
    if name.len() > 0 && !names.contains(name) {
        names.push(name)
    } else {
        names
    }
}

/// The blank names marked in `text`, appended to `names`: each `{{…}}` pair
/// in turn, its name trimmed, empties and repeats skipped.
pub open spec fn markers_from(text: Seq<char>, names: Seq<Seq<char>>) -> Seq<Seq<char>>
    decreases text.len(),
{
    match first_occurrence(text, "{{"@) {
        None => names,
        Some(i) => {
            let after = text.skip((i + 2) as int);
            match first_occurrence(after, "}}"@) {
                None => names,
                Some(j) => if i + 2 + j + 2 <= text.len() {
                    markers_from(
                        after.skip((j + 2) as int),
                        add_marker(names, trim_spec(after.subrange(0, j as int))),
                    )
                } else {
                    names
                },
            }
        },
    }
}

/// The inline `{{name}}` blank markers of `text`, in first-appearance order.
pub open spec fn blank_markers_spec(text: Seq<char>) -> Seq<Seq<char>> {
    markers_from(text, Seq::empty())
}

/// Whether `names` already holds `name`.
fn holds_name(names: &Vec<Vec<char>>, name: &Vec<char>) -> (res: bool)
    ensures
        res == names@.map_values(|n: Vec<char>| n@).contains(name@),
{
    let ghost view = names@.map_values(|n: Vec<char>| n@);
    let mut i: usize = 0;
    while i < names.len()
        invariant
            i <= names.len(),
            view == names@.map_values(|n: Vec<char>| n@),
            forall|k: int| 0 <= k < i ==> view[k] != name@,
        decreases names.len() - i,
    {
        if chars_eq(&names[i], name) {
            assert(view[i as int] == name@);
            return true;
        }
        i = i + 1;
    }
    false
}

/// Scan `text` for inline `{{name}}` blank markers, in first-appearance
/// order: names are trimmed, empties skipped, repeats kept once.
pub fn blank_markers(text: &str) -> (res: Vec<String>)
    ensures
        res@.map_values(|s: String| s@) == blank_markers_spec(text@),
{
    let chars = str_chars(text);
    let open = str_chars("{{");
    let close = str_chars("}}");
    let mut names: Vec<Vec<char>> = Vec::new();
    let mut pos: usize = 0;
    assert(chars@.skip(0) =~= chars@);
    assert(names@.map_values(|n: Vec<char>| n@) =~= Seq::<Seq<char>>::empty());
    loop
        invariant
            pos <= chars.len(),
            chars@ == text@,
            open@ == "{{"@,
            close@ == "}}"@,
            blank_markers_spec(text@) == markers_from(
                chars@.skip(pos as int),
                names@.map_values(|n: Vec<char>| n@),
            ),
        ensures
            blank_markers_spec(text@) == names@.map_values(|n: Vec<char>| n@),
        decreases chars.len() - pos,
    {
        let ghost rest = chars@.skip(pos as int);
        let ghost seen = names@.map_values(|n: Vec<char>| n@);
        proof {
            reveal_strlit("{{");
            reveal_strlit("}}");
            crate::text::lemma_first_occurrence(rest, open@);
        }
        let start = match find_next(&chars, &open, pos) {
            Some(i) => i,
            None => break,
        };
        if chars.len() - start < 2 {
            break;
        }
        let ghost i = start - pos;
        proof {
            reveal_strlit("{{");
            reveal_strlit("}}");
        }
        assert(rest.skip(i + 2) =~= chars@.skip(start + 2));
        proof {
            crate::text::lemma_first_occurrence(chars@.skip(start + 2), close@);
        }
        let end = match find_next(&chars, &close, start + 2) {
            Some(j) => j,
            None => break,
        };
        if chars.len() - end < 2 {
            break;
        }
        let ghost after = rest.skip(i + 2);
        let ghost j = end - (start + 2);
        assert(after.subrange(0, j as int) =~= chars@.subrange(start + 2, end as int));
        assert(after.skip(j + 2) =~= chars@.skip(end + 2));
        let name = trim_range(&chars, start + 2, end);
        if name.len() > 0 && !holds_name(&names, &name) {
            names.push(name);
            assert(names@.map_values(|n: Vec<char>| n@) =~= seen.push(name@));
        }
        pos = end + 2;
    }
    let mut out: Vec<String> = Vec::new();
    let mut k: usize = 0;
    let ghost all = names@.map_values(|n: Vec<char>| n@);
    while k < names.len()
        invariant
            k <= names.len(),
            all == names@.map_values(|n: Vec<char>| n@),
            out@.len() == k,
            forall|m: int| 0 <= m < k ==> #[trigger] out@[m]@ == all[m],
        decreases names.len() - k,
    {
        out.push(string_from_chars(&names[k]));
        k = k + 1;
    }
    assert(out@.map_values(|s: String| s@) =~= all);
    out
}

} // verus!

verus! {

/// Whether the blank at `i` is the first one named `name`.
pub open spec fn first_named(blanks: Seq<Blank>, name: Seq<char>, i: int) -> bool {
    0 <= i < blanks.len() && blanks[i].id@ == name && forall|k: int|
        0 <= k < i ==> blanks[k].id@ != name
}

/// The position of the first blank named `name`, if any.
pub open spec fn blank_named(blanks: Seq<Blank>, name: Seq<char>) -> Option<nat> {
    if exists|i: int| first_named(blanks, name, i) {
        Some((choose|i: int| first_named(blanks, name, i)) as nat)
    } else {
        None
    }
}

/// The blanks for `names`, in that order, as positions in `blanks`; a name
/// no blank carries is skipped.
pub open spec fn blanks_for(blanks: Seq<Blank>, names: Seq<Seq<char>>) -> Seq<nat>
    decreases names.len(),
{
    if names.len() == 0 {
        Seq::empty()
    } else {
        match blank_named(blanks, names.last()) {
            Some(i) => blanks_for(blanks, names.drop_last()).push(i),
            None => blanks_for(blanks, names.drop_last()),
        }
    }
}

/// Every position `blanks_for` yields is a position of `blanks`.
pub proof fn lemma_blanks_for_in_range(blanks: Seq<Blank>, names: Seq<Seq<char>>)
    ensures
        forall|k: int|
            0 <= k < blanks_for(blanks, names).len() ==> #[trigger] blanks_for(blanks, names)[k]
                < blanks.len(),
    decreases names.len(),
{
    if names.len() > 0 {
        lemma_blanks_for_in_range(blanks, names.drop_last());
        let prev = blanks_for(blanks, names.drop_last());
        if exists|i: int| first_named(blanks, names.last(), i) {
            let i = choose|i: int| first_named(blanks, names.last(), i);
            assert(i < blanks.len());
            assert(blank_named(blanks, names.last()) == Some(i as nat));
            assert(blanks_for(blanks, names) == prev.push(i as nat));
            assert forall|k: int| 0 <= k < blanks_for(blanks, names).len() implies #[trigger] blanks_for(
                blanks,
                names,
            )[k] < blanks.len() by {
                if k < prev.len() {
                    assert(blanks_for(blanks, names)[k] == prev[k]);
                }
            }
        } else {
            assert(blank_named(blanks, names.last()) is None);
            assert(blanks_for(blanks, names) == prev);
        }
    }
}

/// The first blank named `name`, searched front to back.
fn find_blank(blanks: &Vec<Blank>, name: &str) -> (res: Option<usize>)
    ensures
        match blank_named(blanks@, name@) {
            Some(i) => res == Some(i as usize) && i < blanks.len(),
            None => res is None,
        },
{
    let mut i: usize = 0;
    while i < blanks.len()
        invariant
            i <= blanks.len(),
            forall|k: int| 0 <= k < i ==> blanks@[k].id@ != name@,
        decreases blanks.len() - i,
    {
        if crate::text::str_eq(blanks[i].id.as_str(), name) {
            assert(first_named(blanks@, name@, i as int));
            let ghost j = choose|j: int| first_named(blanks@, name@, j);
            assert(j == i) by {
                if j < i {
                    assert(blanks@[j].id@ != name@);
                }
                if j > i {
                    assert(blanks@[i as int].id@ != name@);
                }
            }
            return Some(i);
        }
        i = i + 1;
    }
    assert(!exists|j: int| first_named(blanks@, name@, j));
    None
}

impl FillInBlank {
    /// The blanks in prompt order, as positions in [`FillInBlank::blanks`],
    /// each located by its `{{name}}` marker.
    ///
    /// Blanks are stored sorted by name, so exporters use this to recover the
    /// order the author actually wrote them in.
    pub fn ordered(&self, prompt: &str) -> (res: Vec<usize>)
        ensures
            res@.map_values(|i: usize| i as nat) == blanks_for(self.blanks@, blank_markers_spec(prompt@)),
    {
        let names = blank_markers(prompt);
        let ghost all = names@.map_values(|s: String| s@);
        let mut out: Vec<usize> = Vec::new();
        let mut k: usize = 0;
        assert(all.subrange(0, 0) =~= Seq::<Seq<char>>::empty());
        while k < names.len()
            invariant
                k <= names.len(),
                all == names@.map_values(|s: String| s@),
                out@.map_values(|i: usize| i as nat) == blanks_for(self.blanks@, all.subrange(0, k as int)),
            decreases names.len() - k,
        {
            assert(all.subrange(0, k + 1).drop_last() =~= all.subrange(0, k as int));
            assert(all.subrange(0, k + 1).last() == names@[k as int]@);
            let ghost before = out@;
            match find_blank(&self.blanks, names[k].as_str()) {
                Some(i) => {
                    assert(blank_named(self.blanks@, names@[k as int]@) == Some(i as nat));
                    out.push(i);
                    assert(out@.map_values(|i: usize| i as nat) =~= before.map_values(|i: usize| i as nat).push(i as nat));
                },
                None => {
                    assert(blank_named(self.blanks@, names@[k as int]@) is None);
                },
            }
            k = k + 1;
        }
        assert(all.subrange(0, names.len() as int) =~= all);
        out
    }
}

/// `items` with later repeats dropped, first appearances kept in order.
pub open spec fn dedup_spec(items: Seq<Seq<char>>) -> Seq<Seq<char>>
    decreases items.len(),
{
    if items.len() == 0 {
        Seq::empty()
    } else {
        let kept = dedup_spec(items.drop_last());
        if kept.contains(items.last()) {
            kept
        } else {
            kept.push(items.last())
        }
    }
}

/// The right-hand answers of `pairs`, in order.
pub open spec fn rights_spec(pairs: Seq<MatchPair>) -> Seq<Seq<char>> {
    pairs.map_values(|p: MatchPair| p.right@)
}

/// The distinct right-hand options of a matching question: the pair answers
/// then the distractors, each once, in that order.
pub open spec fn options_spec(matching: Matching) -> Seq<Seq<char>> {
    dedup_spec(rights_spec(matching.pairs@) + matching.distractors@.map_values(|s: String| s@))
}

/// Push `text` onto `kept` unless it is already there.
fn push_distinct(kept: &mut Vec<Vec<char>>, text: Vec<char>, Ghost(before): Ghost<Seq<Seq<char>>>)
    requires
        old(kept)@.len() == before.len(),
        forall|m: int| 0 <= m < before.len() ==> #[trigger] old(kept)@[m]@ == before[m],
    ensures
        final(kept)@.len() == (if before.contains(text@) { before } else { before.push(text@) }).len(),
        forall|m: int| 0 <= m < final(kept)@.len() ==> #[trigger] final(kept)@[m]@ == (if before.contains(text@) { before } else { before.push(text@) })[m],
{
    assert(old(kept)@.map_values(|n: Vec<char>| n@) =~= before);
    if !holds_name(kept, &text) {
        kept.push(text);
    }
}

impl Matching {
    /// The distinct right-hand options (pair answers then distractors), in
    /// order. These become the shared choice list every left selects from.
    pub fn options(&self) -> (res: Vec<String>)
        ensures
            res@.map_values(|s: String| s@) == options_spec(*self),
    {
        let ghost rights = rights_spec(self.pairs@);
        let ghost extras = self.distractors@.map_values(|s: String| s@);
        let ghost all = rights + extras;
        let mut kept: Vec<Vec<char>> = Vec::new();
        let mut k: usize = 0;
        assert(all.subrange(0, 0) =~= Seq::<Seq<char>>::empty());
        while k < self.pairs.len()
            invariant
                k <= self.pairs.len(),
                all == rights + extras,
                rights == rights_spec(self.pairs@),
                kept@.len() == dedup_spec(all.subrange(0, k as int)).len(),
                forall|m: int| 0 <= m < kept@.len() ==> #[trigger] kept@[m]@ == dedup_spec(all.subrange(0, k as int))[m],
            decreases self.pairs.len() - k,
        {
            let text = str_chars(self.pairs[k].right.as_str());
            assert(text@ == all[k as int]);
            assert(all.subrange(0, k + 1).drop_last() =~= all.subrange(0, k as int));
            push_distinct(&mut kept, text, Ghost(dedup_spec(all.subrange(0, k as int))));
            k = k + 1;
        }
        let mut d: usize = 0;
        while d < self.distractors.len()
            invariant
                d <= self.distractors.len(),
                all == rights + extras,
                rights.len() == self.pairs.len(),
                extras == self.distractors@.map_values(|s: String| s@),
                kept@.len() == dedup_spec(all.subrange(0, self.pairs.len() + d)).len(),
                forall|m: int| 0 <= m < kept@.len() ==> #[trigger] kept@[m]@ == dedup_spec(all.subrange(0, self.pairs.len() + d))[m],
            decreases self.distractors.len() - d,
        {
            let text = str_chars(self.distractors[d].as_str());
            let ghost at = self.pairs.len() + d;
            assert(text@ == all[at]);
            assert(all.subrange(0, at + 1).drop_last() =~= all.subrange(0, at));
            push_distinct(&mut kept, text, Ghost(dedup_spec(all.subrange(0, at))));
            d = d + 1;
        }
        assert(all.subrange(0, all.len() as int) =~= all);
        let mut out: Vec<String> = Vec::new();
        let mut m: usize = 0;
        while m < kept.len()
            invariant
                m <= kept.len(),
                out@.len() == m,
                forall|j: int| 0 <= j < m ==> #[trigger] out@[j]@ == kept@[j]@,
            decreases kept.len() - m,
        {
            out.push(string_from_chars(&kept[m]));
            m = m + 1;
        }
        assert(out@.map_values(|s: String| s@) =~= options_spec(*self));
        out
    }
}

/// `prompt` with each blank's marker, in turn, replaced by a write-in line.
pub open spec fn fill_blanks_spec(prompt: Seq<char>, blanks: Seq<Blank>) -> Seq<char>
    decreases blanks.len(),
{
    if blanks.len() == 0 {
        prompt
    } else {
        replace_spec(
            fill_blanks_spec(prompt, blanks.drop_last()),
            blank_marker_spec(blanks.last().id@),
            "________"@,
        )
    }
}

/// `prompt` as it should be printed: every `{{name}}` marker of a blank
/// becomes a `________` line to write in.
pub fn fill_blanks(prompt: &str, blanks: &Vec<Blank>) -> (res: String)
    ensures
        res@ == fill_blanks_spec(prompt@, blanks@),
{
    let mut filled = replace_str(prompt, "", "");
    let mut k: usize = 0;
    assert(blanks@.subrange(0, 0) =~= Seq::<Blank>::empty());
    proof {
        assert(replace_spec(prompt@, ""@, ""@) == prompt@) by {
            reveal_strlit("");
        }
    }
    while k < blanks.len()
        invariant
            k <= blanks.len(),
            filled@ == fill_blanks_spec(prompt@, blanks@.subrange(0, k as int)),
        decreases blanks.len() - k,
    {
        assert(blanks@.subrange(0, k + 1).drop_last() =~= blanks@.subrange(0, k as int));
        let marker = blank_marker(blanks[k].id.as_str());
        filled = replace_str(filled.as_str(), marker.as_str(), "________");
        k = k + 1;
    }
    assert(blanks@.subrange(0, blanks.len() as int) =~= blanks@);
    filled
}

} // verus!

verus! {

/// Whether the item at `i` is presented before the one at `j` in a text
/// sort: its text sorts first, or the texts are equal and it came first.
pub open spec fn key_before(keys: Seq<Seq<char>>, i: int, j: int) -> bool {
    crate::text::text_lt(keys[i], keys[j]) || (keys[i] == keys[j] && i < j)
}

/// Whether `order` lists the first `n` positions of `keys`, sorted by text
/// (ties kept in their original order).
pub open spec fn sorted_prefix(keys: Seq<Seq<char>>, order: Seq<usize>, n: nat) -> bool {
    &&& order.len() == n
    &&& forall|k: int| 0 <= k < order.len() ==> #[trigger] order[k] < n
    &&& forall|a: int, b: int|
        0 <= a < b < order.len() ==> key_before(keys, #[trigger] order[a] as int, #[trigger] order[b] as int)
}

/// Whether `order` lists every position of `keys` once, sorted by text
/// (ties kept in their original order).
pub open spec fn sorted_order(keys: Seq<Seq<char>>, order: Seq<usize>) -> bool {
    sorted_prefix(keys, order, keys.len())
}

/// Whether `order` is `0, 1, 2, …`.
pub open spec fn is_identity(order: Seq<usize>) -> bool {
    forall|k: int| 0 <= k < order.len() ==> #[trigger] order[k] == k
}

/// The presented order: the sorted order, rotated by one when the sort
/// would hand back the authored order itself.
pub open spec fn rotated_off(order: Seq<usize>) -> Seq<usize> {
    if order.len() > 1 && is_identity(order) {
        order.skip(1).push(order[0])
    } else {
        order
    }
}

/// Where position `i` goes among `order[p..]`: before the first whose text
/// it sorts before, else at the end.
pub open spec fn insert_at(keys: Seq<Seq<char>>, order: Seq<usize>, i: int, p: int) -> int
    decreases order.len() - p,
{
    if p < 0 || p >= order.len() {
        order.len() as int
    } else if crate::text::text_lt(keys[i], keys[order[p] as int]) {
        p
    } else {
        insert_at(keys, order, i, p + 1)
    }
}

/// The first `n` positions of `keys` sorted by insertion: each in turn
/// placed before the first one already placed whose text it sorts before.
pub open spec fn sort_spec(keys: Seq<Seq<char>>, n: nat) -> Seq<usize>
    decreases n,
{
    if n == 0 {
        Seq::empty()
    } else {
        let placed = sort_spec(keys, (n - 1) as nat);
        placed.insert(insert_at(keys, placed, n - 1, 0), (n - 1) as usize)
    }
}

/// How items with texts `keys` are presented to a student: sorted by text,
/// and never in the authored order when there is a choice.
pub open spec fn presented_spec(keys: Seq<Seq<char>>) -> Seq<usize> {
    rotated_off(sort_spec(keys, keys.len()))
}

/// Where a position is inserted lies within the order, and everything
/// before it sorts no later than it.
proof fn lemma_insert_at(keys: Seq<Seq<char>>, order: Seq<usize>, i: int, p: int)
    requires
        0 <= p <= order.len(),
    ensures
        p <= insert_at(keys, order, i, p) <= order.len(),
        forall|k: int| p <= k < insert_at(keys, order, i, p) ==> !crate::text::text_lt(keys[i], keys[#[trigger] order[k] as int]),
        insert_at(keys, order, i, p) < order.len() ==> crate::text::text_lt(keys[i], keys[order[insert_at(keys, order, i, p)] as int]),
    decreases order.len() - p,
{
    if p < order.len() && !crate::text::text_lt(keys[i], keys[order[p] as int]) {
        lemma_insert_at(keys, order, i, p + 1);
    }
}

/// Inserting the next position where [`insert_at`] puts it keeps a sorted
/// prefix sorted.
proof fn lemma_insert_sorted(keys: Seq<Seq<char>>, order: Seq<usize>, n: nat)
    requires
        n < keys.len() <= usize::MAX,
        sorted_prefix(keys, order, n),
    ensures
        sorted_prefix(keys, order.insert(insert_at(keys, order, n as int, 0), n as usize), n + 1),
{
    let i = n as int;
    let pos = insert_at(keys, order, i, 0);
    lemma_insert_at(keys, order, i, 0);
    let ks = keys;
    let old_order = order;
    let new_order = order.insert(pos, n as usize);
    assert forall|a: int, b: int| 0 <= a < b < new_order.len() implies key_before(ks, #[trigger] new_order[a] as int, #[trigger] new_order[b] as int) by {
        if b < pos {
            assert(new_order[a] == old_order[a] && new_order[b] == old_order[b]);
        } else if a > pos {
            assert(new_order[a] == old_order[a - 1] && new_order[b] == old_order[b - 1]);
        } else if a < pos && b > pos {
            assert(new_order[a] == old_order[a] && new_order[b] == old_order[b - 1]);
        } else if b == pos {
            let x = old_order[a] as int;
            assert(new_order[a] == old_order[a] && new_order[b] == n as usize);
            crate::text::lemma_text_lt_order(ks[x], ks[i], ks[i]);
            assert(!crate::text::text_lt(ks[i], ks[x]));
            assert(x < i);
        } else {
            let y = old_order[b - 1] as int;
            let z = old_order[pos] as int;
            assert(new_order[a] == n as usize && new_order[b] == old_order[b - 1]);
            assert(crate::text::text_lt(ks[i], ks[z]));
            crate::text::lemma_text_lt_order(ks[i], ks[z], ks[y]);
            if b - 1 > pos {
                assert(key_before(ks, z, y));
            }
            assert(crate::text::text_lt(ks[i], ks[y]));
        }
    }
    assert forall|k: int| 0 <= k < new_order.len() implies #[trigger] new_order[k] < n + 1 by {
        if k < pos {
            assert(new_order[k] == old_order[k]);
        } else if k > pos {
            assert(new_order[k] == old_order[k - 1]);
        }
    }
}

/// Sorting by insertion sorts: every position once, by text, ties in their
/// original order.
pub proof fn insertion_sorts(keys: Seq<Seq<char>>, n: nat)
    requires
        n <= keys.len() <= usize::MAX,
    ensures
        sorted_prefix(keys, sort_spec(keys, n), n),
    decreases n,
{
    if n > 0 {
        insertion_sorts(keys, (n - 1) as nat);
        lemma_insert_sorted(keys, sort_spec(keys, (n - 1) as nat), (n - 1) as nat);
    }
}

/// The presented order is the authored positions sorted by text, ties in
/// their authored order, rotated by one where that would be the authored
/// order itself.
pub proof fn presented_orders_are_sorted(keys: Seq<Seq<char>>)
    requires
        keys.len() <= usize::MAX,
    ensures
        sorted_order(keys, sort_spec(keys, keys.len())),
        presented_spec(keys) == rotated_off(sort_spec(keys, keys.len())),
{
    insertion_sorts(keys, keys.len());
}

/// The positions of `keys`, sorted by text with ties in authored order.
fn sorted_positions(keys: &Vec<Vec<char>>) -> (res: Vec<usize>)
    ensures
        res@ == sort_spec(keys@.map_values(|k: Vec<char>| k@), keys@.len()),
{
    let ghost ks = keys@.map_values(|k: Vec<char>| k@);
    let mut order: Vec<usize> = Vec::new();
    let mut i: usize = 0;
    while i < keys.len()
        invariant
            i <= keys.len(),
            ks == keys@.map_values(|k: Vec<char>| k@),
            order@ == sort_spec(ks, i as nat),
        decreases keys.len() - i,
    {
        proof {
            insertion_sorts(ks, i as nat);
        }
        let mut pos: usize = 0;
        while pos < order.len() && !crate::text::chars_lt(&keys[i], &keys[order[pos]])
            invariant
                pos <= order@.len(),
                i < keys.len(),
                ks == keys@.map_values(|k: Vec<char>| k@),
                order@ == sort_spec(ks, i as nat),
                sorted_prefix(ks, order@, i as nat),
                insert_at(ks, order@, i as int, 0) == insert_at(ks, order@, i as int, pos as int),
            decreases order@.len() - pos,
        {
            pos = pos + 1;
        }
        order.insert(pos, i);
        i = i + 1;
    }
    order
}

/// The presentation order for items with texts `keys`.
fn presentation(keys: &Vec<Vec<char>>) -> (res: Vec<usize>)
    ensures
        res@ == presented_spec(keys@.map_values(|k: Vec<char>| k@)),
{
    let sorted = sorted_positions(keys);
    let mut identity = true;
    let mut k: usize = 0;
    while k < sorted.len()
        invariant
            k <= sorted.len(),
            identity == forall|m: int| 0 <= m < k ==> #[trigger] sorted@[m] == m,
        decreases sorted.len() - k,
    {
        if sorted[k] != k {
            identity = false;
        }
        k = k + 1;
    }
    if sorted.len() > 1 && identity {
        let mut rotated: Vec<usize> = Vec::new();
        let mut m: usize = 1;
        while m < sorted.len()
            invariant
                1 <= m <= sorted.len(),
                rotated@ == sorted@.subrange(1, m as int),
            decreases sorted.len() - m,
        {
            rotated.push(sorted[m]);
            m = m + 1;
            assert(rotated@ =~= sorted@.subrange(1, m as int));
        }
        rotated.push(sorted[0]);
        assert(rotated@ =~= rotated_off(sorted@));
        rotated
    } else {
        assert(sorted@ == rotated_off(sorted@));
        sorted
    }
}

/// The characters of each text in `texts`.
fn texts_chars(texts: &Vec<String>) -> (res: Vec<Vec<char>>)
    ensures
        res@.map_values(|k: Vec<char>| k@) == texts@.map_values(|s: String| s@),
{
    let mut out: Vec<Vec<char>> = Vec::new();
    let mut k: usize = 0;
    while k < texts.len()
        invariant
            k <= texts.len(),
            out@.len() == k,
            forall|m: int| 0 <= m < k ==> #[trigger] out@[m]@ == texts@[m]@,
        decreases texts.len() - k,
    {
        out.push(str_chars(texts[k].as_str()));
        k = k + 1;
    }
    assert(out@.map_values(|k: Vec<char>| k@) =~= texts@.map_values(|s: String| s@));
    out
}

impl Matching {
    /// The order the right-hand options are presented in, as positions in
    /// [`Matching::options`]: sorted by text, and rotated off the order that
    /// would line option *n* up with prompt *n*.
    pub fn display_order(&self) -> (res: Vec<usize>)
        ensures
            res@ == presented_spec(options_spec(*self)),
    {
        let options = self.options();
        let keys = texts_chars(&options);
        presentation(&keys)
    }
}

impl OrderedItems {
    /// The order the items are presented in: sorted by text, never the
    /// authored (correct) order itself when there are two or more.
    pub fn display_order(&self) -> (res: Vec<usize>)
        ensures
            res@ == presented_spec(self.items@.map_values(|s: String| s@)),
    {
        let keys = texts_chars(&self.items);
        presentation(&keys)
    }
}


/// The feedback messages that are present, in the order general, correct,
/// incorrect.
pub open spec fn feedback_texts(feedback: Feedback) -> Seq<Seq<char>> {
    (if feedback.general is Some { seq![feedback.general->0@] } else { Seq::empty() })
        + (if feedback.correct is Some { seq![feedback.correct->0@] } else { Seq::empty() })
        + (if feedback.incorrect is Some { seq![feedback.incorrect->0@] } else { Seq::empty() })
}

/// The texts of `choices`, in order.
pub open spec fn choice_texts(choices: Seq<Choice>) -> Seq<Seq<char>> {
    choices.map_values(|c: Choice| c.text@)
}

/// The Markdown a question's kind carries: choice texts and ordering items.
pub open spec fn kind_texts(kind: QuestionKind) -> Seq<Seq<char>> {
    match kind {
        QuestionKind::MultipleChoice(set) => choice_texts(set.choices@),
        QuestionKind::MultipleSelect(select) => choice_texts(select.choices@),
        QuestionKind::Ordered(ordered) => ordered.items@.map_values(|t: String| t@),
        _ => Seq::empty(),
    }
}

/// Every field of `q` that holds authored Markdown, in order: the prompt,
/// then the choice texts or ordering items, then the feedback messages
/// present.
pub open spec fn rich_text_spec(q: Question) -> Seq<Seq<char>> {
    seq![q.prompt@] + kind_texts(q.kind) + feedback_texts(q.feedback)
}

/// Whether two choice lists agree in everything but their texts.
pub open spec fn same_choice_shape(a: Seq<Choice>, b: Seq<Choice>) -> bool {
    a.len() == b.len() && forall|i: int| 0 <= i < a.len() ==> #[trigger] a[i].correct == b[i].correct
}

/// Whether two kinds agree in everything but their Markdown texts.
pub open spec fn same_kind_shape(a: QuestionKind, b: QuestionKind) -> bool {
    match (a, b) {
        (QuestionKind::TrueFalse(x), QuestionKind::TrueFalse(y)) => x == y,
        (QuestionKind::MultipleChoice(x), QuestionKind::MultipleChoice(y)) => same_choice_shape(
            x.choices@,
            y.choices@,
        ),
        (QuestionKind::MultipleSelect(x), QuestionKind::MultipleSelect(y)) => x.scoring
            == y.scoring && same_choice_shape(x.choices@, y.choices@),
        (QuestionKind::FillInBlank(x), QuestionKind::FillInBlank(y)) => x == y,
        (QuestionKind::Matching(x), QuestionKind::Matching(y)) => x == y,
        (QuestionKind::Ordered(x), QuestionKind::Ordered(y)) => x.items@.len() == y.items@.len(),
        _ => false,
    }
}

/// Whether two questions agree in everything but their Markdown texts.
pub open spec fn same_shape(a: Question, b: Question) -> bool {
    &&& a.id == b.id
    &&& a.title == b.title
    &&& a.points == b.points
    &&& a.tags == b.tags
    &&& (a.feedback.general is Some <==> b.feedback.general is Some)
    &&& (a.feedback.correct is Some <==> b.feedback.correct is Some)
    &&& (a.feedback.incorrect is Some <==> b.feedback.incorrect is Some)
    &&& same_kind_shape(a.kind, b.kind)
}

/// The texts of `choices`, in order.
fn choice_text_list(choices: &Vec<Choice>) -> (res: Vec<String>)
    ensures
        res@.map_values(|t: String| t@) == choice_texts(choices@),
{
    let mut out: Vec<String> = Vec::new();
    let mut i: usize = 0;
    while i < choices.len()
        invariant
            i <= choices.len(),
            out@.map_values(|t: String| t@) == choice_texts(choices@.subrange(0, i as int)),
        decreases choices.len() - i,
    {
        out.push(choices[i].text.clone());
        assert(choice_texts(choices@.subrange(0, i + 1)) =~= choice_texts(
            choices@.subrange(0, i as int),
        ).push(choices@[i as int].text@));
        assert(out@.map_values(|t: String| t@) =~= choice_texts(choices@.subrange(0, i + 1)));
        i = i + 1;
    }
    assert(choices@.subrange(0, choices.len() as int) =~= choices@);
    out
}

/// Append copies of `texts` to `out`.
fn extend_texts(out: &mut Vec<String>, texts: &Vec<String>)
    ensures
        final(out)@.map_values(|t: String| t@) == old(out)@.map_values(|t: String| t@)
            + texts@.map_values(|t: String| t@),
{
    let mut i: usize = 0;
    while i < texts.len()
        invariant
            i <= texts.len(),
            out@.map_values(|t: String| t@) == old(out)@.map_values(|t: String| t@)
                + texts@.subrange(0, i as int).map_values(|t: String| t@),
        decreases texts.len() - i,
    {
        let ghost before = out@.map_values(|t: String| t@);
        out.push(texts[i].clone());
        assert(out@.map_values(|t: String| t@) =~= before.push(texts@[i as int]@));
        assert(texts@.subrange(0, i + 1).map_values(|t: String| t@) =~= texts@.subrange(
            0,
            i as int,
        ).map_values(|t: String| t@).push(texts@[i as int]@));
        i = i + 1;
    }
    assert(texts@.subrange(0, texts.len() as int) =~= texts@);
}

impl Question {
    /// Every field holding authored Markdown, in order: the prompt, then the
    /// choice texts or ordering items, then the feedback messages present.
    pub fn rich_text_fields(&self) -> (res: Vec<String>)
        ensures
            res@.map_values(|t: String| t@) == rich_text_spec(*self),
    {
        let mut out: Vec<String> = Vec::new();
        out.push(self.prompt.clone());
        let kind = match &self.kind {
            QuestionKind::MultipleChoice(set) => choice_text_list(&set.choices),
            QuestionKind::MultipleSelect(select) => choice_text_list(&select.choices),
            QuestionKind::Ordered(ordered) => {
                let mut items: Vec<String> = Vec::new();
                extend_texts(&mut items, &ordered.items);
                items
            },
            _ => Vec::new(),
        };
        extend_texts(&mut out, &kind);
        let mut feedback: Vec<String> = Vec::new();
        match &self.feedback.general {
            Some(t) => feedback.push(t.clone()),
            None => {},
        }
        match &self.feedback.correct {
            Some(t) => feedback.push(t.clone()),
            None => {},
        }
        match &self.feedback.incorrect {
            Some(t) => feedback.push(t.clone()),
            None => {},
        }
        assert(feedback@.map_values(|t: String| t@) =~= feedback_texts(self.feedback));
        extend_texts(&mut out, &feedback);
        assert(out@.map_values(|t: String| t@) =~= rich_text_spec(*self));
        out
    }

    /// Replace the `k`th Markdown field (in [`Question::rich_text_fields`]
    /// order) with `value`, leaving everything else as it was.
    pub fn set_rich_text_field(&mut self, k: usize, value: String)
        requires
            k < rich_text_spec(*old(self)).len(),
        ensures
            rich_text_spec(*final(self)) == rich_text_spec(*old(self)).update(k as int, value@),
            same_shape(*old(self), *final(self)),
    {
        let ghost before = rich_text_spec(*self);
        let n = self.kind_text_count();
        if k == 0 {
            self.prompt = value;
            assert(rich_text_spec(*self) =~= before.update(k as int, value@));
        } else if k <= n {
            let j = k - 1;
            match &mut self.kind {
                QuestionKind::MultipleChoice(set) => {
                    let correct = set.choices[j].correct;
                    set.choices.set(j, Choice { text: value, correct });
                },
                QuestionKind::MultipleSelect(select) => {
                    let correct = select.choices[j].correct;
                    select.choices.set(j, Choice { text: value, correct });
                },
                QuestionKind::Ordered(ordered) => {
                    ordered.items.set(j, value);
                },
                _ => {},
            }
            assert(kind_texts(self.kind) =~= kind_texts(old(self).kind).update(j as int, value@));
            assert(rich_text_spec(*self) =~= before.update(k as int, value@));
        } else {
            let mut slot = k - 1 - n;
            if self.feedback.general.is_some() {
                if slot == 0 {
                    self.feedback.general = Some(value);
                    assert(rich_text_spec(*self) =~= before.update(k as int, value@));
                    return;
                }
                slot = slot - 1;
            }
            if self.feedback.correct.is_some() {
                if slot == 0 {
                    self.feedback.correct = Some(value);
                    assert(rich_text_spec(*self) =~= before.update(k as int, value@));
                    return;
                }
                slot = slot - 1;
            }
            self.feedback.incorrect = Some(value);
            assert(rich_text_spec(*self) =~= before.update(k as int, value@));
        }
    }

    /// How many Markdown texts the question's kind carries.
    fn kind_text_count(&self) -> (n: usize)
        ensures
            n == kind_texts(self.kind).len(),
    {
        match &self.kind {
            QuestionKind::MultipleChoice(set) => set.choices.len(),
            QuestionKind::MultipleSelect(select) => select.choices.len(),
            QuestionKind::Ordered(ordered) => ordered.items.len(),
            _ => 0,
        }
    }
}

} // verus!
