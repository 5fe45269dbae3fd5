//! An item bank rendered as print-ready Markdown.
//!
//! [`to_print_markdown`] produces the student sheet: no answer key, no
//! scoring hints. [`to_answer_key`] produces the matching instructor key: the
//! same numbering, but each question shows only its correct answer(s).
use crate::error::Error;
use crate::label::{label_spec, sequence};
use crate::model::{
    fill_blanks, fill_blanks_spec, options_spec, presented_spec, Blank, Choice, ItemBank,
    MatchPair, Matching, OrderedItems, Question, QuestionKind,
};
use crate::text::{appears_in, decimal_spec, extend_str, push_decimal, string_from_chars};
use vstd::prelude::*;

verus! {

/// `number. ` followed by `prompt` and a line break: how every question
/// opens.
pub open spec fn head_spec(number: nat, prompt: Seq<char>) -> Seq<char> {
    decimal_spec(number) + ". "@ + prompt + "\n"@
}

/// A true/false question: the prompt plus blank True/False checkboxes.
pub open spec fn true_false_sheet(number: nat, prompt: Seq<char>) -> Seq<char> {
    head_spec(number, prompt) + "\n   - [ ] True\n   - [ ] False\n"@
}

/// The lettered lines of the first `n` choices; with `multiple` each
/// carries a blank checkbox.
pub open spec fn choice_lines(choices: Seq<Choice>, n: nat, multiple: bool) -> Seq<char>
    decreases n,
{
    if n == 0 {
        Seq::empty()
    } else {
        let label = label_spec((n - 1) as nat);
        choice_lines(choices, (n - 1) as nat, multiple) + if multiple {
            "\n   - [ ] "@ + label + ". "@ + choices[n - 1].text@
        } else {
            "\n   "@ + label + ". "@ + choices[n - 1].text@
        }
    }
}

/// A choice-based question: the prompt then the lettered options, no key.
pub open spec fn choices_sheet(number: nat, prompt: Seq<char>, choices: Seq<Choice>, multiple: bool) -> Seq<
    char,
> {
    head_spec(number, prompt) + choice_lines(choices, choices.len(), multiple) + "\n"@
}

/// A fill-in-the-blank question: each `{{name}}` marker a line to write on.
pub open spec fn blanks_sheet(number: nat, prompt: Seq<char>, blanks: Seq<Blank>) -> Seq<char> {
    decimal_spec(number) + ". "@ + fill_blanks_spec(prompt, blanks) + "\n"@
}

/// The numbered left prompts of the first `n` pairs.
pub open spec fn left_lines(pairs: Seq<MatchPair>, n: nat) -> Seq<char>
    decreases n,
{
    if n == 0 {
        Seq::empty()
    } else {
        left_lines(pairs, (n - 1) as nat) + "\n   "@ + decimal_spec(n) + ". "@ + pairs[n - 1].left@
    }
}

/// The lettered options at the first `n` positions of `order`.
pub open spec fn option_lines(options: Seq<Seq<char>>, order: Seq<usize>, n: nat) -> Seq<char>
    decreases n,
{
    if n == 0 {
        Seq::empty()
    } else {
        let index = order[n - 1] as int;
        option_lines(options, order, (n - 1) as nat) + if 0 <= index < options.len() {
            "\n   "@ + label_spec((n - 1) as nat) + ". "@ + options[index]
        } else {
            Seq::empty()
        }
    }
}

/// A matching question: numbered left prompts, then every right-hand option
/// lettered in `order`, no key.
pub open spec fn matching_sheet(number: nat, prompt: Seq<char>, matching: Matching, order: Seq<usize>) -> Seq<
    char,
> {
    head_spec(number, prompt) + left_lines(matching.pairs@, matching.pairs@.len()) + "\n"@
        + option_lines(options_spec(matching), order, order.len()) + "\n"@
}

/// The items at the first `n` positions of `order`, each with a blank to
/// write its position.
pub open spec fn ordering_lines(items: Seq<String>, order: Seq<usize>, n: nat) -> Seq<char>
    decreases n,
{
    if n == 0 {
        Seq::empty()
    } else {
        let index = order[n - 1] as int;
        ordering_lines(items, order, (n - 1) as nat) + if 0 <= index < items.len() {
            "\n   ____ "@ + items[index]@
        } else {
            Seq::empty()
        }
    }
}

/// An ordering question: the items in `order`, each with a blank, no key.
pub open spec fn ordering_sheet(number: nat, prompt: Seq<char>, ordering: OrderedItems, order: Seq<usize>) -> Seq<
    char,
> {
    head_spec(number, prompt) + ordering_lines(ordering.items@, order, order.len()) + "\n"@
}

/// How question `q` prints as question `number`: by its kind, the matching
/// options and ordering items in their presented order.
pub open spec fn question_sheet_spec(number: nat, q: Question) -> Seq<char> {
    match q.kind {
        QuestionKind::TrueFalse(_) => true_false_sheet(number, q.prompt@),
        QuestionKind::MultipleChoice(set) => choices_sheet(number, q.prompt@, set.choices@, false),
        QuestionKind::MultipleSelect(select) => choices_sheet(number, q.prompt@, select.choices@, true),
        QuestionKind::FillInBlank(fitb) => blanks_sheet(number, q.prompt@, fitb.blanks@),
        QuestionKind::Matching(matching) => matching_sheet(
            number,
            q.prompt@,
            matching,
            presented_spec(options_spec(matching)),
        ),
        QuestionKind::Ordered(ordering) => ordering_sheet(
            number,
            q.prompt@,
            ordering,
            presented_spec(ordering.items@.map_values(|s: String| s@)),
        ),
    }
}

fn push_head(out: &mut Vec<char>, number: usize, prompt: &str)
    ensures
        final(out)@ == old(out)@ + head_spec(number as nat, prompt@),
{
    push_decimal(out, number as u64);
    extend_str(out, ". ");
    extend_str(out, prompt);
    extend_str(out, "\n");
    assert(final(out)@ =~= old(out)@ + head_spec(number as nat, prompt@));
}

fn render_true_false(number: usize, prompt: &str) -> (res: String)
    ensures
        res@ == true_false_sheet(number as nat, prompt@),
{
    let mut out: Vec<char> = Vec::new();
    push_head(&mut out, number, prompt);
    extend_str(&mut out, "\n   - [ ] True\n   - [ ] False\n");
    assert(out@ =~= true_false_sheet(number as nat, prompt@));
    string_from_chars(&out)
}

fn render_choices(number: usize, prompt: &str, choices: &Vec<Choice>, multiple: bool) -> (res: String)
    ensures
        res@ == choices_sheet(number as nat, prompt@, choices@, multiple),
{
    let mut out: Vec<char> = Vec::new();
    push_head(&mut out, number, prompt);
    let ghost start = out@;
    let mut i: usize = 0;
    assert(out@ =~= start + choice_lines(choices@, 0, multiple));
    while i < choices.len()
        invariant
            i <= choices@.len(),
            out@ == start + choice_lines(choices@, i as nat, multiple),
        decreases choices@.len() - i,
    {
        let label = sequence(i);
        if multiple {
            extend_str(&mut out, "\n   - [ ] ");
        } else {
            extend_str(&mut out, "\n   ");
        }
        extend_str(&mut out, label.as_str());
        extend_str(&mut out, ". ");
        extend_str(&mut out, choices[i].text.as_str());
        assert(out@ =~= start + choice_lines(choices@, (i + 1) as nat, multiple));
        i = i + 1;
    }
    extend_str(&mut out, "\n");
    assert(out@ =~= choices_sheet(number as nat, prompt@, choices@, multiple));
    string_from_chars(&out)
}

fn render_fill_in_blank(number: usize, prompt: &str, blanks: &Vec<Blank>) -> (res: String)
    ensures
        res@ == blanks_sheet(number as nat, prompt@, blanks@),
{
    let mut out: Vec<char> = Vec::new();
    push_decimal(&mut out, number as u64);
    extend_str(&mut out, ". ");
    let filled = fill_blanks(prompt, blanks);
    extend_str(&mut out, filled.as_str());
    extend_str(&mut out, "\n");
    assert(out@ =~= blanks_sheet(number as nat, prompt@, blanks@));
    string_from_chars(&out)
}

fn render_matching(number: usize, prompt: &str, matching: &Matching) -> (res: String)
    ensures
        res@ == matching_sheet(number as nat, prompt@, *matching, presented_spec(options_spec(*matching))),
{
    let mut out: Vec<char> = Vec::new();
    push_head(&mut out, number, prompt);
    let ghost start = out@;
    let mut i: usize = 0;
    assert(out@ =~= start + left_lines(matching.pairs@, 0));
    while i < matching.pairs.len()
        invariant
            i <= matching.pairs@.len(),
            out@ == start + left_lines(matching.pairs@, i as nat),
        decreases matching.pairs@.len() - i,
    {
        extend_str(&mut out, "\n   ");
        push_decimal(&mut out, (i + 1) as u64);
        extend_str(&mut out, ". ");
        extend_str(&mut out, matching.pairs[i].left.as_str());
        assert(out@ =~= start + left_lines(matching.pairs@, (i + 1) as nat));
        i = i + 1;
    }
    extend_str(&mut out, "\n");
    let options = matching.options();
    let ghost opts = options@.map_values(|s: String| s@);
    let order = matching.display_order();
    let ghost middle = out@;
    let mut p: usize = 0;
    assert(out@ =~= middle + option_lines(opts, order@, 0));
    while p < order.len()
        invariant
            p <= order@.len(),
            opts == options@.map_values(|s: String| s@),
            out@ == middle + option_lines(opts, order@, p as nat),
        decreases order@.len() - p,
    {
        let index = order[p];
        if index < options.len() {
            let label = sequence(p);
            extend_str(&mut out, "\n   ");
            extend_str(&mut out, label.as_str());
            extend_str(&mut out, ". ");
            extend_str(&mut out, options[index].as_str());
        }
        assert(out@ =~= middle + option_lines(opts, order@, (p + 1) as nat));
        p = p + 1;
    }
    extend_str(&mut out, "\n");
    assert(out@ =~= matching_sheet(number as nat, prompt@, *matching, order@));
    string_from_chars(&out)
}

fn render_ordering(number: usize, prompt: &str, ordering: &OrderedItems) -> (res: String)
    ensures
        res@ == ordering_sheet(
            number as nat,
            prompt@,
            *ordering,
            presented_spec(ordering.items@.map_values(|s: String| s@)),
        ),
{
    let mut out: Vec<char> = Vec::new();
    push_head(&mut out, number, prompt);
    let order = ordering.display_order();
    let ghost start = out@;
    let mut p: usize = 0;
    assert(out@ =~= start + ordering_lines(ordering.items@, order@, 0));
    while p < order.len()
        invariant
            p <= order@.len(),
            out@ == start + ordering_lines(ordering.items@, order@, p as nat),
        decreases order@.len() - p,
    {
        let index = order[p];
        if index < ordering.items.len() {
            extend_str(&mut out, "\n   ____ ");
            extend_str(&mut out, ordering.items[index].as_str());
        }
        assert(out@ =~= start + ordering_lines(ordering.items@, order@, (p + 1) as nat));
        p = p + 1;
    }
    extend_str(&mut out, "\n");
    assert(out@ =~= ordering_sheet(number as nat, prompt@, *ordering, order@));
    string_from_chars(&out)
}

/// Render a single numbered question, dispatching on its kind.
fn render_question(number: usize, question: &Question) -> (res: String)
    ensures
        res@ == question_sheet_spec(number as nat, *question),
{
    let prompt = question.prompt.as_str();
    match &question.kind {
        QuestionKind::TrueFalse(_) => render_true_false(number, prompt),
        QuestionKind::MultipleChoice(set) => render_choices(number, prompt, &set.choices, false),
        QuestionKind::MultipleSelect(select) => render_choices(number, prompt, &select.choices, true),
        QuestionKind::FillInBlank(fitb) => render_fill_in_blank(number, prompt, &fitb.blanks),
        QuestionKind::Matching(matching) => render_matching(number, prompt, matching),
        QuestionKind::Ordered(ordering) => render_ordering(number, prompt, ordering),
    }
}

/// The concatenation of `parts`, each after a blank line.
pub open spec fn sections(parts: Seq<Seq<char>>) -> Seq<char>
    decreases parts.len(),
{
    if parts.len() == 0 {
        Seq::empty()
    } else {
        sections(parts.drop_last()) + "\n"@ + parts.last()
    }
}

/// Each question of `items` as it prints, numbered from one.
pub open spec fn question_sheets(items: Seq<Question>) -> Seq<Seq<char>> {
    Seq::new(items.len(), |i: int| question_sheet_spec((i + 1) as nat, items[i]))
}

/// The print sheet of `bank`: the bank name as a heading, then each question
/// numbered from one, each after a blank line.
pub open spec fn print_sheet_spec(bank: ItemBank) -> Seq<char> {
    "# "@ + bank.name@ + "\n"@ + sections(question_sheets(bank.items@))
}

/// Whether two choice lists read the same to a student: the same texts, in
/// the same order, whichever are marked correct.
pub open spec fn same_choice_texts(a: Seq<Choice>, b: Seq<Choice>) -> bool {
    a.len() == b.len() && forall|k: int| 0 <= k < a.len() ==> (#[trigger] a[k]).text@ == b[k].text@
}

/// Whether two blank lists name the same blanks in the same order, whatever
/// answers they accept.
pub open spec fn same_blank_ids(a: Seq<Blank>, b: Seq<Blank>) -> bool {
    a.len() == b.len() && forall|k: int| 0 <= k < a.len() ==> (#[trigger] a[k]).id@ == b[k].id@
}

/// Whether two pair lists hold the same pairs in the same order.
pub open spec fn same_pairs(a: Seq<MatchPair>, b: Seq<MatchPair>) -> bool {
    a.len() == b.len() && forall|k: int|
        0 <= k < a.len() ==> (#[trigger] a[k]).left@ == b[k].left@ && a[k].right@ == b[k].right@
}

/// Whether a student sees the same of `a` and `b`: the same prompt, the
/// same kind, and the same choice texts, blank names, pairs and
/// distractors, or ordering items. Ids, titles, points, tags, feedback,
/// answers, correct marks, scoring and match modes may all differ.
pub open spec fn same_sheet(a: Question, b: Question) -> bool {
    &&& a.prompt@ == b.prompt@
    &&& match (a.kind, b.kind) {
        (QuestionKind::TrueFalse(_), QuestionKind::TrueFalse(_)) => true,
        (QuestionKind::MultipleChoice(x), QuestionKind::MultipleChoice(y)) => same_choice_texts(x.choices@, y.choices@),
        (QuestionKind::MultipleSelect(x), QuestionKind::MultipleSelect(y)) => same_choice_texts(x.choices@, y.choices@),
        (QuestionKind::FillInBlank(x), QuestionKind::FillInBlank(y)) => same_blank_ids(x.blanks@, y.blanks@),
        (QuestionKind::Matching(x), QuestionKind::Matching(y)) => same_pairs(x.pairs@, y.pairs@)
            && x.distractors@.map_values(|t: String| t@) == y.distractors@.map_values(|t: String| t@),
        (QuestionKind::Ordered(x), QuestionKind::Ordered(y)) => x.items@.map_values(|t: String| t@)
            == y.items@.map_values(|t: String| t@),
        _ => false,
    }
}

proof fn lemma_choice_lines(a: Seq<Choice>, b: Seq<Choice>, n: nat, multiple: bool)
    requires
        same_choice_texts(a, b),
        n <= a.len(),
    ensures
        choice_lines(a, n, multiple) == choice_lines(b, n, multiple),
    decreases n,
{
    if n > 0 {
        lemma_choice_lines(a, b, (n - 1) as nat, multiple);
        assert(a[n - 1].text@ == b[n - 1].text@);
    }
}

proof fn lemma_left_lines(a: Seq<MatchPair>, b: Seq<MatchPair>, n: nat)
    requires
        same_pairs(a, b),
        n <= a.len(),
    ensures
        left_lines(a, n) == left_lines(b, n),
    decreases n,
{
    if n > 0 {
        lemma_left_lines(a, b, (n - 1) as nat);
        assert(a[n - 1].left@ == b[n - 1].left@);
    }
}

proof fn lemma_ordering_lines(a: Seq<String>, b: Seq<String>, order: Seq<usize>, n: nat)
    requires
        a.map_values(|t: String| t@) == b.map_values(|t: String| t@),
        n <= order.len(),
    ensures
        ordering_lines(a, order, n) == ordering_lines(b, order, n),
    decreases n,
{
    if n > 0 {
        lemma_ordering_lines(a, b, order, (n - 1) as nat);
        let index = order[n - 1] as int;
        assert(a.len() == a.map_values(|t: String| t@).len());
        if 0 <= index < a.len() {
            assert(a.map_values(|t: String| t@)[index] == a[index]@);
            assert(b.map_values(|t: String| t@)[index] == b[index]@);
        }
    }
}

proof fn lemma_fill_blanks(prompt: Seq<char>, a: Seq<Blank>, b: Seq<Blank>)
    requires
        same_blank_ids(a, b),
    ensures
        fill_blanks_spec(prompt, a) == fill_blanks_spec(prompt, b),
    decreases a.len(),
{
    if a.len() > 0 {
        assert(same_blank_ids(a.drop_last(), b.drop_last())) by {
            assert forall|k: int| 0 <= k < a.drop_last().len() implies (#[trigger] a.drop_last()[k]).id@
                == b.drop_last()[k].id@ by {
                assert(a[k].id@ == b[k].id@);
            }
        }
        lemma_fill_blanks(prompt, a.drop_last(), b.drop_last());
        assert(a.last().id@ == b.last().id@);
    }
}

/// Questions a student sees the same of print the same.
proof fn lemma_same_sheet(number: nat, a: Question, b: Question)
    requires
        same_sheet(a, b),
    ensures
        question_sheet_spec(number, a) == question_sheet_spec(number, b),
{
    match (a.kind, b.kind) {
        (QuestionKind::MultipleChoice(x), QuestionKind::MultipleChoice(y)) => {
            lemma_choice_lines(x.choices@, y.choices@, x.choices@.len(), false);
        },
        (QuestionKind::MultipleSelect(x), QuestionKind::MultipleSelect(y)) => {
            lemma_choice_lines(x.choices@, y.choices@, x.choices@.len(), true);
        },
        (QuestionKind::FillInBlank(x), QuestionKind::FillInBlank(y)) => {
            lemma_fill_blanks(a.prompt@, x.blanks@, y.blanks@);
        },
        (QuestionKind::Matching(x), QuestionKind::Matching(y)) => {
            lemma_left_lines(x.pairs@, y.pairs@, x.pairs@.len());
            assert(crate::model::rights_spec(x.pairs@) =~= crate::model::rights_spec(y.pairs@)) by {
                assert forall|k: int| 0 <= k < x.pairs@.len() implies x.pairs@[k].right@ == y.pairs@[k].right@ by {
                    assert(x.pairs@[k].left@ == y.pairs@[k].left@);
                }
            }
            assert(options_spec(x) == options_spec(y));
        },
        (QuestionKind::Ordered(x), QuestionKind::Ordered(y)) => {
            let order = presented_spec(x.items@.map_values(|t: String| t@));
            lemma_ordering_lines(x.items@, y.items@, order, order.len());
        },
        _ => {},
    }
}

/// The print sheet carries no answer, key, scoring hint or metadata: two
/// banks of the same name whose questions a student sees the same of (the
/// same prompts, kinds, choice texts, blank names, pairs and distractors,
/// and ordering items, question by question) print the same sheet, however
/// their ids, titles, points, tags, feedback, answers and scoring differ.
pub proof fn print_sheet_shows_no_answers(a: ItemBank, b: ItemBank)
    requires
        a.name@ == b.name@,
        a.items@.len() == b.items@.len(),
        forall|i: int| 0 <= i < a.items@.len() ==> same_sheet(#[trigger] a.items@[i], b.items@[i]),
    ensures
        print_sheet_spec(a) == print_sheet_spec(b),
{
    assert(question_sheets(a.items@) =~= question_sheets(b.items@)) by {
        assert forall|i: int| 0 <= i < a.items@.len() implies question_sheets(a.items@)[i]
            == question_sheets(b.items@)[i] by {
            lemma_same_sheet((i + 1) as nat, a.items@[i], b.items@[i]);
        }
    }
}

/// Render `bank` as a print-ready Markdown document with no solutions.
///
/// Questions are numbered from one under the bank name. Every kind prints,
/// so this never fails.
pub fn to_print_markdown(bank: &ItemBank) -> (res: Result<String, Error>)
    ensures
        res matches Ok(text) && text@ == print_sheet_spec(*bank),
{
    let mut out: Vec<char> = Vec::new();
    extend_str(&mut out, "# ");
    extend_str(&mut out, bank.name.as_str());
    extend_str(&mut out, "\n");
    let ghost start = out@;
    let ghost mut parts: Seq<Seq<char>> = Seq::empty();
    let mut i: usize = 0;
    assert(out@ =~= start + sections(parts));
    while i < bank.items.len()
        invariant
            i <= bank.items@.len(),
            parts.len() == i,
            parts == question_sheets(bank.items@).take(i as int),
            out@ == start + sections(parts),
            start == "# "@ + bank.name@ + "\n"@,
        decreases bank.items@.len() - i,
    {
        let text = render_question(i + 1, &bank.items[i]);
        extend_str(&mut out, "\n");
        extend_str(&mut out, text.as_str());
        proof {
            let next = parts.push(text@);
            assert(next.drop_last() =~= parts);
            assert(next =~= question_sheets(bank.items@).take(i + 1));
            parts = next;
        }
        assert(out@ =~= start + sections(parts));
        i = i + 1;
    }
    assert(parts =~= question_sheets(bank.items@));
    Ok(string_from_chars(&out))
}

/// `parts` joined with `sep` between them.
pub open spec fn join_spec(parts: Seq<Seq<char>>, sep: Seq<char>) -> Seq<char>
    decreases parts.len(),
{
    if parts.len() == 0 {
        Seq::empty()
    } else if parts.len() == 1 {
        parts[0]
    } else {
        join_spec(parts.drop_last(), sep) + sep + parts.last()
    }
}

/// The correct ones of the first `n` choices, as `label. text`.
pub open spec fn correct_parts(choices: Seq<Choice>, n: nat) -> Seq<Seq<char>>
    decreases n,
{
    if n == 0 {
        Seq::empty()
    } else if choices[n - 1].correct {
        correct_parts(choices, (n - 1) as nat).push(
            label_spec((n - 1) as nat) + ". "@ + choices[n - 1].text@,
        )
    } else {
        correct_parts(choices, (n - 1) as nat)
    }
}

/// The positions of the correct ones of the first `n` choices, in order,
/// each matched with the key entry `correct_parts` gives it.
proof fn correct_indices(choices: Seq<Choice>, n: nat) -> (idx: Seq<int>)
    requires
        n <= choices.len(),
    ensures
        idx.len() == correct_parts(choices, n).len(),
        forall|m: int| 0 <= m < idx.len() ==> 0 <= #[trigger] idx[m] < n && choices[idx[m]].correct
            && correct_parts(choices, n)[m] == label_spec(idx[m] as nat) + ". "@ + choices[idx[m]].text@,
        forall|a: int, b: int| 0 <= a < b < idx.len() ==> idx[a] < idx[b],
        forall|i: int| 0 <= i < n && choices[i].correct ==> exists|m: int| 0 <= m < idx.len() && #[trigger] idx[m] == i,
    decreases n,
{
    if n == 0 {
        Seq::empty()
    } else {
        let prev = correct_indices(choices, (n - 1) as nat);
        if choices[n - 1].correct {
            let idx = prev.push(n - 1);
            assert forall|i: int| 0 <= i < n && choices[i].correct implies exists|m: int|
                0 <= m < idx.len() && #[trigger] idx[m] == i by {
                if i == n - 1 {
                    assert(idx[prev.len() as int] == i);
                } else {
                    let m = choose|m: int| 0 <= m < prev.len() && #[trigger] prev[m] == i;
                    assert(idx[m] == i);
                }
            }
            assert forall|m: int| 0 <= m < idx.len() implies 0 <= #[trigger] idx[m] < n && choices[idx[m]].correct
                && correct_parts(choices, n)[m] == label_spec(idx[m] as nat) + ". "@ + choices[idx[m]].text@ by {
                if m < prev.len() {
                    assert(idx[m] == prev[m]);
                }
            }
            idx
        } else {
            prev
        }
    }
}

/// The sheet prints choice `i` as its letter and its text.
proof fn lemma_sheet_letters(choices: Seq<Choice>, n: nat, multiple: bool, i: int)
    requires
        0 <= i < n <= choices.len(),
    ensures
        appears_in(label_spec(i as nat) + ". "@ + choices[i].text@, choice_lines(choices, n, multiple)),
    decreases n,
{
    let entry = label_spec(i as nat) + ". "@ + choices[i].text@;
    let before = choice_lines(choices, (n - 1) as nat, multiple);
    if i == n - 1 {
        let lead = if multiple { "\n   - [ ] "@ } else { "\n   "@ };
        assert(choice_lines(choices, n, multiple) =~= (before + lead) + entry);
        crate::text::lemma_appears_whole(entry);
        crate::text::lemma_appears_around(entry, Seq::empty(), entry);
        assert(entry + Seq::<char>::empty() =~= entry);
        crate::text::lemma_appears_around(entry, before + lead, entry);
    } else {
        lemma_sheet_letters(choices, (n - 1) as nat, multiple, i);
        let line = choice_lines(choices, n, multiple).subrange(before.len() as int, choice_lines(choices, n, multiple).len() as int);
        assert(choice_lines(choices, n, multiple) =~= before + line);
        crate::text::lemma_appears_around(before, line, entry);
    }
}

/// The key names each correct choice as the sheet letters it: for a
/// multiple-choice or multiple-select question, the key lists, in order,
/// exactly the correct choices, each as the letter of its own position
/// followed by its text, and each such entry is printed on the student
/// sheet for that same choice.
pub proof fn the_key_letters_choices_as_the_sheet_does(q: Question, choices: Seq<Choice>, multiple: bool)
    requires
        (q.kind matches QuestionKind::MultipleChoice(set) && set.choices@ == choices && !multiple) || (
        q.kind matches QuestionKind::MultipleSelect(select) && select.choices@ == choices && multiple),
    ensures
        exists|entries: Seq<Seq<char>>, idx: Seq<int>|
            #![trigger join_spec(entries, "; "@), idx.len()]
            {
            &&& answer_spec(q) == join_spec(entries, "; "@)
            &&& entries.len() == idx.len()
            &&& forall|m: int| 0 <= m < idx.len() ==> 0 <= #[trigger] idx[m] < choices.len() && choices[idx[m]].correct
                && entries[m] == label_spec(idx[m] as nat) + ". "@ + choices[idx[m]].text@
                && appears_in(entries[m], choice_lines(choices, choices.len(), multiple))
            &&& forall|a: int, b: int| 0 <= a < b < idx.len() ==> idx[a] < idx[b]
            &&& forall|i: int| 0 <= i < choices.len() && choices[i].correct ==> exists|m: int|
                0 <= m < idx.len() && #[trigger] idx[m] == i
        },
{
    let entries = correct_parts(choices, choices.len());
    let idx = correct_indices(choices, choices.len());
    assert forall|m: int| 0 <= m < idx.len() implies appears_in(entries[m], choice_lines(choices, choices.len(), multiple)) by {
        lemma_sheet_letters(choices, choices.len(), multiple, idx[m]);
    }
    assert(answer_spec(q) == join_spec(entries, "; "@));
}

/// Each blank's accepted answers, as `name: a, b`.
pub open spec fn blank_parts(blanks: Seq<Blank>) -> Seq<Seq<char>> {
    blanks.map_values(|b: Blank| b.id@ + ": "@ + join_spec(b.answers@.map_values(|a: String| a@), ", "@))
}

/// Each correct pairing, as `left → right`.
pub open spec fn pair_parts(pairs: Seq<MatchPair>) -> Seq<Seq<char>> {
    pairs.map_values(|p: MatchPair| p.left@ + " → "@ + p.right@)
}

/// The items in their correct order, numbered from one.
pub open spec fn ordered_parts(items: Seq<String>) -> Seq<Seq<char>> {
    Seq::new(items.len(), |i: int| decimal_spec((i + 1) as nat) + ". "@ + items[i]@)
}

/// A question's correct answer(s), as the key prints them.
pub open spec fn answer_spec(q: Question) -> Seq<char> {
    match q.kind {
        QuestionKind::TrueFalse(tf) => if tf.answer {
            "**True**"@
        } else {
            "**False**"@
        },
        QuestionKind::MultipleChoice(set) => join_spec(correct_parts(set.choices@, set.choices@.len()), "; "@),
        QuestionKind::MultipleSelect(select) => join_spec(
            correct_parts(select.choices@, select.choices@.len()),
            "; "@,
        ),
        QuestionKind::FillInBlank(fitb) => join_spec(blank_parts(fitb.blanks@), "; "@),
        QuestionKind::Matching(matching) => join_spec(pair_parts(matching.pairs@), "; "@),
        QuestionKind::Ordered(ordering) => join_spec(ordered_parts(ordering.items@), "; "@),
    }
}

/// Append `part` to `out`, after `sep` unless it is the first of `parts`.
fn push_joined(out: &mut Vec<char>, part: &str, sep: &str, first: bool, Ghost(parts): Ghost<Seq<Seq<char>>>)
    requires
        old(out)@ == join_spec(parts, sep@),
        first <==> parts.len() == 0,
    ensures
        final(out)@ == join_spec(parts.push(part@), sep@),
{
    if !first {
        extend_str(out, sep);
    }
    extend_str(out, part);
    assert(parts.push(part@).drop_last() =~= parts);
    if first {
        assert(final(out)@ =~= join_spec(parts.push(part@), sep@));
    } else {
        assert(final(out)@ =~= join_spec(parts.push(part@), sep@));
    }
}

fn correct_choices(choices: &Vec<Choice>) -> (res: String)
    ensures
        res@ == join_spec(correct_parts(choices@, choices@.len()), "; "@),
{
    let mut out: Vec<char> = Vec::new();
    let mut count: usize = 0;
    let mut i: usize = 0;
    while i < choices.len()
        invariant
            i <= choices@.len(),
            count == correct_parts(choices@, i as nat).len(),
            count <= i,
            out@ == join_spec(correct_parts(choices@, i as nat), "; "@),
        decreases choices@.len() - i,
    {
        if choices[i].correct {
            let mut part: Vec<char> = Vec::new();
            let label = sequence(i);
            extend_str(&mut part, label.as_str());
            extend_str(&mut part, ". ");
            extend_str(&mut part, choices[i].text.as_str());
            let part = string_from_chars(&part);
            push_joined(&mut out, part.as_str(), "; ", count == 0, Ghost(correct_parts(choices@, i as nat)));
            count = count + 1;
        }
        i = i + 1;
    }
    string_from_chars(&out)
}

fn blank_answers(blanks: &Vec<Blank>) -> (res: String)
    ensures
        res@ == join_spec(blank_parts(blanks@), "; "@),
{
    let mut out: Vec<char> = Vec::new();
    let mut i: usize = 0;
    while i < blanks.len()
        invariant
            i <= blanks@.len(),
            out@ == join_spec(blank_parts(blanks@.subrange(0, i as int)), "; "@),
        decreases blanks@.len() - i,
    {
        let blank = &blanks[i];
        let mut answers: Vec<char> = Vec::new();
        let ghost all = blank.answers@.map_values(|a: String| a@);
        let mut k: usize = 0;
        while k < blank.answers.len()
            invariant
                k <= blank.answers@.len(),
                all == blank.answers@.map_values(|a: String| a@),
                answers@ == join_spec(all.subrange(0, k as int), ", "@),
            decreases blank.answers@.len() - k,
        {
            proof {
                reveal_strlit(", ");
            }
            push_joined(&mut answers, blank.answers[k].as_str(), ", ", k == 0, Ghost(all.subrange(0, k as int)));
            assert(all.subrange(0, k as int).push(blank.answers@[k as int]@) =~= all.subrange(0, k + 1));
            k = k + 1;
        }
        assert(all.subrange(0, blank.answers@.len() as int) =~= all);
        let mut part: Vec<char> = Vec::new();
        extend_str(&mut part, blank.id.as_str());
        extend_str(&mut part, ": ");
        extend_chars_into(&mut part, &answers);
        let part = string_from_chars(&part);
        proof {
            reveal_strlit("; ");
        }
        push_joined(&mut out, part.as_str(), "; ", i == 0, Ghost(blank_parts(blanks@.subrange(0, i as int))));
        assert(blank_parts(blanks@.subrange(0, i as int)).push(part@) =~= blank_parts(
            blanks@.subrange(0, i + 1),
        ));
        i = i + 1;
    }
    assert(blanks@.subrange(0, blanks@.len() as int) =~= blanks@);
    string_from_chars(&out)
}

fn extend_chars_into(out: &mut Vec<char>, tail: &Vec<char>)
    ensures
        final(out)@ == old(out)@ + tail@,
{
    crate::text::extend_chars(out, tail);
}

fn matching_answer(pairs: &Vec<MatchPair>) -> (res: String)
    ensures
        res@ == join_spec(pair_parts(pairs@), "; "@),
{
    let mut out: Vec<char> = Vec::new();
    let mut i: usize = 0;
    while i < pairs.len()
        invariant
            i <= pairs@.len(),
            out@ == join_spec(pair_parts(pairs@.subrange(0, i as int)), "; "@),
        decreases pairs@.len() - i,
    {
        let mut part: Vec<char> = Vec::new();
        extend_str(&mut part, pairs[i].left.as_str());
        extend_str(&mut part, " → ");
        extend_str(&mut part, pairs[i].right.as_str());
        let part = string_from_chars(&part);
        proof {
            reveal_strlit("; ");
        }
        push_joined(&mut out, part.as_str(), "; ", i == 0, Ghost(pair_parts(pairs@.subrange(0, i as int))));
        assert(pair_parts(pairs@.subrange(0, i as int)).push(part@) =~= pair_parts(
            pairs@.subrange(0, i + 1),
        ));
        i = i + 1;
    }
    assert(pairs@.subrange(0, pairs@.len() as int) =~= pairs@);
    string_from_chars(&out)
}

fn ordering_answer(items: &Vec<String>) -> (res: String)
    ensures
        res@ == join_spec(ordered_parts(items@), "; "@),
{
    let mut out: Vec<char> = Vec::new();
    let mut i: usize = 0;
    while i < items.len()
        invariant
            i <= items@.len(),
            out@ == join_spec(ordered_parts(items@.subrange(0, i as int)), "; "@),
        decreases items@.len() - i,
    {
        let mut part: Vec<char> = Vec::new();
        push_decimal(&mut part, (i + 1) as u64);
        extend_str(&mut part, ". ");
        extend_str(&mut part, items[i].as_str());
        let part = string_from_chars(&part);
        proof {
            reveal_strlit("; ");
        }
        push_joined(&mut out, part.as_str(), "; ", i == 0, Ghost(ordered_parts(items@.subrange(0, i as int))));
        assert(ordered_parts(items@.subrange(0, i as int)).push(part@) =~= ordered_parts(
            items@.subrange(0, i + 1),
        ));
        i = i + 1;
    }
    assert(items@.subrange(0, items@.len() as int) =~= items@);
    string_from_chars(&out)
}

/// Render one numbered question's correct answer(s).
fn render_answer(number: usize, question: &Question) -> (res: String)
    ensures
        res@ == decimal_spec(number as nat) + ". "@ + answer_spec(*question) + "\n"@,
{
    let answer = match &question.kind {
        QuestionKind::TrueFalse(tf) => if tf.answer {
            "**True**".to_string()
        } else {
            "**False**".to_string()
        },
        QuestionKind::MultipleChoice(set) => correct_choices(&set.choices),
        QuestionKind::MultipleSelect(select) => correct_choices(&select.choices),
        QuestionKind::FillInBlank(fitb) => blank_answers(&fitb.blanks),
        QuestionKind::Matching(matching) => matching_answer(&matching.pairs),
        QuestionKind::Ordered(ordering) => ordering_answer(&ordering.items),
    };
    let mut out: Vec<char> = Vec::new();
    push_decimal(&mut out, number as u64);
    extend_str(&mut out, ". ");
    extend_str(&mut out, answer.as_str());
    extend_str(&mut out, "\n");
    assert(out@ =~= decimal_spec(number as nat) + ". "@ + answer_spec(*question) + "\n"@);
    string_from_chars(&out)
}

/// The key entries of the first `n` questions, each after a blank line.
pub open spec fn key_entries(items: Seq<Question>, n: nat) -> Seq<char>
    decreases n,
{
    if n == 0 {
        Seq::empty()
    } else {
        key_entries(items, (n - 1) as nat) + "\n"@ + decimal_spec(n) + ". "@ + answer_spec(
            items[n - 1],
        ) + "\n"@
    }
}

/// Render `bank` as a Markdown answer key: each question number with only its
/// correct answer(s), numbered as [`to_print_markdown`] numbers them.
pub fn to_answer_key(bank: &ItemBank) -> (res: String)
    ensures
        res@ == "# "@ + bank.name@ + " — Answer Key\n"@ + key_entries(bank.items@, bank.items@.len()),
{
    let mut out: Vec<char> = Vec::new();
    extend_str(&mut out, "# ");
    extend_str(&mut out, bank.name.as_str());
    extend_str(&mut out, " — Answer Key\n");
    let ghost start = out@;
    let mut i: usize = 0;
    assert(out@ =~= start + key_entries(bank.items@, 0));
    while i < bank.items.len()
        invariant
            i <= bank.items@.len(),
            out@ == start + key_entries(bank.items@, i as nat),
        decreases bank.items@.len() - i,
    {
        let entry = render_answer(i + 1, &bank.items[i]);
        extend_str(&mut out, "\n");
        extend_str(&mut out, entry.as_str());
        assert(out@ =~= start + key_entries(bank.items@, (i + 1) as nat));
        i = i + 1;
    }
    string_from_chars(&out)
}

} // verus!
