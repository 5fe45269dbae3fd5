use mdquiz::error::Error;
use mdquiz::model::{Feedback, Question, QuestionKind, ScoringMode, TrueFalse, MatchMode};
use mdquiz::parse::{
    item_bank_from_questions, item_bank_from_sources, item_bank_from_sources_with, parse_question,
    parse_question_with, rebase_images, reject_includes,
};


/// Build a minimal true/false question with the given `id` for tests.
fn question(id: &str) -> Question {
    Question {
        id: id.to_owned(),
        title: None,
        prompt: "prompt".to_owned(),
        points: "1".to_owned(),
        tags: Vec::new(),
        feedback: Feedback::none(),
        kind: QuestionKind::TrueFalse(TrueFalse { answer: true }),
    }
}

/// A well-formed true/false source: YAML front-matter then the prompt.
const TRUE_FALSE_SOURCE: &str = "---\nid: tf-binary-search\nkind: true_false\nanswer: true\n\
    ---\n\nBinary search needs a sorted array.\n";

/// A well-formed single-answer multiple-choice source.
const MULTIPLE_CHOICE_SOURCE: &str = "---\nid: mc-q\nkind: multiple_choice\nchoices:\n\
    \x20 - text: Right\n    correct: true\n  - text: Wrong\n  - text: Also wrong\n\
    ---\n\nWhich one?\n";

#[test]
/// A multiple-choice source captures the ordered choices and the answer.
fn parses_multiple_choice() {
    let question = parse_question(MULTIPLE_CHOICE_SOURCE).expect("valid source");
    assert_eq!(question.id, "mc-q");
    assert_eq!(question.prompt, "Which one?");
    assert!(matches!(
        &question.kind,
        QuestionKind::MultipleChoice(mc)
            if mc.choices.len() == 3
                && mc.choices.iter().filter(|choice| choice.correct).count() == 1
                && mc.choices.first().is_some_and(|choice| choice.correct)
    ));
}

#[test]
/// A multiple-choice question with no correct choice is rejected.
fn multiple_choice_needs_a_correct_choice() {
    let source = "---\nid: q\nkind: multiple_choice\nchoices:\n  - text: A\n  - text: B\n\
        ---\n\nPick?\n";
    let err = parse_question(source).expect_err("no correct choice");
    assert!(matches!(err, Error::InvalidQuestion(_)));
}

#[test]
/// A single-answer question with two correct choices is rejected.
fn multiple_choice_rejects_two_correct() {
    let source = "---\nid: q\nkind: multiple_choice\nchoices:\n\
        \x20 - text: A\n    correct: true\n  - text: B\n    correct: true\n---\n\nPick?\n";
    let err = parse_question(source).expect_err("two correct choices");
    assert!(matches!(err, Error::InvalidQuestion(_)));
}

#[test]
/// A multiple-choice question with fewer than two choices is rejected.
fn multiple_choice_needs_two_choices() {
    let source = "---\nid: q\nkind: multiple_choice\nchoices:\n  - text: Only\n    correct: true\n\
        ---\n\nPick?\n";
    let err = parse_question(source).expect_err("one choice");
    assert!(matches!(err, Error::InvalidQuestion(_)));
}

/// A [`PartialReader`] backed by an in-memory `(path, contents)` table.
fn map_reader(
    files: &'static [(&'static str, &'static str)],
) -> impl Fn(&str) -> std::result::Result<String, String> {
    move |path| {
        files
            .iter()
            .find(|(name, _)| *name == path)
            .map(|(_, body)| (*body).to_owned())
            .ok_or_else(|| format!("no such partial {path}"))
    }
}

#[test]
/// A `file:` choice takes its content from the named partial.
fn choice_file_is_resolved_from_partial() {
    let source = "---\nid: q\nkind: multiple_choice\nchoices:\n\
        \x20 - file: partials/right.md\n    correct: true\n  - text: Wrong\n---\n\nPick?\n";
    let reader = map_reader(&[("partials/right.md", "The **right** answer")]);
    let question = parse_question_with(source, &reader).expect("valid");
    assert!(matches!(
        &question.kind,
        QuestionKind::MultipleChoice(mc)
            if mc.choices.first().is_some_and(|c| c.text == "The **right** answer" && c.correct)
    ));
}

#[test]
/// A partial's local image is rebased to a bank-relative path; externals stay.
fn choice_partial_rebases_local_images() {
    let source = "---\nid: q\nkind: multiple_choice\nchoices:\n\
        \x20 - file: partials/a.md\n    correct: true\n  - text: No\n---\n\nPick?\n";
    let reader = map_reader(&[(
        "partials/a.md",
        "![t](pic.png) and ![x](https://ex.com/y.png)",
    )]);
    let question = parse_question_with(source, &reader).expect("valid");
    assert!(matches!(
        &question.kind,
        QuestionKind::MultipleChoice(mc) if mc.choices.first().is_some_and(|c|
            c.text.contains("![t](partials/pic.png)") && c.text.contains("https://ex.com/y.png"))
    ));
}

#[test]
/// A `file:` choice whose partial cannot be read is a typed error naming it.
fn choice_file_missing_errors() {
    let source = "---\nid: q\nkind: multiple_choice\nchoices:\n\
        \x20 - file: nope.md\n    correct: true\n  - text: No\n---\n\nPick?\n";
    let reader = map_reader(&[]);
    let err = parse_question_with(source, &reader).expect_err("missing partial");
    assert!(
        matches!(err, Error::InvalidQuestion(message) if message.contains("nope.md"))
    );
}

#[test]
/// A choice with both `text` and `file`, or neither, is rejected.
fn choice_text_file_are_exclusive() {
    let both = "---\nid: q\nkind: multiple_choice\nchoices:\n\
        \x20 - text: A\n    file: a.md\n    correct: true\n  - text: B\n---\n\nPick?\n";
    let neither = "---\nid: q\nkind: multiple_choice\nchoices:\n\
        \x20 - correct: true\n  - text: B\n---\n\nPick?\n";
    let reader = map_reader(&[("a.md", "A")]);
    assert!(matches!(
        parse_question_with(both, &reader).expect_err("both"),
        Error::InvalidQuestion(_)
    ));
    assert!(matches!(
        parse_question_with(neither, &reader).expect_err("neither"),
        Error::InvalidQuestion(_)
    ));
}

#[test]
/// The disk-free `parse_question` rejects a `file:` include with a clear error.
fn parse_question_rejects_file_include() {
    let source = "---\nid: q\nkind: multiple_choice\nchoices:\n\
        \x20 - file: a.md\n    correct: true\n  - text: B\n---\n\nPick?\n";
    let err = parse_question(source).expect_err("no reader");
    assert!(
        matches!(err, Error::InvalidQuestion(message) if message.contains("directory context"))
    );
}

#[test]
/// `rebase_images` prefixes only local URLs, and only when there is a base.
fn rebase_images_prefixes_local_only() {
    let md = "![a](one.png) ![b](sub/two.png) ![c](https://x/y.png)";
    let rebased = rebase_images(md, "partials");
    assert!(rebased.contains("![a](partials/one.png)"));
    assert!(rebased.contains("![b](partials/sub/two.png)"));
    assert!(rebased.contains("https://x/y.png"));
    // An empty base is a no-op.
    assert_eq!(rebase_images(md, ""), md);
}

#[test]
/// A `file:` choice resolves and rebases through directory assembly too.
fn item_bank_with_reader_resolves_file_choice() {
    let src = "---\nid: q\nkind: multiple_choice\nchoices:\n\
        \x20 - file: partials/a.md\n    correct: true\n  - text: No\n---\n\nPick?\n";
    let reader = map_reader(&[("partials/a.md", "![t](pic.png)")]);
    let bank = item_bank_from_sources_with("m", vec![("q.md".to_owned(), src.to_owned())], &reader)
        .expect("bank");
    assert!(matches!(
        bank.items.first().map(|q| &q.kind),
        Some(QuestionKind::MultipleChoice(mc))
            if mc.choices.first().is_some_and(|c| c.text.contains("![t](partials/pic.png)"))
    ));
}

#[test]
/// A bank-root partial (no directory) leaves its local image path unchanged.
fn root_partial_leaves_image_unrebased() {
    let src = "---\nid: q\nkind: multiple_choice\nchoices:\n\
        \x20 - file: a.md\n    correct: true\n  - text: No\n---\n\nPick?\n";
    let reader = map_reader(&[("a.md", "![t](pic.png)")]);
    let question = parse_question_with(src, &reader).expect("valid");
    assert!(matches!(
        &question.kind,
        QuestionKind::MultipleChoice(mc) if mc.choices.first().is_some_and(|c|
            c.text.contains("![t](pic.png)") && !c.text.contains("/pic.png"))
    ));
}

#[test]
/// A `file:` choice works for multiple-select too (both paths, per policy).
fn multiple_select_supports_file_choice() {
    let src = "---\nid: q\nkind: multiple_select\nchoices:\n\
        \x20 - file: partials/a.md\n    correct: true\n  - text: No\n---\n\nSelect all.\n";
    let reader = map_reader(&[("partials/a.md", "Answer A")]);
    let question = parse_question_with(src, &reader).expect("valid");
    assert!(matches!(
        &question.kind,
        QuestionKind::MultipleSelect(ms)
            if ms.choices.first().is_some_and(|c| c.text == "Answer A")
    ));
}

#[test]
/// A multiple-select source allows more than one correct choice.
fn parses_multiple_select_with_two_correct() {
    let source = "---\nid: ms-q\nkind: multiple_select\nchoices:\n\
        \x20 - text: A\n    correct: true\n  - text: B\n    correct: true\n  - text: C\n\
        ---\n\nSelect all.\n";
    let question = parse_question(source).expect("valid source");
    assert!(matches!(
        &question.kind,
        QuestionKind::MultipleSelect(select)
            if select.choices.iter().filter(|choice| choice.correct).count() == 2
                && select.scoring == ScoringMode::AllOrNothing
    ));
}

#[test]
/// An explicit `scoring: partial` is captured; it otherwise defaults.
fn parses_multiple_select_partial_scoring() {
    let source = "---\nid: q\nkind: multiple_select\nscoring: partial\nchoices:\n\
        \x20 - text: A\n    correct: true\n  - text: B\n---\n\nSelect all.\n";
    let question = parse_question(source).expect("valid source");
    assert!(matches!(
        &question.kind,
        QuestionKind::MultipleSelect(select) if select.scoring == ScoringMode::Partial
    ));
}

/// A matching source with two pairs and one distractor.
const MATCHING_SOURCE: &str = "---\nid: mt\nkind: matching\npairs:\n\
    \x20 - left: char\n    right: 1 byte\n  - left: int\n    right: 4 bytes\n\
    distractors: [8 bytes]\n---\n\nMatch each type to its size.\n";

#[test]
/// A matching source captures ordered pairs and distractors.
fn parses_matching() {
    let question = parse_question(MATCHING_SOURCE).expect("valid source");
    assert!(matches!(
        &question.kind,
        QuestionKind::Matching(matching)
            if matching.pairs.len() == 2
                && matching.distractors == ["8 bytes"]
                && matching.pairs.first().is_some_and(|p| p.left == "char" && p.right == "1 byte")
    ));
}

#[test]
/// A matching question with fewer than two pairs is rejected.
fn matching_needs_two_pairs() {
    let source = "---\nid: q\nkind: matching\npairs:\n  - left: a\n    right: b\n\
        ---\n\nMatch.\n";
    let err = parse_question(source).expect_err("one pair");
    assert!(matches!(err, Error::InvalidQuestion(_)));
}

#[test]
/// A matching pair with an empty side is rejected.
fn matching_rejects_empty_side() {
    let source = "---\nid: q\nkind: matching\npairs:\n  - left: a\n    right: b\n\
        \x20 - left: c\n    right: \"\"\n---\n\nMatch.\n";
    let err = parse_question(source).expect_err("empty right");
    assert!(matches!(err, Error::InvalidQuestion(_)));
}

#[test]
/// An ordering source captures its items in authored (correct) order.
fn parses_ordering() {
    let source = "---\nid: ord\nkind: ordering\nitems:\n  - Compile\n  - Link\n  - Run\n\
        ---\n\nOrder the build phases.\n";
    let question = parse_question(source).expect("valid source");
    assert!(matches!(
        &question.kind,
        QuestionKind::Ordered(ordering)
            if ordering.items == ["Compile", "Link", "Run"]
    ));
}

#[test]
/// Exactly two items is the accepted minimum (guards the `< 2` boundary).
fn ordering_accepts_exactly_two_items() {
    let source = "---\nid: q\nkind: ordering\nitems:\n  - a\n  - b\n---\n\nOrder.\n";
    assert!(parse_question(source).is_ok());
}

#[test]
/// An ordering question with fewer than two items is rejected.
fn ordering_needs_two_items() {
    let source = "---\nid: q\nkind: ordering\nitems:\n  - only\n---\n\nOrder.\n";
    let err = parse_question(source).expect_err("one item");
    assert!(matches!(err, Error::InvalidQuestion(_)));
}

#[test]
/// An ordering question with an empty item is rejected.
fn ordering_rejects_empty_item() {
    let source = "---\nid: q\nkind: ordering\nitems:\n  - a\n  - \"\"\n---\n\nOrder.\n";
    let err = parse_question(source).expect_err("empty item");
    assert!(matches!(err, Error::InvalidQuestion(_)));
}

#[test]
/// A multiple-select question with no correct choice is rejected.
fn multiple_select_needs_a_correct_choice() {
    let source = "---\nid: q\nkind: multiple_select\nchoices:\n  - text: A\n  - text: B\n\
        ---\n\nSelect all.\n";
    let err = parse_question(source).expect_err("no correct choice");
    assert!(matches!(err, Error::InvalidQuestion(_)));
}

/// A fill-in-the-blank source: a shorthand list blank and a detailed blank.
const FILL_IN_BLANK_SOURCE: &str = "---\nid: fitb-http\nkind: fill_in_blank\nblanks:\n\
    \x20 method: [GET, get]\n  code:\n    answers: [\"404\", \"Not Found\"]\n    match: exact\n\
    ---\n\nAn HTTP {{method}} request that fails returns status {{code}}.\n";

#[test]
/// A fill-in-the-blank source captures each blank's answers and match mode.
fn parses_fill_in_blank() {
    let question = parse_question(FILL_IN_BLANK_SOURCE).expect("valid source");
    assert!(matches!(&question.kind, QuestionKind::FillInBlank(_)));
    if let QuestionKind::FillInBlank(fitb) = &question.kind {
        assert_eq!(fitb.blanks.len(), 2);
        let code = fitb
            .blanks
            .iter()
            .find(|b| b.id == "code")
            .expect("code blank");
        assert_eq!(code.answers, ["404", "Not Found"]);
        assert_eq!(code.match_mode, MatchMode::Exact);
        let method = fitb
            .blanks
            .iter()
            .find(|b| b.id == "method")
            .expect("method blank");
        assert_eq!(method.answers, ["GET", "get"]);
        assert_eq!(method.match_mode, MatchMode::CaseInsensitive);
    }
}

#[test]
/// A detailed blank with no `match:` key defaults to case-insensitive.
fn detailed_blank_defaults_to_case_insensitive() {
    let source = "---\nid: q\nkind: fill_in_blank\nblanks:\n  a:\n    answers: [x]\n\
        ---\n\nHas {{a}}.\n";
    let question = parse_question(source).expect("valid source");
    assert!(matches!(
        &question.kind,
        QuestionKind::FillInBlank(fitb)
            if fitb.blanks.first().is_some_and(|b| b.match_mode == MatchMode::CaseInsensitive)
    ));
}

#[test]
/// A `match: regex` blank parses to the regex match mode.
fn parses_regex_blank() {
    let source = "---\nid: q\nkind: fill_in_blank\nblanks:\n  n:\n    answers: ['\\\\d{3}']\n\
        \x20   match: regex\n---\n\nEnter a 3-digit number: {{n}}.\n";
    let question = parse_question(source).expect("valid source");
    assert!(matches!(
        &question.kind,
        QuestionKind::FillInBlank(fitb)
            if fitb.blanks.first().is_some_and(|b| b.match_mode == MatchMode::Regex)
    ));
}

#[test]
/// A fill-in-the-blank question with no blanks at all is rejected.
fn fill_in_blank_with_no_blanks_is_rejected() {
    let source = "---\nid: q\nkind: fill_in_blank\nblanks: {}\n---\n\nNothing to fill.\n";
    let err = parse_question(source).expect_err("no blanks");
    assert!(matches!(err, Error::InvalidQuestion(_)));
}

#[test]
/// A prompt marker with no defined answers is rejected.
fn fill_in_blank_marker_without_answers_is_rejected() {
    let source =
        "---\nid: q\nkind: fill_in_blank\nblanks:\n  a: [x]\n---\n\n{{a}} and {{b}}.\n";
    let err = parse_question(source).expect_err("marker b undefined");
    assert!(matches!(err, Error::InvalidQuestion(_)));
}

#[test]
/// A defined blank that never appears in the prompt is rejected.
fn fill_in_blank_orphan_blank_is_rejected() {
    let source =
        "---\nid: q\nkind: fill_in_blank\nblanks:\n  a: [x]\n  b: [y]\n---\n\n{{a}} only.\n";
    let err = parse_question(source).expect_err("blank b never used");
    assert!(matches!(err, Error::InvalidQuestion(_)));
}

#[test]
/// A blank with an empty answer list is rejected.
fn fill_in_blank_empty_answers_is_rejected() {
    let source = "---\nid: q\nkind: fill_in_blank\nblanks:\n  a: []\n---\n\nHas {{a}}.\n";
    let err = parse_question(source).expect_err("empty answers");
    assert!(matches!(err, Error::InvalidQuestion(_)));
}

#[test]
/// A true/false source yields the prompt, id, default points, and answer.
fn parses_true_false_question() {
    let question = parse_question(TRUE_FALSE_SOURCE).expect("valid source");
    assert_eq!(question.id, "tf-binary-search");
    assert_eq!(question.prompt, "Binary search needs a sorted array.");
    assert!((question.points.parse::<f64>().expect("a number") - 1.0).abs() < f64::EPSILON);
    assert_eq!(question.title, None);
    assert!(question.tags.is_empty());
    assert!(matches!(
        question.kind,
        QuestionKind::TrueFalse(TrueFalse { answer: true })
    ));
}

#[test]
/// Optional `title` and `tags` are captured when present.
fn parses_title_and_tags() {
    let source = "---\nid: q\ntitle: Binary search\nkind: true_false\n\
        tags: [searching, algorithms]\nanswer: true\n---\n\nProm?\n";
    let question = parse_question(source).expect("valid source");
    assert_eq!(question.title.as_deref(), Some("Binary search"));
    assert_eq!(question.tags, ["searching", "algorithms"]);
}

#[test]
/// A leading `# H1` in the body becomes the title and is stripped out.
fn leading_h1_becomes_title() {
    let source = "---\nid: q\nkind: true_false\nanswer: true\n---\n\n\
        # Binary search prerequisites\n\nRequires a sorted array.\n";
    let question = parse_question(source).expect("valid source");
    assert_eq!(
        question.title.as_deref(),
        Some("Binary search prerequisites")
    );
    assert_eq!(question.prompt, "Requires a sorted array.");
}

#[test]
/// An explicit `title:` field wins; a body `# H1` is left as prompt content.
fn explicit_title_beats_leading_h1() {
    let source = "---\nid: q\ntitle: From field\nkind: true_false\nanswer: true\n---\n\n\
        # A heading\n\nBody.\n";
    let question = parse_question(source).expect("valid source");
    assert_eq!(question.title.as_deref(), Some("From field"));
    assert!(question.prompt.contains("# A heading"));
}

#[test]
/// A body that is not a heading leaves the title unset and prompt intact.
fn non_heading_body_has_no_title() {
    let question = parse_question(TRUE_FALSE_SOURCE).expect("valid source");
    assert_eq!(question.title, None);
    assert_eq!(question.prompt, "Binary search needs a sorted array.");
}

#[test]
/// An empty `# ` heading is not treated as a title; the line stays in place.
fn empty_heading_is_not_a_title() {
    let source = "---\nid: q\nkind: true_false\nanswer: true\n---\n\n#  \n\nBody.\n";
    let question = parse_question(source).expect("valid source");
    assert_eq!(question.title, None);
    assert!(question.prompt.starts_with('#'));
}

#[test]
/// A trailing `#` ATX closing sequence is trimmed from the extracted title.
fn heading_closing_hashes_are_trimmed() {
    let source = "---\nid: q\nkind: true_false\nanswer: true\n---\n\n# Title ##\n\nBody.\n";
    let question = parse_question(source).expect("valid source");
    assert_eq!(question.title.as_deref(), Some("Title"));
    assert_eq!(question.prompt, "Body.");
}

#[test]
/// Optional feedback messages are captured when present.
fn parses_feedback() {
    let source = "---\nid: q\nkind: true_false\nanswer: true\n\
        feedback:\n  correct: Nice work.\n  incorrect: Not quite.\n---\n\nProm?\n";
    let question = parse_question(source).expect("valid source");
    assert_eq!(question.feedback.correct.as_deref(), Some("Nice work."));
    assert_eq!(question.feedback.incorrect.as_deref(), Some("Not quite."));
    assert_eq!(question.feedback.general, None);
}

#[test]
/// Only general feedback is captured when it is the sole message set.
fn parses_general_only_feedback() {
    let source = "---\nid: q\nkind: true_false\nanswer: true\n\
        feedback:\n  general: See chapter 3.\n---\n\nQ?\n";
    let question = parse_question(source).expect("valid source");
    assert_eq!(question.feedback.general.as_deref(), Some("See chapter 3."));
    assert_eq!(question.feedback.correct, None);
    assert_eq!(question.feedback.incorrect, None);
}

#[test]
/// An ordering item can come from a `file:` partial, with images rebased.
fn ordering_item_from_file() {
    let source = "---\nid: q\nkind: ordering\nitems:\n\
        \x20 - Inline first\n  - file: steps/two.md\n---\n\nOrder.\n";
    let reader = map_reader(&[("steps/two.md", "![d](d.png)")]);
    let question = parse_question_with(source, &reader).expect("valid");
    assert!(matches!(
        &question.kind,
        QuestionKind::Ordered(o)
            if o.items.first().is_some_and(|i| i == "Inline first")
                && o.items.get(1).is_some_and(|i| i.contains("![d](steps/d.png)"))
    ));
}

#[test]
/// A feedback message can come from a `file:` partial.
fn feedback_message_from_file() {
    let source = "---\nid: q\nkind: true_false\nanswer: true\n\
        feedback:\n  general:\n    file: fb/hint.md\n---\n\nA fact.\n";
    let reader = map_reader(&[("fb/hint.md", "The **hint**.")]);
    let question = parse_question_with(source, &reader).expect("valid");
    assert_eq!(question.feedback.general.as_deref(), Some("The **hint**."));
}

#[test]
/// Each feedback field is wired to its own partial (guards field swaps).
fn feedback_correct_and_incorrect_from_files() {
    let source = "---\nid: q\nkind: true_false\nanswer: true\nfeedback:\n\
        \x20 correct:\n    file: fb/c.md\n  incorrect:\n    file: fb/i.md\n---\n\nA fact.\n";
    let reader = map_reader(&[("fb/c.md", "Right!"), ("fb/i.md", "Wrong.")]);
    let question = parse_question_with(source, &reader).expect("valid");
    assert_eq!(question.feedback.correct.as_deref(), Some("Right!"));
    assert_eq!(question.feedback.incorrect.as_deref(), Some("Wrong."));
}

#[test]
/// A missing partial in an ordering item is a typed error naming it.
fn ordering_item_file_missing_errors() {
    let source = "---\nid: q\nkind: ordering\nitems:\n\
        \x20 - First\n  - file: steps/missing.md\n---\n\nOrder.\n";
    let reader = map_reader(&[]);
    let err = parse_question_with(source, &reader).expect_err("missing partial");
    assert!(
        matches!(err, Error::InvalidQuestion(message) if message.contains("missing.md"))
    );
}

#[test]
/// The disk-free entry point rejects a `file:` feedback message too.
fn parse_question_rejects_feedback_file() {
    let source = "---\nid: q\nkind: true_false\nanswer: true\n\
        feedback:\n  general:\n    file: fb.md\n---\n\nA fact.\n";
    let err = parse_question(source).expect_err("no reader");
    assert!(
        matches!(err, Error::InvalidQuestion(message) if message.contains("directory context"))
    );
}

#[test]
/// Title and tags survive assembly through `item_bank_from_sources`.
fn item_bank_preserves_title_and_tags() {
    let source =
        "---\nid: q\ntitle: T\nkind: true_false\ntags: [x, y]\nanswer: true\n---\n\nQ?\n";
    let bank = item_bank_from_sources("m", vec![("q.md".to_owned(), source.to_owned())])
        .expect("valid source");
    let question = bank.items.first().expect("one question");
    assert_eq!(question.title.as_deref(), Some("T"));
    assert_eq!(question.tags, ["x", "y"]);
}

#[test]
/// An omitted feedback block leaves every message empty.
fn feedback_defaults_to_empty() {
    let question = parse_question(TRUE_FALSE_SOURCE).expect("valid source");
    assert_eq!(question.feedback.general, None);
    assert_eq!(question.feedback.correct, None);
    assert_eq!(question.feedback.incorrect, None);
}

#[test]
/// An explicit `points` value overrides the default.
fn honours_explicit_points() {
    let source = "---\nid: q\nkind: true_false\npoints: 2.5\nanswer: false\n---\n\nQ?\n";
    let question = parse_question(source).expect("valid source");
    assert!((question.points.parse::<f64>().expect("a number") - 2.5).abs() < f64::EPSILON);
}

#[test]
/// A source with no front-matter block is a parse error, not a panic.
fn missing_front_matter_is_parse_error() {
    let err = parse_question("Just a prompt, no YAML.").expect_err("no front-matter");
    assert!(matches!(err, Error::Parse(_)));
}

#[test]
/// Malformed front-matter YAML surfaces as a YAML error.
fn malformed_yaml_is_yaml_error() {
    let source = "---\nid: [unterminated\n---\n\nQ?\n";
    let err = parse_question(source).expect_err("malformed yaml");
    assert!(matches!(err, Error::Yaml(_)));
}

#[test]
/// A question with front-matter but no prompt body is rejected.
fn empty_prompt_is_invalid() {
    let source = "---\nid: q\nkind: true_false\nanswer: true\n---\n";
    let err = parse_question(source).expect_err("empty prompt");
    assert!(matches!(err, Error::InvalidQuestion(_)));
}

#[test]
/// A code fence in the body stays in the prompt; only front-matter is cut.
fn body_code_fence_is_preserved_in_prompt() {
    let source = "---\nid: q\nkind: true_false\nanswer: true\n---\n\n\
        Consider:\n\n```rust\nfn main() {}\n```\n";
    let question = parse_question(source).expect("valid source");
    assert!(question.prompt.contains("```rust"));
    assert!(question.prompt.contains("fn main() {}"));
    assert!(!question.prompt.contains("kind: true_false"));
}

#[test]
/// A failing file in a bank surfaces its filename for the author.
fn source_error_names_the_file() {
    let sources = vec![("module01/q3.md".to_owned(), "no yaml here".to_owned())];
    let err = item_bank_from_sources("m", sources).expect_err("q3 is malformed");
    let message = err.message();
    assert!(matches!(err, Error::QuestionFile { .. }));
    assert!(message.contains("module01/q3.md"));
}

#[test]
/// An empty question set assembles into an empty, named bank.
fn empty_set_is_empty_bank() {
    let bank =
        item_bank_from_questions("module01", Vec::new()).expect("empty set is valid");
    assert_eq!(bank.name, "module01");
    assert!(bank.items.is_empty());
}

#[test]
/// Questions are kept in the order they are supplied.
fn preserves_question_order() {
    let bank = item_bank_from_questions("m", vec![question("a"), question("b"), question("c")])
        .expect("distinct ids are valid");
    let ids: Vec<&str> = bank.items.iter().map(|q| q.id.as_str()).collect();
    assert_eq!(ids, ["a", "b", "c"]);
}

#[test]
/// Two questions sharing an id are rejected as an invalid bank.
fn duplicate_ids_are_rejected() {
    let err = item_bank_from_questions("m", vec![question("dup"), question("dup")])
        .expect_err("duplicate ids must fail");
    assert!(matches!(err, Error::InvalidQuestion(_)));
}

#[test]
/// Duplicate ids are caught even when the two are not adjacent.
fn non_adjacent_duplicate_ids_are_rejected() {
    let err = item_bank_from_questions("m", vec![question("a"), question("b"), question("a")])
        .expect_err("duplicate id must fail");
    assert!(matches!(err, Error::InvalidQuestion(_)));
}

#[test]
/// Sources are assembled in filename order, regardless of input order.
fn sources_are_ordered_by_filename() {
    let second = "---\nid: b\nkind: true_false\nanswer: false\n---\n\nSecond?\n";
    let first = "---\nid: a\nkind: true_false\nanswer: true\n---\n\nFirst?\n";
    let sources = vec![
        ("q2.md".to_owned(), second.to_owned()),
        ("q1.md".to_owned(), first.to_owned()),
    ];
    let bank = item_bank_from_sources("m", sources).expect("valid sources");
    let ids: Vec<&str> = bank.items.iter().map(|q| q.id.as_str()).collect();
    assert_eq!(ids, ["a", "b"]);
}

#[test]
/// An empty directory (no sources) assembles without touching the parser.
fn empty_sources_assemble() {
    let bank = item_bank_from_sources("m", Vec::new()).expect("no sources is valid");
    assert!(bank.items.is_empty());
}

#[test]
/// The disk-free reader refuses every include, naming it.
fn the_disk_free_reader_names_the_refused_include() {
    assert_eq!(
        reject_includes("a/b.md"),
        Err("`file:` include \"a/b.md\" needs a directory context; export from a directory".to_owned())
    );
}

/// The message an invalid question carries.
fn invalid_message(err: Error) -> String {
    match err {
        Error::InvalidQuestion(message) => message,
        other => panic!("expected an invalid question, got {other:?}"),
    }
}

#[test]
/// A single-answer question with two correct choices is told how many it found.
fn two_correct_choices_are_counted_in_the_message() {
    let source = "---\nid: q\nkind: multiple_choice\nchoices:\n\
        \x20 - text: A\n    correct: true\n  - text: B\n    correct: true\n---\n\nPick?\n";
    let err = parse_question(source).expect_err("two correct choices");
    assert_eq!(invalid_message(err), "question \"q\" needs exactly one correct choice, found 2");
}

#[test]
/// A multiple-select question with nothing marked correct is told it found none.
fn no_correct_selection_is_counted_in_the_message() {
    let source = "---\nid: ms\nkind: multiple_select\nchoices:\n  - text: A\n  - text: B\n\
        ---\n\nPick?\n";
    let err = parse_question(source).expect_err("no correct choice");
    assert_eq!(invalid_message(err), "question \"ms\" needs at least one correct choice, found 0");
}

#[test]
/// Too few choices are named as such.
fn too_few_choices_are_named() {
    let source = "---\nid: q\nkind: multiple_choice\nchoices:\n  - text: Only\n    correct: true\n\
        ---\n\nPick?\n";
    let err = parse_question(source).expect_err("one choice");
    assert_eq!(invalid_message(err), "question \"q\" needs at least two choices");
}

#[test]
/// Each refused blank is named in the message.
fn refused_blanks_are_named() {
    let none = "---\nid: q\nkind: fill_in_blank\nblanks: {}\n---\n\nNothing to fill.\n";
    assert_eq!(
        invalid_message(parse_question(none).expect_err("no blanks")),
        "question \"q\" has no blanks; mark one inline with {{name}}"
    );
    let orphan = "---\nid: q\nkind: fill_in_blank\nblanks:\n  a: [x]\n  b: [y]\n---\n\n{{a}} only.\n";
    assert_eq!(
        invalid_message(parse_question(orphan).expect_err("blank b never used")),
        "question \"q\" defines blank \"b\" that never appears in the prompt"
    );
    let empty = "---\nid: q\nkind: fill_in_blank\nblanks:\n  a: []\n---\n\nHas {{a}}.\n";
    assert_eq!(
        invalid_message(parse_question(empty).expect_err("empty answers")),
        "question \"q\" blank \"a\" has no answers"
    );
    let undefined = "---\nid: q\nkind: fill_in_blank\nblanks:\n  a: [x]\n---\n\n{{a}} and {{b}}.\n";
    assert_eq!(
        invalid_message(parse_question(undefined).expect_err("marker b undefined")),
        "question \"q\" uses blank \"b\" with no answers defined"
    );
}

#[test]
/// A repeated id is named in the message.
fn the_repeated_id_is_named() {
    let err = item_bank_from_questions("m", vec![question("a"), question("b"), question("a")])
        .expect_err("duplicate id must fail");
    assert_eq!(invalid_message(err), "duplicate question id \"a\"");
}

#[test]
/// A partial the reader refuses is named with the reader's own words.
fn a_refused_partial_carries_the_readers_message() {
    let source = "---\nid: q\nkind: multiple_choice\nchoices:\n  - file: gone.md\n    correct: true\n\
        \x20 - text: B\n---\n\nPick?\n";
    let reader = |path: &str| -> Result<String, String> { Err(format!("no such file: {path}")) };
    let err = parse_question_with(source, &reader).expect_err("missing partial");
    assert_eq!(
        invalid_message(err),
        "question \"q\" cannot include \"gone.md\": no such file: gone.md"
    );
}

#[test]
/// The first choice that fails to resolve is the one reported, and a refused
/// choice is reported before any feedback message.
fn the_first_refused_choice_is_reported() {
    let source = "---\nid: q\nkind: multiple_choice\nchoices:\n  - file: gone.md\n    correct: true\n\
        \x20 - text: B\n    file: b.md\nfeedback:\n  general:\n    file: also-gone.md\n---\n\nPick?\n";
    let reader = |path: &str| -> Result<String, String> { Err(format!("no such file: {path}")) };
    let err = parse_question_with(source, &reader).expect_err("missing partial");
    assert_eq!(
        invalid_message(err),
        "question \"q\" cannot include \"gone.md\": no such file: gone.md"
    );
}

#[test]
/// Sources that each parse on their own, with distinct ids, always assemble.
fn valid_sources_always_assemble() {
    let one = "---\nid: a\nkind: true_false\nanswer: true\n---\n\nFirst?\n";
    let two = "---\nid: b\nkind: true_false\nanswer: false\n---\n\nSecond?\n";
    let reader = |_path: &str| -> Result<String, String> { Err("unused".to_owned()) };
    let sources = vec![("1.md".to_owned(), one.to_owned()), ("2.md".to_owned(), two.to_owned())];
    let bank = item_bank_from_sources_with("m", sources, &reader).expect("assembles");
    assert_eq!(bank.items.len(), 2);
}
