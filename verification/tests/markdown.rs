use mdquiz::export::markdown::{to_answer_key, to_print_markdown};
use mdquiz::model::{
    Blank, Choice, ChoiceSet, Feedback, FillInBlank, ItemBank, MatchMode, MatchPair, Matching,
    MultipleSelect, OrderedItems, Question, QuestionKind, ScoringMode, TrueFalse,
};


/// Build a one-question true/false bank for rendering tests.
fn true_false_bank() -> ItemBank {
    ItemBank {
        name: "Module 1".to_owned(),
        items: vec![Question {
            id: "q1".to_owned(),
            title: None,
            prompt: "Binary search needs a sorted array.".to_owned(),
            points: "1".to_owned(),
            tags: Vec::new(),
            feedback: Feedback::none(),
            kind: QuestionKind::TrueFalse(TrueFalse { answer: true }),
        }],
    }
}

#[test]
/// An empty bank renders just the H1 header.
fn header_uses_bank_name() {
    let bank = ItemBank {
        name: "Quiz 1".to_owned(),
        items: Vec::new(),
    };
    assert_eq!(to_print_markdown(&bank).expect("empty bank"), "# Quiz 1\n");
}

#[test]
/// A true/false question renders numbered, with blank checkboxes and no key.
fn renders_true_false_without_answer() {
    let rendered = to_print_markdown(&true_false_bank()).expect("bank renders");
    assert!(rendered.contains("1. Binary search needs a sorted array."));
    assert!(rendered.contains("- [ ] True"));
    assert!(rendered.contains("- [ ] False"));
    // The print sheet must never leak the correct answer.
    assert!(!rendered.contains("[x]"));
    assert!(!rendered.to_lowercase().contains("answer"));
}

#[test]
/// Multiple questions are numbered sequentially from one, in order.
fn numbers_questions_sequentially() {
    let tf = |id: &str, prompt: &str| Question {
        id: id.to_owned(),
        title: None,
        prompt: prompt.to_owned(),
        points: "1".to_owned(),
        tags: Vec::new(),
        feedback: Feedback::none(),
        kind: QuestionKind::TrueFalse(TrueFalse { answer: true }),
    };
    let bank = ItemBank {
        name: "M".to_owned(),
        items: vec![tf("a", "First?"), tf("b", "Second?")],
    };
    let out = to_print_markdown(&bank).expect("renders");
    assert!(out.contains("1. First?"));
    assert!(out.contains("2. Second?"));
    assert!(out.find("1. First?") < out.find("2. Second?"));
}

#[test]
/// title, tags, and feedback never appear on the print sheet.
fn metadata_is_never_printed() {
    let mut bank = true_false_bank();
    if let Some(item) = bank.items.first_mut() {
        item.title = Some("SECRET-TITLE".to_owned());
        item.tags = vec!["SECRET-TAG".to_owned()];
        item.feedback = Feedback {
            general: Some("GENERAL-FB".to_owned()),
            correct: Some("CORRECT-FB".to_owned()),
            incorrect: Some("INCORRECT-FB".to_owned()),
        };
    }
    let out = to_print_markdown(&bank).expect("renders");
    assert!(!out.contains("SECRET-TITLE"));
    assert!(!out.contains("SECRET-TAG"));
    assert!(!out.contains("-FB"));
}

#[test]
/// A multiple-choice item renders lettered options with no answer marked.
fn renders_multiple_choice_without_answer() {
    let bank = ItemBank {
        name: "M".to_owned(),
        items: vec![Question {
            id: "mc".to_owned(),
            title: None,
            prompt: "Which is O(1)?".to_owned(),
            points: "1".to_owned(),
            tags: Vec::new(),
            feedback: Feedback::none(),
            kind: QuestionKind::MultipleChoice(ChoiceSet {
                choices: vec![
                    Choice {
                        text: "Hash lookup".to_owned(),
                        correct: true,
                    },
                    Choice {
                        text: "Linear scan".to_owned(),
                        correct: false,
                    },
                ],
            }),
        }],
    };
    let out = to_print_markdown(&bank).expect("renders");
    assert!(out.contains("1. Which is O(1)?"));
    assert!(out.contains("A. Hash lookup"));
    assert!(out.contains("B. Linear scan"));
    // No answer key: correctness must not leak into the sheet.
    assert!(!out.contains("correct"));
    assert!(!out.contains("[x]"));
}

#[test]
/// A multiple-select item renders blank checkboxes, one per option, no key.
fn renders_multiple_select_with_checkboxes() {
    let choice = |text: &str, correct: bool| Choice {
        text: text.to_owned(),
        correct,
    };
    let bank = ItemBank {
        name: "M".to_owned(),
        items: vec![Question {
            id: "ms".to_owned(),
            title: None,
            prompt: "Select all sorted-input algorithms.".to_owned(),
            points: "1".to_owned(),
            tags: Vec::new(),
            feedback: Feedback::none(),
            kind: QuestionKind::MultipleSelect(MultipleSelect {
                scoring: ScoringMode::AllOrNothing,
                choices: vec![
                    choice("Binary search", true),
                    choice("Linear search", false),
                ],
            }),
        }],
    };
    let out = to_print_markdown(&bank).expect("renders");
    assert!(out.contains("- [ ] A. Binary search"));
    assert!(out.contains("- [ ] B. Linear search"));
    assert!(!out.contains("[x]"));
}

#[test]
/// A fill-in-the-blank item renders each marker as a blank line, no answers.
fn renders_fill_in_blank_as_blank_lines() {
    let make_blank = |id: &str, answer: &str| Blank {
        id: id.to_owned(),
        answers: vec![answer.to_owned()],
        match_mode: MatchMode::CaseInsensitive,
    };
    let bank = ItemBank {
        name: "M".to_owned(),
        items: vec![Question {
            id: "fitb".to_owned(),
            title: None,
            prompt: "HTTP {{method}} returns {{code}}.".to_owned(),
            points: "1".to_owned(),
            tags: Vec::new(),
            feedback: Feedback::none(),
            kind: QuestionKind::FillInBlank(FillInBlank {
                blanks: vec![make_blank("method", "GET"), make_blank("code", "404")],
            }),
        }],
    };
    let out = to_print_markdown(&bank).expect("renders");
    assert!(out.contains("1. HTTP ________ returns ________."));
    assert!(!out.contains("{{"));
    assert!(!out.contains("GET"));
}

/// A bank of one matching question whose rights sort into the order that
/// pairs each with its own prompt — the case a plain sort gets wrong.
fn matching_bank() -> ItemBank {
    let pair = |left: &str, right: &str| MatchPair {
        left: left.to_owned(),
        right: right.to_owned(),
    };
    ItemBank {
        name: "M".to_owned(),
        items: vec![Question {
            id: "mt".to_owned(),
            title: None,
            prompt: "Match each type to its size.".to_owned(),
            points: "1".to_owned(),
            tags: Vec::new(),
            feedback: Feedback::none(),
            kind: QuestionKind::Matching(Matching {
                pairs: vec![pair("char", "1 byte"), pair("int", "4 bytes")],
                distractors: vec!["8 bytes".to_owned()],
            }),
        }],
    }
}

#[test]
/// A matching item renders numbered prompts and lettered options, no key.
fn renders_matching_without_answer_key() {
    let out = to_print_markdown(&matching_bank()).expect("renders");
    assert!(out.contains("1. Match each type to its size."));
    assert!(out.contains("   1. char"));
    assert!(out.contains("   2. int"));
    // Every option is lettered and the distractor is among them: leaving
    // it out would let a student count options against prompts and get
    // the last pair free.
    for right in ["1 byte", "4 bytes", "8 bytes"] {
        assert!(out.contains(right), "{right} is missing: {out}");
    }
    // And option A is *not* prompt 1's answer. These rights sort into the
    // order that pairs each with its own prompt, so a plain sort here
    // would print the whole answer; `display_order` rotates off it.
    assert!(
        !out.contains("A. 1 byte"),
        "the options line up with the prompts: {out}"
    );
    // No answer key: no pairing (e.g. "left = right") is written out.
    assert!(!out.contains('='));
}

#[test]
/// An ordering item lists its options sorted (never in the correct order),
/// each with a write-in blank, and no answer key.
fn renders_ordering_without_answer_key() {
    let bank = ItemBank {
        name: "M".to_owned(),
        items: vec![Question {
            id: "ord".to_owned(),
            title: None,
            prompt: "Order the phases.".to_owned(),
            points: "1".to_owned(),
            tags: Vec::new(),
            feedback: Feedback::none(),
            // Authored (correct) order; display sorts to Compile, Link, Run.
            kind: QuestionKind::Ordered(OrderedItems {
                items: vec!["Run".to_owned(), "Compile".to_owned(), "Link".to_owned()],
            }),
        }],
    };
    let out = to_print_markdown(&bank).expect("renders");
    assert!(out.contains("1. Order the phases."));
    // Sorted display order, not the authored order, with write-in blanks.
    let items = out.find("____ Compile").expect("compile listed");
    let link = out.find("____ Link").expect("link listed");
    let run = out.find("____ Run").expect("run listed");
    assert!(items < link && link < run);
}

#[test]
/// Items authored in alphabetical order still are not presented in it.
/// The display order is a text sort, so an author who happens to write the
/// steps alphabetically would otherwise get the answer printed on the
/// sheet — the one thing this sort exists to prevent.
fn an_alphabetically_authored_ordering_is_not_presented_in_order() {
    let bank = ItemBank {
        name: "M".to_owned(),
        items: vec![Question {
            id: "ord".to_owned(),
            title: None,
            prompt: "Order the phases.".to_owned(),
            points: "1".to_owned(),
            tags: Vec::new(),
            feedback: Feedback::none(),
            // Authored (correct) order, and already alphabetical: the text
            // sort alone would hand this straight back.
            kind: QuestionKind::Ordered(OrderedItems {
                items: vec!["Compile".to_owned(), "Link".to_owned(), "Run".to_owned()],
            }),
        }],
    };
    let out = to_print_markdown(&bank).expect("renders");
    let compile = out.find("____ Compile").expect("compile listed");
    let link = out.find("____ Link").expect("link listed");
    let run = out.find("____ Run").expect("run listed");
    assert!(
        !(compile < link && link < run),
        "the sheet printed the answer: {out}"
    );
}

#[test]
/// The print sheet keeps math and diagram source verbatim (no rendering).
fn print_keeps_math_and_diagrams_literal() {
    let bank = ItemBank {
        name: "M".to_owned(),
        items: vec![Question {
            id: "q".to_owned(),
            title: None,
            prompt: "Cost $O(n)$ and\n\n```mermaid\ngraph TD; A-->B;\n```\n\n\
                ```dot\ndigraph { a -> b; }\n```\n\n| Op | Cost |\n|----|------|\n\
                | push | O(1) |"
                .to_owned(),
            points: "1".to_owned(),
            tags: Vec::new(),
            feedback: Feedback::none(),
            kind: QuestionKind::TrueFalse(TrueFalse { answer: true }),
        }],
    };
    let out = to_print_markdown(&bank).expect("renders");
    assert!(out.contains("$O(n)$") && out.contains("```mermaid") && out.contains("```dot"));
    // A pipe table stays literal pipe text: the print sheet renders no HTML.
    assert!(out.contains("| push | O(1) |") && !out.contains("<table"));
    assert!(!out.contains("equation_image") && !out.contains("![diagram]"));
}

/// A one-question bank for the given `kind`.
fn key_question(kind: QuestionKind) -> Question {
    Question {
        id: "q".to_owned(),
        title: None,
        prompt: "p".to_owned(),
        points: "1".to_owned(),
        tags: Vec::new(),
        feedback: Feedback::none(),
        kind,
    }
}

#[test]
/// The answer key shows only correct answers, numbered like the sheet.
fn answer_key_shows_only_correct_answers() {
    let bank = ItemBank {
        name: "Q".to_owned(),
        items: vec![
            key_question(QuestionKind::TrueFalse(TrueFalse { answer: false })),
            key_question(QuestionKind::MultipleChoice(ChoiceSet {
                choices: vec![
                    Choice {
                        text: "Right".to_owned(),
                        correct: true,
                    },
                    Choice {
                        text: "Wrong".to_owned(),
                        correct: false,
                    },
                ],
            })),
        ],
    };
    let key = to_answer_key(&bank);
    assert!(key.contains("# Q — Answer Key"));
    assert!(key.contains("1. **False**"));
    assert!(key.contains("2. A. Right"));
    // The distractor is absent — the key lists correct answers only.
    assert!(!key.contains("Wrong"));
}

#[test]
/// Two banks that differ only in answers, ids and metadata print the same sheet.
fn the_sheet_does_not_depend_on_answers() {
    let choice_question = |id: &str, first_correct: bool, points: &str| Question {
        id: id.to_owned(),
        title: if first_correct { None } else { Some("Hidden".to_owned()) },
        prompt: "Which is O(1)?".to_owned(),
        points: points.to_owned(),
        tags: if first_correct { Vec::new() } else { vec!["t".to_owned()] },
        feedback: Feedback::none(),
        kind: QuestionKind::MultipleChoice(ChoiceSet {
            choices: vec![
                Choice { text: "Hash lookup".to_owned(), correct: first_correct },
                Choice { text: "Linear scan".to_owned(), correct: !first_correct },
            ],
        }),
    };
    let true_false = |answer: bool| Question {
        id: "tf".to_owned(),
        title: None,
        prompt: "Sorted?".to_owned(),
        points: "1".to_owned(),
        tags: Vec::new(),
        feedback: Feedback::none(),
        kind: QuestionKind::TrueFalse(TrueFalse { answer }),
    };
    let one = ItemBank { name: "M".to_owned(), items: vec![choice_question("a", true, "1"), true_false(true)] };
    let two = ItemBank { name: "M".to_owned(), items: vec![choice_question("b", false, "5"), true_false(false)] };
    assert_eq!(
        to_print_markdown(&one).expect("renders"),
        to_print_markdown(&two).expect("renders")
    );
}
