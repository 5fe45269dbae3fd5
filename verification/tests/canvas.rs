use mdquiz::export::canvas::{
    assessment_xml, escape_xml, even_share_score, import_reminders, local_image_paths,
    manifest_xml, percent_encode_component, percent_encode_path, prompt_html, resprocessing_xml, sanitize_ident, to_qti,
    varequal_conditionvar, TRUE_CHOICE_IDENT,
};
use mdquiz::model::{
    Blank, Choice, ChoiceSet, Feedback, FillInBlank, ItemBank, MatchMode, MatchPair, Matching,
    MultipleSelect, OrderedItems, Question, QuestionKind, ScoringMode, TrueFalse,
};
use mdquiz::diagram::{render_diagrams, DiagramFormat, DiagramLanguage};
use std::io::Cursor;


/// Build a one-question true/false bank with the given answer and prompt.
fn true_false_bank(answer: bool, prompt: &str) -> ItemBank {
    ItemBank {
        name: "Module 1".to_owned(),
        items: vec![Question {
            id: "tf-1".to_owned(),
            title: None,
            prompt: prompt.to_owned(),
            points: "1".to_owned(),
            tags: Vec::new(),
            feedback: Feedback::none(),
            kind: QuestionKind::TrueFalse(TrueFalse { answer }),
        }],
    }
}

/// Build a one-question multiple-choice bank; `correct` marks which of the
/// three options is right.
fn multiple_choice_bank(correct: usize, feedback: Feedback) -> ItemBank {
    let choices = (0..3usize)
        .map(|index| Choice {
            text: format!("Option {index}"),
            correct: index == correct,
        })
        .collect();
    ItemBank {
        name: "Module 1".to_owned(),
        items: vec![Question {
            id: "mc-1".to_owned(),
            title: None,
            prompt: "Pick one.".to_owned(),
            points: "1".to_owned(),
            tags: Vec::new(),
            feedback,
            kind: QuestionKind::MultipleChoice(ChoiceSet { choices }),
        }],
    }
}

#[test]
/// A multiple-choice item renders single-select choices and scores the mark.
fn multiple_choice_renders_and_scores_marked_choice() {
    let xml = assessment_xml("a", &multiple_choice_bank(2, Feedback::none()))
        .expect("assessment renders");
    assert!(xml.contains("multiple_choice_question"));
    assert!(xml.contains(r#"rcardinality="Single""#));
    assert!(xml.contains(r#"<response_label ident="choice_0">"#));
    assert!(xml.contains(r#"<response_label ident="choice_2">"#));
    assert!(xml.contains("Option 1"));
    // The correct choice (index 2) is the 100-point response.
    assert!(xml.contains(r#"<varequal respident="response1">choice_2</varequal>"#));
    // No incorrect feedback here, so no `<not>` arm is emitted.
    assert!(!xml.contains("<not>"));
}

#[test]
/// A multiple-select item uses Multiple cardinality and all-or-nothing
/// scoring: select every correct option and no incorrect one.
fn multiple_select_uses_multiple_cardinality_and_and_scoring() {
    let choice = |text: &str, correct: bool| Choice {
        text: text.to_owned(),
        correct,
    };
    let bank = ItemBank {
        name: "M".to_owned(),
        items: vec![Question {
            id: "ms".to_owned(),
            title: None,
            prompt: "Select all.".to_owned(),
            points: "1".to_owned(),
            tags: Vec::new(),
            feedback: Feedback::none(),
            kind: QuestionKind::MultipleSelect(MultipleSelect {
                scoring: ScoringMode::AllOrNothing,
                choices: vec![choice("A", true), choice("B", false), choice("C", true)],
            }),
        }],
    };
    let xml = assessment_xml("a", &bank).expect("renders");
    assert!(xml.contains("multiple_answers_question"));
    assert!(xml.contains(r#"rcardinality="Multiple""#));
    assert!(xml.contains("<and>"));
    assert!(xml.contains(r#"<varequal respident="response1">choice_0</varequal>"#));
    assert!(xml.contains(r#"<varequal respident="response1">choice_2</varequal>"#));
    assert!(xml.contains(r#"<not><varequal respident="response1">choice_1</varequal></not>"#));
}

/// Build a multiple-select bank from `(text, correct)` pairs and feedback.
fn multiple_select_bank(
    choices: &[(&str, bool)],
    feedback: Feedback,
    scoring: ScoringMode,
) -> ItemBank {
    let choices = choices
        .iter()
        .map(|(text, correct)| Choice {
            text: (*text).to_owned(),
            correct: *correct,
        })
        .collect();
    ItemBank {
        name: "M".to_owned(),
        items: vec![Question {
            id: "ms".to_owned(),
            title: None,
            prompt: "Select all.".to_owned(),
            points: "1".to_owned(),
            tags: Vec::new(),
            feedback,
            kind: QuestionKind::MultipleSelect(MultipleSelect { choices, scoring }),
        }],
    }
}

#[test]
/// Multiple-select incorrect feedback wraps the exact set in `<not><and>`.
fn multiple_select_incorrect_feedback_uses_not_and_condition() {
    let feedback = Feedback {
        general: Some("Recall which need ordering.".to_owned()),
        correct: Some("Yes.".to_owned()),
        incorrect: Some("No.".to_owned()),
    };
    let bank = multiple_select_bank(
        &[("A", true), ("B", false), ("C", true)],
        feedback,
        ScoringMode::AllOrNothing,
    );
    let xml = assessment_xml("a", &bank).expect("renders");
    assert!(xml.contains("<not>"));
    assert!(xml.contains("<and>"));
    assert!(xml.contains(r#"linkrefid="incorrect_fb""#));
    assert!(xml.contains(r#"<itemfeedback ident="correct_fb">"#));
    assert!(xml.contains(r#"<itemfeedback ident="general_fb">"#));
}

#[test]
/// Partial-credit scoring adds an even share per correct choice and
/// subtracts per incorrect one, with no all-or-nothing `<and>` block.
fn multiple_select_partial_credit_adds_and_subtracts() {
    let bank = multiple_select_bank(
        &[("A", true), ("B", false), ("C", true)],
        Feedback::none(),
        ScoringMode::Partial,
    );
    let xml = assessment_xml("a", &bank).expect("renders");
    assert!(xml.contains("multiple_answers_question"));
    assert!(!xml.contains("<and>"));
    // Two correct → +50.00 each; one incorrect → -100.00.
    assert!(xml.contains(r#"<setvar action="Add" varname="SCORE">50.00</setvar>"#));
    assert!(xml.contains(r#"<setvar action="Subtract" varname="SCORE">100.00</setvar>"#));
    assert!(xml.contains(r#"<varequal respident="response1">choice_1</varequal>"#));
}

#[test]
/// Partial credit wires general feedback only (no correct/incorrect arms).
fn multiple_select_partial_wires_general_feedback_only() {
    let feedback = Feedback {
        general: Some("Recall the set.".to_owned()),
        correct: Some("Yes.".to_owned()),
        incorrect: Some("No.".to_owned()),
    };
    let bank = multiple_select_bank(
        &[("A", true), ("B", false), ("C", true)],
        feedback,
        ScoringMode::Partial,
    );
    let xml = assessment_xml("a", &bank).expect("renders");
    assert!(xml.contains(r#"<itemfeedback ident="general_fb">"#));
    assert!(xml.contains(r#"linkrefid="general_fb""#));
    // Correct/incorrect feedback has no home under partial scoring.
    assert!(!xml.contains(r#"ident="correct_fb""#));
    assert!(!xml.contains(r#"ident="incorrect_fb""#));
}

#[test]
/// An all-correct partial set adds credit but emits no `Subtract` arm.
fn multiple_select_partial_all_correct_has_no_subtract() {
    let bank = multiple_select_bank(
        &[("A", true), ("B", true)],
        Feedback::none(),
        ScoringMode::Partial,
    );
    let xml = assessment_xml("a", &bank).expect("renders");
    assert!(xml.contains(r#"<setvar action="Add" varname="SCORE">50.00</setvar>"#));
    assert!(!xml.contains(r#"action="Subtract""#));
    assert!(!xml.contains("<and>"));
}

#[test]
/// An all-correct multiple-select emits only `<varequal>` terms, no `<not>`.
fn multiple_select_all_correct_has_no_not_terms() {
    let bank = multiple_select_bank(
        &[("A", true), ("B", true)],
        Feedback::none(),
        ScoringMode::AllOrNothing,
    );
    let xml = assessment_xml("a", &bank).expect("renders");
    assert!(xml.contains(r#"<varequal respident="response1">choice_0</varequal>"#));
    assert!(xml.contains(r#"<varequal respident="response1">choice_1</varequal>"#));
    assert!(!xml.contains("<not>"));
}

/// Build a two-blank fill-in-the-blank bank with the given feedback.
fn fill_in_blank_bank(feedback: Feedback) -> ItemBank {
    let mk_blank = |id: &str, answers: &[&str]| Blank {
        id: id.to_owned(),
        answers: answers.iter().map(|answer| (*answer).to_owned()).collect(),
        match_mode: MatchMode::CaseInsensitive,
    };
    ItemBank {
        name: "M".to_owned(),
        items: vec![Question {
            id: "fitb".to_owned(),
            title: None,
            prompt: "HTTP {{method}} returns {{code}}.".to_owned(),
            points: "1".to_owned(),
            tags: Vec::new(),
            feedback,
            kind: QuestionKind::FillInBlank(FillInBlank {
                blanks: vec![
                    mk_blank("method", &["GET"]),
                    mk_blank("code", &["404", "Not Found"]),
                ],
            }),
        }],
    }
}

#[test]
/// Fill-in-the-blank renders one response per blank, inline `[name]`
/// markers, and per-blank partial-credit scoring.
fn fill_in_blank_renders_blanks_and_scoring() {
    let xml = assessment_xml("a", &fill_in_blank_bank(Feedback::none())).expect("renders");
    assert!(xml.contains("fill_in_multiple_blanks_question"));
    // Markers rewritten from {{name}} to Canvas's [name].
    assert!(xml.contains("[method]"));
    assert!(xml.contains("[code]"));
    assert!(!xml.contains("{{method}}"));
    assert!(xml.contains(r#"<response_lid ident="response_method">"#));
    assert!(xml.contains(r#"<response_lid ident="response_code">"#));
    assert!(xml.contains("Not Found"));
    // Two blanks -> 50.00 each, added on a matching answer.
    assert!(xml.contains(r#"<setvar action="Add" varname="SCORE">50.00</setvar>"#));
    assert!(xml.contains(r#"<varequal respident="response_code">code_answer_1</varequal>"#));
}

#[test]
/// Blanks are emitted in prompt order, not the model's storage order.
fn fill_in_blank_orders_responses_by_prompt() {
    let mk_blank = |id: &str| Blank {
        id: id.to_owned(),
        answers: vec!["x".to_owned()],
        match_mode: MatchMode::CaseInsensitive,
    };
    let bank = ItemBank {
        name: "M".to_owned(),
        items: vec![Question {
            id: "fitb".to_owned(),
            title: None,
            prompt: "First {{alpha}} then {{beta}}.".to_owned(),
            points: "1".to_owned(),
            tags: Vec::new(),
            feedback: Feedback::none(),
            // Stored in the reverse of prompt order.
            kind: QuestionKind::FillInBlank(FillInBlank {
                blanks: vec![mk_blank("beta"), mk_blank("alpha")],
            }),
        }],
    };
    let xml = assessment_xml("a", &bank).expect("renders");
    assert!(xml.find("response_alpha") < xml.find("response_beta"));
}

#[test]
/// Per-blank credit splits 100% evenly across the blanks.
fn even_share_score_splits_evenly() {
    assert_eq!(even_share_score(1), "100.00");
    assert_eq!(even_share_score(2), "50.00");
    assert_eq!(even_share_score(3), "33.33");
}

#[test]
/// XML-special characters in a blank answer are escaped, not emitted raw.
fn fill_in_blank_escapes_answer_text() {
    let bank = ItemBank {
        name: "M".to_owned(),
        items: vec![Question {
            id: "fitb".to_owned(),
            title: None,
            prompt: "Value is {{v}}.".to_owned(),
            points: "1".to_owned(),
            tags: Vec::new(),
            feedback: Feedback::none(),
            kind: QuestionKind::FillInBlank(FillInBlank {
                blanks: vec![Blank {
                    id: "v".to_owned(),
                    answers: vec!["a < b & c".to_owned()],
                    match_mode: MatchMode::CaseInsensitive,
                }],
            }),
        }],
    };
    let xml = assessment_xml("a", &bank).expect("renders");
    assert!(xml.contains("&lt;"));
    assert!(xml.contains("&amp;"));
    assert!(!xml.contains("a < b"));
}

#[test]
/// A regex blank exports as literal text and yields a manual-fix reminder.
fn regex_blank_exports_literal_and_warns() {
    let bank = ItemBank {
        name: "M".to_owned(),
        items: vec![Question {
            id: "fitb".to_owned(),
            title: None,
            prompt: "A 3-digit code: {{n}}.".to_owned(),
            points: "1".to_owned(),
            tags: Vec::new(),
            feedback: Feedback::none(),
            kind: QuestionKind::FillInBlank(FillInBlank {
                blanks: vec![Blank {
                    id: "n".to_owned(),
                    answers: vec![r"\d{3}".to_owned()],
                    match_mode: MatchMode::Regex,
                }],
            }),
        }],
    };
    // Exports as a standard fill-in-blank carrying the pattern as literal text.
    let xml = assessment_xml("a", &bank).expect("renders");
    assert!(xml.contains("fill_in_multiple_blanks_question"));
    assert!(xml.contains(r"\d{3}"));
    // And it surfaces a manual-fix reminder naming the question and blank.
    let reminders = import_reminders(&bank);
    assert_eq!(reminders.len(), 1);
    let note = reminders.first().expect("one reminder");
    assert!(note.contains("fitb") && note.contains("\"n\""));
    // A non-regex fill-in-blank bank produces no reminders.
    assert!(import_reminders(&fill_in_blank_bank(Feedback::none())).is_empty());
}

#[test]
/// A bank with no fill-in-the-blank questions yields no import reminders.
fn non_fitb_bank_has_no_reminders() {
    assert!(import_reminders(&true_false_bank(true, "Q?")).is_empty());
}

#[test]
/// Fill-in-the-blank carries general feedback (answer-level is MC-only).
fn fill_in_blank_general_feedback_is_emitted() {
    let feedback = Feedback {
        general: Some("Recall HTTP semantics.".to_owned()),
        correct: None,
        incorrect: None,
    };
    let xml = assessment_xml("a", &fill_in_blank_bank(feedback)).expect("renders");
    assert!(xml.contains(r#"<itemfeedback ident="general_fb">"#));
    assert!(xml.contains(r#"linkrefid="general_fb""#));
}

#[test]
/// Matching renders one response per left, shared options, and per-pair
/// partial-credit scoring pairing each left with its correct option.
fn matching_renders_responses_and_scoring() {
    let pair = |left: &str, right: &str| MatchPair {
        left: left.to_owned(),
        right: right.to_owned(),
    };
    let bank = ItemBank {
        name: "M".to_owned(),
        items: vec![Question {
            id: "mt".to_owned(),
            title: None,
            prompt: "Match.".to_owned(),
            points: "1".to_owned(),
            tags: Vec::new(),
            feedback: Feedback::none(),
            kind: QuestionKind::Matching(Matching {
                pairs: vec![pair("char", "1 byte"), pair("int", "4 bytes")],
                distractors: vec!["8 bytes".to_owned()],
            }),
        }],
    };
    let xml = assessment_xml("a", &bank).expect("renders");
    assert!(xml.contains("matching_question"));
    // One response per left prompt, each offering all three options.
    assert!(xml.contains(r#"<response_lid ident="response_0">"#));
    assert!(xml.contains(r#"<response_lid ident="response_1">"#));
    assert!(xml.contains("char") && xml.contains("8 bytes"));
    // Two pairs -> 50.00 each; left 1 (int -> 4 bytes) pairs with option 1.
    assert!(xml.contains(r#"<setvar action="Add" varname="SCORE">50.00</setvar>"#));
    assert!(xml.contains(r#"<varequal respident="response_0">answer_0</varequal>"#));
    assert!(xml.contains(r#"<varequal respident="response_1">answer_1</varequal>"#));
}

#[test]
/// A right reused across pairs (or shared with a distractor) collapses to one
/// option, so a later pair scores against an earlier, non-identity option.
fn matching_dedups_options_and_pairs_by_value() {
    let pair = |left: &str, right: &str| MatchPair {
        left: left.to_owned(),
        right: right.to_owned(),
    };
    let matching = Matching {
        // "cat" repeats and the distractor duplicates "dog".
        pairs: vec![pair("a", "cat"), pair("b", "dog"), pair("c", "cat")],
        distractors: vec!["dog".to_owned()],
    };
    let bank = matching_bank(matching, Feedback::none());
    let xml = assessment_xml("a", &bank).expect("renders");
    // Two distinct options only: answer_0/answer_1, never answer_2.
    assert!(xml.contains("answer_1") && !xml.contains("answer_2"));
    // Three pairs -> 33.33 each; pair "c" maps back to option 0, not 2.
    assert!(xml.contains(r#"<setvar action="Add" varname="SCORE">33.33</setvar>"#));
    assert!(xml.contains(r#"<varequal respident="response_2">answer_0</varequal>"#));
}

#[test]
/// Matching wires general feedback and XML-escapes left/right cell text.
fn matching_wires_feedback_and_escapes_cells() {
    let pair = |left: &str, right: &str| MatchPair {
        left: left.to_owned(),
        right: right.to_owned(),
    };
    let matching = Matching {
        pairs: vec![pair("a < b", "x & y"), pair("c", "z")],
        distractors: Vec::new(),
    };
    let feedback = Feedback {
        general: Some("Recall the ordering.".to_owned()),
        correct: Some("nice".to_owned()),
        incorrect: Some("nope".to_owned()),
    };
    let xml = assessment_xml("a", &matching_bank(matching, feedback)).expect("renders");
    assert!(xml.contains("a &lt; b") && xml.contains("x &amp; y"));
    assert!(!xml.contains("a < b") && !xml.contains("x & y"));
    // General feedback is wired; answer-level feedback is not (matching-only).
    assert!(xml.contains(r#"<itemfeedback ident="general_fb">"#));
    assert!(!xml.contains(r#"ident="correct_fb""#) && !xml.contains(r#"ident="incorrect_fb""#));
}

/// A one-item bank wrapping `matching` with the given `feedback`.
fn matching_bank(matching: Matching, feedback: Feedback) -> ItemBank {
    ItemBank {
        name: "M".to_owned(),
        items: vec![Question {
            id: "mt".to_owned(),
            title: None,
            prompt: "Match.".to_owned(),
            points: "1".to_owned(),
            tags: Vec::new(),
            feedback,
            kind: QuestionKind::Matching(matching),
        }],
    }
}

#[test]
/// XML-special characters in choice text are escaped, not emitted raw.
fn multiple_choice_escapes_choice_text() {
    let bank = ItemBank {
        name: "M".to_owned(),
        items: vec![Question {
            id: "mc".to_owned(),
            title: None,
            prompt: "Pick.".to_owned(),
            points: "1".to_owned(),
            tags: Vec::new(),
            feedback: Feedback::none(),
            kind: QuestionKind::MultipleChoice(ChoiceSet {
                choices: vec![
                    Choice {
                        text: "a < b & c".to_owned(),
                        correct: true,
                    },
                    Choice {
                        text: "plain".to_owned(),
                        correct: false,
                    },
                ],
            }),
        }],
    };
    let xml = assessment_xml("a", &bank).expect("renders");
    assert!(xml.contains("&lt;"));
    assert!(xml.contains("&amp;"));
    assert!(!xml.contains("a < b"));
}

#[test]
/// Incorrect feedback on a multiple-choice item uses a `<not>` condition.
fn multiple_choice_incorrect_feedback_uses_not_condition() {
    let feedback = Feedback {
        general: None,
        correct: Some("Yes.".to_owned()),
        incorrect: Some("No.".to_owned()),
    };
    let xml = assessment_xml("a", &multiple_choice_bank(1, feedback)).expect("renders");
    assert!(xml.contains("<not>"));
    assert!(xml.contains(r#"linkrefid="incorrect_fb""#));
    assert!(xml.contains(r#"<itemfeedback ident="correct_fb">"#));
}

#[test]
/// A multiple-choice bank exports as a valid two-file zip package.
fn multiple_choice_exports_valid_zip() {
    let bytes = to_qti(&multiple_choice_bank(0, Feedback::none()), &[]).expect("export");
    let archive = zip::ZipArchive::new(Cursor::new(bytes)).expect("valid zip");
    assert_eq!(archive.len(), 2);
}

#[test]
/// The package is a zip holding the manifest and one assessment file.
fn package_is_zip_with_manifest_and_assessment() {
    let bytes = to_qti(&true_false_bank(true, "Q?"), &[]).expect("export succeeds");
    let archive = zip::ZipArchive::new(Cursor::new(bytes)).expect("valid zip");
    let names: Vec<&str> = archive.file_names().collect();
    assert_eq!(names.len(), 2);
    assert!(names.contains(&"imsmanifest.xml"));
    assert!(names.iter().any(|name| *name != "imsmanifest.xml"));
}

#[test]
/// A `true` answer marks the true choice as the 100-point response.
fn true_answer_marks_true_choice_correct() {
    let xml = assessment_xml("a", &true_false_bank(true, "Binary search needs sorting."))
        .expect("assessment renders");
    assert!(xml.contains("true_false_question"));
    assert!(xml.contains("Binary search needs sorting"));
    assert!(xml.contains(r#"<varequal respident="response1">true_choice</varequal>"#));
}

#[test]
/// A `false` answer marks the false choice as correct instead.
fn false_answer_marks_false_choice_correct() {
    let xml = assessment_xml("a", &true_false_bank(false, "Q?")).expect("assessment renders");
    assert!(xml.contains(r#"<varequal respident="response1">false_choice</varequal>"#));
}

#[test]
/// Angle brackets and ampersands from the prompt are XML-escaped, not raw.
fn prompt_special_characters_are_escaped() {
    let xml = assessment_xml("a", &true_false_bank(true, "Is `a < b && c` valid?"))
        .expect("assessment renders");
    assert!(xml.contains("&lt;"));
    assert!(xml.contains("&amp;"));
    assert!(!xml.contains("a < b"));
}

#[test]
/// The point value fills `points_possible`; whole numbers drop the decimal.
fn points_are_formatted_into_metadata() {
    let xml = assessment_xml("a", &true_false_bank(true, "Q?")).expect("renders");
    assert!(xml.contains("<fieldentry>1</fieldentry>"));
    let mut fractional = true_false_bank(true, "Q?");
    if let Some(item) = fractional.items.first_mut() {
        item.points = "2.5".to_owned();
    }
    let xml = assessment_xml("a", &fractional).expect("renders");
    assert!(xml.contains("<fieldentry>2.5</fieldentry>"));
}

#[test]
/// A Markdown prompt is rendered to HTML and trimmed.
fn prompt_html_renders_markdown() {
    assert_eq!(
        prompt_html("A **bold** word"),
        "<p>A <strong>bold</strong> word</p>"
    );
}

#[test]
/// A Markdown pipe table renders as an HTML `<table>`, not literal text.
fn markdown_table_renders_as_html() {
    let prompt = "Costs:\n\n| Op | Cost |\n|----|------|\n| push | O(1) |\n";
    let xml = assessment_xml("a", &true_false_bank(true, prompt)).expect("renders");
    // mattext is HTML-escaped, so `<table>` appears as `&lt;table&gt;`.
    assert!(xml.contains("&lt;table&gt;"));
    assert!(xml.contains("&lt;td&gt;push&lt;/td&gt;"));
    assert!(!xml.contains("| push |"));
}

#[test]
/// GFM `~~strikethrough~~` renders as `<del>`.
fn markdown_strikethrough_renders() {
    let xml =
        assessment_xml("a", &true_false_bank(true, "This is ~~wrong~~.")).expect("renders");
    assert!(xml.contains("&lt;del&gt;wrong&lt;/del&gt;"));
}

#[test]
/// Inline `$…$` math becomes Canvas's native equation image (double-encoded).
fn inline_math_becomes_equation_image() {
    let xml =
        assessment_xml("a", &true_false_bank(true, "It is $x^2$ hard.")).expect("renders");
    assert!(xml.contains("equation_image"));
    // `^` is percent-encoded twice: `%5E` -> `%255E`.
    assert!(xml.contains("/equation_images/x%255E2"));
    assert!(xml.contains("data-equation-content=&quot;x^2&quot;"));
}

#[test]
/// Display `$$…$$` math also renders as an equation image.
fn display_math_becomes_equation_image() {
    let xml = assessment_xml("a", &true_false_bank(true, "$$E=mc^2$$")).expect("renders");
    assert!(xml.contains("equation_image"));
    assert!(xml.contains("data-equation-content=&quot;E=mc^2&quot;"));
}

#[test]
/// LaTeX specials are HTML- then XML-escaped (double-encoded) in attributes.
fn math_escapes_special_characters() {
    let xml = assessment_xml("a", &true_false_bank(true, "$a < b$")).expect("renders");
    assert!(xml.contains("a &amp;lt; b"));
    assert!(!xml.contains("a < b"));
}

#[test]
/// A lone `$` with no closing delimiter stays literal, not an equation.
fn lone_dollar_is_not_math() {
    let xml =
        assessment_xml("a", &true_false_bank(true, "It costs $5 today.")).expect("renders");
    assert!(!xml.contains("equation_image"));
}

#[test]
/// The double-encoded `src` matches Canvas's own export for `O(\log n)`.
fn math_src_matches_canvas_double_encoding() {
    let xml =
        assessment_xml("a", &true_false_bank(true, r"Cost $O(\log n)$.")).expect("renders");
    assert!(xml.contains("/equation_images/O%2528%255Clog%2520n%2529"));
}

#[test]
/// A double-quote in LaTeX is entity-escaped so it cannot break the attribute.
fn math_escapes_quotes_in_latex() {
    let xml = assessment_xml("a", &true_false_bank(true, r#"$\text{"x"}$"#)).expect("renders");
    // `"` -> `&quot;` (here) -> `&amp;quot;` (outer XML escape).
    assert!(xml.contains("&amp;quot;x&amp;quot;"));
}

#[test]
/// Math renders inside a choice, not just a prompt (both HTML paths).
fn math_renders_in_a_choice() {
    let bank = choice_image_bank(vec![("$x^2$", true), ("No", false)], Feedback::none());
    let xml = assessment_xml("a", &bank).expect("renders");
    assert!(xml.contains("equation_image"));
    assert!(xml.contains("data-equation-content=&quot;x^2&quot;"));
}

#[test]
/// The manifest wires the resource ident and href into the resource nodes.
fn manifest_references_assessment_resource() {
    let xml = manifest_xml("assessment_m", "assessment_m/assessment_m.xml", &[]);
    assert!(xml.contains(r#"identifier="assessment_m""#));
    assert!(xml.contains(r#"href="assessment_m/assessment_m.xml""#));
}

/// Build a one-question bank whose prompt is `prompt`.
fn image_bank(prompt: &str) -> ItemBank {
    ItemBank {
        name: "M".to_owned(),
        items: vec![Question {
            id: "q".to_owned(),
            title: None,
            prompt: prompt.to_owned(),
            points: "1".to_owned(),
            tags: Vec::new(),
            feedback: Feedback::none(),
            kind: QuestionKind::TrueFalse(TrueFalse { answer: true }),
        }],
    }
}

#[test]
/// A local image URL is rewritten to `$IMS-CC-FILEBASE$`; external URLs stay.
fn local_image_rewritten_external_untouched() {
    let bank = image_bank("See ![d](diagram.png) and ![x](https://ex.com/x.png).");
    assert_eq!(local_image_paths(&bank), ["diagram.png"]);
    let xml = assessment_xml("a", &bank).expect("renders");
    assert!(xml.contains("$IMS-CC-FILEBASE$/diagram.png?canvas_download=1"));
    assert!(xml.contains("https://ex.com/x.png"));
    // The bare local src must not survive.
    assert!(!xml.contains("src=&quot;diagram.png&quot;"));
}

#[test]
/// Supplied image bytes are bundled and declared in the manifest.
fn images_are_bundled_and_declared() {
    let bank = image_bank("![d](sub/diagram.png)");
    let images = vec![("sub/diagram.png".to_owned(), vec![1_u8, 2, 3])];
    let bytes = to_qti(&bank, &images).expect("export");
    let archive = zip::ZipArchive::new(Cursor::new(bytes)).expect("valid zip");
    let names: Vec<&str> = archive.file_names().collect();
    assert!(names.contains(&"web_resources/sub/diagram.png"));
    let manifest = manifest_xml("a", "a/a.xml", &images);
    assert!(manifest.contains(r#"href="web_resources/sub/diagram.png""#));
    assert!(manifest.contains("webcontent"));
}

/// A one-question multiple-choice bank over `choices`, with `feedback`.
fn choice_image_bank(choices: Vec<(&str, bool)>, feedback: Feedback) -> ItemBank {
    let choices = choices
        .into_iter()
        .map(|(text, correct)| Choice {
            text: text.to_owned(),
            correct,
        })
        .collect();
    ItemBank {
        name: "M".to_owned(),
        items: vec![Question {
            id: "q".to_owned(),
            title: None,
            prompt: "Pick one.".to_owned(),
            points: "1".to_owned(),
            tags: Vec::new(),
            feedback,
            kind: QuestionKind::MultipleChoice(ChoiceSet { choices }),
        }],
    }
}

#[test]
/// Local images in choices and feedback are collected; externals are not.
fn local_image_paths_scans_answers_and_feedback() {
    let feedback = Feedback {
        general: Some("Recall balance: ![hint](hint.png)".to_owned()),
        correct: None,
        incorrect: None,
    };
    let choices = vec![
        ("![a](pic.png)", true),
        ("![b](https://ex.com/y.png)", false),
    ];
    let bank = choice_image_bank(choices, feedback);
    // Choice image and feedback image collected, in field order; external skipped.
    assert_eq!(local_image_paths(&bank), ["pic.png", "hint.png"]);
}

#[test]
/// A local image referenced only in an answer is bundled into the package.
fn answer_image_is_bundled() {
    let bank = choice_image_bank(
        vec![("![a](tree.png)", true), ("Neither", false)],
        Feedback::none(),
    );
    assert_eq!(local_image_paths(&bank), ["tree.png"]);
    let images = vec![("tree.png".to_owned(), vec![9_u8, 9, 9])];
    let bytes = to_qti(&bank, &images).expect("export");
    let archive = zip::ZipArchive::new(Cursor::new(bytes)).expect("valid zip");
    assert!(
        archive
            .file_names()
            .any(|name| name == "web_resources/tree.png")
    );
}

#[test]
/// A local image embedded in an ordering item is collected for bundling.
fn ordering_item_image_is_collected() {
    let items = vec!["![step](step.png)".to_owned(), "Plain".to_owned()];
    let bank = ordering_bank(items, Feedback::none());
    assert_eq!(local_image_paths(&bank), ["step.png"]);
}

#[test]
/// The same local image in the prompt and a choice is bundled once.
fn duplicate_image_across_fields_dedups() {
    let mut bank = choice_image_bank(
        vec![("![a](same.png)", true), ("No", false)],
        Feedback::none(),
    );
    if let Some(question) = bank.items.first_mut() {
        question.prompt = "See ![p](same.png)".to_owned();
    }
    assert_eq!(local_image_paths(&bank), ["same.png"]);
}

#[test]
/// Matching cells are plain text, so an image in one is not collected.
fn matching_cell_image_not_collected() {
    let matching = Matching {
        pairs: vec![
            MatchPair {
                left: "![x](m.png)".to_owned(),
                right: "one".to_owned(),
            },
            MatchPair {
                left: "b".to_owned(),
                right: "two".to_owned(),
            },
        ],
        distractors: Vec::new(),
    };
    assert!(local_image_paths(&matching_bank(matching, Feedback::none())).is_empty());
}

#[test]
/// A generated-diagram image bundles like any other (the exporter is
/// provenance-agnostic; the CLI supplies the bytes from the diagram pass).
fn generated_diagram_image_is_bundled() {
    let bank = image_bank("![d](generated/mermaid-abc.png)");
    let images = vec![("generated/mermaid-abc.png".to_owned(), vec![1_u8, 2, 3])];
    let bytes = to_qti(&bank, &images).expect("export");
    let archive = zip::ZipArchive::new(Cursor::new(bytes)).expect("valid zip");
    assert!(
        archive
            .file_names()
            .any(|name| name == "web_resources/generated/mermaid-abc.png")
    );
}

#[test]
/// A Graphviz block travels the whole Canvas path: the diagram pass replaces
/// the fence, the item HTML points at the generated image, and its bytes are
/// bundled under `web_resources/`.
fn graphviz_diagram_reaches_canvas_package() {
    let mut bank = image_bank("```dot\ndigraph { a -> b; }\n```");
    let render = |_language: DiagramLanguage, _source: &str| Ok(vec![1_u8, 2, 3]);
    let outcome = render_diagrams(&mut bank.items, &render, DiagramFormat::Png);
    let path = outcome
        .images
        .first()
        .map(|(path, _)| path.clone())
        .expect("one generated image");
    assert!(path.starts_with("generated/graphviz-"));
    let xml = assessment_xml("a", &bank).expect("renders");
    assert!(xml.contains(&format!("$IMS-CC-FILEBASE$/{path}?canvas_download=1")));
    let bytes = to_qti(&bank, &outcome.images).expect("export");
    let archive = zip::ZipArchive::new(Cursor::new(bytes)).expect("valid zip");
    let bundled = format!("web_resources/{path}");
    assert!(archive.file_names().any(|name| name == bundled));
}

#[test]
/// An unrendered Graphviz block still exports: the fence reaches Canvas as a
/// code block instead of an image, and nothing is bundled for it.
fn unrendered_graphviz_block_exports_as_code() {
    let bank = image_bank("```dot\ndigraph { a -> b; }\n```");
    let xml = assessment_xml("a", &bank).expect("renders");
    assert!(xml.contains("language-dot") && xml.contains("digraph"));
    assert!(local_image_paths(&bank).is_empty());
}

#[test]
/// Path percent-encoding keeps `/` but escapes spaces.
fn percent_encode_keeps_slash_escapes_space() {
    assert_eq!(percent_encode_path("a b/c.png"), "a%20b/c.png");
}

#[test]
/// Feedback emits `<itemfeedback>` blocks and wires the display links.
fn feedback_emits_itemfeedback_and_display_links() {
    let mut bank = true_false_bank(true, "Q?");
    if let Some(item) = bank.items.first_mut() {
        item.feedback = Feedback {
            general: Some("Recall the definition.".to_owned()),
            correct: Some("Correct!".to_owned()),
            incorrect: Some("Try again.".to_owned()),
        };
    }
    let xml = assessment_xml("a", &bank).expect("renders");
    assert!(xml.contains(r#"<itemfeedback ident="general_fb">"#));
    assert!(xml.contains(r#"<itemfeedback ident="correct_fb">"#));
    assert!(xml.contains(r#"<itemfeedback ident="incorrect_fb">"#));
    assert!(xml.contains(r#"linkrefid="correct_fb""#));
    assert!(xml.contains(r#"linkrefid="incorrect_fb""#));
    assert!(xml.contains("Correct!"));
    // The wrong choice (false, here) drives the incorrect-feedback arm.
    assert!(xml.contains(r#"<varequal respident="response1">false_choice</varequal>"#));
}

#[test]
/// With no feedback, no feedback markup is emitted at all.
fn absent_feedback_emits_no_markup() {
    let xml = assessment_xml("a", &true_false_bank(true, "Q?")).expect("renders");
    assert!(!xml.contains("<itemfeedback"));
    assert!(!xml.contains("displayfeedback"));
}

#[test]
/// An explicit title is used for the item; absent falls back to the id.
fn item_title_uses_title_then_falls_back_to_id() {
    let mut bank = true_false_bank(true, "Q?");
    let xml = assessment_xml("a", &bank).expect("renders");
    assert!(xml.contains(r#"title="tf-1""#));
    if let Some(item) = bank.items.first_mut() {
        item.title = Some("Sorting basics".to_owned());
    }
    let xml = assessment_xml("a", &bank).expect("renders");
    assert!(xml.contains(r#"title="Sorting basics""#));
}

#[test]
/// With only correct feedback set, only its block and link are emitted.
fn partial_feedback_emits_only_set_fields() {
    let mut bank = true_false_bank(true, "Q?");
    if let Some(item) = bank.items.first_mut() {
        item.feedback = Feedback {
            general: None,
            correct: Some("Correct!".to_owned()),
            incorrect: None,
        };
    }
    let xml = assessment_xml("a", &bank).expect("renders");
    assert!(xml.contains(r#"<itemfeedback ident="correct_fb">"#));
    assert!(!xml.contains(r#"ident="general_fb""#));
    assert!(!xml.contains(r#"ident="incorrect_fb""#));
    assert!(xml.contains(r#"linkrefid="correct_fb""#));
    assert!(!xml.contains(r#"linkrefid="incorrect_fb""#));
}

#[test]
/// General-only feedback emits the always-shown `continue="Yes"` arm alone.
fn general_only_feedback_emits_general_arm() {
    let feedback = Feedback {
        general: Some("Recall the definition.".to_owned()),
        correct: None,
        incorrect: None,
    };
    // No incorrect feedback, so the incorrect conditionvar is unused (empty).
    let xml = resprocessing_xml(&varequal_conditionvar(TRUE_CHOICE_IDENT), "", &feedback);
    assert!(xml.contains(r#"continue="Yes""#));
    assert!(xml.contains("<other/>"));
    assert!(xml.contains(r#"linkrefid="general_fb""#));
    assert!(!xml.contains(r#"linkrefid="correct_fb""#));
    assert!(!xml.contains(r#"linkrefid="incorrect_fb""#));
}

#[test]
/// A false answer attaches correct feedback to the false choice, and the
/// incorrect arm to the true choice.
fn false_answer_swaps_feedback_choices() {
    let mut bank = true_false_bank(false, "Q?");
    if let Some(item) = bank.items.first_mut() {
        item.feedback = Feedback {
            general: None,
            correct: Some("Right.".to_owned()),
            incorrect: Some("Wrong.".to_owned()),
        };
    }
    let xml = assessment_xml("a", &bank).expect("renders");
    // answer == false => correct scores false_choice, incorrect arm hits true.
    assert!(xml.contains(r#"<varequal respident="response1">false_choice</varequal>"#));
    assert!(xml.contains(r#"<varequal respident="response1">true_choice</varequal>"#));
    assert!(xml.contains(r#"linkrefid="correct_fb""#));
    assert!(xml.contains(r#"linkrefid="incorrect_fb""#));
}

#[test]
/// Ordering shuffles options for display (sorted, so not the answer) yet
/// scores the single correct sequence in authored order, all-or-nothing.
fn ordering_renders_shuffled_options_and_correct_order() {
    // Authored (correct) order; sorted display is Alloc, Free, Init, Use.
    let items = ["Alloc", "Init", "Use", "Free"].map(str::to_owned).to_vec();
    let xml = assessment_xml("a", &ordering_bank(items, Feedback::none())).expect("renders");
    assert!(xml.contains("ordering_question"));
    assert!(xml.contains(r#"<response_lid ident="response1" rcardinality="Ordered">"#));
    // Display order is sorted by text: Alloc(0), Free(3), Init(1), Use(2).
    assert!(xml.contains("<fieldentry>answer_0,answer_3,answer_1,answer_2</fieldentry>"));
    // The scoring condition lists options in authored (correct) order.
    assert!(xml.contains(
        "<varequal respident=\"response1\">answer_0</varequal>\n              <varequal respident=\"response1\">answer_1</varequal>\n              <varequal respident=\"response1\">answer_2</varequal>\n              <varequal respident=\"response1\">answer_3</varequal>"
    ));
    assert!(xml.contains(r#"<setvar action="Set" varname="SCORE">100</setvar>"#));
}

#[test]
/// Ordering wires general feedback and XML-escapes option text.
fn ordering_wires_feedback_and_escapes() {
    let items = vec!["a < b".to_owned(), "c & d".to_owned()];
    let feedback = Feedback {
        general: Some("Think about precedence.".to_owned()),
        correct: Some("yes".to_owned()),
        incorrect: Some("no".to_owned()),
    };
    let xml = assessment_xml("a", &ordering_bank(items, feedback)).expect("renders");
    assert!(xml.contains("a &amp;lt; b") && xml.contains("c &amp;amp; d"));
    assert!(!xml.contains("a < b") && !xml.contains("c & d"));
    // General feedback is wired; answer-level feedback is not.
    assert!(xml.contains(r#"<itemfeedback ident="general_fb">"#));
    assert!(!xml.contains(r#"ident="correct_fb""#) && !xml.contains(r#"ident="incorrect_fb""#));
}

/// A one-item bank wrapping an ordering question over `items` (correct order).
fn ordering_bank(items: Vec<String>, feedback: Feedback) -> ItemBank {
    ItemBank {
        name: "M".to_owned(),
        items: vec![Question {
            id: "ord".to_owned(),
            title: None,
            prompt: "Order.".to_owned(),
            points: "1".to_owned(),
            tags: Vec::new(),
            feedback,
            kind: QuestionKind::Ordered(OrderedItems { items }),
        }],
    }
}

#[test]
/// All five predefined entities are escaped, with `&` handled first.
fn escape_xml_encodes_all_specials() {
    assert_eq!(
        escape_xml("<a href=\"x\">&'</a>"),
        "&lt;a href=&quot;x&quot;&gt;&amp;&apos;&lt;/a&gt;"
    );
}

#[test]
/// Non-identifier characters are folded to underscores; empty falls back.
fn sanitize_ident_folds_and_defaults() {
    assert_eq!(sanitize_ident("tf.binary search"), "tf_binary_search");
    assert_eq!(sanitize_ident(""), "id");
}

#[test]
fn even_share_score_matches_float_formatting() {
    for count in [0_usize, 1, 2, 3, 6, 7, 9, 32, 160, 800, 4000, 20000, 65535, 65536, 1_000_000] {
        let divisor = u16::try_from(count).map_or(1.0, f64::from).max(1.0);
        assert_eq!(even_share_score(count), format!("{:.2}", 100.0 / divisor), "count {count}");
    }
}

#[test]
fn manifest_declares_each_bundled_image() {
    let images = vec![("sub/a b.png".to_owned(), vec![1_u8])];
    let xml = manifest_xml("assessment_m", "assessment_m/assessment_m.xml", &images);
    assert!(xml.contains(r#"<resource identifier="res_sub_a_b_png" type="webcontent" href="web_resources/sub/a b.png">"#));
}

#[test]
fn percent_encode_component_escapes_utf8_bytes_and_slash() {
    assert_eq!(percent_encode_component("é/x~"), "%C3%A9%2Fx~");
}

