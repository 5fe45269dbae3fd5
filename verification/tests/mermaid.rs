use mdquiz::diagram::{render_diagrams, DiagramFormat, DiagramLanguage};
use mdquiz::model::{Choice, ChoiceSet, Feedback, ItemBank, Question, QuestionKind, TrueFalse};


/// A one-question bank whose prompt is `prompt`.
fn bank(prompt: &str) -> ItemBank {
    ItemBank {
        name: "M".to_owned(),
        items: vec![Question {
            id: "q".to_owned(),
            title: None,
            prompt: prompt.to_owned(),
            points: "1".to_owned(),
            tags: Vec::new(),
            feedback: Feedback::none(),
            kind: QuestionKind::TrueFalse(TrueFalse { answer: true }),
        }],
    }
}

/// A renderer returning fixed bytes for any diagram.
fn ok_renderer() -> impl Fn(DiagramLanguage, &str) -> std::result::Result<Vec<u8>, String> {
    |_language, _source| Ok(vec![1, 2, 3])
}

/// The first question's prompt.
fn prompt(bank: &ItemBank) -> &str {
    bank.items.first().map_or("", |q| q.prompt.as_str())
}

#[test]
/// A mermaid block becomes an image reference and yields one bundled image.
fn mermaid_renders_block_to_image_reference() {
    let mut b = bank("Before\n\n```mermaid\ngraph TD; A-->B;\n```\n\nAfter");
    let render = ok_renderer();
    let outcome = render_diagrams(&mut b.items, &render, DiagramFormat::Png);
    assert!(prompt(&b).contains("![diagram](generated/mermaid-"));
    assert!(prompt(&b).contains(".png)") && !prompt(&b).contains("```mermaid"));
    assert_eq!(outcome.images.len(), 1);
    assert!(outcome.warnings.is_empty());
    // The bundle path in the prompt matches the generated image path.
    let path = outcome.images.first().map_or("", |(p, _)| p.as_str());
    assert!(prompt(&b).contains(path));
}

#[test]
/// A non-mermaid fenced block is left untouched.
fn mermaid_leaves_other_code_blocks() {
    let mut b = bank("```rust\nfn main() {}\n```");
    let render = ok_renderer();
    let outcome = render_diagrams(&mut b.items, &render, DiagramFormat::Png);
    assert!(prompt(&b).contains("```rust"));
    assert!(outcome.images.is_empty());
}

#[test]
/// The same diagram twice renders once and bundles a single image.
fn mermaid_deduplicates_identical_diagrams() {
    let mut b = bank("```mermaid\ngraph TD; A-->B;\n```\n\n```mermaid\ngraph TD; A-->B;\n```");
    let render = ok_renderer();
    let outcome = render_diagrams(&mut b.items, &render, DiagramFormat::Png);
    assert_eq!(outcome.images.len(), 1);
    assert_eq!(prompt(&b).matches("![diagram]").count(), 2);
}

#[test]
/// A render failure warns and leaves the block as a code block.
fn mermaid_failure_warns_and_leaves_block() {
    let mut b = bank("```mermaid\nbad\n```");
    let render = |_language: DiagramLanguage, _source: &str| -> std::result::Result<Vec<u8>, String> {
        Err("mmdc not found".to_owned())
    };
    let outcome = render_diagrams(&mut b.items, &render, DiagramFormat::Png);
    assert!(prompt(&b).contains("```mermaid"));
    assert!(outcome.images.is_empty());
    assert_eq!(outcome.warnings.len(), 1);
    let warning = outcome.warnings.first().map_or("", String::as_str);
    assert!(warning.contains("mmdc not found"));
}

/// A one-question multiple-choice bank: first choice `choice`, `general`
/// feedback, and a throwaway second choice.
fn choice_bank(choice: &str, general: &str) -> ItemBank {
    ItemBank {
        name: "M".to_owned(),
        items: vec![Question {
            id: "q".to_owned(),
            title: None,
            prompt: "Pick one.".to_owned(),
            points: "1".to_owned(),
            tags: Vec::new(),
            feedback: Feedback {
                general: Some(general.to_owned()),
                correct: None,
                incorrect: None,
            },
            kind: QuestionKind::MultipleChoice(ChoiceSet {
                choices: vec![
                    Choice {
                        text: choice.to_owned(),
                        correct: true,
                    },
                    Choice {
                        text: "No".to_owned(),
                        correct: false,
                    },
                ],
            }),
        }],
    }
}

#[test]
/// Diagrams render in a choice and in feedback (the non-prompt mutable walk);
/// two distinct diagrams yield two images.
fn mermaid_renders_in_choice_and_feedback() {
    let mut b = choice_bank(
        "```mermaid\ngraph TD; A-->B;\n```",
        "Recall:\n\n```mermaid\ngraph TD; X-->Y;\n```",
    );
    let render = ok_renderer();
    let outcome = render_diagrams(&mut b.items, &render, DiagramFormat::Png);
    let question = b.items.first().expect("question");
    assert!(matches!(
        &question.kind,
        QuestionKind::MultipleChoice(set) if set.choices.first().is_some_and(|c|
            c.text.contains("![diagram](generated/mermaid-") && !c.text.contains("```mermaid"))
    ));
    assert!(
        question
            .feedback
            .general
            .as_deref()
            .is_some_and(|g| g.contains("![diagram](generated/mermaid-"))
    );
    assert_eq!(outcome.images.len(), 2);
}

#[test]
/// A mermaid block delivered through a `file:` partial renders — partials are
/// resolved (in parsing) before the diagram pass walks the bank.
fn mermaid_mermaid_from_partial_renders() {
    let reader = |path: &str| -> std::result::Result<String, String> {
        if path == "p/d.md" {
            Ok("```mermaid\ngraph TD; A-->B;\n```".to_owned())
        } else {
            Err(format!("no {path}"))
        }
    };
    let source = "---\nid: q\nkind: multiple_choice\nchoices:\n\
        \x20 - file: p/d.md\n    correct: true\n  - text: No\n---\n\nPick?\n";
    let mut b = mdquiz::parse::item_bank_from_sources_with(
        "m",
        vec![("q.md".to_owned(), source.to_owned())],
        &reader,
    )
    .expect("bank");
    let renderer = ok_renderer();
    let outcome = render_diagrams(&mut b.items, &renderer, DiagramFormat::Png);
    assert_eq!(outcome.images.len(), 1);
    assert!(matches!(
        b.items.first().map(|q| &q.kind),
        Some(QuestionKind::MultipleChoice(set)) if set.choices.first()
            .is_some_and(|c| c.text.contains("![diagram](generated/mermaid-"))
    ));
}

#[test]
/// A mermaid fence with trailing info (` ```mermaid theme=… `) still renders.
fn mermaid_mermaid_with_trailing_info_renders() {
    let mut b = bank("```mermaid theme=default\ngraph TD; A-->B;\n```");
    let render = ok_renderer();
    let outcome = render_diagrams(&mut b.items, &render, DiagramFormat::Png);
    assert_eq!(outcome.images.len(), 1);
}

#[test]
/// SVG format uses the `.svg` extension in the generated path.
fn mermaid_svg_format_uses_svg_extension() {
    let mut b = bank("```mermaid\ngraph TD; A-->B;\n```");
    let render = ok_renderer();
    let outcome = render_diagrams(&mut b.items, &render, DiagramFormat::Svg);
    let path = outcome.images.first().map_or("", |(p, _)| p.as_str());
    assert!(path.contains(".svg"));
    assert!(prompt(&b).contains(".svg)"));
}
