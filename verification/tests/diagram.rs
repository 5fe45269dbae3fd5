use mdquiz::diagram::{is_generated_path, DiagramFormat, DiagramLanguage};

#[test]
fn from_info_maps_known_fences_only() {
    for (info, expected) in [
        ("mermaid", Some(DiagramLanguage::Mermaid)),
        ("mermaid theme=default", Some(DiagramLanguage::Mermaid)),
        ("dot", Some(DiagramLanguage::Graphviz)),
        ("graphviz", Some(DiagramLanguage::Graphviz)),
        ("  dot  ", Some(DiagramLanguage::Graphviz)),
        ("", None),
        ("   ", None),
        ("rust", None),
        ("dotnet", None),
        ("graphql", None),
        ("DOT", None),
        ("Mermaid", None),
    ] {
        assert_eq!(DiagramLanguage::from_info(info), expected, "info {info:?}");
    }
}

#[test]
fn language_name_round_trips_through_from_info() {
    for language in [DiagramLanguage::Mermaid, DiagramLanguage::Graphviz] {
        assert_eq!(DiagramLanguage::from_info(language.name()), Some(language));
    }
}

#[test]
fn languages_have_distinct_names_and_source_extensions() {
    let mermaid = DiagramLanguage::Mermaid;
    let graphviz = DiagramLanguage::Graphviz;
    assert_ne!(mermaid.name(), graphviz.name());
    assert_ne!(mermaid.source_extension(), graphviz.source_extension());
    assert_ne!(mermaid.source_extension(), "md");
}

#[test]
fn generated_paths_are_recognised_by_their_first_segment() {
    assert!(is_generated_path("generated/mermaid-00.png"));
    assert!(is_generated_path("generated"));
    assert!(!is_generated_path("images/generated/x.png"));
    assert!(!is_generated_path("generatedx/a.png"));
    assert!(!is_generated_path(""));
}

#[test]
fn formats_name_their_extensions() {
    assert_eq!(DiagramFormat::Png.extension(), "png");
    assert_eq!(DiagramFormat::Svg.extension(), "svg");
    assert_eq!(DiagramLanguage::Mermaid.source_extension(), "mmd");
    assert_eq!(DiagramLanguage::Graphviz.source_extension(), "dot");
}

use mdquiz::diagram::render_diagrams;
use mdquiz::model::{Choice, ChoiceSet, Feedback, ItemBank, Question, QuestionKind, TrueFalse};

fn question(id: &str, prompt: &str) -> Question {
    Question {
        id: id.to_owned(),
        title: None,
        prompt: prompt.to_owned(),
        points: "1".to_owned(),
        tags: Vec::new(),
        feedback: Feedback::none(),
        kind: QuestionKind::TrueFalse(TrueFalse { answer: true }),
    }
}

fn bank(prompt: &str) -> ItemBank {
    ItemBank { name: "M".to_owned(), items: vec![question("q", prompt)] }
}

fn ok_renderer() -> impl Fn(DiagramLanguage, &str) -> Result<Vec<u8>, String> {
    |_language, _source| Ok(vec![1, 2, 3])
}

fn prompt(bank: &ItemBank) -> &str {
    bank.items.first().map_or("", |q| q.prompt.as_str())
}

#[test]
fn diagram_renders_block_to_image_reference() {
    let mut b = bank("Before\n\n```mermaid\ngraph TD; A-->B;\n```\n\nAfter");
    let render = ok_renderer();
    let outcome = render_diagrams(&mut b.items, &render, DiagramFormat::Png);
    assert!(prompt(&b).contains("![diagram](generated/mermaid-"));
    assert!(prompt(&b).contains(".png)") && !prompt(&b).contains("```mermaid"));
    assert_eq!(outcome.images.len(), 1);
    assert!(outcome.warnings.is_empty());
    let path = outcome.images.first().map_or("", |(p, _)| p.as_str());
    assert!(prompt(&b).contains(path));
    assert!(prompt(&b).starts_with("Before\n\n![diagram]("));
    assert!(prompt(&b).ends_with(")\n\nAfter"));
}

#[test]
fn diagram_leaves_other_code_blocks() {
    let mut b = bank("```rust\nfn main() {}\n```");
    let render = ok_renderer();
    let outcome = render_diagrams(&mut b.items, &render, DiagramFormat::Png);
    assert!(prompt(&b).contains("```rust"));
    assert!(outcome.images.is_empty());
}

#[test]
fn diagram_deduplicates_identical_diagrams() {
    let mut b = bank("```mermaid\ngraph TD; A-->B;\n```\n\n```mermaid\ngraph TD; A-->B;\n```");
    let render = ok_renderer();
    let outcome = render_diagrams(&mut b.items, &render, DiagramFormat::Png);
    assert_eq!(outcome.images.len(), 1);
    assert_eq!(prompt(&b).matches("![diagram]").count(), 2);
}

#[test]
fn diagram_failure_warns_and_leaves_block() {
    let mut b = bank("```mermaid\nbad\n```");
    let render = |_language: DiagramLanguage, _source: &str| Err("mmdc not found".to_owned());
    let outcome = render_diagrams(&mut b.items, &render, DiagramFormat::Png);
    assert!(prompt(&b).contains("```mermaid"));
    assert!(outcome.images.is_empty());
    assert_eq!(outcome.warnings.len(), 1);
    let warning = outcome.warnings.first().map_or("", String::as_str);
    assert!(warning.contains("mmdc not found") && warning.contains("mermaid diagram"));
    assert_eq!(warning, "question \"q\": mermaid diagram left as code (mmdc not found)");
}

#[test]
fn diagram_renders_in_choice_and_feedback() {
    let mut b = ItemBank {
        name: "M".to_owned(),
        items: vec![Question {
            id: "q".to_owned(),
            title: None,
            prompt: "Pick one.".to_owned(),
            points: "1".to_owned(),
            tags: Vec::new(),
            feedback: Feedback {
                general: Some("Recall:\n\n```mermaid\ngraph TD; X-->Y;\n```".to_owned()),
                correct: None,
                incorrect: None,
            },
            kind: QuestionKind::MultipleChoice(ChoiceSet {
                choices: vec![
                    Choice { text: "```mermaid\ngraph TD; A-->B;\n```".to_owned(), correct: true },
                    Choice { text: "No".to_owned(), correct: false },
                ],
            }),
        }],
    };
    let render = ok_renderer();
    let outcome = render_diagrams(&mut b.items, &render, DiagramFormat::Png);
    let question = b.items.first().expect("question");
    assert!(matches!(
        &question.kind,
        QuestionKind::MultipleChoice(set) if set.choices.first().is_some_and(|c|
            c.text.contains("![diagram](generated/mermaid-") && !c.text.contains("```mermaid"))
    ));
    assert!(question
        .feedback
        .general
        .as_deref()
        .is_some_and(|g| g.contains("![diagram](generated/mermaid-")));
    assert_eq!(outcome.images.len(), 2);
}

#[test]
/// A mermaid block delivered through a `file:` partial renders — partials are
/// resolved (in parsing) before the diagram pass walks the bank.
fn diagram_mermaid_from_partial_renders() {
    let reader = |path: &str| -> std::result::Result<String, String> {
        if path == "p/d.md" {
            Ok("```mermaid\ngraph TD; A-->B;\n```".to_owned())
        } else {
            Err(format!("no {path}"))
        }
    };
    let source = "---\nid: q\nkind: multiple_choice\nchoices:\n\
        \x20 - file: p/d.md\n    correct: true\n  - text: No\n---\n\nPick?\n";
    let mut b = mdquiz::parse::item_bank_from_sources_with(
        "m",
        vec![("q.md".to_owned(), source.to_owned())],
        &reader,
    )
    .expect("bank");
    let renderer = ok_renderer();
    let outcome = render_diagrams(&mut b.items, &renderer, DiagramFormat::Png);
    assert_eq!(outcome.images.len(), 1);
    assert!(matches!(
        b.items.first().map(|q| &q.kind),
        Some(QuestionKind::MultipleChoice(set)) if set.choices.first()
            .is_some_and(|c| c.text.contains("![diagram](generated/mermaid-"))
    ));
}

#[test]
fn diagram_mermaid_with_trailing_info_renders() {
    let mut b = bank("```mermaid theme=default\ngraph TD; A-->B;\n```");
    let render = ok_renderer();
    let outcome = render_diagrams(&mut b.items, &render, DiagramFormat::Png);
    assert_eq!(outcome.images.len(), 1);
}

#[test]
fn diagram_svg_format_uses_svg_extension() {
    let mut b = bank("```mermaid\ngraph TD; A-->B;\n```");
    let render = ok_renderer();
    let outcome = render_diagrams(&mut b.items, &render, DiagramFormat::Svg);
    let path = outcome.images.first().map_or("", |(p, _)| p.as_str());
    assert!(path.contains(".svg"));
    assert!(prompt(&b).contains(".svg)"));
}

#[test]
fn renders_graphviz_fences() {
    for fence in ["dot", "graphviz"] {
        let mut b = bank(&format!("```{fence}\ndigraph {{ a -> b; }}\n```"));
        let render = ok_renderer();
        let outcome = render_diagrams(&mut b.items, &render, DiagramFormat::Png);
        assert_eq!(outcome.images.len(), 1);
        assert!(prompt(&b).contains("![diagram](generated/graphviz-"));
        assert!(!prompt(&b).contains("```"));
    }
}

#[test]
fn passes_language_to_renderer() {
    let seen = std::cell::RefCell::new(Vec::new());
    let render = |language: DiagramLanguage, _source: &str| {
        seen.borrow_mut().push(language);
        Ok(vec![1])
    };
    let mut b = bank("```mermaid\ngraph TD; A-->B;\n```\n\n```dot\ndigraph { a -> b; }\n```");
    let outcome = render_diagrams(&mut b.items, &render, DiagramFormat::Png);
    assert_eq!(outcome.images.len(), 2);
    let mut languages = seen.into_inner();
    languages.sort_by_key(|l| l.name());
    assert_eq!(languages, [DiagramLanguage::Graphviz, DiagramLanguage::Mermaid]);
}

#[test]
fn languages_do_not_share_generated_paths() {
    let mut b = bank("```mermaid\nsame\n```\n\n```dot\nsame\n```");
    let render = ok_renderer();
    let outcome = render_diagrams(&mut b.items, &render, DiagramFormat::Png);
    assert_eq!(outcome.images.len(), 2);
    assert!(prompt(&b).contains("generated/mermaid-"));
    assert!(prompt(&b).contains("generated/graphviz-"));
}

#[test]
fn deduplicates_identical_diagrams_across_questions() {
    let block = "```dot\ndigraph { a -> b; }\n```";
    let mut b = ItemBank {
        name: "M".to_owned(),
        items: vec![question("q1", block), question("q2", block)],
    };
    let render = ok_renderer();
    let outcome = render_diagrams(&mut b.items, &render, DiagramFormat::Png);
    assert_eq!(outcome.images.len(), 1);
    let path = outcome.images.first().map_or("", |(p, _)| p.as_str());
    assert!(b.items.iter().all(|q| q.prompt.contains(path)));
}

#[test]
fn questions_are_walked_in_order() {
    let mut b = ItemBank {
        name: "M".to_owned(),
        items: vec![
            question("q1", "```mermaid\ngraph TD; A-->B;\n```"),
            question("q2", "```dot\ndigraph { a -> b; }\n```"),
        ],
    };
    let render = ok_renderer();
    let outcome = render_diagrams(&mut b.items, &render, DiagramFormat::Png);
    let paths: Vec<&str> = outcome.images.iter().map(|(p, _)| p.as_str()).collect();
    assert_eq!(paths.len(), 2);
    assert!(paths.first().is_some_and(|p| p.contains("mermaid-")));
    assert!(paths.get(1).is_some_and(|p| p.contains("graphviz-")));
    let empty = render_diagrams(&mut Vec::new(), &render, DiagramFormat::Png);
    assert!(empty.images.is_empty() && empty.warnings.is_empty());
}

#[test]
fn failed_block_leaves_sibling_renders_intact() {
    let mut b = bank(
        "```mermaid\ngraph TD; A-->B;\n```\n\n```dot\ndigraph { a -> b; }\n```\n\n\
         ```mermaid\ngraph TD; X-->Y;\n```\n\nEnd",
    );
    let render = |language: DiagramLanguage, _source: &str| match language {
        DiagramLanguage::Mermaid => Ok(vec![1, 2, 3]),
        DiagramLanguage::Graphviz => Err("dot not found".to_owned()),
    };
    let outcome = render_diagrams(&mut b.items, &render, DiagramFormat::Png);
    assert_eq!(outcome.images.len(), 2);
    assert_eq!(prompt(&b).matches("![diagram](generated/mermaid-").count(), 2);
    assert!(prompt(&b).contains("```dot\ndigraph { a -> b; }\n```"));
    assert!(prompt(&b).ends_with("End"));
    assert_eq!(outcome.warnings.len(), 1);
    let warning = outcome.warnings.first().map_or("", String::as_str);
    assert!(warning.contains("question \"q\"") && warning.contains("graphviz diagram"));
}

#[test]
fn repeated_failures_warn_once_per_occurrence() {
    let mut b = bank("```dot\nsame\n```\n\n```dot\nsame\n```");
    let render = |_language: DiagramLanguage, _source: &str| Err("dot not found".to_owned());
    let outcome = render_diagrams(&mut b.items, &render, DiagramFormat::Png);
    assert!(outcome.images.is_empty());
    assert_eq!(outcome.warnings.len(), 2);
}

#[test]
fn unlabelled_fence_is_not_a_diagram() {
    let mut b = bank("```\ndigraph { a -> b; }\n```\n\n```dot\ndigraph { a -> b; }\n```");
    let render = ok_renderer();
    let outcome = render_diagrams(&mut b.items, &render, DiagramFormat::Png);
    assert_eq!(outcome.images.len(), 1);
    assert!(prompt(&b).contains("```\ndigraph { a -> b; }\n```"));
}

#[test]
fn generated_path_is_sixteen_hex_digits_of_the_trimmed_source() {
    let a = mdquiz::diagram::generated_path(DiagramLanguage::Mermaid, "  graph  \n", DiagramFormat::Png);
    let b = mdquiz::diagram::generated_path(DiagramLanguage::Mermaid, "graph", DiagramFormat::Png);
    assert_eq!(a, b);
    let hex = a.trim_start_matches("generated/mermaid-").trim_end_matches(".png");
    assert_eq!(hex.len(), 16);
    assert!(hex.chars().all(|c| c.is_ascii_hexdigit() && !c.is_ascii_uppercase()));
}

#[test]
/// The renderer is asked once per distinct diagram, with the fence's
/// language and trimmed source, and what it returns is what gets bundled.
fn the_renderer_sees_each_distinct_fence_once_trimmed() {
    let mut b = bank("```mermaid\n  graph TD; A-->B;  \n```\n\n```dot\ndigraph { a -> b }\n```\n\n```mermaid\ngraph TD; A-->B;\n```\n");
    let calls = std::cell::RefCell::new(Vec::new());
    let render = |language: DiagramLanguage, source: &str| -> Result<Vec<u8>, String> {
        calls.borrow_mut().push((language, source.to_owned()));
        Ok(source.as_bytes().to_vec())
    };
    let outcome = render_diagrams(&mut b.items, &render, DiagramFormat::Svg);
    let seen = calls.borrow();
    assert_eq!(seen.len(), 2);
    assert!(matches!(seen[0].0, DiagramLanguage::Mermaid));
    assert_eq!(seen[0].1, "graph TD; A-->B;");
    assert!(matches!(seen[1].0, DiagramLanguage::Graphviz));
    assert_eq!(seen[1].1, "digraph { a -> b }");
    assert_eq!(outcome.images.len(), 2);
    assert_eq!(outcome.images[0].1, b"graph TD; A-->B;".to_vec());
    assert_eq!(outcome.images[1].1, b"digraph { a -> b }".to_vec());
    assert!(outcome.warnings.is_empty());
}
