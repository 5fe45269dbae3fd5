use mdquiz::model::{
    blank_markers, ChoiceSet, FillInBlank, MatchPair, Matching, MultipleSelect, OrderedItems,
    QuestionKind, ScoringMode, TrueFalse,
};

#[test]
/// Every kind reports its documented human-readable label.
fn label_names_each_kind() {
    let tf = QuestionKind::TrueFalse(TrueFalse { answer: true });
    let mc = QuestionKind::MultipleChoice(ChoiceSet { choices: Vec::new() });
    let ms = QuestionKind::MultipleSelect(MultipleSelect {
        choices: Vec::new(),
        scoring: ScoringMode::AllOrNothing,
    });
    let fitb = QuestionKind::FillInBlank(FillInBlank { blanks: Vec::new() });
    let matching = QuestionKind::Matching(Matching {
        pairs: Vec::new(),
        distractors: Vec::new(),
    });
    let ordering = QuestionKind::Ordered(OrderedItems { items: Vec::new() });
    let cases = [
        (tf, "true/false"),
        (mc, "multiple choice"),
        (ms, "multiple select"),
        (fitb, "fill in the blank"),
        (matching, "matching"),
        (ordering, "ordering"),
    ];
    for (kind, label) in cases {
        assert_eq!(kind.label(), label);
    }
}

#[test]
/// `options` lists pair answers first then distractors, deduplicated.
fn matching_options_orders_and_dedups() {
    let pair = |right: &str| MatchPair {
        left: "l".to_owned(),
        right: right.to_owned(),
    };
    let matching = Matching {
        pairs: vec![pair("X"), pair("Y"), pair("X")],
        distractors: vec!["Y".to_owned(), "Z".to_owned()],
    };
    assert_eq!(matching.options(), ["X", "Y", "Z"]);
}

#[test]
/// The unsupported-kind error names the target format, kind, and question.
fn unsupported_by_message_names_target_kind_and_id() {
    let err = QuestionKind::Ordered(OrderedItems { items: Vec::new() }).unsupported_by("Canvas", "q7");
    let message = err.message();
    assert!(message.contains("Canvas"));
    assert!(message.contains("ordering"));
    assert!(message.contains("q7"));
}

#[test]
/// Blank markers come back in first-appearance order, trimmed and deduped.
fn blank_markers_are_ordered_and_deduped() {
    assert_eq!(
        blank_markers("a {{one}} b {{two}} c {{one}}"),
        ["one", "two"]
    );
    assert!(blank_markers("no markers here").is_empty());
    assert!(blank_markers("a {{open").is_empty());
    assert!(blank_markers("x {{}} y").is_empty());
    assert!(blank_markers("x {{   }} y").is_empty());
}

#[test]
/// Marker names are trimmed before they are compared.
fn blank_marker_names_are_trimmed() {
    assert_eq!(
        blank_markers("{{ b }} then {{a}} then {{b}} and {{}}"),
        ["b", "a"]
    );
}

#[test]
/// Sorted presentation never hands back the authored order.
fn display_order_rotates_off_the_authored_order() {
    let sorted = OrderedItems {
        items: vec!["Compile".to_owned(), "Link".to_owned(), "Run".to_owned()],
    };
    assert_eq!(sorted.display_order(), [1, 2, 0]);
    let shuffled = OrderedItems {
        items: vec!["Run".to_owned(), "Compile".to_owned(), "Link".to_owned()],
    };
    assert_eq!(shuffled.display_order(), [1, 2, 0]);
    let single = OrderedItems { items: vec!["Only".to_owned()] };
    assert_eq!(single.display_order(), [0]);
}
