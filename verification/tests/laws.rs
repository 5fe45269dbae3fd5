use mdquiz::export::canvas::even_share_score;
use mdquiz::export::docx::inline::text_run;
use mdquiz::export::docx::media::{fit, part_name, relationship_id, Extent, MAX_HEIGHT, MAX_WIDTH};
use mdquiz::export::docx::numbering::id_of;
use mdquiz::export::docx::{answer_space, footer_runs, placeholder_run, MAX_ANSWER_TWIPS};
use mdquiz::export::escape_xml;
use mdquiz::label::sequence;
use mdquiz::parse::rebase_images;
use mdquiz::path::{escapes_dir, join_dir, nests, parent_dir};
use mdquiz::quiz::{Exam, Layout};

/// An exam with nothing in it but a name and a variant.
fn bare_exam() -> Exam {
    Exam {
        name: "Midterm".to_owned(),
        variant: Some("B".to_owned()),
        header: None,
        footer: None,
        layout: Layout::default(),
        items: Vec::new(),
        images: Vec::new(),
        mathml: Vec::new(),
    }
}

#[test]
/// Escaped text holds no character that opens or closes markup.
fn escaped_text_holds_no_markup_characters() {
    let escaped = escape_xml("<a href=\"x\" title='y'>Tom & Jerry</a>");
    for forbidden in ['<', '>', '"', '\''] {
        assert!(!escaped.contains(forbidden), "{escaped}");
    }
    assert_eq!(escaped, "&lt;a href=&quot;x&quot; title=&apos;y&apos;&gt;Tom &amp; Jerry&lt;/a&gt;");
}

#[test]
/// Answer space is capped at the column and exact below the cap.
fn answer_space_never_outgrows_the_column() {
    assert!(answer_space(41).contains(&format!("w:line=\"{MAX_ANSWER_TWIPS}\"")));
    assert!(answer_space(40).contains("w:line=\"12800\""));
    assert!(answer_space(1).contains("w:line=\"320\""));
}

#[test]
/// A footer with no placeholder is printed exactly as written.
fn a_plain_footer_is_one_text_run() {
    let exam = bare_exam();
    assert_eq!(footer_runs("Good luck!", &exam), text_run("Good luck!"));
    assert_eq!(footer_runs("", &exam), "");
}

#[test]
/// An unknown placeholder prints nothing; known ones print their value.
fn an_unknown_placeholder_prints_nothing_at_all() {
    let exam = bare_exam();
    assert_eq!(placeholder_run("bogus", &exam), "");
    assert_eq!(placeholder_run("variant", &exam), text_run("B"));
    assert_eq!(footer_runs("A${ bogus }B", &exam), format!("{}{}", text_run("A"), text_run("B")));
}

#[test]
/// A file joined into a directory has that directory as its parent.
fn a_joined_file_has_its_directory_as_parent() {
    assert_eq!(parent_dir(&join_dir("topics", "q1.md")), "topics");
    assert_eq!(parent_dir(&join_dir("topics/trees//", "q1.md")), "topics/trees");
    assert_eq!(parent_dir(&join_dir(".", "q1.md")), "");
    assert_eq!(parent_dir(&join_dir("", "q1.md")), "");
}

#[test]
/// Nesting reads the same whichever folder is named first.
fn nesting_is_the_same_either_way_round() {
    for (one, other) in [("topics", "topics/trees"), ("./a", "a//b"), ("a", "b"), ("x/y", "x")] {
        assert_eq!(nests(one, other), nests(other, one), "{one} {other}");
        assert!(nests(one, one));
    }
}

#[test]
/// Rebasing moves local images only.
fn rebasing_leaves_external_images_alone() {
    let rebased = rebase_images("![a](x.png) ![b](https://h/y.png) ![c](/abs.png) ![d](data:x)", "sub");
    assert_eq!(rebased, "![a](sub/x.png) ![b](https://h/y.png) ![c](/abs.png) ![d](data:x)");
}

#[test]
/// Even shares add up to full credit within the rounding of each share.
fn even_shares_add_up_to_full_credit() {
    for count in 1..=200_usize {
        let share = even_share_score(count);
        let (whole, frac) = share.split_once('.').expect("two decimals");
        let hundredths: usize = whole.parse::<usize>().expect("digits") * 100 + frac.parse::<usize>().expect("digits");
        let total = hundredths * count;
        assert!(2 * total <= 20000 + count, "{count}: {share}");
        assert!(20000 <= 2 * total + count, "{count}: {share}");
    }
    assert_eq!(even_share_score(3), "33.33");
    assert_eq!(even_share_score(1), "100.00");
}

#[test]
/// Labels never repeat.
fn labels_never_repeat() {
    let labels: Vec<String> = (0..300).map(sequence).collect();
    for (i, a) in labels.iter().enumerate() {
        for b in labels.iter().skip(i + 1) {
            assert_ne!(a, b);
        }
    }
}

#[test]
/// Every picture slot has a part and a relationship of its own.
fn pictures_never_share_a_part_or_a_relationship() {
    let names: Vec<String> = (0..50).map(part_name).collect();
    let ids: Vec<String> = (0..50).map(relationship_id).collect();
    for i in 0..50 {
        for j in (i + 1)..50 {
            assert_ne!(names[i], names[j]);
            assert_ne!(ids[i], ids[j]);
        }
    }
    assert_eq!(part_name(0), "image1.png");
    assert_eq!(relationship_id(9), "rIdImage10");
}

#[test]
/// A fitted picture always fits and is never drawn at zero size.
fn a_fitted_picture_always_fits() {
    for size in [
        Extent { cx: u64::MAX, cy: 1 },
        Extent { cx: 1, cy: u64::MAX },
        Extent { cx: 0, cy: 0 },
        Extent { cx: MAX_WIDTH * 2, cy: MAX_HEIGHT * 3 },
        Extent { cx: 100, cy: 200 },
    ] {
        let fitted = fit(size);
        assert!(fitted.cx >= 1 && fitted.cx <= MAX_WIDTH, "{fitted:?}");
        assert!(fitted.cy >= 1 && fitted.cy <= MAX_HEIGHT, "{fitted:?}");
    }
    let small = Extent { cx: 100, cy: 200 };
    assert_eq!(fit(small), small);
}

#[test]
/// Distinct lists get distinct counters.
fn lists_get_counters_of_their_own() {
    for i in 0..100_usize {
        assert!(id_of(i) >= 1);
        for j in (i + 1)..100 {
            assert_ne!(id_of(i), id_of(j));
        }
    }
}

#[test]
/// A path that does not escape stays under whatever folder it is joined to.
fn a_path_that_does_not_escape_stays_under_its_base() {
    for path in ["a/b.md", "./img/x.png", "a//b/./c"] {
        assert!(!escapes_dir(path));
        assert!(std::path::Path::new("/bank/topic").join(path).starts_with("/bank/topic"));
    }
    for path in ["../x.md", "/etc/passwd", "a/../../b"] {
        assert!(escapes_dir(path));
    }
}
