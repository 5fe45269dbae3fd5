use mdquiz::naming::{bank_name, entropy_seed, is_question_file, looks_like_question, seed_or_entropy, spec_stem};

#[test]
/// Two unseeded runs get different seeds. This is the only thing worth
/// asserting about a reader of ambient state: not *what* it returns, but
/// that it is not a constant.
fn entropy_seed_is_not_a_constant() {
    assert_ne!(entropy_seed(), entropy_seed());
}

#[test]
/// An explicit `--name` overrides the directory-derived default.
fn bank_name_prefers_explicit_override() {
    let name = bank_name("/courses/module01", Some("Final Exam".to_owned()));
    assert_eq!(name, "Final Exam");
}

#[test]
/// With no override the directory's own name becomes the bank name.
fn bank_name_defaults_to_dir_name() {
    assert_eq!(bank_name("/courses/cs3500/module01", None), "module01");
}

#[test]
/// A path with no final component falls back to a fixed label.
fn bank_name_falls_back_when_no_dir_name() {
    assert_eq!(bank_name("/", None), "item-bank");
}

#[test]
/// Output files are named from the spec, and a spec with no stem still
/// gets a name rather than an extension-only file.
fn spec_stem_names_the_output() {
    assert_eq!(spec_stem("out/midterm.yaml"), "midterm");
    assert_eq!(spec_stem("final.yml"), "final");
    assert_eq!(spec_stem(""), "quiz");
}

#[test]
/// A directory is named by its last real component, as `Path` reads it.
fn bank_name_reads_components_like_a_path() {
    assert_eq!(bank_name("courses/module02/", None), "module02");
    assert_eq!(bank_name("courses/module02/.", None), "module02");
    assert_eq!(bank_name("courses/..", None), "item-bank");
    assert_eq!(bank_name(".", None), "item-bank");
    assert_eq!(bank_name("", None), "item-bank");
}

#[test]
/// A stem keeps a leading dot and drops only the last extension.
fn spec_stem_drops_only_the_last_extension() {
    assert_eq!(spec_stem("archive.tar.gz"), "archive.tar");
    assert_eq!(spec_stem(".hidden"), ".hidden");
    assert_eq!(spec_stem("plain"), "plain");
    assert_eq!(spec_stem("dotted."), "dotted");
}

#[test]
/// Only `*.md` files other than a README are candidate questions.
fn question_files_are_markdown_other_than_readme() {
    assert!(is_question_file("q1.md"));
    assert!(is_question_file("notes.v2.md"));
    assert!(!is_question_file("notes.txt"));
    assert!(!is_question_file("README.md"));
    assert!(is_question_file("ReadMe.MD") == false);
    assert!(!is_question_file("readme.md"));
    assert!(!is_question_file(".md"));
    assert!(!is_question_file("q1.MD"));
}

#[test]
/// A question opens with front-matter, after any leading whitespace.
fn questions_open_with_front_matter() {
    assert!(looks_like_question("---\nid: q\n---\n\nQ?"));
    assert!(looks_like_question("\n  ---\nid: q\n---"));
    assert!(!looks_like_question("Just prose, no front-matter"));
    assert!(!looks_like_question("# readme"));
}

#[test]
/// A given seed is used as it is.
fn a_given_seed_is_kept() {
    assert_eq!(seed_or_entropy(Some(42)), 42);
    assert_eq!(seed_or_entropy(Some(0)), 0);
}
