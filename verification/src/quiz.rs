//! A printed exam: the questions drawn for one sheet, and how the sheet is
//! laid out.
use crate::model::Question;
use crate::text::{extend_str, str_eq, string_from_chars};
use vstd::prelude::*;

verus! {

/// Where a page-footer placeholder opens: `${`.
pub const TEMPLATE_OPEN: &'static str = "${";

/// Where a page-footer placeholder closes: `}`.
pub const TEMPLATE_CLOSE: &'static str = "}";

/// The placeholders a page-footer template may name.
#[derive(Debug, Clone, Copy, PartialEq, Eq, Structural)]
pub enum TemplateKey {
    /// `${name}`: the exam's name.
    Name,
    /// `${variant}`: the variant letter, or nothing.
    Variant,
    /// `${page}`: the current page, a field Word evaluates per page.
    Page,
    /// `${pages}`: the page count, a field too.
    Pages,
}

/// The placeholder `key` names, if it names one.
pub open spec fn template_key_spec(key: Seq<char>) -> Option<TemplateKey> {
    if key == "name"@ {
        Some(TemplateKey::Name)
    } else if key == "variant"@ {
        Some(TemplateKey::Variant)
    } else if key == "page"@ {
        Some(TemplateKey::Page)
    } else if key == "pages"@ {
        Some(TemplateKey::Pages)
    } else {
        None
    }
}

impl TemplateKey {
    /// The placeholder `key` names, if it names one; keys are exact and
    /// lower-case.
    pub fn parse(key: &str) -> (res: Option<TemplateKey>)
        ensures
            res == template_key_spec(key@),
    {
        if str_eq(key, "name") {
            Some(TemplateKey::Name)
        } else if str_eq(key, "variant") {
            Some(TemplateKey::Variant)
        } else if str_eq(key, "page") {
            Some(TemplateKey::Page)
        } else if str_eq(key, "pages") {
            Some(TemplateKey::Pages)
        } else {
            None
        }
    }
}

/// How an exam is laid out on the page.
#[derive(Debug, Clone)]
pub struct Layout {
    /// The page-footer template (`${name}`, `${variant}`, `${page}`,
    /// `${pages}`), or none.
    pub page_footer: Option<String>,
    /// Whether each question after the first starts a new page.
    pub page_break_between: bool,
}

impl Default for Layout {
    fn default() -> (res: Self)
        ensures
            res.page_footer is None,
            !res.page_break_between,
    {
        Layout { page_footer: None, page_break_between: false }
    }
}

/// One question on a sheet, with the lines of answer space under it.
#[derive(Debug, Clone)]
pub struct ExamItem {
    pub question: Question,
    pub answer_space: usize,
}

/// One printed sheet: its name and variant, prose around the questions,
/// layout, the questions, and what its prompts reference (image bytes, and
/// the MathML each LaTeX expression converts to).
#[derive(Debug, Clone)]
pub struct Exam {
    pub name: String,
    pub variant: Option<String>,
    pub header: Option<String>,
    pub footer: Option<String>,
    pub layout: Layout,
    pub items: Vec<ExamItem>,
    pub images: Vec<(String, Vec<u8>)>,
    pub mathml: Vec<(String, String)>,
}

/// The title a sheet prints: its name, and its variant in brackets.
pub open spec fn title_spec(name: Seq<char>, variant: Option<String>) -> Seq<char> {
    match variant {
        Some(v) => name + " ("@ + v@ + ")"@,
        None => name,
    }
}

impl Exam {
    /// The title the sheet prints: the name, with the variant in brackets
    /// so a student holding form B can see that it is form B.
    pub fn title(&self) -> (res: String)
        ensures
            res@ == title_spec(self.name@, self.variant),
    {
        let mut out: Vec<char> = Vec::new();
        extend_str(&mut out, self.name.as_str());
        match &self.variant {
            Some(v) => {
                extend_str(&mut out, " (");
                extend_str(&mut out, v.as_str());
                extend_str(&mut out, ")");
            },
            None => {},
        }
        assert(out@ =~= title_spec(self.name@, self.variant));
        string_from_chars(&out)
    }
}

} // verus!
