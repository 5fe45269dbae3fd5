//! Crate-wide error type. The library never panics on bad input; every
//! fallible operation returns [`Result`].
use vstd::prelude::*;

use crate::text::{extend_str, string_from_chars};

verus! {

/// What `{:?}` prints for a string: the text quoted, with `"`, `\` and
/// control characters escaped, as `<str as Debug>::fmt` writes it.
pub uninterp spec fn debug_str(text: Seq<char>) -> Seq<char>;

/// The `Debug` rendering of `text`, quoted and escaped.
///
/// Calls `<str as Debug>::fmt` through `format!`. The contract names the
/// result and claims nothing more of it: it is a function of the text alone.
#[verifier::external_body]
pub fn debug_quoted(text: &str) -> (res: String)
    ensures
        res@ == debug_str(text@),
{
    format!("{text:?}")
}

/// All the ways an `mdquiz` operation can fail.
#[derive(Debug)]
pub enum Error {
    /// The Markdown/YAML source could not be parsed into a question.
    Parse(String),
    /// A specific question file in a bank failed to parse.
    QuestionFile {
        /// The offending file's name.
        file: String,
        /// The underlying failure, rendered.
        message: String,
    },
    /// A quiz spec (the YAML blueprint) was invalid.
    Spec {
        /// Where the problem is.
        at: String,
        /// The underlying failure, rendered.
        message: String,
    },
    /// A question was structurally valid but semantically incomplete.
    InvalidQuestion(String),
    /// Math that cannot be put on paper faithfully.
    UnsupportedMath {
        /// The offending LaTeX, as the author wrote it.
        latex: String,
        /// Why it cannot be rendered.
        reason: String,
    },
    /// An export target could not represent the quiz as given.
    Export(String),
    /// An underlying I/O operation failed, rendered.
    Io(String),
    /// The embedded YAML block could not be deserialized, rendered.
    Yaml(String),
}

/// Convenience alias for results produced across the crate.
pub type Result<T> = std::result::Result<T, Error>;

/// The message an [`Error`] displays.
pub open spec fn error_message_spec(error: Error) -> Seq<char> {
    match error {
        Error::Parse(m) => "failed to parse quiz source: "@ + m@,
        Error::QuestionFile { file, message } => "in question file "@ + file@ + ": "@ + message@,
        Error::Spec { at, message } => "invalid quiz spec at "@ + at@ + ": "@ + message@,
        Error::InvalidQuestion(m) => "invalid question: "@ + m@,
        Error::UnsupportedMath { latex, reason } => "cannot render math "@ + debug_str(latex@)
            + ": "@ + reason@,
        Error::Export(m) => "failed to export quiz: "@ + m@,
        Error::Io(m) => "i/o error: "@ + m@,
        Error::Yaml(m) => "yaml error: "@ + m@,
    }
}

impl Error {
    /// The human-readable message for this error.
    pub fn message(&self) -> (res: String)
        ensures
            res@ == error_message_spec(*self),
    {
        let mut out: Vec<char> = Vec::new();
        match self {
            Error::Parse(m) => {
                extend_str(&mut out, "failed to parse quiz source: ");
                extend_str(&mut out, m.as_str());
            },
            Error::QuestionFile { file, message } => {
                extend_str(&mut out, "in question file ");
                extend_str(&mut out, file.as_str());
                extend_str(&mut out, ": ");
                extend_str(&mut out, message.as_str());
            },
            Error::Spec { at, message } => {
                extend_str(&mut out, "invalid quiz spec at ");
                extend_str(&mut out, at.as_str());
                extend_str(&mut out, ": ");
                extend_str(&mut out, message.as_str());
            },
            Error::InvalidQuestion(m) => {
                extend_str(&mut out, "invalid question: ");
                extend_str(&mut out, m.as_str());
            },
            Error::UnsupportedMath { latex, reason } => {
                extend_str(&mut out, "cannot render math ");
                let quoted = debug_quoted(latex.as_str());
                extend_str(&mut out, quoted.as_str());
                extend_str(&mut out, ": ");
                extend_str(&mut out, reason.as_str());
            },
            Error::Export(m) => {
                extend_str(&mut out, "failed to export quiz: ");
                extend_str(&mut out, m.as_str());
            },
            Error::Io(m) => {
                extend_str(&mut out, "i/o error: ");
                extend_str(&mut out, m.as_str());
            },
            Error::Yaml(m) => {
                extend_str(&mut out, "yaml error: ");
                extend_str(&mut out, m.as_str());
            },
        }
        assert(out@ =~= error_message_spec(*self));
        string_from_chars(&out)
    }
}

} // verus!
