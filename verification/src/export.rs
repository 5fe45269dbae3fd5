//! Export quiz content to a distribution format: the print sheet
//! ([`markdown`]), the Canvas QTI package ([`canvas`]) and the Word exam
//! ([`docx`]). Two of the three are zipped XML, so the XML escaping they share
//! lives here.
use vstd::prelude::*;

use crate::error::Error;
use crate::text::{extend_str, str_chars, string_from_chars};
use std::io::{Cursor, Write};
use zip::write::SimpleFileOptions;
use zip::ZipWriter;

pub mod canvas;
pub mod docx;
pub mod markdown;

verus! {

/// Whether `ch` can appear in an XML 1.0 document at all.
///
/// Tab, newline and carriage return are the only control characters allowed;
/// `U+FFFE` and `U+FFFF` are permanently unassigned non-characters.
pub open spec fn xml_char_spec(ch: char) -> bool {
    let u = ch as u32;
    u == 9 || u == 10 || u == 13 || (0x20 <= u <= 0xD7FF) || (0xE000 <= u <= 0xFFFD) || u
        >= 0x10000
}

/// What one character of authored text becomes inside XML.
pub open spec fn escape_char_spec(ch: char) -> Seq<char> {
    if !xml_char_spec(ch) {
        Seq::empty()
    } else if ch == '&' {
        "&amp;"@
    } else if ch == '<' {
        "&lt;"@
    } else if ch == '>' {
        "&gt;"@
    } else if ch == '"' {
        "&quot;"@
    } else if ch == '\'' {
        "&apos;"@
    } else {
        seq![ch]
    }
}

/// `text` escaped for an XML text node or attribute value: the five
/// predefined entities escaped, characters XML cannot represent dropped.
pub open spec fn escape_xml_spec(text: Seq<char>) -> Seq<char>
    decreases text.len(),
{
    if text.len() == 0 {
        Seq::empty()
    } else {
        escape_xml_spec(text.drop_last()) + escape_char_spec(text.last())
    }
}

/// Whether `ch` could open or close markup, or end an attribute value.
pub open spec fn is_markup_char(ch: char) -> bool {
    ch == '<' || ch == '>' || ch == '"' || ch == '\''
}

/// Authored text, once escaped, holds no character that could open or
/// close markup or end an attribute value, so a prompt containing markup
/// cannot corrupt the document it is written into.
pub proof fn escaped_text_holds_no_markup(text: Seq<char>)
    ensures
        forall|i: int| 0 <= i < escape_xml_spec(text).len() ==> !is_markup_char(#[trigger] escape_xml_spec(text)[i]),
    decreases text.len(),
{
    reveal_strlit("&amp;");
    reveal_strlit("&lt;");
    reveal_strlit("&gt;");
    reveal_strlit("&quot;");
    reveal_strlit("&apos;");
    if text.len() > 0 {
        escaped_text_holds_no_markup(text.drop_last());
        let done = escape_xml_spec(text.drop_last());
        let tail = escape_char_spec(text.last());
        assert forall|i: int| 0 <= i < escape_xml_spec(text).len() implies !is_markup_char(#[trigger] escape_xml_spec(text)[i]) by {
            if i < done.len() {
                assert(escape_xml_spec(text)[i] == done[i]);
            } else {
                assert(escape_xml_spec(text)[i] == tail[i - done.len()]);
            }
        }
    }
}

/// Whether `ch` is legal in an XML 1.0 document.
pub fn is_xml_char(ch: char) -> (res: bool)
    ensures
        res == xml_char_spec(ch),
{
    let u = ch as u32;
    u == 9 || u == 10 || u == 13 || (0x20 <= u && u <= 0xD7FF) || (0xE000 <= u && u <= 0xFFFD)
        || u >= 0x10000
}

/// Append the escaped form of `text` to `out`.
pub fn push_escaped(out: &mut Vec<char>, text: &str)
    ensures
        final(out)@ == old(out)@ + escape_xml_spec(text@),
{
    let chars = str_chars(text);
    let mut i: usize = 0;
    assert(chars@.subrange(0, 0) =~= Seq::<char>::empty());
    assert(old(out)@ + Seq::<char>::empty() =~= old(out)@);
    while i < chars.len()
        invariant
            i <= chars.len(),
            chars@ == text@,
            out@ == old(out)@ + escape_xml_spec(chars@.subrange(0, i as int)),
        decreases chars.len() - i,
    {
        let ch = chars[i];
        let ghost before = out@;
        if !is_xml_char(ch) {
        } else if ch == '&' {
            extend_str(out, "&amp;");
        } else if ch == '<' {
            extend_str(out, "&lt;");
        } else if ch == '>' {
            extend_str(out, "&gt;");
        } else if ch == '"' {
            extend_str(out, "&quot;");
        } else if ch == '\'' {
            extend_str(out, "&apos;");
        } else {
            out.push(ch);
            assert(out@ =~= before + seq![ch]);
        }
        assert(chars@.subrange(0, i + 1).drop_last() =~= chars@.subrange(0, i as int));
        assert(out@ =~= old(out)@ + escape_xml_spec(chars@.subrange(0, i + 1)));
        i = i + 1;
    }
    assert(chars@.subrange(0, chars.len() as int) =~= chars@);
}

/// Escape `text` for inclusion in an XML text node or attribute value.
///
/// Characters XML 1.0 cannot represent at all are dropped rather than
/// escaped: most control characters have no numeric-reference form either,
/// so a stray form feed would otherwise make the whole part unreadable.
pub fn escape_xml(text: &str) -> (res: String)
    ensures
        res@ == escape_xml_spec(text@),
{
    let mut out: Vec<char> = Vec::new();
    push_escaped(&mut out, text);
    assert(out@ =~= escape_xml_spec(text@));
    string_from_chars(&out)
}

/// The export formats the command line can produce from a bank.
#[derive(Debug, Clone, Copy, PartialEq, Eq)]
pub enum Format {
    /// Print-ready Markdown, no solutions.
    Markdown,
    /// Canvas New Quizzes QTI package.
    Canvas,
}


/// Each `(path, contents)` pair with the path as text and the contents as
/// bytes.
pub open spec fn files_view(files: Seq<(String, Vec<u8>)>) -> Seq<(Seq<char>, Seq<u8>)> {
    files.map_values(|f: (String, Vec<u8>)| (f.0@, f.1@))
}

/// The bytes of the zip archive the `zip` crate writes for `files`, each
/// stored under its path with `SimpleFileOptions::default()`, in order; where
/// the writer gives up instead, `Err(true)` if writing a file's bytes failed
/// (an I/O error) and `Err(false)` if the archive refused an entry or could
/// not be finished (a zip error).
pub uninterp spec fn zip_archive(files: Seq<(Seq<char>, Seq<u8>)>) -> Result<Seq<u8>, bool>;

/// Zip `files` into an in-memory archive with `zip::ZipWriter`. Where the
/// writer gives up, the error says whether it was writing a file's bytes
/// (`true`, from `write_all`) or the archive refused (`false`, from
/// `start_file` or `finish`), with the error's message.
#[verifier::external_body]
fn zip_files(files: &Vec<(String, Vec<u8>)>) -> (res: Result<Vec<u8>, (bool, String)>)
    ensures
        match res {
            Ok(bytes) => zip_archive(files_view(files@)) == Ok::<Seq<u8>, bool>(bytes@),
            Err((io, _)) => zip_archive(files_view(files@)) == Err::<Seq<u8>, bool>(io),
        },
{
    let mut cursor = Cursor::new(Vec::new());
    let mut writer = ZipWriter::new(&mut cursor);
    for (path, content) in files {
        writer.start_file(path.as_str(), SimpleFileOptions::default()).map_err(|e| (false, e.to_string()))?;
        writer.write_all(content).map_err(|e| (true, e.to_string()))?;
    }
    writer.finish().map_err(|e| (false, e.to_string()))?;
    Ok(cursor.into_inner())
}

/// Zip `files` (`(path, contents)` pairs) into an in-memory archive.
///
/// Both the QTI package and the Word document are zip containers of XML
/// parts, so both build through here; `what` names the package in the error
/// the archive's refusal becomes, and a failed write of a file's bytes is an
/// I/O error.
pub fn zip_package(what: &str, files: &Vec<(String, Vec<u8>)>) -> (res: Result<Vec<u8>, Error>)
    ensures
        match zip_archive(files_view(files@)) {
            Ok(bytes) => res matches Ok(b) && b@ == bytes,
            Err(true) => res matches Err(e) && e is Io,
            Err(false) => res matches Err(Error::Export(m)) && crate::text::has_prefix(
                m@,
                "building "@ + what@ + ": "@,
            ),
        },
{
    match zip_files(files) {
        Ok(bytes) => Ok(bytes),
        Err((true, message)) => Err(Error::Io(message)),
        Err((false, message)) => {
            let mut out: Vec<char> = Vec::new();
            extend_str(&mut out, "building ");
            extend_str(&mut out, what);
            extend_str(&mut out, ": ");
            let ghost prefix = out@;
            extend_str(&mut out, message.as_str());
            assert(out@.subrange(0, prefix.len() as int) =~= prefix);
            Err(Error::Export(string_from_chars(&out)))
        },
    }
}
} // verus!
