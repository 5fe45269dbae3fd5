//! An item bank rendered as a Canvas *New Quizzes* QTI package.
//!
//! Canvas imports item banks as a zipped IMS content package: an
//! `imsmanifest.xml` plus one QTI 1.2 assessment document. XML is assembled
//! from the templates below by placeholder substitution; all authored text is
//! escaped (prompts are first rendered from Markdown to HTML, then
//! XML-escaped for embedding).
use crate::error::{debug_quoted, debug_str, Error};
use crate::md::{markdown_events, md_events, MdEventView, MdKind, MdTag, MARKDOWN};
use crate::model::{
    blank_marker, blank_marker_spec, blank_markers_spec, blanks_for, options_spec,
    presented_spec, rich_text_spec, Blank, Choice, ChoiceSet, Feedback, FillInBlank, ItemBank,
    MatchMode, MatchPair, Matching, MultipleSelect, OrderedItems, Question, QuestionKind,
    ScoringMode, TrueFalse,
};
use crate::path::{is_local_image, is_local_image_spec};
use crate::text::{
    decimal, decimal_spec, extend_str, push_decimal, replace_spec, replace_str, split_spec,
    str_chars, str_eq, string_from_chars, trim_spec, trim_str,
};
use pulldown_cmark::{Event, Options, Parser, Tag};
use vstd::prelude::*;
use vstd::utf8::encode_utf8;

verus! {

/// The `response_label` ident for the "True" choice.
pub const TRUE_CHOICE_IDENT: &'static str = "true_choice";
/// The `response_label` ident for the "False" choice.
pub const FALSE_CHOICE_IDENT: &'static str = "false_choice";
/// The `<itemfeedback>` ident for the always-shown general feedback.
pub const GENERAL_FB_IDENT: &'static str = "general_fb";
/// The `<itemfeedback>` ident for correct-answer feedback.
pub const CORRECT_FB_IDENT: &'static str = "correct_fb";
/// The `<itemfeedback>` ident for incorrect-answer feedback.
pub const INCORRECT_FB_IDENT: &'static str = "incorrect_fb";

/// The IMS content-package manifest referencing the single assessment
/// resource.
pub const MANIFEST_TEMPLATE: &'static str = r#"<?xml version="1.0" encoding="UTF-8"?>
<manifest identifier="man_{{RESOURCE_IDENT}}" xmlns="http://www.imsglobal.org/xsd/imscp_v1p1" xmlns:xsi="http://www.w3.org/2001/XMLSchema-instance" xsi:schemaLocation="http://www.imsglobal.org/xsd/imscp_v1p1 http://www.imsglobal.org/xsd/imscp_v1p1.xsd">
  <metadata>
    <schema>IMS Content</schema>
    <schemaversion>1.1.3</schemaversion>
  </metadata>
  <organizations/>
  <resources>
    <resource identifier="{{RESOURCE_IDENT}}" type="imsqti_xmlv1p2/imscc_xmlv1p1/assessment" href="{{HREF}}">
      <file href="{{HREF}}"/>
    </resource>
{{IMAGE_RESOURCES}}  </resources>
</manifest>
"#;

/// The package directory bundled local images live in; the manifest href and
/// the zip entry path both use it.
pub const WEB_RESOURCES_DIR: &'static str = "web_resources";

/// One bundled-image web-content resource in the manifest.
pub const IMAGE_RESOURCE_TEMPLATE: &'static str = r#"    <resource identifier="{{IDENT}}" type="webcontent" href="{{DIR}}/{{PATH}}">
      <file href="{{DIR}}/{{PATH}}"/>
    </resource>
"#;

/// The resprocessing wrapper; `{{CONDITIONS}}` holds the scored and feedback
/// arms.
pub const RESPROCESSING_TEMPLATE: &'static str = r#"        <resprocessing>
          <outcomes>
            <decvar maxvalue="100" minvalue="0" varname="SCORE" vartype="Decimal"/>
          </outcomes>
{{CONDITIONS}}        </resprocessing>
"#;

/// The always-true condition that shows general feedback and keeps
/// processing.
pub const GENERAL_CONDITION: &'static str = r#"          <respcondition continue="Yes">
            <conditionvar>
              <other/>
            </conditionvar>
{{FEEDBACK}}          </respcondition>
"#;

/// The scoring condition; `{{CONDITIONVAR}}` is the correct-answer match and
/// `{{CORRECT_FEEDBACK}}` a display line or empty.
pub const SCORING_CONDITION: &'static str = r#"          <respcondition continue="No">
{{CONDITIONVAR}}            <setvar action="Set" varname="SCORE">100</setvar>
{{CORRECT_FEEDBACK}}          </respcondition>
"#;

/// A feedback-only condition, used for the incorrect-answer arm.
pub const FEEDBACK_CONDITION: &'static str = r#"          <respcondition continue="No">
{{CONDITIONVAR}}{{FEEDBACK}}          </respcondition>
"#;

/// A `<conditionvar>` matching a single response ident.
pub const VAREQUAL_CONDITIONVAR: &'static str = r#"            <conditionvar>
              <varequal respident="response1">{{IDENT}}</varequal>
            </conditionvar>
"#;

/// A `<conditionvar>` matching anything *but* a single response ident.
pub const NOT_VAREQUAL_CONDITIONVAR: &'static str = r#"            <conditionvar>
              <not>
                <varequal respident="response1">{{IDENT}}</varequal>
              </not>
            </conditionvar>
"#;

/// A single feedback display link pointing at the `<itemfeedback>` named
/// `{{IDENT}}`.
pub const DISPLAY_FEEDBACK_TEMPLATE: &'static str =
    "            <displayfeedback feedbacktype=\"Response\" linkrefid=\"{{IDENT}}\"/>\n";

/// `s` with the placeholder `key` filled by `value` everywhere.
pub open spec fn fill(s: Seq<char>, key: &str, value: Seq<char>) -> Seq<char> {
    replace_spec(s, key@, value)
}

// ---------------------------------------------------------------------------
// Escaping, identifiers and URLs
// ---------------------------------------------------------------------------

/// The five predefined entities escaped, `&` first so nothing is escaped
/// twice.
pub open spec fn canvas_escape_spec(text: Seq<char>) -> Seq<char> {
    replace_spec(
        replace_spec(
            replace_spec(
                replace_spec(replace_spec(text, "&"@, "&amp;"@), "<"@, "&lt;"@),
                ">"@,
                "&gt;"@,
            ),
            "\""@,
            "&quot;"@,
        ),
        "'"@,
        "&apos;"@,
    )
}

/// XML-escape the five predefined entities, `&` first to avoid
/// double-escaping.
pub fn escape_xml(text: &str) -> (res: String)
    ensures
        res@ == canvas_escape_spec(text@),
{
    let a = replace_str(text, "&", "&amp;");
    let b = replace_str(a.as_str(), "<", "&lt;");
    let c = replace_str(b.as_str(), ">", "&gt;");
    let d = replace_str(c.as_str(), "\"", "&quot;");
    replace_str(d.as_str(), "'", "&apos;")
}

/// Whether `c` survives in a QTI identifier as itself.
pub open spec fn ident_char(c: char) -> bool {
    ('0' <= c <= '9') || ('A' <= c <= 'Z') || ('a' <= c <= 'z') || c == '_' || c == '-'
}

/// `raw` reduced to a safe QTI identifier: every other character folded to
/// `_`, and `id` for empty input.
pub open spec fn sanitize_spec(raw: Seq<char>) -> Seq<char> {
    if raw.len() == 0 {
        "id"@
    } else {
        raw.map_values(|c: char| if ident_char(c) { c } else { '_' })
    }
}

/// Reduce an authored string to a safe QTI identifier or path component.
pub fn sanitize_ident(raw: &str) -> (res: String)
    ensures
        res@ == sanitize_spec(raw@),
{
    let chars = str_chars(raw);
    if chars.len() == 0 {
        return "id".to_string();
    }
    let mut out: Vec<char> = Vec::new();
    let mut i: usize = 0;
    while i < chars.len()
        invariant
            i <= chars.len(),
            chars@ == raw@,
            out@ == chars@.subrange(0, i as int).map_values(
                |c: char| if ident_char(c) { c } else { '_' },
            ),
        decreases chars.len() - i,
    {
        let c = chars[i];
        let keep = ('0' <= c && c <= '9') || ('A' <= c && c <= 'Z') || ('a' <= c && c <= 'z')
            || c == '_' || c == '-';
        out.push(if keep { c } else { '_' });
        assert(chars@.subrange(0, i + 1) =~= chars@.subrange(0, i as int).push(c));
        i = i + 1;
    }
    assert(chars@.subrange(0, chars.len() as int) =~= chars@);
    string_from_chars(&out)
}

/// Whether byte `b` is left alone by percent-encoding: the unreserved set.
pub open spec fn unreserved(b: u8) -> bool {
    (48 <= b <= 57) || (65 <= b <= 90) || (97 <= b <= 122) || b == 45 || b == 95 || b == 46 || b
        == 126
}

/// The upper-case hex digit for `n` (below 16).
pub open spec fn hex_digit(n: nat) -> char {
    if n < 10 {
        ((n + 48) as u8) as char
    } else {
        ((n + 55) as u8) as char
    }
}

/// What one byte becomes in a percent-encoded URL component.
pub open spec fn encode_byte_spec(b: u8) -> Seq<char> {
    if unreserved(b) {
        seq![b as char]
    } else {
        seq!['%', hex_digit((b / 16) as nat), hex_digit((b % 16) as nat)]
    }
}

/// `bytes` percent-encoded, one byte at a time.
pub open spec fn percent_bytes_spec(bytes: Seq<u8>) -> Seq<char>
    decreases bytes.len(),
{
    if bytes.len() == 0 {
        Seq::empty()
    } else {
        percent_bytes_spec(bytes.drop_last()) + encode_byte_spec(bytes.last())
    }
}

/// `text` percent-encoded as one URL component: every UTF-8 byte outside the
/// unreserved set becomes `%XX`, `/` included.
pub open spec fn percent_component_spec(text: Seq<char>) -> Seq<char> {
    percent_bytes_spec(encode_utf8(text))
}

fn hex_char(n: u8) -> (c: char)
    requires
        n < 16,
    ensures
        c == hex_digit(n as nat),
{
    if n < 10 {
        (n + 48) as char
    } else {
        (n + 55) as char
    }
}

/// Percent-encode `text` as a single URL component.
pub fn percent_encode_component(text: &str) -> (res: String)
    ensures
        res@ == percent_component_spec(text@),
{
    let bytes = text.as_bytes();
    let mut out: Vec<char> = Vec::new();
    let mut i: usize = 0;
    while i < bytes.len()
        invariant
            i <= bytes@.len(),
            bytes@ == encode_utf8(text@),
            out@ == percent_bytes_spec(bytes@.subrange(0, i as int)),
        decreases bytes@.len() - i,
    {
        let b = bytes[i];
        let ghost before = out@;
        if (48 <= b && b <= 57) || (65 <= b && b <= 90) || (97 <= b && b <= 122) || b == 45 || b
            == 95 || b == 46 || b == 126 {
            out.push(b as char);
        } else {
            out.push('%');
            out.push(hex_char(b / 16));
            out.push(hex_char(b % 16));
        }
        assert(bytes@.subrange(0, i + 1).drop_last() =~= bytes@.subrange(0, i as int));
        assert(out@ =~= before + encode_byte_spec(b));
        i = i + 1;
    }
    assert(bytes@.subrange(0, bytes@.len() as int) =~= bytes@);
    string_from_chars(&out)
}

/// The pieces joined by `/`, each percent-encoded.
pub open spec fn encode_pieces_spec(pieces: Seq<Seq<char>>) -> Seq<char>
    decreases pieces.len(),
{
    if pieces.len() == 0 {
        Seq::empty()
    } else if pieces.len() == 1 {
        percent_component_spec(pieces[0])
    } else {
        encode_pieces_spec(pieces.drop_last()) + seq!['/'] + percent_component_spec(
            pieces.last(),
        )
    }
}

/// Percent-encode a path for a URL, keeping `/` and the unreserved
/// characters: each `/`-separated segment encoded as a component.
pub fn percent_encode_path(path: &str) -> (res: String)
    ensures
        res@ == encode_pieces_spec(crate::text::split_spec(path@, '/')),
{
    let chars = str_chars(path);
    let pieces = crate::text::split_chars(&chars, '/');
    let ghost model = crate::text::split_spec(path@, '/');
    let mut out: Vec<char> = Vec::new();
    let mut i: usize = 0;
    while i < pieces.len()
        invariant
            i <= pieces@.len(),
            pieces@.len() == model.len(),
            forall|k: int| 0 <= k < pieces@.len() ==> #[trigger] pieces@[k]@ == model[k],
            out@ == encode_pieces_spec(model.subrange(0, i as int)),
        decreases pieces@.len() - i,
    {
        let piece = string_from_chars(&pieces[i]);
        let encoded = percent_encode_component(piece.as_str());
        if i > 0 {
            out.push('/');
        }
        extend_str(&mut out, encoded.as_str());
        assert(model.subrange(0, i + 1).drop_last() =~= model.subrange(0, i as int));
        assert(out@ =~= encode_pieces_spec(model.subrange(0, i + 1)));
        i = i + 1;
    }
    assert(model.subrange(0, model.len() as int) =~= model);
    string_from_chars(&out)
}

// ---------------------------------------------------------------------------
// Scores
// ---------------------------------------------------------------------------

/// An even `1/count` share of 100%, in hundredths: `10000 / count` rounded
/// to the nearest hundredth. A count of zero or above `u16::MAX` shares out
/// full credit.
///
/// A share that lies exactly halfway between two hundredths (the counts 32,
/// 160, 800, 4000 and 20000) rounds as the two-decimal rendering of the
/// nearest double does: to the even hundredth where that double is the exact
/// half (32, 160, 800), and up where the double lies just above it (4000,
/// 20000).
pub open spec fn share_hundredths(count: nat) -> nat {
    if count == 0 || count > 65535 {
        10000
    } else {
        let q = 10000nat / count;
        let r = 10000nat % count;
        if 2 * r > count {
            q + 1
        } else if 2 * r < count {
            q
        } else if count == 4000 || count == 20000 || q % 2 == 1 {
            q + 1
        } else {
            q
        }
    }
}

/// Even shares add up to full credit, to within the rounding of each share:
/// `count` shares of `share_hundredths(count)` are within half a share's
/// worth of rounding per item of 100%.
pub proof fn even_shares_make_up_full_credit(count: nat)
    requires
        1 <= count <= 65535,
    ensures
        2 * count * share_hundredths(count) <= 20000 + count,
        20000 <= 2 * count * share_hundredths(count) + count,
{
    let q = 10000nat / count;
    let r = 10000nat % count;
    vstd::arithmetic::div_mod::lemma_fundamental_div_mod(10000, count as int);
    assert(0 <= r < count) by {
        vstd::arithmetic::div_mod::lemma_mod_bound(10000, count as int);
    }
    let s = share_hundredths(count);
    assert(s == q || s == q + 1);
    if s == q + 1 {
        assert(2 * r >= count);
        assert(2 * count * s <= 20000 + count && 20000 <= 2 * count * s + count) by (nonlinear_arith)
            requires
                10000 == count * q + r,
                2 * r >= count,
                r < count,
                s == q + 1,
        ;
    } else {
        assert(2 * r <= count);
        assert(2 * count * s <= 20000 + count && 20000 <= 2 * count * s + count) by (nonlinear_arith)
            requires
                10000 == count * q + r,
                2 * r <= count,
                0 <= r,
                s == q,
        ;
    }
}

/// `hundredths` written with two decimals: `3333` is `33.33`.
pub open spec fn two_decimals(hundredths: nat) -> Seq<char> {
    decimal_spec(hundredths / 100) + seq!['.', crate::text::digit_char((hundredths % 100) / 10),
        crate::text::digit_char(hundredths % 10)]
}

/// An even `1/count` share of 100%, as a two-decimal string.
///
/// Used for per-blank fill-in-the-blank credit, per-choice partial credit and
/// per-pair matching credit. An empty or absurdly large `count` falls back to
/// full credit, so the divisor is never zero.
pub fn even_share_score(count: usize) -> (res: String)
    ensures
        res@ == two_decimals(share_hundredths(count as nat)),
{
    let hundredths: u64 = if count == 0 || count > 65535 {
        10000
    } else {
        let n = count as u64;
        let q = 10000 / n;
        let r = 10000 % n;
        if 2 * r > n {
            q + 1
        } else if 2 * r < n {
            q
        } else if n == 4000 || n == 20000 || q % 2 == 1 {
            q + 1
        } else {
            q
        }
    };
    let mut out: Vec<char> = Vec::new();
    push_decimal(&mut out, hundredths / 100);
    out.push('.');
    let tens: u8 = ((hundredths % 100) / 10) as u8;
    let ones: u8 = (hundredths % 10) as u8;
    out.push((tens + 48) as char);
    out.push((ones + 48) as char);
    assert(out@ =~= two_decimals(hundredths as nat));
    string_from_chars(&out)
}

// ---------------------------------------------------------------------------
// Scoring and feedback conditions
// ---------------------------------------------------------------------------

/// One `<displayfeedback>` link line pointing at `ident`.
pub open spec fn display_feedback_spec(ident: Seq<char>) -> Seq<char> {
    fill(DISPLAY_FEEDBACK_TEMPLATE@, "{{IDENT}}", ident)
}

/// Build one `<displayfeedback>` link line pointing at `ident`.
pub fn display_feedback(ident: &str) -> (res: String)
    ensures
        res@ == display_feedback_spec(ident@),
{
    replace_str(DISPLAY_FEEDBACK_TEMPLATE, "{{IDENT}}", ident)
}

/// A `<conditionvar>` matching a single response ident.
pub fn varequal_conditionvar(ident: &str) -> (res: String)
    ensures
        res@ == fill(VAREQUAL_CONDITIONVAR@, "{{IDENT}}", ident@),
{
    replace_str(VAREQUAL_CONDITIONVAR, "{{IDENT}}", ident)
}

/// A `<conditionvar>` matching anything but a single response ident.
pub fn not_varequal_conditionvar(ident: &str) -> (res: String)
    ensures
        res@ == fill(NOT_VAREQUAL_CONDITIONVAR@, "{{IDENT}}", ident@),
{
    replace_str(NOT_VAREQUAL_CONDITIONVAR, "{{IDENT}}", ident)
}

/// The always-shown condition that displays general feedback, or nothing
/// when there is none.
pub open spec fn general_condition_spec(feedback: Feedback) -> Seq<char> {
    if feedback.general is Some {
        fill(GENERAL_CONDITION@, "{{FEEDBACK}}", display_feedback_spec(GENERAL_FB_IDENT@))
    } else {
        Seq::empty()
    }
}

/// Render the general-feedback condition, if there is general feedback.
pub fn general_condition_xml(feedback: &Feedback) -> (res: String)
    ensures
        res@ == general_condition_spec(*feedback),
{
    if feedback.general.is_some() {
        let link = display_feedback(GENERAL_FB_IDENT);
        replace_str(GENERAL_CONDITION, "{{FEEDBACK}}", link.as_str())
    } else {
        String::new()
    }
}

/// The resprocessing block: general feedback, the scoring arm (with its
/// correct-feedback link when there is correct feedback), and the
/// incorrect-answer arm only when there is incorrect feedback.
pub open spec fn resprocessing_spec(
    correct_cv: Seq<char>,
    incorrect_cv: Seq<char>,
    feedback: Feedback,
) -> Seq<char> {
    let correct_feedback = if feedback.correct is Some {
        display_feedback_spec(CORRECT_FB_IDENT@)
    } else {
        Seq::empty()
    };
    let scoring = fill(
        fill(SCORING_CONDITION@, "{{CONDITIONVAR}}", correct_cv),
        "{{CORRECT_FEEDBACK}}",
        correct_feedback,
    );
    let incorrect = if feedback.incorrect is Some {
        fill(
            fill(FEEDBACK_CONDITION@, "{{CONDITIONVAR}}", incorrect_cv),
            "{{FEEDBACK}}",
            display_feedback_spec(INCORRECT_FB_IDENT@),
        )
    } else {
        Seq::empty()
    };
    fill(
        RESPROCESSING_TEMPLATE@,
        "{{CONDITIONS}}",
        general_condition_spec(feedback) + scoring + incorrect,
    )
}

/// Build the resprocessing block: scoring plus any feedback display arms.
pub fn resprocessing_xml(correct_cv: &str, incorrect_cv: &str, feedback: &Feedback) -> (res:
    String)
    ensures
        res@ == resprocessing_spec(correct_cv@, incorrect_cv@, *feedback),
{
    let general = general_condition_xml(feedback);
    let correct_feedback = if feedback.correct.is_some() {
        display_feedback(CORRECT_FB_IDENT)
    } else {
        String::new()
    };
    let scoring = replace_str(SCORING_CONDITION, "{{CONDITIONVAR}}", correct_cv);
    let scoring = replace_str(scoring.as_str(), "{{CORRECT_FEEDBACK}}", correct_feedback.as_str());
    let incorrect = if feedback.incorrect.is_some() {
        let arm = replace_str(FEEDBACK_CONDITION, "{{CONDITIONVAR}}", incorrect_cv);
        let link = display_feedback(INCORRECT_FB_IDENT);
        replace_str(arm.as_str(), "{{FEEDBACK}}", link.as_str())
    } else {
        String::new()
    };
    let mut conditions: Vec<char> = Vec::new();
    extend_str(&mut conditions, general.as_str());
    extend_str(&mut conditions, scoring.as_str());
    extend_str(&mut conditions, incorrect.as_str());
    let conditions = string_from_chars(&conditions);
    replace_str(RESPROCESSING_TEMPLATE, "{{CONDITIONS}}", conditions.as_str())
}

// ---------------------------------------------------------------------------
// The manifest
// ---------------------------------------------------------------------------

/// One image's web-content resource in the manifest.
pub open spec fn image_resource_spec(path: Seq<char>) -> Seq<char> {
    fill(
        fill(
            fill(IMAGE_RESOURCE_TEMPLATE@, "{{IDENT}}", sanitize_spec("res_"@ + path)),
            "{{DIR}}",
            WEB_RESOURCES_DIR@,
        ),
        "{{PATH}}",
        canvas_escape_spec(path),
    )
}

/// The web-content resources of the first `n` images, in order.
pub open spec fn image_resources_spec(images: Seq<(String, Vec<u8>)>) -> Seq<char>
    decreases images.len(),
{
    if images.len() == 0 {
        Seq::empty()
    } else {
        image_resources_spec(images.drop_last()) + image_resource_spec(images.last().0@)
    }
}

/// The manifest naming the assessment resource and every bundled image.
pub open spec fn manifest_spec(
    resource_ident: Seq<char>,
    href: Seq<char>,
    images: Seq<(String, Vec<u8>)>,
) -> Seq<char> {
    fill(
        fill(
            fill(MANIFEST_TEMPLATE@, "{{RESOURCE_IDENT}}", canvas_escape_spec(resource_ident)),
            "{{IMAGE_RESOURCES}}",
            image_resources_spec(images),
        ),
        "{{HREF}}",
        canvas_escape_spec(href),
    )
}

/// Fill the manifest with the assessment resource and any bundled-image
/// resources.
pub fn manifest_xml(resource_ident: &str, href: &str, images: &[(String, Vec<u8>)]) -> (res:
    String)
    ensures
        res@ == manifest_spec(resource_ident@, href@, images@),
{
    let mut resources: Vec<char> = Vec::new();
    let mut i: usize = 0;
    while i < images.len()
        invariant
            i <= images@.len(),
            resources@ == image_resources_spec(images@.subrange(0, i as int)),
        decreases images@.len() - i,
    {
        let path = images[i].0.as_str();
        let mut ident: Vec<char> = Vec::new();
        extend_str(&mut ident, "res_");
        extend_str(&mut ident, path);
        let ident = sanitize_ident(string_from_chars(&ident).as_str());
        let entry = replace_str(IMAGE_RESOURCE_TEMPLATE, "{{IDENT}}", ident.as_str());
        let entry = replace_str(entry.as_str(), "{{DIR}}", WEB_RESOURCES_DIR);
        let escaped = escape_xml(path);
        let entry = replace_str(entry.as_str(), "{{PATH}}", escaped.as_str());
        extend_str(&mut resources, entry.as_str());
        assert(images@.subrange(0, i + 1).drop_last() =~= images@.subrange(0, i as int));
        i = i + 1;
    }
    assert(images@.subrange(0, images@.len() as int) =~= images@);
    let resources = string_from_chars(&resources);
    let escaped_ident = escape_xml(resource_ident);
    let escaped_href = escape_xml(href);
    let xml = replace_str(MANIFEST_TEMPLATE, "{{RESOURCE_IDENT}}", escaped_ident.as_str());
    let xml = replace_str(xml.as_str(), "{{IMAGE_RESOURCES}}", resources.as_str());
    replace_str(xml.as_str(), "{{HREF}}", escaped_href.as_str())
}


// ---------------------------------------------------------------------------
// Item templates
// ---------------------------------------------------------------------------

/// The QTI 1.2 assessment wrapper; `{{ITEMS}}` holds the rendered items.
pub const ASSESSMENT_TEMPLATE: &'static str = r#"<?xml version="1.0" encoding="UTF-8"?>
<questestinterop xmlns="http://www.imsglobal.org/xsd/ims_qtiasiv1p2" xmlns:xsi="http://www.w3.org/2001/XMLSchema-instance" xsi:schemaLocation="http://www.imsglobal.org/xsd/ims_qtiasiv1p2 http://www.imsglobal.org/xsd/ims_qtiasiv1p2p1.xsd">
  <assessment ident="{{IDENT}}" title="{{TITLE}}">
    <section ident="root_section">
{{ITEMS}}    </section>
  </assessment>
</questestinterop>
"#;

/// A single true/false QTI item, scored 100 on the correct choice.
pub const TRUE_FALSE_ITEM_TEMPLATE: &'static str = r#"      <item ident="{{ITEM_IDENT}}" title="{{ITEM_TITLE}}">
        <itemmetadata>
          <qtimetadata>
            <qtimetadatafield>
              <fieldlabel>question_type</fieldlabel>
              <fieldentry>true_false_question</fieldentry>
            </qtimetadatafield>
            <qtimetadatafield>
              <fieldlabel>points_possible</fieldlabel>
              <fieldentry>{{POINTS}}</fieldentry>
            </qtimetadatafield>
          </qtimetadata>
        </itemmetadata>
        <presentation>
          <material>
            <mattext texttype="text/html">{{PROMPT}}</mattext>
          </material>
          <response_lid ident="response1" rcardinality="Single">
            <render_choice>
              <response_label ident="{{TRUE_IDENT}}">
                <material><mattext texttype="text/plain">True</mattext></material>
              </response_label>
              <response_label ident="{{FALSE_IDENT}}">
                <material><mattext texttype="text/plain">False</mattext></material>
              </response_label>
            </render_choice>
          </response_lid>
        </presentation>
{{RESPROCESSING}}{{ITEMFEEDBACK}}      </item>
"#;

/// One partial-credit arm: selecting choice `{{IDENT}}` adjusts the score by
/// `{{VALUE}}` via `{{ACTION}}` (`Add` for correct, `Subtract` for incorrect).
pub const PARTIAL_CONDITION: &'static str = r#"          <respcondition continue="Yes">
            <conditionvar>
              <varequal respident="response1">{{IDENT}}</varequal>
            </conditionvar>
            <setvar action="{{ACTION}}" varname="SCORE">{{VALUE}}</setvar>
          </respcondition>
"#;

/// A `<conditionvar>` matching the exact multi-answer set (`{{TERMS}}`).
pub const AND_CONDITIONVAR: &'static str = r"            <conditionvar>
              <and>
{{TERMS}}              </and>
            </conditionvar>
";

/// A `<conditionvar>` matching anything *but* the exact multi-answer set.
pub const NOT_AND_CONDITIONVAR: &'static str = r"            <conditionvar>
              <not>
                <and>
{{TERMS}}                </and>
              </not>
            </conditionvar>
";

/// The Canvas question type for a single-answer multiple-choice item.
pub const MC_QUESTION_TYPE: &'static str = "multiple_choice_question";
/// The Canvas question type for a multiple-answer item.
pub const MS_QUESTION_TYPE: &'static str = "multiple_answers_question";
/// The Canvas question type for a fill-in-multiple-blanks item.
pub const FITB_QUESTION_TYPE: &'static str = "fill_in_multiple_blanks_question";
/// The Canvas question type for a matching item.
pub const MATCHING_QUESTION_TYPE: &'static str = "matching_question";
/// The `rcardinality` for a single-answer response.
pub const CARDINALITY_SINGLE: &'static str = "Single";
/// The `rcardinality` for a multiple-answer response.
pub const CARDINALITY_MULTIPLE: &'static str = "Multiple";
/// The `<setvar>` action that adds to the score (correct partial-credit choice).
pub const SETVAR_ADD: &'static str = "Add";
/// The `<setvar>` action that subtracts (incorrect partial-credit choice).
pub const SETVAR_SUBTRACT: &'static str = "Subtract";

/// A choice-based QTI item shared by multiple choice and multiple select;
/// `{{QUESTION_TYPE}}`, `{{RCARDINALITY}}`, and `{{CHOICES}}` are per-type.
pub const CHOICE_ITEM_TEMPLATE: &'static str = r#"      <item ident="{{ITEM_IDENT}}" title="{{ITEM_TITLE}}">
        <itemmetadata>
          <qtimetadata>
            <qtimetadatafield>
              <fieldlabel>question_type</fieldlabel>
              <fieldentry>{{QUESTION_TYPE}}</fieldentry>
            </qtimetadatafield>
            <qtimetadatafield>
              <fieldlabel>points_possible</fieldlabel>
              <fieldentry>{{POINTS}}</fieldentry>
            </qtimetadatafield>
          </qtimetadata>
        </itemmetadata>
        <presentation>
          <material>
            <mattext texttype="text/html">{{PROMPT}}</mattext>
          </material>
          <response_lid ident="response1" rcardinality="{{RCARDINALITY}}">
            <render_choice>
{{CHOICES}}            </render_choice>
          </response_lid>
        </presentation>
{{RESPROCESSING}}{{ITEMFEEDBACK}}      </item>
"#;

/// One `<response_label>` option in a choice-based question.
pub const RESPONSE_LABEL_TEMPLATE: &'static str = r#"              <response_label ident="{{CHOICE_IDENT}}">
                <material><mattext texttype="text/html">{{CHOICE_TEXT}}</mattext></material>
              </response_label>
"#;

/// One `<itemfeedback>` block holding an HTML feedback message.
pub const ITEM_FEEDBACK_TEMPLATE: &'static str = r#"      <itemfeedback ident="{{IDENT}}">
        <flow_mat>
          <material>
            <mattext texttype="text/html">{{HTML}}</mattext>
          </material>
        </flow_mat>
      </itemfeedback>
"#;

/// A `response_lid`-based QTI item (fill-in-the-blank or matching);
/// `{{QUESTION_TYPE}}` selects the kind, `{{RESPONSES}}` holds one `response_lid`
/// per blank or left prompt, and `{{CONDITIONS}}` the per-item partial scoring.
pub const RESPONSE_ITEM_TEMPLATE: &'static str = r#"      <item ident="{{ITEM_IDENT}}" title="{{ITEM_TITLE}}">
        <itemmetadata>
          <qtimetadata>
            <qtimetadatafield>
              <fieldlabel>question_type</fieldlabel>
              <fieldentry>{{QUESTION_TYPE}}</fieldentry>
            </qtimetadatafield>
            <qtimetadatafield>
              <fieldlabel>points_possible</fieldlabel>
              <fieldentry>{{POINTS}}</fieldentry>
            </qtimetadatafield>
          </qtimetadata>
        </itemmetadata>
        <presentation>
          <material>
            <mattext texttype="text/html">{{PROMPT}}</mattext>
          </material>
{{RESPONSES}}        </presentation>
        <resprocessing>
          <outcomes>
            <decvar maxvalue="100" minvalue="0" varname="SCORE" vartype="Decimal"/>
          </outcomes>
{{CONDITIONS}}        </resprocessing>
{{ITEMFEEDBACK}}      </item>
"#;

/// One blank's `<response_lid>`: its name plus its acceptable-answer labels.
pub const BLANK_RESPONSE_TEMPLATE: &'static str = r#"          <response_lid ident="{{RESPONSE_IDENT}}">
            <material>
              <mattext>{{BLANK_NAME}}</mattext>
            </material>
            <render_choice>
{{LABELS}}            </render_choice>
          </response_lid>
"#;

/// One acceptable answer for a blank, as a `<response_label>`.
pub const BLANK_ANSWER_LABEL_TEMPLATE: &'static str = r#"              <response_label ident="{{LABEL_IDENT}}">
                <material><mattext texttype="text/plain">{{ANSWER}}</mattext></material>
              </response_label>
"#;

/// One scoring condition: selecting `{{IDENT}}` for `{{RESPIDENT}}` adds its
/// `{{VALUE}}` share of the score. Shared by fill-in-the-blank and matching.
pub const ADD_CONDITION_TEMPLATE: &'static str = r#"          <respcondition continue="Yes">
            <conditionvar>
              <varequal respident="{{RESPIDENT}}">{{IDENT}}</varequal>
            </conditionvar>
            <setvar action="Add" varname="SCORE">{{VALUE}}</setvar>
          </respcondition>
"#;

/// One left prompt's `<response_lid>`: its text plus the shared right options.
pub const MATCH_RESPONSE_TEMPLATE: &'static str = r#"          <response_lid ident="{{RESPONSE_IDENT}}">
            <material>
              <mattext texttype="text/plain">{{LEFT}}</mattext>
            </material>
            <render_choice>
{{OPTIONS}}            </render_choice>
          </response_lid>
"#;

/// One right-hand option, shared across every left prompt's `render_choice`.
pub const MATCH_OPTION_TEMPLATE: &'static str = r#"              <response_label ident="{{OPTION_IDENT}}">
                <material><mattext>{{RIGHT}}</mattext></material>
              </response_label>
"#;

/// An ordering QTI item. `{{ANSWER_IDS}}` lists every option ident in display
/// order, `{{OPTIONS}}` the shuffled draggable labels, and `{{CONDITIONS}}` the
/// single all-or-nothing correct-order condition.
pub const ORDERING_ITEM_TEMPLATE: &'static str = r#"      <item ident="{{ITEM_IDENT}}" title="{{ITEM_TITLE}}">
        <itemmetadata>
          <qtimetadata>
            <qtimetadatafield>
              <fieldlabel>question_type</fieldlabel>
              <fieldentry>ordering_question</fieldentry>
            </qtimetadatafield>
            <qtimetadatafield>
              <fieldlabel>points_possible</fieldlabel>
              <fieldentry>{{POINTS}}</fieldentry>
            </qtimetadatafield>
            <qtimetadatafield>
              <fieldlabel>original_answer_ids</fieldlabel>
              <fieldentry>{{ANSWER_IDS}}</fieldentry>
            </qtimetadatafield>
          </qtimetadata>
        </itemmetadata>
        <presentation>
          <material>
            <mattext texttype="text/html">{{PROMPT}}</mattext>
          </material>
          <response_lid ident="response1" rcardinality="Ordered">
            <render_extension>
              <material position="top">
                <mattext/>
              </material>
              <ims_render_object shuffle="No">
                <flow_label>
{{OPTIONS}}                </flow_label>
              </ims_render_object>
              <material position="bottom">
                <mattext/>
              </material>
            </render_extension>
          </response_lid>
        </presentation>
        <resprocessing>
          <outcomes>
            <decvar defaultval="1" varname="ORDERSCORE" vartype="Integer"/>
          </outcomes>
{{CONDITIONS}}        </resprocessing>
{{ITEMFEEDBACK}}      </item>
"#;

/// One draggable ordering option, rendered as HTML like a choice label.
pub const ORDER_OPTION_TEMPLATE: &'static str = r#"                <response_label ident="{{OPTION_IDENT}}">
                  <material>
                    <mattext texttype="text/html">{{TEXT}}</mattext>
                  </material>
                </response_label>
"#;

/// One position in the correct-order condition: option `{{OPTION_IDENT}}`.
pub const ORDER_VAREQUAL_TEMPLATE: &'static str =
    "              <varequal respident=\"response1\">{{OPTION_IDENT}}</varequal>\n";

/// The all-or-nothing correct-order condition: every option in authored order
/// scores full marks. `{{VAREQUALS}}` is the ordered `varequal` list.
pub const ORDER_CONDITION_TEMPLATE: &'static str = r#"          <respcondition continue="No">
            <conditionvar>
{{VAREQUALS}}            </conditionvar>
            <setvar action="Set" varname="SCORE">100</setvar>
          </respcondition>
"#;

/// Canvas's native equation image; `{{ENCODED}}` is the double-percent-encoded
/// LaTeX for the `src`, `{{ATTR}}` the entity-escaped LaTeX for the text
/// attributes (escaped once here, then again with the surrounding prompt HTML).
pub const EQUATION_IMAGE_TEMPLATE: &'static str = "<img class=\"equation_image\" \
     src=\"/equation_images/{{ENCODED}}\" alt=\"LaTeX: {{ATTR}}\" \
     data-equation-content=\"{{ATTR}}\" title=\"{{ATTR}}\">";

// ---------------------------------------------------------------------------
// Markdown to HTML
// ---------------------------------------------------------------------------

/// Each `Option<String>` as an `Option` of its text.
pub open spec fn opt_views(items: Seq<Option<String>>) -> Seq<Option<Seq<char>>> {
    items.map_values(|o: Option<String>| match o {
        Some(s) => Some(s@),
        None => None,
    })
}

/// The HTML pulldown-cmark's `html::push_html` writes for the events of
/// `source` parsed with the option bits `options`, after each event `i` for
/// which `replacements[i]` holds a text has it substituted: an image start
/// takes it as its destination, a math event becomes that inline HTML.
pub uninterp spec fn md_html(
    source: Seq<char>,
    options: u32,
    replacements: Seq<Option<Seq<char>>>,
) -> Seq<char>;

/// Render `source` to HTML with `replacements` applied to its events (see
/// [`md_html`]); the HTML writer is pulldown-cmark's.
#[verifier::external_body]
fn render_html(source: &str, options: u32, replacements: &Vec<Option<String>>) -> (res: String)
    ensures
        res@ == md_html(source@, options, opt_views(replacements@)),
{
    let mut out = String::new();
    let events = Parser::new_ext(source, Options::from_bits_truncate(options)).enumerate().map(
        |(i, event)| match (event, replacements.get(i).cloned().flatten()) {
            (Event::Start(Tag::Image { link_type, title, id, .. }), Some(url)) => {
                Event::Start(Tag::Image { link_type, dest_url: url.into(), title, id })
            },
            (Event::InlineMath(_) | Event::DisplayMath(_), Some(html)) => Event::InlineHtml(html.into()),
            (event, _) => event,
        },
    );
    pulldown_cmark::html::push_html(&mut out, events);
    out
}

/// The `$IMS-CC-FILEBASE$` reference for a bundled local image `path`.
pub open spec fn canvas_image_ref_spec(path: Seq<char>) -> Seq<char> {
    "$IMS-CC-FILEBASE$/"@ + encode_pieces_spec(split_spec(path, '/')) + "?canvas_download=1"@
}

/// The `$IMS-CC-FILEBASE$` reference for a bundled local image `path`.
pub fn canvas_image_ref(path: &str) -> (res: String)
    ensures
        res@ == canvas_image_ref_spec(path@),
{
    let mut out: Vec<char> = Vec::new();
    extend_str(&mut out, "$IMS-CC-FILEBASE$/");
    let encoded = percent_encode_path(path);
    extend_str(&mut out, encoded.as_str());
    extend_str(&mut out, "?canvas_download=1");
    assert(out@ =~= canvas_image_ref_spec(path@));
    string_from_chars(&out)
}

/// Canvas's native equation image for `latex`: the `src` percent-encodes
/// the LaTeX twice (Canvas decodes it twice), the attributes carry it
/// entity-escaped.
pub open spec fn equation_image_spec(latex: Seq<char>) -> Seq<char> {
    fill(
        fill(
            EQUATION_IMAGE_TEMPLATE@,
            "{{ENCODED}}",
            percent_component_spec(percent_component_spec(latex)),
        ),
        "{{ATTR}}",
        canvas_escape_spec(latex),
    )
}

/// Canvas's native equation image for `latex`, rendered by its equation
/// service.
pub fn equation_image_html(latex: &str) -> (res: String)
    ensures
        res@ == equation_image_spec(latex@),
{
    let once = percent_encode_component(latex);
    let twice = percent_encode_component(once.as_str());
    let xml = replace_str(EQUATION_IMAGE_TEMPLATE, "{{ENCODED}}", twice.as_str());
    let escaped = escape_xml(latex);
    replace_str(xml.as_str(), "{{ATTR}}", escaped.as_str())
}

/// What the HTML writer substitutes for event `e`: a local image's bundled
/// reference, or the equation image for math.
pub open spec fn html_plan_for(e: MdEventView) -> Option<Seq<char>> {
    if e.kind == MdKind::Start && e.tag == MdTag::Image && is_local_image_spec(e.text) {
        Some(canvas_image_ref_spec(e.text))
    } else if e.kind == MdKind::InlineMath || e.kind == MdKind::DisplayMath {
        Some(equation_image_spec(e.text))
    } else {
        None
    }
}

/// A Markdown prompt rendered to HTML for a `text/html` mattext: tables,
/// strikethrough and math read, local images pointed at the bundle, math
/// turned into Canvas equation images, and surrounding whitespace trimmed.
pub open spec fn prompt_html_spec(markdown: Seq<char>) -> Seq<char> {
    trim_spec(
        md_html(
            markdown,
            MARKDOWN,
            md_events(markdown, MARKDOWN).map_values(|e: MdEventView| html_plan_for(e)),
        ),
    )
}

/// Render a Markdown prompt to HTML for embedding in a `text/html` mattext.
pub fn prompt_html(markdown: &str) -> (res: String)
    ensures
        res@ == prompt_html_spec(markdown@),
{
    let events = markdown_events(markdown, MARKDOWN);
    let ghost model = md_events(markdown@, MARKDOWN);
    let mut plan: Vec<Option<String>> = Vec::new();
    let mut i: usize = 0;
    while i < events.len()
        invariant
            i <= events@.len(),
            events@.len() == model.len(),
            forall|j: int| 0 <= j < events@.len() ==> #[trigger] events@[j]@ == model[j],
            opt_views(plan@) == model.subrange(0, i as int).map_values(
                |e: MdEventView| html_plan_for(e),
            ),
        decreases events@.len() - i,
    {
        let e = &events[i];
        assert(e@ == model[i as int]);
        let ghost before = opt_views(plan@);
        if e.kind == MdKind::Start && e.tag == MdTag::Image && is_local_image(e.text.as_str()) {
            plan.push(Some(canvas_image_ref(e.text.as_str())));
        } else if e.kind == MdKind::InlineMath || e.kind == MdKind::DisplayMath {
            plan.push(Some(equation_image_html(e.text.as_str())));
        } else {
            plan.push(None);
        }
        assert(opt_views(plan@) =~= before.push(html_plan_for(model[i as int])));
        assert(model.subrange(0, i + 1).map_values(|e: MdEventView| html_plan_for(e))
            =~= model.subrange(0, i as int).map_values(|e: MdEventView| html_plan_for(e)).push(
            html_plan_for(model[i as int]),
        ));
        i = i + 1;
    }
    assert(model.subrange(0, model.len() as int) =~= model);
    let html = render_html(markdown, MARKDOWN, &plan);
    trim_str(html.as_str())
}

/// Authored Markdown rendered to HTML and XML-escaped for a `mattext` body.
pub open spec fn escaped_html_spec(markdown: Seq<char>) -> Seq<char> {
    canvas_escape_spec(prompt_html_spec(markdown))
}

/// Render authored Markdown to HTML and XML-escape it for a `mattext` body.
pub fn escaped_html(markdown: &str) -> (res: String)
    ensures
        res@ == escaped_html_spec(markdown@),
{
    let html = prompt_html(markdown);
    escape_xml(html.as_str())
}

// ---------------------------------------------------------------------------
// Shared item parts
// ---------------------------------------------------------------------------

/// One `<itemfeedback>` block holding `text` rendered from Markdown.
pub open spec fn itemfeedback_block_spec(ident: Seq<char>, text: Seq<char>) -> Seq<char> {
    fill(fill(ITEM_FEEDBACK_TEMPLATE@, "{{IDENT}}", ident), "{{HTML}}", escaped_html_spec(text))
}

/// One `<itemfeedback>` block holding `text` under `ident`.
pub fn itemfeedback_block(ident: &str, text: &str) -> (res: String)
    ensures
        res@ == itemfeedback_block_spec(ident@, text@),
{
    let xml = replace_str(ITEM_FEEDBACK_TEMPLATE, "{{IDENT}}", ident);
    let html = escaped_html(text);
    replace_str(xml.as_str(), "{{HTML}}", html.as_str())
}

/// The `<itemfeedback>` block for `text` under `ident`, if there is a text.
pub open spec fn optional_block_spec(ident: Seq<char>, text: Option<String>) -> Seq<char> {
    match text {
        Some(t) => itemfeedback_block_spec(ident, t@),
        None => Seq::empty(),
    }
}

/// The `<itemfeedback>` blocks for whichever feedback entries are set.
pub open spec fn itemfeedback_spec(feedback: Feedback) -> Seq<char> {
    optional_block_spec(GENERAL_FB_IDENT@, feedback.general) + optional_block_spec(
        CORRECT_FB_IDENT@,
        feedback.correct,
    ) + optional_block_spec(INCORRECT_FB_IDENT@, feedback.incorrect)
}

fn push_optional_block(out: &mut Vec<char>, ident: &str, text: &Option<String>)
    ensures
        final(out)@ == old(out)@ + optional_block_spec(ident@, *text),
{
    match text {
        Some(t) => {
            let block = itemfeedback_block(ident, t.as_str());
            extend_str(out, block.as_str());
        },
        None => {
            assert(old(out)@ + Seq::<char>::empty() =~= old(out)@);
        },
    }
}

/// Build the `<itemfeedback>` blocks for whichever feedback entries are set.
pub fn itemfeedback_xml(feedback: &Feedback) -> (res: String)
    ensures
        res@ == itemfeedback_spec(*feedback),
{
    let mut out: Vec<char> = Vec::new();
    push_optional_block(&mut out, GENERAL_FB_IDENT, &feedback.general);
    push_optional_block(&mut out, CORRECT_FB_IDENT, &feedback.correct);
    push_optional_block(&mut out, INCORRECT_FB_IDENT, &feedback.incorrect);
    assert(out@ =~= itemfeedback_spec(*feedback));
    string_from_chars(&out)
}

/// The general-feedback `<itemfeedback>` block, if any: the kinds that wire
/// general feedback only use this.
pub open spec fn general_itemfeedback_spec(feedback: Feedback) -> Seq<char> {
    optional_block_spec(GENERAL_FB_IDENT@, feedback.general)
}

/// Render the general-feedback `<itemfeedback>` block, if any.
pub fn general_itemfeedback_xml(feedback: &Feedback) -> (res: String)
    ensures
        res@ == general_itemfeedback_spec(*feedback),
{
    let mut out: Vec<char> = Vec::new();
    push_optional_block(&mut out, GENERAL_FB_IDENT, &feedback.general);
    assert(out@ =~= general_itemfeedback_spec(*feedback));
    string_from_chars(&out)
}

/// A question's title, falling back to its id.
pub open spec fn title_spec(question: Question) -> Seq<char> {
    match question.title {
        Some(t) => t@,
        None => question.id@,
    }
}

/// `template` with the item-header fields (ident, title, points) filled.
pub open spec fn item_header_spec(template: Seq<char>, question: Question) -> Seq<char> {
    fill(
        fill(
            fill(template, "{{ITEM_IDENT}}", sanitize_spec(question.id@)),
            "{{ITEM_TITLE}}",
            canvas_escape_spec(title_spec(question)),
        ),
        "{{POINTS}}",
        question.points@,
    )
}

/// Substitute the item-header fields shared by every item template.
pub fn fill_item_header(template: &str, question: &Question) -> (res: String)
    ensures
        res@ == item_header_spec(template@, *question),
{
    let ident = sanitize_ident(question.id.as_str());
    let title = match &question.title {
        Some(t) => escape_xml(t.as_str()),
        None => escape_xml(question.id.as_str()),
    };
    let xml = replace_str(template, "{{ITEM_IDENT}}", ident.as_str());
    let xml = replace_str(xml.as_str(), "{{ITEM_TITLE}}", title.as_str());
    replace_str(xml.as_str(), "{{POINTS}}", question.points.as_str())
}

/// The choice-item body: resprocessing, itemfeedback, then the prompt,
/// filled last so authored text is never re-scanned.
pub open spec fn choice_item_spec(
    template: Seq<char>,
    question: Question,
    resprocessing: Seq<char>,
    itemfeedback: Seq<char>,
) -> Seq<char> {
    fill(
        fill(
            fill(item_header_spec(template, question), "{{RESPROCESSING}}", resprocessing),
            "{{ITEMFEEDBACK}}",
            itemfeedback,
        ),
        "{{PROMPT}}",
        escaped_html_spec(question.prompt@),
    )
}

/// Fill the shared choice-item body.
pub fn fill_choice_item(
    template: &str,
    question: &Question,
    resprocessing: &str,
    itemfeedback: &str,
) -> (res: String)
    ensures
        res@ == choice_item_spec(template@, *question, resprocessing@, itemfeedback@),
{
    let xml = fill_item_header(template, question);
    let xml = replace_str(xml.as_str(), "{{RESPROCESSING}}", resprocessing);
    let xml = replace_str(xml.as_str(), "{{ITEMFEEDBACK}}", itemfeedback);
    let prompt = escaped_html(question.prompt.as_str());
    replace_str(xml.as_str(), "{{PROMPT}}", prompt.as_str())
}

/// The item shell around a presentation: scoring and feedback from the
/// right- and wrong-answer conditions, then every feedback block.
pub open spec fn item_shell_spec(
    template: Seq<char>,
    question: Question,
    correct_cv: Seq<char>,
    incorrect_cv: Seq<char>,
) -> Seq<char> {
    choice_item_spec(
        template,
        question,
        resprocessing_spec(correct_cv, incorrect_cv, question.feedback),
        itemfeedback_spec(question.feedback),
    )
}

/// Fill the shared item shell (metadata, scoring, feedback, prompt) around a
/// per-type presentation.
pub fn fill_item_shell(template: &str, question: &Question, correct_cv: &str, incorrect_cv: &str)
    -> (res: String)
    ensures
        res@ == item_shell_spec(template@, *question, correct_cv@, incorrect_cv@),
{
    let resprocessing = resprocessing_xml(correct_cv, incorrect_cv, &question.feedback);
    let itemfeedback = itemfeedback_xml(&question.feedback);
    fill_choice_item(template, question, resprocessing.as_str(), itemfeedback.as_str())
}

/// The generated `response_label` ident for the choice at `index`.
pub open spec fn choice_ident_spec(index: nat) -> Seq<char> {
    "choice_"@ + decimal_spec(index)
}

/// The generated `response_label` ident for the choice at `index`.
pub fn choice_ident(index: usize) -> (res: String)
    ensures
        res@ == choice_ident_spec(index as nat),
{
    let mut out: Vec<char> = Vec::new();
    extend_str(&mut out, "choice_");
    push_decimal(&mut out, index as u64);
    assert(out@ =~= choice_ident_spec(index as nat));
    string_from_chars(&out)
}

/// `"answer_"` followed by `index`, the ident of a matching or ordering
/// option.
pub open spec fn answer_ident_at(index: nat) -> Seq<char> {
    "answer_"@ + decimal_spec(index)
}

fn answer_ident_at_exec(index: usize) -> (res: String)
    ensures
        res@ == answer_ident_at(index as nat),
{
    let mut out: Vec<char> = Vec::new();
    extend_str(&mut out, "answer_");
    push_decimal(&mut out, index as u64);
    assert(out@ =~= answer_ident_at(index as nat));
    string_from_chars(&out)
}

/// `"response_"` followed by `index`, the response of a matching pair.
pub open spec fn response_at(index: nat) -> Seq<char> {
    "response_"@ + decimal_spec(index)
}

fn response_at_exec(index: usize) -> (res: String)
    ensures
        res@ == response_at(index as nat),
{
    let mut out: Vec<char> = Vec::new();
    extend_str(&mut out, "response_");
    push_decimal(&mut out, index as u64);
    assert(out@ =~= response_at(index as nat));
    string_from_chars(&out)
}


// ---------------------------------------------------------------------------
// True/false, multiple choice and multiple select
// ---------------------------------------------------------------------------

/// A `<conditionvar>` matching one response ident.
pub open spec fn varequal_spec(ident: Seq<char>) -> Seq<char> {
    fill(VAREQUAL_CONDITIONVAR@, "{{IDENT}}", ident)
}

/// A true/false item: the correct choice scores, the other one is wrong.
pub open spec fn true_false_item_spec(question: Question, answer: TrueFalse) -> Seq<char> {
    let (correct, incorrect) = if answer.answer {
        (TRUE_CHOICE_IDENT@, FALSE_CHOICE_IDENT@)
    } else {
        (FALSE_CHOICE_IDENT@, TRUE_CHOICE_IDENT@)
    };
    let presentation = fill(
        fill(TRUE_FALSE_ITEM_TEMPLATE@, "{{TRUE_IDENT}}", TRUE_CHOICE_IDENT@),
        "{{FALSE_IDENT}}",
        FALSE_CHOICE_IDENT@,
    );
    item_shell_spec(presentation, question, varequal_spec(correct), varequal_spec(incorrect))
}

/// Render a true/false item, marking the correct choice and any feedback.
pub fn true_false_item_xml(question: &Question, answer: &TrueFalse) -> (res: String)
    ensures
        res@ == true_false_item_spec(*question, *answer),
{
    let (correct, incorrect) = if answer.answer {
        (TRUE_CHOICE_IDENT, FALSE_CHOICE_IDENT)
    } else {
        (FALSE_CHOICE_IDENT, TRUE_CHOICE_IDENT)
    };
    let presentation = replace_str(TRUE_FALSE_ITEM_TEMPLATE, "{{TRUE_IDENT}}", TRUE_CHOICE_IDENT);
    let presentation = replace_str(presentation.as_str(), "{{FALSE_IDENT}}", FALSE_CHOICE_IDENT);
    let correct_cv = varequal_conditionvar(correct);
    let incorrect_cv = varequal_conditionvar(incorrect);
    fill_item_shell(presentation.as_str(), question, correct_cv.as_str(), incorrect_cv.as_str())
}

/// The `<response_label>` list of the first `n` choices.
pub open spec fn choices_xml_spec(choices: Seq<Choice>, n: nat) -> Seq<char>
    decreases n,
{
    if n == 0 {
        Seq::empty()
    } else {
        choices_xml_spec(choices, (n - 1) as nat) + fill(
            fill(RESPONSE_LABEL_TEMPLATE@, "{{CHOICE_IDENT}}", choice_ident_spec((n - 1) as nat)),
            "{{CHOICE_TEXT}}",
            escaped_html_spec(choices[n - 1].text@),
        )
    }
}

/// Render the `<response_label>` list for a choice-based question.
pub fn choices_xml(choices: &Vec<Choice>) -> (res: String)
    ensures
        res@ == choices_xml_spec(choices@, choices@.len()),
{
    let mut out: Vec<char> = Vec::new();
    let mut i: usize = 0;
    while i < choices.len()
        invariant
            i <= choices@.len(),
            out@ == choices_xml_spec(choices@, i as nat),
        decreases choices@.len() - i,
    {
        let ident = choice_ident(i);
        let xml = replace_str(RESPONSE_LABEL_TEMPLATE, "{{CHOICE_IDENT}}", ident.as_str());
        let text = escaped_html(choices[i].text.as_str());
        let xml = replace_str(xml.as_str(), "{{CHOICE_TEXT}}", text.as_str());
        extend_str(&mut out, xml.as_str());
        i = i + 1;
    }
    string_from_chars(&out)
}

/// The shared choice-item template with its per-type presentation fields;
/// the choices are filled last so their text cannot collide with a
/// placeholder.
pub open spec fn choice_presentation_spec(
    question_type: Seq<char>,
    cardinality: Seq<char>,
    choices: Seq<Choice>,
) -> Seq<char> {
    fill(
        fill(fill(CHOICE_ITEM_TEMPLATE@, "{{QUESTION_TYPE}}", question_type), "{{RCARDINALITY}}",
        cardinality),
        "{{CHOICES}}",
        choices_xml_spec(choices, choices.len()),
    )
}

/// Fill the shared choice-item template with its per-type presentation
/// fields.
pub fn choice_presentation(question_type: &str, cardinality: &str, choices: &Vec<Choice>) -> (res:
    String)
    ensures
        res@ == choice_presentation_spec(question_type@, cardinality@, choices@),
{
    let xml = replace_str(CHOICE_ITEM_TEMPLATE, "{{QUESTION_TYPE}}", question_type);
    let xml = replace_str(xml.as_str(), "{{RCARDINALITY}}", cardinality);
    let listed = choices_xml(choices);
    replace_str(xml.as_str(), "{{CHOICES}}", listed.as_str())
}

/// The position of the first correct choice, or 0 when none is.
pub open spec fn first_correct(choices: Seq<Choice>) -> nat {
    if exists|i: int| 0 <= i < choices.len() && choices[i].correct {
        (choose|i: int|
            0 <= i < choices.len() && choices[i].correct && forall|k: int|
                0 <= k < i ==> !#[trigger] choices[k].correct) as nat
    } else {
        0
    }
}

/// The ident of the first correct choice, for scoring (`choice_0` when no
/// choice is marked).
pub fn correct_choice_ident(choices: &Vec<Choice>) -> (res: String)
    ensures
        res@ == choice_ident_spec(first_correct(choices@)),
{
    let mut i: usize = 0;
    while i < choices.len()
        invariant
            i <= choices@.len(),
            forall|k: int| 0 <= k < i ==> !#[trigger] choices@[k].correct,
        decreases choices@.len() - i,
    {
        if choices[i].correct {
            let ghost j = choose|j: int|
                0 <= j < choices@.len() && choices@[j].correct && forall|k: int|
                    0 <= k < j ==> !#[trigger] choices@[k].correct;
            assert(j == i) by {
                if j < i {
                    assert(!choices@[j].correct);
                }
                if j > i {
                    assert(!choices@[i as int].correct);
                }
            }
            return choice_ident(i);
        }
        i = i + 1;
    }
    choice_ident(0)
}

/// A single-answer multiple-choice item: anything but the correct choice is
/// wrong.
pub open spec fn multiple_choice_item_spec(question: Question, set: ChoiceSet) -> Seq<char> {
    let correct = choice_ident_spec(first_correct(set.choices@));
    item_shell_spec(
        choice_presentation_spec(MC_QUESTION_TYPE@, CARDINALITY_SINGLE@, set.choices@),
        question,
        varequal_spec(correct),
        fill(NOT_VAREQUAL_CONDITIONVAR@, "{{IDENT}}", correct),
    )
}

/// Render a single-answer multiple-choice item.
pub fn multiple_choice_item_xml(question: &Question, set: &ChoiceSet) -> (res: String)
    ensures
        res@ == multiple_choice_item_spec(*question, *set),
{
    let correct = correct_choice_ident(&set.choices);
    let presentation = choice_presentation(MC_QUESTION_TYPE, CARDINALITY_SINGLE, &set.choices);
    let correct_cv = varequal_conditionvar(correct.as_str());
    let incorrect_cv = not_varequal_conditionvar(correct.as_str());
    fill_item_shell(presentation.as_str(), question, correct_cv.as_str(), incorrect_cv.as_str())
}

/// One term per choice of the first `n`: selected if correct, not selected
/// otherwise.
pub open spec fn correctness_terms_spec(choices: Seq<Choice>, n: nat) -> Seq<char>
    decreases n,
{
    if n == 0 {
        Seq::empty()
    } else {
        let ident = choice_ident_spec((n - 1) as nat);
        correctness_terms_spec(choices, (n - 1) as nat) + if choices[n - 1].correct {
            "                <varequal respident=\"response1\">"@ + ident + "</varequal>\n"@
        } else {
            "                <not><varequal respident=\"response1\">"@ + ident
                + "</varequal></not>\n"@
        }
    }
}

/// One `<varequal>`/`<not>` term per choice: selected iff correct.
pub fn correctness_terms(choices: &Vec<Choice>) -> (res: String)
    ensures
        res@ == correctness_terms_spec(choices@, choices@.len()),
{
    let mut out: Vec<char> = Vec::new();
    let mut i: usize = 0;
    while i < choices.len()
        invariant
            i <= choices@.len(),
            out@ == correctness_terms_spec(choices@, i as nat),
        decreases choices@.len() - i,
    {
        let ident = choice_ident(i);
        let ghost before = out@;
        if choices[i].correct {
            extend_str(&mut out, "                <varequal respident=\"response1\">");
            extend_str(&mut out, ident.as_str());
            extend_str(&mut out, "</varequal>\n");
        } else {
            extend_str(&mut out, "                <not><varequal respident=\"response1\">");
            extend_str(&mut out, ident.as_str());
            extend_str(&mut out, "</varequal></not>\n");
        }
        assert(out@ =~= correctness_terms_spec(choices@, (i + 1) as nat));
        i = i + 1;
    }
    string_from_chars(&out)
}

/// The number of correct choices among the first `n`.
pub open spec fn correct_count(choices: Seq<Choice>, n: nat) -> nat
    decreases n,
{
    if n == 0 {
        0
    } else {
        correct_count(choices, (n - 1) as nat) + if choices[n - 1].correct {
            1nat
        } else {
            0nat
        }
    }
}

/// The partial-credit arms of the first `n` choices: each correct one adds
/// `add`, each incorrect one subtracts `subtract`.
pub open spec fn partial_conditions_spec(
    choices: Seq<Choice>,
    n: nat,
    add: Seq<char>,
    subtract: Seq<char>,
) -> Seq<char>
    decreases n,
{
    if n == 0 {
        Seq::empty()
    } else {
        let correct = choices[n - 1].correct;
        partial_conditions_spec(choices, (n - 1) as nat, add, subtract) + fill(
            fill(
                fill(PARTIAL_CONDITION@, "{{IDENT}}", choice_ident_spec((n - 1) as nat)),
                "{{ACTION}}",
                if correct {
                    SETVAR_ADD@
                } else {
                    SETVAR_SUBTRACT@
                },
            ),
            "{{VALUE}}",
            if correct {
                add
            } else {
                subtract
            },
        )
    }
}

/// Partial-credit resprocessing: each correct choice adds an even share of
/// the correct ones, each incorrect choice subtracts an even share of the
/// incorrect ones.
pub open spec fn partial_resprocessing_spec(choices: Seq<Choice>, feedback: Feedback) -> Seq<char> {
    let correct = correct_count(choices, choices.len());
    let add = two_decimals(share_hundredths(correct));
    let subtract = two_decimals(share_hundredths((choices.len() - correct) as nat));
    fill(
        RESPROCESSING_TEMPLATE@,
        "{{CONDITIONS}}",
        general_condition_spec(feedback) + partial_conditions_spec(
            choices,
            choices.len(),
            add,
            subtract,
        ),
    )
}

/// Build partial-credit resprocessing.
pub fn partial_resprocessing_xml(choices: &Vec<Choice>, feedback: &Feedback) -> (res: String)
    ensures
        res@ == partial_resprocessing_spec(choices@, *feedback),
{
    let mut correct: usize = 0;
    let mut i: usize = 0;
    while i < choices.len()
        invariant
            i <= choices@.len(),
            correct == correct_count(choices@, i as nat),
            correct <= i,
        decreases choices@.len() - i,
    {
        if choices[i].correct {
            correct = correct + 1;
        }
        i = i + 1;
    }
    let add = even_share_score(correct);
    let subtract = even_share_score(choices.len() - correct);
    let general = general_condition_xml(feedback);
    let mut conditions: Vec<char> = Vec::new();
    extend_str(&mut conditions, general.as_str());
    let ghost start = conditions@;
    let mut k: usize = 0;
    assert(conditions@ =~= start + partial_conditions_spec(choices@, 0, add@, subtract@));
    while k < choices.len()
        invariant
            k <= choices@.len(),
            conditions@ == start + partial_conditions_spec(choices@, k as nat, add@, subtract@),
        decreases choices@.len() - k,
    {
        let ident = choice_ident(k);
        let (action, value) = if choices[k].correct {
            (SETVAR_ADD, add.as_str())
        } else {
            (SETVAR_SUBTRACT, subtract.as_str())
        };
        let xml = replace_str(PARTIAL_CONDITION, "{{IDENT}}", ident.as_str());
        let xml = replace_str(xml.as_str(), "{{ACTION}}", action);
        let xml = replace_str(xml.as_str(), "{{VALUE}}", value);
        extend_str(&mut conditions, xml.as_str());
        assert(conditions@ =~= start + partial_conditions_spec(
            choices@,
            (k + 1) as nat,
            add@,
            subtract@,
        ));
        k = k + 1;
    }
    let conditions = string_from_chars(&conditions);
    replace_str(RESPROCESSING_TEMPLATE, "{{CONDITIONS}}", conditions.as_str())
}

/// A multiple-answer item, scored per its [`ScoringMode`]: all or nothing
/// for the exact set, or partial credit with general feedback only.
pub open spec fn multiple_select_item_spec(question: Question, select: MultipleSelect) -> Seq<char> {
    let presentation = choice_presentation_spec(
        MS_QUESTION_TYPE@,
        CARDINALITY_MULTIPLE@,
        select.choices@,
    );
    let terms = correctness_terms_spec(select.choices@, select.choices@.len());
    match select.scoring {
        ScoringMode::AllOrNothing => item_shell_spec(
            presentation,
            question,
            fill(AND_CONDITIONVAR@, "{{TERMS}}", terms),
            fill(NOT_AND_CONDITIONVAR@, "{{TERMS}}", terms),
        ),
        ScoringMode::Partial => choice_item_spec(
            presentation,
            question,
            partial_resprocessing_spec(select.choices@, question.feedback),
            general_itemfeedback_spec(question.feedback),
        ),
    }
}

/// Render a multiple-answer item, scored per its [`ScoringMode`].
pub fn multiple_select_item_xml(question: &Question, select: &MultipleSelect) -> (res: String)
    ensures
        res@ == multiple_select_item_spec(*question, *select),
{
    let presentation = choice_presentation(MS_QUESTION_TYPE, CARDINALITY_MULTIPLE, &select.choices);
    match select.scoring {
        ScoringMode::AllOrNothing => {
            let terms = correctness_terms(&select.choices);
            let correct_cv = replace_str(AND_CONDITIONVAR, "{{TERMS}}", terms.as_str());
            let incorrect_cv = replace_str(NOT_AND_CONDITIONVAR, "{{TERMS}}", terms.as_str());
            fill_item_shell(presentation.as_str(), question, correct_cv.as_str(), incorrect_cv.as_str())
        },
        ScoringMode::Partial => {
            let resprocessing = partial_resprocessing_xml(&select.choices, &question.feedback);
            let itemfeedback = general_itemfeedback_xml(&question.feedback);
            fill_choice_item(
                presentation.as_str(),
                question,
                resprocessing.as_str(),
                itemfeedback.as_str(),
            )
        },
    }
}


// ---------------------------------------------------------------------------
// Fill in the blank and matching
// ---------------------------------------------------------------------------

/// The shared `response_lid` item body around per-type responses and
/// scoring conditions; the prompt HTML is filled last.
pub open spec fn response_item_spec(
    question_type: Seq<char>,
    question: Question,
    responses: Seq<char>,
    conditions: Seq<char>,
    prompt_html: Seq<char>,
) -> Seq<char> {
    fill(
        fill(
            fill(
                fill(
                    fill(
                        item_header_spec(RESPONSE_ITEM_TEMPLATE@, question),
                        "{{QUESTION_TYPE}}",
                        question_type,
                    ),
                    "{{RESPONSES}}",
                    responses,
                ),
                "{{CONDITIONS}}",
                conditions,
            ),
            "{{ITEMFEEDBACK}}",
            general_itemfeedback_spec(question.feedback),
        ),
        "{{PROMPT}}",
        prompt_html,
    )
}

/// Fill the shared `response_lid` item body.
pub fn fill_response_item(
    question_type: &str,
    question: &Question,
    responses: &str,
    conditions: &str,
    prompt_html: &str,
) -> (res: String)
    ensures
        res@ == response_item_spec(question_type@, *question, responses@, conditions@, prompt_html@),
{
    let xml = fill_item_header(RESPONSE_ITEM_TEMPLATE, question);
    let xml = replace_str(xml.as_str(), "{{QUESTION_TYPE}}", question_type);
    let xml = replace_str(xml.as_str(), "{{RESPONSES}}", responses);
    let xml = replace_str(xml.as_str(), "{{CONDITIONS}}", conditions);
    let feedback = general_itemfeedback_xml(&question.feedback);
    let xml = replace_str(xml.as_str(), "{{ITEMFEEDBACK}}", feedback.as_str());
    replace_str(xml.as_str(), "{{PROMPT}}", prompt_html)
}

/// The QTI response identifier for a blank named `id`.
pub open spec fn response_ident_spec(id: Seq<char>) -> Seq<char> {
    sanitize_spec("response_"@ + id)
}

/// The QTI response identifier for a blank named `id`.
pub fn response_ident(id: &str) -> (res: String)
    ensures
        res@ == response_ident_spec(id@),
{
    let mut out: Vec<char> = Vec::new();
    extend_str(&mut out, "response_");
    extend_str(&mut out, id);
    sanitize_ident(string_from_chars(&out).as_str())
}

/// The QTI label identifier for the `index`th answer of blank `id`.
pub open spec fn answer_ident_spec(id: Seq<char>, index: nat) -> Seq<char> {
    sanitize_spec(id + "_answer_"@ + decimal_spec(index))
}

/// The QTI label identifier for the `index`th answer of blank `id`.
pub fn answer_ident(id: &str, index: usize) -> (res: String)
    ensures
        res@ == answer_ident_spec(id@, index as nat),
{
    let mut out: Vec<char> = Vec::new();
    extend_str(&mut out, id);
    extend_str(&mut out, "_answer_");
    push_decimal(&mut out, index as u64);
    assert(out@ =~= id@ + "_answer_"@ + decimal_spec(index as nat));
    sanitize_ident(string_from_chars(&out).as_str())
}

/// The blanks at `order`, in that order.
pub open spec fn blanks_at(blanks: Seq<Blank>, order: Seq<nat>) -> Seq<Blank> {
    order.map_values(|i: nat| blanks[i as int])
}

/// The prompt HTML with the markers of the first `n` blanks rewritten to
/// Canvas's `[name]` references.
pub open spec fn blank_prompt_spec(html: Seq<char>, blanks: Seq<Blank>, n: nat) -> Seq<char>
    decreases n,
{
    if n == 0 {
        html
    } else {
        let id = blanks[n - 1].id@;
        replace_spec(blank_prompt_spec(html, blanks, (n - 1) as nat), blank_marker_spec(id), "["@
            + id + "]"@)
    }
}

/// One blank's `<response_label>`s for its first `n` answers.
pub open spec fn blank_labels_spec(blank: Blank, n: nat) -> Seq<char>
    decreases n,
{
    if n == 0 {
        Seq::empty()
    } else {
        blank_labels_spec(blank, (n - 1) as nat) + fill(
            fill(
                BLANK_ANSWER_LABEL_TEMPLATE@,
                "{{LABEL_IDENT}}",
                answer_ident_spec(blank.id@, (n - 1) as nat),
            ),
            "{{ANSWER}}",
            canvas_escape_spec(blank.answers@[n - 1]@),
        )
    }
}

/// The `<response_lid>`s of the first `n` blanks.
pub open spec fn blank_responses_spec(blanks: Seq<Blank>, n: nat) -> Seq<char>
    decreases n,
{
    if n == 0 {
        Seq::empty()
    } else {
        let blank = blanks[n - 1];
        blank_responses_spec(blanks, (n - 1) as nat) + fill(
            fill(
                fill(BLANK_RESPONSE_TEMPLATE@, "{{RESPONSE_IDENT}}", response_ident_spec(blank.id@)),
                "{{BLANK_NAME}}",
                canvas_escape_spec(blank.id@),
            ),
            "{{LABELS}}",
            blank_labels_spec(blank, blank.answers@.len()),
        )
    }
}

/// The scoring arms for one blank's first `n` answers, each adding `value`.
pub open spec fn blank_answer_conditions(blank: Blank, n: nat, value: Seq<char>) -> Seq<char>
    decreases n,
{
    if n == 0 {
        Seq::empty()
    } else {
        blank_answer_conditions(blank, (n - 1) as nat, value) + fill(
            fill(
                fill(ADD_CONDITION_TEMPLATE@, "{{RESPIDENT}}", response_ident_spec(blank.id@)),
                "{{IDENT}}",
                answer_ident_spec(blank.id@, (n - 1) as nat),
            ),
            "{{VALUE}}",
            value,
        )
    }
}

/// The scoring arms of the first `n` blanks.
pub open spec fn blank_conditions_upto(blanks: Seq<Blank>, n: nat, value: Seq<char>) -> Seq<char>
    decreases n,
{
    if n == 0 {
        Seq::empty()
    } else {
        blank_conditions_upto(blanks, (n - 1) as nat, value) + blank_answer_conditions(
            blanks[n - 1],
            blanks[n - 1].answers@.len(),
            value,
        )
    }
}

/// A fill-in-multiple-blanks item, its blanks in prompt order, scored per
/// blank: each accepted answer of a blank adds an even share.
pub open spec fn fill_in_blank_item_spec(question: Question, fitb: FillInBlank) -> Seq<char> {
    let ordered = blanks_at(fitb.blanks@, blanks_for(fitb.blanks@, blank_markers_spec(question.prompt@)));
    let value = two_decimals(share_hundredths(ordered.len()));
    response_item_spec(
        FITB_QUESTION_TYPE@,
        question,
        blank_responses_spec(ordered, ordered.len()),
        general_condition_spec(question.feedback) + blank_conditions_upto(
            ordered,
            ordered.len(),
            value,
        ),
        blank_prompt_spec(escaped_html_spec(question.prompt@), ordered, ordered.len()),
    )
}

/// The scoring arm that credits answer `k` of the blank named `id` with
/// `value`: the response of that blank matching that answer's label.
pub open spec fn score_arm(id: Seq<char>, k: nat, value: Seq<char>) -> Seq<char> {
    fill(
        fill(fill(ADD_CONDITION_TEMPLATE@, "{{RESPIDENT}}", response_ident_spec(id)), "{{IDENT}}", answer_ident_spec(id, k)),
        "{{VALUE}}",
        value,
    )
}

/// The first `n` answers of a blank each have their arm.
proof fn lemma_answer_arms(blank: Blank, n: nat, value: Seq<char>, k: nat)
    requires
        k < n,
    ensures
        crate::text::appears_in(score_arm(blank.id@, k, value), blank_answer_conditions(blank, n, value)),
    decreases n,
{
    let before = blank_answer_conditions(blank, (n - 1) as nat, value);
    let arm = score_arm(blank.id@, (n - 1) as nat, value);
    assert(blank_answer_conditions(blank, n, value) == before + arm);
    if k == n - 1 {
        crate::text::lemma_appears_whole(arm);
        crate::text::lemma_appears_around(arm, before, arm);
    } else {
        lemma_answer_arms(blank, (n - 1) as nat, value, k);
        crate::text::lemma_appears_around(before, arm, score_arm(blank.id@, k, value));
    }
}

/// Every answer of each of the first `n` blanks has its arm.
proof fn lemma_blank_arms(blanks: Seq<Blank>, n: nat, value: Seq<char>, j: int, k: nat)
    requires
        0 <= j < n <= blanks.len(),
        k < blanks[j].answers@.len(),
    ensures
        crate::text::appears_in(score_arm(blanks[j].id@, k, value), blank_conditions_upto(blanks, n, value)),
    decreases n,
{
    let before = blank_conditions_upto(blanks, (n - 1) as nat, value);
    let last = blank_answer_conditions(blanks[n - 1], blanks[n - 1].answers@.len(), value);
    assert(blank_conditions_upto(blanks, n, value) == before + last);
    if j == n - 1 {
        lemma_answer_arms(blanks[j], blanks[j].answers@.len(), value, k);
        crate::text::lemma_appears_around(last, before, score_arm(blanks[j].id@, k, value));
    } else {
        lemma_blank_arms(blanks, (n - 1) as nat, value, j, k);
        crate::text::lemma_appears_around(before, last, score_arm(blanks[j].id@, k, value));
    }
}

/// Every accepted answer of every blank scores: the item of a
/// fill-in-the-blank question is the response item whose scoring, after
/// the general-feedback arm, holds for each blank (in prompt order) and
/// each of its accepted answers an arm crediting that answer with the
/// blank's even share.
#[verifier::spinoff_prover]
pub proof fn every_accepted_answer_scores(q: Question, fitb: FillInBlank)
    requires
        q.kind == QuestionKind::FillInBlank(fitb),
    ensures
        ({
            let ordered = blanks_at(fitb.blanks@, blanks_for(fitb.blanks@, blank_markers_spec(q.prompt@)));
            let value = two_decimals(share_hundredths(ordered.len()));
            exists|responses: Seq<char>, conditions: Seq<char>, prompt: Seq<char>|
                #![trigger response_item_spec(FITB_QUESTION_TYPE@, q, responses, general_condition_spec(q.feedback) + conditions, prompt)]
                {
                &&& item_xml_spec(q) == response_item_spec(
                    FITB_QUESTION_TYPE@,
                    q,
                    responses,
                    general_condition_spec(q.feedback) + conditions,
                    prompt,
                )
                &&& forall|j: int, k: nat|
                    0 <= j < ordered.len() && k < ordered[j].answers@.len() ==> #[trigger] crate::text::appears_in(
                        score_arm(ordered[j].id@, k, value),
                        conditions,
                    )
            }
        }),
{
    let ordered = blanks_at(fitb.blanks@, blanks_for(fitb.blanks@, blank_markers_spec(q.prompt@)));
    let value = two_decimals(share_hundredths(ordered.len()));
    let conditions = blank_conditions_upto(ordered, ordered.len(), value);
    assert forall|j: int, k: nat| 0 <= j < ordered.len() && k < ordered[j].answers@.len() implies #[trigger] crate::text::appears_in(
        score_arm(ordered[j].id@, k, value),
        conditions,
    ) by {
        lemma_blank_arms(ordered, ordered.len(), value, j, k);
    }
    assert(item_xml_spec(q) == response_item_spec(
        FITB_QUESTION_TYPE@,
        q,
        blank_responses_spec(ordered, ordered.len()),
        general_condition_spec(q.feedback) + conditions,
        blank_prompt_spec(escaped_html_spec(q.prompt@), ordered, ordered.len()),
    ));
}

/// Render one blank's `<response_label>`s.
fn blank_labels_xml(blank: &Blank) -> (res: String)
    ensures
        res@ == blank_labels_spec(*blank, blank.answers@.len()),
{
    let mut out: Vec<char> = Vec::new();
    let mut i: usize = 0;
    while i < blank.answers.len()
        invariant
            i <= blank.answers@.len(),
            out@ == blank_labels_spec(*blank, i as nat),
        decreases blank.answers@.len() - i,
    {
        let ident = answer_ident(blank.id.as_str(), i);
        let xml = replace_str(BLANK_ANSWER_LABEL_TEMPLATE, "{{LABEL_IDENT}}", ident.as_str());
        let answer = escape_xml(blank.answers[i].as_str());
        let xml = replace_str(xml.as_str(), "{{ANSWER}}", answer.as_str());
        extend_str(&mut out, xml.as_str());
        i = i + 1;
    }
    string_from_chars(&out)
}

/// The blanks of `fitb` at `order`, cloned.
fn blanks_in_order(blanks: &Vec<Blank>, order: &Vec<usize>) -> (res: Vec<Blank>)
    requires
        forall|k: int| 0 <= k < order@.len() ==> #[trigger] order@[k] < blanks@.len(),
    ensures
        res@.len() == order@.len(),
        forall|k: int| 0 <= k < order@.len() ==> {
            &&& #[trigger] res@[k].id@ == blanks@[order@[k] as int].id@
            &&& res@[k].answers@.map_values(|a: String| a@) == blanks@[order@[k] as int].answers@.map_values(|a: String| a@)
        },
{
    let mut out: Vec<Blank> = Vec::new();
    let mut k: usize = 0;
    while k < order.len()
        invariant
            k <= order@.len(),
            forall|j: int| 0 <= j < order@.len() ==> #[trigger] order@[j] < blanks@.len(),
            out@.len() == k,
            forall|j: int| 0 <= j < k ==> {
                &&& #[trigger] out@[j].id@ == blanks@[order@[j] as int].id@
                &&& out@[j].answers@.map_values(|a: String| a@) == blanks@[order@[j] as int].answers@.map_values(|a: String| a@)
            },
        decreases order@.len() - k,
    {
        let b = &blanks[order[k]];
        let mut answers: Vec<String> = Vec::new();
        let mut a: usize = 0;
        while a < b.answers.len()
            invariant
                a <= b.answers@.len(),
                answers@.map_values(|t: String| t@) == b.answers@.subrange(0, a as int).map_values(|t: String| t@),
            decreases b.answers@.len() - a,
        {
            answers.push(b.answers[a].clone());
            assert(b.answers@.subrange(0, a + 1).map_values(|t: String| t@) =~= b.answers@.subrange(
                0,
                a as int,
            ).map_values(|t: String| t@).push(b.answers@[a as int]@));
            assert(answers@.map_values(|t: String| t@) =~= b.answers@.subrange(0, a + 1).map_values(|t: String| t@));
            a = a + 1;
        }
        assert(b.answers@.subrange(0, b.answers@.len() as int) =~= b.answers@);
        out.push(Blank { id: b.id.clone(), answers, match_mode: b.match_mode });
        k = k + 1;
    }
    out
}

/// Whether two blank lists agree in every id and answer text.
pub open spec fn same_blanks(a: Seq<Blank>, b: Seq<Blank>) -> bool {
    &&& a.len() == b.len()
    &&& forall|k: int| 0 <= k < a.len() ==> {
        &&& #[trigger] a[k].id@ == b[k].id@
        &&& a[k].answers@.map_values(|t: String| t@) == b[k].answers@.map_values(|t: String| t@)
    }
}

proof fn lemma_same_blanks_xml(a: Seq<Blank>, b: Seq<Blank>, n: nat, value: Seq<char>, html: Seq<char>)
    requires
        same_blanks(a, b),
        n <= a.len(),
    ensures
        blank_responses_spec(a, n) == blank_responses_spec(b, n),
        blank_conditions_upto(a, n, value) == blank_conditions_upto(b, n, value),
        blank_prompt_spec(html, a, n) == blank_prompt_spec(html, b, n),
    decreases n,
{
    if n > 0 {
        lemma_same_blanks_xml(a, b, (n - 1) as nat, value, html);
        let x = a[n - 1];
        let y = b[n - 1];
        assert(a[n - 1].id@ == b[n - 1].id@);
        let xs = x.answers@.map_values(|t: String| t@);
        let ys = y.answers@.map_values(|t: String| t@);
        assert(xs == ys);
        assert(xs.len() == x.answers@.len());
        assert(ys.len() == y.answers@.len());
        lemma_same_blank(x, y, x.answers@.len(), value);
    }
}

proof fn lemma_same_blank(x: Blank, y: Blank, n: nat, value: Seq<char>)
    requires
        x.id@ == y.id@,
        x.answers@.map_values(|t: String| t@) == y.answers@.map_values(|t: String| t@),
        n <= x.answers@.len(),
    ensures
        blank_labels_spec(x, n) == blank_labels_spec(y, n),
        blank_answer_conditions(x, n, value) == blank_answer_conditions(y, n, value),
    decreases n,
{
    if n > 0 {
        lemma_same_blank(x, y, (n - 1) as nat, value);
        let xs = x.answers@.map_values(|t: String| t@);
        let ys = y.answers@.map_values(|t: String| t@);
        assert(xs.len() == x.answers@.len());
        assert(ys.len() == y.answers@.len());
        assert(x.answers@.map_values(|t: String| t@)[n - 1] == x.answers@[n - 1]@);
        assert(y.answers@.map_values(|t: String| t@)[n - 1] == y.answers@[n - 1]@);
    }
}

/// Render a fill-in-multiple-blanks item, scored per blank.
pub fn fill_in_blank_item_xml(question: &Question, fitb: &FillInBlank) -> (res: String)
    ensures
        res@ == fill_in_blank_item_spec(*question, *fitb),
{
    let order = fitb.ordered(question.prompt.as_str());
    let ghost positions = blanks_for(fitb.blanks@, blank_markers_spec(question.prompt@));
    proof {
        assert forall|k: int| 0 <= k < order@.len() implies #[trigger] order@[k] < fitb.blanks@.len() by {
            crate::model::lemma_blanks_for_in_range(fitb.blanks@, blank_markers_spec(question.prompt@));
            assert(order@.map_values(|i: usize| i as nat)[k] == positions[k]);
        }
    }
    let blanks = blanks_in_order(&fitb.blanks, &order);
    let ghost ordered = blanks_at(fitb.blanks@, positions);
    assert(same_blanks(blanks@, ordered)) by {
        assert(positions.len() == order@.len()) by {
            assert(order@.map_values(|i: usize| i as nat).len() == order@.len());
        }
        assert forall|k: int| 0 <= k < blanks@.len() implies {
            &&& #[trigger] blanks@[k].id@ == ordered[k].id@
            &&& blanks@[k].answers@.map_values(|t: String| t@) == ordered[k].answers@.map_values(|t: String| t@)
        } by {
            assert(order@.map_values(|i: usize| i as nat)[k] == positions[k]);
        }
    }
    let value = even_share_score(blanks.len());
    let mut responses: Vec<char> = Vec::new();
    let mut conditions: Vec<char> = Vec::new();
    let general = general_condition_xml(&question.feedback);
    extend_str(&mut conditions, general.as_str());
    let ghost start = conditions@;
    let mut html = escaped_html(question.prompt.as_str());
    let ghost html0 = html@;
    let mut k: usize = 0;
    assert(conditions@ =~= start + blank_conditions_upto(blanks@, 0, value@));
    while k < blanks.len()
        invariant
            k <= blanks@.len(),
            responses@ == blank_responses_spec(blanks@, k as nat),
            conditions@ == start + blank_conditions_upto(blanks@, k as nat, value@),
            html@ == blank_prompt_spec(html0, blanks@, k as nat),
        decreases blanks@.len() - k,
    {
        let blank = &blanks[k];
        let ident = response_ident(blank.id.as_str());
        let xml = replace_str(BLANK_RESPONSE_TEMPLATE, "{{RESPONSE_IDENT}}", ident.as_str());
        let name = escape_xml(blank.id.as_str());
        let xml = replace_str(xml.as_str(), "{{BLANK_NAME}}", name.as_str());
        let labels = blank_labels_xml(blank);
        let xml = replace_str(xml.as_str(), "{{LABELS}}", labels.as_str());
        extend_str(&mut responses, xml.as_str());
        let ghost before = conditions@;
        let mut a: usize = 0;
        while a < blank.answers.len()
            invariant
                a <= blank.answers@.len(),
                ident@ == response_ident_spec(blank.id@),
                conditions@ == before + blank_answer_conditions(*blank, a as nat, value@),
            decreases blank.answers@.len() - a,
        {
            let label = answer_ident(blank.id.as_str(), a);
            let arm = replace_str(ADD_CONDITION_TEMPLATE, "{{RESPIDENT}}", ident.as_str());
            let arm = replace_str(arm.as_str(), "{{IDENT}}", label.as_str());
            let arm = replace_str(arm.as_str(), "{{VALUE}}", value.as_str());
            extend_str(&mut conditions, arm.as_str());
            assert(conditions@ =~= before + blank_answer_conditions(*blank, (a + 1) as nat, value@));
            a = a + 1;
        }
        assert(conditions@ =~= start + blank_conditions_upto(blanks@, (k + 1) as nat, value@));
        let marker = blank_marker(blank.id.as_str());
        let mut reference: Vec<char> = Vec::new();
        extend_str(&mut reference, "[");
        extend_str(&mut reference, blank.id.as_str());
        extend_str(&mut reference, "]");
        let reference = string_from_chars(&reference);
        html = replace_str(html.as_str(), marker.as_str(), reference.as_str());
        assert(reference@ =~= "["@ + blank.id@ + "]"@);
        k = k + 1;
    }
    proof {
        lemma_same_blanks_xml(blanks@, ordered, blanks@.len(), value@, html0);
    }
    let responses = string_from_chars(&responses);
    let conditions = string_from_chars(&conditions);
    fill_response_item(
        FITB_QUESTION_TYPE,
        question,
        responses.as_str(),
        conditions.as_str(),
        html.as_str(),
    )
}


/// The shared right-hand options, the first `n` of them.
pub open spec fn match_options_spec(options: Seq<Seq<char>>, n: nat) -> Seq<char>
    decreases n,
{
    if n == 0 {
        Seq::empty()
    } else {
        match_options_spec(options, (n - 1) as nat) + fill(
            fill(MATCH_OPTION_TEMPLATE@, "{{OPTION_IDENT}}", answer_ident_at((n - 1) as nat)),
            "{{RIGHT}}",
            canvas_escape_spec(options[n - 1]),
        )
    }
}

/// One `<response_lid>` per left prompt of the first `n` pairs, each
/// offering `options_xml`.
pub open spec fn match_responses_spec(pairs: Seq<MatchPair>, n: nat, options_xml: Seq<char>) -> Seq<
    char,
>
    decreases n,
{
    if n == 0 {
        Seq::empty()
    } else {
        match_responses_spec(pairs, (n - 1) as nat, options_xml) + fill(
            fill(
                fill(MATCH_RESPONSE_TEMPLATE@, "{{RESPONSE_IDENT}}", response_at((n - 1) as nat)),
                "{{LEFT}}",
                canvas_escape_spec(pairs[n - 1].left@),
            ),
            "{{OPTIONS}}",
            options_xml,
        )
    }
}

/// Where `right` first appears among `options`, or 0.
pub open spec fn position_of(options: Seq<Seq<char>>, right: Seq<char>) -> nat {
    if exists|i: int| 0 <= i < options.len() && options[i] == right {
        (choose|i: int|
            0 <= i < options.len() && options[i] == right && forall|k: int|
                0 <= k < i ==> #[trigger] options[k] != right) as nat
    } else {
        0
    }
}

/// The per-pair scoring arms of the first `n` pairs, each adding `value`
/// for the pair's own answer.
pub open spec fn match_conditions_spec(
    pairs: Seq<MatchPair>,
    options: Seq<Seq<char>>,
    n: nat,
    value: Seq<char>,
) -> Seq<char>
    decreases n,
{
    if n == 0 {
        Seq::empty()
    } else {
        match_conditions_spec(pairs, options, (n - 1) as nat, value) + fill(
            fill(
                fill(ADD_CONDITION_TEMPLATE@, "{{RESPIDENT}}", response_at((n - 1) as nat)),
                "{{IDENT}}",
                answer_ident_at(position_of(options, pairs[n - 1].right@)),
            ),
            "{{VALUE}}",
            value,
        )
    }
}

/// A matching item: one response per left prompt offering every option,
/// scored per pair.
pub open spec fn matching_item_spec(question: Question, matching: Matching) -> Seq<char> {
    let options = options_spec(matching);
    let options_xml = match_options_spec(options, options.len());
    let pairs = matching.pairs@;
    response_item_spec(
        MATCHING_QUESTION_TYPE@,
        question,
        match_responses_spec(pairs, pairs.len(), options_xml),
        general_condition_spec(question.feedback) + match_conditions_spec(
            pairs,
            options,
            pairs.len(),
            two_decimals(share_hundredths(pairs.len())),
        ),
        escaped_html_spec(question.prompt@),
    )
}

/// Where `right` first appears among `options`, or 0.
fn option_position(options: &Vec<String>, right: &String) -> (res: usize)
    ensures
        res == position_of(options@.map_values(|o: String| o@), right@),
{
    let ghost view = options@.map_values(|o: String| o@);
    let mut i: usize = 0;
    while i < options.len()
        invariant
            i <= options.len(),
            view == options@.map_values(|o: String| o@),
            forall|k: int| 0 <= k < i ==> view[k] != right@,
        decreases options.len() - i,
    {
        if str_eq(options[i].as_str(), right.as_str()) {
            assert(view[i as int] == right@);
            let ghost j = choose|j: int|
                0 <= j < view.len() && view[j] == right@ && forall|k: int|
                    0 <= k < j ==> #[trigger] view[k] != right@;
            assert(j == i) by {
                if j < i {
                    assert(view[j] != right@);
                }
                if j > i {
                    assert(view[i as int] != right@);
                }
            }
            return i;
        }
        i = i + 1;
    }
    0
}

/// Render a matching item: one response per left prompt, scored per pair.
#[verifier::rlimit(30)]
pub fn matching_item_xml(question: &Question, matching: &Matching) -> (res: String)
    ensures
        res@ == matching_item_spec(*question, *matching),
{
    let options = matching.options();
    let ghost opts = options@.map_values(|o: String| o@);
    let mut options_xml: Vec<char> = Vec::new();
    let mut i: usize = 0;
    while i < options.len()
        invariant
            i <= options@.len(),
            opts == options@.map_values(|o: String| o@),
            options_xml@ == match_options_spec(opts, i as nat),
        decreases options@.len() - i,
    {
        let ident = answer_ident_at_exec(i);
        let xml = replace_str(MATCH_OPTION_TEMPLATE, "{{OPTION_IDENT}}", ident.as_str());
        let right = escape_xml(options[i].as_str());
        let xml = replace_str(xml.as_str(), "{{RIGHT}}", right.as_str());
        extend_str(&mut options_xml, xml.as_str());
        i = i + 1;
    }
    let options_xml = string_from_chars(&options_xml);
    let value = even_share_score(matching.pairs.len());
    let general = general_condition_xml(&question.feedback);
    let mut responses: Vec<char> = Vec::new();
    let mut conditions: Vec<char> = Vec::new();
    extend_str(&mut conditions, general.as_str());
    let ghost start = conditions@;
    let mut k: usize = 0;
    assert(conditions@ =~= start + match_conditions_spec(matching.pairs@, opts, 0, value@));
    while k < matching.pairs.len()
        invariant
            k <= matching.pairs@.len(),
            opts == options@.map_values(|o: String| o@),
            responses@ == match_responses_spec(matching.pairs@, k as nat, options_xml@),
            conditions@ == start + match_conditions_spec(matching.pairs@, opts, k as nat, value@),
        decreases matching.pairs@.len() - k,
    {
        let pair = &matching.pairs[k];
        let response = response_at_exec(k);
        let xml = replace_str(MATCH_RESPONSE_TEMPLATE, "{{RESPONSE_IDENT}}", response.as_str());
        let left = escape_xml(pair.left.as_str());
        let xml = replace_str(xml.as_str(), "{{LEFT}}", left.as_str());
        let xml = replace_str(xml.as_str(), "{{OPTIONS}}", options_xml.as_str());
        extend_str(&mut responses, xml.as_str());
        let correct = option_position(&options, &pair.right);
        let ident = answer_ident_at_exec(correct);
        let arm = replace_str(ADD_CONDITION_TEMPLATE, "{{RESPIDENT}}", response.as_str());
        let arm = replace_str(arm.as_str(), "{{IDENT}}", ident.as_str());
        let arm = replace_str(arm.as_str(), "{{VALUE}}", value.as_str());
        extend_str(&mut conditions, arm.as_str());
        assert(conditions@ =~= start + match_conditions_spec(
            matching.pairs@,
            opts,
            (k + 1) as nat,
            value@,
        ));
        k = k + 1;
    }
    let responses = string_from_chars(&responses);
    let conditions = string_from_chars(&conditions);
    let prompt = escaped_html(question.prompt.as_str());
    fill_response_item(
        MATCHING_QUESTION_TYPE,
        question,
        responses.as_str(),
        conditions.as_str(),
        prompt.as_str(),
    )
}

// ---------------------------------------------------------------------------
// Ordering
// ---------------------------------------------------------------------------

/// The item text at `index`, or nothing when there is none.
pub open spec fn item_text(items: Seq<String>, index: int) -> Seq<char> {
    if 0 <= index < items.len() {
        items[index]@
    } else {
        Seq::empty()
    }
}

/// The draggable options for the first `n` positions of `order`.
pub open spec fn order_options_spec(items: Seq<String>, order: Seq<usize>, n: nat) -> Seq<char>
    decreases n,
{
    if n == 0 {
        Seq::empty()
    } else {
        let index = order[n - 1];
        order_options_spec(items, order, (n - 1) as nat) + fill(
            fill(ORDER_OPTION_TEMPLATE@, "{{OPTION_IDENT}}", answer_ident_at(index as nat)),
            "{{TEXT}}",
            escaped_html_spec(item_text(items, index as int)),
        )
    }
}

/// The idents of the first `n` positions of `order`, comma-separated.
pub open spec fn order_ids_spec(order: Seq<usize>, n: nat) -> Seq<char>
    decreases n,
{
    if n == 0 {
        Seq::empty()
    } else if n == 1 {
        answer_ident_at(order[0] as nat)
    } else {
        order_ids_spec(order, (n - 1) as nat) + ","@ + answer_ident_at(order[n - 1] as nat)
    }
}

/// The correct-order terms for the first `n` authored positions.
pub open spec fn order_varequals_spec(n: nat) -> Seq<char>
    decreases n,
{
    if n == 0 {
        Seq::empty()
    } else {
        order_varequals_spec((n - 1) as nat) + fill(
            ORDER_VAREQUAL_TEMPLATE@,
            "{{OPTION_IDENT}}",
            answer_ident_at((n - 1) as nat),
        )
    }
}

/// An ordering item presenting the items in `order`, scored only for the
/// authored order, all or nothing.
pub open spec fn ordering_item_spec(question: Question, ordering: OrderedItems, order: Seq<usize>) -> Seq<
    char,
> {
    let items = ordering.items@;
    let conditions = general_condition_spec(question.feedback) + fill(
        ORDER_CONDITION_TEMPLATE@,
        "{{VAREQUALS}}",
        order_varequals_spec(items.len()),
    );
    fill(
        fill(
            fill(
                fill(
                    fill(
                        item_header_spec(ORDERING_ITEM_TEMPLATE@, question),
                        "{{ANSWER_IDS}}",
                        order_ids_spec(order, order.len()),
                    ),
                    "{{OPTIONS}}",
                    order_options_spec(items, order, order.len()),
                ),
                "{{CONDITIONS}}",
                conditions,
            ),
            "{{ITEMFEEDBACK}}",
            general_itemfeedback_spec(question.feedback),
        ),
        "{{PROMPT}}",
        escaped_html_spec(question.prompt@),
    )
}

/// Render an ordering item: draggable options in display order, scored only
/// when fully in order. The display order is the items sorted by text,
/// never the authored order itself.
pub fn ordering_item_xml(question: &Question, ordering: &OrderedItems) -> (res: String)
    ensures
        res@ == ordering_item_spec(*question, *ordering, presented_spec(ordering.items@.map_values(|s: String| s@))),
{
    let order = ordering.display_order();
    let items = &ordering.items;
    let mut options: Vec<char> = Vec::new();
    let mut ids: Vec<char> = Vec::new();
    let mut k: usize = 0;
    while k < order.len()
        invariant
            k <= order@.len(),
            options@ == order_options_spec(items@, order@, k as nat),
            ids@ == order_ids_spec(order@, k as nat),
        decreases order@.len() - k,
    {
        let index = order[k];
        let ident = answer_ident_at_exec(index);
        let text = if index < items.len() {
            escaped_html(items[index].as_str())
        } else {
            let empty = String::new();
            escaped_html(empty.as_str())
        };
        assert(text@ == escaped_html_spec(item_text(items@, index as int)));
        let xml = replace_str(ORDER_OPTION_TEMPLATE, "{{OPTION_IDENT}}", ident.as_str());
        let xml = replace_str(xml.as_str(), "{{TEXT}}", text.as_str());
        extend_str(&mut options, xml.as_str());
        if k > 0 {
            extend_str(&mut ids, ",");
        }
        extend_str(&mut ids, ident.as_str());
        assert(ids@ =~= order_ids_spec(order@, (k + 1) as nat));
        k = k + 1;
    }
    let mut varequals: Vec<char> = Vec::new();
    let mut m: usize = 0;
    while m < items.len()
        invariant
            m <= items@.len(),
            varequals@ == order_varequals_spec(m as nat),
        decreases items@.len() - m,
    {
        let ident = answer_ident_at_exec(m);
        let xml = replace_str(ORDER_VAREQUAL_TEMPLATE, "{{OPTION_IDENT}}", ident.as_str());
        extend_str(&mut varequals, xml.as_str());
        m = m + 1;
    }
    let varequals = string_from_chars(&varequals);
    let condition = replace_str(ORDER_CONDITION_TEMPLATE, "{{VAREQUALS}}", varequals.as_str());
    let general = general_condition_xml(&question.feedback);
    let mut conditions: Vec<char> = Vec::new();
    extend_str(&mut conditions, general.as_str());
    extend_str(&mut conditions, condition.as_str());
    let conditions = string_from_chars(&conditions);
    let options = string_from_chars(&options);
    let ids = string_from_chars(&ids);
    let xml = fill_item_header(ORDERING_ITEM_TEMPLATE, question);
    let xml = replace_str(xml.as_str(), "{{ANSWER_IDS}}", ids.as_str());
    let xml = replace_str(xml.as_str(), "{{OPTIONS}}", options.as_str());
    let xml = replace_str(xml.as_str(), "{{CONDITIONS}}", conditions.as_str());
    let feedback = general_itemfeedback_xml(&question.feedback);
    let xml = replace_str(xml.as_str(), "{{ITEMFEEDBACK}}", feedback.as_str());
    let prompt = escaped_html(question.prompt.as_str());
    let res = replace_str(xml.as_str(), "{{PROMPT}}", prompt.as_str());
    assert(res@ == ordering_item_spec(*question, *ordering, order@));
    res
}

// ---------------------------------------------------------------------------
// The assessment and the package
// ---------------------------------------------------------------------------

/// How `question` renders as a QTI item: by its kind, and for an ordering
/// question with its items in their presented order.
pub open spec fn item_xml_spec(question: Question) -> Seq<char> {
    match question.kind {
        QuestionKind::TrueFalse(answer) => true_false_item_spec(question, answer),
        QuestionKind::MultipleChoice(set) => multiple_choice_item_spec(question, set),
        QuestionKind::MultipleSelect(select) => multiple_select_item_spec(question, select),
        QuestionKind::FillInBlank(fitb) => fill_in_blank_item_spec(question, fitb),
        QuestionKind::Matching(matching) => matching_item_spec(question, matching),
        QuestionKind::Ordered(ordering) => ordering_item_spec(
            question,
            ordering,
            presented_spec(ordering.items@.map_values(|s: String| s@)),
        ),
    }
}

/// Render one question to its QTI item XML, dispatching on kind.
pub fn item_xml(question: &Question) -> (res: String)
    ensures
        res@ == item_xml_spec(*question),
{
    match &question.kind {
        QuestionKind::TrueFalse(answer) => true_false_item_xml(question, answer),
        QuestionKind::MultipleChoice(set) => multiple_choice_item_xml(question, set),
        QuestionKind::MultipleSelect(select) => multiple_select_item_xml(question, select),
        QuestionKind::FillInBlank(fitb) => fill_in_blank_item_xml(question, fitb),
        QuestionKind::Matching(matching) => matching_item_xml(question, matching),
        QuestionKind::Ordered(ordering) => ordering_item_xml(question, ordering),
    }
}

/// The concatenation of `parts`.
pub open spec fn concat(parts: Seq<Seq<char>>) -> Seq<char>
    decreases parts.len(),
{
    if parts.len() == 0 {
        Seq::empty()
    } else {
        concat(parts.drop_last()) + parts.last()
    }
}

/// The assessment document around the rendered `items`; the items are
/// filled last so their text cannot collide with a placeholder.
pub open spec fn assessment_spec(ident: Seq<char>, name: Seq<char>, items: Seq<Seq<char>>) -> Seq<
    char,
> {
    fill(
        fill(fill(ASSESSMENT_TEMPLATE@, "{{IDENT}}", canvas_escape_spec(ident)), "{{TITLE}}",
        canvas_escape_spec(name)),
        "{{ITEMS}}",
        concat(items),
    )
}

/// Each question of `items` as a QTI item, in order.
pub open spec fn items_xml_spec(items: Seq<Question>) -> Seq<Seq<char>> {
    Seq::new(items.len(), |i: int| item_xml_spec(items[i]))
}

/// The parts before `m` begin the concatenation of them all.
proof fn lemma_concat_prefix(parts: Seq<Seq<char>>, m: int)
    requires
        0 <= m <= parts.len(),
    ensures
        concat(parts.take(m)).len() <= concat(parts).len(),
        concat(parts).subrange(0, concat(parts.take(m)).len() as int) == concat(parts.take(m)),
    decreases parts.len(),
{
    if m == parts.len() {
        assert(parts.take(m) =~= parts);
        assert(concat(parts).subrange(0, concat(parts).len() as int) =~= concat(parts));
    } else {
        let shorter = parts.drop_last();
        assert(parts.take(m) =~= shorter.take(m));
        lemma_concat_prefix(shorter, m);
        let len = concat(parts.take(m)).len() as int;
        assert(concat(parts) == concat(shorter) + parts.last());
        assert(concat(parts).subrange(0, len) =~= concat(shorter).subrange(0, len));
    }
}

/// Every question of a bank becomes exactly one item of the assessment, in
/// bank order: there are as many items as questions, item `i` is how
/// question `i` renders, and it stands in the assessment's item list right
/// after the items of the questions before it.
#[verifier::spinoff_prover]
pub proof fn every_question_is_one_item(items: Seq<Question>)
    ensures
        items_xml_spec(items).len() == items.len(),
        forall|i: int| 0 <= i < items.len() ==> #[trigger] items_xml_spec(items)[i] == item_xml_spec(items[i]),
        forall|i: int|
            0 <= i < items.len() ==> crate::text::occurs_at(
                concat(items_xml_spec(items)),
                item_xml_spec(#[trigger] items[i]),
                concat(items_xml_spec(items).take(i)).len() as int,
            ),
{
    let parts = items_xml_spec(items);
    assert forall|i: int| 0 <= i < items.len() implies crate::text::occurs_at(
        concat(parts),
        item_xml_spec(#[trigger] items[i]),
        concat(parts.take(i)).len() as int,
    ) by {
        lemma_concat_prefix(parts, i + 1);
        assert(parts.take(i + 1).drop_last() =~= parts.take(i));
        let before = concat(parts.take(i));
        let with = concat(parts.take(i + 1));
        assert(with == before + parts[i]);
        let at = before.len() as int;
        assert(concat(parts).subrange(at, at + parts[i].len()) =~= with.subrange(at, at + parts[i].len()));
        assert(with.subrange(at, at + parts[i].len()) =~= parts[i]);
    }
}

/// Render the assessment document, one item per question. Every kind
/// renders, so this never fails.
pub fn assessment_xml(ident: &str, bank: &ItemBank) -> (res: Result<String, Error>)
    ensures
        res matches Ok(xml) && xml@ == assessment_spec(ident@, bank.name@, items_xml_spec(bank.items@)),
{
    let mut items: Vec<char> = Vec::new();
    let ghost mut rendered: Seq<Seq<char>> = Seq::empty();
    let mut i: usize = 0;
    while i < bank.items.len()
        invariant
            i <= bank.items@.len(),
            rendered.len() == i,
            rendered == items_xml_spec(bank.items@).take(i as int),
            items@ == concat(rendered),
        decreases bank.items@.len() - i,
    {
        let xml = item_xml(&bank.items[i]);
        extend_str(&mut items, xml.as_str());
        proof {
            let next = rendered.push(xml@);
            assert(next.drop_last() =~= rendered);
            assert(next =~= items_xml_spec(bank.items@).take(i + 1));
            rendered = next;
        }
        i = i + 1;
    }
    assert(rendered =~= items_xml_spec(bank.items@));
    let items = string_from_chars(&items);
    let escaped_ident = escape_xml(ident);
    let title = escape_xml(bank.name.as_str());
    let xml = replace_str(ASSESSMENT_TEMPLATE, "{{IDENT}}", escaped_ident.as_str());
    let xml = replace_str(xml.as_str(), "{{TITLE}}", title.as_str());
    let xml = replace_str(xml.as_str(), "{{ITEMS}}", items.as_str());
    assert(xml@ == assessment_spec(ident@, bank.name@, rendered));
    Ok(xml)
}

/// The assessment's identifier for a bank named `name`.
pub open spec fn assessment_ident_spec(name: Seq<char>) -> Seq<char> {
    "assessment_"@ + sanitize_spec(name)
}

/// The files of the package: the manifest, the assessment under
/// `<ident>/<ident>.xml`, and each image under `web_resources/`.
pub open spec fn package_files(
    name: Seq<char>,
    assessment: Seq<char>,
    images: Seq<(String, Vec<u8>)>,
) -> Seq<(Seq<char>, Seq<u8>)> {
    let ident = assessment_ident_spec(name);
    let href = ident + "/"@ + ident + ".xml"@;
    seq![
        ("imsmanifest.xml"@, encode_utf8(manifest_spec(ident, href, images))),
        (href, encode_utf8(assessment)),
    ] + images.map_values(|f: (String, Vec<u8>)| (WEB_RESOURCES_DIR@ + "/"@ + f.0@, f.1@))
}

/// The bytes of `text`'s UTF-8 encoding.
fn utf8_bytes(text: &String) -> (res: Vec<u8>)
    ensures
        res@ == encode_utf8(text@),
{
    vstd::slice::slice_to_vec(text.as_str().as_bytes())
}

/// Render `bank` as the bytes of a Canvas New Quizzes QTI package.
///
/// `images` supplies the bytes of the local images the questions reference
/// (see [`local_image_paths`]); each is bundled under `web_resources/` and
/// declared in the manifest. Fails only where the zip writer gives up on
/// the files.
pub fn to_qti(bank: &ItemBank, images: &[(String, Vec<u8>)]) -> (res: Result<Vec<u8>, Error>)
    ensures
        match crate::export::zip_archive(package_files(
            bank.name@,
            assessment_spec(assessment_ident_spec(bank.name@), bank.name@, items_xml_spec(bank.items@)),
            images@,
        )) {
            Ok(bytes) => res matches Ok(b) && b@ == bytes,
            Err(io) => res matches Err(e) && if io { e is Io } else { e is Export },
        },
{
    let name = sanitize_ident(bank.name.as_str());
    let mut ident: Vec<char> = Vec::new();
    extend_str(&mut ident, "assessment_");
    extend_str(&mut ident, name.as_str());
    let ident = string_from_chars(&ident);
    let mut href: Vec<char> = Vec::new();
    extend_str(&mut href, ident.as_str());
    extend_str(&mut href, "/");
    extend_str(&mut href, ident.as_str());
    extend_str(&mut href, ".xml");
    let href = string_from_chars(&href);
    let assessment = match assessment_xml(ident.as_str(), bank) {
        Ok(xml) => xml,
        Err(e) => return Err(e),
    };
    let manifest = manifest_xml(ident.as_str(), href.as_str(), images);
    let mut files: Vec<(String, Vec<u8>)> = Vec::new();
    files.push(("imsmanifest.xml".to_string(), utf8_bytes(&manifest)));
    files.push((href.clone(), utf8_bytes(&assessment)));
    let mut i: usize = 0;
    while i < images.len()
        invariant
            i <= images@.len(),
            files@.len() == 2 + i,
            crate::export::files_view(files@) == seq![
                ("imsmanifest.xml"@, encode_utf8(manifest@)),
                (href@, encode_utf8(assessment@)),
            ] + images@.subrange(0, i as int).map_values(
                |f: (String, Vec<u8>)| (WEB_RESOURCES_DIR@ + "/"@ + f.0@, f.1@),
            ),
        decreases images@.len() - i,
    {
        let mut path: Vec<char> = Vec::new();
        extend_str(&mut path, WEB_RESOURCES_DIR);
        extend_str(&mut path, "/");
        extend_str(&mut path, images[i].0.as_str());
        let bytes = vstd::slice::slice_to_vec(images[i].1.as_slice());
        let ghost before = crate::export::files_view(files@);
        files.push((string_from_chars(&path), bytes));
        assert(crate::export::files_view(files@) =~= before.push(
            (WEB_RESOURCES_DIR@ + "/"@ + images@[i as int].0@, images@[i as int].1@),
        ));
        assert(images@.subrange(0, i + 1).map_values(
            |f: (String, Vec<u8>)| (WEB_RESOURCES_DIR@ + "/"@ + f.0@, f.1@),
        ) =~= images@.subrange(0, i as int).map_values(
            |f: (String, Vec<u8>)| (WEB_RESOURCES_DIR@ + "/"@ + f.0@, f.1@),
        ).push((WEB_RESOURCES_DIR@ + "/"@ + images@[i as int].0@, images@[i as int].1@)));
        i = i + 1;
    }
    assert(images@.subrange(0, images@.len() as int) =~= images@);
    assert(crate::export::files_view(files@) =~= package_files(bank.name@, assessment@, images@));
    crate::export::zip_package("QTI zip package", &files)
}

/// The reminder for a blank authored as a regex, which exports as literal
/// text.
pub open spec fn reminder_spec(id: Seq<char>, blank: Seq<char>) -> Seq<char> {
    "question "@ + debug_str(id) + ": set blank "@ + debug_str(blank)
        + " to \"Regular Expression Match\" in New Quizzes (it exported as literal text)"@
}

/// The reminders for the regex blanks of the first `n` blanks of question
/// `id`.
pub open spec fn blank_reminders(id: Seq<char>, blanks: Seq<Blank>, n: nat) -> Seq<Seq<char>>
    decreases n,
{
    if n == 0 {
        Seq::empty()
    } else {
        blank_reminders(id, blanks, (n - 1) as nat) + if blanks[n - 1].match_mode
            == MatchMode::Regex {
            seq![reminder_spec(id, blanks[n - 1].id@)]
        } else {
            Seq::empty()
        }
    }
}

/// The reminders of the first `n` questions.
pub open spec fn reminders_spec(items: Seq<Question>, n: nat) -> Seq<Seq<char>>
    decreases n,
{
    if n == 0 {
        Seq::empty()
    } else {
        reminders_spec(items, (n - 1) as nat) + match items[n - 1].kind {
            QuestionKind::FillInBlank(fitb) => blank_reminders(
                items[n - 1].id@,
                fitb.blanks@,
                fitb.blanks@.len(),
            ),
            _ => Seq::empty(),
        }
    }
}

/// Reminders about content that can't fully round-trip through the Canvas
/// item-bank import: every fill-in-the-blank blank authored with `match:
/// regex` exports as literal text, and must be switched to "Regular
/// Expression Match" by hand. Empty when nothing needs attention.
pub fn import_reminders(bank: &ItemBank) -> (res: Vec<String>)
    ensures
        res@.map_values(|r: String| r@) == reminders_spec(bank.items@, bank.items@.len()),
{
    let mut out: Vec<String> = Vec::new();
    let mut i: usize = 0;
    while i < bank.items.len()
        invariant
            i <= bank.items@.len(),
            out@.map_values(|r: String| r@) == reminders_spec(bank.items@, i as nat),
        decreases bank.items@.len() - i,
    {
        let question = &bank.items[i];
        let ghost before = out@.map_values(|r: String| r@);
        match &question.kind {
            QuestionKind::FillInBlank(fitb) => {
                let mut k: usize = 0;
                while k < fitb.blanks.len()
                    invariant
                        k <= fitb.blanks@.len(),
                        out@.map_values(|r: String| r@) == before + blank_reminders(
                            question.id@,
                            fitb.blanks@,
                            k as nat,
                        ),
                    decreases fitb.blanks@.len() - k,
                {
                    let blank = &fitb.blanks[k];
                    let ghost mid = out@.map_values(|r: String| r@);
                    if blank.match_mode == MatchMode::Regex {
                        let mut text: Vec<char> = Vec::new();
                        extend_str(&mut text, "question ");
                        extend_str(&mut text, debug_quoted(question.id.as_str()).as_str());
                        extend_str(&mut text, ": set blank ");
                        extend_str(&mut text, debug_quoted(blank.id.as_str()).as_str());
                        extend_str(
                            &mut text,
                            " to \"Regular Expression Match\" in New Quizzes (it exported as literal text)",
                        );
                        out.push(string_from_chars(&text));
                        assert(out@.map_values(|r: String| r@) =~= mid.push(
                            reminder_spec(question.id@, blank.id@),
                        ));
                    }
                    assert(out@.map_values(|r: String| r@) =~= before + blank_reminders(
                        question.id@,
                        fitb.blanks@,
                        (k + 1) as nat,
                    ));
                    k = k + 1;
                }
            },
            _ => {
                assert(before + Seq::<Seq<char>>::empty() =~= before);
            },
        }
        i = i + 1;
    }
    out
}

/// The destinations of the image starts among `events`, in order.
pub open spec fn image_dests(events: Seq<MdEventView>) -> Seq<Seq<char>>
    decreases events.len(),
{
    if events.len() == 0 {
        Seq::empty()
    } else if events.last().kind == MdKind::Start && events.last().tag == MdTag::Image {
        image_dests(events.drop_last()).push(events.last().text)
    } else {
        image_dests(events.drop_last())
    }
}

/// The destinations of the images `markdown` references, in order.
pub open spec fn image_urls_spec(markdown: Seq<char>) -> Seq<Seq<char>> {
    image_dests(md_events(markdown, 0))
}

/// The image URLs referenced by a Markdown `prompt`, in order.
pub fn image_urls(prompt: &str) -> (res: Vec<String>)
    ensures
        res@.map_values(|u: String| u@) == image_urls_spec(prompt@),
{
    let events = markdown_events(prompt, 0);
    let ghost model = md_events(prompt@, 0);
    let mut out: Vec<String> = Vec::new();
    let mut i: usize = 0;
    while i < events.len()
        invariant
            i <= events@.len(),
            events@.len() == model.len(),
            forall|j: int| 0 <= j < events@.len() ==> #[trigger] events@[j]@ == model[j],
            out@.map_values(|u: String| u@) == image_dests(model.subrange(0, i as int)),
        decreases events@.len() - i,
    {
        let ghost prefix = model.subrange(0, i + 1);
        assert(prefix.drop_last() =~= model.subrange(0, i as int));
        assert(events@[i as int]@ == model[i as int]);
        let ghost before = out@.map_values(|u: String| u@);
        let keep = events[i].kind == MdKind::Start && events[i].tag == MdTag::Image;
        if keep {
            out.push(events[i].text.clone());
            assert(out@.map_values(|u: String| u@) =~= before.push(model[i as int].text));
        }
        i = i + 1;
    }
    assert(model.subrange(0, model.len() as int) =~= model);
    out
}


/// The image URLs of the first `n` fields, in order.
pub open spec fn fields_urls(fields: Seq<Seq<char>>, n: nat) -> Seq<Seq<char>>
    decreases n,
{
    if n == 0 {
        Seq::empty()
    } else {
        fields_urls(fields, (n - 1) as nat) + image_urls_spec(fields[n - 1])
    }
}

/// The image URLs of every Markdown field of the first `n` questions, in
/// order.
pub open spec fn bank_urls(items: Seq<Question>, n: nat) -> Seq<Seq<char>>
    decreases n,
{
    if n == 0 {
        Seq::empty()
    } else {
        bank_urls(items, (n - 1) as nat) + fields_urls(
            rich_text_spec(items[n - 1]),
            rich_text_spec(items[n - 1]).len(),
        )
    }
}

/// `paths` with each of `urls` that names a local image added, unless it is
/// there already.
pub open spec fn add_local_paths(paths: Seq<Seq<char>>, urls: Seq<Seq<char>>) -> Seq<Seq<char>>
    decreases urls.len(),
{
    if urls.len() == 0 {
        paths
    } else {
        let before = add_local_paths(paths, urls.drop_last());
        if is_local_image_spec(urls.last()) && !before.contains(urls.last()) {
            before.push(urls.last())
        } else {
            before
        }
    }
}

/// Every image URL in the Markdown fields of `bank`, in order.
fn bank_image_urls(bank: &ItemBank) -> (res: Vec<String>)
    ensures
        res@.map_values(|u: String| u@) == bank_urls(bank.items@, bank.items@.len()),
{
    let mut all: Vec<String> = Vec::new();
    let mut i: usize = 0;
    while i < bank.items.len()
        invariant
            i <= bank.items@.len(),
            all@.map_values(|u: String| u@) == bank_urls(bank.items@, i as nat),
        decreases bank.items@.len() - i,
    {
        let fields = bank.items[i].rich_text_fields();
        let ghost texts = rich_text_spec(bank.items@[i as int]);
        let ghost start = all@.map_values(|u: String| u@);
        let mut k: usize = 0;
        assert(start =~= start + fields_urls(texts, 0));
        while k < fields.len()
            invariant
                k <= fields@.len(),
                fields@.map_values(|t: String| t@) == texts,
                all@.map_values(|u: String| u@) == start + fields_urls(texts, k as nat),
            decreases fields@.len() - k,
        {
            assert(fields@[k as int]@ == texts[k as int]);
            let urls = image_urls(fields[k].as_str());
            let ghost mid = all@.map_values(|u: String| u@);
            let mut j: usize = 0;
            while j < urls.len()
                invariant
                    j <= urls@.len(),
                    all@.map_values(|u: String| u@) == mid + urls@.subrange(0, j as int).map_values(
                        |u: String| u@,
                    ),
                decreases urls@.len() - j,
            {
                let ghost before = all@.map_values(|u: String| u@);
                all.push(urls[j].clone());
                assert(urls@.subrange(0, j + 1).map_values(|u: String| u@) =~= urls@.subrange(
                    0,
                    j as int,
                ).map_values(|u: String| u@).push(urls@[j as int]@));
                assert(all@.map_values(|u: String| u@) =~= before.push(urls@[j as int]@));
                j = j + 1;
            }
            assert(urls@.subrange(0, urls@.len() as int) =~= urls@);
            assert(all@.map_values(|u: String| u@) =~= start + fields_urls(texts, (k + 1) as nat));
            k = k + 1;
        }
        i = i + 1;
    }
    all
}

/// Whether `list` holds `text`.
fn holds_text(list: &Vec<String>, text: &str) -> (res: bool)
    ensures
        res == list@.map_values(|t: String| t@).contains(text@),
{
    let ghost view = list@.map_values(|t: String| t@);
    let mut i: usize = 0;
    while i < list.len()
        invariant
            i <= list.len(),
            view == list@.map_values(|t: String| t@),
            forall|k: int| 0 <= k < i ==> view[k] != text@,
        decreases list.len() - i,
    {
        if str_eq(list[i].as_str(), text) {
            assert(view[i as int] == text@);
            return true;
        }
        i = i + 1;
    }
    false
}

/// The distinct local-image paths referenced by any question in `bank`, in
/// first-reference order.
///
/// Every Markdown field is scanned (see [`Question::rich_text_fields`]), so
/// images in answers and feedback are bundled just like prompt images.
pub fn local_image_paths(bank: &ItemBank) -> (res: Vec<String>)
    ensures
        res@.map_values(|p: String| p@) == add_local_paths(
            Seq::empty(),
            bank_urls(bank.items@, bank.items@.len()),
        ),
{
    let urls = bank_image_urls(bank);
    let ghost all = urls@.map_values(|u: String| u@);
    let mut paths: Vec<String> = Vec::new();
    let mut i: usize = 0;
    while i < urls.len()
        invariant
            i <= urls@.len(),
            all == urls@.map_values(|u: String| u@),
            paths@.map_values(|p: String| p@) == add_local_paths(
                Seq::empty(),
                all.subrange(0, i as int),
            ),
        decreases urls@.len() - i,
    {
        let ghost prefix = all.subrange(0, i + 1);
        assert(prefix.drop_last() =~= all.subrange(0, i as int));
        assert(prefix.last() == urls@[i as int]@);
        let url = urls[i].as_str();
        if is_local_image(url) && !holds_text(&paths, url) {
            let ghost before = paths@.map_values(|p: String| p@);
            paths.push(urls[i].clone());
            assert(paths@.map_values(|p: String| p@) =~= before.push(urls@[i as int]@));
        }
        i = i + 1;
    }
    assert(all.subrange(0, all.len() as int) =~= all);
    paths
}

} // verus!
