//! Parse Markdown + YAML question sources into the typed model.
//!
//! Each source file is one question. YAML front-matter (a `---`-delimited
//! block at the top of the file) carries the machine-readable answer data;
//! everything below it is the prompt as ordinary Markdown. Parsing splits the
//! two: the front-matter is read as a YAML document and decoded into a
//! [`QuestionSource`] (a flat, `kind`-tagged shape), and the body becomes the
//! prompt. A directory of such files is assembled into one [`ItemBank`].
use vstd::prelude::*;

use crate::error::{debug_quoted, debug_str, Error};
use crate::md::{markdown_events, md_events, MdEvent, MdEventView, MdKind, MdTag, YAML_METADATA};
use crate::model::{
    blank_markers, Blank, Choice, ChoiceSet, Feedback, FillInBlank, ItemBank, MatchMode, MatchPair, Matching,
    MultipleSelect, OrderedItems, Question, QuestionKind, ScoringMode, TrueFalse,
};
use crate::path::{is_local_image, is_local_image_spec, parent_dir, parent_dir_spec};
use crate::text::{
    decimal_spec, extend_str, find_next, first_occurrence, has_prefix, lemma_first_occurrence, matches_at, occurs_at, slice_chars, starts_with, str_chars,
    str_eq, string_from_chars, text_lt, trim_chars, trim_spec, trim_start_spec,
};

verus! {

// ---------------------------------------------------------------------------
// The YAML document
// ---------------------------------------------------------------------------

/// A YAML value, as the front-matter's document holds it. Numbers keep the
/// text the YAML library prints them as; a `!tagged` value is only marked,
/// since no field of a question accepts one.
#[derive(Debug)]
pub enum Yaml {
    Null,
    Bool(bool),
    Number(String),
    Text(String),
    Sequence(Vec<Yaml>),
    Mapping(Vec<YamlEntry>),
    Tagged,
}

/// One entry of a YAML mapping.
#[derive(Debug)]
pub struct YamlEntry {
    pub key: Yaml,
    pub value: Yaml,
}

/// The document `serde_norway` reads from `text` as a `serde_norway::Value`,
/// in the shape of [`Yaml`]; `None` where it refuses the text.
pub uninterp spec fn yaml_document(text: Seq<char>) -> Option<Yaml>;

/// Read `text` as one YAML document with `serde_norway::from_str` into a
/// `serde_norway::Value`, converted to [`Yaml`]; the error is the library's
/// message. The contract names the document and claims nothing of its
/// shape.
#[verifier::external_body]
fn load_yaml(text: &str) -> (res: std::result::Result<Yaml, String>)
    ensures
        match res {
            Ok(y) => yaml_document(text@) == Some(y),
            Err(_) => yaml_document(text@) is None,
        },
{
    serde_norway::from_str::<serde_norway::Value>(text).map(yaml_from_value).map_err(|e| e.to_string())
}

/// `serde_norway::Value`, carried through the conversion opaquely.
#[verifier::external_type_specification]
#[verifier::external_body]
pub struct ExYamlValue(serde_norway::Value);

/// A `serde_norway::Value` as a [`Yaml`], variant for variant (a mapping's
/// entries in their order). Part of [`load_yaml`]'s conversion.
#[verifier::external_body]
fn yaml_from_value(value: serde_norway::Value) -> Yaml {
    match value {
        serde_norway::Value::Null => Yaml::Null,
        serde_norway::Value::Bool(b) => Yaml::Bool(b),
        serde_norway::Value::Number(n) => Yaml::Number(n.to_string()),
        serde_norway::Value::String(s) => Yaml::Text(s),
        serde_norway::Value::Sequence(items) => Yaml::Sequence(items.into_iter().map(yaml_from_value).collect()),
        serde_norway::Value::Mapping(entries) => Yaml::Mapping(
            entries.into_iter().map(|(k, v)| YamlEntry { key: yaml_from_value(k), value: yaml_from_value(v) }).collect(),
        ),
        serde_norway::Value::Tagged(_) => Yaml::Tagged,
    }
}

/// The value under the text key `key` among a mapping's entries.
pub open spec fn entry(entries: Seq<YamlEntry>, key: Seq<char>) -> Option<Yaml>
    decreases entries.len(),
{
    if entries.len() == 0 {
        None
    } else if entries[0].key matches Yaml::Text(k) && k@ == key {
        Some(entries[0].value)
    } else {
        entry(entries.skip(1), key)
    }
}

/// The value under the text key `key`, if the mapping has one.
pub fn field<'a>(entries: &'a Vec<YamlEntry>, key: &str) -> (res: Option<&'a Yaml>)
    ensures
        match res {
            Some(y) => entry(entries@, key@) == Some(*y),
            None => entry(entries@, key@) is None,
        },
{
    let mut i: usize = 0;
    assert(entries@.skip(0) =~= entries@);
    while i < entries.len()
        invariant
            i <= entries@.len(),
            entry(entries@, key@) == entry(entries@.skip(i as int), key@),
        decreases entries@.len() - i,
    {
        assert(entries@.skip(i as int).skip(1) =~= entries@.skip(i + 1));
        assert(entries@.skip(i as int)[0] == entries@[i as int]);
        match &entries[i].key {
            Yaml::Text(k) => {
                if str_eq(k.as_str(), key) {
                    return Some(&entries[i].value);
                }
            },
            _ => {},
        }
        i = i + 1;
    }
    None
}

/// The `Yaml` error `message`.
fn yaml_error(message: &str) -> (res: Error)
    ensures
        res matches Error::Yaml(m) && m@ == message@,
{
    Error::Yaml(message.to_string())
}

/// `prefix`, the field name in backticks, then `suffix`.
fn field_message(prefix: &str, key: &str, suffix: &str) -> (res: Error)
    ensures
        res matches Error::Yaml(m) && m@ == prefix@ + "`"@ + key@ + "`"@ + suffix@,
{
    let mut out: Vec<char> = Vec::new();
    extend_str(&mut out, prefix);
    extend_str(&mut out, "`");
    extend_str(&mut out, key);
    extend_str(&mut out, "`");
    extend_str(&mut out, suffix);
    assert(out@ =~= prefix@ + "`"@ + key@ + "`"@ + suffix@);
    Error::Yaml(string_from_chars(&out))
}

// ---------------------------------------------------------------------------
// Fields
// ---------------------------------------------------------------------------

/// An optional text field: absent or null reads as nothing, a string as
/// itself; anything else does not decode (`None`).
pub open spec fn optional_text_spec(value: Option<Yaml>) -> Option<Option<String>> {
    match value {
        None => Some(None),
        Some(Yaml::Null) => Some(None),
        Some(Yaml::Text(s)) => Some(Some(s)),
        _ => None,
    }
}

/// Decode an optional text field.
pub fn optional_text(entries: &Vec<YamlEntry>, key: &str) -> (res: Result<Option<String>, Error>)
    ensures
        match optional_text_spec(entry(entries@, key@)) {
            Some(v) => res matches Ok(t) && t == v,
            None => res matches Err(e) && e is Yaml,
        },
{
    match field(entries, key) {
        None => Ok(None),
        Some(Yaml::Null) => Ok(None),
        Some(Yaml::Text(s)) => Ok(Some(s.clone())),
        Some(_) => Err(field_message("invalid type for ", key, ": expected a string")),
    }
}

/// A required text field: a string, and nothing else.
pub open spec fn required_text_spec(value: Option<Yaml>) -> Option<String> {
    match value {
        Some(Yaml::Text(s)) => Some(s),
        _ => None,
    }
}

/// Decode a required text field.
pub fn required_text(entries: &Vec<YamlEntry>, key: &str) -> (res: Result<String, Error>)
    ensures
        match required_text_spec(entry(entries@, key@)) {
            Some(v) => res matches Ok(t) && t == v,
            None => res matches Err(e) && e is Yaml,
        },
{
    match field(entries, key) {
        None => Err(field_message("missing field ", key, "")),
        Some(Yaml::Text(s)) => Ok(s.clone()),
        Some(_) => Err(field_message("invalid type for ", key, ": expected a string")),
    }
}

/// A boolean field that defaults to false when absent.
pub open spec fn flag_spec(value: Option<Yaml>) -> Option<bool> {
    match value {
        None => Some(false),
        Some(Yaml::Bool(b)) => Some(b),
        _ => None,
    }
}

/// Decode a boolean field that defaults to false.
pub fn flag(entries: &Vec<YamlEntry>, key: &str) -> (res: Result<bool, Error>)
    ensures
        match flag_spec(entry(entries@, key@)) {
            Some(v) => res matches Ok(b) && b == v,
            None => res matches Err(e) && e is Yaml,
        },
{
    match field(entries, key) {
        None => Ok(false),
        Some(Yaml::Bool(b)) => Ok(*b),
        Some(_) => Err(field_message("invalid type for ", key, ": expected a boolean")),
    }
}

/// A required boolean field.
pub open spec fn required_flag_spec(value: Option<Yaml>) -> Option<bool> {
    match value {
        Some(Yaml::Bool(b)) => Some(b),
        _ => None,
    }
}

/// Decode a required boolean field.
pub fn required_flag(entries: &Vec<YamlEntry>, key: &str) -> (res: Result<bool, Error>)
    ensures
        match required_flag_spec(entry(entries@, key@)) {
            Some(v) => res matches Ok(b) && b == v,
            None => res matches Err(e) && e is Yaml,
        },
{
    match field(entries, key) {
        None => Err(field_message("missing field ", key, "")),
        Some(Yaml::Bool(b)) => Ok(*b),
        Some(_) => Err(field_message("invalid type for ", key, ": expected a boolean")),
    }
}

/// Every item of a list that is all strings.
pub open spec fn texts_spec(items: Seq<Yaml>) -> Option<Seq<String>>
    decreases items.len(),
{
    if items.len() == 0 {
        Some(Seq::empty())
    } else {
        match (texts_spec(items.drop_last()), items.last()) {
            (Some(done), Yaml::Text(s)) => Some(done.push(s)),
            _ => None,
        }
    }
}

/// The strings of a list of strings.
pub fn texts(items: &Vec<Yaml>) -> (res: Option<Vec<String>>)
    ensures
        match texts_spec(items@) {
            Some(v) => res matches Some(t) && t@ == v,
            None => res is None,
        },
{
    let mut out: Vec<String> = Vec::new();
    let mut i: usize = 0;
    while i < items.len()
        invariant
            i <= items@.len(),
            texts_spec(items@.take(i as int)) == Some(out@),
        decreases items@.len() - i,
    {
        assert(items@.take(i + 1).drop_last() =~= items@.take(i as int));
        match &items[i] {
            Yaml::Text(s) => out.push(s.clone()),
            _ => {
                assert(texts_spec(items@.take(i + 1)) is None);
                proof {
                    lemma_texts_extend(items@, i + 1);
                }
                return None;
            },
        }
        i = i + 1;
    }
    assert(items@.take(i as int) =~= items@);
    Some(out)
}

/// A list whose prefix holds a non-string holds one itself.
proof fn lemma_texts_extend(items: Seq<Yaml>, n: int)
    requires
        0 <= n <= items.len(),
        texts_spec(items.take(n)) is None,
    ensures
        texts_spec(items) is None,
    decreases items.len() - n,
{
    if n < items.len() {
        assert(items.take(n + 1).drop_last() =~= items.take(n));
        lemma_texts_extend(items, n + 1);
    } else {
        assert(items.take(n) =~= items);
    }
}

/// A list-of-strings field that defaults to empty when absent.
pub open spec fn text_list_spec(value: Option<Yaml>) -> Option<Seq<String>> {
    match value {
        None => Some(Seq::empty()),
        Some(Yaml::Sequence(items)) => texts_spec(items@),
        _ => None,
    }
}

/// Decode a list-of-strings field that defaults to empty.
pub fn text_list(entries: &Vec<YamlEntry>, key: &str) -> (res: Result<Vec<String>, Error>)
    ensures
        match text_list_spec(entry(entries@, key@)) {
            Some(v) => res matches Ok(t) && t@ == v,
            None => res matches Err(e) && e is Yaml,
        },
{
    match field(entries, key) {
        None => Ok(Vec::new()),
        Some(Yaml::Sequence(items)) => match texts(items) {
            Some(t) => Ok(t),
            None => Err(field_message("invalid type in ", key, ": expected strings")),
        },
        Some(_) => Err(field_message("invalid type for ", key, ": expected a sequence")),
    }
}

// ---------------------------------------------------------------------------
// The authored shape
// ---------------------------------------------------------------------------

/// An authored message or answer: inline Markdown, or a `file:` partial.
#[derive(Debug)]
pub enum Message {
    Text(String),
    File(String),
}

/// The authored feedback block: each message is inline text or a partial.
#[derive(Debug)]
pub struct FeedbackSource {
    pub general: Option<Message>,
    pub correct: Option<Message>,
    pub incorrect: Option<Message>,
}

/// One authored choice: exactly one of `text` and `file` is meant to be
/// given, and resolving it enforces that.
#[derive(Debug)]
pub struct ChoiceSource {
    pub text: Option<String>,
    pub file: Option<String>,
    pub correct: bool,
}

/// The metadata every question shares.
#[derive(Debug)]
pub struct Common {
    pub id: String,
    pub title: Option<String>,
    pub points: String,
    pub tags: Vec<String>,
    pub feedback: FeedbackSource,
}

/// The front-matter of one question, tagged by `kind`, before the prompt is
/// attached and its partials are read.
#[derive(Debug)]
pub enum QuestionSource {
    TrueFalse { common: Common, answer: bool },
    MultipleChoice { common: Common, choices: Vec<ChoiceSource> },
    MultipleSelect { common: Common, choices: Vec<ChoiceSource>, scoring: ScoringMode },
    FillInBlank { common: Common, blanks: Vec<Blank> },
    Matching { common: Common, pairs: Vec<MatchPair>, distractors: Vec<String> },
    Ordered { common: Common, items: Vec<Message> },
}

/// Each item of `items` decoded by `decode`, if every one decodes.
pub open spec fn each<T>(items: Seq<Yaml>, decode: spec_fn(Yaml) -> Option<T>) -> Option<Seq<T>>
    decreases items.len(),
{
    if items.len() == 0 {
        Some(Seq::empty())
    } else {
        match (each(items.drop_last(), decode), decode(items.last())) {
            (Some(done), Some(x)) => Some(done.push(x)),
            _ => None,
        }
    }
}

/// A list one of whose prefixes fails to decode fails as a whole.
proof fn lemma_each_fails<T>(items: Seq<Yaml>, decode: spec_fn(Yaml) -> Option<T>, n: int)
    requires
        0 <= n <= items.len(),
        each(items.take(n), decode) is None,
    ensures
        each(items, decode) is None,
    decreases items.len() - n,
{
    if n < items.len() {
        assert(items.take(n + 1).drop_last() =~= items.take(n));
        lemma_each_fails(items, decode, n + 1);
    } else {
        assert(items.take(n) =~= items);
    }
}

/// A message: a string, or a mapping naming a `file`.
pub open spec fn message_spec(y: Yaml) -> Option<Message> {
    match y {
        Yaml::Text(s) => Some(Message::Text(s)),
        Yaml::Mapping(entries) => match entry(entries@, "file"@) {
            Some(Yaml::Text(f)) => Some(Message::File(f)),
            _ => None,
        },
        _ => None,
    }
}

/// Decode one message.
pub fn decode_message(y: &Yaml) -> (res: Result<Message, Error>)
    ensures
        match message_spec(*y) {
            Some(m) => res matches Ok(x) && x == m,
            None => res matches Err(e) && e is Yaml,
        },
{
    match y {
        Yaml::Text(s) => Ok(Message::Text(s.clone())),
        Yaml::Mapping(entries) => match field(entries, "file") {
            Some(Yaml::Text(f)) => Ok(Message::File(f.clone())),
            _ => Err(yaml_error("expected a string or a mapping with `file`")),
        },
        _ => Err(yaml_error("expected a string or a mapping with `file`")),
    }
}

/// An optional message: absent or null is none.
pub open spec fn optional_message_spec(value: Option<Yaml>) -> Option<Option<Message>> {
    match value {
        None => Some(None),
        Some(Yaml::Null) => Some(None),
        Some(y) => match message_spec(y) {
            Some(m) => Some(Some(m)),
            None => None,
        },
    }
}

/// Decode an optional message field.
pub fn optional_message(entries: &Vec<YamlEntry>, key: &str) -> (res: Result<Option<Message>, Error>)
    ensures
        match optional_message_spec(entry(entries@, key@)) {
            Some(v) => res matches Ok(m) && m == v,
            None => res matches Err(e) && e is Yaml,
        },
{
    match field(entries, key) {
        None => Ok(None),
        Some(Yaml::Null) => Ok(None),
        Some(y) => {
            let m = decode_message(y)?;
            Ok(Some(m))
        },
    }
}

/// The feedback block: absent is empty, a mapping is read field by field.
pub open spec fn feedback_spec(value: Option<Yaml>) -> Option<FeedbackSource> {
    match value {
        None => Some(FeedbackSource { general: None, correct: None, incorrect: None }),
        Some(Yaml::Mapping(entries)) => match (
            optional_message_spec(entry(entries@, "general"@)),
            optional_message_spec(entry(entries@, "correct"@)),
            optional_message_spec(entry(entries@, "incorrect"@)),
        ) {
            (Some(general), Some(correct), Some(incorrect)) => Some(FeedbackSource { general, correct, incorrect }),
            _ => None,
        },
        _ => None,
    }
}

/// Decode the feedback block.
pub fn decode_feedback(entries: &Vec<YamlEntry>) -> (res: Result<FeedbackSource, Error>)
    ensures
        match feedback_spec(entry(entries@, "feedback"@)) {
            Some(v) => res matches Ok(f) && f == v,
            None => res matches Err(e) && e is Yaml,
        },
{
    match field(entries, "feedback") {
        None => Ok(FeedbackSource { general: None, correct: None, incorrect: None }),
        Some(Yaml::Mapping(inner)) => {
            let general = optional_message(inner, "general")?;
            let correct = optional_message(inner, "correct")?;
            let incorrect = optional_message(inner, "incorrect")?;
            Ok(FeedbackSource { general, correct, incorrect })
        },
        Some(_) => Err(yaml_error("invalid type for `feedback`: expected a mapping")),
    }
}

/// The points a question is worth: a number as written, one when absent.
pub open spec fn points_spec(value: Option<Yaml>) -> Option<Seq<char>> {
    match value {
        None => Some("1"@),
        Some(Yaml::Number(n)) => Some(n@),
        _ => None,
    }
}

/// Decode the point value.
pub fn decode_points(entries: &Vec<YamlEntry>) -> (res: Result<String, Error>)
    ensures
        match points_spec(entry(entries@, "points"@)) {
            Some(v) => res matches Ok(p) && p@ == v,
            None => res matches Err(e) && e is Yaml,
        },
{
    match field(entries, "points") {
        None => Ok("1".to_string()),
        Some(Yaml::Number(n)) => Ok(n.clone()),
        Some(_) => Err(yaml_error("invalid type for `points`: expected a number")),
    }
}

/// Whether `c` holds the shared metadata of the mapping `entries`.
pub open spec fn common_spec(entries: Seq<YamlEntry>, c: Common) -> bool {
    &&& required_text_spec(entry(entries, "id"@)) == Some(c.id)
    &&& optional_text_spec(entry(entries, "title"@)) == Some(c.title)
    &&& points_spec(entry(entries, "points"@)) == Some(c.points@)
    &&& text_list_spec(entry(entries, "tags"@)) == Some(c.tags@)
    &&& feedback_spec(entry(entries, "feedback"@)) == Some(c.feedback)
}

/// Whether the shared metadata of `entries` decodes.
pub open spec fn common_decodes(entries: Seq<YamlEntry>) -> bool {
    &&& required_text_spec(entry(entries, "id"@)) is Some
    &&& optional_text_spec(entry(entries, "title"@)) is Some
    &&& points_spec(entry(entries, "points"@)) is Some
    &&& text_list_spec(entry(entries, "tags"@)) is Some
    &&& feedback_spec(entry(entries, "feedback"@)) is Some
}

/// Decode the metadata every question shares.
pub fn decode_common(entries: &Vec<YamlEntry>) -> (res: Result<Common, Error>)
    ensures
        common_decodes(entries@) ==> (res matches Ok(c) && common_spec(entries@, c)),
        !common_decodes(entries@) ==> (res matches Err(e) && e is Yaml),
{
    let id = required_text(entries, "id")?;
    let title = optional_text(entries, "title")?;
    let points = decode_points(entries)?;
    let tags = text_list(entries, "tags")?;
    let feedback = decode_feedback(entries)?;
    Ok(Common { id, title, points, tags, feedback })
}

/// One choice: a mapping of optional `text` and `file` and a `correct`
/// flag that defaults to false.
pub open spec fn choice_spec(y: Yaml) -> Option<ChoiceSource> {
    match y {
        Yaml::Mapping(entries) => match (
            optional_text_spec(entry(entries@, "text"@)),
            optional_text_spec(entry(entries@, "file"@)),
            flag_spec(entry(entries@, "correct"@)),
        ) {
            (Some(text), Some(file), Some(correct)) => Some(ChoiceSource { text, file, correct }),
            _ => None,
        },
        _ => None,
    }
}

/// Decode one choice.
pub fn decode_choice(y: &Yaml) -> (res: Result<ChoiceSource, Error>)
    ensures
        match choice_spec(*y) {
            Some(c) => res matches Ok(x) && x == c,
            None => res matches Err(e) && e is Yaml,
        },
{
    match y {
        Yaml::Mapping(entries) => {
            let text = optional_text(entries, "text")?;
            let file = optional_text(entries, "file")?;
            let correct = flag(entries, "correct")?;
            Ok(ChoiceSource { text, file, correct })
        },
        _ => Err(yaml_error("invalid type for a choice: expected a mapping")),
    }
}

/// One matching pair: a mapping of a `left` and a `right` string.
pub open spec fn pair_spec(y: Yaml) -> Option<MatchPair> {
    match y {
        Yaml::Mapping(entries) => match (
            required_text_spec(entry(entries@, "left"@)),
            required_text_spec(entry(entries@, "right"@)),
        ) {
            (Some(left), Some(right)) => Some(MatchPair { left, right }),
            _ => None,
        },
        _ => None,
    }
}

/// Decode one matching pair.
pub fn decode_pair(y: &Yaml) -> (res: Result<MatchPair, Error>)
    ensures
        match pair_spec(*y) {
            Some(p) => res matches Ok(x) && x == p,
            None => res matches Err(e) && e is Yaml,
        },
{
    match y {
        Yaml::Mapping(entries) => {
            let left = required_text(entries, "left")?;
            let right = required_text(entries, "right")?;
            Ok(MatchPair { left, right })
        },
        _ => Err(yaml_error("invalid type for a pair: expected a mapping")),
    }
}

/// The items of a required list field.
pub open spec fn list_items(value: Option<Yaml>) -> Option<Seq<Yaml>> {
    match value {
        Some(Yaml::Sequence(items)) => Some(items@),
        _ => None,
    }
}

/// The items of a required list field, or the error naming it.
fn required_list<'a>(entries: &'a Vec<YamlEntry>, key: &str) -> (res: Result<&'a Vec<Yaml>, Error>)
    ensures
        match list_items(entry(entries@, key@)) {
            Some(items) => res matches Ok(v) && v@ == items,
            None => res matches Err(e) && e is Yaml,
        },
{
    match field(entries, key) {
        Some(Yaml::Sequence(items)) => Ok(items),
        None => Err(field_message("missing field ", key, "")),
        Some(_) => Err(field_message("invalid type for ", key, ": expected a sequence")),
    }
}

/// Decode every choice of a list.
pub fn decode_choices(items: &Vec<Yaml>) -> (res: Result<Vec<ChoiceSource>, Error>)
    ensures
        match each(items@, |y: Yaml| choice_spec(y)) {
            Some(v) => res matches Ok(x) && x@ == v,
            None => res matches Err(e) && e is Yaml,
        },
{
    let ghost decode = |y: Yaml| choice_spec(y);
    let mut out: Vec<ChoiceSource> = Vec::new();
    let mut i: usize = 0;
    while i < items.len()
        invariant
            i <= items@.len(),
            decode == (|y: Yaml| choice_spec(y)),
            each(items@.take(i as int), decode) == Some(out@),
        decreases items@.len() - i,
    {
        assert(items@.take(i + 1).drop_last() =~= items@.take(i as int));
        match decode_choice(&items[i]) {
            Ok(c) => out.push(c),
            Err(e) => {
                proof {
                    lemma_each_fails(items@, decode, i + 1);
                }
                return Err(e);
            },
        }
        i = i + 1;
    }
    assert(items@.take(i as int) =~= items@);
    Ok(out)
}

/// Decode every matching pair of a list.
pub fn decode_pairs(items: &Vec<Yaml>) -> (res: Result<Vec<MatchPair>, Error>)
    ensures
        match each(items@, |y: Yaml| pair_spec(y)) {
            Some(v) => res matches Ok(x) && x@ == v,
            None => res matches Err(e) && e is Yaml,
        },
{
    let ghost decode = |y: Yaml| pair_spec(y);
    let mut out: Vec<MatchPair> = Vec::new();
    let mut i: usize = 0;
    while i < items.len()
        invariant
            i <= items@.len(),
            decode == (|y: Yaml| pair_spec(y)),
            each(items@.take(i as int), decode) == Some(out@),
        decreases items@.len() - i,
    {
        assert(items@.take(i + 1).drop_last() =~= items@.take(i as int));
        match decode_pair(&items[i]) {
            Ok(c) => out.push(c),
            Err(e) => {
                proof {
                    lemma_each_fails(items@, decode, i + 1);
                }
                return Err(e);
            },
        }
        i = i + 1;
    }
    assert(items@.take(i as int) =~= items@);
    Ok(out)
}

/// Decode every message of a list.
pub fn decode_messages(items: &Vec<Yaml>) -> (res: Result<Vec<Message>, Error>)
    ensures
        match each(items@, |y: Yaml| message_spec(y)) {
            Some(v) => res matches Ok(x) && x@ == v,
            None => res matches Err(e) && e is Yaml,
        },
{
    let ghost decode = |y: Yaml| message_spec(y);
    let mut out: Vec<Message> = Vec::new();
    let mut i: usize = 0;
    while i < items.len()
        invariant
            i <= items@.len(),
            decode == (|y: Yaml| message_spec(y)),
            each(items@.take(i as int), decode) == Some(out@),
        decreases items@.len() - i,
    {
        assert(items@.take(i + 1).drop_last() =~= items@.take(i as int));
        match decode_message(&items[i]) {
            Ok(c) => out.push(c),
            Err(e) => {
                proof {
                    lemma_each_fails(items@, decode, i + 1);
                }
                return Err(e);
            },
        }
        i = i + 1;
    }
    assert(items@.take(i as int) =~= items@);
    Ok(out)
}

/// A match mode as authored.
pub open spec fn match_mode_spec(value: Option<Yaml>) -> Option<MatchMode> {
    match value {
        None => Some(MatchMode::CaseInsensitive),
        Some(Yaml::Text(s)) => if s@ == "case_insensitive"@ {
            Some(MatchMode::CaseInsensitive)
        } else if s@ == "exact"@ {
            Some(MatchMode::Exact)
        } else if s@ == "regex"@ {
            Some(MatchMode::Regex)
        } else {
            None
        },
        _ => None,
    }
}

/// Decode a blank's `match` mode.
fn decode_match_mode(entries: &Vec<YamlEntry>) -> (res: Result<MatchMode, Error>)
    ensures
        match match_mode_spec(entry(entries@, "match"@)) {
            Some(m) => res matches Ok(x) && x == m,
            None => res matches Err(e) && e is Yaml,
        },
{
    match field(entries, "match") {
        None => Ok(MatchMode::CaseInsensitive),
        Some(Yaml::Text(s)) => {
            if str_eq(s.as_str(), "case_insensitive") {
                Ok(MatchMode::CaseInsensitive)
            } else if str_eq(s.as_str(), "exact") {
                Ok(MatchMode::Exact)
            } else if str_eq(s.as_str(), "regex") {
                Ok(MatchMode::Regex)
            } else {
                Err(yaml_error("unknown variant for `match`: expected `case_insensitive`, `exact` or `regex`"))
            }
        },
        Some(_) => Err(yaml_error("invalid type for `match`: expected a string")),
    }
}

/// The answers and match mode one authored blank gives: a bare list of
/// answers (matched case-insensitively), or a mapping of `answers` and a
/// `match` mode.
pub open spec fn blank_spec(y: Yaml) -> Option<(Seq<String>, MatchMode)> {
    match y {
        Yaml::Sequence(items) => match texts_spec(items@) {
            Some(answers) => Some((answers, MatchMode::CaseInsensitive)),
            None => None,
        },
        Yaml::Mapping(entries) => match (list_items(entry(entries@, "answers"@)), match_mode_spec(entry(entries@, "match"@))) {
            (Some(items), Some(mode)) => match texts_spec(items) {
                Some(answers) => Some((answers, mode)),
                None => None,
            },
            _ => None,
        },
        _ => None,
    }
}

/// Whether `b` is the blank `key` authored as `y`.
pub open spec fn blank_is(b: Blank, key: Yaml, y: Yaml) -> bool {
    &&& key == Yaml::Text(b.id)
    &&& blank_spec(y) == Some((b.answers@, b.match_mode))
}

/// Decode the blank `id` authored as `y`.
fn decode_blank(id: &String, y: &Yaml) -> (res: Result<Blank, Error>)
    ensures
        match blank_spec(*y) {
            Some((answers, mode)) => res matches Ok(b) && b.id == *id && b.answers@ == answers && b.match_mode == mode,
            None => res matches Err(e) && e is Yaml,
        },
{
    match y {
        Yaml::Sequence(items) => match texts(items) {
            Some(answers) => Ok(Blank { id: id.clone(), answers, match_mode: MatchMode::CaseInsensitive }),
            None => Err(yaml_error("invalid type in a blank's answers: expected strings")),
        },
        Yaml::Mapping(entries) => {
            let items = required_list(entries, "answers")?;
            let mode = decode_match_mode(entries)?;
            match texts(items) {
                Some(answers) => Ok(Blank { id: id.clone(), answers, match_mode: mode }),
                None => Err(yaml_error("invalid type in a blank's answers: expected strings")),
            }
        },
        _ => Err(yaml_error("invalid type for a blank: expected a list or a mapping")),
    }
}

/// Whether every entry of the blanks mapping is a string key with a blank.
pub open spec fn blanks_decode(entries: Seq<YamlEntry>) -> bool {
    forall|i: int| 0 <= i < entries.len() ==> (#[trigger] entries[i]).key is Text && blank_spec(entries[i].value) is Some
}

/// Whether some entry authors the blank `b`.
pub open spec fn authored(b: Blank, entries: Seq<YamlEntry>) -> bool {
    exists|i: int| 0 <= i < entries.len() && #[trigger] blank_is(b, entries[i].key, entries[i].value)
}

/// Whether some blank is the one `e` authors.
pub open spec fn decoded(blanks: Seq<Blank>, e: YamlEntry) -> bool {
    exists|k: int| 0 <= k < blanks.len() && #[trigger] blank_is(blanks[k], e.key, e.value)
}

/// Whether `blanks` are the blanks of `entries`, sorted by name.
pub open spec fn blanks_are(blanks: Seq<Blank>, entries: Seq<YamlEntry>) -> bool {
    &&& blanks.len() == entries.len()
    &&& forall|k: int| 0 <= k < blanks.len() ==> #[trigger] authored(blanks[k], entries)
    &&& forall|i: int| 0 <= i < entries.len() ==> #[trigger] decoded(blanks, entries[i])
    &&& forall|j: int, k: int| 0 <= j < k < blanks.len() ==> !text_lt(blanks[k].id@, blanks[j].id@)
}

/// Decode the blanks mapping, sorted by blank name.
pub fn decode_blanks(entries: &Vec<YamlEntry>) -> (res: Result<Vec<Blank>, Error>)
    ensures
        blanks_decode(entries@) ==> (res matches Ok(b) && blanks_are(b@, entries@)),
        !blanks_decode(entries@) ==> (res matches Err(e) && e is Yaml),
{
    let mut out: Vec<Blank> = Vec::new();
    let mut i: usize = 0;
    while i < entries.len()
        invariant
            i <= entries@.len(),
            blanks_decode(entries@.take(i as int)),
            blanks_are(out@, entries@.take(i as int)),
        decreases entries@.len() - i,
    {
        let ghost before = out@;
        let b = match &entries[i].key {
            Yaml::Text(id) => decode_blank(id, &entries[i].value),
            _ => Err(yaml_error("invalid type for a blank name: expected a string")),
        };
        let b = match b {
            Ok(b) => b,
            Err(e) => {
                assert(!blanks_decode(entries@)) by {
                    assert(entries@[i as int] == entries@[i as int]);
                }
                return Err(e);
            },
        };
        let ghost fresh = b;
        let p = insertion_point(&out, &b);
        out.insert(p, b);
        proof {
            let done = entries@.take(i + 1);
            assert(done.drop_last() =~= entries@.take(i as int));
            assert(done[i as int] == entries@[i as int]);
            assert(blank_is(fresh, done[i as int].key, done[i as int].value));
            let prev = entries@.take(i as int);
            assert forall|k: int| 0 <= k < out@.len() implies #[trigger] authored(out@[k], done) by {
                if k == p {
                    assert(blank_is(out@[k], done[i as int].key, done[i as int].value));
                } else {
                    let b = if k < p { before[k] } else { before[k - 1] };
                    assert(out@[k] == b);
                    assert(authored(b, prev));
                    let j = choose|j: int| 0 <= j < prev.len() && #[trigger] blank_is(b, prev[j].key, prev[j].value);
                    assert(done[j] == prev[j]);
                    assert(blank_is(out@[k], done[j].key, done[j].value));
                }
            }
            assert forall|j: int| 0 <= j < done.len() implies #[trigger] decoded(out@, done[j]) by {
                if j == i {
                    assert(blank_is(out@[p as int], done[j].key, done[j].value));
                } else {
                    assert(done[j] == prev[j]);
                    assert(decoded(before, prev[j]));
                    let k = choose|k: int| 0 <= k < before.len() && #[trigger] blank_is(before[k], prev[j].key, prev[j].value);
                    if k < p {
                        assert(out@[k] == before[k]);
                        assert(blank_is(out@[k], done[j].key, done[j].value));
                    } else {
                        assert(out@[k + 1] == before[k]);
                        assert(blank_is(out@[k + 1], done[j].key, done[j].value));
                    }
                }
            }
            assert forall|j: int| 0 <= j < done.len() implies (#[trigger] done[j]).key is Text && blank_spec(done[j].value) is Some by {
                if j < i {
                    assert(done[j] == entries@.take(i as int)[j]);
                }
            }
        }
        i = i + 1;
    }
    assert(entries@.take(i as int) =~= entries@);
    Ok(out)
}

/// Where `b` goes among the sorted `blanks`: before the first whose name
/// sorts after its own.
fn insertion_point(blanks: &Vec<Blank>, b: &Blank) -> (p: usize)
    requires
        forall|j: int, k: int| 0 <= j < k < blanks@.len() ==> !text_lt(blanks@[k].id@, blanks@[j].id@),
    ensures
        p <= blanks@.len(),
        forall|j: int, k: int| 0 <= j < k < blanks@.insert(p as int, *b).len()
            ==> !text_lt(blanks@.insert(p as int, *b)[k].id@, blanks@.insert(p as int, *b)[j].id@),
{
    let key = str_chars(b.id.as_str());
    let mut p: usize = 0;
    let mut found = false;
    while p < blanks.len() && !found
        invariant
            p <= blanks@.len(),
            key@ == b.id@,
            forall|j: int| 0 <= j < p ==> !text_lt(b.id@, #[trigger] blanks@[j].id@),
            found ==> p < blanks@.len() && text_lt(b.id@, blanks@[p as int].id@),
        decreases blanks@.len() - p + if found { 0int } else { 1int },
    {
        let other = str_chars(blanks[p].id.as_str());
        if crate::text::chars_lt(&key, &other) {
            found = true;
        } else {
            p = p + 1;
        }
    }
    proof {
        let all = blanks@.insert(p as int, *b);
        assert forall|j: int, k: int| 0 <= j < k < all.len() implies !text_lt(all[k].id@, all[j].id@) by {
            if k < p {
                assert(all[k] == blanks@[k] && all[j] == blanks@[j]);
            } else if k == p {
                assert(all[k] == *b && all[j] == blanks@[j]);
                assert(!text_lt(b.id@, blanks@[j].id@));
            } else if j == p {
                assert(all[j] == *b && all[k] == blanks@[k - 1]);
                assert(found);
                let x = blanks@[p as int].id@;
                let y = blanks@[k - 1].id@;
                crate::text::lemma_text_lt_order(b.id@, x, y);
                crate::text::lemma_text_lt_order(x, y, b.id@);
                crate::text::lemma_text_lt_order(y, b.id@, x);
                if p < k - 1 {
                    assert(!text_lt(y, x));
                }
            } else if j < p {
                assert(all[j] == blanks@[j] && all[k] == blanks@[k - 1]);
            } else {
                assert(all[j] == blanks@[j - 1] && all[k] == blanks@[k - 1]);
            }
        }
    }
    p
}

/// A multiple-select scoring mode as authored.
pub open spec fn scoring_spec(value: Option<Yaml>) -> Option<ScoringMode> {
    match value {
        None => Some(ScoringMode::AllOrNothing),
        Some(Yaml::Text(s)) => if s@ == "all_or_nothing"@ {
            Some(ScoringMode::AllOrNothing)
        } else if s@ == "partial"@ {
            Some(ScoringMode::Partial)
        } else {
            None
        },
        _ => None,
    }
}

/// Decode a multiple-select `scoring` mode.
fn decode_scoring(entries: &Vec<YamlEntry>) -> (res: Result<ScoringMode, Error>)
    ensures
        match scoring_spec(entry(entries@, "scoring"@)) {
            Some(m) => res matches Ok(x) && x == m,
            None => res matches Err(e) && e is Yaml,
        },
{
    match field(entries, "scoring") {
        None => Ok(ScoringMode::AllOrNothing),
        Some(Yaml::Text(s)) => {
            if str_eq(s.as_str(), "all_or_nothing") {
                Ok(ScoringMode::AllOrNothing)
            } else if str_eq(s.as_str(), "partial") {
                Ok(ScoringMode::Partial)
            } else {
                Err(yaml_error("unknown variant for `scoring`: expected `all_or_nothing` or `partial`"))
            }
        },
        Some(_) => Err(yaml_error("invalid type for `scoring`: expected a string")),
    }
}

/// The choices of a choice question, if they decode.
pub open spec fn choices_spec(e: Seq<YamlEntry>) -> Option<Seq<ChoiceSource>> {
    match list_items(entry(e, "choices"@)) {
        Some(items) => each(items, |y: Yaml| choice_spec(y)),
        None => None,
    }
}

/// The entries of the `blanks` mapping, if it is one.
pub open spec fn blank_entries(e: Seq<YamlEntry>) -> Option<Seq<YamlEntry>> {
    match entry(e, "blanks"@) {
        Some(Yaml::Mapping(entries)) => Some(entries@),
        _ => None,
    }
}

/// The pairs of a matching question, if they decode.
pub open spec fn pairs_spec(e: Seq<YamlEntry>) -> Option<Seq<MatchPair>> {
    match list_items(entry(e, "pairs"@)) {
        Some(items) => each(items, |y: Yaml| pair_spec(y)),
        None => None,
    }
}

/// The items of an ordering question, if they decode.
pub open spec fn items_spec(e: Seq<YamlEntry>) -> Option<Seq<Message>> {
    match list_items(entry(e, "items"@)) {
        Some(items) => each(items, |y: Yaml| message_spec(y)),
        None => None,
    }
}

/// Whether the front-matter mapping `e` decodes as a question of kind `kind`.
pub open spec fn kind_decodes(kind: Seq<char>, e: Seq<YamlEntry>) -> bool {
    &&& common_decodes(e)
    &&& if kind == "true_false"@ {
        required_flag_spec(entry(e, "answer"@)) is Some
    } else if kind == "multiple_choice"@ {
        choices_spec(e) is Some
    } else if kind == "multiple_select"@ {
        choices_spec(e) is Some && scoring_spec(entry(e, "scoring"@)) is Some
    } else if kind == "fill_in_blank"@ {
        (blank_entries(e) matches Some(b) && blanks_decode(b))
    } else if kind == "matching"@ {
        pairs_spec(e) is Some && text_list_spec(entry(e, "distractors"@)) is Some
    } else if kind == "ordering"@ {
        items_spec(e) is Some
    } else {
        false
    }
}

/// Whether `q` is what the front-matter mapping `e` of kind `kind` decodes to.
pub open spec fn kind_is(kind: Seq<char>, e: Seq<YamlEntry>, q: QuestionSource) -> bool {
    if kind == "true_false"@ {
        q matches QuestionSource::TrueFalse { common, answer } && common_spec(e, common)
            && required_flag_spec(entry(e, "answer"@)) == Some(answer)
    } else if kind == "multiple_choice"@ {
        q matches QuestionSource::MultipleChoice { common, choices } && common_spec(e, common)
            && choices_spec(e) == Some(choices@)
    } else if kind == "multiple_select"@ {
        q matches QuestionSource::MultipleSelect { common, choices, scoring } && common_spec(e, common)
            && choices_spec(e) == Some(choices@) && scoring_spec(entry(e, "scoring"@)) == Some(scoring)
    } else if kind == "fill_in_blank"@ {
        q matches QuestionSource::FillInBlank { common, blanks } && common_spec(e, common)
            && (blank_entries(e) matches Some(b) && blanks_are(blanks@, b))
    } else if kind == "matching"@ {
        q matches QuestionSource::Matching { common, pairs, distractors } && common_spec(e, common)
            && pairs_spec(e) == Some(pairs@) && text_list_spec(entry(e, "distractors"@)) == Some(distractors@)
    } else {
        q matches QuestionSource::Ordered { common, items } && common_spec(e, common)
            && items_spec(e) == Some(items@)
    }
}

/// The `kind` a front-matter document names, if it is a mapping with one.
pub open spec fn document_kind(doc: Yaml) -> Option<Seq<char>> {
    match doc {
        Yaml::Mapping(entries) => match entry(entries@, "kind"@) {
            Some(Yaml::Text(k)) => Some(k@),
            _ => None,
        },
        _ => None,
    }
}

/// Whether the front-matter document `doc` decodes as a question.
pub open spec fn source_decodes(doc: Yaml) -> bool {
    doc matches Yaml::Mapping(entries) && document_kind(doc) matches Some(kind) && kind_decodes(kind, entries@)
}

/// Whether `q` is the question source `doc` decodes to.
pub open spec fn source_is(doc: Yaml, q: QuestionSource) -> bool {
    doc matches Yaml::Mapping(entries) && document_kind(doc) matches Some(kind) && kind_is(kind, entries@, q)
}

/// Decode a front-matter document into a question source, by its `kind`.
///
/// Fails with [`Error::Yaml`] exactly when the document is not a mapping,
/// names no known `kind`, or a field that kind reads is missing or of the
/// wrong shape; fields no kind reads are ignored.
pub fn decode_question(doc: &Yaml) -> (res: Result<QuestionSource, Error>)
    ensures
        source_decodes(*doc) ==> (res matches Ok(q) && source_is(*doc, q)),
        !source_decodes(*doc) ==> (res matches Err(e) && e is Yaml),
{
    let entries = match doc {
        Yaml::Mapping(entries) => entries,
        _ => return Err(yaml_error("invalid type for a question: expected a mapping")),
    };
    let kind = match field(entries, "kind") {
        Some(Yaml::Text(k)) => k,
        None => return Err(yaml_error("missing field `kind`")),
        Some(_) => return Err(yaml_error("invalid type for `kind`: expected a string")),
    };
    let k = kind.as_str();
    if !(str_eq(k, "true_false") || str_eq(k, "multiple_choice") || str_eq(k, "multiple_select")
        || str_eq(k, "fill_in_blank") || str_eq(k, "matching") || str_eq(k, "ordering")) {
        let mut out: Vec<char> = Vec::new();
        extend_str(&mut out, "unknown variant `");
        extend_str(&mut out, k);
        extend_str(&mut out, "`, expected one of `true_false`, `multiple_choice`, `multiple_select`, `fill_in_blank`, `matching`, `ordering`");
        return Err(Error::Yaml(string_from_chars(&out)));
    }
    let common = decode_common(entries)?;
    if str_eq(k, "true_false") {
        let answer = required_flag(entries, "answer")?;
        Ok(QuestionSource::TrueFalse { common, answer })
    } else if str_eq(k, "multiple_choice") {
        let items = required_list(entries, "choices")?;
        let choices = decode_choices(items)?;
        Ok(QuestionSource::MultipleChoice { common, choices })
    } else if str_eq(k, "multiple_select") {
        let items = required_list(entries, "choices")?;
        let choices = decode_choices(items)?;
        let scoring = decode_scoring(entries)?;
        Ok(QuestionSource::MultipleSelect { common, choices, scoring })
    } else if str_eq(k, "fill_in_blank") {
        let blanks = match field(entries, "blanks") {
            Some(Yaml::Mapping(inner)) => decode_blanks(inner)?,
            None => return Err(yaml_error("missing field `blanks`")),
            Some(_) => return Err(yaml_error("invalid type for `blanks`: expected a mapping")),
        };
        Ok(QuestionSource::FillInBlank { common, blanks })
    } else if str_eq(k, "matching") {
        let items = required_list(entries, "pairs")?;
        let pairs = decode_pairs(items)?;
        let distractors = text_list(entries, "distractors")?;
        Ok(QuestionSource::Matching { common, pairs, distractors })
    } else {
        let list = required_list(entries, "items")?;
        let items = decode_messages(list)?;
        Ok(QuestionSource::Ordered { common, items })
    }
}

// ---------------------------------------------------------------------------
// Front-matter and prompt
// ---------------------------------------------------------------------------

/// Where a scan for the front-matter block stands after some events: the
/// front-matter's text once its block has closed, that block's span, the
/// text gathered inside a block still open and where it opened, and
/// whether a second block was seen.
pub struct FrontMatter {
    pub yaml: Option<Seq<char>>,
    pub span: Option<(nat, nat)>,
    pub buf: Seq<char>,
    pub open: Option<nat>,
    pub twice: bool,
}

/// The scan after folding in one more event.
pub open spec fn scan_step(state: FrontMatter, ev: MdEventView) -> FrontMatter {
    if state.twice {
        state
    } else if ev.kind == MdKind::Start && ev.tag == MdTag::MetadataBlock && ev.flag {
        if state.yaml is Some {
            FrontMatter { twice: true, ..state }
        } else {
            FrontMatter { buf: Seq::empty(), open: Some(ev.start), ..state }
        }
    } else if ev.kind == MdKind::Text && state.open is Some {
        FrontMatter { buf: state.buf + ev.text, ..state }
    } else if ev.kind == MdKind::End && ev.tag == MdTag::MetadataBlock && state.open is Some {
        FrontMatter {
            span: Some((state.open->0, ev.end)),
            yaml: Some(state.buf),
            buf: Seq::empty(),
            open: None,
            twice: false,
        }
    } else {
        state
    }
}

/// The scan over `events`, from an empty start.
pub open spec fn scan_spec(events: Seq<MdEventView>) -> FrontMatter
    decreases events.len(),
{
    if events.len() == 0 {
        FrontMatter { yaml: None, span: None, buf: Seq::empty(), open: None, twice: false }
    } else {
        scan_step(scan_spec(events.drop_last()), events.last())
    }
}

/// `source` with the characters `span` covers removed, when both ends lie
/// within it.
pub open spec fn without_span(source: Seq<char>, span: (nat, nat)) -> Option<Seq<char>> {
    if span.0 <= source.len() && span.1 <= source.len() {
        Some(source.take(span.0 as int) + source.skip(span.1 as int))
    } else {
        None
    }
}

/// The front-matter text and the trimmed prompt below it, or why there are
/// none: no block, two blocks, or a block outside the source.
pub open spec fn front_matter_spec(source: Seq<char>) -> Result<(Seq<char>, Seq<char>), ()> {
    let scan = scan_spec(md_events(source, YAML_METADATA));
    if scan.twice {
        Err(())
    } else {
        match scan.yaml {
            None => Err(()),
            Some(yaml) => match without_span(source, match scan.span { Some(s) => s, None => (0, 0) }) {
                Some(rest) => Ok((yaml, trim_spec(rest))),
                None => Err(()),
            },
        }
    }
}

/// Split `source` into its YAML front-matter and the Markdown prompt below
/// it (trimmed).
///
/// Fails with [`Error::Parse`] exactly when there is no `---` front-matter
/// block or more than one.
pub fn extract_yaml_and_prompt(source: &str) -> (res: Result<(String, String), Error>)
    ensures
        match front_matter_spec(source@) {
            Ok((yaml, prompt)) => res matches Ok(p) && p.0@ == yaml && p.1@ == prompt,
            Err(_) => res matches Err(e) && e is Parse,
        },
{
    let events = markdown_events(source, YAML_METADATA);
    let ghost model = md_events(source@, YAML_METADATA);
    let mut yaml: Option<Vec<char>> = None;
    let mut span: Option<(usize, usize)> = None;
    let mut buf: Vec<char> = Vec::new();
    let mut open: Option<usize> = None;
    let mut i: usize = 0;
    while i < events.len()
        invariant
            i <= events@.len(),
            model == md_events(source@, YAML_METADATA),
            events@.len() == model.len(),
            forall|j: int| 0 <= j < model.len() ==> events@[j]@ == model[j],
            ({
                let scan = scan_spec(model.take(i as int));
                &&& !scan.twice
                &&& scan.yaml == match yaml { Some(y) => Some(y@), None => None::<Seq<char>> }
                &&& scan.span == match span { Some(s) => Some((s.0 as nat, s.1 as nat)), None => None::<(nat, nat)> }
                &&& scan.buf == buf@
                &&& scan.open == match open { Some(o) => Some(o as nat), None => None::<nat> }
            }),
        decreases events@.len() - i,
    {
        assert(model.take(i + 1).drop_last() =~= model.take(i as int));
        assert(model.take(i + 1).last() == model[i as int]);
        let ev = &events[i];
        assert(ev@ == model[i as int]);
        if ev.kind == MdKind::Start && ev.tag == MdTag::MetadataBlock && ev.flag {
            if yaml.is_some() {
                proof {
                    assert(scan_spec(model.take(i + 1)).twice);
                    lemma_scan_stays_twice(model, i + 1);

                }
                return Err(Error::Parse("more than one YAML front-matter block in a question".to_string()));
            }
            buf = Vec::new();
            open = Some(ev.start);
        } else if ev.kind == MdKind::Text && open.is_some() {
            extend_str(&mut buf, ev.text.as_str());
        } else if ev.kind == MdKind::End && ev.tag == MdTag::MetadataBlock && open.is_some() {
            let start = match open {
                Some(o) => o,
                None => 0,
            };
            span = Some((start, ev.end));
            yaml = Some(buf);
            buf = Vec::new();
            open = None;
        }
        i = i + 1;
    }
    assert(model.take(i as int) =~= model);
    let text = match yaml {
        Some(y) => string_from_chars(&y),
        None => return Err(Error::Parse("no YAML front-matter (--- block) found in question".to_string())),
    };
    let (from, to) = match span {
        Some(s) => s,
        None => (0, 0),
    };
    let chars = str_chars(source);
    if from > chars.len() || to > chars.len() {
        return Err(Error::Parse("YAML block span is not a char boundary".to_string()));
    }
    let mut rest = slice_chars(&chars, 0, from);
    let after = slice_chars(&chars, to, chars.len());
    crate::text::extend_chars(&mut rest, &after);
    assert(rest@ =~= source@.take(from as int) + source@.skip(to as int));
    let rest = string_from_chars(&rest);
    let prompt = crate::text::trim_str(rest.as_str());
    Ok((text, prompt))
}

/// Once a second block is seen, the scan reports it whatever follows.
proof fn lemma_scan_stays_twice(events: Seq<MdEventView>, n: int)
    requires
        0 <= n <= events.len(),
        scan_spec(events.take(n)).twice,
    ensures
        scan_spec(events).twice,
    decreases events.len() - n,
{
    if n < events.len() {
        assert(events.take(n + 1).drop_last() =~= events.take(n));
        lemma_scan_stays_twice(events, n + 1);
    } else {
        assert(events.take(n) =~= events);
    }
}

// ---------------------------------------------------------------------------
// Titles
// ---------------------------------------------------------------------------

/// `s` without the `#` characters that close it.
pub open spec fn strip_closing_hashes(s: Seq<char>) -> Seq<char>
    decreases s.len(),
{
    if s.len() > 0 && s.last() == '#' {
        strip_closing_hashes(s.drop_last())
    } else {
        s
    }
}

/// The first line of `text`, and what follows its line break.
pub open spec fn first_line(text: Seq<char>) -> (Seq<char>, Seq<char>) {
    match first_occurrence(text, "\n"@) {
        Some(i) => (text.take(i as int), text.skip(i as int + 1)),
        None => (text, Seq::empty()),
    }
}

/// A leading level-one ATX heading split off `prompt`: its text (trimmed,
/// closing hashes dropped) as the title, and the rest of the prompt with its
/// leading whitespace removed. With no such heading, or an empty one, there
/// is no title and the prompt is unchanged.
pub open spec fn leading_title_spec(prompt: Seq<char>) -> (Option<Seq<char>>, Seq<char>) {
    let (line, rest) = first_line(prompt);
    if !has_prefix(line, "# "@) {
        (None, prompt)
    } else {
        let title = trim_spec(strip_closing_hashes(trim_spec(line.skip(2))));
        if title.len() == 0 {
            (None, prompt)
        } else {
            (Some(title), trim_start_spec(rest))
        }
    }
}

/// Split a leading level-one ATX heading (`# ...`) off the front of `prompt`.
pub fn split_leading_title(prompt: &str) -> (res: (Option<String>, String))
    ensures
        res.1@ == leading_title_spec(prompt@).1,
        match leading_title_spec(prompt@).0 {
            Some(t) => res.0 matches Some(x) && x@ == t,
            None => res.0 is None,
        },
{
    proof {
        reveal_strlit("\n");
        reveal_strlit("# ");
    }
    let chars = str_chars(prompt);
    let newline = str_chars("\n");
    proof {
        assert(chars@.skip(0) =~= chars@);
        lemma_first_occurrence(chars@, newline@);
    }
    let (line, rest) = match find_next(&chars, &newline, 0) {
        Some(i) => {
            assert(chars@.skip(0) =~= chars@);
            (slice_chars(&chars, 0, i), slice_chars(&chars, i + 1, chars.len()))
        },
        None => {
            assert(chars@.skip(0) =~= chars@);
            (slice_chars(&chars, 0, chars.len()), Vec::new())
        },
    };
    proof {
        lemma_first_occurrence(chars@, "\n"@);
        assert(chars@.take(chars@.len() as int) =~= chars@);
        assert(line@ == first_line(prompt@).0);
        assert(rest@ == first_line(prompt@).1);
    }
    let marker = str_chars("# ");
    if !starts_with(&line, &marker) {
        return (None, prompt.to_string());
    }
    let heading = trim_chars(&slice_chars(&line, 2, line.len()));
    let mut end: usize = heading.len();
    assert(heading@.take(end as int) =~= heading@);
    while end > 0 && heading[end - 1] == '#'
        invariant
            end <= heading@.len(),
            strip_closing_hashes(heading@) == strip_closing_hashes(heading@.take(end as int)),
        decreases end,
    {
        assert(heading@.take(end as int).drop_last() =~= heading@.take(end - 1));
        end = end - 1;
    }
    proof {
        assert(heading@.take(end as int) == strip_closing_hashes(heading@.take(end as int)));
    }
    let title = trim_chars(&slice_chars(&heading, 0, end));
    if title.len() == 0 {
        return (None, prompt.to_string());
    }
    let skip = crate::text::leading_ws(&rest);
    let body = slice_chars(&rest, skip, rest.len());
    (Some(string_from_chars(&title)), string_from_chars(&body))
}

// ---------------------------------------------------------------------------
// Validation
// ---------------------------------------------------------------------------

/// How many of `choices` are marked correct.
pub open spec fn correct_count(choices: Seq<Choice>) -> nat
    decreases choices.len(),
{
    if choices.len() == 0 {
        0
    } else {
        correct_count(choices.drop_last()) + if choices.last().correct { 1nat } else { 0nat }
    }
}

/// A choice list is valid with at least two options and exactly one correct
/// (or, with `multiple`, at least one).
pub open spec fn choices_valid(choices: Seq<Choice>, multiple: bool) -> bool {
    choices.len() >= 2 && if multiple { correct_count(choices) >= 1 } else { correct_count(choices) == 1 }
}

/// Fill-in-the-blank markers and definitions agree: there is a blank, every
/// defined blank is marked in the prompt and has an answer, and every
/// marker is defined.
pub open spec fn blanks_valid(prompt: Seq<char>, blanks: Seq<Blank>) -> bool {
    let marked = crate::model::blank_markers_spec(prompt);
    &&& blanks.len() > 0
    &&& forall|k: int| 0 <= k < blanks.len() ==> marked.contains(#[trigger] blanks[k].id@) && blanks[k].answers@.len() > 0
    &&& forall|m: int| 0 <= m < marked.len() ==> defines(blanks, #[trigger] marked[m])
}

/// Whether blank `b` is marked among `markers` and has an answer.
pub open spec fn blank_ok(markers: Seq<Seq<char>>, b: Blank) -> bool {
    markers.contains(b.id@) && b.answers@.len() > 0
}

/// Whether some blank of `blanks` is named `name`.
pub open spec fn defines(blanks: Seq<Blank>, name: Seq<char>) -> bool {
    exists|k: int| 0 <= k < blanks.len() && #[trigger] blanks[k].id@ == name
}

/// A matching question has at least two pairs, neither side of any blank.
pub open spec fn matching_valid(pairs: Seq<MatchPair>) -> bool {
    pairs.len() >= 2 && forall|k: int| 0 <= k < pairs.len() ==> trim_spec((#[trigger] pairs[k]).left@).len() > 0
        && trim_spec(pairs[k].right@).len() > 0
}

/// An ordering question has at least two items, none of them blank.
pub open spec fn ordering_valid(items: Seq<String>) -> bool {
    items.len() >= 2 && forall|k: int| 0 <= k < items.len() ==> trim_spec((#[trigger] items[k])@).len() > 0
}

/// Whether a parsed question meets its kind's semantic rules.
pub open spec fn question_valid(q: Question) -> bool {
    match q.kind {
        QuestionKind::MultipleChoice(set) => choices_valid(set.choices@, false),
        QuestionKind::MultipleSelect(set) => choices_valid(set.choices@, true),
        QuestionKind::FillInBlank(fitb) => blanks_valid(q.prompt@, fitb.blanks@),
        QuestionKind::Matching(m) => matching_valid(m.pairs@),
        QuestionKind::Ordered(o) => ordering_valid(o.items@),
        _ => true,
    }
}

/// Where the first blank of `blanks[k..]` that is unmarked or unanswered
/// stands, or `blanks.len()` when there is none.
pub open spec fn first_bad_blank(markers: Seq<Seq<char>>, blanks: Seq<Blank>, k: int) -> int
    decreases blanks.len() - k,
{
    if k < 0 || k >= blanks.len() {
        blanks.len() as int
    } else if !blank_ok(markers, blanks[k]) {
        k
    } else {
        first_bad_blank(markers, blanks, k + 1)
    }
}

/// Where the first marker of `markers[m..]` that no blank defines stands,
/// or `markers.len()` when there is none.
pub open spec fn first_undefined(markers: Seq<Seq<char>>, blanks: Seq<Blank>, m: int) -> int
    decreases markers.len() - m,
{
    if m < 0 || m >= markers.len() {
        markers.len() as int
    } else if !defines(blanks, markers[m]) {
        m
    } else {
        first_undefined(markers, blanks, m + 1)
    }
}

/// `question "id"` followed by `tail`.
pub open spec fn about(id: Seq<char>, tail: Seq<char>) -> Seq<char> {
    "question "@ + debug_str(id) + tail
}

/// `question "id"`, `middle`, the quoted `name`, then `tail`.
pub open spec fn about_named(id: Seq<char>, middle: Seq<char>, name: Seq<char>, tail: Seq<char>) -> Seq<char> {
    "question "@ + debug_str(id) + middle + debug_str(name) + tail
}

/// What a refused choice list of question `id` is told: too few choices,
/// or how many were marked correct against how many it needs.
pub open spec fn choices_message(id: Seq<char>, choices: Seq<Choice>, multiple: bool) -> Seq<char> {
    if choices.len() < 2 {
        about(id, " needs at least two choices"@)
    } else if multiple {
        about(id, " needs at least one correct choice, found "@ + decimal_spec(correct_count(choices)))
    } else {
        about(id, " needs exactly one correct choice, found "@ + decimal_spec(correct_count(choices)))
    }
}

/// What a refused fill-in-the-blank question `id` is told: that it has no
/// blanks, else of the first blank that is unmarked or unanswered, else of
/// the first marker no blank defines.
pub open spec fn blanks_message(id: Seq<char>, prompt: Seq<char>, blanks: Seq<Blank>) -> Seq<char> {
    let markers = crate::model::blank_markers_spec(prompt);
    let k = first_bad_blank(markers, blanks, 0);
    if blanks.len() == 0 {
        about(id, " has no blanks; mark one inline with {{name}}"@)
    } else if k < blanks.len() {
        if !markers.contains(blanks[k].id@) {
            about_named(id, " defines blank "@, blanks[k].id@, " that never appears in the prompt"@)
        } else {
            about_named(id, " blank "@, blanks[k].id@, " has no answers"@)
        }
    } else {
        about_named(id, " uses blank "@, markers[first_undefined(markers, blanks, 0)], " with no answers defined"@)
    }
}

/// What a refused matching question `id` is told.
pub open spec fn matching_message(id: Seq<char>, pairs: Seq<MatchPair>) -> Seq<char> {
    if pairs.len() < 2 {
        about(id, " needs at least two matching pairs"@)
    } else {
        about(id, " has a matching pair with an empty side"@)
    }
}

/// What a refused ordering question `id` is told.
pub open spec fn ordering_message(id: Seq<char>, items: Seq<String>) -> Seq<char> {
    if items.len() < 2 {
        about(id, " needs at least two items to order"@)
    } else {
        about(id, " has an empty ordering item"@)
    }
}

/// What question `id`, with `prompt` and `kind`, is told when it breaks its
/// kind's rules.
pub open spec fn kind_message(id: Seq<char>, prompt: Seq<char>, kind: QuestionKind) -> Seq<char> {
    match kind {
        QuestionKind::MultipleChoice(set) => choices_message(id, set.choices@, false),
        QuestionKind::MultipleSelect(set) => choices_message(id, set.choices@, true),
        QuestionKind::FillInBlank(fitb) => blanks_message(id, prompt, fitb.blanks@),
        QuestionKind::Matching(m) => matching_message(id, m.pairs@),
        QuestionKind::Ordered(o) => ordering_message(id, o.items@),
        _ => Seq::empty(),
    }
}

/// `question "id"` followed by `tail`, as an invalid-question error.
fn invalid(id: &str, tail: &str) -> (res: Error)
    ensures
        res matches Error::InvalidQuestion(m) && m@ == about(id@, tail@),
{
    let mut out: Vec<char> = Vec::new();
    extend_str(&mut out, "question ");
    extend_str(&mut out, debug_quoted(id).as_str());
    extend_str(&mut out, tail);
    assert(out@ =~= "question "@ + debug_str(id@) + tail@);
    Error::InvalidQuestion(string_from_chars(&out))
}

/// `question "id"`, `middle`, the quoted `name`, then `tail`, as an
/// invalid-question error.
fn invalid_named(id: &str, middle: &str, name: &str, tail: &str) -> (res: Error)
    ensures
        res matches Error::InvalidQuestion(m) && m@ == about_named(id@, middle@, name@, tail@),
{
    let mut out: Vec<char> = Vec::new();
    extend_str(&mut out, "question ");
    extend_str(&mut out, debug_quoted(id).as_str());
    extend_str(&mut out, middle);
    extend_str(&mut out, debug_quoted(name).as_str());
    extend_str(&mut out, tail);
    assert(out@ =~= "question "@ + debug_str(id@) + middle@ + debug_str(name@) + tail@);
    Error::InvalidQuestion(string_from_chars(&out))
}

/// Validate a choice list: at least two options and the right number correct.
fn validate_choices(id: &str, choices: &Vec<Choice>, allow_multiple: bool) -> (res: Result<(), Error>)
    ensures
        res is Ok <==> choices_valid(choices@, allow_multiple),
        res matches Err(e) ==> e matches Error::InvalidQuestion(m) && m@ == choices_message(id@, choices@, allow_multiple),
{
    if choices.len() < 2 {
        return Err(invalid(id, " needs at least two choices"));
    }
    let mut correct: usize = 0;
    let mut i: usize = 0;
    while i < choices.len()
        invariant
            i <= choices@.len(),
            correct == correct_count(choices@.take(i as int)),
            correct <= i,
        decreases choices@.len() - i,
    {
        assert(choices@.take(i + 1).drop_last() =~= choices@.take(i as int));
        if choices[i].correct {
            correct = correct + 1;
        }
        i = i + 1;
    }
    assert(choices@.take(i as int) =~= choices@);
    let ok = if allow_multiple { correct >= 1 } else { correct == 1 };
    if ok {
        return Ok(());
    }
    let mut out: Vec<char> = Vec::new();
    extend_str(&mut out, "question ");
    extend_str(&mut out, debug_quoted(id).as_str());
    let need = if allow_multiple { " needs at least one correct choice, found " } else { " needs exactly one correct choice, found " };
    extend_str(&mut out, need);
    crate::text::push_decimal(&mut out, correct as u64);
    assert(out@ =~= about(id@, need@ + decimal_spec(correct_count(choices@))));
    Err(Error::InvalidQuestion(string_from_chars(&out)))
}

/// Validate a matching question.
fn validate_matching(id: &str, matching: &Matching) -> (res: Result<(), Error>)
    ensures
        res is Ok <==> matching_valid(matching.pairs@),
        res matches Err(e) ==> e matches Error::InvalidQuestion(m) && m@ == matching_message(id@, matching.pairs@),
{
    if matching.pairs.len() < 2 {
        return Err(invalid(id, " needs at least two matching pairs"));
    }
    let mut i: usize = 0;
    while i < matching.pairs.len()
        invariant
            i <= matching.pairs@.len(),
            matching.pairs@.len() >= 2,
            forall|k: int| 0 <= k < i ==> trim_spec((#[trigger] matching.pairs@[k]).left@).len() > 0
                && trim_spec(matching.pairs@[k].right@).len() > 0,
        decreases matching.pairs@.len() - i,
    {
        let pair = &matching.pairs[i];
        if crate::text::is_blank(pair.left.as_str()) || crate::text::is_blank(pair.right.as_str()) {
            return Err(invalid(id, " has a matching pair with an empty side"));
        }
        i = i + 1;
    }
    Ok(())
}

/// Validate an ordering question.
fn validate_ordering(id: &str, ordering: &OrderedItems) -> (res: Result<(), Error>)
    ensures
        res is Ok <==> ordering_valid(ordering.items@),
        res matches Err(e) ==> e matches Error::InvalidQuestion(m) && m@ == ordering_message(id@, ordering.items@),
{
    if ordering.items.len() < 2 {
        return Err(invalid(id, " needs at least two items to order"));
    }
    let mut i: usize = 0;
    while i < ordering.items.len()
        invariant
            i <= ordering.items@.len(),
            ordering.items@.len() >= 2,
            forall|k: int| 0 <= k < i ==> trim_spec((#[trigger] ordering.items@[k])@).len() > 0,
        decreases ordering.items@.len() - i,
    {
        if crate::text::is_blank(ordering.items[i].as_str()) {
            return Err(invalid(id, " has an empty ordering item"));
        }
        i = i + 1;
    }
    Ok(())
}

/// Whether `names` holds `name`.
fn names_hold(names: &Vec<String>, name: &str) -> (res: bool)
    ensures
        res == names@.map_values(|n: String| n@).contains(name@),
{
    let ghost view = names@.map_values(|n: String| n@);
    let mut i: usize = 0;
    while i < names.len()
        invariant
            i <= names@.len(),
            view == names@.map_values(|n: String| n@),
            forall|k: int| 0 <= k < i ==> view[k] != name@,
        decreases names@.len() - i,
    {
        if str_eq(names[i].as_str(), name) {
            assert(view[i as int] == name@);
            return true;
        }
        i = i + 1;
    }
    false
}

/// Validate a fill-in-the-blank question against its prompt's markers.
fn validate_blanks(id: &str, prompt: &str, blanks: &Vec<Blank>) -> (res: Result<(), Error>)
    ensures
        res is Ok <==> blanks_valid(prompt@, blanks@),
        res matches Err(e) ==> e matches Error::InvalidQuestion(m) && m@ == blanks_message(id@, prompt@, blanks@),
{
    if blanks.len() == 0 {
        return Err(invalid(id, " has no blanks; mark one inline with {{name}}"));
    }
    let marked = blank_markers(prompt);
    let ghost markers = crate::model::blank_markers_spec(prompt@);
    assert(marked@.map_values(|n: String| n@) == markers);
    let mut i: usize = 0;
    while i < blanks.len()
        invariant
            i <= blanks@.len(),
            marked@.map_values(|n: String| n@) == markers,
            markers == crate::model::blank_markers_spec(prompt@),
            forall|k: int| 0 <= k < i ==> blank_ok(markers, #[trigger] blanks@[k]),
            first_bad_blank(markers, blanks@, 0) == first_bad_blank(markers, blanks@, i as int),
        decreases blanks@.len() - i,
    {
        let blank = &blanks[i];
        assert(marked@.map_values(|n: String| n@).contains(blank.id@) == markers.contains(blank.id@));
        if !names_hold(&marked, blank.id.as_str()) {
            return Err(invalid_named(id, " defines blank ", blank.id.as_str(), " that never appears in the prompt"));
        }
        if blank.answers.len() == 0 {
            return Err(invalid_named(id, " blank ", blank.id.as_str(), " has no answers"));
        }
        assert(blank_ok(markers, blanks@[i as int]));
        assert(first_bad_blank(markers, blanks@, i as int) == first_bad_blank(markers, blanks@, i + 1));
        i = i + 1;
    }
    assert(first_bad_blank(markers, blanks@, 0) == blanks@.len());
    assert forall|k: int| 0 <= k < blanks@.len() implies markers.contains(#[trigger] blanks@[k].id@)
        && blanks@[k].answers@.len() > 0 by {
        assert(blank_ok(markers, blanks@[k]));
    }
    let mut m: usize = 0;
    while m < marked.len()
        invariant
            m <= marked@.len(),
            marked@.map_values(|n: String| n@) == markers,
            markers == crate::model::blank_markers_spec(prompt@),
            forall|j: int| 0 <= j < m ==> defines(blanks@, #[trigger] markers[j]),
            first_bad_blank(markers, blanks@, 0) == blanks@.len(),
            blanks@.len() > 0,
            first_undefined(markers, blanks@, 0) == first_undefined(markers, blanks@, m as int),
        decreases marked@.len() - m,
    {
        let ghost want = markers[m as int];
        assert(marked@[m as int]@ == want);
        let mut k: usize = 0;
        let mut found = false;
        while k < blanks.len() && !found
            invariant
                k <= blanks@.len(),
                m < marked@.len(),
                marked@.map_values(|n: String| n@) == markers,
                want == markers[m as int],
                marked@[m as int]@ == want,
                found ==> k < blanks@.len() && blanks@[k as int].id@ == want,
                forall|j: int| 0 <= j < k ==> (#[trigger] blanks@[j]).id@ != want,
            decreases blanks@.len() - k + if found { 0int } else { 1int },
        {
            if str_eq(blanks[k].id.as_str(), marked[m].as_str()) {
                found = true;
            } else {
                k = k + 1;
            }
        }
        if !found {
            assert(!defines(blanks@, markers[m as int]));
            assert(markers.len() == marked@.len());
            assert(first_undefined(markers, blanks@, m as int) == m);
            return Err(invalid_named(id, " uses blank ", marked[m].as_str(), " with no answers defined"));
        }
        assert(first_undefined(markers, blanks@, m as int) == first_undefined(markers, blanks@, m + 1));
        m = m + 1;
    }
    Ok(())
}

/// Check a parsed question against its kind's semantic rules.
pub fn validate_question(question: &Question) -> (res: Result<(), Error>)
    ensures
        res is Ok <==> question_valid(*question),
        res matches Err(e) ==> e matches Error::InvalidQuestion(m) && m@ == kind_message(
            question.id@,
            question.prompt@,
            question.kind,
        ),
{
    match &question.kind {
        QuestionKind::MultipleChoice(set) => validate_choices(question.id.as_str(), &set.choices, false),
        QuestionKind::MultipleSelect(set) => validate_choices(question.id.as_str(), &set.choices, true),
        QuestionKind::FillInBlank(fitb) => validate_blanks(question.id.as_str(), question.prompt.as_str(), &fitb.blanks),
        QuestionKind::Matching(matching) => validate_matching(question.id.as_str(), matching),
        QuestionKind::Ordered(ordering) => validate_ordering(question.id.as_str(), ordering),
        _ => Ok(()),
    }
}

// ---------------------------------------------------------------------------
// Rebasing a partial's images
// ---------------------------------------------------------------------------

/// Whether `i` is where the last occurrence of `pat` in `s` starts.
pub open spec fn is_last_occurrence(s: Seq<char>, pat: Seq<char>, i: int) -> bool {
    occurs_at(s, pat, i) && forall|j: int| i < j ==> !occurs_at(s, pat, j)
}

/// Where the last occurrence of `pat` in `s` starts, if it occurs.
pub open spec fn last_occurrence(s: Seq<char>, pat: Seq<char>) -> Option<nat> {
    if exists|i: int| occurs_at(s, pat, i) {
        Some((choose|i: int| is_last_occurrence(s, pat, i)) as nat)
    } else {
        None
    }
}

/// Where a pattern occurs, it occurs a last time.
proof fn lemma_last_occurrence_exists(s: Seq<char>, pat: Seq<char>, i: int)
    requires
        occurs_at(s, pat, i),
    ensures
        exists|j: int| is_last_occurrence(s, pat, j),
    decreases s.len() - i,
{
    if forall|j: int| i < j ==> !occurs_at(s, pat, j) {
        assert(is_last_occurrence(s, pat, i));
    } else {
        let j = choose|j: int| i < j && occurs_at(s, pat, j);
        lemma_last_occurrence_exists(s, pat, j);
    }
}

/// The last position where `pat` occurs in `s`.
pub fn find_last(s: &Vec<char>, pat: &Vec<char>) -> (res: Option<usize>)
    ensures
        res matches Some(i) ==> is_last_occurrence(s@, pat@, i as int),
        match last_occurrence(s@, pat@) {
            Some(i) => res == Some(i as usize),
            None => res is None,
        },
{
    if pat.len() > s.len() {
        proof {
            assert forall|j: int| !occurs_at(s@, pat@, j) by {}
        }
        return None;
    }
    let mut i: usize = s.len() - pat.len();
    loop
        invariant
            i + pat@.len() <= s@.len(),
            forall|j: int| i < j ==> !occurs_at(s@, pat@, j),
        decreases i,
    {
        if matches_at(s, pat, i) {
            proof {
                assert(is_last_occurrence(s@, pat@, i as int));
                let c = choose|c: int| is_last_occurrence(s@, pat@, c);
                assert(c == i as int);
            }
            return Some(i);
        }
        if i == 0 {
            proof {
                assert forall|j: int| !occurs_at(s@, pat@, j) by {}
            }
            return None;
        }
        i = i - 1;
    }
}

/// One local image's URL in a Markdown source: where it starts and ends,
/// in characters, and the URL.
#[derive(Debug)]
pub struct ImageSpan {
    pub start: usize,
    pub end: usize,
    pub url: String,
}

/// An image span as plain values.
pub open spec fn span_view(span: ImageSpan) -> (nat, nat, Seq<char>) {
    (span.start as nat, span.end as nat, span.url@)
}

/// Image spans as plain values.
pub open spec fn spans_view(spans: Seq<ImageSpan>) -> Seq<(nat, nat, Seq<char>)> {
    spans.map_values(|span: ImageSpan| span_view(span))
}

/// The URL span one event contributes: the start of a local image whose
/// source range lies within `source`, at the last place its URL occurs in
/// that range.
pub open spec fn event_span(source: Seq<char>, ev: MdEventView) -> Seq<(nat, nat, Seq<char>)> {
    if ev.kind == MdKind::Start && ev.tag == MdTag::Image && is_local_image_spec(ev.text) && ev.start
        <= ev.end && ev.end <= source.len() {
        match last_occurrence(source.subrange(ev.start as int, ev.end as int), ev.text) {
            Some(o) => seq![(ev.start + o, ev.start + o + ev.text.len(), ev.text)],
            None => Seq::empty(),
        }
    } else {
        Seq::empty()
    }
}

/// The URL spans of every local image the events of `source` report, in
/// event order.
pub open spec fn url_spans_spec(source: Seq<char>, events: Seq<MdEventView>) -> Seq<(nat, nat, Seq<char>)>
    decreases events.len(),
{
    if events.len() == 0 {
        Seq::empty()
    } else {
        url_spans_spec(source, events.drop_last()) + event_span(source, events.last())
    }
}

/// Only local images are rebased: every span the rewrite touches is a
/// local URL, found where the source holds it, so external and absolute
/// URLs are left untouched.
pub proof fn only_local_images_are_rebased(source: Seq<char>, events: Seq<MdEventView>)
    ensures
        forall|k: int| 0 <= k < url_spans_spec(source, events).len() ==> {
            let (start, end, url) = #[trigger] url_spans_spec(source, events)[k];
            &&& is_local_image_spec(url)
            &&& end <= source.len()
            &&& source.subrange(start as int, end as int) == url
        },
    decreases events.len(),
{
    if events.len() > 0 {
        only_local_images_are_rebased(source, events.drop_last());
        let done = url_spans_spec(source, events.drop_last());
        let ev = events.last();
        let more = event_span(source, ev);
        if more.len() > 0 {
            let range = source.subrange(ev.start as int, ev.end as int);
            let o = last_occurrence(range, ev.text)->0;
            let w = choose|i: int| occurs_at(range, ev.text, i);
            lemma_last_occurrence_exists(range, ev.text, w);
            let c = choose|i: int| is_last_occurrence(range, ev.text, i);
            assert(occurs_at(range, ev.text, c));
            assert(source.subrange(ev.start + o as int, ev.start + o + ev.text.len() as int) =~= range.subrange(o as int, o + ev.text.len() as int));
        }
        assert forall|k: int| 0 <= k < url_spans_spec(source, events).len() implies {
            let (start, end, url) = #[trigger] url_spans_spec(source, events)[k];
            &&& is_local_image_spec(url)
            &&& end <= source.len()
            &&& source.subrange(start as int, end as int) == url
        } by {
            if k < done.len() {
                assert(url_spans_spec(source, events)[k] == done[k]);
            } else {
                assert(url_spans_spec(source, events)[k] == more[k - done.len()]);
            }
        }
    }
}

/// The URL span of every local image in `markdown`, in event order.
pub fn image_url_spans(markdown: &str) -> (res: Vec<ImageSpan>)
    ensures
        spans_view(res@) == url_spans_spec(markdown@, md_events(markdown@, 0)),
{
    let events = markdown_events(markdown, 0);
    let ghost model = md_events(markdown@, 0);
    let chars = str_chars(markdown);
    let mut spans: Vec<ImageSpan> = Vec::new();
    let mut i: usize = 0;
    while i < events.len()
        invariant
            i <= events@.len(),
            model == md_events(markdown@, 0),
            chars@ == markdown@,
            events@.len() == model.len(),
            forall|j: int| 0 <= j < model.len() ==> events@[j]@ == model[j],
            spans_view(spans@) == url_spans_spec(markdown@, model.take(i as int)),
        decreases events@.len() - i,
    {
        assert(model.take(i + 1).drop_last() =~= model.take(i as int));
        assert(model.take(i + 1).last() == model[i as int]);
        let ev = &events[i];
        assert(ev@ == model[i as int]);
        let ghost before = spans@;
        if ev.kind == MdKind::Start && ev.tag == MdTag::Image && is_local_image(ev.text.as_str())
            && ev.start <= ev.end && ev.end <= chars.len() {
            let range = slice_chars(&chars, ev.start, ev.end);
            let url = str_chars(ev.text.as_str());
            match find_last(&range, &url) {
                Some(offset) => {
                    proof {
                        assert(occurs_at(range@, url@, offset as int));
                    }
                    let start = ev.start + offset;
                    spans.push(ImageSpan { start, end: start + url.len(), url: ev.text.clone() });
                },
                None => {},
            }
        }
        assert(spans_view(spans@) =~= spans_view(before) + event_span(markdown@, model[i as int]));
        i = i + 1;
    }
    assert(model.take(i as int) =~= model);
    spans
}

/// Whether `order` holds the spans of `spans`, latest start first.
pub open spec fn latest_first(order: Seq<(nat, nat, Seq<char>)>, spans: Seq<(nat, nat, Seq<char>)>) -> bool {
    &&& order.to_multiset() == spans.to_multiset()
    &&& forall|j: int, k: int| 0 <= j < k < order.len() ==> order[k].0 <= order[j].0
}

/// Where span `x` goes among `order[p..]`: before the first that starts
/// earlier than it, else at the end.
pub open spec fn latest_at(order: Seq<(nat, nat, Seq<char>)>, x: (nat, nat, Seq<char>), p: int) -> int
    decreases order.len() - p,
{
    if p < 0 || p >= order.len() {
        order.len() as int
    } else if order[p].0 < x.0 {
        p
    } else {
        latest_at(order, x, p + 1)
    }
}

/// The first `n` spans sorted latest start first by insertion, ties kept in
/// their order.
pub open spec fn latest_spec(spans: Seq<(nat, nat, Seq<char>)>, n: nat) -> Seq<(nat, nat, Seq<char>)>
    decreases n,
{
    if n == 0 {
        Seq::empty()
    } else {
        let placed = latest_spec(spans, (n - 1) as nat);
        placed.insert(latest_at(placed, spans[n - 1], 0), spans[n - 1])
    }
}

/// Where a span is inserted lies within the order, after every span that
/// starts no earlier and before one that starts earlier.
proof fn lemma_latest_at(order: Seq<(nat, nat, Seq<char>)>, x: (nat, nat, Seq<char>), p: int)
    requires
        0 <= p <= order.len(),
    ensures
        p <= latest_at(order, x, p) <= order.len(),
        forall|k: int| p <= k < latest_at(order, x, p) ==> #[trigger] order[k].0 >= x.0,
        latest_at(order, x, p) < order.len() ==> order[latest_at(order, x, p)].0 < x.0,
    decreases order.len() - p,
{
    if p < order.len() && order[p].0 >= x.0 {
        lemma_latest_at(order, x, p + 1);
    }
}

/// The URL spans, sorted latest start first, hold exactly the spans found:
/// rewriting them in that order leaves every earlier span where the parser
/// found it.
pub proof fn latest_first_sorts(spans: Seq<(nat, nat, Seq<char>)>, n: nat)
    requires
        n <= spans.len(),
    ensures
        latest_first(latest_spec(spans, n), spans.take(n as int)),
    decreases n,
{
    if n == 0 {
        assert(spans.take(0) =~= Seq::<(nat, nat, Seq<char>)>::empty());
        assert(latest_spec(spans, 0) =~= Seq::<(nat, nat, Seq<char>)>::empty());
    } else {
        latest_first_sorts(spans, (n - 1) as nat);
        let before = latest_spec(spans, (n - 1) as nat);
        let x = spans[n - 1];
        let p = latest_at(before, x, 0);
        lemma_latest_at(before, x, 0);
        vstd::seq_lib::to_multiset_insert(before, p, x);
        assert(spans.take(n as int) =~= spans.take(n - 1).push(x));
        vstd::seq_lib::to_multiset_build(spans.take(n - 1), x);
        let v = before.insert(p, x);
        assert forall|j: int, k: int| 0 <= j < k < v.len() implies v[k].0 <= v[j].0 by {
            if k < p {
                assert(v[k] == before[k] && v[j] == before[j]);
            } else if k == p {
                assert(v[j] == before[j]);
            } else if j == p {
                assert(v[k] == before[k - 1]);
                if k - 1 > p {
                    assert(before[k - 1].0 <= before[p].0);
                }
            } else if j < p {
                assert(v[j] == before[j] && v[k] == before[k - 1]);
            } else {
                assert(v[j] == before[j - 1] && v[k] == before[k - 1]);
            }
        }
    }
}

/// The spans sorted latest start first, ties kept in their order.
fn latest_first_order(spans: Vec<ImageSpan>) -> (res: Vec<ImageSpan>)
    ensures
        spans_view(res@) == latest_spec(spans_view(spans@), spans@.len()),
{
    let ghost all = spans_view(spans@);
    let total = spans.len();
    let mut out: Vec<ImageSpan> = Vec::new();
    let mut i: usize = 0;
    let mut rest = spans;
    assert(spans_view(out@) =~= latest_spec(all, 0));
    while rest.len() > 0
        invariant
            all.len() == i + rest@.len(),
            all.len() <= usize::MAX,
            spans_view(rest@) == all.skip(i as int),
            spans_view(out@) == latest_spec(all, i as nat),
        decreases rest@.len(),
    {
        let ghost before_rest = rest@;
        let next = rest.remove(0);
        assert(spans_view(before_rest)[0] == span_view(next));
        assert(all[i as int] == span_view(next));
        assert(rest@ =~= before_rest.skip(1));
        assert(spans_view(rest@) =~= spans_view(before_rest).skip(1));
        assert(spans_view(rest@) =~= all.skip(i + 1));
        let mut p: usize = 0;
        while p < out.len() && out[p].start >= next.start
            invariant
                p <= out@.len(),
                latest_at(spans_view(out@), span_view(next), 0) == latest_at(spans_view(out@), span_view(next), p as int),
            decreases out@.len() - p,
        {
            p = p + 1;
        }
        let ghost before = out@;
        out.insert(p, next);
        assert(spans_view(out@) =~= spans_view(before).insert(p as int, span_view(next)));
        i = i + 1;
    }
    out
}

/// `text` with each span in turn replaced by `base`, a slash and its URL;
/// a span that no longer lies within the text is passed over.
pub open spec fn splice_all(text: Seq<char>, spans: Seq<(nat, nat, Seq<char>)>, base: Seq<char>) -> Seq<char>
    decreases spans.len(),
{
    if spans.len() == 0 {
        text
    } else {
        let (start, end, url) = spans[0];
        let next = if start <= end && end <= text.len() {
            text.take(start as int) + base + "/"@ + url + text.skip(end as int)
        } else {
            text
        };
        splice_all(next, spans.skip(1), base)
    }
}

/// Rewrite each local image URL in `markdown` to sit under `base` (the
/// partial's directory), so bundling resolves it relative to the bank root.
/// External and absolute URLs are left untouched; an empty `base` needs no
/// rewrite. The URLs are rewritten latest first, so each earlier span still
/// lies where the parser found it.
pub fn rebase_images(markdown: &str, base: &str) -> (res: String)
    ensures
        base@.len() == 0 ==> res@ == markdown@,
        base@.len() > 0 ==> res@ == splice_all(markdown@, latest_spec(url_spans_spec(markdown@, md_events(markdown@, 0)),
            url_spans_spec(markdown@, md_events(markdown@, 0)).len()), base@),
{
    if base.is_empty() {
        return markdown.to_string();
    }
    let order = latest_first_order(image_url_spans(markdown));
    let ghost spans = spans_view(order@);
    let mut out = str_chars(markdown);
    let mut k: usize = 0;
    assert(spans.skip(0) =~= spans);
    while k < order.len()
        invariant
            k <= order@.len(),
            spans == spans_view(order@),
            splice_all(markdown@, spans, base@) == splice_all(out@, spans.skip(k as int), base@),
        decreases order@.len() - k,
    {
        let span = &order[k];
        assert(spans.skip(k as int)[0] == span_view(*span));
        assert(spans.skip(k as int).skip(1) =~= spans.skip(k + 1));
        if span.start <= span.end && span.end <= out.len() {
            let mut next = slice_chars(&out, 0, span.start);
            extend_str(&mut next, base);
            extend_str(&mut next, "/");
            extend_str(&mut next, span.url.as_str());
            let tail = slice_chars(&out, span.end, out.len());
            crate::text::extend_chars(&mut next, &tail);
            assert(next@ =~= out@.take(span.start as int) + base@ + "/"@ + span.url@ + out@.skip(span.end as int));
            out = next;
        }
        k = k + 1;
    }
    assert(spans.skip(k as int) =~= Seq::<(nat, nat, Seq<char>)>::empty());
    string_from_chars(&out)
}

// ---------------------------------------------------------------------------
// Partials and assembly
// ---------------------------------------------------------------------------

/// The reader for the disk-free entry points: every `file:` include is
/// refused, with a message saying it needs a directory context.
pub fn reject_includes(path: &str) -> (res: std::result::Result<String, String>)
    ensures
        res matches Err(m) && m@ == "`file:` include "@ + debug_str(path@)
            + " needs a directory context; export from a directory"@,
{
    let mut out: Vec<char> = Vec::new();
    extend_str(&mut out, "`file:` include ");
    extend_str(&mut out, debug_quoted(path).as_str());
    extend_str(&mut out, " needs a directory context; export from a directory");
    assert(out@ =~= "`file:` include "@ + debug_str(path@) + " needs a directory context; export from a directory"@);
    Err(string_from_chars(&out))
}

/// Whether `out` is `raw` with its local images rebased under `base`.
pub open spec fn rebased(raw: Seq<char>, base: Seq<char>, out: Seq<char>) -> bool {
    &&& base.len() == 0 ==> out == raw
    &&& base.len() > 0 ==> out == splice_all(raw, latest_spec(url_spans_spec(raw, md_events(raw, 0)),
        url_spans_spec(raw, md_events(raw, 0)).len()), base)
}

/// Whether `text` is what the partial at `path` resolves to: what the reader
/// gave for it, with its local images rebased under the partial's directory.
pub open spec fn partial_text<R: Fn(&str) -> std::result::Result<String, String>>(read: R, path: Seq<char>, text: Seq<char>) -> bool {
    exists|p: &str, raw: String| p@ == path && #[trigger] read.ensures((p,), Ok(raw)) && rebased(raw@, parent_dir_spec(path), text)
}

/// Whether `e` is the refusal of question `id`'s partial at `path`: the
/// reader, asked for `path`, can answer with the message `m`, and the error
/// names the question, the path and that message.
pub open spec fn include_refused<R: Fn(&str) -> std::result::Result<String, String>>(
    read: R,
    id: Seq<char>,
    path: Seq<char>,
    e: Error,
) -> bool {
    exists|p: &str, m: String|
        p@ == path && #[trigger] read.ensures((p,), Err(m)) && (e matches Error::InvalidQuestion(s) && s@
            == "question "@ + debug_str(id) + " cannot include "@ + debug_str(path) + ": "@ + m@)
}

/// Whether `e` is a refusal of the message `m` of question `id`: it names a
/// partial the reader refused.
pub open spec fn message_refused<R: Fn(&str) -> std::result::Result<String, String>>(
    read: R,
    id: Seq<char>,
    m: Option<Message>,
    e: Error,
) -> bool {
    m matches Some(Message::File(f)) && include_refused(read, id, f@, e)
}

/// Whether the optional message `m` can resolve: it is absent or inline, or
/// the reader can give its partial.
pub open spec fn message_resolves<R: Fn(&str) -> std::result::Result<String, String>>(read: R, m: Option<Message>) -> bool {
    match m {
        None => true,
        Some(m) => exists|t: Seq<char>| message_text(read, m, t),
    }
}

/// Whether `e` is the refusal of the feedback of question `id`, taken in
/// order: the general message, else the one for a correct answer once the
/// general one resolves, else the one for an incorrect answer once both
/// before it resolve.
pub open spec fn feedback_refused<R: Fn(&str) -> std::result::Result<String, String>>(
    read: R,
    id: Seq<char>,
    fs: FeedbackSource,
    e: Error,
) -> bool {
    ||| message_refused(read, id, fs.general, e)
    ||| message_resolves(read, fs.general) && message_refused(read, id, fs.correct, e)
    ||| message_resolves(read, fs.general) && message_resolves(read, fs.correct) && message_refused(
        read,
        id,
        fs.incorrect,
        e,
    )
}

/// Whether `e` is the refusal of choice `c` of question `id`: it has both
/// `text` and `file`, or neither, or its partial is refused.
pub open spec fn choice_refused<R: Fn(&str) -> std::result::Result<String, String>>(
    read: R,
    id: Seq<char>,
    c: ChoiceSource,
    e: Error,
) -> bool {
    match (c.text, c.file) {
        (Some(_), Some(_)) => e matches Error::InvalidQuestion(s) && s@ == "question "@ + debug_str(id)
            + " has a choice with both `text` and `file`"@,
        (None, None) => e matches Error::InvalidQuestion(s) && s@ == "question "@ + debug_str(id)
            + " has a choice with neither `text` nor `file`"@,
        (None, Some(f)) => include_refused(read, id, f@, e),
        (Some(_), None) => false,
    }
}

/// Whether the choice `c` can resolve: it is well shaped and its inline
/// text or its partial is there to be had.
pub open spec fn choice_resolves<R: Fn(&str) -> std::result::Result<String, String>>(read: R, c: ChoiceSource) -> bool {
    exists|t: Seq<char>| choice_text(read, c, t)
}

/// Whether `e` is the refusal of the first choice of `choices` that does
/// not resolve: every choice before it resolves.
pub open spec fn first_choice_refused<R: Fn(&str) -> std::result::Result<String, String>>(
    read: R,
    id: Seq<char>,
    choices: Seq<ChoiceSource>,
    e: Error,
) -> bool {
    exists|k: int|
        0 <= k < choices.len() && choice_refused(read, id, #[trigger] choices[k], e) && forall|j: int|
            0 <= j < k ==> choice_resolves(read, #[trigger] choices[j])
}

/// Whether `e` is the refusal of the first ordering item of `items` that
/// does not resolve: every item before it resolves.
pub open spec fn first_item_refused<R: Fn(&str) -> std::result::Result<String, String>>(
    read: R,
    id: Seq<char>,
    items: Seq<Message>,
    e: Error,
) -> bool {
    exists|k: int|
        0 <= k < items.len() && message_refused(read, id, Some(#[trigger] items[k]), e) && forall|j: int|
            0 <= j < k ==> message_resolves(read, Some(#[trigger] items[j]))
}

/// Whether `e` is what resolving `src` fails with: the first choice (or
/// ordering item) that does not resolve, in order; else, once they all
/// resolve, the first feedback message that does not.
pub open spec fn source_refused<R: Fn(&str) -> std::result::Result<String, String>>(
    read: R,
    src: QuestionSource,
    e: Error,
) -> bool {
    let id = common_of(src).id@;
    let fb = feedback_refused(read, id, common_of(src).feedback, e);
    match src {
        QuestionSource::MultipleChoice { choices, .. } => first_choice_refused(read, id, choices@, e) || (
        (forall|k: int| 0 <= k < choices@.len() ==> choice_resolves(read, #[trigger] choices@[k])) && fb),
        QuestionSource::MultipleSelect { choices, .. } => first_choice_refused(read, id, choices@, e) || (
        (forall|k: int| 0 <= k < choices@.len() ==> choice_resolves(read, #[trigger] choices@[k])) && fb),
        QuestionSource::Ordered { items, .. } => first_item_refused(read, id, items@, e) || ((forall|k: int|
            0 <= k < items@.len() ==> message_resolves(read, Some(#[trigger] items@[k]))) && fb),
        _ => fb,
    }
}

/// Read partial `path` via `read` and rebase its local images to the bank
/// root. A refused read becomes an invalid-question error naming `id` and
/// the path.
fn read_partial<R: Fn(&str) -> std::result::Result<String, String>>(path: &str, read: &R, id: &str) -> (res: Result<String, Error>)
    requires
        forall|p: &str| read.requires((p,)),
    ensures
        res matches Ok(s) ==> partial_text(*read, path@, s@),
        res matches Err(e) ==> include_refused(*read, id@, path@, e),
{
    match read(path) {
        Ok(raw) => {
            let base = parent_dir(path);
            let out = rebase_images(raw.as_str(), base.as_str());
            assert(rebased(raw@, parent_dir_spec(path@), out@));
            Ok(out)
        },
        Err(message) => {
            let mut out: Vec<char> = Vec::new();
            extend_str(&mut out, "question ");
            extend_str(&mut out, debug_quoted(id).as_str());
            extend_str(&mut out, " cannot include ");
            extend_str(&mut out, debug_quoted(path).as_str());
            extend_str(&mut out, ": ");
            extend_str(&mut out, message.as_str());
            assert(out@ =~= "question "@ + debug_str(id@) + " cannot include "@ + debug_str(path@) + ": "@ + message@);
            let e = Error::InvalidQuestion(string_from_chars(&out));
            assert(read.ensures((path,), Err(message)));
            Err(e)
        },
    }
}

/// Whether `text` is what the message `m` resolves to.
pub open spec fn message_text<R: Fn(&str) -> std::result::Result<String, String>>(read: R, m: Message, text: Seq<char>) -> bool {
    match m {
        Message::Text(t) => text == t@,
        Message::File(f) => partial_text(read, f@, text),
    }
}

/// Whether `text` is an optional message's resolution (none for none).
pub open spec fn optional_message_text<R: Fn(&str) -> std::result::Result<String, String>>(
    read: R,
    m: Option<Message>,
    text: Option<String>,
) -> bool {
    match (m, text) {
        (None, None) => true,
        (Some(m), Some(t)) => message_text(read, m, t@),
        _ => false,
    }
}

/// Whether `f` is the feedback block `fs` resolves to.
pub open spec fn feedback_text<R: Fn(&str) -> std::result::Result<String, String>>(read: R, fs: FeedbackSource, f: Feedback) -> bool {
    &&& optional_message_text(read, fs.general, f.general)
    &&& optional_message_text(read, fs.correct, f.correct)
    &&& optional_message_text(read, fs.incorrect, f.incorrect)
}

/// Whether `text` is the content the choice `c` resolves to: its inline
/// text, or its partial's. A choice with both, or neither, resolves to
/// nothing.
pub open spec fn choice_text<R: Fn(&str) -> std::result::Result<String, String>>(read: R, c: ChoiceSource, text: Seq<char>) -> bool {
    match (c.text, c.file) {
        (Some(t), None) => text == t@,
        (None, Some(f)) => partial_text(read, f@, text),
        _ => false,
    }
}

/// Whether `message` names a partial.
pub open spec fn is_file(message: Option<Message>) -> bool {
    message matches Some(Message::File(_))
}

/// Whether a choice has exactly one of its inline text and its partial.
pub open spec fn choice_shaped(c: ChoiceSource) -> bool {
    (c.text is Some) != (c.file is Some)
}

/// The metadata a question source carries.
pub open spec fn common_of(src: QuestionSource) -> Common {
    match src {
        QuestionSource::TrueFalse { common, .. } => common,
        QuestionSource::MultipleChoice { common, .. } => common,
        QuestionSource::MultipleSelect { common, .. } => common,
        QuestionSource::FillInBlank { common, .. } => common,
        QuestionSource::Matching { common, .. } => common,
        QuestionSource::Ordered { common, .. } => common,
    }
}

/// Whether a question source reads nothing through the partial reader and
/// every choice it has is well shaped: then resolving it cannot fail.
pub open spec fn settled(src: QuestionSource) -> bool {
    let fs = common_of(src).feedback;
    &&& !is_file(fs.general) && !is_file(fs.correct) && !is_file(fs.incorrect)
    &&& match src {
        QuestionSource::MultipleChoice { choices, .. } => forall|k: int| 0 <= k < choices@.len()
            ==> choice_shaped(#[trigger] choices@[k]) && choices@[k].file is None,
        QuestionSource::MultipleSelect { choices, .. } => forall|k: int| 0 <= k < choices@.len()
            ==> choice_shaped(#[trigger] choices@[k]) && choices@[k].file is None,
        QuestionSource::Ordered { items, .. } => forall|k: int| 0 <= k < items@.len()
            ==> (#[trigger] items@[k]) is Text,
        _ => true,
    }
}

/// Whether `choices` are the resolutions of the authored `sources`.
pub open spec fn choices_text<R: Fn(&str) -> std::result::Result<String, String>>(
    read: R,
    sources: Seq<ChoiceSource>,
    choices: Seq<Choice>,
) -> bool {
    &&& choices.len() == sources.len()
    &&& forall|k: int| 0 <= k < choices.len() ==> choice_text(read, sources[k], (#[trigger] choices[k]).text@)
        && choices[k].correct == sources[k].correct
}

/// Whether `kind` is what the source's answer data resolves to.
pub open spec fn kind_text<R: Fn(&str) -> std::result::Result<String, String>>(read: R, src: QuestionSource, kind: QuestionKind) -> bool {
    match src {
        QuestionSource::TrueFalse { answer, .. } => kind matches QuestionKind::TrueFalse(tf) && tf.answer == answer,
        QuestionSource::MultipleChoice { choices, .. } => kind matches QuestionKind::MultipleChoice(set)
            && choices_text(read, choices@, set.choices@),
        QuestionSource::MultipleSelect { choices, scoring, .. } => kind matches QuestionKind::MultipleSelect(set)
            && choices_text(read, choices@, set.choices@) && set.scoring == scoring,
        QuestionSource::FillInBlank { blanks, .. } => kind matches QuestionKind::FillInBlank(f) && f.blanks@ == blanks@,
        QuestionSource::Matching { pairs, distractors, .. } => kind matches QuestionKind::Matching(m)
            && m.pairs@ == pairs@ && m.distractors@ == distractors@,
        QuestionSource::Ordered { items, .. } => kind matches QuestionKind::Ordered(o)
            && o.items@.len() == items@.len() && forall|k: int| 0 <= k < items@.len()
                ==> message_text(read, items@[k], (#[trigger] o.items@[k])@),
    }
}

/// Whether `q` is the question the source and `prompt` assemble to.
pub open spec fn assembled<R: Fn(&str) -> std::result::Result<String, String>>(
    read: R,
    src: QuestionSource,
    prompt: String,
    q: Question,
) -> bool {
    let common = common_of(src);
    &&& q.id == common.id
    &&& q.title == common.title
    &&& q.points == common.points
    &&& q.tags@ == common.tags@
    &&& q.prompt == prompt
    &&& feedback_text(read, common.feedback, q.feedback)
    &&& kind_text(read, src, q.kind)
}

/// Resolve one message.
fn resolve_message<R: Fn(&str) -> std::result::Result<String, String>>(m: &Message, read: &R, id: &str) -> (res: Result<String, Error>)
    requires
        forall|p: &str| read.requires((p,)),
    ensures
        res matches Ok(t) ==> message_text(*read, *m, t@),
        res matches Err(e) ==> message_refused(*read, id@, Some(*m), e),
        m is Text ==> res is Ok,
{
    match m {
        Message::Text(t) => Ok(t.clone()),
        Message::File(f) => read_partial(f.as_str(), read, id),
    }
}

/// Resolve an optional message.
fn resolve_opt<R: Fn(&str) -> std::result::Result<String, String>>(
    m: &Option<Message>,
    read: &R,
    id: &str,
) -> (res: Result<Option<String>, Error>)
    requires
        forall|p: &str| read.requires((p,)),
    ensures
        res matches Ok(t) ==> optional_message_text(*read, *m, t) && message_resolves(*read, *m),
        res matches Err(e) ==> message_refused(*read, id@, *m, e),
        !is_file(*m) ==> res is Ok,
{
    match m {
        None => Ok(None),
        Some(m) => match resolve_message(m, read, id) {
            Ok(t) => {
                assert(message_text(*read, *m, t@));
                Ok(Some(t))
            },
            Err(e) => Err(e),
        },
    }
}

/// Resolve every message of a feedback block.
fn resolve_feedback<R: Fn(&str) -> std::result::Result<String, String>>(
    fs: &FeedbackSource,
    read: &R,
    id: &str,
) -> (res: Result<Feedback, Error>)
    requires
        forall|p: &str| read.requires((p,)),
    ensures
        res matches Ok(f) ==> feedback_text(*read, *fs, f),
        res matches Err(e) ==> feedback_refused(*read, id@, *fs, e),
        !is_file(fs.general) && !is_file(fs.correct) && !is_file(fs.incorrect) ==> res is Ok,
{
    let general = match resolve_opt(&fs.general, read, id) {
        Ok(t) => t,
        Err(e) => return Err(e),
    };
    let correct = match resolve_opt(&fs.correct, read, id) {
        Ok(t) => t,
        Err(e) => return Err(e),
    };
    let incorrect = match resolve_opt(&fs.incorrect, read, id) {
        Ok(t) => t,
        Err(e) => return Err(e),
    };
    Ok(Feedback { general, correct, incorrect })
}

/// Resolve one choice's content: its inline text, or its partial's.
fn resolve_content<R: Fn(&str) -> std::result::Result<String, String>>(
    c: &ChoiceSource,
    read: &R,
    id: &str,
) -> (res: Result<String, Error>)
    requires
        forall|p: &str| read.requires((p,)),
    ensures
        res matches Ok(t) ==> choice_text(*read, *c, t@),
        res matches Err(e) ==> choice_refused(*read, id@, *c, e),
        choice_shaped(*c) && c.file is None ==> res is Ok,
{
    match (&c.text, &c.file) {
        (Some(text), None) => Ok(text.clone()),
        (None, Some(path)) => read_partial(path.as_str(), read, id),
        (Some(_), Some(_)) => Err(invalid(id, " has a choice with both `text` and `file`")),
        (None, None) => Err(invalid(id, " has a choice with neither `text` nor `file`")),
    }
}

/// Resolve every authored choice.
fn resolve_choices<R: Fn(&str) -> std::result::Result<String, String>>(
    sources: &Vec<ChoiceSource>,
    read: &R,
    id: &str,
) -> (res: Result<Vec<Choice>, Error>)
    requires
        forall|p: &str| read.requires((p,)),
    ensures
        res matches Ok(cs) ==> choices_text(*read, sources@, cs@),
        res matches Ok(cs) ==> forall|k: int| 0 <= k < sources@.len() ==> choice_resolves(*read, #[trigger] sources@[k]),
        res matches Err(e) ==> first_choice_refused(*read, id@, sources@, e),
        (forall|k: int| 0 <= k < sources@.len() ==> choice_shaped(#[trigger] sources@[k]) && sources@[k].file is None)
            ==> res is Ok,
{
    let mut out: Vec<Choice> = Vec::new();
    let mut i: usize = 0;
    while i < sources.len()
        invariant
            i <= sources@.len(),
            forall|p: &str| read.requires((p,)),
            choices_text(*read, sources@.take(i as int), out@),
            forall|j: int| 0 <= j < i ==> choice_resolves(*read, #[trigger] sources@[j]),
        decreases sources@.len() - i,
    {
        let text = match resolve_content(&sources[i], read, id) {
            Ok(t) => t,
            Err(e) => {
                assert(choice_refused(*read, id@, sources@[i as int], e));
                assert(first_choice_refused(*read, id@, sources@, e));
                return Err(e);
            },
        };
        assert(choice_resolves(*read, sources@[i as int])) by {
            assert(choice_text(*read, sources@[i as int], text@));
        }
        let ghost before = out@;
        out.push(Choice { text, correct: sources[i].correct });
        assert forall|k: int| 0 <= k < out@.len() implies choice_text(*read, sources@.take(i + 1)[k], (#[trigger] out@[k]).text@)
            && out@[k].correct == sources@.take(i + 1)[k].correct by {
            if k < i {
                assert(out@[k] == before[k]);
                assert(sources@.take(i + 1)[k] == sources@.take(i as int)[k]);
            }
        }
        i = i + 1;
    }
    assert(sources@.take(i as int) =~= sources@);
    Ok(out)
}

/// Resolve every ordering item.
fn resolve_items<R: Fn(&str) -> std::result::Result<String, String>>(
    items: &Vec<Message>,
    read: &R,
    id: &str,
) -> (res: Result<Vec<String>, Error>)
    requires
        forall|p: &str| read.requires((p,)),
    ensures
        res matches Ok(ts) ==> ts@.len() == items@.len() && forall|k: int| 0 <= k < items@.len()
            ==> message_text(*read, items@[k], (#[trigger] ts@[k])@),
        res matches Ok(ts) ==> forall|k: int| 0 <= k < items@.len() ==> message_resolves(*read, Some(#[trigger] items@[k])),
        res matches Err(e) ==> first_item_refused(*read, id@, items@, e),
        (forall|k: int| 0 <= k < items@.len() ==> (#[trigger] items@[k]) is Text) ==> res is Ok,
{
    let mut out: Vec<String> = Vec::new();
    let mut i: usize = 0;
    while i < items.len()
        invariant
            i <= items@.len(),
            forall|p: &str| read.requires((p,)),
            out@.len() == i,
            forall|k: int| 0 <= k < i ==> message_text(*read, items@[k], (#[trigger] out@[k])@),
            forall|j: int| 0 <= j < i ==> message_resolves(*read, Some(#[trigger] items@[j])),
        decreases items@.len() - i,
    {
        let text = match resolve_message(&items[i], read, id) {
            Ok(t) => t,
            Err(e) => {
                assert(message_refused(*read, id@, Some(items@[i as int]), e));
                assert(first_item_refused(*read, id@, items@, e));
                return Err(e);
            },
        };
        assert(message_resolves(*read, Some(items@[i as int]))) by {
            assert(message_text(*read, items@[i as int], text@));
        }
        out.push(text);
        i = i + 1;
    }
    Ok(out)
}

/// Combine a question source with its Markdown `prompt` into a
/// [`Question`], resolving every `file:` partial through `read`: the
/// choices (or ordering items) first, then the feedback.
///
/// Fails with [`Error::InvalidQuestion`] when a choice has both or neither
/// of `text` and `file`, or when the reader refuses a partial; a source that
/// reads no partial and whose choices are well shaped always assembles.
pub fn question_from_source<R: Fn(&str) -> std::result::Result<String, String>>(
    src: QuestionSource,
    prompt: String,
    read: &R,
) -> (res: Result<Question, Error>)
    requires
        forall|p: &str| read.requires((p,)),
    ensures
        res matches Ok(q) ==> assembled(*read, src, prompt, q),
        res matches Err(e) ==> e is InvalidQuestion && source_refused(*read, src, e),
        settled(src) ==> res is Ok,
{
    let ghost whole = src;
    let (common, kind) = match src {
        QuestionSource::TrueFalse { common, answer } => (common, QuestionKind::TrueFalse(TrueFalse { answer })),
        QuestionSource::MultipleChoice { common, choices } => {
            let choices = match resolve_choices(&choices, read, common.id.as_str()) {
                Ok(c) => c,
                Err(e) => return Err(e),
            };
            (common, QuestionKind::MultipleChoice(ChoiceSet { choices }))
        },
        QuestionSource::MultipleSelect { common, choices, scoring } => {
            let choices = match resolve_choices(&choices, read, common.id.as_str()) {
                Ok(c) => c,
                Err(e) => return Err(e),
            };
            (common, QuestionKind::MultipleSelect(MultipleSelect { choices, scoring }))
        },
        QuestionSource::FillInBlank { common, blanks } => (common, QuestionKind::FillInBlank(FillInBlank { blanks })),
        QuestionSource::Matching { common, pairs, distractors } => (common, QuestionKind::Matching(Matching { pairs, distractors })),
        QuestionSource::Ordered { common, items } => {
            let items = match resolve_items(&items, read, common.id.as_str()) {
                Ok(i) => i,
                Err(e) => return Err(e),
            };
            (common, QuestionKind::Ordered(OrderedItems { items }))
        },
    };
    let feedback = match resolve_feedback(&common.feedback, read, common.id.as_str()) {
        Ok(f) => f,
        Err(e) => return Err(e),
    };
    Ok(Question {
        id: common.id,
        title: common.title,
        prompt,
        points: common.points,
        tags: common.tags,
        feedback,
        kind,
    })
}

/// A question after its finishing touches: a leading `# H1` names it when
/// no `title:` did (and leaves the prompt), otherwise it is unchanged.
pub open spec fn titled(q: Question, r: Question) -> bool {
    &&& r.id == q.id
    &&& r.points == q.points
    &&& r.tags == q.tags
    &&& r.feedback == q.feedback
    &&& r.kind == q.kind
    &&& if q.title is Some {
        r.title == q.title && r.prompt == q.prompt
    } else {
        r.prompt@ == leading_title_spec(q.prompt@).1 && match leading_title_spec(q.prompt@).0 {
            Some(t) => r.title matches Some(x) && x@ == t,
            None => r.title is None,
        }
    }
}

/// The prompt a question keeps once a leading `# H1` has named it.
pub open spec fn titled_prompt(q: Question) -> Seq<char> {
    if q.title is Some { q.prompt@ } else { leading_title_spec(q.prompt@).1 }
}

/// What a question that cannot be finished is told: that its prompt is
/// empty once titled, else which of its kind's rules it breaks.
pub open spec fn finish_message(q: Question) -> Seq<char> {
    if titled_prompt(q).len() == 0 {
        about(q.id@, " has an empty prompt"@)
    } else {
        kind_message(q.id@, titled_prompt(q), q.kind)
    }
}

/// Name an untitled question by its prompt's leading `# H1`, then check it:
/// the prompt must not be empty, and the question must meet its kind's
/// rules.
pub fn finish_question(question: Question) -> (res: Result<Question, Error>)
    ensures
        res matches Ok(r) ==> titled(question, r) && r.prompt@.len() > 0 && question_valid(r),
        res matches Err(e) ==> e matches Error::InvalidQuestion(m) && m@ == finish_message(question),
        res is Ok <==> titled_prompt(question).len() > 0 && exists|r: Question| titled(question, r) && question_valid(r),
{
    let mut question = question;
    let ghost original = question;
    if question.title.is_none() {
        let (title, body) = split_leading_title(question.prompt.as_str());
        question.title = title;
        question.prompt = body;
    }
    assert(titled(original, question));
    if question.prompt.as_str().is_empty() {
        return Err(invalid(question.id.as_str(), " has an empty prompt"));
    }
    match validate_question(&question) {
        Ok(()) => Ok(question),
        Err(e) => {
            proof {
                assert forall|r: Question| titled(original, r) implies !question_valid(r) by {
                    assert(r.prompt@ == question.prompt@);
                    lemma_valid_by_views(question, r);
                }
            }
            Err(e)
        },
    }
}

/// Validity reads only the prompt's text and the kind.
proof fn lemma_valid_by_views(a: Question, b: Question)
    requires
        a.prompt@ == b.prompt@,
        a.kind == b.kind,
    ensures
        question_valid(a) == question_valid(b),
{
}

// ---------------------------------------------------------------------------
// Questions and banks
// ---------------------------------------------------------------------------

/// Whether the front-matter of `source` reads as a YAML document that
/// decodes as a question.
pub open spec fn decodes(source: Seq<char>) -> bool {
    front_matter_spec(source) matches Ok((yaml, _)) && (yaml_document(yaml) matches Some(doc) && source_decodes(doc))
}

/// Whether `q` is a question `source` parses to, partials read through
/// `read`: the front-matter decodes to a source, which assembles with the
/// prompt below it into a question that, once titled, has a prompt and
/// meets its kind's rules.
pub open spec fn parsed<R: Fn(&str) -> std::result::Result<String, String>>(read: R, source: Seq<char>, q: Question) -> bool {
    front_matter_spec(source) matches Ok((yaml, prompt)) && (yaml_document(yaml) matches Some(doc) && exists|
        src: QuestionSource,
        p: String,
        mid: Question,
    |
        #![trigger source_is(doc, src), assembled(read, src, p, mid)]
        source_is(doc, src) && p@ == prompt && assembled(read, src, p, mid) && titled(mid, q)
            && q.prompt@.len() > 0 && question_valid(q))
}

/// Whether `q` can be finished: once titled, its prompt is not empty and it
/// meets its kind's rules.
pub open spec fn finishable(q: Question) -> bool {
    titled_prompt(q).len() > 0 && exists|r: Question| titled(q, r) && question_valid(r)
}

/// Whether `source` parses whatever the reader answers: its front-matter
/// decodes to a question source that names no partial and whose choices are
/// well shaped, and the question that source assembles to can be finished.
pub open spec fn parses_without_reading<R: Fn(&str) -> std::result::Result<String, String>>(read: R, source: Seq<char>) -> bool {
    &&& decodes(source)
    &&& front_matter_spec(source) matches Ok((yaml, prompt)) && (yaml_document(yaml) matches Some(doc) && forall|
        src: QuestionSource,
    | #[trigger] source_is(doc, src) ==> settled(src) && forall|p: String, mid: Question|
        #[trigger] assembled(read, src, p, mid) && p@ == prompt ==> finishable(mid))
}

/// Whether `e` is what a question of `source` can be refused with once its
/// front-matter decodes: a partial the reader refused, or the message of
/// the assembled question's first broken rule.
pub open spec fn refused<R: Fn(&str) -> std::result::Result<String, String>>(read: R, source: Seq<char>, e: Error) -> bool {
    front_matter_spec(source) matches Ok((yaml, prompt)) && (yaml_document(yaml) matches Some(doc) && exists|
        src: QuestionSource,
    |
        #[trigger] source_is(doc, src) && (source_refused(read, src, e) || exists|p: String, mid: Question|
            #[trigger] assembled(read, src, p, mid) && p@ == prompt && (e matches Error::InvalidQuestion(m)
                && m@ == finish_message(mid))))
}

/// Parse one question source, resolving `file:` partials via `read`.
///
/// Fails with [`Error::Parse`] exactly when the source has no front-matter
/// block (or two), with [`Error::Yaml`] exactly when it has one that is not
/// a YAML document decoding as a question, and otherwise with
/// [`Error::InvalidQuestion`] when a partial cannot be resolved, the prompt
/// is empty, or the question breaks its kind's rules.
pub fn parse_question_with<R: Fn(&str) -> std::result::Result<String, String>>(source: &str, read: &R) -> (res: Result<Question, Error>)
    requires
        forall|p: &str| read.requires((p,)),
    ensures
        res matches Ok(q) ==> parsed(*read, source@, q),
        front_matter_spec(source@) is Err <==> res matches Err(Error::Parse(_)),
        (front_matter_spec(source@) is Ok && !decodes(source@)) <==> res matches Err(Error::Yaml(_)),
        res matches Err(e) ==> e is Parse || e is Yaml || e is InvalidQuestion,
        res matches Err(e) ==> (e is InvalidQuestion ==> refused(*read, source@, e)),
        parses_without_reading(*read, source@) ==> res is Ok,
{
    let (yaml, prompt) = extract_yaml_and_prompt(source)?;
    let doc = match load_yaml(yaml.as_str()) {
        Ok(doc) => doc,
        Err(message) => return Err(Error::Yaml(message)),
    };
    let src = decode_question(&doc)?;
    let ghost whole = src;
    let ghost p = prompt;
    assert(parses_without_reading(*read, source@) ==> settled(whole)) by {
        assert(source_is(doc, whole));
    }
    let question = match question_from_source(src, prompt, read) {
        Ok(q) => q,
        Err(e) => {
            assert(source_is(doc, whole) && source_refused(*read, whole, e));
            return Err(e);
        },
    };
    let ghost mid = question;
    assert(source_is(doc, whole) && assembled(*read, whole, p, mid));
    assert(parses_without_reading(*read, source@) ==> finishable(mid));
    match finish_question(question) {
        Ok(finished) => Ok(finished),
        Err(e) => Err(e),
    }
}

/// Parse the full text of one question source into a [`Question`].
///
/// Supports inline content only: any `file:` partial is refused, as an
/// [`Error::InvalidQuestion`] saying it needs a directory context.
pub fn parse_question(source: &str) -> (res: Result<Question, Error>)
    ensures
        res matches Ok(q) ==> parsed(reject_includes, source@, q),
        parses_without_reading(reject_includes, source@) ==> res is Ok,
        front_matter_spec(source@) is Err <==> res matches Err(Error::Parse(_)),
        (front_matter_spec(source@) is Ok && !decodes(source@)) <==> res matches Err(Error::Yaml(_)),
        res matches Err(e) ==> e is Parse || e is Yaml || e is InvalidQuestion,
{
    parse_question_with(source, &reject_includes)
}

/// Whether no two questions share an id.
pub open spec fn ids_distinct(items: Seq<Question>) -> bool {
    forall|i: int, j: int| 0 <= i < j < items.len() ==> items[i].id@ != items[j].id@
}

/// Where the first question of `items[i..]` whose id an earlier question
/// already has stands, or `items.len()` when there is none.
pub open spec fn first_repeat(items: Seq<Question>, i: int) -> int
    decreases items.len() - i,
{
    if i < 0 || i >= items.len() {
        items.len() as int
    } else if exists|j: int| 0 <= j < i && items[j].id@ == #[trigger] items[i].id@ {
        i
    } else {
        first_repeat(items, i + 1)
    }
}

/// Build an [`ItemBank`] from already-parsed questions, preserving their
/// order.
///
/// Fails with [`Error::InvalidQuestion`] exactly when two questions share an
/// id, since ids must be unique within a bank for references to resolve.
pub fn item_bank_from_questions(name: &str, items: Vec<Question>) -> (res: Result<ItemBank, Error>)
    ensures
        res is Ok <==> ids_distinct(items@),
        res matches Ok(b) ==> b.name@ == name@ && b.items@ == items@,
        res matches Err(e) ==> e matches Error::InvalidQuestion(m) && m@ == "duplicate question id "@ + debug_str(
            items@[first_repeat(items@, 0)].id@,
        ),
{
    let mut i: usize = 0;
    while i < items.len()
        invariant
            i <= items@.len(),
            forall|a: int, b: int| 0 <= a < b < i ==> items@[a].id@ != items@[b].id@,
            first_repeat(items@, 0) == first_repeat(items@, i as int),
        decreases items@.len() - i,
    {
        let mut j: usize = 0;
        while j < i
            invariant
                j <= i < items@.len(),
                forall|a: int| 0 <= a < j ==> items@[a].id@ != items@[i as int].id@,
                first_repeat(items@, 0) == first_repeat(items@, i as int),
            decreases i - j,
        {
            if str_eq(items[j].id.as_str(), items[i].id.as_str()) {
                assert(first_repeat(items@, i as int) == i) by {
                    assert(items@[j as int].id@ == items@[i as int].id@);
                }
                let mut out: Vec<char> = Vec::new();
                extend_str(&mut out, "duplicate question id ");
                extend_str(&mut out, debug_quoted(items[i].id.as_str()).as_str());
                assert(out@ =~= "duplicate question id "@ + debug_str(items@[i as int].id@));
                return Err(Error::InvalidQuestion(string_from_chars(&out)));
            }
            j = j + 1;
        }
        assert(first_repeat(items@, i as int) == first_repeat(items@, i + 1));
        i = i + 1;
    }
    Ok(ItemBank { name: name.to_string(), items })
}

/// Sources as plain values.
pub open spec fn sources_view(sources: Seq<(String, String)>) -> Seq<(Seq<char>, Seq<char>)> {
    sources.map_values(|f: (String, String)| (f.0@, f.1@))
}

/// Whether `order` holds the sources of `sources`, by file name.
pub open spec fn by_name(order: Seq<(Seq<char>, Seq<char>)>, sources: Seq<(Seq<char>, Seq<char>)>) -> bool {
    &&& order.to_multiset() == sources.to_multiset()
    &&& forall|j: int, k: int| 0 <= j < k < order.len() ==> !text_lt(order[k].0, order[j].0)
}

/// Where source `x` goes among `order[p..]`: before the first whose file
/// name it sorts before, else at the end.
pub open spec fn name_at(order: Seq<(Seq<char>, Seq<char>)>, x: (Seq<char>, Seq<char>), p: int) -> int
    decreases order.len() - p,
{
    if p < 0 || p >= order.len() {
        order.len() as int
    } else if text_lt(x.0, order[p].0) {
        p
    } else {
        name_at(order, x, p + 1)
    }
}

/// The first `n` sources sorted by file name by insertion, equal names kept
/// in their order.
pub open spec fn by_name_spec(sources: Seq<(Seq<char>, Seq<char>)>, n: nat) -> Seq<(Seq<char>, Seq<char>)>
    decreases n,
{
    if n == 0 {
        Seq::empty()
    } else {
        let placed = by_name_spec(sources, (n - 1) as nat);
        placed.insert(name_at(placed, sources[n - 1], 0), sources[n - 1])
    }
}

/// Where a source is inserted lies within the order, after every source it
/// does not sort before and before one it does.
proof fn lemma_name_at(order: Seq<(Seq<char>, Seq<char>)>, x: (Seq<char>, Seq<char>), p: int)
    requires
        0 <= p <= order.len(),
    ensures
        p <= name_at(order, x, p) <= order.len(),
        forall|k: int| p <= k < name_at(order, x, p) ==> !text_lt(x.0, #[trigger] order[k].0),
        name_at(order, x, p) < order.len() ==> text_lt(x.0, order[name_at(order, x, p)].0),
    decreases order.len() - p,
{
    if p < order.len() && !text_lt(x.0, order[p].0) {
        lemma_name_at(order, x, p + 1);
    }
}

/// Ordering by file name keeps every source and sorts them by name.
pub proof fn ordering_by_name_sorts(sources: Seq<(Seq<char>, Seq<char>)>, n: nat)
    requires
        n <= sources.len(),
    ensures
        by_name(by_name_spec(sources, n), sources.take(n as int)),
    decreases n,
{
    if n == 0 {
        assert(sources.take(0) =~= Seq::<(Seq<char>, Seq<char>)>::empty());
        assert(by_name_spec(sources, 0) =~= Seq::<(Seq<char>, Seq<char>)>::empty());
    } else {
        ordering_by_name_sorts(sources, (n - 1) as nat);
        let b = by_name_spec(sources, (n - 1) as nat);
        let nv = sources[n - 1];
        let p = name_at(b, nv, 0);
        lemma_name_at(b, nv, 0);
        vstd::seq_lib::to_multiset_insert(b, p, nv);
        assert(sources.take(n as int) =~= sources.take(n - 1).push(nv));
        vstd::seq_lib::to_multiset_build(sources.take(n - 1), nv);
        let v = b.insert(p, nv);
        assert forall|j: int, k: int| 0 <= j < k < v.len() implies !text_lt(v[k].0, v[j].0) by {
            if k < p {
                assert(v[k] == b[k] && v[j] == b[j]);
            } else if k == p {
                assert(v[j] == b[j] && v[k] == nv);
                assert(!text_lt(nv.0, b[j].0));
            } else if j == p {
                assert(v[j] == nv && v[k] == b[k - 1]);
                let x = b[p].0;
                let y = b[k - 1].0;
                crate::text::lemma_text_lt_order(nv.0, x, y);
                crate::text::lemma_text_lt_order(x, y, nv.0);
                crate::text::lemma_text_lt_order(y, nv.0, x);
                if p < k - 1 {
                    assert(!text_lt(y, x));
                }
            } else if j < p {
                assert(v[j] == b[j] && v[k] == b[k - 1]);
            } else {
                assert(v[j] == b[j - 1] && v[k] == b[k - 1]);
            }
        }
    }
}

/// The sources ordered by file name, equal names kept in their order.
pub fn sources_by_name(sources: Vec<(String, String)>) -> (res: Vec<(String, String)>)
    ensures
        sources_view(res@) == by_name_spec(sources_view(sources@), sources@.len()),
{
    let ghost all = sources_view(sources@);
    let total = sources.len();
    let mut out: Vec<(String, String)> = Vec::new();
    let mut i: usize = 0;
    let mut rest = sources;
    assert(sources_view(out@) =~= by_name_spec(all, 0));
    while rest.len() > 0
        invariant
            all.len() == i + rest@.len(),
            all.len() <= usize::MAX,
            sources_view(rest@) == all.skip(i as int),
            sources_view(out@) == by_name_spec(all, i as nat),
        decreases rest@.len(),
    {
        let ghost before_rest = rest@;
        let next = rest.remove(0);
        let ghost nv = (next.0@, next.1@);
        assert(sources_view(before_rest)[0] == nv);
        assert(all[i as int] == nv);
        assert(rest@ =~= before_rest.skip(1));
        assert(sources_view(rest@) =~= sources_view(before_rest).skip(1));
        assert(sources_view(rest@) =~= all.skip(i + 1));
        let name = str_chars(next.0.as_str());
        let mut p: usize = 0;
        let mut found = false;
        while p < out.len() && !found
            invariant
                p <= out@.len(),
                name@ == nv.0,
                found ==> p < out@.len() && name_at(sources_view(out@), nv, 0) == p,
                !found ==> name_at(sources_view(out@), nv, 0) == name_at(sources_view(out@), nv, p as int),
            decreases out@.len() - p + if found { 0int } else { 1int },
        {
            let other = str_chars(out[p].0.as_str());
            assert(sources_view(out@)[p as int].0 == other@);
            if crate::text::chars_lt(&name, &other) {
                found = true;
            } else {
                p = p + 1;
            }
        }
        let ghost before = out@;
        out.insert(p, next);
        assert(sources_view(out@) =~= sources_view(before).insert(p as int, nv));
        i = i + 1;
    }
    out
}

/// Whether `question` parses from the source text `text` with `read`.
pub open spec fn parsed_from<R: Fn(&str) -> std::result::Result<String, String>>(read: R, text: Seq<char>, question: Question) -> bool {
    parsed(read, text, question)
}

/// Whether questions parsed from different sources of `order` never share
/// an id, however each parses.
pub open spec fn ids_apart<R: Fn(&str) -> std::result::Result<String, String>>(read: R, order: Seq<(Seq<char>, Seq<char>)>) -> bool {
    forall|j: int, k: int, a: Question, b: Question|
        #![trigger parsed_from(read, order[j].1, a), parsed_from(read, order[k].1, b)]
        0 <= j < k < order.len() && parsed_from(read, order[j].1, a) && parsed_from(read, order[k].1, b) ==> a.id@
            != b.id@
}

/// Whether every source of `order` parses whatever the reader answers, and
/// no two of them give questions sharing an id: then the bank assembles.
pub open spec fn assembles<R: Fn(&str) -> std::result::Result<String, String>>(read: R, order: Seq<(Seq<char>, Seq<char>)>) -> bool {
    &&& forall|k: int| 0 <= k < order.len() ==> parses_without_reading(read, #[trigger] order[k].1)
    &&& ids_apart(read, order)
}

/// Whether `text` parses to some question.
pub open spec fn parses_to_some<R: Fn(&str) -> std::result::Result<String, String>>(read: R, text: Seq<char>) -> bool {
    exists|q: Question| parsed_from(read, text, q)
}

/// Whether `file` and `message` report source `k` of `order` as the first
/// that failed to parse: every source before it parsed, and the message is
/// that of a parse, YAML or invalid-question error.
pub open spec fn refused_at<R: Fn(&str) -> std::result::Result<String, String>>(
    read: R,
    order: Seq<(Seq<char>, Seq<char>)>,
    k: int,
    file: Seq<char>,
    message: Seq<char>,
) -> bool {
    &&& 0 <= k < order.len()
    &&& order[k].0 == file
    &&& !parses_without_reading(read, order[k].1)
    &&& forall|j: int| 0 <= j < k ==> parses_to_some(read, #[trigger] order[j].1)
    &&& exists|e: Error| message == crate::error::error_message_spec(e) && (e is Parse || e is Yaml || e is InvalidQuestion)
}

/// Whether `file` and `message` report the first source of `order` that
/// failed to parse.
pub open spec fn file_refused<R: Fn(&str) -> std::result::Result<String, String>>(
    read: R,
    order: Seq<(Seq<char>, Seq<char>)>,
    file: Seq<char>,
    message: Seq<char>,
) -> bool {
    exists|k: int| #[trigger] refused_at(read, order, k, file, message)
}

/// Whether `message` reports that questions parsed from every source of
/// `order` share an id: it names the first question whose id an earlier one
/// has.
pub open spec fn ids_clash<R: Fn(&str) -> std::result::Result<String, String>>(
    read: R,
    order: Seq<(Seq<char>, Seq<char>)>,
    message: Seq<char>,
) -> bool {
    exists|items: Seq<Question>|
        items.len() == order.len() && (forall|k: int| 0 <= k < order.len() ==> parsed_from(read, order[k].1, #[trigger] items[k]))
            && !ids_distinct(items) && message == "duplicate question id "@ + debug_str(items[first_repeat(items, 0)].id@)
}

/// Assemble an [`ItemBank`], resolving `file:` partials via `read`.
///
/// Sources are ordered by file name for a deterministic bank layout, then
/// each is parsed; a failure becomes [`Error::QuestionFile`] naming the
/// file and carrying the failure's message. Two questions sharing an id
/// fail with [`Error::InvalidQuestion`].
pub fn item_bank_from_sources_with<R: Fn(&str) -> std::result::Result<String, String>>(
    name: &str,
    sources: Vec<(String, String)>,
    read: &R,
) -> (res: Result<ItemBank, Error>)
    requires
        forall|p: &str| read.requires((p,)),
    ensures
        res matches Ok(b) ==> b.name@ == name@ && ids_distinct(b.items@) && ({
            let order = by_name_spec(sources_view(sources@), sources@.len());
            order.len() == b.items@.len() && forall|k: int|
                0 <= k < order.len() ==> parsed_from(*read, order[k].1, #[trigger] b.items@[k])
        }),
        res matches Err(e) ==> e is QuestionFile || e is InvalidQuestion,
        assembles(*read, by_name_spec(sources_view(sources@), sources@.len())) ==> res is Ok,
        res matches Err(Error::QuestionFile { file, message }) ==> file_refused(
            *read,
            by_name_spec(sources_view(sources@), sources@.len()),
            file@,
            message@,
        ),
        res matches Err(Error::InvalidQuestion(m)) ==> ids_clash(*read, by_name_spec(sources_view(sources@), sources@.len()), m@),
{
    let ghost whole = by_name_spec(sources_view(sources@), sources@.len());
    let sorted = sources_by_name(sources);
    let ghost order = sources_view(sorted@);
    assert(order == whole);
    let mut items: Vec<Question> = Vec::new();
    let mut i: usize = 0;
    while i < sorted.len()
        invariant
            i <= sorted@.len(),
            order == sources_view(sorted@),
            forall|p: &str| read.requires((p,)),
            items@.len() == i,
            forall|k: int| 0 <= k < i ==> parsed_from(*read, order[k].1, #[trigger] items@[k]),
            assembles(*read, whole) ==> assembles(*read, order),
            whole == by_name_spec(sources_view(sources@), sources@.len()),
            order == whole,
        decreases sorted@.len() - i,
    {
        assert(sorted@[i as int].1@ == order[i as int].1);
        assert(assembles(*read, order) ==> parses_without_reading(*read, order[i as int].1));
        let text = sorted[i].1.as_str();
        assert(text@ == order[i as int].1);
        match parse_question_with(text, read) {
            Ok(q) => items.push(q),
            Err(error) => {
                let file = sorted[i].0.clone();
                let message = error.message();
                proof {
                    assert(file@ == order[i as int].0);
                    assert forall|j: int| 0 <= j < i implies parses_to_some(*read, #[trigger] order[j].1) by {
                        assert(parsed_from(*read, order[j].1, items@[j]));
                    }
                    assert(!parses_without_reading(*read, order[i as int].1));
                    assert(message@ == crate::error::error_message_spec(error));
                    assert(error is Parse || error is Yaml || error is InvalidQuestion);
                    assert(order[i as int].0 == file@);
                    assert(refused_at(*read, order, i as int, file@, message@));
                    assert(file_refused(*read, whole, file@, message@));
                }
                return Err(Error::QuestionFile { file, message });
            },
        }
        i = i + 1;
    }
    assert(assembles(*read, order) ==> ids_distinct(items@)) by {
        if assembles(*read, order) {
            assert forall|a: int, b: int| 0 <= a < b < items@.len() implies items@[a].id@ != items@[b].id@ by {
                assert(parsed_from(*read, order[a].1, items@[a]));
                assert(parsed_from(*read, order[b].1, items@[b]));
            }
        }
    }
    let res = item_bank_from_questions(name, items);
    match &res {
        Err(Error::InvalidQuestion(m)) => {
            assert(items@.len() == order.len());
            assert(ids_clash(*read, order, m@));
        },
        _ => {},
    }
    res
}

/// Assemble an [`ItemBank`] from `(file name, content)` source pairs.
///
/// Supports inline content only; any `file:` partial is refused.
pub fn item_bank_from_sources(name: &str, sources: Vec<(String, String)>) -> (res: Result<ItemBank, Error>)
    ensures
        res matches Ok(b) ==> b.name@ == name@ && ids_distinct(b.items@) && ({
            let order = by_name_spec(sources_view(sources@), sources@.len());
            order.len() == b.items@.len() && forall|k: int|
                0 <= k < order.len() ==> parsed_from(reject_includes, order[k].1, #[trigger] b.items@[k])
        }),
        res matches Err(e) ==> e is QuestionFile || e is InvalidQuestion,
        assembles(reject_includes, by_name_spec(sources_view(sources@), sources@.len())) ==> res is Ok,
        res matches Err(Error::QuestionFile { file, message }) ==> file_refused(
            reject_includes,
            by_name_spec(sources_view(sources@), sources@.len()),
            file@,
            message@,
        ),
        res matches Err(Error::InvalidQuestion(m)) ==> ids_clash(
            reject_includes,
            by_name_spec(sources_view(sources@), sources@.len()),
            m@,
        ),
{
    item_bank_from_sources_with(name, sources, &reject_includes)
}

/// Rebase the local images of every Markdown field of `question` (prompt,
/// choices, ordering items, feedback) to sit under `base`, the question's
/// own directory within the bank, so they resolve from the bank root.
pub fn rebase_local_paths(question: &mut Question, base: &str)
    ensures
        crate::model::same_shape(*old(question), *final(question)),
        crate::model::rich_text_spec(*final(question)).len() == crate::model::rich_text_spec(*old(question)).len(),
        forall|k: int| 0 <= k < crate::model::rich_text_spec(*old(question)).len() ==> rebased(
            #[trigger] crate::model::rich_text_spec(*old(question))[k],
            base@,
            crate::model::rich_text_spec(*final(question))[k],
        ),
{
    let ghost before = crate::model::rich_text_spec(*question);
    let fields = question.rich_text_fields();
    let mut k: usize = 0;
    while k < fields.len()
        invariant
            k <= fields@.len(),
            fields@.map_values(|t: String| t@) == before,
            crate::model::same_shape(*old(question), *question),
            crate::model::rich_text_spec(*question).len() == before.len(),
            before == crate::model::rich_text_spec(*old(question)),
            forall|j: int| 0 <= j < k ==> rebased(#[trigger] before[j], base@, crate::model::rich_text_spec(*question)[j]),
            forall|j: int| k <= j < before.len() ==> #[trigger] crate::model::rich_text_spec(*question)[j] == before[j],
        decreases fields@.len() - k,
    {
        assert(fields@[k as int]@ == before[k as int]);
        let next = rebase_images(fields[k].as_str(), base);
        let ghost current = crate::model::rich_text_spec(*question);
        question.set_rich_text_field(k, next);
        assert(rebased(before[k as int], base@, crate::model::rich_text_spec(*question)[k as int]));
        k = k + 1;
    }
}

} // verus!
