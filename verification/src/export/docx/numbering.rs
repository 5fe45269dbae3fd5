//! The `numbering.xml` part: what list markers look like, and which list each
//! item counts in.
//!
//! A `w:p` does not say "bullet" or "3."; it says `w:numId` and `w:ilvl`, and
//! this part is what those resolve against. A `w:numId` carries the counter,
//! so each ordered list opens a `w:num` of its own with a `w:startOverride`
//! written at the `w:ilvl` its items sit on; bullets carry no counter, so
//! every bulleted list shares one.
use vstd::prelude::*;

use crate::export::{escape_xml_spec, push_escaped};
use crate::text::{decimal_spec, extend_chars, extend_str, push_decimal, string_from_chars};

verus! {

/// The OOXML main-document namespace.
pub const W_NS: &'static str = "http://schemas.openxmlformats.org/wordprocessingml/2006/main";

/// How a list marks its items.
#[derive(Debug, Clone, Copy)]
pub enum Marker {
    /// `- item`.
    Bullet,
    /// `1. item`, counting from this value.
    Ordered(u64),
}

/// The bullet characters Word cycles through, with the font each needs: the
/// first and third are private-use code points that mean something only in
/// the named font, which is how Word itself writes them.
pub const BULLETS: [(char, &'static str); 3] = [
    ('\u{F0B7}', "Symbol"),
    ('o', "Courier New"),
    ('\u{F0A7}', "Wingdings"),
];

/// The `w:abstractNumId` of the bulleted definition.
pub const BULLET_ABSTRACT: u32 = 0;

/// The `w:abstractNumId` of the numbered definition.
pub const ORDERED_ABSTRACT: u32 = 1;

/// How many nesting levels the definitions cover: Word's own nine.
pub const LEVELS: usize = 9;

/// The deepest `w:ilvl` any item may carry; deeper nesting is clamped here.
pub const MAX_LEVEL: u8 = 8;

/// Twips of indent each nesting level adds.
pub const INDENT: u32 = 720;

/// How far the marker hangs to the left of its text.
pub const HANGING: u32 = 360;

/// The left indent of a list item's text at `level`: one step per level,
/// counting the first, held at `u32::MAX`.
pub open spec fn indent_spec(level: nat) -> u32 {
    if level + 1 > u32::MAX {
        u32::MAX
    } else if 720 * (level + 1) > u32::MAX {
        u32::MAX
    } else {
        (720 * (level + 1)) as u32
    }
}

/// The left indent, in twips, of a list item's text at `level`.
///
/// Shared with the paragraph writer because a continuation paragraph carries
/// no `w:numPr` and so inherits none of the level's indent.
pub fn indent(level: usize) -> (res: u32)
    ensures
        res == indent_spec(level as nat),
{
    let steps: u32 = if level >= u32::MAX as usize { u32::MAX } else { level as u32 + 1 };
    if steps > u32::MAX / 720 {
        u32::MAX
    } else {
        720 * steps
    }
}

/// The `w:numId` of the instance held at `index`: one past it, as
/// `w:numId` 0 means "no numbering".
pub open spec fn id_of_spec(index: nat) -> u32 {
    if index >= u32::MAX {
        u32::MAX
    } else {
        (index + 1) as u32
    }
}

/// Two lists never share a counter: distinct instances get distinct
/// `w:numId`s, none of them the reserved zero (below the four billionth
/// list, where ids stop growing).
pub proof fn lists_never_share_a_counter(i: nat, j: nat)
    requires
        i != j,
        i < u32::MAX,
        j < u32::MAX,
    ensures
        id_of_spec(i) != id_of_spec(j),
        id_of_spec(i) >= 1,
{
}

/// The `w:numId` of the instance held at `index`.
pub fn id_of(index: usize) -> (res: u32)
    ensures
        res == id_of_spec(index as nat),
{
    if index >= u32::MAX as usize {
        u32::MAX
    } else {
        index as u32 + 1
    }
}

/// The bullet glyph for a level, cycling through three.
pub open spec fn bullet_glyph(level: nat) -> char {
    if level % 3 == 0 {
        '\u{F0B7}'
    } else if level % 3 == 1 {
        'o'
    } else {
        '\u{F0A7}'
    }
}

/// The font a bullet glyph needs, cycling with it.
pub open spec fn bullet_font(level: nat) -> Seq<char> {
    if level % 3 == 0 {
        "Symbol"@
    } else if level % 3 == 1 {
        "Courier New"@
    } else {
        "Wingdings"@
    }
}

/// The number format for an ordered level, cycling through three.
pub open spec fn ordered_format(level: nat) -> Seq<char> {
    if level % 3 == 0 {
        "decimal"@
    } else if level % 3 == 1 {
        "lowerLetter"@
    } else {
        "lowerRoman"@
    }
}

/// One `w:lvl`: the marker and indent at one nesting level. `CT_Lvl` is a
/// sequence — `start`, `numFmt`, `lvlText`, `lvlJc`, `pPr`, `rPr`.
pub open spec fn level_xml_spec(level: nat, bullet: bool) -> Seq<char> {
    let format = if bullet { "bullet"@ } else { ordered_format(level) };
    let text = if bullet { seq![bullet_glyph(level)] } else { "%"@ + decimal_spec(level + 1) + "."@ };
    let fonts = if bullet {
        "<w:rPr><w:rFonts w:ascii=\""@ + bullet_font(level) + "\" w:hAnsi=\""@ + bullet_font(level)
            + "\"/></w:rPr>"@
    } else {
        Seq::empty()
    };
    "<w:lvl w:ilvl=\""@ + decimal_spec(level) + "\"><w:start w:val=\"1\"/><w:numFmt w:val=\""@
        + format + "\"/><w:lvlText w:val=\""@ + escape_xml_spec(text)
        + "\"/><w:lvlJc w:val=\"left\"/><w:pPr><w:ind w:left=\""@ + decimal_spec(
        indent_spec(level) as nat,
    ) + "\" w:hanging=\"360\"/></w:pPr>"@ + fonts + "</w:lvl>"@
}

/// One `w:lvl`.
fn level_xml(out: &mut Vec<char>, level: usize, bullet: bool)
    requires
        level < 9,
    ensures
        final(out)@ == old(out)@ + level_xml_spec(level as nat, bullet),
{
    let mut text: Vec<char> = Vec::new();
    let mut font: &str = "";
    if bullet {
        if level % 3 == 0 {
            text.push('\u{F0B7}');
            font = "Symbol";
        } else if level % 3 == 1 {
            text.push('o');
            font = "Courier New";
        } else {
            text.push('\u{F0A7}');
            font = "Wingdings";
        }
    } else {
        text.push('%');
        push_decimal(&mut text, level as u64 + 1);
        text.push('.');
    }
    let text_s = string_from_chars(&text);
    let ghost start = out@;
    extend_str(out, "<w:lvl w:ilvl=\"");
    push_decimal(out, level as u64);
    extend_str(out, "\"><w:start w:val=\"1\"/><w:numFmt w:val=\"");
    if bullet {
        extend_str(out, "bullet");
    } else if level % 3 == 0 {
        extend_str(out, "decimal");
    } else if level % 3 == 1 {
        extend_str(out, "lowerLetter");
    } else {
        extend_str(out, "lowerRoman");
    }
    extend_str(out, "\"/><w:lvlText w:val=\"");
    push_escaped(out, text_s.as_str());
    extend_str(out, "\"/><w:lvlJc w:val=\"left\"/><w:pPr><w:ind w:left=\"");
    push_decimal(out, indent(level) as u64);
    extend_str(out, "\" w:hanging=\"360\"/></w:pPr>");
    if bullet {
        extend_str(out, "<w:rPr><w:rFonts w:ascii=\"");
        extend_str(out, font);
        extend_str(out, "\" w:hAnsi=\"");
        extend_str(out, font);
        extend_str(out, "\"/></w:rPr>");
    }
    extend_str(out, "</w:lvl>");
    proof {
        if !bullet {
            reveal_strlit("%");
            reveal_strlit(".");
            assert(text@ =~= "%"@ + decimal_spec(level as nat + 1) + "."@);
        } else {
            assert(text@ =~= seq![bullet_glyph(level as nat)]);
        }
    }
    assert(out@ =~= start + level_xml_spec(level as nat, bullet));
}

/// The levels `0..count` of a definition.
pub open spec fn levels_spec(count: nat, bullet: bool) -> Seq<char>
    decreases count,
{
    if count == 0 {
        Seq::empty()
    } else {
        levels_spec((count - 1) as nat, bullet) + level_xml_spec((count - 1) as nat, bullet)
    }
}

/// One `w:abstractNum`: how a list of this kind looks at every level.
pub open spec fn definition_spec(id: u32, bullet: bool) -> Seq<char> {
    "<w:abstractNum w:abstractNumId=\""@ + decimal_spec(id as nat)
        + "\"><w:multiLevelType w:val=\"hybridMultilevel\"/>"@ + levels_spec(9, bullet)
        + "</w:abstractNum>"@
}

/// One `w:abstractNum`.
fn definition(out: &mut Vec<char>, id: u32, bullet: bool)
    ensures
        final(out)@ == old(out)@ + definition_spec(id, bullet),
{
    let ghost start = out@;
    extend_str(out, "<w:abstractNum w:abstractNumId=\"");
    push_decimal(out, id as u64);
    extend_str(out, "\"><w:multiLevelType w:val=\"hybridMultilevel\"/>");
    let ghost before_levels = out@;
    let mut level: usize = 0;
    while level < 9
        invariant
            level <= 9,
            out@ == before_levels + levels_spec(level as nat, bullet),
        decreases 9 - level,
    {
        level_xml(out, level, bullet);
        level = level + 1;
        assert(out@ =~= before_levels + levels_spec(level as nat, bullet));
    }
    extend_str(out, "</w:abstractNum>");
    assert(out@ =~= start + definition_spec(id, bullet));
}

/// One `w:num`: which definition its levels come from, and where its
/// counter restarts.
#[derive(Debug, Clone, Copy)]
pub struct Instance {
    /// The `w:abstractNumId` this instance draws its markers from.
    pub definition: u32,
    /// The value the counter restarts at and the `w:ilvl` it binds to, or
    /// `None` for a bulleted list, which has no counter.
    pub start: Option<(u64, u8)>,
}

/// One `w:num`, restarting its counter at the level its items carry.
pub open spec fn instance_spec(id: u32, inst: Instance) -> Seq<char> {
    "<w:num w:numId=\""@ + decimal_spec(id as nat) + "\"><w:abstractNumId w:val=\""@ + decimal_spec(
        inst.definition as nat,
    ) + "\"/>"@ + match inst.start {
        Some((start, level)) => "<w:lvlOverride w:ilvl=\""@ + decimal_spec(level as nat)
            + "\"><w:startOverride w:val=\""@ + decimal_spec(start as nat)
            + "\"/></w:lvlOverride>"@,
        None => Seq::empty(),
    } + "</w:num>"@
}

/// One `w:num`.
fn instance(out: &mut Vec<char>, id: u32, inst: Instance)
    ensures
        final(out)@ == old(out)@ + instance_spec(id, inst),
{
    let ghost start_out = out@;
    extend_str(out, "<w:num w:numId=\"");
    push_decimal(out, id as u64);
    extend_str(out, "\"><w:abstractNumId w:val=\"");
    push_decimal(out, inst.definition as u64);
    extend_str(out, "\"/>");
    match inst.start {
        Some((start, level)) => {
            extend_str(out, "<w:lvlOverride w:ilvl=\"");
            push_decimal(out, level as u64);
            extend_str(out, "\"><w:startOverride w:val=\"");
            push_decimal(out, start);
            extend_str(out, "\"/></w:lvlOverride>");
        },
        None => {},
    }
    extend_str(out, "</w:num>");
    assert(out@ =~= start_out + instance_spec(id, inst));
}

/// The `w:num` entries for the first `count` instances, in id order.
pub open spec fn instances_spec(instances: Seq<Instance>, count: nat) -> Seq<char>
    decreases count,
{
    if count == 0 {
        Seq::empty()
    } else {
        instances_spec(instances, (count - 1) as nat) + instance_spec(
            id_of_spec((count - 1) as nat),
            instances[count - 1],
        )
    }
}

/// The whole `word/numbering.xml` part for `instances`: both abstract
/// definitions always, then one `w:num` per list.
pub open spec fn numbering_xml_spec(instances: Seq<Instance>) -> Seq<char> {
    "<?xml version=\"1.0\" encoding=\"UTF-8\" standalone=\"yes\"?><w:numbering xmlns:w=\""@ + W_NS@
        + "\">"@ + definition_spec(0, true) + definition_spec(1, false) + instances_spec(
        instances,
        instances.len(),
    ) + "</w:numbering>"@
}

/// What opening a list marked `marker` at `level` does to the instances
/// and the shared bullet id: the id its items carry, and both after it. An
/// ordered list gets a new instance restarting at its start value; every
/// bulleted list shares one instance, made the first time.
pub open spec fn open_step(instances: Seq<Instance>, bullet: Option<u32>, marker: Marker, level: u8) -> (
    u32,
    Seq<Instance>,
    Option<u32>,
) {
    match marker {
        Marker::Ordered(start) => (
            id_of_spec(instances.len()),
            instances.push(Instance { definition: 1, start: Some((start, level)) }),
            bullet,
        ),
        Marker::Bullet => match bullet {
            Some(id) => (id, instances, bullet),
            None => {
                let id = id_of_spec(instances.len());
                (id, instances.push(Instance { definition: 0, start: None }), Some(id))
            },
        },
    }
}

/// Opening each of `ops`, a marker and a level, in turn on a document with
/// no lists yet: the id each open returned, then the instances and the
/// shared bullet id after them all.
pub open spec fn opens(ops: Seq<(Marker, u8)>) -> (Seq<u32>, Seq<Instance>, Option<u32>)
    decreases ops.len(),
{
    if ops.len() == 0 {
        (Seq::empty(), Seq::empty(), None)
    } else {
        let prev = opens(ops.drop_last());
        let step = open_step(prev.1, prev.2, ops.last().0, ops.last().1);
        (prev.0.push(step.0), step.1, step.2)
    }
}

/// The instance a list opened with `marker` at `level` resolves to.
pub open spec fn instance_for(marker: Marker, level: u8) -> Instance {
    match marker {
        Marker::Ordered(start) => Instance { definition: 1, start: Some((start, level)) },
        Marker::Bullet => Instance { definition: 0, start: None },
    }
}

/// What holds after any run of opens: every id names its own instance, and
/// the ids and the shared bullet id stay apart as the law below states.
proof fn lemma_opens(ops: Seq<(Marker, u8)>)
    requires
        ops.len() < u32::MAX,
    ensures
        ({
            let (ids, insts, bullet) = opens(ops);
            &&& ids.len() == ops.len()
            &&& insts.len() <= ops.len()
            &&& forall|k: int| 0 <= k < ids.len() ==> 1 <= #[trigger] ids[k] <= insts.len()
                && insts[ids[k] - 1] == instance_for(ops[k].0, ops[k].1)
            &&& forall|j: int, k: int|
                0 <= j < k < ids.len() && (ops[j].0 is Ordered || ops[k].0 is Ordered) ==> #[trigger] ids[j]
                    != #[trigger] ids[k]
            &&& forall|j: int, k: int|
                0 <= j < ids.len() && 0 <= k < ids.len() && ops[j].0 is Bullet && ops[k].0 is Bullet
                    ==> #[trigger] ids[j] == #[trigger] ids[k]
            &&& match bullet {
                Some(b) => 1 <= b <= insts.len() && insts[b - 1] == instance_for(Marker::Bullet, 0)
                    && forall|k: int| 0 <= k < ids.len() ==> (ops[k].0 is Bullet <==> #[trigger] ids[k] == b),
                None => forall|k: int| 0 <= k < ids.len() ==> #[trigger] ops[k].0 is Ordered,
            }
        }),
    decreases ops.len(),
{
    if ops.len() > 0 {
        let rest = ops.drop_last();
        lemma_opens(rest);
        let (ids0, insts0, bullet0) = opens(rest);
        let (ids, insts, bullet) = opens(ops);
        let n = insts0.len();
        assert(n < u32::MAX);
        assert(id_of_spec(n) == n + 1);
        let last = ops.len() - 1;
        assert forall|k: int| 0 <= k < last implies ops[k] == rest[k] && ids[k] == ids0[k] by {}
        match ops.last().0 {
            Marker::Ordered(_) => {
                assert(insts == insts0.push(instance_for(ops[last].0, ops[last].1)));
            },
            Marker::Bullet => {
                match bullet0 {
                    Some(b) => {},
                    None => {
                        assert(insts == insts0.push(instance_for(Marker::Bullet, 0)));
                    },
                }
            },
        }
    }
}

/// Whether `entry` appears somewhere in `xml`.
pub open spec fn listed(xml: Seq<char>, entry: Seq<char>) -> bool {
    exists|at: int| crate::text::occurs_at(xml, entry, at)
}

/// The `w:num` entries of fewer instances begin those of more.
proof fn lemma_instances_prefix(insts: Seq<Instance>, m: nat, n: nat)
    requires
        m <= n,
    ensures
        instances_spec(insts, m).len() <= instances_spec(insts, n).len(),
        instances_spec(insts, n).subrange(0, instances_spec(insts, m).len() as int) == instances_spec(insts, m),
    decreases n,
{
    if m == n {
        assert(instances_spec(insts, n).subrange(0, instances_spec(insts, n).len() as int) =~= instances_spec(insts, n));
    } else {
        lemma_instances_prefix(insts, m, (n - 1) as nat);
        let a = instances_spec(insts, (n - 1) as nat);
        let b = instances_spec(insts, n);
        let len = instances_spec(insts, m).len() as int;
        assert(b == a + instance_spec(id_of_spec((n - 1) as nat), insts[n - 1]));
        assert(b.subrange(0, len) =~= a.subrange(0, len));
    }
}

/// The part lists the instance held at `i` as its `w:num`, right after the
/// entries of the instances before it.
proof fn lemma_instance_listed(insts: Seq<Instance>, i: nat)
    requires
        i < insts.len(),
    ensures
        listed(numbering_xml_spec(insts), instance_spec(id_of_spec(i), insts[i as int])),
{
    let head = "<?xml version=\"1.0\" encoding=\"UTF-8\" standalone=\"yes\"?><w:numbering xmlns:w=\""@ + W_NS@
        + "\">"@ + definition_spec(0, true) + definition_spec(1, false);
    let all = instances_spec(insts, insts.len());
    let whole = numbering_xml_spec(insts);
    assert(whole =~= head + all + "</w:numbering>"@);
    lemma_instances_prefix(insts, i + 1, insts.len());
    let before = instances_spec(insts, i);
    let entry = instance_spec(id_of_spec(i), insts[i as int]);
    assert(instances_spec(insts, i + 1) == before + entry);
    let at: int = (head.len() + before.len()) as int;
    let b: int = before.len() as int;
    let n: int = entry.len() as int;
    let pre = all.subrange(0, b + n);
    assert(pre == before + entry);
    assert(all.subrange(b, b + n) =~= pre.subrange(b, b + n));
    assert(pre.subrange(b, b + n) =~= entry);
    assert(whole.subrange(at, at + n) =~= all.subrange(b, b + n));
    assert(crate::text::occurs_at(whole, entry, at));
}

/// Every list opened on a document gets a `w:numId` naming a `w:num` of
/// its own kind, which `numbering.xml` lists: an ordered list one restarting
/// at its start value on its level, never shared with another list; every
/// bulleted list the one shared bulleted `w:num` (below the four billionth
/// open, where ids stop growing).
pub proof fn every_list_resolves(ops: Seq<(Marker, u8)>)
    requires
        ops.len() < u32::MAX,
    ensures
        ({
            let (ids, insts, bullet) = opens(ops);
            &&& ids.len() == ops.len()
            &&& forall|k: int| 0 <= k < ids.len() ==> 1 <= #[trigger] ids[k] <= insts.len()
                && insts[ids[k] - 1] == instance_for(ops[k].0, ops[k].1)
            &&& forall|j: int, k: int|
                0 <= j < k < ids.len() && (ops[j].0 is Ordered || ops[k].0 is Ordered) ==> #[trigger] ids[j]
                    != #[trigger] ids[k]
            &&& forall|j: int, k: int|
                0 <= j < ids.len() && 0 <= k < ids.len() && ops[j].0 is Bullet && ops[k].0 is Bullet
                    ==> #[trigger] ids[j] == #[trigger] ids[k]
            &&& forall|k: int| 0 <= k < ids.len() ==> listed(
                numbering_xml_spec(insts),
                instance_spec(#[trigger] ids[k], instance_for(ops[k].0, ops[k].1)),
            )
        }),
{
    lemma_opens(ops);
    let (ids, insts, bullet) = opens(ops);
    assert forall|k: int| 0 <= k < ids.len() implies listed(
        numbering_xml_spec(insts),
        instance_spec(#[trigger] ids[k], instance_for(ops[k].0, ops[k].1)),
    ) by {
        let slot = (ids[k] - 1) as nat;
        assert(id_of_spec(slot) == ids[k]);
        assert(insts[slot as int] == instance_for(ops[k].0, ops[k].1));
        lemma_instance_listed(insts, slot);
    }
}

/// The lists one document holds.
#[derive(Debug)]
pub struct Numbering {
    /// The id shared by every bulleted list, once one has been opened.
    bullet: Option<u32>,
    /// One entry per `w:num`, in id order.
    instances: Vec<Instance>,
}

impl Numbering {
    /// The instances opened so far, in id order.
    pub closed spec fn instances_view(self) -> Seq<Instance> {
        self.instances@
    }

    /// The id shared by bulleted lists, once one is open.
    pub closed spec fn bullet_view(self) -> Option<u32> {
        self.bullet
    }

    /// A document with no lists in it yet.
    pub fn new() -> (res: Self)
        ensures
            res.instances_view().len() == 0,
            res.bullet_view() is None,
    {
        Numbering { bullet: None, instances: Vec::new() }
    }

    /// Record one `w:num`, returning its id.
    fn push(&mut self, inst: Instance) -> (res: u32)
        ensures
            final(self).instances_view() == old(self).instances_view().push(inst),
            final(self).bullet_view() == old(self).bullet_view(),
            res == id_of_spec(old(self).instances_view().len()),
    {
        self.instances.push(inst);
        id_of(self.instances.len() - 1)
    }

    /// Open a list whose items sit at `level`, returning the `w:numId` they
    /// should carry: a new instance restarting at `start` for an ordered list,
    /// the one shared instance for a bulleted list.
    pub fn open(&mut self, marker: Marker, level: u8) -> (res: u32)
        ensures
            open_step(old(self).instances_view(), old(self).bullet_view(), marker, level) == (
                res,
                final(self).instances_view(),
                final(self).bullet_view(),
            ),
    {
        match marker {
            Marker::Ordered(start) => self.push(
                Instance { definition: ORDERED_ABSTRACT, start: Some((start, level)) },
            ),
            Marker::Bullet => {
                if let Some(id) = self.bullet {
                    return id;
                }
                let id = self.push(Instance { definition: BULLET_ABSTRACT, start: None });
                self.bullet = Some(id);
                id
            },
        }
    }

    /// The whole `word/numbering.xml` part. Both abstract definitions are
    /// always written, so a `w:numId` can never resolve to nothing.
    pub fn to_xml(&self) -> (res: String)
        ensures
            res@ == numbering_xml_spec(self.instances_view()),
    {
        let mut out: Vec<char> = Vec::new();
        extend_str(&mut out, "<?xml version=\"1.0\" encoding=\"UTF-8\" standalone=\"yes\"?><w:numbering xmlns:w=\"");
        extend_str(&mut out, W_NS);
        extend_str(&mut out, "\">");
        definition(&mut out, BULLET_ABSTRACT, true);
        definition(&mut out, ORDERED_ABSTRACT, false);
        let ghost before = out@;
        let mut k: usize = 0;
        while k < self.instances.len()
            invariant
                k <= self.instances@.len(),
                out@ == before + instances_spec(self.instances@, k as nat),
            decreases self.instances@.len() - k,
        {
            instance(&mut out, id_of(k), self.instances[k]);
            k = k + 1;
            assert(out@ =~= before + instances_spec(self.instances@, k as nat));
        }
        extend_str(&mut out, "</w:numbering>");
        assert(out@ =~= numbering_xml_spec(self.instances@));
        string_from_chars(&out)
    }
}

/// Where a list-item paragraph counts, and whether it carries the marker.
#[derive(Debug, Clone, Copy)]
pub struct Item {
    /// The `w:numId` of the list it counts in.
    pub list: u32,
    /// Its nesting depth, as `w:ilvl`.
    pub level: u8,
    /// Whether it is the paragraph the marker sits on.
    pub marked: bool,
}

/// The `w:numPr` of a marked item; nothing for a continuation paragraph.
pub open spec fn item_marker_spec(item: Item) -> Seq<char> {
    if item.marked {
        "<w:numPr><w:ilvl w:val=\""@ + decimal_spec(item.level as nat) + "\"/><w:numId w:val=\""@
            + decimal_spec(item.list as nat) + "\"/></w:numPr>"@
    } else {
        Seq::empty()
    }
}

/// The hand-written indent of a continuation paragraph; nothing for a
/// marked one, which takes its indent from the numbering definition.
pub open spec fn item_indent_spec(item: Item) -> Seq<char> {
    if item.marked {
        Seq::empty()
    } else {
        "<w:ind w:left=\""@ + decimal_spec(indent_spec(item.level as nat) as nat) + "\"/>"@
    }
}

impl Item {
    /// The `w:numPr` that puts a marked paragraph in its list.
    pub fn marker(&self) -> (res: String)
        ensures
            res@ == item_marker_spec(*self),
    {
        let mut out: Vec<char> = Vec::new();
        if self.marked {
            extend_str(&mut out, "<w:numPr><w:ilvl w:val=\"");
            push_decimal(&mut out, self.level as u64);
            extend_str(&mut out, "\"/><w:numId w:val=\"");
            push_decimal(&mut out, self.list as u64);
            extend_str(&mut out, "\"/></w:numPr>");
        }
        assert(out@ =~= item_marker_spec(*self));
        string_from_chars(&out)
    }

    /// The `w:ind` a continuation paragraph needs to sit under its item.
    pub fn indent(&self) -> (res: String)
        ensures
            res@ == item_indent_spec(*self),
    {
        let mut out: Vec<char> = Vec::new();
        if !self.marked {
            extend_str(&mut out, "<w:ind w:left=\"");
            push_decimal(&mut out, indent(self.level as usize) as u64);
            extend_str(&mut out, "\"/>");
        }
        assert(out@ =~= item_indent_spec(*self));
        string_from_chars(&out)
    }
}

} // verus!
