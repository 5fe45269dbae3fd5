//! MathML rendered as OOXML math (OMML) for a Word document.
//!
//! Two stages, deliberately split. Turning LaTeX into MathML is an unbounded
//! problem (thousands of commands, macro expansion) and is the caller's: the
//! MathML for each expression arrives with the request. This module owns the
//! second stage, MathML to OMML: a bounded mapping over the two dozen MathML
//! elements a realistic corpus of instructor math produces.
//!
//! Nothing renders best-effort. Anything that cannot be represented
//! faithfully (MathML that does not parse, an element with no OMML
//! equivalent, a table column rule) fails with the offending LaTeX quoted.
use crate::error::Error;
use crate::export::{escape_xml, escape_xml_spec};
use crate::text::{extend_str, is_blank, str_eq, string_from_chars, trim_str};
use vstd::prelude::*;

verus! {

/// Whether an expression sits in a line of prose or on its own.
#[derive(Debug, Clone, Copy, PartialEq, Eq, Structural)]
pub enum Display {
    /// `$…$`: set inline, with the tighter spacing that implies.
    Inline,
    /// `$$…$$`: set on its own line.
    Block,
}

/// The deepest brace nesting accepted before an expression is refused.
///
/// Pathologically nested LaTeX overflows the stack inside a parser, and a
/// stack overflow aborts rather than unwinds. 32 is far beyond any real exam.
pub const MAX_NESTING: usize = 32;

/// The deepest brace nesting reached in `s`, starting at `depth` with the
/// deepest so far `deepest`.
pub open spec fn nesting_from(s: Seq<char>, depth: nat, deepest: nat) -> nat
    decreases s.len(),
{
    if s.len() == 0 {
        deepest
    } else if s[0] == '{' {
        nesting_from(s.skip(1), depth + 1, if depth + 1 > deepest { depth + 1 } else { deepest })
    } else if s[0] == '}' {
        nesting_from(s.skip(1), if depth > 0 { (depth - 1) as nat } else { 0 }, deepest)
    } else {
        nesting_from(s.skip(1), depth, deepest)
    }
}

/// The deepest brace nesting in `latex`.
pub open spec fn nesting_depth_spec(latex: Seq<char>) -> nat {
    nesting_from(latex, 0, 0)
}

/// The deepest brace nesting in `latex`, counting no further than just past
/// [`MAX_NESTING`].
pub fn nesting_depth(latex: &str) -> (res: usize)
    ensures
        res as int == (if nesting_depth_spec(latex@) > MAX_NESTING { (MAX_NESTING + 1) as int } else {
            nesting_depth_spec(latex@) as int
        }),
{
    let chars = crate::text::str_chars(latex);
    let mut depth: usize = 0;
    let mut deepest: usize = 0;
    let mut i: usize = 0;
    assert(chars@.skip(0) =~= chars@);
    while i < chars.len()
        invariant
            i <= chars.len(),
            chars@ == latex@,
            depth <= MAX_NESTING + 1,
            deepest <= MAX_NESTING + 1,
            depth <= deepest || depth == 0 || deepest == MAX_NESTING + 1,
            (if nesting_depth_spec(latex@) > MAX_NESTING { (MAX_NESTING + 1) as int } else {
                nesting_depth_spec(latex@) as int
            }) == (if deepest > MAX_NESTING { (MAX_NESTING + 1) as int } else {
                let d = nesting_from(chars@.skip(i as int), depth as nat, deepest as nat);
                if d > MAX_NESTING { (MAX_NESTING + 1) as int } else { d as int }
            }),
        decreases chars.len() - i,
    {
        if deepest > MAX_NESTING {
            return MAX_NESTING + 1;
        }
        let c = chars[i];
        assert(chars@.skip(i as int).skip(1) =~= chars@.skip(i + 1));
        assert(chars@.skip(i as int)[0] == c);
        if c == '{' {
            depth = depth + 1;
            if depth > deepest {
                deepest = depth;
            }
        } else if c == '}' {
            if depth > 0 {
                depth = depth - 1;
            }
        }
        proof {
            lemma_nesting_monotone(chars@.skip(i + 1), depth as nat, deepest as nat);
        }
        i = i + 1;
    }
    deepest
}

/// The nesting reached is never below the deepest seen so far.
proof fn lemma_nesting_monotone(s: Seq<char>, depth: nat, deepest: nat)
    ensures
        nesting_from(s, depth, deepest) >= deepest,
    decreases s.len(),
{
    if s.len() > 0 {
        if s[0] == '{' {
            lemma_nesting_monotone(s.skip(1), depth + 1, if depth + 1 > deepest { depth + 1 } else { deepest });
        } else if s[0] == '}' {
            lemma_nesting_monotone(s.skip(1), if depth > 0 { (depth - 1) as nat } else { 0 }, deepest);
        } else {
            lemma_nesting_monotone(s.skip(1), depth, deepest);
        }
    }
}

/// One MathML node: an element (with its name, attributes, the text of its
/// first child when that is text, and its children as positions in the
/// document), or a text node (with its text).
#[derive(Debug, Clone)]
pub struct MathNode {
    pub element: bool,
    pub name: String,
    pub text: Option<String>,
    pub attrs: Vec<(String, String)>,
    pub children: Vec<usize>,
}

/// A [`MathNode`] with its strings as sequences.
pub struct MathNodeView {
    pub element: bool,
    pub name: Seq<char>,
    pub has_text: bool,
    pub text: Seq<char>,
    pub attrs: Seq<(Seq<char>, Seq<char>)>,
    pub children: Seq<usize>,
}

impl View for MathNode {
    type V = MathNodeView;

    open spec fn view(&self) -> MathNodeView {
        MathNodeView {
            element: self.element,
            name: self.name@,
            has_text: self.text is Some,
            text: match self.text {
                Some(t) => t@,
                None => Seq::empty(),
            },
            attrs: self.attrs@.map_values(|a: (String, String)| (a.0@, a.1@)),
            children: self.children@,
        }
    }
}

/// The nodes roxmltree reads from `source`, in document order starting with
/// the document itself, or `None` where it refuses the text.
pub uninterp spec fn mathml_nodes(source: Seq<char>) -> Option<Seq<MathNodeView>>;

/// Parse `source` with `roxmltree::Document::parse` and list its nodes in
/// document order (the document node first), each child named by its
/// position in that list.
#[verifier::external_body]
fn parse_mathml(source: &str) -> (res: Option<Vec<MathNode>>)
    ensures
        match mathml_nodes(source@) {
            Some(nodes) => res matches Some(v) && v@.map_values(|n: MathNode| n@) == nodes,
            None => res is None,
        },
{
    let document = roxmltree::Document::parse(source).ok()?;
    Some(document.root().descendants().map(|node| MathNode {
        element: node.is_element(),
        name: node.tag_name().name().to_string(),
        text: node.text().map(|t| t.to_string()),
        attrs: node.attributes().map(|a| (a.name().to_string(), a.value().to_string())).collect(),
        children: node.children().map(|child| child.id().get() as usize).collect(),
    }).collect())
}

/// The text of a node: its own, or its first child's; empty where it has
/// none.
fn node_text(node: &MathNode) -> (res: &str)
    ensures
        res@ == node@.text,
{
    match &node.text {
        Some(t) => t.as_str(),
        None => {
            proof {
                reveal_strlit("");
            }
            ""
        },
    }
}

fn unsupported(latex: &str, reason: &str) -> (res: Error)
    ensures
        res matches Error::UnsupportedMath { latex: l, reason: r } && l@ == latex@ && r@ == reason@,
{
    Error::UnsupportedMath { latex: latex.to_string(), reason: reason.to_string() }
}

/// Whether `res` is a refusal of `latex`.
pub open spec fn refuses(res: Result<String, Error>, latex: Seq<char>) -> bool {
    res matches Err(Error::UnsupportedMath { latex: l, .. }) && l@ == latex
}

/// Whether `res` succeeds or refuses `latex`.
pub open spec fn math_outcome(res: Result<String, Error>, latex: Seq<char>) -> bool {
    res is Ok || refuses(res, latex)
}

/// One OMML run: italic for a variable, upright (`m:sty p`) for everything
/// else.
pub open spec fn math_run_spec(text: Seq<char>, italic: bool) -> Seq<char> {
    "<m:r>"@ + (if italic { Seq::empty() } else { "<m:rPr><m:sty m:val=\"p\"/></m:rPr>"@ })
        + "<m:t xml:space=\"preserve\">"@ + escape_xml_spec(text) + "</m:t></m:r>"@
}

/// One OMML run of `text`.
pub fn math_run(text: &str, italic: bool) -> (res: String)
    ensures
        res@ == math_run_spec(text@, italic),
{
    let mut out: Vec<char> = Vec::new();
    extend_str(&mut out, "<m:r>");
    if !italic {
        extend_str(&mut out, "<m:rPr><m:sty m:val=\"p\"/></m:rPr>");
    }
    extend_str(&mut out, "<m:t xml:space=\"preserve\">");
    let escaped = escape_xml(text);
    extend_str(&mut out, escaped.as_str());
    extend_str(&mut out, "</m:t></m:r>");
    assert(out@ =~= math_run_spec(text@, italic));
    string_from_chars(&out)
}

// ---------------------------------------------------------------------------
// What a MathML tree renders to
// ---------------------------------------------------------------------------

/// The nodes as plain values.
pub open spec fn view_nodes(nodes: Seq<MathNode>) -> Seq<MathNodeView> {
    nodes.map_values(|n: MathNode| n@)
}

/// Whether `n` is the element `name`.
pub open spec fn named(n: MathNodeView, name: Seq<char>) -> bool {
    n.element && n.name == name
}

/// The value of the first attribute named `key`.
pub open spec fn attr_spec(attrs: Seq<(Seq<char>, Seq<char>)>, key: Seq<char>) -> Option<Seq<char>>
    decreases attrs.len(),
{
    if attrs.len() == 0 {
        None
    } else if attrs[0].0 == key {
        Some(attrs[0].1)
    } else {
        attr_spec(attrs.skip(1), key)
    }
}

/// The value of node `i`'s attribute `key`.
pub open spec fn attr_of(nodes: Seq<MathNodeView>, i: int, key: Seq<char>) -> Option<Seq<char>> {
    attr_spec(nodes[i].attrs, key)
}

/// Whether node `i`'s attribute `key` is exactly `value`.
pub open spec fn attr_is(nodes: Seq<MathNodeView>, i: int, key: Seq<char>, value: Seq<char>) -> bool {
    attr_of(nodes, i, key) == Some(value)
}

/// Whether node `i`'s attribute `key` starts with `prefix`.
pub open spec fn attr_starts(nodes: Seq<MathNodeView>, i: int, key: Seq<char>, prefix: char) -> bool {
    attr_of(nodes, i, key) matches Some(v) && v.len() > 0 && v[0] == prefix
}

/// Whether node `i`'s attribute `key` contains `piece`.
pub open spec fn attr_contains(nodes: Seq<MathNodeView>, i: int, key: Seq<char>, piece: Seq<char>) -> bool {
    attr_of(nodes, i, key) matches Some(v) && exists|j: int| crate::text::occurs_at(v, piece, j)
}

/// Whether child `c` is one a walk keeps: an element, or (unless only
/// elements are wanted) text that is not blank.
pub open spec fn kept_child(nodes: Seq<MathNodeView>, c: int, elements_only: bool) -> bool {
    if elements_only {
        nodes[c].element
    } else {
        nodes[c].element || crate::text::trim_spec(nodes[c].text).len() > 0
    }
}

/// The children `cs` of node `i` that come after it, lie in the document
/// and are kept.
pub open spec fn filter_children(nodes: Seq<MathNodeView>, i: int, cs: Seq<usize>, elements_only: bool) -> Seq<usize>
    decreases cs.len(),
{
    if cs.len() == 0 {
        Seq::empty()
    } else {
        let rest = filter_children(nodes, i, cs.drop_last(), elements_only);
        let c = cs.last() as int;
        if i < c < nodes.len() && kept_child(nodes, c, elements_only) {
            rest.push(cs.last())
        } else {
            rest
        }
    }
}

/// The children of node `i` a walk visits.
pub open spec fn children_spec(nodes: Seq<MathNodeView>, i: int, elements_only: bool) -> Seq<usize> {
    filter_children(nodes, i, nodes[i].children, elements_only)
}

/// The children a walk visits come after their parent and lie in the
/// document.
pub proof fn lemma_children_bounds(nodes: Seq<MathNodeView>, i: int, cs: Seq<usize>, elements_only: bool)
    ensures
        forall|k: int| 0 <= k < filter_children(nodes, i, cs, elements_only).len()
            ==> i < #[trigger] filter_children(nodes, i, cs, elements_only)[k] < nodes.len(),
    decreases cs.len(),
{
    if cs.len() > 0 {
        lemma_children_bounds(nodes, i, cs.drop_last(), elements_only);
        let rest = filter_children(nodes, i, cs.drop_last(), elements_only);
        let all = filter_children(nodes, i, cs, elements_only);
        assert forall|k: int| 0 <= k < all.len() implies i < #[trigger] all[k] < nodes.len() by {
            if k < rest.len() {
                assert(all[k] == rest[k]);
            }
        }
    }
}

/// The large operators that become one OMML n-ary object.
pub open spec fn is_nary_text(t: Seq<char>) -> bool {
    t == "∑"@ || t == "∏"@ || t == "∐"@ || t == "∫"@ || t == "∮"@ || t == "⋃"@ || t == "⋂"@
        || t == "⨁"@ || t == "⨂"@ || t == "⨀"@ || t == "⋀"@ || t == "⋁"@
}

/// The operator of node `i`, if it is a large operator.
pub open spec fn nary_op_spec(nodes: Seq<MathNodeView>, i: int) -> Option<Seq<char>> {
    let t = crate::text::trim_spec(nodes[i].text);
    if named(nodes[i], "mo"@) && is_nary_text(t) { Some(t) } else { None }
}

/// Whether node `i` sets something above, below or beside a base.
pub open spec fn scripted(n: MathNodeView) -> bool {
    named(n, "mover"@) || named(n, "munder"@) || named(n, "munderover"@) || named(n, "msub"@)
        || named(n, "msup"@) || named(n, "msubsup"@)
}

/// Whether node `i` is a scripted large operator, e.g. `\sum_{i=1}^{n}`.
pub open spec fn is_nary_spec(nodes: Seq<MathNodeView>, i: int) -> bool {
    let sides = children_spec(nodes, i, true);
    &&& scripted(nodes[i])
    &&& !attr_is(nodes, i, "accent"@, "true"@)
    &&& !attr_is(nodes, i, "accentunder"@, "true"@)
    &&& sides.len() > 0
    &&& nary_op_spec(nodes, sides[0] as int) is Some
}

/// Whether node `i` is a stretchy delimiter.
pub open spec fn is_fence_spec(nodes: Seq<MathNodeView>, i: int) -> bool {
    named(nodes[i], "mo"@) && !attr_is(nodes, i, "stretchy"@, "false"@)
}

/// A delimiter's character, or nothing for an invisible one (U+2061 to
/// U+2064, as `\left.` arrives).
pub open spec fn fence_char_spec(nodes: Seq<MathNodeView>, i: int) -> Seq<char> {
    let t = crate::text::trim_spec(nodes[i].text);
    if forall|k: int| 0 <= k < t.len() ==> '\u{2061}' <= #[trigger] t[k] <= '\u{2064}' {
        Seq::empty()
    } else {
        t
    }
}

/// The delimiters of node `i`, if it is a fenced group: at least three
/// parts, a stretchy operator at each end.
pub open spec fn fences_spec(nodes: Seq<MathNodeView>, i: int) -> Option<(Seq<char>, Seq<char>)> {
    let parts = children_spec(nodes, i, true);
    if parts.len() < 3 {
        None
    } else if is_fence_spec(nodes, parts[0] as int) && is_fence_spec(nodes, parts.last() as int) {
        Some((fence_char_spec(nodes, parts[0] as int), fence_char_spec(nodes, parts.last() as int)))
    } else {
        None
    }
}

/// A fenced group keeps both its fences: an `mrow` of at least three parts
/// whose first and last are stretchy operators, wherever it renders, opens
/// with OMML delimiters whose opening character is that of its first part
/// and whose closing character is that of its last part.
pub proof fn a_fenced_group_keeps_both_fences(nodes: Seq<MathNodeView>, i: int)
    requires
        0 <= i < nodes.len(),
        named(nodes[i], "mrow"@),
        children_spec(nodes, i, true).len() >= 3,
        is_fence_spec(nodes, children_spec(nodes, i, true)[0] as int),
        is_fence_spec(nodes, children_spec(nodes, i, true).last() as int),
    ensures
        render_spec(nodes, i) matches Ok(x) ==> crate::text::has_prefix(
            x,
            "<m:d><m:dPr><m:begChr m:val=\""@ + crate::export::escape_xml_spec(
                fence_char_spec(nodes, children_spec(nodes, i, true)[0] as int),
            ) + "\"/><m:endChr m:val=\""@ + crate::export::escape_xml_spec(
                fence_char_spec(nodes, children_spec(nodes, i, true).last() as int),
            ) + "\"/>"@,
        ),
{
    reveal_strlit("mrow");
    reveal_strlit("mi");
    reveal_strlit("mn");
    reveal_strlit("mtext");
    reveal_strlit("mo");
    let parts = children_spec(nodes, i, true);
    let open = fence_char_spec(nodes, parts[0] as int);
    let close = fence_char_spec(nodes, parts.last() as int);
    assert(fences_spec(nodes, i) == Some((open, close)));
    let head = "<m:d><m:dPr><m:begChr m:val=\""@ + crate::export::escape_xml_spec(open) + "\"/><m:endChr m:val=\""@
        + crate::export::escape_xml_spec(close) + "\"/><m:grow/></m:dPr><m:e>"@;
    let shown = "<m:d><m:dPr><m:begChr m:val=\""@ + crate::export::escape_xml_spec(open) + "\"/><m:endChr m:val=\""@
        + crate::export::escape_xml_spec(close) + "\"/>"@;
    assert("mrow"@ != "mi"@ && "mrow"@ != "mn"@ && "mrow"@ != "mtext"@ && "mrow"@ != "mo"@) by {
        assert("mrow"@.len() != "mi"@.len());
        assert("mrow"@.len() != "mn"@.len());
        assert("mrow"@.len() != "mtext"@.len());
        assert("mrow"@.len() != "mo"@.len());
    }
    assert(!named(nodes[i], "mi"@) && !named(nodes[i], "mn"@) && !named(nodes[i], "mtext"@) && !named(nodes[i], "mo"@));
    assert(render_spec(nodes, i) == delimited_spec(nodes, i, open, close));
    match render_spec(nodes, i) {
        Ok(x) => {
            let contents = if parts.len() >= 2 { parts.subrange(1, parts.len() - 1) } else { Seq::empty() };
            let inner = sequence_spec(nodes, i, contents, 0)->Ok_0;
            assert(x == head + inner + "</m:e></m:d>"@);
            reveal_strlit("\"/>");
            reveal_strlit("\"/><m:grow/></m:dPr><m:e>");
            reveal_strlit("<m:grow/></m:dPr><m:e>");
            assert("\"/><m:grow/></m:dPr><m:e>"@ =~= "\"/>"@ + "<m:grow/></m:dPr><m:e>"@);
            assert(head =~= shown + "<m:grow/></m:dPr><m:e>"@);
            assert(x =~= shown + ("<m:grow/></m:dPr><m:e>"@ + inner + "</m:e></m:d>"@));
            assert(x.subrange(0, shown.len() as int) =~= shown);
        },
        Err(_) => {},
    }
}

/// `<m:tag>inner</m:tag>`.
pub open spec fn wrap_spec(tag: Seq<char>, inner: Seq<char>) -> Seq<char> {
    "<m:"@ + tag + ">"@ + inner + "</m:"@ + tag + ">"@
}

/// `a` and then `b`, as far as neither is refused (the first refusal wins).
pub open spec fn then(a: Result<Seq<char>, Seq<char>>, b: Result<Seq<char>, Seq<char>>) -> Result<Seq<char>, Seq<char>> {
    match a {
        Ok(x) => match b {
            Ok(y) => Ok(x + y),
            Err(e) => Err(e),
        },
        Err(e) => Err(e),
    }
}

/// `r` wrapped between `before` and `after`, unless it is refused.
pub open spec fn around(before: Seq<char>, r: Result<Seq<char>, Seq<char>>, after: Seq<char>) -> Result<Seq<char>, Seq<char>> {
    match r {
        Ok(x) => Ok(before + x + after),
        Err(e) => Err(e),
    }
}

/// Whether a `mspace` of node `i` has a width, and so prints as a space.
pub open spec fn wide_space(nodes: Seq<MathNodeView>, i: int) -> bool {
    attr_of(nodes, i, "width"@) matches Some(w) && !(w.len() > 0 && w[0] == '0')
}

/// The reason the rules of a table are refused.
pub open spec fn rule_reason() -> Seq<char> {
    "Word cannot draw rules inside an equation, so a `|` column or `\\hline` would print as an unruled grid"@
}

/// The OMML node `i` renders to, or why it cannot be.
pub open spec fn render_spec(nodes: Seq<MathNodeView>, i: int) -> Result<Seq<char>, Seq<char>>
    decreases nodes.len() - i, 10nat, 0nat,
{
    if !(0 <= i < nodes.len()) {
        Err(Seq::empty())
    } else {
        let n = nodes[i];
        if !n.element {
            Ok(math_run_spec(n.text, false))
        } else if named(n, "mi"@) || named(n, "mn"@) || named(n, "mtext"@) || named(n, "mo"@) {
            Ok(math_run_spec(n.text, named(n, "mi"@) && n.text.len() == 1))
        } else if named(n, "mrow"@) || named(n, "mstyle"@) || named(n, "semantics"@) {
            match (if named(n, "mrow"@) { fences_spec(nodes, i) } else { None }) {
                Some((open, close)) => delimited_spec(nodes, i, open, close),
                None => children_render_spec(nodes, i),
            }
        } else if named(n, "mfrac"@) {
            fraction_spec(nodes, i)
        } else if named(n, "msup"@) || named(n, "msub"@) || named(n, "msubsup"@) {
            if is_nary_spec(nodes, i) {
                limits_with_operand_spec(nodes, i, None)
            } else {
                scripts_spec(nodes, i)
            }
        } else if named(n, "msqrt"@) || named(n, "mroot"@) {
            radical_spec(nodes, i)
        } else if named(n, "mover"@) || named(n, "munder"@) || named(n, "munderover"@) {
            limits_spec(nodes, i)
        } else if named(n, "mphantom"@) {
            around(
                "<m:phant><m:phantPr><m:show m:val=\"0\"/></m:phantPr><m:e>"@,
                children_render_spec(nodes, i),
                "</m:e></m:phant>"@,
            )
        } else if named(n, "mspace"@) {
            Ok(if wide_space(nodes, i) { math_run_spec(" "@, false) } else { Seq::empty() })
        } else if named(n, "mtable"@) {
            table_spec(nodes, i)
        } else {
            Err("no Word equivalent for <"@ + n.name + ">"@)
        }
    }
}

/// Node `c` rendered as an argument, `<m:e>…</m:e>`.
pub open spec fn argument_spec(nodes: Seq<MathNodeView>, c: int) -> Result<Seq<char>, Seq<char>>
    decreases nodes.len() - c, 11nat, 0nat,
{
    around("<m:e>"@, render_spec(nodes, c), "</m:e>"@)
}

/// The children of node `c` rendered as an argument.
pub open spec fn argument_children_spec(nodes: Seq<MathNodeView>, c: int) -> Result<Seq<char>, Seq<char>>
    decreases nodes.len() - c, 9nat, 0nat,
{
    around("<m:e>"@, children_render_spec(nodes, c), "</m:e>"@)
}

/// Every child of node `i` worth rendering, in order.
pub open spec fn children_render_spec(nodes: Seq<MathNodeView>, i: int) -> Result<Seq<char>, Seq<char>>
    decreases nodes.len() - i, 8nat, 0nat,
{
    proof {
        lemma_children_bounds(nodes, i, nodes[i].children, false);
    }
    sequence_spec(nodes, i, children_spec(nodes, i, false), 0)
}

/// The siblings `children[index..]` of node `parent` in turn, each large
/// operator taking the sibling after it as its operand.
pub open spec fn sequence_spec(nodes: Seq<MathNodeView>, parent: int, children: Seq<usize>, index: int) -> Result<
    Seq<char>,
    Seq<char>,
>
    decreases nodes.len() - parent, 7nat, children.len() - index,
{
    if index < 0 || index >= children.len() {
        Ok(Seq::empty())
    } else {
        let child = children[index] as int;
        if !(parent < child < nodes.len()) {
            Err(Seq::empty())
        } else if is_nary_spec(nodes, child) {
            let operand = if index + 1 < children.len() && children[index + 1] > child && children[index + 1] < nodes.len() {
                Some(children[index + 1] as int)
            } else {
                None
            };
            then(
                limits_with_operand_spec(nodes, child, operand),
                sequence_spec(nodes, parent, children, index + if operand is Some { 2int } else { 1int }),
            )
        } else {
            then(render_spec(nodes, child), sequence_spec(nodes, parent, children, index + 1))
        }
    }
}

/// A fenced group: OMML delimiters around what lies between the fences.
pub open spec fn delimited_spec(nodes: Seq<MathNodeView>, i: int, open: Seq<char>, close: Seq<char>) -> Result<
    Seq<char>,
    Seq<char>,
>
    decreases nodes.len() - i, 9nat, 0nat,
{
    proof {
        lemma_children_bounds(nodes, i, nodes[i].children, true);
    }
    let parts = children_spec(nodes, i, true);
    let contents = if parts.len() >= 2 { parts.subrange(1, parts.len() - 1) } else { Seq::empty() };
    around(
        "<m:d><m:dPr><m:begChr m:val=\""@ + crate::export::escape_xml_spec(open) + "\"/><m:endChr m:val=\""@
            + crate::export::escape_xml_spec(close) + "\"/><m:grow/></m:dPr><m:e>"@,
        sequence_spec(nodes, i, contents, 0),
        "</m:e></m:d>"@,
    )
}

/// A fraction; a zero line thickness (how `\binom` arrives) is bar-less.
pub open spec fn fraction_spec(nodes: Seq<MathNodeView>, i: int) -> Result<Seq<char>, Seq<char>>
    decreases nodes.len() - i, 9nat, 0nat,
{
    proof {
        lemma_children_bounds(nodes, i, nodes[i].children, true);
    }
    let sides = children_spec(nodes, i, true);
    if sides.len() < 2 {
        Err("a fraction needs two parts"@)
    } else {
        let props = if attr_starts(nodes, i, "linethickness"@, '0') {
            "<m:fPr><m:type m:val=\"noBar\"/></m:fPr>"@
        } else {
            "<m:fPr/>"@
        };
        match render_spec(nodes, sides[0] as int) {
            Err(e) => Err(e),
            Ok(num) => match render_spec(nodes, sides[1] as int) {
                Err(e) => Err(e),
                Ok(den) => Ok("<m:f>"@ + props + wrap_spec("num"@, num) + wrap_spec("den"@, den) + "</m:f>"@),
            },
        }
    }
}

/// A super- or subscript, or both.
pub open spec fn scripts_spec(nodes: Seq<MathNodeView>, i: int) -> Result<Seq<char>, Seq<char>>
    decreases nodes.len() - i, 9nat, 0nat,
{
    proof {
        lemma_children_bounds(nodes, i, nodes[i].children, true);
    }
    let sides = children_spec(nodes, i, true);
    if sides.len() == 0 {
        Err("a script needs a base"@)
    } else {
        match argument_spec(nodes, sides[0] as int) {
            Err(e) => Err(e),
            Ok(base) => if sides.len() < 2 {
                Err("a script is missing its exponent"@)
            } else {
                match render_spec(nodes, sides[1] as int) {
                    Err(e) => Err(e),
                    Ok(first) => if named(nodes[i], "msup"@) {
                        Ok(wrap_spec("sSup"@, base + wrap_spec("sup"@, first)))
                    } else if named(nodes[i], "msub"@) {
                        Ok(wrap_spec("sSub"@, base + wrap_spec("sub"@, first)))
                    } else if sides.len() < 3 {
                        Err("a script is missing its exponent"@)
                    } else {
                        match render_spec(nodes, sides[2] as int) {
                            Err(e) => Err(e),
                            Ok(second) => Ok(wrap_spec(
                                "sSubSup"@,
                                base + wrap_spec("sub"@, first) + wrap_spec("sup"@, second),
                            )),
                        }
                    },
                }
            },
        }
    }
}

/// A square or nth root; a square root hides its degree.
pub open spec fn radical_spec(nodes: Seq<MathNodeView>, i: int) -> Result<Seq<char>, Seq<char>>
    decreases nodes.len() - i, 9nat, 0nat,
{
    proof {
        lemma_children_bounds(nodes, i, nodes[i].children, true);
    }
    let sides = children_spec(nodes, i, true);
    if sides.len() == 0 {
        Err("a root needs a radicand"@)
    } else {
        match argument_spec(nodes, sides[0] as int) {
            Err(e) => Err(e),
            Ok(body) => {
                let degree = if sides.len() > 1 {
                    around("<m:deg>"@, render_spec(nodes, sides[1] as int), "</m:deg>"@)
                } else {
                    Ok("<m:radPr><m:degHide m:val=\"1\"/></m:radPr><m:deg/>"@)
                };
                match degree {
                    Err(e) => Err(e),
                    Ok(d) => Ok(wrap_spec("rad"@, d + body)),
                }
            },
        }
    }
}

/// A large operator with the expression it applies to, or (when its base
/// is no large operator) a plain limit.
pub open spec fn limits_with_operand_spec(nodes: Seq<MathNodeView>, i: int, operand: Option<int>) -> Result<
    Seq<char>,
    Seq<char>,
>
    decreases nodes.len() - i, 6nat, 0nat,
{
    proof {
        lemma_children_bounds(nodes, i, nodes[i].children, true);
    }
    let sides = children_spec(nodes, i, true);
    match (if sides.len() > 0 { nary_op_spec(nodes, sides[0] as int) } else { None }) {
        Some(op) => nary_spec(nodes, i, op, operand),
        None => limits_spec(nodes, i),
    }
}

/// Something set above and/or below a base: an accent, a large operator
/// with its limits, or a plain under/over script.
pub open spec fn limits_spec(nodes: Seq<MathNodeView>, i: int) -> Result<Seq<char>, Seq<char>>
    decreases nodes.len() - i, 5nat, 0nat,
{
    proof {
        lemma_children_bounds(nodes, i, nodes[i].children, true);
    }
    let sides = children_spec(nodes, i, true);
    if sides.len() == 0 {
        Err("a limit needs a base"@)
    } else if attr_is(nodes, i, "accent"@, "true"@) {
        if sides.len() < 2 || !nodes[sides[1] as int].has_text {
            Err("an accent is missing its mark"@)
        } else {
            let mark = crate::text::trim_spec(nodes[sides[1] as int].text);
            around(
                "<m:acc><m:accPr><m:chr m:val=\""@ + crate::export::escape_xml_spec(mark) + "\"/></m:accPr>"@,
                argument_spec(nodes, sides[0] as int),
                "</m:acc>"@,
            )
        }
    } else if nary_op_spec(nodes, sides[0] as int) is Some {
        nary_spec(nodes, i, nary_op_spec(nodes, sides[0] as int)->0, None)
    } else if named(nodes[i], "munderover"@) {
        Err("an over- and under-script on the same base has no Word equivalent"@)
    } else {
        match argument_spec(nodes, sides[0] as int) {
            Err(e) => Err(e),
            Ok(body) => if sides.len() < 2 {
                Err("a limit is missing its script"@)
            } else {
                let tag = if named(nodes[i], "munder"@) { "limLow"@ } else { "limUpp"@ };
                match render_spec(nodes, sides[1] as int) {
                    Err(e) => Err(e),
                    Ok(inner) => Ok(wrap_spec(tag, body + wrap_spec("lim"@, inner))),
                }
            },
        }
    }
}

/// `\sum_{i=1}^{n}` and friends as one n-ary object: limits above and below
/// for the under/over shapes, beside for the script shapes; an empty limit is
/// hidden rather than drawn as a placeholder box.
pub open spec fn nary_spec(nodes: Seq<MathNodeView>, i: int, operator: Seq<char>, operand: Option<int>) -> Result<
    Seq<char>,
    Seq<char>,
>
    decreases nodes.len() - i, 4nat, 0nat,
{
    proof {
        lemma_children_bounds(nodes, i, nodes[i].children, true);
    }
    let sides = children_spec(nodes, i, true);
    let under = !(named(nodes[i], "mover"@) || named(nodes[i], "msup"@));
    let both = named(nodes[i], "munderover"@) || named(nodes[i], "msubsup"@);
    let sub_part: Option<int> = if (both || under) && sides.len() > 1 { Some(sides[1] as int) } else { None };
    let sup_part: Option<int> = if both {
        if sides.len() > 2 { Some(sides[2] as int) } else { None }
    } else if under {
        None
    } else if sides.len() > 1 {
        Some(sides[1] as int)
    } else {
        None
    };
    let sub = match sub_part {
        Some(k) => around("<m:sub>"@, render_spec(nodes, k), "</m:sub>"@),
        None => Ok("<m:sub/>"@),
    };
    let sup = match sup_part {
        Some(k) => around("<m:sup>"@, render_spec(nodes, k), "</m:sup>"@),
        None => Ok("<m:sup/>"@),
    };
    let location = if named(nodes[i], "mover"@) || named(nodes[i], "munder"@) || named(nodes[i], "munderover"@) {
        "undOvr"@
    } else {
        "subSup"@
    };
    let body = match operand {
        Some(o) => if i < o < nodes.len() { argument_spec(nodes, o) } else { Err(Seq::empty()) },
        None => Ok("<m:e/>"@),
    };
    let props = "<m:nary><m:naryPr><m:chr m:val=\""@ + crate::export::escape_xml_spec(operator) + "\"/><m:limLoc m:val=\""@
        + location + "\"/><m:subHide m:val=\""@ + (if sub_part is None { "1"@ } else { "0"@ })
        + "\"/><m:supHide m:val=\""@ + (if sup_part is None { "1"@ } else { "0"@ }) + "\"/></m:naryPr>"@;
    around(props, then(then(sub, sup), body), "</m:nary>"@)
}

/// How cell `c` of a table's first row is justified.
pub open spec fn justify_spec(nodes: Seq<MathNodeView>, c: int) -> Seq<char> {
    if attr_contains(nodes, c, "style"@, "text-align: right"@) {
        "right"@
    } else if attr_contains(nodes, c, "style"@, "text-align: left"@) {
        "left"@
    } else {
        "center"@
    }
}

/// The column properties of a table whose first row has `cells`.
pub open spec fn columns_spec(nodes: Seq<MathNodeView>, cells: Seq<usize>) -> Seq<char>
    decreases cells.len(),
{
    if cells.len() == 0 {
        Seq::empty()
    } else {
        columns_spec(nodes, cells.drop_last()) + "<m:mc><m:mcPr><m:count m:val=\"1\"/><m:mcJc m:val=\""@
            + justify_spec(nodes, cells.last() as int) + "\"/></m:mcPr></m:mc>"@
    }
}

/// The cells `cells[c..]` of a table row, each as an argument; a cell with
/// a border is refused.
pub open spec fn cells_spec(nodes: Seq<MathNodeView>, i: int, row: int, cells: Seq<usize>, c: int) -> Result<
    Seq<char>,
    Seq<char>,
>
    decreases nodes.len() - i, 7nat, cells.len() - c,
{
    if c < 0 || c >= cells.len() {
        Ok(Seq::empty())
    } else {
        let cell = cells[c] as int;
        if !(i < cell < nodes.len()) {
            Err(Seq::empty())
        } else if attr_contains(nodes, cell, "style"@, "border"@) {
            Err(rule_reason())
        } else {
            then(argument_children_spec(nodes, cell), cells_spec(nodes, i, row, cells, c + 1))
        }
    }
}

/// The rows `rows[r..]` of a table.
pub open spec fn rows_spec(nodes: Seq<MathNodeView>, i: int, rows: Seq<usize>, r: int) -> Result<Seq<char>, Seq<char>>
    decreases nodes.len() - i, 8nat, rows.len() - r,
{
    proof {
        if 0 <= r < rows.len() && rows[r] < nodes.len() {
            lemma_children_bounds(nodes, rows[r] as int, nodes[rows[r] as int].children, true);
        }
    }
    if r < 0 || r >= rows.len() {
        Ok(Seq::empty())
    } else {
        let row = rows[r] as int;
        if !(i < row < nodes.len()) {
            Err(Seq::empty())
        } else {
            then(
                around("<m:mr>"@, cells_spec(nodes, i, row, children_spec(nodes, row, true), 0), "</m:mr>"@),
                rows_spec(nodes, i, rows, r + 1),
            )
        }
    }
}

/// A matrix or aligned block; a column rule or `\hline` is refused rather
/// than dropped, since OMML cannot draw one.
pub open spec fn table_spec(nodes: Seq<MathNodeView>, i: int) -> Result<Seq<char>, Seq<char>>
    decreases nodes.len() - i, 9nat, 0nat,
{
    proof {
        lemma_children_bounds(nodes, i, nodes[i].children, true);
    }
    let rows = children_spec(nodes, i, true);
    let columns = if rows.len() > 0 && rows[0] < nodes.len() {
        columns_spec(nodes, children_spec(nodes, rows[0] as int, true))
    } else {
        Seq::empty()
    };
    around(
        "<m:m><m:mPr><m:baseJc m:val=\"center\"/><m:plcHide m:val=\"1\"/><m:mcs>"@ + columns
            + "</m:mcs></m:mPr>"@,
        rows_spec(nodes, i, rows, 0),
        "</m:m>"@,
    )
}

// ---------------------------------------------------------------------------
// Rendering
// ---------------------------------------------------------------------------

/// Whether `res` is what the specification `spec` says: the same OMML, or a
/// refusal of `latex` for the same reason.
pub open spec fn agrees(res: Result<String, Error>, spec: Result<Seq<char>, Seq<char>>, latex: Seq<char>) -> bool {
    match spec {
        Ok(s) => res matches Ok(x) && x@ == s,
        Err(r) => res matches Err(Error::UnsupportedMath { latex: l, reason: m }) && l@ == latex && m@ == r,
    }
}

/// Whether node `i` of `nodes` names the element `name`.
fn is_named(nodes: &Vec<MathNode>, i: usize, name: &str) -> (res: bool)
    requires
        i < nodes@.len(),
    ensures
        res == named(view_nodes(nodes@)[i as int], name@),
{
    nodes[i].element && str_eq(nodes[i].name.as_str(), name)
}

/// The value of the first attribute of node `i` named `key`.
fn attribute(nodes: &Vec<MathNode>, i: usize, key: &str) -> (res: Option<String>)
    requires
        i < nodes@.len(),
    ensures
        match attr_of(view_nodes(nodes@), i as int, key@) {
            Some(v) => res matches Some(x) && x@ == v,
            None => res is None,
        },
{
    let attrs = &nodes[i].attrs;
    let ghost view = view_nodes(nodes@)[i as int].attrs;
    assert(view =~= attrs@.map_values(|a: (String, String)| (a.0@, a.1@)));
    let mut k: usize = 0;
    assert(view.skip(0) =~= view);
    while k < attrs.len()
        invariant
            k <= attrs@.len(),
            view == attrs@.map_values(|a: (String, String)| (a.0@, a.1@)),
            view == view_nodes(nodes@)[i as int].attrs,
            attr_spec(view, key@) == attr_spec(view.skip(k as int), key@),
        decreases attrs@.len() - k,
    {
        assert(view.skip(k as int)[0] == view[k as int]);
        assert(view.skip(k as int).skip(1) =~= view.skip(k + 1));
        if str_eq(attrs[k].0.as_str(), key) {
            return Some(attrs[k].1.clone());
        }
        k = k + 1;
    }
    None
}

/// Whether node `i` has attribute `key` with exactly `value`.
fn attribute_is(nodes: &Vec<MathNode>, i: usize, key: &str, value: &str) -> (res: bool)
    requires
        i < nodes@.len(),
    ensures
        res == attr_is(view_nodes(nodes@), i as int, key@, value@),
{
    match attribute(nodes, i, key) {
        Some(v) => str_eq(v.as_str(), value),
        None => false,
    }
}

/// Whether node `i` has attribute `key` and its value starts with `prefix`.
fn attribute_starts(nodes: &Vec<MathNode>, i: usize, key: &str, prefix: char) -> (res: bool)
    requires
        i < nodes@.len(),
    ensures
        res == attr_starts(view_nodes(nodes@), i as int, key@, prefix),
{
    match attribute(nodes, i, key) {
        Some(v) => {
            let chars = crate::text::str_chars(v.as_str());
            chars.len() > 0 && chars[0] == prefix
        },
        None => false,
    }
}

/// Whether node `i` has attribute `key` and its value contains `piece`.
fn attribute_contains(nodes: &Vec<MathNode>, i: usize, key: &str, piece: &str) -> (res: bool)
    requires
        i < nodes@.len(),
    ensures
        res == attr_contains(view_nodes(nodes@), i as int, key@, piece@),
{
    match attribute(nodes, i, key) {
        Some(v) => {
            let chars = crate::text::str_chars(v.as_str());
            let pat = crate::text::str_chars(piece);
            let found = crate::text::find_from(&chars, &pat, 0);
            proof {
                if found is None {
                    assert forall|j: int| !crate::text::occurs_at(v@, piece@, j) by {
                        if j >= 0 {
                            assert(!crate::text::occurs_at(chars@, pat@, j));
                        }
                    }
                }
            }
            found.is_some()
        },
        None => false,
    }
}

/// The children of node `i` that come after it in the document, optionally
/// only the elements, otherwise those worth rendering (elements and
/// non-blank text).
fn children_of(nodes: &Vec<MathNode>, i: usize, elements_only: bool) -> (res: Vec<usize>)
    requires
        i < nodes@.len(),
    ensures
        res@ == children_spec(view_nodes(nodes@), i as int, elements_only),
        forall|k: int| 0 <= k < res@.len() ==> i < #[trigger] res@[k] < nodes@.len(),
{
    let ghost view = view_nodes(nodes@);
    let children = &nodes[i].children;
    assert(children@ == view[i as int].children);
    let mut out: Vec<usize> = Vec::new();
    let mut k: usize = 0;
    while k < children.len()
        invariant
            k <= children@.len(),
            i < nodes@.len(),
            view == view_nodes(nodes@),
            children@ == view[i as int].children,
            out@ == filter_children(view, i as int, children@.take(k as int), elements_only),
        decreases children@.len() - k,
    {
        assert(children@.take(k + 1).drop_last() =~= children@.take(k as int));
        assert(children@.take(k + 1).last() == children@[k as int]);
        let c = children[k];
        if i < c && c < nodes.len() {
            let keep = if elements_only {
                nodes[c].element
            } else {
                nodes[c].element || !is_blank(node_text(&nodes[c]))
            };
            if keep {
                out.push(c);
            }
        }
        k = k + 1;
    }
    assert(children@.take(k as int) =~= children@);
    proof {
        lemma_children_bounds(view, i as int, children@, elements_only);
    }
    out
}

/// Whether `text` is one of the large operators.
fn is_nary_char(text: &str) -> (res: bool)
    ensures
        res == is_nary_text(text@),
{
    str_eq(text, "∑") || str_eq(text, "∏") || str_eq(text, "∐") || str_eq(text, "∫") || str_eq(
        text,
        "∮",
    ) || str_eq(text, "⋃") || str_eq(text, "⋂") || str_eq(text, "⨁") || str_eq(text, "⨂")
        || str_eq(text, "⨀") || str_eq(text, "⋀") || str_eq(text, "⋁")
}

/// The operator character if node `i` is a large operator.
fn nary_operator(nodes: &Vec<MathNode>, i: usize) -> (res: Option<String>)
    requires
        i < nodes@.len(),
    ensures
        match nary_op_spec(view_nodes(nodes@), i as int) {
            Some(t) => res matches Some(x) && x@ == t,
            None => res is None,
        },
{
    if !is_named(nodes, i, "mo") {
        return None;
    }
    let text = trim_str(node_text(&nodes[i]));
    if is_nary_char(text.as_str()) {
        Some(text)
    } else {
        None
    }
}

/// Whether node `i` is a scripted large operator, e.g. `\sum_{i=1}^{n}`.
fn is_nary(nodes: &Vec<MathNode>, i: usize) -> (res: bool)
    requires
        i < nodes@.len(),
    ensures
        res == is_nary_spec(view_nodes(nodes@), i as int),
{
    let scripted = is_named(nodes, i, "mover") || is_named(nodes, i, "munder") || is_named(
        nodes,
        i,
        "munderover",
    ) || is_named(nodes, i, "msub") || is_named(nodes, i, "msup") || is_named(nodes, i, "msubsup");
    if !scripted || attribute_is(nodes, i, "accent", "true") || attribute_is(nodes, i, "accentunder", "true") {
        return false;
    }
    let parts = children_of(nodes, i, true);
    parts.len() > 0 && nary_operator(nodes, parts[0]).is_some()
}

/// Whether node `i` is a stretchy delimiter.
fn is_fence(nodes: &Vec<MathNode>, i: usize) -> (res: bool)
    requires
        i < nodes@.len(),
    ensures
        res == is_fence_spec(view_nodes(nodes@), i as int),
{
    is_named(nodes, i, "mo") && !attribute_is(nodes, i, "stretchy", "false")
}

/// A delimiter's character, or nothing for an invisible one (U+2061 to
/// U+2064, as `\left.` arrives).
fn fence_char(nodes: &Vec<MathNode>, i: usize) -> (res: String)
    requires
        i < nodes@.len(),
    ensures
        res@ == fence_char_spec(view_nodes(nodes@), i as int),
{
    let text = trim_str(node_text(&nodes[i]));
    let chars = crate::text::str_chars(text.as_str());
    let mut k: usize = 0;
    let mut invisible = true;
    while k < chars.len()
        invariant
            k <= chars@.len(),
            invisible == forall|j: int| 0 <= j < k ==> '\u{2061}' <= #[trigger] chars@[j] <= '\u{2064}',
        decreases chars@.len() - k,
    {
        if !('\u{2061}' <= chars[k] && chars[k] <= '\u{2064}') {
            invisible = false;
        }
        k = k + 1;
    }
    if invisible {
        String::new()
    } else {
        text
    }
}

/// Wrap `inner` in `<m:tag>…</m:tag>`.
fn wrap(tag: &str, inner: &str) -> (res: String)
    ensures
        res@ == wrap_spec(tag@, inner@),
{
    let mut out: Vec<char> = Vec::new();
    extend_str(&mut out, "<m:");
    extend_str(&mut out, tag);
    extend_str(&mut out, ">");
    extend_str(&mut out, inner);
    extend_str(&mut out, "</m:");
    extend_str(&mut out, tag);
    extend_str(&mut out, ">");
    assert(out@ =~= wrap_spec(tag@, inner@));
    string_from_chars(&out)
}

/// `a` and then `b`.
fn concat2(a: &str, b: &str) -> (res: String)
    ensures
        res@ == a@ + b@,
{
    let mut out: Vec<char> = Vec::new();
    extend_str(&mut out, a);
    extend_str(&mut out, b);
    string_from_chars(&out)
}

/// `a`, `b` and `c`, one after another.
fn concat3(a: &str, b: &str, c: &str) -> (res: String)
    ensures
        res@ == a@ + b@ + c@,
{
    let mut out: Vec<char> = Vec::new();
    extend_str(&mut out, a);
    extend_str(&mut out, b);
    extend_str(&mut out, c);
    string_from_chars(&out)
}

/// Render node `c` wrapped as an argument, `<m:e>…</m:e>`.
fn argument(nodes: &Vec<MathNode>, c: usize, latex: &str) -> (res: Result<String, Error>)
    requires
        c < nodes@.len(),
    ensures
        agrees(res, argument_spec(view_nodes(nodes@), c as int), latex@),
    decreases nodes@.len() - c, 11nat,
{
    let inner = render(nodes, c, latex)?;
    let out = concat3("<m:e>", inner.as_str(), "</m:e>");
    Ok(out)
}

/// Render the children of node `c` wrapped as an argument.
fn argument_children(nodes: &Vec<MathNode>, c: usize, latex: &str) -> (res: Result<String, Error>)
    requires
        c < nodes@.len(),
    ensures
        agrees(res, argument_children_spec(view_nodes(nodes@), c as int), latex@),
    decreases nodes@.len() - c, 9nat,
{
    let inner = render_children(nodes, c, latex)?;
    Ok(concat3("<m:e>", inner.as_str(), "</m:e>"))
}

/// Render every child of node `i` worth rendering.
fn render_children(nodes: &Vec<MathNode>, i: usize, latex: &str) -> (res: Result<String, Error>)
    requires
        i < nodes@.len(),
    ensures
        agrees(res, children_render_spec(view_nodes(nodes@), i as int), latex@),
    decreases nodes@.len() - i, 8nat,
{
    let children = children_of(nodes, i, false);
    render_sequence(nodes, i, &children, latex)
}

/// `prefix` before what `rest` renders to.
pub open spec fn prefixed(prefix: Seq<char>, rest: Result<Seq<char>, Seq<char>>) -> Result<Seq<char>, Seq<char>> {
    match rest {
        Ok(r) => Ok(prefix + r),
        Err(e) => Err(e),
    }
}

/// Render a run of siblings (children of node `parent`), giving each large
/// operator the expression that follows it as its operand: MathML leaves that
/// expression a sibling, OMML nests it, and an n-ary left empty prints an
/// empty placeholder box.
fn render_sequence(nodes: &Vec<MathNode>, parent: usize, children: &Vec<usize>, latex: &str) -> (res:
    Result<String, Error>)
    requires
        parent < nodes@.len(),
        forall|k: int| 0 <= k < children@.len() ==> parent < #[trigger] children@[k] < nodes@.len(),
    ensures
        agrees(res, sequence_spec(view_nodes(nodes@), parent as int, children@, 0), latex@),
    decreases nodes@.len() - parent, 7nat,
{
    let ghost view = view_nodes(nodes@);
    let mut out: Vec<char> = Vec::new();
    let mut index: usize = 0;
    while index < children.len()
        invariant
            index <= children@.len(),
            parent < nodes@.len(),
            view == view_nodes(nodes@),
            forall|k: int| 0 <= k < children@.len() ==> parent < #[trigger] children@[k] < nodes@.len(),
            sequence_spec(view, parent as int, children@, 0) == prefixed(
                out@,
                sequence_spec(view, parent as int, children@, index as int),
            ),
        decreases children@.len() - index,
    {
        let child = children[index];
        if is_nary(nodes, child) {
            let operand = if index + 1 < children.len() && children[index + 1] > child {
                Some(children[index + 1])
            } else {
                None
            };
            let ghost spec_operand = match operand {
                Some(o) => Some(o as int),
                None => None::<int>,
            };
            let xml = render_limits_with_operand(nodes, child, operand, latex)?;
            let ghost before = out@;
            let next: usize = index + if operand.is_some() { 2 } else { 1 };
            proof {
                let rest = sequence_spec(view, parent as int, children@, next as int);
                assert(sequence_spec(view, parent as int, children@, index as int) == then(
                    limits_with_operand_spec(view, child as int, spec_operand),
                    rest,
                ));
                if let Ok(r) = rest {
                    assert(before + (xml@ + r) =~= (before + xml@) + r);
                }
            }
            extend_str(&mut out, xml.as_str());
            index = next;
        } else {
            let xml = render(nodes, child, latex)?;
            let ghost before = out@;
            proof {
                let rest = sequence_spec(view, parent as int, children@, index + 1);
                assert(sequence_spec(view, parent as int, children@, index as int) == then(
                    render_spec(view, child as int),
                    rest,
                ));
                if let Ok(r) = rest {
                    assert(before + (xml@ + r) =~= (before + xml@) + r);
                }
            }
            extend_str(&mut out, xml.as_str());
            index = index + 1;
        }
    }
    assert(out@ + Seq::<char>::empty() =~= out@);
    Ok(string_from_chars(&out))
}

/// Render one MathML node.
fn render(nodes: &Vec<MathNode>, i: usize, latex: &str) -> (res: Result<String, Error>)
    requires
        i < nodes@.len(),
    ensures
        agrees(res, render_spec(view_nodes(nodes@), i as int), latex@),
    decreases nodes@.len() - i, 10nat,
{
    if !nodes[i].element {
        return Ok(math_run(node_text(&nodes[i]), false));
    }
    if is_named(nodes, i, "mi") || is_named(nodes, i, "mn") || is_named(nodes, i, "mtext")
        || is_named(nodes, i, "mo") {
        let text = node_text(&nodes[i]);
        let italic = is_named(nodes, i, "mi") && crate::text::str_chars(text).len() == 1;
        return Ok(math_run(text, italic));
    }
    if is_named(nodes, i, "mrow") || is_named(nodes, i, "mstyle") || is_named(nodes, i, "semantics") {
        if is_named(nodes, i, "mrow") {
            match fences(nodes, i) {
                Some((open, close)) => return render_delimited(nodes, i, open, close, latex),
                None => {},
            }
        }
        return render_children(nodes, i, latex);
    }
    if is_named(nodes, i, "mfrac") {
        return render_fraction(nodes, i, latex);
    }
    if is_named(nodes, i, "msup") || is_named(nodes, i, "msub") || is_named(nodes, i, "msubsup") {
        if is_nary(nodes, i) {
            return render_limits_with_operand(nodes, i, None, latex);
        }
        return render_scripts(nodes, i, latex);
    }
    if is_named(nodes, i, "msqrt") || is_named(nodes, i, "mroot") {
        return render_radical(nodes, i, latex);
    }
    if is_named(nodes, i, "mover") || is_named(nodes, i, "munder") || is_named(nodes, i, "munderover") {
        return render_limits(nodes, i, latex);
    }
    if is_named(nodes, i, "mphantom") {
        let inner = render_children(nodes, i, latex)?;
        return Ok(concat3(
            "<m:phant><m:phantPr><m:show m:val=\"0\"/></m:phantPr><m:e>",
            inner.as_str(),
            "</m:e></m:phant>",
        ));
    }
    if is_named(nodes, i, "mspace") {
        // A width-less space rendered as a real one prints as a stray gap.
        let wide = match attribute(nodes, i, "width") {
            Some(w) => {
                let chars = crate::text::str_chars(w.as_str());
                !(chars.len() > 0 && chars[0] == '0')
            },
            None => false,
        };
        return Ok(if wide { math_run(" ", false) } else { String::new() });
    }
    if is_named(nodes, i, "mtable") {
        return render_table(nodes, i, latex);
    }
    let mut reason: Vec<char> = Vec::new();
    extend_str(&mut reason, "no Word equivalent for <");
    extend_str(&mut reason, nodes[i].name.as_str());
    extend_str(&mut reason, ">");
    Err(unsupported(latex, string_from_chars(&reason).as_str()))
}

/// The opening and closing delimiters of node `i`, if it is a fenced group:
/// at least three parts, a stretchy operator at each end.
fn fences(nodes: &Vec<MathNode>, i: usize) -> (res: Option<(String, String)>)
    requires
        i < nodes@.len(),
    ensures
        match fences_spec(view_nodes(nodes@), i as int) {
            Some((o, c)) => res matches Some(p) && p.0@ == o && p.1@ == c,
            None => res is None,
        },
{
    let parts = children_of(nodes, i, true);
    if parts.len() < 3 {
        return None;
    }
    let first = parts[0];
    let last = parts[parts.len() - 1];
    if !is_fence(nodes, first) || !is_fence(nodes, last) {
        return None;
    }
    Some((fence_char(nodes, first), fence_char(nodes, last)))
}

/// Render a fenced group as OMML delimiters, which grow with their content.
fn render_delimited(nodes: &Vec<MathNode>, i: usize, open: String, close: String, latex: &str) -> (res:
    Result<String, Error>)
    requires
        i < nodes@.len(),
    ensures
        agrees(res, delimited_spec(view_nodes(nodes@), i as int, open@, close@), latex@),
    decreases nodes@.len() - i, 9nat,
{
    let parts = children_of(nodes, i, true);
    let mut contents: Vec<usize> = Vec::new();
    let mut k: usize = 1;
    while k < parts.len() && k + 1 < parts.len()
        invariant
            i < nodes@.len(),
            1 <= k,
            k <= parts@.len() || parts@.len() == 0,
            parts@.len() >= 2 ==> k <= parts@.len() - 1,
            contents@ == parts@.subrange(1, k as int) || parts@.len() < 2,
            parts@.len() < 2 ==> contents@.len() == 0,
            forall|j: int| 0 <= j < parts@.len() ==> i < #[trigger] parts@[j] < nodes@.len(),
            forall|j: int| 0 <= j < contents@.len() ==> i < #[trigger] contents@[j] < nodes@.len(),
        decreases parts@.len() - k,
    {
        contents.push(parts[k]);
        k = k + 1;
        assert(contents@ =~= parts@.subrange(1, k as int));
    }
    proof {
        if parts@.len() >= 2 {
            assert(contents@ =~= parts@.subrange(1, parts@.len() - 1));
        } else {
            assert(contents@ =~= Seq::<usize>::empty());
        }
    }
    let inner = render_sequence(nodes, i, &contents, latex)?;
    let mut out: Vec<char> = Vec::new();
    extend_str(&mut out, "<m:d><m:dPr><m:begChr m:val=\"");
    extend_str(&mut out, escape_xml(open.as_str()).as_str());
    extend_str(&mut out, "\"/><m:endChr m:val=\"");
    extend_str(&mut out, escape_xml(close.as_str()).as_str());
    extend_str(&mut out, "\"/><m:grow/></m:dPr><m:e>");
    extend_str(&mut out, inner.as_str());
    extend_str(&mut out, "</m:e></m:d>");
    assert(out@ =~= "<m:d><m:dPr><m:begChr m:val=\""@ + escape_xml_spec(open@) + "\"/><m:endChr m:val=\""@
        + escape_xml_spec(close@) + "\"/><m:grow/></m:dPr><m:e>"@ + inner@ + "</m:e></m:d>"@);
    Ok(string_from_chars(&out))
}

/// Render a fraction; a zero line thickness (how `\binom` arrives) is a
/// bar-less fraction.
fn render_fraction(nodes: &Vec<MathNode>, i: usize, latex: &str) -> (res: Result<String, Error>)
    requires
        i < nodes@.len(),
    ensures
        agrees(res, fraction_spec(view_nodes(nodes@), i as int), latex@),
    decreases nodes@.len() - i, 9nat,
{
    let sides = children_of(nodes, i, true);
    if sides.len() < 2 {
        return Err(unsupported(latex, "a fraction needs two parts"));
    }
    let bar = attribute_starts(nodes, i, "linethickness", '0');
    let num = render(nodes, sides[0], latex)?;
    let den = render(nodes, sides[1], latex)?;
    let mut out: Vec<char> = Vec::new();
    extend_str(&mut out, "<m:f>");
    extend_str(&mut out, if bar { "<m:fPr><m:type m:val=\"noBar\"/></m:fPr>" } else { "<m:fPr/>" });
    extend_str(&mut out, wrap("num", num.as_str()).as_str());
    extend_str(&mut out, wrap("den", den.as_str()).as_str());
    extend_str(&mut out, "</m:f>");
    Ok(string_from_chars(&out))
}

/// Render a super- or subscript, or both.
fn render_scripts(nodes: &Vec<MathNode>, i: usize, latex: &str) -> (res: Result<String, Error>)
    requires
        i < nodes@.len(),
    ensures
        agrees(res, scripts_spec(view_nodes(nodes@), i as int), latex@),
    decreases nodes@.len() - i, 9nat,
{
    let sides = children_of(nodes, i, true);
    if sides.len() == 0 {
        return Err(unsupported(latex, "a script needs a base"));
    }
    let base = argument(nodes, sides[0], latex)?;
    if sides.len() < 2 {
        return Err(unsupported(latex, "a script is missing its exponent"));
    }
    let first = render(nodes, sides[1], latex)?;
    if is_named(nodes, i, "msup") {
        let sup = wrap("sup", first.as_str());
        return Ok(wrap("sSup", concat2(base.as_str(), sup.as_str()).as_str()));
    }
    if is_named(nodes, i, "msub") {
        let sub = wrap("sub", first.as_str());
        return Ok(wrap("sSub", concat2(base.as_str(), sub.as_str()).as_str()));
    }
    if sides.len() < 3 {
        return Err(unsupported(latex, "a script is missing its exponent"));
    }
    let second = render(nodes, sides[2], latex)?;
    let sub = wrap("sub", first.as_str());
    let sup = wrap("sup", second.as_str());
    Ok(wrap("sSubSup", concat3(base.as_str(), sub.as_str(), sup.as_str()).as_str()))
}

/// Render a square or nth root; a square root hides its degree explicitly.
fn render_radical(nodes: &Vec<MathNode>, i: usize, latex: &str) -> (res: Result<String, Error>)
    requires
        i < nodes@.len(),
    ensures
        agrees(res, radical_spec(view_nodes(nodes@), i as int), latex@),
    decreases nodes@.len() - i, 9nat,
{
    let sides = children_of(nodes, i, true);
    if sides.len() == 0 {
        return Err(unsupported(latex, "a root needs a radicand"));
    }
    let body = argument(nodes, sides[0], latex)?;
    let degree = if sides.len() > 1 {
        let inner = render(nodes, sides[1], latex)?;
        concat3("<m:deg>", inner.as_str(), "</m:deg>")
    } else {
        "<m:radPr><m:degHide m:val=\"1\"/></m:radPr><m:deg/>".to_string()
    };
    Ok(wrap("rad", concat2(degree.as_str(), body.as_str()).as_str()))
}

/// Render a large operator together with the expression it applies to.
fn render_limits_with_operand(nodes: &Vec<MathNode>, i: usize, operand: Option<usize>, latex: &str) -> (res:
    Result<String, Error>)
    requires
        i < nodes@.len(),
        operand matches Some(o) ==> i < o < nodes@.len(),
    ensures
        agrees(res, limits_with_operand_spec(view_nodes(nodes@), i as int, match operand {
            Some(o) => Some(o as int),
            None => None,
        }), latex@),
    decreases nodes@.len() - i, 6nat,
{
    let sides = children_of(nodes, i, true);
    let operator = if sides.len() > 0 { nary_operator(nodes, sides[0]) } else { None };
    match operator {
        Some(op) => render_nary(nodes, i, op, operand, latex),
        None => render_limits(nodes, i, latex),
    }
}

/// Render something set above and/or below a base: an accent, a large
/// operator with its limits, or a plain under/over script.
fn render_limits(nodes: &Vec<MathNode>, i: usize, latex: &str) -> (res: Result<String, Error>)
    requires
        i < nodes@.len(),
    ensures
        agrees(res, limits_spec(view_nodes(nodes@), i as int), latex@),
    decreases nodes@.len() - i, 5nat,
{
    let sides = children_of(nodes, i, true);
    if sides.len() == 0 {
        return Err(unsupported(latex, "a limit needs a base"));
    }
    if attribute_is(nodes, i, "accent", "true") {
        if sides.len() < 2 || nodes[sides[1]].text.is_none() {
            return Err(unsupported(latex, "an accent is missing its mark"));
        }
        let mark = trim_str(node_text(&nodes[sides[1]]));
        let body = argument(nodes, sides[0], latex)?;
        let mut out: Vec<char> = Vec::new();
        extend_str(&mut out, "<m:acc><m:accPr><m:chr m:val=\"");
        extend_str(&mut out, escape_xml(mark.as_str()).as_str());
        extend_str(&mut out, "\"/></m:accPr>");
        let ghost head = out@;
        extend_str(&mut out, body.as_str());
        extend_str(&mut out, "</m:acc>");
        assert(out@ =~= head + body@ + "</m:acc>"@);
        return Ok(string_from_chars(&out));
    }
    match nary_operator(nodes, sides[0]) {
        Some(op) => return render_nary(nodes, i, op, None, latex),
        None => {},
    }
    if is_named(nodes, i, "munderover") {
        return Err(unsupported(
            latex,
            "an over- and under-script on the same base has no Word equivalent",
        ));
    }
    let body = argument(nodes, sides[0], latex)?;
    let tag = if is_named(nodes, i, "munder") { "limLow" } else { "limUpp" };
    if sides.len() < 2 {
        return Err(unsupported(latex, "a limit is missing its script"));
    }
    let inner = render(nodes, sides[1], latex)?;
    let lim = wrap("lim", inner.as_str());
    Ok(wrap(tag, concat2(body.as_str(), lim.as_str()).as_str()))
}

/// Render `\sum_{i=1}^{n}` and friends as one n-ary object: limits above and
/// below for the under/over shapes, beside for the script shapes; an empty
/// limit is hidden rather than drawn as a placeholder box.
fn render_nary(nodes: &Vec<MathNode>, i: usize, operator: String, operand: Option<usize>, latex: &str) -> (res:
    Result<String, Error>)
    requires
        i < nodes@.len(),
        operand matches Some(o) ==> i < o < nodes@.len(),
    ensures
        agrees(res, nary_spec(view_nodes(nodes@), i as int, operator@, match operand {
            Some(o) => Some(o as int),
            None => None,
        }), latex@),
    decreases nodes@.len() - i, 4nat,
{
    let sides = children_of(nodes, i, true);
    let under = !(is_named(nodes, i, "mover") || is_named(nodes, i, "msup"));
    let both = is_named(nodes, i, "munderover") || is_named(nodes, i, "msubsup");
    let mut sub_hidden = false;
    let mut sup_hidden = false;
    let sub = if both || under {
        if sides.len() > 1 {
            let inner = render(nodes, sides[1], latex)?;
            concat3("<m:sub>", inner.as_str(), "</m:sub>")
        } else {
            sub_hidden = true;
            "<m:sub/>".to_string()
        }
    } else {
        sub_hidden = true;
        "<m:sub/>".to_string()
    };
    let sup = if both {
        if sides.len() > 2 {
            let inner = render(nodes, sides[2], latex)?;
            concat3("<m:sup>", inner.as_str(), "</m:sup>")
        } else {
            sup_hidden = true;
            "<m:sup/>".to_string()
        }
    } else if under {
        sup_hidden = true;
        "<m:sup/>".to_string()
    } else if sides.len() > 1 {
        let inner = render(nodes, sides[1], latex)?;
        concat3("<m:sup>", inner.as_str(), "</m:sup>")
    } else {
        sup_hidden = true;
        "<m:sup/>".to_string()
    };
    let location = if is_named(nodes, i, "mover") || is_named(nodes, i, "munder") || is_named(
        nodes,
        i,
        "munderover",
    ) {
        "undOvr"
    } else {
        "subSup"
    };
    let body = match operand {
        Some(o) => argument(nodes, o, latex)?,
        None => "<m:e/>".to_string(),
    };
    let mut out: Vec<char> = Vec::new();
    extend_str(&mut out, "<m:nary><m:naryPr><m:chr m:val=\"");
    extend_str(&mut out, escape_xml(operator.as_str()).as_str());
    extend_str(&mut out, "\"/><m:limLoc m:val=\"");
    extend_str(&mut out, location);
    extend_str(&mut out, "\"/><m:subHide m:val=\"");
    extend_str(&mut out, if sub_hidden { "1" } else { "0" });
    extend_str(&mut out, "\"/><m:supHide m:val=\"");
    extend_str(&mut out, if sup_hidden { "1" } else { "0" });
    extend_str(&mut out, "\"/></m:naryPr>");
    let ghost head = out@;
    extend_str(&mut out, sub.as_str());
    extend_str(&mut out, sup.as_str());
    extend_str(&mut out, body.as_str());
    extend_str(&mut out, "</m:nary>");
    assert(out@ =~= head + (sub@ + sup@ + body@) + "</m:nary>"@);
    Ok(string_from_chars(&out))
}

/// The column properties of a table whose first row has `cells`.
fn columns(nodes: &Vec<MathNode>, cells: &Vec<usize>) -> (res: Vec<char>)
    requires
        forall|j: int| 0 <= j < cells@.len() ==> #[trigger] cells@[j] < nodes@.len(),
    ensures
        res@ == columns_spec(view_nodes(nodes@), cells@),
{
    let mut alignment: Vec<char> = Vec::new();
    let mut c: usize = 0;
    while c < cells.len()
        invariant
            c <= cells@.len(),
            forall|j: int| 0 <= j < cells@.len() ==> #[trigger] cells@[j] < nodes@.len(),
            alignment@ == columns_spec(view_nodes(nodes@), cells@.take(c as int)),
        decreases cells@.len() - c,
    {
        assert(cells@.take(c + 1).drop_last() =~= cells@.take(c as int));
        assert(cells@.take(c + 1).last() == cells@[c as int]);
        let justify = if attribute_contains(nodes, cells[c], "style", "text-align: right") {
            "right"
        } else if attribute_contains(nodes, cells[c], "style", "text-align: left") {
            "left"
        } else {
            "center"
        };
        extend_str(&mut alignment, "<m:mc><m:mcPr><m:count m:val=\"1\"/><m:mcJc m:val=\"");
        extend_str(&mut alignment, justify);
        extend_str(&mut alignment, "\"/></m:mcPr></m:mc>");
        c = c + 1;
    }
    assert(cells@.take(c as int) =~= cells@);
    alignment
}

/// One step of [`cells_spec`]: cell `c` inside the document.
proof fn lemma_cells_step(view: Seq<MathNodeView>, i: int, row: int, cells: Seq<usize>, c: int)
    requires
        0 <= c < cells.len(),
        i < cells[c] < view.len(),
    ensures
        cells_spec(view, i, row, cells, c) == if attr_contains(view, cells[c] as int, "style"@, "border"@) {
            Err(rule_reason())
        } else {
            then(argument_children_spec(view, cells[c] as int), cells_spec(view, i, row, cells, c + 1))
        },
{
}

/// Render the cells of one table row, in order.
#[verifier::rlimit(40)]
fn render_cells(nodes: &Vec<MathNode>, i: usize, row: usize, latex: &str) -> (res: Result<String, Error>)
    requires
        i < row < nodes@.len(),
    ensures
        agrees(res, cells_spec(view_nodes(nodes@), i as int, row as int, children_spec(view_nodes(nodes@), row as int, true), 0), latex@),
    decreases nodes@.len() - i, 8nat,
{
    let ghost view = view_nodes(nodes@);
    let cells = children_of(nodes, row, true);
    let ghost all = cells@;
    let mut body: Vec<char> = Vec::new();
    let mut c: usize = 0;
    while c < cells.len()
        invariant
            c <= cells@.len(),
            i < row < nodes@.len(),
            view == view_nodes(nodes@),
            all == cells@,
            all == children_spec(view, row as int, true),
            forall|j: int| 0 <= j < cells@.len() ==> row < #[trigger] cells@[j] < nodes@.len(),
            cells_spec(view, i as int, row as int, all, 0) == prefixed(body@, cells_spec(view, i as int, row as int, all, c as int)),
        decreases cells@.len() - c,
    {
        proof {
            lemma_cells_step(view, i as int, row as int, all, c as int);
        }
        if attribute_contains(nodes, cells[c], "style", "border") {
            return Err(unsupported(
                latex,
                "Word cannot draw rules inside an equation, so a `|` column or `\\hline` would print as an unruled grid",
            ));
        }
        let cell = argument_children(nodes, cells[c], latex)?;
        let ghost before = body@;
        proof {
            if let Ok(r) = cells_spec(view, i as int, row as int, all, c + 1) {
                assert(before + (cell@ + r) =~= (before + cell@) + r);
            }
        }
        extend_str(&mut body, cell.as_str());
        c = c + 1;
    }
    assert(body@ + Seq::<char>::empty() =~= body@);
    Ok(string_from_chars(&body))
}

/// Render a matrix or aligned block; a column rule or `\hline` is refused
/// rather than dropped, since OMML cannot draw one.
fn render_table(nodes: &Vec<MathNode>, i: usize, latex: &str) -> (res: Result<String, Error>)
    requires
        i < nodes@.len(),
    ensures
        agrees(res, table_spec(view_nodes(nodes@), i as int), latex@),
    decreases nodes@.len() - i, 9nat,
{
    let ghost view = view_nodes(nodes@);
    let rows = children_of(nodes, i, true);
    let mut body: Vec<char> = Vec::new();
    let mut r: usize = 0;
    while r < rows.len()
        invariant
            r <= rows@.len(),
            i < nodes@.len(),
            view == view_nodes(nodes@),
            forall|j: int| 0 <= j < rows@.len() ==> i < #[trigger] rows@[j] < nodes@.len(),
            rows@ == children_spec(view, i as int, true),
            rows_spec(view, i as int, rows@, 0) == prefixed(body@, rows_spec(view, i as int, rows@, r as int)),
        decreases rows@.len() - r,
    {
        proof {
            let row = rows@[r as int] as int;
            assert(rows_spec(view, i as int, rows@, r as int) == then(
                around("<m:mr>"@, cells_spec(view, i as int, row, children_spec(view, row, true), 0), "</m:mr>"@),
                rows_spec(view, i as int, rows@, r + 1),
            ));
        }
        let cells = render_cells(nodes, i, rows[r], latex)?;
        let ghost before = body@;
        extend_str(&mut body, "<m:mr>");
        extend_str(&mut body, cells.as_str());
        extend_str(&mut body, "</m:mr>");
        proof {
            let piece = "<m:mr>"@ + cells@ + "</m:mr>"@;
            assert(body@ =~= before + piece);
            if let Ok(rest) = rows_spec(view, i as int, rows@, r + 1) {
                assert(before + (piece + rest) =~= (before + piece) + rest);
            }
        }
        r = r + 1;
    }
    let alignment = if rows.len() > 0 {
        let first = children_of(nodes, rows[0], true);
        columns(nodes, &first)
    } else {
        Vec::new()
    };
    let mut out: Vec<char> = Vec::new();
    extend_str(&mut out, "<m:m><m:mPr><m:baseJc m:val=\"center\"/><m:plcHide m:val=\"1\"/><m:mcs>");
    crate::text::extend_chars(&mut out, &alignment);
    extend_str(&mut out, "</m:mcs></m:mPr>");
    let ghost head = out@;
    crate::text::extend_chars(&mut out, &body);
    extend_str(&mut out, "</m:m>");
    proof {
        assert(rows_spec(view, i as int, rows@, 0) == Ok::<Seq<char>, Seq<char>>(body@)) by {
            assert(body@ + Seq::<char>::empty() =~= body@);
        }
        assert(out@ =~= head + body@ + "</m:m>"@);
    }
    Ok(string_from_chars(&out))
}

/// Whether `res` is an OMML fragment: one bare `<m:oMath>` element.
pub open spec fn is_omath(res: Seq<char>) -> bool {
    exists|body: Seq<char>| res == "<m:oMath>"@ + body + "</m:oMath>"@
}

/// What the MathML `mathml` of `latex` converts to: refused when `latex`
/// nests braces too deep or the MathML does not parse or holds no element;
/// else its first element's children as one `<m:oMath>`.
pub open spec fn omml_spec(latex: Seq<char>, mathml: Seq<char>) -> Result<Seq<char>, Seq<char>> {
    if nesting_depth_spec(latex) > MAX_NESTING {
        Err("nested more than 32 deep"@)
    } else {
        match mathml_nodes(mathml) {
            None => Err("the converter's MathML could not be read"@),
            Some(nodes) => tree_spec(nodes),
        }
    }
}

/// What a read MathML tree converts to: its first element's children as one
/// `<m:oMath>`, refused when it holds no element.
pub open spec fn tree_spec(nodes: Seq<MathNodeView>) -> Result<Seq<char>, Seq<char>> {
    if nodes.len() == 0 || children_spec(nodes, 0, true).len() == 0 {
        Err("the converter's MathML could not be read"@)
    } else {
        around("<m:oMath>"@, children_render_spec(nodes, children_spec(nodes, 0, true)[0] as int), "</m:oMath>"@)
    }
}

/// Convert a read MathML tree (its nodes in document order, the document
/// node first) of the LaTeX `latex` to a bare `<m:oMath>` element.
pub fn tree_to_omml(latex: &str, nodes: &Vec<MathNode>) -> (res: Result<String, Error>)
    ensures
        agrees(res, tree_spec(view_nodes(nodes@)), latex@),
        res matches Ok(xml) ==> is_omath(xml@),
{
    if nodes.len() == 0 {
        return Err(unsupported(latex, "the converter's MathML could not be read"));
    }
    let tops = children_of(nodes, 0, true);
    if tops.len() == 0 {
        return Err(unsupported(latex, "the converter's MathML could not be read"));
    }
    let body = render_children(nodes, tops[0], latex)?;
    let xml = concat3("<m:oMath>", body.as_str(), "</m:oMath>");
    assert(xml@ == "<m:oMath>"@ + body@ + "</m:oMath>"@);
    Ok(xml)
}

/// Convert the MathML `mathml` of the LaTeX `latex` to an OMML fragment: a
/// bare `<m:oMath>` element, ready to sit inside a `w:p`.
///
/// `display` selects how the math is set, and nothing more: centring display
/// math on its own line is the paragraph writer's decision.
///
/// Refused, with the LaTeX quoted, when it nests braces more than
/// [`MAX_NESTING`] deep, when the MathML does not parse, or when it uses a
/// construct Word has no way to represent.
pub fn to_omml(latex: &str, display: Display, mathml: &str) -> (res: Result<String, Error>)
    ensures
        agrees(res, omml_spec(latex@, mathml@), latex@),
        res matches Ok(xml) ==> is_omath(xml@),
        math_outcome(res, latex@),
{
    if nesting_depth(latex) > MAX_NESTING {
        return Err(unsupported(latex, "nested more than 32 deep"));
    }
    let nodes = match parse_mathml(mathml) {
        Some(nodes) => nodes,
        None => return Err(unsupported(latex, "the converter's MathML could not be read")),
    };
    proof {
        assert(view_nodes(nodes@) =~= nodes@.map_values(|n: MathNode| n@));
    }
    tree_to_omml(latex, &nodes)
}

/// The MathML supplied for `latex` in `supplied`, the first such pair.
pub open spec fn supplied_mathml(supplied: Seq<(String, String)>, latex: Seq<char>) -> Option<Seq<char>>
    decreases supplied.len(),
{
    if supplied.len() == 0 {
        None
    } else if supplied[0].0@ == latex {
        Some(supplied[0].1@)
    } else {
        supplied_mathml(supplied.skip(1), latex)
    }
}

/// What `latex` converts to with the MathML in `supplied`: refused when
/// none is supplied for it.
pub open spec fn math_spec(supplied: Seq<(String, String)>, latex: Seq<char>) -> Result<Seq<char>, Seq<char>> {
    match supplied_mathml(supplied, latex) {
        Some(mathml) => omml_spec(latex, mathml),
        None => Err("no MathML was supplied for it"@),
    }
}

/// Convert `latex` using the MathML supplied for it in `supplied`; math for
/// which none is supplied is refused.
pub fn math_to_omml(latex: &str, display: Display, supplied: &[(String, String)]) -> (res: Result<
    String,
    Error,
>)
    ensures
        agrees(res, math_spec(supplied@, latex@), latex@),
        res matches Ok(xml) ==> is_omath(xml@),
        math_outcome(res, latex@),
{
    let mut k: usize = 0;
    assert(supplied@.skip(0) =~= supplied@);
    while k < supplied.len()
        invariant
            k <= supplied@.len(),
            supplied_mathml(supplied@, latex@) == supplied_mathml(supplied@.skip(k as int), latex@),
        decreases supplied@.len() - k,
    {
        assert(supplied@.skip(k as int)[0] == supplied@[k as int]);
        if str_eq(supplied[k].0.as_str(), latex) {
            return to_omml(latex, display, supplied[k].1.as_str());
        }
        assert(supplied@.skip(k as int).skip(1) =~= supplied@.skip(k + 1));
        k = k + 1;
    }
    Err(unsupported(latex, "no MathML was supplied for it"))
}

} // verus!
