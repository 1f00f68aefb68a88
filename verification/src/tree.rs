//! Builds the document tree from the annotated ranges of the block parser.
use crate::annot::{Annot, Atom, Comp};
use crate::ast::{
    attrs_entries, attrs_new, heading_free, headings_free, CodeBlock, Delete, DoubleQuoted, Emoji, Emph, Image, Insert, Link, Mark, Para,
    ReferenceDefinition, SoftBreak, Str, Strong, Subscript, Superscript, Tag, Url, Verbatim,
};
use crate::block::Tokenizer;
use crate::patterns::{find, text_bytes};
use crate::text::{
    chars_range, push_char, replace_newlines, replace_newlines_spec, slice_chars, slice_string,
};
use crate::{Document, Match};
use vstd::prelude::*;
use vstd::string::StrSliceExecFns;

verus! {

/// The first position from `i` on whose match is annotated `a`, or the number of matches.
pub open spec fn stop_index(ms: Seq<Match>, i: int, a: Annot) -> int
    decreases ms.len() - i,
{
    if i < 0 || i >= ms.len() {
        ms.len() as int
    } else if ms[i].a == a {
        i
    } else {
        stop_index(ms, i + 1, a)
    }
}

/// The text of the matches from `i` on, up to the first one annotated `a`.
pub open spec fn text_until(text: Seq<u8>, ms: Seq<Match>, i: int, a: Annot) -> Seq<char>
    decreases ms.len() - i,
{
    if i < 0 || i >= ms.len() || ms[i].a == a {
        Seq::empty()
    } else {
        slice_chars(text, ms[i].s as int, ms[i].e as int) + text_until(text, ms, i + 1, a)
    }
}

/// Where the reading goes on after the matches up to the first one annotated `a` from `i`:
/// just past that one, or at the end.
pub open spec fn after_stop(ms: Seq<Match>, i: int, a: Annot) -> int {
    let k = stop_index(ms, i, a);
    if k < ms.len() {
        k + 1
    } else {
        ms.len() as int
    }
}

/// The plain text of tags: strings, soft breaks as line feeds, and the text of every
/// element below a block that holds children.
pub open spec fn string_content(tags: Seq<Tag>) -> Seq<char>
    decreases tags,
{
    if tags.len() == 0 {
        Seq::empty()
    } else {
        let t = tags.last();
        string_content(tags.drop_last()) + match t {
            Tag::SoftBreak(_) => seq!['\n'],
            Tag::Str(s) => s.text@,
            Tag::Para(x) => string_content(x.children@),
            Tag::Link(x) => string_content(x.children@),
            Tag::Image(x) => string_content(x.children@),
            Tag::CodeBlock(x) => string_content(x.children@),
            Tag::Strong(x) => string_content(x.children@),
            Tag::Emph(x) => string_content(x.children@),
            Tag::Insert(x) => string_content(x.children@),
            Tag::Delete(x) => string_content(x.children@),
            Tag::Mark(x) => string_content(x.children@),
            Tag::Superscript(x) => string_content(x.children@),
            Tag::Subscript(x) => string_content(x.children@),
            Tag::Span(x) => string_content(x.children@),
            Tag::DoubleQuoted(x) => string_content(x.children@),
            Tag::Url(x) => string_content(x.children@),
            _ => Seq::empty(),
        }
    }
}

/// The plain text of `tags`: strings, soft breaks as line feeds, and the text of every
/// element below a block that holds children.
pub fn get_string_content(tags: &[Tag]) -> (r: String)
    ensures
        r@ == string_content(tags@),
    decreases tags@,
{
    let mut res = String::new();
    let mut i: usize = 0;
    while i < tags.len()
        invariant
            i <= tags@.len(),
            res@ == string_content(tags@.subrange(0, i as int)),
        decreases tags@.len() - i,
    {
        let ghost before = res@;
        match &tags[i] {
            Tag::SoftBreak(_) => push_char(&mut res, '\n'),
            Tag::Str(s) => res.append(s.text.as_str()),
            Tag::Para(x) => res.append(get_string_content(x.children.as_slice()).as_str()),
            Tag::Link(x) => res.append(get_string_content(x.children.as_slice()).as_str()),
            Tag::Image(x) => res.append(get_string_content(x.children.as_slice()).as_str()),
            Tag::CodeBlock(x) => res.append(get_string_content(x.children.as_slice()).as_str()),
            Tag::Strong(x) => res.append(get_string_content(x.children.as_slice()).as_str()),
            Tag::Emph(x) => res.append(get_string_content(x.children.as_slice()).as_str()),
            Tag::Insert(x) => res.append(get_string_content(x.children.as_slice()).as_str()),
            Tag::Delete(x) => res.append(get_string_content(x.children.as_slice()).as_str()),
            Tag::Mark(x) => res.append(get_string_content(x.children.as_slice()).as_str()),
            Tag::Superscript(x) => res.append(get_string_content(x.children.as_slice()).as_str()),
            Tag::Subscript(x) => res.append(get_string_content(x.children.as_slice()).as_str()),
            Tag::Span(x) => res.append(get_string_content(x.children.as_slice()).as_str()),
            Tag::DoubleQuoted(x) => res.append(get_string_content(x.children.as_slice()).as_str()),
            Tag::Url(x) => res.append(get_string_content(x.children.as_slice()).as_str()),
            _ => {},
        }
        proof {
            let t = tags@.subrange(0, i + 1);
            assert(t.drop_last() =~= tags@.subrange(0, i as int));
            assert(t.last() == tags@[i as int]);
        }
        i = i + 1;
    }
    proof {
        assert(tags@.subrange(0, i as int) =~= tags@);
    }
    res
}

/// Blank lines, image markers and escapes, which the tree leaves out.
pub open spec fn trivia(a: Annot) -> bool {
    a == Annot::Atom(Atom::Blankline) || a == Annot::Atom(Atom::ImageMarker) || a == Annot::Atom(
        Atom::Escape,
    )
}

/// The first position from `i` on that holds no trivia, or the number of matches.
pub open spec fn skip_index(ms: Seq<Match>, i: int) -> int
    decreases ms.len() - i,
{
    if i < 0 || i >= ms.len() || !trivia(ms[i].a) {
        i
    } else {
        skip_index(ms, i + 1)
    }
}

/// Whether `m` is a blank line, an image marker or an escape.
fn is_trivia(m: &Match) -> (r: bool)
    ensures
        r == trivia(m.a),
{
    m.is(Annot::Atom(Atom::Blankline)) || m.is(Annot::Atom(Atom::ImageMarker)) || m.is(
        Annot::Atom(Atom::Escape),
    )
}


/// The elements whose content is a list of elements.
#[derive(PartialEq, Eq, Structural)]
pub enum Elem {
    Para,
    Strong,
    Emph,
    Insert,
    Delete,
    Mark,
    Superscript,
    Subscript,
    DoubleQuoted,
    Span,
}

/// An element of the document as values, with its attributes; `Other` stands for a
/// heading, which the tree never makes.
pub enum Node {
    Elem { kind: Elem, attrs: Seq<(Seq<char>, Seq<char>)>, children: Seq<Node> },
    Link {
        attrs: Seq<(Seq<char>, Seq<char>)>,
        children: Seq<Node>,
        destination: Option<Seq<char>>,
        reference: Option<Seq<char>>,
    },
    Image {
        attrs: Seq<(Seq<char>, Seq<char>)>,
        children: Seq<Node>,
        destination: Option<Seq<char>>,
        reference: Option<Seq<char>>,
    },
    CodeBlock {
        attrs: Seq<(Seq<char>, Seq<char>)>,
        children: Seq<Node>,
        lang: Option<Seq<char>>,
        text: Seq<char>,
    },
    Url { attrs: Seq<(Seq<char>, Seq<char>)>, children: Seq<Node>, destination: Seq<char> },
    SoftBreak { attrs: Seq<(Seq<char>, Seq<char>)> },
    EmDash { attrs: Seq<(Seq<char>, Seq<char>)> },
    EnDash { attrs: Seq<(Seq<char>, Seq<char>)> },
    Verbatim { attrs: Seq<(Seq<char>, Seq<char>)>, text: Seq<char> },
    Str { attrs: Seq<(Seq<char>, Seq<char>)>, text: Seq<char> },
    Emoji { attrs: Seq<(Seq<char>, Seq<char>)>, alias: Seq<char> },
    Other,
}

/// No attributes.
pub open spec fn no_attrs() -> Seq<(Seq<char>, Seq<char>)> {
    Seq::empty()
}

/// A string, if any, as its characters.
pub open spec fn opt_chars(o: Option<String>) -> Option<Seq<char>> {
    match o {
        Some(s) => Some(s@),
        None => None,
    }
}

/// The value of a tag.
pub open spec fn node_of(t: Tag) -> Node
    decreases t,
{
    match t {
        Tag::Para(x) => Node::Elem { kind: Elem::Para, attrs: attrs_entries(x.attrs), children: nodes_of(x.children@) },
        Tag::Link(x) => Node::Link {
            attrs: attrs_entries(x.attrs),
            children: nodes_of(x.children@),
            destination: opt_chars(x.destination),
            reference: opt_chars(x.reference),
        },
        Tag::Image(x) => Node::Image {
            attrs: attrs_entries(x.attrs),
            children: nodes_of(x.children@),
            destination: opt_chars(x.destination),
            reference: opt_chars(x.reference),
        },
        Tag::CodeBlock(x) => Node::CodeBlock {
            attrs: attrs_entries(x.attrs),
            children: nodes_of(x.children@),
            lang: opt_chars(x.lang),
            text: x.text@,
        },
        Tag::Strong(x) => Node::Elem { kind: Elem::Strong, attrs: attrs_entries(x.attrs), children: nodes_of(x.children@) },
        Tag::Emph(x) => Node::Elem { kind: Elem::Emph, attrs: attrs_entries(x.attrs), children: nodes_of(x.children@) },
        Tag::Insert(x) => Node::Elem { kind: Elem::Insert, attrs: attrs_entries(x.attrs), children: nodes_of(x.children@) },
        Tag::Delete(x) => Node::Elem { kind: Elem::Delete, attrs: attrs_entries(x.attrs), children: nodes_of(x.children@) },
        Tag::Mark(x) => Node::Elem { kind: Elem::Mark, attrs: attrs_entries(x.attrs), children: nodes_of(x.children@) },
        Tag::Superscript(x) => Node::Elem { kind: Elem::Superscript, attrs: attrs_entries(x.attrs), children: nodes_of(x.children@) },
        Tag::Subscript(x) => Node::Elem { kind: Elem::Subscript, attrs: attrs_entries(x.attrs), children: nodes_of(x.children@) },
        Tag::DoubleQuoted(x) => Node::Elem { kind: Elem::DoubleQuoted, attrs: attrs_entries(x.attrs), children: nodes_of(x.children@) },
        Tag::Span(x) => Node::Elem { kind: Elem::Span, attrs: attrs_entries(x.attrs), children: nodes_of(x.children@) },
        Tag::Url(x) => Node::Url {
            attrs: attrs_entries(x.attrs),
            children: nodes_of(x.children@),
            destination: x.destination@,
        },
        Tag::SoftBreak(x) => Node::SoftBreak { attrs: attrs_entries(x.attrs) },
        Tag::EmDash(x) => Node::EmDash { attrs: attrs_entries(x.attrs) },
        Tag::EnDash(x) => Node::EnDash { attrs: attrs_entries(x.attrs) },
        Tag::Verbatim(x) => Node::Verbatim { attrs: attrs_entries(x.attrs), text: x.text@ },
        Tag::Str(x) => Node::Str { attrs: attrs_entries(x.attrs), text: x.text@ },
        Tag::Emoji(x) => Node::Emoji { attrs: attrs_entries(x.attrs), alias: x.alias@ },
        Tag::Heading(_) => Node::Other,
    }
}

/// The values of tags.
pub open spec fn nodes_of(tags: Seq<Tag>) -> Seq<Node>
    decreases tags,
{
    if tags.len() == 0 {
        Seq::empty()
    } else {
        nodes_of(tags.drop_last()).push(node_of(tags.last()))
    }
}

/// The plain text of nodes: strings, soft breaks as line feeds, and the text of every
/// element that holds children.
pub open spec fn node_string(ns: Seq<Node>) -> Seq<char>
    decreases ns,
{
    if ns.len() == 0 {
        Seq::empty()
    } else {
        node_string(ns.drop_last()) + match ns.last() {
            Node::SoftBreak { .. } => seq!['\n'],
            Node::Str { text, .. } => text,
            Node::Elem { children, .. } => node_string(children),
            Node::Link { children, .. } => node_string(children),
            Node::Image { children, .. } => node_string(children),
            Node::CodeBlock { children, .. } => node_string(children),
            Node::Url { children, .. } => node_string(children),
            _ => Seq::empty(),
        }
    }
}

/// A node, if any, as a sequence of none or one.
pub open spec fn opt_seq(o: Option<Node>) -> Seq<Node> {
    match o {
        Some(n) => seq![n],
        None => Seq::empty(),
    }
}

/// The reference definitions as a map from key to destination.
pub open spec fn refs_map(refs: Seq<(String, ReferenceDefinition)>) -> Map<Seq<char>, Seq<char>> {
    Map::new(|k: Seq<char>| ref_lookup(refs, k) is Some, |k: Seq<char>| ref_lookup(refs, k)->0)
}

/// Verbatim text less one space before a leading backtick and one after a trailing one.
pub open spec fn trim_verbatim(v: Seq<char>) -> Seq<char> {
    let v1 = if crate::patterns::found(text_bytes(v), "^ +`", 0) && v.len() > 0 {
        v.subrange(1, v.len() as int)
    } else {
        v
    };
    if crate::patterns::found(text_bytes(v1), "` +$", 0) && v1.len() > 0 {
        v1.subrange(0, v1.len() - 1)
    } else {
        v1
    }
}

/// Where a link points, as values.
pub enum DestV {
    Dest(Seq<char>),
    Ref(Seq<char>),
    AutoRef,
}

/// Reading where a link or image points, from `i`: its destination without line breaks,
/// its reference with line breaks as spaces, or its own text when the reference is empty.
pub open spec fn spec_dest(t: Seq<u8>, ms: Seq<Match>, i: int) -> (DestV, int) {
    if i < 0 || i >= ms.len() {
        (DestV::AutoRef, i)
    } else if ms[i].a == Annot::Add(Comp::Destination) {
        (
            DestV::Dest(crate::text::replace_newlines_spec(text_until(t, ms, i + 1, Annot::Sub(Comp::Destination)), ""@)),
            after_stop(ms, i + 1, Annot::Sub(Comp::Destination)),
        )
    } else {
        let r = text_until(t, ms, i + 1, Annot::Sub(Comp::Reference));
        (
            if r.len() == 0 {
                DestV::AutoRef
            } else {
                DestV::Ref(crate::text::replace_newlines_spec(r, " "@))
            },
            after_stop(ms, i + 1, Annot::Sub(Comp::Reference)),
        )
    }
}

/// The pieces of a reference definition's destination from `j`, joined, and where they end.
pub open spec fn ref_values(t: Seq<u8>, ms: Seq<Match>, j: int) -> (Seq<char>, int)
    decreases ms.len() - j,
{
    if 0 <= j < ms.len() && ms[j].a == Annot::Atom(Atom::ReferenceValue) {
        let (rest, k) = ref_values(t, ms, j + 1);
        (slice_chars(t, ms[j].s as int, ms[j].e as int) + rest, k)
    } else {
        (Seq::empty(), j)
    }
}

/// Reading a reference definition from `i` (its key): the position after it and the
/// definitions with the new one.
pub open spec fn spec_refdef(t: Seq<u8>, ms: Seq<Match>, i: int, refs: Map<Seq<char>, Seq<char>>) -> (int, Map<Seq<char>, Seq<char>>) {
    if i < 0 || i >= ms.len() {
        (i, refs)
    } else {
        let key = ms[i];
        let (dest, k) = ref_values(t, ms, i + 1);
        let k2 = if k < ms.len() && ms[k].a == Annot::Sub(Comp::ReferenceDefinition) { k + 1 } else { k };
        let label = if key.s < key.e { slice_chars(t, key.s + 1, key.e - 1) } else { Seq::empty() };
        (k2, refs.insert(label, dest))
    }
}

/// Reading a code block from `j`, after its opening: its language, if given, and its text up
/// to the closing fence.
pub open spec fn spec_code_block(t: Seq<u8>, ms: Seq<Match>, j: int) -> (Node, int) {
    let has_lang = 0 <= j < ms.len() && ms[j].a == Annot::Atom(Atom::CodeLanguage);
    let lang = if has_lang { Some(slice_chars(t, ms[j].s as int, ms[j].e as int)) } else { None };
    let j1 = if has_lang { j + 1 } else { j };
    (
        Node::CodeBlock {
            attrs: no_attrs(),
            children: Seq::empty(),
            lang,
            text: text_until(t, ms, j1, Annot::Sub(Comp::CodeBlock)),
        },
        after_stop(ms, j1, Annot::Sub(Comp::CodeBlock)),
    )
}

/// Reading verbatim text from `j`, after its opening.
pub open spec fn spec_verbatim(t: Seq<u8>, ms: Seq<Match>, j: int) -> (Node, int) {
    (
        Node::Verbatim { attrs: no_attrs(), text: trim_verbatim(text_until(t, ms, j, Annot::Sub(Comp::Verbatim))) },
        after_stop(ms, j, Annot::Sub(Comp::Verbatim)),
    )
}

/// The composites whose content is a list of tags, and the node each makes of it.
pub open spec fn children_node(comp: Comp, cs: Seq<Node>) -> Option<Node> {
    let kind = match comp {
        Comp::Para => Some(Elem::Para),
        Comp::Strong => Some(Elem::Strong),
        Comp::Emph => Some(Elem::Emph),
        Comp::Insert => Some(Elem::Insert),
        Comp::Delete => Some(Elem::Delete),
        Comp::Mark => Some(Elem::Mark),
        Comp::Subscript => Some(Elem::Subscript),
        Comp::Superscript => Some(Elem::Superscript),
        Comp::DoubleQuoted => Some(Elem::DoubleQuoted),
        _ => None,
    };
    match kind {
        Some(k) => Some(Node::Elem { kind: k, attrs: no_attrs(), children: cs }),
        None => None,
    }
}

/// Reading the tag at the first match from `i` that is no trivia: the node it makes, if
/// any, where the reading goes on, and the reference definitions after it.
pub open spec fn spec_get_tag(t: Seq<u8>, ms: Seq<Match>, i: int, refs: Map<Seq<char>, Seq<char>>) -> (Option<Node>, int, Map<Seq<char>, Seq<char>>)
    decreases ms.len() - i, 1int,
{
    let k = skip_index(ms, i);
    if i < 0 || k < i || k >= ms.len() {
        (None, k, refs)
    } else {
        let m = ms[k];
        let j = k + 1;
        match m.a {
            Annot::Add(comp) => if children_node(comp, Seq::empty()) is Some {
                let (cs, j2, r2) = spec_tags_until(t, ms, j, comp, refs);
                (children_node(comp, cs), j2, r2)
            } else if comp == Comp::CodeBlock {
                let (n, j2) = spec_code_block(t, ms, j);
                (Some(n), j2, refs)
            } else if comp == Comp::Verbatim {
                let (n, j2) = spec_verbatim(t, ms, j);
                (Some(n), j2, refs)
            } else if comp == Comp::Linktext || comp == Comp::Imagetext {
                let (n, j2, r2) = spec_link(t, ms, j, refs, comp == Comp::Imagetext);
                (Some(n), j2, r2)
            } else if comp == Comp::Url {
                (
                    Some(
                        Node::Url {
                            attrs: no_attrs(),
                            children: Seq::empty(),
                            destination: text_until(t, ms, j, Annot::Sub(Comp::Url)),
                        },
                    ),
                    after_stop(ms, j, Annot::Sub(Comp::Url)),
                    refs,
                )
            } else if comp == Comp::ReferenceDefinition {
                let (j2, r2) = spec_refdef(t, ms, j, refs);
                (None, j2, r2)
            } else {
                (None, j, refs)
            },
            Annot::Sub(_) => (None, j, refs),
            Annot::Atom(a) => if a == Atom::Str {
                (Some(Node::Str { attrs: no_attrs(), text: slice_chars(t, m.s as int, m.e as int) }), j, refs)
            } else if a == Atom::Emoji {
                (
                    Some(Node::Emoji {
                        attrs: no_attrs(),
                        alias: if m.s < m.e { slice_chars(t, m.s + 1, m.e - 1) } else { Seq::empty() },
                    }),
                    j,
                    refs,
                )
            } else if a == Atom::Softbreak {
                (Some(Node::SoftBreak { attrs: no_attrs() }), j, refs)
            } else {
                (None, j, refs)
            },
        }
    }
}

/// Reading the tags from `i` up to the match that closes `comp`, which is read too.
pub open spec fn spec_tags_until(t: Seq<u8>, ms: Seq<Match>, i: int, comp: Comp, refs: Map<Seq<char>, Seq<char>>) -> (Seq<Node>, int, Map<Seq<char>, Seq<char>>)
    decreases ms.len() - i, 2int,
{
    if i < 0 || i >= ms.len() {
        (Seq::empty(), i, refs)
    } else if ms[i].a == Annot::Sub(comp) {
        (Seq::empty(), i + 1, refs)
    } else {
        let (o, j, r2) = spec_get_tag(t, ms, i, refs);
        if j <= i || j > ms.len() {
            (opt_seq(o), j, r2)
        } else {
            let (rest, k, r3) = spec_tags_until(t, ms, j, comp, r2);
            (opt_seq(o) + rest, k, r3)
        }
    }
}

/// Reading a link or image from `i`, after its opening: its text, then where it points.
pub open spec fn spec_link(t: Seq<u8>, ms: Seq<Match>, i: int, refs: Map<Seq<char>, Seq<char>>, image: bool) -> (Node, int, Map<Seq<char>, Seq<char>>)
    decreases ms.len() - i, 3int,
{
    let (cs, j, r2) = spec_tags_until(t, ms, i, if image { Comp::Imagetext } else { Comp::Linktext }, refs);
    let (d, k) = spec_dest(t, ms, j);
    let (destination, reference) = match d {
        DestV::Dest(x) => (Some(x), None),
        DestV::Ref(x) => (None, Some(x)),
        DestV::AutoRef => (None, Some(node_string(cs))),
    };
    (
        if image {
            Node::Image { attrs: no_attrs(), children: cs, destination, reference }
        } else {
            Node::Link { attrs: no_attrs(), children: cs, destination, reference }
        },
        k,
        r2,
    )
}

/// Reading all the tags from `i`.
pub open spec fn spec_doc(t: Seq<u8>, ms: Seq<Match>, i: int, refs: Map<Seq<char>, Seq<char>>) -> (Seq<Node>, Map<Seq<char>, Seq<char>>)
    decreases ms.len() - i,
{
    if i < 0 || i >= ms.len() {
        (Seq::empty(), refs)
    } else {
        let (o, j, r2) = spec_get_tag(t, ms, i, refs);
        if j <= i || j > ms.len() {
            (opt_seq(o), r2)
        } else {
            let (rest, r3) = spec_doc(t, ms, j, r2);
            (opt_seq(o) + rest, r3)
        }
    }
}


/// The plain text of tags is the plain text of their values.
pub proof fn lemma_string_content_nodes(tags: Seq<Tag>)
    ensures
        string_content(tags) == node_string(nodes_of(tags)),
    decreases tags,
{
    if tags.len() > 0 {
        lemma_string_content_nodes(tags.drop_last());
        assert(nodes_of(tags).drop_last() =~= nodes_of(tags.drop_last()));
        assert(nodes_of(tags).last() == node_of(tags.last()));
        match tags.last() {
            Tag::Para(x) => lemma_string_content_nodes(x.children@),
            Tag::Link(x) => lemma_string_content_nodes(x.children@),
            Tag::Image(x) => lemma_string_content_nodes(x.children@),
            Tag::CodeBlock(x) => lemma_string_content_nodes(x.children@),
            Tag::Strong(x) => lemma_string_content_nodes(x.children@),
            Tag::Emph(x) => lemma_string_content_nodes(x.children@),
            Tag::Insert(x) => lemma_string_content_nodes(x.children@),
            Tag::Delete(x) => lemma_string_content_nodes(x.children@),
            Tag::Mark(x) => lemma_string_content_nodes(x.children@),
            Tag::Superscript(x) => lemma_string_content_nodes(x.children@),
            Tag::Subscript(x) => lemma_string_content_nodes(x.children@),
            Tag::Span(x) => lemma_string_content_nodes(x.children@),
            Tag::DoubleQuoted(x) => lemma_string_content_nodes(x.children@),
            Tag::Url(x) => lemma_string_content_nodes(x.children@),
            _ => {},
        }
    }
}

/// The values of tags with one more at the end.
proof fn lemma_nodes_push(tags: Seq<Tag>, t: Tag)
    ensures
        nodes_of(tags.push(t)) == nodes_of(tags).push(node_of(t)),
{
    assert(tags.push(t).drop_last() =~= tags);
}

/// A tag, if any, as its value.
pub open spec fn opt_node(o: Option<Tag>) -> Option<Node> {
    match o {
        Some(t) => Some(node_of(t)),
        None => None,
    }
}

/// Where a link points, as values.
pub open spec fn dest_v(d: LinkDest) -> DestV {
    match d {
        LinkDest::Dest(x) => DestV::Dest(x@),
        LinkDest::Ref(x) => DestV::Ref(x@),
        LinkDest::AutoRef => DestV::AutoRef,
    }
}

/// The destination of a link: given, by reference, or by the link's own text.
pub enum LinkDest {
    Dest(String),
    Ref(String),
    AutoRef,
}

/// The reading state of the tree builder: the subject, its annotated ranges, the position
/// in them, and the reference definitions met so far.
pub struct Ctx {
    pub subject: String,
    pub matches: Vec<Match>,
    pub references: Vec<(String, ReferenceDefinition)>,
    pub idx: usize,
}

/// The definition that `refs` gives `key`, if any.
pub open spec fn ref_lookup(refs: Seq<(String, ReferenceDefinition)>, key: Seq<char>) -> Option<Seq<char>>
    decreases refs.len(),
{
    if refs.len() == 0 {
        None
    } else if refs.last().0@ == key {
        Some(refs.last().1.destination@)
    } else {
        ref_lookup(refs.drop_last(), key)
    }
}

/// No key is defined twice.
pub open spec fn refs_distinct(refs: Seq<(String, ReferenceDefinition)>) -> bool {
    forall|i: int, j: int| 0 <= i < j < refs.len() ==> (#[trigger] refs[i]).0@ != (#[trigger] refs[j]).0@
}

impl Ctx {
    pub open spec fn text(&self) -> Seq<u8> {
        text_bytes(self.subject@)
    }

    pub open spec fn wf(&self) -> bool {
        &&& self.idx <= self.matches@.len()
        &&& crate::block::ranges_ok(self.matches@)
        &&& refs_distinct(self.references@)
    }

    /// Reading moved on and kept the subject and the matches.
    pub open spec fn moved_on(&self, next: &Ctx) -> bool {
        &&& next.wf()
        &&& next.subject == self.subject
        &&& next.matches@ == self.matches@
        &&& next.idx >= self.idx
    }

    /// Skips blank lines, image markers and escapes.
    fn skip_trivia(&mut self)
        requires
            old(self).wf(),
        ensures
            old(self).moved_on(final(self)),
            final(self).references == old(self).references,
            final(self).idx == skip_index(old(self).matches@, old(self).idx as int),
    {
        while self.idx < self.matches.len() && is_trivia(&self.matches[self.idx])
            invariant
                old(self).moved_on(self),
                self.references == old(self).references,
                skip_index(self.matches@, self.idx as int) == skip_index(old(self).matches@, old(self).idx as int),
            decreases self.matches@.len() - self.idx,
        {
            self.idx = self.idx + 1;
        }
    }

    /// The text of the matches up to the first one that closes `comp`, which is read too.
    fn get_text_until(&mut self, comp: Comp) -> (r: String)
        requires
            old(self).wf(),
        ensures
            old(self).moved_on(final(self)),
            final(self).references == old(self).references,
            r@ == text_until(old(self).text(), old(self).matches@, old(self).idx as int, Annot::Sub(comp)),
            final(self).idx == after_stop(old(self).matches@, old(self).idx as int, Annot::Sub(comp)),
    {
        let ghost ms = self.matches@;
        let ghost i0 = self.idx as int;
        let ghost a = Annot::Sub(comp);
        let mut res = String::new();
        while self.idx < self.matches.len()
            invariant
                old(self).moved_on(self),
                self.references == old(self).references,
                ms == self.matches@,
                a == Annot::Sub(comp),
                i0 == old(self).idx,
                res@ + text_until(self.text(), ms, self.idx as int, a) == text_until(self.text(), ms, i0, a),
                stop_index(ms, self.idx as int, a) == stop_index(ms, i0, a),
            decreases self.matches@.len() - self.idx,
        {
            let m = self.matches[self.idx];
            let ghost i = self.idx as int;
            let ghost t = self.text();
            assert(m == ms[i]);
            self.idx = self.idx + 1;
            if m.is(Annot::Sub(comp)) {
                assert(text_until(t, ms, i, a) == Seq::<char>::empty());
                assert(stop_index(ms, i, a) == i);
                assert(res@ =~= res@ + Seq::<char>::empty());
                return res;
            }
            assert(stop_index(ms, i, a) == stop_index(ms, i + 1, a));
            assert(text_until(t, ms, i, a) == slice_chars(t, m.s as int, m.e as int) + text_until(t, ms, i + 1, a));
            let piece = slice_string(self.subject.as_str(), m.s, m.e);
            let ghost before = res@;
            res.append(piece.as_str());
            proof {
                assert(res@ + text_until(t, ms, i + 1, a) =~= before + text_until(t, ms, i, a));
            }
        }
        proof {
            assert(res@ =~= res@ + text_until(self.text(), ms, self.idx as int, a));
        }
        res
    }
}

/// A key defined in `refs` at `i` is looked up to its definition there.
proof fn lemma_lookup_at(refs: Seq<(String, ReferenceDefinition)>, i: int)
    requires
        refs_distinct(refs),
        0 <= i < refs.len(),
    ensures
        ref_lookup(refs, refs[i].0@) == Some(refs[i].1.destination@),
    decreases refs.len(),
{
    if i < refs.len() - 1 {
        let rest = refs.drop_last();
        assert(refs[i] == rest[i]);
        assert(refs_distinct(rest));
        lemma_lookup_at(rest, i);
    }
}

/// A key that `refs` does not define is looked up to nothing.
proof fn lemma_lookup_absent(refs: Seq<(String, ReferenceDefinition)>, key: Seq<char>)
    requires
        forall|i: int| 0 <= i < refs.len() ==> (#[trigger] refs[i]).0@ != key,
    ensures
        ref_lookup(refs, key) is None,
    decreases refs.len(),
{
    if refs.len() > 0 {
        let rest = refs.drop_last();
        assert forall|i: int| 0 <= i < rest.len() implies (#[trigger] rest[i]).0@ != key by {
            assert(rest[i] == refs[i]);
        }
        lemma_lookup_absent(rest, key);
    }
}

/// Looking up a key through `refs`: the definition of the entry with that key.
proof fn lemma_lookup_found(refs: Seq<(String, ReferenceDefinition)>, key: Seq<char>)
    requires
        refs_distinct(refs),
    ensures
        ref_lookup(refs, key) matches Some(d) ==> exists|i: int|
            0 <= i < refs.len() && (#[trigger] refs[i]).0@ == key && refs[i].1.destination@ == d,
        ref_lookup(refs, key) is None ==> forall|i: int| 0 <= i < refs.len() ==> (#[trigger] refs[i]).0@ != key,
{
    if exists|i: int| 0 <= i < refs.len() && (#[trigger] refs[i]).0@ == key {
        let i = choose|i: int| 0 <= i < refs.len() && (#[trigger] refs[i]).0@ == key;
        lemma_lookup_at(refs, i);
    } else {
        lemma_lookup_absent(refs, key);
    }
}

/// Defines `key` as `def` in `refs`: a new key is added, a key that is there gets the new
/// definition.
pub fn define_reference(refs: &mut Vec<(String, ReferenceDefinition)>, key: String, def: ReferenceDefinition)
    requires
        refs_distinct(old(refs)@),
    ensures
        refs_distinct(final(refs)@),
        ref_lookup(final(refs)@, key@) == Some(def.destination@),
        forall|k: Seq<char>| k != key@ ==> ref_lookup(final(refs)@, k) == ref_lookup(old(refs)@, k),
        refs_map(final(refs)@) == refs_map(old(refs)@).insert(key@, def.destination@),
{
    let ghost kv = key@;
    let ghost dv = def.destination@;
    let mut i: usize = 0;
    let mut found = false;
    while i < refs.len() && !found
        invariant
            i <= refs@.len(),
            refs@ == old(refs)@,
            kv == key@,
            found ==> i < refs@.len() && refs@[i as int].0@ == kv,
            forall|j: int| 0 <= j < i ==> (#[trigger] refs@[j]).0@ != kv,
        decreases refs@.len() - i + if found {
            0int
        } else {
            1int
        },
    {
        if refs[i].0 == key {
            found = true;
        } else {
            i = i + 1;
        }
    }
    let ghost old_refs = refs@;
    if found {
        refs.set(i, (key, def));
        proof {
            let new_refs = refs@;
            assert forall|a: int| 0 <= a < new_refs.len() implies (#[trigger] new_refs[a]).0@ == old_refs[a].0@ by {
                if a != i {
                    assert(new_refs[a] == old_refs[a]);
                }
            }
            assert forall|a: int, b: int| 0 <= a < b < new_refs.len() implies (#[trigger] new_refs[a]).0@
                != (#[trigger] new_refs[b]).0@ by {
                assert(old_refs[a].0@ != old_refs[b].0@);
            }
            lemma_lookup_at(new_refs, i as int);
            assert forall|k: Seq<char>| k != kv implies ref_lookup(new_refs, k) == ref_lookup(old_refs, k) by {
                lemma_lookup_found(new_refs, k);
                lemma_lookup_found(old_refs, k);
                if let Some(d) = ref_lookup(new_refs, k) {
                    let j = choose|j: int| 0 <= j < new_refs.len() && (#[trigger] new_refs[j]).0@ == k && new_refs[j].1.destination@ == d;
                    assert(old_refs[j] == new_refs[j]);
                    lemma_lookup_at(old_refs, j);
                } else {
                    assert forall|j: int| 0 <= j < old_refs.len() implies (#[trigger] old_refs[j]).0@ != k by {
                        assert(new_refs[j].0@ == old_refs[j].0@);
                    }
                    lemma_lookup_absent(old_refs, k);
                }
            }
        }
    } else {
        refs.push((key, def));
        proof {
            let new_refs = refs@;
            assert(new_refs.drop_last() =~= old_refs);
            assert forall|a: int, b: int| 0 <= a < b < new_refs.len() implies (#[trigger] new_refs[a]).0@
                != (#[trigger] new_refs[b]).0@ by {
                if b < old_refs.len() {
                    assert(old_refs[a].0@ != old_refs[b].0@);
                } else {
                    assert(new_refs[a] == old_refs[a]);
                }
            }
        }
    }
    proof {
        assert(refs_map(refs@) =~= refs_map(old(refs)@).insert(kv, dv));
    }
}

impl Ctx {
    /// The tag that starts at the current match, after trivia; `None` for a match that
    /// makes no tag (attributes, reference definitions, closings and annotations the tree
    /// does not show).
    fn get_tag(&mut self) -> (r: Option<Tag>)
        requires
            old(self).wf(),
        ensures
            (opt_node(r), final(self).idx as int, refs_map(final(self).references@)) == spec_get_tag(
                old(self).text(),
                old(self).matches@,
                old(self).idx as int,
                refs_map(old(self).references@),
            ),
            old(self).moved_on(final(self)),
            old(self).idx < old(self).matches@.len() ==> final(self).idx > old(self).idx,
            r matches Some(t) ==> heading_free(t),
        decreases old(self).matches@.len() - old(self).idx, 1int,
    {
        self.skip_trivia();
        if self.idx >= self.matches.len() {
            return None;
        }
        let m = self.matches[self.idx];
        self.idx = self.idx + 1;
        match m.a {
            Annot::Add(comp) => match comp {
                Comp::CodeBlock => Some(Tag::CodeBlock(self.get_code_block())),
                Comp::Para => {
                    let children = self.get_tags_until(Comp::Para);
                    Some(Tag::Para(Para { attrs: attrs_new(), children }))
                },
                Comp::Verbatim => Some(Tag::Verbatim(self.get_verbatim())),
                Comp::Strong => {
                    let children = self.get_tags_until(Comp::Strong);
                    Some(Tag::Strong(Strong { attrs: attrs_new(), children }))
                },
                Comp::Emph => {
                    let children = self.get_tags_until(Comp::Emph);
                    Some(Tag::Emph(Emph { attrs: attrs_new(), children }))
                },
                Comp::Insert => {
                    let children = self.get_tags_until(Comp::Insert);
                    Some(Tag::Insert(Insert { attrs: attrs_new(), children }))
                },
                Comp::Delete => {
                    let children = self.get_tags_until(Comp::Delete);
                    Some(Tag::Delete(Delete { attrs: attrs_new(), children }))
                },
                Comp::Mark => {
                    let children = self.get_tags_until(Comp::Mark);
                    Some(Tag::Mark(Mark { attrs: attrs_new(), children }))
                },
                Comp::Subscript => {
                    let children = self.get_tags_until(Comp::Subscript);
                    Some(Tag::Subscript(Subscript { attrs: attrs_new(), children }))
                },
                Comp::Superscript => {
                    let children = self.get_tags_until(Comp::Superscript);
                    Some(Tag::Superscript(Superscript { attrs: attrs_new(), children }))
                },
                Comp::DoubleQuoted => {
                    let children = self.get_tags_until(Comp::DoubleQuoted);
                    Some(Tag::DoubleQuoted(DoubleQuoted { attrs: attrs_new(), children }))
                },
                Comp::Linktext => Some(Tag::Link(self.get_link())),
                Comp::Imagetext => Some(Tag::Image(self.get_image())),
                Comp::Url => {
                    let destination = self.get_text_until(Comp::Url);
                    Some(Tag::Url(Url { attrs: attrs_new(), children: Vec::new(), destination }))
                },
                Comp::ReferenceDefinition => {
                    self.get_reference_definition();
                    None
                },
                // attributes, and composites that the tree does not show yet
                _ => None,
            },
            // a closing that no opening is waiting for
            Annot::Sub(_) => None,
            Annot::Atom(atom) => match atom {
                Atom::Str => {
                    let text = slice_string(self.subject.as_str(), m.s, m.e);
                    Some(Tag::Str(Str { attrs: attrs_new(), text }))
                },
                Atom::Emoji => {
                    let alias = if m.s < m.e {
                        slice_string(self.subject.as_str(), m.s + 1, m.e - 1)
                    } else {
                        String::new()
                    };
                    Some(Tag::Emoji(Emoji { attrs: attrs_new(), alias }))
                },
                Atom::Softbreak => Some(Tag::SoftBreak(SoftBreak { attrs: attrs_new() })),
                // classes, ids, and atoms that the tree does not show yet
                _ => None,
            },
        }
    }

    /// The tags up to the match that closes `comp`, which is read too.
    fn get_tags_until(&mut self, comp: Comp) -> (r: Vec<Tag>)
        requires
            old(self).wf(),
        ensures
            (nodes_of(r@), final(self).idx as int, refs_map(final(self).references@)) == spec_tags_until(
                old(self).text(),
                old(self).matches@,
                old(self).idx as int,
                comp,
                refs_map(old(self).references@),
            ),
            old(self).moved_on(final(self)),
            headings_free(r@),
        decreases old(self).matches@.len() - old(self).idx, 2int,
    {
        let mut res: Vec<Tag> = Vec::new();
        let ghost t0 = self.text();
        let ghost ms = self.matches@;
        let ghost goal = spec_tags_until(t0, ms, old(self).idx as int, comp, refs_map(old(self).references@));
        while self.idx < self.matches.len() && !self.matches[self.idx].is(Annot::Sub(comp))
            invariant
                old(self).moved_on(self),
                headings_free(res@),
                t0 == self.text(),
                ms == self.matches@,
                ({
                    let rest = spec_tags_until(t0, ms, self.idx as int, comp, refs_map(self.references@));
                    &&& nodes_of(res@) + rest.0 == goal.0
                    &&& rest.1 == goal.1
                    &&& rest.2 == goal.2
                }),
            decreases self.matches@.len() - self.idx,
        {
            let ghost i = self.idx as int;
            let ghost r0 = refs_map(self.references@);
            let o = self.get_tag();
            proof {
                let (o2, j, r2) = spec_get_tag(t0, ms, i, r0);
                assert(spec_tags_until(t0, ms, i, comp, r0) == {
                    let (rest, k, r3) = spec_tags_until(t0, ms, j, comp, r2);
                    (opt_seq(o2) + rest, k, r3)
                });
            }
            if let Some(t) = o {
                let ghost before = res@;
                res.push(t);
                assert(res@.drop_last() =~= before);
                proof {
                    lemma_nodes_push(before, t);
                    let rest = spec_tags_until(t0, ms, self.idx as int, comp, refs_map(self.references@));
                    assert(nodes_of(res@) + rest.0 =~= nodes_of(before) + (opt_seq(Some(node_of(t))) + rest.0));
                }
            } else {
                proof {
                    let rest = spec_tags_until(t0, ms, self.idx as int, comp, refs_map(self.references@));
                    assert(opt_seq(None) + rest.0 =~= rest.0);
                }
            }
        }
        if self.idx < self.matches.len() {
            self.idx = self.idx + 1;
        }
        res
    }

    /// A code block: its language, if given, and its text up to the closing fence.
    fn get_code_block(&mut self) -> (r: CodeBlock)
        requires
            old(self).wf(),
        ensures
            (node_of(Tag::CodeBlock(r)), final(self).idx as int) == spec_code_block(old(self).text(), old(self).matches@, old(self).idx as int),
            old(self).moved_on(final(self)),
            r.children@.len() == 0,
            final(self).references == old(self).references,
    {
        let mut lang: Option<String> = None;
        if self.idx < self.matches.len() && self.matches[self.idx].is(Annot::Atom(Atom::CodeLanguage)) {
            let m = self.matches[self.idx];
            lang = Some(slice_string(self.subject.as_str(), m.s, m.e));
            self.idx = self.idx + 1;
        }
        let text = self.get_text_until(Comp::CodeBlock);
        CodeBlock { attrs: attrs_new(), children: Vec::new(), lang, text }
    }

    /// Verbatim text up to its closing, less one space before a leading backtick and one
    /// after a trailing one.
    fn get_verbatim(&mut self) -> (r: Verbatim)
        requires
            old(self).wf(),
        ensures
            (node_of(Tag::Verbatim(r)), final(self).idx as int) == spec_verbatim(old(self).text(), old(self).matches@, old(self).idx as int),
            old(self).moved_on(final(self)),
            final(self).references == old(self).references,
    {
        let mut text = self.get_text_until(Comp::Verbatim);
        if find(text.as_str(), "^ +`").is_match {
            let n = text.as_str().unicode_len();
            if n > 0 {
                text = chars_range(text.as_str(), 1, n);
            }
        }
        if find(text.as_str(), "` +$").is_match {
            let n = text.as_str().unicode_len();
            if n > 0 {
                text = chars_range(text.as_str(), 0, n - 1);
            }
        }
        Verbatim { attrs: attrs_new(), text }
    }

    /// Where a link or image points: the destination or reference after its text.
    fn get_dest(&mut self) -> (r: LinkDest)
        requires
            old(self).wf(),
        ensures
            (dest_v(r), final(self).idx as int) == spec_dest(old(self).text(), old(self).matches@, old(self).idx as int),
            old(self).moved_on(final(self)),
            final(self).references == old(self).references,
    {
        if self.idx >= self.matches.len() {
            return LinkDest::AutoRef;
        }
        let m = self.matches[self.idx];
        self.idx = self.idx + 1;
        if m.is(Annot::Add(Comp::Destination)) {
            let dest = self.get_text_until(Comp::Destination);
            LinkDest::Dest(replace_newlines(dest.as_str(), ""))
        } else {
            let r = self.get_text_until(Comp::Reference);
            if r.as_str().unicode_len() == 0 {
                LinkDest::AutoRef
            } else {
                LinkDest::Ref(replace_newlines(r.as_str(), " "))
            }
        }
    }

    /// A link: its text, then where it points.
    fn get_link(&mut self) -> (r: Link)
        requires
            old(self).wf(),
        ensures
            (node_of(Tag::Link(r)), final(self).idx as int, refs_map(final(self).references@)) == spec_link(
                old(self).text(),
                old(self).matches@,
                old(self).idx as int,
                refs_map(old(self).references@),
                false,
            ),
            old(self).moved_on(final(self)),
            headings_free(r.children@),
        decreases old(self).matches@.len() - old(self).idx, 3int,
    {
        let children = self.get_tags_until(Comp::Linktext);
        proof {
            lemma_string_content_nodes(children@);
        }
        let mut destination: Option<String> = None;
        let mut reference: Option<String> = None;
        match self.get_dest() {
            LinkDest::Dest(dest) => destination = Some(dest),
            LinkDest::Ref(r) => reference = Some(r),
            LinkDest::AutoRef => reference = Some(get_string_content(children.as_slice())),
        }
        Link { attrs: attrs_new(), children, destination, reference }
    }

    /// An image: its description, then where it points.
    fn get_image(&mut self) -> (r: Image)
        requires
            old(self).wf(),
        ensures
            (node_of(Tag::Image(r)), final(self).idx as int, refs_map(final(self).references@)) == spec_link(
                old(self).text(),
                old(self).matches@,
                old(self).idx as int,
                refs_map(old(self).references@),
                true,
            ),
            old(self).moved_on(final(self)),
            headings_free(r.children@),
        decreases old(self).matches@.len() - old(self).idx, 3int,
    {
        let children = self.get_tags_until(Comp::Imagetext);
        proof {
            lemma_string_content_nodes(children@);
        }
        let mut destination: Option<String> = None;
        let mut reference: Option<String> = None;
        match self.get_dest() {
            LinkDest::Dest(dest) => destination = Some(dest),
            LinkDest::Ref(r) => reference = Some(r),
            LinkDest::AutoRef => reference = Some(get_string_content(children.as_slice())),
        }
        Image { attrs: attrs_new(), children, destination, reference }
    }

    /// A reference definition: its key, then the pieces of its destination, which are
    /// joined; the definition is recorded for the key.
    fn get_reference_definition(&mut self)
        requires
            old(self).wf(),
        ensures
            (final(self).idx as int, refs_map(final(self).references@)) == spec_refdef(old(self).text(), old(self).matches@, old(self).idx as int, refs_map(old(self).references@)),
            old(self).moved_on(final(self)),
    {
        if self.idx >= self.matches.len() {
            return;
        }
        let key = self.matches[self.idx];
        self.idx = self.idx + 1;
        let ghost j0 = self.idx as int;
        let ghost t = self.text();
        let ghost ms = self.matches@;
        let mut destination = String::new();
        while self.idx < self.matches.len() && self.matches[self.idx].is(Annot::Atom(Atom::ReferenceValue))
            invariant
                old(self).moved_on(self),
                self.references == old(self).references,
                t == self.text(),
                ms == self.matches@,
                destination@ + ref_values(t, ms, self.idx as int).0 == ref_values(t, ms, j0).0,
                ref_values(t, ms, self.idx as int).1 == ref_values(t, ms, j0).1,
            decreases self.matches@.len() - self.idx,
        {
            let m = self.matches[self.idx];
            let ghost i = self.idx as int;
            self.idx = self.idx + 1;
            let piece = slice_string(self.subject.as_str(), m.s, m.e);
            let ghost before = destination@;
            destination.append(piece.as_str());
            proof {
                assert(before + ref_values(t, ms, i).0 =~= destination@ + ref_values(t, ms, i + 1).0);
            }
        }
        proof {
            assert(destination@ =~= destination@ + ref_values(t, ms, self.idx as int).0);
        }
        if self.idx < self.matches.len() && self.matches[self.idx].is(Annot::Sub(Comp::ReferenceDefinition)) {
            self.idx = self.idx + 1;
        }
        // the key is written in brackets
        let label = if key.s < key.e {
            slice_string(self.subject.as_str(), key.s + 1, key.e - 1)
        } else {
            String::new()
        };
        define_reference(&mut self.references, label, ReferenceDefinition { destination });
    }

    /// All the tags of the document.
    fn get_doc(&mut self) -> (r: Vec<Tag>)
        requires
            old(self).wf(),
        ensures
            (nodes_of(r@), refs_map(final(self).references@)) == spec_doc(
                old(self).text(),
                old(self).matches@,
                old(self).idx as int,
                refs_map(old(self).references@),
            ),
            old(self).moved_on(final(self)),
            final(self).idx == final(self).matches@.len(),
            headings_free(r@),
    {
        let mut children: Vec<Tag> = Vec::new();
        let ghost t0 = self.text();
        let ghost ms = self.matches@;
        let ghost goal = spec_doc(t0, ms, old(self).idx as int, refs_map(old(self).references@));
        while self.idx < self.matches.len()
            invariant
                old(self).moved_on(self),
                headings_free(children@),
                t0 == self.text(),
                ms == self.matches@,
                ({
                    let rest = spec_doc(t0, ms, self.idx as int, refs_map(self.references@));
                    &&& nodes_of(children@) + rest.0 == goal.0
                    &&& rest.1 == goal.1
                }),
            decreases self.matches@.len() - self.idx,
        {
            let ghost i = self.idx as int;
            let ghost r0 = refs_map(self.references@);
            let o = self.get_tag();
            if let Some(t) = o {
                let ghost before = children@;
                children.push(t);
                assert(children@.drop_last() =~= before);
                proof {
                    lemma_nodes_push(before, t);
                    let rest = spec_doc(t0, ms, self.idx as int, refs_map(self.references@));
                    assert(nodes_of(children@) + rest.0 =~= nodes_of(before) + (opt_seq(Some(node_of(t))) + rest.0));
                }
            } else {
                proof {
                    let rest = spec_doc(t0, ms, self.idx as int, refs_map(self.references@));
                    assert(opt_seq(None) + rest.0 =~= rest.0);
                }
            }
        }
        proof {
            assert(nodes_of(children@) =~= nodes_of(children@) + Seq::<Node>::empty());
        }
        children
    }
}

/// Builds the document from what the block parser found.
pub fn build(p: Tokenizer) -> (r: Document)
    requires
        p.wf(),
    ensures
        r.debug == p.debug,
        refs_distinct(r.references@),
        headings_free(r.children@),
        nodes_of(r.children@) == spec_doc(p.text(), p.matches@, 0, Map::empty()).0,
        refs_map(r.references@) == spec_doc(p.text(), p.matches@, 0, Map::empty()).1,
{
    let mut ctx = Ctx { subject: p.subject, matches: p.matches, references: Vec::new(), idx: 0 };
    proof {
        assert(refs_map(ctx.references@) =~= Map::<Seq<char>, Seq<char>>::empty());
    }
    let children = ctx.get_doc();
    Document { children, debug: p.debug, references: ctx.references }
}

/// The plain text of tags one after the other is the plain text of each part in turn.
pub proof fn lemma_string_content_concat(a: Seq<Tag>, b: Seq<Tag>)
    ensures
        string_content(a + b) == string_content(a) + string_content(b),
    decreases b.len(),
{
    if b.len() == 0 {
        assert(a + b =~= a);
        assert(string_content(a) + string_content(b) =~= string_content(a));
    } else {
        lemma_string_content_concat(a, b.drop_last());
        assert((a + b).drop_last() =~= a + b.drop_last());
        assert((a + b).last() == b.last());
        assert(string_content(a + b) =~= string_content(a) + string_content(b));
    }
}

} // verus!
