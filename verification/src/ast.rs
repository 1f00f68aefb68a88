//! The document tree: a tag for each element, with its attributes and children.
use indexmap::IndexMap;
use vstd::prelude::*;

verus! {

#[verifier::external_type_specification]
#[verifier::external_body]
#[verifier::reject_recursive_types(K)]
#[verifier::reject_recursive_types(V)]
#[verifier::reject_recursive_types(S)]
pub struct ExIndexMap<K, V, S>(IndexMap<K, V, S>);

/// The attributes of an element, in the order they were given.
pub type Attrs = IndexMap<String, String>;

/// The entries of an attribute map, in order: each key with its value.
pub uninterp spec fn attrs_entries(m: IndexMap<String, String>) -> Seq<(Seq<char>, Seq<char>)>;

/// No two entries have the same key.
pub open spec fn distinct_keys(es: Seq<(Seq<char>, Seq<char>)>) -> bool {
    forall|i: int, j: int| 0 <= i < j < es.len() ==> (#[trigger] es[i]).0 != (#[trigger] es[j]).0
}

/// `IndexMap::new`: an empty map.
#[verifier::external_body]
pub fn attrs_new() -> (r: Attrs)
    ensures
        attrs_entries(r) == Seq::<(Seq<char>, Seq<char>)>::empty(),
{
    IndexMap::new()
}

/// `IndexMap::insert`: a new key goes last with its value; a key that is there keeps its
/// place and takes the new value. The keys of a map are distinct.
#[verifier::external_body]
pub fn attrs_insert(m: &mut Attrs, k: String, v: String)
    ensures
        distinct_keys(attrs_entries(*old(m))) ==> distinct_keys(attrs_entries(*final(m))),
        (forall|i: int| 0 <= i < attrs_entries(*old(m)).len() ==> (#[trigger] attrs_entries(*old(m))[i]).0 != k@)
            ==> attrs_entries(*final(m)) == attrs_entries(*old(m)).push((k@, v@)),
        forall|i: int|
            0 <= i < attrs_entries(*old(m)).len() && (#[trigger] attrs_entries(*old(m))[i]).0 == k@
                && distinct_keys(attrs_entries(*old(m)))
                ==> attrs_entries(*final(m)) == attrs_entries(*old(m)).update(i, (k@, v@)),
{
    m.insert(k, v);
}

/// `IndexMap::len`: the number of entries.
#[verifier::external_body]
pub fn attrs_len(m: &Attrs) -> (r: usize)
    ensures
        r == attrs_entries(*m).len(),
{
    m.len()
}

/// `IndexMap::is_empty`: whether there is no entry.
#[verifier::external_body]
pub fn attrs_is_empty(m: &Attrs) -> (r: bool)
    ensures
        r == (attrs_entries(*m).len() == 0),
{
    m.is_empty()
}

/// `IndexMap::get_index`: the entry at position `i`, if there is one.
#[verifier::external_body]
pub fn attrs_get_index(m: &Attrs, i: usize) -> (r: Option<(&String, &String)>)
    ensures
        r is Some <==> i < attrs_entries(*m).len(),
        r matches Some(e) ==> (e.0@, e.1@) == attrs_entries(*m)[i as int],
{
    m.get_index(i)
}

/// The document as a whole, the root of the tree.
#[derive(Debug)]
pub struct Doc {}

#[derive(Debug)]
pub struct Heading {
    pub attrs: Attrs,
    pub children: Vec<Tag>,
    pub level: u32,
}

#[derive(Debug)]
pub struct Para {
    pub attrs: Attrs,
    pub children: Vec<Tag>,
}

#[derive(Debug)]
pub struct Link {
    pub attrs: Attrs,
    pub children: Vec<Tag>,
    pub destination: Option<String>,
    pub reference: Option<String>,
}

#[derive(Debug)]
pub struct Image {
    pub attrs: Attrs,
    pub children: Vec<Tag>,
    pub destination: Option<String>,
    pub reference: Option<String>,
}

#[derive(Debug)]
pub struct CodeBlock {
    pub attrs: Attrs,
    pub children: Vec<Tag>,
    pub lang: Option<String>,
    pub text: String,
}

#[derive(Debug)]
pub struct Strong {
    pub attrs: Attrs,
    pub children: Vec<Tag>,
}

#[derive(Debug)]
pub struct Emph {
    pub attrs: Attrs,
    pub children: Vec<Tag>,
}

#[derive(Debug)]
pub struct Insert {
    pub attrs: Attrs,
    pub children: Vec<Tag>,
}

#[derive(Debug)]
pub struct Delete {
    pub attrs: Attrs,
    pub children: Vec<Tag>,
}

#[derive(Debug)]
pub struct Mark {
    pub attrs: Attrs,
    pub children: Vec<Tag>,
}

#[derive(Debug)]
pub struct Superscript {
    pub attrs: Attrs,
    pub children: Vec<Tag>,
}

#[derive(Debug)]
pub struct Subscript {
    pub attrs: Attrs,
    pub children: Vec<Tag>,
}

#[derive(Debug)]
pub struct Span {
    pub attrs: Attrs,
    pub children: Vec<Tag>,
}

#[derive(Debug)]
pub struct DoubleQuoted {
    pub attrs: Attrs,
    pub children: Vec<Tag>,
}

#[derive(Debug)]
pub struct Url {
    pub attrs: Attrs,
    pub children: Vec<Tag>,
    pub destination: String,
}

#[derive(Debug)]
pub struct SoftBreak {
    pub attrs: Attrs,
}

/// A line break inside a paragraph, under the name the list of tag kinds gives it.
#[derive(Debug)]
pub struct Softbreak {}

#[derive(Debug)]
pub struct EmDash {
    pub attrs: Attrs,
}

#[derive(Debug)]
pub struct EnDash {
    pub attrs: Attrs,
}

#[derive(Debug)]
pub struct Verbatim {
    pub attrs: Attrs,
    pub text: String,
}

#[derive(Debug)]
pub struct Str {
    pub attrs: Attrs,
    pub text: String,
}

#[derive(Debug)]
pub struct Emoji {
    pub attrs: Attrs,
    pub alias: String,
}

/// The key of a reference definition, as written.
#[derive(Debug)]
pub struct ReferenceKey {
    pub text: String,
}

/// The value of a reference definition, as written.
#[derive(Debug)]
pub struct ReferenceValue {
    pub text: String,
}

/// The destination that a reference definition gives its key.
#[derive(Debug)]
pub struct ReferenceDefinition {
    pub destination: String,
}

/// An element of the document.
#[derive(Debug)]
pub enum Tag {
    Heading(Heading),
    Para(Para),
    Link(Link),
    Image(Image),
    CodeBlock(CodeBlock),
    Strong(Strong),
    Emph(Emph),
    Insert(Insert),
    Delete(Delete),
    Mark(Mark),
    Superscript(Superscript),
    Subscript(Subscript),
    Span(Span),
    DoubleQuoted(DoubleQuoted),
    Url(Url),
    SoftBreak(SoftBreak),
    EmDash(EmDash),
    EnDash(EnDash),
    Verbatim(Verbatim),
    Str(Str),
    Emoji(Emoji),
}

/// No heading in these tags or below them.
pub open spec fn headings_free(tags: Seq<Tag>) -> bool
    decreases tags,
{
    if tags.len() == 0 {
        true
    } else {
        headings_free(tags.drop_last()) && heading_free(tags.last())
    }
}

/// No heading in this tag or below it.
pub open spec fn heading_free(t: Tag) -> bool
    decreases t,
{
    match t {
        Tag::Heading(_) => false,
        Tag::Para(x) => headings_free(x.children@),
        Tag::Link(x) => headings_free(x.children@),
        Tag::Image(x) => headings_free(x.children@),
        Tag::CodeBlock(x) => headings_free(x.children@),
        Tag::Strong(x) => headings_free(x.children@),
        Tag::Emph(x) => headings_free(x.children@),
        Tag::Insert(x) => headings_free(x.children@),
        Tag::Delete(x) => headings_free(x.children@),
        Tag::Mark(x) => headings_free(x.children@),
        Tag::Superscript(x) => headings_free(x.children@),
        Tag::Subscript(x) => headings_free(x.children@),
        Tag::Span(x) => headings_free(x.children@),
        Tag::DoubleQuoted(x) => headings_free(x.children@),
        Tag::Url(x) => headings_free(x.children@),
        _ => true,
    }
}

/// `t` with its attributes replaced by `attrs`.
pub open spec fn tag_with_attrs(t: Tag, attrs: Attrs) -> Tag {
    match t {
        Tag::Heading(x) => Tag::Heading(Heading { attrs, ..x }),
        Tag::Para(x) => Tag::Para(Para { attrs, ..x }),
        Tag::Link(x) => Tag::Link(Link { attrs, ..x }),
        Tag::Image(x) => Tag::Image(Image { attrs, ..x }),
        Tag::CodeBlock(x) => Tag::CodeBlock(CodeBlock { attrs, ..x }),
        Tag::Strong(x) => Tag::Strong(Strong { attrs, ..x }),
        Tag::Emph(x) => Tag::Emph(Emph { attrs, ..x }),
        Tag::Insert(x) => Tag::Insert(Insert { attrs, ..x }),
        Tag::Delete(x) => Tag::Delete(Delete { attrs, ..x }),
        Tag::Mark(x) => Tag::Mark(Mark { attrs, ..x }),
        Tag::Superscript(x) => Tag::Superscript(Superscript { attrs, ..x }),
        Tag::Subscript(x) => Tag::Subscript(Subscript { attrs, ..x }),
        Tag::Span(x) => Tag::Span(Span { attrs, ..x }),
        Tag::DoubleQuoted(x) => Tag::DoubleQuoted(DoubleQuoted { attrs, ..x }),
        Tag::Url(x) => Tag::Url(Url { attrs, ..x }),
        Tag::SoftBreak(x) => Tag::SoftBreak(SoftBreak { attrs, ..x }),
        Tag::EmDash(x) => Tag::EmDash(EmDash { attrs, ..x }),
        Tag::EnDash(x) => Tag::EnDash(EnDash { attrs, ..x }),
        Tag::Verbatim(x) => Tag::Verbatim(Verbatim { attrs, ..x }),
        Tag::Str(x) => Tag::Str(Str { attrs, ..x }),
        Tag::Emoji(x) => Tag::Emoji(Emoji { attrs, ..x }),
    }
}

/// `t` with its children replaced by `children`, when it has children; else `t`.
pub open spec fn tag_with_children(t: Tag, children: Vec<Tag>) -> Tag {
    match t {
        Tag::Heading(x) => Tag::Heading(Heading { children, ..x }),
        Tag::Para(x) => Tag::Para(Para { children, ..x }),
        Tag::Link(x) => Tag::Link(Link { children, ..x }),
        Tag::Image(x) => Tag::Image(Image { children, ..x }),
        Tag::CodeBlock(x) => Tag::CodeBlock(CodeBlock { children, ..x }),
        Tag::Strong(x) => Tag::Strong(Strong { children, ..x }),
        Tag::Emph(x) => Tag::Emph(Emph { children, ..x }),
        Tag::Insert(x) => Tag::Insert(Insert { children, ..x }),
        Tag::Delete(x) => Tag::Delete(Delete { children, ..x }),
        Tag::Mark(x) => Tag::Mark(Mark { children, ..x }),
        Tag::Superscript(x) => Tag::Superscript(Superscript { children, ..x }),
        Tag::Subscript(x) => Tag::Subscript(Subscript { children, ..x }),
        Tag::Span(x) => Tag::Span(Span { children, ..x }),
        Tag::DoubleQuoted(x) => Tag::DoubleQuoted(DoubleQuoted { children, ..x }),
        Tag::Url(x) => Tag::Url(Url { children, ..x }),
        _ => t,
    }
}

impl Tag {
    /// The tag with its attributes replaced by `attrs`.
    pub fn with_attrs(self, attrs: Attrs) -> (r: Tag)
        ensures
            r == tag_with_attrs(self, attrs),
    {
        match self {
            Tag::Heading(x) => Tag::Heading(Heading { attrs, ..x }),
            Tag::Para(x) => Tag::Para(Para { attrs, ..x }),
            Tag::Link(x) => Tag::Link(Link { attrs, ..x }),
            Tag::Image(x) => Tag::Image(Image { attrs, ..x }),
            Tag::CodeBlock(x) => Tag::CodeBlock(CodeBlock { attrs, ..x }),
            Tag::Strong(x) => Tag::Strong(Strong { attrs, ..x }),
            Tag::Emph(x) => Tag::Emph(Emph { attrs, ..x }),
            Tag::Insert(x) => Tag::Insert(Insert { attrs, ..x }),
            Tag::Delete(x) => Tag::Delete(Delete { attrs, ..x }),
            Tag::Mark(x) => Tag::Mark(Mark { attrs, ..x }),
            Tag::Superscript(x) => Tag::Superscript(Superscript { attrs, ..x }),
            Tag::Subscript(x) => Tag::Subscript(Subscript { attrs, ..x }),
            Tag::Span(x) => Tag::Span(Span { attrs, ..x }),
            Tag::DoubleQuoted(x) => Tag::DoubleQuoted(DoubleQuoted { attrs, ..x }),
            Tag::Url(x) => Tag::Url(Url { attrs, ..x }),
            Tag::SoftBreak(x) => Tag::SoftBreak(SoftBreak { attrs, ..x }),
            Tag::EmDash(x) => Tag::EmDash(EmDash { attrs, ..x }),
            Tag::EnDash(x) => Tag::EnDash(EnDash { attrs, ..x }),
            Tag::Verbatim(x) => Tag::Verbatim(Verbatim { attrs, ..x }),
            Tag::Str(x) => Tag::Str(Str { attrs, ..x }),
            Tag::Emoji(x) => Tag::Emoji(Emoji { attrs, ..x }),
        }
    }

    /// The tag with its children replaced by `children`; a tag without children stays as
    /// it is.
    pub fn with_children(self, children: Vec<Tag>) -> (r: Tag)
        ensures
            r == tag_with_children(self, children),
    {
        match self {
            Tag::Heading(x) => Tag::Heading(Heading { children, ..x }),
            Tag::Para(x) => Tag::Para(Para { children, ..x }),
            Tag::Link(x) => Tag::Link(Link { children, ..x }),
            Tag::Image(x) => Tag::Image(Image { children, ..x }),
            Tag::CodeBlock(x) => Tag::CodeBlock(CodeBlock { children, ..x }),
            Tag::Strong(x) => Tag::Strong(Strong { children, ..x }),
            Tag::Emph(x) => Tag::Emph(Emph { children, ..x }),
            Tag::Insert(x) => Tag::Insert(Insert { children, ..x }),
            Tag::Delete(x) => Tag::Delete(Delete { children, ..x }),
            Tag::Mark(x) => Tag::Mark(Mark { children, ..x }),
            Tag::Superscript(x) => Tag::Superscript(Superscript { children, ..x }),
            Tag::Subscript(x) => Tag::Subscript(Subscript { children, ..x }),
            Tag::Span(x) => Tag::Span(Span { children, ..x }),
            Tag::DoubleQuoted(x) => Tag::DoubleQuoted(DoubleQuoted { children, ..x }),
            Tag::Url(x) => Tag::Url(Url { children, ..x }),
            other => other,
        }
    }
}

impl Str {
    /// A string with no attributes.
    pub fn new(text: String) -> (r: Str)
        ensures
            r.text == text,
            attrs_entries(r.attrs).len() == 0,
    {
        Str { attrs: attrs_new(), text }
    }
}

impl Emoji {
    /// An emoji with no attributes, named by `alias`.
    pub fn new(alias: String) -> (r: Emoji)
        ensures
            r.alias == alias,
            attrs_entries(r.attrs).len() == 0,
    {
        Emoji { attrs: attrs_new(), alias }
    }
}

} // verus!
