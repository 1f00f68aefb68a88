//! Renders the document tree as HTML.
use crate::ast::{
    heading_free, headings_free, attrs_entries, attrs_get_index, attrs_insert, attrs_is_empty, attrs_len, attrs_new, Attrs,
    ReferenceDefinition, Tag,
};
use crate::text::{escape_html, push_escaped};
use crate::tree::{
    get_string_content, lemma_string_content_nodes, node_string, nodes_of, node_of, opt_chars, ref_lookup, refs_map,
    string_content, Elem, Node,
};
use crate::{Document, HtmlOpts};
use vstd::prelude::*;
use vstd::string::StrSliceExecFns;

verus! {

/// The attributes `es` as HTML: each as a space, the key, `=` and the value in double
/// quotes, escaped as HTML with its quotes.
pub open spec fn attrs_html(es: Seq<(Seq<char>, Seq<char>)>) -> Seq<char>
    decreases es.len(),
{
    if es.len() == 0 {
        Seq::empty()
    } else {
        attrs_html(es.drop_last()) + " "@ + es.last().0 + "=\""@ + escape_html(es.last().1, true) + "\""@
    }
}

/// The opening tag `name` with the attributes `es`.
pub open spec fn open_tag(name: Seq<char>, es: Seq<(Seq<char>, Seq<char>)>) -> Seq<char> {
    "<"@ + name + attrs_html(es) + ">"@
}

/// The attribute `key` with the value `v`, when there is one.
pub open spec fn opt_attr(key: Seq<char>, v: Option<Seq<char>>) -> Seq<(Seq<char>, Seq<char>)> {
    match v {
        Some(d) => seq![(key, d)],
        None => Seq::empty(),
    }
}

/// Where a link or image points: its own destination, or the definition of its reference.
pub open spec fn resolve(
    refs: Seq<(String, ReferenceDefinition)>,
    destination: Option<String>,
    reference: Option<String>,
) -> Option<Seq<char>> {
    match destination {
        Some(d) => Some(d@),
        None => match reference {
            Some(r) => ref_lookup(refs, r@),
            None => None,
        },
    }
}

/// The HTML of the tags one after the other.
pub open spec fn html_list(tags: Seq<Tag>, refs: Seq<(String, ReferenceDefinition)>) -> Seq<char>
    decreases tags,
{
    if tags.len() == 0 {
        Seq::empty()
    } else {
        html_list(tags.drop_last(), refs) + html_of(tags.last(), refs)
    }
}

/// The element `name` with the attributes `attrs` around `inner`, closed by `close`.
pub open spec fn wrapped(
    name: Seq<char>,
    attrs: Attrs,
    inner: Seq<char>,
    close: Seq<char>,
) -> Seq<char> {
    open_tag(name, attrs_entries(attrs)) + inner + close
}

/// The HTML of a tag; `refs` gives the reference definitions.
pub open spec fn html_of(t: Tag, refs: Seq<(String, ReferenceDefinition)>) -> Seq<char>
    decreases t,
{
    match t {
        Tag::Heading(_) => Seq::empty(),
        Tag::Para(x) => wrapped("p"@, x.attrs, html_list(x.children@, refs), "</p>"@) + "\n"@,
        Tag::Link(x) => open_tag("a"@, opt_attr("href"@, resolve(refs, x.destination, x.reference)))
            + html_list(x.children@, refs) + "</a>"@,
        Tag::Image(x) => {
            let alt = string_content(x.children@);
            open_tag(
                "img"@,
                opt_attr("alt"@, if alt.len() > 0 { Some(alt) } else { None }) + opt_attr(
                    "src"@,
                    resolve(refs, x.destination, x.reference),
                ),
            )
        },
        Tag::CodeBlock(x) => open_tag("pre"@, attrs_entries(x.attrs)) + open_tag(
            "code"@,
            opt_attr(
                "class"@,
                match x.lang {
                    Some(l) => Some("language-"@ + l@),
                    None => None,
                },
            ),
        ) + escape_html(x.text@, false) + "</code></pre>\n"@,
        Tag::Strong(x) => wrapped("strong"@, x.attrs, html_list(x.children@, refs), "</strong>"@),
        Tag::Emph(x) => wrapped("em"@, x.attrs, html_list(x.children@, refs), "</em>"@),
        Tag::DoubleQuoted(x) => "&ldquo;"@ + html_list(x.children@, refs) + "&rdquo;"@,
        Tag::SoftBreak(_) => "\n"@,
        Tag::Url(x) => open_tag("a"@, seq![("href"@, x.destination@)]) + escape_html(x.destination@, false)
            + "</a>"@,
        Tag::Str(x) => if attrs_entries(x.attrs).len() == 0 {
            escape_html(x.text@, false)
        } else {
            wrapped("span"@, x.attrs, escape_html(x.text@, false), "</span>"@)
        },
        Tag::Emoji(x) => ":"@ + x.alias@ + ":"@,
        Tag::Verbatim(x) => wrapped("code"@, x.attrs, escape_html(x.text@, false), "</code>"@),
        Tag::Span(x) => wrapped("span"@, x.attrs, html_list(x.children@, refs), "</span>"@),
        Tag::Insert(x) => wrapped("ins"@, x.attrs, html_list(x.children@, refs), "</ins>"@),
        Tag::Delete(x) => wrapped("del"@, x.attrs, html_list(x.children@, refs), "</del>"@),
        Tag::Mark(x) => wrapped("mark"@, x.attrs, html_list(x.children@, refs), "</mark>"@),
        Tag::Superscript(x) => wrapped("sup"@, x.attrs, html_list(x.children@, refs), "</sup>"@),
        Tag::Subscript(x) => wrapped("sub"@, x.attrs, html_list(x.children@, refs), "</sub>"@),
        Tag::EmDash(_) => "&mdash;"@,
        Tag::EnDash(_) => "&ndash;"@,
    }
}

/// Writes the opening tag `tag_name` with the attributes `attrs`.
fn render_tag(out: &mut String, tag_name: &str, attrs: &Attrs)
    ensures
        final(out)@ == old(out)@ + open_tag(tag_name@, attrs_entries(*attrs)),
{
    let ghost es = attrs_entries(*attrs);
    out.append("<");
    out.append(tag_name);
    let ghost start = out@;
    let n = attrs_len(attrs);
    let mut i: usize = 0;
    while i < n
        invariant
            n == es.len(),
            es == attrs_entries(*attrs),
            i <= n,
            out@ == start + attrs_html(es.subrange(0, i as int)),
        decreases n - i,
    {
        if let Some((k, v)) = attrs_get_index(attrs, i) {
            out.append(" ");
            out.append(k.as_str());
            out.append("=\"");
            push_escaped(out, v.as_str(), true);
            out.append("\"");
            proof {
                let sub = es.subrange(0, i + 1);
                assert(sub.drop_last() =~= es.subrange(0, i as int));
                assert(sub.last() == es[i as int]);
            }
        }
        i = i + 1;
    }
    proof {
        assert(es.subrange(0, n as int) =~= es);
    }
    out.append(">");
}

/// The destination of a link or image: its own, or the definition of its reference.
fn resolve_reference(
    refs: &[(String, ReferenceDefinition)],
    destination: &Option<String>,
    reference: &Option<String>,
) -> (r: Option<String>)
    ensures
        r matches Some(s) ==> resolve(refs@, *destination, *reference) == Some(s@),
        r is None ==> resolve(refs@, *destination, *reference) is None,
{
    if let Some(d) = destination {
        return Some(d.clone());
    }
    if let Some(key) = reference {
        let mut i = refs.len();
        assert(refs@.subrange(0, i as int) =~= refs@);
        while i > 0
            invariant
                i <= refs@.len(),
                resolve(refs@, *destination, *reference) == ref_lookup(refs@, key@),
                ref_lookup(refs@, key@) == ref_lookup(refs@.subrange(0, i as int), key@),
            decreases i,
        {
            let ghost sub = refs@.subrange(0, i as int);
            assert(sub.drop_last() =~= refs@.subrange(0, i - 1));
            assert(sub.last() == refs@[i - 1]);
            if refs[i - 1].0 == *key {
                return Some(refs[i - 1].1.destination.clone());
            }
            i = i - 1;
        }
        assert(refs@.subrange(0, 0) =~= Seq::<(String, ReferenceDefinition)>::empty());
    }
    None
}

/// Writes the HTML of the tags one after the other.
fn render_children(out: &mut String, refs: &[(String, ReferenceDefinition)], children: &[Tag])
    requires
        headings_free(children@),
    ensures
        final(out)@ == old(out)@ + html_list(children@, refs@),
    decreases children@,
{
    let mut i: usize = 0;
    while i < children.len()
        invariant
            i <= children@.len(),
            headings_free(children@),
            out@ == old(out)@ + html_list(children@.subrange(0, i as int), refs@),
        decreases children@.len() - i,
    {
        proof {
            lemma_headings_free_at(children@, i as int);
        }
        render(out, refs, &children[i]);
        proof {
            let sub = children@.subrange(0, i + 1);
            assert(sub.drop_last() =~= children@.subrange(0, i as int));
            assert(sub.last() == children@[i as int]);
        }
        i = i + 1;
    }
    proof {
        assert(children@.subrange(0, i as int) =~= children@);
    }
}

/// Each tag of a list free of headings is free of them.
proof fn lemma_headings_free_at(tags: Seq<Tag>, i: int)
    requires
        headings_free(tags),
        0 <= i < tags.len(),
    ensures
        heading_free(tags[i]),
    decreases tags.len(),
{
    if i < tags.len() - 1 {
        lemma_headings_free_at(tags.drop_last(), i);
        assert(tags.drop_last()[i] == tags[i]);
    }
}

/// A fresh attribute map with the one attribute `key`, when `v` is given.
fn attrs_with(key: &str, v: Option<String>) -> (r: Attrs)
    ensures
        attrs_entries(r) == opt_attr(key@, match v {
            Some(s) => Some(s@),
            None => None,
        }),
{
    let mut attrs = attrs_new();
    if let Some(s) = v {
        attrs_insert(&mut attrs, key.to_string(), s);
        assert(attrs_entries(attrs) =~= seq![(key@, s@)]);
    }
    attrs
}

/// Writes an image: its description as the `alt` text and where it points as `src`.
fn render_image(out: &mut String, refs: &[(String, ReferenceDefinition)], x: &crate::ast::Image)
    ensures
        final(out)@ == old(out)@ + html_of(Tag::Image(*x), refs@),
{
    let mut attrs = attrs_new();
    let alt_text = get_string_content(x.children.as_slice());
    let ghost alt = alt_text@;
    if alt_text.as_str().unicode_len() > 0 {
        attrs_insert(&mut attrs, "alt".to_string(), alt_text);
    }
    let ghost first = opt_attr("alt"@, if alt.len() > 0 { Some(alt) } else { None });
    assert(attrs_entries(attrs) =~= first);
    let dest = resolve_reference(refs, &x.destination, &x.reference);
    let ghost dv = resolve(refs@, x.destination, x.reference);
    if let Some(d) = dest {
        proof {
            reveal_strlit("alt");
            reveal_strlit("src");
            assert("alt"@[0] != "src"@[0]);
            assert(forall|i: int| 0 <= i < first.len() ==> (#[trigger] first[i]).0 != "src"@);
        }
        attrs_insert(&mut attrs, "src".to_string(), d);
    }
    assert(attrs_entries(attrs) =~= first + opt_attr("src"@, dv));
    render_tag(out, "img", &attrs);
}

/// Writes a code block: `pre`, then `code` with the language as its class, then the text.
fn render_code_block(out: &mut String, refs: &[(String, ReferenceDefinition)], x: &crate::ast::CodeBlock)
    ensures
        final(out)@ == old(out)@ + html_of(Tag::CodeBlock(*x), refs@),
{
    render_tag(out, "pre", &x.attrs);
    let cls = match &x.lang {
        Some(lang) => {
            let mut c = String::from_str("language-");
            c.append(lang.as_str());
            Some(c)
        },
        None => None,
    };
    let attrs = attrs_with("class", cls);
    render_tag(out, "code", &attrs);
    push_escaped(out, x.text.as_str(), false);
    out.append("</code></pre>\n");
}

/// Writes a bare link: its destination, pointed to by `href`.
fn render_url(out: &mut String, refs: &[(String, ReferenceDefinition)], x: &crate::ast::Url)
    ensures
        final(out)@ == old(out)@ + html_of(Tag::Url(*x), refs@),
{
    let attrs = attrs_with("href", Some(x.destination.clone()));
    render_tag(out, "a", &attrs);
    push_escaped(out, x.destination.as_str(), false);
    out.append("</a>");
}

/// Writes the HTML of `tag`.
#[verifier::rlimit(30)]
fn render(out: &mut String, refs: &[(String, ReferenceDefinition)], tag: &Tag)
    requires
        heading_free(*tag),
    ensures
        final(out)@ == old(out)@ + html_of(*tag, refs@),
    decreases tag,
{
    let ghost start = out@;
    match tag {
        Tag::Heading(_) => {},
        Tag::Para(x) => {
            render_tag(out, "p", &x.attrs);
            render_children(out, refs, x.children.as_slice());
            out.append("</p>");
            out.append("\n");
            assert(out@ =~= start + html_of(*tag, refs@));
        },
        Tag::Link(x) => {
            let dest = resolve_reference(refs, &x.destination, &x.reference);
            let attrs = attrs_with("href", dest);
            render_tag(out, "a", &attrs);
            render_children(out, refs, x.children.as_slice());
            out.append("</a>");
            assert(out@ =~= start + html_of(*tag, refs@));
        },
        Tag::Image(x) => render_image(out, refs, x),
        Tag::CodeBlock(x) => render_code_block(out, refs, x),
        Tag::Strong(x) => {
            render_tag(out, "strong", &x.attrs);
            render_children(out, refs, x.children.as_slice());
            out.append("</strong>");
            assert(out@ =~= start + html_of(*tag, refs@));
        },
        Tag::Emph(x) => {
            render_tag(out, "em", &x.attrs);
            render_children(out, refs, x.children.as_slice());
            out.append("</em>");
            assert(out@ =~= start + html_of(*tag, refs@));
        },
        Tag::DoubleQuoted(x) => {
            out.append("&ldquo;");
            render_children(out, refs, x.children.as_slice());
            out.append("&rdquo;");
            assert(out@ =~= start + html_of(*tag, refs@));
        },
        Tag::SoftBreak(_) => out.append("\n"),
        Tag::Url(x) => render_url(out, refs, x),
        Tag::Str(x) => {
            if attrs_is_empty(&x.attrs) {
                push_escaped(out, x.text.as_str(), false);
            } else {
                render_tag(out, "span", &x.attrs);
                push_escaped(out, x.text.as_str(), false);
                out.append("</span>");
            }
            assert(out@ =~= start + html_of(*tag, refs@));
        },
        Tag::Emoji(x) => {
            out.append(":");
            out.append(x.alias.as_str());
            out.append(":");
            assert(out@ =~= start + html_of(*tag, refs@));
        },
        Tag::Verbatim(x) => {
            render_tag(out, "code", &x.attrs);
            push_escaped(out, x.text.as_str(), false);
            out.append("</code>");
            assert(out@ =~= start + html_of(*tag, refs@));
        },
        Tag::Span(x) => {
            render_tag(out, "span", &x.attrs);
            render_children(out, refs, x.children.as_slice());
            out.append("</span>");
            assert(out@ =~= start + html_of(*tag, refs@));
        },
        Tag::Insert(x) => {
            render_tag(out, "ins", &x.attrs);
            render_children(out, refs, x.children.as_slice());
            out.append("</ins>");
            assert(out@ =~= start + html_of(*tag, refs@));
        },
        Tag::Delete(x) => {
            render_tag(out, "del", &x.attrs);
            render_children(out, refs, x.children.as_slice());
            out.append("</del>");
            assert(out@ =~= start + html_of(*tag, refs@));
        },
        Tag::Mark(x) => {
            render_tag(out, "mark", &x.attrs);
            render_children(out, refs, x.children.as_slice());
            out.append("</mark>");
            assert(out@ =~= start + html_of(*tag, refs@));
        },
        Tag::Superscript(x) => {
            render_tag(out, "sup", &x.attrs);
            render_children(out, refs, x.children.as_slice());
            out.append("</sup>");
            assert(out@ =~= start + html_of(*tag, refs@));
        },
        Tag::Subscript(x) => {
            render_tag(out, "sub", &x.attrs);
            render_children(out, refs, x.children.as_slice());
            out.append("</sub>");
            assert(out@ =~= start + html_of(*tag, refs@));
        },
        Tag::EmDash(_) => out.append("&mdash;"),
        Tag::EnDash(_) => out.append("&ndash;"),
    }
    assert(out@ =~= start + html_of(*tag, refs@));
}

/// The HTML of a document: its elements one after the other.
pub fn convert(opts: &HtmlOpts, doc: &Document) -> (r: String)
    requires
        headings_free(doc.children@),
    ensures
        r@ == html_list(doc.children@, doc.references@),
{
    let mut res = String::new();
    render_children(&mut res, doc.references.as_slice(), doc.children.as_slice());
    res
}

/// Rendering a list of elements renders each part in turn: the HTML of `a` followed by `b`
/// is the HTML of `a` followed by the HTML of `b`.
pub proof fn lemma_html_list_concat(a: Seq<Tag>, b: Seq<Tag>, refs: Seq<(String, ReferenceDefinition)>)
    ensures
        html_list(a + b, refs) == html_list(a, refs) + html_list(b, refs),
    decreases b.len(),
{
    if b.len() == 0 {
        assert(a + b =~= a);
        assert(html_list(a, refs) + html_list(b, refs) =~= html_list(a, refs));
    } else {
        lemma_html_list_concat(a, b.drop_last(), refs);
        assert((a + b).drop_last() =~= a + b.drop_last());
        assert((a + b).last() == b.last());
        assert(html_list(a + b, refs) =~= html_list(a, refs) + html_list(b, refs));
    }
}

/// Where a link or image points, over the values of the definitions: its own destination,
/// or the definition of its reference.
pub open spec fn resolve_in(
    refs: Map<Seq<char>, Seq<char>>,
    destination: Option<Seq<char>>,
    reference: Option<Seq<char>>,
) -> Option<Seq<char>> {
    match destination {
        Some(d) => Some(d),
        None => match reference {
            Some(r) => if refs.contains_key(r) {
                Some(refs[r])
            } else {
                None
            },
            None => None,
        },
    }
}

/// The tag name of an element with children (quotes have none).
pub open spec fn elem_name(k: Elem) -> Seq<char> {
    match k {
        Elem::Para => "p"@,
        Elem::Strong => "strong"@,
        Elem::Emph => "em"@,
        Elem::Insert => "ins"@,
        Elem::Delete => "del"@,
        Elem::Mark => "mark"@,
        Elem::Superscript => "sup"@,
        Elem::Subscript => "sub"@,
        Elem::DoubleQuoted => Seq::empty(),
        Elem::Span => "span"@,
    }
}

/// The closing tag of an element with children.
pub open spec fn elem_close(k: Elem) -> Seq<char> {
    match k {
        Elem::Para => "</p>"@,
        Elem::Strong => "</strong>"@,
        Elem::Emph => "</em>"@,
        Elem::Insert => "</ins>"@,
        Elem::Delete => "</del>"@,
        Elem::Mark => "</mark>"@,
        Elem::Superscript => "</sup>"@,
        Elem::Subscript => "</sub>"@,
        Elem::DoubleQuoted => "&rdquo;"@,
        Elem::Span => "</span>"@,
    }
}

/// The HTML of elements one after the other, given as values.
pub open spec fn nodes_html(ns: Seq<Node>, refs: Map<Seq<char>, Seq<char>>) -> Seq<char>
    decreases ns,
{
    if ns.len() == 0 {
        Seq::empty()
    } else {
        nodes_html(ns.drop_last(), refs) + node_html(ns.last(), refs)
    }
}

/// The HTML of an element given as a value; `refs` gives the reference definitions.
pub open spec fn node_html(n: Node, refs: Map<Seq<char>, Seq<char>>) -> Seq<char>
    decreases n,
{
    match n {
        Node::Elem { kind, attrs, children } => if kind == Elem::DoubleQuoted {
            "&ldquo;"@ + nodes_html(children, refs) + "&rdquo;"@
        } else if kind == Elem::Para {
            open_tag("p"@, attrs) + nodes_html(children, refs) + "</p>"@ + "\n"@
        } else {
            open_tag(elem_name(kind), attrs) + nodes_html(children, refs) + elem_close(kind)
        },
        Node::Link { children, destination, reference, .. } => open_tag(
            "a"@,
            opt_attr("href"@, resolve_in(refs, destination, reference)),
        ) + nodes_html(children, refs) + "</a>"@,
        Node::Image { children, destination, reference, .. } => {
            let alt = node_string(children);
            open_tag(
                "img"@,
                opt_attr("alt"@, if alt.len() > 0 { Some(alt) } else { None }) + opt_attr(
                    "src"@,
                    resolve_in(refs, destination, reference),
                ),
            )
        },
        Node::CodeBlock { attrs, lang, text, .. } => open_tag("pre"@, attrs) + open_tag(
            "code"@,
            opt_attr(
                "class"@,
                match lang {
                    Some(l) => Some("language-"@ + l),
                    None => None,
                },
            ),
        ) + escape_html(text, false) + "</code></pre>\n"@,
        Node::Url { destination, .. } => open_tag("a"@, seq![("href"@, destination)]) + escape_html(
            destination,
            false,
        ) + "</a>"@,
        Node::SoftBreak { .. } => "\n"@,
        Node::EmDash { .. } => "&mdash;"@,
        Node::EnDash { .. } => "&ndash;"@,
        Node::Verbatim { attrs, text } => open_tag("code"@, attrs) + escape_html(text, false) + "</code>"@,
        Node::Str { attrs, text } => if attrs.len() == 0 {
            escape_html(text, false)
        } else {
            open_tag("span"@, attrs) + escape_html(text, false) + "</span>"@
        },
        Node::Emoji { alias, .. } => ":"@ + alias + ":"@,
        Node::Other => Seq::empty(),
    }
}

/// Looking up a reference through the definitions or through their values agrees.
proof fn lemma_resolve_values(refs: Seq<(String, ReferenceDefinition)>, destination: Option<String>, reference: Option<String>)
    ensures
        resolve(refs, destination, reference) == resolve_in(refs_map(refs), opt_chars(destination), opt_chars(reference)),
{
}

/// The HTML of tags free of headings is the HTML of their values.
pub proof fn lemma_html_list_values(tags: Seq<Tag>, refs: Seq<(String, ReferenceDefinition)>)
    requires
        headings_free(tags),
    ensures
        html_list(tags, refs) == nodes_html(nodes_of(tags), refs_map(refs)),
    decreases tags,
{
    if tags.len() > 0 {
        lemma_html_list_values(tags.drop_last(), refs);
        assert(nodes_of(tags).drop_last() =~= nodes_of(tags.drop_last()));
        lemma_html_values(tags.last(), refs);
    }
}

/// The HTML of a tag free of headings is the HTML of its value.
pub proof fn lemma_html_values(t: Tag, refs: Seq<(String, ReferenceDefinition)>)
    requires
        heading_free(t),
    ensures
        html_of(t, refs) == node_html(node_of(t), refs_map(refs)),
    decreases t,
{
    match t {
        Tag::Para(x) => lemma_html_list_values(x.children@, refs),
        Tag::Link(x) => {
            lemma_html_list_values(x.children@, refs);
            lemma_resolve_values(refs, x.destination, x.reference);
        },
        Tag::Image(x) => {
            lemma_string_content_nodes(x.children@);
            lemma_resolve_values(refs, x.destination, x.reference);
        },
        Tag::Strong(x) => lemma_html_list_values(x.children@, refs),
        Tag::Emph(x) => lemma_html_list_values(x.children@, refs),
        Tag::Insert(x) => lemma_html_list_values(x.children@, refs),
        Tag::Delete(x) => lemma_html_list_values(x.children@, refs),
        Tag::Mark(x) => lemma_html_list_values(x.children@, refs),
        Tag::Superscript(x) => lemma_html_list_values(x.children@, refs),
        Tag::Subscript(x) => lemma_html_list_values(x.children@, refs),
        Tag::Span(x) => lemma_html_list_values(x.children@, refs),
        Tag::DoubleQuoted(x) => lemma_html_list_values(x.children@, refs),
        _ => {},
    }
}

} // verus!
