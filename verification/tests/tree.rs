use djot::ast::{Emoji, Str, Tag};
use djot::Document;
use indexmap::IndexMap;

fn render(children: Vec<Tag>) -> String {
    Document { children, debug: String::new(), references: Vec::new() }.to_html()
}

#[test]
fn string_with_attributes_is_a_span() {
    let mut attrs = IndexMap::new();
    attrs.insert("class".to_string(), "x".to_string());
    attrs.insert("id".to_string(), "y".to_string());
    let tag = Tag::Str(Str::new("hi".to_string())).with_attrs(attrs);
    assert_eq!(render(vec![tag]), "<span class=\"x\" id=\"y\">hi</span>");
}

#[test]
fn string_without_attributes_is_its_text() {
    assert_eq!(render(vec![Tag::Str(Str::new("a<b & c>".to_string()))]), "a&lt;b &amp; c&gt;");
}

#[test]
fn emoji_renders_its_alias() {
    assert_eq!(render(vec![Tag::Emoji(Emoji::new("smile".to_string()))]), ":smile:");
}

#[test]
fn with_children_replaces_children() {
    let doc = Document::parse("*a*");
    let para = doc.children.into_iter().next().unwrap();
    let para = para.with_children(vec![Tag::Str(Str::new("b".to_string()))]);
    assert_eq!(render(vec![para]), "<p>b</p>\n");
}

#[test]
fn with_children_keeps_a_tag_without_children() {
    let tag = Tag::Str(Str::new("c".to_string())).with_children(vec![Tag::Str(Str::new("d".to_string()))]);
    assert_eq!(render(vec![tag]), "c");
}

#[test]
fn attribute_values_are_escaped_in_double_quotes() {
    let mut attrs = IndexMap::new();
    attrs.insert("title".to_string(), "a\"b&c<d>".to_string());
    let tag = Tag::Str(Str::new("t".to_string())).with_attrs(attrs);
    assert_eq!(render(vec![tag]), "<span title=\"a&quot;b&amp;c&lt;d&gt;\">t</span>");
}

#[test]
fn string_content_takes_text_of_every_container() {
    let inner = Tag::Str(Str::new("a".to_string()));
    let strong = Tag::Strong(djot::ast::Strong { attrs: IndexMap::new(), children: vec![inner] });
    assert_eq!(djot::tree::get_string_content(&[strong]), "a");
}
