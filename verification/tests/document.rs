use djot::{Document, HtmlOpts, ParseOpts};

fn html(src: &str) -> String {
    Document::parse(src).to_html()
}

fn debug(src: &str) -> String {
    Document::parse_opts(ParseOpts { debug_matches: true }, src).debug
}

#[test]
fn paragraph_of_plain_text() {
    assert_eq!(html("hello world"), "<p>hello world</p>\n");
}

#[test]
fn final_newline_makes_no_difference() {
    assert_eq!(html("hello world\n"), html("hello world"));
}

#[test]
fn debug_lists_matches() {
    assert_eq!(
        debug("hi\n"),
        "+para 1-1            \"\"\nstr 1-2              \"hi\"\n-para 3-3            \"\"\n"
    );
}

#[test]
fn debug_is_empty_without_the_option() {
    assert_eq!(Document::parse("hi *there*").debug, "");
}

#[test]
fn strong_and_emphasis() {
    assert_eq!(
        html("*strong* and _emph_"),
        "<p><strong>strong</strong> and <em>emph</em></p>\n"
    );
    assert_eq!(
        debug("*strong* and _emph_"),
        [
            "+para 1-1            \"\"\n",
            "+strong 1-1          \"\"\n",
            "str 2-7              \"strong\"\n",
            "-strong 8-8          \"\"\n",
            "str 9-13             \" and \"\n",
            "+emph 14-14          \"\"\n",
            "str 15-18            \"emph\"\n",
            "-emph 19-19          \"\"\n",
            "-para 20-20          \"\"\n"
        ]
        .concat()
    );
}

#[test]
fn verbatim() {
    assert_eq!(html("`code` here"), "<p><code>code</code> here</p>\n");
}

#[test]
fn verbatim_keeps_inner_backticks() {
    assert_eq!(html("``` a `` b ```"), "<p><code> a `` b </code></p>\n");
}

#[test]
fn verbatim_drops_one_space_before_a_leading_backtick() {
    assert_eq!(html("`` `a` ``"), "<p><code>`a`</code></p>\n");
}

#[test]
fn inline_link() {
    assert_eq!(html("[text](http://x.y)"), "<p><a href=\"http://x.y\">text</a></p>\n");
}

#[test]
fn link_destination_drops_line_breaks() {
    assert_eq!(html("[text](http://x\n.y)"), "<p><a href=\"http://x.y\">text</a></p>\n");
}

#[test]
fn fenced_code_block_with_language() {
    assert_eq!(
        html("```rust\nfn main() {}\n```\n"),
        "<pre><code class=\"language-rust\">fn main() {}\n</code></pre>\n"
    );
    assert_eq!(
        debug("```rust\nfn main() {}\n```\n"),
        [
            "+code_block 1-3      \"```\"\n",
            "code_language 4-7    \"rust\"\n",
            "str 9-21             \"fn main() {}\\n\"\n",
            "-code_block 22-24    \"```\"\n"
        ]
        .concat()
    );
}

#[test]
fn tilde_code_block_without_language() {
    assert_eq!(html("~~~\nx\n~~~\n"), "<pre><code>x\n</code></pre>\n");
}

#[test]
fn reference_link() {
    assert_eq!(html("[foo][bar]\n\n[bar]: /url\n"), "<p><a href=\"/url\">foo</a></p>\n");
    assert_eq!(
        debug("[foo][bar]\n\n[bar]: /url\n"),
        [
            "+para 1-1            \"\"\n",
            "+linktext 1-1        \"[\"\n",
            "str 2-4              \"foo\"\n",
            "-linktext 5-6        \"][\"\n",
            "+reference 6-6       \"[\"\n",
            "str 7-9              \"bar\"\n",
            "-reference 10-10     \"\"\n",
            "-para 11-11          \"\"\n",
            "blankline 12-12      \"\\n\"\n",
            "+reference_definition 13-13 \"\"\n",
            "reference_key 13-17  \"[bar]\"\n",
            "reference_value 20-23 \"/url\"\n",
            "-reference_definition 25-25 \"\"\n"
        ]
        .concat()
    );
}

#[test]
fn reference_link_by_its_own_text() {
    assert_eq!(html("[auto][]\n\n[auto]: /a\n"), "<p><a href=\"/a\">auto</a></p>\n");
}

#[test]
fn undefined_reference_gives_no_href() {
    assert_eq!(html("[foo][nowhere]"), "<p><a>foo</a></p>\n");
}

#[test]
fn later_definition_of_a_key_wins() {
    assert_eq!(html("[foo][k]\n\n[k]: /one\n\n[k]: /two\n"), "<p><a href=\"/two\">foo</a></p>\n");
}

#[test]
fn image() {
    assert_eq!(
        html("![alt text](img.png)"),
        "<p><img alt=\"alt text\" src=\"img.png\"></p>\n"
    );
}

#[test]
fn autolink() {
    assert_eq!(
        html("<http://example.com>"),
        "<p><a href=\"http://example.com\">http://example.com</a></p>\n"
    );
}

#[test]
fn soft_break() {
    assert_eq!(html("a\nb\n"), "<p>a\nb</p>\n");
}

#[test]
fn superscript_and_subscript() {
    assert_eq!(
        html("x^sup^ and x~sub~"),
        "<p>x<sup>sup</sup> and x<sub>sub</sub></p>\n"
    );
}

#[test]
fn double_quotes() {
    assert_eq!(html("\"quoted\""), "<p>&ldquo;quoted&rdquo;</p>\n");
}

#[test]
fn escaped_star() {
    assert_eq!(html("a\\*b"), "<p>a*b</p>\n");
}

#[test]
fn two_paragraphs() {
    assert_eq!(html("one\n\ntwo\n"), "<p>one</p>\n<p>two</p>\n");
}

#[test]
fn empty_document() {
    assert_eq!(html(""), "");
}

#[test]
fn to_html_opts_agrees_with_to_html() {
    let doc = Document::parse("*a* b");
    assert_eq!(doc.to_html_opts(&HtmlOpts {}), doc.to_html());
}

#[test]
fn references_are_recorded() {
    let doc = Document::parse("[k]: /url\n");
    assert_eq!(doc.references.len(), 1);
    assert_eq!(doc.references[0].0, "k");
    assert_eq!(doc.references[0].1.destination, "/url");
}

#[test]
fn hard_break() {
    // the escape itself is the last match when the break is seen, so the spaces before it
    // stay in the string
    assert_eq!(
        debug("a  \\\nb\n"),
        [
            "+para 1-1            \"\"\n",
            "str 1-3              \"a  \"\n",
            "escape 4-4           \"\\\\\"\n",
            "hardbreak 5-5        \"\\n\"\n",
            "str 6-6              \"b\"\n",
            "-para 7-7            \"\"\n",
        ]
        .concat()
    );
}

#[test]
fn emoji_alias() {
    assert_eq!(html("a :smile: b"), "<p>a :smile: b</p>\n");
}

#[test]
fn ellipsis_is_annotated() {
    assert_eq!(
        debug("a..."),
        [
            "+para 1-1            \"\"\n",
            "str 1-1              \"a\"\n",
            "ellipses 2-4         \"...\"\n",
            "-para 5-5            \"\"\n",
        ]
        .concat()
    );
}

#[test]
fn rendering_two_paragraphs_is_rendering_each() {
    assert_eq!(html("one\n\ntwo\n"), html("one") + &html("two"));
}

#[test]
fn reference_definition_with_continuation_line() {
    assert_eq!(
        html("[foo][]\n\n[foo]: /a\n  /b\n"),
        "<p><a href=\"/a/b\">foo</a></p>\n"
    );
}

#[test]
fn image_by_reference_takes_its_alt_text() {
    assert_eq!(
        html("![logo][l]\n\n[l]: logo.png\n"),
        "<p><img alt=\"logo\" src=\"logo.png\"></p>\n"
    );
}

#[test]
fn email_autolink_renders_its_text() {
    assert_eq!(html("<me@example.com>"), "<p>me@example.com</p>\n");
}

#[test]
fn lazy_paragraph_continuation() {
    assert_eq!(html("a\n  b\n"), "<p>a\nb</p>\n");
}

#[test]
fn code_block_keeps_extra_indentation() {
    assert_eq!(html("```\n  x\n```\n"), "<pre><code>  x\n</code></pre>\n");
}

#[test]
fn unclosed_code_block_runs_to_the_end() {
    assert_eq!(html("```\nx\n"), "<pre><code>x\n</code></pre>\n");
}

#[test]
fn link_by_reference_with_line_break_in_key() {
    assert_eq!(
        html("[foo][a\nb]\n\n[a b]: /ab\n"),
        "<p><a href=\"/ab\">foo</a></p>\n"
    );
}

#[test]
fn image_alt_text_joins_strings_emphasis_and_breaks() {
    assert_eq!(
        html("![a _b_\nc](x.png)"),
        "<p><img alt=\"a b\nc\" src=\"x.png\"></p>\n"
    );
}

#[test]
fn text_is_escaped() {
    assert_eq!(html("a<b"), "<p>a&lt;b</p>\n");
    assert_eq!(html("`x<y`"), "<p><code>x&lt;y</code></p>\n");
}

#[test]
fn image_alt_text_looks_inside_strong() {
    assert_eq!(html("![a *b*](x.png)"), "<p><img alt=\"a b\" src=\"x.png\"></p>\n");
}

#[test]
fn block_annotations_are_well_nested() {
    let listing = debug("para one\n\n```\ncode\n```\n[key]: /url\n\nlast _x_\n");
    let mut open: Vec<String> = Vec::new();
    for line in listing.lines() {
        let head = line.split_whitespace().next().unwrap_or("");
        let name = &head[1..];
        if name != "para" && name != "code_block" && name != "reference_definition" {
            continue;
        }
        if head.starts_with('+') {
            open.push(name.to_string());
        } else if head.starts_with('-') {
            assert_eq!(open.pop().as_deref(), Some(name));
        }
    }
    assert!(open.is_empty());
    assert!(listing.contains("+code_block"));
    assert!(listing.contains("+reference_definition"));
}
