//! A parser for the Djot light markup language, and an HTML renderer for it.
pub mod annot;
pub mod ast;
pub mod attribute;
pub mod block;
pub mod errors;
pub mod html;
pub mod inline;
pub mod luapat;
pub mod patterns;
pub mod text;
pub mod tree;

use vstd::prelude::*;

verus! {

/// An annotated range `s..e` of the source text.
#[derive(Debug, Clone, Copy)]
pub struct Match {
    pub s: usize,
    pub e: usize,
    pub a: annot::Annot,
}

impl Match {
    pub fn new(s: usize, e: usize, a: annot::Annot) -> (r: Match)
        ensures
            r == (Match { s, e, a }),
    {
        Match { s, e, a }
    }

    pub fn is(&self, annot: annot::Annot) -> (r: bool)
        ensures
            r == (self.a == annot),
    {
        self.a == annot
    }

    pub fn is_not(&self, annot: annot::Annot) -> (r: bool)
        ensures
            r == (self.a != annot),
    {
        !self.is(annot)
    }
}

/// The elements of the document that `text` makes, as values.
pub open spec fn doc_nodes(text: Seq<char>) -> Seq<tree::Node> {
    let t = patterns::text_bytes(subject_of(text));
    tree::spec_doc(t, block::block_matches(t), 0, Map::empty()).0
}

/// The reference definitions of the document that `text` makes: each key with its
/// destination.
pub open spec fn doc_references(text: Seq<char>) -> Map<Seq<char>, Seq<char>> {
    let t = patterns::text_bytes(subject_of(text));
    tree::spec_doc(t, block::block_matches(t), 0, Map::empty()).1
}

/// The HTML of the document that `text` makes.
pub open spec fn text_html(text: Seq<char>) -> Seq<char> {
    html::nodes_html(doc_nodes(text), doc_references(text))
}

/// A parsed document: its elements, the debug listing of its matches (when asked for),
/// and the reference definitions it makes, each key once.
#[derive(Debug)]
pub struct Document {
    pub children: Vec<ast::Tag>,
    pub debug: String,
    pub references: Vec<(String, ast::ReferenceDefinition)>,
}

/// The text that the block parser reads for `text`: the text itself when it ends with a line
/// break, else the text and a final line feed.
pub open spec fn subject_of(text: Seq<char>) -> Seq<char> {
    if patterns::found(patterns::text_bytes(text), "[\r\n]$", 0) {
        text
    } else {
        text + "\n"@
    }
}

impl Document {
    /// Parses `text` with the default options.
    pub fn parse(text: &str) -> (r: Document)
        requires
            patterns::text_bytes(text@).len() + 20 <= usize::MAX,
        ensures
            ast::headings_free(r.children@),
            tree::refs_distinct(r.references@),
            tree::nodes_of(r.children@) == doc_nodes(text@),
            tree::refs_map(r.references@) == doc_references(text@),
            r.debug@.len() == 0,
    {
        Document::parse_opts(ParseOpts::default(), text)
    }

    /// Parses `text`: the block parser annotates it, then the tree is built from the
    /// annotations. With `debug_matches`, `debug` lists the annotations, one line each.
    pub fn parse_opts(opts: ParseOpts, text: &str) -> (r: Document)
        requires
            patterns::text_bytes(text@).len() + 20 <= usize::MAX,
        ensures
            ast::headings_free(r.children@),
            tree::refs_distinct(r.references@),
            tree::nodes_of(r.children@) == doc_nodes(text@),
            tree::refs_map(r.references@) == doc_references(text@),
            !opts.debug_matches ==> r.debug@.len() == 0,
            opts.debug_matches ==> r.debug@ == block::debug_listing(
                patterns::text_bytes(subject_of(text@)),
                block::block_matches(patterns::text_bytes(subject_of(text@))),
            ),
    {
        let mut p = block::Tokenizer::new(String::from_str(text), opts);
        p.parse();
        let ghost listing = p.debug@;
        assert(p.subject@ == subject_of(text@));
        assert(opts.debug_matches ==> listing =~= block::debug_listing(
            patterns::text_bytes(subject_of(text@)),
            block::block_matches(patterns::text_bytes(subject_of(text@))),
        ));
        tree::build(p)
    }

    /// The HTML of the document.
    pub fn to_html(&self) -> (r: String)
        requires
            ast::headings_free(self.children@),
        ensures
            r@ == html::html_list(self.children@, self.references@),
            r@ == html::nodes_html(tree::nodes_of(self.children@), tree::refs_map(self.references@)),
    {
        self.to_html_opts(&HtmlOpts::default())
    }

    /// The HTML of the document, with the given options.
    pub fn to_html_opts(&self, opts: &HtmlOpts) -> (r: String)
        requires
            ast::headings_free(self.children@),
        ensures
            r@ == html::html_list(self.children@, self.references@),
            r@ == html::nodes_html(tree::nodes_of(self.children@), tree::refs_map(self.references@)),
    {
        proof {
            html::lemma_html_list_values(self.children@, self.references@);
        }
        html::convert(opts, self)
    }
}

/// Options of the parser.
#[derive(Clone, Copy, Debug)]
pub struct ParseOpts {
    /// Also list every annotated range in `Document::debug`.
    pub debug_matches: bool,
}

impl Default for ParseOpts {
    fn default() -> (r: ParseOpts)
        ensures
            !r.debug_matches,
    {
        ParseOpts { debug_matches: false }
    }
}

/// Options of the HTML renderer (none yet).
#[derive(Clone, Copy, Debug)]
pub struct HtmlOpts {}

impl Default for HtmlOpts {
    fn default() -> (r: HtmlOpts) {
        HtmlOpts {  }
    }
}

} // verus!
