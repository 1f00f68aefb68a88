# djot

A parser for the [Djot](https://djot.net) light markup language and an HTML renderer for
it, written in Verus. The functions of the library under `src/` are verified against their
contracts, except a few trusted wrappers whose contracts are taken on trust: those of
`ast` around the `indexmap` map that holds attributes (`attrs_new`, `attrs_insert`,
`attrs_len`, `attrs_is_empty`, `attrs_get_index`), and those of `text` around the standard
library (`quote_debug` for `{:?}` formatting, `push_char` for `String::push`).

The text goes through three stages:

- `block`: reads the text line by line, keeps the stack of open containers (paragraphs,
  fenced code blocks, reference definitions) and annotates ranges of the text;
- `inline`: annotates the inline content of each paragraph (emphasis, verbatim, links,
  escapes, ...); `attribute` tokenizes attribute blocks;
- `tree`: builds the document tree (`ast`) from the annotated ranges; `html` renders it.

`luapat` is a matcher for Lua string patterns, which the tokenizers use through
`patterns`. `annot` names the annotations; `text` holds small verified text helpers.

Each stage is specified by spec functions over values: `block::block_matches`,
`inline::spec_scan` and `inline::spec_get_matches`, `tree::spec_doc`, `html::nodes_html`;
`text_html` in `lib.rs` gives the HTML that a text makes.

`app/` is the command line program: it reads files or standard input and prints HTML, the
annotated ranges (`-m`) or the tree as JSON (`-a`).
