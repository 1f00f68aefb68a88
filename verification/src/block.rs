//! The block parser: it reads the subject line by line, keeps the stack of open block
//! containers (paragraphs, code blocks, reference definitions) and annotates ranges.
use crate::annot::{spec_annot_text, Annot, Atom, Comp};
use crate::inline::Parser;
use crate::inline::{
    initial_state, inline_only, is_block_annot, is_block_comp, lemma_get_matches_inline_only,
    lemma_scan_inline_only, spec_get_matches, spec_scan, InlineState,
};
use crate::patterns::{bytes_of, capture_at, find, found, spec_find, text_bytes, PatMatch};
use crate::text::{
    debug_quoted, decimal, lemma_encode_utf8_concat, push_decimal, quote_debug, slice_chars,
    slice_text,
};
use crate::{Match, ParseOpts};
use vstd::prelude::*;
use vstd::string::StrSliceExecFns;

verus! {

/// What a container holds: inline content, verbatim text, or nothing of its own.
#[derive(Debug, Clone, Copy, PartialEq, Eq, Structural)]
pub enum Content {
    Inline,
    Text,
    Empty,
}

/// An open block container.
pub enum Container {
    Para { inline_parser: Parser },
    CodeBlock { border: u8, indent: usize },
    ReferenceDefinition { indent: usize },
}

impl Container {
    pub fn content(&self) -> (r: Content)
        ensures
            r == match self {
                Container::Para { .. } => Content::Inline,
                Container::CodeBlock { .. } => Content::Text,
                Container::ReferenceDefinition { .. } => Content::Empty,
            },
    {
        match self {
            Container::Para { .. } => Content::Inline,
            Container::CodeBlock { .. } => Content::Text,
            Container::ReferenceDefinition { .. } => Content::Empty,
        }
    }

    /// The indentation to give back to each line of verbatim content.
    pub fn restore_indent(&self) -> (r: Option<usize>)
        ensures
            r == match self {
                Container::CodeBlock { indent, .. } => Some(*indent),
                _ => None,
            },
    {
        match self {
            Container::CodeBlock { indent, .. } => Some(*indent),
            _ => None,
        }
    }
}

pub struct Tokenizer {
    pub subject: String,
    pub indent: usize,
    pub startline: usize,
    pub starteol: usize,
    pub endeol: usize,
    pub matches: Vec<Match>,
    pub pos: usize,
    pub last_matched_container: usize,
    pub opts: ParseOpts,
    pub finished_line: bool,
    pub debug: String,
}

/// Every match spans a range that does not end before it starts.
pub open spec fn ranges_ok(ms: Seq<Match>) -> bool {
    forall|i: int| 0 <= i < ms.len() ==> (#[trigger] ms[i]).s <= ms[i].e
}

/// A container is well formed when its inline parser, if any, reads this subject.
pub open spec fn container_ok(c: Container, subject: Seq<char>) -> bool {
    match c {
        Container::Para { inline_parser } => inline_parser.wf() && inline_parser.subject@ == subject,
        _ => true,
    }
}

/// Every container of the stack is well formed.
pub open spec fn containers_ok(cs: Seq<Container>, subject: Seq<char>) -> bool {
    forall|i: int| 0 <= i < cs.len() ==> container_ok(#[trigger] cs[i], subject)
}

/// The head of a line of the debug listing: the annotation and the 1-based range.
pub open spec fn debug_head(m: Match) -> Seq<char> {
    spec_annot_text(m.a) + " "@ + decimal((m.s + 1) as nat) + "-"@ + decimal(
        if m.e == m.s {
            (m.e + 1) as nat
        } else {
            m.e as nat
        },
    )
}

/// `t` padded with spaces to at least 20 characters.
pub open spec fn pad20(t: Seq<char>) -> Seq<char> {
    if t.len() < 20 {
        t + Seq::new((20 - t.len()) as nat, |i: int| ' ')
    } else {
        t
    }
}

/// One line of the debug listing: the head padded to 20 characters, then the matched text of
/// `text` quoted.
pub open spec fn debug_line(text: Seq<u8>, m: Match) -> Seq<char> {
    pad20(debug_head(m)) + " "@ + debug_quoted(slice_chars(text, m.s as int, m.e as int)) + "\n"@
}

/// The debug listing of the matches `ms` of `text`, one line each.
pub open spec fn debug_listing(text: Seq<u8>, ms: Seq<Match>) -> Seq<char>
    decreases ms.len(),
{
    if ms.len() == 0 {
        Seq::empty()
    } else {
        debug_listing(text, ms.drop_last()) + debug_line(text, ms.last())
    }
}

/// Appends one line of the debug listing for the match `m` of `subject`.
pub fn push_debug_line(out: &mut String, subject: &str, m: Match)
    ensures
        final(out)@ == old(out)@ + debug_line(text_bytes(subject@), m),
{
    let mut head = m.a.to_text();
    head.append(" ");
    push_decimal(&mut head, m.s as u128 + 1);
    head.append("-");
    if m.e == m.s {
        push_decimal(&mut head, m.e as u128 + 1);
    } else {
        push_decimal(&mut head, m.e as u128);
    }
    proof {
        assert(head@ =~= debug_head(m));
    }
    let ghost h = head@;
    let n = head.as_str().unicode_len();
    let mut k = n;
    while k < 20
        invariant
            n == h.len(),
            n <= k <= 20 || (n > 20 && k == n),
            head@ == h + Seq::new((k - n) as nat, |i: int| ' '),
        decreases 20 - k,
    {
        head.append(" ");
        proof {
            reveal_strlit(" ");
        }
        assert(head@ =~= h + Seq::new((k + 1 - n) as nat, |i: int| ' '));
        k = k + 1;
    }
    proof {
        if n >= 20 {
            assert(head@ =~= h);
        }
        assert(head@ =~= pad20(h));
    }
    out.append(head.as_str());
    out.append(" ");
    let quoted = match slice_text(subject, m.s, m.e) {
        Some(t) => quote_debug(t),
        None => {
            proof {
                reveal_strlit("");
                assert(""@ =~= slice_chars(text_bytes(subject@), m.s as int, m.e as int));
            }
            quote_debug("")
        },
    };
    assert(quoted@ == debug_quoted(slice_chars(text_bytes(subject@), m.s as int, m.e as int)));
    out.append(quoted.as_str());
    out.append("\n");
    proof {
        assert(out@ =~= old(out)@ + debug_line(text_bytes(subject@), m));
    }
}


/// The state of the block tokenizer as values, but for its subject, options and debug text.
pub struct BlockState {
    pub indent: usize,
    pub startline: usize,
    pub starteol: usize,
    pub endeol: usize,
    pub matches: Seq<Match>,
    pub pos: usize,
    pub lmc: usize,
    pub finished_line: bool,
}

/// An open container as values: a paragraph with the state of its inline parser and the
/// range it was fed, a code block with its fence and indentation, or a reference definition
/// with its indentation.
pub enum Cont {
    Para { inline: InlineState, first: usize, last: usize },
    CodeBlock { border: u8, indent: usize },
    ReferenceDefinition { indent: usize },
}

/// A container as values.
pub open spec fn cont_of(c: Container) -> Cont {
    match c {
        Container::Para { inline_parser } => Cont::Para {
            inline: inline_parser.state(),
            first: inline_parser.firstpos,
            last: inline_parser.lastpos,
        },
        Container::CodeBlock { border, indent } => Cont::CodeBlock { border, indent },
        Container::ReferenceDefinition { indent } => Cont::ReferenceDefinition { indent },
    }
}

/// The stack of containers as values.
pub open spec fn conts_of(cs: Seq<Container>) -> Seq<Cont> {
    cs.map_values(|c: Container| cont_of(c))
}

/// What a container holds.
pub open spec fn content_of(c: Cont) -> Content {
    match c {
        Cont::Para { .. } => Content::Inline,
        Cont::CodeBlock { .. } => Content::Text,
        Cont::ReferenceDefinition { .. } => Content::Empty,
    }
}

/// `s` with the match `a..b` annotated `ann` added.
pub open spec fn with_match(s: BlockState, a: usize, b: usize, ann: Annot) -> BlockState {
    BlockState { matches: s.matches.push(Match { s: a, e: b, a: ann }), ..s }
}

/// A search of `t` from the current position, with captures.
pub open spec fn search(t: Seq<u8>, s: BlockState, pat: &str) -> PatMatch {
    shift_captures(spec_find(t, bytes_of(pat), s.pos, true), s.pos)
}

/// A range counted from `start`, as positions in the whole subject.
pub open spec fn shift_range(c: std::ops::Range<usize>, start: usize) -> std::ops::Range<usize> {
    std::ops::Range {
        start: vstd::wrapping::usize_specs::wrapping_add(c.start, start),
        end: vstd::wrapping::usize_specs::wrapping_add(c.end, start),
    }
}

/// A match whose captures are counted from `start`, with the captures moved to positions
/// in the whole subject.
pub open spec fn shift_captures(m: PatMatch, start: usize) -> PatMatch {
    if m.is_match {
        PatMatch { cap1: shift_range(m.cap1, start), cap2: shift_range(m.cap2, start), ..m }
    } else {
        m
    }
}

/// The captures of a search from `start` in a subject of `len` bytes lie in `start..len`, and
/// an anchored pattern matches at `start`.
pub open spec fn captures_within(m: PatMatch, pat: Seq<u8>, start: usize, len: int) -> bool {
    &&& crate::patterns::capture_in_bounds(m.cap1, start, len)
    &&& crate::patterns::capture_in_bounds(m.cap2, start, len)
    &&& m.is_match && crate::luapat::is_anchored(pat) ==> m.start == start
}

/// Moving past spaces and tabs, recording the indentation.
pub open spec fn spec_skip_space(t: Seq<u8>, s: BlockState) -> BlockState {
    let m = spec_find(t, bytes_of("[^ \t]"), s.pos, false);
    if m.is_match {
        BlockState { indent: (m.start - s.startline) as usize, pos: m.start, ..s }
    } else {
        s
    }
}

/// Finding the line break that ends the current line, or the end of the text.
pub open spec fn spec_get_eol(t: Seq<u8>, s: BlockState) -> BlockState {
    let m = spec_find(t, bytes_of("[\r]?[\n]"), s.pos, false);
    if m.is_match {
        BlockState { starteol: m.start, endeol: m.end, ..s }
    } else {
        BlockState { starteol: t.len() as usize, endeol: t.len() as usize, ..s }
    }
}

/// Opening a paragraph at the current position.
pub open spec fn spec_open_para(s: BlockState) -> (BlockState, Cont) {
    (with_match(s, s.pos, s.pos, Annot::Add(Comp::Para)), Cont::Para { inline: initial_state(), first: 0, last: 0 })
}

/// Opening a fenced code block at the current position, if one starts there.
pub open spec fn spec_open_code_block(t: Seq<u8>, s: BlockState) -> (BlockState, Option<Cont>) {
    let m1 = search(t, s, "^```([ \t]*)([^%s`]*)[ \t]*[\r\n]");
    let border: u8 = if m1.is_match { 96 } else { 126 };
    let m = if m1.is_match { m1 } else { search(t, s, "^~~~([ \t]*)([^%s`]*)[ \t]*[\r\n]") };
    if !m.is_match {
        (s, None)
    } else {
        let lang = m.cap2;
        let s1 = with_match(s, s.pos, (s.pos + 3) as usize, Annot::Add(Comp::CodeBlock));
        let s2 = if lang.start < lang.end {
            with_match(s1, lang.start, lang.end, Annot::Atom(Atom::CodeLanguage))
        } else {
            s1
        };
        let p = if s.pos + 2 <= t.len() { (s.pos + 2) as usize } else { t.len() as usize };
        (BlockState { pos: p, finished_line: true, ..s2 }, Some(Cont::CodeBlock { border, indent: s.indent }))
    }
}

/// Opening a reference definition at the current position, if one starts there.
pub open spec fn spec_open_reference_definition(t: Seq<u8>, s: BlockState) -> (BlockState, Option<Cont>) {
    let m = search(t, s, "^[[]([^\r\n]*)%]:[ \t]*(%S*)");
    if !m.is_match || m.end <= s.pos {
        (s, None)
    } else {
        let key_len = (m.cap1.end - m.cap1.start) as usize;
        let s1 = with_match(s, m.start, m.start, Annot::Add(Comp::ReferenceDefinition));
        let s2 = with_match(s1, m.start, (m.start + key_len + 2) as usize, Annot::Atom(Atom::ReferenceKey));
        let s3 = with_match(s2, m.cap2.start, m.cap2.end, Annot::Atom(Atom::ReferenceValue));
        (BlockState { pos: m.end, ..s3 }, Some(Cont::ReferenceDefinition { indent: s.indent }))
    }
}

/// Whether the container `c` goes on at the current position of the line.
pub open spec fn spec_cont(t: Seq<u8>, s: BlockState, c: Cont) -> (BlockState, bool) {
    match c {
        Cont::Para { .. } => (s, search(t, s, "^%S").is_match),
        Cont::CodeBlock { border, .. } => {
            let m = if border == 96 {
                search(t, s, "^(```)[ \t]*[\r\n]")
            } else {
                search(t, s, "^(~~~)[ \t]*[\r\n]")
            };
            if m.is_match {
                let p = if m.end > s.pos { (m.end - 1) as usize } else { s.pos };
                (BlockState { pos: p, finished_line: true, ..s }, false)
            } else {
                (s, true)
            }
        },
        Cont::ReferenceDefinition { indent } => if indent >= s.indent {
            (s, false)
        } else {
            let m = search(t, s, "^(%S+)");
            if m.is_match {
                (BlockState { pos: m.end, ..with_match(s, m.cap1.start, m.cap1.end, Annot::Atom(Atom::ReferenceValue)) }, true)
            } else {
                (s, true)
            }
        },
    }
}

/// Closing the container `c` at the current position.
pub open spec fn spec_close(s: BlockState, c: Cont) -> BlockState {
    match c {
        Cont::Para { inline, first, last } => {
            let s1 = BlockState { matches: s.matches + spec_get_matches(inline, first, last), ..s };
            let p = if s.pos > 0 { (s.pos - 1) as usize } else { 0 };
            with_match(s1, p, p, Annot::Sub(Comp::Para))
        },
        Cont::CodeBlock { .. } => {
            let p = if s.pos >= 3 { (s.pos - 3) as usize } else { 0 };
            with_match(s, p, s.pos, Annot::Sub(Comp::CodeBlock))
        },
        Cont::ReferenceDefinition { .. } => with_match(s, s.pos, s.pos, Annot::Sub(Comp::ReferenceDefinition)),
    }
}

/// Closing containers from the innermost until `n` are left.
pub open spec fn spec_close_down(s: BlockState, cs: Seq<Cont>, n: int) -> (BlockState, Seq<Cont>)
    decreases cs.len(),
{
    if cs.len() > n && cs.len() > 0 {
        spec_close_down(spec_close(s, cs.last()), cs.drop_last(), n)
    } else {
        (s, cs)
    }
}

/// Checking the open containers from `idx` on for continuation on this line; the first
/// that does not go on stops the check.
pub open spec fn spec_conts(t: Seq<u8>, s: BlockState, cs: Seq<Cont>, idx: int) -> BlockState
    decreases cs.len() - idx,
{
    if idx < 0 || idx >= cs.len() {
        s
    } else {
        let (s2, ok) = spec_cont(t, spec_skip_space(t, s), cs[idx]);
        if ok {
            spec_conts(t, BlockState { lmc: (idx + 1) as usize, ..s2 }, cs, idx + 1)
        } else {
            s2
        }
    }
}

/// Opening the new containers that start at the current position, one after the other
/// while the last one opened holds no verbatim text.
pub open spec fn spec_open_starts(t: Seq<u8>, s: BlockState, cs: Seq<Cont>, new_starts: bool, check: bool) -> (BlockState, Seq<Cont>, bool)
    decreases t.len() - s.pos, if check { 1int } else { 0int },
{
    if !check {
        (s, cs, new_starts)
    } else {
        let (s1, o1) = spec_open_code_block(t, s);
        let (s2, o) = match o1 {
            Some(c) => (s1, Some(c)),
            None => spec_open_reference_definition(t, s1),
        };
        match o {
            None => (s2, cs, new_starts),
            Some(c) => {
                let cs2 = cs.push(c);
                let s3 = BlockState { lmc: cs2.len() as usize, ..s2 };
                if s3.finished_line {
                    (s3, cs2, new_starts)
                } else {
                    let s4 = spec_skip_space(t, s3);
                    let more = content_of(c) != Content::Text;
                    if s4.pos > s.pos && s4.pos <= t.len() {
                        spec_open_starts(t, s4, cs2, true, more)
                    } else {
                        (s4, cs2, true)
                    }
                }
            },
        }
    }
}

/// The rest of a line that no closing fence finished: new containers, the closing of those
/// the line does not continue, a paragraph for text outside all of them, and the line's
/// content handed to the innermost one.
pub open spec fn spec_step_line(t: Seq<u8>, s: BlockState, cs: Seq<Cont>) -> (BlockState, Seq<Cont>) {
    let s1 = spec_skip_space(t, s);
    let blank1 = s1.pos == s1.starteol;
    let check = !blank1 && s1.lmc == 0 && !search(t, s1, "^%a+%s").is_match;
    let (s2, cs2, new_starts) = spec_open_starts(t, s1, cs, false, check);
    if s2.finished_line {
        (s2, cs2)
    } else {
        let s3 = spec_skip_space(t, s2);
        let is_blank = s3.pos == s3.starteol;
        let is_lazy = !is_blank && !new_starts && s3.lmc < cs2.len() && content_of(cs2.last()) == Content::Inline;
        let (s4, cs4) = if !is_lazy && s3.lmc < cs2.len() {
            spec_close_down(s3, cs2, s3.lmc as int)
        } else {
            (s3, cs2)
        };
        let (s5, cs5) = if cs4.len() == 0 {
            if is_blank {
                if !new_starts {
                    (with_match(s4, s4.pos, s4.endeol, Annot::Atom(Atom::Blankline)), cs4)
                } else {
                    (s4, cs4)
                }
            } else {
                let (sp, c) = spec_open_para(s4);
                (sp, cs4.push(c))
            }
        } else {
            (s4, cs4)
        };
        if cs5.len() == 0 {
            (s5, cs5)
        } else {
            tip_fed(t, s5, cs5, is_blank)
        }
    }
}

/// Handing the current line to the innermost container of `cs`: verbatim text to a code
/// block (with the indentation beyond the block's own given back), the line to the inline
/// parser of a paragraph unless it is blank.
pub open spec fn tip_fed(t: Seq<u8>, s5: BlockState, cs5: Seq<Cont>, is_blank: bool) -> (BlockState, Seq<Cont>) {
    match cs5.last() {
        Cont::CodeBlock { indent: tip_indent, .. } => {
            let back = if s5.indent > tip_indent && s5.pos >= s5.indent - tip_indent {
                (s5.pos - (s5.indent - tip_indent)) as usize
            } else {
                s5.pos
            };
            if back <= s5.endeol {
                (with_match(s5, back, s5.endeol, Annot::Atom(Atom::Str)), cs5)
            } else {
                (s5, cs5)
            }
        },
        Cont::Para { inline, first, last } => if !is_blank && s5.pos <= s5.endeol {
            let fed = Cont::Para {
                inline: spec_scan(t, inline, s5.pos, s5.endeol),
                first: if s5.pos < first { s5.pos } else { first },
                last: if s5.endeol > last { s5.endeol } else { last },
            };
            (s5, cs5.update(cs5.len() - 1, fed))
        } else {
            (s5, cs5)
        },
        _ => (s5, cs5),
    }
}

/// One line of the parse, from its start at the current position.
pub open spec fn spec_line(t: Seq<u8>, s: BlockState, cs: Seq<Cont>) -> (BlockState, Seq<Cont>) {
    let line_start = s.pos;
    let s1 = spec_get_eol(t, BlockState { indent: 0, startline: s.pos, finished_line: false, ..s });
    let s2 = spec_conts(t, BlockState { lmc: 0, ..s1 }, cs, 0);
    let (s3, cs3) = if s2.finished_line {
        spec_close_down(s2, cs, s2.lmc as int)
    } else {
        (s2, cs)
    };
    let (s4, cs4) = if !s3.finished_line {
        spec_step_line(t, s3, cs3)
    } else {
        (s3, cs3)
    };
    (BlockState { pos: if s4.endeol > line_start { s4.endeol } else { t.len() as usize }, ..s4 }, cs4)
}

/// The parse of the lines from the current position on.
pub open spec fn spec_parse_from(t: Seq<u8>, s: BlockState, cs: Seq<Cont>) -> (BlockState, Seq<Cont>)
    decreases t.len() - s.pos,
{
    if s.pos >= t.len() {
        (s, cs)
    } else {
        let (s1, cs1) = spec_line(t, s, cs);
        if s1.pos > s.pos && s1.pos <= t.len() {
            spec_parse_from(t, s1, cs1)
        } else {
            (s1, cs1)
        }
    }
}

/// The matches of a parse from `s` with the containers `cs` open: the lines, then the
/// closing of what is still open.
pub open spec fn spec_parse(t: Seq<u8>, s: BlockState, cs: Seq<Cont>) -> BlockState {
    let (s1, cs1) = spec_parse_from(t, s, cs);
    spec_close_down(s1, cs1, 0).0
}

/// The state of a fresh tokenizer.
pub open spec fn fresh_state() -> BlockState {
    BlockState {
        indent: 0,
        startline: 0,
        starteol: 0,
        endeol: 0,
        matches: Seq::empty(),
        pos: 0,
        lmc: 0,
        finished_line: false,
    }
}

/// The annotated ranges that the block parser finds in the text `t`.
pub open spec fn block_matches(t: Seq<u8>) -> Seq<Match> {
    spec_parse(t, fresh_state(), Seq::empty()).matches
}

/// The fields of the tokenizer that a container step leaves alone.
pub open spec fn same_setup(a: &Tokenizer, b: &Tokenizer) -> bool {
    &&& b.subject == a.subject
    &&& b.opts == a.opts
    &&& b.debug == a.debug
    &&& b.startline == a.startline
    &&& b.starteol == a.starteol
    &&& b.endeol == a.endeol
}

/// A container, if any, as values.
pub open spec fn opt_cont(o: Option<Container>) -> Option<Cont> {
    match o {
        Some(c) => Some(cont_of(c)),
        None => None,
    }
}

impl Tokenizer {
    pub open spec fn text(&self) -> Seq<u8> {
        text_bytes(self.subject@)
    }

    /// The state of the tokenizer as values.
    pub open spec fn bstate(&self) -> BlockState {
        BlockState {
            indent: self.indent,
            startline: self.startline,
            starteol: self.starteol,
            endeol: self.endeol,
            matches: self.matches@,
            pos: self.pos,
            lmc: self.last_matched_container,
            finished_line: self.finished_line,
        }
    }

    pub open spec fn wf(&self) -> bool {
        &&& self.text().len() + 16 <= usize::MAX
        &&& self.startline <= self.pos <= self.text().len()
        &&& self.starteol <= self.endeol <= self.text().len()
        &&& ranges_ok(self.matches@)
    }

    /// A tokenizer for `subject`, which gets a final newline when it does not end with a
    /// line break.
    pub fn new(subject: String, opts: ParseOpts) -> (r: Tokenizer)
        requires
            text_bytes(subject@).len() + 20 <= usize::MAX,
        ensures
            r.wf(),
            r.subject@ == if found(text_bytes(subject@), "[\r\n]$", 0) {
                subject@
            } else {
                subject@ + "\n"@
            },
            r.opts == opts,
            r.pos == 0,
            r.matches@.len() == 0,
            r.debug@.len() == 0,
            r.bstate() == fresh_state(),
    {
        let ghost given = subject@;
        let mut subject = subject;
        if !find(subject.as_str(), "[\r\n]$").is_match {
            subject.append("\n");
            proof {
                lemma_encode_utf8_concat(given, "\n"@);
                reveal_strlit("\n");
                let nl = "\n"@;
                assert(vstd::utf8::encode_utf8(nl) == vstd::utf8::encode_scalar(nl[0] as u32)
                    + vstd::utf8::encode_utf8(nl.drop_first()));
                assert(nl.drop_first().len() == 0);
            }
        }
        Tokenizer {
            subject,
            indent: 0,
            startline: 0,
            starteol: 0,
            endeol: 0,
            matches: Vec::new(),
            pos: 0,
            last_matched_container: 0,
            opts,
            finished_line: false,
            debug: String::new(),
        }
    }

    /// Searches the subject for `pat` from the current position, with its captures moved to
    /// positions in the whole subject.
    fn find(&self, pat: &'static str) -> (r: PatMatch)
        requires
            self.wf(),
        ensures
            r == shift_captures(crate::patterns::spec_find(self.text(), crate::patterns::bytes_of(pat), self.pos, true), self.pos),
            crate::patterns::match_in_bounds(r, self.pos, self.text().len() as int),
            captures_within(r, crate::patterns::bytes_of(pat), self.pos, self.text().len() as int),
            !r.is_match ==> crate::patterns::no_match_at(r, self.pos),
    {
        let m = capture_at(self.subject.as_str(), pat, self.pos);
        if m.is_match {
            let pos = self.pos;
            PatMatch {
                is_match: true,
                start: m.start,
                end: m.end,
                cap1: m.cap1.start.wrapping_add(pos)..m.cap1.end.wrapping_add(pos),
                cap2: m.cap2.start.wrapping_add(pos)..m.cap2.end.wrapping_add(pos),
            }
        } else {
            m
        }
    }

    /// Records the annotation `a` of the range `s..e`.
    fn add_match(&mut self, s: usize, e: usize, a: Annot)
        requires
            old(self).wf(),
            s <= e,
        ensures
            final(self).bstate() == with_match(old(self).bstate(), s, e, a),
            final(self).wf(),
            same_setup(old(self), final(self)),
            final(self).matches@ == old(self).matches@.push(Match { s, e, a }),
            final(self).pos == old(self).pos,
            final(self).indent == old(self).indent,
            final(self).finished_line == old(self).finished_line,
            final(self).last_matched_container == old(self).last_matched_container,
    {
        self.matches.push(Match::new(s, e, a));
    }

    /// Moves past spaces and tabs, and records how far the line is indented.
    fn skip_space(&mut self)
        requires
            old(self).wf(),
        ensures
            final(self).bstate() == spec_skip_space(old(self).text(), old(self).bstate()),
            final(self).wf(),
            same_setup(old(self), final(self)),
            final(self).matches@ == old(self).matches@,
            final(self).pos >= old(self).pos,
            final(self).finished_line == old(self).finished_line,
            final(self).last_matched_container == old(self).last_matched_container,
    {
        let m = crate::patterns::find_at(self.subject.as_str(), "[^ \t]", self.pos);
        if m.is_match {
            self.indent = m.start - self.startline;
            self.pos = m.start;
        }
    }

    /// Finds the end of the current line: the line break at `starteol..endeol`, or the end
    /// of the subject.
    fn get_eol(&mut self)
        requires
            old(self).wf(),
        ensures
            final(self).bstate() == spec_get_eol(old(self).text(), old(self).bstate()),
            final(self).wf(),
            final(self).subject == old(self).subject,
            final(self).opts == old(self).opts,
            final(self).debug == old(self).debug,
            final(self).startline == old(self).startline,
            final(self).matches@ == old(self).matches@,
            final(self).pos == old(self).pos,
            final(self).starteol >= old(self).pos,
            final(self).finished_line == old(self).finished_line,
            final(self).last_matched_container == old(self).last_matched_container,
            final(self).indent == old(self).indent,
    {
        let m = crate::patterns::find_at(self.subject.as_str(), "[\r]?[\n]", self.pos);
        let len = self.subject.as_str().len();
        if m.is_match {
            self.starteol = m.start;
            self.endeol = m.end;
        } else {
            self.starteol = len;
            self.endeol = len;
        }
    }
}


/// The values of a stack with one more container on top.
proof fn lemma_conts_push(cs: Seq<Container>, c: Container)
    ensures
        conts_of(cs.push(c)) == conts_of(cs).push(cont_of(c)),
{
    assert(conts_of(cs.push(c)) =~= conts_of(cs).push(cont_of(c)));
}

/// The value of a container of the stack.
proof fn lemma_conts_at(cs: Seq<Container>, i: int)
    requires
        0 <= i < cs.len(),
    ensures
        conts_of(cs)[i] == cont_of(cs[i]),
        conts_of(cs).len() == cs.len(),
{
}

/// The values of a stack without its top container.
proof fn lemma_conts_pop(cs: Seq<Container>)
    requires
        cs.len() > 0,
    ensures
        conts_of(cs.drop_last()) == conts_of(cs).drop_last(),
        conts_of(cs).last() == cont_of(cs.last()),
        conts_of(cs).len() == cs.len(),
{
    assert(conts_of(cs.drop_last()) =~= conts_of(cs).drop_last());
}

impl Tokenizer {
    /// Closes containers from the innermost until `n` are left.
    fn close_down(&mut self, containers: &mut Vec<Container>, n: usize)
        requires
            old(self).wf(),
            containers_ok(old(containers)@, old(self).subject@),
        ensures
            keeps(old(self), final(self)),
            containers_ok(final(containers)@, final(self).subject@),
            (final(self).bstate(), conts_of(final(containers)@)) == spec_close_down(
                old(self).bstate(),
                conts_of(old(containers)@),
                n as int,
            ),
            final(self).startline == old(self).startline,
            final(self).starteol == old(self).starteol,
            final(self).endeol == old(self).endeol,
            final(self).pos == old(self).pos,
            final(self).indent == old(self).indent,
            final(self).finished_line == old(self).finished_line,
            final(self).last_matched_container == old(self).last_matched_container,
    {
        while containers.len() > n
            invariant
                keeps(old(self), self),
                containers_ok(containers@, self.subject@),
                spec_close_down(self.bstate(), conts_of(containers@), n as int) == spec_close_down(
                    old(self).bstate(),
                    conts_of(old(containers)@),
                    n as int,
                ),
                self.startline == old(self).startline,
                self.starteol == old(self).starteol,
                self.endeol == old(self).endeol,
                self.pos == old(self).pos,
                self.indent == old(self).indent,
                self.finished_line == old(self).finished_line,
                self.last_matched_container == old(self).last_matched_container,
            decreases containers.len(),
        {
            let ghost before = containers@;
            proof {
                lemma_conts_pop(before);
            }
            let c = containers.pop().unwrap();
            self.close(c);
        }
    }
}

/// The tokenizer keeps its subject, options and debug text, and stays well formed.
pub open spec fn keeps(a: &Tokenizer, b: &Tokenizer) -> bool {
    &&& b.wf()
    &&& b.subject == a.subject
    &&& b.opts == a.opts
    &&& b.debug == a.debug
}

impl Tokenizer {
    /// Opens a paragraph at the current position.
    fn open_para(&mut self) -> (r: Container)
        requires
            old(self).wf(),
        ensures
            (final(self).bstate(), cont_of(r)) == spec_open_para(old(self).bstate()),
            final(self).wf(),
            same_setup(old(self), final(self)),
            final(self).pos == old(self).pos,
            final(self).finished_line == old(self).finished_line,
            final(self).last_matched_container == old(self).last_matched_container,
            final(self).indent == old(self).indent,
            container_ok(r, final(self).subject@),
            r is Para,
    {
        self.add_match(self.pos, self.pos, Comp::Para.add());
        let inline_parser = Parser::new(self.subject.clone(), self.opts);
        Container::Para { inline_parser }
    }

    /// Opens a fenced code block (three backticks or three tildes) at the current position.
    fn open_code_block(&mut self) -> (r: Option<Container>)
        requires
            old(self).wf(),
        ensures
            (final(self).bstate(), opt_cont(r)) == spec_open_code_block(old(self).text(), old(self).bstate()),
            final(self).wf(),
            same_setup(old(self), final(self)),
            final(self).last_matched_container == old(self).last_matched_container,
            final(self).pos >= old(self).pos,
            r is None ==> final(self).pos == old(self).pos && final(self).finished_line
                == old(self).finished_line,
            r matches Some(c) ==> c is CodeBlock && final(self).finished_line,
    {
        let mut border: u8 = 96;
        let mut m = self.find("^```([ \t]*)([^%s`]*)[ \t]*[\r\n]");
        if !m.is_match {
            border = 126;
            m = self.find("^~~~([ \t]*)([^%s`]*)[ \t]*[\r\n]");
        }
        if !m.is_match {
            return None;
        }
        let lang = m.cap2;
        self.add_match(self.pos, self.pos + 3, Comp::CodeBlock.add());
        if lang.start < lang.end {
            self.add_match(lang.start, lang.end, Annot::Atom(Atom::CodeLanguage));
        }
        // the fence holds at least three bytes and a line break
        let len = self.subject.as_str().len();
        self.pos = if self.pos + 2 <= len {
            self.pos + 2
        } else {
            len
        };
        self.finished_line = true;
        Some(Container::CodeBlock { border, indent: self.indent })
    }

    /// Opens a reference definition `[key]: value` at the current position.
    fn open_reference_definition(&mut self) -> (r: Option<Container>)
        requires
            old(self).wf(),
        ensures
            (final(self).bstate(), opt_cont(r)) == spec_open_reference_definition(old(self).text(), old(self).bstate()),
            final(self).wf(),
            same_setup(old(self), final(self)),
            final(self).finished_line == old(self).finished_line,
            final(self).last_matched_container == old(self).last_matched_container,
            r is None ==> final(self).pos == old(self).pos,
            r matches Some(c) ==> c is ReferenceDefinition && final(self).pos > old(self).pos,
    {
        let pat = "^[[]([^\r\n]*)%]:[ \t]*(%S*)";
        let m = self.find(pat);
        proof {
            reveal_strlit("^[[]([^\r\n]*)%]:[ \t]*(%S*)");
            crate::patterns::lemma_anchored(pat);
        }
        // a definition spans at least `[]:`
        if !m.is_match || m.end <= self.pos {
            return None;
        }
        let key = m.cap1;
        let key_len = key.end - key.start;
        let value = m.cap2;
        self.add_match(m.start, m.start, Comp::ReferenceDefinition.add());
        self.add_match(m.start, m.start + key_len + 2, Annot::Atom(Atom::ReferenceKey));
        self.add_match(value.start, value.end, Annot::Atom(Atom::ReferenceValue));
        self.pos = m.end;
        Some(Container::ReferenceDefinition { indent: self.indent })
    }

    /// Whether the container `c` goes on at the current position of the line.
    fn cont(&mut self, c: &Container) -> (r: bool)
        requires
            old(self).wf(),
            !old(self).finished_line,
        ensures
            (final(self).bstate(), r) == spec_cont(old(self).text(), old(self).bstate(), cont_of(*c)),
            final(self).wf(),
            same_setup(old(self), final(self)),
            final(self).last_matched_container == old(self).last_matched_container,
            final(self).pos >= old(self).pos,
            !r ==> final(self).matches@ == old(self).matches@,
            final(self).finished_line ==> !r,
    {
        match c {
            Container::Para { .. } => self.find("^%S").is_match,
            Container::CodeBlock { border, .. } => {
                let m = if *border == 96 {
                    self.find("^(```)[ \t]*[\r\n]")
                } else {
                    self.find("^(~~~)[ \t]*[\r\n]")
                };
                if m.is_match {
                    if m.end > self.pos {
                        self.pos = m.end - 1;
                    }
                    self.finished_line = true;
                    false
                } else {
                    true
                }
            },
            Container::ReferenceDefinition { indent } => {
                if *indent >= self.indent {
                    return false;
                }
                let m = self.find("^(%S+)");
                if m.is_match {
                    self.add_match(m.cap1.start, m.cap1.end, Annot::Atom(Atom::ReferenceValue));
                    self.pos = m.end;
                }
                true
            },
        }
    }

    /// Closes the container `c` at the current position; a paragraph hands over the matches
    /// of its inline content.
    fn close(&mut self, c: Container)
        requires
            old(self).wf(),
            container_ok(c, old(self).subject@),
        ensures
            final(self).bstate() == spec_close(old(self).bstate(), cont_of(c)),
            final(self).wf(),
            same_setup(old(self), final(self)),
            final(self).pos == old(self).pos,
            final(self).finished_line == old(self).finished_line,
            final(self).last_matched_container == old(self).last_matched_container,
            final(self).indent == old(self).indent,
    {
        match c {
            Container::Para { inline_parser } => {
                let mut inline_parser = inline_parser;
                let ms = inline_parser.get_matches();
                let mut i: usize = 0;
                while i < ms.len()
                    invariant
                        self.wf(),
                        same_setup(old(self), self),
                        self.pos == old(self).pos,
                        self.finished_line == old(self).finished_line,
                        self.last_matched_container == old(self).last_matched_container,
                        self.indent == old(self).indent,
                        crate::inline::sorted_matches(ms@),
                        i <= ms@.len(),
                        self.matches@ == old(self).matches@ + ms@.subrange(0, i as int),
                    decreases ms.len() - i,
                {
                    let m = ms[i];
                    assert(ms@[i as int].s <= ms@[i as int].e);
                    self.add_match(m.s, m.e, m.a);
                    assert(ms@.subrange(0, i + 1) =~= ms@.subrange(0, i as int).push(m));
                    i = i + 1;
                }
                assert(ms@.subrange(0, i as int) =~= ms@);
                // the close sits on the last byte of the paragraph's last line
                let p = if self.pos > 0 {
                    self.pos - 1
                } else {
                    0
                };
                self.add_match(p, p, Comp::Para.sub());
            },
            Container::CodeBlock { .. } => {
                // the closing fence ends at the current position
                let p = if self.pos >= 3 {
                    self.pos - 3
                } else {
                    0
                };
                self.add_match(p, self.pos, Comp::CodeBlock.sub());
            },
            Container::ReferenceDefinition { .. } => {
                self.add_match(self.pos, self.pos, Comp::ReferenceDefinition.sub());
            },
        }
    }
}

impl Tokenizer {
    /// Parses the subject line by line into annotated ranges; with `debug_matches`, also
    /// lists them in `debug`, one line each.
    #[verifier::rlimit(40)]
    pub fn parse(&mut self)
        requires
            old(self).wf(),
        ensures
            final(self).wf(),
            final(self).subject == old(self).subject,
            final(self).opts == old(self).opts,
            final(self).matches@ == spec_parse(old(self).text(), old(self).bstate(), Seq::empty()).matches,
            block_nesting(old(self).matches@) == Some(Seq::<Comp>::empty()) ==> block_nesting(final(self).matches@)
                == Some(Seq::<Comp>::empty()),
            final(self).debug@ == if old(self).opts.debug_matches {
                old(self).debug@ + debug_listing(final(self).text(), final(self).matches@)
            } else {
                old(self).debug@
            },
    {
        let mut containers: Vec<Container> = Vec::new();
        let subjectlen = self.subject.as_str().len();
        proof {
            assert(conts_of(containers@) =~= Seq::<Cont>::empty());
        }
        while self.pos < subjectlen
            invariant
                keeps(old(self), self),
                subjectlen == self.text().len(),
                containers_ok(containers@, self.subject@),
                spec_parse(self.text(), self.bstate(), conts_of(containers@)) == spec_parse(
                    old(self).text(),
                    old(self).bstate(),
                    Seq::empty(),
                ),
            decreases subjectlen - self.pos,
        {
            let ghost s0 = self.bstate();
            let ghost cs0 = conts_of(containers@);
            let line_start = self.pos;
            self.indent = 0;
            self.startline = self.pos;
            self.finished_line = false;
            self.get_eol();
            // check open containers for continuation
            self.last_matched_container = 0;
            let ghost s_conts = self.bstate();
            let mut idx: usize = 0;
            let mut going = true;
            while going && idx < containers.len()
                invariant
                    keeps(old(self), self),
                    subjectlen == self.text().len(),
                    containers_ok(containers@, self.subject@),
                    conts_of(containers@) == cs0,
                    self.last_matched_container == idx,
                    idx <= containers.len(),
                    going ==> !self.finished_line,
                    self.starteol >= line_start,
                    self.startline == line_start,
                    going ==> spec_conts(self.text(), self.bstate(), cs0, idx as int) == spec_conts(
                        self.text(),
                        s_conts,
                        cs0,
                        0,
                    ),
                    !going ==> self.bstate() == spec_conts(self.text(), s_conts, cs0, 0),
                decreases containers.len() - idx + if going {
                    1int
                } else {
                    0int
                },
            {
                // skip any indentation
                self.skip_space();
                proof {
                    lemma_conts_at(containers@, idx as int);
                }
                if self.cont(&containers[idx]) {
                    self.last_matched_container = idx + 1;
                    idx = idx + 1;
                } else {
                    going = false;
                }
            }
            assert(self.bstate() == spec_conts(self.text(), s_conts, cs0, 0));
            // if we hit a close fence, we can move to next line
            if self.finished_line {
                let n = self.last_matched_container;
                self.close_down(&mut containers, n);
            }
            if !self.finished_line {
                self.step_line(&mut containers);
            }
            // go on with the next line; a line always ends after its start
            if self.endeol > line_start {
                self.pos = self.endeol;
            } else {
                self.pos = subjectlen;
            }
            proof {
                assert((self.bstate(), conts_of(containers@)) == spec_line(self.text(), s0, cs0));
            }
        }
        self.finish(containers);
        proof {
            if block_nesting(old(self).matches@) == Some(Seq::<Comp>::empty()) {
                lemma_parse_nested(old(self).text(), old(self).bstate());
            }
        }
    }

    /// Opens the new containers that start at the current position, one after the other
    /// while the last one opened holds no verbatim text; tells whether any opened.
    fn open_starts(&mut self, containers: &mut Vec<Container>, check: bool) -> (r: bool)
        requires
            old(self).wf(),
            check ==> !old(self).finished_line,
            containers_ok(old(containers)@, old(self).subject@),
        ensures
            keeps(old(self), final(self)),
            containers_ok(final(containers)@, final(self).subject@),
            (final(self).bstate(), conts_of(final(containers)@), r) == spec_open_starts(
                old(self).text(),
                old(self).bstate(),
                conts_of(old(containers)@),
                false,
                check,
            ),
            final(self).startline == old(self).startline,
            final(self).starteol == old(self).starteol,
            final(self).endeol == old(self).endeol,
    {
        let mut new_starts = false;
        let mut check_starts = check;
        while check_starts
            invariant
                keeps(old(self), self),
                containers_ok(containers@, self.subject@),
                self.startline == old(self).startline,
                self.starteol == old(self).starteol,
                self.endeol == old(self).endeol,
                check_starts ==> !self.finished_line,
                spec_open_starts(self.text(), self.bstate(), conts_of(containers@), new_starts, check_starts)
                    == spec_open_starts(old(self).text(), old(self).bstate(), conts_of(old(containers)@), false, check),
            decreases self.text().len() - self.pos, if check_starts {
                1int
            } else {
                0int
            },
        {
            check_starts = false;
            let ghost s0 = self.bstate();
            let opened = match self.open_code_block() {
                Some(c) => Some(c),
                None => self.open_reference_definition(),
            };
            if let Some(cont) = opened {
                let content = cont.content();
                let ghost before = containers@;
                containers.push(cont);
                proof {
                    lemma_conts_push(before, cont);
                }
                self.last_matched_container = containers.len();
                if self.finished_line {
                    check_starts = false;
                } else {
                    self.skip_space();
                    new_starts = true;
                    check_starts = content != Content::Text;
                }
            }
        }
        new_starts
    }

    /// Hands the current line to the innermost container: verbatim text to a code block,
    /// the line to the inline parser of a paragraph.
    fn feed_tip(&mut self, containers: &mut Vec<Container>, is_blank: bool)
        requires
            old(self).wf(),
            containers_ok(old(containers)@, old(self).subject@),
            old(containers)@.len() > 0,
        ensures
            keeps(old(self), final(self)),
            containers_ok(final(containers)@, final(self).subject@),
            (final(self).bstate(), conts_of(final(containers)@)) == tip_fed(
                old(self).text(),
                old(self).bstate(),
                conts_of(old(containers)@),
                is_blank,
            ),
    {
        let ghost before = containers@;
        proof {
            lemma_conts_pop(before);
        }
        let tip = containers.pop().unwrap();
        match tip {
            Container::CodeBlock { border, indent: tip_indent } => {
                let mut startpos = self.pos;
                if self.indent > tip_indent && startpos >= self.indent - tip_indent {
                    // get back the leading spaces we gobbled
                    startpos = startpos - (self.indent - tip_indent);
                }
                if startpos <= self.endeol {
                    self.add_match(startpos, self.endeol, Annot::Atom(Atom::Str));
                }
                let ghost mid = containers@;
                containers.push(Container::CodeBlock { border, indent: tip_indent });
                proof {
                    lemma_conts_push(mid, Container::CodeBlock { border, indent: tip_indent });
                    assert(conts_of(before).drop_last().push(cont_of(Container::CodeBlock { border, indent: tip_indent })) =~= conts_of(before));
                }
            },
            Container::Para { inline_parser } => {
                let mut inline_parser = inline_parser;
                if !is_blank && self.pos <= self.endeol {
                    inline_parser.feed(self.pos, self.endeol);
                }
                let ghost mid = containers@;
                let ghost fed = Container::Para { inline_parser };
                containers.push(Container::Para { inline_parser });
                proof {
                    lemma_conts_push(mid, fed);
                    assert(conts_of(before).drop_last().push(cont_of(fed)) =~= conts_of(before).update(
                        conts_of(before).len() - 1,
                        cont_of(fed),
                    ));
                    if !(!is_blank && self.pos <= self.endeol) {
                        assert(conts_of(before).drop_last().push(cont_of(fed)) =~= conts_of(before));
                    }
                }
            },
            other => {
                let ghost mid = containers@;
                containers.push(other);
                proof {
                    lemma_conts_push(mid, other);
                    assert(conts_of(before).drop_last().push(cont_of(other)) =~= conts_of(before));
                }
            },
        }
    }

    /// Opens the new containers that the rest of the current line starts, closes those it
    /// no longer continues, and hands its content to the innermost one.
    #[verifier::rlimit(40)]
    fn step_line(&mut self, containers: &mut Vec<Container>)
        requires
            old(self).wf(),
            !old(self).finished_line,
            containers_ok(old(containers)@, old(self).subject@),
            old(self).last_matched_container <= old(containers)@.len(),
        ensures
            keeps(old(self), final(self)),
            containers_ok(final(containers)@, final(self).subject@),
            final(self).startline == old(self).startline,
            final(self).starteol == old(self).starteol,
            final(self).endeol == old(self).endeol,
            (final(self).bstate(), conts_of(final(containers)@)) == spec_step_line(
                old(self).text(),
                old(self).bstate(),
                conts_of(old(containers)@),
            ),
    {
        // check for new containers
        self.skip_space();
        let is_blank1 = self.pos == self.starteol;
        // no container here holds blocks, so new ones open only outside all others
        let check_starts = !is_blank1 && self.last_matched_container == 0 && !self.find(
            "^%a+%s",
        ).is_match;
        let new_starts = self.open_starts(containers, check_starts);
        if self.finished_line {
            return;
        }
        // handle remaining content
        self.skip_space();
        let is_blank = self.pos == self.starteol;
        let is_lazy = !is_blank && !new_starts && self.last_matched_container < containers.len()
            && containers[containers.len() - 1].content() == Content::Inline;
        proof {
            if containers@.len() > 0 {
                lemma_conts_pop(containers@);
            }
        }
        if !is_lazy && self.last_matched_container < containers.len() {
            let n = self.last_matched_container;
            self.close_down(containers, n);
        }
        // add para by default if there's text
        if containers.len() == 0 {
            if is_blank {
                if !new_starts {
                    // need to track these for tight/loose lists
                    self.add_match(self.pos, self.endeol, Annot::Atom(Atom::Blankline));
                }
            } else {
                let ghost before = containers@;
                let para = self.open_para();
                containers.push(para);
                proof {
                    lemma_conts_push(before, para);
                }
            }
        }
        if containers.len() > 0 {
            self.feed_tip(containers, is_blank);
        }
    }

    /// Closes the containers still open and, with `debug_matches`, lists the matches.
    fn finish(&mut self, containers: Vec<Container>)
        requires
            old(self).wf(),
            containers_ok(containers@, old(self).subject@),
        ensures
            final(self).wf(),
            final(self).subject == old(self).subject,
            final(self).opts == old(self).opts,
            final(self).matches@ == spec_close_down(old(self).bstate(), conts_of(containers@), 0).0.matches,
            final(self).debug@ == if old(self).opts.debug_matches {
                old(self).debug@ + debug_listing(final(self).text(), final(self).matches@)
            } else {
                old(self).debug@
            },
    {
        let mut containers = containers;
        // close unmatched containers
        self.close_down(&mut containers, 0);
        let ghost closed = self.matches@;
        if self.opts.debug_matches {
            let mut i: usize = 0;
            while i < self.matches.len()
                invariant
                    self.matches@ == closed,
                    self.wf(),
                    self.subject == old(self).subject,
                    self.opts == old(self).opts,
                    i <= self.matches@.len(),
                    self.debug@ == old(self).debug@ + debug_listing(self.text(), self.matches@.subrange(0, i as int)),
                decreases self.matches@.len() - i,
            {
                let m = self.matches[i];
                push_debug_line(&mut self.debug, self.subject.as_str(), m);
                proof {
                    let ms = self.matches@;
                    assert(ms.subrange(0, i + 1).drop_last() =~= ms.subrange(0, i as int));
                    assert(ms.subrange(0, i + 1).last() == m);
                }
                i = i + 1;
            }
            proof {
                assert(self.matches@.subrange(0, i as int) =~= self.matches@);
            }
        }
    }
}

/// The debug listing of matches one after the other is the listing of each part in turn:
/// one line per match, in order.
pub proof fn lemma_debug_listing_concat(text: Seq<u8>, a: Seq<Match>, b: Seq<Match>)
    ensures
        debug_listing(text, a + b) == debug_listing(text, a) + debug_listing(text, b),
    decreases b.len(),
{
    if b.len() == 0 {
        assert(a + b =~= a);
        assert(debug_listing(text, a) + debug_listing(text, b) =~= debug_listing(text, a));
    } else {
        lemma_debug_listing_concat(text, a, b.drop_last());
        assert((a + b).drop_last() =~= a + b.drop_last());
        assert((a + b).last() == b.last());
        assert(debug_listing(text, a + b) =~= debug_listing(text, a) + debug_listing(text, b));
    }
}

/// The composite that a block container annotates.
pub open spec fn cont_comp(c: Cont) -> Comp {
    match c {
        Cont::Para { .. } => Comp::Para,
        Cont::CodeBlock { .. } => Comp::CodeBlock,
        Cont::ReferenceDefinition { .. } => Comp::ReferenceDefinition,
    }
}

/// The composites of the open containers, outermost first.
pub open spec fn conts_comps(cs: Seq<Cont>) -> Seq<Comp> {
    cs.map_values(|c: Cont| cont_comp(c))
}

/// Reading the block-container annotations of `ms` in order: the containers left open,
/// outermost first, or `None` when one closes what is not the innermost open container.
pub open spec fn block_nesting(ms: Seq<Match>) -> Option<Seq<Comp>>
    decreases ms.len(),
{
    if ms.len() == 0 {
        Some(Seq::empty())
    } else {
        nesting_step(block_nesting(ms.drop_last()), ms.last().a)
    }
}

/// One annotation read against the containers open before it.
pub open spec fn nesting_step(open: Option<Seq<Comp>>, a: Annot) -> Option<Seq<Comp>> {
    match open {
        None => None,
        Some(o) => match a {
            Annot::Add(c) => if is_block_comp(c) {
                Some(o.push(c))
            } else {
                Some(o)
            },
            Annot::Sub(c) => if is_block_comp(c) {
                if o.len() > 0 && o.last() == c {
                    Some(o.drop_last())
                } else {
                    None
                }
            } else {
                Some(o)
            },
            _ => Some(o),
        },
    }
}

/// The matches so far nest as the open containers say, and the inline parsers of the open
/// paragraphs make no block annotation.
pub open spec fn nested_ok(s: BlockState, cs: Seq<Cont>) -> bool {
    &&& block_nesting(s.matches) == Some(conts_comps(cs))
    &&& forall|i: int|
        0 <= i < cs.len() ==> (#[trigger] cs[i] matches Cont::Para { inline, .. } ==> inline_only(inline))
}

proof fn lemma_nesting_push(ms: Seq<Match>, m: Match)
    ensures
        block_nesting(ms.push(m)) == nesting_step(block_nesting(ms), m.a),
{
    assert(ms.push(m).drop_last() =~= ms);
}

proof fn lemma_nesting_plain(ms: Seq<Match>, xs: Seq<Match>)
    requires
        forall|j: int| 0 <= j < xs.len() ==> !is_block_annot(#[trigger] xs[j].a),
    ensures
        block_nesting(ms + xs) == block_nesting(ms),
    decreases xs.len(),
{
    if xs.len() > 0 {
        lemma_nesting_plain(ms, xs.drop_last());
        assert(ms + xs =~= (ms + xs.drop_last()).push(xs.last()));
        lemma_nesting_push(ms + xs.drop_last(), xs.last());
        assert(!is_block_annot(xs[xs.len() - 1].a));
    }
}

/// A match that opens or closes no block container leaves the nesting as it was.
proof fn lemma_with_plain(s: BlockState, a: usize, b: usize, ann: Annot)
    requires
        !is_block_annot(ann),
    ensures
        block_nesting(with_match(s, a, b, ann).matches) == block_nesting(s.matches),
{
    lemma_nesting_push(s.matches, Match { s: a, e: b, a: ann });
}

proof fn lemma_comps_push(cs: Seq<Cont>, c: Cont)
    ensures
        conts_comps(cs.push(c)) == conts_comps(cs).push(cont_comp(c)),
{
    assert(conts_comps(cs.push(c)) =~= conts_comps(cs).push(cont_comp(c)));
}

proof fn lemma_comps_drop(cs: Seq<Cont>)
    requires
        cs.len() > 0,
    ensures
        conts_comps(cs) == conts_comps(cs.drop_last()).push(cont_comp(cs.last())),
{
    assert(conts_comps(cs) =~= conts_comps(cs.drop_last()).push(cont_comp(cs.last())));
}

proof fn lemma_close(s: BlockState, cs: Seq<Cont>)
    requires
        nested_ok(s, cs),
        cs.len() > 0,
    ensures
        nested_ok(spec_close(s, cs.last()), cs.drop_last()),
{
    lemma_comps_drop(cs);
    let c = cs.last();
    assert(cs[cs.len() - 1] == c);
    assert(conts_comps(cs.drop_last()).push(cont_comp(c)).drop_last() =~= conts_comps(cs.drop_last()));
    match c {
        Cont::Para { inline, first, last } => {
            lemma_get_matches_inline_only(inline, first, last);
            let s1 = BlockState { matches: s.matches + spec_get_matches(inline, first, last), ..s };
            lemma_nesting_plain(s.matches, spec_get_matches(inline, first, last));
            let p = if s.pos > 0 { (s.pos - 1) as usize } else { 0 };
            lemma_nesting_push(s1.matches, Match { s: p, e: p, a: Annot::Sub(Comp::Para) });
        },
        Cont::CodeBlock { .. } => {
            let p = if s.pos >= 3 { (s.pos - 3) as usize } else { 0 };
            lemma_nesting_push(s.matches, Match { s: p, e: s.pos, a: Annot::Sub(Comp::CodeBlock) });
        },
        Cont::ReferenceDefinition { .. } => {
            lemma_nesting_push(s.matches, Match { s: s.pos, e: s.pos, a: Annot::Sub(Comp::ReferenceDefinition) });
        },
    }
    assert forall|i: int| 0 <= i < cs.drop_last().len() implies (#[trigger] cs.drop_last()[i] matches Cont::Para { inline, .. } ==> inline_only(inline)) by {
        assert(cs.drop_last()[i] == cs[i]);
    }
}

proof fn lemma_close_down(s: BlockState, cs: Seq<Cont>, n: int)
    requires
        nested_ok(s, cs),
    ensures
        nested_ok(spec_close_down(s, cs, n).0, spec_close_down(s, cs, n).1),
    decreases cs.len(),
{
    if cs.len() > n && cs.len() > 0 {
        lemma_close(s, cs);
        lemma_close_down(spec_close(s, cs.last()), cs.drop_last(), n);
    }
}

proof fn lemma_cont(t: Seq<u8>, s: BlockState, c: Cont)
    ensures
        block_nesting(spec_cont(t, s, c).0.matches) == block_nesting(s.matches),
{
    match c {
        Cont::ReferenceDefinition { indent } => {
            let m = search(t, s, "^(%S+)");
            lemma_with_plain(s, m.cap1.start, m.cap1.end, Annot::Atom(Atom::ReferenceValue));
        },
        _ => {},
    }
}

proof fn lemma_conts(t: Seq<u8>, s: BlockState, cs: Seq<Cont>, idx: int)
    requires
        nested_ok(s, cs),
    ensures
        nested_ok(spec_conts(t, s, cs, idx), cs),
    decreases cs.len() - idx,
{
    if 0 <= idx < cs.len() {
        let s1 = spec_skip_space(t, s);
        lemma_cont(t, s1, cs[idx]);
        let (s2, ok) = spec_cont(t, s1, cs[idx]);
        if ok {
            lemma_conts(t, BlockState { lmc: (idx + 1) as usize, ..s2 }, cs, idx + 1);
        }
    }
}

proof fn lemma_push_ok(s: BlockState, cs: Seq<Cont>, c: Cont, s2: BlockState)
    requires
        nested_ok(s, cs),
        block_nesting(s2.matches) == Some(conts_comps(cs).push(cont_comp(c))),
        c matches Cont::Para { inline, .. } ==> inline_only(inline),
    ensures
        nested_ok(s2, cs.push(c)),
{
    lemma_comps_push(cs, c);
    assert forall|i: int| 0 <= i < cs.push(c).len() implies (#[trigger] cs.push(c)[i] matches Cont::Para { inline, .. } ==> inline_only(inline)) by {
        if i < cs.len() {
            assert(cs.push(c)[i] == cs[i]);
        }
    }
}

proof fn lemma_open_code_block(t: Seq<u8>, s: BlockState, cs: Seq<Cont>)
    requires
        nested_ok(s, cs),
    ensures
        match spec_open_code_block(t, s) {
            (s2, Some(c)) => nested_ok(s2, cs.push(c)),
            (s2, None) => nested_ok(s2, cs),
        },
{
    let m1 = search(t, s, "^```([ \t]*)([^%s`]*)[ \t]*[\r\n]");
    let m = if m1.is_match { m1 } else { search(t, s, "^~~~([ \t]*)([^%s`]*)[ \t]*[\r\n]") };
    if m.is_match {
        let border: u8 = if m1.is_match { 96 } else { 126 };
        let lang = m.cap2;
        let s1 = with_match(s, s.pos, (s.pos + 3) as usize, Annot::Add(Comp::CodeBlock));
        lemma_nesting_push(s.matches, Match { s: s.pos, e: (s.pos + 3) as usize, a: Annot::Add(Comp::CodeBlock) });
        if lang.start < lang.end {
            lemma_with_plain(s1, lang.start, lang.end, Annot::Atom(Atom::CodeLanguage));
        }
        let (s2, o) = spec_open_code_block(t, s);
        lemma_push_ok(s, cs, Cont::CodeBlock { border, indent: s.indent }, s2);
    }
}

proof fn lemma_open_reference_definition(t: Seq<u8>, s: BlockState, cs: Seq<Cont>)
    requires
        nested_ok(s, cs),
    ensures
        match spec_open_reference_definition(t, s) {
            (s2, Some(c)) => nested_ok(s2, cs.push(c)),
            (s2, None) => nested_ok(s2, cs),
        },
{
    let m = search(t, s, "^[[]([^\r\n]*)%]:[ \t]*(%S*)");
    if m.is_match && m.end > s.pos {
        let key_len = (m.cap1.end - m.cap1.start) as usize;
        let s1 = with_match(s, m.start, m.start, Annot::Add(Comp::ReferenceDefinition));
        lemma_nesting_push(s.matches, Match { s: m.start, e: m.start, a: Annot::Add(Comp::ReferenceDefinition) });
        let s2 = with_match(s1, m.start, (m.start + key_len + 2) as usize, Annot::Atom(Atom::ReferenceKey));
        lemma_with_plain(s1, m.start, (m.start + key_len + 2) as usize, Annot::Atom(Atom::ReferenceKey));
        lemma_with_plain(s2, m.cap2.start, m.cap2.end, Annot::Atom(Atom::ReferenceValue));
        let (s3, o) = spec_open_reference_definition(t, s);
        lemma_push_ok(s, cs, Cont::ReferenceDefinition { indent: s.indent }, s3);
    }
}

proof fn lemma_open_starts(t: Seq<u8>, s: BlockState, cs: Seq<Cont>, new_starts: bool, check: bool)
    requires
        nested_ok(s, cs),
    ensures
        nested_ok(spec_open_starts(t, s, cs, new_starts, check).0, spec_open_starts(t, s, cs, new_starts, check).1),
    decreases t.len() - s.pos, if check { 1int } else { 0int },
{
    if check {
        lemma_open_code_block(t, s, cs);
        let (s1, o1) = spec_open_code_block(t, s);
        if o1 is None {
            lemma_open_reference_definition(t, s1, cs);
        }
        let (s2, o) = match o1 {
            Some(c) => (s1, Some(c)),
            None => spec_open_reference_definition(t, s1),
        };
        match o {
            None => {},
            Some(c) => {
                let cs2 = cs.push(c);
                let s3 = BlockState { lmc: cs2.len() as usize, ..s2 };
                if !s3.finished_line {
                    let s4 = spec_skip_space(t, s3);
                    let more = content_of(c) != Content::Text;
                    if s4.pos > s.pos && s4.pos <= t.len() {
                        lemma_open_starts(t, s4, cs2, true, more);
                    }
                }
            },
        }
    }
}

proof fn lemma_tip_fed(t: Seq<u8>, s5: BlockState, cs5: Seq<Cont>, is_blank: bool)
    requires
        nested_ok(s5, cs5),
        cs5.len() > 0,
    ensures
        nested_ok(tip_fed(t, s5, cs5, is_blank).0, tip_fed(t, s5, cs5, is_blank).1),
{
    let last = cs5.last();
    assert(cs5[cs5.len() - 1] == last);
    match last {
        Cont::CodeBlock { indent: tip_indent, .. } => {
            let back = if s5.indent > tip_indent && s5.pos >= s5.indent - tip_indent {
                (s5.pos - (s5.indent - tip_indent)) as usize
            } else {
                s5.pos
            };
            lemma_with_plain(s5, back, s5.endeol, Annot::Atom(Atom::Str));
        },
        Cont::Para { inline, first, last } => {
            if !is_blank && s5.pos <= s5.endeol {
                lemma_scan_inline_only(t, inline, s5.pos, s5.endeol);
                let fed = Cont::Para {
                    inline: spec_scan(t, inline, s5.pos, s5.endeol),
                    first: if s5.pos < first { s5.pos } else { first },
                    last: if s5.endeol > last { s5.endeol } else { last },
                };
                let cs6 = cs5.update(cs5.len() - 1, fed);
                assert(conts_comps(cs6) =~= conts_comps(cs5));
                assert forall|i: int| 0 <= i < cs6.len() implies (#[trigger] cs6[i] matches Cont::Para { inline, .. } ==> inline_only(inline)) by {
                    if i < cs5.len() - 1 {
                        assert(cs6[i] == cs5[i]);
                    }
                }
            }
        },
        _ => {},
    }
}

proof fn lemma_step_line(t: Seq<u8>, s: BlockState, cs: Seq<Cont>)
    requires
        nested_ok(s, cs),
    ensures
        nested_ok(spec_step_line(t, s, cs).0, spec_step_line(t, s, cs).1),
{
    let s1 = spec_skip_space(t, s);
    let blank1 = s1.pos == s1.starteol;
    let check = !blank1 && s1.lmc == 0 && !search(t, s1, "^%a+%s").is_match;
    lemma_open_starts(t, s1, cs, false, check);
    let (s2, cs2, new_starts) = spec_open_starts(t, s1, cs, false, check);
    if !s2.finished_line {
        let s3 = spec_skip_space(t, s2);
        let is_blank = s3.pos == s3.starteol;
        let is_lazy = !is_blank && !new_starts && s3.lmc < cs2.len() && content_of(cs2.last()) == Content::Inline;
        if !is_lazy && s3.lmc < cs2.len() {
            lemma_close_down(s3, cs2, s3.lmc as int);
        }
        let (s4, cs4) = if !is_lazy && s3.lmc < cs2.len() {
            spec_close_down(s3, cs2, s3.lmc as int)
        } else {
            (s3, cs2)
        };
        if cs4.len() == 0 {
            if is_blank {
                if !new_starts {
                    lemma_with_plain(s4, s4.pos, s4.endeol, Annot::Atom(Atom::Blankline));
                }
            } else {
                let (sp, c) = spec_open_para(s4);
                lemma_nesting_push(s4.matches, Match { s: s4.pos, e: s4.pos, a: Annot::Add(Comp::Para) });
                lemma_push_ok(s4, cs4, c, sp);
            }
        }
        let (s5, cs5) = if cs4.len() == 0 {
            if is_blank {
                if !new_starts {
                    (with_match(s4, s4.pos, s4.endeol, Annot::Atom(Atom::Blankline)), cs4)
                } else {
                    (s4, cs4)
                }
            } else {
                let (sp, c) = spec_open_para(s4);
                (sp, cs4.push(c))
            }
        } else {
            (s4, cs4)
        };
        if cs5.len() > 0 {
            lemma_tip_fed(t, s5, cs5, is_blank);
        }
    }
}

proof fn lemma_line(t: Seq<u8>, s: BlockState, cs: Seq<Cont>)
    requires
        nested_ok(s, cs),
    ensures
        nested_ok(spec_line(t, s, cs).0, spec_line(t, s, cs).1),
{
    let s1 = spec_get_eol(t, BlockState { indent: 0, startline: s.pos, finished_line: false, ..s });
    lemma_conts(t, BlockState { lmc: 0, ..s1 }, cs, 0);
    let s2 = spec_conts(t, BlockState { lmc: 0, ..s1 }, cs, 0);
    if s2.finished_line {
        lemma_close_down(s2, cs, s2.lmc as int);
    }
    let (s3, cs3) = if s2.finished_line {
        spec_close_down(s2, cs, s2.lmc as int)
    } else {
        (s2, cs)
    };
    if !s3.finished_line {
        lemma_step_line(t, s3, cs3);
    }
}

proof fn lemma_parse_from(t: Seq<u8>, s: BlockState, cs: Seq<Cont>)
    requires
        nested_ok(s, cs),
    ensures
        nested_ok(spec_parse_from(t, s, cs).0, spec_parse_from(t, s, cs).1),
    decreases t.len() - s.pos,
{
    if s.pos < t.len() {
        lemma_line(t, s, cs);
        let (s1, cs1) = spec_line(t, s, cs);
        if s1.pos > s.pos && s1.pos <= t.len() {
            lemma_parse_from(t, s1, cs1);
        }
    }
}

/// A parse from a state whose block annotations are closed leaves them closed and well
/// nested: each closing closes the innermost open paragraph, code block or reference
/// definition, and none is left open at the end. (The inline parser adds none of these.)
pub proof fn lemma_parse_nested(t: Seq<u8>, s: BlockState)
    requires
        block_nesting(s.matches) == Some(Seq::<Comp>::empty()),
    ensures
        block_nesting(spec_parse(t, s, Seq::empty()).matches) == Some(Seq::<Comp>::empty()),
{
    assert(conts_comps(Seq::<Cont>::empty()) =~= Seq::<Comp>::empty());
    lemma_parse_from(t, s, Seq::empty());
    let (s1, cs1) = spec_parse_from(t, s, Seq::empty());
    lemma_close_down(s1, cs1, 0);
    let (s2, cs2) = spec_close_down(s1, cs1, 0);
    assert(spec_close_down(s1, cs1, 0).1.len() == 0) by {
        lemma_close_down_len(s1, cs1, 0);
    }
    assert(conts_comps(cs2) =~= Seq::<Comp>::empty());
}

/// The block parser's containers are well nested: reading the annotations of paragraphs,
/// code blocks and reference definitions that it makes for `t` in order, each closing closes
/// the innermost open one, and none is left open at the end.
pub proof fn lemma_block_matches_nested(t: Seq<u8>)
    ensures
        block_nesting(block_matches(t)) == Some(Seq::<Comp>::empty()),
{
    lemma_parse_nested(t, fresh_state());
}

proof fn lemma_close_down_len(s: BlockState, cs: Seq<Cont>, n: int)
    requires
        0 <= n,
    ensures
        spec_close_down(s, cs, n).1.len() <= n || spec_close_down(s, cs, n).1.len() == cs.len() && cs.len() <= n,
    decreases cs.len(),
{
    if cs.len() > n && cs.len() > 0 {
        lemma_close_down_len(spec_close(s, cs.last()), cs.drop_last(), n);
    }
}

/// A fenced code block records the language its fence line names whatever the fence: when a
/// block opens and the fence pattern that matched captured a language, the opening is
/// followed by a language annotation over exactly that capture, for a `~~~` fence as for a
/// backtick one.
pub proof fn lemma_code_block_language_any_fence(t: Seq<u8>, s: BlockState)
    ensures
        ({
            let (s2, o) = spec_open_code_block(t, s);
            let m1 = search(t, s, "^```([ \t]*)([^%s`]*)[ \t]*[\r\n]");
            let m = if m1.is_match { m1 } else { search(t, s, "^~~~([ \t]*)([^%s`]*)[ \t]*[\r\n]") };
            &&& o is Some <==> m.is_match
            &&& (o matches Some(Cont::CodeBlock { border, .. }) && (border == 96 || border == 126))
                || o is None
            &&& o is Some && m.cap2.start < m.cap2.end ==> {
                &&& s2.matches.len() == s.matches.len() + 2
                &&& s2.matches[s.matches.len() as int] == Match {
                    s: s.pos,
                    e: (s.pos + 3) as usize,
                    a: Annot::Add(Comp::CodeBlock),
                }
                &&& s2.matches.last() == Match {
                    s: m.cap2.start,
                    e: m.cap2.end,
                    a: Annot::Atom(Atom::CodeLanguage),
                }
            }
        }),
{
}

} // verus!
