//! Lua pattern searches on the source text, at byte positions.
use crate::luapat::{
    init_caps, is_anchored, lemma_anchored_first_byte, lemma_anchored_no_match, spec_pm, spec_str_check, spec_str_match,
    str_check, str_match, LuaMatch, LUA_MAXCAPTURES, MAXCCALLS,
};
use std::ops::Range;
use vstd::string::StringSliceAdditionalSpecFns;
use vstd::prelude::*;

verus! {

/// The result of a search: whether it matched, the matched range, and the ranges of the
/// first two captures (empty at 0 when there are none).
#[derive(Debug)]
pub struct PatMatch {
    pub is_match: bool,
    pub start: usize,
    pub end: usize,
    pub cap1: Range<usize>,
    pub cap2: Range<usize>,
}

/// A failed search that reports the empty range at `pos`.
pub open spec fn no_match_at(m: PatMatch, pos: usize) -> bool {
    &&& !m.is_match
    &&& m.start == pos
    &&& m.end == pos
    &&& m.cap1.start == 0 && m.cap1.end == 0
    &&& m.cap2.start == 0 && m.cap2.end == 0
}

/// The bytes of a string.
pub open spec fn bytes_of(s: &str) -> Seq<u8> {
    s.spec_bytes()
}

/// The UTF-8 bytes of a text.
pub open spec fn text_bytes(t: Seq<char>) -> Seq<u8> {
    vstd::utf8::encode_utf8(t)
}

/// Whether the pattern `pat` matches `t` from byte `pos` on.
pub open spec fn found(t: Seq<u8>, pat: &str, pos: usize) -> bool {
    spec_find(t, bytes_of(pat), pos, false).is_match
}

/// What a search reports of the range it found from `start` in a subject of `len` bytes.
pub open spec fn match_in_bounds(m: PatMatch, start: usize, len: int) -> bool {
    m.is_match ==> start <= m.start <= m.end <= len
}

/// A reported capture range is ordered, and when it is not empty it lies in `start..len`.
pub open spec fn capture_in_bounds(c: Range<usize>, start: usize, len: int) -> bool {
    &&& c.start <= c.end
    &&& c.start < c.end ==> start <= c.start && c.end <= len
}

/// What a search reports of the captures it found from `start` in a subject of `len` bytes
/// (as positions counted from `start`), and of the start of a match of an anchored pattern.
pub open spec fn captures_in_bounds(m: PatMatch, pat: Seq<u8>, start: usize, len: int) -> bool {
    &&& capture_in_bounds(m.cap1, 0, len - start)
    &&& capture_in_bounds(m.cap2, 0, len - start)
    &&& m.is_match && is_anchored(pat) ==> m.start == start
}

/// The reported range of slot `j` after a match: a written range, or the empty range at 0.
pub open spec fn slot(ranges: Seq<LuaMatch>, j: int) -> LuaMatch {
    if j < ranges.len() {
        ranges[j]
    } else {
        LuaMatch { start: 0, end: 0 }
    }
}

/// A reported range as a `Range`.
pub open spec fn as_range(m: LuaMatch) -> Range<usize> {
    Range { start: m.start, end: m.end }
}

/// What a search of `subject` for `pat` from byte `start` reports: the match as positions in
/// `subject`, the captures as positions in the searched tail (counted from `start`). A
/// pattern that the checker refuses, or a match that the matcher gives up on, finds nothing.
pub open spec fn spec_find(subject: Seq<u8>, pat: Seq<u8>, start: usize, captures: bool) -> PatMatch {
    let none = PatMatch { is_match: false, start, end: start, cap1: 0..0, cap2: 0..0 };
    if subject.len() > usize::MAX - 8 || pat.len() > usize::MAX - 8 || spec_str_check(pat) is Err {
        none
    } else {
        match spec_str_match(subject.subrange(start as int, subject.len() as int), pat, LUA_MAXCAPTURES as int) {
            Err(_) => none,
            Ok(ranges) => if ranges.len() == 0 {
                none
            } else {
                PatMatch {
                    is_match: true,
                    start: (ranges[0].start + start) as usize,
                    end: (ranges[0].end + start) as usize,
                    cap1: if captures {
                        as_range(slot(ranges, 1))
                    } else {
                        0..0
                    },
                    cap2: if captures {
                        as_range(slot(ranges, 2))
                    } else {
                        0..0
                    },
                }
            },
        }
    }
}

impl Default for PatMatch {
    fn default() -> (r: PatMatch)
        ensures
            no_match_at(r, 0),
    {
        PatMatch { is_match: false, start: 0, end: 0, cap1: 0..0, cap2: 0..0 }
    }
}

impl PatMatch {
    /// The start of the match, or `endpos` when there is none.
    pub fn or(&self, endpos: usize) -> (r: usize)
        ensures
            r == (if self.is_match {
                self.start
            } else {
                endpos
            }),
    {
        if self.is_match {
            self.start
        } else {
            endpos
        }
    }

    /// The end of the match, or `endpos` when there is none.
    pub fn end_or(&self, endpos: usize) -> (r: usize)
        ensures
            r == (if self.is_match {
                self.end
            } else {
                endpos
            }),
    {
        if self.is_match {
            self.end
        } else {
            endpos
        }
    }
}

/// Searches `subject` from byte `start` for `pat`; with `captures`, also reports the first two
/// captures, as positions in the searched tail.
fn search(subject: &str, pat: &str, start: usize, captures: bool) -> (r: PatMatch)
    requires
        start <= bytes_of(subject).len(),
    ensures
        r == spec_find(bytes_of(subject), bytes_of(pat), start, captures),
        match_in_bounds(r, start, bytes_of(subject).len() as int),
        captures_in_bounds(r, bytes_of(pat), start, bytes_of(subject).len() as int),
        !r.is_match ==> no_match_at(r, start),
        !captures ==> r.cap1 == (0..0usize) && r.cap2 == (0..0usize),
{
    let bytes = subject.as_bytes();
    let pb = pat.as_bytes();
    let none = PatMatch { is_match: false, start, end: start, cap1: 0..0, cap2: 0..0 };
    // lengths near the top of the address space cannot occur; they are refused rather
    // than handed to the matcher's position arithmetic
    if bytes.len() > usize::MAX - 8 || pb.len() > usize::MAX - 8 {
        return none;
    }
    // a pattern the checker refuses finds nothing
    if str_check(pb).is_err() {
        return none;
    }
    let tail = vstd::slice::slice_subrange(bytes, start, bytes.len());
    let mut mm: Vec<LuaMatch> = Vec::new();
    let mut k: usize = 0;
    while k < LUA_MAXCAPTURES + 1
        invariant
            k <= LUA_MAXCAPTURES + 1,
            mm@.len() == k,
            forall|j: int| 0 <= j < k ==> #[trigger] mm@[j] == (LuaMatch { start: 0, end: 0 }),
        decreases LUA_MAXCAPTURES + 1 - k,
    {
        mm.push(LuaMatch { start: 0, end: 0 });
        k = k + 1;
    }
    let n = match str_match(tail, pb, mm.as_mut_slice()) {
        Ok(n) => n,
        // a match the matcher cannot complete finds nothing
        Err(_) => 0,
    };
    if n == 0 {
        return none;
    }
    let r0 = mm[0];
    let (cap1, cap2) = if captures {
        let c1 = mm[1];
        let c2 = mm[2];
        (c1.start..c1.end, c2.start..c2.end)
    } else {
        (0..0, 0..0)
    };
    PatMatch { is_match: true, start: r0.start + start, end: r0.end + start, cap1, cap2 }
}

/// Searches `subject` for the Lua pattern `pat`.
pub fn find(subject: &str, pat: &'static str) -> (r: PatMatch)
    ensures
        r == spec_find(bytes_of(subject), bytes_of(pat), 0, false),
        match_in_bounds(r, 0, bytes_of(subject).len() as int),
        !r.is_match ==> no_match_at(r, 0),
        r.cap1 == (0..0usize) && r.cap2 == (0..0usize),
{
    find_at(subject, pat, 0)
}

/// Searches `subject` for the Lua pattern `pat`, from byte `start` on.
pub fn find_at(subject: &str, pat: &'static str, start: usize) -> (r: PatMatch)
    requires
        start <= bytes_of(subject).len(),
    ensures
        r == spec_find(bytes_of(subject), bytes_of(pat), start, false),
        match_in_bounds(r, start, bytes_of(subject).len() as int),
        captures_in_bounds(r, bytes_of(pat), start, bytes_of(subject).len() as int),
        !r.is_match ==> no_match_at(r, start),
        r.cap1 == (0..0usize) && r.cap2 == (0..0usize),
{
    search(subject, pat, start, false)
}

/// Searches `subject` for the Lua pattern `pat` from byte `start` on, and reports the
/// ranges of its first two captures, counted from `start`.
pub fn capture_at(subject: &str, pat: &'static str, start: usize) -> (r: PatMatch)
    requires
        start <= bytes_of(subject).len(),
    ensures
        r == spec_find(bytes_of(subject), bytes_of(pat), start, true),
        match_in_bounds(r, start, bytes_of(subject).len() as int),
        captures_in_bounds(r, bytes_of(pat), start, bytes_of(subject).len() as int),
        !r.is_match ==> no_match_at(r, start),
{
    search(subject, pat, start, true)
}

/// A pattern whose first character is `^` is anchored.
pub proof fn lemma_anchored(pat: &str)
    requires
        pat@.len() > 0,
        pat@[0] == '^',
    ensures
        is_anchored(bytes_of(pat)),
{
    let c = pat@;
    assert(vstd::utf8::encode_utf8(c) == vstd::utf8::encode_scalar(c[0] as u32) + vstd::utf8::encode_utf8(c.drop_first()));
    assert((94u32 & 0x7Fu32) == 94u32) by (bit_vector);
    assert(vstd::utf8::leading_byte_width_1(94u32) == 94u8);
    assert(vstd::utf8::encode_scalar(94u32) =~= seq![94u8]);
}

/// The bytes of a string of ASCII characters are its characters.
pub proof fn lemma_ascii_bytes(s: &str)
    requires
        forall|i: int| 0 <= i < s@.len() ==> '\0' <= #[trigger] s@[i] <= '\u{7f}',
    ensures
        bytes_of(s) =~= Seq::new(s@.len(), |i: int| s@[i] as u8),
{
    assert(vstd::string::is_ascii(s));
    vstd::string::is_ascii_spec_bytes(s);
}

/// An anchored pattern that finds nothing at the start of the searched tail finds nothing.
pub proof fn lemma_find_anchored_none(t: Seq<u8>, pat: Seq<u8>, start: usize, captures: bool)
    requires
        start <= t.len(),
        pat.len() > 0,
        pat[0] == 94,
        spec_pm(
            t.subrange(start as int, t.len() as int),
            pat,
            (MAXCCALLS as int, 0int, init_caps()),
            0,
            1,
        ).0 == Ok::<Option<int>, Seq<char>>(None),
    ensures
        !spec_find(t, pat, start, captures).is_match,
{
    lemma_anchored_no_match(t.subrange(start as int, t.len() as int), pat, LUA_MAXCAPTURES as int);
}

/// An anchored pattern that the checker accepts and that matches just the first byte of the
/// searched tail finds that byte.
pub proof fn lemma_find_anchored_first_byte(t: Seq<u8>, pat: Seq<u8>, start: usize, captures: bool)
    requires
        start < t.len(),
        t.len() + 8 <= usize::MAX,
        pat.len() + 8 <= usize::MAX,
        pat.len() > 0,
        pat[0] == 94,
        spec_str_check(pat) is Ok,
        spec_pm(
            t.subrange(start as int, t.len() as int),
            pat,
            (MAXCCALLS as int, 0int, init_caps()),
            0,
            1,
        ) == (Ok::<Option<int>, Seq<char>>(Some(1)), (MAXCCALLS as int, 0int, init_caps())),
    ensures
        spec_find(t, pat, start, captures).is_match,
        spec_find(t, pat, start, captures).start == start,
        spec_find(t, pat, start, captures).end == start + 1,
{
    lemma_anchored_first_byte(t.subrange(start as int, t.len() as int), pat, LUA_MAXCAPTURES as int);
}

/// Space, line feed or tab.
pub fn is_space(c: char) -> (r: bool)
    ensures
        r == (c == ' ' || c == '\n' || c == '\t'),
{
    c == ' ' || c == '\n' || c == '\t'
}

} // verus!
