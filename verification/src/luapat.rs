//! Lua 5.2 string patterns, matched over bytes.
//!
//! Positions are byte offsets: into the subject for `s`, into the pattern for `p`.
//! A position past the end of the pattern reads as the byte 0, as the C code
//! reads the terminating NUL.
use crate::errors::PatternError;
use crate::text::digit_text;
use vstd::prelude::*;

verus! {

pub const LUA_MAXCAPTURES: usize = 32;

/// Maximum recursion depth of one match attempt.
pub const MAXCCALLS: usize = 200;

/// The escape byte, `%`.
pub const L_ESC: u8 = 37u8;

/// A matched range of the subject: the bytes `start..end`.
#[derive(Copy, Clone, Debug)]
pub struct LuaMatch {
    pub start: usize,
    pub end: usize,
}

#[derive(Copy, Clone)]
pub enum CapLen {
    Len(usize),
    Unfinished,
    Position,
}

impl CapLen {
    fn is_unfinished(&self) -> (r: bool)
        ensures
            r == (*self is Unfinished),
    {
        match *self {
            CapLen::Unfinished => true,
            _ => false,
        }
    }

    fn size(&self) -> (r: Result<usize, PatternError>)
        ensures
            match *self {
                CapLen::Len(l) => r == Ok::<usize, PatternError>(l),
                _ => r is Err,
            },
    {
        match *self {
            CapLen::Len(size) => Ok(size),
            _ => error("capture was unfinished or positional"),
        }
    }
}

#[derive(Copy, Clone)]
pub struct Capture {
    pub init: usize,
    pub len: CapLen,
}

impl Capture {
    fn is_unfinished(&self) -> (r: bool)
        ensures
            r == (self.len is Unfinished),
    {
        self.len.is_unfinished()
    }
}

fn error<T>(msg: &str) -> (r: Result<T, PatternError>)
    ensures
        r matches Err(e) && e.0@ == msg@,
{
    Err(PatternError(String::from_str(msg)))
}

/// The byte at `i`, or 0 past either end.
pub open spec fn byte_at(s: Seq<u8>, i: int) -> u8 {
    if 0 <= i < s.len() {
        s[i]
    } else {
        0u8
    }
}

fn at(s: &[u8], i: usize) -> (r: u8)
    ensures
        r == byte_at(s@, i as int),
{
    if i < s.len() {
        s[i]
    } else {
        0
    }
}

pub open spec fn is_upper(c: u8) -> bool {
    65 <= c <= 90
}

pub open spec fn is_lower(c: u8) -> bool {
    97 <= c <= 122
}

pub open spec fn is_alpha(c: u8) -> bool {
    is_upper(c) || is_lower(c)
}

pub open spec fn is_digit(c: u8) -> bool {
    48 <= c <= 57
}

pub open spec fn is_alnum(c: u8) -> bool {
    is_alpha(c) || is_digit(c)
}

pub open spec fn is_control(c: u8) -> bool {
    c <= 31 || c == 127
}

pub open spec fn is_graphic(c: u8) -> bool {
    33 <= c <= 126
}

pub open spec fn is_punct(c: u8) -> bool {
    is_graphic(c) && !is_alnum(c)
}

/// C-locale whitespace: space, tab, line feed, vertical tab, form feed, carriage return.
pub open spec fn is_white(c: u8) -> bool {
    c == 32 || (9 <= c <= 13)
}

pub open spec fn is_hex(c: u8) -> bool {
    is_digit(c) || (65 <= c <= 70) || (97 <= c <= 102)
}

pub open spec fn to_lower(c: u8) -> u8 {
    if is_upper(c) {
        (c + 32) as u8
    } else {
        c
    }
}

/// What the class letter `lc` (lower case) says of `ch`; `None` when `lc` names no class.
pub open spec fn class_test(ch: u8, lc: u8) -> Option<bool> {
    if lc == 97 {
        Some(is_alpha(ch))
    } else if lc == 99 {
        Some(is_control(ch))
    } else if lc == 100 {
        Some(is_digit(ch))
    } else if lc == 103 {
        Some(is_graphic(ch))
    } else if lc == 108 {
        Some(is_lower(ch))
    } else if lc == 112 {
        Some(is_punct(ch))
    } else if lc == 115 {
        Some(is_white(ch))
    } else if lc == 117 {
        Some(is_upper(ch))
    } else if lc == 119 {
        Some(is_alnum(ch))
    } else if lc == 120 {
        Some(is_hex(ch))
    } else {
        None
    }
}

/// Whether `%` followed by `class` admits `ch`: a class letter in lower case admits its
/// members, in upper case the rest; any other byte admits itself.
pub open spec fn spec_match_class(ch: u8, class: u8) -> bool {
    match class_test(ch, to_lower(class)) {
        Some(res) => if is_lower(class) {
            res
        } else {
            !res
        },
        None => class == ch,
    }
}

pub fn match_class(ch: u8, class: u8) -> (r: bool)
    ensures
        r == spec_match_class(ch, class),
{
    let lc = if 65 <= class && class <= 90 {
        class + 32
    } else {
        class
    };
    let is_up = |c: u8| -> (r: bool) ensures r == is_upper(c) { 65 <= c && c <= 90 };
    let is_lo = |c: u8| -> (r: bool) ensures r == is_lower(c) { 97 <= c && c <= 122 };
    let is_di = |c: u8| -> (r: bool) ensures r == is_digit(c) { 48 <= c && c <= 57 };
    let res = if lc == 97 {
        is_up(ch) || is_lo(ch)
    } else if lc == 99 {
        ch <= 31 || ch == 127
    } else if lc == 100 {
        is_di(ch)
    } else if lc == 103 {
        33 <= ch && ch <= 126
    } else if lc == 108 {
        is_lo(ch)
    } else if lc == 112 {
        33 <= ch && ch <= 126 && !(is_up(ch) || is_lo(ch) || is_di(ch))
    } else if lc == 115 {
        ch == 32 || (9 <= ch && ch <= 13)
    } else if lc == 117 {
        is_up(ch)
    } else if lc == 119 {
        is_up(ch) || is_lo(ch) || is_di(ch)
    } else if lc == 120 {
        is_di(ch) || (65 <= ch && ch <= 70) || (97 <= ch && ch <= 102)
    } else {
        return class == ch;
    };
    if 97 <= class && class <= 122 {
        res
    } else {
        !res
    }
}

/// What `%` followed by each class letter admits, byte by byte: `%a` letters, `%c` control
/// bytes, `%d` decimal digits, `%g` printable bytes but space, `%l` lower-case letters, `%p`
/// punctuation, `%s` whitespace, `%u` upper-case letters, `%w` letters and digits, `%x`
/// hexadecimal digits in either case; the upper-case letter admits the rest; any other byte
/// admits itself alone.
pub proof fn lemma_class_letters(ch: u8, other: u8)
    requires
        !(97 <= other <= 122 && (other == 97 || other == 99 || other == 100 || other == 103
            || other == 108 || other == 112 || other == 115 || other == 117 || other == 119
            || other == 120)),
        !(65 <= other <= 90 && (other == 65 || other == 67 || other == 68 || other == 71
            || other == 76 || other == 80 || other == 83 || other == 85 || other == 87
            || other == 88)),
    ensures
        spec_match_class(ch, 97) <==> (65 <= ch <= 90 || 97 <= ch <= 122),
        spec_match_class(ch, 99) <==> (ch < 32 || ch == 127),
        spec_match_class(ch, 100) <==> (48 <= ch <= 57),
        spec_match_class(ch, 103) <==> (33 <= ch <= 126),
        spec_match_class(ch, 108) <==> (97 <= ch <= 122),
        spec_match_class(ch, 112) <==> (33 <= ch <= 47 || 58 <= ch <= 64 || 91 <= ch <= 96 || 123
            <= ch <= 126),
        spec_match_class(ch, 115) <==> (ch == 32 || 9 <= ch <= 13),
        spec_match_class(ch, 117) <==> (65 <= ch <= 90),
        spec_match_class(ch, 119) <==> (48 <= ch <= 57 || 65 <= ch <= 90 || 97 <= ch <= 122),
        spec_match_class(ch, 120) <==> (48 <= ch <= 57 || 65 <= ch <= 70 || 97 <= ch <= 102),
        spec_match_class(ch, 65) <==> !spec_match_class(ch, 97),
        spec_match_class(ch, 67) <==> !spec_match_class(ch, 99),
        spec_match_class(ch, 68) <==> !spec_match_class(ch, 100),
        spec_match_class(ch, 71) <==> !spec_match_class(ch, 103),
        spec_match_class(ch, 76) <==> !spec_match_class(ch, 108),
        spec_match_class(ch, 80) <==> !spec_match_class(ch, 112),
        spec_match_class(ch, 83) <==> !spec_match_class(ch, 115),
        spec_match_class(ch, 85) <==> !spec_match_class(ch, 117),
        spec_match_class(ch, 87) <==> !spec_match_class(ch, 119),
        spec_match_class(ch, 88) <==> !spec_match_class(ch, 120),
        spec_match_class(ch, other) <==> ch == other,
{
}

/// Whether some item of a bracket class body, read from `p` up to (not including) `ec`,
/// admits `c`: an escaped class, a range `x-y`, or a single byte.
pub open spec fn bracket_items(c: u8, pat: Seq<u8>, p: int, ec: int) -> bool
    decreases ec + 2 - p,
{
    if p >= ec {
        false
    } else if byte_at(pat, p) == L_ESC {
        spec_match_class(c, byte_at(pat, p + 1)) || bracket_items(c, pat, p + 2, ec)
    } else if byte_at(pat, p + 1) == 45 && p + 2 < ec {
        (byte_at(pat, p) <= c && c <= byte_at(pat, p + 2)) || bracket_items(c, pat, p + 3, ec)
    } else {
        byte_at(pat, p) == c || bracket_items(c, pat, p + 1, ec)
    }
}

/// Whether the bracket class that opens at `p` (the `[`) and whose closing `]` is at `ec`
/// admits `c`; a leading `^` complements the class.
pub open spec fn spec_bracket(c: u8, pat: Seq<u8>, p: int, ec: int) -> bool {
    if byte_at(pat, p + 1) == 94 {
        !bracket_items(c, pat, p + 2, ec)
    } else {
        bracket_items(c, pat, p + 1, ec)
    }
}

pub fn matchbracketclass(c: u8, pat: &[u8], p: usize, ec: usize) -> (r: bool)
    requires
        ec <= pat@.len(),
        p <= ec,
        pat@.len() + 8 <= usize::MAX,
    ensures
        r == spec_bracket(c, pat@, p as int, ec as int),
{
    let r = matchbracketclass_scan(c, pat, p, ec);
    r
}

fn matchbracketclass_scan(c: u8, pat: &[u8], p: usize, ec: usize) -> (r: bool)
    requires
        ec <= pat@.len(),
        p <= ec,
        pat@.len() + 8 <= usize::MAX,
    ensures
        r == spec_bracket(c, pat@, p as int, ec as int),
{
    let ghost p0 = p;
    let mut i = p;
    let sig = if at(pat, i + 1) == 94 {
        i = i + 1;
        false
    } else {
        true
    };
    i = i + 1;
    let ghost start = i;
    while i < ec
        invariant
            ec <= pat@.len(),
            pat@.len() + 8 <= usize::MAX,
            start <= i <= ec + 3,
            p0 == p,
            start == if sig { p0 + 1 } else { p0 + 2 },
            sig == (byte_at(pat@, p0 + 1) != 94),
            bracket_items(c, pat@, start as int, ec as int) == bracket_items(
                c,
                pat@,
                i as int,
                ec as int,
            ),
        decreases ec + 3 - i,
    {
        let ghost q = i as int;
        assert(bracket_items(c, pat@, q, ec as int) == if byte_at(pat@, q) == L_ESC {
            spec_match_class(c, byte_at(pat@, q + 1)) || bracket_items(c, pat@, q + 2, ec as int)
        } else if byte_at(pat@, q + 1) == 45 && q + 2 < ec {
            (byte_at(pat@, q) <= c && c <= byte_at(pat@, q + 2)) || bracket_items(
                c,
                pat@,
                q + 3,
                ec as int,
            )
        } else {
            byte_at(pat@, q) == c || bracket_items(c, pat@, q + 1, ec as int)
        });
        if at(pat, i) == L_ESC {
            i = i + 1;
            if match_class(c, at(pat, i)) {
                return sig;
            }
        } else if at(pat, i + 1) == 45 && i + 2 < ec {
            let lastc = at(pat, i);
            i = i + 2;
            if lastc <= c && c <= at(pat, i) {
                return sig;
            }
        } else if at(pat, i) == c {
            return sig;
        }
        i = i + 1;
    }
    !sig
}

/// The items of a bracket class body read the same in two patterns that agree on the bytes
/// from the start of the body to its closing `]`.
proof fn lemma_bracket_items_shift(c: u8, a: Seq<u8>, p: int, ea: int, b: Seq<u8>, q: int, eb: int)
    requires
        0 <= p,
        0 <= q,
        ea - p == eb - q,
        ea < a.len(),
        eb < b.len(),
        forall|i: int| 0 <= i <= ea - p ==> #[trigger] a[p + i] == b[q + i],
    ensures
        bracket_items(c, a, p, ea) == bracket_items(c, b, q, eb),
    decreases ea + 2 - p,
{
    if p < ea {
        assert(a[p + 0] == b[q + 0]);
        assert(a[p + 1] == b[q + 1]);
        assert(byte_at(a, p) == byte_at(b, q));
        assert(byte_at(a, p + 1) == byte_at(b, q + 1));
        if p + 2 <= ea {
            assert(a[p + 2] == b[q + 2]);
            assert(byte_at(a, p + 2) == byte_at(b, q + 2));
        }
        assert forall|k: int, i: int| 1 <= k <= 3 && 0 <= i <= ea - (p + k) implies #[trigger] a[(p
            + k) + i] == b[(q + k) + i] by {
            assert(a[p + (k + i)] == b[q + (k + i)]);
        }
        if p + 2 <= ea {
            lemma_bracket_items_shift(c, a, p + 2, ea, b, q + 2, eb);
        }
        if p + 3 <= ea {
            lemma_bracket_items_shift(c, a, p + 3, ea, b, q + 3, eb);
        }
        lemma_bracket_items_shift(c, a, p + 1, ea, b, q + 1, eb);
        assert(bracket_items(c, a, p + 2, ea) == bracket_items(c, b, q + 2, eb));
        assert(bracket_items(c, a, p + 3, ea) == bracket_items(c, b, q + 3, eb));
        assert(bracket_items(c, a, p + 1, ea) == bracket_items(c, b, q + 1, eb));
    }
}

/// A class that starts with `^` admits exactly the bytes that the same class without it
/// refuses: `[^set]` is the complement of `[set]`.
pub proof fn lemma_negated_class(c: u8, set: Seq<u8>)
    requires
        set.len() > 0,
        set[0] != 94,
    ensures
        spec_bracket(c, seq![91u8, 94u8] + set + seq![93u8], 0, set.len() + 2 as int) == !spec_bracket(
            c,
            seq![91u8] + set + seq![93u8],
            0,
            set.len() + 1 as int,
        ),
{
    let neg = seq![91u8, 94u8] + set + seq![93u8];
    let pos = seq![91u8] + set + seq![93u8];
    assert(neg[1] == 94);
    assert(pos[1] == set[0]);
    assert forall|i: int| 0 <= i <= set.len() implies #[trigger] neg[2 + i] == pos[1 + i] by {
        if i < set.len() {
            assert(neg[2 + i] == set[i]);
            assert(pos[1 + i] == set[i]);
        } else {
            assert(neg[2 + i] == 93);
            assert(pos[1 + i] == 93);
        }
    }
    lemma_bracket_items_shift(c, neg, 2, set.len() + 2 as int, pos, 1, set.len() + 1 as int);
}

/// Position just after the `]` that closes a bracket class whose body is read from `q`,
/// or `None` when the pattern ends first. The byte at `q` belongs to the body whatever it
/// is (so a `]` right after `[` or `[^` is a member), and an escape takes the byte after it
/// along.
pub open spec fn bracket_end(pat: Seq<u8>, q: int) -> Option<int>
    decreases pat.len() + 1 - q,
{
    if q >= pat.len() || q < 0 {
        None
    } else {
        let q1 = if pat[q] == L_ESC && q + 1 < pat.len() {
            q + 2
        } else {
            q + 1
        };
        if byte_at(pat, q1) == 93 {
            Some(q1 + 1)
        } else {
            bracket_end(pat, q1)
        }
    }
}

/// Why the single-byte class at `p` is malformed: an escape with nothing after it, or a set
/// without its `]`.
pub open spec fn classend_error(pat: Seq<u8>, p: int) -> Seq<char> {
    if byte_at(pat, p) == L_ESC {
        "malformed pattern (ends with '%')"@
    } else {
        "malformed pattern (missing ']')"@
    }
}

/// Position just after the single-byte class that starts at `p`, or `None` when it is malformed.
pub open spec fn spec_classend(pat: Seq<u8>, p: int) -> Option<int> {
    let ch = byte_at(pat, p);
    if ch == L_ESC {
        if p + 1 == pat.len() {
            None
        } else {
            Some(p + 2)
        }
    } else if ch == 91 {
        if byte_at(pat, p + 1) == 94 {
            bracket_end(pat, p + 2)
        } else {
            bracket_end(pat, p + 1)
        }
    } else {
        Some(p + 1)
    }
}

proof fn lemma_bracket_end_bounds(pat: Seq<u8>, q: int)
    ensures
        bracket_end(pat, q) matches Some(e) ==> q + 1 < e <= pat.len() && byte_at(pat, e - 1) == 93,
    decreases pat.len() + 1 - q,
{
    if q >= pat.len() || q < 0 {
    } else {
        let q1 = if pat[q] == L_ESC && q + 1 < pat.len() {
            q + 2
        } else {
            q + 1
        };
        if byte_at(pat, q1) != 93 {
            lemma_bracket_end_bounds(pat, q1);
        }
    }
}

/// Whether a subject byte at `s` is admitted by the single-byte class `p..ep`.
pub open spec fn spec_singlematch(src: Seq<u8>, pat: Seq<u8>, s: int, p: int, ep: int) -> bool {
    if s >= src.len() {
        false
    } else {
        let c = src[s];
        let pc = byte_at(pat, p);
        if pc == 46 {
            true
        } else if pc == L_ESC {
            spec_match_class(c, byte_at(pat, p + 1))
        } else if pc == 91 {
            spec_bracket(c, pat, p, ep - 1)
        } else {
            c == pc
        }
    }
}

/// Scans for the byte `e` that balances the open bytes `b` counted in `cont`,
/// from `i` on; the position after it, or `None` when the subject ends first.
pub open spec fn balance_scan(src: Seq<u8>, b: u8, e: u8, i: int, cont: int) -> Option<int>
    decreases src.len() - i,
{
    if i >= src.len() || i < 0 {
        None
    } else if src[i] == e {
        if cont - 1 == 0 {
            Some(i + 1)
        } else {
            balance_scan(src, b, e, i + 1, cont - 1)
        }
    } else if src[i] == b {
        balance_scan(src, b, e, i + 1, cont + 1)
    } else {
        balance_scan(src, b, e, i + 1, cont)
    }
}

proof fn lemma_balance_scan_bounds(src: Seq<u8>, b: u8, e: u8, i: int, cont: int)
    requires
        0 <= i,
    ensures
        balance_scan(src, b, e, i, cont) matches Some(r) ==> i < r <= src.len(),
    decreases src.len() - i,
{
    if i >= src.len() {
    } else if src[i] == e {
        if cont - 1 != 0 {
            lemma_balance_scan_bounds(src, b, e, i + 1, cont - 1);
        }
    } else if src[i] == b {
        lemma_balance_scan_bounds(src, b, e, i + 1, cont + 1);
    } else {
        lemma_balance_scan_bounds(src, b, e, i + 1, cont);
    }
}

/// The message for an invalid back reference `%d`: the index is shown as one digit, 9 for any larger.
fn invalid_capture_index(d: u8) -> (r: Result<(), PatternError>)
    ensures
        r matches Err(e) && e.0@ == "invalid capture index %"@ + digit_text(d as nat),
{
    let digit = if d == 0 {
        "0"
    } else if d == 1 {
        "1"
    } else if d == 2 {
        "2"
    } else if d == 3 {
        "3"
    } else if d == 4 {
        "4"
    } else if d == 5 {
        "5"
    } else if d == 6 {
        "6"
    } else if d == 7 {
        "7"
    } else if d == 8 {
        "8"
    } else {
        "9"
    };
    let mut msg = String::from_str("invalid capture index %");
    msg.append(digit);
    Err(PatternError(msg))
}

/// Whether the `len` bytes of `src` from `a` are the `len` bytes from `b`.
fn same_bytes(src: &[u8], a: usize, b: usize, len: usize) -> (r: bool)
    requires
        a + len <= src@.len(),
        b + len <= src@.len(),
        src@.len() + 8 <= usize::MAX,
    ensures
        r == (src@.subrange(b as int, b + len) == src@.subrange(a as int, a + len)),
{
    let mut i: usize = 0;
    while i < len
        invariant
            i <= len,
            a + len <= src@.len(),
            b + len <= src@.len(),
            src@.len() + 8 <= usize::MAX,
            forall|j: int| 0 <= j < i ==> #[trigger] src@[a + j] == src@[b + j],
        decreases len - i,
    {
        if src[a + i] != src[b + i] {
            assert(src@.subrange(b as int, b + len)[i as int] != src@.subrange(a as int, a + len)[i as int]);
            return false;
        }
        i = i + 1;
    }
    assert forall|j: int| 0 <= j < len implies #[trigger] src@.subrange(b as int, b + len)[j]
        == src@.subrange(a as int, a + len)[j] by {
        assert(src@[a + j] == src@[b + j]);
    }
    assert(src@.subrange(b as int, b + len) =~= src@.subrange(a as int, a + len));
    true
}

/// An optional position, read as an integer.
pub open spec fn opt_int(o: Option<usize>) -> Option<int> {
    match o {
        Some(v) => Some(v as int),
        None => None,
    }
}

/// `a - b` on addresses, an absent position reading as 0; wraps like pointer differences.
fn diff_opt(a: Option<usize>, b: Option<usize>) -> (r: usize)
    ensures
        r == spec_diff_opt(a, b),
{
    let x = match a {
        Some(v) => v,
        None => 0,
    };
    let y = match b {
        Some(v) => v,
        None => 0,
    };
    x.wrapping_sub(y)
}

pub open spec fn spec_diff_opt(a: Option<usize>, b: Option<usize>) -> usize {
    let x: usize = match a {
        Some(v) => v,
        None => 0,
    };
    let y: usize = match b {
        Some(v) => v,
        None => 0,
    };
    vstd::wrapping::usize_specs::wrapping_sub(x, y)
}


/// The matcher's state as a value: remaining depth, number of captures, and the capture slots.
pub type MState = (int, int, Seq<Capture>);

/// An outcome of the matcher as a value: an error, no match, or the end of a match.
pub type SRes = Result<Option<int>, Seq<char>>;

pub open spec fn res_view(r: Result<Option<usize>, PatternError>) -> SRes {
    match r {
        Ok(o) => Ok(opt_int(o)),
        Err(e) => Err(e.0@),
    }
}

pub open spec fn with_md(st: MState, md: int) -> MState {
    (md, st.1, st.2)
}

/// After a sub-match: its outcome, with the depth given back unless it failed with an error.
pub open spec fn give_back(r: (SRes, MState)) -> (SRes, MState) {
    match r.0 {
        Err(_) => r,
        Ok(o) => (Ok(o), with_md(r.1, r.1.0 + 1)),
    }
}

/// The capture slots a fresh matcher starts with.
pub open spec fn init_caps() -> Seq<Capture> {
    Seq::new(LUA_MAXCAPTURES as nat, |i: int| Capture { init: 0, len: CapLen::Len(0) })
}

/// The highest open capture below `l`.
pub open spec fn spec_capture_to_close(caps: Seq<Capture>, l: int) -> Option<int>
    decreases l,
{
    if l <= 0 {
        None
    } else if caps[l - 1].len is Unfinished {
        Some(l - 1)
    } else {
        spec_capture_to_close(caps, l - 1)
    }
}

/// A back reference `%c` at `s`: when the next bytes repeat the bytes of the closed capture,
/// the end after them. A position capture holds no bytes and admits nothing.
pub open spec fn spec_match_capture(src: Seq<u8>, st: MState, s: int, c: u8) -> SRes {
    let k = c - 49;
    if c < 49 || k >= st.1 || st.2[k].len is Unfinished {
        Err("invalid capture index %"@ + digit_text((c - 48) as nat))
    } else {
        let init = st.2[k].init as int;
        match st.2[k].len {
            CapLen::Len(len) => if src.len() - s >= len && src.subrange(s, s + len) == src.subrange(
                init,
                init + len,
            ) {
                Ok(Some(s + len))
            } else {
                Ok(None)
            },
            _ => Ok(None),
        }
    }
}

pub open spec fn spec_matchbalance(src: Seq<u8>, pat: Seq<u8>, s: int, p: int) -> SRes {
    if p + 1 >= pat.len() {
        Err("malformed pattern (missing arguments to '%b')"@)
    } else if byte_at(src, s) != byte_at(pat, p) {
        Ok(None)
    } else {
        Ok(balance_scan(src, byte_at(pat, p), byte_at(pat, p + 1), s + 1, 1))
    }
}

/// How many bytes from `s` on the single-byte class `p..ep` admits in a row.
pub open spec fn run_len(src: Seq<u8>, pat: Seq<u8>, s: int, p: int, ep: int) -> int
    decreases src.len() - s,
{
    if spec_singlematch(src, pat, s, p, ep) {
        1 + run_len(src, pat, s + 1, p, ep)
    } else {
        0
    }
}

/// Matching the pattern from `p` against the subject from `s`, with state `st`: the
/// outcome and the state after. As in Lua 5.2, a step that hands the rest of the pattern to a
/// nested match (a capture, a repetition, `?`) holds one unit of depth while it runs, and a
/// step that goes straight on with the rest (a single byte, `%b`, `%f`, a back reference, an
/// empty repetition) holds none; running out of depth is an error.
pub open spec fn spec_pm(src: Seq<u8>, pat: Seq<u8>, st: MState, s: int, p: int) -> (SRes, MState)
    decreases st.0, pat.len() + 1 - p, 1int,
{
    let st1 = with_md(st, st.0 - 1);
    if st.0 - 1 <= 0 {
        (Err("pattern too complex"@), st1)
    } else if p >= pat.len() {
        (Ok(Some(s)), st)
    } else {
        let pc = byte_at(pat, p);
        if pc == 40 {
            if byte_at(pat, p + 1) == 41 {
                give_back(spec_sc(src, pat, st1, s, p + 2, CapLen::Position))
            } else {
                give_back(spec_sc(src, pat, st1, s, p + 1, CapLen::Unfinished))
            }
        } else if pc == 41 {
            give_back(spec_ec(src, pat, st1, s, p + 1))
        } else if pc == 36 && p + 1 == pat.len() {
            (Ok(if s == src.len() { Some(s) } else { None }), st)
        } else if pc == L_ESC {
            let nc = byte_at(pat, p + 1);
            if nc == 98 {
                match spec_matchbalance(src, pat, s, p + 2) {
                    Err(m) => (Err(m), st1),
                    Ok(Some(e)) => spec_pm(src, pat, st, e, p + 4),
                    Ok(None) => (Ok(None), st),
                }
            } else if nc == 102 {
                let fp = p + 2;
                if byte_at(pat, fp) != 91 {
                    (Err("missing '[' after '%f' in pattern"@), st1)
                } else {
                    match spec_classend(pat, fp) {
                        None => (Err("malformed pattern (missing ']')"@), st1),
                        Some(ep) => if !(p < ep <= pat.len()) {
                            (Err("malformed pattern (missing ']')"@), st1)
                        } else {
                            let previous = if s == 0 {
                                0u8
                            } else {
                                byte_at(src, s - 1)
                            };
                            if !spec_bracket(previous, pat, fp, ep - 1) && spec_bracket(
                                byte_at(src, s),
                                pat,
                                fp,
                                ep - 1,
                            ) {
                                spec_pm(src, pat, st, s, ep)
                            } else {
                                (Ok(None), st)
                            }
                        },
                    }
                }
            } else if 48 <= nc <= 57 {
                match spec_match_capture(src, st1, s, nc) {
                    Err(m) => (Err(m), st1),
                    Ok(Some(e)) => spec_pm(src, pat, st, e, p + 2),
                    Ok(None) => (Ok(None), st),
                }
            } else {
                spec_pdm(src, pat, st1, s, p)
            }
        } else {
            spec_pdm(src, pat, st1, s, p)
        }
    }
}

/// A single-byte class with an optional repetition suffix (`*`, `+`, `-`, `?`), with the depth
/// already taken for this step (`st`); an outcome other than an error gives it back.
pub open spec fn spec_pdm(src: Seq<u8>, pat: Seq<u8>, st: MState, s: int, p: int) -> (SRes, MState)
    decreases st.0 + 1, pat.len() + 1 - p, 0int,
{
    if st.0 < 1 {
        (Err("pattern too complex"@), st)
    } else {
        match spec_classend(pat, p) {
            None => (Err(classend_error(pat, p)), st),
            Some(ep) => if !(p < ep <= pat.len()) {
                (Err(classend_error(pat, p)), st)
            } else {
                let epc = byte_at(pat, ep);
                if !spec_singlematch(src, pat, s, p, ep) {
                    if epc == 42 || epc == 63 || epc == 45 {
                        spec_pm(src, pat, with_md(st, st.0 + 1), s, ep + 1)
                    } else {
                        (Ok(None), with_md(st, st.0 + 1))
                    }
                } else if epc == 63 {
                    let (r1, st2) = spec_pm(src, pat, st, s + 1, ep + 1);
                    match r1 {
                        Err(m) => (Err(m), st2),
                        Ok(Some(e)) => (Ok(Some(e)), with_md(st2, st2.0 + 1)),
                        Ok(None) => if 0 <= st2.0 <= st.0 {
                            spec_pm(src, pat, with_md(st2, st2.0 + 1), s, ep + 1)
                        } else {
                            (Err("pattern too complex"@), st2)
                        },
                    }
                } else if epc == 43 {
                    give_back(spec_max(src, pat, st, s + 1, p, ep))
                } else if epc == 42 {
                    give_back(spec_max(src, pat, st, s, p, ep))
                } else if epc == 45 {
                    give_back(spec_min(src, pat, st, s, p, ep))
                } else {
                    spec_pm(src, pat, with_md(st, st.0 + 1), s + 1, ep)
                }
            },
        }
    }
}

/// Greedy repetition: try the rest of the pattern after the longest run first.
pub open spec fn spec_max(src: Seq<u8>, pat: Seq<u8>, st: MState, s: int, p: int, ep: int) -> (
    SRes,
    MState,
)
    decreases st.0, pat.len() + 3, 0int,
{
    let i = run_len(src, pat, s, p, ep);
    if i < 0 {
        (Err("pattern too complex"@), st)
    } else {
        spec_max_loop(src, pat, st, s, i, ep)
    }
}

pub open spec fn spec_max_loop(src: Seq<u8>, pat: Seq<u8>, st: MState, s: int, i: int, ep: int) -> (
    SRes,
    MState,
)
    decreases st.0, pat.len() + 2, i,
{
    if i < 0 {
        (Ok(None), st)
    } else if ep < 0 || ep >= pat.len() {
        (Err("pattern too complex"@), st)
    } else {
        let (r, st2) = spec_pm(src, pat, st, s + i, ep + 1);
        match r {
            Err(m) => (Err(m), st2),
            Ok(Some(e)) => (Ok(Some(e)), st2),
            Ok(None) => if i == 0 {
                (Ok(None), st2)
            } else if 0 <= st2.0 <= st.0 {
                spec_max_loop(src, pat, st2, s, i - 1, ep)
            } else {
                (Err("pattern too complex"@), st2)
            },
        }
    }
}

/// Lazy repetition: try the rest of the pattern after the shortest run first.
pub open spec fn spec_min(src: Seq<u8>, pat: Seq<u8>, st: MState, s: int, p: int, ep: int) -> (
    SRes,
    MState,
)
    decreases st.0, pat.len() + 3, 0int,
{
    if s > src.len() {
        (Err("pattern too complex"@), st)
    } else {
        spec_min_loop(src, pat, st, s, p, ep)
    }
}

pub open spec fn spec_min_loop(src: Seq<u8>, pat: Seq<u8>, st: MState, s: int, p: int, ep: int) -> (
    SRes,
    MState,
)
    decreases st.0, pat.len() + 2, src.len() - s,
{
    if ep < 0 || ep >= pat.len() || s > src.len() {
        (Err("pattern too complex"@), st)
    } else {
        let (r, st2) = spec_pm(src, pat, st, s, ep + 1);
        match r {
            Err(m) => (Err(m), st2),
            Ok(Some(e)) => (Ok(Some(e)), st2),
            Ok(None) => if spec_singlematch(src, pat, s, p, ep) && 0 <= st2.0 <= st.0 && s < src.len() {
                spec_min_loop(src, pat, st2, s + 1, p, ep)
            } else if spec_singlematch(src, pat, s, p, ep) {
                (Err("pattern too complex"@), st2)
            } else {
                (Ok(None), st2)
            },
        }
    }
}

/// Opening a capture at `s` (a position capture when `what` says so) and matching the rest.
pub open spec fn spec_sc(src: Seq<u8>, pat: Seq<u8>, st: MState, s: int, p: int, what: CapLen) -> (
    SRes,
    MState,
)
    decreases st.0, pat.len() + 2, 0int,
{
    if st.1 >= LUA_MAXCAPTURES || st.1 < 0 {
        (Err("too many captures"@), st)
    } else if p < 0 || p > pat.len() {
        (Err("pattern too complex"@), st)
    } else {
        let st1 = (st.0, st.1 + 1, st.2.update(st.1, Capture { init: s as usize, len: what }));
        let (r, st2) = spec_pm(src, pat, st1, s, p);
        match r {
            Ok(None) => (Ok(None), (st2.0, st2.1 - 1, st2.2)),
            _ => (r, st2),
        }
    }
}

/// Closing the innermost open capture at `s` and matching the rest.
pub open spec fn spec_ec(src: Seq<u8>, pat: Seq<u8>, st: MState, s: int, p: int) -> (SRes, MState)
    decreases st.0, pat.len() + 2, 0int,
{
    match spec_capture_to_close(st.2, st.1) {
        None => (Err("invalid pattern capture"@), st),
        Some(l) => if p < 0 || p > pat.len() {
            (Err("pattern too complex"@), st)
        } else {
            let init = st.2[l].init;
            let st1 = (st.0, st.1, st.2.update(l, Capture { init, len: CapLen::Len((s - init) as usize) }));
            let (r, st2) = spec_pm(src, pat, st1, s, p);
            match r {
                Ok(None) => (Ok(None), (st2.0, st2.1, st2.2.update(l, Capture { init, len: CapLen::Unfinished }))),
                _ => (r, st2),
            }
        },
    }
}

/// Tries the pattern from `pstart` at each start position from `s1` up to the end of the
/// subject (where only the empty rest is left), threading the state
/// through; the first start that matches, with the end and the state then.
pub open spec fn spec_search(src: Seq<u8>, pat: Seq<u8>, st: MState, s1: int, pstart: int, anchor: bool) -> Result<Option<(int, int, MState)>, Seq<char>>
    decreases src.len() - s1,
{
    let (r, st2) = spec_pm(src, pat, st, s1, pstart);
    match r {
        Err(m) => Err(m),
        Ok(Some(e)) => Ok(Some((s1, e, st2))),
        Ok(None) => if s1 < src.len() && !anchor && s1 >= 0 {
            spec_search(src, pat, st2, s1 + 1, pstart, anchor)
        } else {
            Ok(None)
        },
    }
}

/// How many ranges a successful match reports besides the whole match.
pub open spec fn spec_nlevels(st: MState, s: Option<usize>) -> int {
    if st.1 == 0 && s is Some {
        1
    } else {
        st.1
    }
}

/// The range reported for capture `i`: a position capture reports the empty range at its
/// position, a closed capture its bytes.
pub open spec fn spec_capture_range(st: MState, i: int, s: Option<usize>, e: Option<usize>) -> LuaMatch {
    if i >= st.1 {
        LuaMatch { start: 0, end: spec_diff_opt(e, s) }
    } else {
        let c = st.2[i];
        match c.len {
            CapLen::Len(l) => LuaMatch { start: c.init, end: (c.init + l) as usize },
            _ => LuaMatch { start: c.init, end: c.init },
        }
    }
}

/// Reporting captures `i..n` of a finished match into `room` slots: the first capture that
/// finds no slot, is still open, or does not exist, stops it with an error.
pub open spec fn spec_push(st: MState, i: int, n: int, room: int) -> Result<(), Seq<char>>
    decreases n - i,
{
    if i >= n || i < 0 {
        Ok(())
    } else if i >= room {
        Err("too many captures"@)
    } else if i < st.1 && st.2[i].len is Unfinished {
        Err("unfinished capture"@)
    } else if i >= st.1 && i != 0 {
        Err("invalid capture index"@)
    } else {
        spec_push(st, i + 1, n, room)
    }
}

/// Reporting captures that all find a slot needs at least as many slots as captures.
proof fn lemma_push_room(st: MState, i: int, n: int, room: int)
    requires
        0 <= i < n,
        spec_push(st, i, n, room) is Ok,
    ensures
        n <= room,
    decreases n - i,
{
    if i + 1 < n {
        lemma_push_room(st, i + 1, n, room);
    }
}

/// What `str_match` does with `room` slots for captures, as a value: an error with its
/// message, or the ranges it reports (none when nothing matches).
pub open spec fn spec_str_match(src: Seq<u8>, pat: Seq<u8>, room: int) -> Result<Seq<LuaMatch>, Seq<char>> {
    let anchor = is_anchored(pat);
    let pstart = if anchor { 1int } else { 0int };
    let st0: MState = (MAXCCALLS as int, 0, init_caps());
    match spec_search(src, pat, st0, 0, pstart, anchor) {
        Err(m) => Err(m),
        Ok(None) => Ok(Seq::empty()),
        Ok(Some((st, e, fst))) => match spec_push(fst, 0, spec_nlevels(fst, None), room) {
            Err(m) => Err(m),
            Ok(()) => Ok(seq![LuaMatch { start: st as usize, end: e as usize }] + Seq::new(
                spec_nlevels(fst, None) as nat,
                |j: int| spec_capture_range(fst, j, None, None),
            )),
        },
    }
}


/// At a single-byte class item that refuses the byte at `s` (or finds the subject ended): with
/// `*`, `?` or `-` after it the match goes on with the rest of the pattern at the same place
/// and with the same state; with no repetition (or `+`) nothing matches and the state is as
/// it was.
pub proof fn lemma_pm_refused_item(src: Seq<u8>, pat: Seq<u8>, st: MState, s: int, p: int, ep: int)
    requires
        st.0 >= 2,
        0 <= p < pat.len(),
        pat[p] != 40,
        pat[p] != 41,
        !(pat[p] == 36 && p + 1 == pat.len()),
        pat[p] == L_ESC ==> !(byte_at(pat, p + 1) == 98 || byte_at(pat, p + 1) == 102 || 48 <= byte_at(
            pat,
            p + 1,
        ) <= 57),
        spec_classend(pat, p) == Some(ep),
        p < ep <= pat.len(),
        !spec_singlematch(src, pat, s, p, ep),
    ensures
        (byte_at(pat, ep) == 42 || byte_at(pat, ep) == 63 || byte_at(pat, ep) == 45) ==> spec_pm(
            src,
            pat,
            st,
            s,
            p,
        ) == spec_pm(src, pat, st, s, ep + 1),
        !(byte_at(pat, ep) == 42 || byte_at(pat, ep) == 63 || byte_at(pat, ep) == 45) ==> spec_pm(
            src,
            pat,
            st,
            s,
            p,
        ) == (Ok::<Option<int>, Seq<char>>(None), st),
{
    let st1 = with_md(st, st.0 - 1);
    assert(with_md(st1, st1.0 + 1) == st);
    assert(spec_pm(src, pat, st, s, p) == spec_pdm(src, pat, st1, s, p));
}

/// A pattern whose last item, a single-byte class with no repetition, admits the byte at `s`
/// matches there and ends just after it, leaving the state as it was.
pub proof fn lemma_pm_last_item_admits(src: Seq<u8>, pat: Seq<u8>, st: MState, s: int, p: int)
    requires
        st.0 >= 2,
        0 <= p < pat.len(),
        pat[p] != 40,
        pat[p] != 41,
        !(pat[p] == 36 && p + 1 == pat.len()),
        pat[p] == L_ESC ==> !(byte_at(pat, p + 1) == 98 || byte_at(pat, p + 1) == 102 || 48 <= byte_at(
            pat,
            p + 1,
        ) <= 57),
        spec_classend(pat, p) == Some(pat.len() as int),
        spec_singlematch(src, pat, s, p, pat.len() as int),
    ensures
        spec_pm(src, pat, st, s, p) == (Ok::<Option<int>, Seq<char>>(Some(s + 1)), st),
{
    let st1 = with_md(st, st.0 - 1);
    assert(with_md(st1, st1.0 + 1) == st);
    assert(spec_pm(src, pat, st, s, p) == spec_pdm(src, pat, st1, s, p));
}

/// An anchored pattern that matches the first byte of the subject and stops there reports
/// that byte as its match, and no capture.
pub proof fn lemma_anchored_first_byte(src: Seq<u8>, pat: Seq<u8>, room: int)
    requires
        pat.len() > 0,
        pat[0] == 94,
        spec_pm(src, pat, (MAXCCALLS as int, 0int, init_caps()), 0, 1) == (
            Ok::<Option<int>, Seq<char>>(Some(1)),
            (MAXCCALLS as int, 0int, init_caps()),
        ),
    ensures
        spec_str_match(src, pat, room) == Ok::<Seq<LuaMatch>, Seq<char>>(seq![LuaMatch { start: 0, end: 1 }]),
{
    assert(is_anchored(pat));
    let st0: MState = (MAXCCALLS as int, 0int, init_caps());
    assert(spec_nlevels(st0, None) == 0);
    assert(spec_push(st0, 0, 0, room) is Ok);
    assert(seq![LuaMatch { start: 0, end: 1 }] + Seq::new(0, |j: int| spec_capture_range(st0, j, None, None))
        =~= seq![LuaMatch { start: 0, end: 1 }]);
}

/// An anchored pattern that finds nothing at the start of the subject finds nothing at all.
pub proof fn lemma_anchored_no_match(src: Seq<u8>, pat: Seq<u8>, room: int)
    requires
        pat.len() > 0,
        pat[0] == 94,
        spec_pm(src, pat, (MAXCCALLS as int, 0int, init_caps()), 0, 1).0 == Ok::<Option<int>, Seq<char>>(None),
    ensures
        spec_str_match(src, pat, room) == Ok::<Seq<LuaMatch>, Seq<char>>(Seq::empty()),
{
    assert(is_anchored(pat));
}

/// The checker's scan of the pattern from `p`, with `level` captures seen, `stack` holding the
/// open ones, and the capture slots `caps` (open ones marked unfinished, the others closed). It
/// refuses what the matcher would refuse: an escape with nothing
/// after it, `%b` without two bytes after it, `%f` without a set, a back reference to no closed
/// capture, a set without its `]`, more captures than the matcher holds, and unbalanced
/// parentheses.
pub open spec fn spec_check(pat: Seq<u8>, p: int, level: int, stack: Seq<usize>, caps: Seq<Capture>) -> Result<(), Seq<char>>
    decreases pat.len() - p,
{
    if p >= pat.len() || p < 0 {
        if stack.len() > 0 {
            Err("unfinished capture"@)
        } else {
            Ok(())
        }
    } else {
        let ch = pat[p];
        let p1 = p + 1;
        if ch == L_ESC {
            if p1 >= pat.len() {
                Err("malformed pattern (ends with '%')"@)
            } else {
                let c = pat[p1];
                if c == 98 {
                    if p1 + 2 >= pat.len() {
                        Err("malformed pattern (missing arguments to '%b')"@)
                    } else {
                        spec_check(pat, p1 + 3, level, stack, caps)
                    }
                } else if c == 102 {
                    if byte_at(pat, p1 + 1) != 91 {
                        Err("missing '['  after '%f' in pattern"@)
                    } else {
                        spec_check(pat, p1 + 1, level, stack, caps)
                    }
                } else if 48 <= c <= 57 {
                    if c < 49 || c - 49 >= level || caps[c - 49].len is Unfinished {
                        Err("invalid capture index %"@ + digit_text((c - 48) as nat))
                    } else {
                        spec_check(pat, p1 + 1, level, stack, caps)
                    }
                } else {
                    spec_check(pat, p1 + 1, level, stack, caps)
                }
            }
        } else if ch == 91 {
            let q = if byte_at(pat, p1) == 94 {
                p1 + 1
            } else {
                p1
            };
            match bracket_end(pat, q) {
                None => Err("malformed pattern (missing ']')"@),
                Some(e) => if p < e <= pat.len() {
                    spec_check(pat, e, level, stack, caps)
                } else {
                    Err("malformed pattern (missing ']')"@)
                },
            }
        } else if ch == 40 {
            if level >= LUA_MAXCAPTURES || level < 0 {
                Err("too many captures"@)
            } else if byte_at(pat, p1) == 41 {
                spec_check(
                    pat,
                    p1 + 1,
                    level + 1,
                    stack,
                    caps.update(level, Capture { init: caps[level].init, len: CapLen::Position }),
                )
            } else {
                spec_check(
                    pat,
                    p1,
                    level + 1,
                    stack.push(level as usize),
                    caps.update(level, Capture { init: caps[level].init, len: CapLen::Unfinished }),
                )
            }
        } else if ch == 41 {
            if stack.len() == 0 {
                Err("no open capture"@)
            } else {
                let li = stack.last() as int;
                spec_check(
                    pat,
                    p1,
                    level,
                    stack.drop_last(),
                    caps.update(li, Capture { init: caps[li].init, len: CapLen::Position }),
                )
            }
        } else {
            spec_check(pat, p1, level, stack, caps)
        }
    }
}

/// What `str_check` decides of a pattern: the scan from past a leading `^`; an error holds
/// its message.
pub open spec fn spec_str_check(pat: Seq<u8>) -> Result<(), Seq<char>> {
    spec_check(pat, if is_anchored(pat) { 1 } else { 0 }, 0, Seq::empty(), init_caps())
}

pub struct MatchState<'a> {
    pub matchdepth: usize,
    pub src: &'a [u8],
    pub pat: &'a [u8],
    pub level: usize,
    pub capture: Vec<Capture>,
}

impl<'a> MatchState<'a> {
    pub open spec fn wf(&self) -> bool {
        &&& self.level <= LUA_MAXCAPTURES
        &&& self.capture@.len() == LUA_MAXCAPTURES
        &&& self.matchdepth <= MAXCCALLS
        &&& self.src@.len() + 8 <= usize::MAX
        &&& self.pat@.len() + 8 <= usize::MAX
    }

    /// Every capture opened so far starts at or before `s`, and every closed one ends there or before.
    pub open spec fn caps_before(&self, s: int) -> bool {
        forall|i: int|
            0 <= i < self.level ==> (#[trigger] self.capture@[i]).init <= s && (
            self.capture@[i].len matches CapLen::Len(l) ==> self.capture@[i].init + l <= s)
    }

    pub open spec fn st(&self) -> MState {
        (self.matchdepth as int, self.level as int, self.capture@)
    }

    /// The same subject and pattern, and the same live captures.
    pub open spec fn same_caps(&self, other: &Self) -> bool {
        &&& self.src == other.src
        &&& self.pat == other.pat
        &&& self.level == other.level
        &&& forall|i: int| 0 <= i < self.level ==> #[trigger] self.capture@[i] == other.capture@[i]
    }

    fn new(src: &'a [u8], pat: &'a [u8]) -> (r: MatchState<'a>)
        requires
            src@.len() + 8 <= usize::MAX,
            pat@.len() + 8 <= usize::MAX,
        ensures
            r.wf(),
            r.src == src,
            r.pat == pat,
            r.level == 0,
            r.matchdepth == MAXCCALLS,
            r.capture@ == init_caps(),
    {
        let mut capture: Vec<Capture> = Vec::new();
        let mut i: usize = 0;
        while i < LUA_MAXCAPTURES
            invariant
                i <= LUA_MAXCAPTURES,
                capture@.len() == i,
                forall|j: int| 0 <= j < i ==> #[trigger] capture@[j] == (Capture { init: 0, len: CapLen::Len(0) }),
            decreases LUA_MAXCAPTURES - i,
        {
            capture.push(Capture { init: 0, len: CapLen::Len(0) });
            i = i + 1;
        }
        MatchState { matchdepth: MAXCCALLS, src, pat, level: 0, capture }
    }

    fn check_capture(&self, l: usize) -> (r: Result<usize, PatternError>)
        requires
            self.wf(),
            48 <= l <= 57,
        ensures
            r matches Ok(k) ==> k + 49 == l && k < self.level && !(self.capture@[k as int].len is Unfinished),
            r is Err <==> (l < 49 || l - 49 >= self.level || self.capture@[l - 49].len is Unfinished),
            r matches Err(e) ==> e.0@ == "invalid capture index %"@ + digit_text((l - 48) as nat),
    {
        if l < 49 {
            return match invalid_capture_index(0) {
                Err(e) => Err(e),
                Ok(_) => Ok(0),
            };
        }
        let k = l - 49;
        if k >= self.level || self.capture[k].is_unfinished() {
            return match invalid_capture_index((k + 1) as u8) {
                Err(e) => Err(e),
                Ok(_) => Ok(0),
            };
        }
        Ok(k)
    }

    fn capture_to_close(&self) -> (r: Result<usize, PatternError>)
        requires
            self.wf(),
        ensures
            match r { Ok(l) => spec_capture_to_close(self.capture@, self.level as int) == Some(l as int), Err(_) => spec_capture_to_close(self.capture@, self.level as int) is None },
            r matches Ok(l) ==> l < self.level && self.capture@[l as int].len is Unfinished
                && forall|j: int| l < j < self.level ==> !(self.capture@[j].len is Unfinished),
            r is Err ==> forall|j: int|
                0 <= j < self.level ==> !(#[trigger] self.capture@[j].len is Unfinished),
            r matches Err(e) ==> e.0@ == "invalid pattern capture"@,
    {
        let mut level = self.level;
        while level > 0
            invariant
                self.wf(),
                level <= self.level,
                forall|j: int| level <= j < self.level ==> !(#[trigger] self.capture@[j].len is Unfinished),
                spec_capture_to_close(self.capture@, self.level as int) == spec_capture_to_close(self.capture@, level as int),
            decreases level,
        {
            if self.capture[level - 1].is_unfinished() {
                return Ok(level - 1);
            }
            level = level - 1;
        }
        error("invalid pattern capture")
    }

    fn classend(&self, p: usize) -> (r: Result<usize, PatternError>)
        requires
            self.wf(),
            p < self.pat@.len(),
        ensures
            match r {
                Ok(e) => spec_classend(self.pat@, p as int) == Some(e as int) && p < e <= self.pat@.len(),
                Err(e) => spec_classend(self.pat@, p as int) is None && e.0@ == classend_error(self.pat@, p as int),
            },
    {
        let pat = self.pat;
        let p_end = pat.len();
        let ch = at(pat, p);
        let mut next_p = p + 1;
        if ch == L_ESC {
            if next_p == p_end {
                return error("malformed pattern (ends with '%')");
            }
            Ok(next_p + 1)
        } else if ch == 91 {
            if at(pat, next_p) == 94 {
                next_p = next_p + 1;
            }
            proof {
                lemma_bracket_end_bounds(pat@, next_p as int);
            }
            loop
                invariant
                    pat == self.pat,
                    p < p_end == pat@.len(),
                    pat@.len() + 8 <= usize::MAX,
                    p < next_p <= p_end,
                    byte_at(pat@, p as int) == 91,
                    spec_classend(pat@, p as int) == bracket_end(pat@, next_p as int),
                    bracket_end(pat@, next_p as int) matches Some(e) ==> next_p + 1 < e <= pat@.len(),
                decreases p_end - next_p,
            {
                if next_p >= p_end {
                    assert(byte_at(pat@, p as int) == 91);
                    return error("malformed pattern (missing ']')");
                }
                let ghost prev = next_p as int;
                let c = at(pat, next_p);
                next_p = next_p + 1;
                if c == L_ESC && next_p < p_end {
                    next_p = next_p + 1;
                }
                assert(bracket_end(pat@, prev) == if byte_at(pat@, next_p as int) == 93 {
                    Some(next_p + 1)
                } else {
                    bracket_end(pat@, next_p as int)
                });
                if at(pat, next_p) == 93 {
                    return Ok(next_p + 1);
                }
                proof {
                    lemma_bracket_end_bounds(pat@, next_p as int);
                }
            }
        } else {
            Ok(next_p)
        }
    }

    fn singlematch(&self, s: usize, p: usize, ep: usize) -> (r: bool)
        requires
            self.wf(),
            p < ep <= self.pat@.len(),
        ensures
            r == spec_singlematch(self.src@, self.pat@, s as int, p as int, ep as int),
            r ==> s < self.src@.len(),
    {
        if s >= self.src.len() {
            return false;
        }
        let c = self.src[s];
        let pc = at(self.pat, p);
        if pc == 46 {
            true
        } else if pc == L_ESC {
            match_class(c, at(self.pat, p + 1))
        } else if pc == 91 {
            matchbracketclass(c, self.pat, p, ep - 1)
        } else {
            c == pc
        }
    }

    fn matchbalance(&self, s: usize, p: usize) -> (r: Result<Option<usize>, PatternError>)
        requires
            self.wf(),
            s <= self.src@.len(),
            p <= self.pat@.len(),
        ensures
            r is Err <==> p + 1 >= self.pat@.len(),
            r matches Err(e) ==> e.0@ == "malformed pattern (missing arguments to '%b')"@,
            r matches Ok(res) ==> {
                &&& opt_int(res) == (if byte_at(self.src@, s as int) != byte_at(self.pat@, p as int) {
                    None
                } else {
                    balance_scan(
                        self.src@,
                        byte_at(self.pat@, p as int),
                        byte_at(self.pat@, p + 1),
                        s + 1,
                        1,
                    )
                })
                &&& (res matches Some(e) ==> s < e <= self.src@.len())
            },
    {
        let src = self.src;
        if p + 1 >= self.pat.len() {
            return error("malformed pattern (missing arguments to '%b')");
        }
        if at(src, s) != at(self.pat, p) {
            return Ok(None);
        }
        let b = at(self.pat, p);
        let e = at(self.pat, p + 1);
        let mut cont: usize = 1;
        let mut i = s + 1;
        let ghost s1 = i;
        proof {
            lemma_balance_scan_bounds(src@, b, e, i as int, cont as int);
        }
        while i < src.len()
            invariant
                src == self.src,
                s1 == s + 1,
                s <= self.src@.len(),
                byte_at(self.src@, s as int) == byte_at(self.pat@, p as int),
                b == byte_at(self.pat@, p as int),
                e == byte_at(self.pat@, p + 1),
                s1 <= i <= src@.len() + 1,
                1 <= cont <= i,
                p + 1 < self.pat@.len(),
                src@.len() + 8 <= usize::MAX,
                balance_scan(src@, b, e, s1 as int, 1) == balance_scan(
                    src@,
                    b,
                    e,
                    i as int,
                    cont as int,
                ),
                balance_scan(src@, b, e, i as int, cont as int) matches Some(r) ==> i < r
                    <= src@.len(),
            decreases src@.len() - i,
        {
            let ch = src[i];
            proof {
                assert(balance_scan(src@, b, e, i as int, cont as int) == if ch == e {
                    if cont - 1 == 0 {
                        Some(i + 1)
                    } else {
                        balance_scan(src@, b, e, i + 1, cont - 1)
                    }
                } else if ch == b {
                    balance_scan(src@, b, e, i + 1, cont + 1)
                } else {
                    balance_scan(src@, b, e, i + 1, cont as int)
                });
            }
            if ch == e {
                cont = cont - 1;
                if cont == 0 {
                    return Ok(Some(i + 1));
                }
            } else if ch == b {
                cont = cont + 1;
            }
            i = i + 1;
            proof {
                lemma_balance_scan_bounds(src@, b, e, i as int, cont as int);
            }
        }
        Ok(None)
    }

    /// Greedy repetition: the longest run of the class `p..ep` from `s` after which the rest
    /// of the pattern matches.
    fn max_expand(&mut self, s: usize, p: usize, ep: usize) -> (res: Result<Option<usize>, PatternError>)
        requires
            old(self).wf(),
            1 <= old(self).matchdepth,
            s <= old(self).src@.len(),
            p < ep < old(self).pat@.len(),
            old(self).caps_before(s as int),
        ensures
            (res_view(res), final(self).st()) == spec_max(old(self).src@, old(self).pat@, old(self).st(), s as int, p as int, ep as int),
            final(self).wf(),
            final(self).src == old(self).src,
            final(self).pat == old(self).pat,
            res is Ok ==> final(self).matchdepth == old(self).matchdepth,
            res matches Ok(Some(e)) ==> s <= e <= final(self).src@.len() && final(self).caps_before(e as int),
            res matches Ok(None) ==> final(self).same_caps(old(self)),
        decreases old(self).matchdepth, old(self).pat@.len() + 3, 0int,
    {
        let mut i: usize = 0;
        while self.singlematch(s + i, p, ep)
            invariant
                self.wf(),
                s + i <= self.src@.len(),
                p < ep < self.pat@.len(),
                run_len(self.src@, self.pat@, s as int, p as int, ep as int) == i + run_len(
                    self.src@,
                    self.pat@,
                    s + i,
                    p as int,
                    ep as int,
                ),
            decreases self.src@.len() - (s + i),
        {
            i = i + 1;
        }
        loop
            invariant
                self.wf(),
                self.same_caps(old(self)),
                self.matchdepth == old(self).matchdepth,
                1 <= self.matchdepth,
                spec_max(old(self).src@, old(self).pat@, old(self).st(), s as int, p as int, ep as int)
                    == spec_max_loop(self.src@, self.pat@, self.st(), s as int, i as int, ep as int),
                s + i <= self.src@.len(),
                p < ep < self.pat@.len(),
                old(self).caps_before(s as int),
            decreases i,
        {
            let res = self.patt_match(s + i, ep + 1)?;
            if res.is_some() {
                return Ok(res);
            }
            if i == 0 {
                return Ok(None);
            }
            i = i - 1;
        }
    }

    /// Lazy repetition: the shortest run of the class `p..ep` from `s` after which the rest
    /// of the pattern matches.
    fn min_expand(&mut self, s: usize, p: usize, ep: usize) -> (res: Result<Option<usize>, PatternError>)
        requires
            old(self).wf(),
            1 <= old(self).matchdepth,
            s <= old(self).src@.len(),
            p < ep < old(self).pat@.len(),
            old(self).caps_before(s as int),
        ensures
            (res_view(res), final(self).st()) == spec_min(old(self).src@, old(self).pat@, old(self).st(), s as int, p as int, ep as int),
            final(self).wf(),
            final(self).src == old(self).src,
            final(self).pat == old(self).pat,
            res is Ok ==> final(self).matchdepth == old(self).matchdepth,
            res matches Ok(Some(e)) ==> s <= e <= final(self).src@.len() && final(self).caps_before(e as int),
            res matches Ok(None) ==> final(self).same_caps(old(self)),
        decreases old(self).matchdepth, old(self).pat@.len() + 3, 0int,
    {
        let mut i = s;
        loop
            invariant
                self.wf(),
                self.same_caps(old(self)),
                self.matchdepth == old(self).matchdepth,
                1 <= self.matchdepth,
                s <= i <= self.src@.len(),
                spec_min(old(self).src@, old(self).pat@, old(self).st(), s as int, p as int, ep as int)
                    == spec_min_loop(self.src@, self.pat@, self.st(), i as int, p as int, ep as int),
                p < ep < self.pat@.len(),
                old(self).caps_before(s as int),
            decreases self.src@.len() - i,
        {
            let res = self.patt_match(i, ep + 1)?;
            if res.is_some() {
                return Ok(res);
            } else if self.singlematch(i, p, ep) {
                i = i + 1;
            } else {
                return Ok(None);
            }
        }
    }

    fn start_capture(&mut self, s: usize, p: usize, what: CapLen) -> (res: Result<Option<usize>, PatternError>)
        requires
            old(self).wf(),
            1 <= old(self).matchdepth,
            s <= old(self).src@.len(),
            p <= old(self).pat@.len(),
            old(self).caps_before(s as int),
            !(what is Len),
        ensures
            (res_view(res), final(self).st()) == spec_sc(old(self).src@, old(self).pat@, old(self).st(), s as int, p as int, what),
            final(self).wf(),
            final(self).src == old(self).src,
            final(self).pat == old(self).pat,
            res is Ok ==> final(self).matchdepth == old(self).matchdepth,
            res matches Ok(Some(e)) ==> s <= e <= final(self).src@.len() && final(self).caps_before(e as int),
            res matches Ok(None) ==> final(self).same_caps(old(self)),
        decreases old(self).matchdepth, old(self).pat@.len() + 2, 0int,
    {
        let level = self.level;
        if level >= LUA_MAXCAPTURES {
            return error("too many captures");
        }
        self.capture.set(level, Capture { init: s, len: what });
        self.level = level + 1;
        let res = self.patt_match(s, p)?;
        if res.is_none() {
            self.level = self.level - 1;
        }
        Ok(res)
    }

    fn end_capture(&mut self, s: usize, p: usize) -> (res: Result<Option<usize>, PatternError>)
        requires
            old(self).wf(),
            1 <= old(self).matchdepth,
            s <= old(self).src@.len(),
            p <= old(self).pat@.len(),
            old(self).caps_before(s as int),
        ensures
            (res_view(res), final(self).st()) == spec_ec(old(self).src@, old(self).pat@, old(self).st(), s as int, p as int),
            final(self).wf(),
            final(self).src == old(self).src,
            final(self).pat == old(self).pat,
            res is Ok ==> final(self).matchdepth == old(self).matchdepth,
            res matches Ok(Some(e)) ==> s <= e <= final(self).src@.len() && final(self).caps_before(e as int),
            res matches Ok(None) ==> final(self).same_caps(old(self)),
        decreases old(self).matchdepth, old(self).pat@.len() + 2, 0int,
    {
        let l = self.capture_to_close()?;
        let init = self.capture[l].init;
        self.capture.set(l, Capture { init, len: CapLen::Len(s - init) });
        let res = self.patt_match(s, p)?;
        if res.is_none() {
            self.capture.set(l, Capture { init, len: CapLen::Unfinished });
        }
        Ok(res)
    }

    /// A back reference `%l` admits the next bytes when they repeat the captured bytes.
    fn match_capture(&self, s: usize, l: usize) -> (res: Result<Option<usize>, PatternError>)
        requires
            self.wf(),
            s <= self.src@.len(),
            48 <= l <= 57,
            self.caps_before(s as int),
        ensures
            res_view(res) == spec_match_capture(self.src@, self.st(), s as int, l as u8),
            res matches Ok(Some(e)) ==> s <= e <= self.src@.len(),
    {
        let l = self.check_capture(l)?;
        let init = self.capture[l].init;
        match self.capture[l].len.size() {
            Ok(len) => {
                if self.src.len() - s >= len && same_bytes(self.src, init, s, len) {
                    return Ok(Some(s + len));
                }
                Ok(None)
            },
            // a position capture holds no bytes to repeat
            Err(_) => Ok(None),
        }
    }

    fn patt_match(&mut self, s: usize, p: usize) -> (res: Result<Option<usize>, PatternError>)
        requires
            old(self).wf(),
            1 <= old(self).matchdepth,
            s <= old(self).src@.len(),
            p <= old(self).pat@.len(),
            old(self).caps_before(s as int),
        ensures
            (res_view(res), final(self).st()) == spec_pm(old(self).src@, old(self).pat@, old(self).st(), s as int, p as int),
            final(self).wf(),
            final(self).src == old(self).src,
            final(self).pat == old(self).pat,
            res is Ok ==> final(self).matchdepth == old(self).matchdepth,
            res matches Ok(Some(e)) ==> s <= e <= final(self).src@.len() && final(self).caps_before(e as int),
            res matches Ok(None) ==> final(self).same_caps(old(self)),
        decreases old(self).matchdepth, old(self).pat@.len() + 1 - p, 1int,
    {
        let mut s = s;
        let ghost s0 = s;
        let p_end = self.pat.len();
        self.matchdepth = self.matchdepth - 1;
        if self.matchdepth == 0 {
            return error("pattern too complex");
        }
        if p == p_end {
            self.matchdepth = self.matchdepth + 1;
            return Ok(Some(s));
        }
        let pc = at(self.pat, p);
        let mut r: Option<usize> = Some(s);
        if pc == 40 {
            if at(self.pat, p + 1) == 41 {
                r = self.start_capture(s, p + 2, CapLen::Position)?;
            } else {
                r = self.start_capture(s, p + 1, CapLen::Unfinished)?;
            }
        } else if pc == 41 {
            r = self.end_capture(s, p + 1)?;
        } else if pc == 36 && p + 1 == p_end {
            r = if s == self.src.len() {
                Some(s)
            } else {
                None
            };
        } else if pc == L_ESC {
            let nc = at(self.pat, p + 1);
            if nc == 98 {
                r = self.matchbalance(s, p + 2)?;
                if let Some(e) = r {
                    self.matchdepth = self.matchdepth + 1;
                    return self.patt_match(e, p + 4);
                }
            } else if nc == 102 {
                let fp = p + 2;
                if at(self.pat, fp) != 91 {
                    return error("missing '[' after '%f' in pattern");
                }
                let ep = self.classend(fp)?;
                let previous = if s == 0 {
                    0u8
                } else {
                    at(self.src, s - 1)
                };
                if !matchbracketclass(previous, self.pat, fp, ep - 1) && matchbracketclass(
                    at(self.src, s),
                    self.pat,
                    fp,
                    ep - 1,
                ) {
                    self.matchdepth = self.matchdepth + 1;
                    return self.patt_match(s, ep);
                }
                r = None;
            } else if 48 <= nc && nc <= 57 {
                r = self.match_capture(s, nc as usize)?;
                if let Some(e) = r {
                    self.matchdepth = self.matchdepth + 1;
                    return self.patt_match(e, p + 2);
                }
            } else {
                return self.patt_default_match(s, p);
            }
        } else {
            return self.patt_default_match(s, p);
        }
        self.matchdepth = self.matchdepth + 1;
        Ok(r)
    }

    fn patt_default_match(&mut self, s: usize, p: usize) -> (res: Result<Option<usize>, PatternError>)
        requires
            old(self).wf(),
            1 <= old(self).matchdepth < MAXCCALLS,
            s <= old(self).src@.len(),
            p < old(self).pat@.len(),
            old(self).caps_before(s as int),
        ensures
            (res_view(res), final(self).st()) == spec_pdm(old(self).src@, old(self).pat@, old(self).st(), s as int, p as int),
            final(self).wf(),
            final(self).src == old(self).src,
            final(self).pat == old(self).pat,
            res is Ok ==> final(self).matchdepth == old(self).matchdepth + 1,
            res matches Ok(Some(e)) ==> s <= e <= final(self).src@.len() && final(self).caps_before(e as int),
            res matches Ok(None) ==> final(self).same_caps(old(self)),
        decreases old(self).matchdepth + 1, old(self).pat@.len() + 1 - p, 0int,
    {
        let ep = self.classend(p)?;
        let epc = at(self.pat, ep);
        let r: Option<usize>;
        if !self.singlematch(s, p, ep) {
            if epc == 42 || epc == 63 || epc == 45 {
                self.matchdepth = self.matchdepth + 1;
                return self.patt_match(s, ep + 1);
            }
            r = None;
        } else {
            if epc == 63 {
                let res = self.patt_match(s + 1, ep + 1)?;
                if res.is_some() {
                    r = res;
                } else {
                    self.matchdepth = self.matchdepth + 1;
                    return self.patt_match(s, ep + 1);
                }
            } else if epc == 43 {
                r = self.max_expand(s + 1, p, ep)?;
            } else if epc == 42 {
                r = self.max_expand(s, p, ep)?;
            } else if epc == 45 {
                r = self.min_expand(s, p, ep)?;
            } else {
                self.matchdepth = self.matchdepth + 1;
                return self.patt_match(s + 1, ep);
            }
        }
        self.matchdepth = self.matchdepth + 1;
        Ok(r)
    }

    /// The range of capture `i`, written to `mm[off + i]`; `s` and `e` bound the whole match
    /// when there are no captures.
    fn push_onecapture(
        &self,
        i: usize,
        s: Option<usize>,
        e: Option<usize>,
        mm: &mut [LuaMatch],
        off: usize,
    ) -> (res: Result<(), PatternError>)
        requires
            self.wf(),
            self.caps_before(self.src@.len() as int),
            off + i < old(mm)@.len(),
        ensures
            final(mm)@.len() == old(mm)@.len(),
            forall|j: int| 0 <= j < old(mm)@.len() && j != off + i ==> final(mm)@[j] == old(mm)@[j],
            res is Ok <==> (if i >= self.level {
                i == 0
            } else {
                !(self.capture@[i as int].len is Unfinished)
            }),
            res is Ok ==> final(mm)@[off + i] == spec_capture_range(self.st(), i as int, s, e),
            res matches Err(er) ==> er.0@ == (if i >= self.level {
                "invalid capture index"@
            } else {
                "unfinished capture"@
            }),
    {
        let idx = off + i;
        if i >= self.level {
            if i == 0 {
                let d = diff_opt(e, s);
                mm[off] = LuaMatch { start: 0, end: d };
                Ok(())
            } else {
                error("invalid capture index")
            }
        } else {
            let init = self.capture[i].init;
            match self.capture[i].len {
                CapLen::Unfinished => error("unfinished capture"),
                CapLen::Position => {
                    mm[idx] = LuaMatch { start: init, end: init };
                    Ok(())
                },
                CapLen::Len(l) => {
                    mm[idx] = LuaMatch { start: init, end: init + l };
                    Ok(())
                },
            }
        }
    }

    fn push_captures(
        &self,
        s: Option<usize>,
        e: Option<usize>,
        mm: &mut [LuaMatch],
        off: usize,
    ) -> (res: Result<usize, PatternError>)
        requires
            self.wf(),
            self.caps_before(self.src@.len() as int),
            off <= old(mm)@.len(),
        ensures
            final(mm)@.len() == old(mm)@.len(),
            match spec_push(self.st(), 0, spec_nlevels(self.st(), s), old(mm)@.len() - off) {
                Err(m) => res matches Err(er) && er.0@ == m,
                Ok(()) => {
                    let n = spec_nlevels(self.st(), s);
                    &&& res == Ok::<usize, PatternError>(n as usize)
                    &&& forall|j: int| 0 <= j < n ==> final(mm)@[off + j] == spec_capture_range(self.st(), j, s, e)
                    &&& forall|j: int| 0 <= j < old(mm)@.len() && !(off <= j < off + n) ==> final(mm)@[j] == old(mm)@[j]
                },
            },
    {
        let nlevels = if self.level == 0 && s.is_some() {
            1
        } else {
            self.level
        };
        let ghost room = mm@.len() - off;
        let mut i: usize = 0;
        while i < nlevels
            invariant
                self.wf(),
                self.caps_before(self.src@.len() as int),
                off <= mm@.len(),
                mm@.len() == old(mm)@.len(),
                room == mm@.len() - off,
                nlevels == spec_nlevels(self.st(), s),
                i <= nlevels,
                spec_push(self.st(), 0, nlevels as int, room) == spec_push(self.st(), i as int, nlevels as int, room),
                forall|j: int| 0 <= j < i ==> mm@[off + j] == spec_capture_range(self.st(), j, s, e),
                forall|j: int| 0 <= j < old(mm)@.len() && !(off <= j < off + i) ==> mm@[j] == old(mm)@[j],
            decreases nlevels - i,
        {
            if i >= mm.len() - off {
                return error("too many captures");
            }
            let r = self.push_onecapture(i, s, e, mm, off);
            if r.is_err() {
                return match r {
                    Err(err) => Err(err),
                    Ok(_) => Ok(0),
                };
            }
            i = i + 1;
        }
        Ok(nlevels)
    }

    fn str_match_check(&mut self, p_start: usize) -> (res: Result<(), PatternError>)
        requires
            old(self).wf(),
            old(self).level == 0,
            p_start <= old(self).pat@.len(),
        ensures
            final(self).wf(),
            final(self).pat == old(self).pat,
            match spec_check(old(self).pat@, p_start as int, 0, Seq::empty(), old(self).capture@) {
                Ok(()) => res is Ok,
                Err(m) => res matches Err(e) && e.0@ == m,
            },
    {
        let pat = self.pat;
        let p_end = pat.len();
        let mut level_stack: Vec<usize> = Vec::new();
        let mut k: usize = 0;
        while k < LUA_MAXCAPTURES
            invariant
                k <= LUA_MAXCAPTURES,
                level_stack@.len() == k,
            decreases LUA_MAXCAPTURES - k,
        {
            level_stack.push(0);
            k = k + 1;
        }
        let mut stack_idx: usize = 0;
        let ghost p0 = p_start;
        let ghost target = spec_check(pat@, p_start as int, 0, Seq::empty(), old(self).capture@);
        let mut p = p_start;
        assert(level_stack@.take(0) =~= Seq::<usize>::empty());
        while p < p_end
            invariant
                self.wf(),
                self.pat == pat,
                pat == old(self).pat,
                p_end == pat@.len(),
                p <= p_end,
                stack_idx <= self.level,
                level_stack@.len() == LUA_MAXCAPTURES,
                forall|j: int| 0 <= j < stack_idx ==> #[trigger] level_stack@[j] < self.level,
                target == spec_check(pat@, p_start as int, 0, Seq::empty(), old(self).capture@),
                target == spec_check(
                    pat@,
                    p as int,
                    self.level as int,
                    level_stack@.take(stack_idx as int),
                    self.capture@,
                ),
            decreases p_end - p,
        {
            let ghost q = p as int;
            let ghost lvl = self.level as int;
            let ghost stk = level_stack@.take(stack_idx as int);
            let ghost cps = self.capture@;
            let ch = pat[p];
            p = p + 1;
            if ch == L_ESC {
                if p >= p_end {
                    return error("malformed pattern (ends with '%')");
                }
                let c = pat[p];
                if c == 98 {
                    if p + 2 >= p_end {
                        return error("malformed pattern (missing arguments to '%b')");
                    }
                    p = p + 3;
                } else if c == 102 {
                    if at(pat, p + 1) != 91 {
                        return error("missing '['  after '%f' in pattern");
                    }
                    p = p + 1;
                } else if 48 <= c && c <= 57 {
                    if c < 49 {
                        return invalid_capture_index(c - 48);
                    }
                    let l = (c - 49) as usize;
                    if l >= self.level || self.capture[l].is_unfinished() {
                        return invalid_capture_index(c - 48);
                    }
                    p = p + 1;
                } else {
                    p = p + 1;
                }
                assert(target == spec_check(pat@, p as int, lvl, stk, cps));
            } else if ch == 91 {
                if at(pat, p) == 94 {
                    p = p + 1;
                }
                let ghost qb = p as int;
                proof {
                    lemma_bracket_end_bounds(pat@, qb);
                }
                assert(target == match bracket_end(pat@, qb) {
                    None => Err("malformed pattern (missing ']')"@),
                    Some(e) => if q < e <= pat@.len() {
                        spec_check(pat@, e, lvl, stk, cps)
                    } else {
                        Err("malformed pattern (missing ']')"@)
                    },
                });
                loop
                    invariant_except_break
                        bracket_end(pat@, qb) == bracket_end(pat@, p as int),
                        bracket_end(pat@, p as int) matches Some(e) ==> p + 1 < e <= pat@.len(),
                    invariant
                        self.wf(),
                        self.pat == pat,
                        pat == old(self).pat,
                        p_end == pat@.len(),
                        q < p <= p_end,
                        qb <= p,
                        target == spec_check(pat@, p_start as int, 0, Seq::empty(), old(self).capture@),
                        target == match bracket_end(pat@, qb) {
                            None => Err("malformed pattern (missing ']')"@),
                            Some(e) => if q < e <= pat@.len() {
                                spec_check(pat@, e, lvl, stk, cps)
                            } else {
                                Err("malformed pattern (missing ']')"@)
                            },
                        },
                    ensures
                        bracket_end(pat@, qb) == Some(p + 1),
                        p < p_end,
                    decreases p_end - p,
                {
                    if p >= p_end {
                        return error("malformed pattern (missing ']')");
                    }
                    let ghost prev = p as int;
                    let c = pat[p];
                    p = p + 1;
                    if c == L_ESC && p < p_end {
                        p = p + 1;
                    }
                    assert(bracket_end(pat@, prev) == if byte_at(pat@, p as int) == 93 {
                        Some(p + 1)
                    } else {
                        bracket_end(pat@, p as int)
                    });
                    if at(pat, p) == 93 {
                        break;
                    }
                    proof {
                        lemma_bracket_end_bounds(pat@, p as int);
                    }
                }
                p = p + 1;
                assert(target == spec_check(pat@, p as int, lvl, stk, cps));
            } else if ch == 40 {
                let lv = self.level;
                if lv >= LUA_MAXCAPTURES {
                    return error("too many captures");
                }
                let init = self.capture[lv].init;
                if at(pat, p) == 41 {
                    self.capture.set(lv, Capture { init, len: CapLen::Position });
                    self.level = lv + 1;
                    p = p + 1;
                    assert(target == spec_check(pat@, p as int, lvl + 1, stk, self.capture@));
                } else {
                    level_stack.set(stack_idx, lv);
                    stack_idx = stack_idx + 1;
                    self.capture.set(lv, Capture { init, len: CapLen::Unfinished });
                    self.level = lv + 1;
                    assert(level_stack@.take(stack_idx as int) =~= stk.push(lv));
                    assert(target == spec_check(pat@, p as int, lvl + 1, stk.push(lv), self.capture@));
                }
            } else if ch == 41 {
                if stack_idx == 0 {
                    return error("no open capture");
                }
                stack_idx = stack_idx - 1;
                let li = level_stack[stack_idx];
                let init = self.capture[li].init;
                self.capture.set(li, Capture { init, len: CapLen::Position });
                assert(level_stack@.take(stack_idx as int) =~= stk.drop_last());
                assert(target == spec_check(pat@, p as int, lvl, stk.drop_last(), self.capture@));
            } else {
                assert(target == spec_check(pat@, p as int, lvl, stk, cps));
            }
        }
        if stack_idx > 0 {
            return error("unfinished capture");
        }
        Ok(())
    }
}


/// Whether a pattern is anchored at the start of the subject by a leading `^`.
pub open spec fn is_anchored(p: Seq<u8>) -> bool {
    p.len() > 0 && p[0] == 94
}

/// Finds the first match of the pattern `p` in `s`, trying each start position in turn, the
/// end of `s` included (only the first when the pattern is anchored). On a match, writes the whole match to
/// `mm[0]` and the captures to `mm[1..]`, and returns how many ranges it wrote; returns 0
/// when nothing matches. An error of the pattern, a match nested too deep, or a capture with
/// no slot left in `mm` ("too many captures") is reported with its message.
pub fn str_match(s: &[u8], p: &[u8], mm: &mut [LuaMatch]) -> (res: Result<usize, PatternError>)
    requires
        s@.len() + 8 <= usize::MAX,
        p@.len() + 8 <= usize::MAX,
        old(mm)@.len() >= 1,
    ensures
        final(mm)@.len() == old(mm)@.len(),
        match spec_str_match(s@, p@, old(mm)@.len() - 1) {
            Err(m) => res matches Err(e) && e.0@ == m,
            Ok(ranges) => {
                &&& res == Ok::<usize, PatternError>(ranges.len() as usize)
                &&& forall|j: int| 0 <= j < ranges.len() ==> final(mm)@[j] == ranges[j]
                &&& forall|j: int| ranges.len() <= j < old(mm)@.len() ==> final(mm)@[j] == old(mm)@[j]
                &&& ranges.len() <= LUA_MAXCAPTURES + 1
                &&& ranges.len() <= old(mm)@.len()
                &&& ranges.len() > 0 ==> {
                    &&& ranges[0].start <= ranges[0].end <= s@.len()
                    &&& (is_anchored(p@) ==> ranges[0].start == 0)
                    &&& forall|j: int|
                        1 <= j < ranges.len() ==> (#[trigger] ranges[j]).start <= ranges[j].end
                            <= s@.len() || ranges[j].start == ranges[j].end
                }
            },
        },
{
    let anchor = p.len() > 0 && p[0] == 94;
    let pstart: usize = if anchor {
        1
    } else {
        0
    };
    let mut ms = MatchState::new(s, p);
    let mut s1: usize = 0;
    let ghost st0 = ms.st();
    loop
        invariant
            ms.wf(),
            ms.src == s,
            ms.pat == p,
            ms.level == 0,
            1 <= ms.matchdepth,
            pstart <= p@.len(),
            anchor == is_anchored(p@),
            pstart == (if anchor { 1usize } else { 0usize }),
            st0 == (MAXCCALLS as int, 0int, init_caps()),
            s1 <= s@.len(),
            anchor ==> s1 == 0,
            spec_search(s@, p@, st0, 0, pstart as int, anchor) == spec_search(
                s@,
                p@,
                ms.st(),
                s1 as int,
                pstart as int,
                anchor,
            ),
            mm@ == old(mm)@,
            mm@.len() >= 1,
            s@.len() + 8 <= usize::MAX,
            p@.len() + 8 <= usize::MAX,
        decreases s@.len() - s1,
    {
        let res = ms.patt_match(s1, pstart)?;
        if let Some(e) = res {
            mm[0] = LuaMatch { start: s1, end: e };
            let n = ms.push_captures(None, None, mm, 1)?;
            proof {
                if n > 0 {
                    lemma_push_room(ms.st(), 0, n as int, mm@.len() - 1);
                }
                assert forall|j: int| 1 <= j < n + 1 implies (#[trigger] mm@[j]).start <= mm@[j].end
                    <= s@.len() || mm@[j].start == mm@[j].end by {
                    assert(mm@[1 + (j - 1)] == spec_capture_range(ms.st(), j - 1, None, None));
                    assert(ms.caps_before(e as int));
                }
            }
            return Ok(n + 1);
        }
        if !(s1 < s.len() && !anchor) {
            return Ok(0);
        }
        s1 = s1 + 1;
    }
}

/// Checks a pattern for errors without matching it: a pattern it accepts never makes the
/// matcher report an error of the pattern.
pub fn str_check(p: &[u8]) -> (res: Result<(), PatternError>)
    requires
        p@.len() + 8 <= usize::MAX,
    ensures
        match spec_str_check(p@) {
            Ok(()) => res is Ok,
            Err(m) => res matches Err(e) && e.0@ == m,
        },
{
    let anchor = p.len() > 0 && p[0] == 94;
    let pstart: usize = if anchor {
        1
    } else {
        0
    };
    let empty: &[u8] = &[];
    let mut ms = MatchState::new(empty, p);
    ms.str_match_check(pstart)?;
    Ok(())
}

} // verus!
