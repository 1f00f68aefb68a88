//! Small operations on text: byte-range slices, decimal numbers, quoting.
use crate::patterns::bytes_of;
use vstd::prelude::*;
use vstd::string::StrSliceExecFns;

verus! {

/// Whether the bytes `a..b` of `bytes` make a slice of whole characters: the range lies in
/// the bytes and both ends are character boundaries.
pub open spec fn is_slice(bytes: Seq<u8>, a: int, b: int) -> bool {
    &&& 0 <= a <= b <= bytes.len()
    &&& vstd::utf8::is_char_boundary(bytes, a)
    &&& vstd::utf8::is_char_boundary(bytes, b)
}

/// The characters of the bytes `a..b` of `bytes`, or nothing when the range is no slice of
/// whole characters.
pub open spec fn slice_chars(bytes: Seq<u8>, a: int, b: int) -> Seq<char> {
    if is_slice(bytes, a, b) {
        vstd::utf8::decode_utf8(bytes.subrange(a, b))
    } else {
        Seq::empty()
    }
}

/// The encoding of two texts one after the other is the two encodings one after the other.
pub proof fn lemma_encode_utf8_concat(a: Seq<char>, b: Seq<char>)
    ensures
        vstd::utf8::encode_utf8(a + b) == vstd::utf8::encode_utf8(a) + vstd::utf8::encode_utf8(b),
    decreases a.len(),
{
    if a.len() == 0 {
        assert(a + b =~= b);
    } else {
        lemma_encode_utf8_concat(a.drop_first(), b);
        assert((a + b).drop_first() =~= a.drop_first() + b);
        assert((a + b)[0] == a[0]);
    }
}

/// A boundary of the bytes after a boundary `a` is a boundary of the whole, shifted by `a`.
proof fn lemma_boundary_after(bytes: Seq<u8>, a: int, i: int)
    requires
        vstd::utf8::valid_utf8(bytes),
        vstd::utf8::is_char_boundary(bytes, a),
        0 <= a <= bytes.len(),
        0 <= i <= bytes.len() - a,
    ensures
        vstd::utf8::is_char_boundary(bytes.subrange(a, bytes.len() as int), i)
            <==> vstd::utf8::is_char_boundary(bytes, a + i),
{
    let rest = bytes.subrange(a, bytes.len() as int);
    vstd::utf8::valid_utf8_split(bytes, a);
    if i == 0 {
    } else if a + i == bytes.len() {
        vstd::utf8::is_char_boundary_start_end_of_seq(bytes);
        vstd::utf8::is_char_boundary_start_end_of_seq(rest);
    } else {
        vstd::utf8::is_char_boundary_iff_not_is_continuation_byte(bytes, a + i);
        vstd::utf8::is_char_boundary_iff_not_is_continuation_byte(rest, i);
        assert(rest[i] == bytes[a + i]);
    }
}

/// The part of `s` between the bytes `a` and `b`, when that range is a slice of whole
/// characters.
pub fn slice_text(s: &str, a: usize, b: usize) -> (r: Option<&str>)
    ensures
        r is Some <==> is_slice(bytes_of(s), a as int, b as int),
        r matches Some(t) ==> bytes_of(t) == bytes_of(s).subrange(a as int, b as int),
        r matches Some(t) ==> t@ == slice_chars(bytes_of(s), a as int, b as int),
{
    let len = s.as_bytes().len();
    proof {
        vstd::utf8::encode_utf8_valid_utf8(s@);
    }
    if a > b || b > len {
        return None;
    }
    if !s.is_char_boundary(a) {
        return None;
    }
    let (_, rest) = s.split_at(a);
    proof {
        lemma_boundary_after(bytes_of(s), a as int, (b - a) as int);
    }
    if !rest.is_char_boundary(b - a) {
        return None;
    }
    let (mid, _) = rest.split_at(b - a);
    proof {
        assert(bytes_of(mid) =~= bytes_of(s).subrange(a as int, b as int));
        vstd::utf8::encode_utf8_decode_utf8(mid@);
    }
    Some(mid)
}

/// The characters of the bytes `a..b` of `s` as a new string; empty when that range is no
/// slice of whole characters.
pub fn slice_string(s: &str, a: usize, b: usize) -> (r: String)
    ensures
        r@ == slice_chars(bytes_of(s), a as int, b as int),
{
    match slice_text(s, a, b) {
        Some(t) => t.to_string(),
        None => String::new(),
    }
}

/// The decimal digits of `n`.
pub open spec fn decimal(n: nat) -> Seq<char>
    decreases n,
{
    if n < 10 {
        digit_text(n)
    } else {
        decimal(n / 10) + digit_text(n % 10)
    }
}

/// The digit `d` as text.
pub open spec fn digit_text(d: nat) -> Seq<char> {
    if d == 0 {
        "0"@
    } else if d == 1 {
        "1"@
    } else if d == 2 {
        "2"@
    } else if d == 3 {
        "3"@
    } else if d == 4 {
        "4"@
    } else if d == 5 {
        "5"@
    } else if d == 6 {
        "6"@
    } else if d == 7 {
        "7"@
    } else if d == 8 {
        "8"@
    } else {
        "9"@
    }
}

fn digit_str(d: u128) -> (r: &'static str)
    requires
        d < 10,
    ensures
        r@ == digit_text(d as nat),
{
    if d == 0 {
        "0"
    } else if d == 1 {
        "1"
    } else if d == 2 {
        "2"
    } else if d == 3 {
        "3"
    } else if d == 4 {
        "4"
    } else if d == 5 {
        "5"
    } else if d == 6 {
        "6"
    } else if d == 7 {
        "7"
    } else if d == 8 {
        "8"
    } else {
        "9"
    }
}

/// Appends the decimal digits of `n`.
pub fn push_decimal(out: &mut String, n: u128)
    ensures
        final(out)@ == old(out)@ + decimal(n as nat),
    decreases n,
{
    if n < 10 {
        let d = digit_str(n);
        out.append(d);
    } else {
        push_decimal(out, n / 10);
        let d = digit_str(n % 10);
        out.append(d);
        assert(out@ =~= old(out)@ + decimal(n as nat));
    }
}

/// The text of a string as Rust's `{:?}` formatting writes it: in double quotes, with
/// quotes, backslashes and control characters escaped.
pub uninterp spec fn debug_quoted(s: Seq<char>) -> Seq<char>;

/// Calls the standard library's `Debug` formatting of a `str` (`format!("{:?}", ..)`).
/// Trusted: the result is the quoted form that `debug_quoted` names.
#[verifier::external_body]
pub fn quote_debug(s: &str) -> (r: String)
    ensures
        r@ == debug_quoted(s@),
{
    format!("{:?}", s)
}

/// `String::push`: appends the character `c`.
#[verifier::external_body]
pub fn push_char(out: &mut String, c: char)
    ensures
        final(out)@ == old(out)@.push(c),
{
    out.push(c);
}

/// One character as HTML text: `&`, `<` and `>` as entities, and with `quotes` also `"`.
pub open spec fn escape_char(c: char, quotes: bool) -> Seq<char> {
    if c == '&' {
        "&amp;"@
    } else if c == '<' {
        "&lt;"@
    } else if c == '>' {
        "&gt;"@
    } else if quotes && c == '"' {
        "&quot;"@
    } else {
        seq![c]
    }
}

/// A text as HTML: each character escaped in turn.
pub open spec fn escape_html(t: Seq<char>, quotes: bool) -> Seq<char>
    decreases t.len(),
{
    if t.len() == 0 {
        Seq::empty()
    } else {
        escape_html(t.drop_last(), quotes) + escape_char(t.last(), quotes)
    }
}

/// Appends `s` escaped as HTML text (with `quotes`, as the value of an attribute).
pub fn push_escaped(out: &mut String, s: &str, quotes: bool)
    ensures
        final(out)@ == old(out)@ + escape_html(s@, quotes),
{
    let n = s.unicode_len();
    let mut i: usize = 0;
    while i < n
        invariant
            n == s@.len(),
            i <= n,
            out@ == old(out)@ + escape_html(s@.subrange(0, i as int), quotes),
        decreases n - i,
    {
        let c = s.get_char(i);
        let ghost before = out@;
        if c == '&' {
            out.append("&amp;");
        } else if c == '<' {
            out.append("&lt;");
        } else if c == '>' {
            out.append("&gt;");
        } else if quotes && c == '"' {
            out.append("&quot;");
        } else {
            push_char(out, c);
        }
        proof {
            let t = s@.subrange(0, i + 1);
            assert(t.drop_last() =~= s@.subrange(0, i as int));
            assert(t.last() == c);
            assert(out@ =~= before + escape_char(c, quotes));
        }
        i = i + 1;
    }
    proof {
        assert(s@.subrange(0, n as int) =~= s@);
    }
}

/// The characters `a..b` of `s` as a new string.
pub fn chars_range(s: &str, a: usize, b: usize) -> (r: String)
    requires
        a <= b <= s@.len(),
    ensures
        r@ == s@.subrange(a as int, b as int),
{
    let mut out = String::new();
    let mut i = a;
    while i < b
        invariant
            a <= i <= b <= s@.len(),
            out@ == s@.subrange(a as int, i as int),
        decreases b - i,
    {
        let c = s.get_char(i);
        push_char(&mut out, c);
        assert(out@ =~= s@.subrange(a as int, i + 1));
        i = i + 1;
    }
    out
}

/// `t` with each line feed replaced by `with`.
pub open spec fn replace_newlines_spec(t: Seq<char>, with: Seq<char>) -> Seq<char>
    decreases t.len(),
{
    if t.len() == 0 {
        Seq::empty()
    } else {
        replace_newlines_spec(t.drop_last(), with) + if t.last() == '\n' {
            with
        } else {
            seq![t.last()]
        }
    }
}

/// `s` with each line feed replaced by `with`.
pub fn replace_newlines(s: &str, with: &str) -> (r: String)
    ensures
        r@ == replace_newlines_spec(s@, with@),
{
    let n = s.unicode_len();
    let mut out = String::new();
    let mut i: usize = 0;
    while i < n
        invariant
            n == s@.len(),
            i <= n,
            out@ == replace_newlines_spec(s@.subrange(0, i as int), with@),
        decreases n - i,
    {
        let c = s.get_char(i);
        if c == '\n' {
            out.append(with);
        } else {
            push_char(&mut out, c);
        }
        proof {
            let t = s@.subrange(0, i + 1);
            assert(t.drop_last() =~= s@.subrange(0, i as int));
            assert(t.last() == c);
        }
        i = i + 1;
    }
    proof {
        assert(s@.subrange(0, n as int) =~= s@);
    }
    out
}

} // verus!
