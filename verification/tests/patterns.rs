use djot::luapat::{str_check, str_match, LuaMatch};
use djot::patterns::{capture_at, find, find_at};

fn slots() -> Vec<LuaMatch> {
    vec![LuaMatch { start: 0, end: 0 }; 33]
}

#[test]
fn plain_word_is_found() {
    let mut mm = slots();
    assert_eq!(str_match(b"hello one two", b"one", &mut mm).unwrap(), 1);
    assert_eq!((mm[0].start, mm[0].end), (6, 9));
}

#[test]
fn capture_of_a_word() {
    let mut mm = slots();
    assert_eq!(str_match(b" hello one two", b"(%a+) one", &mut mm).unwrap(), 2);
    assert_eq!((mm[0].start, mm[0].end), (1, 10));
    assert_eq!((mm[1].start, mm[1].end), (1, 6));
}

#[test]
fn digits_after_spaces() {
    let mut mm = slots();
    assert_eq!(str_match(b"and that's OK 400 to you", b"OK%s+(%d+)", &mut mm).unwrap(), 2);
    assert_eq!((mm[1].start, mm[1].end), (14, 17));
}

#[test]
fn anchored_pattern_only_tries_the_start() {
    let mut mm = slots();
    assert_eq!(str_match(b"ba", b"^a", &mut mm).unwrap(), 0);
    assert_eq!(str_match(b"ab", b"^a", &mut mm).unwrap(), 1);
    assert_eq!((mm[0].start, mm[0].end), (0, 1));
}

#[test]
fn balanced_parentheses() {
    let mut mm = slots();
    assert_eq!(str_match(b"x(a(b)c)y", b"%b()", &mut mm).unwrap(), 1);
    assert_eq!((mm[0].start, mm[0].end), (1, 8));
}

#[test]
fn frontier_pattern() {
    let mut mm = slots();
    assert_eq!(str_match(b"  hello", b"%f[%w]%w+", &mut mm).unwrap(), 1);
    assert_eq!((mm[0].start, mm[0].end), (2, 7));
}

#[test]
fn lazy_and_greedy_repetition() {
    let mut mm = slots();
    assert_eq!(str_match(b"<a><b>", b"<.->", &mut mm).unwrap(), 1);
    assert_eq!((mm[0].start, mm[0].end), (0, 3));
    assert_eq!(str_match(b"<a><b>", b"<.*>", &mut mm).unwrap(), 1);
    assert_eq!((mm[0].start, mm[0].end), (0, 6));
}

#[test]
fn bracket_class_with_range() {
    let mut mm = slots();
    assert_eq!(str_match(b"xyz123", b"[0-9]+", &mut mm).unwrap(), 1);
    assert_eq!((mm[0].start, mm[0].end), (3, 6));
}

#[test]
fn position_capture_is_reported_as_an_empty_range() {
    let mut mm = slots();
    assert_eq!(str_match(b"hello", b"l()", &mut mm).unwrap(), 2);
    assert_eq!((mm[1].start, mm[1].end), (3, 3));
}

#[test]
fn check_accepts_good_patterns() {
    assert!(str_check(b"(%a+)%s*=%s*(%S+)").is_ok());
    assert!(str_check(b"[%]%[\\`{}]").is_ok());
}

#[test]
fn check_refuses_trailing_escape() {
    let e = str_check(b"abc%").unwrap_err();
    assert_eq!(e.message(), "malformed pattern (ends with '%')");
}

#[test]
fn check_refuses_unclosed_set() {
    let e = str_check(b"[abc").unwrap_err();
    assert_eq!(e.message(), "malformed pattern (missing ']')");
}

#[test]
fn check_refuses_unfinished_capture() {
    let e = str_check(b"(abc").unwrap_err();
    assert_eq!(e.message(), "unfinished capture");
}

#[test]
fn check_refuses_closing_without_opening() {
    let e = str_check(b"abc)").unwrap_err();
    assert_eq!(e.message(), "no open capture");
}

#[test]
fn check_refuses_balance_without_arguments() {
    let e = str_check(b"a%b").unwrap_err();
    assert_eq!(e.message(), "malformed pattern (missing arguments to '%b')");
}

#[test]
fn check_refuses_frontier_without_set() {
    let e = str_check(b"%fa").unwrap_err();
    assert_eq!(e.message(), "missing '['  after '%f' in pattern");
}

#[test]
fn check_refuses_back_reference_to_missing_capture() {
    let e = str_check(b"(a)%2").unwrap_err();
    assert_eq!(e.message(), "invalid capture index %2");
    let z = str_check(b"a%0").unwrap_err();
    assert_eq!(z.message(), "invalid capture index %0");
}

#[test]
fn match_reports_back_reference_to_missing_capture() {
    let mut mm = slots();
    let e = str_match(b"aa", b"(a)%2", &mut mm).unwrap_err();
    assert_eq!(e.message(), "invalid capture index %2");
}

#[test]
fn match_reports_unclosed_set() {
    let mut mm = slots();
    let e = str_match(b"abc", b"[a", &mut mm).unwrap_err();
    assert_eq!(e.message(), "malformed pattern (missing ']')");
}

#[test]
fn find_reports_the_range() {
    let m = find("abc  def", "%s+");
    assert!(m.is_match);
    assert_eq!((m.start, m.end), (3, 5));
}

#[test]
fn find_at_starts_later() {
    let m = find_at("a-b-c", "-", 2);
    assert!(m.is_match);
    assert_eq!((m.start, m.end), (3, 4));
    let none = find_at("a-b-c", "x", 2);
    assert!(!none.is_match);
    assert_eq!((none.start, none.end), (2, 2));
}

#[test]
fn capture_at_counts_captures_from_the_start() {
    let m = capture_at("xx[key]: value", "^[[]([^\r\n]*)%]:[ \t]*(%S*)", 2);
    assert!(m.is_match);
    assert_eq!((m.start, m.end), (2, 14));
    assert_eq!(m.cap1, 1..4);
    assert_eq!(m.cap2, 7..12);
}

#[test]
fn refused_pattern_finds_nothing() {
    let m = find("abc", "[a");
    assert!(!m.is_match);
}

#[test]
fn pattern_match_or_falls_back() {
    let m = find("abc", "z");
    assert_eq!(m.or(7), 7);
    assert_eq!(m.end_or(9), 9);
    let m = find("abc", "b");
    assert_eq!(m.or(7), 1);
    assert_eq!(m.end_or(9), 2);
}

#[test]
fn end_anchor_matches_the_empty_suffix() {
    let mut mm = slots();
    assert_eq!(str_match(b"abc", b"$", &mut mm).unwrap(), 1);
    assert_eq!((mm[0].start, mm[0].end), (3, 3));
}

#[test]
fn failed_starts_cost_no_depth() {
    let mut mm = slots();
    let s = [b'a'; 200];
    assert!(str_check(b"ab").is_ok());
    assert_eq!(str_match(&s, b"ab", &mut mm).unwrap(), 0);
}

#[test]
fn back_reference_compares_bytes() {
    let mut mm = slots();
    assert_eq!(str_match(b"ab", b"(a)%1", &mut mm).unwrap(), 0);
    assert_eq!(str_match(b"xaab", b"(a)%1", &mut mm).unwrap(), 2);
    assert_eq!((mm[0].start, mm[0].end), (1, 3));
    assert_eq!((mm[1].start, mm[1].end), (1, 2));
}

#[test]
fn check_follows_the_matcher() {
    assert_eq!(str_check(b"%bx").unwrap_err().message(), "malformed pattern (missing arguments to '%b')");
    let mut mm = slots();
    assert_eq!(
        str_match(b"x", b"%bx", &mut mm).unwrap_err().message(),
        "malformed pattern (missing arguments to '%b')"
    );
    let many = "()".repeat(33).into_bytes();
    assert_eq!(str_check(&many).unwrap_err().message(), "too many captures");
    assert!(str_check(&"()".repeat(32).into_bytes()).is_ok());
    assert!(str_check(b"%b)(").is_ok());
    assert!(str_check(b"a%%").is_ok());
    assert!(str_check(b"%(").is_ok());
    assert!(str_check(b"(a)%1").is_ok());
    assert!(str_check(b"()(a)%2").is_ok());
    assert_eq!(str_check(b"%1").unwrap_err().message(), "invalid capture index %1");
    assert_eq!(str_check(b"(a%1)").unwrap_err().message(), "invalid capture index %1");
}

#[test]
fn escaped_non_class_matches_itself() {
    let mut mm = slots();
    assert_eq!(str_match(b"Q", b"%Q", &mut mm).unwrap(), 1);
    assert_eq!(str_match(b"q", b"%Q", &mut mm).unwrap(), 0);
    assert_eq!(str_match(b"a\x0bb", b"%s", &mut mm).unwrap(), 1);
    assert_eq!((mm[0].start, mm[0].end), (1, 2));
}

#[test]
fn bracket_may_start_with_its_closer() {
    let mut mm = slots();
    assert!(str_check(b"[]]").is_ok());
    assert_eq!(str_match(b"a]", b"[]]", &mut mm).unwrap(), 1);
    assert_eq!((mm[0].start, mm[0].end), (1, 2));
    assert_eq!(str_match(b"]a", b"[^]]", &mut mm).unwrap(), 1);
    assert_eq!((mm[0].start, mm[0].end), (1, 2));
}

#[test]
fn position_capture_reports_its_offset() {
    let mut mm = slots();
    assert_eq!(str_match(b"xa", b"()a", &mut mm).unwrap(), 2);
    assert_eq!((mm[1].start, mm[1].end), (1, 1));
    assert_eq!(str_match(b"a", b"()a", &mut mm).unwrap(), 2);
    assert_eq!((mm[1].start, mm[1].end), (0, 0));
}

#[test]
fn find_accepts_back_references() {
    let m = find("xyzzy", "(z)%1");
    assert!(m.is_match);
    assert_eq!((m.start, m.end), (2, 4));
}

#[test]
fn one_slot_is_enough_without_captures() {
    let mut mm = vec![LuaMatch { start: 0, end: 0 }; 1];
    assert_eq!(str_match(b"abc", b"b", &mut mm).unwrap(), 1);
    assert_eq!((mm[0].start, mm[0].end), (1, 2));
    assert_eq!(str_match(b"abc", b"(b)", &mut mm).unwrap_err().message(), "too many captures");
}

#[test]
fn long_literal_patterns_use_no_depth() {
    let mut mm = slots();
    let mut s = b"x".to_vec();
    s.extend(std::iter::repeat(b'a').take(300));
    let p = vec![b'a'; 300];
    assert_eq!(str_match(&s, &p, &mut mm).unwrap(), 1);
    assert_eq!((mm[0].start, mm[0].end), (1, 301));
}

#[test]
fn nested_repetitions_run_out_of_depth() {
    let mut mm = slots();
    let p = "a?".repeat(250).into_bytes();
    let s = vec![b'a'; 250];
    assert_eq!(str_match(&s, &p, &mut mm).unwrap_err().message(), "pattern too complex");
}
