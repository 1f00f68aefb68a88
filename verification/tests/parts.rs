use djot::annot::{Annot, Atom, Comp};
use djot::attribute::{Status, Tokenizer};
use djot::inline::Parser;
use djot::ParseOpts;

#[test]
fn left_and_right_atoms_correspond() {
    assert!(Atom::LeftDoubleQuote.is_left_atom());
    assert!(Atom::RightDoubleQuote.is_right_atom());
    assert_eq!(Atom::LeftDoubleQuote.corresponding_right_atom(), Atom::RightDoubleQuote);
    assert_eq!(Atom::RightDoubleQuote.corresponding_left_atom(), Atom::LeftDoubleQuote);
    assert_eq!(
        Atom::RightDoubleQuote.corresponding_left_atom().corresponding_right_atom(),
        Atom::RightDoubleQuote
    );
}

#[test]
fn annotation_names() {
    assert_eq!(Comp::CodeBlock.name(), "code_block");
    assert_eq!(Atom::ReferenceKey.name(), "reference_key");
    assert_eq!(Comp::Para.add().to_text(), "+para");
    assert_eq!(Comp::Para.sub().to_text(), "-para");
    assert_eq!(Annot::Atom(Atom::Str).to_text(), "str");
}

#[test]
fn attribute_block_is_done_at_its_brace() {
    let mut t = Tokenizer::new("{.a #b}".to_string());
    let (status, pos) = t.feed(0, 6);
    assert_eq!(status, Status::Done);
    assert_eq!(pos, 6);
}

#[test]
fn attribute_feed_resumes_where_it_stopped() {
    let mut whole = Tokenizer::new("{.a #b}".to_string());
    let all = whole.feed(0, 6);
    let mut parts = Tokenizer::new("{.a #b}".to_string());
    let first = parts.feed(0, 2);
    assert_eq!(first.0, Status::Continue);
    assert_eq!(first.1, 2);
    let rest = parts.feed(3, 6);
    assert_eq!(rest, all);
    let a = whole.get_matches();
    let b = parts.get_matches();
    assert_eq!(a.len(), b.len());
    for (x, y) in a.iter().zip(b.iter()) {
        assert_eq!((x.s, x.e, x.a), (y.s, y.e, y.a));
    }
}

#[test]
fn attribute_fails_without_brace() {
    let mut t = Tokenizer::new("x".to_string());
    assert_eq!(t.feed(0, 0), (Status::Fail, 0));
}

#[test]
fn inline_parser_merges_strings_and_drops_final_softbreak() {
    let mut p = Parser::new("ab\n".to_string(), ParseOpts::default());
    p.feed(0, 1);
    p.feed(1, 3);
    let ms = p.get_matches();
    assert_eq!(ms.len(), 1);
    assert_eq!((ms[0].s, ms[0].e, ms[0].a), (0, 2, Annot::Atom(Atom::Str)));
}

#[test]
fn inline_parser_closes_unclosed_verbatim() {
    let mut p = Parser::new("`abc".to_string(), ParseOpts::default());
    p.feed(0, 4);
    let ms = p.get_matches();
    let last = ms[ms.len() - 1];
    assert_eq!((last.s, last.e, last.a), (4, 4, Annot::Sub(Comp::Verbatim)));
}

#[test]
fn attribute_continue_reports_the_last_byte_parsed() {
    let mut t = Tokenizer::new("{#foo".to_string());
    assert_eq!(t.feed(0, 4), (Status::Continue, 4));
    assert!(t.get_matches().is_empty());
}

#[test]
fn attribute_empty_id_is_not_recorded() {
    let mut t = Tokenizer::new("{# }".to_string());
    assert_eq!(t.feed(0, 3), (Status::Done, 3));
    assert!(t.get_matches().is_empty());
}

#[test]
fn emoji_alias_of_several_characters() {
    let mut p = Parser::new(":smile:\n".to_string(), ParseOpts::default());
    p.feed(0, 8);
    let ms = p.get_matches();
    assert!(ms.iter().any(|m| (m.s, m.e, m.a) == (0, 7, Annot::Atom(Atom::Emoji))));
}
