//! The inline parser: it annotates the inline content of a block (emphasis, verbatim,
//! links, escapes, ...) as ranges of the subject.
use crate::annot::{Annot, Atom, Comp};
use crate::patterns::{bytes_of, find_at, spec_find, text_bytes, PatMatch};
use crate::{Match, ParseOpts};
use std::collections::{BTreeMap, HashMap};
use vstd::prelude::*;
use vstd::std_specs::iter::IteratorSpec;
use vstd::std_specs::cmp::OrdSpec;

verus! {



/// What an opening `[` has turned out to open so far.
#[derive(Debug, Clone, Copy, PartialEq, Eq, Structural)]
pub enum OpenerKind {
    Plain,
    ReferenceLink,
    ExplicitLink,
}

/// A delimiter that may still be closed: it spans `spos..epos`; a link opener also records the
/// `](` or `][` between its text and its destination or reference, at `subspos..subepos`.
#[derive(Debug, Clone, Copy)]
pub struct Opener {
    pub spos: usize,
    pub epos: usize,
    pub annot: OpenerKind,
    pub subspos: usize,
    pub subepos: usize,
}

impl Opener {
    pub fn new(spos: usize, epos: usize) -> (r: Opener)
        ensures
            r == (Opener { spos, epos, annot: OpenerKind::Plain, subspos: 0, subepos: 0 }),
    {
        Opener { spos, epos, annot: OpenerKind::Plain, subspos: 0, subepos: 0 }
    }

    pub open spec fn wf(self) -> bool {
        &&& self.spos <= self.epos <= usize::MAX - 4
        &&& self.subspos <= self.subepos <= usize::MAX - 4
        &&& self.annot != OpenerKind::Plain ==> self.subepos >= 2 && self.subspos + 2 == self.subepos
    }
}

/// The bytes that may hold delimiters with openers.
pub open spec fn opener_key(c: u8) -> bool {
    c == 126 || c == 94 || c == 95 || c == 42 || c == 34 || c == 91 || c == 40
}

pub struct Parser {
    pub opts: ParseOpts,
    pub subject: String,
    pub matches: BTreeMap<usize, Match>,
    pub openers: HashMap<u8, Vec<Opener>>,
    pub verbatim: usize,
    pub verbatim_type: Comp,
    pub destination: bool,
    pub firstpos: usize,
    pub lastpos: usize,
}

/// What a search of `t` for `pat` from `startpos` reports when it counts only if its match
/// ends by `endpos`.
pub open spec fn spec_bounded_find(t: Seq<u8>, pat: &str, startpos: usize, endpos: usize) -> PatMatch {
    let m = spec_find(t, bytes_of(pat), startpos, false);
    if m.end > endpos {
        PatMatch { is_match: false, start: 0, end: 0, cap1: 0..0, cap2: 0..0 }
    } else {
        m
    }
}

/// A search that counts only when its match ends by `endpos`.
pub fn bounded_find(subj: &str, patt: &'static str, startpos: usize, endpos: usize) -> (r: PatMatch)
    requires
        startpos <= bytes_of(subj).len(),
    ensures
        r == spec_bounded_find(bytes_of(subj), patt, startpos, endpos),
        r.is_match ==> startpos <= r.start <= r.end <= endpos && r.end <= bytes_of(subj).len(),
{
    let m = find_at(subj, patt, startpos);
    if m.end > endpos {
        PatMatch::default()
    } else {
        m
    }
}

/// A well-formed match of the map: it sits at its key and does not end before it starts.
pub open spec fn match_at(k: usize, m: Match) -> bool {
    m.s == k && m.s <= m.e
}


/// The state of the inline parser as values: its matches by start, its openers by
/// delimiter, the length and kind of an open verbatim, and whether a link destination is
/// being read.
pub struct InlineState {
    pub matches: Map<usize, Match>,
    pub openers: Map<u8, Seq<Opener>>,
    pub verbatim: usize,
    pub verbatim_type: Comp,
    pub destination: bool,
}

/// The state of a fresh parser: no matches, no openers, no verbatim, no destination.
pub open spec fn initial_state() -> InlineState {
    InlineState {
        matches: Map::empty(),
        openers: Map::empty(),
        verbatim: 0,
        verbatim_type: Comp::Para,
        destination: false,
    }
}

/// `st` with the match `s..e` annotated `a`, replacing any other match at `s`.
pub open spec fn put_match(st: InlineState, s: usize, e: usize, a: Annot) -> InlineState {
    InlineState { matches: st.matches.insert(s, Match { s, e, a }), ..st }
}

/// The openers of the delimiter `c`.
pub open spec fn openers_of(st: InlineState, c: u8) -> Seq<Opener> {
    if st.openers.contains_key(c) {
        st.openers[c]
    } else {
        Seq::empty()
    }
}

/// `st` with the openers of `c` set to `v`.
pub open spec fn put_openers(st: InlineState, c: u8, v: Seq<Opener>) -> InlineState {
    InlineState { openers: st.openers.insert(c, v), ..st }
}

/// `st` without openers for `c`.
pub open spec fn drop_openers(st: InlineState, c: u8) -> InlineState {
    InlineState { openers: st.openers.remove(c), ..st }
}

/// `st` with the opener `o` pushed on the openers of `c`.
pub open spec fn push_opener(st: InlineState, c: u8, o: Opener) -> InlineState {
    put_openers(st, c, openers_of(st, c).push(o))
}

/// Whether the opener `o` lies within `startpos..=endpos`.
pub open spec fn opener_within(o: Opener, startpos: usize, endpos: usize) -> bool {
    startpos <= o.spos && o.epos <= endpos
}

/// `st` without the openers, of any delimiter, that lie within `startpos..=endpos`.
pub open spec fn cleared(st: InlineState, startpos: usize, endpos: usize) -> InlineState {
    InlineState {
        openers: st.openers.map_values(|v: Seq<Opener>| v.filter(|o: Opener| !opener_within(o, startpos, endpos))),
        ..st
    }
}

/// The match at `k` after the matches starting in `startpos..endpos` became plain strings,
/// but for escapes.
pub open spec fn as_str(m: Match, k: usize, startpos: usize, endpos: usize) -> Match {
    if startpos <= k < endpos && m.a != Annot::Atom(Atom::Str) && m.a != Annot::Atom(Atom::Escape) {
        Match { a: Annot::Atom(Atom::Str), ..m }
    } else {
        m
    }
}

/// `st` with every match that starts in `startpos..endpos` made a plain string, but for
/// escapes.
pub open spec fn strs(st: InlineState, startpos: usize, endpos: usize) -> InlineState {
    InlineState {
        matches: st.matches.map_entries(|k: usize, m: Match| as_str(m, k, startpos, endpos)),
        ..st
    }
}

impl Parser {
    /// The state of the parser as values.
    pub open spec fn state(&self) -> InlineState {
        InlineState {
            matches: self.matches@,
            openers: self.openers@.map_values(|v: Vec<Opener>| v@),
            verbatim: self.verbatim,
            verbatim_type: self.verbatim_type,
            destination: self.destination,
        }
    }

    pub open spec fn text(&self) -> Seq<u8> {
        text_bytes(self.subject@)
    }

    pub open spec fn wf(&self) -> bool {
        &&& self.text().len() + 8 <= usize::MAX
        &&& forall|k: usize| #[trigger] self.matches@.contains_key(k) ==> match_at(k, self.matches@[k])
        &&& forall|c: u8| #[trigger] self.openers@.contains_key(c) ==> opener_key(c) && forall|i: int|
            0 <= i < self.openers@[c]@.len() ==> (#[trigger] self.openers@[c]@[i]).wf()
        &&& self.lastpos <= self.text().len()
        &&& self.firstpos <= self.lastpos
    }

    pub fn new(subject: String, opts: ParseOpts) -> (r: Parser)
        requires
            text_bytes(subject@).len() + 8 <= usize::MAX,
        ensures
            r.wf(),
            r.subject == subject,
            r.opts == opts,
            r.matches@.len() == 0,
            r.state() == initial_state(),
            r.firstpos == 0,
            r.lastpos == 0,
    {
        let r = Parser {
            opts,
            subject,
            matches: BTreeMap::new(),
            openers: HashMap::new(),
            verbatim: 0,
            verbatim_type: Comp::default_comp(),
            destination: false,
            firstpos: 0,
            lastpos: 0,
        };
        assert(r.state().matches =~= initial_state().matches);
        assert(r.state().openers =~= initial_state().openers);
        r
    }

    /// Records a match at `startpos`, replacing any other that starts there.
    fn add_match(&mut self, startpos: usize, endpos: usize, annotation: Annot)
        requires
            old(self).wf(),
            startpos <= endpos,
        ensures
            final(self).wf(),
            final(self).matches@ == old(self).matches@.insert(startpos, Match { s: startpos, e: endpos, a: annotation }),
            final(self).state() == put_match(old(self).state(), startpos, endpos, annotation),
            final(self).subject == old(self).subject,
            final(self).opts == old(self).opts,
            final(self).openers@ == old(self).openers@,
            final(self).verbatim == old(self).verbatim,
            final(self).verbatim_type == old(self).verbatim_type,
            final(self).destination == old(self).destination,
            final(self).firstpos == old(self).firstpos,
            final(self).lastpos == old(self).lastpos,
    {
        let m = Match::new(startpos, endpos, annotation);
        self.matches.insert(startpos, m);
    }

    /// The openers recorded for the delimiter `c`, taken out of the table.
    fn take_openers(&mut self, c: u8) -> (r: Vec<Opener>)
        requires
            old(self).wf(),
        ensures
            final(self).wf(),
            final(self).openers@ == old(self).openers@.remove(c),
            r@ == (if old(self).openers@.contains_key(c) {
                old(self).openers@[c]@
            } else {
                Seq::empty()
            }),
            forall|i: int| 0 <= i < r@.len() ==> (#[trigger] r@[i]).wf(),
            r@ == openers_of(old(self).state(), c),
            final(self).state() == drop_openers(old(self).state(), c),
            final(self).matches@ == old(self).matches@,
            final(self).subject == old(self).subject,
            final(self).opts == old(self).opts,
            final(self).verbatim == old(self).verbatim,
            final(self).verbatim_type == old(self).verbatim_type,
            final(self).destination == old(self).destination,
            final(self).firstpos == old(self).firstpos,
            final(self).lastpos == old(self).lastpos,
    {
        let r = match self.openers.remove(&c) {
            Some(v) => v,
            None => Vec::new(),
        };
        assert(self.state().openers =~= old(self).state().openers.remove(c));
        r
    }

    /// Puts back the openers of the delimiter `c`.
    fn put_openers(&mut self, c: u8, v: Vec<Opener>)
        requires
            old(self).wf(),
            opener_key(c),
            forall|i: int| 0 <= i < v@.len() ==> (#[trigger] v@[i]).wf(),
        ensures
            final(self).wf(),
            final(self).openers@ == old(self).openers@.insert(c, v),
            final(self).state() == put_openers(old(self).state(), c, v@),
            final(self).matches@ == old(self).matches@,
            final(self).subject == old(self).subject,
            final(self).opts == old(self).opts,
            final(self).verbatim == old(self).verbatim,
            final(self).verbatim_type == old(self).verbatim_type,
            final(self).destination == old(self).destination,
            final(self).firstpos == old(self).firstpos,
            final(self).lastpos == old(self).lastpos,
    {
        let ghost vv = v@;
        self.openers.insert(c, v);
        assert(self.state().openers =~= old(self).state().openers.insert(c, vv));
    }

    fn add_opener(&mut self, name: u8, opener: Opener)
        requires
            old(self).wf(),
            opener_key(name),
            opener.wf(),
        ensures
            final(self).wf(),
            final(self).openers@.contains_key(name),
            final(self).openers@[name]@ == (if old(self).openers@.contains_key(name) {
                old(self).openers@[name]@
            } else {
                Seq::empty()
            }).push(opener),
            final(self).state() == push_opener(old(self).state(), name, opener),
            final(self).matches@ == old(self).matches@,
            final(self).subject == old(self).subject,
            final(self).opts == old(self).opts,
            final(self).verbatim == old(self).verbatim,
            final(self).verbatim_type == old(self).verbatim_type,
            final(self).destination == old(self).destination,
            final(self).firstpos == old(self).firstpos,
            final(self).lastpos == old(self).lastpos,
    {
        let mut v = self.take_openers(name);
        v.push(opener);
        self.put_openers(name, v);
        assert(self.state().openers =~= push_opener(old(self).state(), name, opener).openers);
    }

    /// Drops, for every delimiter, the openers that lie within `startpos..=endpos`.
    fn clear_openers(&mut self, startpos: usize, endpos: usize)
        requires
            old(self).wf(),
        ensures
            final(self).wf(),
            final(self).matches@ == old(self).matches@,
            final(self).subject == old(self).subject,
            final(self).opts == old(self).opts,
            final(self).verbatim == old(self).verbatim,
            final(self).verbatim_type == old(self).verbatim_type,
            final(self).destination == old(self).destination,
            final(self).firstpos == old(self).firstpos,
            final(self).lastpos == old(self).lastpos,
            final(self).openers@.dom() == old(self).openers@.dom(),
            forall|c: u8| #[trigger] final(self).openers@.contains_key(c) ==>
                final(self).openers@[c]@ == old(self).openers@[c]@.filter(|o: Opener| !opener_within(o, startpos, endpos)),
            final(self).state() == cleared(old(self).state(), startpos, endpos),
    {
        let keys: [u8; 7] = [126, 94, 95, 42, 34, 91, 40];
        let mut k: usize = 0;
        while k < 7
            invariant
                self.wf(),
                keys@ == seq![126u8, 94, 95, 42, 34, 91, 40],
                k <= 7,
                self.matches@ == old(self).matches@,
                self.subject == old(self).subject,
                self.opts == old(self).opts,
                self.verbatim == old(self).verbatim,
                self.verbatim_type == old(self).verbatim_type,
                self.destination == old(self).destination,
                self.firstpos == old(self).firstpos,
                self.lastpos == old(self).lastpos,
                self.openers@.dom() == old(self).openers@.dom(),
                forall|c: u8| #[trigger] self.openers@.contains_key(c) ==> (exists|j: int| 0 <= j < k && keys@[j] == c) ==>
                    self.openers@[c]@ == old(self).openers@[c]@.filter(|o: Opener| !opener_within(o, startpos, endpos)),
                forall|c: u8| #[trigger] self.openers@.contains_key(c) ==> !(exists|j: int| 0 <= j < k && keys@[j] == c) ==>
                    self.openers@[c] == old(self).openers@[c],
            decreases 7 - k,
        {
            let c = keys[k];
            if self.openers.contains_key(&c) {
                let v = self.take_openers(c);
                let mut kept: Vec<Opener> = Vec::new();
                let mut i: usize = 0;
                while i < v.len()
                    invariant
                        i <= v@.len(),
                        forall|j: int| 0 <= j < v@.len() ==> (#[trigger] v@[j]).wf(),
                        forall|j: int| 0 <= j < kept@.len() ==> (#[trigger] kept@[j]).wf(),
                        kept@ == v@.take(i as int).filter(|o: Opener| !opener_within(o, startpos, endpos)),
                    decreases v@.len() - i,
                {
                    let o = v[i];
                    proof {
                        reveal_with_fuel(Seq::filter, 1);
                        assert(v@.take(i + 1).drop_last() =~= v@.take(i as int));
                    }
                    if !(startpos <= o.spos && o.epos <= endpos) {
                        kept.push(o);
                    }
                    i = i + 1;
                }
                assert(v@.take(v@.len() as int) =~= v@);
                self.put_openers(c, kept);
            }
            k = k + 1;
        }
        assert forall|c: u8| #[trigger] self.openers@.contains_key(c) implies (exists|j: int| 0 <= j < 7 && keys@[j] == c) by {
            assert(opener_key(c));
            if c == 126 { assert(keys@[0] == c); }
            else if c == 94 { assert(keys@[1] == c); }
            else if c == 95 { assert(keys@[2] == c); }
            else if c == 42 { assert(keys@[3] == c); }
            else if c == 34 { assert(keys@[4] == c); }
            else if c == 91 { assert(keys@[5] == c); }
            else { assert(keys@[6] == c); }
        }
        proof {
            assert(self.state().openers =~= cleared(old(self).state(), startpos, endpos).openers);
        }
    }
}


impl Parser {
    /// The byte at `pos`.
    fn byte(&self, pos: usize) -> (r: u8)
        requires
            pos < self.text().len(),
        ensures
            r == self.text()[pos as int],
    {
        self.subject.as_str().as_bytes()[pos]
    }

    /// The number of bytes of the subject.
    fn len(&self) -> (r: usize)
        ensures
            r == self.text().len(),
    {
        self.subject.as_str().as_bytes().len()
    }

    /// The match with the highest start, if any.
    fn last_match(&self) -> (r: Option<Match>)
        requires
            forall|k: usize| #[trigger] self.matches@.contains_key(k) ==> match_at(k, self.matches@[k]),
        ensures
            r is None ==> forall|k: usize| !#[trigger] self.matches@.contains_key(k),
            r matches Some(m) ==> is_last_match(self.matches@, m),
    {
        proof {
            lemma_usize_keys_ordered();
        }
        let mut last: Option<Match> = None;
        let ghost items = vstd::std_specs::btree::spec_btree_map_iter(&self.matches).remaining();
        let ghost mut n: int = 0;
        for kv in it: self.matches.iter()
            invariant
                it.seq() == items,
                items == vstd::std_specs::btree::spec_btree_map_iter(&self.matches).remaining(),
                vstd::std_specs::btree::increasing_seq(items.map_values(|kv: (&usize, &Match)| *kv.0)),
                n == it.index(),
                n == 0 ==> last is None,
                n > 0 ==> last == Some(*items[n - 1].1),
        {
            last = Some(*kv.1);
            proof {
                n = n + 1;
            }
        }
        proof {
            let keys = items.map_values(|kv: (&usize, &Match)| *kv.0);
            assert(n == items.len());
            broadcast use vstd::laws_cmp::group_laws_cmp;
            assert(vstd::laws_cmp::obeys_cmp::<usize>());
            vstd::std_specs::btree::axiom_increasing_seq_meaning(keys);
            if n == 0 {
                assert forall|k: usize| !#[trigger] self.matches@.contains_key(k) by {
                    if self.matches@.contains_key(k) {
                        assert(items.contains((&k, &self.matches@[k])));
                    }
                }
            } else {
                let top = *items[n - 1].0;
                assert(self.matches@.contains_key(top));
                assert forall|k: usize| #[trigger] self.matches@.contains_key(k) implies k <= top by {
                    assert(items.contains((&k, &self.matches@[k])));
                    let i = choose|i: int| 0 <= i < items.len() && items[i] == (&k, &self.matches@[k]);
                    if i < n - 1 {
                        assert(keys[i] == k);
                        assert(keys[n - 1] == top);
                        assert(keys[i].cmp_spec(&keys[n - 1]) is Less);
                    }
                }
            }
        }
        last
    }

    /// Turns every match that starts in `startpos..endpos` into a plain string, unless it is
    /// one already or an escape.
    fn str_matches(&mut self, startpos: usize, endpos: usize)
        requires
            old(self).wf(),
        ensures
            final(self).wf(),
            final(self).matches@.dom() == old(self).matches@.dom(),
            forall|k: usize| #[trigger] final(self).matches@.contains_key(k) ==> final(self).matches@[k] == (
                if startpos <= k < endpos && old(self).matches@[k].a != Annot::Atom(Atom::Str)
                    && old(self).matches@[k].a != Annot::Atom(Atom::Escape) {
                    Match { a: Annot::Atom(Atom::Str), ..old(self).matches@[k] }
                } else {
                    old(self).matches@[k]
                }),
            final(self).subject == old(self).subject,
            final(self).opts == old(self).opts,
            final(self).openers@ == old(self).openers@,
            final(self).verbatim == old(self).verbatim,
            final(self).verbatim_type == old(self).verbatim_type,
            final(self).destination == old(self).destination,
            final(self).firstpos == old(self).firstpos,
            final(self).lastpos == old(self).lastpos,
            final(self).state() == strs(old(self).state(), startpos, endpos),
    {
        let mut i = startpos;
        while i < endpos
            invariant
                self.wf(),
                startpos <= i,
                i <= endpos || i == startpos,
                self.matches@.dom() == old(self).matches@.dom(),
                forall|k: usize| #[trigger] self.matches@.contains_key(k) ==> self.matches@[k] == (
                    if startpos <= k < i && old(self).matches@[k].a != Annot::Atom(Atom::Str)
                        && old(self).matches@[k].a != Annot::Atom(Atom::Escape) {
                        Match { a: Annot::Atom(Atom::Str), ..old(self).matches@[k] }
                    } else {
                        old(self).matches@[k]
                    }),
                self.subject == old(self).subject,
                self.opts == old(self).opts,
                self.openers@ == old(self).openers@,
                self.verbatim == old(self).verbatim,
                self.verbatim_type == old(self).verbatim_type,
                self.destination == old(self).destination,
                self.firstpos == old(self).firstpos,
                self.lastpos == old(self).lastpos,
            decreases endpos - i,
        {
            let found = self.matches.get(&i);
            if let Some(m) = found {
                let m = *m;
                if m.is_not(Annot::Atom(Atom::Str)) && m.is_not(Annot::Atom(Atom::Escape)) {
                    self.add_match(m.s, m.e, Annot::Atom(Atom::Str));
                }
            }
            i = i + 1;
        }
        assert(self.state().matches =~= strs(old(self).state(), startpos, endpos).matches);
    }
}


/// `m` is the match of `ms` with the highest start.
pub open spec fn is_last_match(ms: Map<usize, Match>, m: Match) -> bool {
    &&& ms.contains_key(m.s)
    &&& ms[m.s] == m
    &&& forall|k: usize| #[trigger] ms.contains_key(k) ==> k <= m.s
}

/// The keys of a map of `usize` keys are ordered as numbers.
proof fn lemma_usize_keys_ordered()
    ensures
        vstd::std_specs::btree::key_obeys_cmp_spec::<usize>(),
{
    broadcast use vstd::laws_cmp::group_laws_cmp;
    assert(vstd::laws_cmp::obeys_cmp::<usize>());
}


/// An opener of the span `spos..epos`, with nothing known of what it opens.
pub open spec fn new_opener(spos: usize, epos: usize) -> Opener {
    Opener { spos, epos, annot: OpenerKind::Plain, subspos: 0, subepos: 0 }
}

/// A backtick run at `pos` opens verbatim text of its length.
pub open spec fn spec_verbatim_opener(t: Seq<u8>, st: InlineState, pos: usize, endpos: usize) -> (InlineState, Option<usize>) {
    let m = spec_bounded_find(t, "^`*", pos, endpos);
    if !m.is_match || m.end <= pos {
        (st, None)
    } else {
        (
            InlineState {
                verbatim_type: Comp::Verbatim,
                verbatim: (m.end - pos) as usize,
                ..put_match(st, pos, m.end, Annot::Add(Comp::Verbatim))
            },
            Some(m.end),
        )
    }
}

/// A `<` at `pos` may start an autolink to a URL or an email address.
pub open spec fn spec_angle(t: Seq<u8>, st: InlineState, pos: usize, endpos: usize) -> (InlineState, Option<usize>) {
    let url = spec_bounded_find(t, "^%<[^<>%s]+%>", pos, endpos);
    if url.is_match && url.end >= url.start + 2 && url.start >= pos {
        let is_url = spec_bounded_find(t, "^%a+:", (pos + 1) as usize, url.end).is_match;
        let is_email = spec_bounded_find(t, "^[^:]+%@", (pos + 1) as usize, url.end).is_match;
        let comp = if is_email { Comp::Email } else { Comp::Url };
        if is_email || is_url {
            (
                put_match(
                    put_match(
                        put_match(st, url.start, (url.start + 1) as usize, Annot::Add(comp)),
                        (url.start + 1) as usize,
                        (url.end - 1) as usize,
                        Annot::Atom(Atom::Str),
                    ),
                    (url.end - 1) as usize,
                    url.end,
                    Annot::Sub(comp),
                ),
                Some(url.end),
            )
        } else {
            (st, None)
        }
    } else {
        (st, None)
    }
}

/// A `[` at `pos` is a footnote reference, or opens the text of a link.
pub open spec fn spec_open_bracket(t: Seq<u8>, st: InlineState, pos: usize, endpos: usize) -> (InlineState, Option<usize>) {
    let m = spec_bounded_find(t, "^%^([^]]+)%]", (pos + 1) as usize, endpos);
    if m.is_match {
        let st1 = put_match(st, pos, m.end, Annot::Atom(Atom::FootnoteReference));
        if m.end <= pos {
            (st1, None)
        } else {
            (st1, Some(m.end))
        }
    } else {
        (
            put_match(push_opener(st, 91, new_opener(pos, (pos + 1) as usize)), pos, (pos + 1) as usize, Annot::Atom(Atom::Str)),
            Some((pos + 1) as usize),
        )
    }
}

/// A `(` at `pos` opens a paren within a link destination.
pub open spec fn spec_open_paren(t: Seq<u8>, st: InlineState, pos: usize, endpos: usize) -> (InlineState, Option<usize>) {
    if !st.destination {
        (st, None)
    } else {
        (
            put_match(push_opener(st, 40, new_opener(pos, (pos + 1) as usize)), pos, (pos + 1) as usize, Annot::Atom(Atom::Str)),
            Some((pos + 1) as usize),
        )
    }
}

/// A `{` at `pos` is an open marker before a delimiter, else plain text.
pub open spec fn spec_open_brace(t: Seq<u8>, st: InlineState, pos: usize, endpos: usize) -> (InlineState, Option<usize>) {
    let next = if pos + 1 < endpos { t[pos + 1] } else { 0u8 };
    let a = if next == 95 || next == 42 || next == 94 || next == 43 || next == 61 || next == 39
        || next == 34 || next == 45 {
        Atom::OpenMarker
    } else {
        Atom::Str
    };
    (put_match(st, pos, (pos + 1) as usize, Annot::Atom(a)), Some((pos + 1) as usize))
}

/// A `:` at `pos` may start an emoji alias: one or more word characters, `_`, `+` or `-`
/// between colons.
pub open spec fn spec_colon(t: Seq<u8>, st: InlineState, pos: usize, endpos: usize) -> (InlineState, Option<usize>) {
    let m = spec_bounded_find(t, "^%:[%w_+-]+%:", pos, endpos);
    if m.is_match && m.end > pos {
        (put_match(st, m.start, m.end, Annot::Atom(Atom::Emoji)), Some(m.end))
    } else {
        (put_match(st, pos, (pos + 1) as usize, Annot::Atom(Atom::Str)), Some((pos + 1) as usize))
    }
}

/// A `.` at `pos` may start an ellipsis.
pub open spec fn spec_dot(t: Seq<u8>, st: InlineState, pos: usize, endpos: usize) -> (InlineState, Option<usize>) {
    if spec_bounded_find(t, "^%.%.", (pos + 1) as usize, endpos).is_match {
        (put_match(st, pos, (pos + 3) as usize, Annot::Atom(Atom::Ellipses)), Some((pos + 3) as usize))
    } else {
        (st, None)
    }
}


/// The matches of a link or image whose text opener is `o`: an image when `!` comes just
/// before it.
pub open spec fn link_text(t: Seq<u8>, st: InlineState, o: Opener) -> InlineState {
    let is_image = o.spos >= 1 && t[o.spos - 1] == 33 && !(o.spos >= 2 && t[o.spos - 2] == 91
        && t[o.spos - 1] == 93);
    if is_image {
        put_match(
            put_match(
                put_match(st, (o.spos - 1) as usize, o.spos, Annot::Atom(Atom::ImageMarker)),
                o.spos,
                o.epos,
                Annot::Add(Comp::Imagetext),
            ),
            o.subspos,
            o.subepos,
            Annot::Sub(Comp::Imagetext),
        )
    } else {
        put_match(
            put_match(st, o.spos, o.epos, Annot::Add(Comp::Linktext)),
            o.subspos,
            o.subepos,
            Annot::Sub(Comp::Linktext),
        )
    }
}

/// A run of the delimiter `c` at `pos`: it closes the last opener of `c` unless that would
/// make an empty span, else it may open, else it is plain text. Which it may do depends on
/// the spaces around it and on explicit `{` and `}` markers.
pub open spec fn spec_between(
    t: Seq<u8>,
    st: InlineState,
    pos: usize,
    c: u8,
    annotation: Comp,
    defaultmatch: Atom,
) -> (InlineState, usize) {
    let len = t.len();
    let open0 = spec_find(t, bytes_of("^%S"), (pos + 1) as usize, false).is_match;
    let close0 = !(pos > 0 && (t[pos - 1] == 32 || t[pos - 1] == 10 || t[pos - 1] == 9));
    let has_open_marker = pos != 0 && st.matches.contains_key((pos - 1) as usize)
        && st.matches[(pos - 1) as usize].a == Annot::Atom(Atom::OpenMarker);
    let has_close_marker = pos + 1 < len && t[pos + 1] == 125;
    let can_open = if has_open_marker {
        true
    } else if has_close_marker {
        false
    } else {
        open0
    };
    let can_close = if has_open_marker {
        false
    } else if has_close_marker {
        true
    } else {
        close0
    };
    let startopener = if has_open_marker { (pos - 1) as usize } else { pos };
    let endcloser = if !has_open_marker && has_close_marker { (pos + 1) as usize } else { pos };
    let ops = openers_of(st, c);
    let st1 = put_openers(st, c, ops);
    if can_close && ops.len() > 0 && ops.last().epos + 1 != pos {
        let o = ops.last();
        (
            put_match(
                put_match(cleared(st1, o.spos, pos), o.spos, o.epos, Annot::Add(annotation)),
                pos,
                endcloser,
                Annot::Sub(annotation),
            ),
            (endcloser + 1) as usize,
        )
    } else if can_open {
        (
            put_match(push_opener(st1, c, new_opener(startopener, pos)), startopener, (pos + 1) as usize, Annot::Atom(defaultmatch)),
            (pos + 1) as usize,
        )
    } else {
        (put_match(st1, startopener, (endcloser + 1) as usize, Annot::Atom(defaultmatch)), (endcloser + 1) as usize)
    }
}


/// Where a plain string `sp..ep` ends once spaces and tabs at its end are given back.
pub open spec fn trim_back(t: Seq<u8>, sp: usize, ep: usize) -> usize
    decreases ep,
{
    if ep > sp && ep < t.len() && (t[ep as int] == 32 || t[ep as int] == 9) {
        trim_back(t, sp, (ep - 1) as usize)
    } else {
        ep
    }
}

/// The match with the highest start, if any.
pub open spec fn last_of(ms: Map<usize, Match>) -> Option<Match> {
    if exists|k: usize| ms.contains_key(k) && forall|j: usize| #[trigger] ms.contains_key(j) ==> j <= k {
        let k = choose|k: usize| ms.contains_key(k) && forall|j: usize| #[trigger] ms.contains_key(j) ==> j <= k;
        Some(ms[k])
    } else {
        None
    }
}

/// `st` after a hard break: a plain string that ends the matches so far loses the spaces
/// and tabs before the break, and goes when nothing is left of it.
pub open spec fn trailing_trimmed(t: Seq<u8>, st: InlineState) -> InlineState {
    match last_of(st.matches) {
        Some(mm) => if mm.a == Annot::Atom(Atom::Str) && mm.s <= mm.e {
            let ep = trim_back(t, mm.s, mm.e);
            if mm.s == ep {
                InlineState { matches: st.matches.remove(mm.s), ..st }
            } else {
                put_match(st, mm.s, ep, Annot::Atom(Atom::Str))
            }
        } else {
            st
        },
        None => st,
    }
}

/// A backslash at `pos`: a hard break before a line end, an escape before punctuation or a
/// space (a space making a non-breaking space), else plain text.
pub open spec fn spec_backslash(t: Seq<u8>, st: InlineState, pos: usize, endpos: usize) -> (InlineState, Option<usize>) {
    let m = spec_bounded_find(t, "^[ \t]*\r?\n", (pos + 1) as usize, endpos);
    let st1 = put_match(st, pos, (pos + 1) as usize, Annot::Atom(Atom::Escape));
    if m.is_match {
        (put_match(trailing_trimmed(t, st1), (pos + 1) as usize, m.end, Annot::Atom(Atom::Hardbreak)), Some(m.end))
    } else {
        let m2 = spec_bounded_find(t, "^[%p ]", (pos + 1) as usize, endpos);
        if !m2.is_match {
            (put_match(st1, pos, (pos + 1) as usize, Annot::Atom(Atom::Str)), Some((pos + 1) as usize))
        } else {
            let st2 = put_match(st1, pos, (pos + 1) as usize, Annot::Atom(Atom::Escape));
            let a = if spec_find(t, bytes_of("^ "), (pos + 1) as usize, false).is_match {
                Atom::Nbsp
            } else {
                Atom::Str
            };
            let st3 = put_match(st2, (pos + 1) as usize, m2.end, Annot::Atom(a));
            if m2.end <= pos {
                (st3, None)
            } else {
                (st3, Some(m2.end))
            }
        }
    }
}

/// A `]` at `pos`: it ends a reference link whose `][` was seen, or is the `][` or `](` after
/// a link text; else plain text.
pub open spec fn spec_close_bracket(t: Seq<u8>, st: InlineState, pos: usize, endpos: usize) -> (InlineState, Option<usize>) {
    let len = t.len();
    let ops = openers_of(st, 91);
    let st0 = drop_openers(st, 91);
    if ops.len() > 0 {
        let o = ops.last();
        if o.annot == OpenerKind::ReferenceLink {
            let st1 = put_openers(st0, 91, ops);
            let st2 = if o.spos <= len { link_text(t, st1, o) } else { st1 };
            let st3 = put_match(st2, (o.subepos - 1) as usize, o.subepos, Annot::Add(Comp::Reference));
            let st4 = put_match(st3, pos, pos, Annot::Sub(Comp::Reference));
            (cleared(strs(st4, (o.subepos + 1) as usize, pos), o.spos, pos), Some((pos + 1) as usize))
        } else if spec_bounded_find(t, "^[%[]", (pos + 1) as usize, endpos).is_match {
            let o2 = Opener { annot: OpenerKind::ReferenceLink, subspos: pos, subepos: (pos + 2) as usize, ..o };
            (
                put_match(put_openers(st0, 91, ops.update(ops.len() - 1, o2)), pos, (pos + 2) as usize, Annot::Atom(Atom::Str)),
                Some((pos + 2) as usize),
            )
        } else if spec_bounded_find(t, "^[(]", (pos + 1) as usize, endpos).is_match {
            let o2 = Opener { annot: OpenerKind::ExplicitLink, subspos: pos, subepos: (pos + 2) as usize, ..o };
            let st1 = drop_openers(put_openers(st0, 91, ops.update(ops.len() - 1, o2)), 40);
            (
                put_match(InlineState { destination: true, ..st1 }, pos, (pos + 2) as usize, Annot::Atom(Atom::Str)),
                Some((pos + 2) as usize),
            )
        } else {
            (put_openers(st0, 91, ops), None)
        }
    } else {
        (put_openers(st0, 91, ops), None)
    }
}

/// A `)` at `pos` within a link destination: it closes a paren opened there, or ends the
/// destination of the last link text.
pub open spec fn spec_close_paren(t: Seq<u8>, st: InlineState, pos: usize, endpos: usize) -> (InlineState, Option<usize>) {
    let len = t.len();
    if !st.destination {
        (st, None)
    } else {
        let parens = openers_of(st, 40);
        let st0 = drop_openers(st, 40);
        if parens.len() > 0 {
            (
                put_match(put_openers(st0, 40, parens.drop_last()), pos, (pos + 1) as usize, Annot::Atom(Atom::Str)),
                Some((pos + 1) as usize),
            )
        } else {
            let st1 = put_openers(st0, 40, parens);
            let ops = openers_of(st1, 91);
            let st2 = put_openers(drop_openers(st1, 91), 91, ops);
            if ops.len() > 0 && ops.last().annot == OpenerKind::ExplicitLink {
                let o = ops.last();
                let startdest = (o.subepos - 1) as usize;
                let st3 = if o.spos <= len { link_text(t, st2, o) } else { st2 };
                let st4 = put_match(st3, startdest, (startdest + 1) as usize, Annot::Add(Comp::Destination));
                let st5 = put_match(st4, pos, (pos + 1) as usize, Annot::Sub(Comp::Destination));
                let st6 = InlineState { destination: false, ..st5 };
                (cleared(strs(st6, (o.subepos + 1) as usize, pos), o.spos, pos), Some((pos + 1) as usize))
            } else {
                (st2, None)
            }
        }
    }
}


/// The match with the highest start is the one `last_of` gives.
proof fn lemma_last_of(ms: Map<usize, Match>, m: Match)
    requires
        is_last_match(ms, m),
    ensures
        last_of(ms) == Some(m),
{
    assert(ms.contains_key(m.s) && forall|j: usize| #[trigger] ms.contains_key(j) ==> j <= m.s);
    let k = choose|k: usize| ms.contains_key(k) && forall|j: usize| #[trigger] ms.contains_key(j) ==> j <= k;
    assert(k <= m.s && m.s <= k);
}

/// A map without keys has no last match.
proof fn lemma_last_of_none(ms: Map<usize, Match>)
    requires
        forall|k: usize| !#[trigger] ms.contains_key(k),
    ensures
        last_of(ms) is None,
{
}


/// A byte `c` at `pos` that may start inline syntax: the matcher for it, or `None` for plain
/// text.
pub open spec fn spec_matchers(t: Seq<u8>, st: InlineState, c: u8, pos: usize, endpos: usize) -> (InlineState, Option<usize>) {
    if c == 96 {
        spec_verbatim_opener(t, st, pos, endpos)
    } else if c == 92 {
        spec_backslash(t, st, pos, endpos)
    } else if c == 60 {
        spec_angle(t, st, pos, endpos)
    } else if c == 126 {
        let (s, r) = spec_between(t, st, pos, 126, Comp::Subscript, Atom::Str);
        (s, Some(r))
    } else if c == 94 {
        let (s, r) = spec_between(t, st, pos, 94, Comp::Superscript, Atom::Str);
        (s, Some(r))
    } else if c == 91 {
        spec_open_bracket(t, st, pos, endpos)
    } else if c == 93 {
        spec_close_bracket(t, st, pos, endpos)
    } else if c == 40 {
        spec_open_paren(t, st, pos, endpos)
    } else if c == 41 {
        spec_close_paren(t, st, pos, endpos)
    } else if c == 95 {
        let (s, r) = spec_between(t, st, pos, 95, Comp::Emph, Atom::Str);
        (s, Some(r))
    } else if c == 42 {
        let (s, r) = spec_between(t, st, pos, 42, Comp::Strong, Atom::Str);
        (s, Some(r))
    } else if c == 123 {
        spec_open_brace(t, st, pos, endpos)
    } else if c == 58 {
        spec_colon(t, st, pos, endpos)
    } else if c == 34 {
        let (s, r) = spec_between(t, st, pos, 34, Comp::DoubleQuoted, Atom::LeftDoubleQuote);
        (s, Some(r))
    } else if c == 46 {
        spec_dot(t, st, pos, endpos)
    } else {
        (st, None)
    }
}

/// The byte at `pos`, which the scan stopped at: a line end is a soft break; inside verbatim
/// text, a backtick run of the opening length closes it and anything else is text; else
/// the matcher for the byte, or plain text. Gives the state and the position after.
pub open spec fn spec_step(t: Seq<u8>, st: InlineState, pos: usize, endpos: usize) -> (InlineState, usize) {
    let c = t[pos as int];
    if c == 13 || c == 10 {
        if c == 13 && spec_bounded_find(t, "^[%n]", (pos + 1) as usize, endpos).is_match {
            (put_match(st, pos, (pos + 2) as usize, Annot::Atom(Atom::Softbreak)), (pos + 2) as usize)
        } else {
            (put_match(st, pos, (pos + 1) as usize, Annot::Atom(Atom::Softbreak)), (pos + 1) as usize)
        }
    } else if st.verbatim > 0 {
        if c == 96 {
            let m = spec_bounded_find(t, "^`+", pos, endpos);
            if m.is_match && m.end - pos == st.verbatim {
                (
                    InlineState {
                        verbatim: 0,
                        verbatim_type: Comp::Para,
                        ..put_match(st, pos, m.end, Annot::Sub(st.verbatim_type))
                    },
                    if m.end > pos { m.end } else { (pos + 1) as usize },
                )
            } else {
                let endchar = if m.is_match { m.end } else { endpos };
                (put_match(st, pos, endchar, Annot::Atom(Atom::Str)), if endchar > pos { endchar } else { (pos + 1) as usize })
            }
        } else {
            (put_match(st, pos, (pos + 1) as usize, Annot::Atom(Atom::Str)), (pos + 1) as usize)
        }
    } else {
        match spec_matchers(t, st, c, pos, endpos) {
            (s, Some(np)) => (s, np),
            (s, None) => (put_match(s, pos, (pos + 1) as usize, Annot::Atom(Atom::Str)), (pos + 1) as usize),
        }
    }
}

/// Scanning `pos..endpos`: the text up to the next byte that may be special is a plain
/// string; that byte, even at `endpos`, is then handled by a step; and so on.
pub open spec fn spec_scan(t: Seq<u8>, st: InlineState, pos: usize, endpos: usize) -> InlineState
    decreases endpos - pos,
{
    if pos >= endpos {
        st
    } else {
        let m = spec_bounded_find(t, "[%]%[\\`{}_*()!<>~^:=+$\r\n'\".-]", pos, endpos);
        let newpos = if m.is_match { m.start } else { endpos };
        let st1 = if newpos > pos { put_match(st, pos, newpos, Annot::Atom(Atom::Str)) } else { st };
        let p1 = if newpos > pos { newpos } else { pos };
        if p1 >= t.len() {
            st1
        } else {
            let (st2, p2) = spec_step(t, st1, p1, endpos);
            if p2 <= pos || p2 >= endpos {
                st2
            } else {
                spec_scan(t, st2, p2, endpos)
            }
        }
    }
}

/// Whether a composite is a block container: a paragraph, a code block or a reference
/// definition.
pub open spec fn is_block_comp(c: Comp) -> bool {
    c == Comp::Para || c == Comp::CodeBlock || c == Comp::ReferenceDefinition
}

/// Whether an annotation opens or closes a block container.
pub open spec fn is_block_annot(a: Annot) -> bool {
    match a {
        Annot::Add(c) => is_block_comp(c),
        Annot::Sub(c) => is_block_comp(c),
        _ => false,
    }
}

/// The inline parser's matches open and close no block container, and an open verbatim
/// is closed as a verbatim.
pub open spec fn inline_only(st: InlineState) -> bool {
    &&& forall|k: usize| st.matches.contains_key(k) ==> !is_block_annot(#[trigger] st.matches[k].a)
    &&& st.verbatim > 0 ==> st.verbatim_type == Comp::Verbatim
}

proof fn lemma_between_inline_only(t: Seq<u8>, st: InlineState, pos: usize, c: u8, annotation: Comp, defaultmatch: Atom)
    requires
        inline_only(st),
        !is_block_comp(annotation),
    ensures
        inline_only(spec_between(t, st, pos, c, annotation, defaultmatch).0),
{
}

proof fn lemma_verbatim_opener_inline_only(t: Seq<u8>, st: InlineState, pos: usize, endpos: usize)
    requires
        inline_only(st),
    ensures
        inline_only(spec_verbatim_opener(t, st, pos, endpos).0),
{
}

proof fn lemma_trimmed_inline_only(t: Seq<u8>, st: InlineState)
    requires
        inline_only(st),
    ensures
        inline_only(trailing_trimmed(t, st)),
{
}

proof fn lemma_backslash_inline_only(t: Seq<u8>, st: InlineState, pos: usize, endpos: usize)
    requires
        inline_only(st),
    ensures
        inline_only(spec_backslash(t, st, pos, endpos).0),
{
    let st1 = put_match(st, pos, (pos + 1) as usize, Annot::Atom(Atom::Escape));
    assert(inline_only(st1));
    lemma_trimmed_inline_only(t, st1);
    let m = spec_bounded_find(t, "^[ \t]*\r?\n", (pos + 1) as usize, endpos);
    if !m.is_match {
        let m2 = spec_bounded_find(t, "^[%p ]", (pos + 1) as usize, endpos);
        if m2.is_match {
            let st2 = put_match(st1, pos, (pos + 1) as usize, Annot::Atom(Atom::Escape));
            assert(inline_only(st2));
        }
    }
}

proof fn lemma_angle_inline_only(t: Seq<u8>, st: InlineState, pos: usize, endpos: usize)
    requires
        inline_only(st),
    ensures
        inline_only(spec_angle(t, st, pos, endpos).0),
{
}

proof fn lemma_open_bracket_inline_only(t: Seq<u8>, st: InlineState, pos: usize, endpos: usize)
    requires
        inline_only(st),
    ensures
        inline_only(spec_open_bracket(t, st, pos, endpos).0),
{
}

proof fn lemma_close_bracket_inline_only(t: Seq<u8>, st: InlineState, pos: usize, endpos: usize)
    requires
        inline_only(st),
    ensures
        inline_only(spec_close_bracket(t, st, pos, endpos).0),
{
}

proof fn lemma_open_paren_inline_only(t: Seq<u8>, st: InlineState, pos: usize, endpos: usize)
    requires
        inline_only(st),
    ensures
        inline_only(spec_open_paren(t, st, pos, endpos).0),
{
}

proof fn lemma_close_paren_inline_only(t: Seq<u8>, st: InlineState, pos: usize, endpos: usize)
    requires
        inline_only(st),
    ensures
        inline_only(spec_close_paren(t, st, pos, endpos).0),
{
}

proof fn lemma_open_brace_inline_only(t: Seq<u8>, st: InlineState, pos: usize, endpos: usize)
    requires
        inline_only(st),
    ensures
        inline_only(spec_open_brace(t, st, pos, endpos).0),
{
}

proof fn lemma_colon_inline_only(t: Seq<u8>, st: InlineState, pos: usize, endpos: usize)
    requires
        inline_only(st),
    ensures
        inline_only(spec_colon(t, st, pos, endpos).0),
{
}

proof fn lemma_dot_inline_only(t: Seq<u8>, st: InlineState, pos: usize, endpos: usize)
    requires
        inline_only(st),
    ensures
        inline_only(spec_dot(t, st, pos, endpos).0),
{
}

/// A matcher step keeps the inline parser free of block annotations.
proof fn lemma_matchers_inline_only(t: Seq<u8>, st: InlineState, c: u8, pos: usize, endpos: usize)
    requires
        inline_only(st),
    ensures
        inline_only(spec_matchers(t, st, c, pos, endpos).0),
{
    if c == 96 {
        lemma_verbatim_opener_inline_only(t, st, pos, endpos);
    } else if c == 92 {
        lemma_backslash_inline_only(t, st, pos, endpos);
    } else if c == 60 {
        lemma_angle_inline_only(t, st, pos, endpos);
    } else if c == 126 {
        lemma_between_inline_only(t, st, pos, c, Comp::Subscript, Atom::Str);
    } else if c == 94 {
        lemma_between_inline_only(t, st, pos, c, Comp::Superscript, Atom::Str);
    } else if c == 91 {
        lemma_open_bracket_inline_only(t, st, pos, endpos);
    } else if c == 93 {
        lemma_close_bracket_inline_only(t, st, pos, endpos);
    } else if c == 40 {
        lemma_open_paren_inline_only(t, st, pos, endpos);
    } else if c == 41 {
        lemma_close_paren_inline_only(t, st, pos, endpos);
    } else if c == 95 {
        lemma_between_inline_only(t, st, pos, c, Comp::Emph, Atom::Str);
    } else if c == 42 {
        lemma_between_inline_only(t, st, pos, c, Comp::Strong, Atom::Str);
    } else if c == 123 {
        lemma_open_brace_inline_only(t, st, pos, endpos);
    } else if c == 58 {
        lemma_colon_inline_only(t, st, pos, endpos);
    } else if c == 34 {
        lemma_between_inline_only(t, st, pos, c, Comp::DoubleQuoted, Atom::LeftDoubleQuote);
    } else if c == 46 {
        lemma_dot_inline_only(t, st, pos, endpos);
    }
}

/// A step keeps the inline parser free of block annotations.
proof fn lemma_step_inline_only(t: Seq<u8>, st: InlineState, pos: usize, endpos: usize)
    requires
        inline_only(st),
        pos < t.len(),
    ensures
        inline_only(spec_step(t, st, pos, endpos).0),
{
    lemma_matchers_inline_only(t, st, t[pos as int], pos, endpos);
}

/// Scanning keeps the inline parser free of block annotations.
pub proof fn lemma_scan_inline_only(t: Seq<u8>, st: InlineState, pos: usize, endpos: usize)
    requires
        inline_only(st),
    ensures
        inline_only(spec_scan(t, st, pos, endpos)),
    decreases endpos - pos,
{
    if pos < endpos {
        let m = spec_bounded_find(t, "[%]%[\\`{}_*()!<>~^:=+$\r\n'\".-]", pos, endpos);
        let newpos = if m.is_match { m.start } else { endpos };
        let st1 = if newpos > pos { put_match(st, pos, newpos, Annot::Atom(Atom::Str)) } else { st };
        let p1 = if newpos > pos { newpos } else { pos };
        if p1 < t.len() {
            lemma_step_inline_only(t, st1, p1, endpos);
            let (st2, p2) = spec_step(t, st1, p1, endpos);
            if p2 > pos && p2 < endpos {
                lemma_scan_inline_only(t, st2, p2, endpos);
            }
        }
    }
}

/// What every inline step keeps: the parser stays well formed and keeps its subject.
pub open spec fn keeps(a: &Parser, b: &Parser) -> bool {
    &&& b.wf()
    &&& b.subject == a.subject
    &&& b.opts == a.opts
    &&& b.firstpos == a.firstpos
    &&& b.lastpos == a.lastpos
}

impl Parser {
    /// A run of `c` at `pos` may open or close `annotation`; otherwise it is annotated with
    /// `defaultmatch`. Returns the position after what it consumed.
    fn between_matched(&mut self, pos: usize, c: u8, annotation: Comp, defaultmatch: Atom) -> (r: usize)
        requires
            old(self).wf(),
            opener_key(c),
            pos < old(self).text().len(),
        ensures
            keeps(old(self), final(self)),
            pos < r <= pos + 2,
            (final(self).state(), r) == spec_between(old(self).text(), old(self).state(), pos, c, annotation, defaultmatch),
    {
        let len = self.len();
        let mut can_open = find_at(self.subject.as_str(), "^%S", pos + 1).is_match;
        let mut can_close = !(pos > 0 && {
            let b = self.byte(pos - 1);
            b == 32 || b == 10 || b == 9
        });
        let has_open_marker = pos != 0 && match self.matches.get(&(pos - 1)) {
            Some(it) => it.is(Annot::Atom(Atom::OpenMarker)),
            None => false,
        };
        let hash_close_marker = pos + 1 < len && self.byte(pos + 1) == 125;
        let mut endcloser = pos;
        let mut startopener = pos;

        // explicit open/close markers override
        if has_open_marker {
            can_open = true;
            can_close = false;
            startopener = pos - 1;
        }
        if !has_open_marker && hash_close_marker {
            can_close = true;
            can_open = false;
            endcloser = pos + 1;
        }

        let ghost st0 = self.state();
        let openers = self.take_openers(c);
        if can_close && openers.len() > 0 {
            // check openers for a match
            let opener = openers[openers.len() - 1];
            self.put_openers(c, openers);
            assert(self.state().openers =~= put_openers(st0, c, openers_of(st0, c)).openers);
            // exclude empty emph
            if opener.epos + 1 != pos {
                self.clear_openers(opener.spos, pos);
                self.add_match(opener.spos, opener.epos, Annot::Add(annotation));
                self.add_match(pos, endcloser, Annot::Sub(annotation));
                return endcloser + 1;
            }
        } else {
            self.put_openers(c, openers);
            assert(self.state().openers =~= put_openers(st0, c, openers_of(st0, c)).openers);
        }
        // if we get here, we didn't match an opener
        if can_open {
            self.add_opener(c, Opener::new(startopener, pos));
            self.add_match(startopener, pos + 1, Annot::Atom(defaultmatch));
            pos + 1
        } else {
            self.add_match(startopener, endcloser + 1, Annot::Atom(defaultmatch));
            endcloser + 1
        }
    }

    /// Whether a link or image whose text opens at `spos` is an image: `!` precedes it.
    fn is_image_at(&self, spos: usize) -> (r: bool)
        requires
            spos <= self.text().len(),
        ensures
            r ==> spos >= 1,
            r == (spos >= 1 && self.text()[spos - 1] == 33 && !(spos >= 2 && self.text()[spos - 2] == 91
                && self.text()[spos - 1] == 93)),
    {
        spos >= 1 && self.byte(spos - 1) == 33 && !(spos >= 2 && self.byte(spos - 2) == 91
            && self.byte(spos - 1) == 93)
    }

    /// Adds the matches of a link or image whose opener is `opener`.
    fn add_link_text(&mut self, opener: Opener)
        requires
            old(self).wf(),
            opener.wf(),
            opener.annot != OpenerKind::Plain,
            opener.spos <= old(self).text().len(),
        ensures
            keeps(old(self), final(self)),
            final(self).verbatim == old(self).verbatim,
            final(self).destination == old(self).destination,
            final(self).state() == link_text(old(self).text(), old(self).state(), opener),
    {
        let is_image = self.is_image_at(opener.spos);
        if is_image {
            self.add_match(opener.spos - 1, opener.spos, Annot::Atom(Atom::ImageMarker));
            self.add_match(opener.spos, opener.epos, Annot::Add(Comp::Imagetext));
            self.add_match(opener.subspos, opener.subepos, Annot::Sub(Comp::Imagetext));
        } else {
            self.add_match(opener.spos, opener.epos, Annot::Add(Comp::Linktext));
            self.add_match(opener.subspos, opener.subepos, Annot::Sub(Comp::Linktext));
        }
    }

    /// Inline syntax that starts with backtick at `pos`.
    #[verifier::rlimit(30)]
    fn match_verbatim_opener(&mut self, pos: usize, endpos: usize) -> (r: Option<usize>)
        requires
            old(self).wf(),
            pos <= endpos,
            pos < old(self).text().len(),
            endpos <= old(self).text().len(),
        ensures
            keeps(old(self), final(self)),
            r matches Some(np) ==> pos < np <= old(self).text().len() + 3,
            (final(self).state(), r) == spec_verbatim_opener(old(self).text(), old(self).state(), pos, endpos),
    {
        let m = bounded_find(self.subject.as_str(), "^`*", pos, endpos);
        if !m.is_match || m.end <= pos {
            return None;
        }
        self.add_match(pos, m.end, Annot::Add(Comp::Verbatim));
        self.verbatim_type = Comp::Verbatim;
        self.verbatim = m.end - pos;
        Some(m.end)
    }

    /// Gives back the spaces and tabs at the end of a plain string that ends the matches so
    /// far; drops the string when nothing is left of it.
    fn trim_trailing(&mut self)
        requires
            old(self).wf(),
        ensures
            keeps(old(self), final(self)),
            final(self).state() == trailing_trimmed(old(self).text(), old(self).state()),
    {
        let len = self.len();
        let last = self.last_match();
        proof {
            match last {
                Some(m) => lemma_last_of(self.matches@, m),
                None => lemma_last_of_none(self.matches@),
            }
        }
        if let Some(mm) = last {
            let sp = mm.s;
            let mut ep = mm.e;
            if mm.is(Annot::Atom(Atom::Str)) && sp <= ep {
                while ep > sp && ep < len && (self.byte(ep) == 32 || self.byte(ep) == 9)
                    invariant
                        sp <= ep,
                        len == self.text().len(),
                        trim_back(self.text(), sp, ep) == trim_back(self.text(), sp, mm.e),
                    decreases ep,
                {
                    ep = ep - 1;
                }
                if sp == ep {
                    self.matches.remove(&sp);
                    assert(self.state().matches =~= old(self).state().matches.remove(sp));
                } else {
                    self.add_match(sp, ep, Annot::Atom(Atom::Str));
                }
            }
        }
    }

    /// Inline syntax that starts with backslash at `pos`.
    #[verifier::rlimit(30)]
    fn match_backslash(&mut self, pos: usize, endpos: usize) -> (r: Option<usize>)
        requires
            old(self).wf(),
            pos <= endpos,
            pos < old(self).text().len(),
            endpos <= old(self).text().len(),
        ensures
            keeps(old(self), final(self)),
            r matches Some(np) ==> pos < np <= old(self).text().len() + 3,
            (final(self).state(), r) == spec_backslash(old(self).text(), old(self).state(), pos, endpos),
    {
        let m = bounded_find(self.subject.as_str(), "^[ \t]*\r?\n", pos + 1, endpos);
        self.add_match(pos, pos + 1, Annot::Atom(Atom::Escape));
        if m.is_match {
            // see if there were preceding spaces
            self.trim_trailing();
            self.add_match(pos + 1, m.end, Annot::Atom(Atom::Hardbreak));
            Some(m.end)
        } else {
            let m = bounded_find(self.subject.as_str(), "^[%p ]", pos + 1, endpos);
            if !m.is_match {
                self.add_match(pos, pos + 1, Annot::Atom(Atom::Str));
                Some(pos + 1)
            } else {
                self.add_match(pos, pos + 1, Annot::Atom(Atom::Escape));
                if find_at(self.subject.as_str(), "^ ", pos + 1).is_match {
                    self.add_match(pos + 1, m.end, Annot::Atom(Atom::Nbsp));
                } else {
                    self.add_match(pos + 1, m.end, Annot::Atom(Atom::Str));
                }
                if m.end <= pos {
                    return None;
                }
                Some(m.end)
            }
        }
    }

    /// Inline syntax that starts with `<` at `pos`.
    #[verifier::rlimit(30)]
    fn match_angle(&mut self, pos: usize, endpos: usize) -> (r: Option<usize>)
        requires
            old(self).wf(),
            pos <= endpos,
            pos < old(self).text().len(),
            endpos <= old(self).text().len(),
        ensures
            keeps(old(self), final(self)),
            r matches Some(np) ==> pos < np <= old(self).text().len() + 3,
            (final(self).state(), r) == spec_angle(old(self).text(), old(self).state(), pos, endpos),
    {
        let url = bounded_find(self.subject.as_str(), "^%<[^<>%s]+%>", pos, endpos);
        if url.is_match && url.end >= url.start + 2 && url.start >= pos {
            let is_url = bounded_find(self.subject.as_str(), "^%a+:", pos + 1, url.end).is_match;
            let is_email = bounded_find(self.subject.as_str(), "^[^:]+%@", pos + 1, url.end).is_match;
            if is_email {
                self.add_match(url.start, url.start + 1, Annot::Add(Comp::Email));
                self.add_match(url.start + 1, url.end - 1, Annot::Atom(Atom::Str));
                self.add_match(url.end - 1, url.end, Annot::Sub(Comp::Email));
                return Some(url.end);
            } else if is_url {
                self.add_match(url.start, url.start + 1, Annot::Add(Comp::Url));
                self.add_match(url.start + 1, url.end - 1, Annot::Atom(Atom::Str));
                self.add_match(url.end - 1, url.end, Annot::Sub(Comp::Url));
                return Some(url.end);
            }
        }
        None
    }

    /// Inline syntax that starts with `[` at `pos`.
    #[verifier::rlimit(30)]
    fn match_open_bracket(&mut self, pos: usize, endpos: usize) -> (r: Option<usize>)
        requires
            old(self).wf(),
            pos <= endpos,
            pos < old(self).text().len(),
            endpos <= old(self).text().len(),
        ensures
            keeps(old(self), final(self)),
            r matches Some(np) ==> pos < np <= old(self).text().len() + 3,
            (final(self).state(), r) == spec_open_bracket(old(self).text(), old(self).state(), pos, endpos),
    {
        let m = bounded_find(self.subject.as_str(), "^%^([^]]+)%]", pos + 1, endpos);
        if m.is_match {
            self.add_match(pos, m.end, Annot::Atom(Atom::FootnoteReference));
            if m.end <= pos {
                return None;
            }
            Some(m.end)
        } else {
            self.add_opener(91, Opener::new(pos, pos + 1));
            self.add_match(pos, pos + 1, Annot::Atom(Atom::Str));
            Some(pos + 1)
        }
    }

    /// Inline syntax that starts with `]` at `pos`.
    #[verifier::rlimit(30)]
    fn match_close_bracket(&mut self, pos: usize, endpos: usize) -> (r: Option<usize>)
        requires
            old(self).wf(),
            pos <= endpos,
            pos < old(self).text().len(),
            endpos <= old(self).text().len(),
        ensures
            keeps(old(self), final(self)),
            r matches Some(np) ==> pos < np <= old(self).text().len() + 3,
            (final(self).state(), r) == spec_close_bracket(old(self).text(), old(self).state(), pos, endpos),
    {
        let len = self.len();

        let mut openers = self.take_openers(91);
        if openers.len() > 0 {
            let last = openers.len() - 1;
            let opener = openers[last];
            if opener.annot == OpenerKind::ReferenceLink {
                self.put_openers(91, openers);
                // found a reference link: add the matches
                if opener.spos <= len {
                    self.add_link_text(opener);
                }
                self.add_match(opener.subepos - 1, opener.subepos, Annot::Add(Comp::Reference));
                self.add_match(pos, pos, Annot::Sub(Comp::Reference));
                // convert all matches to str
                self.str_matches(opener.subepos + 1, pos);
                // remove from openers
                self.clear_openers(opener.spos, pos);
                return Some(pos + 1);
            } else if bounded_find(self.subject.as_str(), "^[%[]", pos + 1, endpos).is_match {
                openers.set(last, Opener { annot: OpenerKind::ReferenceLink, subspos: pos, subepos: pos + 2, ..opener });
                self.put_openers(91, openers);
                self.add_match(pos, pos + 2, Annot::Atom(Atom::Str));
                return Some(pos + 2);
            } else if bounded_find(self.subject.as_str(), "^[(]", pos + 1, endpos).is_match {
                openers.set(last, Opener { annot: OpenerKind::ExplicitLink, subspos: pos, subepos: pos + 2, ..opener });
                self.put_openers(91, openers);
                // clear ( openers
                let _ = self.take_openers(40);
                self.destination = true;
                self.add_match(pos, pos + 2, Annot::Atom(Atom::Str));
                return Some(pos + 2);
            }
        }
        self.put_openers(91, openers);
        None
    }

    /// Inline syntax that starts with `(` at `pos`.
    #[verifier::rlimit(30)]
    fn match_open_paren(&mut self, pos: usize, endpos: usize) -> (r: Option<usize>)
        requires
            old(self).wf(),
            pos <= endpos,
            pos < old(self).text().len(),
            endpos <= old(self).text().len(),
        ensures
            keeps(old(self), final(self)),
            r matches Some(np) ==> pos < np <= old(self).text().len() + 3,
            (final(self).state(), r) == spec_open_paren(old(self).text(), old(self).state(), pos, endpos),
    {
        if !self.destination {
            return None;
        }
        self.add_opener(40, Opener::new(pos, pos + 1));
        self.add_match(pos, pos + 1, Annot::Atom(Atom::Str));
        Some(pos + 1)
    }

    /// Inline syntax that starts with `)` at `pos`.
    #[verifier::rlimit(30)]
    fn match_close_paren(&mut self, pos: usize, endpos: usize) -> (r: Option<usize>)
        requires
            old(self).wf(),
            pos <= endpos,
            pos < old(self).text().len(),
            endpos <= old(self).text().len(),
        ensures
            keeps(old(self), final(self)),
            r matches Some(np) ==> pos < np <= old(self).text().len() + 3,
            (final(self).state(), r) == spec_close_paren(old(self).text(), old(self).state(), pos, endpos),
    {
        let len = self.len();

        if !self.destination {
            return None;
        }
        let mut parens = self.take_openers(40);
        if parens.len() > 0 {
            parens.pop();
            self.put_openers(40, parens);
            self.add_match(pos, pos + 1, Annot::Atom(Atom::Str));
            Some(pos + 1)
        } else {
            self.put_openers(40, parens);
            let openers = self.take_openers(91);
            let lastop = if openers.len() > 0 {
                Some(openers[openers.len() - 1])
            } else {
                None
            };
            self.put_openers(91, openers);
            if let Some(opener) = lastop {
                if opener.annot == OpenerKind::ExplicitLink {
                    let startdest = opener.subepos - 1;
                    let enddest = pos;
                    // we have an inline link
                    if opener.spos <= len {
                        self.add_link_text(opener);
                    }
                    self.add_match(startdest, startdest + 1, Annot::Add(Comp::Destination));
                    self.add_match(enddest, enddest + 1, Annot::Sub(Comp::Destination));
                    self.destination = false;
                    // convert all matches to str
                    self.str_matches(opener.subepos + 1, pos);
                    // remove from openers
                    self.clear_openers(opener.spos, pos);
                    return Some(enddest + 1);
                }
            }
            None
        }
    }

    /// Inline syntax that starts with `{` at `pos`.
    #[verifier::rlimit(30)]
    fn match_open_brace(&mut self, pos: usize, endpos: usize) -> (r: Option<usize>)
        requires
            old(self).wf(),
            pos <= endpos,
            pos < old(self).text().len(),
            endpos <= old(self).text().len(),
        ensures
            keeps(old(self), final(self)),
            r matches Some(np) ==> pos < np <= old(self).text().len() + 3,
            (final(self).state(), r) == spec_open_brace(old(self).text(), old(self).state(), pos, endpos),
    {
        // an open marker
        let next = if pos + 1 < endpos {
            self.byte(pos + 1)
        } else {
            0
        };
        if next == 95 || next == 42 || next == 94 || next == 43 || next == 61 || next == 39
            || next == 34 || next == 45 {
            self.add_match(pos, pos + 1, Annot::Atom(Atom::OpenMarker));
        } else {
            self.add_match(pos, pos + 1, Annot::Atom(Atom::Str));
        }
        Some(pos + 1)
    }

    /// Inline syntax that starts with `:` at `pos`.
    #[verifier::rlimit(30)]
    fn match_colon(&mut self, pos: usize, endpos: usize) -> (r: Option<usize>)
        requires
            old(self).wf(),
            pos <= endpos,
            pos < old(self).text().len(),
            endpos <= old(self).text().len(),
        ensures
            keeps(old(self), final(self)),
            r matches Some(np) ==> pos < np <= old(self).text().len() + 3,
            (final(self).state(), r) == spec_colon(old(self).text(), old(self).state(), pos, endpos),
    {
        let m = bounded_find(self.subject.as_str(), "^%:[%w_+-]+%:", pos, endpos);
        if m.is_match && m.end > pos {
            self.add_match(m.start, m.end, Annot::Atom(Atom::Emoji));
            Some(m.end)
        } else {
            self.add_match(pos, pos + 1, Annot::Atom(Atom::Str));
            Some(pos + 1)
        }
    }

    /// Inline syntax that starts with `.` at `pos`.
    #[verifier::rlimit(30)]
    fn match_dot(&mut self, pos: usize, endpos: usize) -> (r: Option<usize>)
        requires
            old(self).wf(),
            pos <= endpos,
            pos < old(self).text().len(),
            endpos <= old(self).text().len(),
        ensures
            keeps(old(self), final(self)),
            r matches Some(np) ==> pos < np <= old(self).text().len() + 3,
            (final(self).state(), r) == spec_dot(old(self).text(), old(self).state(), pos, endpos),
    {
        if bounded_find(self.subject.as_str(), "^%.%.", pos + 1, endpos).is_match {
            self.add_match(pos, pos + 3, Annot::Atom(Atom::Ellipses));
            return Some(pos + 3);
        }
        None
    }

    /// Handles the byte `c` at `pos` when it may start inline syntax. Returns the position
    /// after what it consumed, or `None` when `c` is to be read as plain text.
    fn matchers(&mut self, c: u8, pos: usize, endpos: usize) -> (r: Option<usize>)
        requires
            old(self).wf(),
            pos <= endpos,
            pos < old(self).text().len(),
            endpos <= old(self).text().len(),
        ensures
            keeps(old(self), final(self)),
            r matches Some(np) ==> pos < np <= old(self).text().len() + 3,
            (final(self).state(), r) == spec_matchers(old(self).text(), old(self).state(), c, pos, endpos),
    {
        if c == 96 {
            self.match_verbatim_opener(pos, endpos)
        } else if c == 92 {
            self.match_backslash(pos, endpos)
        } else if c == 60 {
            self.match_angle(pos, endpos)
        } else if c == 126 {
            Some(self.between_matched(pos, 126, Comp::Subscript, Atom::Str))
        } else if c == 94 {
            Some(self.between_matched(pos, 94, Comp::Superscript, Atom::Str))
        } else if c == 91 {
            self.match_open_bracket(pos, endpos)
        } else if c == 93 {
            self.match_close_bracket(pos, endpos)
        } else if c == 40 {
            self.match_open_paren(pos, endpos)
        } else if c == 41 {
            self.match_close_paren(pos, endpos)
        } else if c == 95 {
            Some(self.between_matched(pos, 95, Comp::Emph, Atom::Str))
        } else if c == 42 {
            Some(self.between_matched(pos, 42, Comp::Strong, Atom::Str))
        } else if c == 123 {
            self.match_open_brace(pos, endpos)
        } else if c == 58 {
            self.match_colon(pos, endpos)
        } else if c == 34 {
            Some(self.between_matched(pos, 34, Comp::DoubleQuoted, Atom::LeftDoubleQuote))
        } else if c == 46 {
            self.match_dot(pos, endpos)
        } else {
            // `+`, `=`, `'` and `-` have no inline syntax yet
            None
        }
    }

    fn single_char(&mut self, pos: usize) -> (r: usize)
        requires
            old(self).wf(),
            pos <= old(self).text().len(),
        ensures
            keeps(old(self), final(self)),
            final(self).matches@ == old(self).matches@.insert(pos, Match { s: pos, e: (pos + 1) as usize, a: Annot::Atom(Atom::Str) }),
            final(self).state() == put_match(old(self).state(), pos, (pos + 1) as usize, Annot::Atom(Atom::Str)),
            r == pos + 1,
    {
        self.add_match(pos, pos + 1, Annot::Atom(Atom::Str));
        pos + 1
    }

    /// Handles the byte at `pos`, where the scan stopped; returns the position after.
    fn step(&mut self, pos: usize, endpos: usize) -> (r: usize)
        requires
            old(self).wf(),
            pos <= endpos <= old(self).text().len(),
            pos < old(self).text().len(),
        ensures
            keeps(old(self), final(self)),
            (final(self).state(), r) == spec_step(old(self).text(), old(self).state(), pos, endpos),
            pos < r <= old(self).text().len() + 3,
    {
        let c = self.byte(pos);
        if c == 13 || c == 10 {
            if c == 13 && bounded_find(self.subject.as_str(), "^[%n]", pos + 1, endpos).is_match {
                self.add_match(pos, pos + 2, Annot::Atom(Atom::Softbreak));
                pos + 2
            } else {
                self.add_match(pos, pos + 1, Annot::Atom(Atom::Softbreak));
                pos + 1
            }
        } else if self.verbatim > 0 {
            if c == 96 {
                let m = bounded_find(self.subject.as_str(), "^`+", pos, endpos);
                if m.is_match && m.end - pos == self.verbatim {
                    self.add_match(pos, m.end, Annot::Sub(self.verbatim_type));
                    self.verbatim = 0;
                    self.verbatim_type = Comp::default_comp();
                    if m.end > pos {
                        m.end
                    } else {
                        pos + 1
                    }
                } else {
                    let endchar = m.end_or(endpos);
                    self.add_match(pos, endchar, Annot::Atom(Atom::Str));
                    if endchar > pos {
                        endchar
                    } else {
                        pos + 1
                    }
                }
            } else {
                self.add_match(pos, pos + 1, Annot::Atom(Atom::Str));
                pos + 1
            }
        } else {
            match self.matchers(c, pos, endpos) {
                Some(np) => np,
                None => self.single_char(pos),
            }
        }
    }

    /// Feeds the parser the bytes `spos..endpos` of the subject, and the byte at `endpos`
    /// when the scan reaches it.
    pub fn feed(&mut self, spos: usize, endpos: usize)
        requires
            old(self).wf(),
            spos <= endpos <= old(self).text().len(),
        ensures
            final(self).wf(),
            final(self).subject == old(self).subject,
            final(self).opts == old(self).opts,
            final(self).firstpos == if spos < old(self).firstpos { spos } else { old(self).firstpos },
            final(self).lastpos == if endpos > old(self).lastpos { endpos } else { old(self).lastpos },
            final(self).state() == spec_scan(old(self).text(), old(self).state(), spos, endpos),
    {
        let special = "[%]%[\\`{}_*()!<>~^:=+$\r\n'\".-]";
        let len = self.len();
        if spos < self.firstpos {
            self.firstpos = spos;
        }
        if endpos > self.lastpos {
            self.lastpos = endpos;
        }
        let ghost fp = self.firstpos;
        let ghost lp = self.lastpos;
        let mut pos = spos;
        while pos < endpos
            invariant
                self.wf(),
                self.subject == old(self).subject,
                self.opts == old(self).opts,
                self.firstpos == fp,
                self.lastpos == lp,
                len == self.text().len(),
                spos <= pos,
                endpos <= len,
                special@ == "[%]%[\\`{}_*()!<>~^:=+$\r\n'\".-]"@,
                pos <= endpos ==> spec_scan(self.text(), self.state(), pos, endpos) == spec_scan(
                    old(self).text(),
                    old(self).state(),
                    spos,
                    endpos,
                ),
                pos > endpos ==> self.state() == spec_scan(old(self).text(), old(self).state(), spos, endpos),
            ensures
                pos >= endpos,
                self.wf(),
                self.subject == old(self).subject,
                self.opts == old(self).opts,
                self.firstpos == fp,
                self.lastpos == lp,
                pos <= endpos ==> spec_scan(self.text(), self.state(), pos, endpos) == spec_scan(
                    old(self).text(),
                    old(self).state(),
                    spos,
                    endpos,
                ),
                pos > endpos ==> self.state() == spec_scan(old(self).text(), old(self).state(), spos, endpos),
            decreases len + 8 - pos,
        {
            // find next interesting character:
            let newpos = bounded_find(self.subject.as_str(), special, pos, endpos).or(endpos);
            if newpos > pos {
                self.add_match(pos, newpos, Annot::Atom(Atom::Str));
                pos = newpos;
            }
            if pos >= len {
                break;
            }
            // if we get here, then newpos = pos,
            // i.e. we have something interesting at pos
            pos = self.step(pos, endpos);
        }
        proof {
            if pos <= endpos {
                assert(spec_scan(self.text(), self.state(), pos, endpos) == self.state());
            }
        }
    }
}



/// The matches that start in `first..i`, in order, with each plain string that starts where
/// the previous plain string ends merged into it.
pub open spec fn collected(ms: Map<usize, Match>, first: int, i: int) -> Seq<Match>
    decreases i - first,
{
    if i <= first {
        Seq::empty()
    } else {
        let prev = collected(ms, first, i - 1);
        let k = (i - 1) as usize;
        if !ms.contains_key(k) {
            prev
        } else {
            let m = ms[k];
            if m.a == Annot::Atom(Atom::Str) && prev.len() > 0 && prev.last().a == Annot::Atom(Atom::Str)
                && prev.last().e == m.s {
                prev.update(prev.len() - 1, Match { e: m.e, ..prev.last() })
            } else {
                prev.push(m)
            }
        }
    }
}

/// The matches the parser hands out: those from `first` to `last`, collected, without a
/// final soft break, and with an unclosed verbatim closed where the last match ends.
pub open spec fn spec_get_matches(st: InlineState, first: usize, last: usize) -> Seq<Match> {
    let s = collected(st.matches, first as int, last + 1);
    if s.len() == 0 {
        s
    } else {
        let s2 = if s.last().a == Annot::Atom(Atom::Softbreak) { s.drop_last() } else { s };
        if st.verbatim > 0 && s2.len() > 0 {
            s2.push(Match { s: s2.last().e, e: s2.last().e, a: Annot::Sub(st.verbatim_type) })
        } else {
            s2
        }
    }
}

/// Collecting matches that open and close no block container gives such matches.
proof fn lemma_collected_inline_only(ms: Map<usize, Match>, first: int, i: int)
    requires
        forall|k: usize| ms.contains_key(k) ==> !is_block_annot(#[trigger] ms[k].a),
    ensures
        forall|j: int| 0 <= j < collected(ms, first, i).len() ==> !is_block_annot(
            #[trigger] collected(ms, first, i)[j].a,
        ),
    decreases i - first,
{
    if i > first {
        lemma_collected_inline_only(ms, first, i - 1);
    }
}

/// The matches that the inline parser hands out open and close no block container.
pub proof fn lemma_get_matches_inline_only(st: InlineState, first: usize, last: usize)
    requires
        inline_only(st),
    ensures
        forall|j: int| 0 <= j < spec_get_matches(st, first, last).len() ==> !is_block_annot(
            #[trigger] spec_get_matches(st, first, last)[j].a,
        ),
{
    lemma_collected_inline_only(st.matches, first as int, last + 1);
    let s = collected(st.matches, first as int, last + 1);
    if s.len() > 0 {
        let s2 = if s.last().a == Annot::Atom(Atom::Softbreak) { s.drop_last() } else { s };
        assert forall|j: int| 0 <= j < s2.len() implies !is_block_annot(#[trigger] s2[j].a) by {
            assert(s2[j] == s[j]);
        }
    }
}

/// Matches in order of their starts, each ending no earlier than it starts.
pub open spec fn sorted_matches(r: Seq<Match>) -> bool {
    &&& forall|i: int, j: int| #![trigger r[i], r[j]] 0 <= i < j < r.len() ==> r[i].s <= r[j].s
    &&& forall|i: int| 0 <= i < r.len() ==> (#[trigger] r[i]).s <= r[i].e
}

/// No plain string ends exactly where the next plain string starts.
pub open spec fn strs_merged(r: Seq<Match>) -> bool {
    forall|i: int, j: int|
        #![trigger r[i], r[j]]
        0 <= i && j == i + 1 && j < r.len() ==> !(r[i].a == Annot::Atom(Atom::Str) && r[j].a
            == Annot::Atom(Atom::Str) && r[i].e == r[j].s)
}

impl Parser {
    /// The matches of the map from `firstpos` to `lastpos`, in order, with touching plain
    /// strings merged.
    #[verifier::rlimit(50)]
    fn collect_matches(&self) -> (r: Vec<Match>)
        requires
            forall|k: usize| #[trigger] self.matches@.contains_key(k) ==> match_at(k, self.matches@[k]),
            self.lastpos + 8 <= usize::MAX,
            self.firstpos <= self.lastpos,
        ensures
            sorted_matches(r@),
            strs_merged(r@),
            r@ == collected(self.matches@, self.firstpos as int, self.lastpos + 1),
    {
        let mut sorted: Vec<Match> = Vec::new();
        let mut m_last = Match::new(0, 0, Annot::Atom(Atom::Ellipses));
        let mut i = self.firstpos;
        let last = self.lastpos;
        while i <= last
            invariant
                forall|k: usize| #[trigger] self.matches@.contains_key(k) ==> match_at(k, self.matches@[k]),
                last + 8 <= usize::MAX,
                sorted_matches(sorted@),
                strs_merged(sorted@),
                sorted@.len() > 0 ==> m_last == sorted@.last(),
                sorted@.len() == 0 ==> m_last.a == Annot::Atom(Atom::Ellipses),
                forall|j: int| 0 <= j < sorted@.len() ==> (#[trigger] sorted@[j]).s < i,
                i <= last + 1,
                self.firstpos <= i,
                last == self.lastpos,
                sorted@ == collected(self.matches@, self.firstpos as int, i as int),
            decreases last + 1 - i,
        {
            let found = self.matches.get(&i);
            if let Some(mr) = found {
                let m = *mr;
                assert(self.matches@.contains_key(i));
                assert(m.s == i && m.s <= m.e);
                if m.is(Annot::Atom(Atom::Str)) && m_last.is(Annot::Atom(Atom::Str)) && m_last.e == m.s {
                    let k = sorted.len() - 1;
                    let mut merged = sorted[k];
                    merged.e = m.e;
                    sorted.set(k, merged);
                    m_last.e = m.e;
                } else {
                    let ghost old_sorted = sorted@;
                    sorted.push(m);
                    m_last = m;
                    assert(forall|j: int| 0 <= j < old_sorted.len() ==> sorted@[j] == old_sorted[j]);
                }
            }
            i = i + 1;
        }
        sorted
    }

    /// The matches gathered so far in order of position, with touching plain strings merged
    /// into one, a final soft break dropped, and an unclosed verbatim closed at the end.
    pub fn get_matches(&mut self) -> (r: Vec<Match>)
        requires
            old(self).wf(),
        ensures
            *final(self) == *old(self),
            sorted_matches(r@),
            strs_merged(r@),
            r@ == spec_get_matches(old(self).state(), old(self).firstpos, old(self).lastpos),
    {
        let mut sorted = self.collect_matches();
        if sorted.len() > 0 {
            if sorted[sorted.len() - 1].is(Annot::Atom(Atom::Softbreak)) {
                // remove final softbreak
                sorted.pop();
            }
            if self.verbatim > 0 && sorted.len() > 0 {
                // unclosed verbatim
                let e = sorted[sorted.len() - 1].e;
                sorted.push(Match::new(e, e, Annot::Sub(self.verbatim_type)));
            }
        }
        sorted
    }
}

/// The state a search starts the matcher with.
spec fn search_start() -> crate::luapat::MState {
    (crate::luapat::MAXCCALLS as int, 0int, crate::luapat::init_caps())
}

/// `^%S` finds nothing where a space, tab, line break (or the end) comes first.
proof fn lemma_nonspace_refuses(t: Seq<u8>, start: usize)
    requires
        start <= t.len(),
        start == t.len() || crate::luapat::is_white(t[start as int]),
    ensures
        !spec_find(t, bytes_of("^%S"), start, false).is_match,
{
    reveal_strlit("^%S");
    crate::patterns::lemma_ascii_bytes("^%S");
    let pat = bytes_of("^%S");
    assert(pat =~= seq![94u8, 37u8, 83u8]);
    let src = t.subrange(start as int, t.len() as int);
    assert(crate::luapat::spec_classend(pat, 1) == Some(3int));
    crate::luapat::lemma_pm_refused_item(src, pat, search_start(), 0, 1, 3);
    crate::patterns::lemma_find_anchored_none(t, pat, start, false);
}

/// A delimiter (`*`, `_`, `^`, `~`, `"`) followed by a space, a tab or a line break opens
/// nothing, unless an explicit `{` before it asks for an opening: no opener is recorded for
/// it, so no span can start there. (It may still close a span opened before it.)
pub proof fn lemma_delimiter_before_space_opens_nothing(
    t: Seq<u8>,
    st: InlineState,
    pos: usize,
    c: u8,
    annotation: Comp,
    defaultmatch: Atom,
)
    requires
        pos + 1 < t.len() <= usize::MAX,
        t[pos + 1] == 32 || t[pos + 1] == 9 || t[pos + 1] == 10 || t[pos + 1] == 13,
        !(pos > 0 && st.matches.contains_key((pos - 1) as usize) && st.matches[(pos - 1) as usize].a
            == Annot::Atom(Atom::OpenMarker)),
    ensures
        openers_of(spec_between(t, st, pos, c, annotation, defaultmatch).0, c).len() <= openers_of(
            st,
            c,
        ).len(),
{
    assert(((pos + 1) as usize) as int == pos + 1);
    lemma_nonspace_refuses(t, (pos + 1) as usize);
    let ops = openers_of(st, c);
    let st1 = put_openers(st, c, ops);
    let close0 = !(pos > 0 && (t[pos - 1] == 32 || t[pos - 1] == 10 || t[pos - 1] == 9));
    if close0 && ops.len() > 0 && ops.last().epos + 1 != pos {
        let o = ops.last();
        let cl = cleared(st1, o.spos, pos);
        assert(openers_of(cl, c) == ops.filter(|x: Opener| !opener_within(x, o.spos, pos)));
        ops.lemma_filter_len(|x: Opener| !opener_within(x, o.spos, pos));
    }
}

/// `^[%p ]` finds nothing where an ASCII letter or digit (or the end) comes first.
proof fn lemma_punct_refuses(t: Seq<u8>, start: usize)
    requires
        start <= t.len(),
        start == t.len() || crate::luapat::is_alnum(t[start as int]),
    ensures
        !spec_find(t, bytes_of("^[%p ]"), start, false).is_match,
{
    reveal_strlit("^[%p ]");
    crate::patterns::lemma_ascii_bytes("^[%p ]");
    let pat = bytes_of("^[%p ]");
    assert(pat =~= seq![94u8, 91u8, 37u8, 112u8, 32u8, 93u8]);
    let src = t.subrange(start as int, t.len() as int);
    assert(crate::luapat::bracket_end(pat, 4) == Some(6int));
    assert(crate::luapat::bracket_end(pat, 2) == Some(6int));
    assert(crate::luapat::spec_classend(pat, 1) == Some(6int));
    if start < t.len() {
        assert(src[0] == t[start as int]);
        assert(!crate::luapat::bracket_items(src[0], pat, 5, 5));
        assert(!crate::luapat::bracket_items(src[0], pat, 4, 5));
        assert(!crate::luapat::bracket_items(src[0], pat, 2, 5));
    }
    crate::luapat::lemma_pm_refused_item(src, pat, search_start(), 0, 1, 6);
    crate::patterns::lemma_find_anchored_none(t, pat, start, false);
}

/// `^[ \t]*\r?\n` finds nothing where a byte other than a space, a tab or a line break (or
/// the end) comes first.
proof fn lemma_hardbreak_refuses(t: Seq<u8>, start: usize)
    requires
        start <= t.len(),
        start == t.len() || !(t[start as int] == 32 || t[start as int] == 9 || t[start as int] == 13
            || t[start as int] == 10),
    ensures
        !spec_find(t, bytes_of("^[ \t]*\r?\n"), start, false).is_match,
{
    reveal_strlit("^[ \t]*\r?\n");
    crate::patterns::lemma_ascii_bytes("^[ \t]*\r?\n");
    let pat = bytes_of("^[ \t]*\r?\n");
    assert(pat =~= seq![94u8, 91u8, 32u8, 9u8, 93u8, 42u8, 13u8, 63u8, 10u8]);
    let src = t.subrange(start as int, t.len() as int);
    let st0 = search_start();
    assert(crate::luapat::bracket_end(pat, 3) == Some(5int));
    assert(crate::luapat::bracket_end(pat, 2) == Some(5int));
    assert(crate::luapat::spec_classend(pat, 1) == Some(5int));
    if start < t.len() {
        assert(src[0] == t[start as int]);
        assert(!crate::luapat::bracket_items(src[0], pat, 4, 4));
        assert(!crate::luapat::bracket_items(src[0], pat, 3, 4));
        assert(!crate::luapat::bracket_items(src[0], pat, 2, 4));
    }
    crate::luapat::lemma_pm_refused_item(src, pat, st0, 0, 1, 5);
    assert(crate::luapat::spec_classend(pat, 6) == Some(7int));
    crate::luapat::lemma_pm_refused_item(src, pat, st0, 0, 6, 7);
    assert(crate::luapat::spec_classend(pat, 8) == Some(9int));
    crate::luapat::lemma_pm_refused_item(src, pat, st0, 0, 8, 9);
    crate::patterns::lemma_find_anchored_none(t, pat, start, false);
}

/// A backslash before an ASCII letter or digit escapes nothing: it stays plain text one byte
/// long, and the letter or digit is read on its own after it.
pub proof fn lemma_backslash_before_alnum(t: Seq<u8>, st: InlineState, pos: usize, endpos: usize)
    requires
        pos + 1 < t.len() <= usize::MAX,
        (48 <= t[pos + 1] <= 57) || (65 <= t[pos + 1] <= 90) || (97 <= t[pos + 1] <= 122),
    ensures
        spec_backslash(t, st, pos, endpos).1 == Some((pos + 1) as usize),
        spec_backslash(t, st, pos, endpos).0.matches == st.matches.insert(
            pos,
            Match { s: pos, e: (pos + 1) as usize, a: Annot::Atom(Atom::Str) },
        ),
        spec_backslash(t, st, pos, endpos).0.openers == st.openers,
{
    let p1 = (pos + 1) as usize;
    assert(p1 as int == pos + 1);
    lemma_hardbreak_refuses(t, p1);
    lemma_punct_refuses(t, p1);
    let st1 = put_match(st, pos, p1, Annot::Atom(Atom::Escape));
    assert(put_match(st1, pos, p1, Annot::Atom(Atom::Str)).matches =~= st.matches.insert(
        pos,
        Match { s: pos, e: p1, a: Annot::Atom(Atom::Str) },
    ));
}

/// Inside a link destination a `(` is kept as text and remembered, so that the `)` that
/// balances it is text of the destination as well and does not end it: after an open and a
/// close parenthesis the destination is still being read, both are plain text, and the
/// parentheses remembered are those from before.
pub proof fn lemma_destination_keeps_balanced_parens(
    t: Seq<u8>,
    st: InlineState,
    pos: usize,
    q: usize,
    endpos: usize,
    endpos2: usize,
)
    requires
        st.destination,
        pos != q,
        pos + 1 <= usize::MAX,
        q + 1 <= usize::MAX,
    ensures
        ({
            let (st1, r1) = spec_open_paren(t, st, pos, endpos);
            let (st2, r2) = spec_close_paren(t, st1, q, endpos2);
            &&& r1 == Some((pos + 1) as usize)
            &&& r2 == Some((q + 1) as usize)
            &&& st2.destination
            &&& st2.matches[pos] == Match { s: pos, e: (pos + 1) as usize, a: Annot::Atom(Atom::Str) }
            &&& st2.matches[q] == Match { s: q, e: (q + 1) as usize, a: Annot::Atom(Atom::Str) }
            &&& openers_of(st2, 40) == openers_of(st, 40)
        }),
{
    let (st1, r1) = spec_open_paren(t, st, pos, endpos);
    assert(openers_of(st1, 40) == openers_of(st, 40).push(new_opener(pos, (pos + 1) as usize)));
    assert(openers_of(st1, 40).drop_last() =~= openers_of(st, 40));
}

/// `^%S` finds the first byte where it is not whitespace.
proof fn lemma_nonspace_admits(t: Seq<u8>, start: usize)
    requires
        start < t.len(),
        t.len() + 8 <= usize::MAX,
        !crate::luapat::is_white(t[start as int]),
    ensures
        spec_find(t, bytes_of("^%S"), start, false).is_match,
        spec_find(t, bytes_of("^%S"), start, false).start == start,
{
    reveal_strlit("^%S");
    crate::patterns::lemma_ascii_bytes("^%S");
    let pat = bytes_of("^%S");
    assert(pat =~= seq![94u8, 37u8, 83u8]);
    let src = t.subrange(start as int, t.len() as int);
    assert(src[0] == t[start as int]);
    let caps = crate::luapat::init_caps();
    assert(crate::luapat::spec_check(pat, 3, 0, Seq::empty(), caps) == Ok::<(), Seq<char>>(()));
    assert(crate::luapat::spec_check(pat, 1, 0, Seq::empty(), caps) == Ok::<(), Seq<char>>(()));
    assert(crate::luapat::spec_classend(pat, 1) == Some(3int));
    crate::luapat::lemma_pm_last_item_admits(src, pat, search_start(), 0, 1);
    crate::patterns::lemma_find_anchored_first_byte(t, pat, start, false);
}

/// A delimiter followed by a byte that is not whitespace (nor the `}` of an explicit closing),
/// with no earlier opener of its kind to close, opens a span: it becomes the one opener of its
/// kind, and reading goes on just after it.
pub proof fn lemma_delimiter_before_text_opens(
    t: Seq<u8>,
    st: InlineState,
    pos: usize,
    c: u8,
    annotation: Comp,
    defaultmatch: Atom,
)
    requires
        pos + 1 < t.len(),
        t.len() + 8 <= usize::MAX,
        !crate::luapat::is_white(t[pos + 1]),
        t[pos + 1] != 125,
        !(pos > 0 && st.matches.contains_key((pos - 1) as usize) && st.matches[(pos - 1) as usize].a
            == Annot::Atom(Atom::OpenMarker)),
        openers_of(st, c).len() == 0,
    ensures
        openers_of(spec_between(t, st, pos, c, annotation, defaultmatch).0, c) == seq![new_opener(pos, pos)],
        spec_between(t, st, pos, c, annotation, defaultmatch).1 == pos + 1,
{
    assert(((pos + 1) as usize) as int == pos + 1);
    lemma_nonspace_admits(t, (pos + 1) as usize);
    assert(openers_of(st, c).push(new_opener(pos, pos)) =~= seq![new_opener(pos, pos)]);
}

/// `^[%p ]` finds the first byte where it is ASCII punctuation.
proof fn lemma_punct_admits(t: Seq<u8>, start: usize)
    requires
        start < t.len(),
        t.len() + 8 <= usize::MAX,
        crate::luapat::is_punct(t[start as int]),
    ensures
        spec_find(t, bytes_of("^[%p ]"), start, false).is_match,
        spec_find(t, bytes_of("^[%p ]"), start, false).start == start,
        spec_find(t, bytes_of("^[%p ]"), start, false).end == start + 1,
{
    reveal_strlit("^[%p ]");
    crate::patterns::lemma_ascii_bytes("^[%p ]");
    let pat = bytes_of("^[%p ]");
    assert(pat =~= seq![94u8, 91u8, 37u8, 112u8, 32u8, 93u8]);
    let src = t.subrange(start as int, t.len() as int);
    assert(src[0] == t[start as int]);
    let caps = crate::luapat::init_caps();
    assert(crate::luapat::bracket_end(pat, 4) == Some(6int));
    assert(crate::luapat::bracket_end(pat, 2) == Some(6int));
    assert(crate::luapat::spec_check(pat, 6, 0, Seq::empty(), caps) == Ok::<(), Seq<char>>(()));
    assert(crate::luapat::spec_check(pat, 1, 0, Seq::empty(), caps) == Ok::<(), Seq<char>>(()));
    assert(crate::luapat::spec_classend(pat, 1) == Some(6int));
    assert(crate::luapat::bracket_items(src[0], pat, 2, 5));
    crate::luapat::lemma_pm_last_item_admits(src, pat, search_start(), 0, 1);
    crate::patterns::lemma_find_anchored_first_byte(t, pat, start, false);
}

/// `^ ` finds nothing where a byte other than a space (or the end) comes first.
proof fn lemma_space_refuses(t: Seq<u8>, start: usize)
    requires
        start <= t.len(),
        start == t.len() || t[start as int] != 32,
    ensures
        !spec_find(t, bytes_of("^ "), start, false).is_match,
{
    reveal_strlit("^ ");
    crate::patterns::lemma_ascii_bytes("^ ");
    let pat = bytes_of("^ ");
    assert(pat =~= seq![94u8, 32u8]);
    let src = t.subrange(start as int, t.len() as int);
    if start < t.len() {
        assert(src[0] == t[start as int]);
    }
    assert(crate::luapat::spec_classend(pat, 1) == Some(2int));
    crate::luapat::lemma_pm_refused_item(src, pat, search_start(), 0, 1, 2);
    crate::patterns::lemma_find_anchored_none(t, pat, start, false);
}

/// A backslash before ASCII punctuation escapes it: the backslash is an escape, the
/// punctuation byte after it is plain text on its own, and reading goes on after both.
pub proof fn lemma_backslash_escapes_punctuation(t: Seq<u8>, st: InlineState, pos: usize, endpos: usize)
    requires
        pos + 2 <= endpos,
        pos + 1 < t.len(),
        t.len() + 8 <= usize::MAX,
        (33 <= t[pos + 1] <= 47) || (58 <= t[pos + 1] <= 64) || (91 <= t[pos + 1] <= 96) || (123
            <= t[pos + 1] <= 126),
    ensures
        spec_backslash(t, st, pos, endpos).1 == Some((pos + 2) as usize),
        spec_backslash(t, st, pos, endpos).0.matches == st.matches.insert(
            pos,
            Match { s: pos, e: (pos + 1) as usize, a: Annot::Atom(Atom::Escape) },
        ).insert((pos + 1) as usize, Match { s: (pos + 1) as usize, e: (pos + 2) as usize, a: Annot::Atom(Atom::Str) }),
{
    let p1 = (pos + 1) as usize;
    assert(p1 as int == pos + 1);
    lemma_hardbreak_refuses(t, p1);
    lemma_punct_admits(t, p1);
    lemma_space_refuses(t, p1);
    let st1 = put_match(st, pos, p1, Annot::Atom(Atom::Escape));
    let st2 = put_match(st1, pos, p1, Annot::Atom(Atom::Escape));
    assert(st2.matches =~= st1.matches);
}

} // verus!
