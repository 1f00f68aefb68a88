//! A tokenizer for attribute blocks such as `{#id .class key="value"}`, fed one range of
//! the subject at a time.
use crate::annot::{Annot, Atom};
use crate::patterns::{bytes_of, find_at, found, text_bytes};
use crate::Match;
use vstd::prelude::*;

verus! {

#[derive(Debug, Clone, Copy, PartialEq, Eq, Structural)]
pub enum State {
    Scanning,
    ScanningId,
    ScanningClass,
    ScanningKey,
    ScanningValue,
    ScanningBareValue,
    ScanningQuotedValue,
    ScanningEscaped,
    ScanningComment,
    Fail,
    Done,
    Start,
}

#[derive(Debug, Clone, Copy, PartialEq, Eq, Structural)]
pub enum Status {
    Done,
    Fail,
    Continue,
}

pub struct Tokenizer {
    pub subject: String,
    pub state: State,
    pub begin: usize,
    pub lastpos: usize,
    pub matches: Vec<Match>,
}

/// The position that marks "no range begun".
pub open spec fn no_begin() -> usize {
    usize::MAX
}

/// The states in which `begin` marks where the current item began.
pub open spec fn has_begin(st: State) -> bool {
    match st {
        State::ScanningId | State::ScanningClass | State::ScanningKey | State::ScanningBareValue
        | State::ScanningQuotedValue | State::ScanningEscaped | State::ScanningComment => true,
        _ => false,
    }
}

/// One step on an identifier or class name, whose atom is `atom`.
pub open spec fn spec_step_ident(t: Seq<u8>, begin: usize, lastpos: usize, pos: usize, atom: Atom, st: State) -> (State, usize, Option<Match>) {
    let c = t[pos as int];
    if c == 95 || c == 45 || c == 58 {
        (st, begin, None)
    } else if c == 125 {
        (State::Done, no_begin(), if lastpos > begin + 1 {
            Some(Match { s: (begin + 1) as usize, e: lastpos, a: Annot::Atom(atom) })
        } else {
            None
        })
    } else if found(t, "^[^%s%p]", pos) {
        (st, begin, None)
    } else if found(t, "^%s", pos) {
        (State::Scanning, no_begin(), if lastpos > begin + 1 {
            Some(Match { s: (begin + 1) as usize, e: lastpos, a: Annot::Atom(atom) })
        } else {
            None
        })
    } else {
        (State::Fail, begin, None)
    }
}

/// One step of the tokenizer on the byte at `pos`: the next state, the position where the
/// current item began, and the range it annotates, if any.
pub open spec fn spec_step(t: Seq<u8>, st: State, begin: usize, lastpos: usize, pos: usize) -> (State, usize, Option<Match>) {
    let c = t[pos as int];
    match st {
        State::Start => (if found(t, "^{", pos) {
            State::Scanning
        } else {
            State::Fail
        }, begin, None),
        State::Fail => (State::Fail, begin, None),
        State::Done => (State::Done, begin, None),
        State::Scanning => if c == 32 || c == 9 || c == 10 || c == 13 {
            (State::Scanning, begin, None)
        } else if c == 125 {
            (State::Done, begin, None)
        } else if c == 35 {
            (State::ScanningId, pos, None)
        } else if c == 37 {
            (State::ScanningComment, pos, None)
        } else if c == 46 {
            (State::ScanningClass, pos, None)
        } else if found(t, "^[%a%d_:-]", pos) {
            (State::ScanningKey, pos, None)
        } else {
            (State::Fail, begin, None)
        },
        State::ScanningComment => (if c == 37 {
            State::Scanning
        } else {
            State::ScanningComment
        }, begin, None),
        State::ScanningId => spec_step_ident(t, begin, lastpos, pos, Atom::Id, State::ScanningId),
        State::ScanningClass => spec_step_ident(t, begin, lastpos, pos, Atom::Class, State::ScanningClass),
        State::ScanningKey => if c == 61 {
            (State::ScanningValue, no_begin(), Some(Match { s: begin, e: lastpos, a: Annot::Atom(Atom::Key) }))
        } else if found(t, "^[%a%d_:-]", pos) {
            (State::ScanningKey, begin, None)
        } else {
            (State::Fail, begin, None)
        },
        State::ScanningValue => if c == 34 {
            (State::ScanningQuotedValue, pos, None)
        } else if found(t, "^[%a%d_:-]", pos) {
            (State::ScanningBareValue, pos, None)
        } else {
            (State::Fail, begin, None)
        },
        State::ScanningBareValue => if found(t, "^[%a%d_:-]", pos) {
            (State::ScanningBareValue, begin, None)
        } else if c == 125 {
            (State::Done, no_begin(), Some(Match { s: begin, e: lastpos, a: Annot::Atom(Atom::Value) }))
        } else if found(t, "^%s", pos) {
            (State::Scanning, no_begin(), Some(Match { s: begin, e: lastpos, a: Annot::Atom(Atom::Value) }))
        } else {
            (State::Fail, begin, None)
        },
        State::ScanningEscaped => (State::ScanningQuotedValue, begin, None),
        State::ScanningQuotedValue => if c == 34 {
            (State::Scanning, no_begin(), Some(Match { s: (begin + 1) as usize, e: lastpos, a: Annot::Atom(Atom::Value) }))
        } else if c == 92 {
            (State::ScanningEscaped, begin, None)
        } else if c == 123 || c == 125 {
            (State::Fail, begin, None)
        } else if c == 10 {
            (State::ScanningQuotedValue, begin, Some(Match { s: (begin + 1) as usize, e: lastpos, a: Annot::Atom(Atom::Value) }))
        } else {
            (State::ScanningQuotedValue, begin, None)
        },
    }
}

/// The matches with an optional new one appended.
pub open spec fn push_opt(ms: Seq<Match>, m: Option<Match>) -> Seq<Match> {
    match m {
        Some(m) => ms.push(m),
        None => ms,
    }
}

/// Feeding the bytes `pos..=endpos` one at a time, from the given state: the state, begin,
/// last position and matches after, with the status and position reported (on `Continue`,
/// the last position of the range).
pub open spec fn spec_feed(t: Seq<u8>, st: State, begin: usize, lastpos: usize, ms: Seq<Match>, pos: int, endpos: int) -> (State, usize, usize, Seq<Match>, Status, int)
    decreases endpos + 1 - pos,
{
    if pos > endpos || pos < 0 {
        (st, begin, lastpos, ms, Status::Continue, endpos)
    } else {
        let (st2, b2, m) = spec_step(t, st, begin, lastpos, pos as usize);
        let ms2 = push_opt(ms, m);
        if st2 == State::Done {
            (st2, b2, lastpos, ms2, Status::Done, pos)
        } else if st2 == State::Fail {
            (st2, b2, (pos + 1) as usize, ms2, Status::Fail, pos)
        } else {
            spec_feed(t, st2, b2, (pos + 1) as usize, ms2, pos + 1, endpos)
        }
    }
}

impl Tokenizer {
    /// The bytes of the subject.
    pub open spec fn text(&self) -> Seq<u8> {
        text_bytes(self.subject@)
    }

    /// Where an item has begun, `begin` is a position in the subject.
    pub open spec fn wf(&self) -> bool {
        has_begin(self.state) ==> self.begin < self.text().len()
    }

    pub fn new(subject: String) -> (r: Tokenizer)
        ensures
            r.subject == subject,
            r.state == State::Start,
            r.begin == 0,
            r.lastpos == 0,
            r.matches@.len() == 0,
            r.wf(),
    {
        Tokenizer { subject, state: State::Start, begin: 0, lastpos: 0, matches: Vec::new() }
    }

    fn add_match(&mut self, s: usize, e: usize, annot: Annot)
        ensures
            final(self).matches@ == old(self).matches@.push(Match { s, e, a: annot }),
            final(self).subject == old(self).subject,
            final(self).state == old(self).state,
            final(self).begin == old(self).begin,
            final(self).lastpos == old(self).lastpos,
    {
        self.matches.push(Match::new(s, e, annot))
    }

    /// Hands out the matches gathered so far, and forgets them.
    pub fn get_matches(&mut self) -> (r: Vec<Match>)
        ensures
            r@ == old(self).matches@,
            final(self).matches@.len() == 0,
            final(self).subject == old(self).subject,
            final(self).state == old(self).state,
            final(self).begin == old(self).begin,
            final(self).lastpos == old(self).lastpos,
    {
        let mut r: Vec<Match> = Vec::new();
        std::mem::swap(&mut r, &mut self.matches);
        r
    }

    /// Feeds the tokenizer the bytes from `startpos` to `endpos` inclusive. The status is
    /// `Done` when the block closed (the position points to the final `}`), `Fail` when a
    /// byte could not be tokenized (the position points to it), and `Continue` when the range
    /// ran out (the position points to the last byte parsed, `endpos`).
    pub fn feed(&mut self, startpos: usize, endpos: usize) -> (r: (Status, usize))
        requires
            old(self).wf(),
            endpos < old(self).text().len(),
        ensures
            final(self).wf(),
            final(self).subject == old(self).subject,
            ({
                let (st, b, lp, ms, status, pos) = spec_feed(
                    old(self).text(),
                    old(self).state,
                    old(self).begin,
                    old(self).lastpos,
                    old(self).matches@,
                    startpos as int,
                    endpos as int,
                );
                &&& final(self).state == st
                &&& final(self).begin == b
                &&& final(self).lastpos == lp
                &&& final(self).matches@ == ms
                &&& r.0 == status
                &&& r.1 == pos
            }),
    {
        let len = self.subject.as_str().as_bytes().len();
        let mut pos = startpos;
        while pos <= endpos
            invariant
                self.wf(),
                self.subject == old(self).subject,
                endpos < self.text().len(),
                len == self.text().len(),
                startpos <= pos,
                pos <= endpos + 1 || pos == startpos,
                spec_feed(
                    old(self).text(),
                    old(self).state,
                    old(self).begin,
                    old(self).lastpos,
                    old(self).matches@,
                    startpos as int,
                    endpos as int,
                ) == spec_feed(
                    self.text(),
                    self.state,
                    self.begin,
                    self.lastpos,
                    self.matches@,
                    pos as int,
                    endpos as int,
                ),
            decreases endpos + 1 - pos,
        {
            let st = self.step(pos);
            self.state = st;
            match st {
                State::Done => {
                    return (Status::Done, pos);
                },
                State::Fail => {
                    self.lastpos = pos + 1;
                    return (Status::Fail, pos);
                },
                _ => {
                    self.lastpos = pos + 1;
                    pos = pos + 1;
                },
            }
        }
        (Status::Continue, endpos)
    }

    fn step(&mut self, pos: usize) -> (r: State)
        requires
            old(self).wf(),
            pos < old(self).text().len(),
        ensures
            final(self).subject == old(self).subject,
            final(self).state == old(self).state,
            final(self).lastpos == old(self).lastpos,
            ({
                let (st, b, m) = spec_step(old(self).text(), old(self).state, old(self).begin, old(self).lastpos, pos);
                &&& r == st
                &&& final(self).begin == b
                &&& final(self).matches@ == push_opt(old(self).matches@, m)
            }),
            has_begin(r) ==> final(self).begin < final(self).text().len(),
    {
        let bytes = self.subject.as_str().as_bytes();
        let c = bytes[pos];
        match self.state {
            State::Start => {
                if find_at(self.subject.as_str(), "^{", pos).is_match {
                    State::Scanning
                } else {
                    State::Fail
                }
            },
            State::Fail => State::Fail,
            State::Done => State::Done,
            State::Scanning => {
                if c == 32 || c == 9 || c == 10 || c == 13 {
                    State::Scanning
                } else if c == 125 {
                    State::Done
                } else if c == 35 {
                    self.begin = pos;
                    State::ScanningId
                } else if c == 37 {
                    self.begin = pos;
                    State::ScanningComment
                } else if c == 46 {
                    self.begin = pos;
                    State::ScanningClass
                } else if find_at(self.subject.as_str(), "^[%a%d_:-]", pos).is_match {
                    self.begin = pos;
                    State::ScanningKey
                } else {
                    State::Fail
                }
            },
            State::ScanningComment => {
                if c == 37 {
                    State::Scanning
                } else {
                    State::ScanningComment
                }
            },
            State::ScanningId => self.step_ident(pos, Atom::Id, State::ScanningId),
            State::ScanningClass => self.step_ident(pos, Atom::Class, State::ScanningClass),
            State::ScanningKey => {
                if c == 61 {
                    self.add_match(self.begin, self.lastpos, Annot::Atom(Atom::Key));
                    self.begin = usize::MAX;
                    State::ScanningValue
                } else if find_at(self.subject.as_str(), "^[%a%d_:-]", pos).is_match {
                    State::ScanningKey
                } else {
                    State::Fail
                }
            },
            State::ScanningValue => {
                if c == 34 {
                    self.begin = pos;
                    State::ScanningQuotedValue
                } else if find_at(self.subject.as_str(), "^[%a%d_:-]", pos).is_match {
                    self.begin = pos;
                    State::ScanningBareValue
                } else {
                    State::Fail
                }
            },
            State::ScanningBareValue => {
                if find_at(self.subject.as_str(), "^[%a%d_:-]", pos).is_match {
                    State::ScanningBareValue
                } else if c == 125 {
                    self.add_match(self.begin, self.lastpos, Annot::Atom(Atom::Value));
                    self.begin = usize::MAX;
                    State::Done
                } else if find_at(self.subject.as_str(), "^%s", pos).is_match {
                    self.add_match(self.begin, self.lastpos, Annot::Atom(Atom::Value));
                    self.begin = usize::MAX;
                    State::Scanning
                } else {
                    State::Fail
                }
            },
            State::ScanningEscaped => State::ScanningQuotedValue,
            State::ScanningQuotedValue => {
                if c == 34 {
                    self.add_match(self.begin + 1, self.lastpos, Annot::Atom(Atom::Value));
                    self.begin = usize::MAX;
                    State::Scanning
                } else if c == 92 {
                    State::ScanningEscaped
                } else if c == 123 || c == 125 {
                    State::Fail
                } else if c == 10 {
                    self.add_match(self.begin + 1, self.lastpos, Annot::Atom(Atom::Value));
                    State::ScanningQuotedValue
                } else {
                    State::ScanningQuotedValue
                }
            },
        }
    }

    fn step_ident(&mut self, pos: usize, atom: Atom, state: State) -> (r: State)
        requires
            has_begin(old(self).state),
            old(self).wf(),
            pos < old(self).text().len(),
        ensures
            final(self).subject == old(self).subject,
            final(self).state == old(self).state,
            final(self).lastpos == old(self).lastpos,
            ({
                let (st, b, m) = spec_step_ident(old(self).text(), old(self).begin, old(self).lastpos, pos, atom, state);
                &&& r == st
                &&& final(self).begin == b
                &&& final(self).matches@ == push_opt(old(self).matches@, m)
            }),
    {
        let bytes = self.subject.as_str().as_bytes();
        let c = bytes[pos];
        if c == 95 || c == 45 || c == 58 {
            state
        } else if c == 125 {
            if self.lastpos > self.begin + 1 {
                self.add_match(self.begin + 1, self.lastpos, Annot::Atom(atom))
            }
            self.begin = usize::MAX;
            State::Done
        } else if find_at(self.subject.as_str(), "^[^%s%p]", pos).is_match {
            state
        } else if find_at(self.subject.as_str(), "^%s", pos).is_match {
            if self.lastpos > self.begin + 1 {
                self.add_match(self.begin + 1, self.lastpos, Annot::Atom(atom))
            }
            self.begin = usize::MAX;
            State::Scanning
        } else {
            State::Fail
        }
    }
}

/// Feeding is resumable: when feeding the bytes `pos..=mid` runs out with `Continue`,
/// feeding on from `mid + 1` to `endpos` ends as feeding `pos..=endpos` at once.
pub proof fn lemma_feed_resumes(
    t: Seq<u8>,
    st: State,
    begin: usize,
    lastpos: usize,
    ms: Seq<Match>,
    pos: int,
    mid: int,
    endpos: int,
)
    requires
        0 <= pos <= mid < endpos,
        spec_feed(t, st, begin, lastpos, ms, pos, mid).4 == Status::Continue,
    ensures
        ({
            let (st1, b1, lp1, ms1, _, _) = spec_feed(t, st, begin, lastpos, ms, pos, mid);
            spec_feed(t, st1, b1, lp1, ms1, mid + 1, endpos) == spec_feed(t, st, begin, lastpos, ms, pos, endpos)
        }),
    decreases mid - pos,
{
    let (st2, b2, m) = spec_step(t, st, begin, lastpos, pos as usize);
    let ms2 = push_opt(ms, m);
    assert(st2 != State::Done && st2 != State::Fail);
    let next = spec_feed(t, st2, b2, (pos + 1) as usize, ms2, pos + 1, endpos);
    assert(spec_feed(t, st, begin, lastpos, ms, pos, endpos) == next);
    if pos < mid {
        assert(spec_feed(t, st, begin, lastpos, ms, pos, mid) == spec_feed(t, st2, b2, (pos + 1) as usize, ms2, pos + 1, mid));
        lemma_feed_resumes(t, st2, b2, (pos + 1) as usize, ms2, pos + 1, mid, endpos);
    } else {
        assert(spec_feed(t, st2, b2, (pos + 1) as usize, ms2, pos + 1, mid) == (st2, b2, (pos + 1) as usize, ms2, Status::Continue, mid));
    }
}

/// Failing and finishing are final: from `Fail` or `Done` every later step stays in that
/// state, keeps where the item began and annotates nothing, and feeding more bytes stops at
/// the first of them with the same status.
pub proof fn lemma_final_states_absorb(
    t: Seq<u8>,
    begin: usize,
    lastpos: usize,
    ms: Seq<Match>,
    pos: int,
    endpos: int,
)
    requires
        0 <= pos <= endpos,
        pos + 1 <= usize::MAX,
    ensures
        spec_step(t, State::Fail, begin, lastpos, pos as usize) == (State::Fail, begin, None::<Match>),
        spec_step(t, State::Done, begin, lastpos, pos as usize) == (State::Done, begin, None::<Match>),
        spec_feed(t, State::Fail, begin, lastpos, ms, pos, endpos) == (
            State::Fail,
            begin,
            (pos + 1) as usize,
            ms,
            Status::Fail,
            pos,
        ),
        spec_feed(t, State::Done, begin, lastpos, ms, pos, endpos) == (
            State::Done,
            begin,
            lastpos,
            ms,
            Status::Done,
            pos,
        ),
{
}

} // verus!
